//! The settings of a run: how much is printed, whether the build is
//! optimized, and the names and the directory that override the defaults.

use vstd::prelude::*;
use vstd::string::*;
use crate::text::{ascii_lower, debug_text, format_debug, same_text, to_ascii_lowercase};

verus! {

/// How much a run prints.
#[derive(Clone, Copy, Debug, PartialEq, Eq, Structural)]
pub enum Mode {
    Normal,
    Quiet,
    Verbose,
}

/// The mode that `value` names, in any mix of upper and lower case.
pub open spec fn mode_of(value: Seq<char>) -> Result<Mode, ()> {
    let lower = ascii_lower(value);
    if lower == "verbose"@ {
        Ok(Mode::Verbose)
    } else if lower == "quiet"@ {
        Ok(Mode::Quiet)
    } else if lower == "normal"@ {
        Ok(Mode::Normal)
    } else {
        Err(())
    }
}

/// The name of a mode, in lower case.
pub open spec fn mode_name(mode: Mode) -> Seq<char> {
    match mode {
        Mode::Normal => "normal"@,
        Mode::Quiet => "quiet"@,
        Mode::Verbose => "verbose"@,
    }
}

impl Mode {
    /// The mode that `value` names: `verbose`, `quiet` or `normal`, in any
    /// mix of upper and lower case.
    pub fn try_from(value: String) -> (r: Result<Mode, ()>)
        ensures
            r == mode_of(value@),
    {
        let lower = to_ascii_lowercase(value.as_str());
        if same_text(lower.as_str(), "verbose") {
            Ok(Mode::Verbose)
        } else if same_text(lower.as_str(), "quiet") {
            Ok(Mode::Quiet)
        } else if same_text(lower.as_str(), "normal") {
            Ok(Mode::Normal)
        } else {
            Err(())
        }
    }

    /// Whether a run in this mode reports what it does: every mode but
    /// the quiet one.
    pub fn reports(self) -> (r: bool)
        ensures
            r == (self != Mode::Quiet),
    {
        match self {
            Mode::Quiet => false,
            _ => true,
        }
    }

    /// Whether a run in this mode reports every step: the verbose mode
    /// only.
    pub fn details(self) -> (r: bool)
        ensures
            r == (self == Mode::Verbose),
    {
        match self {
            Mode::Verbose => true,
            _ => false,
        }
    }

    /// The name of the mode, in lower case.
    pub fn name(self) -> (r: &'static str)
        ensures
            r@ == mode_name(self),
    {
        match self {
            Mode::Normal => "normal",
            Mode::Quiet => "quiet",
            Mode::Verbose => "verbose",
        }
    }
}

/// The characters of a string that may be absent.
pub open spec fn text_of(value: Option<String>) -> Option<Seq<char>> {
    match value {
        Some(s) => Some(s@),
        None => None,
    }
}

/// The settings as a settings file gives them: every one may be left out.
#[derive(Clone, Debug, PartialEq, Eq)]
pub struct TomlSettings {
    pub optimize: Option<bool>,
    pub bin_name: Option<String>,
    pub shell_name: Option<String>,
    pub mode: Option<String>,
    pub sh_dir: Option<String>,
}

impl Default for TomlSettings {
    /// The settings of a run without a settings file: optimized, and
    /// nothing else said.
    fn default() -> (r: TomlSettings)
        ensures
            r.optimize == Some(true),
            r.bin_name is None,
            r.shell_name is None,
            r.mode is None,
            r.sh_dir is None,
    {
        TomlSettings {
            optimize: Some(true),
            bin_name: None,
            shell_name: None,
            mode: None,
            sh_dir: None,
        }
    }
}

/// What is wrong with the settings of a run.
#[derive(Clone, Debug, PartialEq, Eq)]
pub enum SettingsError {
    /// The settings file could not be understood; the text says why.
    Invalid(String),
    /// The mode is none of `verbose`, `quiet` and `normal`.
    InvalidMode,
}

/// What reading and parsing the settings file came to: nothing where the
/// file could not be read, else the settings in it or the parser's
/// complaint.
pub type Loaded = Option<Result<TomlSettings, String>>;

impl TomlSettings {
    /// The settings to go by: those of the file where it was read and
    /// understood, the defaults where it could not be read, and an error
    /// that quotes the parser where it could not be understood.
    pub fn get(loaded: Loaded) -> (r: Result<TomlSettings, String>)
        ensures
            match loaded {
                Some(Ok(settings)) => r == Ok::<TomlSettings, String>(settings),
                Some(Err(complaint)) => r matches Err(text) && text@ == "Invalid settings: "@
                    + complaint@,
                None => r matches Ok(settings) && settings.optimize == Some(true)
                    && settings.bin_name is None && settings.shell_name is None
                    && settings.mode is None && settings.sh_dir is None,
            },
    {
        match loaded {
            Some(Ok(settings)) => Ok(settings),
            Some(Err(complaint)) => {
                let mut text = String::from_str("Invalid settings: ");
                text.append(complaint.as_str());
                Err(text)
            },
            None => Ok(TomlSettings::default()),
        }
    }
}

/// The settings of a run.
#[derive(Clone, Debug, PartialEq, Eq)]
pub struct Settings {
    pub optimize: bool,
    pub bin_name: Option<String>,
    pub shell_name: Option<String>,
    pub mode: Mode,
    pub sh_dir: Option<String>,
}

/// What the settings of a run say.
pub struct SettingsView {
    pub optimize: bool,
    pub bin_name: Option<Seq<char>>,
    pub shell_name: Option<Seq<char>>,
    pub mode: Mode,
    pub sh_dir: Option<Seq<char>>,
}

impl View for Settings {
    type V = SettingsView;

    open spec fn view(&self) -> SettingsView {
        SettingsView {
            optimize: self.optimize,
            bin_name: text_of(self.bin_name),
            shell_name: text_of(self.shell_name),
            mode: self.mode,
            sh_dir: text_of(self.sh_dir),
        }
    }
}

/// The name that an argument asks for: the default where it says
/// `default`, else the name it gives.
pub open spec fn named(item: Seq<char>) -> Option<Seq<char>> {
    if item == "default"@ {
        None
    } else {
        Some(item)
    }
}

/// The settings that a settings file asks for: optimized unless it says
/// otherwise, and in normal mode unless it names another.
pub open spec fn settings_of(file: TomlSettings) -> Result<SettingsView, ()> {
    let mode = match file.mode {
        Some(name) => mode_of(name@),
        None => Ok(Mode::Normal),
    };
    match mode {
        Ok(mode) => Ok(
            SettingsView {
                optimize: match file.optimize {
                    Some(optimize) => optimize,
                    None => true,
                },
                bin_name: text_of(file.bin_name),
                shell_name: text_of(file.shell_name),
                mode,
                sh_dir: text_of(file.sh_dir),
            },
        ),
        Err(_) => Err(()),
    }
}

/// An argument that takes a value behind it.
#[derive(Clone, Copy, Debug, PartialEq, Eq, Structural)]
pub enum Flag {
    ShDir,
    BinName,
    ShellName,
}

/// What the arguments of a run come to.
#[derive(Clone, Copy, Debug, PartialEq, Eq, Structural)]
pub enum Parsed {
    /// Every argument was read: the run goes on.
    Run,
    /// `help` was asked for: the usage is printed and nothing else is done.
    Help,
    /// The last argument takes a value, and none follows it.
    Missing(Flag),
}

/// The characters of each of `args`, in order.
pub open spec fn arg_texts(args: Seq<String>) -> Seq<Seq<char>> {
    args.map_values(|arg: String| arg@)
}

/// The settings after the arguments from `args[from]` on have been applied
/// to `settings` from left to right, and what they come to. An argument
/// that stands for nothing is passed over; `help` and a missing value end
/// the reading where they stand. Normal mode is asked for as `--noraml`.
pub open spec fn after_args(settings: SettingsView, args: Seq<Seq<char>>, from: int) -> (
    SettingsView,
    Parsed,
)
    decreases args.len() - from,
{
    if from < 0 || from >= args.len() {
        (settings, Parsed::Run)
    } else {
        let arg = args[from];
        if arg == "--noraml"@ {
            after_args(SettingsView { mode: Mode::Normal, ..settings }, args, from + 1)
        } else if arg == "--quiet"@ {
            after_args(SettingsView { mode: Mode::Quiet, ..settings }, args, from + 1)
        } else if arg == "--verbose"@ {
            after_args(SettingsView { mode: Mode::Verbose, ..settings }, args, from + 1)
        } else if arg == "--unoptimize"@ {
            after_args(SettingsView { optimize: false, ..settings }, args, from + 1)
        } else if arg == "--optimize"@ {
            after_args(SettingsView { optimize: true, ..settings }, args, from + 1)
        } else if arg == "--sh-dir"@ {
            if from + 1 < args.len() {
                after_args(
                    SettingsView { sh_dir: Some(args[from + 1]), ..settings },
                    args,
                    from + 2,
                )
            } else {
                (settings, Parsed::Missing(Flag::ShDir))
            }
        } else if arg == "--bin-name"@ {
            if from + 1 < args.len() {
                after_args(
                    SettingsView { bin_name: named(args[from + 1]), ..settings },
                    args,
                    from + 2,
                )
            } else {
                (settings, Parsed::Missing(Flag::BinName))
            }
        } else if arg == "--shell-name"@ {
            if from + 1 < args.len() {
                after_args(
                    SettingsView { shell_name: named(args[from + 1]), ..settings },
                    args,
                    from + 2,
                )
            } else {
                (settings, Parsed::Missing(Flag::ShellName))
            }
        } else if arg == "help"@ {
            (settings, Parsed::Help)
        } else {
            after_args(settings, args, from + 1)
        }
    }
}

/// What the settings print as, one per line.
pub open spec fn settings_text(settings: SettingsView) -> Seq<char> {
    "optimize: "@ + (if settings.optimize {
        "true"@
    } else {
        "false"@
    }) + "\n"@ + "bin name: "@ + (match settings.bin_name {
        Some(name) => name,
        None => "default"@,
    }) + "\n"@ + "shell name: "@ + (match settings.shell_name {
        Some(name) => name,
        None => "default"@,
    }) + "\n"@ + "mode: "@ + mode_name(settings.mode) + "\n"@ + "shell script out path: "@
        + debug_text(settings.sh_dir) + "\n"@
}

impl Settings {
    /// The settings that a settings file asks for, unless it names a mode
    /// that does not exist.
    pub fn from(settings: TomlSettings) -> (r: Result<Settings, SettingsError>)
        ensures
            match settings_of(settings) {
                Ok(view) => r matches Ok(made) && made@ == view,
                Err(_) => r matches Err(SettingsError::InvalidMode),
            },
    {
        let mode = match settings.mode {
            Some(mode) => match Mode::try_from(mode) {
                Ok(mode) => mode,
                Err(_) => {
                    return Err(SettingsError::InvalidMode);
                },
            },
            None => Mode::Normal,
        };
        let optimize = match settings.optimize {
            Some(optimize) => optimize,
            None => true,
        };
        Ok(
            Settings {
                optimize,
                bin_name: settings.bin_name,
                shell_name: settings.shell_name,
                mode,
                sh_dir: settings.sh_dir,
            },
        )
    }

    /// The settings of a run, from what reading and parsing the settings
    /// file came to.
    pub fn get(loaded: Loaded) -> (r: Result<Settings, SettingsError>)
        ensures
            match loaded {
                Some(Ok(settings)) => match settings_of(settings) {
                    Ok(view) => r matches Ok(made) && made@ == view,
                    Err(_) => r matches Err(SettingsError::InvalidMode),
                },
                Some(Err(complaint)) => r matches Err(SettingsError::Invalid(text)) && text@
                    == "Invalid settings: "@ + complaint@,
                None => r matches Ok(made) && made@ == (SettingsView {
                    optimize: true,
                    bin_name: None,
                    shell_name: None,
                    mode: Mode::Normal,
                    sh_dir: None,
                }),
            },
    {
        match TomlSettings::get(loaded) {
            Ok(settings) => Settings::from(settings),
            Err(text) => Err(SettingsError::Invalid(text)),
        }
    }

    /// Sets the name of the binary from the argument behind `--bin-name`:
    /// `default` takes the override away, anything else becomes the name.
    pub fn bin_arg(&mut self, arg: Option<String>)
        requires
            arg is Some,
        ensures
            final(self)@ == (SettingsView { bin_name: named(arg->0@), ..old(self)@ }),
    {
        match arg {
            Some(item) => {
                if same_text(item.as_str(), "default") {
                    self.bin_name = None;
                } else {
                    self.bin_name = Some(item);
                }
            },
            None => {},
        }
    }

    /// Sets the name of the script from the argument behind
    /// `--shell-name`: `default` takes the override away, anything else
    /// becomes the name.
    pub fn shell_arg(&mut self, arg: Option<String>)
        requires
            arg is Some,
        ensures
            final(self)@ == (SettingsView { shell_name: named(arg->0@), ..old(self)@ }),
    {
        match arg {
            Some(item) => {
                if same_text(item.as_str(), "default") {
                    self.shell_name = None;
                } else {
                    self.shell_name = Some(item);
                }
            },
            None => {},
        }
    }

    /// Applies the arguments of a run to the settings, from left to right,
    /// and says what they come to.
    pub fn apply_args(&mut self, args: &Vec<String>) -> (r: Parsed)
        ensures
            (final(self)@, r) == after_args(old(self)@, arg_texts(args@), 0),
    {
        let ghost texts = arg_texts(args@);
        let mut i: usize = 0;
        while i < args.len()
            invariant
                i <= args@.len(),
                texts == arg_texts(args@),
                after_args(self@, texts, i as int) == after_args(old(self)@, texts, 0),
            decreases args@.len() - i,
        {
            let arg = args[i].as_str();
            assert(texts[i as int] == arg@);
            if same_text(arg, "--noraml") {
                self.mode = Mode::Normal;
                i = i + 1;
            } else if same_text(arg, "--quiet") {
                self.mode = Mode::Quiet;
                i = i + 1;
            } else if same_text(arg, "--verbose") {
                self.mode = Mode::Verbose;
                i = i + 1;
            } else if same_text(arg, "--unoptimize") {
                self.optimize = false;
                i = i + 1;
            } else if same_text(arg, "--optimize") {
                self.optimize = true;
                i = i + 1;
            } else if same_text(arg, "--sh-dir") {
                if i + 1 < args.len() {
                    assert(texts[i + 1] == args@[i + 1]@);
                    self.sh_dir = Some(args[i + 1].clone());
                    i = i + 2;
                } else {
                    return Parsed::Missing(Flag::ShDir);
                }
            } else if same_text(arg, "--bin-name") {
                if i + 1 < args.len() {
                    assert(texts[i + 1] == args@[i + 1]@);
                    self.bin_arg(Some(args[i + 1].clone()));
                    i = i + 2;
                } else {
                    return Parsed::Missing(Flag::BinName);
                }
            } else if same_text(arg, "--shell-name") {
                if i + 1 < args.len() {
                    assert(texts[i + 1] == args@[i + 1]@);
                    self.shell_arg(Some(args[i + 1].clone()));
                    i = i + 2;
                } else {
                    return Parsed::Missing(Flag::ShellName);
                }
            } else if same_text(arg, "help") {
                return Parsed::Help;
            } else {
                i = i + 1;
            }
        }
        Parsed::Run
    }

    /// The name of the binary that the script installs: the override where
    /// there is one, else the name of the package.
    pub fn binary_name<'a>(&'a self, package: &'a str) -> (r: &'a str)
        ensures
            r@ == match self@.bin_name {
                Some(name) => name,
                None => package@,
            },
    {
        match &self.bin_name {
            Some(name) => name.as_str(),
            None => package,
        }
    }

    /// The path of the script: the directory for scripts where one is set,
    /// then the override of the script's name or else the name of the
    /// package, then `.sh`.
    pub fn script_path(&self, package: &str) -> (r: String)
        ensures
            r@ == (match self@.sh_dir {
                Some(dir) => dir,
                None => Seq::empty(),
            }) + (match self@.shell_name {
                Some(name) => name,
                None => package@,
            }) + ".sh"@,
    {
        let mut path = match &self.sh_dir {
            Some(dir) => dir.clone(),
            None => String::new(),
        };
        match &self.shell_name {
            Some(name) => path.append(name.as_str()),
            None => path.append(package),
        }
        path.append(".sh");
        path
    }

    /// The settings as text, one per line.
    pub fn to_text(&self) -> (r: String)
        ensures
            r@ == settings_text(self@),
    {
        let mut out = String::from_str("optimize: ");
        out.append(if self.optimize { "true" } else { "false" });
        out.append("\n");
        out.append("bin name: ");
        match &self.bin_name {
            Some(name) => out.append(name.as_str()),
            None => out.append("default"),
        }
        out.append("\n");
        out.append("shell name: ");
        match &self.shell_name {
            Some(name) => out.append(name.as_str()),
            None => out.append("default"),
        }
        out.append("\n");
        out.append("mode: ");
        out.append(self.mode.name());
        out.append("\n");
        out.append("shell script out path: ");
        let path = format_debug(&self.sh_dir);
        out.append(path.as_str());
        out.append("\n");
        out
    }
}

} // verus!
