use wrap_install::settings::{Flag, Mode, Parsed, Settings, SettingsError, TomlSettings};

fn defaults() -> Settings {
    Settings::from(TomlSettings::default()).unwrap()
}

fn args(list: &[&str]) -> Vec<String> {
    list.iter().map(|s| s.to_string()).collect()
}

#[test]
fn mode_is_read_in_any_case() {
    assert_eq!(Mode::try_from("verbose".to_string()), Ok(Mode::Verbose));
    assert_eq!(Mode::try_from("quiet".to_string()), Ok(Mode::Quiet));
    assert_eq!(Mode::try_from("normal".to_string()), Ok(Mode::Normal));
    assert_eq!(Mode::try_from("QUIET".to_string()), Ok(Mode::Quiet));
    assert_eq!(Mode::try_from("VerBose".to_string()), Ok(Mode::Verbose));
    assert_eq!(Mode::try_from("nORMAL".to_string()), Ok(Mode::Normal));
}

#[test]
fn mode_of_another_word_is_refused() {
    assert_eq!(Mode::try_from("".to_string()), Err(()));
    assert_eq!(Mode::try_from("loud".to_string()), Err(()));
    assert_eq!(Mode::try_from(" quiet".to_string()), Err(()));
    assert_eq!(Mode::try_from("quiet\n".to_string()), Err(()));
    assert_eq!(Mode::try_from("--quiet".to_string()), Err(()));
    assert_eq!(Mode::try_from("qu\u{131}et".to_string()), Err(()));
}

#[test]
fn mode_names_are_lower_case() {
    assert_eq!(Mode::Normal.name(), "normal");
    assert_eq!(Mode::Quiet.name(), "quiet");
    assert_eq!(Mode::Verbose.name(), "verbose");
    assert_eq!(Mode::try_from(Mode::Verbose.name().to_string()), Ok(Mode::Verbose));
}

#[test]
fn quiet_mode_reports_nothing_and_verbose_mode_every_step() {
    assert!(Mode::Normal.reports());
    assert!(Mode::Verbose.reports());
    assert!(!Mode::Quiet.reports());
    assert!(Mode::Verbose.details());
    assert!(!Mode::Normal.details());
    assert!(!Mode::Quiet.details());
}

#[test]
fn default_file_settings_only_ask_for_optimizing() {
    let d = TomlSettings::default();
    assert_eq!(d.optimize, Some(true));
    assert_eq!(d.bin_name, None);
    assert_eq!(d.shell_name, None);
    assert_eq!(d.mode, None);
    assert_eq!(d.sh_dir, None);
}

#[test]
fn unreadable_file_gives_the_defaults() {
    let got = TomlSettings::get(None).unwrap();
    assert_eq!(got.optimize, Some(true));
    assert_eq!(got.mode, None);
    let settings = Settings::get(None).unwrap();
    assert!(settings.optimize);
    assert_eq!(settings.bin_name, None);
    assert_eq!(settings.shell_name, None);
    assert_eq!(settings.mode, Mode::Normal);
    assert_eq!(settings.sh_dir, None);
}

#[test]
fn parsed_file_is_handed_on() {
    let file = TomlSettings {
        optimize: Some(false),
        bin_name: Some("tool".to_string()),
        shell_name: None,
        mode: Some("Quiet".to_string()),
        sh_dir: Some("out/".to_string()),
    };
    let got = TomlSettings::get(Some(Ok(file))).unwrap();
    assert_eq!(got.optimize, Some(false));
    assert_eq!(got.bin_name, Some("tool".to_string()));
    assert_eq!(got.mode, Some("Quiet".to_string()));
    assert_eq!(got.sh_dir, Some("out/".to_string()));
}

#[test]
fn parser_complaint_is_quoted() {
    let r = TomlSettings::get(Some(Err("expected `=`".to_string())));
    assert_eq!(r.err(), Some("Invalid settings: expected `=`".to_string()));
    match Settings::get(Some(Err("bad".to_string()))) {
        Err(SettingsError::Invalid(text)) => assert_eq!(text, "Invalid settings: bad"),
        _ => panic!("the complaint was not handed on"),
    }
}

#[test]
fn settings_fill_in_what_the_file_leaves_out() {
    let file = TomlSettings {
        optimize: None,
        bin_name: None,
        shell_name: Some("install".to_string()),
        mode: None,
        sh_dir: None,
    };
    let settings = Settings::from(file).unwrap();
    assert!(settings.optimize);
    assert_eq!(settings.bin_name, None);
    assert_eq!(settings.shell_name, Some("install".to_string()));
    assert_eq!(settings.mode, Mode::Normal);
    assert_eq!(settings.sh_dir, None);
}

#[test]
fn settings_take_what_the_file_says() {
    let file = TomlSettings {
        optimize: Some(false),
        bin_name: Some("tool".to_string()),
        shell_name: Some("install".to_string()),
        mode: Some("VERBOSE".to_string()),
        sh_dir: Some("out/".to_string()),
    };
    let settings = Settings::get(Some(Ok(file))).unwrap();
    assert!(!settings.optimize);
    assert_eq!(settings.bin_name, Some("tool".to_string()));
    assert_eq!(settings.shell_name, Some("install".to_string()));
    assert_eq!(settings.mode, Mode::Verbose);
    assert_eq!(settings.sh_dir, Some("out/".to_string()));
}

#[test]
fn unknown_mode_in_the_file_is_an_error() {
    let mut file = TomlSettings::default();
    file.mode = Some("loud".to_string());
    assert!(matches!(Settings::from(file), Err(SettingsError::InvalidMode)));
    let mut file = TomlSettings::default();
    file.mode = Some("".to_string());
    assert!(matches!(Settings::get(Some(Ok(file))), Err(SettingsError::InvalidMode)));
}

#[test]
fn bin_arg_sets_or_clears_the_name() {
    let mut settings = defaults();
    settings.bin_arg(Some("tool".to_string()));
    assert_eq!(settings.bin_name, Some("tool".to_string()));
    settings.bin_arg(Some("default".to_string()));
    assert_eq!(settings.bin_name, None);
    settings.bin_arg(Some("Default".to_string()));
    assert_eq!(settings.bin_name, Some("Default".to_string()));
    settings.bin_arg(Some("".to_string()));
    assert_eq!(settings.bin_name, Some("".to_string()));
    assert_eq!(settings.shell_name, None);
}

#[test]
fn shell_arg_sets_or_clears_the_name() {
    let mut settings = defaults();
    settings.shell_arg(Some("install".to_string()));
    assert_eq!(settings.shell_name, Some("install".to_string()));
    assert_eq!(settings.bin_name, None);
    settings.shell_arg(Some("default".to_string()));
    assert_eq!(settings.shell_name, None);
}

#[test]
fn arguments_are_applied_from_left_to_right() {
    let mut settings = defaults();
    let r = settings.apply_args(&args(&[
        "wrap_install",
        "--quiet",
        "--unoptimize",
        "--sh-dir",
        "out/",
        "--bin-name",
        "tool",
        "--shell-name",
        "install",
        "--verbose",
    ]));
    assert_eq!(r, Parsed::Run);
    assert!(!settings.optimize);
    assert_eq!(settings.mode, Mode::Verbose);
    assert_eq!(settings.sh_dir, Some("out/".to_string()));
    assert_eq!(settings.bin_name, Some("tool".to_string()));
    assert_eq!(settings.shell_name, Some("install".to_string()));
}

#[test]
fn later_argument_overrides_earlier() {
    let mut settings = defaults();
    let r = settings.apply_args(&args(&[
        "--unoptimize",
        "--optimize",
        "--bin-name",
        "tool",
        "--bin-name",
        "default",
        "--verbose",
        "--noraml",
    ]));
    assert_eq!(r, Parsed::Run);
    assert!(settings.optimize);
    assert_eq!(settings.bin_name, None);
    assert_eq!(settings.mode, Mode::Normal);
}

#[test]
fn value_of_an_argument_is_not_read_as_an_argument() {
    let mut settings = defaults();
    let r = settings.apply_args(&args(&["--sh-dir", "--quiet", "--bin-name", "help"]));
    assert_eq!(r, Parsed::Run);
    assert_eq!(settings.sh_dir, Some("--quiet".to_string()));
    assert_eq!(settings.bin_name, Some("help".to_string()));
    assert_eq!(settings.mode, Mode::Normal);
}

#[test]
fn unknown_arguments_are_passed_over() {
    let mut settings = defaults();
    let r = settings.apply_args(&args(&["--normal", "-q", "--Quiet", "", "quiet"]));
    assert_eq!(r, Parsed::Run);
    assert_eq!(settings.mode, Mode::Normal);
    assert!(settings.optimize);
    assert_eq!(settings.apply_args(&Vec::new()), Parsed::Run);
}

#[test]
fn help_ends_the_reading() {
    let mut settings = defaults();
    let r = settings.apply_args(&args(&["--quiet", "help", "--unoptimize"]));
    assert_eq!(r, Parsed::Help);
    assert_eq!(settings.mode, Mode::Quiet);
    assert!(settings.optimize);
}

#[test]
fn argument_without_its_value_is_reported() {
    let mut settings = defaults();
    assert_eq!(settings.apply_args(&args(&["--sh-dir"])), Parsed::Missing(Flag::ShDir));
    assert_eq!(settings.apply_args(&args(&["--bin-name"])), Parsed::Missing(Flag::BinName));
    assert_eq!(
        settings.apply_args(&args(&["--quiet", "--shell-name"])),
        Parsed::Missing(Flag::ShellName)
    );
    assert_eq!(settings.mode, Mode::Quiet);
    assert_eq!(settings.sh_dir, None);
    assert_eq!(settings.bin_name, None);
    assert_eq!(settings.shell_name, None);
}

#[test]
fn settings_print_one_per_line() {
    assert_eq!(
        defaults().to_text(),
        "optimize: true\nbin name: default\nshell name: default\nmode: normal\n\
         shell script out path: None\n"
    );
    let settings = Settings {
        optimize: false,
        bin_name: Some("tool".to_string()),
        shell_name: Some("install".to_string()),
        mode: Mode::Verbose,
        sh_dir: Some("out \"dir\"/".to_string()),
    };
    assert_eq!(
        settings.to_text(),
        "optimize: false\nbin name: tool\nshell name: install\nmode: verbose\n\
         shell script out path: Some(\"out \\\"dir\\\"/\")\n"
    );
}

#[test]
fn binary_is_named_by_the_override_or_the_package() {
    let mut settings = defaults();
    assert_eq!(settings.binary_name("pkg"), "pkg");
    settings.bin_name = Some("tool".to_string());
    assert_eq!(settings.binary_name("pkg"), "tool");
}

#[test]
fn script_path_is_directory_name_and_extension() {
    let mut settings = defaults();
    assert_eq!(settings.script_path("pkg"), "pkg.sh");
    settings.sh_dir = Some("out/".to_string());
    assert_eq!(settings.script_path("pkg"), "out/pkg.sh");
    settings.shell_name = Some("install".to_string());
    assert_eq!(settings.script_path("pkg"), "out/install.sh");
    settings.sh_dir = None;
    assert_eq!(settings.script_path("pkg"), "install.sh");
    settings.sh_dir = Some("out".to_string());
    assert_eq!(settings.script_path("pkg"), "outinstall.sh");
}
