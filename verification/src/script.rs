//! The text of the install script: the template with the names, the
//! extractor and the manifests spliced in behind their anchors.

use vstd::prelude::*;
use vstd::utf8::*;
use crate::settings::Settings;
use crate::text::{
    byte_offset, first_match, is_first_match, lemma_byte_offset_step, lemma_first_match_from,
    lemma_first_match_is, spliced, str_find, string_insert_str, string_remove,
};

verus! {

/// Puts `insert` into `shell_script` directly behind the first occurrence
/// of `find`. Where `find` does not occur, the script is left as it is.
pub fn find_insert(shell_script: &mut String, find: &str, insert: &str) -> (r: Option<()>)
    ensures
        match first_match(old(shell_script)@, find@) {
            Some(c) => r is Some && final(shell_script)@ == spliced(
                old(shell_script)@,
                c + find@.len(),
                insert@,
            ),
            None => r is None && final(shell_script)@ == old(shell_script)@,
        },
{
    let ghost hay = shell_script@;
    let index = match str_find(shell_script.as_str(), find) {
        Some(index) => index,
        None => {
            proof {
                lemma_first_match_from(hay, find@, 0);
            }
            return None;
        },
    };
    let _len = shell_script.as_str().as_bytes().len();
    let width = find.as_bytes().len();
    proof {
        let c = choose|c: int| is_first_match(hay, find@, c) && index == byte_offset(hay, c);
        lemma_first_match_is(hay, find@, c);
        lemma_byte_offset_step(hay, c, find@.len() as int);
        assert(index + width == byte_offset(hay, c + find@.len()));
        assert(index + width <= _len);
    }
    string_insert_str(shell_script, index + width, insert);
    Some(())
}

/// A place in the template behind which text is spliced in.
#[derive(Clone, Copy, Debug, PartialEq, Eq, Structural)]
pub enum Anchor {
    /// Where the script moves the built binary: the name of the binary
    /// follows.
    BinaryName,
    /// The directory from which the script takes the binary.
    TargetDirectory,
    /// The command with which the script builds.
    BuildCommand,
    /// Where the source of the extractor goes.
    Extractor,
    /// Where the extractor learns the name of the script.
    Title,
    /// Where the lock file goes.
    Lockfile,
    /// Where the manifest goes.
    Manifest,
}

/// Why a template cannot be made into a script.
#[derive(Clone, Copy, Debug, PartialEq, Eq, Structural)]
pub enum ScriptError {
    /// The template does not hold the anchor.
    MissingAnchor(Anchor),
    /// Less text follows the anchor than is to be replaced.
    ShortTemplate(Anchor),
}

/// The text of an anchor.
pub open spec fn anchor_text(anchor: Anchor) -> Seq<char> {
    match anchor {
        Anchor::BinaryName => "mv project/target/release/"@,
        Anchor::TargetDirectory => "mv project/target/"@,
        Anchor::BuildCommand => "cargo build"@,
        Anchor::Extractor => "# Rust code here\necho '"@,
        Anchor::Title => "\n# Title here too\necho 'const TITLE: &str = \"../"@,
        Anchor::Lockfile => "\n# Cargo.lock data goes here\necho '"@,
        Anchor::Manifest => "\n# Cargo.toml data goes here\necho '"@,
    }
}

/// The script so far with `text` put in directly behind the first
/// occurrence of the anchor.
pub open spec fn inserted(so_far: Result<Seq<char>, ScriptError>, anchor: Anchor, text: Seq<char>)
    -> Result<Seq<char>, ScriptError> {
    match so_far {
        Err(e) => Err(e),
        Ok(script) => match first_match(script, anchor_text(anchor)) {
            Some(c) => Ok(spliced(script, c + anchor_text(anchor).len(), text)),
            None => Err(ScriptError::MissingAnchor(anchor)),
        },
    }
}

/// The script so far with the `drop` characters behind the first
/// occurrence of the anchor replaced by `text`.
pub open spec fn replaced(
    so_far: Result<Seq<char>, ScriptError>,
    anchor: Anchor,
    drop: nat,
    text: Seq<char>,
) -> Result<Seq<char>, ScriptError> {
    match so_far {
        Err(e) => Err(e),
        Ok(script) => match first_match(script, anchor_text(anchor)) {
            Some(c) => {
                let at = c + anchor_text(anchor).len();
                if at + drop <= script.len() {
                    Ok(script.take(at) + text + script.skip(at + drop))
                } else {
                    Err(ScriptError::ShortTemplate(anchor))
                }
            },
            None => Err(ScriptError::MissingAnchor(anchor)),
        },
    }
}

/// The script so far, built as asked: an optimized build is what the
/// template describes; otherwise the binary is taken from `debug` in place
/// of `release`, and the build command loses its ` --release`.
pub open spec fn built(so_far: Result<Seq<char>, ScriptError>, optimize: bool) -> Result<
    Seq<char>,
    ScriptError,
> {
    if optimize {
        so_far
    } else {
        replaced(
            replaced(so_far, Anchor::TargetDirectory, 7, "debug"@),
            Anchor::BuildCommand,
            10,
            ""@,
        )
    }
}

/// The install script: the template with the name of the binary, the kind
/// of build, the extractor, the name of the script, the lock file and the
/// manifest put in, in this order. The first anchor that is missing
/// decides the error.
pub open spec fn assembled(
    template: Seq<char>,
    package: Seq<char>,
    bin_name: Option<Seq<char>>,
    optimize: bool,
    extractor: Seq<char>,
    lock: Seq<char>,
    manifest: Seq<char>,
) -> Result<Seq<char>, ScriptError> {
    let named = inserted(
        Ok(template),
        Anchor::BinaryName,
        match bin_name {
            Some(name) => name,
            None => package,
        },
    );
    let with_extractor = inserted(built(named, optimize), Anchor::Extractor, extractor);
    let with_title = inserted(with_extractor, Anchor::Title, package + ".sh"@);
    inserted(inserted(with_title, Anchor::Lockfile, lock), Anchor::Manifest, manifest)
}

/// A character takes at least one byte, so the byte offset of a character
/// lies before the end of the bytes.
proof fn lemma_byte_offset_inside(s: Seq<char>, c: int)
    requires
        0 <= c < s.len(),
    ensures
        byte_offset(s, c) < encode_utf8(s).len(),
{
    lemma_byte_offset_step(s, c, 1);
    lemma_byte_offset_step(s, c + 1, 0);
    let one = s.subrange(c, c + 1);
    assert(encode_utf8(one) =~= encode_scalar(one[0] as u32) + encode_utf8(one.drop_first()));
}

/// The text of an anchor.
pub fn anchor_str(anchor: Anchor) -> (r: &'static str)
    ensures
        r@ == anchor_text(anchor),
{
    match anchor {
        Anchor::BinaryName => "mv project/target/release/",
        Anchor::TargetDirectory => "mv project/target/",
        Anchor::BuildCommand => "cargo build",
        Anchor::Extractor => "# Rust code here\necho '",
        Anchor::Title => "\n# Title here too\necho 'const TITLE: &str = \"../",
        Anchor::Lockfile => "\n# Cargo.lock data goes here\necho '",
        Anchor::Manifest => "\n# Cargo.toml data goes here\necho '",
    }
}

/// Puts `text` into the script directly behind the first occurrence of the
/// anchor. Without the anchor the script is left as it is.
pub fn insert_behind(script: &mut String, anchor: Anchor, text: &str) -> (r: Result<
    (),
    ScriptError,
>)
    ensures
        match inserted(Ok(old(script)@), anchor, text@) {
            Ok(text) => r is Ok && final(script)@ == text,
            Err(e) => r == Err::<(), ScriptError>(e) && final(script)@ == old(script)@,
        },
{
    match find_insert(script, anchor_str(anchor), text) {
        Some(()) => Ok(()),
        None => Err(ScriptError::MissingAnchor(anchor)),
    }
}

/// Replaces the `drop` characters behind the first occurrence of the
/// anchor by `text`. Without the anchor the script is left as it is; where
/// fewer than `drop` characters follow the anchor, those that do are lost.
pub fn replace_behind(script: &mut String, anchor: Anchor, drop: usize, text: &str) -> (r: Result<
    (),
    ScriptError,
>)
    ensures
        match replaced(Ok(old(script)@), anchor, drop as nat, text@) {
            Ok(text) => r is Ok && final(script)@ == text,
            Err(e) => r == Err::<(), ScriptError>(e) && (e is MissingAnchor ==> final(script)@
                == old(script)@),
        },
{
    let ghost hay = script@;
    let find = anchor_str(anchor);
    let index = match str_find(script.as_str(), find) {
        Some(index) => index,
        None => {
            proof {
                lemma_first_match_from(hay, find@, 0);
            }
            return Err(ScriptError::MissingAnchor(anchor));
        },
    };
    let _len = script.as_str().as_bytes().len();
    let width = find.as_bytes().len();
    let ghost c = choose|c: int| is_first_match(hay, find@, c) && index == byte_offset(hay, c);
    let ghost from = c + find@.len();
    proof {
        lemma_first_match_is(hay, find@, c);
        lemma_byte_offset_step(hay, c, find@.len() as int);
        assert(index + width <= _len);
    }
    let at = index + width;
    let mut dropped: usize = 0;
    while dropped < drop
        invariant
            dropped <= drop,
            hay == old(script)@,
            first_match(hay, anchor_text(anchor)) == Some(c),
            from == c + anchor_text(anchor).len(),
            0 <= from,
            from + dropped <= hay.len(),
            script@ == hay.take(from) + hay.skip(from + dropped),
            at == byte_offset(script@, from),
        decreases drop - dropped,
    {
        let ghost now = script@;
        let len = script.as_str().as_bytes().len();
        assert(now.len() == hay.len() - dropped);
        if at >= len {
            proof {
                if from < now.len() {
                    lemma_byte_offset_inside(now, from);
                }
            }
            return Err(ScriptError::ShortTemplate(anchor));
        }
        proof {
            if from >= now.len() {
                assert(now.take(from) =~= now);
            }
        }
        let _ = string_remove(script, at);
        dropped = dropped + 1;
        proof {
            assert(script@ =~= hay.take(from) + hay.skip(from + dropped));
            assert(script@.take(from) =~= now.take(from));
        }
    }
    proof {
        assert(spliced(script@, from, text@) =~= hay.take(from) + text@ + hay.skip(from + drop));
    }
    string_insert_str(script, at, text);
    Ok(())
}

/// The install script for a package: the template with the name of the
/// binary, the kind of build that the settings ask for, the source of the
/// extractor, the name of the script, the lock file and the manifest put
/// in behind their anchors.
pub fn assemble(
    template: &str,
    package: &str,
    settings: &Settings,
    extractor: &str,
    lock: &str,
    manifest: &str,
) -> (r: Result<String, ScriptError>)
    ensures
        match assembled(
            template@,
            package@,
            settings@.bin_name,
            settings@.optimize,
            extractor@,
            lock@,
            manifest@,
        ) {
            Ok(text) => r matches Ok(script) && script@ == text,
            Err(e) => r == Err::<String, ScriptError>(e),
        },
{
    let mut script = template.to_owned();
    match insert_behind(&mut script, Anchor::BinaryName, settings.binary_name(package)) {
        Ok(()) => {},
        Err(e) => {
            return Err(e);
        },
    }
    if !settings.optimize {
        match replace_behind(&mut script, Anchor::TargetDirectory, 7, "debug") {
            Ok(()) => {},
            Err(e) => {
                return Err(e);
            },
        }
        match replace_behind(&mut script, Anchor::BuildCommand, 10, "") {
            Ok(()) => {},
            Err(e) => {
                return Err(e);
            },
        }
    }
    match insert_behind(&mut script, Anchor::Extractor, extractor) {
        Ok(()) => {},
        Err(e) => {
            return Err(e);
        },
    }
    let mut title = package.to_owned();
    title.append(".sh");
    match insert_behind(&mut script, Anchor::Title, title.as_str()) {
        Ok(()) => {},
        Err(e) => {
            return Err(e);
        },
    }
    match insert_behind(&mut script, Anchor::Lockfile, lock) {
        Ok(()) => {},
        Err(e) => {
            return Err(e);
        },
    }
    match insert_behind(&mut script, Anchor::Manifest, manifest) {
        Ok(()) => {},
        Err(e) => {
            return Err(e);
        },
    }
    Ok(script)
}

} // verus!
