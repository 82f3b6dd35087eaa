use wrap_install::script::{
    anchor_str, assemble, find_insert, insert_behind, replace_behind, Anchor, ScriptError,
};
use wrap_install::settings::{Settings, TomlSettings};
use wrap_install::text::same_text;

const TEMPLATE: &str = "#!/bin/sh\n\
# Rust code here\necho '' > extract.rs\n\
# Title here too\necho 'const TITLE: &str = \"../\";' >> extract.rs\n\
# Cargo.lock data goes here\necho '' > project/Cargo.lock\n\
# Cargo.toml data goes here\necho '' > project/Cargo.toml\n\
cargo build --release\n\
mv project/target/release/ ~/.local/bin\n";

fn settings(optimize: bool, bin_name: Option<&str>) -> Settings {
    let mut s = Settings::from(TomlSettings::default()).unwrap();
    s.optimize = optimize;
    s.bin_name = bin_name.map(|n| n.to_string());
    s
}

#[test]
fn find_insert_puts_text_behind_the_first_occurrence() {
    let mut s = "one two one two".to_string();
    assert_eq!(find_insert(&mut s, "two", "[x]"), Some(()));
    assert_eq!(s, "one two[x] one two");
    let mut s = "abc".to_string();
    assert_eq!(find_insert(&mut s, "abc", "!"), Some(()));
    assert_eq!(s, "abc!");
    let mut s = "abc".to_string();
    assert_eq!(find_insert(&mut s, "a", ""), Some(()));
    assert_eq!(s, "abc");
}

#[test]
fn find_insert_leaves_the_text_without_the_anchor() {
    let mut s = "one two".to_string();
    assert_eq!(find_insert(&mut s, "three", "x"), None);
    assert_eq!(s, "one two");
    let mut s = "".to_string();
    assert_eq!(find_insert(&mut s, "a", "x"), None);
    assert_eq!(s, "");
    let mut s = "ab".to_string();
    assert_eq!(find_insert(&mut s, "abc", "x"), None);
    assert_eq!(s, "ab");
}

#[test]
fn find_insert_with_an_empty_anchor_inserts_at_the_front() {
    let mut s = "abc".to_string();
    assert_eq!(find_insert(&mut s, "", "x"), Some(()));
    assert_eq!(s, "xabc");
    let mut s = String::new();
    assert_eq!(find_insert(&mut s, "", "x"), Some(()));
    assert_eq!(s, "x");
}

#[test]
fn find_insert_counts_characters_of_any_width() {
    let mut s = "\u{e9}t\u{e9} \u{65e5}\u{672c} \u{1f980} end".to_string();
    assert_eq!(find_insert(&mut s, "\u{65e5}\u{672c}", "\u{8a9e}"), Some(()));
    assert_eq!(s, "\u{e9}t\u{e9} \u{65e5}\u{672c}\u{8a9e} \u{1f980} end");
    assert_eq!(find_insert(&mut s, "\u{1f980}", "!"), Some(()));
    assert_eq!(s, "\u{e9}t\u{e9} \u{65e5}\u{672c}\u{8a9e} \u{1f980}! end");
}

#[test]
fn same_text_compares_characters() {
    assert!(same_text("", ""));
    assert!(same_text("default", "default"));
    assert!(!same_text("default", "Default"));
    assert!(!same_text("default", "defaul"));
    assert!(!same_text("defaul", "default"));
    assert!(same_text("\u{e9}", "\u{e9}"));
    assert!(!same_text("\u{e9}", "e\u{301}"));
}

#[test]
fn anchors_are_the_texts_that_the_template_holds() {
    assert_eq!(anchor_str(Anchor::BinaryName), "mv project/target/release/");
    assert_eq!(anchor_str(Anchor::TargetDirectory), "mv project/target/");
    assert_eq!(anchor_str(Anchor::BuildCommand), "cargo build");
    assert_eq!(anchor_str(Anchor::Extractor), "# Rust code here\necho '");
    assert_eq!(anchor_str(Anchor::Title), "\n# Title here too\necho 'const TITLE: &str = \"../");
    assert_eq!(anchor_str(Anchor::Lockfile), "\n# Cargo.lock data goes here\necho '");
    assert_eq!(anchor_str(Anchor::Manifest), "\n# Cargo.toml data goes here\necho '");
}

#[test]
fn insert_behind_reports_the_missing_anchor() {
    let mut s = "cargo build --release".to_string();
    assert_eq!(insert_behind(&mut s, Anchor::BuildCommand, " -q"), Ok(()));
    assert_eq!(s, "cargo build -q --release");
    assert_eq!(
        insert_behind(&mut s, Anchor::Title, "x"),
        Err(ScriptError::MissingAnchor(Anchor::Title))
    );
    assert_eq!(s, "cargo build -q --release");
}

#[test]
fn replace_behind_swaps_the_characters_behind_the_anchor() {
    let mut s = "x; mv project/target/release/bin ~; mv project/target/release/".to_string();
    assert_eq!(replace_behind(&mut s, Anchor::TargetDirectory, 7, "debug"), Ok(()));
    assert_eq!(s, "x; mv project/target/debug/bin ~; mv project/target/release/");
    let mut s = "cargo build --release\n".to_string();
    assert_eq!(replace_behind(&mut s, Anchor::BuildCommand, 10, ""), Ok(()));
    assert_eq!(s, "cargo build\n");
    let mut s = "cargo build".to_string();
    assert_eq!(replace_behind(&mut s, Anchor::BuildCommand, 0, "!"), Ok(()));
    assert_eq!(s, "cargo build!");
    let mut s = "cargo build \u{e9}\u{65e5}\u{1f980}.".to_string();
    assert_eq!(replace_behind(&mut s, Anchor::BuildCommand, 4, "-"), Ok(()));
    assert_eq!(s, "cargo build-.");
}

#[test]
fn replace_behind_reports_what_is_missing() {
    let mut s = "nothing here".to_string();
    assert_eq!(
        replace_behind(&mut s, Anchor::BuildCommand, 3, "x"),
        Err(ScriptError::MissingAnchor(Anchor::BuildCommand))
    );
    assert_eq!(s, "nothing here");
    let mut s = "cargo build --rel".to_string();
    assert_eq!(
        replace_behind(&mut s, Anchor::BuildCommand, 10, ""),
        Err(ScriptError::ShortTemplate(Anchor::BuildCommand))
    );
    let mut s = "cargo build".to_string();
    assert_eq!(
        replace_behind(&mut s, Anchor::BuildCommand, 1, ""),
        Err(ScriptError::ShortTemplate(Anchor::BuildCommand))
    );
}

#[test]
fn optimized_script_has_everything_spliced_in() {
    let script = assemble(
        TEMPLATE,
        "pkg",
        &settings(true, None),
        "fn main() {}",
        "# lock",
        "[package]",
    )
    .unwrap();
    assert_eq!(
        script,
        "#!/bin/sh\n\
         # Rust code here\necho 'fn main() {}' > extract.rs\n\
         # Title here too\necho 'const TITLE: &str = \"../pkg.sh\";' >> extract.rs\n\
         # Cargo.lock data goes here\necho '# lock' > project/Cargo.lock\n\
         # Cargo.toml data goes here\necho '[package]' > project/Cargo.toml\n\
         cargo build --release\n\
         mv project/target/release/pkg ~/.local/bin\n"
    );
}

#[test]
fn unoptimized_script_builds_and_takes_from_debug() {
    let script = assemble(
        TEMPLATE,
        "pkg",
        &settings(false, Some("tool")),
        "fn main() {}",
        "# lock",
        "[package]",
    )
    .unwrap();
    assert_eq!(
        script,
        "#!/bin/sh\n\
         # Rust code here\necho 'fn main() {}' > extract.rs\n\
         # Title here too\necho 'const TITLE: &str = \"../pkg.sh\";' >> extract.rs\n\
         # Cargo.lock data goes here\necho '# lock' > project/Cargo.lock\n\
         # Cargo.toml data goes here\necho '[package]' > project/Cargo.toml\n\
         cargo build\n\
         mv project/target/debug/tool ~/.local/bin\n"
    );
}

#[test]
fn spliced_text_is_not_searched_for_later_anchors_that_precede_it() {
    let script = assemble(
        TEMPLATE,
        "pkg",
        &settings(true, None),
        "x",
        "\n# Cargo.toml data goes here\necho '",
        "M",
    )
    .unwrap();
    assert!(script.contains("echo '\n# Cargo.toml data goes here\necho 'M' > project/Cargo.lock"));
    assert!(script.contains("\n# Cargo.toml data goes here\necho '' > project/Cargo.toml"));
}

#[test]
fn first_missing_anchor_decides_the_error() {
    let all = settings(false, None);
    let run = |template: &str| assemble(template, "pkg", &all, "x", "l", "m").err();
    assert_eq!(run(""), Some(ScriptError::MissingAnchor(Anchor::BinaryName)));
    assert_eq!(
        run("mv project/target/release/"),
        Some(ScriptError::MissingAnchor(Anchor::BuildCommand))
    );
    assert_eq!(
        run("cargo build --release; mv project/target/release/"),
        Some(ScriptError::MissingAnchor(Anchor::Extractor))
    );
    assert_eq!(
        run("# Rust code here\necho ''; cargo build --release; mv project/target/release/"),
        Some(ScriptError::MissingAnchor(Anchor::Title))
    );
    let without_lock = TEMPLATE.replace("Cargo.lock data", "lock data");
    assert_eq!(run(&without_lock), Some(ScriptError::MissingAnchor(Anchor::Lockfile)));
    let without_manifest = TEMPLATE.replace("Cargo.toml data", "manifest data");
    assert_eq!(run(&without_manifest), Some(ScriptError::MissingAnchor(Anchor::Manifest)));
    let short = TEMPLATE.replace("cargo build --release\n", "").to_string() + "cargo build";
    assert_eq!(run(&short), Some(ScriptError::ShortTemplate(Anchor::BuildCommand)));
    assert!(assemble(&short, "pkg", &settings(true, None), "x", "l", "m").is_ok());
}
