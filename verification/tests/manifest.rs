use wrap_install::manifest::{rename_package, set_package_name, Gap, ManifestError};

fn table(text: &str) -> toml::Table {
    text.parse::<toml::Table>().unwrap()
}

#[test]
fn name_of_the_package_is_replaced() {
    let out = rename_package("[package]\nname = \"old\"\nversion = \"0.1.0\"\n", "new").unwrap();
    assert_eq!(out, "[package]\nname = \"new\"\nversion = \"0.1.0\"\n");
}

#[test]
fn rest_of_the_manifest_is_kept() {
    let manifest = "[package]\nname = \"old\"\nedition = \"2021\"\n\n[dependencies]\nserde = \"1\"\n";
    let out = rename_package(manifest, "tool").unwrap();
    let mut expected = table(manifest);
    expected["package"]["name"] = toml::Value::String("tool".to_string());
    assert_eq!(table(&out), expected);
    assert_eq!(table(&out)["package"]["name"].as_str(), Some("tool"));
    assert_eq!(table(&out)["package"]["edition"].as_str(), Some("2021"));
    assert_eq!(table(&out)["dependencies"]["serde"].as_str(), Some("1"));
}

#[test]
fn manifest_that_is_not_toml_is_refused() {
    assert!(matches!(rename_package("[package", "new"), Err(ManifestError::Invalid(_))));
    assert!(matches!(rename_package("name = ", "new"), Err(ManifestError::Invalid(_))));
}

#[test]
fn manifest_without_package_is_refused() {
    assert!(matches!(rename_package("", "new"), Err(ManifestError::NoPackage)));
    assert!(matches!(
        rename_package("[workspace]\nmembers = []\n", "new"),
        Err(ManifestError::NoPackage)
    ));
}

#[test]
fn package_without_name_is_refused() {
    assert!(matches!(
        rename_package("[package]\nversion = \"1\"\n", "new"),
        Err(ManifestError::NoName)
    ));
}

#[test]
fn package_that_is_no_table_is_written_back_as_it_was() {
    let out = rename_package("package = 3\n", "new").unwrap();
    assert_eq!(out, "package = 3\n");
}

#[test]
fn name_that_is_no_string_is_written_back_as_it_was() {
    let out = rename_package("[package]\nname = 3\n", "new").unwrap();
    assert_eq!(out, "[package]\nname = 3\n");
}

#[test]
fn name_is_written_as_a_toml_string() {
    let out = rename_package("[package]\nname = \"old\"\n", "a \"b\" c").unwrap();
    assert_eq!(table(&out)["package"]["name"].as_str(), Some("a \"b\" c"));
}

#[test]
fn set_package_name_changes_the_table_in_place() {
    let mut t = table("x = 1\n[package]\nname = \"old\"\n");
    assert_eq!(set_package_name(&mut t, "new"), Ok(()));
    assert_eq!(t, table("x = 1\n[package]\nname = \"new\"\n"));
}

#[test]
fn set_package_name_leaves_the_table_where_nothing_can_be_named() {
    let mut t = table("x = 1\n");
    assert_eq!(set_package_name(&mut t, "new"), Err(Gap::NoPackage));
    assert_eq!(t, table("x = 1\n"));
    let mut t = table("[package]\nversion = \"1\"\n");
    assert_eq!(set_package_name(&mut t, "new"), Err(Gap::NoName));
    assert_eq!(t, table("[package]\nversion = \"1\"\n"));
    let mut t = table("package = \"p\"\n");
    assert_eq!(set_package_name(&mut t, "new"), Ok(()));
    assert_eq!(t, table("package = \"p\"\n"));
    let mut t = table("[package]\nname = [\"a\"]\n");
    assert_eq!(set_package_name(&mut t, "new"), Ok(()));
    assert_eq!(t, table("[package]\nname = [\"a\"]\n"));
}
