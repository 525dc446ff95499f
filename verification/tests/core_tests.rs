use supac::cargo::{
    get_installed_packages_binary, get_installed_packages_from_binstall_spec,
    get_installed_packages_source, parse_binstall_cratespec,
};
use supac::commands::{get_command, Perms};
use supac::error::Error;

fn entry_json(name: &str, bins: &[&str]) -> String {
    let bins_json: Vec<String> = bins.iter().map(|b| format!("\"{}\"", b)).collect();
    format!("{{\"name\":\"{}\",\"bins\":[{}]}}", name, bins_json.join(","))
}

fn concat_entries(n: usize) -> (String, Vec<(String, Vec<String>)>) {
    let mut buf = String::new();
    let mut expected = Vec::new();
    for i in 0..n {
        let name = format!("pkg{}", i);
        let bin = format!("bin{}", i);
        buf.push_str(&entry_json(&name, &[&bin]));
        expected.push((name, vec![bin]));
    }
    (buf, expected)
}

#[test]
fn decode_log_empty() {
    // Zero concatenated documents decode to zero entries.
    let res = get_installed_packages_binary("").unwrap();
    assert!(res.is_empty());
}

#[test]
fn decode_log_one() {
    let (buf, expected) = concat_entries(1);
    let res = get_installed_packages_binary(&buf).unwrap();
    assert_eq!(res, expected);
}

#[test]
fn decode_log_five() {
    let (buf, expected) = concat_entries(5);
    let res = get_installed_packages_binary(&buf).unwrap();
    assert_eq!(res, expected);
}

#[test]
fn decode_log_hundred() {
    let (buf, expected) = concat_entries(100);
    let res = get_installed_packages_binary(&buf).unwrap();
    assert_eq!(res, expected);
}

#[test]
fn decode_log_whitespace_between() {
    // The decoder slices at the reported offset, so whitespace between
    // documents is consumed with the following document.
    let buf = format!("{} {}", entry_json("a", &["x"]), entry_json("b", &["y"]));
    let res = get_installed_packages_binary(&buf).unwrap();
    assert_eq!(res.len(), 2);
    assert_eq!(res[0].0, "a");
    assert_eq!(res[1].0, "b");
}

#[test]
fn decode_log_malformed() {
    let res = get_installed_packages_binary("{\"name\":");
    assert!(matches!(res, Err(Error::MalformedLog)));
    let trailing = format!("{}{{", entry_json("a", &[]));
    assert!(matches!(
        get_installed_packages_binary(&trailing),
        Err(Error::MalformedLog)
    ));
}

#[test]
fn decode_log_schema_errors() {
    assert!(matches!(
        get_installed_packages_binary("[1]"),
        Err(Error::MalformedSpec(_))
    ));
    assert!(matches!(
        get_installed_packages_binary("{\"bins\":[]}"),
        Err(Error::MalformedSpec(_))
    ));
    assert!(matches!(
        get_installed_packages_binary("{\"name\":\"a\"}"),
        Err(Error::MalformedSpec(_))
    ));
    assert!(matches!(
        get_installed_packages_binary("{\"name\":\"a\",\"bins\":[1]}"),
        Err(Error::MalformedSpec(_))
    ));
}

#[test]
fn parse_one_entry_step() {
    let buf = format!("{}rest", entry_json("a", &["x", "y"]));
    let (name, bins, consumed) = parse_binstall_cratespec(&buf).unwrap();
    assert_eq!(name, "a");
    assert_eq!(bins, vec!["x".to_string(), "y".to_string()]);
    assert_eq!(consumed, buf.len() - 4);
}

#[test]
fn source_bookkeeping_keys() {
    let doc = "{\"installs\":{\"foo 1.0.0 (registry)\":{},\"bar 2.0.0 (git)\":{}}}";
    let res = get_installed_packages_source(doc).unwrap();
    // The parsed object orders its keys.
    assert_eq!(res, vec!["bar".to_string(), "foo".to_string()]);
}

#[test]
fn source_bookkeeping_errors() {
    assert!(matches!(
        get_installed_packages_source("not json"),
        Err(Error::MalformedSpec(_))
    ));
    assert!(matches!(
        get_installed_packages_source("{}"),
        Err(Error::MalformedSpec(_))
    ));
    assert!(matches!(
        get_installed_packages_source("{\"installs\":3}"),
        Err(Error::MalformedSpec(_))
    ));
}

#[test]
fn source_bookkeeping_deduplicates() {
    // Two installs of the same package (different versions or sources)
    // count as one installed name.
    let doc = "{\"installs\":{\"foo 1.0.0 (registry)\":{},\"foo 2.0.0 (git)\":{}}}";
    let res = get_installed_packages_source(doc).unwrap();
    assert_eq!(res, vec!["foo".to_string()]);
}

#[test]
fn binstall_spec_deduplicates() {
    let pkgspec = vec![
        ("dup".to_string(), vec![]),
        ("dup".to_string(), vec![]),
    ];
    let res = get_installed_packages_from_binstall_spec(&pkgspec, &vec![]);
    assert_eq!(res, vec!["dup".to_string()]);
}

#[test]
fn source_bookkeeping_key_without_space() {
    let doc = "{\"installs\":{\"noversion\":{}}}";
    let res = get_installed_packages_source(doc).unwrap();
    assert!(res.is_empty());
}

#[test]
fn binstall_spec_filters_missing_binaries() {
    let pkgspec = vec![
        ("whole".to_string(), vec!["a".to_string(), "b".to_string()]),
        ("partial".to_string(), vec!["a".to_string(), "c".to_string()]),
        ("none".to_string(), vec!["d".to_string()]),
        ("binless".to_string(), vec![]),
    ];
    let present = vec!["a".to_string(), "b".to_string()];
    let res = get_installed_packages_from_binstall_spec(&pkgspec, &present);
    assert_eq!(res, vec!["whole".to_string(), "binless".to_string()]);
}

#[test]
fn get_command_empty_is_refused() {
    let res = get_command(vec![], Perms::User);
    assert!(matches!(res, Err(Error::EmptyCommand)));
}

#[test]
fn get_command_elevation() {
    let args = vec!["pacman".to_string(), "--sync".to_string()];
    let user = get_command(args.clone(), Perms::User).unwrap();
    assert_eq!(user, vec!["pacman", "--sync"]);
    let root = get_command(args, Perms::Root).unwrap();
    assert_eq!(root, vec!["sudo", "pacman", "--sync"]);
}

#[test]
fn error_messages() {
    let e = Error::OperationFailed(vec!["pacman".to_string(), "--sync".to_string()]);
    assert_eq!(e.describe(), "command failed: pacman --sync");
    assert_eq!(Error::MalformedLog.describe(), "malformed install log");
    assert_eq!(
        Error::MissingField("packages".to_string()).describe(),
        "missing field: packages"
    );
}

#[test]
fn default_config_contents() {
    let text = supac::config::default_config_text();
    assert_eq!(
        text,
        "{\n    arch_package_manager : paru,\n    flatpak_default_systemwide : false,\n}\n"
    );
}
