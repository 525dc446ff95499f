use supac::cargo::{value_to_pkgspec, Cargo};
use supac::values::{HookRef, Record, Value};

fn record(pairs: Vec<(&str, Value)>) -> Record {
    Record {
        entries: pairs.into_iter().map(|(k, v)| (k.to_string(), v)).collect(),
    }
}

#[test]
fn cargo_backend_ok() {
    let pkg_record = record(vec![("package", Value::Str("foo".to_string()))]);
    let pkglist = Value::List(vec![Value::Record(pkg_record)]);
    let rec = record(vec![("packages", pkglist)]);

    let cargo = Cargo::new(&rec, &Record::new());
    assert!(cargo.is_ok());
    let cargo = cargo.unwrap();
    assert_eq!(cargo.packages.len(), 1);
    assert!(cargo.packages.iter().any(|p| p.0 == "foo"));
}

#[test]
fn cargo_backend_not_list() {
    let pkg_record = record(vec![("package", Value::Str("foo".to_string()))]);
    let rec = record(vec![("packages", Value::Record(pkg_record))]);

    let cargo = Cargo::new(&rec, &Record::new());
    assert!(cargo.is_err());
}

#[test]
fn cargo_backend_entry_missing() {
    let pkg_record = record(vec![("package", Value::Str("foo".to_string()))]);
    let rec = record(vec![("packages", Value::Record(pkg_record))]);

    let cargo = Cargo::new(&rec, &Record::new());
    assert!(cargo.is_err());
}

#[test]
fn mod_value_to_pkgspec_no_opts() {
    let rec = record(vec![("package", Value::Str("foo".to_string()))]);

    let res = value_to_pkgspec(&Value::Record(rec));
    assert!(res.is_ok());

    let res = res.unwrap();
    assert_eq!(res.0, "foo".to_string());
    let feats: [String; 0] = [];
    assert_eq!(*res.1.features, feats);
    assert!(!res.1.all_features);
    assert!(!res.1.no_default_features);
    assert_eq!(res.1.git_remote, None);
    assert!(res.1.post_hook.is_none());
}

#[test]
fn value_to_pkgspec_git() {
    let rec = record(vec![
        ("package", Value::Str("foo".to_string())),
        ("git_remote", Value::Str("git_remote_example".to_string())),
    ]);

    let res = value_to_pkgspec(&Value::Record(rec));
    assert!(res.is_ok());

    let res = res.unwrap();
    assert_eq!(res.0, "foo".to_string());
    let feats: [String; 0] = [];
    assert_eq!(*res.1.features, feats);
    assert!(!res.1.all_features);
    assert!(!res.1.no_default_features);
    assert_eq!(res.1.git_remote, Some("git_remote_example".to_string()));
    assert!(res.1.post_hook.is_none());
}

#[test]
fn value_to_pkgspec_all_feats() {
    let rec = record(vec![
        ("package", Value::Str("foo".to_string())),
        ("all_features", Value::Bool(true)),
    ]);

    let res = value_to_pkgspec(&Value::Record(rec));
    assert!(res.is_ok());

    let res = res.unwrap();
    assert_eq!(res.0, "foo".to_string());
    let feats: [String; 0] = [];
    assert_eq!(*res.1.features, feats);
    assert!(res.1.all_features);
    assert!(!res.1.no_default_features);
    assert_eq!(res.1.git_remote, None);
    assert!(res.1.post_hook.is_none());
}

#[test]
fn value_to_pkgspec_no_feats() {
    let rec = record(vec![
        ("package", Value::Str("foo".to_string())),
        ("no_default_features", Value::Bool(true)),
    ]);

    let res = value_to_pkgspec(&Value::Record(rec));
    assert!(res.is_ok());

    let res = res.unwrap();
    assert_eq!(res.0, "foo".to_string());
    let feats: [String; 0] = [];
    assert_eq!(*res.1.features, feats);
    assert!(!res.1.all_features);
    assert!(res.1.no_default_features);
    assert_eq!(res.1.git_remote, None);
    assert!(res.1.post_hook.is_none());
}

#[test]
fn value_to_pkgspec_all_feats_overrides_no_feats() {
    let rec = record(vec![
        ("package", Value::Str("foo".to_string())),
        ("no_default_features", Value::Bool(true)),
        ("all_features", Value::Bool(true)),
    ]);

    let res = value_to_pkgspec(&Value::Record(rec));
    assert!(res.is_ok());

    let res = res.unwrap();
    assert_eq!(res.0, "foo".to_string());
    let feats: [String; 0] = [];
    assert_eq!(*res.1.features, feats);
    assert!(res.1.all_features);
    assert!(!res.1.no_default_features);
    assert_eq!(res.1.git_remote, None);
    assert!(res.1.post_hook.is_none());
}

#[test]
fn value_to_pkgspec_feats() {
    let rec = record(vec![
        ("package", Value::Str("foo".to_string())),
        ("features", Value::List(vec![Value::Str("bar".to_string())])),
    ]);

    let res = value_to_pkgspec(&Value::Record(rec));
    assert!(res.is_ok());

    let res = res.unwrap();
    assert_eq!(res.0, "foo".to_string());
    let feats: [String; 1] = ["bar".to_string()];
    assert_eq!(*res.1.features, feats);
    assert!(!res.1.all_features);
    assert!(!res.1.no_default_features);
    assert_eq!(res.1.git_remote, None);
    assert!(res.1.post_hook.is_none());
}

#[test]
fn value_to_pkgspec_no_feats_overrides_feats() {
    let rec = record(vec![
        ("package", Value::Str("foo".to_string())),
        ("features", Value::List(vec![Value::Str("bar".to_string())])),
        ("no_default_features", Value::Bool(true)),
    ]);

    let res = value_to_pkgspec(&Value::Record(rec));
    assert!(res.is_ok());

    let res = res.unwrap();
    assert_eq!(res.0, "foo".to_string());
    let feats: [String; 0] = [];
    assert_eq!(*res.1.features, feats);
    assert!(!res.1.all_features);
    assert!(res.1.no_default_features);
    assert_eq!(res.1.git_remote, None);
    assert!(res.1.post_hook.is_none());
}

#[test]
fn value_to_pkgspec_all_feats_overrides_feats() {
    let rec = record(vec![
        ("package", Value::Str("foo".to_string())),
        ("features", Value::List(vec![Value::Str("bar".to_string())])),
        ("all_features", Value::Bool(true)),
    ]);

    let res = value_to_pkgspec(&Value::Record(rec));
    assert!(res.is_ok());

    let res = res.unwrap();
    assert_eq!(res.0, "foo".to_string());
    let feats: [String; 0] = [];
    assert_eq!(*res.1.features, feats);
    assert!(res.1.all_features);
    assert!(!res.1.no_default_features);
    assert_eq!(res.1.git_remote, None);
    assert!(res.1.post_hook.is_none());
}

#[test]
fn value_to_pkgspec_closure() {
    let closure = HookRef {
        id: 0,
        captures_state: false,
    };
    let rec = record(vec![
        ("package", Value::Str("foo".to_string())),
        ("post_hook", Value::Closure(closure)),
    ]);

    let res = value_to_pkgspec(&Value::Record(rec));
    assert!(res.is_ok());

    let res = res.unwrap();
    assert_eq!(res.0, "foo".to_string());
    let feats: [String; 0] = [];
    assert_eq!(*res.1.features, feats);
    assert!(!res.1.all_features);
    assert!(!res.1.no_default_features);
    assert_eq!(res.1.git_remote, None);
    assert!(res.1.post_hook.is_some());
}

#[test]
fn value_to_pkgspec_bound_closure() {
    let closure = HookRef {
        id: 0,
        captures_state: true,
    };
    let rec = record(vec![
        ("package", Value::Str("foo".to_string())),
        ("post_hook", Value::Closure(closure)),
    ]);

    let res = value_to_pkgspec(&Value::Record(rec));
    assert!(res.is_ok());

    let res = res.unwrap();
    assert_eq!(res.0, "foo".to_string());
    let feats: [String; 0] = [];
    assert_eq!(*res.1.features, feats);
    assert!(!res.1.all_features);
    assert!(!res.1.no_default_features);
    assert_eq!(res.1.git_remote, None);
    assert!(res.1.post_hook.is_none());
}

fn cargo_of(names: Vec<&str>) -> Cargo {
    let items: Vec<Value> = names
        .iter()
        .map(|n| Value::Record(record(vec![("package", Value::Str(n.to_string()))])))
        .collect();
    let rec = record(vec![("packages", Value::List(items))]);
    Cargo::new(&rec, &Record::new()).unwrap()
}

#[test]
fn cargo_install_plan_diff() {
    let cargo = cargo_of(vec!["a", "b"]);
    let plan = cargo.install_plan(&vec!["b".to_string()]);
    assert_eq!(plan.missing, vec!["a".to_string()]);
    assert_eq!(plan.commands.len(), 1);
    assert_eq!(plan.commands[0].args, vec!["cargo", "install", "a"]);
    assert!(plan.hooks.is_empty());
}

#[test]
fn cargo_install_plan_idle() {
    let cargo = cargo_of(vec!["a"]);
    let plan = cargo.install_plan(&vec!["a".to_string()]);
    assert!(plan.missing.is_empty());
    assert!(plan.commands.is_empty());
}

#[test]
fn cargo_install_command_flags() {
    let rec = record(vec![
        ("package", Value::Str("foo".to_string())),
        ("features", Value::List(vec![Value::Str("bar".to_string())])),
        ("git_remote", Value::Str("url".to_string())),
    ]);
    let (name, opts) = value_to_pkgspec(&Value::Record(rec)).unwrap();
    let cmd = supac::cargo::install_package(&name, &opts, "binstall");
    assert_eq!(
        cmd.args,
        vec![
            "cargo",
            "binstall",
            "--git",
            "url",
            "--features",
            "bar",
            "--no-confirm",
            "foo"
        ]
    );
}

#[test]
fn cargo_remove_plan_diff() {
    let cargo = cargo_of(vec!["a"]);
    let plan = cargo.remove_plan(&vec!["a".to_string(), "x".to_string()]);
    assert_eq!(plan.extra, vec!["x".to_string()]);
    assert_eq!(plan.commands.len(), 1);
    assert_eq!(plan.commands[0].args, vec!["cargo", "uninstall", "x"]);
}

#[test]
fn cargo_uses_binstall() {
    let rec = record(vec![("packages", Value::List(vec![]))]);
    let config = record(vec![("cargo_use_binstall", Value::Bool(true))]);
    let cargo = Cargo::new(&rec, &config).unwrap();
    assert_eq!(cargo.installopt, "binstall");
    assert_eq!(cargo.uses_binstall().unwrap(), true);
    let plain = Cargo::new(&rec, &Record::new()).unwrap();
    assert_eq!(plain.installopt, "install");
    assert_eq!(plain.uses_binstall().unwrap(), false);
}

#[test]
fn cargo_clean_cache_plan() {
    let cargo = cargo_of(vec![]);
    assert!(cargo.clean_cache_plan(false).is_none());
    let cmd = cargo.clean_cache_plan(true).unwrap();
    assert_eq!(cmd.args, vec!["cargo", "cache", "--autoclean"]);
}
