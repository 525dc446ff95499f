use supac::rustup::{parse_components, value_to_toolchainspec, Rustup};
use supac::values::{Record, Value};

fn record(pairs: Vec<(&str, Value)>) -> Record {
    Record {
        entries: pairs.into_iter().map(|(k, v)| (k.to_string(), v)).collect(),
    }
}

fn target_record() -> Record {
    record(vec![
        ("arch", Value::Str("AMD64".to_string())),
        ("vendor", Value::Str("unknown-elf".to_string())),
        ("os", Value::Str("linux".to_string())),
    ])
}

#[test]
fn rustup_backend_ok() {
    let component_list = vec![Value::Str("foo".to_string())];
    let target_list = vec![Value::Record(target_record())];
    let inner_record = record(vec![
        ("components", Value::List(component_list)),
        ("targets", Value::List(target_list)),
    ]);
    let toolchain_record = record(vec![("toolchain1", Value::Record(inner_record))]);
    let outer_record = record(vec![("toolchains", Value::Record(toolchain_record))]);

    let result = Rustup::new(&outer_record, &Record::new());
    assert!(result.is_ok());
}

#[test]
fn rustup_backend_not_record() {
    let outer_record = record(vec![("toolchains", Value::Str("foo".to_string()))]);

    let result = Rustup::new(&outer_record, &Record::new());
    assert!(result.is_err());
}

#[test]
fn values_to_fields_ok() {
    let target_list = vec![Value::Record(target_record())];
    let component_list = vec![Value::Str("foo".to_string())];
    let inner_record = record(vec![
        ("components", Value::List(component_list)),
        ("targets", Value::List(target_list)),
    ]);

    let result = value_to_toolchainspec(&Value::Record(inner_record));
    assert!(result.is_ok());
    let result = result.unwrap();
    assert_eq!(*result.targets, ["AMD64-unknown-elf-linux".to_string()]);
    assert_eq!(*result.components, ["foo".to_string()]);
}

#[test]
fn values_to_fields_components_missing() {
    let target_list = vec![Value::Record(target_record())];
    let inner_record = record(vec![("targets", Value::List(target_list))]);

    let result = value_to_toolchainspec(&Value::Record(inner_record));
    assert!(result.is_ok());
    let result = result.unwrap();
    let res: [String; 0] = [];
    assert_eq!(*result.components, res);
}

#[test]
fn values_to_fields_targets_missing() {
    let component_list = vec![Value::Str("foo".to_string())];
    let inner_record = record(vec![("components", Value::List(component_list))]);

    let result = value_to_toolchainspec(&Value::Record(inner_record));
    assert!(result.is_ok());
    let res: [String; 0] = [];
    let result = result.unwrap();
    assert_eq!(*result.targets, res);
}

#[test]
fn values_to_fields_not_record() {
    let result = value_to_toolchainspec(&Value::Str("foo".to_string()));
    assert!(result.is_err());
}

#[test]
fn parse_components_ok() {
    let components: Vec<Value> = ["foo", "bar", "aaaa"]
        .iter()
        .map(|comp| Value::Str(comp.to_string()))
        .collect();

    let result = parse_components(&components);
    assert!(result.is_ok());
    let result = result.unwrap();
    assert_eq!(result.len(), 3);
    assert_eq!(result[0], "foo");
    assert_eq!(result[1], "bar");
    assert_eq!(result[2], "aaaa");
}

#[test]
fn parse_components_bad() {
    let mut components: Vec<Value> = ["foo", "bar", "aaaa"]
        .iter()
        .map(|comp| Value::Str(comp.to_string()))
        .collect();

    components.push(Value::Bool(true));

    let result = parse_components(&components);
    assert!(result.is_err());
}

fn rustup_of(toolchains: Vec<(&str, Vec<&str>, Vec<&str>)>) -> Rustup {
    let entries: Vec<(String, Value)> = toolchains
        .into_iter()
        .map(|(name, targets, components)| {
            let mut pairs: Vec<(&str, Value)> = Vec::new();
            let tlist: Vec<Value> = targets
                .iter()
                .map(|t| {
                    Value::Record(record(vec![
                        ("arch", Value::Str(t.to_string())),
                        ("vendor", Value::Str("unknown".to_string())),
                        ("os", Value::Str("linux".to_string())),
                    ]))
                })
                .collect();
            let clist: Vec<Value> = components
                .iter()
                .map(|c| Value::Str(c.to_string()))
                .collect();
            pairs.push(("targets", Value::List(tlist)));
            pairs.push(("components", Value::List(clist)));
            (name.to_string(), Value::Record(record(pairs)))
        })
        .collect();
    let inner = Record { entries };
    let outer = record(vec![("toolchains", Value::Record(inner))]);
    Rustup::new(&outer, &Record::new()).unwrap()
}

#[test]
fn toolchain_prefix_matching() {
    // An installed toolchain string carries a platform suffix; a configured
    // identifier matches it by prefix.
    let installed =
        supac::rustup::get_installed_toolchains("stable-x86_64-unknown-linux-gnu (default)\n");
    assert_eq!(installed, vec!["stable-x86_64-unknown-linux-gnu".to_string()]);

    let exact = rustup_of(vec![("stable-x86_64-unknown-linux-gnu", vec![], vec![])]);
    assert!(exact.install_toolchains(&installed).is_empty());

    let short = rustup_of(vec![("stable", vec![], vec![])]);
    assert!(short.install_toolchains(&installed).is_empty());

    let nightly = rustup_of(vec![("nightly", vec![], vec![])]);
    let cmds = nightly.install_toolchains(&installed);
    assert_eq!(cmds.len(), 1);
    assert_eq!(cmds[0].args, vec!["rustup", "toolchain", "install", "nightly"]);
}

#[test]
fn matched_toolchains_first_prefix() {
    let r = rustup_of(vec![("stable", vec![], vec![]), ("nightly", vec![], vec![])]);
    let matched = r.install_missing(&vec![
        "nightly-2024".to_string(),
        "stable-x86_64".to_string(),
        "beta".to_string(),
    ]);
    assert_eq!(matched, vec!["nightly".to_string(), "stable".to_string()]);
    assert_eq!(matched, r.remove_extra(&matched));
}

#[test]
fn remove_toolchains_plan() {
    let r = rustup_of(vec![("stable", vec![], vec![])]);
    assert!(r
        .remove_toolchains(&vec!["stable-x86_64".to_string()])
        .is_none());
    let cmd = r
        .remove_toolchains(&vec!["stable-x86_64".to_string(), "beta".to_string()])
        .unwrap();
    assert_eq!(cmd.args, vec!["rustup", "toolchain", "remove", "beta"]);
}

#[test]
fn target_reconciliation() {
    let missing = supac::rustup::install_missing_targets(
        "stable",
        &vec!["wasm".to_string(), "arm".to_string()],
        &vec!["arm".to_string()],
    )
    .unwrap();
    assert_eq!(
        missing.args,
        vec!["rustup", "target", "add", "--toolchain", "stable", "wasm"]
    );
    assert!(supac::rustup::install_missing_targets(
        "stable",
        &vec!["arm".to_string()],
        &vec!["arm".to_string()]
    )
    .is_none());

    let extra = supac::rustup::remove_extra_targets(
        "stable",
        &vec!["arm".to_string()],
        &vec!["arm".to_string(), "wasm".to_string()],
    )
    .unwrap();
    assert_eq!(
        extra.args,
        vec!["rustup", "target", "remove", "--toolchain", "stable", "wasm"]
    );
}

#[test]
fn component_reconciliation_defaults() {
    // The default components are always wanted: a missing one is added and
    // an installed one is never reported as extra.
    let missing = supac::rustup::install_missing_components(
        "stable",
        &vec![],
        &vec![
            "cargo-x86_64".to_string(),
            "clippy-x86_64".to_string(),
            "rust-docs-x86_64".to_string(),
            "rust-std-x86_64".to_string(),
            "rust-src".to_string(),
            "rustc-x86_64".to_string(),
        ],
    )
    .unwrap();
    assert_eq!(
        missing.args,
        vec!["rustup", "component", "add", "--toolchain", "stable", "rustfmt"]
    );

    let extra = supac::rustup::remove_extra_components(
        "stable",
        &vec![],
        &vec!["cargo-x86_64".to_string(), "miri-x86_64".to_string()],
    )
    .unwrap();
    assert_eq!(
        extra.args,
        vec![
            "rustup",
            "component",
            "remove",
            "--toolchain",
            "stable",
            "miri-x86_64"
        ]
    );
    assert!(supac::rustup::remove_extra_components(
        "stable",
        &vec![],
        &vec!["cargo-x86_64".to_string()]
    )
    .is_none());
}

#[test]
fn component_prefix_matching() {
    // A configured component matches any installed component that starts
    // with it.
    assert!(supac::rustup::install_missing_components(
        "stable",
        &vec!["miri".to_string()],
        &vec![
            "cargo".to_string(),
            "clippy".to_string(),
            "rust-docs".to_string(),
            "rust-std".to_string(),
            "rust-src".to_string(),
            "rustc".to_string(),
            "rustfmt".to_string(),
            "miri-x86_64-unknown-linux-gnu".to_string(),
        ],
    )
    .is_none());
}

#[test]
fn installed_listing_parsers() {
    let targets = supac::rustup::get_installed_targets(" a \nb\n");
    assert_eq!(targets, vec!["a".to_string(), "b".to_string()]);
    let components = supac::rustup::get_installed_components("c1\n c2\n");
    assert_eq!(components, vec!["c1".to_string(), "c2".to_string()]);
    let toolchains = supac::rustup::get_installed_toolchains("t1 (default)\nt2\n");
    assert_eq!(toolchains, vec!["t1".to_string(), "t2".to_string()]);
}

#[test]
fn toolchain_install_command_flags() {
    let r = rustup_of(vec![("beta", vec!["arm"], vec!["miri"])]);
    let cmds = r.install_toolchains(&vec![]);
    assert_eq!(cmds.len(), 1);
    assert_eq!(
        cmds[0].args,
        vec![
            "rustup",
            "toolchain",
            "install",
            "beta",
            "--component",
            "miri",
            "--target",
            "arm-unknown-linux"
        ]
    );
}
