use supac::arch::{get_package_manager, value_to_pkgspec, Arch};
use supac::commands::Perms;
use supac::values::{HookRef, Record, Value};

fn record(pairs: Vec<(&str, Value)>) -> Record {
    Record {
        entries: pairs.into_iter().map(|(k, v)| (k.to_string(), v)).collect(),
    }
}

#[test]
fn arch_construction_ok() {
    let pkg_record = record(vec![("package", Value::Str("aerospace".to_string()))]);
    let package_list = Value::List(vec![Value::Record(pkg_record)]);
    let rec = record(vec![("packages", package_list), ("foo", Value::Nothing)]);

    let arch = Arch::new(&rec, &Record::new());
    assert!(arch.is_ok());
    let arch = arch.unwrap();
    assert_eq!(arch.packages.len(), 1);
    assert!(arch.packages.iter().any(|p| p.0 == "aerospace"));
}

#[test]
fn arch_construction_not_list() {
    let pkg_record = record(vec![("package", Value::Str("aerospace".to_string()))]);
    let package_list = Value::Record(pkg_record);
    let rec = record(vec![("packages", package_list), ("foo", Value::Nothing)]);

    let arch = Arch::new(&rec, &Record::new());
    assert!(arch.is_err());
}

#[test]
fn arch_construction_partially_improper() {
    let pkg_record = record(vec![("package", Value::Str("aerospace".to_string()))]);
    let pkg_record_2 = record(vec![("pkg", Value::Str("aerospace".to_string()))]);
    let package_list = vec![Value::Record(pkg_record), Value::Record(pkg_record_2)];
    let rec = record(vec![
        ("packages", Value::List(package_list)),
        ("foo", Value::Nothing),
    ]);

    let arch = Arch::new(&rec, &Record::new());
    assert!(arch.is_err());
}

#[test]
fn arch_construction_no_packages() {
    let pkg_record = record(vec![("package", Value::Str("aerospace".to_string()))]);
    let pkg_record_2 = record(vec![("pkg", Value::Str("aerospace".to_string()))]);
    let package_list = vec![Value::Record(pkg_record), Value::Record(pkg_record_2)];
    let rec = record(vec![
        ("pkgs", Value::List(package_list)),
        ("foo", Value::Nothing),
    ]);

    let arch = Arch::new(&rec, &Record::new());
    assert!(arch.is_err());
}

#[test]
fn val_to_pkgspec_regular() {
    let closure = HookRef {
        id: 0,
        captures_state: false,
    };
    let rec = record(vec![
        ("package", Value::Str("foo".to_string())),
        ("post_hook", Value::Closure(closure)),
    ]);
    let value = Value::Record(rec);

    let res = value_to_pkgspec(&value);
    assert!(res.is_ok());

    let (package, closure_opt) = res.unwrap();
    assert_eq!(package, "foo");
    assert!(closure_opt.is_some());
    assert_eq!(closure_opt.unwrap().id, closure.id);
    assert!(!closure.captures_state);
}

#[test]
fn val_to_pkgspec_no_closure() {
    let rec = record(vec![("package", Value::Str("foo".to_string()))]);
    let value = Value::Record(rec);

    let res = value_to_pkgspec(&value);
    assert!(res.is_ok());

    let (package, closure_opt) = res.unwrap();
    assert_eq!(package, "foo");
    assert!(closure_opt.is_none());
}

#[test]
fn val_to_pkgspec_random_field() {
    let rec = record(vec![
        ("package", Value::Str("foo".to_string())),
        ("random_field", Value::Str("bar".to_string())),
    ]);
    let value = Value::Record(rec);

    let res = value_to_pkgspec(&value);
    assert!(res.is_ok());

    let (package, closure_opt) = res.unwrap();
    assert_eq!(package, "foo");
    assert!(closure_opt.is_none());
}

#[test]
fn val_to_pkgspec_missing_package() {
    let rec = record(vec![
        ("not_package", Value::Str("foo".to_string())),
        ("random_field", Value::Str("bar".to_string())),
    ]);
    let value = Value::Record(rec);

    let res = value_to_pkgspec(&value);
    assert!(res.is_err());
}

#[test]
fn pkgmgr_absent() {
    let config = record(vec![]);
    let res = get_package_manager(&config);
    assert!(res.is_ok());
    let (pm, perms) = res.unwrap();
    assert_eq!(pm, "paru");
    assert_eq!(perms, Perms::User);
}

#[test]
fn pkgmgr_others() {
    let config = record(vec![("foo", Value::Str("bar".to_string()))]);
    let res = get_package_manager(&config);
    assert!(res.is_ok());
    let (pm, perms) = res.unwrap();
    assert_eq!(pm, "paru");
    assert_eq!(perms, Perms::User);
}

#[test]
fn pkgmgr_present() {
    let config = record(vec![("arch_package_manager", Value::Str("pacman".to_string()))]);
    let res = get_package_manager(&config);
    assert!(res.is_ok());
    let (pm, perms) = res.unwrap();
    assert_eq!(pm, "pacman");
    assert_eq!(perms, Perms::Root);
}

#[test]
fn pkgmgr_wrong() {
    let config = record(vec![("arch_package_manager", Value::Bool(true))]);
    let res = get_package_manager(&config);
    assert!(res.is_err());
}

#[test]
fn capturing_hook_is_dropped() {
    let closure = HookRef {
        id: 7,
        captures_state: true,
    };
    let rec = record(vec![
        ("package", Value::Str("foo".to_string())),
        ("post_hook", Value::Closure(closure)),
    ]);
    let value = Value::Record(rec);

    let res = value_to_pkgspec(&value);
    assert!(res.is_ok());
    let (package, closure_opt) = res.unwrap();
    assert_eq!(package, "foo");
    assert!(closure_opt.is_none());
}

fn arch_of(names: Vec<&str>, hooks: Vec<Option<HookRef>>) -> Arch {
    Arch {
        packages: names
            .into_iter()
            .zip(hooks)
            .map(|(n, h)| (n.to_string(), h))
            .collect(),
        package_manager: "paru".to_string(),
        perms: Perms::User,
    }
}

#[test]
fn install_plan_diff() {
    // Configured {A, B}, installed explicit {B, C}: only A is installed,
    // and its hook is scheduled exactly once.
    let hook = HookRef {
        id: 1,
        captures_state: false,
    };
    let arch = arch_of(vec!["A", "B"], vec![Some(hook), None]);
    let (groups, plain) = arch.select_groups("");
    assert!(groups.is_empty());
    assert_eq!(plain, vec!["A".to_string(), "B".to_string()]);
    let plan = arch.install_plan(
        &groups,
        &vec![],
        &vec!["B".to_string(), "C".to_string()],
        &vec![],
        false,
    );
    assert_eq!(plan.to_install, vec!["A".to_string()]);
    assert!(plan.reason_change.is_empty());
    assert_eq!(plan.hooks.len(), 1);
    assert_eq!(plan.hooks[0].id, 1);
    let cmd = plan.install_command.unwrap();
    assert_eq!(cmd.args, vec!["paru", "--sync", "A"]);
    assert!(plan.reason_command.is_none());
}

#[test]
fn remove_plan_diff() {
    // Configured {A, B}, installed explicit {B, C}: only C is removed.
    let arch = arch_of(vec!["A", "B"], vec![None, None]);
    let (groups, _) = arch.select_groups("");
    let cmd = arch
        .remove_plan(
            &groups,
            &vec![],
            &vec!["B".to_string(), "C".to_string()],
            false,
        )
        .unwrap();
    assert_eq!(
        cmd.args,
        vec!["paru", "--remove", "--nosave", "--recursive", "--unneeded", "C"]
    );
}

#[test]
fn install_plan_idle() {
    // Everything configured is already installed: no command at all.
    let arch = arch_of(vec!["A"], vec![None]);
    let plan = arch.install_plan(&vec![], &vec![], &vec!["A".to_string()], &vec![], true);
    assert!(plan.install_command.is_none());
    assert!(plan.reason_command.is_none());
    assert!(plan.to_install.is_empty());
    assert!(plan.hooks.is_empty());
}

#[test]
fn install_plan_group_expansion() {
    // "base" is a known group with members {m1, m2}; m2 is missing and is
    // installed; the group hook is scheduled once, not per member.
    let ghook = HookRef {
        id: 9,
        captures_state: false,
    };
    let arch = arch_of(vec!["base"], vec![Some(ghook)]);
    let (groups, plain) = arch.select_groups("base\nother\n");
    assert_eq!(groups, vec!["base".to_string()]);
    assert!(plain.is_empty());
    let members = vec![vec!["m1".to_string(), "m2".to_string()]];
    let plan = arch.install_plan(&groups, &members, &vec!["m1".to_string()], &vec![], false);
    assert_eq!(plan.to_install, vec!["m2".to_string()]);
    assert_eq!(plan.hooks.len(), 1);
    assert_eq!(plan.hooks[0].id, 9);
}

#[test]
fn group_hook_not_run_when_converged() {
    // A configured group with a hook whose members are all explicitly
    // installed: the pass changes nothing, so no command is planned and no
    // hook is scheduled.
    let ghook = HookRef {
        id: 3,
        captures_state: false,
    };
    let arch = arch_of(vec!["base"], vec![Some(ghook)]);
    let (groups, plain) = arch.select_groups("base\n");
    assert_eq!(groups, vec!["base".to_string()]);
    assert!(plain.is_empty());
    let members = vec![vec!["m1".to_string(), "m2".to_string()]];
    let plan = arch.install_plan(
        &groups,
        &members,
        &vec!["m1".to_string(), "m2".to_string()],
        &vec![],
        false,
    );
    assert!(plan.to_install.is_empty());
    assert!(plan.reason_change.is_empty());
    assert!(plan.install_command.is_none());
    assert!(plan.reason_command.is_none());
    assert!(plan.hooks.is_empty());
}

#[test]
fn group_hook_fires_on_promotion() {
    // A group member installed only as a dependency still counts as
    // missing: the promotion is a state change and the group hook runs.
    let ghook = HookRef {
        id: 4,
        captures_state: false,
    };
    let arch = arch_of(vec!["base"], vec![Some(ghook)]);
    let members = vec![vec!["m1".to_string()]];
    let plan = arch.install_plan(
        &vec!["base".to_string()],
        &members,
        &vec![],
        &vec!["m1".to_string()],
        false,
    );
    assert!(plan.to_install.is_empty());
    assert_eq!(plan.reason_change, vec!["m1".to_string()]);
    assert_eq!(plan.hooks.len(), 1);
    assert_eq!(plan.hooks[0].id, 4);
}

#[test]
fn duplicate_configured_name_collapses() {
    // A name configured twice is one configured item: it appears once in
    // the install command and its hook is scheduled once.
    let hook = HookRef {
        id: 5,
        captures_state: false,
    };
    let arch = arch_of(vec!["A", "A"], vec![Some(hook), Some(hook)]);
    let plan = arch.install_plan(&vec![], &vec![], &vec![], &vec![], false);
    assert_eq!(plan.to_install, vec!["A".to_string()]);
    assert_eq!(plan.hooks.len(), 1);
}

#[test]
fn installed_packages_deduplicated() {
    let out = supac::arch::get_installed_packages("a\nb\na\n");
    assert_eq!(out, vec!["a".to_string(), "b".to_string()]);
}

#[test]
fn install_plan_promotes_dependencies() {
    // A configured package installed only as a dependency is promoted,
    // not reinstalled.
    let arch = arch_of(vec!["dep"], vec![None]);
    let plan = arch.install_plan(&vec![], &vec![], &vec![], &vec!["dep".to_string()], false);
    assert!(plan.to_install.is_empty());
    assert_eq!(plan.reason_change, vec!["dep".to_string()]);
    assert!(plan.install_command.is_none());
    let cmd = plan.reason_command.unwrap();
    assert_eq!(cmd.args, vec!["paru", "--database", "--asexplicit", "dep"]);
}

#[test]
fn clean_cache_plan_cases() {
    let arch = arch_of(vec![], vec![]);
    assert!(arch.clean_cache_plan(None, false).is_none());
    assert!(arch.clean_cache_plan(Some(""), false).is_none());
    let cmd = arch.clean_cache_plan(Some("u1\nu2\n"), true).unwrap();
    assert_eq!(
        cmd.args,
        vec![
            "paru",
            "--remove",
            "--nosave",
            "--recursive",
            "--unneeded",
            "--noconfirm",
            "u1",
            "u2"
        ]
    );
}

#[test]
fn installed_packages_parsing() {
    let out = supac::arch::get_installed_packages(" a \nb\r\nc\n");
    assert_eq!(out, vec!["a".to_string(), "b".to_string(), "c".to_string()]);
    let grp = supac::arch::get_installed_group_packages("");
    assert!(grp.is_empty());
}
