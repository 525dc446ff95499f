use supac::flatpak::{extract_remote, parse_runtime_format, value_to_pinspec, value_to_pkgspec,
    Flatpak};
use supac::values::{HookRef, Record, Value};

fn record(pairs: Vec<(&str, Value)>) -> Record {
    Record {
        entries: pairs.into_iter().map(|(k, v)| (k.to_string(), v)).collect(),
    }
}

fn plain_hook() -> HookRef {
    HookRef {
        id: 0,
        captures_state: false,
    }
}

#[test]
fn value_to_pkgspec_no_opts() {
    let rec = record(vec![(
        "package",
        Value::Str("org.gtk.Gtk3theme.adw-gtk3".to_string()),
    )]);
    let value = Value::Record(rec);

    let result = value_to_pkgspec(&value, false);
    assert!(result.is_ok());
    let result = result.unwrap();
    assert_eq!(result.0, "org.gtk.Gtk3theme.adw-gtk3");
    assert!(result.1.remote.is_none());
    assert!(!result.1.systemwide);
    assert!(result.1.post_hook.is_none());
}

#[test]
fn value_to_pkgspec_hook() {
    let rec = record(vec![
        ("package", Value::Str("org.gtk.Gtk3theme.adw-gtk3".to_string())),
        ("post_hook", Value::Closure(plain_hook())),
    ]);
    let value = Value::Record(rec);

    let result = value_to_pkgspec(&value, false);
    assert!(result.is_ok());
    let result = result.unwrap();
    assert_eq!(result.0, "org.gtk.Gtk3theme.adw-gtk3");
    assert!(result.1.remote.is_none());
    assert!(!result.1.systemwide);
    assert!(result.1.post_hook.is_some());
}

#[test]
fn value_to_pkgspec_arch() {
    let rec = record(vec![
        ("package", Value::Str("org.gtk.Gtk3theme.adw-gtk3".to_string())),
        ("remote", Value::Str("flathub".to_string())),
        ("post_hook", Value::Closure(plain_hook())),
    ]);
    let value = Value::Record(rec);

    let result = value_to_pkgspec(&value, false);
    assert!(result.is_ok());
    let result = result.unwrap();
    assert_eq!(result.0, "org.gtk.Gtk3theme.adw-gtk3");
    assert!(result.1.remote.is_some());
    let remote = result.1.remote.unwrap();
    assert_eq!(remote, "flathub");
    assert!(!result.1.systemwide);
    assert!(result.1.post_hook.is_some());
}

#[test]
fn value_to_pkgspec_no_systemwide() {
    let rec = record(vec![(
        "package",
        Value::Str("org.gtk.Gtk3theme.adw-gtk3".to_string()),
    )]);
    let value = Value::Record(rec);

    let result = value_to_pkgspec(&value, true);
    assert!(result.is_ok());
    let result = result.unwrap();
    assert_eq!(result.0, "org.gtk.Gtk3theme.adw-gtk3");
    assert!(result.1.remote.is_none());
    assert!(result.1.systemwide);
    assert!(result.1.post_hook.is_none());
}

#[test]
fn value_to_pkgspec_systemwide() {
    let rec = record(vec![
        ("package", Value::Str("org.gtk.Gtk3theme.adw-gtk3".to_string())),
        ("systemwide", Value::Bool(true)),
    ]);
    let value = Value::Record(rec);

    let result = value_to_pkgspec(&value, false);
    assert!(result.is_ok());
    let result = result.unwrap();
    assert_eq!(result.0, "org.gtk.Gtk3theme.adw-gtk3");
    assert!(result.1.remote.is_none());
    assert!(result.1.systemwide);
    assert!(result.1.post_hook.is_none());
}

#[test]
fn value_to_pkgspec_systemwide2() {
    let rec = record(vec![
        ("package", Value::Str("org.gtk.Gtk3theme.adw-gtk3".to_string())),
        ("systemwide", Value::Bool(false)),
    ]);
    let value = Value::Record(rec);

    let result = value_to_pkgspec(&value, true);
    assert!(result.is_ok());
    let result = result.unwrap();
    assert_eq!(result.0, "org.gtk.Gtk3theme.adw-gtk3");
    assert!(result.1.remote.is_none());
    assert!(!result.1.systemwide);
    assert!(result.1.post_hook.is_none());
}

#[test]
fn value_to_pkgspec_wrong() {
    let rec = record(vec![
        ("package", Value::Bool(false)),
        ("remote", Value::Str("foo".to_string())),
        ("post_hook", Value::Closure(plain_hook())),
    ]);
    let value = Value::Record(rec);

    let result = value_to_pkgspec(&value, false);
    assert!(result.is_err());
}

#[test]
fn value_to_pkgspec_wrong_fields() {
    let rec = record(vec![
        ("package", Value::Str("org.gtk.Gtk3theme.adw-gtk3".to_string())),
        ("remote", Value::Closure(plain_hook())),
        ("post_hook", Value::Str("foo".to_string())),
    ]);
    let value = Value::Record(rec);

    let result = value_to_pkgspec(&value, false);
    assert!(result.is_err());
}

#[test]
fn value_to_pkgspec_not_record() {
    let value = Value::Bool(false);

    let result = value_to_pkgspec(&value, false);
    assert!(result.is_err());
}

#[test]
fn value_to_pinspec_no_opts() {
    let rec = record(vec![(
        "package",
        Value::Str("org.gtk.Gtk3theme.adw-gtk3".to_string()),
    )]);
    let value = Value::Record(rec);

    let result = value_to_pinspec(&value, false);
    assert!(result.is_ok());
    let result = result.unwrap();
    assert_eq!(result.0, "org.gtk.Gtk3theme.adw-gtk3");
    assert!(result.1.arch.is_none());
    assert!(result.1.branch.is_none());
    assert!(!result.1.systemwide);
    assert!(result.1.post_hook.is_none());
}

#[test]
fn value_to_pinspec_hook() {
    let rec = record(vec![
        ("package", Value::Str("org.gtk.Gtk3theme.adw-gtk3".to_string())),
        ("post_hook", Value::Closure(plain_hook())),
    ]);
    let value = Value::Record(rec);

    let result = value_to_pinspec(&value, false);
    assert!(result.is_ok());
    let result = result.unwrap();
    assert_eq!(result.0, "org.gtk.Gtk3theme.adw-gtk3");
    assert!(result.1.arch.is_none());
    assert!(result.1.branch.is_none());
    assert!(!result.1.systemwide);
    assert!(result.1.post_hook.is_some());
}

#[test]
fn value_to_pinspec_arch() {
    let rec = record(vec![
        ("package", Value::Str("org.gtk.Gtk3theme.adw-gtk3".to_string())),
        ("arch", Value::Str("x86-64".to_string())),
        ("post_hook", Value::Closure(plain_hook())),
    ]);
    let value = Value::Record(rec);

    let result = value_to_pinspec(&value, false);
    assert!(result.is_ok());
    let result = result.unwrap();
    assert_eq!(result.0, "org.gtk.Gtk3theme.adw-gtk3");
    assert!(result.1.arch.is_some());
    let arch = result.1.arch.unwrap();
    assert_eq!(arch, "x86-64");
    assert!(result.1.branch.is_none());
    assert!(!result.1.systemwide);
    assert!(result.1.post_hook.is_some());
}

#[test]
fn value_to_pinspec_branch() {
    let rec = record(vec![
        ("branch", Value::Str("stable".to_string())),
        ("package", Value::Str("org.gtk.Gtk3theme.adw-gtk3".to_string())),
        ("arch", Value::Str("x86-64".to_string())),
        ("post_hook", Value::Closure(plain_hook())),
    ]);
    let value = Value::Record(rec);

    let result = value_to_pinspec(&value, false);
    assert!(result.is_ok());
    let result = result.unwrap();
    assert_eq!(result.0, "org.gtk.Gtk3theme.adw-gtk3");
    assert!(result.1.arch.is_some());
    let arch = result.1.arch.unwrap();
    assert_eq!(arch, "x86-64");
    assert!(result.1.branch.is_some());
    let branch = result.1.branch.unwrap();
    assert_eq!(branch, "stable");
    assert!(!result.1.systemwide);
    assert!(result.1.post_hook.is_some());
}

#[test]
fn value_to_pinspec_no_systemwide() {
    let rec = record(vec![
        ("branch", Value::Str("stable".to_string())),
        ("package", Value::Str("org.gtk.Gtk3theme.adw-gtk3".to_string())),
        ("arch", Value::Str("x86-64".to_string())),
        ("post_hook", Value::Closure(plain_hook())),
    ]);
    let value = Value::Record(rec);

    let result = value_to_pinspec(&value, true);
    assert!(result.is_ok());
    let result = result.unwrap();
    assert_eq!(result.0, "org.gtk.Gtk3theme.adw-gtk3");
    assert!(result.1.arch.is_some());
    let arch = result.1.arch.unwrap();
    assert_eq!(arch, "x86-64");
    assert!(result.1.branch.is_some());
    let branch = result.1.branch.unwrap();
    assert_eq!(branch, "stable");
    assert!(result.1.systemwide);
    assert!(result.1.post_hook.is_some());
}

#[test]
fn value_to_pinspec_systemwide() {
    let rec = record(vec![
        ("branch", Value::Str("stable".to_string())),
        ("package", Value::Str("org.gtk.Gtk3theme.adw-gtk3".to_string())),
        ("arch", Value::Str("x86-64".to_string())),
        ("systemwide", Value::Bool(true)),
        ("post_hook", Value::Closure(plain_hook())),
    ]);
    let value = Value::Record(rec);

    let result = value_to_pinspec(&value, false);
    assert!(result.is_ok());
    let result = result.unwrap();
    assert_eq!(result.0, "org.gtk.Gtk3theme.adw-gtk3");
    assert!(result.1.arch.is_some());
    let arch = result.1.arch.unwrap();
    assert_eq!(arch, "x86-64");
    assert!(result.1.branch.is_some());
    let branch = result.1.branch.unwrap();
    assert_eq!(branch, "stable");
    assert!(result.1.systemwide);
    assert!(result.1.post_hook.is_some());
}

#[test]
fn value_to_pinspec_systemwide2() {
    let rec = record(vec![
        ("branch", Value::Str("stable".to_string())),
        ("package", Value::Str("org.gtk.Gtk3theme.adw-gtk3".to_string())),
        ("arch", Value::Str("x86-64".to_string())),
        ("systemwide", Value::Bool(false)),
        ("post_hook", Value::Closure(plain_hook())),
    ]);
    let value = Value::Record(rec);

    let result = value_to_pinspec(&value, true);
    assert!(result.is_ok());
    let result = result.unwrap();
    assert_eq!(result.0, "org.gtk.Gtk3theme.adw-gtk3");
    assert!(result.1.arch.is_some());
    let arch = result.1.arch.unwrap();
    assert_eq!(arch, "x86-64");
    assert!(result.1.branch.is_some());
    let branch = result.1.branch.unwrap();
    assert_eq!(branch, "stable");
    assert!(!result.1.systemwide);
    assert!(result.1.post_hook.is_some());
}

#[test]
fn value_to_pinspec_wrong() {
    let rec = record(vec![
        ("branch", Value::Str("stable".to_string())),
        ("package", Value::Bool(false)),
        ("arch", Value::Str("x86-64".to_string())),
        ("post_hook", Value::Closure(plain_hook())),
    ]);
    let value = Value::Record(rec);

    let result = value_to_pinspec(&value, false);
    assert!(result.is_err());
}

#[test]
fn value_to_pinspec_wrong_fields() {
    let rec = record(vec![
        ("branch", Value::Bool(false)),
        ("package", Value::Str("org.gtk.Gtk3theme.adw-gtk3".to_string())),
        ("arch", Value::Closure(plain_hook())),
        ("post_hook", Value::Str("foo".to_string())),
    ]);
    let value = Value::Record(rec);

    let result = value_to_pinspec(&value, false);
    assert!(result.is_err());
}

#[test]
fn value_to_pinspec_not_record() {
    let value = Value::Bool(false);

    let result = value_to_pinspec(&value, false);
    assert!(result.is_err());
}

#[test]
fn parse_runtime_format_no_runtime() {
    let runtime = "org.gtk.Gtk3theme.adw-gtk3-dark";

    let res = parse_runtime_format(runtime, false);

    assert!(res.1.branch.is_none());
    assert!(res.1.arch.is_none());
    assert!(res.1.post_hook.is_none());
}

#[test]
fn parse_runtime_format_no_runtime_arch() {
    let runtime = "org.gtk.Gtk3theme.adw-gtk3-dark/x86-64/";

    let res = parse_runtime_format(runtime, false);

    assert!(res.1.branch.is_none());
    assert!(res.1.arch.is_some());
    assert_eq!(res.1.arch.unwrap(), "x86-64");
    assert!(!res.1.systemwide);
    assert!(res.1.post_hook.is_none());
}

#[test]
fn parse_runtime_format_no_runtime_branch() {
    let runtime = "runtime/org.gtk.Gtk3theme.adw-gtk3-dark//stable";

    let res = parse_runtime_format(runtime, true);

    assert!(res.1.branch.is_some());
    assert_eq!(res.1.branch.unwrap(), "stable");
    assert!(res.1.arch.is_none());
    assert!(res.1.systemwide);
    assert!(res.1.post_hook.is_none());
}

#[test]
fn parse_runtime_format_no_runtime_arch_branch() {
    let runtime = "org.gtk.Gtk3theme.adw-gtk3-dark/x86-64/stable";

    let res = parse_runtime_format(runtime, false);

    assert!(res.1.branch.is_some());
    assert_eq!(res.1.branch.unwrap(), "stable");
    assert!(res.1.arch.is_some());
    assert_eq!(res.1.arch.unwrap(), "x86-64");
    assert!(!res.1.systemwide);
    assert!(res.1.post_hook.is_none());
}

#[test]
fn parse_runtime_format_runtime() {
    let runtime = "runtime/org.gtk.Gtk3theme.adw-gtk3-dark";

    let res = parse_runtime_format(runtime, true);

    assert!(res.1.branch.is_none());
    assert!(res.1.arch.is_none());
    assert!(res.1.systemwide);
    assert!(res.1.post_hook.is_none());
}

#[test]
fn parse_runtime_format_arch() {
    let runtime = "runtime/org.gtk.Gtk3theme.adw-gtk3-dark/x86-64";

    let res = parse_runtime_format(runtime, false);

    assert!(res.1.branch.is_none());
    assert!(res.1.arch.is_some());
    assert_eq!(res.1.arch.unwrap(), "x86-64");
    assert!(!res.1.systemwide);
    assert!(res.1.post_hook.is_none());
}

#[test]
fn parse_runtime_format_branch() {
    let runtime = "runtime/org.gtk.Gtk3theme.adw-gtk3-dark//stable";

    let res = parse_runtime_format(runtime, true);

    assert!(res.1.branch.is_some());
    assert_eq!(res.1.branch.unwrap(), "stable");
    assert!(res.1.arch.is_none());
    assert!(res.1.systemwide);
    assert!(res.1.post_hook.is_none());
}

#[test]
fn parse_runtime_format_arch_branch() {
    let runtime = "runtime/org.gtk.Gtk3theme.adw-gtk3-dark/x86-64/stable";

    let res = parse_runtime_format(runtime, false);

    assert!(res.1.branch.is_some());
    assert_eq!(res.1.branch.unwrap(), "stable");
    assert!(res.1.arch.is_some());
    assert_eq!(res.1.arch.unwrap(), "x86-64");
    assert!(!res.1.systemwide);
    assert!(res.1.post_hook.is_none());
}

#[test]
fn value_to_remote_ok() {
    let rec = record(vec![
        ("package", Value::Str("a".to_string())),
        ("url", Value::Str("b".to_string())),
    ]);
    let value = Value::Record(rec);

    let res = extract_remote(&value);
    let check = Some(("a".to_string(), "b".to_string()));

    assert_eq!(check, res);
}

#[test]
fn value_to_remote_not_records() {
    let value = Value::Str("a".to_string());
    let res = extract_remote(&value);
    let check = None;
    assert_eq!(check, res);
}

#[test]
fn values_to_remote_not_package() {
    let rec = record(vec![
        ("pkg", Value::Str("a".to_string())),
        ("url", Value::Str("b".to_string())),
    ]);
    let value = Value::Record(rec);

    let res = extract_remote(&value);
    let check = None;
    assert_eq!(check, res);
}

fn flatpak_with_pin(id: &str, branch: Option<&str>, arch: Option<&str>) -> Flatpak {
    let mut pairs = vec![("package", Value::Str(id.to_string()))];
    if let Some(b) = branch {
        pairs.push(("branch", Value::Str(b.to_string())));
    }
    if let Some(a) = arch {
        pairs.push(("arch", Value::Str(a.to_string())));
    }
    let rec = record(vec![
        ("pinned", Value::List(vec![Value::Record(record(pairs))])),
        ("packages", Value::List(vec![])),
    ]);
    Flatpak::new(&rec, &Record::new()).unwrap()
}

#[test]
fn pin_already_present() {
    // Configured pin {id: foo, branch: stable}; the installed pin
    // "foo/x86_64/stable" matches it (architecture unconstrained, branch
    // equal), so nothing is pinned or installed.
    let f = flatpak_with_pin("foo", Some("stable"), None);
    let plan = f.install_pins(&vec!["foo".to_string()], false, "foo/x86_64/stable\n");
    assert!(plan.pin_commands.is_empty());
    assert!(plan.install_command.is_none());
    assert!(plan.hooks.is_empty());
}

#[test]
fn pin_branch_mismatch() {
    // The installed pin carries another branch, so the configured pattern
    // is not satisfied and the pin is planned.
    let f = flatpak_with_pin("foo", Some("stable"), None);
    let plan = f.install_pins(&vec!["foo".to_string()], false, "foo/x86_64/beta\n");
    assert_eq!(plan.pin_commands.len(), 1);
    assert_eq!(
        plan.pin_commands[0].args,
        vec!["flatpak", "pin", "--user", "foo/stable"]
    );
    let install = plan.install_command.unwrap();
    assert_eq!(install.args, vec!["flatpak", "install", "--user", "foo"]);
}

#[test]
fn pin_prefix_match() {
    // The configured identifier is a prefix of the installed pin's name.
    let f = flatpak_with_pin("foo", None, None);
    let plan = f.install_pins(&vec!["foo.bar".to_string()], false, "foo.bar//\n");
    assert!(plan.pin_commands.is_empty());
    assert!(plan.install_command.is_none());
}

#[test]
fn pin_not_listed_as_installed() {
    // A pin whose package does not appear among the installed packages
    // does not count, so the pattern is pinned anew.
    let f = flatpak_with_pin("foo", None, None);
    let plan = f.install_pins(&vec![], false, "foo//\n");
    assert_eq!(plan.pin_commands.len(), 1);
}

#[test]
fn flatpak_install_packages_plan() {
    let free = record(vec![("package", Value::Str("app.free".to_string()))]);
    let pinned = record(vec![
        ("package", Value::Str("app.pinned".to_string())),
        ("remote", Value::Str("flathub".to_string())),
    ]);
    let rec = record(vec![(
        "packages",
        Value::List(vec![Value::Record(free), Value::Record(pinned)]),
    )]);
    let f = Flatpak::new(&rec, &Record::new()).unwrap();
    let plan = f.install_packages(&vec![], false);
    let freec = plan.free_command.unwrap();
    assert_eq!(freec.args, vec!["flatpak", "install", "--user", "app.free"]);
    assert_eq!(plan.ref_commands.len(), 1);
    assert_eq!(
        plan.ref_commands[0].args,
        vec!["flatpak", "install", "--user", "flathub", "app.pinned"]
    );
    // Already installed: nothing is planned.
    let idle = f.install_packages(
        &vec!["app.free".to_string(), "app.pinned".to_string()],
        false,
    );
    assert!(idle.free_command.is_none());
    assert!(idle.ref_commands.is_empty());
    assert!(idle.hooks.is_empty());
}

#[test]
fn flatpak_remove_plans() {
    let f = flatpak_with_pin("foo", None, None);
    // The installed pin "bar" matches no configured pattern: removed.
    let cmds = f.remove_pins(false, "bar//\nfoo//\n");
    assert_eq!(cmds.len(), 1);
    assert_eq!(
        cmds[0].args,
        vec!["flatpak", "pin", "--remove", "--user", "bar"]
    );
    // No package is configured, so every installed package is extra.
    let cmd = f.remove_packages(false, &vec!["x".to_string()]).unwrap();
    assert_eq!(
        cmd.args,
        vec!["flatpak", "remove", "--user", "--delete-data", "x"]
    );
    assert!(f.remove_packages(false, &vec![]).is_none());
}

#[test]
fn flatpak_clean_cache() {
    let f = flatpak_with_pin("foo", None, None);
    let cmds = f.clean_cache_commands();
    assert_eq!(cmds.len(), 2);
    assert_eq!(
        cmds[0].args,
        vec!["flatpak", "remove", "--delete-data", "--unused", "--user"]
    );
    assert_eq!(
        cmds[1].args,
        vec!["flatpak", "remove", "--delete-data", "--unused", "--system"]
    );
}
