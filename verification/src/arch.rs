//! The distribution package manager backend.
//!
//! A configured name may denote a plain package or a package group; groups
//! expand at reconciliation time to their member packages. The backend
//! distinguishes explicitly installed packages from dependencies: a
//! configured package that is installed only as a dependency is promoted
//! to explicit rather than reinstalled.

use vstd::prelude::*;

use crate::commands::{Cmd, Perms};
use crate::error::Error;
use crate::strutil::{spec_lines, spec_trim, str_eq, trimmed_lines, vec_contains_str};
use crate::values::{spec_hook_field, HookRef, Record, Value};

verus! {

/// The parsed declarative state for this backend: configured package (or
/// group) names with their optional hooks, the package manager command to
/// invoke, and the permission level its mutating operations need.
#[derive(Debug)]
pub struct Arch {
    pub packages: Vec<(String, Option<HookRef>)>,
    pub package_manager: String,
    pub perms: Perms,
}

/// What one declarative package entry denotes: its name and optional hook,
/// or nothing when the entry is malformed.
pub open spec fn spec_pkg_entry(v: Value) -> Option<(Seq<char>, Option<HookRef>)> {
    match v {
        Value::Record(rec) => match rec.spec_get("package"@) {
            Some(Value::Str(name)) => match spec_hook_field(rec.spec_get("post_hook"@)) {
                Ok(h) => Some((name@, h)),
                Err(_) => None,
            },
            _ => None,
        },
        _ => None,
    }
}

/// The error a malformed package entry produces.
pub open spec fn spec_pkg_entry_err(v: Value, e: Error) -> bool {
    match v {
        Value::Record(rec) => match rec.spec_get("package"@) {
            None => e matches Error::MissingField(f) && f@ == "package"@,
            Some(Value::Str(_)) => e matches Error::TypeMismatch(f) && f@ == "post_hook"@,
            Some(_) => e matches Error::TypeMismatch(f) && f@ == "package"@,
        },
        _ => e is NotARecord,
    }
}

/// Parses one declarative package entry: a record with a `package` string
/// and an optional `post_hook` closure. A hook that captures external
/// state is dropped, never returned.
pub fn value_to_pkgspec(value: &Value) -> (r: Result<(String, Option<HookRef>), Error>)
    ensures
        match r {
            Ok((name, hook)) => spec_pkg_entry(*value) == Some((name@, hook)),
            Err(e) => spec_pkg_entry(*value) is None && spec_pkg_entry_err(*value, e),
        },
        r matches Ok((_, Some(h))) ==> !h.captures_state,
{
    let rec = match value {
        Value::Record(rec) => rec,
        _ => {
            return Err(Error::NotARecord);
        },
    };
    let name = match rec.get("package") {
        None => {
            return Err(Error::MissingField("package".to_owned()));
        },
        Some(v) => match v {
            Value::Str(s) => s.clone(),
            _ => {
                return Err(Error::TypeMismatch("package".to_owned()));
            },
        },
    };
    let hook = match crate::values::get_hook_field(rec) {
        Ok(h) => h,
        Err(e) => {
            return Err(e);
        },
    };
    Ok((name, hook))
}

/// The package manager `config` selects: the `arch_package_manager` entry
/// when present (a string, or a type error), else `paru`. Only `pacman`
/// runs elevated.
pub open spec fn spec_package_manager(config: Record) -> Option<(Seq<char>, Perms)> {
    match config.spec_get("arch_package_manager"@) {
        None => Some(("paru"@, Perms::User)),
        Some(Value::Str(s)) => Some(
            (
                s@,
                if s@ == "pacman"@ {
                    Perms::Root
                } else {
                    Perms::User
                },
            ),
        ),
        Some(_) => None,
    }
}

/// Resolves the package manager command and its permission level from the
/// global configuration record.
pub fn get_package_manager(config: &Record) -> (r: Result<(String, Perms), Error>)
    ensures
        match r {
            Ok((pm, perms)) => spec_package_manager(*config) == Some((pm@, perms)),
            Err(e) => {
                &&& spec_package_manager(*config) is None
                &&& e matches Error::TypeMismatch(f) && f@ == "arch_package_manager"@
            },
        },
{
    match config.get("arch_package_manager") {
        None => Ok(("paru".to_owned(), Perms::User)),
        Some(v) => match v {
            Value::Str(s) => {
                let pm = s.clone();
                if str_eq(pm.as_str(), "pacman") {
                    Ok((pm, Perms::Root))
                } else {
                    Ok((pm, Perms::User))
                }
            },
            _ => Err(Error::TypeMismatch("arch_package_manager".to_owned())),
        },
    }
}

/// Pointwise correspondence between parsed entries and declarative items.
pub open spec fn wf_packages(packages: Seq<(String, Option<HookRef>)>, items: Seq<Value>) -> bool {
    &&& packages.len() == items.len()
    &&& forall|i: int|
        0 <= i < items.len() ==> spec_pkg_entry(items[i]) == Some(
            (#[trigger] packages[i].0@, packages[i].1),
        )
}

impl Arch {
    /// The configured names, in declaration order.
    pub open spec fn spec_names(self) -> Seq<Seq<char>> {
        self.packages@.map_values(|p: (String, Option<HookRef>)| p.0@)
    }

    /// Parses the backend's declarative record. The `packages` field must
    /// be a list and every entry must parse; a single malformed entry
    /// fails the whole backend.
    pub fn new(value: &Record, config: &Record) -> (r: Result<Arch, Error>)
        ensures
            match r {
                Ok(arch) => {
                    &&& value.spec_get("packages"@) matches Some(Value::List(items))
                        && wf_packages(arch.packages@, items@)
                    &&& spec_package_manager(*config) == Some(
                        (arch.package_manager@, arch.perms),
                    )
                },
                Err(e) => {
                    ||| {
                        &&& value.spec_get("packages"@) is None
                        &&& e matches Error::MissingField(f) && f@ == "packages"@
                    }
                    ||| {
                        &&& value.spec_get("packages"@) matches Some(v) && !(v matches
                            Value::List(_))
                        &&& e matches Error::NotAList(f) && f@ == "packages"@
                    }
                    ||| {
                        &&& value.spec_get("packages"@) matches Some(Value::List(items))
                        &&& exists|i: int|
                            0 <= i < items@.len() && (spec_pkg_entry(#[trigger] items@[i]) is None
                                && spec_pkg_entry_err(items@[i], e))
                    }
                    ||| {
                        &&& spec_package_manager(*config) is None
                        &&& e matches Error::TypeMismatch(f) && f@ == "arch_package_manager"@
                    }
                },
            },
    {
        let items = match crate::values::get_list_field(value, "packages") {
            Ok(items) => items,
            Err(e) => {
                return Err(e);
            },
        };
        let mut packages: Vec<(String, Option<HookRef>)> = Vec::new();
        let n = items.len();
        let mut i: usize = 0;
        while i < n
            invariant
                value.spec_get("packages"@) == Some(Value::List(*items)),
                n == items@.len(),
                i <= n,
                wf_packages(packages@, items@.take(i as int)),
            decreases n - i,
        {
            match value_to_pkgspec(&items[i]) {
                Ok(p) => {
                    packages.push(p);
                    proof {
                        assert(items@.take(i as int + 1)[i as int] == items@[i as int]);
                        assert(forall|k: int|
                            0 <= k < i ==> items@.take(i as int + 1)[k] == items@.take(i as int)[k]);
                    }
                },
                Err(e) => {
                    proof {
                        assert(value.spec_get("packages"@) matches Some(Value::List(its)) && its
                            == *items);
                        assert(exists|j: int|
                            0 <= j < items@.len() && (spec_pkg_entry(#[trigger] items@[j]) is None
                                && spec_pkg_entry_err(items@[j], e))) by {
                            assert(spec_pkg_entry(items@[i as int]) is None && spec_pkg_entry_err(
                                items@[i as int],
                                e,
                            ));
                        }
                    }
                    return Err(e);
                },
            }
            i += 1;
        }
        proof {
            assert(items@.take(n as int) =~= items@);
        }
        let (package_manager, perms) = match get_package_manager(config) {
            Ok(p) => p,
            Err(e) => {
                return Err(e);
            },
        };
        Ok(Arch { packages, package_manager, perms })
    }

    /// The query listing all package groups the backend knows.
    pub fn groups_query(&self) -> (c: Cmd)
        ensures
            c.args.deep_view() == seq![
                self.package_manager@,
                "--sync"@,
                "--quiet"@,
                "--groups"@,
            ],
            c.perms == self.perms,
    {
        let mut args: Vec<String> = Vec::new();
        args.push(self.package_manager.clone());
        args.push("--sync".to_owned());
        args.push("--quiet".to_owned());
        args.push("--groups".to_owned());
        proof {
            assert(args.deep_view() =~= seq![
                self.package_manager@,
                "--sync"@,
                "--quiet"@,
                "--groups"@,
            ]);
        }
        Cmd { args, perms: self.perms }
    }

    /// Splits the configured names into recognized groups and plain
    /// packages, given the group listing the backend reported. Both halves
    /// keep declaration order.
    pub fn select_groups(&self, groups_output: &str) -> (r: (Vec<String>, Vec<String>))
        ensures
            ({
                let known = spec_lines(groups_output@);
                &&& r.0.deep_view() == self.spec_names().filter(
                    |n: Seq<char>| known.contains(n),
                )
                &&& r.1.deep_view() == self.spec_names().filter(
                    |n: Seq<char>| !known.contains(n),
                )
            }),
    {
        let known = crate::strutil::split_lines(groups_output);
        let mut groups: Vec<String> = Vec::new();
        let mut plain: Vec<String> = Vec::new();
        let n = self.packages.len();
        let mut i: usize = 0;
        proof {
            assert(self.spec_names().take(0) =~= Seq::<Seq<char>>::empty());
        }
        while i < n
            invariant
                n == self.packages@.len(),
                i <= n,
                known.deep_view() == spec_lines(groups_output@),
                groups.deep_view() == self.spec_names().take(i as int).filter(
                    |n: Seq<char>| spec_lines(groups_output@).contains(n),
                ),
                plain.deep_view() == self.spec_names().take(i as int).filter(
                    |n: Seq<char>| !spec_lines(groups_output@).contains(n),
                ),
            decreases n - i,
        {
            let ghost names = self.spec_names();
            let ghost gprev = groups.deep_view();
            let ghost pprev = plain.deep_view();
            let name = self.packages[i].0.clone();
            proof {
                assert(names[i as int] == name@);
                assert(names.take(i as int + 1).drop_last() =~= names.take(i as int));
                assert(names.take(i as int + 1).last() == name@);
            }
            let ghost nv = name@;
            proof {
                crate::strutil::lemma_filter_take_step(
                    names,
                    |n: Seq<char>| spec_lines(groups_output@).contains(n),
                    i as int,
                );
                crate::strutil::lemma_filter_take_step(
                    names,
                    |n: Seq<char>| !spec_lines(groups_output@).contains(n),
                    i as int,
                );
            }
            if vec_contains_str(&known, name.as_str()) {
                groups.push(name);
                proof {
                    assert(groups.deep_view() =~= gprev.push(nv));
                }
            } else {
                plain.push(name);
                proof {
                    assert(plain.deep_view() =~= pprev.push(nv));
                }
            }
            i += 1;
        }
        proof {
            assert(self.spec_names().take(n as int) =~= self.spec_names());
        }
        (groups, plain)
    }
}

/// First hook option configured under `name`, if `name` is configured.
pub open spec fn spec_lookup(
    packages: Seq<(String, Option<HookRef>)>,
    name: Seq<char>,
) -> Option<Option<HookRef>>
    decreases packages.len(),
{
    if packages.len() == 0 {
        None
    } else if packages[0].0@ == name {
        Some(packages[0].1)
    } else {
        spec_lookup(packages.subrange(1, packages.len() as int), name)
    }
}

/// The hook configured under `name`, if any.
pub open spec fn spec_hook_of(
    packages: Seq<(String, Option<HookRef>)>,
    name: Seq<char>,
) -> Option<HookRef> {
    match spec_lookup(packages, name) {
        Some(Some(h)) => Some(h),
        _ => None,
    }
}

/// True iff the group at index `i` contributes a missing item: some
/// reported member of that group is not yet explicitly installed.
pub open spec fn spec_group_fires(
    members: Seq<Seq<Seq<char>>>,
    explicit: Seq<Seq<char>>,
    i: int,
) -> bool {
    0 <= i < members.len() && exists|k: int|
        0 <= k < members[i].len() && !explicit.contains(#[trigger] members[i][k])
}

/// The hooks the recognized groups contribute to one pass, in group order.
/// A group's hook is scheduled only when the group has a missing member:
/// a group whose members are all installed already changes nothing and
/// contributes no hook.
pub open spec fn spec_group_hooks(
    packages: Seq<(String, Option<HookRef>)>,
    groups: Seq<Seq<char>>,
    members: Seq<Seq<Seq<char>>>,
    explicit: Seq<Seq<char>>,
) -> Seq<HookRef>
    decreases groups.len(),
{
    if groups.len() == 0 {
        Seq::empty()
    } else {
        spec_group_hooks(packages, groups.drop_last(), members, explicit) + (
        match spec_hook_of(packages, groups.last()) {
            Some(h) => if spec_group_fires(members, explicit, groups.len() - 1) {
                seq![h]
            } else {
                Seq::<HookRef>::empty()
            },
            None => Seq::<HookRef>::empty(),
        })
    }
}

/// When no recognized group has a missing member, the groups contribute no
/// hooks at all.
proof fn lemma_group_hooks_empty(
    packages: Seq<(String, Option<HookRef>)>,
    groups: Seq<Seq<char>>,
    members: Seq<Seq<Seq<char>>>,
    explicit: Seq<Seq<char>>,
)
    requires
        forall|i: int| 0 <= i < groups.len() ==> !spec_group_fires(members, explicit, i),
    ensures
        spec_group_hooks(packages, groups, members, explicit) == Seq::<HookRef>::empty(),
    decreases groups.len(),
{
    if groups.len() > 0 {
        lemma_group_hooks_empty(packages, groups.drop_last(), members, explicit);
        assert(spec_group_hooks(packages, groups, members, explicit) =~= Seq::<
            HookRef,
        >::empty());
    }
}

/// What one reconciliation pass of this backend will do: the packages to
/// install, the dependency packages to promote to explicit, the hooks to
/// run after the commands succeed (in discovery order), and the commands
/// themselves. A command is absent exactly when its item list is empty.
#[derive(Debug)]
pub struct ArchPlan {
    pub to_install: Vec<String>,
    pub reason_change: Vec<String>,
    pub hooks: Vec<HookRef>,
    pub install_command: Option<Cmd>,
    pub reason_command: Option<Cmd>,
}

impl Arch {
    /// The hook configured under `name`, if any.
    pub fn lookup_hook(&self, name: &str) -> (r: Option<HookRef>)
        ensures
            r == spec_hook_of(self.packages@, name@),
    {
        let n = self.packages.len();
        proof {
            assert(self.packages@.subrange(0, n as int) =~= self.packages@);
        }
        let mut i: usize = 0;
        while i < n
            invariant
                n == self.packages@.len(),
                i <= n,
                spec_lookup(self.packages@, name@) == spec_lookup(
                    self.packages@.subrange(i as int, n as int),
                    name@,
                ),
            decreases n - i,
        {
            proof {
                assert(self.packages@.subrange(i as int, n as int)[0] == self.packages@[i as int]);
            }
            if str_eq(self.packages[i].0.as_str(), name) {
                return match self.packages[i].1 {
                    Some(h) => Some(h),
                    None => None,
                };
            }
            proof {
                assert(self.packages@.subrange(i as int, n as int).subrange(
                    1,
                    (n - i) as int,
                ) =~= self.packages@.subrange(i as int + 1, n as int));
            }
            i += 1;
        }
        None
    }

    /// The hooks configured under `names`, one per configured name with a
    /// hook, in the order of `names`.
    pub fn hooks_for(&self, names: &Vec<String>) -> (r: Vec<HookRef>)
        ensures
            r@ == names.deep_view().filter_map(
                (|n: Seq<char>| spec_hook_of(self.packages@, n)),
            ),
    {
        let mut out: Vec<HookRef> = Vec::new();
        proof {
            assert(names.deep_view().take(0).filter_map(
                (|n: Seq<char>| spec_hook_of(self.packages@, n)),
            ) =~= Seq::<HookRef>::empty()) by {
                assert(names.deep_view().take(0) =~= Seq::<Seq<char>>::empty());
            }
        }
        let mut i: usize = 0;
        while i < names.len()
            invariant
                i <= names.len(),
                out@ == names.deep_view().take(i as int).filter_map(
                    (|n: Seq<char>| spec_hook_of(self.packages@, n)),
                ),
            decreases names.len() - i,
        {
            proof {
                crate::strutil::lemma_filter_map_take_step(
                    names.deep_view(),
                    (|n: Seq<char>| spec_hook_of(self.packages@, n)),
                    i as int,
                );
            }
            match self.lookup_hook(names[i].as_str()) {
                Some(h) => {
                    out.push(h);
                },
                None => {},
            }
            i += 1;
        }
        proof {
            assert(names.deep_view().take(names.len() as int) =~= names.deep_view());
        }
        out
    }

    /// The hooks of the recognized groups that contribute a missing item,
    /// in group order. `members` holds the reported member packages per
    /// group; a group beyond the listings, or one whose members are all in
    /// `explicit`, contributes nothing.
    pub fn group_hooks(
        &self,
        groups: &Vec<String>,
        members: &Vec<Vec<String>>,
        explicit: &Vec<String>,
    ) -> (r: Vec<HookRef>)
        ensures
            r@ == spec_group_hooks(
                self.packages@,
                groups.deep_view(),
                members.deep_view(),
                explicit.deep_view(),
            ),
    {
        let mut out: Vec<HookRef> = Vec::new();
        proof {
            assert(groups.deep_view().take(0) =~= Seq::<Seq<char>>::empty());
            assert(spec_group_hooks(
                self.packages@,
                groups.deep_view().take(0),
                members.deep_view(),
                explicit.deep_view(),
            ) =~= Seq::<HookRef>::empty());
        }
        let mut i: usize = 0;
        while i < groups.len()
            invariant
                i <= groups.len(),
                out@ == spec_group_hooks(
                    self.packages@,
                    groups.deep_view().take(i as int),
                    members.deep_view(),
                    explicit.deep_view(),
                ),
            decreases groups.len() - i,
        {
            proof {
                assert(groups.deep_view().take(i as int + 1).drop_last() =~= groups.deep_view().take(
                    i as int,
                ));
                assert(groups.deep_view().take(i as int + 1).last() == groups.deep_view()[i as int]);
            }
            let fires = if i < members.len() {
                crate::strutil::any_not_in(&members[i], explicit)
            } else {
                false
            };
            proof {
                assert(fires == spec_group_fires(
                    members.deep_view(),
                    explicit.deep_view(),
                    i as int,
                )) by {
                    if i < members.len() {
                        if fires {
                            let k = choose|k: int|
                                0 <= k < members@[i as int].deep_view().len()
                                    && !explicit.deep_view().contains(
                                    #[trigger] members@[i as int].deep_view()[k],
                                );
                            assert(members.deep_view()[i as int][k] == members@[
                                i as int].deep_view()[k]);
                        }
                        if spec_group_fires(members.deep_view(), explicit.deep_view(), i as int) {
                            let k = choose|k: int|
                                0 <= k < members.deep_view()[i as int].len()
                                    && !explicit.deep_view().contains(
                                    #[trigger] members.deep_view()[i as int][k],
                                );
                            assert(members@[i as int].deep_view()[k] == members.deep_view()[
                                i as int][k]);
                        }
                    }
                }
            }
            if fires {
                match self.lookup_hook(groups[i].as_str()) {
                    Some(h) => {
                        out.push(h);
                    },
                    None => {},
                }
            }
            i += 1;
        }
        proof {
            assert(groups.deep_view().take(groups.len() as int) =~= groups.deep_view());
        }
        out
    }

    /// The configured names as owned strings, in declaration order.
    pub fn names(&self) -> (r: Vec<String>)
        ensures
            r.deep_view() == self.spec_names(),
    {
        let mut out: Vec<String> = Vec::new();
        let mut i: usize = 0;
        while i < self.packages.len()
            invariant
                i <= self.packages@.len(),
                out.deep_view().len() == i,
                forall|k: int| 0 <= k < i ==> out.deep_view()[k] == self.packages@[k].0@,
            decreases self.packages@.len() - i,
        {
            let ghost prev = out.deep_view();
            out.push(self.packages[i].0.clone());
            proof {
                assert(out.deep_view() =~= prev.push(self.packages@[i as int].0@));
            }
            i += 1;
        }
        proof {
            assert(out.deep_view() =~= self.spec_names());
        }
        out
    }

    /// Plans one install pass. `groups` are the configured names that the
    /// backend recognized as groups and `members` their reported member
    /// packages; `explicit` and `deps` are the installed packages, split
    /// by install reason.
    ///
    /// A configured item already in `explicit` is never installed again; a
    /// missing item that is in `deps` is promoted to explicit instead of
    /// installed. The hooks of groups with a missing member come first (at
    /// most once per group), then the hooks of missing items, in discovery
    /// order; a pass that changes nothing schedules no hook.
    pub fn install_plan(
        &self,
        groups: &Vec<String>,
        members: &Vec<Vec<String>>,
        explicit: &Vec<String>,
        deps: &Vec<String>,
        no_confirm: bool,
    ) -> (plan: ArchPlan)
        ensures
            ({
                let plain = crate::strutil::spec_dedup(
                    self.spec_names().filter((|n: Seq<char>| !groups.deep_view().contains(n))),
                );
                let candidates = plain + members.deep_view().flatten();
                let missing = candidates.filter(
                    (|p: Seq<char>| !explicit.deep_view().contains(p)),
                );
                &&& plan.to_install.deep_view() == missing.filter(
                    (|p: Seq<char>| !deps.deep_view().contains(p)),
                )
                &&& plan.reason_change.deep_view() == missing.filter(
                    (|p: Seq<char>| deps.deep_view().contains(p)),
                )
                &&& plan.hooks@ == spec_group_hooks(
                    self.packages@,
                    groups.deep_view(),
                    members.deep_view(),
                    explicit.deep_view(),
                ) + missing.filter_map((|n: Seq<char>| spec_hook_of(self.packages@, n)))
                // A pass that changes nothing schedules no hook at all.
                &&& missing.len() == 0 ==> plan.hooks@ == Seq::<HookRef>::empty()
                &&& (plan.install_command is Some <==> plan.to_install@.len() > 0)
                &&& (plan.reason_command is Some <==> plan.reason_change@.len() > 0)
                &&& plan.install_command matches Some(c) ==> c.args.deep_view() == seq![
                    self.package_manager@,
                    "--sync"@,
                ] + (if no_confirm {
                    seq!["--noconfirm"@]
                } else {
                    Seq::<Seq<char>>::empty()
                }) + plan.to_install.deep_view() && c.perms == self.perms
                &&& plan.reason_command matches Some(c) ==> c.args.deep_view() == seq![
                    self.package_manager@,
                    "--database"@,
                    "--asexplicit"@,
                ] + plan.reason_change.deep_view() && c.perms == self.perms
            }),
            // A configured item already present in the installed state is
            // never installed again.
            forall|p: Seq<char>|
                explicit.deep_view().contains(p) ==> !plan.to_install.deep_view().contains(p)
                    && !plan.reason_change.deep_view().contains(p),
            // Group expansion covers every reported member: one that is
            // not installed yet is installed or promoted.
            forall|m: Seq<char>|
                #[trigger] members.deep_view().flatten().contains(m) && !explicit.deep_view().contains(
                    m,
                ) ==> plan.to_install.deep_view().contains(m)
                    || plan.reason_change.deep_view().contains(m),
    {
        let plain = crate::strutil::dedup_strs(&crate::strutil::filter_not_in(
            &self.names(),
            groups,
        ));
        let mut candidates = plain;
        let flat = crate::strutil::flatten_strs(members);
        crate::strutil::append_all(&mut candidates, &flat);
        let missing = crate::strutil::filter_not_in(&candidates, explicit);
        let to_install = crate::strutil::filter_not_in(&missing, deps);
        let reason_change = crate::strutil::filter_in(&missing, deps);
        let mut hooks = self.group_hooks(groups, members, explicit);
        let mut mhooks = self.hooks_for(&missing);
        hooks.append(&mut mhooks);
        let install_command = if to_install.len() > 0 {
            let mut args: Vec<String> = Vec::new();
            args.push(self.package_manager.clone());
            args.push("--sync".to_owned());
            if no_confirm {
                args.push("--noconfirm".to_owned());
            }
            let ghost head = args.deep_view();
            crate::strutil::append_all(&mut args, &to_install);
            proof {
                assert(head =~= seq![self.package_manager@, "--sync"@] + (if no_confirm {
                    seq!["--noconfirm"@]
                } else {
                    Seq::<Seq<char>>::empty()
                }));
            }
            Some(Cmd { args, perms: self.perms })
        } else {
            None
        };
        let reason_command = if reason_change.len() > 0 {
            let mut args: Vec<String> = Vec::new();
            args.push(self.package_manager.clone());
            args.push("--database".to_owned());
            args.push("--asexplicit".to_owned());
            let ghost head = args.deep_view();
            crate::strutil::append_all(&mut args, &reason_change);
            proof {
                assert(head =~= seq![
                    self.package_manager@,
                    "--database"@,
                    "--asexplicit"@,
                ]);
            }
            Some(Cmd { args, perms: self.perms })
        } else {
            None
        };
        let plan = ArchPlan { to_install, reason_change, hooks, install_command, reason_command };
        proof {
            broadcast use Seq::lemma_filter_pred, Seq::lemma_filter_contains, Seq::lemma_filter_contains_rev;

            let plain_s = crate::strutil::spec_dedup(
                self.spec_names().filter((|n: Seq<char>| !groups.deep_view().contains(n))),
            );
            let candidates_s = plain_s + members.deep_view().flatten();
            let missing_s = candidates_s.filter(
                (|p: Seq<char>| !explicit.deep_view().contains(p)),
            );
            if missing_s.len() == 0 {
                assert forall|j: int|
                    0 <= j < candidates_s.len() implies explicit.deep_view().contains(
                    #[trigger] candidates_s[j],
                ) by {
                    if !explicit.deep_view().contains(candidates_s[j]) {
                        assert(missing_s.contains(candidates_s[j]));
                    }
                }
                assert forall|i: int|
                    0 <= i < groups.deep_view().len() implies !spec_group_fires(
                    members.deep_view(),
                    explicit.deep_view(),
                    i,
                ) by {
                    if spec_group_fires(members.deep_view(), explicit.deep_view(), i) {
                        let k = choose|k: int|
                            0 <= k < members.deep_view()[i].len() && !explicit.deep_view().contains(
                                #[trigger] members.deep_view()[i][k],
                            );
                        crate::strutil::lemma_flatten_index(members.deep_view(), i, k);
                        let m = members.deep_view()[i][k];
                        let j = choose|j: int|
                            0 <= j < members.deep_view().flatten().len()
                                && members.deep_view().flatten()[j] == m;
                        assert(candidates_s[plain_s.len() + j] == m);
                    }
                }
                lemma_group_hooks_empty(
                    self.packages@,
                    groups.deep_view(),
                    members.deep_view(),
                    explicit.deep_view(),
                );
                assert(missing_s =~= Seq::<Seq<char>>::empty());
                assert(missing_s.filter_map(
                    (|n: Seq<char>| spec_hook_of(self.packages@, n)),
                ) =~= Seq::<HookRef>::empty());
                assert(plan.hooks@ =~= Seq::<HookRef>::empty());
            }
            assert forall|p: Seq<char>| explicit.deep_view().contains(p) implies !plan.to_install.deep_view().contains(
                p,
            ) && !plan.reason_change.deep_view().contains(p) by {
                if plan.to_install.deep_view().contains(p) {
                    assert(missing_s.contains(p));
                    let j = choose|j: int| 0 <= j < missing_s.len() && missing_s[j] == p;
                    assert((|p: Seq<char>| !explicit.deep_view().contains(p))(missing_s[j]));
                }
                if plan.reason_change.deep_view().contains(p) {
                    assert(missing_s.contains(p));
                    let j = choose|j: int| 0 <= j < missing_s.len() && missing_s[j] == p;
                    assert((|p: Seq<char>| !explicit.deep_view().contains(p))(missing_s[j]));
                }
            }
            assert forall|m: Seq<char>|
                #[trigger] members.deep_view().flatten().contains(m)
                    && !explicit.deep_view().contains(m) implies plan.to_install.deep_view().contains(
                m,
            ) || plan.reason_change.deep_view().contains(m) by {
                let j = choose|j: int|
                    0 <= j < members.deep_view().flatten().len() && members.deep_view().flatten()[j]
                        == m;
                assert(candidates_s[plain_s.len() + j] == m);
                assert(candidates_s.contains(m));
                assert(missing_s.contains(m));
                if deps.deep_view().contains(m) {
                    assert(plan.reason_change.deep_view().contains(m));
                } else {
                    assert(plan.to_install.deep_view().contains(m));
                }
            }
        }
        plan
    }

    /// Plans one removal pass: every installed package that no configured
    /// name or group member accounts for is removed in a single command.
    pub fn remove_plan(&self, groups: &Vec<String>, members: &Vec<Vec<String>>, installed: &Vec<
        String,
    >, no_confirm: bool) -> (r: Option<Cmd>)
        ensures
            ({
                let plain = crate::strutil::spec_dedup(
                    self.spec_names().filter((|n: Seq<char>| !groups.deep_view().contains(n))),
                );
                let expanded = plain + members.deep_view().flatten();
                let extra = installed.deep_view().filter(
                    (|p: Seq<char>| !expanded.contains(p)),
                );
                &&& (r is Some <==> extra.len() > 0)
                &&& r matches Some(c) ==> c.args.deep_view() == seq![
                    self.package_manager@,
                    "--remove"@,
                    "--nosave"@,
                    "--recursive"@,
                    "--unneeded"@,
                ] + (if no_confirm {
                    seq!["--noconfirm"@]
                } else {
                    Seq::<Seq<char>>::empty()
                }) + extra && c.perms == self.perms
            }),
    {
        let plain = crate::strutil::dedup_strs(&crate::strutil::filter_not_in(
            &self.names(),
            groups,
        ));
        let mut expanded = plain;
        let flat = crate::strutil::flatten_strs(members);
        crate::strutil::append_all(&mut expanded, &flat);
        let extra = crate::strutil::filter_not_in(installed, &expanded);
        if extra.len() > 0 {
            let mut args: Vec<String> = Vec::new();
            args.push(self.package_manager.clone());
            args.push("--remove".to_owned());
            args.push("--nosave".to_owned());
            args.push("--recursive".to_owned());
            args.push("--unneeded".to_owned());
            if no_confirm {
                args.push("--noconfirm".to_owned());
            }
            let ghost head = args.deep_view();
            crate::strutil::append_all(&mut args, &extra);
            proof {
                assert(head =~= seq![
                    self.package_manager@,
                    "--remove"@,
                    "--nosave"@,
                    "--recursive"@,
                    "--unneeded"@,
                ] + (if no_confirm {
                    seq!["--noconfirm"@]
                } else {
                    Seq::<Seq<char>>::empty()
                }));
            }
            Some(Cmd { args, perms: self.perms })
        } else {
            None
        }
    }

    /// Plans a cache clean. `unused_output` is the listing of unrequired
    /// dependency packages, or absent when that query failed — the package
    /// manager fails the query when there is nothing to remove, which is a
    /// normal no-op here. No command is issued for an empty listing.
    pub fn clean_cache_plan(&self, unused_output: Option<&str>, no_confirm: bool) -> (r: Option<
        Cmd,
    >)
        ensures
            match unused_output {
                None => r is None,
                Some(out) => {
                    &&& (r is Some <==> spec_lines(out@).len() > 0)
                    &&& r matches Some(c) ==> c.args.deep_view() == seq![
                        self.package_manager@,
                        "--remove"@,
                        "--nosave"@,
                        "--recursive"@,
                        "--unneeded"@,
                    ] + (if no_confirm {
                        seq!["--noconfirm"@]
                    } else {
                        Seq::<Seq<char>>::empty()
                    }) + spec_lines(out@) && c.perms == self.perms
                },
            },
    {
        let out = match unused_output {
            None => {
                return None;
            },
            Some(out) => out,
        };
        let unused = crate::strutil::split_lines(out);
        if unused.len() == 0 {
            return None;
        }
        let mut args: Vec<String> = Vec::new();
        args.push(self.package_manager.clone());
        args.push("--remove".to_owned());
        args.push("--nosave".to_owned());
        args.push("--recursive".to_owned());
        args.push("--unneeded".to_owned());
        if no_confirm {
            args.push("--noconfirm".to_owned());
        }
        let ghost head = args.deep_view();
        crate::strutil::append_all(&mut args, &unused);
        proof {
            assert(head =~= seq![
                self.package_manager@,
                "--remove"@,
                "--nosave"@,
                "--recursive"@,
                "--unneeded"@,
            ] + (if no_confirm {
                seq!["--noconfirm"@]
            } else {
                Seq::<Seq<char>>::empty()
            }));
        }
        Some(Cmd { args, perms: self.perms })
    }
}

/// Each recognized group contributes its hook at most once to a pass:
/// among the group hooks, `h` occurs at most as often as the selected
/// groups that carry it.
pub proof fn lemma_group_hook_count(
    packages: Seq<(String, Option<HookRef>)>,
    groups: Seq<Seq<char>>,
    members: Seq<Seq<Seq<char>>>,
    explicit: Seq<Seq<char>>,
    h: HookRef,
)
    ensures
        spec_group_hooks(packages, groups, members, explicit).filter(
            (|x: HookRef| x == h),
        ).len() <= groups.filter(
            (|n: Seq<char>| spec_hook_of(packages, n) == Some(h)),
        ).len(),
    decreases groups.len(),
{
    reveal(Seq::filter);
    broadcast use Seq::filter_distributes_over_add;

    if groups.len() == 0 {
        assert(spec_group_hooks(packages, groups, members, explicit).filter(
            (|x: HookRef| x == h),
        ) =~= Seq::<HookRef>::empty());
    } else {
        lemma_group_hook_count(packages, groups.drop_last(), members, explicit, h);
        let prefix = spec_group_hooks(packages, groups.drop_last(), members, explicit);
        let tail = (match spec_hook_of(packages, groups.last()) {
            Some(hh) => if spec_group_fires(members, explicit, groups.len() - 1) {
                seq![hh]
            } else {
                Seq::<HookRef>::empty()
            },
            None => Seq::<HookRef>::empty(),
        });
        assert(spec_group_hooks(packages, groups, members, explicit) == prefix + tail);
        assert(tail.filter((|x: HookRef| x == h)).len() <= (
        if spec_hook_of(packages, groups.last()) == Some(h) {
            1int
        } else {
            0int
        })) by {
            reveal(Seq::filter);
            if tail.len() > 0 {
                assert(tail.drop_last() =~= Seq::<HookRef>::empty());
                assert(tail.drop_last().filter((|x: HookRef| x == h)) =~= Seq::<
                    HookRef,
                >::empty());
            } else {
                assert(tail.filter((|x: HookRef| x == h)) =~= Seq::<HookRef>::empty());
            }
        }
        assert(groups.filter((|n: Seq<char>| spec_hook_of(packages, n) == Some(h))).len()
            == groups.drop_last().filter(
            (|n: Seq<char>| spec_hook_of(packages, n) == Some(h)),
        ).len() + (if spec_hook_of(packages, groups.last()) == Some(h) {
            1int
        } else {
            0int
        }));
    }
}

/// A recognized group's hook runs at most once per reconciliation pass,
/// regardless of how many member packages its expansion contributes, and
/// not at all when none of its members is missing: when the group is
/// selected once and no other selected group shares its hook, the hook
/// occurs at most once among the pass's group hooks.
pub proof fn lemma_group_hook_once(
    packages: Seq<(String, Option<HookRef>)>,
    groups: Seq<Seq<char>>,
    members: Seq<Seq<Seq<char>>>,
    explicit: Seq<Seq<char>>,
    g: Seq<char>,
    h: HookRef,
)
    requires
        spec_hook_of(packages, g) == Some(h),
        groups.filter((|n: Seq<char>| n == g)).len() == 1,
        forall|n: Seq<char>|
            #[trigger] groups.contains(n) && spec_hook_of(packages, n) == Some(h) ==> n == g,
    ensures
        spec_group_hooks(packages, groups, members, explicit).filter(
            (|x: HookRef| x == h),
        ).len() <= 1,
{
    lemma_group_hook_count(packages, groups, members, explicit, h);
    crate::strutil::lemma_filter_agree(
        groups,
        (|n: Seq<char>| spec_hook_of(packages, n) == Some(h)),
        (|n: Seq<char>| n == g),
    );
}

/// The query listing installed packages: explicitly installed ones when
/// `explicit` is set, dependency-installed ones otherwise.
pub fn installed_packages_query(package_manager: &str, explicit: bool) -> (c: Cmd)
    ensures
        c.args.deep_view() == seq![
            package_manager@,
            "--query"@,
            if explicit {
                "--explicit"@
            } else {
                "--deps"@
            },
            "--quiet"@,
        ],
        c.perms == Perms::User,
{
    let mut args: Vec<String> = Vec::new();
    args.push(package_manager.to_owned());
    args.push("--query".to_owned());
    if explicit {
        args.push("--explicit".to_owned());
    } else {
        args.push("--deps".to_owned());
    }
    args.push("--quiet".to_owned());
    proof {
        assert(args.deep_view() =~= seq![
            package_manager@,
            "--query"@,
            if explicit {
                "--explicit"@
            } else {
                "--deps"@
            },
            "--quiet"@,
        ]);
    }
    Cmd { args, perms: Perms::User }
}

/// The query listing the member packages of one group.
pub fn group_packages_query(group: &str, package_manager: &str) -> (c: Cmd)
    ensures
        c.args.deep_view() == seq![
            package_manager@,
            "--sync"@,
            "--groups"@,
            "--quiet"@,
            group@,
        ],
        c.perms == Perms::User,
{
    let mut args: Vec<String> = Vec::new();
    args.push(package_manager.to_owned());
    args.push("--sync".to_owned());
    args.push("--groups".to_owned());
    args.push("--quiet".to_owned());
    args.push(group.to_owned());
    proof {
        assert(args.deep_view() =~= seq![
            package_manager@,
            "--sync"@,
            "--groups"@,
            "--quiet"@,
            group@,
        ]);
    }
    Cmd { args, perms: Perms::User }
}

/// Parses the installed-package listing into a duplicate-free set of
/// names: one per line, surrounding whitespace removed, first occurrences
/// kept in order.
pub fn get_installed_packages(stdout: &str) -> (r: Vec<String>)
    ensures
        r.deep_view() == crate::strutil::spec_dedup(
            spec_lines(stdout@).map_values(|l: Seq<char>| spec_trim(l)),
        ),
        forall|a: int, b: int|
            0 <= a < b < r.deep_view().len() ==> r.deep_view()[a] != r.deep_view()[b],
        forall|x: Seq<char>|
            #[trigger] r.deep_view().contains(x) <==> spec_lines(stdout@).map_values(
                |l: Seq<char>| spec_trim(l),
            ).contains(x),
{
    crate::strutil::dedup_strs(&trimmed_lines(stdout))
}

/// Parses the member listing of one group: one member package per line,
/// surrounding whitespace removed.
pub fn get_installed_group_packages(stdout: &str) -> (r: Vec<String>)
    ensures
        r.deep_view() == spec_lines(stdout@).map_values(|l: Seq<char>| spec_trim(l)),
{
    trimmed_lines(stdout)
}

} // verus!

