//! The compiled-language package installer backend.
//!
//! Configured packages carry feature flags with a precedence rule: an
//! all-features flag wins over a no-default-features flag, and either
//! overrides an explicit feature list, which then stays empty. Installed
//! state is read from the installer's bookkeeping files; the binary
//! installer's fallback log is a file of JSON objects concatenated with no
//! separator, decoded incrementally.

use vstd::prelude::*;

use crate::commands::{Cmd, Perms};
use crate::error::Error;
use crate::strutil::{append_all, lemma_filter_take_step, spec_find};
use crate::values::{get_bool_field, get_hook_field, get_list_field, get_string_field,
    spec_hook_field, HookRef, Record, Value};
use vstd::string::StringSliceAdditionalSpecFns;

verus! {

/// Options of one configured package.
#[derive(Debug)]
pub struct CargoOpts {
    pub features: Vec<String>,
    pub all_features: bool,
    pub no_default_features: bool,
    pub git_remote: Option<String>,
    pub post_hook: Option<HookRef>,
}

/// The parsed declarative state for this backend: configured packages in
/// declaration order, and the installer subcommand to use.
#[derive(Debug)]
pub struct Cargo {
    pub packages: Vec<(String, CargoOpts)>,
    pub installopt: String,
}

/// The contents of one parsed package entry.
pub open spec fn cargo_model(p: (String, CargoOpts)) -> (
    Seq<char>,
    Seq<Seq<char>>,
    bool,
    bool,
    Option<Seq<char>>,
    Option<HookRef>,
) {
    (
        p.0@,
        p.1.features.deep_view(),
        p.1.all_features,
        p.1.no_default_features,
        p.1.git_remote.deep_view(),
        p.1.post_hook,
    )
}

/// What one declarative package entry denotes, or nothing when malformed.
/// An all-features flag silences the no-default-features field, and either
/// flag silences the feature list, which stays empty.
pub open spec fn spec_cargo_pkg(v: Value) -> Option<
    (Seq<char>, Seq<Seq<char>>, bool, bool, Option<Seq<char>>, Option<HookRef>),
> {
    match v {
        Value::Record(rec) => match rec.spec_get("package"@) {
            Some(Value::Str(name)) => {
                let all_features = match rec.spec_get("all_features"@) {
                    None => Some(false),
                    Some(Value::Bool(b)) => Some(b),
                    Some(_) => None,
                };
                match all_features {
                    None => None,
                    Some(af) => {
                        let no_default = if af {
                            Some(false)
                        } else {
                            match rec.spec_get("no_default_features"@) {
                                None => Some(false),
                                Some(Value::Bool(b)) => Some(b),
                                Some(_) => None,
                            }
                        };
                        match no_default {
                            None => None,
                            Some(nd) => {
                                let features = if af || nd {
                                    Some(Seq::<Seq<char>>::empty())
                                } else {
                                    match rec.spec_get("features"@) {
                                        None => Some(Seq::<Seq<char>>::empty()),
                                        Some(Value::List(items)) => if forall|i: int|
                                            0 <= i < items@.len() ==> (
                                            #[trigger] items@[i]) is Str {
                                            Some(items@.map_values(|x: Value| x->Str_0@))
                                        } else {
                                            None
                                        },
                                        Some(_) => None,
                                    }
                                };
                                let git = match rec.spec_get("git_remote"@) {
                                    None => Some(None),
                                    Some(Value::Str(g)) => Some(Some(g@)),
                                    Some(_) => None,
                                };
                                match (features, git, spec_hook_field(
                                    rec.spec_get("post_hook"@),
                                )) {
                                    (Some(f), Some(g), Ok(h)) => Some((name@, f, af, nd, g, h)),
                                    _ => None,
                                }
                            },
                        }
                    },
                }
            },
            _ => None,
        },
        _ => None,
    }
}

/// Parses one declarative package entry. A hook that captures external
/// state is dropped, never returned.
pub fn value_to_pkgspec(value: &Value) -> (r: Result<(String, CargoOpts), Error>)
    ensures
        match r {
            Ok(p) => spec_cargo_pkg(*value) == Some(cargo_model(p)),
            Err(_) => spec_cargo_pkg(*value) is None,
        },
        r matches Ok((_, opts)) ==> (opts.post_hook matches Some(h) ==> !h.captures_state),
{
    let rec = match value {
        Value::Record(rec) => rec,
        _ => {
            return Err(Error::NotARecord);
        },
    };
    let name = match rec.get("package") {
        None => {
            return Err(Error::MissingField("package".to_owned()));
        },
        Some(v) => match v {
            Value::Str(s) => s.clone(),
            _ => {
                return Err(Error::TypeMismatch("package".to_owned()));
            },
        },
    };
    let all_features = match get_bool_field(rec, "all_features", false) {
        Ok(b) => b,
        Err(e) => {
            return Err(e);
        },
    };
    let no_default_features = if all_features {
        false
    } else {
        match get_bool_field(rec, "no_default_features", false) {
            Ok(b) => b,
            Err(e) => {
                return Err(e);
            },
        }
    };
    let features: Vec<String> = if all_features || no_default_features {
        let f: Vec<String> = Vec::new();
        proof {
            assert(f.deep_view() =~= Seq::<Seq<char>>::empty());
        }
        f
    } else {
        match rec.get("features") {
            None => {
                let f: Vec<String> = Vec::new();
                proof {
                    assert(f.deep_view() =~= Seq::<Seq<char>>::empty());
                }
                f
            },
            Some(v) => match v {
                Value::List(items) => {
                    let mut f: Vec<String> = Vec::new();
                    let mut i: usize = 0;
                    #[verifier::loop_isolation(false)]
                    while i < items.len()
                        invariant
                            i <= items@.len(),
                            f.deep_view().len() == i,
                            forall|k: int|
                                0 <= k < i ==> (#[trigger] items@[k]) is Str && f.deep_view()[k]
                                    == items@[k]->Str_0@,
                        decreases items@.len() - i,
                    {
                        match &items[i] {
                            Value::Str(s) => {
                                let ghost prev = f.deep_view();
                                let c = s.clone();
                                let ghost cv = c@;
                                f.push(c);
                                proof {
                                    assert(f.deep_view() =~= prev.push(cv));
                                }
                            },
                            _ => {
                                return Err(Error::TypeMismatch("features".to_owned()));
                            },
                        }
                        i += 1;
                    }
                    proof {
                        assert(f.deep_view() =~= items@.map_values(|x: Value| x->Str_0@));
                    }
                    f
                },
                _ => {
                    return Err(Error::NotAList("features".to_owned()));
                },
            },
        }
    };
    let git_remote = match get_string_field(rec, "git_remote") {
        Ok(g) => g,
        Err(e) => {
            return Err(e);
        },
    };
    let post_hook = match get_hook_field(rec) {
        Ok(h) => h,
        Err(e) => {
            return Err(e);
        },
    };
    Ok(
        (
            name,
            CargoOpts { features, all_features, no_default_features, git_remote, post_hook },
        ),
    )
}

/// Whether `config` selects the binary installer: the
/// `cargo_use_binstall` entry when present (a boolean, or a type error),
/// else the plain installer.
pub open spec fn spec_binstall_opt(config: Record) -> Option<bool> {
    match config.spec_get("cargo_use_binstall"@) {
        None => Some(false),
        Some(Value::Bool(b)) => Some(b),
        Some(_) => None,
    }
}

/// Reads the binary-installer choice from the global configuration.
pub fn get_binstall_opt(config: &Record) -> (r: Result<bool, Error>)
    ensures
        match r {
            Ok(b) => spec_binstall_opt(*config) == Some(b),
            Err(e) => {
                &&& spec_binstall_opt(*config) is None
                &&& e matches Error::TypeMismatch(f) && f@ == "cargo_use_binstall"@
            },
        },
{
    get_bool_field(config, "cargo_use_binstall", false)
}

/// Pointwise correspondence between parsed entries and declarative items.
pub open spec fn wf_cargo_packages(
    packages: Seq<(String, CargoOpts)>,
    items: Seq<Value>,
) -> bool {
    &&& packages.len() == items.len()
    &&& forall|i: int|
        0 <= i < items.len() ==> spec_cargo_pkg(items[i]) == Some(
            cargo_model(#[trigger] packages[i]),
        )
}

impl Cargo {
    /// The configured names, in declaration order.
    pub open spec fn spec_names(self) -> Seq<Seq<char>> {
        self.packages@.map_values(|p: (String, CargoOpts)| p.0@)
    }

    /// Parses the backend's declarative record. The `packages` field must
    /// be a list and every entry must parse; a single malformed entry
    /// fails the whole backend.
    pub fn new(value: &Record, config: &Record) -> (r: Result<Cargo, Error>)
        ensures
            match r {
                Ok(cargo) => {
                    &&& value.spec_get("packages"@) matches Some(Value::List(items))
                        && wf_cargo_packages(cargo.packages@, items@)
                    &&& spec_binstall_opt(*config) == Some(cargo.installopt@ == "binstall"@)
                    &&& cargo.installopt@ == "binstall"@ || cargo.installopt@ == "install"@
                },
                Err(e) => {
                    ||| {
                        &&& value.spec_get("packages"@) is None
                        &&& e matches Error::MissingField(f) && f@ == "packages"@
                    }
                    ||| {
                        &&& value.spec_get("packages"@) matches Some(v) && !(v matches
                            Value::List(_))
                        &&& e matches Error::NotAList(f) && f@ == "packages"@
                    }
                    ||| value.spec_get("packages"@) matches Some(Value::List(items)) && exists|
                        i: int,
                    |
                        0 <= i < items@.len() && (#[trigger] spec_cargo_pkg(items@[i])) is None
                    ||| {
                        &&& spec_binstall_opt(*config) is None
                        &&& e matches Error::TypeMismatch(f) && f@ == "cargo_use_binstall"@
                    }
                },
            },
    {
        let items = match get_list_field(value, "packages") {
            Ok(items) => items,
            Err(e) => {
                return Err(e);
            },
        };
        let mut packages: Vec<(String, CargoOpts)> = Vec::new();
        let n = items.len();
        let mut i: usize = 0;
        while i < n
            invariant
                value.spec_get("packages"@) == Some(Value::List(*items)),
                n == items@.len(),
                i <= n,
                wf_cargo_packages(packages@, items@.take(i as int)),
            decreases n - i,
        {
            match value_to_pkgspec(&items[i]) {
                Ok(p) => {
                    packages.push(p);
                    proof {
                        assert(items@.take(i as int + 1)[i as int] == items@[i as int]);
                        assert(forall|k: int|
                            0 <= k < i ==> items@.take(i as int + 1)[k] == items@.take(i as int)[k]);
                    }
                },
                Err(e) => {
                    proof {
                        assert(value.spec_get("packages"@) matches Some(Value::List(its)) && its
                            == *items);
                        assert(exists|k: int|
                            0 <= k < items@.len() && (#[trigger] spec_cargo_pkg(
                                items@[k],
                            )) is None) by {
                            assert(spec_cargo_pkg(items@[i as int]) is None);
                        }
                    }
                    return Err(e);
                },
            }
            i += 1;
        }
        proof {
            assert(items@.take(n as int) =~= items@);
        }
        let use_binstall = match get_binstall_opt(config) {
            Ok(b) => b,
            Err(e) => {
                return Err(e);
            },
        };
        let installopt = if use_binstall {
            "binstall".to_owned()
        } else {
            "install".to_owned()
        };
        proof {
            reveal_strlit("binstall");
            reveal_strlit("install");
            assert("binstall"@.len() == 8);
            assert("install"@.len() == 7);
        }
        Ok(Cargo { packages, installopt })
    }

    /// Whether the binary installer is in use; refuses an installer
    /// subcommand the backend does not support.
    pub fn uses_binstall(&self) -> (r: Result<bool, Error>)
        ensures
            match r {
                Ok(b) => (b <==> self.installopt@ == "binstall"@) && (self.installopt@
                    == "binstall"@ || self.installopt@ == "install"@),
                Err(e) => self.installopt@ != "binstall"@ && self.installopt@ != "install"@ && e
                    is UnsupportedInstaller,
            },
    {
        if crate::strutil::str_eq(self.installopt.as_str(), "binstall") {
            Ok(true)
        } else if crate::strutil::str_eq(self.installopt.as_str(), "install") {
            Ok(false)
        } else {
            Err(Error::UnsupportedInstaller)
        }
    }
}

/// The argv installing one package: the installer subcommand, the git
/// source and feature flags the entry asks for, the binary installer's
/// no-confirm flag, and the package name last.
pub open spec fn spec_install_args(
    name: Seq<char>,
    features: Seq<Seq<char>>,
    all_features: bool,
    no_default_features: bool,
    git_remote: Option<Seq<char>>,
    installer: Seq<char>,
) -> Seq<Seq<char>> {
    seq!["cargo"@, installer] + (match git_remote {
        Some(g) => seq!["--git"@, g],
        None => Seq::<Seq<char>>::empty(),
    }) + (if all_features {
        seq!["--all-features"@]
    } else {
        Seq::<Seq<char>>::empty()
    }) + (if no_default_features {
        seq!["--no-default-features"@]
    } else {
        Seq::<Seq<char>>::empty()
    }) + (if features.len() > 0 {
        seq!["--features"@] + features
    } else {
        Seq::<Seq<char>>::empty()
    }) + (if installer == "binstall"@ {
        seq!["--no-confirm"@]
    } else {
        Seq::<Seq<char>>::empty()
    }) + seq![name]
}

/// Builds the install command for one package.
pub fn install_package(name: &str, spec: &CargoOpts, installer: &str) -> (c: Cmd)
    ensures
        c.args.deep_view() == spec_install_args(
            name@,
            spec.features.deep_view(),
            spec.all_features,
            spec.no_default_features,
            spec.git_remote.deep_view(),
            installer@,
        ),
        c.perms == Perms::User,
{
    let ghost git_part = (match spec.git_remote.deep_view() {
        Some(g) => seq!["--git"@, g],
        None => Seq::<Seq<char>>::empty(),
    });
    let ghost af_part = (if spec.all_features {
        seq!["--all-features"@]
    } else {
        Seq::<Seq<char>>::empty()
    });
    let ghost ndf_part = (if spec.no_default_features {
        seq!["--no-default-features"@]
    } else {
        Seq::<Seq<char>>::empty()
    });
    let ghost feat_part = (if spec.features.deep_view().len() > 0 {
        seq!["--features"@] + spec.features.deep_view()
    } else {
        Seq::<Seq<char>>::empty()
    });
    let ghost nc_part = (if installer@ == "binstall"@ {
        seq!["--no-confirm"@]
    } else {
        Seq::<Seq<char>>::empty()
    });
    let mut args: Vec<String> = Vec::new();
    args.push("cargo".to_owned());
    args.push(installer.to_owned());
    match &spec.git_remote {
        Some(g) => {
            args.push("--git".to_owned());
            args.push(g.clone());
        },
        None => {},
    }
    proof {
        assert(args.deep_view() =~= seq!["cargo"@, installer@] + git_part);
    }
    let ghost s1 = args.deep_view();
    if spec.all_features {
        args.push("--all-features".to_owned());
    }
    proof {
        assert(args.deep_view() =~= s1 + af_part);
    }
    let ghost s2 = args.deep_view();
    if spec.no_default_features {
        args.push("--no-default-features".to_owned());
    }
    proof {
        assert(args.deep_view() =~= s2 + ndf_part);
    }
    let ghost s3 = args.deep_view();
    if spec.features.len() > 0 {
        args.push("--features".to_owned());
        append_all(&mut args, &spec.features);
    }
    proof {
        assert(args.deep_view() =~= s3 + feat_part);
    }
    let ghost s4 = args.deep_view();
    if crate::strutil::str_eq(installer, "binstall") {
        args.push("--no-confirm".to_owned());
    }
    proof {
        assert(args.deep_view() =~= s4 + nc_part);
    }
    let ghost s5 = args.deep_view();
    args.push(name.to_owned());
    proof {
        assert(args.deep_view() =~= s5 + seq![name@]);
        assert(args.deep_view() =~= spec_install_args(
            name@,
            spec.features.deep_view(),
            spec.all_features,
            spec.no_default_features,
            spec.git_remote.deep_view(),
            installer@,
        ));
    }
    Cmd { args, perms: Perms::User }
}

/// What one install pass will do: the names shown in the confirmation
/// prompt (the missing packages), one install command per missing package,
/// and their hooks.
#[derive(Debug)]
pub struct CargoInstallPlan {
    pub missing: Vec<String>,
    pub commands: Vec<Cmd>,
    pub hooks: Vec<HookRef>,
}

/// What one removal pass will do: the extra package names shown in the
/// confirmation prompt, and one uninstall command per extra package.
#[derive(Debug)]
pub struct CargoRemovePlan {
    pub extra: Vec<String>,
    pub commands: Vec<Cmd>,
}

impl Cargo {
    /// Plans one install pass: every configured package that is not
    /// installed is installed by its own command, and contributes its hook.
    /// A package already present is never installed again.
    pub fn install_plan(&self, installed: &Vec<String>) -> (plan: CargoInstallPlan)
        ensures
            ({
                let missing = self.packages@.filter(
                    (|p: (String, CargoOpts)| !installed.deep_view().contains(p.0@)),
                );
                &&& plan.missing.deep_view() == missing.map_values(
                    |p: (String, CargoOpts)| p.0@,
                )
                &&& plan.hooks@ == missing.filter_map((|p: (String, CargoOpts)| p.1.post_hook))
                &&& plan.commands@.len() == missing.len()
                &&& forall|j: int|
                    0 <= j < missing.len() ==> (#[trigger] plan.commands@[j]).args.deep_view()
                        == spec_install_args(
                        missing[j].0@,
                        missing[j].1.features.deep_view(),
                        missing[j].1.all_features,
                        missing[j].1.no_default_features,
                        missing[j].1.git_remote.deep_view(),
                        self.installopt@,
                    ) && plan.commands@[j].perms == Perms::User
                // A configured package already present in the installed
                // state is never installed again.
                &&& forall|q: Seq<char>|
                    #[trigger] installed.deep_view().contains(q) ==> !plan.missing.deep_view().contains(
                        q,
                    )
                // A pass that changes nothing schedules no hook at all.
                &&& missing.len() == 0 ==> plan.hooks@ == Seq::<HookRef>::empty()
            }),
    {
        let mut missing: Vec<String> = Vec::new();
        let mut commands: Vec<Cmd> = Vec::new();
        let mut hooks: Vec<HookRef> = Vec::new();
        proof {
            assert(self.packages@.take(0).filter(
                (|p: (String, CargoOpts)| !installed.deep_view().contains(p.0@)),
            ) =~= Seq::<(String, CargoOpts)>::empty()) by {
                reveal(Seq::filter);
                assert(self.packages@.take(0) =~= Seq::<(String, CargoOpts)>::empty());
            }
            assert(Seq::<(String, CargoOpts)>::empty().filter_map(
                (|p: (String, CargoOpts)| p.1.post_hook),
            ) =~= Seq::<HookRef>::empty());
            assert(Seq::<(String, CargoOpts)>::empty().map_values(|p: (String, CargoOpts)| p.0@)
                =~= Seq::<Seq<char>>::empty());
            assert(missing.deep_view() =~= Seq::<Seq<char>>::empty());
        }
        let mut j: usize = 0;
        while j < self.packages.len()
            invariant
                j <= self.packages@.len(),
                ({
                    let miss = self.packages@.take(j as int).filter(
                        (|p: (String, CargoOpts)| !installed.deep_view().contains(p.0@)),
                    );
                    &&& missing.deep_view() == miss.map_values(|p: (String, CargoOpts)| p.0@)
                    &&& hooks@ == miss.filter_map((|p: (String, CargoOpts)| p.1.post_hook))
                    &&& commands@.len() == miss.len()
                    &&& forall|m: int|
                        0 <= m < miss.len() ==> (#[trigger] commands@[m]).args.deep_view()
                            == spec_install_args(
                            miss[m].0@,
                            miss[m].1.features.deep_view(),
                            miss[m].1.all_features,
                            miss[m].1.no_default_features,
                            miss[m].1.git_remote.deep_view(),
                            self.installopt@,
                        ) && commands@[m].perms == Perms::User
                }),
            decreases self.packages@.len() - j,
        {
            let ghost miss_prev = self.packages@.take(j as int).filter(
                (|p: (String, CargoOpts)| !installed.deep_view().contains(p.0@)),
            );
            proof {
                lemma_filter_take_step(
                    self.packages@,
                    (|p: (String, CargoOpts)| !installed.deep_view().contains(p.0@)),
                    j as int,
                );
                assert(miss_prev.push(self.packages@[j as int]).filter_map(
                    (|p: (String, CargoOpts)| p.1.post_hook),
                ) == if self.packages@[j as int].1.post_hook is Some {
                    miss_prev.filter_map((|p: (String, CargoOpts)| p.1.post_hook)).push(
                        self.packages@[j as int].1.post_hook->Some_0,
                    )
                } else {
                    miss_prev.filter_map((|p: (String, CargoOpts)| p.1.post_hook))
                }) by {
                    assert(miss_prev.push(self.packages@[j as int]).drop_last() =~= miss_prev);
                }
                assert(miss_prev.push(self.packages@[j as int]).map_values(
                    |p: (String, CargoOpts)| p.0@,
                ) =~= miss_prev.map_values(|p: (String, CargoOpts)| p.0@).push(
                    self.packages@[j as int].0@,
                ));
            }
            if !crate::strutil::vec_contains_str(installed, self.packages[j].0.as_str()) {
                let ghost nprev = missing.deep_view();
                missing.push(self.packages[j].0.clone());
                proof {
                    assert(missing.deep_view() =~= nprev.push(self.packages@[j as int].0@));
                }
                let c = install_package(
                    self.packages[j].0.as_str(),
                    &self.packages[j].1,
                    self.installopt.as_str(),
                );
                commands.push(c);
                match self.packages[j].1.post_hook {
                    Some(h) => {
                        hooks.push(h);
                    },
                    None => {},
                }
            }
            j += 1;
        }
        proof {
            assert(self.packages@.take(self.packages.len() as int) =~= self.packages@);
            crate::strutil::lemma_filter_all_pred(
                self.packages@,
                (|p: (String, CargoOpts)| !installed.deep_view().contains(p.0@)),
            );
            let miss = self.packages@.filter(
                (|p: (String, CargoOpts)| !installed.deep_view().contains(p.0@)),
            );
            assert forall|q: Seq<char>|
                #[trigger] installed.deep_view().contains(q) implies !missing.deep_view().contains(
                q,
            ) by {
                let missnames = miss.map_values(|p: (String, CargoOpts)| p.0@);
                if missnames.contains(q) {
                    let m = choose|m: int| 0 <= m < missnames.len() && missnames[m] == q;
                    assert(miss.contains(miss[m]));
                }
            }
            if miss.len() == 0 {
                assert(miss =~= Seq::<(String, CargoOpts)>::empty());
                assert(miss.filter_map((|p: (String, CargoOpts)| p.1.post_hook)) =~= Seq::<
                    HookRef,
                >::empty());
            }
        }
        CargoInstallPlan { missing, commands, hooks }
    }

    /// Plans one removal pass: every installed package that is not
    /// configured gets its own uninstall command.
    pub fn remove_plan(&self, installed: &Vec<String>) -> (plan: CargoRemovePlan)
        ensures
            ({
                let extra = installed.deep_view().filter(
                    (|q: Seq<char>| !self.spec_names().contains(q)),
                );
                &&& plan.extra.deep_view() == extra
                &&& plan.commands@.len() == extra.len()
                &&& forall|j: int|
                    0 <= j < extra.len() ==> (#[trigger] plan.commands@[j]).args.deep_view()
                        == seq!["cargo"@, "uninstall"@, extra[j]] && plan.commands@[j].perms
                        == Perms::User
            }),
    {
        let mut names: Vec<String> = Vec::new();
        let mut i: usize = 0;
        while i < self.packages.len()
            invariant
                i <= self.packages@.len(),
                names.deep_view().len() == i,
                forall|k: int|
                    0 <= k < i ==> names.deep_view()[k] == (#[trigger] self.packages@[k]).0@,
            decreases self.packages@.len() - i,
        {
            let ghost prev = names.deep_view();
            names.push(self.packages[i].0.clone());
            proof {
                assert(names.deep_view() =~= prev.push(self.packages@[i as int].0@));
            }
            i += 1;
        }
        proof {
            assert(names.deep_view() =~= self.spec_names());
        }
        let extra = crate::strutil::filter_not_in(installed, &names);
        proof {
            assert(installed.deep_view().filter(
                (|q: Seq<char>| !names.deep_view().contains(q)),
            ) == installed.deep_view().filter(
                (|q: Seq<char>| !self.spec_names().contains(q)),
            )) by {
                assert(names.deep_view() == self.spec_names());
            }
        }
        let mut commands: Vec<Cmd> = Vec::new();
        let mut j: usize = 0;
        while j < extra.len()
            invariant
                j <= extra@.len(),
                commands@.len() == j,
                forall|m: int|
                    0 <= m < j ==> (#[trigger] commands@[m]).args.deep_view() == seq![
                        "cargo"@,
                        "uninstall"@,
                        extra.deep_view()[m],
                    ] && commands@[m].perms == Perms::User,
            decreases extra@.len() - j,
        {
            let mut args: Vec<String> = Vec::new();
            args.push("cargo".to_owned());
            args.push("uninstall".to_owned());
            args.push(extra[j].clone());
            proof {
                assert(args.deep_view() =~= seq![
                    "cargo"@,
                    "uninstall"@,
                    extra.deep_view()[j as int],
                ]);
            }
            commands.push(Cmd { args, perms: Perms::User });
            j += 1;
        }
        CargoRemovePlan { extra, commands }
    }

    /// Plans a cache clean: one autoclean command when the cache helper is
    /// available (`cache_helper_ok`), nothing otherwise.
    pub fn clean_cache_plan(&self, cache_helper_ok: bool) -> (r: Option<Cmd>)
        ensures
            r is Some <==> cache_helper_ok,
            r matches Some(c) ==> c.args.deep_view() == seq!["cargo"@, "cache"@, "--autoclean"@]
                && c.perms == Perms::User,
    {
        if cache_helper_ok {
            let mut args: Vec<String> = Vec::new();
            args.push("cargo".to_owned());
            args.push("cache".to_owned());
            args.push("--autoclean".to_owned());
            proof {
                assert(args.deep_view() =~= seq!["cargo"@, "cache"@, "--autoclean"@]);
            }
            Some(Cmd { args, perms: Perms::User })
        } else {
            None
        }
    }
}

/// How one raw log entry looks at the spec level.
pub ghost struct RawEntryModel {
    pub is_object: bool,
    pub name: Option<Option<Seq<char>>>,
    pub bins: Option<Option<Seq<Option<Seq<char>>>>>,
}

/// One JSON document read from the binary installer's log, before its
/// shape is checked: whether it is an object, and its `name` and `bins`
/// fields (absent, of the wrong type, or read).
pub struct RawEntry {
    pub is_object: bool,
    pub name: Option<Option<String>>,
    pub bins: Option<Option<Vec<Option<String>>>>,
}

impl RawEntry {
    pub open spec fn model(self) -> RawEntryModel {
        RawEntryModel {
            is_object: self.is_object,
            name: self.name.deep_view(),
            bins: self.bins.deep_view(),
        }
    }
}

/// What parsing a byte string as one JSON log entry yields: the raw entry
/// on success, or the one-based column at which parsing stopped.
pub uninterp spec fn binstall_step(s: Seq<u8>) -> Result<RawEntryModel, int>;

/// Relies on serde_json::from_str::<serde_json::Value>: whether and how a
/// string parses as one JSON document is a function of the string alone,
/// and serde_json::Error::column names the one-based column at which
/// parsing stopped. The fields of a parsed document are read with
/// serde_json::Value::{is_object, get, as_str, as_array}.
#[verifier::external_body]
fn binstall_parse_step(s: &str) -> (r: Result<RawEntry, usize>)
    ensures
        match (r, binstall_step(s.spec_bytes())) {
            (Ok(e), Ok(m)) => e.model() == m,
            (Err(c), Err(m)) => c as int == m,
            _ => false,
        },
{
    match serde_json::from_str::<serde_json::Value>(s) {
        Err(e) => Err(e.column()),
        Ok(v) => Ok(
            RawEntry {
                is_object: v.is_object(),
                name: v.get("name").map(|n| n.as_str().map(str::to_owned)),
                bins: v.get("bins").map(
                    |b| b.as_array().map(|a| a.iter().map(|x| x.as_str().map(str::to_owned)).collect()),
                ),
            },
        ),
    }
}

/// Why decoding the log failed: no progress could be made, or an entry is
/// not an object, lacks a proper `name`, or lacks proper `bins`.
pub enum LogFault {
    Progress,
    Entry,
    Name,
    Bins,
}

/// The error each decoding fault maps to.
pub open spec fn spec_fault_error(f: LogFault, e: Error) -> bool {
    match f {
        LogFault::Progress => e is MalformedLog,
        LogFault::Entry => e matches Error::MalformedSpec(s) && s@ == "entry"@,
        LogFault::Name => e matches Error::MalformedSpec(s) && s@ == "name"@,
        LogFault::Bins => e matches Error::MalformedSpec(s) && s@ == "bins"@,
    }
}

/// The package name and binary list a raw entry denotes, or the fault that
/// rules it out: it must be an object with a string `name` and an array of
/// strings under `bins`.
pub open spec fn spec_validate_entry(m: RawEntryModel) -> Result<
    (Seq<char>, Seq<Seq<char>>),
    LogFault,
> {
    if !m.is_object {
        Err(LogFault::Entry)
    } else {
        match m.name {
            Some(Some(name)) => match m.bins {
                Some(Some(bins)) => if forall|k: int| 0 <= k < bins.len() ==> (
                    #[trigger] bins[k]) is Some {
                    Ok((name, bins.map_values(|b: Option<Seq<char>>| b->Some_0)))
                } else {
                    Err(LogFault::Bins)
                },
                _ => Err(LogFault::Bins),
            },
            _ => Err(LogFault::Name),
        }
    }
}

/// Checks the shape of one raw entry, handing out its name and binaries.
fn validate_entry(e: RawEntry) -> (r: Result<(String, Vec<String>), LogFault>)
    ensures
        match (r, spec_validate_entry(e.model())) {
            (Ok(p), Ok((name, bins))) => p.0@ == name && p.1.deep_view() == bins,
            (Err(f), Err(mf)) => f == mf,
            _ => false,
        },
{
    let ghost em = e.model();
    if !e.is_object {
        return Err(LogFault::Entry);
    }
    let name = match e.name {
        Some(Some(name)) => name,
        _ => {
            return Err(LogFault::Name);
        },
    };
    let raw_bins = match e.bins {
        Some(Some(bins)) => bins,
        _ => {
            return Err(LogFault::Bins);
        },
    };
    let mut bins: Vec<String> = Vec::new();
    let mut i: usize = 0;
    #[verifier::loop_isolation(false)]
    while i < raw_bins.len()
        invariant
            i <= raw_bins@.len(),
            bins.deep_view().len() == i,
            forall|k: int|
                0 <= k < i ==> raw_bins.deep_view()[k] == Some(#[trigger] bins.deep_view()[k]),
        decreases raw_bins@.len() - i,
    {
        match &raw_bins[i] {
            Some(b) => {
                let ghost prev = bins.deep_view();
                let c = b.clone();
                let ghost cv = c@;
                bins.push(c);
                proof {
                    assert(bins.deep_view() =~= prev.push(cv));
                    assert(raw_bins.deep_view()[i as int] == Some(cv));
                }
            },
            None => {
                proof {
                    assert(raw_bins.deep_view()[i as int] is None);
                }
                return Err(LogFault::Bins);
            },
        }
        i += 1;
    }
    proof {
        assert forall|k: int|
            0 <= k < raw_bins.deep_view().len() implies (
        #[trigger] raw_bins.deep_view()[k]) is Some by {
            assert(raw_bins.deep_view()[k] == Some(bins.deep_view()[k]));
        }
        assert(bins.deep_view() =~= raw_bins.deep_view().map_values(
            |b: Option<Seq<char>>| b->Some_0,
        ));
    }
    Ok((name, bins))
}

/// What decoding one step of the log yields: an entry's name and
/// binaries together with how many bytes the step consumed, or a fault.
/// The whole remainder parsing as one document consumes everything;
/// otherwise the buffer is sliced at the reported column and the slice
/// must itself parse.
pub open spec fn spec_step(bytes: Seq<u8>) -> Result<(Seq<char>, Seq<Seq<char>>, int), LogFault> {
    match binstall_step(bytes) {
        Ok(m) => match spec_validate_entry(m) {
            Ok((name, bins)) => Ok((name, bins, bytes.len() as int)),
            Err(f) => Err(f),
        },
        Err(col) => {
            let idx = col - 1;
            if idx <= 0 || idx >= bytes.len() || !vstd::utf8::is_char_boundary(bytes, idx) {
                Err(LogFault::Progress)
            } else {
                match binstall_step(bytes.take(idx)) {
                    Ok(m) => match spec_validate_entry(m) {
                        Ok((name, bins)) => Ok((name, bins, idx)),
                        Err(f) => Err(f),
                    },
                    Err(_) => Err(LogFault::Progress),
                }
            }
        },
    }
}

/// Decodes one log entry from the front of `s`, returning its name, its
/// binaries, and the number of bytes consumed.
pub fn parse_binstall_cratespec(s: &str) -> (r: Result<(String, Vec<String>, usize), Error>)
    ensures
        match (r, spec_step(s.spec_bytes())) {
            (Ok(p), Ok((name, bins, consumed))) => p.0@ == name && p.1.deep_view() == bins && p.2
                as int == consumed,
            (Err(e), Err(f)) => spec_fault_error(f, e),
            _ => false,
        },
        r matches Ok((_, _, consumed)) ==> consumed <= s.spec_bytes().len() && (consumed
            < s.spec_bytes().len() ==> 1 <= consumed && vstd::utf8::is_char_boundary(
            s.spec_bytes(),
            consumed as int,
        )),
{
    let n = crate::strutil::byte_len(s);
    match binstall_parse_step(s) {
        Ok(e) => {
            proof {
                assert(binstall_step(s.spec_bytes()) matches Ok(m) && m == e.model());
            }
            match validate_entry(e) {
                Ok((name, bins)) => {
                    proof {
                        assert(spec_step(s.spec_bytes()) matches Ok(t) && t.2 == n as int && t.0
                            == name@);
                    }
                    Ok((name, bins, n))
                },
                Err(f) => Err(fault_to_error(f)),
            }
        },
        Err(col) => {
            if col < 2 || col - 1 >= n {
                proof {
                    assert(spec_step(s.spec_bytes()) == Err::<
                        (Seq<char>, Seq<Seq<char>>, int),
                        LogFault,
                    >(LogFault::Progress));
                }
                return Err(Error::MalformedLog);
            }
            let idx = col - 1;
            if !s.is_char_boundary(idx) {
                proof {
                    assert(spec_step(s.spec_bytes()) == Err::<
                        (Seq<char>, Seq<Seq<char>>, int),
                        LogFault,
                    >(LogFault::Progress));
                }
                return Err(Error::MalformedLog);
            }
            let (segment, _) = s.split_at(idx);
            proof {
                assert(segment.spec_bytes() =~= s.spec_bytes().take(idx as int));
            }
            match binstall_parse_step(segment) {
                Ok(e) => {
                    proof {
                        assert(binstall_step(s.spec_bytes().take(idx as int)) matches Ok(m) && m
                            == e.model());
                    }
                    match validate_entry(e) {
                        Ok((name, bins)) => {
                            proof {
                                assert(spec_step(s.spec_bytes()) matches Ok(t) && t.2 == idx as int
                                    && t.0 == name@);
                            }
                            Ok((name, bins, idx))
                        },
                        Err(f) => Err(fault_to_error(f)),
                    }
                },
                Err(_) => {
                    proof {
                        assert(spec_step(s.spec_bytes()) == Err::<
                            (Seq<char>, Seq<Seq<char>>, int),
                            LogFault,
                        >(LogFault::Progress));
                    }
                    Err(Error::MalformedLog)
                },
            }
        },
    }
}

/// Maps a decoding fault to the library's error.
fn fault_to_error(f: LogFault) -> (r: Error)
    ensures
        spec_fault_error(f, r),
{
    match f {
        LogFault::Progress => Error::MalformedLog,
        LogFault::Entry => Error::MalformedSpec("entry".to_owned()),
        LogFault::Name => Error::MalformedSpec("name".to_owned()),
        LogFault::Bins => Error::MalformedSpec("bins".to_owned()),
    }
}

/// What decoding the whole log yields: the entries in order, or the first
/// fault. Decoding consumes at least one byte per entry, so it terminates.
pub open spec fn spec_decode_log(bytes: Seq<u8>) -> Result<
    Seq<(Seq<char>, Seq<Seq<char>>)>,
    LogFault,
>
    decreases bytes.len(),
{
    if bytes.len() == 0 {
        Ok(Seq::empty())
    } else {
        match spec_step(bytes) {
            Err(f) => Err(f),
            Ok((name, bins, consumed)) => if consumed >= bytes.len() {
                Ok(seq![(name, bins)])
            } else if consumed < 1 {
                Err(LogFault::Progress)
            } else {
                match spec_decode_log(bytes.skip(consumed)) {
                    Ok(rest) => Ok(seq![(name, bins)] + rest),
                    Err(f) => Err(f),
                }
            },
        }
    }
}

/// Decodes the binary installer's log: zero or more JSON objects
/// concatenated with no separator, each shaped `{ name, bins }`. An empty
/// or missing log denotes nothing installed; a buffer that cannot be
/// decoded to the end is an error.
pub fn get_installed_packages_binary(cratespec: &str) -> (r: Result<
    Vec<(String, Vec<String>)>,
    Error,
>)
    ensures
        match (r, spec_decode_log(cratespec.spec_bytes())) {
            (Ok(out), Ok(entries)) => out@.map_values(
                |p: (String, Vec<String>)| (p.0@, p.1.deep_view()),
            ) == entries,
            (Err(e), Err(f)) => spec_fault_error(f, e),
            _ => false,
        },
{
    let mut out: Vec<(String, Vec<String>)> = Vec::new();
    let mut rem: &str = cratespec;
    let mut done = false;
    let ghost orig = cratespec.spec_bytes();
    proof {
        assert(rem.spec_bytes() =~= orig);
        assert(out@.map_values(|p: (String, Vec<String>)| (p.0@, p.1.deep_view())) =~= Seq::<
            (Seq<char>, Seq<Seq<char>>),
        >::empty());
    }
    #[verifier::loop_isolation(false)]
    while !done && crate::strutil::byte_len(rem) != 0
        invariant
            ({
                let sofar = out@.map_values(|p: (String, Vec<String>)| (p.0@, p.1.deep_view()));
                if done {
                    spec_decode_log(orig) == Ok::<Seq<(Seq<char>, Seq<Seq<char>>)>, LogFault>(
                        sofar,
                    )
                } else {
                    match spec_decode_log(rem.spec_bytes()) {
                        Ok(rest) => spec_decode_log(orig) == Ok::<
                            Seq<(Seq<char>, Seq<Seq<char>>)>,
                            LogFault,
                        >(sofar + rest),
                        Err(f) => spec_decode_log(orig) == Err::<
                            Seq<(Seq<char>, Seq<Seq<char>>)>,
                            LogFault,
                        >(f),
                    }
                }
            }),
        decreases (if done {
            0int
        } else {
            rem.spec_bytes().len() as int + 1
        }),
    {
        let ghost sofar_prev = out@.map_values(|p: (String, Vec<String>)| (p.0@, p.1.deep_view()));
        match parse_binstall_cratespec(rem) {
            Ok((name, bins, consumed)) => {
                let ghost stepres = spec_step(rem.spec_bytes());
                let ghost entry = (name@, bins.deep_view());
                out.push((name, bins));
                proof {
                    assert(out@.map_values(|p: (String, Vec<String>)| (p.0@, p.1.deep_view()))
                        =~= sofar_prev.push(entry));
                    assert(entry == (stepres->Ok_0.0, stepres->Ok_0.1));
                }
                if consumed >= crate::strutil::byte_len(rem) {
                    done = true;
                    proof {
                        assert(spec_decode_log(rem.spec_bytes()) == Ok::<
                            Seq<(Seq<char>, Seq<Seq<char>>)>,
                            LogFault,
                        >(seq![entry]));
                        assert(sofar_prev + seq![entry] =~= sofar_prev.push(entry));
                    }
                } else {
                    let (_, rest) = rem.split_at(consumed);
                    proof {
                        assert(rest.spec_bytes() =~= rem.spec_bytes().skip(consumed as int));
                        match spec_decode_log(rest.spec_bytes()) {
                            Ok(r2) => {
                                assert(spec_decode_log(rem.spec_bytes()) == Ok::<
                                    Seq<(Seq<char>, Seq<Seq<char>>)>,
                                    LogFault,
                                >(seq![entry] + r2));
                                assert(sofar_prev + (seq![entry] + r2) =~= sofar_prev.push(entry)
                                    + r2);
                            },
                            Err(f) => {
                                assert(spec_decode_log(rem.spec_bytes()) == Err::<
                                    Seq<(Seq<char>, Seq<Seq<char>>)>,
                                    LogFault,
                                >(f));
                            },
                        }
                    }
                    rem = rest;
                }
            },
            Err(e) => {
                proof {
                    assert(spec_decode_log(rem.spec_bytes()) is Err);
                }
                return Err(e);
            },
        }
    }
    proof {
        if !done {
            assert(rem.spec_bytes().len() == 0);
            assert(spec_decode_log(rem.spec_bytes()) == Ok::<
                Seq<(Seq<char>, Seq<Seq<char>>)>,
                LogFault,
            >(Seq::empty()));
            let sofar = out@.map_values(|p: (String, Vec<String>)| (p.0@, p.1.deep_view()));
            assert(sofar + Seq::<(Seq<char>, Seq<Seq<char>>)>::empty() =~= sofar);
        }
    }
    Ok(out)
}

/// How the `installs` listing of the bookkeeping document looks at the
/// spec level.
pub ghost enum InstallsListing {
    NotJson,
    Missing,
    NotObject,
    Keys(Seq<Seq<char>>),
}

/// What reading the bookkeeping document yields: not JSON at all, no
/// `installs` entry, an `installs` entry that is not an object, or the
/// object's keys.
pub enum InstallsOutcome {
    NotJson,
    Missing,
    NotObject,
    Keys(Vec<String>),
}

impl InstallsOutcome {
    pub open spec fn model(self) -> InstallsListing {
        match self {
            InstallsOutcome::NotJson => InstallsListing::NotJson,
            InstallsOutcome::Missing => InstallsListing::Missing,
            InstallsOutcome::NotObject => InstallsListing::NotObject,
            InstallsOutcome::Keys(v) => InstallsListing::Keys(v.deep_view()),
        }
    }
}

/// What the `installs` object of a bookkeeping document holds; a function
/// of the document alone.
pub uninterp spec fn installs_of(s: Seq<u8>) -> InstallsListing;

/// Relies on serde_json::from_str::<serde_json::Value>, Value::get,
/// Value::as_object and Map::keys: the keys of the `installs` object are a
/// function of the document alone (the parsed map is ordered by key).
#[verifier::external_body]
fn read_installs(s: &str) -> (r: InstallsOutcome)
    ensures
        r.model() == installs_of(s.spec_bytes()),
{
    match serde_json::from_str::<serde_json::Value>(s) {
        Err(_) => InstallsOutcome::NotJson,
        Ok(v) => match v.get("installs") {
            None => InstallsOutcome::Missing,
            Some(f) => match f.as_object() {
                None => InstallsOutcome::NotObject,
                Some(m) => InstallsOutcome::Keys(m.keys().cloned().collect()),
            },
        },
    }
}

/// Reads the installed packages from the plain installer's bookkeeping
/// document: the keys of its `installs` object are `name version (source)`
/// strings, of which only the name segment before the first space counts;
/// a key without a space is skipped. The result is a duplicate-free set of
/// names, first occurrences kept in order.
pub fn get_installed_packages_source(cratespec: &str) -> (r: Result<Vec<String>, Error>)
    ensures
        match (r, installs_of(cratespec.spec_bytes())) {
            (Ok(out), InstallsListing::Keys(keys)) => {
                let segments = keys.filter_map(
                    (
                    |k: Seq<char>|
                        if spec_find(k, ' ') < k.len() {
                            Some(k.take(spec_find(k, ' ')))
                        } else {
                            None
                        }),
                );
                &&& out.deep_view() == crate::strutil::spec_dedup(segments)
                &&& forall|a: int, b: int|
                    0 <= a < b < out.deep_view().len() ==> out.deep_view()[a]
                        != out.deep_view()[b]
                &&& forall|x: Seq<char>|
                    #[trigger] out.deep_view().contains(x) <==> segments.contains(x)
            },
            (Err(e), InstallsListing::NotJson) => e matches Error::MalformedSpec(m) && m@
                == "json"@,
            (Err(e), InstallsListing::Missing) => e matches Error::MalformedSpec(m) && m@
                == "installs"@,
            (Err(e), InstallsListing::NotObject) => e matches Error::MalformedSpec(m) && m@
                == "installs"@,
            _ => false,
        },
{
    let keys = match read_installs(cratespec) {
        InstallsOutcome::NotJson => {
            return Err(Error::MalformedSpec("json".to_owned()));
        },
        InstallsOutcome::Missing => {
            return Err(Error::MalformedSpec("installs".to_owned()));
        },
        InstallsOutcome::NotObject => {
            return Err(Error::MalformedSpec("installs".to_owned()));
        },
        InstallsOutcome::Keys(keys) => keys,
    };
    let mut out: Vec<String> = Vec::new();
    proof {
        assert(keys.deep_view().take(0).filter_map(
            (
            |k: Seq<char>|
                if spec_find(k, ' ') < k.len() {
                    Some(k.take(spec_find(k, ' ')))
                } else {
                    None
                }),
        ) =~= Seq::<Seq<char>>::empty()) by {
            assert(keys.deep_view().take(0) =~= Seq::<Seq<char>>::empty());
        }
        assert(out.deep_view() =~= Seq::<Seq<char>>::empty());
    }
    let mut i: usize = 0;
    #[verifier::loop_isolation(false)]
    while i < keys.len()
        invariant
            i <= keys@.len(),
            out.deep_view() == keys.deep_view().take(i as int).filter_map(
                (
                |k: Seq<char>|
                    if spec_find(k, ' ') < k.len() {
                        Some(k.take(spec_find(k, ' ')))
                    } else {
                        None
                    }),
            ),
        decreases keys@.len() - i,
    {
        proof {
            crate::strutil::lemma_filter_map_take_step(
                keys.deep_view(),
                (
                |k: Seq<char>|
                    if spec_find(k, ' ') < k.len() {
                        Some(k.take(spec_find(k, ' ')))
                    } else {
                        None
                    }),
                i as int,
            );
        }
        let key = &keys[i];
        let n = key.as_str().unicode_len();
        let j = crate::strutil::find_char(key.as_str(), ' ');
        if j < n {
            let ghost prev = out.deep_view();
            let head = key.as_str().substring_char(0, j).to_owned();
            let ghost hv = head@;
            out.push(head);
            proof {
                assert(hv =~= keys.deep_view()[i as int].take(
                    spec_find(keys.deep_view()[i as int], ' '),
                ));
                assert(out.deep_view() =~= prev.push(hv));
            }
        }
        i += 1;
    }
    proof {
        assert(keys.deep_view().take(keys.len() as int) =~= keys.deep_view());
    }
    Ok(crate::strutil::dedup_strs(&out))
}

/// True iff every binary of `bins` is present.
fn all_bins_present(bins: &Vec<String>, present_bins: &Vec<String>) -> (r: bool)
    ensures
        r == forall|k: int|
            0 <= k < bins.deep_view().len() ==> present_bins.deep_view().contains(
                #[trigger] bins.deep_view()[k],
            ),
{
    let mut i: usize = 0;
    while i < bins.len()
        invariant
            i <= bins@.len(),
            forall|k: int|
                0 <= k < i ==> present_bins.deep_view().contains(#[trigger] bins.deep_view()[k]),
        decreases bins@.len() - i,
    {
        if !crate::strutil::vec_contains_str(present_bins, bins[i].as_str()) {
            assert(!present_bins.deep_view().contains(bins.deep_view()[i as int]));
            return false;
        }
        i += 1;
    }
    true
}

/// The packages of the binary installer's log that count as installed: a
/// package counts only when every binary it lists is present under the
/// installer's binary directory (`present_bins` names what is present).
/// The result is a duplicate-free set of names, first occurrences kept in
/// order.
pub fn get_installed_packages_from_binstall_spec(
    pkgspec: &Vec<(String, Vec<String>)>,
    present_bins: &Vec<String>,
) -> (r: Vec<String>)
    ensures
        ({
            let counted = pkgspec@.filter(
                (
                |p: (String, Vec<String>)|
                    forall|k: int|
                        0 <= k < p.1.deep_view().len() ==> present_bins.deep_view().contains(
                            #[trigger] p.1.deep_view()[k],
                        )),
            ).map_values(|p: (String, Vec<String>)| p.0@);
            &&& r.deep_view() == crate::strutil::spec_dedup(counted)
            &&& forall|a: int, b: int|
                0 <= a < b < r.deep_view().len() ==> r.deep_view()[a] != r.deep_view()[b]
            &&& forall|x: Seq<char>|
                #[trigger] r.deep_view().contains(x) <==> counted.contains(x)
        }),
{
    let mut out: Vec<String> = Vec::new();
    proof {
        assert(pkgspec@.take(0).filter(
            (
            |p: (String, Vec<String>)|
                forall|k: int|
                    0 <= k < p.1.deep_view().len() ==> present_bins.deep_view().contains(
                        #[trigger] p.1.deep_view()[k],
                    )),
        ) =~= Seq::<(String, Vec<String>)>::empty()) by {
            reveal(Seq::filter);
            assert(pkgspec@.take(0) =~= Seq::<(String, Vec<String>)>::empty());
        }
        assert(Seq::<(String, Vec<String>)>::empty().map_values(
            |p: (String, Vec<String>)| p.0@,
        ) =~= Seq::<Seq<char>>::empty());
        assert(out.deep_view() =~= Seq::<Seq<char>>::empty());
    }
    let mut i: usize = 0;
    #[verifier::loop_isolation(false)]
    while i < pkgspec.len()
        invariant
            i <= pkgspec@.len(),
            out.deep_view() == pkgspec@.take(i as int).filter(
                (
                |p: (String, Vec<String>)|
                    forall|k: int|
                        0 <= k < p.1.deep_view().len() ==> present_bins.deep_view().contains(
                            #[trigger] p.1.deep_view()[k],
                        )),
            ).map_values(|p: (String, Vec<String>)| p.0@),
        decreases pkgspec@.len() - i,
    {
        let ghost fprev = pkgspec@.take(i as int).filter(
            (
            |p: (String, Vec<String>)|
                forall|k: int|
                    0 <= k < p.1.deep_view().len() ==> present_bins.deep_view().contains(
                        #[trigger] p.1.deep_view()[k],
                    )),
        );
        proof {
            lemma_filter_take_step(
                pkgspec@,
                (
                |p: (String, Vec<String>)|
                    forall|k: int|
                        0 <= k < p.1.deep_view().len() ==> present_bins.deep_view().contains(
                            #[trigger] p.1.deep_view()[k],
                        )),
                i as int,
            );
        }
        if all_bins_present(&pkgspec[i].1, present_bins) {
            let ghost prev = out.deep_view();
            out.push(pkgspec[i].0.clone());
            proof {
                assert(out.deep_view() =~= prev.push(pkgspec@[i as int].0@));
                assert(fprev.push(pkgspec@[i as int]).map_values(
                    |p: (String, Vec<String>)| p.0@,
                ) =~= fprev.map_values(|p: (String, Vec<String>)| p.0@).push(
                    pkgspec@[i as int].0@,
                ));
            }
        }
        i += 1;
    }
    proof {
        assert(pkgspec@.take(pkgspec.len() as int) =~= pkgspec@);
    }
    crate::strutil::dedup_strs(&out)
}

/// The query that checks whether the cache helper subcommand exists.
pub fn cache_help_query() -> (c: Cmd)
    ensures
        c.args.deep_view() == seq!["cargo"@, "cache"@, "--help"@],
        c.perms == Perms::User,
{
    let mut args: Vec<String> = Vec::new();
    args.push("cargo".to_owned());
    args.push("cache".to_owned());
    args.push("--help".to_owned());
    proof {
        assert(args.deep_view() =~= seq!["cargo"@, "cache"@, "--help"@]);
    }
    Cmd { args, perms: Perms::User }
}

} // verus!
