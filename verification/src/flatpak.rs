//! The sandboxed application distributor backend.
//!
//! Packages and runtime pins exist in a per-user and a machine-wide
//! installation; each configured entry chooses its side, falling back to a
//! configured default. A configured pin is a pattern: it matches an
//! installed pin when its identifier is a prefix of the installed one and
//! its branch and architecture, where given, agree exactly. Remote and pin
//! entries are best-effort — a malformed entry is skipped — while package
//! entries are strict.

use vstd::prelude::*;

use crate::commands::{Cmd, Perms};
use crate::error::Error;
use crate::strutil::{
    append_all, lemma_filter_map_take_step, lemma_filter_push, lemma_filter_take_step, spec_lines,
    spec_split, spec_trim, split_char, str_eq, trim, vec_contains_str,
};
use crate::values::{get_bool_field, get_hook_field, get_list_field, spec_hook_field, HookRef,
    Record, Value};

verus! {

/// Options of one configured package: an optional pinned remote, which
/// installation it belongs to, and an optional hook.
#[derive(Debug)]
pub struct FlatpakOpts {
    pub remote: Option<String>,
    pub systemwide: bool,
    pub post_hook: Option<HookRef>,
}

/// One configured runtime pin pattern: optional branch and architecture
/// constraints, which installation it belongs to, and an optional hook.
#[derive(Debug)]
pub struct PinOpts {
    pub branch: Option<String>,
    pub arch: Option<String>,
    pub systemwide: bool,
    pub post_hook: Option<HookRef>,
}

/// The parsed declarative state for this backend.
#[derive(Debug)]
pub struct Flatpak {
    pub remotes: Vec<(String, String)>,
    pub user_pinned: Vec<(String, PinOpts)>,
    pub system_pinned: Vec<(String, PinOpts)>,
    pub user_packages: Vec<(String, FlatpakOpts)>,
    pub system_packages: Vec<(String, FlatpakOpts)>,
}

/// The contents of one parsed package entry.
pub open spec fn pkg_model(p: (String, FlatpakOpts)) -> (
    Seq<char>,
    Option<Seq<char>>,
    bool,
    Option<HookRef>,
) {
    (p.0@, p.1.remote.deep_view(), p.1.systemwide, p.1.post_hook)
}

/// The contents of one parsed pin entry.
pub open spec fn pin_model(p: (String, PinOpts)) -> (
    Seq<char>,
    Option<Seq<char>>,
    Option<Seq<char>>,
    bool,
    Option<HookRef>,
) {
    (p.0@, p.1.branch.deep_view(), p.1.arch.deep_view(), p.1.systemwide, p.1.post_hook)
}

/// What one declarative package entry denotes under the configured default
/// installation side, or nothing when the entry is malformed.
pub open spec fn spec_flatpak_pkg(v: Value, default_systemwide: bool) -> Option<
    (Seq<char>, Option<Seq<char>>, bool, Option<HookRef>),
> {
    match v {
        Value::Record(rec) => match rec.spec_get("package"@) {
            Some(Value::Str(name)) => {
                let remote = match rec.spec_get("remote"@) {
                    None => Some(None),
                    Some(Value::Str(r)) => Some(Some(r@)),
                    Some(_) => None,
                };
                let systemwide = match rec.spec_get("systemwide"@) {
                    None => Some(default_systemwide),
                    Some(Value::Bool(b)) => Some(b),
                    Some(_) => None,
                };
                match (remote, systemwide, spec_hook_field(rec.spec_get("post_hook"@))) {
                    (Some(r), Some(s), Ok(h)) => Some((name@, r, s, h)),
                    _ => None,
                }
            },
            _ => None,
        },
        _ => None,
    }
}

/// Parses one declarative package entry. A hook that captures external
/// state is dropped, never returned.
pub fn value_to_pkgspec(value: &Value, default_systemwide: bool) -> (r: Result<
    (String, FlatpakOpts),
    Error,
>)
    ensures
        match r {
            Ok(p) => spec_flatpak_pkg(*value, default_systemwide) == Some(pkg_model(p)),
            Err(_) => spec_flatpak_pkg(*value, default_systemwide) is None,
        },
        r matches Ok((_, opts)) ==> (opts.post_hook matches Some(h) ==> !h.captures_state),
{
    let rec = match value {
        Value::Record(rec) => rec,
        _ => {
            return Err(Error::NotARecord);
        },
    };
    let name = match rec.get("package") {
        None => {
            return Err(Error::MissingField("package".to_owned()));
        },
        Some(v) => match v {
            Value::Str(s) => s.clone(),
            _ => {
                return Err(Error::TypeMismatch("package".to_owned()));
            },
        },
    };
    let remote = match crate::values::get_string_field(rec, "remote") {
        Ok(r) => r,
        Err(e) => {
            return Err(e);
        },
    };
    let systemwide = match get_bool_field(rec, "systemwide", default_systemwide) {
        Ok(b) => b,
        Err(e) => {
            return Err(e);
        },
    };
    let post_hook = match get_hook_field(rec) {
        Ok(h) => h,
        Err(e) => {
            return Err(e);
        },
    };
    Ok((name, FlatpakOpts { remote, systemwide, post_hook }))
}

/// What one declarative pin entry denotes, or nothing when malformed.
pub open spec fn spec_pinspec(v: Value, default_systemwide: bool) -> Option<
    (Seq<char>, Option<Seq<char>>, Option<Seq<char>>, bool, Option<HookRef>),
> {
    match v {
        Value::Record(rec) => match rec.spec_get("package"@) {
            Some(Value::Str(name)) => {
                let branch = match rec.spec_get("branch"@) {
                    None => Some(None),
                    Some(Value::Str(b)) => Some(Some(b@)),
                    Some(_) => None,
                };
                let arch = match rec.spec_get("arch"@) {
                    None => Some(None),
                    Some(Value::Str(a)) => Some(Some(a@)),
                    Some(_) => None,
                };
                let systemwide = match rec.spec_get("systemwide"@) {
                    None => Some(default_systemwide),
                    Some(Value::Bool(b)) => Some(b),
                    Some(_) => None,
                };
                match (branch, arch, systemwide, spec_hook_field(rec.spec_get("post_hook"@))) {
                    (Some(b), Some(a), Some(s), Ok(h)) => Some((name@, b, a, s, h)),
                    _ => None,
                }
            },
            _ => None,
        },
        _ => None,
    }
}

/// Parses one declarative pin entry. A hook that captures external state
/// is dropped, never returned.
pub fn value_to_pinspec(value: &Value, default_systemwide: bool) -> (r: Result<
    (String, PinOpts),
    Error,
>)
    ensures
        match r {
            Ok(p) => spec_pinspec(*value, default_systemwide) == Some(pin_model(p)),
            Err(_) => spec_pinspec(*value, default_systemwide) is None,
        },
        r matches Ok((_, opts)) ==> (opts.post_hook matches Some(h) ==> !h.captures_state),
{
    let rec = match value {
        Value::Record(rec) => rec,
        _ => {
            return Err(Error::NotARecord);
        },
    };
    let name = match rec.get("package") {
        None => {
            return Err(Error::MissingField("package".to_owned()));
        },
        Some(v) => match v {
            Value::Str(s) => s.clone(),
            _ => {
                return Err(Error::TypeMismatch("package".to_owned()));
            },
        },
    };
    let branch = match crate::values::get_string_field(rec, "branch") {
        Ok(b) => b,
        Err(e) => {
            return Err(e);
        },
    };
    let arch = match crate::values::get_string_field(rec, "arch") {
        Ok(a) => a,
        Err(e) => {
            return Err(e);
        },
    };
    let systemwide = match get_bool_field(rec, "systemwide", default_systemwide) {
        Ok(b) => b,
        Err(e) => {
            return Err(e);
        },
    };
    let post_hook = match get_hook_field(rec) {
        Ok(h) => h,
        Err(e) => {
            return Err(e);
        },
    };
    Ok((name, PinOpts { branch, arch, systemwide, post_hook }))
}

/// What one declarative remote entry denotes — its name and URL — or
/// nothing when the entry is malformed.
pub open spec fn spec_remote(v: Value) -> Option<(Seq<char>, Seq<char>)> {
    match v {
        Value::Record(rec) => match (rec.spec_get("package"@), rec.spec_get("url"@)) {
            (Some(Value::Str(n)), Some(Value::Str(u))) => Some((n@, u@)),
            _ => None,
        },
        _ => None,
    }
}

/// Parses one remote entry; a malformed entry yields nothing and is
/// skipped by the caller.
pub fn extract_remote(remote: &Value) -> (r: Option<(String, String)>)
    ensures
        match r {
            Some(p) => spec_remote(*remote) == Some((p.0@, p.1@)),
            None => spec_remote(*remote) is None,
        },
{
    let rec = match remote {
        Value::Record(rec) => rec,
        _ => {
            return None;
        },
    };
    let name = match rec.get("package") {
        Some(v) => match v {
            Value::Str(s) => s.clone(),
            _ => {
                return None;
            },
        },
        None => {
            return None;
        },
    };
    let url = match rec.get("url") {
        Some(v) => match v {
            Value::Str(s) => s.clone(),
            _ => {
                return None;
            },
        },
        None => {
            return None;
        },
    };
    Some((name, url))
}

/// Parses a remote list, skipping malformed entries.
pub fn values_to_remotes(remotes: &Vec<Value>) -> (r: Vec<(String, String)>)
    ensures
        r@.map_values(|p: (String, String)| (p.0@, p.1@)) == remotes@.filter_map(
            (|v: Value| spec_remote(v)),
        ),
{
    let mut out: Vec<(String, String)> = Vec::new();
    proof {
        assert(remotes@.take(0).filter_map((|v: Value| spec_remote(v))) =~= Seq::<
            (Seq<char>, Seq<char>),
        >::empty()) by {
            assert(remotes@.take(0) =~= Seq::<Value>::empty());
        }
        assert(out@.map_values(|p: (String, String)| (p.0@, p.1@)) =~= Seq::<
            (Seq<char>, Seq<char>),
        >::empty());
    }
    let mut i: usize = 0;
    while i < remotes.len()
        invariant
            i <= remotes@.len(),
            out@.map_values(|p: (String, String)| (p.0@, p.1@)) == remotes@.take(
                i as int,
            ).filter_map((|v: Value| spec_remote(v))),
        decreases remotes@.len() - i,
    {
        proof {
            lemma_filter_map_take_step(remotes@, (|v: Value| spec_remote(v)), i as int);
        }
        let ghost prev = out@.map_values(|p: (String, String)| (p.0@, p.1@));
        match extract_remote(&remotes[i]) {
            Some(p) => {
                let ghost pv = (p.0@, p.1@);
                out.push(p);
                proof {
                    assert(out@.map_values(|p: (String, String)| (p.0@, p.1@)) =~= prev.push(pv));
                }
            },
            None => {},
        }
        i += 1;
    }
    proof {
        assert(remotes@.take(remotes.len() as int) =~= remotes@);
    }
    out
}

/// Parses a pin list, skipping malformed entries, and partitions the
/// result into per-user and machine-wide pins, keeping declaration order.
pub fn values_to_pins(values: &Vec<Value>, default_systemwide: bool) -> (r: (
    Vec<(String, PinOpts)>,
    Vec<(String, PinOpts)>,
))
    ensures
        ({
            let parsed = values@.filter_map(
                (|v: Value| spec_pinspec(v, default_systemwide)),
            );
            &&& r.0@.map_values(|p: (String, PinOpts)| pin_model(p)) == parsed.filter(
                (|t: (Seq<char>, Option<Seq<char>>, Option<Seq<char>>, bool, Option<HookRef>)|
                    !t.3),
            )
            &&& r.1@.map_values(|p: (String, PinOpts)| pin_model(p)) == parsed.filter(
                (|t: (Seq<char>, Option<Seq<char>>, Option<Seq<char>>, bool, Option<HookRef>)|
                    t.3),
            )
        }),
{
    let mut user: Vec<(String, PinOpts)> = Vec::new();
    let mut system: Vec<(String, PinOpts)> = Vec::new();
    proof {
        assert(values@.take(0).filter_map((|v: Value| spec_pinspec(v, default_systemwide)))
            =~= Seq::<
            (Seq<char>, Option<Seq<char>>, Option<Seq<char>>, bool, Option<HookRef>),
        >::empty()) by {
            assert(values@.take(0) =~= Seq::<Value>::empty());
        }
        assert(Seq::<
            (Seq<char>, Option<Seq<char>>, Option<Seq<char>>, bool, Option<HookRef>),
        >::empty().filter(
            (|t: (Seq<char>, Option<Seq<char>>, Option<Seq<char>>, bool, Option<HookRef>)|
                !t.3),
        ) =~= Seq::<
            (Seq<char>, Option<Seq<char>>, Option<Seq<char>>, bool, Option<HookRef>),
        >::empty()) by {
            reveal(Seq::filter);
        }
        assert(Seq::<
            (Seq<char>, Option<Seq<char>>, Option<Seq<char>>, bool, Option<HookRef>),
        >::empty().filter(
            (|t: (Seq<char>, Option<Seq<char>>, Option<Seq<char>>, bool, Option<HookRef>)| t.3),
        ) =~= Seq::<
            (Seq<char>, Option<Seq<char>>, Option<Seq<char>>, bool, Option<HookRef>),
        >::empty()) by {
            reveal(Seq::filter);
        }
        assert(user@.map_values(|p: (String, PinOpts)| pin_model(p)) =~= Seq::<
            (Seq<char>, Option<Seq<char>>, Option<Seq<char>>, bool, Option<HookRef>),
        >::empty());
        assert(system@.map_values(|p: (String, PinOpts)| pin_model(p)) =~= Seq::<
            (Seq<char>, Option<Seq<char>>, Option<Seq<char>>, bool, Option<HookRef>),
        >::empty());
    }
    let mut i: usize = 0;
    while i < values.len()
        invariant
            i <= values@.len(),
            ({
                let parsed = values@.take(i as int).filter_map(
                    (|v: Value| spec_pinspec(v, default_systemwide)),
                );
                &&& user@.map_values(|p: (String, PinOpts)| pin_model(p)) == parsed.filter(
                    (
                    |t: (Seq<char>, Option<Seq<char>>, Option<Seq<char>>, bool, Option<HookRef>)|
                        !t.3),
                )
                &&& system@.map_values(|p: (String, PinOpts)| pin_model(p)) == parsed.filter(
                    (
                    |t: (Seq<char>, Option<Seq<char>>, Option<Seq<char>>, bool, Option<HookRef>)|
                        t.3),
                )
            }),
        decreases values@.len() - i,
    {
        proof {
            lemma_filter_map_take_step(
                values@,
                (|v: Value| spec_pinspec(v, default_systemwide)),
                i as int,
            );
        }
        let ghost uprev = user@.map_values(|p: (String, PinOpts)| pin_model(p));
        let ghost sprev = system@.map_values(|p: (String, PinOpts)| pin_model(p));
        let ghost parsed_prev = values@.take(i as int).filter_map(
            (|v: Value| spec_pinspec(v, default_systemwide)),
        );
        match value_to_pinspec(&values[i], default_systemwide) {
            Ok(p) => {
                let ghost pv = pin_model(p);
                proof {
                    lemma_filter_push(
                        parsed_prev,
                        (
                        |t: (
                            Seq<char>,
                            Option<Seq<char>>,
                            Option<Seq<char>>,
                            bool,
                            Option<HookRef>,
                        )| !t.3),
                        pv,
                    );
                    lemma_filter_push(
                        parsed_prev,
                        (
                        |t: (
                            Seq<char>,
                            Option<Seq<char>>,
                            Option<Seq<char>>,
                            bool,
                            Option<HookRef>,
                        )| t.3),
                        pv,
                    );
                }
                if p.1.systemwide {
                    system.push(p);
                    proof {
                        assert(system@.map_values(|p: (String, PinOpts)| pin_model(p))
                            =~= sprev.push(pv));
                    }
                } else {
                    user.push(p);
                    proof {
                        assert(user@.map_values(|p: (String, PinOpts)| pin_model(p)) =~= uprev.push(
                            pv,
                        ));
                    }
                }
            },
            Err(_) => {},
        }
        i += 1;
    }
    proof {
        assert(values@.take(values.len() as int) =~= values@);
    }
    (user, system)
}

/// The default installation side `config` selects: the
/// `flatpak_default_systemwide` entry when present (a boolean, or a type
/// error), else per-user.
pub open spec fn spec_default_systemwide(config: Record) -> Option<bool> {
    match config.spec_get("flatpak_default_systemwide"@) {
        None => Some(false),
        Some(Value::Bool(b)) => Some(b),
        Some(_) => None,
    }
}

impl Flatpak {
    /// Parses the backend's declarative record. The `packages` field is
    /// required and strict: one malformed entry fails the backend. The
    /// optional `remotes` and `pinned` lists are best-effort: malformed
    /// entries are skipped. Packages and pins are partitioned by their
    /// installation side.
    pub fn new(value: &Record, config: &Record) -> (r: Result<Flatpak, Error>)
        ensures
            match r {
                Ok(f) => {
                    &&& spec_default_systemwide(*config) matches Some(dflt) && {
                        &&& match value.spec_get("remotes"@) {
                            None => f.remotes@.len() == 0,
                            Some(v) => v matches Value::List(items) && f.remotes@.map_values(
                                |p: (String, String)| (p.0@, p.1@),
                            ) == items@.filter_map((|x: Value| spec_remote(x))),
                        }
                        &&& match value.spec_get("pinned"@) {
                            None => f.user_pinned@.len() == 0 && f.system_pinned@.len() == 0,
                            Some(v) => v matches Value::List(items) && {
                                let parsed = items@.filter_map(
                                    (|x: Value| spec_pinspec(x, dflt)),
                                );
                                &&& f.user_pinned@.map_values(|p: (String, PinOpts)| pin_model(p))
                                    == parsed.filter(
                                    (
                                    |t: (
                                        Seq<char>,
                                        Option<Seq<char>>,
                                        Option<Seq<char>>,
                                        bool,
                                        Option<HookRef>,
                                    )| !t.3),
                                )
                                &&& f.system_pinned@.map_values(
                                    |p: (String, PinOpts)| pin_model(p),
                                ) == parsed.filter(
                                    (
                                    |t: (
                                        Seq<char>,
                                        Option<Seq<char>>,
                                        Option<Seq<char>>,
                                        bool,
                                        Option<HookRef>,
                                    )| t.3),
                                )
                            },
                        }
                        &&& value.spec_get("packages"@) matches Some(Value::List(items)) && {
                            &&& forall|i: int|
                                0 <= i < items@.len() ==> (#[trigger] spec_flatpak_pkg(
                                    items@[i],
                                    dflt,
                                )) is Some
                            &&& {
                                let parsed = items@.map_values(
                                    |x: Value| spec_flatpak_pkg(x, dflt)->Some_0,
                                );
                                &&& f.user_packages@.map_values(
                                    |p: (String, FlatpakOpts)| pkg_model(p),
                                ) == parsed.filter(
                                    (
                                    |t: (Seq<char>, Option<Seq<char>>, bool, Option<HookRef>)|
                                        !t.2),
                                )
                                &&& f.system_packages@.map_values(
                                    |p: (String, FlatpakOpts)| pkg_model(p),
                                ) == parsed.filter(
                                    (
                                    |t: (Seq<char>, Option<Seq<char>>, bool, Option<HookRef>)|
                                        t.2),
                                )
                            }
                        }
                    }
                },
                Err(e) => {
                    ||| {
                        &&& spec_default_systemwide(*config) is None
                        &&& e matches Error::TypeMismatch(f) && f@ == "flatpak_default_systemwide"@
                    }
                    ||| {
                        &&& value.spec_get("remotes"@) matches Some(v) && !(v matches Value::List(
                            _,
                        ))
                        &&& e matches Error::NotAList(f) && f@ == "remotes"@
                    }
                    ||| {
                        &&& value.spec_get("pinned"@) matches Some(v) && !(v matches Value::List(
                            _,
                        ))
                        &&& e matches Error::NotAList(f) && f@ == "pinned"@
                    }
                    ||| {
                        &&& value.spec_get("packages"@) is None
                        &&& e matches Error::MissingField(f) && f@ == "packages"@
                    }
                    ||| {
                        &&& value.spec_get("packages"@) matches Some(v) && !(v matches Value::List(
                            _,
                        ))
                        &&& e matches Error::NotAList(f) && f@ == "packages"@
                    }
                    ||| {
                        &&& spec_default_systemwide(*config) matches Some(dflt)
                            && value.spec_get("packages"@) matches Some(Value::List(items))
                            && exists|i: int|
                            0 <= i < items@.len() && (#[trigger] spec_flatpak_pkg(
                                items@[i],
                                dflt,
                            )) is None
                    }
                },
            },
    {
        let default_systemwide = match get_bool_field(
            config,
            "flatpak_default_systemwide",
            false,
        ) {
            Ok(b) => b,
            Err(e) => {
                return Err(e);
            },
        };
        let remotes = match value.get("remotes") {
            None => Vec::new(),
            Some(v) => match v {
                Value::List(items) => values_to_remotes(items),
                _ => {
                    return Err(Error::NotAList("remotes".to_owned()));
                },
            },
        };
        let (user_pinned, system_pinned) = match value.get("pinned") {
            None => (Vec::new(), Vec::new()),
            Some(v) => match v {
                Value::List(items) => values_to_pins(items, default_systemwide),
                _ => {
                    return Err(Error::NotAList("pinned".to_owned()));
                },
            },
        };
        let items = match get_list_field(value, "packages") {
            Ok(items) => items,
            Err(e) => {
                return Err(e);
            },
        };
        let mut user_packages: Vec<(String, FlatpakOpts)> = Vec::new();
        let mut system_packages: Vec<(String, FlatpakOpts)> = Vec::new();
        let n = items.len();
        proof {
            assert(items@.take(0).map_values(
                |x: Value| spec_flatpak_pkg(x, default_systemwide)->Some_0,
            ) =~= Seq::<(Seq<char>, Option<Seq<char>>, bool, Option<HookRef>)>::empty());
            assert(Seq::<(Seq<char>, Option<Seq<char>>, bool, Option<HookRef>)>::empty().filter(
                (|t: (Seq<char>, Option<Seq<char>>, bool, Option<HookRef>)| !t.2),
            ) =~= Seq::<(Seq<char>, Option<Seq<char>>, bool, Option<HookRef>)>::empty()) by {
                reveal(Seq::filter);
            }
            assert(Seq::<(Seq<char>, Option<Seq<char>>, bool, Option<HookRef>)>::empty().filter(
                (|t: (Seq<char>, Option<Seq<char>>, bool, Option<HookRef>)| t.2),
            ) =~= Seq::<(Seq<char>, Option<Seq<char>>, bool, Option<HookRef>)>::empty()) by {
                reveal(Seq::filter);
            }
            assert(user_packages@.map_values(|p: (String, FlatpakOpts)| pkg_model(p)) =~= Seq::<
                (Seq<char>, Option<Seq<char>>, bool, Option<HookRef>),
            >::empty());
            assert(system_packages@.map_values(|p: (String, FlatpakOpts)| pkg_model(p)) =~= Seq::<
                (Seq<char>, Option<Seq<char>>, bool, Option<HookRef>),
            >::empty());
        }
        let mut i: usize = 0;
        while i < n
            invariant
                spec_default_systemwide(*config) == Some(default_systemwide),
                value.spec_get("packages"@) == Some(Value::List(*items)),
                n == items@.len(),
                i <= n,
                forall|k: int|
                    0 <= k < i ==> (#[trigger] spec_flatpak_pkg(
                        items@[k],
                        default_systemwide,
                    )) is Some,
                ({
                    let parsed = items@.take(i as int).map_values(
                        |x: Value| spec_flatpak_pkg(x, default_systemwide)->Some_0,
                    );
                    &&& user_packages@.map_values(|p: (String, FlatpakOpts)| pkg_model(p))
                        == parsed.filter(
                        (|t: (Seq<char>, Option<Seq<char>>, bool, Option<HookRef>)| !t.2),
                    )
                    &&& system_packages@.map_values(|p: (String, FlatpakOpts)| pkg_model(p))
                        == parsed.filter(
                        (|t: (Seq<char>, Option<Seq<char>>, bool, Option<HookRef>)| t.2),
                    )
                }),
            decreases n - i,
        {
            let ghost parsed_prev = items@.take(i as int).map_values(
                |x: Value| spec_flatpak_pkg(x, default_systemwide)->Some_0,
            );
            let ghost uprev = user_packages@.map_values(|p: (String, FlatpakOpts)| pkg_model(p));
            let ghost sprev = system_packages@.map_values(|p: (String, FlatpakOpts)| pkg_model(p));
            match value_to_pkgspec(&items[i], default_systemwide) {
                Ok(p) => {
                    let ghost pv = pkg_model(p);
                    proof {
                        assert(items@.take(i as int + 1).map_values(
                            |x: Value| spec_flatpak_pkg(x, default_systemwide)->Some_0,
                        ) =~= parsed_prev.push(pv));
                        lemma_filter_push(
                            parsed_prev,
                            (|t: (Seq<char>, Option<Seq<char>>, bool, Option<HookRef>)| !t.2),
                            pv,
                        );
                        lemma_filter_push(
                            parsed_prev,
                            (|t: (Seq<char>, Option<Seq<char>>, bool, Option<HookRef>)| t.2),
                            pv,
                        );
                    }
                    if p.1.systemwide {
                        system_packages.push(p);
                        proof {
                            assert(system_packages@.map_values(
                                |p: (String, FlatpakOpts)| pkg_model(p),
                            ) =~= sprev.push(pv));
                        }
                    } else {
                        user_packages.push(p);
                        proof {
                            assert(user_packages@.map_values(
                                |p: (String, FlatpakOpts)| pkg_model(p),
                            ) =~= uprev.push(pv));
                        }
                    }
                },
                Err(e) => {
                    proof {
                        assert(exists|k: int|
                            0 <= k < items@.len() && (#[trigger] spec_flatpak_pkg(
                                items@[k],
                                default_systemwide,
                            )) is None) by {
                            assert(spec_flatpak_pkg(items@[i as int], default_systemwide) is None);
                        }
                    }
                    return Err(e);
                },
            }
            i += 1;
        }
        proof {
            assert(items@.take(n as int) =~= items@);
        }
        Ok(
            Flatpak {
                remotes,
                user_pinned,
                system_pinned,
                user_packages,
                system_packages,
            },
        )
    }
}

impl Clone for FlatpakOpts {
    fn clone(&self) -> (r: Self)
        ensures
            r == *self,
    {
        FlatpakOpts {
            remote: match &self.remote {
                Some(s) => Some(s.clone()),
                None => None,
            },
            systemwide: self.systemwide,
            post_hook: self.post_hook,
        }
    }
}

impl Clone for PinOpts {
    fn clone(&self) -> (r: Self)
        ensures
            r == *self,
    {
        PinOpts {
            branch: match &self.branch {
                Some(s) => Some(s.clone()),
                None => None,
            },
            arch: match &self.arch {
                Some(s) => Some(s.clone()),
                None => None,
            },
            systemwide: self.systemwide,
            post_hook: self.post_hook,
        }
    }
}

/// The name, architecture and branch a pin listing line denotes. The line
/// has the shape `name/arch/branch`, possibly led by a `runtime/` marker;
/// empty or absent segments are unconstrained.
pub open spec fn spec_runtime_format(s: Seq<char>) -> (
    Seq<char>,
    Option<Seq<char>>,
    Option<Seq<char>>,
) {
    let segs0 = spec_split(s, '/');
    let segs = if segs0.len() > 0 && segs0[0] == "runtime"@ {
        segs0.drop_first()
    } else {
        segs0
    };
    let name = if segs.len() > 0 {
        segs[0]
    } else {
        Seq::empty()
    };
    let arch = if segs.len() > 1 && segs[1].len() > 0 {
        Some(segs[1])
    } else {
        None
    };
    let branch = if segs.len() > 2 && segs[2].len() > 0 {
        Some(segs[2])
    } else {
        None
    };
    (name, arch, branch)
}

/// Parses one line of the pin listing into a pin pattern without a hook.
pub fn parse_runtime_format(runtime_string: &str, systemwide: bool) -> (r: (String, PinOpts))
    ensures
        ({
            let m = spec_runtime_format(runtime_string@);
            &&& r.0@ == m.0
            &&& r.1.arch.deep_view() == m.1
            &&& r.1.branch.deep_view() == m.2
            &&& r.1.systemwide == systemwide
            &&& r.1.post_hook is None
        }),
{
    let segs0 = split_char(runtime_string, '/');
    let drop_marker = str_eq(segs0[0].as_str(), "runtime");
    proof {
        if drop_marker {
            assert(spec_split(runtime_string@, '/').drop_first() =~= segs0.deep_view().subrange(
                1,
                segs0.deep_view().len() as int,
            ));
        }
    }
    let base: usize = if drop_marker {
        1
    } else {
        0
    };
    let name = if base < segs0.len() {
        segs0[base].clone()
    } else {
        String::new()
    };
    let arch = if base + 1 < segs0.len() && !segs0[base + 1].as_str().is_empty() {
        Some(segs0[base + 1].clone())
    } else {
        None
    };
    let branch = if base + 2 < segs0.len() && !segs0[base + 2].as_str().is_empty() {
        Some(segs0[base + 2].clone())
    } else {
        None
    };
    proof {
        let m = spec_runtime_format(runtime_string@);
        let segs = if drop_marker {
            segs0.deep_view().drop_first()
        } else {
            segs0.deep_view()
        };
        assert(segs.len() == segs0.deep_view().len() - base);
        assert(forall|k: int|
            0 <= k < segs.len() ==> segs[k] == #[trigger] segs0.deep_view()[k + base]);
        assert(name@ == m.0);
        assert(arch.deep_view() == m.1) by {
            if base + 1 < segs0.len() && segs0.deep_view()[base + 1].len() > 0 {
                assert(segs[1] == segs0.deep_view()[base as int + 1]);
            }
        }
        assert(branch.deep_view() == m.2) by {
            if base + 2 < segs0.len() && segs0.deep_view()[base + 2].len() > 0 {
                assert(segs[2] == segs0.deep_view()[base as int + 2]);
            }
        }
    }
    (name, PinOpts { branch, arch, systemwide, post_hook: None })
}

/// True iff the configured pin pattern `pin` matches the installed pin
/// `inst` (name, architecture, branch): the pattern's identifier must be a
/// prefix of the installed name, and its branch and architecture, where
/// given, must agree exactly.
pub open spec fn spec_pin_matches(
    pin: (Seq<char>, Option<Seq<char>>, Option<Seq<char>>, bool, Option<HookRef>),
    inst: (Seq<char>, Option<Seq<char>>, Option<Seq<char>>),
) -> bool {
    &&& pin.0.is_prefix_of(inst.0)
    &&& (pin.1 is None || inst.2 == pin.1)
    &&& (pin.2 is None || inst.1 == pin.2)
}

/// The installed-pin reading of one parsed pin-listing entry.
pub open spec fn inst_model(p: (String, PinOpts)) -> (
    Seq<char>,
    Option<Seq<char>>,
    Option<Seq<char>>,
) {
    (p.0@, p.1.arch.deep_view(), p.1.branch.deep_view())
}

/// Decides whether the configured pin `pin` matches the installed pin
/// `inst`.
pub fn pin_matches(pin: &(String, PinOpts), inst: &(String, PinOpts)) -> (r: bool)
    ensures
        r == spec_pin_matches(pin_model(*pin), inst_model(*inst)),
{
    if !crate::strutil::str_starts_with(inst.0.as_str(), pin.0.as_str()) {
        return false;
    }
    let branch_ok = match &pin.1.branch {
        None => true,
        Some(b) => match &inst.1.branch {
            Some(ib) => str_eq(b.as_str(), ib.as_str()),
            None => false,
        },
    };
    if !branch_ok {
        return false;
    }
    match &pin.1.arch {
        None => true,
        Some(a) => match &inst.1.arch {
            Some(ia) => str_eq(a.as_str(), ia.as_str()),
            None => false,
        },
    }
}

/// True iff some installed pin in `inst` is matched by `pin`.
fn any_inst_match(pin: &(String, PinOpts), inst: &Vec<(String, PinOpts)>) -> (r: bool)
    ensures
        r == exists|k: int|
            0 <= k < inst@.len() && spec_pin_matches(
                pin_model(*pin),
                inst_model(#[trigger] inst@[k]),
            ),
{
    let mut i: usize = 0;
    while i < inst.len()
        invariant
            i <= inst@.len(),
            forall|k: int|
                0 <= k < i ==> !spec_pin_matches(pin_model(*pin), inst_model(#[trigger] inst@[k])),
        decreases inst@.len() - i,
    {
        if pin_matches(pin, &inst[i]) {
            assert(spec_pin_matches(pin_model(*pin), inst_model(inst@[i as int])));
            return true;
        }
        i += 1;
    }
    false
}

/// True iff some configured pin in `pins` matches the installed pin
/// `inst`.
fn any_config_match(pins: &Vec<(String, PinOpts)>, inst: &(String, PinOpts)) -> (r: bool)
    ensures
        r == exists|k: int|
            0 <= k < pins@.len() && spec_pin_matches(
                pin_model(#[trigger] pins@[k]),
                inst_model(*inst),
            ),
{
    let mut i: usize = 0;
    while i < pins.len()
        invariant
            i <= pins@.len(),
            forall|k: int|
                0 <= k < i ==> !spec_pin_matches(pin_model(#[trigger] pins@[k]), inst_model(*inst)),
        decreases pins@.len() - i,
    {
        if pin_matches(&pins[i], inst) {
            assert(spec_pin_matches(pin_model(pins@[i as int]), inst_model(*inst)));
            return true;
        }
        i += 1;
    }
    false
}

/// The pattern handed to the pin command for one configured pin: its
/// identifier, then its branch and architecture constraints where given,
/// separated by slashes.
pub open spec fn spec_pin_pattern(
    name: Seq<char>,
    branch: Option<Seq<char>>,
    arch: Option<Seq<char>>,
) -> Seq<char> {
    name + (match branch {
        Some(b) => "/"@ + b,
        None => Seq::<char>::empty(),
    }) + (match arch {
        Some(a) => "/"@ + a,
        None => Seq::<char>::empty(),
    })
}

/// Builds the pin pattern of one configured pin.
pub fn pin_pattern(name: &str, opts: &PinOpts) -> (r: String)
    ensures
        r@ == spec_pin_pattern(name@, opts.branch.deep_view(), opts.arch.deep_view()),
{
    let mut s = name.to_owned();
    match &opts.branch {
        Some(b) => {
            s.append("/");
            s.append(b.as_str());
        },
        None => {},
    }
    match &opts.arch {
        Some(a) => {
            s.append("/");
            s.append(a.as_str());
        },
        None => {},
    }
    proof {
        assert(s@ =~= spec_pin_pattern(name@, opts.branch.deep_view(), opts.arch.deep_view()));
    }
    s
}

/// The installation-side flag: machine-wide or per-user.
pub open spec fn spec_side_flag(systemwide: bool) -> Seq<char> {
    if systemwide {
        "--system"@
    } else {
        "--user"@
    }
}

fn side_flag(systemwide: bool) -> (r: String)
    ensures
        r@ == spec_side_flag(systemwide),
{
    if systemwide {
        "--system".to_owned()
    } else {
        "--user".to_owned()
    }
}

/// The query listing the pins of one installation side.
pub fn pin_query(systemwide: bool) -> (c: Cmd)
    ensures
        c.args.deep_view() == seq!["flatpak"@, "pin"@, spec_side_flag(systemwide)],
        c.perms == Perms::User,
{
    let mut args: Vec<String> = Vec::new();
    args.push("flatpak".to_owned());
    args.push("pin".to_owned());
    args.push(side_flag(systemwide));
    proof {
        assert(args.deep_view() =~= seq!["flatpak"@, "pin"@, spec_side_flag(systemwide)]);
    }
    Cmd { args, perms: Perms::User }
}

/// The query listing everything installed on one side.
pub fn list_query(systemwide: bool) -> (c: Cmd)
    ensures
        c.args.deep_view() == seq![
            "flatpak"@,
            "list"@,
            spec_side_flag(systemwide),
            "--columns=application"@,
        ],
        c.perms == Perms::User,
{
    let mut args: Vec<String> = Vec::new();
    args.push("flatpak".to_owned());
    args.push("list".to_owned());
    args.push(side_flag(systemwide));
    args.push("--columns=application".to_owned());
    proof {
        assert(args.deep_view() =~= seq![
            "flatpak"@,
            "list"@,
            spec_side_flag(systemwide),
            "--columns=application"@,
        ]);
    }
    Cmd { args, perms: Perms::User }
}

/// The query listing the applications installed on one side.
pub fn app_list_query(systemwide: bool) -> (c: Cmd)
    ensures
        c.args.deep_view() == seq![
            "flatpak"@,
            "list"@,
            spec_side_flag(systemwide),
            "--app"@,
            "--columns=application"@,
        ],
        c.perms == Perms::User,
{
    let mut args: Vec<String> = Vec::new();
    args.push("flatpak".to_owned());
    args.push("list".to_owned());
    args.push(side_flag(systemwide));
    args.push("--app".to_owned());
    args.push("--columns=application".to_owned());
    proof {
        assert(args.deep_view() =~= seq![
            "flatpak"@,
            "list"@,
            spec_side_flag(systemwide),
            "--app"@,
            "--columns=application"@,
        ]);
    }
    Cmd { args, perms: Perms::User }
}

/// The installed pins a pin listing denotes: one parsed entry per line,
/// whitespace trimmed.
pub open spec fn spec_installed_pins(out: Seq<char>) -> Seq<
    (Seq<char>, Option<Seq<char>>, Option<Seq<char>>),
> {
    spec_lines(out).map_values(|l: Seq<char>| spec_runtime_format(spec_trim(l)))
}

/// Parses the pin listing into installed pins.
pub fn parse_installed_pins(output: &str) -> (r: Vec<(String, PinOpts)>)
    ensures
        r@.map_values(|p: (String, PinOpts)| inst_model(p)) == spec_installed_pins(output@),
        forall|k: int| 0 <= k < r@.len() ==> (#[trigger] r@[k]).1.post_hook is None,
{
    let lines = crate::strutil::split_lines(output);
    let mut out: Vec<(String, PinOpts)> = Vec::new();
    proof {
        assert(out@.map_values(|p: (String, PinOpts)| inst_model(p)) =~= Seq::<
            (Seq<char>, Option<Seq<char>>, Option<Seq<char>>),
        >::empty());
    }
    let mut i: usize = 0;
    while i < lines.len()
        invariant
            i <= lines.len(),
            lines.deep_view() == spec_lines(output@),
            out@.map_values(|p: (String, PinOpts)| inst_model(p)).len() == i,
            forall|k: int|
                0 <= k < i ==> out@.map_values(|p: (String, PinOpts)| inst_model(p))[k]
                    == spec_runtime_format(spec_trim(#[trigger] lines.deep_view()[k])),
            forall|k: int| 0 <= k < i ==> (#[trigger] out@[k]).1.post_hook is None,
        decreases lines.len() - i,
    {
        let ghost prev = out@.map_values(|p: (String, PinOpts)| inst_model(p));
        let t = trim(lines[i].as_str());
        let p = parse_runtime_format(t.as_str(), false);
        let ghost pv = inst_model(p);
        out.push(p);
        proof {
            assert(out@.map_values(|p: (String, PinOpts)| inst_model(p)) =~= prev.push(pv));
        }
        i += 1;
    }
    proof {
        assert(out@.map_values(|p: (String, PinOpts)| inst_model(p))
            =~= spec_installed_pins(output@));
    }
    out
}

/// What one pin reconciliation pass will do: the pin commands for missing
/// pins, one install command for their identifiers, and the hooks of the
/// missing pins.
#[derive(Debug)]
pub struct FlatpakPinPlan {
    pub pin_commands: Vec<Cmd>,
    pub install_command: Option<Cmd>,
    pub hooks: Vec<HookRef>,
}

/// What one package install pass will do: one command for the packages
/// without a pinned remote, one command per package pinned to a remote,
/// and the hooks of everything newly installed.
#[derive(Debug)]
pub struct FlatpakInstallPlan {
    pub free_command: Option<Cmd>,
    pub ref_commands: Vec<Cmd>,
    pub hooks: Vec<HookRef>,
}

impl Flatpak {
    /// The configured pins of one installation side.
    pub open spec fn spec_pin_side(self, systemwide: bool) -> Seq<(String, PinOpts)> {
        if systemwide {
            self.system_pinned@
        } else {
            self.user_pinned@
        }
    }

    /// The configured packages of one installation side.
    pub open spec fn spec_pkg_side(self, systemwide: bool) -> Seq<(String, FlatpakOpts)> {
        if systemwide {
            self.system_packages@
        } else {
            self.user_packages@
        }
    }

    /// Plans one pin reconciliation pass for one installation side.
    /// `pins_output` is the pin listing; an installed pin only counts when
    /// its package appears in `installed_packages`. A configured pin that
    /// no installed pin matches is pinned and installed; its hook runs
    /// after those commands succeed. Nothing is planned for a pin that is
    /// already present.
    pub fn install_pins(
        &self,
        installed_packages: &Vec<String>,
        systemwide: bool,
        pins_output: &str,
    ) -> (plan: FlatpakPinPlan)
        ensures
            ({
                let visible = spec_installed_pins(pins_output@).filter(
                    (
                    |t: (Seq<char>, Option<Seq<char>>, Option<Seq<char>>)|
                        installed_packages.deep_view().contains(t.0)),
                );
                let missing = self.spec_pin_side(systemwide).filter(
                    (
                    |p: (String, PinOpts)|
                        !exists|k: int|
                            0 <= k < visible.len() && spec_pin_matches(
                                pin_model(p),
                                #[trigger] visible[k],
                            )),
                );
                &&& plan.hooks@ == missing.filter_map(
                    (|p: (String, PinOpts)| p.1.post_hook),
                )
                &&& plan.pin_commands@.len() == missing.len()
                &&& forall|j: int|
                    0 <= j < missing.len() ==> (#[trigger] plan.pin_commands@[j]).args.deep_view()
                        == seq![
                        "flatpak"@,
                        "pin"@,
                        spec_side_flag(systemwide),
                        spec_pin_pattern(
                            missing[j].0@,
                            missing[j].1.branch.deep_view(),
                            missing[j].1.arch.deep_view(),
                        ),
                    ] && plan.pin_commands@[j].perms == Perms::User
                &&& (plan.install_command is Some <==> missing.len() > 0)
                &&& plan.install_command matches Some(c) ==> c.args.deep_view() == seq![
                    "flatpak"@,
                    "install"@,
                    spec_side_flag(systemwide),
                ] + missing.map_values(|p: (String, PinOpts)| p.0@) && c.perms == Perms::User
                // A pass that changes nothing schedules no hook at all.
                &&& missing.len() == 0 ==> plan.hooks@ == Seq::<HookRef>::empty()
            }),
    {
        let all_pins = parse_installed_pins(pins_output);
        let mut visible: Vec<(String, PinOpts)> = Vec::new();
        proof {
            assert(spec_installed_pins(pins_output@).take(0).filter(
                (
                |t: (Seq<char>, Option<Seq<char>>, Option<Seq<char>>)|
                    installed_packages.deep_view().contains(t.0)),
            ) =~= Seq::<(Seq<char>, Option<Seq<char>>, Option<Seq<char>>)>::empty()) by {
                reveal(Seq::filter);
                assert(spec_installed_pins(pins_output@).take(0) =~= Seq::<
                    (Seq<char>, Option<Seq<char>>, Option<Seq<char>>),
                >::empty());
            }
            assert(visible@.map_values(|p: (String, PinOpts)| inst_model(p)) =~= Seq::<
                (Seq<char>, Option<Seq<char>>, Option<Seq<char>>),
            >::empty());
        }
        let mut i: usize = 0;
        while i < all_pins.len()
            invariant
                i <= all_pins@.len(),
                all_pins@.map_values(|p: (String, PinOpts)| inst_model(p)) == spec_installed_pins(
                    pins_output@,
                ),
                visible@.map_values(|p: (String, PinOpts)| inst_model(p)) == spec_installed_pins(
                    pins_output@,
                ).take(i as int).filter(
                    (
                    |t: (Seq<char>, Option<Seq<char>>, Option<Seq<char>>)|
                        installed_packages.deep_view().contains(t.0)),
                ),
            decreases all_pins@.len() - i,
        {
            proof {
                lemma_filter_take_step(
                    spec_installed_pins(pins_output@),
                    (
                    |t: (Seq<char>, Option<Seq<char>>, Option<Seq<char>>)|
                        installed_packages.deep_view().contains(t.0)),
                    i as int,
                );
                assert(inst_model(all_pins@[i as int]) == spec_installed_pins(pins_output@)[
                    i as int]);
            }
            let ghost prev = visible@.map_values(|p: (String, PinOpts)| inst_model(p));
            if vec_contains_str(installed_packages, all_pins[i].0.as_str()) {
                let ghost pv = inst_model(all_pins@[i as int]);
                let entry = (all_pins[i].0.clone(), all_pins[i].1.clone());
                proof {
                    assert(inst_model(entry) == inst_model(all_pins@[i as int]));
                }
                visible.push(entry);
                proof {
                    assert(visible@.map_values(|p: (String, PinOpts)| inst_model(p)) =~= prev.push(
                        pv,
                    ));
                }
            }
            i += 1;
        }
        proof {
            assert(spec_installed_pins(pins_output@).take(all_pins.len() as int)
                =~= spec_installed_pins(pins_output@));
        }
        let side = if systemwide {
            &self.system_pinned
        } else {
            &self.user_pinned
        };
        let ghost visible_s = spec_installed_pins(pins_output@).filter(
            (
            |t: (Seq<char>, Option<Seq<char>>, Option<Seq<char>>)|
                installed_packages.deep_view().contains(t.0)),
        );
        let mut pin_commands: Vec<Cmd> = Vec::new();
        let mut names: Vec<String> = Vec::new();
        let mut hooks: Vec<HookRef> = Vec::new();
        proof {
            assert(side@.take(0).filter(
                (
                |p: (String, PinOpts)|
                    !exists|k: int|
                        0 <= k < visible_s.len() && spec_pin_matches(
                            pin_model(p),
                            #[trigger] visible_s[k],
                        )),
            ) =~= Seq::<(String, PinOpts)>::empty()) by {
                reveal(Seq::filter);
                assert(side@.take(0) =~= Seq::<(String, PinOpts)>::empty());
            }
            assert(Seq::<(String, PinOpts)>::empty().filter_map(
                (|p: (String, PinOpts)| p.1.post_hook),
            ) =~= Seq::<HookRef>::empty());
            assert(Seq::<(String, PinOpts)>::empty().map_values(|p: (String, PinOpts)| p.0@)
                =~= Seq::<Seq<char>>::empty());
        }
        let mut j: usize = 0;
        while j < side.len()
            invariant
                j <= side@.len(),
                visible@.map_values(|p: (String, PinOpts)| inst_model(p)) == visible_s,
                ({
                    let missing = side@.take(j as int).filter(
                        (
                        |p: (String, PinOpts)|
                            !exists|k: int|
                                0 <= k < visible_s.len() && spec_pin_matches(
                                    pin_model(p),
                                    #[trigger] visible_s[k],
                                )),
                    );
                    &&& hooks@ == missing.filter_map((|p: (String, PinOpts)| p.1.post_hook))
                    &&& pin_commands@.len() == missing.len()
                    &&& forall|m: int|
                        0 <= m < missing.len() ==> (
                        #[trigger] pin_commands@[m]).args.deep_view() == seq![
                            "flatpak"@,
                            "pin"@,
                            spec_side_flag(systemwide),
                            spec_pin_pattern(
                                missing[m].0@,
                                missing[m].1.branch.deep_view(),
                                missing[m].1.arch.deep_view(),
                            ),
                        ] && pin_commands@[m].perms == Perms::User
                    &&& names.deep_view() == missing.map_values(|p: (String, PinOpts)| p.0@)
                }),
            decreases side@.len() - j,
        {
            let ghost missing_prev = side@.take(j as int).filter(
                (
                |p: (String, PinOpts)|
                    !exists|k: int|
                        0 <= k < visible_s.len() && spec_pin_matches(
                            pin_model(p),
                            #[trigger] visible_s[k],
                        )),
            );
            proof {
                lemma_filter_take_step(
                    side@,
                    (
                    |p: (String, PinOpts)|
                        !exists|k: int|
                            0 <= k < visible_s.len() && spec_pin_matches(
                                pin_model(p),
                                #[trigger] visible_s[k],
                            )),
                    j as int,
                );
            }
            let matched = any_inst_match(&side[j], &visible);
            proof {
                assert(matched == exists|k: int|
                    0 <= k < visible_s.len() && spec_pin_matches(
                        pin_model(side@[j as int]),
                        #[trigger] visible_s[k],
                    )) by {
                    if matched {
                        let k = choose|k: int|
                            0 <= k < visible@.len() && spec_pin_matches(
                                pin_model(side@[j as int]),
                                inst_model(#[trigger] visible@[k]),
                            );
                        assert(visible_s[k] == inst_model(visible@[k]));
                    }
                    if exists|k: int|
                        0 <= k < visible_s.len() && spec_pin_matches(
                            pin_model(side@[j as int]),
                            #[trigger] visible_s[k],
                        ) {
                        let k = choose|k: int|
                            0 <= k < visible_s.len() && spec_pin_matches(
                                pin_model(side@[j as int]),
                                #[trigger] visible_s[k],
                            );
                        assert(inst_model(visible@[k]) == visible_s[k]);
                    }
                }
            }
            if !matched {
                let ghost hprev = hooks@;
                let ghost nprev = names.deep_view();
                match side[j].1.post_hook {
                    Some(h) => {
                        hooks.push(h);
                    },
                    None => {},
                }
                let pattern = pin_pattern(side[j].0.as_str(), &side[j].1);
                let mut args: Vec<String> = Vec::new();
                args.push("flatpak".to_owned());
                args.push("pin".to_owned());
                args.push(side_flag(systemwide));
                args.push(pattern);
                proof {
                    assert(args.deep_view() =~= seq![
                        "flatpak"@,
                        "pin"@,
                        spec_side_flag(systemwide),
                        spec_pin_pattern(
                            side@[j as int].0@,
                            side@[j as int].1.branch.deep_view(),
                            side@[j as int].1.arch.deep_view(),
                        ),
                    ]);
                }
                pin_commands.push(Cmd { args, perms: Perms::User });
                let ghost nv = side@[j as int].0@;
                names.push(side[j].0.clone());
                proof {
                    assert(names.deep_view() =~= nprev.push(nv));
                    assert(missing_prev.push(side@[j as int]).filter_map(
                        (|p: (String, PinOpts)| p.1.post_hook),
                    ) == if side@[j as int].1.post_hook is Some {
                        missing_prev.filter_map((|p: (String, PinOpts)| p.1.post_hook)).push(
                            side@[j as int].1.post_hook->Some_0,
                        )
                    } else {
                        missing_prev.filter_map((|p: (String, PinOpts)| p.1.post_hook))
                    }) by {
                        assert(missing_prev.push(side@[j as int]).drop_last() =~= missing_prev);
                    }
                    assert(missing_prev.push(side@[j as int]).map_values(
                        |p: (String, PinOpts)| p.0@,
                    ) =~= missing_prev.map_values(|p: (String, PinOpts)| p.0@).push(nv));
                }
            }
            j += 1;
        }
        proof {
            assert(side@.take(side.len() as int) =~= side@);
        }
        let install_command = if names.len() > 0 {
            let mut args: Vec<String> = Vec::new();
            args.push("flatpak".to_owned());
            args.push("install".to_owned());
            args.push(side_flag(systemwide));
            let ghost head = args.deep_view();
            append_all(&mut args, &names);
            proof {
                assert(head =~= seq!["flatpak"@, "install"@, spec_side_flag(systemwide)]);
            }
            Some(Cmd { args, perms: Perms::User })
        } else {
            None
        };
        proof {
            let missing_s = side@.filter(
                (
                |p: (String, PinOpts)|
                    !exists|k: int|
                        0 <= k < visible_s.len() && spec_pin_matches(
                            pin_model(p),
                            #[trigger] visible_s[k],
                        )),
            );
            if missing_s.len() == 0 {
                assert(missing_s =~= Seq::<(String, PinOpts)>::empty());
                assert(missing_s.filter_map((|p: (String, PinOpts)| p.1.post_hook)) =~= Seq::<
                    HookRef,
                >::empty());
            }
        }
        FlatpakPinPlan { pin_commands, install_command, hooks }
    }

    /// Plans one package install pass for one installation side. Packages
    /// without a pinned remote that are not yet installed go into a single
    /// command; each package pinned to a remote gets its own command. An
    /// already-installed package is never installed again, and only newly
    /// installed packages contribute hooks.
    pub fn install_packages(
        &self,
        installed_packages: &Vec<String>,
        systemwide: bool,
    ) -> (plan: FlatpakInstallPlan)
        ensures
            ({
                let free = self.spec_pkg_side(systemwide).filter(
                    (
                    |p: (String, FlatpakOpts)|
                        p.1.remote is None && !installed_packages.deep_view().contains(p.0@)),
                );
                let pinned = self.spec_pkg_side(systemwide).filter(
                    (
                    |p: (String, FlatpakOpts)|
                        p.1.remote is Some && !installed_packages.deep_view().contains(p.0@)),
                );
                &&& (plan.free_command is Some <==> free.len() > 0)
                &&& plan.free_command matches Some(c) ==> c.args.deep_view() == seq![
                    "flatpak"@,
                    "install"@,
                    spec_side_flag(systemwide),
                ] + free.map_values(|p: (String, FlatpakOpts)| p.0@) && c.perms == Perms::User
                &&& plan.ref_commands@.len() == pinned.len()
                &&& forall|j: int|
                    0 <= j < pinned.len() ==> (#[trigger] plan.ref_commands@[j]).args.deep_view()
                        == seq![
                        "flatpak"@,
                        "install"@,
                        spec_side_flag(systemwide),
                        pinned[j].1.remote.deep_view()->Some_0,
                        pinned[j].0@,
                    ] && plan.ref_commands@[j].perms == Perms::User
                &&& plan.hooks@ == free.filter_map((|p: (String, FlatpakOpts)| p.1.post_hook))
                    + pinned.filter_map((|p: (String, FlatpakOpts)| p.1.post_hook))
                // A package already in the installed state is never
                // installed again.
                &&& forall|q: Seq<char>|
                    #[trigger] installed_packages.deep_view().contains(q) ==> !free.map_values(
                        |p: (String, FlatpakOpts)| p.0@,
                    ).contains(q) && !pinned.map_values(|p: (String, FlatpakOpts)| p.0@).contains(
                        q,
                    )
                // A pass that changes nothing schedules no hook at all.
                &&& free.len() == 0 && pinned.len() == 0 ==> plan.hooks@ == Seq::<
                    HookRef,
                >::empty()
            }),
    {
        let side = if systemwide {
            &self.system_packages
        } else {
            &self.user_packages
        };
        let mut free_names: Vec<String> = Vec::new();
        let mut free_hooks: Vec<HookRef> = Vec::new();
        let mut ref_commands: Vec<Cmd> = Vec::new();
        let mut ref_hooks: Vec<HookRef> = Vec::new();
        proof {
            assert(side@.take(0).filter(
                (
                |p: (String, FlatpakOpts)|
                    p.1.remote is None && !installed_packages.deep_view().contains(p.0@)),
            ) =~= Seq::<(String, FlatpakOpts)>::empty()) by {
                reveal(Seq::filter);
                assert(side@.take(0) =~= Seq::<(String, FlatpakOpts)>::empty());
            }
            assert(side@.take(0).filter(
                (
                |p: (String, FlatpakOpts)|
                    p.1.remote is Some && !installed_packages.deep_view().contains(p.0@)),
            ) =~= Seq::<(String, FlatpakOpts)>::empty()) by {
                reveal(Seq::filter);
                assert(side@.take(0) =~= Seq::<(String, FlatpakOpts)>::empty());
            }
            assert(Seq::<(String, FlatpakOpts)>::empty().filter_map(
                (|p: (String, FlatpakOpts)| p.1.post_hook),
            ) =~= Seq::<HookRef>::empty());
            assert(Seq::<(String, FlatpakOpts)>::empty().map_values(
                |p: (String, FlatpakOpts)| p.0@,
            ) =~= Seq::<Seq<char>>::empty());
            assert(free_names.deep_view() =~= Seq::<Seq<char>>::empty());
        }
        let mut j: usize = 0;
        while j < side.len()
            invariant
                j <= side@.len(),
                ({
                    let free = side@.take(j as int).filter(
                        (
                        |p: (String, FlatpakOpts)|
                            p.1.remote is None && !installed_packages.deep_view().contains(p.0@)),
                    );
                    let pinned = side@.take(j as int).filter(
                        (
                        |p: (String, FlatpakOpts)|
                            p.1.remote is Some && !installed_packages.deep_view().contains(p.0@)),
                    );
                    &&& free_names.deep_view() == free.map_values(
                        |p: (String, FlatpakOpts)| p.0@,
                    )
                    &&& free_hooks@ == free.filter_map(
                        (|p: (String, FlatpakOpts)| p.1.post_hook),
                    )
                    &&& ref_hooks@ == pinned.filter_map(
                        (|p: (String, FlatpakOpts)| p.1.post_hook),
                    )
                    &&& ref_commands@.len() == pinned.len()
                    &&& forall|m: int|
                        0 <= m < pinned.len() ==> (
                        #[trigger] ref_commands@[m]).args.deep_view() == seq![
                            "flatpak"@,
                            "install"@,
                            spec_side_flag(systemwide),
                            pinned[m].1.remote.deep_view()->Some_0,
                            pinned[m].0@,
                        ] && ref_commands@[m].perms == Perms::User
                }),
            decreases side@.len() - j,
        {
            let ghost free_prev = side@.take(j as int).filter(
                (
                |p: (String, FlatpakOpts)|
                    p.1.remote is None && !installed_packages.deep_view().contains(p.0@)),
            );
            let ghost pinned_prev = side@.take(j as int).filter(
                (
                |p: (String, FlatpakOpts)|
                    p.1.remote is Some && !installed_packages.deep_view().contains(p.0@)),
            );
            proof {
                lemma_filter_take_step(
                    side@,
                    (
                    |p: (String, FlatpakOpts)|
                        p.1.remote is None && !installed_packages.deep_view().contains(p.0@)),
                    j as int,
                );
                lemma_filter_take_step(
                    side@,
                    (
                    |p: (String, FlatpakOpts)|
                        p.1.remote is Some && !installed_packages.deep_view().contains(p.0@)),
                    j as int,
                );
                assert(free_prev.push(side@[j as int]).filter_map(
                    (|p: (String, FlatpakOpts)| p.1.post_hook),
                ) == if side@[j as int].1.post_hook is Some {
                    free_prev.filter_map((|p: (String, FlatpakOpts)| p.1.post_hook)).push(
                        side@[j as int].1.post_hook->Some_0,
                    )
                } else {
                    free_prev.filter_map((|p: (String, FlatpakOpts)| p.1.post_hook))
                }) by {
                    assert(free_prev.push(side@[j as int]).drop_last() =~= free_prev);
                }
                assert(pinned_prev.push(side@[j as int]).filter_map(
                    (|p: (String, FlatpakOpts)| p.1.post_hook),
                ) == if side@[j as int].1.post_hook is Some {
                    pinned_prev.filter_map((|p: (String, FlatpakOpts)| p.1.post_hook)).push(
                        side@[j as int].1.post_hook->Some_0,
                    )
                } else {
                    pinned_prev.filter_map((|p: (String, FlatpakOpts)| p.1.post_hook))
                }) by {
                    assert(pinned_prev.push(side@[j as int]).drop_last() =~= pinned_prev);
                }
                assert(free_prev.push(side@[j as int]).map_values(
                    |p: (String, FlatpakOpts)| p.0@,
                ) =~= free_prev.map_values(|p: (String, FlatpakOpts)| p.0@).push(
                    side@[j as int].0@,
                ));
            }
            let installed = vec_contains_str(installed_packages, side[j].0.as_str());
            if !installed {
                match &side[j].1.remote {
                    None => {
                        let ghost nprev = free_names.deep_view();
                        free_names.push(side[j].0.clone());
                        proof {
                            assert(free_names.deep_view() =~= nprev.push(side@[j as int].0@));
                        }
                        match side[j].1.post_hook {
                            Some(h) => {
                                free_hooks.push(h);
                            },
                            None => {},
                        }
                    },
                    Some(remote) => {
                        let mut args: Vec<String> = Vec::new();
                        args.push("flatpak".to_owned());
                        args.push("install".to_owned());
                        args.push(side_flag(systemwide));
                        args.push(remote.clone());
                        args.push(side[j].0.clone());
                        proof {
                            assert(args.deep_view() =~= seq![
                                "flatpak"@,
                                "install"@,
                                spec_side_flag(systemwide),
                                side@[j as int].1.remote.deep_view()->Some_0,
                                side@[j as int].0@,
                            ]);
                        }
                        ref_commands.push(Cmd { args, perms: Perms::User });
                        match side[j].1.post_hook {
                            Some(h) => {
                                ref_hooks.push(h);
                            },
                            None => {},
                        }
                    },
                }
            }
            j += 1;
        }
        proof {
            assert(side@.take(side.len() as int) =~= side@);
        }
        let free_command = if free_names.len() > 0 {
            let mut args: Vec<String> = Vec::new();
            args.push("flatpak".to_owned());
            args.push("install".to_owned());
            args.push(side_flag(systemwide));
            let ghost head = args.deep_view();
            append_all(&mut args, &free_names);
            proof {
                assert(head =~= seq!["flatpak"@, "install"@, spec_side_flag(systemwide)]);
            }
            Some(Cmd { args, perms: Perms::User })
        } else {
            None
        };
        let mut hooks = free_hooks;
        let mut rh = ref_hooks;
        hooks.append(&mut rh);
        let plan = FlatpakInstallPlan { free_command, ref_commands, hooks };
        proof {
            crate::strutil::lemma_filter_all_pred(
                self.spec_pkg_side(systemwide),
                (
                |p: (String, FlatpakOpts)|
                    p.1.remote is None && !installed_packages.deep_view().contains(p.0@)),
            );
            crate::strutil::lemma_filter_all_pred(
                self.spec_pkg_side(systemwide),
                (
                |p: (String, FlatpakOpts)|
                    p.1.remote is Some && !installed_packages.deep_view().contains(p.0@)),
            );
            let free = self.spec_pkg_side(systemwide).filter(
                (
                |p: (String, FlatpakOpts)|
                    p.1.remote is None && !installed_packages.deep_view().contains(p.0@)),
            );
            let pinned = self.spec_pkg_side(systemwide).filter(
                (
                |p: (String, FlatpakOpts)|
                    p.1.remote is Some && !installed_packages.deep_view().contains(p.0@)),
            );
            assert forall|q: Seq<char>|
                #[trigger] installed_packages.deep_view().contains(q) implies !free.map_values(
                |p: (String, FlatpakOpts)| p.0@,
            ).contains(q) && !pinned.map_values(|p: (String, FlatpakOpts)| p.0@).contains(q) by {
                let freenames = free.map_values(|p: (String, FlatpakOpts)| p.0@);
                if freenames.contains(q) {
                    let m = choose|m: int| 0 <= m < freenames.len() && freenames[m] == q;
                    assert(free.contains(free[m]));
                }
                let pinnednames = pinned.map_values(|p: (String, FlatpakOpts)| p.0@);
                if pinnednames.contains(q) {
                    let m = choose|m: int| 0 <= m < pinnednames.len() && pinnednames[m] == q;
                    assert(pinned.contains(pinned[m]));
                }
            }
            if free.len() == 0 && pinned.len() == 0 {
                assert(free =~= Seq::<(String, FlatpakOpts)>::empty());
                assert(pinned =~= Seq::<(String, FlatpakOpts)>::empty());
                assert(free.filter_map((|p: (String, FlatpakOpts)| p.1.post_hook)) =~= Seq::<
                    HookRef,
                >::empty());
                assert(pinned.filter_map((|p: (String, FlatpakOpts)| p.1.post_hook)) =~= Seq::<
                    HookRef,
                >::empty());
                assert(plan.hooks@ =~= Seq::<HookRef>::empty());
            }
        }
        plan
    }

    /// Plans removing the pins of one side that no configured pin pattern
    /// matches: one removal command per extra pin.
    pub fn remove_pins(&self, systemwide: bool, pins_output: &str) -> (r: Vec<Cmd>)
        ensures
            ({
                let extra = spec_installed_pins(pins_output@).filter(
                    (
                    |t: (Seq<char>, Option<Seq<char>>, Option<Seq<char>>)|
                        !exists|k: int|
                            0 <= k < self.spec_pin_side(systemwide).len() && spec_pin_matches(
                                pin_model(#[trigger] self.spec_pin_side(systemwide)[k]),
                                t,
                            )),
                );
                &&& r@.len() == extra.len()
                &&& forall|j: int|
                    0 <= j < extra.len() ==> (#[trigger] r@[j]).args.deep_view() == seq![
                        "flatpak"@,
                        "pin"@,
                        "--remove"@,
                        spec_side_flag(systemwide),
                        extra[j].0,
                    ] && r@[j].perms == Perms::User
            }),
    {
        let all_pins = parse_installed_pins(pins_output);
        let side = if systemwide {
            &self.system_pinned
        } else {
            &self.user_pinned
        };
        let mut out: Vec<Cmd> = Vec::new();
        proof {
            assert(spec_installed_pins(pins_output@).take(0).filter(
                (
                |t: (Seq<char>, Option<Seq<char>>, Option<Seq<char>>)|
                    !exists|k: int|
                        0 <= k < self.spec_pin_side(systemwide).len() && spec_pin_matches(
                            pin_model(#[trigger] self.spec_pin_side(systemwide)[k]),
                            t,
                        )),
            ) =~= Seq::<(Seq<char>, Option<Seq<char>>, Option<Seq<char>>)>::empty()) by {
                reveal(Seq::filter);
                assert(spec_installed_pins(pins_output@).take(0) =~= Seq::<
                    (Seq<char>, Option<Seq<char>>, Option<Seq<char>>),
                >::empty());
            }
        }
        let mut i: usize = 0;
        while i < all_pins.len()
            invariant
                i <= all_pins@.len(),
                all_pins@.map_values(|p: (String, PinOpts)| inst_model(p)) == spec_installed_pins(
                    pins_output@,
                ),
                side == if systemwide {
                    &self.system_pinned
                } else {
                    &self.user_pinned
                },
                ({
                    let extra = spec_installed_pins(pins_output@).take(i as int).filter(
                        (
                        |t: (Seq<char>, Option<Seq<char>>, Option<Seq<char>>)|
                            !exists|k: int|
                                0 <= k < self.spec_pin_side(systemwide).len() && spec_pin_matches(
                                    pin_model(#[trigger] self.spec_pin_side(systemwide)[k]),
                                    t,
                                )),
                    );
                    &&& out@.len() == extra.len()
                    &&& forall|j: int|
                        0 <= j < extra.len() ==> (#[trigger] out@[j]).args.deep_view() == seq![
                            "flatpak"@,
                            "pin"@,
                            "--remove"@,
                            spec_side_flag(systemwide),
                            extra[j].0,
                        ] && out@[j].perms == Perms::User
                }),
            decreases all_pins@.len() - i,
        {
            proof {
                lemma_filter_take_step(
                    spec_installed_pins(pins_output@),
                    (
                    |t: (Seq<char>, Option<Seq<char>>, Option<Seq<char>>)|
                        !exists|k: int|
                            0 <= k < self.spec_pin_side(systemwide).len() && spec_pin_matches(
                                pin_model(#[trigger] self.spec_pin_side(systemwide)[k]),
                                t,
                            )),
                    i as int,
                );
                assert(inst_model(all_pins@[i as int]) == spec_installed_pins(pins_output@)[
                    i as int]);
            }
            let matched = any_config_match(side, &all_pins[i]);
            proof {
                assert(side@ == self.spec_pin_side(systemwide));
            }
            if !matched {
                let mut args: Vec<String> = Vec::new();
                args.push("flatpak".to_owned());
                args.push("pin".to_owned());
                args.push("--remove".to_owned());
                args.push(side_flag(systemwide));
                args.push(all_pins[i].0.clone());
                proof {
                    assert(args.deep_view() =~= seq![
                        "flatpak"@,
                        "pin"@,
                        "--remove"@,
                        spec_side_flag(systemwide),
                        spec_installed_pins(pins_output@)[i as int].0,
                    ]);
                }
                out.push(Cmd { args, perms: Perms::User });
            }
            i += 1;
        }
        proof {
            assert(spec_installed_pins(pins_output@).take(all_pins.len() as int)
                =~= spec_installed_pins(pins_output@));
        }
        out
    }

    /// Plans removing every installed package of one side that is not
    /// configured for that side, in one command. No command is issued when
    /// nothing is extra.
    pub fn remove_packages(&self, systemwide: bool, installed_packages: &Vec<String>) -> (r: Option<
        Cmd,
    >)
        ensures
            ({
                let extra = installed_packages.deep_view().filter(
                    (
                    |q: Seq<char>|
                        !self.spec_pkg_side(systemwide).map_values(
                            |p: (String, FlatpakOpts)| p.0@,
                        ).contains(q)),
                );
                &&& (r is Some <==> extra.len() > 0)
                &&& r matches Some(c) ==> c.args.deep_view() == seq![
                    "flatpak"@,
                    "remove"@,
                    spec_side_flag(systemwide),
                    "--delete-data"@,
                ] + extra && c.perms == Perms::User
            }),
    {
        let side = if systemwide {
            &self.system_packages
        } else {
            &self.user_packages
        };
        let mut names: Vec<String> = Vec::new();
        let mut i: usize = 0;
        while i < side.len()
            invariant
                i <= side@.len(),
                side == if systemwide {
                    &self.system_packages
                } else {
                    &self.user_packages
                },
                names.deep_view().len() == i,
                forall|k: int|
                    0 <= k < i ==> names.deep_view()[k] == (#[trigger] side@[k]).0@,
            decreases side@.len() - i,
        {
            let ghost prev = names.deep_view();
            names.push(side[i].0.clone());
            proof {
                assert(names.deep_view() =~= prev.push(side@[i as int].0@));
            }
            i += 1;
        }
        proof {
            assert(names.deep_view() =~= self.spec_pkg_side(systemwide).map_values(
                |p: (String, FlatpakOpts)| p.0@,
            ));
        }
        let extra = crate::strutil::filter_not_in(installed_packages, &names);
        if extra.len() > 0 {
            let mut args: Vec<String> = Vec::new();
            args.push("flatpak".to_owned());
            args.push("remove".to_owned());
            args.push(side_flag(systemwide));
            args.push("--delete-data".to_owned());
            let ghost head = args.deep_view();
            append_all(&mut args, &extra);
            proof {
                assert(head =~= seq![
                    "flatpak"@,
                    "remove"@,
                    spec_side_flag(systemwide),
                    "--delete-data"@,
                ]);
            }
            Some(Cmd { args, perms: Perms::User })
        } else {
            None
        }
    }

    /// The two commands that clear unused packages and their data, one per
    /// installation side.
    pub fn clean_cache_commands(&self) -> (r: Vec<Cmd>)
        ensures
            r@.len() == 2,
            r@[0].args.deep_view() == seq![
                "flatpak"@,
                "remove"@,
                "--delete-data"@,
                "--unused"@,
                "--user"@,
            ],
            r@[1].args.deep_view() == seq![
                "flatpak"@,
                "remove"@,
                "--delete-data"@,
                "--unused"@,
                "--system"@,
            ],
            r@[0].perms == Perms::User,
            r@[1].perms == Perms::User,
    {
        let mut user_args: Vec<String> = Vec::new();
        user_args.push("flatpak".to_owned());
        user_args.push("remove".to_owned());
        user_args.push("--delete-data".to_owned());
        user_args.push("--unused".to_owned());
        user_args.push("--user".to_owned());
        proof {
            assert(user_args.deep_view() =~= seq![
                "flatpak"@,
                "remove"@,
                "--delete-data"@,
                "--unused"@,
                "--user"@,
            ]);
        }
        let mut system_args: Vec<String> = Vec::new();
        system_args.push("flatpak".to_owned());
        system_args.push("remove".to_owned());
        system_args.push("--delete-data".to_owned());
        system_args.push("--unused".to_owned());
        system_args.push("--system".to_owned());
        proof {
            assert(system_args.deep_view() =~= seq![
                "flatpak"@,
                "remove"@,
                "--delete-data"@,
                "--unused"@,
                "--system"@,
            ]);
        }
        let mut out: Vec<Cmd> = Vec::new();
        out.push(Cmd { args: user_args, perms: Perms::User });
        out.push(Cmd { args: system_args, perms: Perms::User });
        out
    }
}

} // verus!
