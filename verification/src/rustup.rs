//! The language-toolchain installer backend.
//!
//! A configured toolchain is matched against installed toolchain strings
//! by prefix: the installed form carries a build-date/platform suffix that
//! the configured identifier omits. Per matched toolchain, targets and
//! components are reconciled one level deeper; a fixed default component
//! set is always treated as configured so it is never removed.

use vstd::prelude::*;

use crate::commands::{Cmd, Perms};
use crate::error::Error;
use crate::strutil::{
    any_prefix_of, append_all, filter_not_in, lemma_filter_map_take_step, lemma_filter_take_step,
    spec_find, spec_lines, spec_trim, str_starts_with, trimmed_lines, vec_contains_prefixed,
};
use crate::values::{Record, Value};

verus! {

/// One configured toolchain: the target triples and components it must
/// carry.
#[derive(Debug)]
pub struct ToolchainSpec {
    pub targets: Vec<String>,
    pub components: Vec<String>,
}

/// The parsed declarative state for this backend: configured toolchains in
/// declaration order.
#[derive(Debug)]
pub struct Rustup {
    pub toolchains: Vec<(String, ToolchainSpec)>,
}

/// The components every toolchain carries; they are never reported as
/// extra.
pub open spec fn spec_default_components() -> Seq<Seq<char>> {
    seq![
        "cargo"@,
        "clippy"@,
        "rust-docs"@,
        "rust-std"@,
        "rust-src"@,
        "rustc"@,
        "rustfmt"@,
    ]
}

/// The default component set as owned strings.
pub fn default_components() -> (r: Vec<String>)
    ensures
        r.deep_view() == spec_default_components(),
{
    let mut v: Vec<String> = Vec::new();
    v.push("cargo".to_owned());
    v.push("clippy".to_owned());
    v.push("rust-docs".to_owned());
    v.push("rust-std".to_owned());
    v.push("rust-src".to_owned());
    v.push("rustc".to_owned());
    v.push("rustfmt".to_owned());
    proof {
        assert(v.deep_view() =~= spec_default_components());
    }
    v
}

/// True iff some installed toolchain string starts with `toolchain`: an
/// installed toolchain belongs to a configured identifier exactly when the
/// identifier is its prefix.
pub open spec fn any_prefixed(installed: Seq<Seq<char>>, toolchain: Seq<char>) -> bool {
    exists|k: int| 0 <= k < installed.len() && toolchain.is_prefix_of(#[trigger] installed[k])
}

/// Parses a component list: every element must be a string.
pub fn parse_components(components: &Vec<Value>) -> (r: Result<Vec<String>, Error>)
    ensures
        match r {
            Ok(out) => out.deep_view().len() == components@.len() && (forall|i: int|
                0 <= i < components@.len() ==> (#[trigger] components@[i]) is Str
                    && out.deep_view()[i] == components@[i]->Str_0@),
            Err(e) => {
                &&& exists|i: int| 0 <= i < components@.len() && !((#[trigger] components@[i]) is Str)
                &&& e matches Error::TypeMismatch(f) && f@ == "components"@
            },
        },
{
    let mut out: Vec<String> = Vec::new();
    let mut i: usize = 0;
    while i < components.len()
        invariant
            i <= components@.len(),
            out.deep_view().len() == i,
            forall|k: int|
                0 <= k < i ==> (#[trigger] components@[k]) is Str && out.deep_view()[k]
                    == components@[k]->Str_0@,
        decreases components@.len() - i,
    {
        match &components[i] {
            Value::Str(s) => {
                let ghost prev = out.deep_view();
                let c = s.clone();
                let ghost cv = c@;
                out.push(c);
                proof {
                    assert(out.deep_view() =~= prev.push(cv));
                }
            },
            _ => {
                return Err(Error::TypeMismatch("components".to_owned()));
            },
        }
        i += 1;
    }
    Ok(out)
}

/// The target triple a declarative target record denotes: the required
/// `arch` joined with `vendor` (default `unknown`) and `os` (default
/// `none`), or nothing when the record is malformed.
pub open spec fn spec_target(v: Value) -> Option<Seq<char>> {
    match v {
        Value::Record(rec) => match rec.spec_get("arch"@) {
            Some(Value::Str(a)) => {
                let vendor = match rec.spec_get("vendor"@) {
                    None => Some("unknown"@),
                    Some(Value::Str(x)) => Some(x@),
                    Some(_) => None,
                };
                let os = match rec.spec_get("os"@) {
                    None => Some("none"@),
                    Some(Value::Str(x)) => Some(x@),
                    Some(_) => None,
                };
                match (vendor, os) {
                    (Some(vd), Some(o)) => Some(a@ + "-"@ + vd + "-"@ + o),
                    _ => None,
                }
            },
            _ => None,
        },
        _ => None,
    }
}

/// Parses one declarative target record into a normalized triple.
pub fn parse_target(target: &Value) -> (r: Result<String, Error>)
    ensures
        match r {
            Ok(t) => spec_target(*target) == Some(t@),
            Err(_) => spec_target(*target) is None,
        },
{
    let rec = match target {
        Value::Record(rec) => rec,
        _ => {
            return Err(Error::NotARecord);
        },
    };
    let arch = match rec.get("arch") {
        None => {
            return Err(Error::MissingField("arch".to_owned()));
        },
        Some(v) => match v {
            Value::Str(s) => s.clone(),
            _ => {
                return Err(Error::TypeMismatch("arch".to_owned()));
            },
        },
    };
    let vendor = match rec.get("vendor") {
        None => "unknown".to_owned(),
        Some(v) => match v {
            Value::Str(s) => s.clone(),
            _ => {
                return Err(Error::TypeMismatch("vendor".to_owned()));
            },
        },
    };
    let os = match rec.get("os") {
        None => "none".to_owned(),
        Some(v) => match v {
            Value::Str(s) => s.clone(),
            _ => {
                return Err(Error::TypeMismatch("os".to_owned()));
            },
        },
    };
    let mut t = arch;
    t.append("-");
    t.append(vendor.as_str());
    t.append("-");
    t.append(os.as_str());
    Ok(t)
}

/// What one declarative toolchain record denotes: its target triples and
/// components, or nothing when the record is malformed. Both lists default
/// to empty when absent.
pub open spec fn spec_toolchainspec(v: Value) -> Option<(Seq<Seq<char>>, Seq<Seq<char>>)> {
    match v {
        Value::Record(rec) => {
            let components = match rec.spec_get("components"@) {
                None => Some(Seq::<Seq<char>>::empty()),
                Some(Value::List(items)) => if forall|i: int|
                    0 <= i < items@.len() ==> (#[trigger] items@[i]) is Str {
                    Some(items@.map_values(|x: Value| x->Str_0@))
                } else {
                    None
                },
                Some(_) => None,
            };
            let targets = match rec.spec_get("targets"@) {
                None => Some(Seq::<Seq<char>>::empty()),
                Some(Value::List(items)) => if forall|i: int|
                    0 <= i < items@.len() ==> (#[trigger] spec_target(items@[i])) is Some {
                    Some(items@.map_values(|x: Value| spec_target(x)->Some_0))
                } else {
                    None
                },
                Some(_) => None,
            };
            match (targets, components) {
                (Some(t), Some(c)) => Some((t, c)),
                _ => None,
            }
        },
        _ => None,
    }
}

/// Parses one declarative toolchain record.
pub fn value_to_toolchainspec(value: &Value) -> (r: Result<ToolchainSpec, Error>)
    ensures
        match r {
            Ok(spec) => spec_toolchainspec(*value) == Some(
                (spec.targets.deep_view(), spec.components.deep_view()),
            ),
            Err(_) => spec_toolchainspec(*value) is None,
        },
{
    let rec = match value {
        Value::Record(rec) => rec,
        _ => {
            return Err(Error::NotARecord);
        },
    };
    let components = match rec.get("components") {
        None => {
            let c: Vec<String> = Vec::new();
            proof {
                assert(c.deep_view() =~= Seq::<Seq<char>>::empty());
            }
            c
        },
        Some(v) => match v {
            Value::List(items) => match parse_components(items) {
                Ok(c) => {
                    proof {
                        assert(c.deep_view() =~= items@.map_values(|x: Value| x->Str_0@));
                    }
                    c
                },
                Err(e) => {
                    return Err(e);
                },
            },
            _ => {
                return Err(Error::NotAList("components".to_owned()));
            },
        },
    };
    let targets = match rec.get("targets") {
        None => {
            let t: Vec<String> = Vec::new();
            proof {
                assert(t.deep_view() =~= Seq::<Seq<char>>::empty());
            }
            t
        },
        Some(v) => match v {
            Value::List(items) => {
                let mut out: Vec<String> = Vec::new();
                let mut i: usize = 0;
                #[verifier::loop_isolation(false)]
                while i < items.len()
                    invariant
                        i <= items@.len(),
                        out.deep_view().len() == i,
                        forall|k: int|
                            0 <= k < i ==> spec_target(items@[k]) == Some(
                                #[trigger] out.deep_view()[k],
                            ),
                    decreases items@.len() - i,
                {
                    match parse_target(&items[i]) {
                        Ok(t) => {
                            let ghost prev = out.deep_view();
                            let ghost tv = t@;
                            out.push(t);
                            proof {
                                assert(out.deep_view() =~= prev.push(tv));
                            }
                        },
                        Err(e) => {
                            return Err(e);
                        },
                    }
                    i += 1;
                }
                proof {
                    assert forall|k: int|
                        0 <= k < items@.len() implies (#[trigger] spec_target(
                        items@[k],
                    )) is Some by {
                        assert(spec_target(items@[k]) == Some(out.deep_view()[k]));
                    }
                    assert(out.deep_view() =~= items@.map_values(
                        |x: Value| spec_target(x)->Some_0,
                    ));
                }
                out
            },
            _ => {
                return Err(Error::NotAList("targets".to_owned()));
            },
        },
    };
    Ok(ToolchainSpec { targets, components })
}

/// Pointwise correspondence between parsed toolchains and the entries of
/// the declarative record.
pub open spec fn wf_toolchains(
    toolchains: Seq<(String, ToolchainSpec)>,
    entries: Seq<(String, Value)>,
) -> bool {
    &&& toolchains.len() == entries.len()
    &&& forall|i: int|
        0 <= i < entries.len() ==> (#[trigger] toolchains[i]).0@ == entries[i].0@
            && spec_toolchainspec(entries[i].1) == Some(
            (toolchains[i].1.targets.deep_view(), toolchains[i].1.components.deep_view()),
        )
}

/// Parses the toolchain table: one entry per configured toolchain.
pub fn values_to_pkgspec(record: &Record) -> (r: Result<Vec<(String, ToolchainSpec)>, Error>)
    ensures
        match r {
            Ok(out) => wf_toolchains(out@, record.entries@),
            Err(_) => exists|i: int|
                0 <= i < record.entries@.len() && spec_toolchainspec(
                    (#[trigger] record.entries@[i]).1,
                ) is None,
        },
{
    let mut out: Vec<(String, ToolchainSpec)> = Vec::new();
    let n = record.entries.len();
    let mut i: usize = 0;
    while i < n
        invariant
            n == record.entries@.len(),
            i <= n,
            wf_toolchains(out@, record.entries@.take(i as int)),
        decreases n - i,
    {
        match value_to_toolchainspec(&record.entries[i].1) {
            Ok(spec) => {
                out.push((record.entries[i].0.clone(), spec));
                proof {
                    assert(record.entries@.take(i as int + 1)[i as int]
                        == record.entries@[i as int]);
                    assert(forall|k: int|
                        0 <= k < i ==> record.entries@.take(i as int + 1)[k] == record.entries@.take(
                            i as int,
                        )[k]);
                }
            },
            Err(e) => {
                return Err(e);
            },
        }
        i += 1;
    }
    proof {
        assert(record.entries@.take(n as int) =~= record.entries@);
    }
    Ok(out)
}

impl Rustup {
    /// The configured toolchain identifiers, in declaration order.
    pub open spec fn spec_names(self) -> Seq<Seq<char>> {
        self.toolchains@.map_values(|p: (String, ToolchainSpec)| p.0@)
    }

    /// Parses the backend's declarative record: its `toolchains` field
    /// must be a record of toolchain entries.
    pub fn new(value: &Record, _config: &Record) -> (r: Result<Rustup, Error>)
        ensures
            match r {
                Ok(rustup) => value.spec_get("toolchains"@) matches Some(Value::Record(inner))
                    && wf_toolchains(rustup.toolchains@, inner.entries@),
                Err(e) => {
                    ||| {
                        &&& value.spec_get("toolchains"@) is None
                        &&& e matches Error::MissingField(f) && f@ == "toolchains"@
                    }
                    ||| {
                        &&& value.spec_get("toolchains"@) matches Some(v) && !(v matches
                            Value::Record(_))
                        &&& e is NotARecord
                    }
                    ||| value.spec_get("toolchains"@) matches Some(Value::Record(inner))
                        && exists|i: int|
                        0 <= i < inner.entries@.len() && spec_toolchainspec(
                            (#[trigger] inner.entries@[i]).1,
                        ) is None
                },
            },
    {
        let inner = match value.get("toolchains") {
            None => {
                return Err(Error::MissingField("toolchains".to_owned()));
            },
            Some(v) => match v {
                Value::Record(rec) => rec,
                _ => {
                    return Err(Error::NotARecord);
                },
            },
        };
        match values_to_pkgspec(inner) {
            Ok(toolchains) => Ok(Rustup { toolchains }),
            Err(e) => Err(e),
        }
    }

    /// The configured spec of `toolchain`, if that identifier is
    /// configured.
    pub fn get_toolchain(&self, toolchain: &str) -> (r: Option<&ToolchainSpec>)
        ensures
            match r {
                Some(spec) => exists|i: int|
                    0 <= i < self.toolchains@.len() && (#[trigger] self.toolchains@[i]).0@
                        == toolchain@ && self.toolchains@[i].1 == *spec,
                None => forall|i: int|
                    0 <= i < self.toolchains@.len() ==> (#[trigger] self.toolchains@[i]).0@
                        != toolchain@,
            },
    {
        let mut i: usize = 0;
        while i < self.toolchains.len()
            invariant
                i <= self.toolchains@.len(),
                forall|k: int|
                    0 <= k < i ==> (#[trigger] self.toolchains@[k]).0@ != toolchain@,
            decreases self.toolchains@.len() - i,
        {
            if crate::strutil::str_eq(self.toolchains[i].0.as_str(), toolchain) {
                return Some(&self.toolchains[i].1);
            }
            i += 1;
        }
        None
    }

    /// Plans installing every configured toolchain that no installed
    /// toolchain string matches by prefix: one install command per missing
    /// toolchain, in declaration order.
    pub fn install_toolchains(&self, installed_toolchains: &Vec<String>) -> (r: Vec<Cmd>)
        ensures
            ({
                let missing = self.toolchains@.filter(
                    (|p: (String, ToolchainSpec)|
                        !any_prefixed(installed_toolchains.deep_view(), p.0@)),
                );
                &&& r@.len() == missing.len()
                &&& forall|j: int|
                    0 <= j < missing.len() ==> (#[trigger] r@[j]).args.deep_view()
                        == spec_install_args(
                        missing[j].0@,
                        missing[j].1.targets.deep_view(),
                        missing[j].1.components.deep_view(),
                    ) && r@[j].perms == Perms::User
            }),
    {
        let mut out: Vec<Cmd> = Vec::new();
        let n = self.toolchains.len();
        proof {
            assert(self.toolchains@.take(0).filter(
                (|p: (String, ToolchainSpec)|
                    !any_prefixed(installed_toolchains.deep_view(), p.0@)),
            ) =~= Seq::<(String, ToolchainSpec)>::empty()) by {
                reveal(Seq::filter);
                assert(self.toolchains@.take(0) =~= Seq::<(String, ToolchainSpec)>::empty());
            }
        }
        let mut i: usize = 0;
        while i < n
            invariant
                n == self.toolchains@.len(),
                i <= n,
                ({
                    let missing = self.toolchains@.take(i as int).filter(
                        (|p: (String, ToolchainSpec)|
                            !any_prefixed(installed_toolchains.deep_view(), p.0@)),
                    );
                    &&& out@.len() == missing.len()
                    &&& forall|j: int|
                        0 <= j < missing.len() ==> (#[trigger] out@[j]).args.deep_view()
                            == spec_install_args(
                            missing[j].0@,
                            missing[j].1.targets.deep_view(),
                            missing[j].1.components.deep_view(),
                        ) && out@[j].perms == Perms::User
                }),
            decreases n - i,
        {
            proof {
                lemma_filter_take_step(
                    self.toolchains@,
                    (|p: (String, ToolchainSpec)|
                        !any_prefixed(installed_toolchains.deep_view(), p.0@)),
                    i as int,
                );
            }
            let prefixed = vec_contains_prefixed(
                installed_toolchains,
                self.toolchains[i].0.as_str(),
            );
            proof {
                assert(prefixed == any_prefixed(
                    installed_toolchains.deep_view(),
                    self.toolchains@[i as int].0@,
                ));
            }
            if !prefixed {
                let c = install_missing_toolchain(
                    self.toolchains[i].0.as_str(),
                    &self.toolchains[i].1,
                );
                out.push(c);
            }
            i += 1;
        }
        proof {
            assert(self.toolchains@.take(n as int) =~= self.toolchains@);
        }
        out
    }

    /// The configured toolchains that are present: for each installed
    /// toolchain string, the first configured identifier that is a prefix
    /// of it, in installed order. Targets and components are then
    /// reconciled per matched toolchain.
    pub fn install_missing(&self, installed_toolchains: &Vec<String>) -> (r: Vec<String>)
        ensures
            r.deep_view() == installed_toolchains.deep_view().filter_map(
                (|t: Seq<char>| spec_first_prefix_key(self.toolchains@, t)),
            ),
    {
        self.matched_toolchains(installed_toolchains)
    }

    /// The same matching as `install_missing`, used for pruning: the
    /// configured toolchains whose targets and components are checked for
    /// extras.
    pub fn remove_extra(&self, installed_toolchains: &Vec<String>) -> (r: Vec<String>)
        ensures
            r.deep_view() == installed_toolchains.deep_view().filter_map(
                (|t: Seq<char>| spec_first_prefix_key(self.toolchains@, t)),
            ),
    {
        self.matched_toolchains(installed_toolchains)
    }

    fn matched_toolchains(&self, installed_toolchains: &Vec<String>) -> (r: Vec<String>)
        ensures
            r.deep_view() == installed_toolchains.deep_view().filter_map(
                (|t: Seq<char>| spec_first_prefix_key(self.toolchains@, t)),
            ),
    {
        let mut out: Vec<String> = Vec::new();
        proof {
            assert(installed_toolchains.deep_view().take(0).filter_map(
                (|t: Seq<char>| spec_first_prefix_key(self.toolchains@, t)),
            ) =~= Seq::<Seq<char>>::empty()) by {
                assert(installed_toolchains.deep_view().take(0) =~= Seq::<Seq<char>>::empty());
            }
        }
        let mut i: usize = 0;
        while i < installed_toolchains.len()
            invariant
                i <= installed_toolchains@.len(),
                out.deep_view() == installed_toolchains.deep_view().take(i as int).filter_map(
                    (|t: Seq<char>| spec_first_prefix_key(self.toolchains@, t)),
                ),
            decreases installed_toolchains@.len() - i,
        {
            proof {
                lemma_filter_map_take_step(
                    installed_toolchains.deep_view(),
                    (|t: Seq<char>| spec_first_prefix_key(self.toolchains@, t)),
                    i as int,
                );
            }
            let ghost prev = out.deep_view();
            match self.first_prefix_key(installed_toolchains[i].as_str()) {
                Some(key) => {
                    let ghost kv = key@;
                    out.push(key);
                    proof {
                        assert(out.deep_view() =~= prev.push(kv));
                    }
                },
                None => {},
            }
            i += 1;
        }
        proof {
            assert(installed_toolchains.deep_view().take(installed_toolchains.len() as int)
                =~= installed_toolchains.deep_view());
        }
        out
    }

    /// The first configured identifier that is a prefix of `installed`.
    fn first_prefix_key(&self, installed: &str) -> (r: Option<String>)
        ensures
            match r {
                Some(key) => spec_first_prefix_key(self.toolchains@, installed@) == Some(key@),
                None => spec_first_prefix_key(self.toolchains@, installed@) is None,
            },
    {
        let n = self.toolchains.len();
        proof {
            assert(self.toolchains@.subrange(0, n as int) =~= self.toolchains@);
        }
        let mut i: usize = 0;
        while i < n
            invariant
                n == self.toolchains@.len(),
                i <= n,
                spec_first_prefix_key(self.toolchains@, installed@) == spec_first_prefix_key(
                    self.toolchains@.subrange(i as int, n as int),
                    installed@,
                ),
            decreases n - i,
        {
            proof {
                assert(self.toolchains@.subrange(i as int, n as int)[0]
                    == self.toolchains@[i as int]);
            }
            if str_starts_with(installed, self.toolchains[i].0.as_str()) {
                return Some(self.toolchains[i].0.clone());
            }
            proof {
                assert(self.toolchains@.subrange(i as int, n as int).subrange(
                    1,
                    (n - i) as int,
                ) =~= self.toolchains@.subrange(i as int + 1, n as int));
            }
            i += 1;
        }
        None
    }

    /// Plans removing every installed toolchain that no configured
    /// identifier matches by prefix, in one command. No command is issued
    /// when nothing is extra.
    pub fn remove_toolchains(&self, installed_toolchains: &Vec<String>) -> (r: Option<Cmd>)
        ensures
            ({
                let extra = installed_toolchains.deep_view().filter(
                    (|t: Seq<char>|
                        !exists|k: int|
                            0 <= k < self.spec_names().len() && (
                            #[trigger] self.spec_names()[k]).is_prefix_of(t)),
                );
                &&& (r is Some <==> extra.len() > 0)
                &&& r matches Some(c) ==> c.args.deep_view() == seq![
                    "rustup"@,
                    "toolchain"@,
                    "remove"@,
                ] + extra && c.perms == Perms::User
            }),
    {
        let names = self.names();
        let mut extra: Vec<String> = Vec::new();
        proof {
            assert(installed_toolchains.deep_view().take(0).filter(
                (|t: Seq<char>|
                    !exists|k: int|
                        0 <= k < self.spec_names().len() && (
                        #[trigger] self.spec_names()[k]).is_prefix_of(t)),
            ) =~= Seq::<Seq<char>>::empty()) by {
                reveal(Seq::filter);
                assert(installed_toolchains.deep_view().take(0) =~= Seq::<Seq<char>>::empty());
            }
        }
        let mut i: usize = 0;
        while i < installed_toolchains.len()
            invariant
                i <= installed_toolchains@.len(),
                names.deep_view() == self.spec_names(),
                extra.deep_view() == installed_toolchains.deep_view().take(i as int).filter(
                    (|t: Seq<char>|
                        !exists|k: int|
                            0 <= k < self.spec_names().len() && (
                            #[trigger] self.spec_names()[k]).is_prefix_of(t)),
                ),
            decreases installed_toolchains@.len() - i,
        {
            proof {
                lemma_filter_take_step(
                    installed_toolchains.deep_view(),
                    (|t: Seq<char>|
                        !exists|k: int|
                            0 <= k < self.spec_names().len() && (
                            #[trigger] self.spec_names()[k]).is_prefix_of(t)),
                    i as int,
                );
            }
            let ghost prev = extra.deep_view();
            if !any_prefix_of(&names, installed_toolchains[i].as_str()) {
                let ghost tv = installed_toolchains.deep_view()[i as int];
                extra.push(installed_toolchains[i].clone());
                proof {
                    assert(extra.deep_view() =~= prev.push(tv));
                }
            }
            i += 1;
        }
        proof {
            assert(installed_toolchains.deep_view().take(installed_toolchains.len() as int)
                =~= installed_toolchains.deep_view());
        }
        if extra.len() > 0 {
            let mut args: Vec<String> = Vec::new();
            args.push("rustup".to_owned());
            args.push("toolchain".to_owned());
            args.push("remove".to_owned());
            let ghost head = args.deep_view();
            append_all(&mut args, &extra);
            proof {
                assert(head =~= seq!["rustup"@, "toolchain"@, "remove"@]);
            }
            Some(Cmd { args, perms: Perms::User })
        } else {
            None
        }
    }

    /// The configured toolchain identifiers as owned strings.
    pub fn names(&self) -> (r: Vec<String>)
        ensures
            r.deep_view() == self.spec_names(),
    {
        let mut out: Vec<String> = Vec::new();
        let mut i: usize = 0;
        while i < self.toolchains.len()
            invariant
                i <= self.toolchains@.len(),
                out.deep_view().len() == i,
                forall|k: int| 0 <= k < i ==> out.deep_view()[k] == self.toolchains@[k].0@,
            decreases self.toolchains@.len() - i,
        {
            let ghost prev = out.deep_view();
            out.push(self.toolchains[i].0.clone());
            proof {
                assert(out.deep_view() =~= prev.push(self.toolchains@[i as int].0@));
            }
            i += 1;
        }
        proof {
            assert(out.deep_view() =~= self.spec_names());
        }
        out
    }
}

/// The first configured identifier in `pairs` that is a prefix of `t`.
pub open spec fn spec_first_prefix_key(
    pairs: Seq<(String, ToolchainSpec)>,
    t: Seq<char>,
) -> Option<Seq<char>>
    decreases pairs.len(),
{
    if pairs.len() == 0 {
        None
    } else if pairs[0].0@.is_prefix_of(t) {
        Some(pairs[0].0@)
    } else {
        spec_first_prefix_key(pairs.subrange(1, pairs.len() as int), t)
    }
}

/// The argv installing one toolchain with its components and targets.
pub open spec fn spec_install_args(
    toolchain: Seq<char>,
    targets: Seq<Seq<char>>,
    components: Seq<Seq<char>>,
) -> Seq<Seq<char>> {
    seq!["rustup"@, "toolchain"@, "install"@, toolchain] + (if components.len() > 0 {
        seq!["--component"@] + components
    } else {
        Seq::<Seq<char>>::empty()
    }) + (if targets.len() > 0 {
        seq!["--target"@] + targets
    } else {
        Seq::<Seq<char>>::empty()
    })
}

/// The command installing one missing toolchain, carrying its configured
/// components and targets.
pub fn install_missing_toolchain(toolchain: &str, toolchain_spec: &ToolchainSpec) -> (c: Cmd)
    ensures
        c.args.deep_view() == spec_install_args(
            toolchain@,
            toolchain_spec.targets.deep_view(),
            toolchain_spec.components.deep_view(),
        ),
        c.perms == Perms::User,
{
    let mut args: Vec<String> = Vec::new();
    args.push("rustup".to_owned());
    args.push("toolchain".to_owned());
    args.push("install".to_owned());
    args.push(toolchain.to_owned());
    if toolchain_spec.components.len() > 0 {
        args.push("--component".to_owned());
        append_all(&mut args, &toolchain_spec.components);
    }
    let ghost mid = args.deep_view();
    if toolchain_spec.targets.len() > 0 {
        args.push("--target".to_owned());
        append_all(&mut args, &toolchain_spec.targets);
    }
    proof {
        assert(mid =~= seq!["rustup"@, "toolchain"@, "install"@, toolchain@] + (
        if toolchain_spec.components.deep_view().len() > 0 {
            seq!["--component"@] + toolchain_spec.components.deep_view()
        } else {
            Seq::<Seq<char>>::empty()
        }));
        assert(args.deep_view() =~= spec_install_args(
            toolchain@,
            toolchain_spec.targets.deep_view(),
            toolchain_spec.components.deep_view(),
        ));
    }
    Cmd { args, perms: Perms::User }
}

/// Plans adding the configured targets that `toolchain` lacks, in one
/// command. No command is issued when none is missing.
pub fn install_missing_targets(
    toolchain: &str,
    configured_targets: &Vec<String>,
    installed_targets: &Vec<String>,
) -> (r: Option<Cmd>)
    ensures
        ({
            let missing = configured_targets.deep_view().filter(
                (|t: Seq<char>| !installed_targets.deep_view().contains(t)),
            );
            &&& (r is Some <==> missing.len() > 0)
            &&& r matches Some(c) ==> c.args.deep_view() == seq![
                "rustup"@,
                "target"@,
                "add"@,
                "--toolchain"@,
                toolchain@,
            ] + missing && c.perms == Perms::User
        }),
{
    let missing = filter_not_in(configured_targets, installed_targets);
    if missing.len() > 0 {
        let mut args: Vec<String> = Vec::new();
        args.push("rustup".to_owned());
        args.push("target".to_owned());
        args.push("add".to_owned());
        args.push("--toolchain".to_owned());
        args.push(toolchain.to_owned());
        let ghost head = args.deep_view();
        append_all(&mut args, &missing);
        proof {
            assert(head =~= seq!["rustup"@, "target"@, "add"@, "--toolchain"@, toolchain@]);
        }
        Some(Cmd { args, perms: Perms::User })
    } else {
        None
    }
}

/// Plans removing the installed targets that are not configured for
/// `toolchain`, in one command.
pub fn remove_extra_targets(
    toolchain: &str,
    configured_targets: &Vec<String>,
    installed_targets: &Vec<String>,
) -> (r: Option<Cmd>)
    ensures
        ({
            let extra = installed_targets.deep_view().filter(
                (|t: Seq<char>| !configured_targets.deep_view().contains(t)),
            );
            &&& (r is Some <==> extra.len() > 0)
            &&& r matches Some(c) ==> c.args.deep_view() == seq![
                "rustup"@,
                "target"@,
                "remove"@,
                "--toolchain"@,
                toolchain@,
            ] + extra && c.perms == Perms::User
        }),
{
    let extra = filter_not_in(installed_targets, configured_targets);
    if extra.len() > 0 {
        let mut args: Vec<String> = Vec::new();
        args.push("rustup".to_owned());
        args.push("target".to_owned());
        args.push("remove".to_owned());
        args.push("--toolchain".to_owned());
        args.push(toolchain.to_owned());
        let ghost head = args.deep_view();
        append_all(&mut args, &extra);
        proof {
            assert(head =~= seq!["rustup"@, "target"@, "remove"@, "--toolchain"@, toolchain@]);
        }
        Some(Cmd { args, perms: Perms::User })
    } else {
        None
    }
}

/// Plans adding the components `toolchain` lacks: a configured or default
/// component is missing when no installed component starts with it.
pub fn install_missing_components(
    toolchain: &str,
    configured_components: &Vec<String>,
    installed_components: &Vec<String>,
) -> (r: Option<Cmd>)
    ensures
        ({
            let wanted = configured_components.deep_view() + spec_default_components();
            let missing = wanted.filter(
                (|c: Seq<char>|
                    !exists|k: int|
                        0 <= k < installed_components.deep_view().len() && c.is_prefix_of(
                            #[trigger] installed_components.deep_view()[k],
                        )),
            );
            &&& (r is Some <==> missing.len() > 0)
            &&& r matches Some(c) ==> c.args.deep_view() == seq![
                "rustup"@,
                "component"@,
                "add"@,
                "--toolchain"@,
                toolchain@,
            ] + missing && c.perms == Perms::User
        }),
{
    let mut wanted = Vec::new();
    append_all(&mut wanted, configured_components);
    let defaults = default_components();
    append_all(&mut wanted, &defaults);
    proof {
        assert(wanted.deep_view() =~= configured_components.deep_view()
            + spec_default_components());
    }
    let mut missing: Vec<String> = Vec::new();
    proof {
        assert(wanted.deep_view().take(0).filter(
            (|c: Seq<char>|
                !exists|k: int|
                    0 <= k < installed_components.deep_view().len() && c.is_prefix_of(
                        #[trigger] installed_components.deep_view()[k],
                    )),
        ) =~= Seq::<Seq<char>>::empty()) by {
            reveal(Seq::filter);
            assert(wanted.deep_view().take(0) =~= Seq::<Seq<char>>::empty());
        }
    }
    let mut i: usize = 0;
    while i < wanted.len()
        invariant
            i <= wanted@.len(),
            missing.deep_view() == wanted.deep_view().take(i as int).filter(
                (|c: Seq<char>|
                    !exists|k: int|
                        0 <= k < installed_components.deep_view().len() && c.is_prefix_of(
                            #[trigger] installed_components.deep_view()[k],
                        )),
            ),
        decreases wanted@.len() - i,
    {
        proof {
            lemma_filter_take_step(
                wanted.deep_view(),
                (|c: Seq<char>|
                    !exists|k: int|
                        0 <= k < installed_components.deep_view().len() && c.is_prefix_of(
                            #[trigger] installed_components.deep_view()[k],
                        )),
                i as int,
            );
        }
        let ghost prev = missing.deep_view();
        if !prefixes_some(wanted[i].as_str(), installed_components) {
            let ghost cv = wanted.deep_view()[i as int];
            missing.push(wanted[i].clone());
            proof {
                assert(missing.deep_view() =~= prev.push(cv));
            }
        }
        i += 1;
    }
    proof {
        assert(wanted.deep_view().take(wanted.len() as int) =~= wanted.deep_view());
    }
    if missing.len() > 0 {
        let mut args: Vec<String> = Vec::new();
        args.push("rustup".to_owned());
        args.push("component".to_owned());
        args.push("add".to_owned());
        args.push("--toolchain".to_owned());
        args.push(toolchain.to_owned());
        let ghost head = args.deep_view();
        append_all(&mut args, &missing);
        proof {
            assert(head =~= seq!["rustup"@, "component"@, "add"@, "--toolchain"@, toolchain@]);
        }
        Some(Cmd { args, perms: Perms::User })
    } else {
        None
    }
}

/// True iff `c` is a prefix of some element of `installed`.
fn prefixes_some(c: &str, installed: &Vec<String>) -> (r: bool)
    ensures
        r == exists|k: int|
            0 <= k < installed.deep_view().len() && c@.is_prefix_of(
                #[trigger] installed.deep_view()[k],
            ),
{
    let mut i: usize = 0;
    while i < installed.len()
        invariant
            i <= installed.len(),
            forall|k: int|
                0 <= k < i ==> !c@.is_prefix_of(#[trigger] installed.deep_view()[k]),
        decreases installed.len() - i,
    {
        if str_starts_with(installed[i].as_str(), c) {
            assert(c@.is_prefix_of(installed.deep_view()[i as int]));
            return true;
        }
        i += 1;
    }
    false
}

/// Plans removing the installed components that no configured or default
/// component accounts for: an installed component is kept when it starts
/// with a configured or default component. The default components are
/// never reported as extra.
pub fn remove_extra_components(
    toolchain: &str,
    configured_components: &Vec<String>,
    installed_components: &Vec<String>,
) -> (r: Option<Cmd>)
    ensures
        ({
            let wanted = configured_components.deep_view() + spec_default_components();
            let extra = installed_components.deep_view().filter(
                (|ic: Seq<char>|
                    !exists|k: int|
                        0 <= k < wanted.len() && (#[trigger] wanted[k]).is_prefix_of(ic)),
            );
            &&& (r is Some <==> extra.len() > 0)
            &&& r matches Some(c) ==> c.args.deep_view() == seq![
                "rustup"@,
                "component"@,
                "remove"@,
                "--toolchain"@,
                toolchain@,
            ] + extra && c.perms == Perms::User
            // An installed component that belongs to the default set is
            // never flagged as extra.
            &&& forall|ic: Seq<char>|
                #[trigger] extra.contains(ic) ==> !exists|k: int|
                    0 <= k < spec_default_components().len() && (
                    #[trigger] spec_default_components()[k]).is_prefix_of(ic)
        }),
{
    let mut wanted = Vec::new();
    append_all(&mut wanted, configured_components);
    let defaults = default_components();
    append_all(&mut wanted, &defaults);
    proof {
        assert(wanted.deep_view() =~= configured_components.deep_view()
            + spec_default_components());
    }
    let mut extra: Vec<String> = Vec::new();
    proof {
        assert(installed_components.deep_view().take(0).filter(
            (|ic: Seq<char>|
                !exists|k: int|
                    0 <= k < (configured_components.deep_view()
                        + spec_default_components()).len() && (#[trigger] (
                    configured_components.deep_view() + spec_default_components())[k]).is_prefix_of(
                        ic,
                    )),
        ) =~= Seq::<Seq<char>>::empty()) by {
            reveal(Seq::filter);
            assert(installed_components.deep_view().take(0) =~= Seq::<Seq<char>>::empty());
        }
    }
    let mut i: usize = 0;
    while i < installed_components.len()
        invariant
            wanted.deep_view() == configured_components.deep_view() + spec_default_components(),
            i <= installed_components@.len(),
            extra.deep_view() == installed_components.deep_view().take(i as int).filter(
                (|ic: Seq<char>|
                    !exists|k: int|
                        0 <= k < (configured_components.deep_view()
                            + spec_default_components()).len() && (#[trigger] (
                        configured_components.deep_view()
                            + spec_default_components())[k]).is_prefix_of(ic)),
            ),
        decreases installed_components@.len() - i,
    {
        proof {
            lemma_filter_take_step(
                installed_components.deep_view(),
                (|ic: Seq<char>|
                    !exists|k: int|
                        0 <= k < (configured_components.deep_view()
                            + spec_default_components()).len() && (#[trigger] (
                        configured_components.deep_view()
                            + spec_default_components())[k]).is_prefix_of(ic)),
                i as int,
            );
        }
        let ghost prev = extra.deep_view();
        if !any_prefix_of(&wanted, installed_components[i].as_str()) {
            let ghost cv = installed_components.deep_view()[i as int];
            extra.push(installed_components[i].clone());
            proof {
                assert(extra.deep_view() =~= prev.push(cv));
            }
        }
        i += 1;
    }
    proof {
        assert(installed_components.deep_view().take(installed_components.len() as int)
            =~= installed_components.deep_view());
    }
    proof {
        crate::strutil::lemma_filter_all_pred(
            installed_components.deep_view(),
            (|ic: Seq<char>|
                !exists|k: int|
                    0 <= k < (configured_components.deep_view()
                        + spec_default_components()).len() && (#[trigger] (
                    configured_components.deep_view() + spec_default_components())[k]).is_prefix_of(
                        ic,
                    )),
        );
        assert forall|ic: Seq<char>| #[trigger]
            extra.deep_view().contains(ic) implies !exists|k: int|
            0 <= k < spec_default_components().len() && (
            #[trigger] spec_default_components()[k]).is_prefix_of(ic) by {
            if exists|k: int|
                0 <= k < spec_default_components().len() && (
                #[trigger] spec_default_components()[k]).is_prefix_of(ic) {
                let k = choose|k: int|
                    0 <= k < spec_default_components().len() && (
                    #[trigger] spec_default_components()[k]).is_prefix_of(ic);
                assert((configured_components.deep_view() + spec_default_components())[
                    configured_components.deep_view().len() + k] == spec_default_components()[k]);
            }
        }
    }
    if extra.len() > 0 {
        let mut args: Vec<String> = Vec::new();
        args.push("rustup".to_owned());
        args.push("component".to_owned());
        args.push("remove".to_owned());
        args.push("--toolchain".to_owned());
        args.push(toolchain.to_owned());
        let ghost head = args.deep_view();
        append_all(&mut args, &extra);
        proof {
            assert(head =~= seq![
                "rustup"@,
                "component"@,
                "remove"@,
                "--toolchain"@,
                toolchain@,
            ]);
        }
        Some(Cmd { args, perms: Perms::User })
    } else {
        None
    }
}

/// The query listing installed toolchains.
pub fn toolchain_list_query() -> (c: Cmd)
    ensures
        c.args.deep_view() == seq!["rustup"@, "toolchain"@, "list"@],
        c.perms == Perms::User,
{
    let mut args: Vec<String> = Vec::new();
    args.push("rustup".to_owned());
    args.push("toolchain".to_owned());
    args.push("list".to_owned());
    proof {
        assert(args.deep_view() =~= seq!["rustup"@, "toolchain"@, "list"@]);
    }
    Cmd { args, perms: Perms::User }
}

/// The query listing the installed targets of one toolchain.
pub fn target_list_query(toolchain: &str) -> (c: Cmd)
    ensures
        c.args.deep_view() == seq![
            "rustup"@,
            "target"@,
            "list"@,
            "--toolchain"@,
            toolchain@,
            "--installed"@,
            "--quiet"@,
        ],
        c.perms == Perms::User,
{
    let mut args: Vec<String> = Vec::new();
    args.push("rustup".to_owned());
    args.push("target".to_owned());
    args.push("list".to_owned());
    args.push("--toolchain".to_owned());
    args.push(toolchain.to_owned());
    args.push("--installed".to_owned());
    args.push("--quiet".to_owned());
    proof {
        assert(args.deep_view() =~= seq![
            "rustup"@,
            "target"@,
            "list"@,
            "--toolchain"@,
            toolchain@,
            "--installed"@,
            "--quiet"@,
        ]);
    }
    Cmd { args, perms: Perms::User }
}

/// The query listing the installed components of one toolchain.
pub fn component_list_query(toolchain: &str) -> (c: Cmd)
    ensures
        c.args.deep_view() == seq![
            "rustup"@,
            "component"@,
            "list"@,
            "--toolchain"@,
            toolchain@,
            "--installed"@,
            "--quiet"@,
        ],
        c.perms == Perms::User,
{
    let mut args: Vec<String> = Vec::new();
    args.push("rustup".to_owned());
    args.push("component".to_owned());
    args.push("list".to_owned());
    args.push("--toolchain".to_owned());
    args.push(toolchain.to_owned());
    args.push("--installed".to_owned());
    args.push("--quiet".to_owned());
    proof {
        assert(args.deep_view() =~= seq![
            "rustup"@,
            "component"@,
            "list"@,
            "--toolchain"@,
            toolchain@,
            "--installed"@,
            "--quiet"@,
        ]);
    }
    Cmd { args, perms: Perms::User }
}

/// Parses the toolchain listing: one toolchain per line, keeping only the
/// part before the first space (the listing may append a marker such as
/// `(default)`).
pub fn get_installed_toolchains(stdout: &str) -> (r: Vec<String>)
    ensures
        r.deep_view() == spec_lines(stdout@).map_values(
            (|l: Seq<char>| l.take(spec_find(l, ' '))),
        ),
{
    let lines = crate::strutil::split_lines(stdout);
    let mut out: Vec<String> = Vec::new();
    let mut i: usize = 0;
    while i < lines.len()
        invariant
            i <= lines.len(),
            lines.deep_view() == spec_lines(stdout@),
            out.deep_view().len() == i,
            forall|k: int|
                0 <= k < i ==> out.deep_view()[k] == (#[trigger] lines.deep_view()[k]).take(
                    spec_find(lines.deep_view()[k], ' '),
                ),
        decreases lines.len() - i,
    {
        let line = &lines[i];
        let j = crate::strutil::find_char(line.as_str(), ' ');
        proof {
            crate::strutil::lemma_spec_find(line@, ' ');
        }
        let head = line.as_str().substring_char(0, j).to_owned();
        let ghost prev = out.deep_view();
        let ghost hv = head@;
        out.push(head);
        proof {
            assert(out.deep_view() =~= prev.push(hv));
            assert(hv =~= lines.deep_view()[i as int].take(
                spec_find(lines.deep_view()[i as int], ' '),
            ));
        }
        i += 1;
    }
    proof {
        assert(out.deep_view() =~= spec_lines(stdout@).map_values(
            (|l: Seq<char>| l.take(spec_find(l, ' '))),
        ));
    }
    out
}

/// Parses the target listing: one target per line, whitespace trimmed.
pub fn get_installed_targets(stdout: &str) -> (r: Vec<String>)
    ensures
        r.deep_view() == spec_lines(stdout@).map_values(|l: Seq<char>| spec_trim(l)),
{
    trimmed_lines(stdout)
}

/// Parses the component listing: one component per line, whitespace
/// trimmed.
pub fn get_installed_components(stdout: &str) -> (r: Vec<String>)
    ensures
        r.deep_view() == spec_lines(stdout@).map_values(|l: Seq<char>| spec_trim(l)),
{
    trimmed_lines(stdout)
}

} // verus!
