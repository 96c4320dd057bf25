use vstd::prelude::*;

use crate::error::Error;
use crate::text::str_eq;

verus! {

/// The persisted configuration: default toolchain name, per-directory
/// overrides, offline flag, proxy address, self-update flag.
///
/// Loading and saving the preference file is the application's work; the
/// library owns the record, its defaults, and every rule over it.
#[derive(Clone, Debug)]
pub struct Config {
    /// The configured default toolchain name, if any.
    pub default_toolchain: Option<String>,
    /// Per-project overrides: absolute project directory path to toolchain
    /// name, keys unique.
    pub overrides: Vec<(String, String)>,
    /// Offline mode: installs require a local package.
    pub offline: bool,
    /// Proxy address for downloads, if any.
    pub proxy: Option<String>,
    /// Whether the manager updates itself opportunistically.
    pub self_update: bool,
}

/// The default of the self-update flag: enabled.
pub fn default_self_update() -> (r: bool)
    ensures
        r == true,
{
    true
}

/// The override table holds at most one entry per path.
pub open spec fn overrides_wf(entries: Seq<(String, String)>) -> bool {
    forall|i: int, j: int|
        0 <= i < j < entries.len() ==> (#[trigger] entries[i]).0@ != (#[trigger] entries[j]).0@
}

/// Some entry maps path `k` to toolchain name `v`.
pub open spec fn has_override(entries: Seq<(String, String)>, k: Seq<char>, v: Seq<char>) -> bool {
    exists|i: int|
        0 <= i < entries.len() && (#[trigger] entries[i]).0@ == k && entries[i].1@ == v
}

/// First-match lookup in the override table.
pub open spec fn spec_lookup(entries: Seq<(String, String)>, k: Seq<char>) -> Option<Seq<char>>
    decreases entries.len(),
{
    if entries.len() == 0 {
        None
    } else if entries[0].0@ == k {
        Some(entries[0].1@)
    } else {
        spec_lookup(entries.drop_first(), k)
    }
}

/// A successful lookup is an entry of the table; a failed one means no
/// entry carries the key.
pub proof fn lemma_lookup_has_override(entries: Seq<(String, String)>, k: Seq<char>)
    ensures
        spec_lookup(entries, k) matches Some(v) ==> has_override(entries, k, v),
        spec_lookup(entries, k) is None ==> forall|v: Seq<char>| !has_override(entries, k, v),
    decreases entries.len(),
{
    if entries.len() == 0 {
        assert forall|v: Seq<char>| !has_override(entries, k, v) by {
            if has_override(entries, k, v) {
                let i = choose|i: int|
                    0 <= i < entries.len() && (#[trigger] entries[i]).0@ == k && entries[i].1@
                        == v;
            }
        }
    } else if entries[0].0@ == k {
        assert(has_override(entries, k, entries[0].1@)) by {
            assert((#[trigger] entries[0]).0@ == k && entries[0].1@ == entries[0].1@);
        }
    } else {
        let rest = entries.drop_first();
        lemma_lookup_has_override(rest, k);
        if spec_lookup(entries, k) is Some {
            let v = spec_lookup(entries, k)->Some_0;
            let i = choose|i: int|
                0 <= i < rest.len() && (#[trigger] rest[i]).0@ == k && rest[i].1@ == v;
            assert((#[trigger] entries[i + 1]).0@ == k && entries[i + 1].1@ == v);
        } else {
            assert forall|v: Seq<char>| !has_override(entries, k, v) by {
                if has_override(entries, k, v) {
                    let i = choose|i: int|
                        0 <= i < entries.len() && (#[trigger] entries[i]).0@ == k
                            && entries[i].1@ == v;
                    assert(i != 0);
                    assert((#[trigger] rest[i - 1]).0@ == k && rest[i - 1].1@ == v);
                    assert(has_override(rest, k, v));
                }
            }
        }
    }
}

/// With unique keys, lookup succeeds with `v` exactly when some entry
/// carries it.
pub proof fn lemma_lookup_unique(entries: Seq<(String, String)>, k: Seq<char>, v: Seq<char>)
    requires
        overrides_wf(entries),
    ensures
        spec_lookup(entries, k) == Some(v) <==> has_override(entries, k, v),
{
    lemma_lookup_has_override(entries, k);
    if has_override(entries, k, v) {
        match spec_lookup(entries, k) {
            Some(v2) => {
                lemma_override_functional(entries, k, v2, v);
            },
            None => {},
        }
    }
}

/// A table whose entries are those of `before` with key `key` remapped to
/// `val` looks up as `before` does, except at `key`.
proof fn lemma_lookup_after_insert(
    before: Seq<(String, String)>,
    now: Seq<(String, String)>,
    key: Seq<char>,
    val: Seq<char>,
)
    requires
        overrides_wf(before),
        overrides_wf(now),
        forall|k: Seq<char>, v: Seq<char>|
            has_override(now, k, v) <==> (if k == key {
                v == val
            } else {
                has_override(before, k, v)
            }),
    ensures
        forall|k: Seq<char>|
            #[trigger] spec_lookup(now, k) == (if k == key {
                Some(val)
            } else {
                spec_lookup(before, k)
            }),
{
    assert forall|k: Seq<char>|
        #[trigger] spec_lookup(now, k) == (if k == key {
            Some(val)
        } else {
            spec_lookup(before, k)
        }) by {
        lemma_lookup_has_override(before, k);
        lemma_lookup_has_override(now, k);
        if k == key {
            assert(has_override(now, k, val));
            lemma_lookup_unique(now, k, val);
        } else {
            match spec_lookup(before, k) {
                Some(v) => {
                    assert(has_override(now, k, v));
                    lemma_lookup_unique(now, k, v);
                },
                None => {
                    match spec_lookup(now, k) {
                        Some(v2) => {
                            assert(has_override(now, k, v2));
                            assert(has_override(before, k, v2));
                        },
                        None => {},
                    }
                },
            }
        }
    }
}

/// A table whose entries are those of `before` without key `key` looks up
/// as `before` does, except at `key`.
proof fn lemma_lookup_after_remove(
    before: Seq<(String, String)>,
    now: Seq<(String, String)>,
    key: Seq<char>,
)
    requires
        overrides_wf(before),
        overrides_wf(now),
        forall|k: Seq<char>, v: Seq<char>|
            has_override(now, k, v) <==> (k != key && has_override(before, k, v)),
    ensures
        forall|k: Seq<char>|
            #[trigger] spec_lookup(now, k) == (if k == key {
                None
            } else {
                spec_lookup(before, k)
            }),
{
    assert forall|k: Seq<char>|
        #[trigger] spec_lookup(now, k) == (if k == key {
            None::<Seq<char>>
        } else {
            spec_lookup(before, k)
        }) by {
        lemma_lookup_has_override(before, k);
        lemma_lookup_has_override(now, k);
        match spec_lookup(now, k) {
            Some(v2) => {
                assert(has_override(now, k, v2));
                lemma_lookup_unique(before, k, v2);
            },
            None => {
                if k != key {
                    match spec_lookup(before, k) {
                        Some(v) => {
                            assert(has_override(now, k, v));
                            lemma_lookup_unique(now, k, v);
                        },
                        None => {},
                    }
                }
            },
        }
    }
}

/// Skipping past an entry whose key differs leaves the lookup unchanged.
proof fn lemma_lookup_skip_step(entries: Seq<(String, String)>, k: Seq<char>, i: int)
    requires
        0 <= i < entries.len(),
        entries[i].0@ != k,
    ensures
        spec_lookup(entries.skip(i), k) == spec_lookup(entries.skip(i + 1), k),
{
    assert(entries.skip(i)[0] == entries[i]);
    assert(entries.skip(i).drop_first() =~= entries.skip(i + 1));
}

/// With unique keys, the override table maps each path to at most one name.
pub proof fn lemma_override_functional(
    entries: Seq<(String, String)>,
    k: Seq<char>,
    v1: Seq<char>,
    v2: Seq<char>,
)
    requires
        overrides_wf(entries),
        has_override(entries, k, v1),
        has_override(entries, k, v2),
    ensures
        v1 == v2,
{
    let i1 = choose|i: int|
        0 <= i < entries.len() && (#[trigger] entries[i]).0@ == k && entries[i].1@ == v1;
    let i2 = choose|i: int|
        0 <= i < entries.len() && (#[trigger] entries[i]).0@ == k && entries[i].1@ == v2;
    if i1 != i2 {
        assert((entries[i1]).0@ != (entries[i2]).0@);
    }
}

/// The textual rendering of a `true`/`false` flag.
pub open spec fn spec_bool_text(b: bool) -> Seq<char> {
    if b {
        "true"@
    } else {
        "false"@
    }
}

/// The display text of a configuration.
pub open spec fn spec_config_text(c: Config) -> Seq<char> {
    "Verylup configuration\n"@ + "  offline: "@ + spec_bool_text(c.offline) + "\n"@ + (
    match c.proxy {
        Some(p) => "  proxy: "@ + p@ + "\n"@,
        None => Seq::<char>::empty(),
    }) + "  self_update: "@ + spec_bool_text(c.self_update) + "\n"@
}

/// The textual rendering of a flag value.
pub fn bool_text(b: bool) -> (r: &'static str)
    ensures
        r@ == spec_bool_text(b),
{
    if b {
        "true"
    } else {
        "false"
    }
}

impl Config {
    /// The configuration invariant: override keys are unique.
    pub open spec fn wf(self) -> bool {
        overrides_wf(self.overrides@)
    }

    /// The structural defaults, used whenever no preference file can be
    /// read: no default toolchain, no overrides, online, no proxy,
    /// self-update enabled.
    pub fn new_default() -> (r: Config)
        ensures
            r.default_toolchain is None,
            r.overrides@.len() == 0,
            r.offline == false,
            r.proxy is None,
            r.self_update == true,
            r.wf(),
    {
        Config {
            default_toolchain: None,
            overrides: Vec::new(),
            offline: false,
            proxy: None,
            self_update: default_self_update(),
        }
    }

    /// Set a recognized configuration key to a validated value.
    ///
    /// `offline` takes exactly `true` or `false`; `proxy` takes any string.
    /// Every other key is rejected, and a rejected call leaves the
    /// configuration unchanged.
    pub fn set(&mut self, key: &str, value: &str) -> (r: Result<(), Error>)
        ensures
            key@ == "offline"@ && value@ == "true"@ ==> r is Ok && *final(self) == (Config {
                offline: true,
                ..*old(self)
            }),
            key@ == "offline"@ && value@ == "false"@ ==> r is Ok && *final(self) == (Config {
                offline: false,
                ..*old(self)
            }),
            key@ == "offline"@ && value@ != "true"@ && value@ != "false"@ ==> r == Err::<
                (),
                Error,
            >(Error::ParseError) && *final(self) == *old(self),
            key@ == "proxy"@ ==> r is Ok && (final(self).proxy matches Some(p) && p@ == value@)
                && final(self).default_toolchain == old(self).default_toolchain
                && final(self).overrides == old(self).overrides
                && final(self).offline == old(self).offline
                && final(self).self_update == old(self).self_update,
            key@ != "offline"@ && key@ != "proxy"@ ==> r == Err::<(), Error>(
                Error::UnknownConfigKey,
            ) && *final(self) == *old(self),
    {
        proof {
            reveal_strlit("offline");
            reveal_strlit("proxy");
            reveal_strlit("true");
            reveal_strlit("false");
            assert("offline"@.len() == 7);
            assert("proxy"@.len() == 5);
            assert("true"@.len() == 4);
            assert("false"@.len() == 5);
        }
        if str_eq(key, "offline") {
            if str_eq(value, "true") {
                self.offline = true;
                Ok(())
            } else if str_eq(value, "false") {
                self.offline = false;
                Ok(())
            } else {
                Err(Error::ParseError)
            }
        } else if str_eq(key, "proxy") {
            self.proxy = Some(value.to_owned());
            Ok(())
        } else {
            Err(Error::UnknownConfigKey)
        }
    }

    /// Reset a recognized configuration key to its default.
    ///
    /// Every key outside the recognized set is rejected and leaves the
    /// configuration unchanged.
    pub fn unset(&mut self, key: &str) -> (r: Result<(), Error>)
        ensures
            key@ == "offline"@ ==> r is Ok && *final(self) == (Config {
                offline: false,
                ..*old(self)
            }),
            key@ == "proxy"@ ==> r is Ok && *final(self) == (Config {
                proxy: None,
                ..*old(self)
            }),
            key@ != "offline"@ && key@ != "proxy"@ ==> r == Err::<(), Error>(
                Error::UnknownConfigKey,
            ) && *final(self) == *old(self),
    {
        proof {
            reveal_strlit("offline");
            reveal_strlit("proxy");
            assert("offline"@.len() == 7);
            assert("proxy"@.len() == 5);
        }
        if str_eq(key, "offline") {
            self.offline = false;
            Ok(())
        } else if str_eq(key, "proxy") {
            self.proxy = None;
            Ok(())
        } else {
            Err(Error::UnknownConfigKey)
        }
    }

    /// The toolchain name mapped to `path` by the override table, if any.
    pub fn get_override(&self, path: &str) -> (r: Option<String>)
        requires
            self.wf(),
        ensures
            match r {
                Some(v) => has_override(self.overrides@, path@, v@) && spec_lookup(
                    self.overrides@,
                    path@,
                ) == Some(v@),
                None => spec_lookup(self.overrides@, path@) is None && forall|v: Seq<char>|
                    !has_override(self.overrides@, path@, v),
            },
    {
        let n = self.overrides.len();
        let mut i: usize = 0;
        proof {
            assert(self.overrides@.skip(0) =~= self.overrides@);
        }
        while i < n
            invariant
                n == self.overrides@.len(),
                0 <= i <= n,
                forall|k: int| 0 <= k < i ==> (#[trigger] self.overrides@[k]).0@ != path@,
                spec_lookup(self.overrides@, path@) == spec_lookup(
                    self.overrides@.skip(i as int),
                    path@,
                ),
            decreases n - i,
        {
            if str_eq(self.overrides[i].0.as_str(), path) {
                let v = self.overrides[i].1.clone();
                proof {
                    assert((#[trigger] self.overrides@[i as int]).0@ == path@
                        && self.overrides@[i as int].1@ == v@);
                    assert(self.overrides@.skip(i as int)[0] == self.overrides@[i as int]);
                }
                return Some(v);
            }
            proof {
                lemma_lookup_skip_step(self.overrides@, path@, i as int);
            }
            i += 1;
        }
        proof {
            assert(self.overrides@.skip(n as int).len() == 0);
        }
        proof {
            assert forall|v: Seq<char>| !has_override(self.overrides@, path@, v) by {
                if has_override(self.overrides@, path@, v) {
                    let idx = choose|idx: int|
                        0 <= idx < self.overrides@.len() && (#[trigger] self.overrides@[idx]).0@
                            == path@ && self.overrides@[idx].1@ == v;
                }
            }
        }
        None
    }

    /// Map `path` to `name` in the override table, replacing any previous
    /// entry for the same path.
    pub fn set_override(&mut self, path: String, name: String)
        requires
            old(self).wf(),
        ensures
            final(self).wf(),
            forall|k: Seq<char>, v: Seq<char>|
                has_override(final(self).overrides@, k, v) <==> (if k == path@ {
                    v == name@
                } else {
                    has_override(old(self).overrides@, k, v)
                }),
            forall|k: Seq<char>|
                #[trigger] spec_lookup(final(self).overrides@, k) == (if k == path@ {
                    Some(name@)
                } else {
                    spec_lookup(old(self).overrides@, k)
                }),
            final(self).default_toolchain == old(self).default_toolchain,
            final(self).offline == old(self).offline,
            final(self).proxy == old(self).proxy,
            final(self).self_update == old(self).self_update,
    {
        let ghost before = self.overrides@;
        let n = self.overrides.len();
        let mut i: usize = 0;
        while i < n
            invariant
                *self == *old(self),
                before == self.overrides@,
                n == before.len(),
                0 <= i <= n,
                overrides_wf(before),
                forall|k: int| 0 <= k < i ==> (#[trigger] before[k]).0@ != path@,
            decreases n - i,
        {
            if str_eq(self.overrides[i].0.as_str(), path.as_str()) {
                let entry = (path, name);
                self.overrides.set(i, entry);
                proof {
                    let now = self.overrides@;
                    assert(now == before.update(i as int, (entry.0, entry.1)));
                    assert(overrides_wf(now)) by {
                        assert forall|a: int, b: int|
                            0 <= a < b < now.len() implies (#[trigger] now[a]).0@ != (
                        #[trigger] now[b]).0@ by {
                            if a != i && b != i {
                                assert(now[a] == before[a] && now[b] == before[b]);
                            } else if a == i {
                                assert(now[b] == before[b]);
                                assert(before[i as int].0@ != before[b].0@);
                            } else {
                                assert(now[a] == before[a]);
                                assert(before[a].0@ != before[i as int].0@);
                            }
                        }
                    }
                    assert forall|k: Seq<char>, v: Seq<char>|
                        has_override(now, k, v) <==> (if k == entry.0@ {
                            v == entry.1@
                        } else {
                            has_override(before, k, v)
                        }) by {
                        if k == entry.0@ {
                            if has_override(now, k, v) {
                                let idx = choose|idx: int|
                                    0 <= idx < now.len() && (#[trigger] now[idx]).0@ == k
                                        && now[idx].1@ == v;
                                if idx != i {
                                    assert(before[idx].0@ == k && before[i as int].0@ == k);
                                }
                            }
                            if v == entry.1@ {
                                assert((#[trigger] now[i as int]).0@ == k && now[i as int].1@
                                    == v);
                            }
                        } else {
                            if has_override(now, k, v) {
                                let idx = choose|idx: int|
                                    0 <= idx < now.len() && (#[trigger] now[idx]).0@ == k
                                        && now[idx].1@ == v;
                                assert(idx != i);
                                assert((#[trigger] before[idx]).0@ == k && before[idx].1@ == v);
                            }
                            if has_override(before, k, v) {
                                let idx = choose|idx: int|
                                    0 <= idx < before.len() && (#[trigger] before[idx]).0@ == k
                                        && before[idx].1@ == v;
                                assert(idx != i);
                                assert((#[trigger] now[idx]).0@ == k && now[idx].1@ == v);
                            }
                        }
                    }
                    lemma_lookup_after_insert(before, now, entry.0@, entry.1@);
                }
                return ;
            }
            i += 1;
        }
        let entry = (path, name);
        self.overrides.push(entry);
        proof {
            let now = self.overrides@;
            assert(now == before.push((entry.0, entry.1)));
            assert(overrides_wf(now)) by {
                assert forall|a: int, b: int|
                    0 <= a < b < now.len() implies (#[trigger] now[a]).0@ != (
                #[trigger] now[b]).0@ by {
                    if b == now.len() - 1 {
                        assert(now[a] == before[a]);
                        assert(before[a].0@ != entry.0@);
                    } else {
                        assert(now[a] == before[a] && now[b] == before[b]);
                    }
                }
            }
            assert forall|k: Seq<char>, v: Seq<char>|
                has_override(now, k, v) <==> (if k == entry.0@ {
                    v == entry.1@
                } else {
                    has_override(before, k, v)
                }) by {
                if k == entry.0@ {
                    if has_override(now, k, v) {
                        let idx = choose|idx: int|
                            0 <= idx < now.len() && (#[trigger] now[idx]).0@ == k && now[idx].1@
                                == v;
                        if idx != now.len() - 1 {
                            assert(before[idx].0@ == k);
                        }
                    }
                    if v == entry.1@ {
                        assert((#[trigger] now[now.len() - 1]).0@ == k && now[now.len() - 1].1@
                            == v);
                    }
                } else {
                    if has_override(now, k, v) {
                        let idx = choose|idx: int|
                            0 <= idx < now.len() && (#[trigger] now[idx]).0@ == k && now[idx].1@
                                == v;
                        assert(idx != now.len() - 1);
                        assert((#[trigger] before[idx]).0@ == k && before[idx].1@ == v);
                    }
                    if has_override(before, k, v) {
                        let idx = choose|idx: int|
                            0 <= idx < before.len() && (#[trigger] before[idx]).0@ == k
                                && before[idx].1@ == v;
                        assert((#[trigger] now[idx]).0@ == k && now[idx].1@ == v);
                    }
                }
            }
            lemma_lookup_after_insert(before, now, entry.0@, entry.1@);
        }
    }

    /// Remove the override for `path`, if present; reports whether one was.
    pub fn unset_override(&mut self, path: &str) -> (removed: bool)
        requires
            old(self).wf(),
        ensures
            final(self).wf(),
            forall|k: Seq<char>, v: Seq<char>|
                has_override(final(self).overrides@, k, v) <==> (k != path@ && has_override(
                    old(self).overrides@,
                    k,
                    v,
                )),
            forall|k: Seq<char>|
                #[trigger] spec_lookup(final(self).overrides@, k) == (if k == path@ {
                    None
                } else {
                    spec_lookup(old(self).overrides@, k)
                }),
            removed <==> exists|v: Seq<char>| has_override(old(self).overrides@, path@, v),
            final(self).default_toolchain == old(self).default_toolchain,
            final(self).offline == old(self).offline,
            final(self).proxy == old(self).proxy,
            final(self).self_update == old(self).self_update,
    {
        let ghost before = self.overrides@;
        let n = self.overrides.len();
        let mut i: usize = 0;
        while i < n
            invariant
                *self == *old(self),
                before == self.overrides@,
                n == before.len(),
                0 <= i <= n,
                overrides_wf(before),
                forall|k: int| 0 <= k < i ==> (#[trigger] before[k]).0@ != path@,
            decreases n - i,
        {
            if str_eq(self.overrides[i].0.as_str(), path) {
                self.overrides.remove(i);
                proof {
                    let now = self.overrides@;
                    assert(now == before.remove(i as int));
                    assert(overrides_wf(now)) by {
                        assert forall|a: int, b: int|
                            0 <= a < b < now.len() implies (#[trigger] now[a]).0@ != (
                        #[trigger] now[b]).0@ by {
                            let a0 = if a < i { a } else { a + 1 };
                            let b0 = if b < i { b } else { b + 1 };
                            assert(now[a] == before[a0] && now[b] == before[b0]);
                        }
                    }
                    assert forall|k: Seq<char>, v: Seq<char>|
                        has_override(now, k, v) <==> (k != path@ && has_override(
                            before,
                            k,
                            v,
                        )) by {
                        if has_override(now, k, v) {
                            let idx = choose|idx: int|
                                0 <= idx < now.len() && (#[trigger] now[idx]).0@ == k
                                    && now[idx].1@ == v;
                            let idx0 = if idx < i { idx } else { idx + 1 };
                            assert(now[idx] == before[idx0]);
                            assert((#[trigger] before[idx0]).0@ == k && before[idx0].1@ == v);
                            if k == path@ {
                                assert(before[idx0].0@ == before[i as int].0@);
                            }
                        }
                        if k != path@ && has_override(before, k, v) {
                            let idx = choose|idx: int|
                                0 <= idx < before.len() && (#[trigger] before[idx]).0@ == k
                                    && before[idx].1@ == v;
                            assert(idx != i);
                            let idx1 = if idx < i { idx } else { idx - 1 };
                            assert((#[trigger] now[idx1]).0@ == k && now[idx1].1@ == v);
                        }
                    }
                    assert(exists|v: Seq<char>|
                        has_override(before, path@, v)) by {
                        assert(has_override(before, path@, before[i as int].1@));
                    }
                    lemma_lookup_after_remove(before, now, path@);
                }
                return true;
            }
            i += 1;
        }
        proof {
            assert forall|k: Seq<char>, v: Seq<char>|
                has_override(self.overrides@, k, v) <==> (k != path@ && has_override(
                    before,
                    k,
                    v,
                )) by {
                if has_override(before, k, v) && k == path@ {
                    let idx = choose|idx: int|
                        0 <= idx < before.len() && (#[trigger] before[idx]).0@ == k
                            && before[idx].1@ == v;
                }
            }
            lemma_lookup_has_override(before, path@);
            if spec_lookup(before, path@) is Some {
                let v = spec_lookup(before, path@)->Some_0;
                let idx = choose|idx: int|
                    0 <= idx < before.len() && (#[trigger] before[idx]).0@ == path@
                        && before[idx].1@ == v;
            }
        }
        false
    }

    /// The display text of the configuration: the offline flag, the proxy
    /// when one is set, and the self-update flag.
    pub fn show(&self) -> (r: String)
        ensures
            r@ == spec_config_text(*self),
    {
        let mut out = String::new();
        out.append("Verylup configuration\n");
        out.append("  offline: ");
        out.append(bool_text(self.offline));
        out.append("\n");
        match &self.proxy {
            Some(p) => {
                out.append("  proxy: ");
                out.append(p.as_str());
                out.append("\n");
            },
            None => {},
        }
        out.append("  self_update: ");
        out.append(bool_text(self.self_update));
        out.append("\n");
        proof {
            assert(out@ =~= spec_config_text(*self));
        }
        out
    }
}

} // verus!
