//! Secret store: provider API key values kept outside the main config, as a
//! map `env_name -> value`. A key resolves from the store first, then from
//! the environment variable of the same name; values are never shown, only
//! where they come from (`store` | `env` | `missing`).

use vstd::prelude::*;
use crate::text::{owned, str_eq};

verus! {

pub struct SecretStore {
    path: String,
    values: Vec<(String, String)>,
}

pub open spec fn keys_of(e: Seq<(Seq<char>, Seq<char>)>) -> Seq<Seq<char>> {
    e.map_values(|p: (Seq<char>, Seq<char>)| p.0)
}

/// The stored value of `name`, if any.
pub open spec fn stored(e: Seq<(Seq<char>, Seq<char>)>, name: Seq<char>) -> Option<Seq<char>> {
    match crate::jobs::key_pos(keys_of(e), name) {
        Some(i) => Some(e[i].1),
        None => None,
    }
}

/// A value that counts: present and not empty.
pub open spec fn non_empty(v: Option<Seq<char>>) -> Option<Seq<char>> {
    match v {
        Some(s) => if s.len() > 0 {
            Some(s)
        } else {
            None
        },
        None => None,
    }
}

/// What `name` resolves to when the environment holds `env`: a non-empty
/// stored value, else a non-empty environment value.
pub open spec fn resolved(
    e: Seq<(Seq<char>, Seq<char>)>,
    name: Seq<char>,
    env: Option<Seq<char>>,
) -> Option<Seq<char>> {
    match non_empty(stored(e, name)) {
        Some(v) => Some(v),
        None => non_empty(env),
    }
}

/// Where the value of `name` comes from.
pub open spec fn source_of(
    e: Seq<(Seq<char>, Seq<char>)>,
    name: Seq<char>,
    env: Option<Seq<char>>,
) -> Seq<char> {
    if non_empty(stored(e, name)) is Some {
        "store"@
    } else if non_empty(env) is Some {
        "env"@
    } else {
        "missing"@
    }
}

/// The entries after storing `value` under `name`.
pub open spec fn with_secret(
    e: Seq<(Seq<char>, Seq<char>)>,
    name: Seq<char>,
    value: Seq<char>,
) -> Seq<(Seq<char>, Seq<char>)> {
    match crate::jobs::key_pos(keys_of(e), name) {
        Some(i) => e.update(i, (name, value)),
        None => e.push((name, value)),
    }
}

/// The entries after removing `name`.
pub open spec fn without_secret(e: Seq<(Seq<char>, Seq<char>)>, name: Seq<char>) -> Seq<
    (Seq<char>, Seq<char>),
> {
    match crate::jobs::key_pos(keys_of(e), name) {
        Some(i) => e.remove(i),
        None => e,
    }
}

/// The `name -> value` entries that `toml` reads from a secrets file, in key
/// order (`None` when the text is not a TOML table of strings).
pub uninterp spec fn toml_secrets(text: Seq<char>) -> Option<Seq<(Seq<char>, Seq<char>)>>;

pub open spec fn pair_views(v: Seq<(String, String)>) -> Seq<(Seq<char>, Seq<char>)> {
    v.map_values(|p: (String, String)| (p.0@, p.1@))
}

/// Reads a secrets file's text with `toml::from_str` into a
/// `BTreeMap<String, String>` and lists its entries. Claimed: the result is
/// `toml_secrets` of the text, and, coming from a map, no name occurs twice.
#[verifier::external_body]
fn parse_secrets(text: &str) -> (r: Option<Vec<(String, String)>>)
    ensures
        match r {
            Some(v) => toml_secrets(text@) == Some(pair_views(v@)) && crate::jobs::distinct(
                keys_of(pair_views(v@)),
            ),
            None => toml_secrets(text@) is None,
        },
{
    let m: std::collections::BTreeMap<String, String> = toml::from_str(text).ok()?;
    Some(m.into_iter().collect())
}

impl View for SecretStore {
    type V = Seq<(Seq<char>, Seq<char>)>;

    closed spec fn view(&self) -> Seq<(Seq<char>, Seq<char>)> {
        self.values@.map_values(|p: (String, String)| (p.0@, p.1@))
    }
}

impl SecretStore {
    /// No two entries share a name.
    pub open spec fn well_formed(&self) -> bool {
        crate::jobs::distinct(keys_of(self@))
    }

    pub closed spec fn file(&self) -> Seq<char> {
        self.path@
    }

    /// An empty store persisted at `path`.
    pub fn new(path: &str) -> (s: Self)
        ensures
            s@.len() == 0,
            s.well_formed(),
            s.file() == path@,
    {
        SecretStore { path: owned(path), values: Vec::new() }
    }

    /// The store persisted at `path`, from the file's text as read (`None`
    /// when it could not be read): its entries when the text is a TOML table
    /// of strings, else empty.
    pub fn from_file_text(path: &str, text: Option<&str>) -> (s: Self)
        ensures
            s.well_formed(),
            s.file() == path@,
            s@ == match text {
                Some(t) => match toml_secrets(t@) {
                    Some(e) => e,
                    None => Seq::empty(),
                },
                None => Seq::empty(),
            },
    {
        let values = match text {
            Some(t) => match parse_secrets(t) {
                Some(v) => v,
                None => Vec::new(),
            },
            None => Vec::new(),
        };
        let s = SecretStore { path: owned(path), values };
        assert(s@ =~= pair_views(s.values@));
        s
    }

    /// The file the store is persisted to.
    pub fn path(&self) -> (r: &str)
        ensures
            r@ == self.file(),
    {
        self.path.as_str()
    }

    fn position(&self, name: &str) -> (r: Option<usize>)
        requires
            self.well_formed(),
        ensures
            match r {
                Some(i) => i < self@.len() && crate::jobs::key_pos(keys_of(self@), name@) == Some(
                    i as int,
                ),
                None => crate::jobs::key_pos(keys_of(self@), name@) is None,
            },
    {
        let mut i: usize = 0;
        while i < self.values.len()
            invariant
                i <= self@.len(),
                self@.len() == self.values@.len(),
                forall|j: int| 0 <= j < i ==> keys_of(self@)[j] != name@,
            decreases self.values.len() - i,
        {
            if str_eq(self.values[i].0.as_str(), name) {
                proof {
                    let k = keys_of(self@);
                    assert(k[i as int] == name@);
                    let c = choose|c: int|
                        0 <= c < k.len() && k[c] == name@ && forall|j: int| 0 <= j < c ==> k[j] != name@;
                    if c < i {
                    } else if c > i {
                        assert(k[i as int] != name@);
                    }
                }
                return Some(i);
            }
            i += 1;
        }
        None
    }

    /// The stored value of `name`, if the store holds one.
    pub fn stored_value(&self, name: &str) -> (r: Option<String>)
        requires
            self.well_formed(),
        ensures
            match stored(self@, name@) {
                Some(v) => r matches Some(x) && x@ == v,
                None => r is None,
            },
    {
        match self.position(name) {
            Some(i) => Some(self.values[i].1.clone()),
            None => None,
        }
    }

    /// The value of `name` given the environment variable's value `env`:
    /// the store's value when it is not empty, else the environment's when
    /// that is not empty.
    pub fn resolve(&self, name: &str, env: Option<&str>) -> (r: Option<String>)
        requires
            self.well_formed(),
        ensures
            match resolved(self@, name@, opt_ref_view(env)) {
                Some(v) => r matches Some(x) && x@ == v,
                None => r is None,
            },
    {
        match self.stored_value(name) {
            Some(v) => {
                if !v.as_str().is_empty() {
                    return Some(v);
                }
            },
            None => {},
        }
        match env {
            Some(e) => if e.is_empty() {
                None
            } else {
                Some(owned(e))
            },
            None => None,
        }
    }

    /// Where the value of `name` comes from: `store`, `env` or `missing`.
    pub fn source(&self, name: &str, env: Option<&str>) -> (r: &'static str)
        requires
            self.well_formed(),
        ensures
            r@ == source_of(self@, name@, opt_ref_view(env)),
    {
        let in_store = match self.stored_value(name) {
            Some(v) => !v.as_str().is_empty(),
            None => false,
        };
        if in_store {
            "store"
        } else if match env {
            Some(e) => !e.is_empty(),
            None => false,
        } {
            "env"
        } else {
            "missing"
        }
    }

    /// Stores `value` under `name` (replacing an earlier value).
    pub fn set(&mut self, name: &str, value: &str)
        requires
            old(self).well_formed(),
        ensures
            final(self).well_formed(),
            final(self)@ == with_secret(old(self)@, name@, value@),
            final(self).file() == old(self).file(),
    {
        let ghost before = self@;
        match self.position(name) {
            Some(i) => {
                self.values.set(i, (owned(name), owned(value)));
                assert(self@ =~= before.update(i as int, (name@, value@)));
                assert(keys_of(self@) =~= keys_of(before));
            },
            None => {
                self.values.push((owned(name), owned(value)));
                assert(self@ =~= before.push((name@, value@)));
                assert(keys_of(self@) =~= keys_of(before).push(name@));
                proof {
                    crate::jobs::lemma_push_new_key(keys_of(before), name@);
                }
            },
        }
    }

    /// Removes `name` from the store (an environment value of the same name
    /// still resolves).
    pub fn clear(&mut self, name: &str)
        requires
            old(self).well_formed(),
        ensures
            final(self).well_formed(),
            final(self)@ == without_secret(old(self)@, name@),
            final(self).file() == old(self).file(),
    {
        let ghost before = self@;
        match self.position(name) {
            Some(i) => {
                self.values.remove(i);
                assert(self@ =~= before.remove(i as int));
                assert(keys_of(self@) =~= keys_of(before).remove(i as int));
                proof {
                    crate::jobs::lemma_remove_keeps_distinct(keys_of(before), i as int);
                }
            },
            None => {},
        }
    }

    /// The stored `(name, value)` pairs, in the order they were first set.
    pub fn entries(&self) -> (r: Vec<(String, String)>)
        ensures
            r@.map_values(|p: (String, String)| (p.0@, p.1@)) == self@,
    {
        let mut r: Vec<(String, String)> = Vec::new();
        let mut i: usize = 0;
        while i < self.values.len()
            invariant
                i <= self.values@.len(),
                r@.map_values(|p: (String, String)| (p.0@, p.1@)) =~= self@.take(i as int),
            decreases self.values.len() - i,
        {
            let ghost before = r@.map_values(|p: (String, String)| (p.0@, p.1@));
            r.push((self.values[i].0.clone(), self.values[i].1.clone()));
            assert(r@.map_values(|p: (String, String)| (p.0@, p.1@)) =~= before.push(self@[i as int]));
            assert(self@.take(i + 1) =~= self@.take(i as int).push(self@[i as int]));
            i += 1;
        }
        assert(self@.take(self@.len() as int) =~= self@);
        r
    }
}

pub open spec fn opt_ref_view(o: Option<&str>) -> Option<Seq<char>> {
    match o {
        Some(s) => Some(s@),
        None => None,
    }
}

/// A value stored under a name resolves to that value, whatever the
/// environment holds, as long as it is not empty.
pub proof fn law_store_wins(
    e: Seq<(Seq<char>, Seq<char>)>,
    name: Seq<char>,
    value: Seq<char>,
    env: Option<Seq<char>>,
)
    requires
        crate::jobs::distinct(keys_of(e)),
        value.len() > 0,
    ensures
        resolved(with_secret(e, name, value), name, env) == Some(value),
        source_of(with_secret(e, name, value), name, env) == "store"@,
{
    lemma_stored_after_set(e, name, value);
}

/// After a name is cleared from the store, it resolves from the environment
/// alone.
pub proof fn law_clear_falls_back_to_env(
    e: Seq<(Seq<char>, Seq<char>)>,
    name: Seq<char>,
    env: Option<Seq<char>>,
)
    requires
        crate::jobs::distinct(keys_of(e)),
    ensures
        resolved(without_secret(e, name), name, env) == non_empty(env),
{
    lemma_absent_after_clear(e, name);
}

proof fn lemma_stored_after_set(e: Seq<(Seq<char>, Seq<char>)>, name: Seq<char>, value: Seq<char>)
    requires
        crate::jobs::distinct(keys_of(e)),
    ensures
        stored(with_secret(e, name, value), name) == Some(value),
{
    let after = with_secret(e, name, value);
    match crate::jobs::key_pos(keys_of(e), name) {
        Some(i) => {
            assert(keys_of(after) =~= keys_of(e));
        },
        None => {
            assert(keys_of(after) =~= keys_of(e).push(name));
            crate::jobs::lemma_push_new_key(keys_of(e), name);
        },
    }
}

proof fn lemma_absent_after_clear(e: Seq<(Seq<char>, Seq<char>)>, name: Seq<char>)
    requires
        crate::jobs::distinct(keys_of(e)),
    ensures
        stored(without_secret(e, name), name) is None,
{
    let after = without_secret(e, name);
    match crate::jobs::key_pos(keys_of(e), name) {
        Some(i) => {
            let k = keys_of(e);
            assert(keys_of(after) =~= k.remove(i));
            assert(k[i] == name);
            assert forall|j: int| 0 <= j < keys_of(after).len() implies keys_of(after)[j] != name by {
                if j < i {
                    assert(keys_of(after)[j] == k[j]);
                } else {
                    assert(keys_of(after)[j] == k[j + 1]);
                }
            }
        },
        None => {},
    }
}

} // verus!
