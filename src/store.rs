//! The variable store: a mapping from variable names to string values that
//! lives as long as the session. Entries keep the order in which their names
//! were first stored; that is also the order in which names are substituted
//! into command arguments.

use vstd::prelude::*;

use crate::text::{chars_of, replace_chars, replaced, string_of};

verus! {

/// No name occurs twice among the entries.
pub open spec fn keys_unique(s: Seq<(Seq<char>, Seq<char>)>) -> bool {
    forall|i: int, j: int| 0 <= i < j < s.len() ==> s[i].0 != s[j].0
}

/// Whether some entry has the name `k`.
pub open spec fn has_key(s: Seq<(Seq<char>, Seq<char>)>, k: Seq<char>) -> bool {
    exists|i: int| 0 <= i < s.len() && s[i].0 == k
}

/// The position of the entry named `k`, where there is one.
pub open spec fn key_index(s: Seq<(Seq<char>, Seq<char>)>, k: Seq<char>) -> int {
    choose|i: int| 0 <= i < s.len() && s[i].0 == k
}

/// The value stored under `k`, if any.
pub open spec fn lookup(s: Seq<(Seq<char>, Seq<char>)>, k: Seq<char>) -> Option<Seq<char>> {
    if has_key(s, k) {
        Some(s[key_index(s, k)].1)
    } else {
        None
    }
}

/// The entries after storing `v` under `k`: an entry of that name is
/// overwritten in place, otherwise a new entry goes at the end.
pub open spec fn stored(s: Seq<(Seq<char>, Seq<char>)>, k: Seq<char>, v: Seq<char>) -> Seq<
    (Seq<char>, Seq<char>),
> {
    if has_key(s, k) {
        s.update(key_index(s, k), (k, v))
    } else {
        s.push((k, v))
    }
}

/// `arg` after replacing, entry by entry in order, every occurrence of the
/// entry's name by its value.
pub open spec fn substituted(arg: Seq<char>, s: Seq<(Seq<char>, Seq<char>)>) -> Seq<char>
    decreases s.len(),
{
    if s.len() == 0 {
        arg
    } else {
        substituted(replaced(arg, s[0].0, s[0].1), s.drop_first())
    }
}

/// The view of an optional string.
pub open spec fn opt_view(o: Option<String>) -> Option<Seq<char>> {
    match o {
        Some(s) => Some(s@),
        None => None,
    }
}

/// A unique name has exactly one position.
pub proof fn lemma_key_index(s: Seq<(Seq<char>, Seq<char>)>, k: Seq<char>, i: int)
    requires
        keys_unique(s),
        0 <= i < s.len(),
        s[i].0 == k,
    ensures
        has_key(s, k),
        key_index(s, k) == i,
{
    assert(has_key(s, k));
    let j = key_index(s, k);
    if j != i {
        if j < i {
            assert(s[j].0 != s[i].0);
        } else {
            assert(s[i].0 != s[j].0);
        }
    }
}

/// What is read back after a store: the new value under its name, and under
/// every other name what was there before.
pub proof fn lemma_lookup_stored(
    s: Seq<(Seq<char>, Seq<char>)>,
    k: Seq<char>,
    v: Seq<char>,
    q: Seq<char>,
)
    requires
        keys_unique(s),
    ensures
        keys_unique(stored(s, k, v)),
        lookup(stored(s, k, v), q) == if q == k {
            Some(v)
        } else {
            lookup(s, q)
        },
{
    let t = stored(s, k, v);
    if has_key(s, k) {
        let i = key_index(s, k);
        assert(keys_unique(t));
        if has_key(t, q) {
            let j = key_index(t, q);
            if q == k {
                lemma_key_index(t, q, i);
            } else {
                assert(j != i);
                lemma_key_index(s, q, j);
            }
        } else {
            if q == k {
                assert(t[i].0 == q);
            } else if has_key(s, q) {
                let j = key_index(s, q);
                assert(t[j].0 == q);
            }
        }
    } else {
        assert(keys_unique(t));
        let n = s.len() as int;
        if q == k {
            lemma_key_index(t, q, n);
        } else if has_key(t, q) {
            let j = key_index(t, q);
            lemma_key_index(s, q, j);
        } else if has_key(s, q) {
            let j = key_index(s, q);
            assert(t[j].0 == q);
        }
    }
}

/// The variable store of a session.
pub struct Vars {
    entries: Vec<(String, String)>,
}

impl View for Vars {
    type V = Seq<(Seq<char>, Seq<char>)>;

    closed spec fn view(&self) -> Seq<(Seq<char>, Seq<char>)> {
        self.entries@.map_values(|e: (String, String)| (e.0@, e.1@))
    }
}

impl Vars {
    /// The store holds each name at most once.
    pub open spec fn wf(&self) -> bool {
        keys_unique(self@)
    }

    /// An empty store.
    pub fn new() -> (r: Vars)
        ensures
            r.wf(),
            r@ == Seq::<(Seq<char>, Seq<char>)>::empty(),
    {
        let r = Vars { entries: Vec::new() };
        assert(r@ =~= Seq::<(Seq<char>, Seq<char>)>::empty());
        r
    }

    /// The number of variables stored.
    pub fn len(&self) -> (r: usize)
        ensures
            r == self@.len(),
    {
        self.entries.len()
    }

    /// The position of the entry named `name`, if any.
    fn find(&self, name: &String) -> (r: Option<usize>)
        requires
            self.wf(),
        ensures
            match r {
                Some(i) => i < self@.len() && self@[i as int].0 == name@ && key_index(self@, name@)
                    == i,
                None => !has_key(self@, name@),
            },
    {
        let mut i: usize = 0;
        while i < self.entries.len()
            invariant
                self.wf(),
                i <= self.entries.len(),
                self@.len() == self.entries@.len(),
                forall|j: int| 0 <= j < i ==> self@[j].0 != name@,
            decreases self.entries.len() - i,
        {
            if self.entries[i].0 == *name {
                proof {
                    lemma_key_index(self@, name@, i as int);
                }
                return Some(i);
            }
            i = i + 1;
        }
        None
    }

    /// The value stored under `name`, if any.
    pub fn get(&self, name: &str) -> (r: Option<String>)
        requires
            self.wf(),
        ensures
            opt_view(r) == lookup(self@, name@),
    {
        let key = name.to_owned();
        match self.find(&key) {
            Some(i) => Some(self.entries[i].1.clone()),
            None => None,
        }
    }

    /// Stores `value` under `name`, overwriting what was there.
    pub fn set(&mut self, name: String, value: String)
        requires
            old(self).wf(),
        ensures
            final(self).wf(),
            final(self)@ == stored(old(self)@, name@, value@),
    {
        proof {
            lemma_lookup_stored(self@, name@, value@, name@);
        }
        match self.find(&name) {
            Some(i) => {
                let ghost k = name@;
                let ghost v = value@;
                self.entries.set(i, (name, value));
                assert(self@ =~= old(self)@.update(i as int, (k, v)));
            },
            None => {
                let ghost k = name@;
                let ghost v = value@;
                self.entries.push((name, value));
                assert(self@ =~= old(self)@.push((k, v)));
            },
        }
    }

    /// The entries of the store, in order.
    pub fn snapshot(&self) -> (r: Vec<(String, String)>)
        ensures
            r@.map_values(|e: (String, String)| (e.0@, e.1@)) == self@,
    {
        let mut r: Vec<(String, String)> = Vec::new();
        let mut i: usize = 0;
        while i < self.entries.len()
            invariant
                i <= self.entries.len(),
                self@.len() == self.entries@.len(),
                r@.map_values(|e: (String, String)| (e.0@, e.1@)) == self@.subrange(0, i as int),
            decreases self.entries.len() - i,
        {
            let ghost before = r@;
            assert(self@[i as int] == (self.entries@[i as int].0@, self.entries@[i as int].1@));
            r.push((self.entries[i].0.clone(), self.entries[i].1.clone()));
            assert(r@.map_values(|e: (String, String)| (e.0@, e.1@)) =~= before.map_values(
                |e: (String, String)| (e.0@, e.1@),
            ).push(self@[i as int]));
            assert(r@.map_values(|e: (String, String)| (e.0@, e.1@)) =~= self@.subrange(0, i + 1));
            i = i + 1;
        }
        assert(self@.subrange(0, i as int) =~= self@);
        r
    }

    /// `arg` with the name of every stored variable replaced by its value,
    /// variable by variable in the order of the store.
    pub fn substitute(&self, arg: &str) -> (r: String)
        ensures
            r@ == substituted(arg@, self@),
    {
        let mut cur = chars_of(arg);
        let n = self.entries.len();
        let mut i: usize = 0;
        assert(self@.subrange(0, n as int) =~= self@);
        while i < n
            invariant
                n == self.entries@.len() == self@.len(),
                i <= n,
                substituted(arg@, self@) == substituted(cur@, self@.subrange(i as int, n as int)),
            decreases n - i,
        {
            let key = chars_of(self.entries[i].0.as_str());
            let value = chars_of(self.entries[i].1.as_str());
            let ghost rest = self@.subrange(i as int, n as int);
            assert(rest.drop_first() =~= self@.subrange(i + 1, n as int));
            cur = replace_chars(&cur, &key, &value);
            i = i + 1;
        }
        assert(self@.subrange(n as int, n as int) =~= Seq::<(Seq<char>, Seq<char>)>::empty());
        string_of(&cur)
    }
}

} // verus!
