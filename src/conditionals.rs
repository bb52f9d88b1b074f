//! The dependency index: for each variable, the elements whose condition
//! mentions it, so that a change of the variable re-evaluates just those.

use vstd::prelude::*;

use crate::condition::{split_marker, variable_of};
use crate::config::{condition_of, node_condition, Config, Node};

verus! {

/// Whether the condition of element `n` has a constraint on variable `v`.
pub open spec fn node_mentions(n: Node, v: Seq<char>) -> bool {
    match node_condition(n) {
        Some(c) => exists|i: int| 0 <= i < c.len() && #[trigger] variable_of(c[i].0) == v,
        None => false,
    }
}

/// The positions, in increasing order, among the first `upto` elements, of
/// those whose condition mentions `v`.
pub open spec fn mentioning(nodes: Seq<Node>, v: Seq<char>, upto: int) -> Seq<usize>
    decreases upto,
{
    if upto <= 0 {
        seq![]
    } else if node_mentions(nodes[upto - 1], v) {
        mentioning(nodes, v, upto - 1).push((upto - 1) as usize)
    } else {
        mentioning(nodes, v, upto - 1)
    }
}

/// A position is listed exactly when it is among the first `upto` and its
/// element mentions `v`.
pub proof fn lemma_mentioning(nodes: Seq<Node>, v: Seq<char>, upto: int, j: usize)
    requires
        0 <= upto <= nodes.len(),
        upto <= usize::MAX + 1,
    ensures
        mentioning(nodes, v, upto).contains(j) <==> (j < upto && node_mentions(nodes[j as int], v)),
    decreases upto,
{
    if upto > 0 {
        lemma_mentioning(nodes, v, upto - 1, j);
        let prev = mentioning(nodes, v, upto - 1);
        if node_mentions(nodes[upto - 1], v) {
            let cur = prev.push((upto - 1) as usize);
            if prev.contains(j) {
                let k = choose|k: int| 0 <= k < prev.len() && prev[k] == j;
                assert(cur[k] == j);
            }
            if cur.contains(j) && j != (upto - 1) as usize {
                let k = choose|k: int| 0 <= k < cur.len() && cur[k] == j;
                assert(prev[k] == j);
            }
            if j == (upto - 1) as usize {
                assert(cur[prev.len() as int] == j);
            }
        }
    }
}

/// No position is listed where no element mentions `v`.
pub proof fn lemma_mentioning_none(nodes: Seq<Node>, v: Seq<char>, upto: int)
    requires
        upto <= nodes.len(),
        forall|i: int| 0 <= i < upto ==> !node_mentions(#[trigger] nodes[i], v),
    ensures
        mentioning(nodes, v, upto) == Seq::<usize>::empty(),
    decreases upto,
{
    if upto > 0 {
        lemma_mentioning_none(nodes, v, upto - 1);
    }
}

/// For each variable that some condition mentions, the elements that mention
/// it.
pub struct Conditionals {
    entries: Vec<(String, Vec<usize>)>,
}

impl View for Conditionals {
    type V = Seq<(Seq<char>, Seq<usize>)>;

    closed spec fn view(&self) -> Seq<(Seq<char>, Seq<usize>)> {
        self.entries@.map_values(|e: (String, Vec<usize>)| (e.0@, e.1@))
    }
}

impl Conditionals {
    /// No variable is listed twice.
    pub open spec fn wf(&self) -> bool {
        forall|i: int, j: int| 0 <= i < j < self@.len() ==> self@[i].0 != self@[j].0
    }

    /// The elements listed for variable `v`; none where it is not listed.
    pub open spec fn ids(&self, v: Seq<char>) -> Seq<usize> {
        if exists|i: int| 0 <= i < self@.len() && self@[i].0 == v {
            self@[choose|i: int| 0 <= i < self@.len() && self@[i].0 == v].1
        } else {
            seq![]
        }
    }

    /// The index lists, for every variable, exactly the elements among `nodes`
    /// whose condition mentions it, in increasing order.
    pub open spec fn describes(&self, nodes: Seq<Node>) -> bool {
        &&& self.wf()
        &&& forall|v: Seq<char>| #[trigger] self.ids(v) == mentioning(nodes, v, nodes.len() as int)
    }

    /// The elements whose condition mentions `variable`, in increasing order.
    pub fn affected(&self, variable: &str) -> (r: Vec<usize>)
        requires
            self.wf(),
        ensures
            r@ == self.ids(variable@),
    {
        let key = variable.to_owned();
        let mut i: usize = 0;
        while i < self.entries.len()
            invariant
                self.wf(),
                key@ == variable@,
                i <= self.entries.len(),
                self@.len() == self.entries@.len(),
                forall|j: int| 0 <= j < i ==> self@[j].0 != key@,
            decreases self.entries.len() - i,
        {
            assert(self@[i as int] == (self.entries@[i as int].0@, self.entries@[i as int].1@));
            if self.entries[i].0 == key {
                let ghost k = choose|j: int| 0 <= j < self@.len() && self@[j].0 == key@;
                assert(k == i) by {
                    if k < i {
                    } else if k > i {
                        assert(self@[i as int].0 != self@[k].0);
                    }
                }
                assert(self@[i as int].0 == variable@);
                assert(self.ids(variable@) == self@[k].1);
                assert(self.ids(variable@) == self.entries@[i as int].1@);
                return copy_ids(&self.entries[i].1);
            }
            i = i + 1;
        }
        Vec::new()
    }
}

/// A copy of a list of positions.
fn copy_ids(v: &Vec<usize>) -> (r: Vec<usize>)
    ensures
        r@ == v@,
{
    let mut r: Vec<usize> = Vec::new();
    for i in 0..v.len()
        invariant
            r@ == v@.subrange(0, i as int),
    {
        r.push(v[i]);
    }
    assert(v@.subrange(0, v.len() as int) =~= v@);
    r
}

/// Whether the condition of `n` has a constraint on the variable `v`.
pub fn mentions(n: &Node, v: &String) -> (r: bool)
    ensures
        r == node_mentions(*n, v@),
{
    match condition_of(n) {
        None => false,
        Some(c) => {
            let ghost cv = node_condition(*n)->0;
            let mut j: usize = 0;
            while j < c.len()
                invariant
                    j <= c.len(),
                    cv.len() == c@.len(),
                    cv == crate::config::pairs_view(c@),
                    node_condition(*n) == Some(cv),
                    forall|k: int| 0 <= k < j ==> #[trigger] variable_of(cv[k].0) != v@,
                decreases c.len() - j,
            {
                let (name, _) = split_marker(c[j].0.as_str());
                assert(cv[j as int].0 == c@[j as int].0@);
                if name == *v {
                    assert(variable_of(cv[j as int].0) == v@);
                    assert(variable_of(node_condition(*n)->0[j as int].0) == v@);
                    return true;
                }
                j = j + 1;
            }
            false
        },
    }
}

/// Whether `v` is among `names`.
fn contains_name(names: &Vec<String>, v: &String) -> (r: bool)
    ensures
        r == exists|i: int| 0 <= i < names@.len() && names@[i]@ == v@,
{
    let mut i: usize = 0;
    while i < names.len()
        invariant
            i <= names.len(),
            forall|j: int| 0 <= j < i ==> names@[j]@ != v@,
        decreases names.len() - i,
    {
        if names[i] == *v {
            return true;
        }
        i = i + 1;
    }
    false
}

/// The dependency index of a configuration: for every variable, the elements
/// whose condition mentions it (with or without the negation marker).
pub fn map_conditionals(config: &Config) -> (r: Conditionals)
    ensures
        r.describes(config.nodes@),
{
    let nodes = &config.nodes;
    // every variable that some condition mentions, each once
    let mut names: Vec<String> = Vec::new();
    let mut i: usize = 0;
    while i < nodes.len()
        invariant
            i <= nodes.len(),
            forall|a: int, b: int| 0 <= a < b < names@.len() ==> names@[a]@ != names@[b]@,
            forall|v: Seq<char>, k: int|
                0 <= k < i && #[trigger] node_mentions(nodes@[k], v) ==> exists|a: int|
                    0 <= a < names@.len() && names@[a]@ == v,
        decreases nodes.len() - i,
    {
        if let Some(c) = condition_of(&nodes[i]) {
            let ghost cv = node_condition(nodes@[i as int])->0;
            let mut j: usize = 0;
            while j < c.len()
                invariant
                    i < nodes.len(),
                    j <= c.len(),
                    cv.len() == c@.len(),
                    cv == crate::config::pairs_view(c@),
                    node_condition(nodes@[i as int]) == Some(cv),
                    forall|a: int, b: int| 0 <= a < b < names@.len() ==> names@[a]@ != names@[b]@,
                    forall|v: Seq<char>, k: int|
                        0 <= k < i && #[trigger] node_mentions(nodes@[k], v) ==> exists|a: int|
                            0 <= a < names@.len() && names@[a]@ == v,
                    forall|m: int|
                        0 <= m < j ==> exists|a: int|
                            0 <= a < names@.len() && names@[a]@ == #[trigger] variable_of(cv[m].0),
                decreases c.len() - j,
            {
                let (name, _) = split_marker(c[j].0.as_str());
                assert(name@ == variable_of(cv[j as int].0));
                if !contains_name(&names, &name) {
                    let ghost before = names@;
                    names.push(name);
                    assert forall|v: Seq<char>, k: int|
                        0 <= k < i && #[trigger] node_mentions(nodes@[k], v) implies exists|a: int|
                            0 <= a < names@.len() && names@[a]@ == v by {
                        let a = choose|a: int| 0 <= a < before.len() && before[a]@ == v;
                        assert(names@[a] == before[a]);
                    }
                    assert forall|m: int| 0 <= m < j + 1 implies exists|a: int|
                        0 <= a < names@.len() && names@[a]@ == #[trigger] variable_of(cv[m].0) by {
                        if m < j {
                            let a = choose|a: int| 0 <= a < before.len() && before[a]@ == variable_of(cv[m].0);
                            assert(names@[a] == before[a]);
                        } else {
                            assert(names@[before.len() as int]@ == variable_of(cv[m].0));
                        }
                    }
                }
                j = j + 1;
            }
            assert forall|v: Seq<char>, k: int|
                0 <= k < i + 1 && #[trigger] node_mentions(nodes@[k], v) implies exists|a: int|
                    0 <= a < names@.len() && names@[a]@ == v by {
                if k == i {
                    let m = choose|m: int| 0 <= m < cv.len() && #[trigger] variable_of(cv[m].0) == v;
                    assert(exists|a: int| 0 <= a < names@.len() && names@[a]@ == variable_of(cv[m].0));
                }
            }
        }
        i = i + 1;
    }
    // for each of them, the elements that mention it
    let mut entries: Vec<(String, Vec<usize>)> = Vec::new();
    let mut k: usize = 0;
    while k < names.len()
        invariant
            k <= names.len(),
            entries@.len() == k,
            forall|a: int| 0 <= a < k ==> #[trigger] entries@[a].0@ == names@[a]@,
            forall|a: int| 0 <= a < k ==> #[trigger] entries@[a].1@ == mentioning(nodes@, names@[a]@, nodes@.len() as int),
        decreases names.len() - k,
    {
        let mut ids: Vec<usize> = Vec::new();
        let mut m: usize = 0;
        while m < nodes.len()
            invariant
                k < names.len(),
                m <= nodes.len(),
                ids@ == mentioning(nodes@, names@[k as int]@, m as int),
            decreases nodes.len() - m,
        {
            if mentions(&nodes[m], &names[k]) {
                ids.push(m);
            }
            m = m + 1;
        }
        entries.push((names[k].clone(), ids));
        k = k + 1;
    }
    let r = Conditionals { entries };
    assert forall|v: Seq<char>| #[trigger] r.ids(v) == mentioning(nodes@, v, nodes@.len() as int) by {
        if exists|a: int| 0 <= a < r@.len() && r@[a].0 == v {
            let a = choose|a: int| 0 <= a < r@.len() && r@[a].0 == v;
            assert(r@[a] == (entries@[a].0@, entries@[a].1@));
        } else {
            assert forall|x: int| 0 <= x < nodes@.len() implies !node_mentions(#[trigger] nodes@[x], v) by {
                if node_mentions(nodes@[x], v) {
                    let a = choose|a: int| 0 <= a < names@.len() && names@[a]@ == v;
                    assert(r@[a].0 == v);
                }
            }
            lemma_mentioning_none(nodes@, v, nodes@.len() as int);
        }
    }
    r
}

} // verus!
