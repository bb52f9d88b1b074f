//! Evaluating an element's condition against the variable store.

use vstd::prelude::*;

use crate::config::{pairs_view, Condition};
use crate::store::{lookup, Vars};
use crate::text::{chars_of, string_of};

verus! {

/// Whether a constraint's name carries the negation marker.
pub open spec fn is_negated(key: Seq<char>) -> bool {
    key.len() > 0 && key.last() == '!'
}

/// The variable a constraint is about: its name without the negation marker.
pub open spec fn variable_of(key: Seq<char>) -> Seq<char> {
    if is_negated(key) {
        key.drop_last()
    } else {
        key
    }
}

/// Whether one constraint holds: the variable has the value, or for a negated
/// one does not have it. An unset variable meets a negated constraint and
/// fails any other.
pub open spec fn constraint_holds(
    key: Seq<char>,
    value: Seq<char>,
    vars: Seq<(Seq<char>, Seq<char>)>,
) -> bool {
    match lookup(vars, variable_of(key)) {
        Some(v) => (v == value) != is_negated(key),
        None => is_negated(key),
    }
}

/// Whether every constraint of a condition holds.
pub open spec fn condition_holds(
    c: Seq<(Seq<char>, Seq<char>)>,
    vars: Seq<(Seq<char>, Seq<char>)>,
) -> bool {
    forall|i: int| 0 <= i < c.len() ==> #[trigger] constraint_holds(c[i].0, c[i].1, vars)
}

/// The variable named by a constraint key, and whether the key is negated.
pub fn split_marker(key: &str) -> (r: (String, bool))
    ensures
        r.0@ == variable_of(key@),
        r.1 == is_negated(key@),
{
    let mut cs = chars_of(key);
    let negated = cs.len() > 0 && cs[cs.len() - 1] == '!';
    if negated {
        cs.pop();
    }
    (string_of(&cs), negated)
}

/// Whether `condition` holds against the store.
pub fn check_condition(condition: &Condition, vars: &Vars) -> (r: bool)
    requires
        vars.wf(),
    ensures
        r == condition_holds(pairs_view(condition@), vars@),
{
    let ghost c = pairs_view(condition@);
    let mut i: usize = 0;
    while i < condition.len()
        invariant
            vars.wf(),
            i <= condition.len(),
            c.len() == condition@.len(),
            c == pairs_view(condition@),
            forall|j: int| 0 <= j < i ==> #[trigger] constraint_holds(c[j].0, c[j].1, vars@),
        decreases condition.len() - i,
    {
        let (name, negate) = split_marker(condition[i].0.as_str());
        let holds = match vars.get(name.as_str()) {
            Some(set_value) => (condition[i].1 == set_value) != negate,
            None => negate,
        };
        assert(holds == constraint_holds(c[i as int].0, c[i as int].1, vars@));
        if !holds {
            return false;
        }
        i = i + 1;
    }
    true
}

/// A condition without constraints holds against every store.
pub proof fn lemma_empty_condition_holds(vars: Seq<(Seq<char>, Seq<char>)>)
    ensures
        condition_holds(Seq::empty(), vars),
{
}

/// A variable that is not set meets a negated constraint on it and fails a
/// constraint that is not negated, whatever value either asks for.
pub proof fn lemma_unset_variable(
    vars: Seq<(Seq<char>, Seq<char>)>,
    name: Seq<char>,
    value: Seq<char>,
)
    requires
        lookup(vars, name) is None,
        !is_negated(name),
    ensures
        condition_holds(seq![(name.push('!'), value)], vars),
        !condition_holds(seq![(name, value)], vars),
{
    let negated = name.push('!');
    assert(negated.drop_last() =~= name);
    assert(constraint_holds(negated, value, vars));
    let c = seq![(name, value)];
    assert(!constraint_holds(c[0].0, c[0].1, vars));
}

} // verus!
