//! Character-level text operations used when resolving actions: substitution
//! of variable names in command arguments, splitting output into lines and
//! trimming the single trailing newline of captured output.

use vstd::prelude::*;

verus! {

/// Relies on `String::push`: the character is appended at the end.
pub assume_specification[ String::push ](s: &mut String, ch: char)
    ensures
        final(s)@ == old(s)@.push(ch),
;

/// The characters of `s`, in order.
pub fn chars_of(s: &str) -> (r: Vec<char>)
    ensures
        r@ == s@,
{
    let mut r: Vec<char> = Vec::new();
    for c in it: s.chars()
        invariant
            r@ == it.seq().subrange(0, it.index() as int),
    {
        r.push(c);
    }
    r
}

/// The string made of the characters `cs`, in order.
pub fn string_of(cs: &Vec<char>) -> (r: String)
    ensures
        r@ == cs@,
{
    let mut r = String::new();
    for i in 0..cs.len()
        invariant
            r@ == cs@.subrange(0, i as int),
    {
        r.push(cs[i]);
    }
    r
}

/// `pat` occurs in `s` at position `i`.
pub open spec fn occurs_at(s: Seq<char>, i: int, pat: Seq<char>) -> bool {
    0 <= i && i + pat.len() <= s.len() && s.subrange(i, i + pat.len()) == pat
}

/// `s` with every occurrence of `pat` replaced by `rep`, the occurrences taken
/// from left to right without overlap. An empty `pat` occurs before every
/// character and once more at the end.
pub open spec fn replaced(s: Seq<char>, pat: Seq<char>, rep: Seq<char>) -> Seq<char>
    decreases s.len(),
{
    if pat.len() == 0 {
        if s.len() == 0 {
            rep
        } else {
            rep + seq![s[0]] + replaced(s.drop_first(), pat, rep)
        }
    } else if s.len() == 0 {
        s
    } else if occurs_at(s, 0, pat) {
        rep + replaced(s.subrange(pat.len() as int, s.len() as int), pat, rep)
    } else {
        seq![s[0]] + replaced(s.drop_first(), pat, rep)
    }
}

/// Whether `pat` occurs in `s` at position `i`.
fn occurs_at_exec(s: &Vec<char>, i: usize, pat: &Vec<char>) -> (r: bool)
    requires
        i <= s.len(),
    ensures
        r == occurs_at(s@, i as int, pat@),
{
    if pat.len() > s.len() - i {
        return false;
    }
    let mut k: usize = 0;
    while k < pat.len()
        invariant
            i + pat.len() <= s.len(),
            k <= pat.len(),
            forall|m: int| 0 <= m < k ==> s@[i + m] == pat@[m],
        decreases pat.len() - k,
    {
        if s[i + k] != pat[k] {
            assert(s@.subrange(i as int, i + pat.len())[k as int] != pat@[k as int]);
            return false;
        }
        k = k + 1;
    }
    assert(s@.subrange(i as int, i + pat.len()) =~= pat@);
    true
}

fn push_all(out: &mut Vec<char>, cs: &Vec<char>)
    ensures
        final(out)@ == old(out)@ + cs@,
{
    for i in 0..cs.len()
        invariant
            out@ == old(out)@ + cs@.subrange(0, i as int),
    {
        out.push(cs[i]);
    }
    assert(cs@.subrange(0, cs.len() as int) =~= cs@);
}

/// `s` with every occurrence of `pat` replaced by `rep`, as `str::replace` does.
pub fn replace_chars(s: &Vec<char>, pat: &Vec<char>, rep: &Vec<char>) -> (r: Vec<char>)
    ensures
        r@ == replaced(s@, pat@, rep@),
{
    let mut out: Vec<char> = Vec::new();
    let mut i: usize = 0;
    assert(s@.subrange(0, s.len() as int) =~= s@);
    assert(out@ + replaced(s@, pat@, rep@) =~= replaced(s@, pat@, rep@));
    while i < s.len()
        invariant
            i <= s.len(),
            replaced(s@, pat@, rep@) == out@ + replaced(s@.subrange(i as int, s.len() as int), pat@, rep@),
        decreases s.len() - i,
    {
        let ghost rest = s@.subrange(i as int, s.len() as int);
        let ghost out0 = out@;
        if pat.len() > 0 && occurs_at_exec(s, i, pat) {
            let ghost next = s@.subrange(i + pat.len(), s.len() as int);
            assert(rest.subrange(0, pat.len() as int) =~= s@.subrange(i as int, i + pat.len()));
            assert(rest.subrange(pat.len() as int, rest.len() as int) =~= next);
            assert(replaced(rest, pat@, rep@) == rep@ + replaced(next, pat@, rep@));
            push_all(&mut out, rep);
            assert(out0 + (rep@ + replaced(next, pat@, rep@)) =~= out@ + replaced(next, pat@, rep@));
            i = i + pat.len();
        } else {
            let ghost next = s@.subrange(i + 1, s.len() as int);
            assert(rest.drop_first() =~= next);
            if pat.len() == 0 {
                assert(replaced(rest, pat@, rep@) == rep@ + seq![s@[i as int]] + replaced(next, pat@, rep@));
                push_all(&mut out, rep);
                out.push(s[i]);
                assert(out0 + (rep@ + seq![s@[i as int]] + replaced(next, pat@, rep@)) =~= out@ + replaced(next, pat@, rep@));
            } else {
                if pat.len() <= s.len() - i {
                    assert(rest.subrange(0, pat.len() as int) =~= s@.subrange(i as int, i + pat.len()));
                }
                assert(!occurs_at(rest, 0, pat@));
                assert(replaced(rest, pat@, rep@) == seq![s@[i as int]] + replaced(next, pat@, rep@));
                out.push(s[i]);
                assert(out0 + (seq![s@[i as int]] + replaced(next, pat@, rep@)) =~= out@ + replaced(next, pat@, rep@));
            }
            i = i + 1;
        }
    }
    let ghost out0 = out@;
    assert(s@.subrange(i as int, s.len() as int) =~= Seq::<char>::empty());
    if pat.len() == 0 {
        push_all(&mut out, rep);
    } else {
        assert(out@ =~= out0 + Seq::<char>::empty());
    }
    out
}

/// `s` without its last character if that is a newline.
pub open spec fn trim_newline(s: Seq<char>) -> Seq<char> {
    if s.len() > 0 && s.last() == '\n' {
        s.drop_last()
    } else {
        s
    }
}

/// The text of captured output as a variable holds it: exactly one trailing
/// newline removed, if there is one.
pub fn trim_one_newline(s: &str) -> (r: String)
    ensures
        r@ == trim_newline(s@),
{
    let mut cs = chars_of(s);
    if cs.len() > 0 && cs[cs.len() - 1] == '\n' {
        cs.pop();
    }
    string_of(&cs)
}

/// A line without the carriage return that ended it, if any.
pub open spec fn strip_cr(l: Seq<char>) -> Seq<char> {
    if l.len() > 0 && l.last() == '\r' {
        l.drop_last()
    } else {
        l
    }
}

/// The lines of `s` that follow position `i`, where the line being read began
/// at `start`: split at each newline, a carriage return before the newline
/// dropped, and no empty line after a final newline.
pub open spec fn lines_from(s: Seq<char>, start: int, i: int) -> Seq<Seq<char>>
    decreases s.len() - i,
{
    if i >= s.len() {
        if start < s.len() {
            seq![s.subrange(start, s.len() as int)]
        } else {
            seq![]
        }
    } else if s[i] == '\n' {
        seq![strip_cr(s.subrange(start, i))] + lines_from(s, i + 1, i + 1)
    } else {
        lines_from(s, start, i + 1)
    }
}

/// The lines of `s`, as `str::lines` gives them.
pub open spec fn lines(s: Seq<char>) -> Seq<Seq<char>> {
    lines_from(s, 0, 0)
}

/// The views of a list of strings.
pub open spec fn views(v: Seq<String>) -> Seq<Seq<char>> {
    v.map_values(|x: String| x@)
}

/// The characters of `cs` from `a` up to `b`, as a string.
fn string_between(cs: &Vec<char>, a: usize, b: usize) -> (r: String)
    requires
        a <= b <= cs.len(),
    ensures
        r@ == cs@.subrange(a as int, b as int),
{
    let mut r = String::new();
    let mut k: usize = a;
    while k < b
        invariant
            a <= k <= b <= cs.len(),
            r@ == cs@.subrange(a as int, k as int),
        decreases b - k,
    {
        r.push(cs[k]);
        assert(cs@.subrange(a as int, k + 1) =~= cs@.subrange(a as int, k as int).push(cs@[k as int]));
        k = k + 1;
    }
    r
}

/// The lines of `s`, as `str::lines` gives them.
pub fn split_lines(s: &str) -> (r: Vec<String>)
    ensures
        views(r@) == lines(s@),
{
    let cs = chars_of(s);
    let mut out: Vec<String> = Vec::new();
    let mut start: usize = 0;
    let mut i: usize = 0;
    assert(views(out@) + lines(s@) =~= lines(s@));
    while i < cs.len()
        invariant
            cs@ == s@,
            start <= i <= cs.len(),
            lines(s@) == views(out@) + lines_from(s@, start as int, i as int),
        decreases cs.len() - i,
    {
        if cs[i] == '\n' {
            let end: usize = if i > start && cs[i - 1] == '\r' { i - 1 } else { i };
            let line = string_between(&cs, start, end);
            assert(line@ == strip_cr(s@.subrange(start as int, i as int))) by {
                if i > start {
                    assert(s@.subrange(start as int, i as int).drop_last() =~= s@.subrange(start as int, i - 1));
                }
            }
            let ghost out0 = out@;
            out.push(line);
            assert(views(out@) =~= views(out0).push(line@));
            assert(views(out0) + (seq![line@] + lines_from(s@, i + 1, i + 1)) =~= views(out@) + lines_from(s@, i + 1, i + 1));
            start = i + 1;
        }
        i = i + 1;
    }
    if start < cs.len() {
        let line = string_between(&cs, start, cs.len());
        let ghost out0 = out@;
        out.push(line);
        assert(views(out@) =~= views(out0) + seq![line@]);
    } else {
        assert(views(out@) + Seq::<Seq<char>>::empty() =~= views(out@));
    }
    out
}

} // verus!
