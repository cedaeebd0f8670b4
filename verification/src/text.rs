//! Character-level helpers for `String`.

use vstd::prelude::*;
use vstd::std_specs::iter::IteratorSpec;
use vstd::string::*;
use vstd::utf8::{decode_utf8, valid_utf8};

verus! {

broadcast use vstd::string::group_string_axioms;

/// `String::push` appends one character to the end of the string.
#[verifier::external_body]
pub(crate) fn push_char(s: &mut String, c: char)
    ensures
        final(s)@ == old(s)@.push(c),
{
    s.push(c)
}

/// `String::from_utf8` turns bytes that are valid UTF-8 into the string that
/// they encode, and refuses any other bytes.
#[verifier::external_body]
pub(crate) fn string_from_utf8(bytes: Vec<u8>) -> (r: Option<String>)
    ensures
        r is Some <==> valid_utf8(bytes@),
        r matches Some(s) ==> s@ == decode_utf8(bytes@),
{
    String::from_utf8(bytes).ok()
}

/// The characters of `s`, in order.
pub fn to_chars(s: &str) -> (v: Vec<char>)
    ensures
        v@ == s@,
{
    let mut it = s.chars();
    let mut v: Vec<char> = Vec::new();
    loop
        invariant
            it.obeys_prophetic_iter_laws(),
            it.decrease() is Some,
            v@ + it.remaining() == s@,
        ensures
            v@ == s@,
        decreases it.decrease()->0,
    {
        match it.next() {
            Some(c) => {
                assert(v@.push(c) + it.remaining() =~= s@);
                v.push(c);
            },
            None => {
                assert(v@ =~= s@);
                break ;
            },
        }
    }
    v
}

/// Whether `a` and `b` hold the same characters.
pub fn same_text(a: &str, b: &str) -> (r: bool)
    ensures
        r == (a@ == b@),
{
    a.to_owned() == b.to_owned()
}

/// The contents of a list of strings, in order.
pub open spec fn texts(v: Seq<String>) -> Seq<Seq<char>> {
    v.map_values(|s: String| s@)
}

/// The position of the first string of `v` that holds the characters of `s`.
pub fn position_of(v: &Vec<String>, s: &str) -> (r: Option<usize>)
    ensures
        r is Some <==> texts(v@).contains(s@),
        r matches Some(i) ==> i < v.len() && v@[i as int]@ == s@ && !texts(v@).take(i as int).contains(
            s@,
        ),
{
    let mut i: usize = 0;
    while i < v.len()
        invariant
            i <= v.len(),
            !texts(v@).take(i as int).contains(s@),
        decreases v.len() - i,
    {
        if same_text(v[i].as_str(), s) {
            assert(texts(v@)[i as int] == s@);
            return Some(i);
        }
        assert(texts(v@).take(i + 1) =~= texts(v@).take(i as int).push(v@[i as int]@));
        i += 1;
    }
    assert(texts(v@).take(v.len() as int) =~= texts(v@));
    None
}

/// Whether a string of `v` holds the characters of `s`.
pub fn contains_text(v: &Vec<String>, s: &str) -> (r: bool)
    ensures
        r == texts(v@).contains(s@),
{
    position_of(v, s).is_some()
}

/// The string made of the characters of `v`, in order.
pub fn from_chars(v: &Vec<char>) -> (s: String)
    ensures
        s@ == v@,
{
    let mut s = String::new();
    let mut i: usize = 0;
    while i < v.len()
        invariant
            i <= v.len(),
            s@ == v@.take(i as int),
        decreases v.len() - i,
    {
        push_char(&mut s, v[i]);
        assert(v@.take(i as int).push(v@[i as int]) =~= v@.take(i + 1));
        i += 1;
    }
    assert(v@.take(v.len() as int) =~= v@);
    s
}

/// `s` with every occurrence of `from` replaced by `to`, the occurrences found
/// from left to right without overlap. An empty `from` occurs nowhere.
pub open spec fn replace_all(s: Seq<char>, from: Seq<char>, to: Seq<char>) -> Seq<char>
    decreases s.len(),
{
    if from.len() == 0 || s.len() < from.len() {
        s
    } else if s.take(from.len() as int) == from {
        to + replace_all(s.skip(from.len() as int), from, to)
    } else {
        seq![s[0]] + replace_all(s.skip(1), from, to)
    }
}

/// Whether `pat` occurs somewhere in `s`.
pub open spec fn occurs_in(s: Seq<char>, pat: Seq<char>) -> bool {
    exists|i: int| 0 <= i && i + pat.len() <= s.len() && #[trigger] s.subrange(i, i + pat.len()) == pat
}

/// Text in which `from` does not occur stays as it is.
pub proof fn lemma_replace_all_without_occurrence(s: Seq<char>, from: Seq<char>, to: Seq<char>)
    requires
        !occurs_in(s, from),
    ensures
        replace_all(s, from, to) == s,
    decreases s.len(),
{
    if from.len() == 0 || s.len() < from.len() {
    } else {
        let m = from.len() as int;
        assert(s.take(m) != from) by {
            assert(s.subrange(0, 0 + m) =~= s.take(m));
        }
        let rest = s.skip(1);
        assert(!occurs_in(rest, from)) by {
            if occurs_in(rest, from) {
                let i = choose|i: int|
                    0 <= i && i + from.len() <= rest.len() && #[trigger] rest.subrange(
                        i,
                        i + from.len(),
                    ) == from;
                assert(s.subrange(i + 1, i + 1 + m) =~= rest.subrange(i, i + m));
            }
        }
        lemma_replace_all_without_occurrence(rest, from, to);
        assert(seq![s[0]] + rest =~= s);
    }
}

/// Replacing a text by itself changes nothing.
pub proof fn lemma_replace_all_by_itself(s: Seq<char>, from: Seq<char>)
    ensures
        replace_all(s, from, from) == s,
    decreases s.len(),
{
    if from.len() == 0 || s.len() < from.len() {
    } else if s.take(from.len() as int) == from {
        lemma_replace_all_by_itself(s.skip(from.len() as int), from);
        assert(s.take(from.len() as int) + s.skip(from.len() as int) =~= s);
    } else {
        lemma_replace_all_by_itself(s.skip(1), from);
        assert(seq![s[0]] + s.skip(1) =~= s);
    }
}

/// Whether `pat` occurs in `s` at position `at`.
fn occurs_at(s: &Vec<char>, pat: &Vec<char>, at: usize) -> (b: bool)
    requires
        at + pat.len() <= s.len(),
    ensures
        b == (s@.skip(at as int).take(pat.len() as int) == pat@),
{
    let ghost window = s@.skip(at as int).take(pat.len() as int);
    let mut k: usize = 0;
    while k < pat.len()
        invariant
            k <= pat.len(),
            at + pat.len() <= s.len(),
            window == s@.skip(at as int).take(pat.len() as int),
            window.take(k as int) == pat@.take(k as int),
        decreases pat.len() - k,
    {
        if s[at + k] != pat[k] {
            assert(window[k as int] != pat@[k as int]);
            return false;
        }
        assert(window.take(k + 1) =~= window.take(k as int).push(window[k as int]));
        assert(pat@.take(k + 1) =~= pat@.take(k as int).push(pat@[k as int]));
        k += 1;
    }
    assert(window.take(pat.len() as int) =~= window);
    assert(pat@.take(pat.len() as int) =~= pat@);
    true
}

/// Replaces every occurrence of `from` in `s` by `to`.
pub fn replace_every(s: &str, from: &str, to: &str) -> (r: String)
    ensures
        r@ == replace_all(s@, from@, to@),
{
    let src = to_chars(s);
    let pat = to_chars(from);
    let rep = to_chars(to);
    let mut out: Vec<char> = Vec::new();
    let mut i: usize = 0;
    assert(src@.skip(0) =~= src@);
    while i < src.len()
        invariant
            i <= src.len(),
            out@ + replace_all(src@.skip(i as int), pat@, rep@) == replace_all(src@, pat@, rep@),
        decreases src.len() - i,
    {
        let ghost rest = src@.skip(i as int);
        let ghost before = out@;
        if pat.len() > 0 && pat.len() <= src.len() - i && occurs_at(&src, &pat, i) {
            let mut k: usize = 0;
            while k < rep.len()
                invariant
                    k <= rep.len(),
                    out@ == before + rep@.take(k as int),
                decreases rep.len() - k,
            {
                out.push(rep[k]);
                assert(rep@.take(k + 1) =~= rep@.take(k as int).push(rep@[k as int]));
                assert(before + rep@.take(k + 1) =~= (before + rep@.take(k as int)).push(
                    rep@[k as int],
                ));
                k += 1;
            }
            assert(rep@.take(rep.len() as int) =~= rep@);
            assert(rest.skip(pat.len() as int) =~= src@.skip(i + pat.len()));
            assert(before + (rep@ + replace_all(rest.skip(pat.len() as int), pat@, rep@)) =~= (
            before + rep@) + replace_all(rest.skip(pat.len() as int), pat@, rep@));
            i += pat.len();
        } else {
            out.push(src[i]);
            assert(rest.skip(1) =~= src@.skip(i + 1));
            assert(rest[0] == src@[i as int]);
            let ghost tail = replace_all(rest.skip(1), pat@, rep@);
            assert(replace_all(rest, pat@, rep@) =~= seq![rest[0]] + tail) by {
                if pat.len() == 0 || rest.len() < pat.len() {
                    assert(tail == rest.skip(1));
                    assert(rest =~= seq![rest[0]] + rest.skip(1));
                }
            }
            assert(before + (seq![rest[0]] + tail) =~= before.push(rest[0]) + tail);
            i += 1;
        }
    }
    assert(src@.skip(src.len() as int) =~= Seq::<char>::empty());
    assert(out@ + Seq::<char>::empty() =~= out@);
    from_chars(&out)
}

} // verus!
