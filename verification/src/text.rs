//! Byte-level text helpers used by the DSN parser and the payload builder.
//!
//! All functions work on raw bytes. Field names in delivery-status parts are
//! ASCII, so case-insensitive comparison folds only the ASCII letters.

use vstd::prelude::*;
use vstd::seq_lib::*;

verus! {

/// ASCII whitespace, the bytes `char::is_whitespace` accepts below 0x80.
pub open spec fn is_space(b: u8) -> bool {
    b == 32 || (9 <= b && b <= 13)
}

/// ASCII lower-casing of a single byte.
pub open spec fn lower(b: u8) -> u8 {
    if 65 <= b && b <= 90 {
        (b + 32) as u8
    } else {
        b
    }
}

/// `p` is a prefix of `s` up to ASCII case.
pub open spec fn starts_ci(s: Seq<u8>, p: Seq<u8>) -> bool {
    p.len() <= s.len() && forall|i: int| 0 <= i < p.len() ==> lower(s[i]) == lower(p[i])
}

/// The suffix after the first occurrence of `b`, or all of `s` if absent.
pub open spec fn after_first(s: Seq<u8>, b: u8) -> Seq<u8> {
    match s.index_of_first(b) {
        Some(i) => s.subrange(i + 1, s.len() as int),
        None => s,
    }
}

/// The suffix after the last occurrence of `b`, or all of `s` if absent.
pub open spec fn after_last(s: Seq<u8>, b: u8) -> Seq<u8> {
    match s.index_of_last(b) {
        Some(i) => s.subrange(i + 1, s.len() as int),
        None => s,
    }
}

/// `s` without leading ASCII whitespace.
pub open spec fn trim_start(s: Seq<u8>) -> Seq<u8>
    decreases s.len(),
{
    if s.len() > 0 && is_space(s[0]) {
        trim_start(s.drop_first())
    } else {
        s
    }
}

/// `s` without trailing ASCII whitespace.
pub open spec fn trim_end(s: Seq<u8>) -> Seq<u8>
    decreases s.len(),
{
    if s.len() > 0 && is_space(s.last()) {
        trim_end(s.drop_last())
    } else {
        s
    }
}

/// `s` without leading and trailing ASCII whitespace.
pub open spec fn trim(s: Seq<u8>) -> Seq<u8> {
    trim_end(trim_start(s))
}

/// A line with one trailing carriage return removed.
pub open spec fn chomp_cr(l: Seq<u8>) -> Seq<u8> {
    if l.len() > 0 && l.last() == 13 {
        l.drop_last()
    } else {
        l
    }
}

/// The lines of `s`: split at every line feed, with a carriage return
/// directly before the line feed stripped; no empty final line.
pub open spec fn lines(s: Seq<u8>) -> Seq<Seq<u8>>
    decreases s.len(),
    via lines_decreases
{
    if s.len() == 0 {
        Seq::empty()
    } else {
        match s.index_of_first(10u8) {
            Some(i) => seq![chomp_cr(s.take(i))] + lines(s.skip(i + 1)),
            None => seq![s],
        }
    }
}

#[via_fn]
proof fn lines_decreases(s: Seq<u8>) {
    if s.len() != 0 {
        s.index_of_first_ensures(10u8);
    }
}

pub fn bytes_eq(a: &[u8], b: &[u8]) -> (r: bool)
    ensures
        r <==> a@ == b@,
{
    if a.len() != b.len() {
        return false;
    }
    let mut i: usize = 0;
    while i < a.len()
        invariant
            i <= a@.len(),
            a@.len() == b@.len(),
            forall|k: int| 0 <= k < i ==> a@[k] == b@[k],
        decreases a@.len() - i,
    {
        if a[i] != b[i] {
            return false;
        }
        i += 1;
    }
    proof {
        assert(a@ =~= b@);
    }
    true
}

fn lower_byte(b: u8) -> (r: u8)
    ensures
        r == lower(b),
{
    if 65 <= b && b <= 90 {
        b + 32
    } else {
        b
    }
}

pub fn starts_with_ci(s: &[u8], p: &[u8]) -> (r: bool)
    ensures
        r <==> starts_ci(s@, p@),
{
    if p.len() > s.len() {
        return false;
    }
    let mut i: usize = 0;
    while i < p.len()
        invariant
            i <= p@.len(),
            p@.len() <= s@.len(),
            forall|k: int| 0 <= k < i ==> lower(s@[k]) == lower(p@[k]),
        decreases p@.len() - i,
    {
        if lower_byte(s[i]) != lower_byte(p[i]) {
            return false;
        }
        i += 1;
    }
    true
}

/// First index of `b` in `s`, if any.
pub fn find_first(s: &[u8], b: u8) -> (r: Option<usize>)
    ensures
        match r {
            Some(i) => i < s@.len() && s@[i as int] == b && forall|k: int|
                0 <= k < i ==> s@[k] != b,
            None => forall|k: int| 0 <= k < s@.len() ==> s@[k] != b,
        },
{
    let mut i: usize = 0;
    while i < s.len()
        invariant
            i <= s@.len(),
            forall|k: int| 0 <= k < i ==> s@[k] != b,
        decreases s@.len() - i,
    {
        if s[i] == b {
            return Some(i);
        }
        i += 1;
    }
    None
}

/// Last index of `b` in `s`, if any.
pub fn find_last(s: &[u8], b: u8) -> (r: Option<usize>)
    ensures
        match r {
            Some(i) => i < s@.len() && s@[i as int] == b && forall|k: int|
                i < k < s@.len() ==> s@[k] != b,
            None => forall|k: int| 0 <= k < s@.len() ==> s@[k] != b,
        },
{
    let mut i: usize = s.len();
    while i > 0
        invariant
            i <= s@.len(),
            forall|k: int| i <= k < s@.len() ==> s@[k] != b,
        decreases i,
    {
        i -= 1;
        if s[i] == b {
            return Some(i);
        }
    }
    None
}

/// The suffix after the first occurrence of `b`, or all of `s` if absent.
pub fn after_first_exec(s: &[u8], b: u8) -> (r: Vec<u8>)
    ensures
        r@ == after_first(s@, b),
{
    proof {
        s@.index_of_first_ensures(b);
    }
    let n = s.len();
    match find_first(s, b) {
        Some(i) => {
            let sub = vstd::slice::slice_subrange(s, i + 1, n);
            vstd::slice::slice_to_vec(sub)
        },
        None => vstd::slice::slice_to_vec(s),
    }
}

/// The suffix after the last occurrence of `b`, or all of `s` if absent.
pub fn after_last_exec(s: &[u8], b: u8) -> (r: Vec<u8>)
    ensures
        r@ == after_last(s@, b),
{
    proof {
        s@.index_of_last_ensures(b);
    }
    let n = s.len();
    match find_last(s, b) {
        Some(i) => {
            let sub = vstd::slice::slice_subrange(s, i + 1, n);
            vstd::slice::slice_to_vec(sub)
        },
        None => vstd::slice::slice_to_vec(s),
    }
}

proof fn lemma_trim_start_skip(s: Seq<u8>, lo: int)
    requires
        0 <= lo <= s.len(),
        forall|k: int| 0 <= k < lo ==> is_space(s[k]),
        lo < s.len() ==> !is_space(s[lo]),
    ensures
        trim_start(s) == s.skip(lo),
    decreases lo,
{
    if lo == 0 {
        assert(s.skip(0) =~= s);
        if s.len() > 0 && is_space(s[0]) {
            assert(false);
        }
    } else {
        assert(is_space(s[0]));
        lemma_trim_start_skip(s.drop_first(), lo - 1);
        assert(s.drop_first().skip(lo - 1) =~= s.skip(lo));
    }
}

proof fn lemma_trim_end_take(s: Seq<u8>, hi: int)
    requires
        0 <= hi <= s.len(),
        forall|k: int| hi <= k < s.len() ==> is_space(s[k]),
        hi > 0 ==> !is_space(s[hi - 1]),
    ensures
        trim_end(s) == s.take(hi),
    decreases s.len(),
{
    if hi == s.len() {
        assert(s.take(hi) =~= s);
        if s.len() > 0 && is_space(s.last()) {
            assert(false);
        }
    } else {
        assert(is_space(s.last()));
        lemma_trim_end_take(s.drop_last(), hi);
        assert(s.drop_last().take(hi) =~= s.take(hi));
    }
}

fn is_space_byte(b: u8) -> (r: bool)
    ensures
        r == is_space(b),
{
    b == 32 || (9 <= b && b <= 13)
}

/// `s` without leading and trailing ASCII whitespace.
pub fn trim_exec(s: &[u8]) -> (r: Vec<u8>)
    ensures
        r@ == trim(s@),
{
    let mut lo: usize = 0;
    while lo < s.len() && is_space_byte(s[lo])
        invariant
            lo <= s@.len(),
            forall|k: int| 0 <= k < lo ==> is_space(s@[k]),
        decreases s@.len() - lo,
    {
        lo += 1;
    }
    proof {
        lemma_trim_start_skip(s@, lo as int);
    }
    let mut hi: usize = s.len();
    while hi > lo && is_space_byte(s[hi - 1])
        invariant
            lo <= hi <= s@.len(),
            forall|k: int| hi <= k < s@.len() ==> is_space(s@[k]),
        decreases hi,
    {
        hi -= 1;
    }
    let sub = vstd::slice::slice_subrange(s, lo, hi);
    proof {
        let t = s@.skip(lo as int);
        lemma_trim_end_take(t, hi - lo);
        assert(t.take(hi - lo) =~= s@.subrange(lo as int, hi as int));
    }
    vstd::slice::slice_to_vec(sub)
}

/// The lines of `s`, as `lines` describes them.
pub fn lines_exec(s: &[u8]) -> (r: Vec<Vec<u8>>)
    ensures
        r@.map_values(|l: Vec<u8>| l@) == lines(s@),
{
    let mut out: Vec<Vec<u8>> = Vec::new();
    let mut p: usize = 0;
    proof {
        assert(s@.skip(0) =~= s@);
        assert(out@.map_values(|l: Vec<u8>| l@) + lines(s@) =~= lines(s@));
    }
    while p < s.len()
        invariant
            p <= s@.len(),
            out@.map_values(|l: Vec<u8>| l@) + lines(s@.skip(p as int)) == lines(s@),
        decreases s@.len() - p,
    {
        let ghost rest = s@.skip(p as int);
        let tail = vstd::slice::slice_subrange(s, p, s.len());
        proof {
            rest.index_of_first_ensures(10u8);
        }
        match find_first(tail, 10u8) {
            Some(i) => {
                // the line body, with a trailing CR stripped
                let mut end: usize = p + i;
                if i > 0 && s[p + i - 1] == 13 {
                    end = p + i - 1;
                }
                let line = vstd::slice::slice_to_vec(vstd::slice::slice_subrange(s, p, end));
                proof {
                    assert(rest.index_of_first(10u8) == Some(i as int));
                    assert(rest.take(i as int) =~= s@.subrange(p as int, p + i));
                    assert(chomp_cr(rest.take(i as int)) =~= s@.subrange(p as int, end as int));
                    let m = |l: Vec<u8>| l@;
                    assert(out@.push(line).map_values(m) =~= out@.map_values(m) + seq![line@]);
                    assert(lines(rest) == seq![chomp_cr(rest.take(i as int))] + lines(
                        rest.skip(i + 1),
                    ));
                    assert(rest.skip(i + 1) =~= s@.skip(p + i + 1));
                    assert((out@.map_values(m) + seq![line@]) + lines(s@.skip(p + i + 1))
                        =~= out@.map_values(m) + lines(rest));
                }
                out.push(line);
                p = p + i + 1;
            },
            None => {
                let line = vstd::slice::slice_to_vec(tail);
                proof {
                    assert(rest.index_of_first(10u8) is None);
                    assert(lines(rest) == seq![rest]);
                    let m = |l: Vec<u8>| l@;
                    assert(out@.push(line).map_values(m) =~= out@.map_values(m) + seq![line@]);
                    assert((out@.map_values(m) + seq![line@]) + lines(s@.skip(s@.len() as int))
                        =~= out@.map_values(m) + lines(rest));
                }
                out.push(line);
                p = s.len();
            },
        }
    }
    proof {
        assert(s@.skip(p as int) =~= Seq::<u8>::empty());
        assert(out@.map_values(|l: Vec<u8>| l@) + lines(s@.skip(p as int)) =~= out@.map_values(
            |l: Vec<u8>| l@,
        ));
    }
    out
}

} // verus!
