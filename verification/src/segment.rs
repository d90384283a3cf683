//! The segmenter: splits a message into translatable units.
//!
//! The translation endpoint stops translating past sentence-terminal
//! punctuation inside one request, so a message is cut into units, each
//! sent as its own request. A unit ends right after the earliest run of
//! terminal punctuation that is followed by whitespace (the whitespace is
//! kept with the unit), or at the end of the input. Every character of the
//! input lands in exactly one unit, so joining the units in order rebuilds
//! the input.

use vstd::prelude::*;
use crate::text::{is_stop_char, is_space_char, stop_char, space_char, concat_texts};

verus! {

/// One translatable unit of a message.
pub struct Unit {
    /// The unit's text: a contiguous span of the original input.
    pub text: String,
    /// The span ends in whitespace. The translation service trims the
    /// result, so a single space is put back after translating.
    pub trailing_space: bool,
}

/// The text ends in a whitespace character.
pub open spec fn ends_in_space(t: Seq<char>) -> bool {
    t.len() > 0 && is_space_char(t[t.len() - 1])
}

/// End of the maximal run of terminal punctuation starting at `p`.
pub open spec fn stop_run_end(s: Seq<char>, p: int) -> int
    decreases s.len() - p,
{
    if p < s.len() && 0 <= p && is_stop_char(s[p]) {
        stop_run_end(s, p + 1)
    } else {
        p
    }
}

/// End of the maximal run of whitespace starting at `p`.
pub open spec fn space_run_end(s: Seq<char>, p: int) -> int
    decreases s.len() - p,
{
    if p < s.len() && 0 <= p && is_space_char(s[p]) {
        space_run_end(s, p + 1)
    } else {
        p
    }
}

/// A unit boundary matches at `p`: terminal punctuation whose run is
/// followed by at least one whitespace character.
pub open spec fn boundary_at(s: Seq<char>, p: int) -> bool {
    &&& 0 <= p < s.len()
    &&& is_stop_char(s[p])
    &&& stop_run_end(s, p) < s.len()
    &&& is_space_char(s[stop_run_end(s, p)])
}

/// The first position at or after `p` where a boundary matches, or the
/// end of the input if none does.
pub open spec fn next_boundary(s: Seq<char>, p: int) -> int
    decreases s.len() - p,
{
    if p < 0 || p >= s.len() {
        s.len() as int
    } else if boundary_at(s, p) {
        p
    } else {
        next_boundary(s, p + 1)
    }
}

/// End of the unit that starts at `i`. The unit takes at least one
/// character; at the earliest boundary past that it also takes the
/// punctuation run and the whitespace run, and with no boundary it runs to
/// the end of the input.
pub open spec fn unit_end(s: Seq<char>, i: int) -> int {
    let p = next_boundary(s, i + 1);
    if p == s.len() {
        s.len() as int
    } else {
        space_run_end(s, stop_run_end(s, p))
    }
}

proof fn lemma_stop_run_end_bounds(s: Seq<char>, p: int)
    requires
        0 <= p <= s.len(),
    ensures
        p <= stop_run_end(s, p) <= s.len(),
    decreases s.len() - p,
{
    if p < s.len() && is_stop_char(s[p]) {
        lemma_stop_run_end_bounds(s, p + 1);
    }
}

proof fn lemma_space_run_end_bounds(s: Seq<char>, p: int)
    requires
        0 <= p <= s.len(),
    ensures
        p <= space_run_end(s, p) <= s.len(),
    decreases s.len() - p,
{
    if p < s.len() && is_space_char(s[p]) {
        lemma_space_run_end_bounds(s, p + 1);
    }
}

proof fn lemma_next_boundary(s: Seq<char>, p: int)
    requires
        0 <= p <= s.len(),
    ensures
        p <= next_boundary(s, p) <= s.len(),
        next_boundary(s, p) < s.len() ==> boundary_at(s, next_boundary(s, p)),
        forall|q: int| p <= q < next_boundary(s, p) ==> !boundary_at(s, q),
    decreases s.len() - p,
{
    if p < s.len() && !boundary_at(s, p) {
        lemma_next_boundary(s, p + 1);
    }
}

/// A unit is never empty and never runs past the input.
pub proof fn lemma_unit_end_bounds(s: Seq<char>, i: int)
    requires
        0 <= i < s.len(),
    ensures
        i < unit_end(s, i) <= s.len(),
{
    lemma_next_boundary(s, i + 1);
    let p = next_boundary(s, i + 1);
    if p < s.len() {
        lemma_stop_run_end_bounds(s, p);
        let b = stop_run_end(s, p);
        assert(b >= p + 1);
        assert(b < s.len() && is_space_char(s[b]));
        lemma_space_run_end_bounds(s, b + 1);
        assert(space_run_end(s, b) == space_run_end(s, b + 1));
    }
}

/// The unit texts of the input from position `i` on, in order.
pub open spec fn seg_units_from(s: Seq<char>, i: int) -> Seq<Seq<char>>
    decreases s.len() - i,
    via seg_units_from_dec
{
    if i < 0 || i >= s.len() {
        Seq::empty()
    } else {
        seq![s.subrange(i, unit_end(s, i))] + seg_units_from(s, unit_end(s, i))
    }
}

#[via_fn]
proof fn seg_units_from_dec(s: Seq<char>, i: int) {
    if 0 <= i < s.len() {
        lemma_unit_end_bounds(s, i);
    }
}

/// The unit texts of the whole input, in order.
pub open spec fn seg_units(s: Seq<char>) -> Seq<Seq<char>> {
    seg_units_from(s, 0)
}

/// The views of a list of units.
pub open spec fn unit_texts(units: Seq<Unit>) -> Seq<Seq<char>> {
    units.map_values(|u: Unit| u.text@)
}

fn find_stop_run_end(text: &str, p: usize) -> (r: usize)
    requires
        p <= text@.len(),
    ensures
        r == stop_run_end(text@, p as int),
{
    let n = text.unicode_len();
    let mut b = p;
    loop
        invariant
            n == text@.len(),
            p <= b <= n,
            stop_run_end(text@, p as int) == stop_run_end(text@, b as int),
        decreases n - b,
    {
        if b < n && stop_char(text.get_char(b)) {
            b = b + 1;
        } else {
            return b;
        }
    }
}

fn find_space_run_end(text: &str, p: usize) -> (r: usize)
    requires
        p <= text@.len(),
    ensures
        r == space_run_end(text@, p as int),
{
    let n = text.unicode_len();
    let mut b = p;
    loop
        invariant
            n == text@.len(),
            p <= b <= n,
            space_run_end(text@, p as int) == space_run_end(text@, b as int),
        decreases n - b,
    {
        if b < n && space_char(text.get_char(b)) {
            b = b + 1;
        } else {
            return b;
        }
    }
}

fn boundary_check(text: &str, p: usize) -> (r: bool)
    requires
        p < text@.len(),
    ensures
        r == boundary_at(text@, p as int),
{
    if !stop_char(text.get_char(p)) {
        return false;
    }
    let b = find_stop_run_end(text, p);
    proof {
        lemma_stop_run_end_bounds(text@, p as int);
    }
    let n = text.unicode_len();
    b < n && space_char(text.get_char(b))
}

fn find_unit_end(text: &str, i: usize) -> (e: usize)
    requires
        i < text@.len(),
    ensures
        e == unit_end(text@, i as int),
        i < e <= text@.len(),
{
    let n = text.unicode_len();
    let mut p = i + 1;
    proof {
        lemma_unit_end_bounds(text@, i as int);
    }
    loop
        invariant
            n == text@.len(),
            i < n,
            i + 1 <= p <= n,
            next_boundary(text@, i as int + 1) == next_boundary(text@, p as int),
        ensures
            p <= n,
            next_boundary(text@, i as int + 1) == next_boundary(text@, p as int),
            p == n || boundary_at(text@, p as int),
        decreases n - p,
    {
        if p == n {
            break;
        }
        if boundary_check(text, p) {
            break;
        }
        p = p + 1;
    }
    if p == n {
        return n;
    }
    let b = find_stop_run_end(text, p);
    proof {
        lemma_stop_run_end_bounds(text@, p as int);
    }
    let e = find_space_run_end(text, b);
    proof {
        lemma_space_run_end_bounds(text@, b as int);
    }
    e
}

/// Splits the input into its translatable units, in order. The unit texts
/// are exactly [`seg_units`] of the input, and each unit's trailing-space
/// flag says whether its span ends in whitespace.
pub fn segment(text: &str) -> (units: Vec<Unit>)
    ensures
        unit_texts(units@) == seg_units(text@),
        forall|k: int|
            0 <= k < units@.len() ==> (#[trigger] units@[k]).trailing_space == ends_in_space(
                units@[k].text@,
            ),
{
    let n = text.unicode_len();
    let mut units: Vec<Unit> = Vec::new();
    let mut i: usize = 0;
    while i < n
        invariant
            n == text@.len(),
            i <= n,
            seg_units(text@) == unit_texts(units@) + seg_units_from(text@, i as int),
            forall|k: int|
                0 <= k < units@.len() ==> (#[trigger] units@[k]).trailing_space == ends_in_space(
                    units@[k].text@,
                ),
        decreases n - i,
    {
        let ghost prev = units@;
        let e = find_unit_end(text, i);
        let piece = text.substring_char(i, e).to_owned();
        let flag = space_char(text.get_char(e - 1));
        units.push(Unit { text: piece, trailing_space: flag });
        proof {
            let s = text@;
            let span = s.subrange(i as int, e as int);
            assert(span.len() > 0);
            assert(span[span.len() - 1] == s[e - 1]);
            assert(unit_texts(units@) =~= unit_texts(prev) + seq![span]);
            assert(unit_texts(prev) + seg_units_from(s, i as int) =~= (unit_texts(prev)
                + seq![span]) + seg_units_from(s, e as int));
        }
        i = e;
    }
    proof {
        assert(seg_units_from(text@, i as int) =~= Seq::empty());
        assert(unit_texts(units@) + seg_units_from(text@, i as int) =~= unit_texts(units@));
    }
    units
}

proof fn lemma_rebuild_from(s: Seq<char>, i: int)
    requires
        0 <= i <= s.len(),
    ensures
        concat_texts(seg_units_from(s, i)) == s.skip(i),
    decreases s.len() - i,
{
    if i >= s.len() {
        assert(s.skip(i) =~= Seq::empty());
    } else {
        lemma_unit_end_bounds(s, i);
        let e = unit_end(s, i);
        lemma_rebuild_from(s, e);
        let units = seg_units_from(s, i);
        assert(units.drop_first() =~= seg_units_from(s, e));
        assert(units[0] == s.subrange(i, e));
        assert(s.subrange(i, e) + s.skip(e) =~= s.skip(i));
    }
}

/// Joining the unit texts in order rebuilds the input exactly: the
/// segmenter never drops or reorders a character.
pub proof fn lemma_units_rebuild_input(s: Seq<char>)
    ensures
        concat_texts(seg_units(s)) == s,
{
    lemma_rebuild_from(s, 0);
    assert(s.skip(0) =~= s);
}

/// A non-empty input with no terminal punctuation is one single unit,
/// equal to the whole input.
pub proof fn lemma_no_terminal_single_unit(s: Seq<char>)
    requires
        s.len() > 0,
        forall|j: int| 0 <= j < s.len() ==> !is_stop_char(#[trigger] s[j]),
    ensures
        seg_units(s) == seq![s],
{
    lemma_next_boundary(s, 1);
    let p = next_boundary(s, 1);
    if p < s.len() {
        assert(boundary_at(s, p));
        assert(is_stop_char(s[p]));
    }
    assert(unit_end(s, 0) == s.len());
    assert(s.subrange(0, s.len() as int) =~= s);
    assert(seg_units(s) == seq![s.subrange(0, s.len() as int)] + seg_units_from(s, s.len() as int));
    assert(seg_units_from(s, s.len() as int) =~= Seq::<Seq<char>>::empty());
    assert(seg_units(s) =~= seq![s]);
}

} // verus!
