//! Characters and text order: the punctuation and whitespace classes that
//! drive segmentation, a lexicographic order on character sequences, and
//! sorted duplicate-free lists of strings used for error descriptions.

use vstd::prelude::*;

verus! {

/// Sentence-terminal punctuation: a translatable unit ends after a run of
/// these characters followed by whitespace.
pub open spec fn is_stop_char(c: char) -> bool {
    c == '.' || c == '?' || c == '!' || c == ';' || c == '|'
}

/// Whitespace for the purposes of segmentation.
pub open spec fn is_space_char(c: char) -> bool {
    c == ' ' || c == '\t' || c == '\n' || c == '\r' || c == '\u{b}' || c == '\u{c}'
}

/// Executable test for [`is_stop_char`].
pub fn stop_char(c: char) -> (r: bool)
    ensures
        r == is_stop_char(c),
{
    c == '.' || c == '?' || c == '!' || c == ';' || c == '|'
}

/// Executable test for [`is_space_char`].
pub fn space_char(c: char) -> (r: bool)
    ensures
        r == is_space_char(c),
{
    c == ' ' || c == '\t' || c == '\n' || c == '\r' || c == '\u{b}' || c == '\u{c}'
}

/// Strict lexicographic order on character sequences, by code point: `a`
/// comes before `b` when `a` is a proper prefix of `b`, or the first
/// differing character of `a` is the smaller one.
pub open spec fn lex_lt(a: Seq<char>, b: Seq<char>) -> bool
    decreases a.len(),
{
    if b.len() == 0 {
        false
    } else if a.len() == 0 {
        true
    } else if (a[0] as u32) < (b[0] as u32) {
        true
    } else {
        a[0] == b[0] && lex_lt(a.drop_first(), b.drop_first())
    }
}

/// Exactly one of `lex_lt(a, b)`, `a == b`, `lex_lt(b, a)` holds.
pub proof fn lemma_lex_trichotomy(a: Seq<char>, b: Seq<char>)
    ensures
        lex_lt(a, b) || lex_lt(b, a) || a == b,
        !(lex_lt(a, b) && lex_lt(b, a)),
        lex_lt(a, b) ==> a != b,
    decreases a.len(),
{
    if a.len() == 0 || b.len() == 0 {
        if a.len() == 0 && b.len() == 0 {
            assert(a =~= b);
        }
    } else {
        lemma_lex_trichotomy(a.drop_first(), b.drop_first());
        vstd::utf8::char_u32_cast(a[0], a[0] as u32);
        vstd::utf8::char_u32_cast(b[0], b[0] as u32);
        assert(a[0] != b[0] ==> (a[0] as u32) != (b[0] as u32));
        if a[0] == b[0] && a.drop_first() == b.drop_first() {
            assert forall|i: int| 0 <= i < a.len() implies a[i] == b[i] by {
                if i > 0 {
                    assert(a.drop_first()[i - 1] == a[i]);
                    assert(b.drop_first()[i - 1] == b[i]);
                }
            }
            assert(a =~= b);
        }
        if a == b {
            assert(a.drop_first() =~= b.drop_first());
        }
    }
}

/// Lexicographic order is transitive.
pub proof fn lemma_lex_transitive(a: Seq<char>, b: Seq<char>, c: Seq<char>)
    requires
        lex_lt(a, b),
        lex_lt(b, c),
    ensures
        lex_lt(a, c),
    decreases a.len(),
{
    if a.len() == 0 || b.len() == 0 || c.len() == 0 {
    } else {
        if a[0] == b[0] && b[0] == c[0] {
            lemma_lex_transitive(a.drop_first(), b.drop_first(), c.drop_first());
        }
    }
}

/// Two sequences with an equal prefix of length `i` compare the same way
/// as their tails past that prefix.
pub proof fn lemma_lex_skip(a: Seq<char>, b: Seq<char>, i: int)
    requires
        0 <= i <= a.len(),
        i <= b.len(),
        forall|j: int| 0 <= j < i ==> a[j] == b[j],
    ensures
        lex_lt(a, b) == lex_lt(a.skip(i), b.skip(i)),
    decreases i,
{
    if i == 0 {
        assert(a.skip(0) =~= a);
        assert(b.skip(0) =~= b);
    } else {
        assert(a[0] == b[0]);
        lemma_lex_skip(a.drop_first(), b.drop_first(), i - 1);
        assert(a.drop_first().skip(i - 1) =~= a.skip(i));
        assert(b.drop_first().skip(i - 1) =~= b.skip(i));
    }
}

/// Result of comparing two pieces of text.
pub enum TextOrder {
    Before,
    Same,
    After,
}

/// Compares two strings in the lexicographic order of [`lex_lt`].
pub fn compare_text(a: &str, b: &str) -> (r: TextOrder)
    ensures
        r is Before <==> lex_lt(a@, b@),
        r is Same <==> a@ == b@,
        r is After <==> lex_lt(b@, a@),
{
    let na = a.unicode_len();
    let nb = b.unicode_len();
    let mut i: usize = 0;
    loop
        invariant
            na == a@.len(),
            nb == b@.len(),
            i <= na,
            i <= nb,
            forall|j: int| 0 <= j < i ==> a@[j] == b@[j],
        decreases na - i,
    {
        proof {
            lemma_lex_trichotomy(a@, b@);
        }
        if i == na && i == nb {
            proof {
                assert(a@ =~= b@);
            }
            return TextOrder::Same;
        }
        if i == na {
            proof {
                lemma_lex_skip(a@, b@, i as int);
                assert(a@.skip(i as int).len() == 0);
                assert(b@.skip(i as int).len() > 0);
            }
            return TextOrder::Before;
        }
        if i == nb {
            proof {
                lemma_lex_skip(b@, a@, i as int);
                assert(b@.skip(i as int).len() == 0);
                assert(a@.skip(i as int).len() > 0);
            }
            return TextOrder::After;
        }
        let ca = a.get_char(i);
        let cb = b.get_char(i);
        if ca == cb {
            i = i + 1;
        } else if (ca as u32) < (cb as u32) {
            proof {
                lemma_lex_skip(a@, b@, i as int);
                assert(a@.skip(i as int)[0] == a@[i as int]);
            }
            return TextOrder::Before;
        } else {
            proof {
                lemma_lex_skip(b@, a@, i as int);
                assert(b@.skip(i as int)[0] == b@[i as int]);
                vstd::utf8::char_u32_cast(ca, ca as u32);
                vstd::utf8::char_u32_cast(cb, cb as u32);
                assert((cb as u32) < (ca as u32));
            }
            return TextOrder::After;
        }
    }
}

/// Concatenation of a sequence of texts, in order.
pub open spec fn concat_texts(ts: Seq<Seq<char>>) -> Seq<char>
    decreases ts.len(),
{
    if ts.len() == 0 {
        Seq::empty()
    } else {
        ts[0] + concat_texts(ts.drop_first())
    }
}

/// Concatenation distributes over appending one more text.
pub proof fn lemma_concat_push(ts: Seq<Seq<char>>, x: Seq<char>)
    ensures
        concat_texts(ts.push(x)) == concat_texts(ts) + x,
    decreases ts.len(),
{
    if ts.len() == 0 {
        assert(ts.push(x).drop_first() =~= Seq::<Seq<char>>::empty());
        assert(ts.push(x)[0] == x);
        assert(concat_texts(ts.push(x)) == x + concat_texts(Seq::<Seq<char>>::empty()));
        assert(concat_texts(Seq::<Seq<char>>::empty()) == Seq::<char>::empty());
        assert(concat_texts(ts) == Seq::<char>::empty());
        assert(x + Seq::<char>::empty() =~= x);
        assert(Seq::<char>::empty() + x =~= x);
    } else {
        assert(ts.push(x).drop_first() =~= ts.drop_first().push(x));
        lemma_concat_push(ts.drop_first(), x);
        assert(ts.push(x)[0] == ts[0]);
        assert(concat_texts(ts.push(x)) == ts[0] + (concat_texts(ts.drop_first()) + x));
        assert(concat_texts(ts) == ts[0] + concat_texts(ts.drop_first()));
        assert(ts[0] + (concat_texts(ts.drop_first()) + x) =~= (ts[0] + concat_texts(
            ts.drop_first(),
        )) + x);
    }
}

/// The views of a list of strings.
pub open spec fn views_of(es: Seq<String>) -> Seq<Seq<char>> {
    es.map_values(|s: String| s@)
}

/// The sequence is strictly increasing in [`lex_lt`]: sorted, no duplicates.
pub open spec fn sorted_unique(vs: Seq<Seq<char>>) -> bool {
    forall|i: int, j: int| 0 <= i < j < vs.len() ==> lex_lt(vs[i], vs[j])
}

/// A sorted duplicate-free sequence is determined by the set of its
/// elements: two such sequences over the same set are equal, whatever
/// order the elements were collected in.
pub proof fn lemma_sorted_unique_canonical(x: Seq<Seq<char>>, y: Seq<Seq<char>>)
    requires
        sorted_unique(x),
        sorted_unique(y),
        x.to_set() == y.to_set(),
    ensures
        x == y,
    decreases x.len(),
{
    if x.len() == 0 {
        if y.len() > 0 {
            assert(y.to_set().contains(y[0]));
            assert(x.contains(y[0]));
        }
        assert(x =~= y);
    } else if y.len() == 0 {
        assert(x.to_set().contains(x[0]));
        assert(y.contains(x[0]));
    } else {
        // The heads agree: each is the strict minimum of the common set.
        assert(x.to_set().contains(x[0]));
        assert(y.to_set().contains(y[0]));
        assert(x.contains(y[0]));
        assert(y.contains(x[0]));
        let ix = choose|ix: int| 0 <= ix < x.len() && x[ix] == y[0];
        let iy = choose|iy: int| 0 <= iy < y.len() && y[iy] == x[0];
        lemma_lex_trichotomy(x[0], y[0]);
        if x[0] != y[0] {
            assert(ix > 0 && iy > 0);
            assert(lex_lt(x[0], x[ix]));
            assert(lex_lt(y[0], y[iy]));
        }
        assert(x[0] == y[0]);
        // The head is in neither tail, so the tails cover the same set.
        let xt = x.drop_first();
        let yt = y.drop_first();
        assert forall|v: Seq<char>| xt.to_set().contains(v) implies yt.to_set().contains(v) by {
            let k = choose|k: int| 0 <= k < xt.len() && xt[k] == v;
            assert(x[k + 1] == v);
            assert(x.to_set().contains(v));
            assert(y.contains(v));
            let m = choose|m: int| 0 <= m < y.len() && y[m] == v;
            lemma_lex_trichotomy(v, y[0]);
            assert(lex_lt(x[0], v));
            if m == 0 {
                assert(lex_lt(y[0], v) && v == y[0]);
            }
            assert(yt[m - 1] == v);
            assert(yt.contains(v));
        }
        assert forall|v: Seq<char>| yt.to_set().contains(v) implies xt.to_set().contains(v) by {
            let k = choose|k: int| 0 <= k < yt.len() && yt[k] == v;
            assert(y[k + 1] == v);
            assert(y.to_set().contains(v));
            assert(x.contains(v));
            let m = choose|m: int| 0 <= m < x.len() && x[m] == v;
            lemma_lex_trichotomy(v, x[0]);
            assert(lex_lt(y[0], v));
            if m == 0 {
                assert(lex_lt(x[0], v) && v == x[0]);
            }
            assert(xt[m - 1] == v);
            assert(xt.contains(v));
        }
        assert(xt.to_set() =~= yt.to_set());
        assert(sorted_unique(xt)) by {
            assert(forall|i: int, j: int|
                0 <= i < j < xt.len() ==> xt[i] == x[i + 1] && xt[j] == x[j + 1]);
        }
        assert(sorted_unique(yt)) by {
            assert(forall|i: int, j: int|
                0 <= i < j < yt.len() ==> yt[i] == y[i + 1] && yt[j] == y[j + 1]);
        }
        lemma_sorted_unique_canonical(xt, yt);
        assert forall|i: int| 0 <= i < x.len() implies x[i] == y[i] by {
            if i > 0 {
                assert(xt[i - 1] == x[i]);
                assert(yt[i - 1] == y[i]);
                assert(xt[i - 1] == yt[i - 1]);
            }
        }
        assert(x =~= y);
    }
}

/// Inserts a description into a sorted duplicate-free list, keeping it
/// sorted and duplicate-free; the set of elements gains exactly `e`.
pub fn insert_text(list: &mut Vec<String>, e: &String)
    requires
        sorted_unique(views_of(old(list)@)),
    ensures
        sorted_unique(views_of(final(list)@)),
        views_of(final(list)@).to_set() == views_of(old(list)@).to_set().insert(e@),
{
    let ghost orig = views_of(list@);
    let n = list.len();
    let mut i: usize = 0;
    loop
        invariant
            sorted_unique(orig),
            orig == views_of(list@),
            n == list@.len(),
            i <= n,
            forall|j: int| 0 <= j < i ==> lex_lt(orig[j], e@),
        ensures
            i <= n,
            orig == views_of(list@),
            forall|j: int| 0 <= j < i ==> lex_lt(orig[j], e@),
            i == n || lex_lt(e@, orig[i as int]),
        decreases n - i,
    {
        if i == n {
            break;
        }
        match compare_text(list[i].as_str(), e.as_str()) {
            TextOrder::Before => {
                i = i + 1;
            },
            TextOrder::Same => {
                // Already present: the list is unchanged and the set
                // already holds `e`.
                proof {
                    assert(orig[i as int] == e@);
                    assert(orig.to_set().contains(e@));
                    assert(orig.to_set() =~= orig.to_set().insert(e@));
                }
                return ;
            },
            TextOrder::After => {
                break;
            },
        }
    }
    list.insert(i, e.clone());
    proof {
        let now = views_of(list@);
        assert(now =~= orig.insert(i as int, e@)) by {
            assert(forall|k: int| 0 <= k < now.len() ==> now[k] == list@[k]@);
            assert(list@ == old(list)@.insert(i as int, *e));
            assert(forall|k: int| 0 <= k < i ==> now[k] == orig[k]);
            assert(now[i as int] == e@);
            assert(forall|k: int| i < k < now.len() ==> now[k] == orig[k - 1]);
        }
        assert(sorted_unique(now)) by {
            assert forall|p: int, q: int| 0 <= p < q < now.len() implies lex_lt(now[p], now[q]) by {
                if q < i {
                    assert(now[p] == orig[p] && now[q] == orig[q]);
                } else if p > i {
                    assert(now[p] == orig[p - 1] && now[q] == orig[q - 1]);
                } else if p < i && q == i {
                    assert(now[p] == orig[p]);
                    assert(lex_lt(orig[p], e@));
                } else if p == i {
                    assert(now[q] == orig[q - 1]);
                    assert(i < n);
                    assert(lex_lt(e@, orig[i as int]));
                    if q - 1 > i {
                        lemma_lex_transitive(e@, orig[i as int], orig[q - 1]);
                    }
                } else {
                    // p < i < q: both sides relate through the old order.
                    assert(now[p] == orig[p] && now[q] == orig[q - 1]);
                    assert(lex_lt(orig[p], e@));
                    assert(i < n);
                    assert(lex_lt(e@, orig[i as int]));
                    if q - 1 == i {
                        lemma_lex_transitive(orig[p], e@, orig[q - 1]);
                    } else {
                        lemma_lex_transitive(e@, orig[i as int], orig[q - 1]);
                        lemma_lex_transitive(orig[p], e@, orig[q - 1]);
                    }
                }
            }
        }
        assert(now.to_set() =~= orig.to_set().insert(e@)) by {
            assert forall|v: Seq<char>| now.to_set().contains(v) implies orig.to_set().insert(
                e@,
            ).contains(v) by {
                let k = choose|k: int| 0 <= k < now.len() && now[k] == v;
                if k < i {
                    assert(orig[k] == v);
                    assert(orig.contains(v));
                } else if k > i {
                    assert(orig[k - 1] == v);
                    assert(orig.contains(v));
                }
            }
            assert forall|v: Seq<char>| orig.to_set().insert(e@).contains(v) implies
                now.to_set().contains(v) by {
                if v == e@ {
                    assert(now[i as int] == v);
                    assert(now.contains(v));
                } else {
                    let k = choose|k: int| 0 <= k < orig.len() && orig[k] == v;
                    if k < i {
                        assert(now[k] == v);
                    } else {
                        assert(now[k + 1] == v);
                    }
                    assert(now.contains(v));
                }
            }
        }
    }
}

} // verus!
