//! The pipeline coordinator: folds the per-unit outcomes of one message
//! into a single aggregate.
//!
//! Units are processed in original order. A translated unit contributes
//! its translation; a failed unit contributes its original text — user
//! content is never dropped — and its error description. The descriptions
//! are kept as a sorted, duplicate-free list, so the order failures
//! happened in cannot show in the output, and one flag records whether
//! any unit hit the rate limit: that flag tells the caller to switch
//! translation off for the context.

use vstd::prelude::*;
use vstd::string::StringExecFns;
use crate::outcome::{
    any_rate_limited, error_set, lemma_outcome_push, outcome_views, FailureKind, SpecOutcome,
    UnitOutcome,
};
use crate::segment::Unit;
use crate::text::{
    concat_texts, insert_text, lemma_concat_push, lemma_sorted_unique_canonical, sorted_unique,
    views_of,
};
use crate::translate::{classify_reply, reply_views, spec_classify, HttpReply, SpecReply};

verus! {

/// The combined result of translating all units of one message.
pub struct AggregateOutcome {
    /// Translated text where available, original unit text where not, in
    /// the original unit order.
    pub text: String,
    /// The distinct error descriptions, lexicographically sorted. Empty
    /// exactly when every unit was translated.
    pub errors: Vec<String>,
    /// At least one unit was refused for being over the rate limit.
    pub rate_limited: bool,
}

/// The text the aggregate keeps for one unit: its translation when there
/// is one, the unit's original text otherwise.
pub open spec fn piece(u: Unit, o: SpecOutcome) -> Seq<char> {
    match o {
        SpecOutcome::Translated(t) => t,
        SpecOutcome::Failed(_, _) => u.text@,
    }
}

/// The per-unit texts the aggregate concatenates, in original order.
pub open spec fn pieces(units: Seq<Unit>, outs: Seq<SpecOutcome>) -> Seq<Seq<char>> {
    Seq::new(units.len(), |k: int| piece(units[k], outs[k]))
}

/// A failed unit keeps its original text: the aggregate's piece at a
/// failed position is the unit's own text, not a translation and not
/// empty.
pub proof fn lemma_failed_unit_keeps_original(units: Seq<Unit>, outs: Seq<SpecOutcome>, k: int)
    requires
        units.len() == outs.len(),
        0 <= k < outs.len(),
        outs[k] is Failed,
    ensures
        pieces(units, outs)[k] == units[k].text@,
{
}

/// A clean aggregate is a full translation: when the error set is empty,
/// every unit's outcome was translated, so the aggregate's text is the
/// concatenation of the translations alone.
pub proof fn lemma_clean_aggregate_is_full(outs: Seq<SpecOutcome>)
    requires
        error_set(outs) == Set::<Seq<char>>::empty(),
    ensures
        forall|k: int| 0 <= k < outs.len() ==> (#[trigger] outs[k]) is Translated,
{
    assert forall|k: int| 0 <= k < outs.len() implies (#[trigger] outs[k]) is Translated by {
        match outs[k] {
            SpecOutcome::Failed(_, d) => {
                assert(error_set(outs).contains(d));
            },
            SpecOutcome::Translated(_) => {},
        }
    }
}

/// The error list of an aggregate is canonical: runs whose outcomes carry
/// the same set of error descriptions — in whatever order the failures
/// happened — yield the same sorted, duplicate-free list.
pub proof fn lemma_error_order_irrelevant(
    a: Seq<Seq<char>>,
    b: Seq<Seq<char>>,
    o1: Seq<SpecOutcome>,
    o2: Seq<SpecOutcome>,
)
    requires
        sorted_unique(a),
        sorted_unique(b),
        a.to_set() == error_set(o1),
        b.to_set() == error_set(o2),
        error_set(o1) == error_set(o2),
    ensures
        a == b,
{
    lemma_sorted_unique_canonical(a, b);
}

/// Folds one outcome per unit into the aggregate: translated text or
/// original text in order, the distinct error descriptions sorted, and
/// the rate-limit flag exactly when some unit was rate-limited.
pub fn aggregate(units: &Vec<Unit>, outcomes: &Vec<UnitOutcome>) -> (agg: AggregateOutcome)
    requires
        units@.len() == outcomes@.len(),
    ensures
        agg.text@ == concat_texts(pieces(units@, outcome_views(outcomes@))),
        sorted_unique(views_of(agg.errors@)),
        views_of(agg.errors@).to_set() == error_set(outcome_views(outcomes@)),
        agg.rate_limited == any_rate_limited(outcome_views(outcomes@)),
        (forall|k: int|
            0 <= k < outcomes@.len() ==> (#[trigger] outcome_views(outcomes@)[k]) is Translated)
            ==> agg.errors@.len() == 0,
{
    let ghost outs = outcome_views(outcomes@);
    let ghost ps = pieces(units@, outs);
    let n = units.len();
    let mut text = String::new();
    let mut errors: Vec<String> = Vec::new();
    let mut rate_limited = false;
    let mut k: usize = 0;
    while k < n
        invariant
            n == units@.len(),
            n == outcomes@.len(),
            outs == outcome_views(outcomes@),
            ps == pieces(units@, outs),
            k <= n,
            text@ == concat_texts(ps.take(k as int)),
            sorted_unique(views_of(errors@)),
            views_of(errors@).to_set() == error_set(outs.take(k as int)),
            rate_limited == any_rate_limited(outs.take(k as int)),
        decreases n - k,
    {
        let ghost prefix = outs.take(k as int);
        proof {
            assert(ps.take(k as int + 1) =~= ps.take(k as int).push(ps[k as int]));
            lemma_concat_push(ps.take(k as int), ps[k as int]);
            assert(outs.take(k as int + 1) =~= prefix.push(outs[k as int]));
            lemma_outcome_push(prefix, outs[k as int]);
            assert(outs[k as int] == outcomes@[k as int]@);
        }
        match &outcomes[k] {
            UnitOutcome::Translated(t) => {
                text.append(t.as_str());
                proof {
                    assert(ps[k as int] == t@);
                }
            },
            UnitOutcome::Failed(kind, d) => {
                text.append(units[k].text.as_str());
                insert_text(&mut errors, d);
                let over = match kind {
                    FailureKind::RateLimited => true,
                    _ => false,
                };
                rate_limited = rate_limited || over;
                proof {
                    assert(ps[k as int] == units@[k as int].text@);
                }
            },
        }
        k = k + 1;
    }
    proof {
        assert(ps.take(n as int) =~= ps);
        assert(outs.take(n as int) =~= outs);
        if forall|j: int| 0 <= j < outs.len() ==> (#[trigger] outs[j]) is Translated {
            assert forall|x: Seq<char>| !error_set(outs).contains(x) by {
                if error_set(outs).contains(x) {
                    let j = choose|j: int|
                        0 <= j < outs.len() && ((#[trigger] outs[j]) matches SpecOutcome::Failed(
                            _,
                            dd,
                        ) && dd == x);
                }
            }
            assert(error_set(outs) =~= Set::<Seq<char>>::empty());
            if errors@.len() > 0 {
                assert(views_of(errors@).to_set().contains(views_of(errors@)[0]));
            }
        }
    }
    AggregateOutcome { text, errors, rate_limited }
}

/// The classified outcome of every unit of a message, given what came
/// back for each.
pub open spec fn classified_outcomes(units: Seq<Unit>, rs: Seq<SpecReply>) -> Seq<SpecOutcome> {
    Seq::new(units.len(), |k: int| spec_classify(units[k].trailing_space, rs[k]))
}

/// Translates a whole message: classifies what came back for each unit,
/// in order, and folds the outcomes into one aggregate.
pub fn complete_message(units: &Vec<Unit>, replies: &Vec<HttpReply>) -> (agg: AggregateOutcome)
    requires
        units@.len() == replies@.len(),
    ensures
        ({
            let outs = classified_outcomes(units@, reply_views(replies@));
            &&& agg.text@ == concat_texts(pieces(units@, outs))
            &&& sorted_unique(views_of(agg.errors@))
            &&& views_of(agg.errors@).to_set() == error_set(outs)
            &&& agg.rate_limited == any_rate_limited(outs)
        }),
{
    let ghost spec_outs = classified_outcomes(units@, reply_views(replies@));
    let n = units.len();
    let mut outcomes: Vec<UnitOutcome> = Vec::new();
    let mut k: usize = 0;
    while k < n
        invariant
            n == units@.len(),
            n == replies@.len(),
            spec_outs == classified_outcomes(units@, reply_views(replies@)),
            k <= n,
            outcomes@.len() == k,
            forall|j: int| 0 <= j < k ==> (#[trigger] outcomes@[j])@ == spec_outs[j],
        decreases n - k,
    {
        let o = classify_reply(&units[k], &replies[k]);
        proof {
            assert(reply_views(replies@)[k as int] == replies@[k as int]@);
        }
        outcomes.push(o);
        k = k + 1;
    }
    proof {
        assert(outcome_views(outcomes@) =~= spec_outs);
    }
    aggregate(units, &outcomes)
}

/// The descriptions joined into one display line, space-separated.
pub open spec fn joined(vs: Seq<Seq<char>>) -> Seq<char>
    decreases vs.len(),
{
    if vs.len() == 0 {
        Seq::empty()
    } else if vs.len() == 1 {
        vs[0]
    } else {
        vs[0] + " "@ + joined(vs.drop_first())
    }
}

proof fn lemma_joined_push(vs: Seq<Seq<char>>, x: Seq<char>)
    ensures
        vs.len() == 0 ==> joined(vs.push(x)) == x,
        vs.len() > 0 ==> joined(vs.push(x)) == joined(vs) + " "@ + x,
    decreases vs.len(),
{
    if vs.len() == 0 {
        assert(vs.push(x)[0] == x);
    } else if vs.len() == 1 {
        assert(vs.push(x)[0] == vs[0]);
        assert(vs.push(x).drop_first() =~= seq![x]);
        assert(seq![x].len() == 1);
        assert(joined(seq![x]) == x);
        assert(joined(vs.push(x)) == vs.push(x)[0] + " "@ + joined(vs.push(x).drop_first()));
        assert(joined(vs.push(x)) == vs[0] + " "@ + x);
    } else {
        assert(vs.push(x).drop_first() =~= vs.drop_first().push(x));
        lemma_joined_push(vs.drop_first(), x);
        assert(vs.push(x)[0] == vs[0]);
        assert(vs[0] + " "@ + (joined(vs.drop_first()) + " "@ + x) =~= (vs[0] + " "@ + joined(
            vs.drop_first(),
        )) + " "@ + x);
    }
}

impl AggregateOutcome {
    /// One display line with every distinct error description, in sorted
    /// order, space-separated.
    pub fn error_summary(&self) -> (r: String)
        ensures
            r@ == joined(views_of(self.errors@)),
    {
        let ghost vs = views_of(self.errors@);
        let n = self.errors.len();
        let mut r = String::new();
        let mut k: usize = 0;
        while k < n
            invariant
                n == self.errors@.len(),
                vs == views_of(self.errors@),
                k <= n,
                r@ == joined(vs.take(k as int)),
            decreases n - k,
        {
            proof {
                assert(vs.take(k as int + 1) =~= vs.take(k as int).push(vs[k as int]));
                lemma_joined_push(vs.take(k as int), vs[k as int]);
            }
            if k > 0 {
                r.append(" ");
            }
            r.append(self.errors[k].as_str());
            k = k + 1;
        }
        proof {
            assert(vs.take(n as int) =~= vs);
        }
        r
    }
}

} // verus!
