//! Per-unit translation outcomes.
//!
//! Each unit's round trip ends in exactly one outcome: the translated
//! text, or a classified failure carrying a description. The failure
//! classes matter to the caller: a transient failure is only reported, a
//! rate-limited one must also switch translation off for the context.

use vstd::prelude::*;

verus! {

/// Why one unit's translation failed.
#[derive(Clone, Copy, Debug, PartialEq, Eq, Structural)]
pub enum FailureKind {
    /// Transport-level failure: no response, or a timeout.
    Transient,
    /// The response was unusable: an error status, an unreadable body, or
    /// a body without the translated text where it belongs.
    Malformed,
    /// The server signalled that the translation quota is used up.
    RateLimited,
}

/// The outcome of translating one unit.
pub enum UnitOutcome {
    /// The unit's translation.
    Translated(String),
    /// The unit failed, with its class and a description for the user.
    Failed(FailureKind, String),
}

/// Mathematical form of a [`UnitOutcome`]: the same shape over `Seq<char>`.
pub enum SpecOutcome {
    Translated(Seq<char>),
    Failed(FailureKind, Seq<char>),
}

impl View for UnitOutcome {
    type V = SpecOutcome;

    open spec fn view(&self) -> SpecOutcome {
        match self {
            UnitOutcome::Translated(t) => SpecOutcome::Translated(t@),
            UnitOutcome::Failed(k, d) => SpecOutcome::Failed(*k, d@),
        }
    }
}

/// The views of a list of outcomes.
pub open spec fn outcome_views(os: Seq<UnitOutcome>) -> Seq<SpecOutcome> {
    os.map_values(|o: UnitOutcome| o@)
}

/// The distinct error descriptions among the outcomes.
pub open spec fn error_set(outs: Seq<SpecOutcome>) -> Set<Seq<char>> {
    Set::new(
        |d: Seq<char>|
            exists|k: int|
                0 <= k < outs.len() && ((#[trigger] outs[k]) matches SpecOutcome::Failed(_, dd)
                    && dd == d),
    )
}

/// At least one outcome was classified rate-limited.
pub open spec fn any_rate_limited(outs: Seq<SpecOutcome>) -> bool {
    exists|k: int|
        0 <= k < outs.len() && (#[trigger] outs[k]) matches SpecOutcome::Failed(
            FailureKind::RateLimited,
            _,
        )
}

/// Appending one outcome grows the error set by exactly its description
/// when it failed, and not at all when it was translated; the rate-limit
/// flag grows the same way.
pub proof fn lemma_outcome_push(outs: Seq<SpecOutcome>, o: SpecOutcome)
    ensures
        o matches SpecOutcome::Failed(_, d) ==> error_set(outs.push(o)) == error_set(outs).insert(
            d,
        ),
        o is Translated ==> error_set(outs.push(o)) == error_set(outs),
        any_rate_limited(outs.push(o)) == (any_rate_limited(outs) || (o matches SpecOutcome::Failed(
            FailureKind::RateLimited,
            _,
        ))),
{
    let all = outs.push(o);
    let n = outs.len() as int;
    assert(all[n] == o);
    assert(forall|k: int| 0 <= k < n ==> all[k] == outs[k]);
    match o {
        SpecOutcome::Failed(kind0, d) => {
            assert forall|x: Seq<char>| error_set(all).contains(x) implies error_set(
                outs,
            ).insert(d).contains(x) by {
                let k = choose|k: int|
                    0 <= k < all.len() && ((#[trigger] all[k]) matches SpecOutcome::Failed(_, dd)
                        && dd == x);
                if k < n {
                    assert(outs[k] == all[k]);
                    assert(error_set(outs).contains(x));
                }
            }
            assert forall|x: Seq<char>| error_set(outs).insert(d).contains(x) implies error_set(
                all,
            ).contains(x) by {
                if x == d {
                    assert(all[n] matches SpecOutcome::Failed(_, dd) && dd == x);
                } else {
                    let k = choose|k: int|
                        0 <= k < outs.len() && ((#[trigger] outs[k]) matches SpecOutcome::Failed(
                            _,
                            dd,
                        ) && dd == x);
                    assert(all[k] matches SpecOutcome::Failed(_, dd) && dd == x);
                }
            }
            assert(error_set(all) =~= error_set(outs).insert(d));
            if kind0 is RateLimited {
                assert(all[n] matches SpecOutcome::Failed(FailureKind::RateLimited, _));
                assert(any_rate_limited(all));
            }
        },
        SpecOutcome::Translated(_) => {
            assert forall|x: Seq<char>| error_set(all).contains(x) implies error_set(
                outs,
            ).contains(x) by {
                let k = choose|k: int|
                    0 <= k < all.len() && ((#[trigger] all[k]) matches SpecOutcome::Failed(_, dd)
                        && dd == x);
                assert(k < n);
                assert(outs[k] == all[k]);
            }
            assert forall|x: Seq<char>| error_set(outs).contains(x) implies error_set(
                all,
            ).contains(x) by {
                let k = choose|k: int|
                    0 <= k < outs.len() && ((#[trigger] outs[k]) matches SpecOutcome::Failed(_, dd)
                        && dd == x);
                assert(all[k] matches SpecOutcome::Failed(_, dd) && dd == x);
            }
            assert(error_set(all) =~= error_set(outs));
        },
    }
    if any_rate_limited(all) {
        let k = choose|k: int|
            0 <= k < all.len() && (#[trigger] all[k]) matches SpecOutcome::Failed(
                FailureKind::RateLimited,
                _,
            );
        if k < n {
            assert(outs[k] == all[k]);
            assert(any_rate_limited(outs));
        }
    }
    if any_rate_limited(outs) {
        let k = choose|k: int|
            0 <= k < outs.len() && (#[trigger] outs[k]) matches SpecOutcome::Failed(
                FailureKind::RateLimited,
                _,
            );
        assert(all[k] matches SpecOutcome::Failed(FailureKind::RateLimited, _));
        assert(any_rate_limited(all));
    }
}

} // verus!
