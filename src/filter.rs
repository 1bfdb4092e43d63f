//! The rule chain that decides which matches are usable.
//!
//! The quantities behind the rules (generation, emissions, fuel shares) are summed by
//! the caller; here they arrive as the facts that the rules read.

use vstd::prelude::*;
use crate::matching::{Fuel, IgnoreReason, Match, MatchView, Status};

verus! {

/// What the rules need to know of a match's numbers.
#[derive(Clone, Copy, PartialEq, Eq, Structural, Debug)]
pub struct MatchFacts {
    /// The fuel that makes up at least 95% of the match's generation, if one does.
    pub dominant_fuel: Option<Fuel>,
    /// The summed generation of the match is exactly zero.
    pub generation_is_zero: bool,
    /// The summed verified emissions of the match are exactly zero.
    pub emissions_are_zero: bool,
}

/// A match whose dominant fuel is `Other` is dropped from all output.
pub open spec fn is_dropped(f: MatchFacts) -> bool {
    f.dominant_fuel == Some(Fuel::Other)
}

/// The status of a kept match after the rules, in their order: an ignored match stays
/// as it is; then zero generation, no dominant fuel, zero emissions.
pub open spec fn status_after_rules(s: Status, f: MatchFacts) -> Status {
    if s is Ignored {
        s
    } else if f.generation_is_zero {
        Status::Ignored(IgnoreReason::ZeroGeneration)
    } else if f.dominant_fuel.is_none() {
        Status::Ignored(IgnoreReason::MixedFuels)
    } else if f.emissions_are_zero {
        Status::Ignored(IgnoreReason::ZeroEmissions)
    } else {
        s
    }
}

/// Applies the rules to one match: `false` when the match is to be dropped; else the
/// match's status follows the rules.
pub fn filter_match(m: &mut Match, f: &MatchFacts) -> (keep: bool)
    ensures
        keep == !is_dropped(*f),
        keep ==> final(m)@ == (MatchView { status: status_after_rules(old(m)@.status, *f), ..old(m)@ }),
        !keep ==> final(m)@ == old(m)@,
{
    if f.dominant_fuel == Some(Fuel::Other) {
        return false;
    }
    if m.is_ignored() {
    } else if f.generation_is_zero {
        m.ignore(IgnoreReason::ZeroGeneration);
    } else if f.dominant_fuel.is_none() {
        m.ignore(IgnoreReason::MixedFuels);
    } else if f.emissions_are_zero {
        m.ignore(IgnoreReason::ZeroEmissions);
    }
    true
}

/// The matches that are kept, each with the status the rules give it, in order, with
/// their facts beside them.
pub open spec fn filtered(ms: Seq<MatchView>, fs: Seq<MatchFacts>) -> Seq<(MatchView, MatchFacts)>
    decreases ms.len(),
{
    if ms.len() == 0 || fs.len() != ms.len() {
        Seq::empty()
    } else {
        let before = filtered(ms.drop_last(), fs.drop_last());
        let f = fs.last();
        if is_dropped(f) {
            before
        } else {
            before.push((MatchView { status: status_after_rules(ms.last().status, f), ..ms.last() }, f))
        }
    }
}

/// Views of the matches.
pub open spec fn views(ms: Seq<Match>) -> Seq<MatchView> {
    ms.map_values(|m: Match| m@)
}

/// Applies the rules to each match with the facts at the same index, keeping the order.
pub fn filter_matches(matches: Vec<Match>, facts: &Vec<MatchFacts>) -> (r: (Vec<Match>, Vec<MatchFacts>))
    requires
        matches.len() == facts.len(),
    ensures
        r.0.len() == r.1.len(),
        filtered(views(matches@), facts@) == Seq::new(r.0.len() as nat, |k: int| (r.0@[k]@, r.1@[k])),
        forall|k: int| 0 <= k < r.1.len() ==> !is_dropped(#[trigger] r.1@[k]),
{
    let ghost ms = views(matches@);
    let ghost fs = facts@;
    let n = matches.len();
    let mut matches = matches;
    let mut rev: Vec<Match> = Vec::new();
    while matches.len() > 0
        invariant
            n == ms.len(),
            matches.len() + rev.len() == n,
            forall|k: int| 0 <= k < matches.len() ==> #[trigger] matches@[k]@ == ms[k],
            forall|k: int| 0 <= k < rev.len() ==> #[trigger] rev@[k]@ == ms[n - 1 - k],
        decreases matches.len(),
    {
        let m = matches.pop().unwrap();
        rev.push(m);
    }
    let mut kept: Vec<Match> = Vec::new();
    let mut kept_facts: Vec<MatchFacts> = Vec::new();
    let mut i: usize = 0;
    assert(ms.take(0) =~= Seq::<MatchView>::empty());
    while i < n
        invariant
            n == ms.len(),
            n == fs.len(),
            fs == facts@,
            rev.len() == n - i,
            i <= n,
            forall|k: int| 0 <= k < rev.len() ==> #[trigger] rev@[k]@ == ms[n - 1 - k],
            kept.len() == kept_facts.len(),
            filtered(ms.take(i as int), fs.take(i as int)) == Seq::new(kept.len() as nat, |k: int| (kept@[k]@, kept_facts@[k])),
            forall|k: int| 0 <= k < kept_facts.len() ==> !is_dropped(#[trigger] kept_facts@[k]),
        decreases n - i,
    {
        let mut m = rev.pop().unwrap();
        let f = facts[i];
        let ghost before = Seq::new(kept.len() as nat, |k: int| (kept@[k]@, kept_facts@[k]));
        assert(ms.take(i + 1).drop_last() =~= ms.take(i as int));
        assert(fs.take(i + 1).drop_last() =~= fs.take(i as int));
        if filter_match(&mut m, &f) {
            kept.push(m);
            kept_facts.push(f);
            assert(Seq::new(kept.len() as nat, |k: int| (kept@[k]@, kept_facts@[k])) =~= before.push((kept@[kept.len() - 1]@, f)));
        } else {
            assert(Seq::new(kept.len() as nat, |k: int| (kept@[k]@, kept_facts@[k])) =~= before);
        }
        i = i + 1;
    }
    assert(ms.take(n as int) =~= ms);
    assert(fs.take(n as int) =~= fs);
    (kept, kept_facts)
}

/// The terminal plausibility gate: an active match whose emission factor lies outside
/// its plausible range is ignored.
pub fn check_plausibility(m: &mut Match, plausible: bool)
    ensures
        final(m)@ == if old(m)@.status is Active && !plausible {
            MatchView { status: Status::Ignored(IgnoreReason::ImplausibleEmissionFactor), ..old(m)@ }
        } else {
            old(m)@
        },
{
    if !plausible && !m.is_ignored() {
        m.ignore(IgnoreReason::ImplausibleEmissionFactor);
    }
}

/// A match whose dominant fuel is `Other` is never kept, so it reaches neither the
/// usable nor the ignored output.
pub proof fn lemma_other_never_kept(ms: Seq<MatchView>, fs: Seq<MatchFacts>)
    ensures
        forall|k: int| 0 <= k < filtered(ms, fs).len() ==> (#[trigger] filtered(ms, fs)[k]).1.dominant_fuel != Some(Fuel::Other),
    decreases ms.len(),
{
    if ms.len() > 0 && fs.len() == ms.len() {
        lemma_other_never_kept(ms.drop_last(), fs.drop_last());
        let before = filtered(ms.drop_last(), fs.drop_last());
        assert forall|k: int| 0 <= k < filtered(ms, fs).len() implies (#[trigger] filtered(ms, fs)[k]).1.dominant_fuel != Some(Fuel::Other) by {
            if k < before.len() {
                assert(filtered(ms, fs)[k] == before[k]);
            }
        }
    }
}

/// After the rules, a kept match is either ignored, or active with a dominant fuel that
/// is not `Other`, generation and emissions both non-zero.
pub proof fn lemma_active_after_rules(s: Status, f: MatchFacts)
    requires
        !is_dropped(f),
        status_after_rules(s, f) is Active,
    ensures
        f.dominant_fuel is Some,
        f.dominant_fuel != Some(Fuel::Other),
        !f.generation_is_zero,
        !f.emissions_are_zero,
{
}

} // verus!
