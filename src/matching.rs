//! Plant-level matches: which generation units and ETS installations make up one
//! plant, and whether the plant is usable.
//!
//! The numbers of a record (output, emissions, allocations, sigma) stay with the
//! caller; a match refers to its records by their index in the caller's lists.

use vstd::prelude::*;
use vstd::string::*;
use crate::text::{decimal, decimal_of};

verus! {

/// The fuel category of a generation unit.
#[derive(Clone, Copy, PartialEq, Eq, Structural, Debug)]
pub enum Fuel {
    Gas,
    Coal,
    Lignite,
    Oil,
    Other,
}

/// The name of a fuel as it stands in the data.
pub open spec fn fuel_name(f: Fuel) -> Seq<char> {
    match f {
        Fuel::Gas => "gas"@,
        Fuel::Coal => "coal"@,
        Fuel::Lignite => "lignite"@,
        Fuel::Oil => "oil"@,
        Fuel::Other => "other"@,
    }
}

impl Fuel {
    /// The name of the fuel as it stands in the data.
    pub fn name(&self) -> (r: &'static str)
        ensures
            r@ == fuel_name(*self),
    {
        match self {
            Fuel::Gas => "gas",
            Fuel::Coal => "coal",
            Fuel::Lignite => "lignite",
            Fuel::Oil => "oil",
            Fuel::Other => "other",
        }
    }

    /// The fuel of that name; any name but the four fossil fuels' is `Other`.
    pub fn from_name(s: &str) -> (r: Fuel)
        ensures
            fuel_name(r) == s@ || (r == Fuel::Other && forall|f: Fuel| fuel_name(f) != s@),
    {
        let owned = String::from_str(s);
        proof {
            reveal_strlit("gas");
            reveal_strlit("coal");
            reveal_strlit("lignite");
            reveal_strlit("oil");
            reveal_strlit("other");
        }
        if owned == String::from_str("gas") {
            Fuel::Gas
        } else if owned == String::from_str("coal") {
            Fuel::Coal
        } else if owned == String::from_str("lignite") {
            Fuel::Lignite
        } else if owned == String::from_str("oil") {
            Fuel::Oil
        } else {
            assert forall|f: Fuel| fuel_name(f) != s@ || f == Fuel::Other by {}
            if owned == String::from_str("other") {
                assert(fuel_name(Fuel::Other) == s@);
            }
            Fuel::Other
        }
    }
}

/// A generation unit of the data, without its numbers.
pub struct GenerationUnit {
    pub country: String,
    pub name: String,
    pub eic: String,
    pub fuel: Fuel,
}

/// An ETS installation of the data, without its numbers.
pub struct EmissionInstallation {
    pub country: String,
    pub name: String,
    pub id: String,
}

/// Why a match is not used for emission factors.
#[derive(Debug)]
pub enum IgnoreReason {
    /// A manual directive without emission records; it holds the directive's comment.
    Manual(String),
    /// The automatic key of the units is empty.
    MeaninglessName,
    /// Automatic matching found this many installations, not exactly one.
    Ambiguous(usize),
    /// The units generated nothing in total.
    ZeroGeneration,
    /// No fuel makes up 95% of the generation.
    MixedFuels,
    /// The installations emitted nothing in total.
    ZeroEmissions,
    /// The emission factor lies outside the plausible range.
    ImplausibleEmissionFactor,
}

/// The text that reports a reason.
pub open spec fn reason_text(r: IgnoreReason) -> Seq<char> {
    match r {
        IgnoreReason::Manual(c) => "filtered in manual_matches.csv: "@ + c@,
        IgnoreReason::MeaninglessName => "seems to be a meaningless generation unit name"@,
        IgnoreReason::Ambiguous(n) => "found "@ + decimal_of(n as nat) + " possibly matching ETS records"@,
        IgnoreReason::ZeroGeneration => "0 generation"@,
        IgnoreReason::MixedFuels => "uses mixed fuels"@,
        IgnoreReason::ZeroEmissions => "0 emissions"@,
        IgnoreReason::ImplausibleEmissionFactor => "emission factor seems implausible"@,
    }
}

impl IgnoreReason {
    /// The text that reports this reason.
    pub fn text(&self) -> (r: String)
        ensures
            r@ == reason_text(*self),
    {
        match self {
            IgnoreReason::Manual(c) => {
                let mut s = String::from_str("filtered in manual_matches.csv: ");
                s.append(c.as_str());
                s
            },
            IgnoreReason::MeaninglessName => String::from_str("seems to be a meaningless generation unit name"),
            IgnoreReason::Ambiguous(n) => {
                let mut s = String::from_str("found ");
                let d = decimal(*n as u64);
                s.append(d.as_str());
                s.append(" possibly matching ETS records");
                s
            },
            IgnoreReason::ZeroGeneration => String::from_str("0 generation"),
            IgnoreReason::MixedFuels => String::from_str("uses mixed fuels"),
            IgnoreReason::ZeroEmissions => String::from_str("0 emissions"),
            IgnoreReason::ImplausibleEmissionFactor => String::from_str("emission factor seems implausible"),
        }
    }
}

/// The status says the match is ignored by a manual directive with this comment.
pub open spec fn is_manual_ignore(s: Status, comment: Seq<char>) -> bool {
    match s {
        Status::Ignored(IgnoreReason::Manual(c)) => c@ == comment,
        _ => false,
    }
}

/// Whether a match is used; once ignored, it stays ignored with its first reason.
#[derive(Debug)]
pub enum Status {
    Active,
    Ignored(IgnoreReason),
}

/// What a match is, in mathematical terms.
pub struct MatchView {
    pub country: Seq<char>,
    pub name: Seq<char>,
    pub generation: Seq<usize>,
    pub emission: Seq<usize>,
    pub emission_factor_range: Option<(Seq<char>, Seq<char>)>,
    pub status: Status,
}

/// One physical plant: one or more generation units and any number of installations.
/// Units and installations are referred to by their indices in the caller's lists.
/// A plausible emission-factor range `(min, max)` may be set by a manual directive,
/// as written there.
pub struct Match {
    country: String,
    name: String,
    generation: Vec<usize>,
    emission: Vec<usize>,
    emission_factor_range: Option<(String, String)>,
    status: Status,
}

pub open spec fn range_view(r: Option<(String, String)>) -> Option<(Seq<char>, Seq<char>)> {
    match r {
        Some(p) => Some((p.0@, p.1@)),
        None => None,
    }
}

impl View for Match {
    type V = MatchView;

    closed spec fn view(&self) -> MatchView {
        MatchView {
            country: self.country@,
            name: self.name@,
            generation: self.generation@,
            emission: self.emission@,
            emission_factor_range: range_view(self.emission_factor_range),
            status: self.status,
        }
    }
}

impl Match {
    /// A new, active match; its country is that of its first generation unit.
    pub fn new(name: String, units: &Vec<GenerationUnit>, generation: Vec<usize>, emission: Vec<usize>) -> (r: Match)
        requires
            generation.len() > 0,
            generation[0] < units.len(),
        ensures
            r@ == (MatchView {
                country: units[generation[0] as int].country@,
                name: name@,
                generation: generation@,
                emission: emission@,
                emission_factor_range: None,
                status: Status::Active,
            }),
    {
        let country = units[generation[0]].country.clone();
        Match { country, name, generation, emission, emission_factor_range: None, status: Status::Active }
    }

    /// The one transition of the status: from active to ignored, for `reason`.
    pub fn ignore(&mut self, reason: IgnoreReason)
        requires
            old(self)@.status is Active,
        ensures
            final(self)@ == (MatchView { status: Status::Ignored(reason), ..old(self)@ }),
    {
        self.status = Status::Ignored(reason);
    }

    /// Whether the match is ignored.
    pub fn is_ignored(&self) -> (r: bool)
        ensures
            r == (self@.status is Ignored),
    {
        match self.status {
            Status::Active => false,
            Status::Ignored(_) => true,
        }
    }

    /// The reason why the match is ignored, if it is.
    pub fn ignore_reason(&self) -> (r: Option<String>)
        ensures
            match self@.status {
                Status::Active => r.is_none(),
                Status::Ignored(reason) => r is Some && r->0@ == reason_text(reason),
            },
    {
        match &self.status {
            Status::Active => None,
            Status::Ignored(reason) => Some(reason.text()),
        }
    }

    /// The match's country.
    pub fn country(&self) -> (r: &String)
        ensures
            r@ == self@.country,
    {
        &self.country
    }

    /// The match's name.
    pub fn name(&self) -> (r: &String)
        ensures
            r@ == self@.name,
    {
        &self.name
    }

    /// The indices of the match's generation units.
    pub fn generation(&self) -> (r: &Vec<usize>)
        ensures
            r@ == self@.generation,
    {
        &self.generation
    }

    /// The indices of the match's installations.
    pub fn emission(&self) -> (r: &Vec<usize>)
        ensures
            r@ == self@.emission,
    {
        &self.emission
    }

    /// The plausible emission-factor range set for this match, if any.
    pub fn emission_factor_range(&self) -> (r: &Option<(String, String)>)
        ensures
            range_view(*r) == self@.emission_factor_range,
    {
        &self.emission_factor_range
    }

    /// Sets the plausible emission-factor range.
    pub fn set_emission_factor_range(&mut self, min: String, max: String)
        ensures
            final(self)@ == (MatchView { emission_factor_range: Some((min@, max@)), ..old(self)@ }),
    {
        self.emission_factor_range = Some((min, max));
    }
}

proof fn lemma_decimal_nonempty(n: nat)
    ensures
        decimal_of(n).len() > 0,
    decreases n,
{
    if n >= 10 {
        lemma_decimal_nonempty(n / 10);
    }
}

/// Every reason has a text: an ignored match always carries a non-empty reason.
pub proof fn lemma_reason_text_nonempty(r: IgnoreReason)
    ensures
        reason_text(r).len() > 0,
{
    reveal_strlit("filtered in manual_matches.csv: ");
    reveal_strlit("seems to be a meaningless generation unit name");
    reveal_strlit("found ");
    reveal_strlit("0 generation");
    reveal_strlit("uses mixed fuels");
    reveal_strlit("0 emissions");
    reveal_strlit("emission factor seems implausible");
    if let IgnoreReason::Ambiguous(n) = r {
        lemma_decimal_nonempty(n as nat);
    }
}

/// The reason of a manual directive ends with the directive's comment.
pub proof fn lemma_manual_reason_embeds_comment(c: String)
    ensures
        reason_text(IgnoreReason::Manual(c)).subrange(
            reason_text(IgnoreReason::Manual(c)).len() - c@.len(),
            reason_text(IgnoreReason::Manual(c)).len() as int,
        ) == c@,
{
    let t = reason_text(IgnoreReason::Manual(c));
    let p = "filtered in manual_matches.csv: "@;
    assert(t.subrange(p.len() as int, t.len() as int) =~= c@);
}

} // verus!
