//! Manual match directives: curated pairings of generation units and installations
//! that take precedence over automatic matching.
//!
//! A directive lists generation names and emission names, each separated by `|`,
//! settings as `key:value` items separated by `|`, and a comment. Every named record
//! is claimed from its pool exactly once over all directives.

use vstd::prelude::*;
use vstd::string::*;
use crate::matching::{is_manual_ignore, EmissionInstallation, GenerationUnit, IgnoreReason, Match, Status};
use crate::registry::{ClaimError, ClaimPool, Slot};
use crate::text::{
    split, split_by, split_once, split_once_at, split_terminated, split_terminated_by, texts,
};

verus! {

/// One row of the manual match file.
pub struct ManualDirective {
    pub generation: String,
    pub emission: String,
    pub settings: String,
    pub comment: String,
}

/// What is wrong with a directive.
#[derive(Clone, Copy, PartialEq, Eq, Structural, Debug)]
pub enum ManualErrorKind {
    /// A generation name was claimed before, or is unknown.
    GenerationUsedMoreThanOnce,
    /// No generation unit was found for a name.
    GenerationNotFound,
    /// An emission name was claimed before, or is unknown.
    EmissionUsedMoreThanOnce,
    /// No installation was found for a name.
    EmissionNotFound,
    /// A setting without `:`.
    BadSetting,
    /// An emission-factor range without `-`.
    BadEmissionFactorRange,
    /// A setting with a key other than `plausible-emission-factor-range`.
    InvalidSetting,
}

/// A fatal error in the manual match input, with the text it concerns.
#[derive(Debug)]
pub struct ManualError {
    pub kind: ManualErrorKind,
    pub subject: String,
}

/// The pool after registering each of `names` in turn.
pub open spec fn registered(m: Map<Seq<char>, Slot>, names: Seq<Seq<char>>) -> Map<Seq<char>, Slot>
    decreases names.len(),
{
    if names.len() == 0 {
        m
    } else {
        let before = registered(m, names.drop_last());
        if before.dom().contains(names.last()) {
            before
        } else {
            before.insert(names.last(), Slot::Waiting)
        }
    }
}

fn register_all(pool: &mut ClaimPool, names: &Vec<String>)
    requires
        old(pool).wf(),
    ensures
        final(pool).wf(),
        final(pool)@ == registered(old(pool)@, texts(names@)),
{
    let ghost start = pool@;
    let mut i: usize = 0;
    while i < names.len()
        invariant
            pool.wf(),
            i <= names.len(),
            pool@ == registered(start, texts(names@).take(i as int)),
        decreases names.len() - i,
    {
        assert(texts(names@).take(i + 1).drop_last() =~= texts(names@).take(i as int));
        pool.register(names[i].clone());
        i = i + 1;
    }
    assert(texts(names@).take(i as int) =~= texts(names@));
}

/// Registers the names of a directive: its generation names in `generation`, its
/// emission names in `emission`.
pub fn register_directive(d: &ManualDirective, generation: &mut ClaimPool, emission: &mut ClaimPool)
    requires
        old(generation).wf(),
        old(emission).wf(),
    ensures
        final(generation).wf(),
        final(emission).wf(),
        final(generation)@ == registered(old(generation)@, split_by(d.generation@, '|')),
        final(emission)@ == registered(old(emission)@, split_by(d.emission@, '|')),
{
    let g = split(d.generation.as_str(), '|');
    register_all(generation, &g);
    let e = split(d.emission.as_str(), '|');
    register_all(emission, &e);
}

/// The alias under which a generation unit may be named: `eic:<code>`.
pub fn generation_alias(eic: &String) -> (r: String)
    ensures
        r@ == "eic:"@ + eic@,
{
    let mut r = String::from_str("eic:");
    r.append(eic.as_str());
    r
}

/// The alias under which an installation may be named: `id:<code>`.
pub fn emission_alias(id: &String) -> (r: String)
    ensures
        r@ == "id:"@ + id@,
{
    let mut r = String::from_str("id:");
    r.append(id.as_str());
    r
}

/// Offering the record at index `rec`, known as `name` and as `alias`: the pool after
/// it, and whether it went without error.
pub open spec fn offer_one(m: Map<Seq<char>, Slot>, name: Seq<char>, alias: Seq<char>, rec: usize) -> (
    Map<Seq<char>, Slot>,
    bool,
) {
    let target = if m.dom().contains(name) { name } else { alias };
    if !m.dom().contains(target) {
        (m, true)
    } else if m[target] == Slot::Waiting {
        (m.insert(target, Slot::Filled(rec)), true)
    } else {
        (m, false)
    }
}

/// Offering the first `n` generation units in turn: the pool after it, and the index
/// of the first unit that answered a name which already had its record.
pub open spec fn offer_units(m: Map<Seq<char>, Slot>, units: Seq<GenerationUnit>, n: int) -> (
    Map<Seq<char>, Slot>,
    Option<usize>,
)
    decreases n,
{
    if n <= 0 {
        (m, None)
    } else {
        let (before, e) = offer_units(m, units, n - 1);
        if e is Some {
            (before, e)
        } else {
            let (after, ok) = offer_one(before, units[n - 1].name@, "eic:"@ + units[n - 1].eic@, (n - 1) as usize);
            (after, if ok { None } else { Some((n - 1) as usize) })
        }
    }
}

/// Offering the first `n` installations in turn, as for the generation units.
pub open spec fn offer_installations(m: Map<Seq<char>, Slot>, insts: Seq<EmissionInstallation>, n: int) -> (
    Map<Seq<char>, Slot>,
    Option<usize>,
)
    decreases n,
{
    if n <= 0 {
        (m, None)
    } else {
        let (before, e) = offer_installations(m, insts, n - 1);
        if e is Some {
            (before, e)
        } else {
            let (after, ok) = offer_one(before, insts[n - 1].name@, "id:"@ + insts[n - 1].id@, (n - 1) as usize);
            (after, if ok { None } else { Some((n - 1) as usize) })
        }
    }
}

/// Offers every generation unit to the pool, under its name or else under `eic:<code>`.
/// Fails with the index of the first unit that answers a name which already has its
/// record; the pool then holds the records offered before it.
pub fn offer_generation_units(pool: &mut ClaimPool, units: &Vec<GenerationUnit>) -> (r: Result<(), usize>)
    requires
        old(pool).wf(),
        filled_below(old(pool)@, units.len() as nat),
    ensures
        final(pool).wf(),
        filled_below(final(pool)@, units.len() as nat),
        final(pool)@ == offer_units(old(pool)@, units@, units.len() as int).0,
        match r {
            Ok(()) => offer_units(old(pool)@, units@, units.len() as int).1.is_none(),
            Err(i) => offer_units(old(pool)@, units@, units.len() as int).1 == Some(i),
        },
{
    let ghost start = pool@;
    let mut i: usize = 0;
    while i < units.len()
        invariant
            pool.wf(),
            start == old(pool)@,
            i <= units.len(),
            filled_below(pool@, units.len() as nat),
            offer_units(start, units@, i as int) == (pool@, None::<usize>),
        decreases units.len() - i,
    {
        let alias = generation_alias(&units[i].eic);
        let ghost before = pool@;
        let step = pool.offer(&units[i].name, &alias, i);
        proof {
            assert forall|name: Seq<char>, k: usize| pool@.dom().contains(name) && pool@[name] == Slot::Filled(k) implies k < units.len() by {
                if !(before.dom().contains(name) && before[name] == Slot::Filled(k)) {
                    assert(k == i);
                }
            }
        }
        if step.is_err() {
            proof { lemma_offer_units_stop(start, units@, i as int + 1); }
            return Err(i);
        }
        i = i + 1;
    }
    Ok(())
}

proof fn lemma_offer_units_stop(m: Map<Seq<char>, Slot>, units: Seq<GenerationUnit>, n: int)
    requires
        0 < n <= units.len(),
        offer_units(m, units, n).1 is Some,
    ensures
        offer_units(m, units, units.len() as int) == offer_units(m, units, n),
    decreases units.len() - n,
{
    if n < units.len() {
        lemma_offer_units_stop(m, units, n + 1);
    }
}

/// Offers every installation to the pool, under its name or else under `id:<code>`.
/// Fails with the index of the first installation that answers a name which already
/// has its record; the pool then holds the records offered before it.
pub fn offer_installations_to(pool: &mut ClaimPool, insts: &Vec<EmissionInstallation>) -> (r: Result<(), usize>)
    requires
        old(pool).wf(),
    ensures
        final(pool).wf(),
        final(pool)@ == offer_installations(old(pool)@, insts@, insts.len() as int).0,
        match r {
            Ok(()) => offer_installations(old(pool)@, insts@, insts.len() as int).1.is_none(),
            Err(i) => offer_installations(old(pool)@, insts@, insts.len() as int).1 == Some(i),
        },
{
    let ghost start = pool@;
    let mut i: usize = 0;
    while i < insts.len()
        invariant
            pool.wf(),
            start == old(pool)@,
            i <= insts.len(),
            offer_installations(start, insts@, i as int) == (pool@, None::<usize>),
        decreases insts.len() - i,
    {
        let alias = emission_alias(&insts[i].id);
        let step = pool.offer(&insts[i].name, &alias, i);
        if step.is_err() {
            proof { lemma_offer_installations_stop(start, insts@, i as int + 1); }
            return Err(i);
        }
        i = i + 1;
    }
    Ok(())
}

proof fn lemma_offer_installations_stop(m: Map<Seq<char>, Slot>, insts: Seq<EmissionInstallation>, n: int)
    requires
        0 < n <= insts.len(),
        offer_installations(m, insts, n).1 is Some,
    ensures
        offer_installations(m, insts, insts.len() as int) == offer_installations(m, insts, n),
    decreases insts.len() - n,
{
    if n < insts.len() {
        lemma_offer_installations_stop(m, insts, n + 1);
    }
}

/// Claiming each of `names` in turn from the pool `m`: the pool afterwards, and the
/// records claimed or the first failure with its name.
pub open spec fn claims(m: Map<Seq<char>, Slot>, names: Seq<Seq<char>>) -> (
    Map<Seq<char>, Slot>,
    Result<Seq<usize>, (ClaimError, Seq<char>)>,
)
    decreases names.len(),
{
    if names.len() == 0 {
        (m, Ok(Seq::<usize>::empty()))
    } else {
        let (before, r) = claims(m, names.drop_last());
        let n = names.last();
        match r {
            Err(e) => (before, Err(e)),
            Ok(ks) => if !before.dom().contains(n) || before[n] == Slot::Claimed {
                (before, Err((ClaimError::UsedMoreThanOnce, n)))
            } else {
                match before[n] {
                    Slot::Filled(k) => (before.insert(n, Slot::Claimed), Ok(ks.push(k))),
                    _ => (before.insert(n, Slot::Claimed), Err((ClaimError::NotFound, n))),
                }
            },
        }
    }
}

/// Every record in the pool has an index below `n`.
pub open spec fn filled_below(m: Map<Seq<char>, Slot>, n: nat) -> bool {
    forall|name: Seq<char>, k: usize| m.dom().contains(name) && m[name] == Slot::Filled(k) ==> k < n
}

/// The names of `names` that are not empty, in order.
pub open spec fn non_empty(names: Seq<Seq<char>>) -> Seq<Seq<char>>
    decreases names.len(),
{
    if names.len() == 0 {
        names
    } else if names.last().len() == 0 {
        non_empty(names.drop_last())
    } else {
        non_empty(names.drop_last()).push(names.last())
    }
}

fn claim_all(pool: &mut ClaimPool, names: &Vec<String>) -> (r: Result<Vec<usize>, (ClaimError, String)>)
    requires
        old(pool).wf(),
    ensures
        final(pool).wf(),
        claims(old(pool)@, texts(names@)).0 == final(pool)@,
        match r {
            Ok(ks) => claims(old(pool)@, texts(names@)).1 == Ok::<Seq<usize>, (ClaimError, Seq<char>)>(ks@),
            Err((e, n)) => claims(old(pool)@, texts(names@)).1 == Err::<Seq<usize>, (ClaimError, Seq<char>)>((e, n@)),
        },
{
    let ghost start = pool@;
    let mut ks: Vec<usize> = Vec::new();
    let mut i: usize = 0;
    while i < names.len()
        invariant
            pool.wf(),
            start == old(pool)@,
            i <= names.len(),
            claims(start, texts(names@).take(i as int)) == (pool@, Ok::<Seq<usize>, (ClaimError, Seq<char>)>(ks@)),
        decreases names.len() - i,
    {
        assert(texts(names@).take(i + 1).drop_last() =~= texts(names@).take(i as int));
        match pool.claim(&names[i]) {
            Ok(k) => {
                ks.push(k);
            },
            Err(e) => {
                assert(texts(names@).take(i + 1).last() == names[i as int]@);
                assert(claims(start, texts(names@).take(i + 1)) == (pool@, Err::<Seq<usize>, (ClaimError, Seq<char>)>((e, names[i as int]@))));
                proof { lemma_claims_stop(start, texts(names@), i as int + 1); }
                let n = names[i].clone();
                return Err((e, n));
            },
        }
        i = i + 1;
    }
    assert(texts(names@).take(i as int) =~= texts(names@));
    Ok(ks)
}

proof fn lemma_claims_stop(m: Map<Seq<char>, Slot>, names: Seq<Seq<char>>, i: int)
    requires
        0 < i <= names.len(),
        claims(m, names.take(i)).1 is Err,
    ensures
        claims(m, names) == claims(m, names.take(i)),
    decreases names.len() - i,
{
    if i < names.len() {
        assert(names.take(i + 1).drop_last() =~= names.take(i));
        lemma_claims_stop(m, names, i + 1);
    } else {
        assert(names.take(i) =~= names);
    }
}

proof fn lemma_claims_ok(m: Map<Seq<char>, Slot>, names: Seq<Seq<char>>, n: nat)
    requires
        filled_below(m, n),
    ensures
        filled_below(claims(m, names).0, n),
        claims(m, names).1 is Ok ==> claims(m, names).1->Ok_0.len() == names.len(),
        claims(m, names).1 is Ok ==> forall|j: int|
            0 <= j < names.len() ==> #[trigger] claims(m, names).1->Ok_0[j] < n,
    decreases names.len(),
{
    if names.len() > 0 {
        lemma_claims_ok(m, names.drop_last(), n);
    }
}

/// What a setting does to the range set so far: the new range, or the error with its subject.
pub open spec fn setting_of(item: Seq<char>, prev: Option<(Seq<char>, Seq<char>)>) -> Result<
    Option<(Seq<char>, Seq<char>)>,
    (ManualErrorKind, Seq<char>),
> {
    match split_once_at(item, ':') {
        None => Err((ManualErrorKind::BadSetting, item)),
        Some((key, value)) => if key == "plausible-emission-factor-range"@ {
            match split_once_at(value, '-') {
                None => Err((ManualErrorKind::BadEmissionFactorRange, value)),
                Some((min, max)) => Ok(Some((min, max))),
            }
        } else {
            Err((ManualErrorKind::InvalidSetting, item))
        },
    }
}

/// The plausible emission-factor range that `items` set, the last one winning, or the
/// first error.
pub open spec fn settings_of(items: Seq<Seq<char>>) -> Result<
    Option<(Seq<char>, Seq<char>)>,
    (ManualErrorKind, Seq<char>),
>
    decreases items.len(),
{
    if items.len() == 0 {
        Ok(None)
    } else {
        match settings_of(items.drop_last()) {
            Err(e) => Err(e),
            Ok(prev) => setting_of(items.last(), prev),
        }
    }
}

fn parse_setting(item: &String) -> (r: Result<(String, String), ManualError>)
    ensures
        forall|prev: Option<(Seq<char>, Seq<char>)>| match r {
            Ok((min, max)) => #[trigger] setting_of(item@, prev)
                == Ok::<Option<(Seq<char>, Seq<char>)>, (ManualErrorKind, Seq<char>)>(Some((min@, max@))),
            Err(e) => #[trigger] setting_of(item@, prev)
                == Err::<Option<(Seq<char>, Seq<char>)>, (ManualErrorKind, Seq<char>)>((e.kind, e.subject@)),
        },
{
    match split_once(item.as_str(), ':') {
        None => Err(ManualError { kind: ManualErrorKind::BadSetting, subject: item.clone() }),
        Some((key, value)) => {
            if key == String::from_str("plausible-emission-factor-range") {
                match split_once(value.as_str(), '-') {
                    None => Err(ManualError { kind: ManualErrorKind::BadEmissionFactorRange, subject: value }),
                    Some((min, max)) => Ok((min, max)),
                }
            } else {
                Err(ManualError { kind: ManualErrorKind::InvalidSetting, subject: item.clone() })
            }
        },
    }
}


/// The plausible emission-factor range of a settings list, if it sets one.
pub fn parse_settings(settings: &str) -> (r: Result<Option<(String, String)>, ManualError>)
    ensures
        match r {
            Ok(Some((min, max))) => settings_of(split_terminated_by(settings@, '|'))
                == Ok::<Option<(Seq<char>, Seq<char>)>, (ManualErrorKind, Seq<char>)>(Some((min@, max@))),
            Ok(None) => settings_of(split_terminated_by(settings@, '|'))
                == Ok::<Option<(Seq<char>, Seq<char>)>, (ManualErrorKind, Seq<char>)>(None),
            Err(e) => settings_of(split_terminated_by(settings@, '|'))
                == Err::<Option<(Seq<char>, Seq<char>)>, (ManualErrorKind, Seq<char>)>((e.kind, e.subject@)),
        },
{
    let items = split_terminated(settings, '|');
    let ghost its = texts(items@);
    let mut range: Option<(String, String)> = None;
    let ghost mut prev: Option<(Seq<char>, Seq<char>)> = None;
    let mut i: usize = 0;
    assert(its.take(0) =~= Seq::<Seq<char>>::empty());
    while i < items.len()
        invariant
            its == texts(items@),
            its == split_terminated_by(settings@, '|'),
            i <= items.len(),
            prev == (match range { Some(p) => Some((p.0@, p.1@)), None => None::<(Seq<char>, Seq<char>)> }),
            settings_of(its.take(i as int)) == Ok::<Option<(Seq<char>, Seq<char>)>, (ManualErrorKind, Seq<char>)>(prev),
        decreases items.len() - i,
    {
        assert(its.take(i + 1).drop_last() =~= its.take(i as int));
        let item = &items[i];
        assert(its.take(i + 1).last() == item@);
        assert(settings_of(its.take(i + 1)) == setting_of(item@, prev));
        let step = parse_setting(item);
        match step {
            Err(e) => {
                assert(setting_of(item@, prev) == Err::<Option<(Seq<char>, Seq<char>)>, (ManualErrorKind, Seq<char>)>((e.kind, e.subject@)));
                proof { lemma_settings_stop(its, i as int + 1); }
                assert(settings_of(its) == Err::<Option<(Seq<char>, Seq<char>)>, (ManualErrorKind, Seq<char>)>((e.kind, e.subject@)));
                return Err(e);
            },
            Ok(p) => {
                proof { prev = Some((p.0@, p.1@)); }
                range = Some(p);
            },
        }
        i = i + 1;
    }
    assert(its.take(i as int) =~= its);
    Ok(range)
}

proof fn lemma_settings_stop(items: Seq<Seq<char>>, i: int)
    requires
        0 < i <= items.len(),
        settings_of(items.take(i)) is Err,
    ensures
        settings_of(items) == settings_of(items.take(i)),
    decreases items.len() - i,
{
    if i < items.len() {
        assert(items.take(i + 1).drop_last() =~= items.take(i));
        lemma_settings_stop(items, i + 1);
    } else {
        assert(items.take(i) =~= items);
    }
}

fn drop_empty(names: Vec<String>) -> (r: Vec<String>)
    ensures
        texts(r@) == non_empty(texts(names@)),
{
    let mut r: Vec<String> = Vec::new();
    let mut i: usize = 0;
    let ghost all = texts(names@);
    assert(all.take(0) =~= Seq::<Seq<char>>::empty());
    while i < names.len()
        invariant
            all == texts(names@),
            i <= names.len(),
            texts(r@) == non_empty(all.take(i as int)),
        decreases names.len() - i,
    {
        assert(all.take(i + 1).drop_last() =~= all.take(i as int));
        if names[i].as_str().unicode_len() > 0 {
            let ghost before = r@;
            r.push(names[i].clone());
            assert(r@ =~= before.push(names[i as int]));
            assert(texts(r@) =~= texts(before).push(names[i as int]@));
        }
        i = i + 1;
    }
    assert(all.take(i as int) =~= all);
    r
}

/// The error kind for a failed claim of a generation name.
pub open spec fn generation_error(e: ClaimError) -> ManualErrorKind {
    match e {
        ClaimError::UsedMoreThanOnce => ManualErrorKind::GenerationUsedMoreThanOnce,
        ClaimError::NotFound => ManualErrorKind::GenerationNotFound,
    }
}

/// The error kind for a failed claim of an emission name.
pub open spec fn emission_error(e: ClaimError) -> ManualErrorKind {
    match e {
        ClaimError::UsedMoreThanOnce => ManualErrorKind::EmissionUsedMoreThanOnce,
        ClaimError::NotFound => ManualErrorKind::EmissionNotFound,
    }
}

/// The result is the error of this kind about this text.
pub open spec fn is_error<T>(r: Result<T, ManualError>, kind: ManualErrorKind, subject: Seq<char>) -> bool {
    match r {
        Err(e) => e.kind == kind && e.subject@ == subject,
        Ok(_) => false,
    }
}

/// A directive with neither generation nor emission names: a comment row.
pub open spec fn is_comment_row(d: ManualDirective) -> bool {
    d.generation@.len() == 0 && d.emission@.len() == 0
}

/// The generation names of a directive.
pub open spec fn generation_names(d: ManualDirective) -> Seq<Seq<char>> {
    split_by(d.generation@, '|')
}

/// The emission names of a directive.
pub open spec fn emission_names(d: ManualDirective) -> Seq<Seq<char>> {
    non_empty(split_by(d.emission@, '|'))
}

/// The settings of a directive.
pub open spec fn directive_settings(d: ManualDirective) -> Result<
    Option<(Seq<char>, Seq<char>)>,
    (ManualErrorKind, Seq<char>),
> {
    settings_of(split_terminated_by(d.settings@, '|'))
}

/// Turns a directive into a match, claiming its records: first its generation names,
/// then its emission names, then its settings are read. A comment row gives no match.
/// A directive without emission names gives a match that is ignored, with the
/// directive's comment in the reason.
pub fn resolve_directive(
    d: &ManualDirective,
    units: &Vec<GenerationUnit>,
    generation: &mut ClaimPool,
    emission: &mut ClaimPool,
) -> (r: Result<Option<Match>, ManualError>)
    requires
        old(generation).wf(),
        old(emission).wf(),
        filled_below(old(generation)@, units.len() as nat),
    ensures
        final(generation).wf(),
        final(emission).wf(),
        is_comment_row(*d) ==> (r matches Ok(None)) && final(generation)@ == old(generation)@
            && final(emission)@ == old(emission)@,
        !is_comment_row(*d) ==> {
            let (g, gr) = claims(old(generation)@, generation_names(*d));
            let (e, er) = claims(old(emission)@, emission_names(*d));
            match gr {
                Err((ge, gn)) => is_error(r, generation_error(ge), gn) && final(generation)@ == g && final(emission)@ == old(emission)@,
                Ok(gks) => {
                    &&& final(generation)@ == g
                    &&& match er {
                        Err((ee, en)) => is_error(r, emission_error(ee), en) && final(emission)@ == e,
                        Ok(eks) => {
                            &&& final(emission)@ == e
                            &&& match directive_settings(*d) {
                                Err((sk, ss)) => is_error(r, sk, ss),
                                Ok(range) => match r {
                                    Ok(Some(m)) => {
                                    &&& m@.country == units[gks[0] as int].country@
                                    &&& m@.name == "Manual Match"@
                                    &&& m@.generation == gks
                                    &&& m@.emission == eks
                                    &&& m@.emission_factor_range == range
                                    &&& if d.emission@.len() == 0 {
                                        is_manual_ignore(m@.status, d.comment@)
                                    } else {
                                        m@.status is Active
                                    }
                                    },
                                    _ => false,
                                },
                            }
                        },
                    }
                },
            }
        },
{
    if d.generation.as_str().unicode_len() == 0 && d.emission.as_str().unicode_len() == 0 {
        return Ok(None);
    }
    let gnames = split(d.generation.as_str(), '|');
    let gks = match claim_all(generation, &gnames) {
        Ok(ks) => ks,
        Err((e, n)) => {
            let kind = match e {
                ClaimError::UsedMoreThanOnce => ManualErrorKind::GenerationUsedMoreThanOnce,
                ClaimError::NotFound => ManualErrorKind::GenerationNotFound,
            };
            return Err(ManualError { kind, subject: n });
        },
    };
    proof { lemma_claims_ok(old(generation)@, texts(gnames@), units.len() as nat); }
    let enames = drop_empty(split(d.emission.as_str(), '|'));
    let eks = match claim_all(emission, &enames) {
        Ok(ks) => ks,
        Err((e, n)) => {
            let kind = match e {
                ClaimError::UsedMoreThanOnce => ManualErrorKind::EmissionUsedMoreThanOnce,
                ClaimError::NotFound => ManualErrorKind::EmissionNotFound,
            };
            return Err(ManualError { kind, subject: n });
        },
    };
    let range = parse_settings(d.settings.as_str())?;
    assert(gks@[0] < units.len());
    let mut m = Match::new(String::from_str("Manual Match"), units, gks, eks);
    if let Some((min, max)) = range {
        m.set_emission_factor_range(min, max);
    }
    if d.emission.as_str().unicode_len() == 0 {
        m.ignore(IgnoreReason::Manual(d.comment.clone()));
    }
    Ok(Some(m))
}

proof fn lemma_claims_keep_claimed(m: Map<Seq<char>, Slot>, names: Seq<Seq<char>>, n: Seq<char>)
    requires
        m.dom().contains(n),
        m[n] == Slot::Claimed,
    ensures
        claims(m, names).0.dom().contains(n),
        claims(m, names).0[n] == Slot::Claimed,
    decreases names.len(),
{
    if names.len() > 0 {
        lemma_claims_keep_claimed(m, names.drop_last(), n);
    }
}

proof fn lemma_claims_mark(m: Map<Seq<char>, Slot>, names: Seq<Seq<char>>, i: int)
    requires
        0 <= i < names.len(),
        claims(m, names).1 is Ok,
    ensures
        claims(m, names).0.dom().contains(names[i]),
        claims(m, names).0[names[i]] == Slot::Claimed,
    decreases names.len(),
{
    let (before, r) = claims(m, names.drop_last());
    if i < names.len() - 1 {
        lemma_claims_mark(m, names.drop_last(), i);
        lemma_claims_keep_claimed(before, seq![names.last()], names[i]);
        assert(seq![names.last()].drop_last() =~= Seq::<Seq<char>>::empty());
    }
}

proof fn lemma_claims_fail_on_claimed(m: Map<Seq<char>, Slot>, names: Seq<Seq<char>>, i: int)
    requires
        0 <= i < names.len(),
        m.dom().contains(names[i]),
        m[names[i]] == Slot::Claimed,
    ensures
        claims(m, names).1 is Err,
{
    let pre = names.take(i + 1);
    assert(pre.drop_last() =~= names.take(i));
    assert(pre.last() == names[i]);
    if claims(m, names.take(i)).1 is Ok {
        lemma_claims_keep_claimed(m, names.take(i), names[i]);
    }
    lemma_claims_stop(m, names, i + 1);
}

/// A name can be claimed only once: once a directive has claimed its names, any later
/// directive that names one of them again fails.
pub proof fn lemma_claim_twice_fails(m: Map<Seq<char>, Slot>, first: Seq<Seq<char>>, second: Seq<Seq<char>>, i: int, j: int)
    requires
        claims(m, first).1 is Ok,
        0 <= i < first.len(),
        0 <= j < second.len(),
        first[i] == second[j],
    ensures
        claims(claims(m, first).0, second).1 is Err,
{
    lemma_claims_mark(m, first, i);
    lemma_claims_fail_on_claimed(claims(m, first).0, second, j);
}

} // verus!
