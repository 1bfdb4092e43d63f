//! Automatic matching: the records that no manual directive claimed are grouped by
//! country and key.
//!
//! Every unclaimed generation unit opens or joins the group of its country and key.
//! An unclaimed installation with a non-empty key joins the group of its country
//! (`XI` counting as `IE`) and key when a generation unit opened it, and is dropped
//! otherwise. Groups come out in the reverse of the order in which their first unit
//! appears.

use vstd::prelude::*;
use vstd::string::*;
use crate::key::{get_key, name_key};
use crate::matching::{EmissionInstallation, GenerationUnit, IgnoreReason, Match, Status};

verus! {

/// A match found automatically, and whether its key is also that of a record that a
/// manual directive claimed (a hint of double coverage, or of a unit the directive misses).
pub struct AutoMatch {
    pub found: Match,
    pub similar_to_manual: bool,
}

/// The country an installation counts for: `XI` (Northern Ireland in the ETS data)
/// is matched as `IE`.
pub open spec fn ets_country(c: Seq<char>) -> Seq<char> {
    if c == "XI"@ { "IE"@ } else { c }
}

/// The group of the generation unit at `i`.
pub open spec fn unit_group(units: Seq<GenerationUnit>, i: int) -> (Seq<char>, Seq<char>) {
    (units[i].country@, name_key(units[i].name@))
}

/// The group that the installation at `j` may join.
pub open spec fn installation_group(insts: Seq<EmissionInstallation>, j: int) -> (Seq<char>, Seq<char>) {
    (ets_country(insts[j].country@), name_key(insts[j].name@))
}

/// `n` is among `names`.
pub open spec fn listed(names: Seq<String>, n: Seq<char>) -> bool {
    exists|k: int| 0 <= k < names.len() && #[trigger] names[k]@ == n
}

/// The unclaimed units below `n` in the group `g`, in order.
pub open spec fn group_units(units: Seq<GenerationUnit>, claimed: Seq<String>, g: (Seq<char>, Seq<char>), n: int) -> Seq<usize>
    decreases n,
{
    if n <= 0 {
        Seq::<usize>::empty()
    } else {
        let before = group_units(units, claimed, g, n - 1);
        if !listed(claimed, units[n - 1].name@) && unit_group(units, n - 1) == g {
            before.push((n - 1) as usize)
        } else {
            before
        }
    }
}

/// The unclaimed installations below `n` with a non-empty key in the group `g`, in order.
pub open spec fn group_installations(
    insts: Seq<EmissionInstallation>,
    claimed: Seq<String>,
    g: (Seq<char>, Seq<char>),
    n: int,
) -> Seq<usize>
    decreases n,
{
    if n <= 0 {
        Seq::<usize>::empty()
    } else {
        let before = group_installations(insts, claimed, g, n - 1);
        if !listed(claimed, insts[n - 1].name@) && name_key(insts[n - 1].name@).len() > 0
            && installation_group(insts, n - 1) == g {
            before.push((n - 1) as usize)
        } else {
            before
        }
    }
}

fn is_listed(names: &Vec<String>, n: &String) -> (r: bool)
    ensures
        r == listed(names@, n@),
{
    let mut k: usize = 0;
    while k < names.len()
        invariant
            k <= names.len(),
            forall|q: int| 0 <= q < k ==> names@[q]@ != n@,
        decreases names.len() - k,
    {
        if names[k] == *n {
            return true;
        }
        k = k + 1;
    }
    false
}

fn find_group(countries: &Vec<String>, keys: &Vec<String>, c: &String, k: &String) -> (r: Option<usize>)
    requires
        countries.len() == keys.len(),
    ensures
        match r {
            Some(b) => b < countries.len() && countries@[b as int]@ == c@ && keys@[b as int]@ == k@,
            None => forall|b: int| 0 <= b < countries.len() ==> !(countries@[b]@ == c@ && keys@[b]@ == k@),
        },
{
    let mut b: usize = 0;
    while b < countries.len()
        invariant
            countries.len() == keys.len(),
            b <= countries.len(),
            forall|q: int| 0 <= q < b ==> !(countries@[q]@ == c@ && keys@[q]@ == k@),
        decreases countries.len() - b,
    {
        if countries[b] == *c && keys[b] == *k {
            return Some(b);
        }
        b = b + 1;
    }
    None
}

fn ets_country_exec(c: &String) -> (r: String)
    ensures
        r@ == ets_country(c@),
{
    if *c == String::from_str("XI") {
        String::from_str("IE")
    } else {
        c.clone()
    }
}

/// The groups are unique, each holds exactly its unclaimed units below `n`, and every
/// unclaimed unit below `n` has its group.
pub open spec fn groups_hold_units(
    countries: Seq<String>,
    keys: Seq<String>,
    gens: Seq<Vec<usize>>,
    units: Seq<GenerationUnit>,
    claimed: Seq<String>,
    n: int,
) -> bool {
    &&& countries.len() == keys.len() == gens.len()
    &&& forall|a: int, b: int|
        0 <= a < countries.len() && 0 <= b < countries.len() && a != b ==> !(#[trigger] countries[a]@
            == #[trigger] countries[b]@ && keys[a]@ == keys[b]@)
    &&& forall|b: int|
        0 <= b < countries.len() ==> #[trigger] gens[b]@ == group_units(units, claimed, (countries[b]@, keys[b]@), n)
            && gens[b]@.len() > 0
    &&& forall|i: int|
        0 <= i < n && !listed(claimed, units[i].name@) ==> exists|b: int|
            0 <= b < countries.len() && (#[trigger] countries[b]@, keys[b]@) == unit_group(units, i)
}

proof fn lemma_group_units_empty(units: Seq<GenerationUnit>, claimed: Seq<String>, g: (Seq<char>, Seq<char>), n: int)
    requires
        forall|i: int| 0 <= i < n && !listed(claimed, units[i].name@) ==> unit_group(units, i) != g,
    ensures
        group_units(units, claimed, g, n).len() == 0,
    decreases n,
{
    if n > 0 {
        lemma_group_units_empty(units, claimed, g, n - 1);
    }
}

fn group_generation(units: &Vec<GenerationUnit>, claimed: &Vec<String>) -> (r: (Vec<String>, Vec<String>, Vec<Vec<usize>>))
    ensures
        groups_hold_units(r.0@, r.1@, r.2@, units@, claimed@, units.len() as int),
{
    let mut countries: Vec<String> = Vec::new();
    let mut keys: Vec<String> = Vec::new();
    let mut gens: Vec<Vec<usize>> = Vec::new();
    let mut i: usize = 0;
    while i < units.len()
        invariant
            i <= units.len(),
            groups_hold_units(countries@, keys@, gens@, units@, claimed@, i as int),
        decreases units.len() - i,
    {
        let unit = &units[i];
        if !is_listed(claimed, &unit.name) {
            let k = get_key(unit.name.as_str());
            match find_group(&countries, &keys, &unit.country, &k) {
                Some(b) => {
                    let ghost old_gens = gens@;
                    gens[b].push(i);
                    assert forall|q: int| 0 <= q < countries.len() implies #[trigger] gens@[q]@
                        == group_units(units@, claimed@, (countries@[q]@, keys@[q]@), i + 1)
                        && gens@[q]@.len() > 0 by {
                        if q != b {
                            assert(gens@[q] == old_gens[q]);
                        }
                    }
                    assert forall|j: int| 0 <= j < i + 1 && !listed(claimed@, units@[j].name@) implies exists|q: int|
                        0 <= q < countries.len() && (#[trigger] countries@[q]@, keys@[q]@) == unit_group(units@, j) by {
                        if j == i {
                            assert((countries@[b as int]@, keys@[b as int]@) == unit_group(units@, j));
                        }
                    }
                },
                None => {
                    let ghost g = (unit.country@, k@);
                    proof {
                        assert forall|j: int| 0 <= j < i && !listed(claimed@, units@[j].name@) implies unit_group(units@, j) != g by {
                            if unit_group(units@, j) == g {
                                let q = choose|q: int| 0 <= q < countries.len() && (#[trigger] countries@[q]@, keys@[q]@) == unit_group(units@, j);
                            }
                        }
                        lemma_group_units_empty(units@, claimed@, g, i as int);
                    }
                    let ghost old_c = countries@;
                    let ghost old_k = keys@;
                    let ghost old_gens = gens@;
                    countries.push(unit.country.clone());
                    keys.push(k);
                    let mut first: Vec<usize> = Vec::new();
                    first.push(i);
                    gens.push(first);
                    let last = countries.len() - 1;
                    assert(group_units(units@, claimed@, g, i + 1) =~= seq![i]);
                    assert forall|q: int| 0 <= q < countries.len() implies #[trigger] gens@[q]@
                        == group_units(units@, claimed@, (countries@[q]@, keys@[q]@), i + 1)
                        && gens@[q]@.len() > 0 by {
                        if q < last {
                            assert(gens@[q] == old_gens[q]);
                            assert(countries@[q] == old_c[q]);
                            assert(keys@[q] == old_k[q]);
                        }
                    }
                    assert forall|a: int, b: int|
                        0 <= a < countries.len() && 0 <= b < countries.len() && a != b implies !(#[trigger] countries@[a]@
                            == #[trigger] countries@[b]@ && keys@[a]@ == keys@[b]@) by {
                        if a < last && b < last {
                            assert(countries@[a] == old_c[a] && countries@[b] == old_c[b]);
                            assert(keys@[a] == old_k[a] && keys@[b] == old_k[b]);
                        } else if a < last {
                            assert(countries@[a] == old_c[a] && keys@[a] == old_k[a]);
                        } else {
                            assert(countries@[b] == old_c[b] && keys@[b] == old_k[b]);
                        }
                    }
                    assert forall|j: int| 0 <= j < i + 1 && !listed(claimed@, units@[j].name@) implies exists|q: int|
                        0 <= q < countries.len() && (#[trigger] countries@[q]@, keys@[q]@) == unit_group(units@, j) by {
                        if j == i {
                            assert((countries@[last as int]@, keys@[last as int]@) == unit_group(units@, j));
                        } else {
                            let q = choose|q: int| 0 <= q < old_c.len() && (#[trigger] old_c[q]@, old_k[q]@) == unit_group(units@, j);
                            assert(countries@[q] == old_c[q] && keys@[q] == old_k[q]);
                        }
                    }
                },
            }
        } else {
            assert forall|q: int| 0 <= q < countries.len() implies #[trigger] gens@[q]@
                == group_units(units@, claimed@, (countries@[q]@, keys@[q]@), i + 1) by {}
        }
        i = i + 1;
    }
    (countries, keys, gens)
}

fn attach_installations(
    countries: &Vec<String>,
    keys: &Vec<String>,
    insts: &Vec<EmissionInstallation>,
    claimed: &Vec<String>,
) -> (r: Vec<Vec<usize>>)
    requires
        countries.len() == keys.len(),
        forall|a: int, b: int|
            0 <= a < countries.len() && 0 <= b < countries.len() && a != b ==> !(#[trigger] countries@[a]@
                == #[trigger] countries@[b]@ && keys@[a]@ == keys@[b]@),
    ensures
        r.len() == countries.len(),
        forall|b: int| 0 <= b < countries.len() ==> #[trigger] r@[b]@
            == group_installations(insts@, claimed@, (countries@[b]@, keys@[b]@), insts.len() as int),
{
    let mut ems: Vec<Vec<usize>> = Vec::new();
    let mut b: usize = 0;
    while b < countries.len()
        invariant
            b <= countries.len(),
            ems.len() == b,
            forall|q: int| 0 <= q < b ==> (#[trigger] ems@[q])@ == Seq::<usize>::empty(),
        decreases countries.len() - b,
    {
        ems.push(Vec::new());
        b = b + 1;
    }
    let mut j: usize = 0;
    while j < insts.len()
        invariant
            countries.len() == keys.len(),
            forall|a: int, b: int|
                0 <= a < countries.len() && 0 <= b < countries.len() && a != b ==> !(#[trigger] countries@[a]@
                    == #[trigger] countries@[b]@ && keys@[a]@ == keys@[b]@),
            j <= insts.len(),
            ems.len() == countries.len(),
            forall|q: int| 0 <= q < countries.len() ==> #[trigger] ems@[q]@
                == group_installations(insts@, claimed@, (countries@[q]@, keys@[q]@), j as int),
        decreases insts.len() - j,
    {
        let inst = &insts[j];
        if !is_listed(claimed, &inst.name) {
            let k = get_key(inst.name.as_str());
            if k.as_str().unicode_len() > 0 {
                let c = ets_country_exec(&inst.country);
                match find_group(countries, keys, &c, &k) {
                    Some(b) => {
                        let ghost old_ems = ems@;
                        ems[b].push(j);
                        assert forall|q: int| 0 <= q < countries.len() implies #[trigger] ems@[q]@
                            == group_installations(insts@, claimed@, (countries@[q]@, keys@[q]@), j + 1) by {
                            if q != b {
                                assert(ems@[q] == old_ems[q]);
                            }
                        }
                    },
                    None => {},
                }
            }
        }
        j = j + 1;
    }
    ems
}

/// The key of any record that a manual directive claimed is `k`.
pub open spec fn manual_key(gen_claimed: Seq<String>, em_claimed: Seq<String>, k: Seq<char>) -> bool {
    (exists|a: int| 0 <= a < gen_claimed.len() && name_key(#[trigger] gen_claimed[a]@) == k)
        || (exists|a: int| 0 <= a < em_claimed.len() && name_key(#[trigger] em_claimed[a]@) == k)
}

fn is_manual_key(gen_claimed: &Vec<String>, em_claimed: &Vec<String>, k: &String) -> (r: bool)
    ensures
        r == manual_key(gen_claimed@, em_claimed@, k@),
{
    let mut a: usize = 0;
    while a < gen_claimed.len()
        invariant
            a <= gen_claimed.len(),
            forall|q: int| 0 <= q < a ==> name_key(#[trigger] gen_claimed@[q]@) != k@,
        decreases gen_claimed.len() - a,
    {
        let g = get_key(gen_claimed[a].as_str());
        if g == *k {
            return true;
        }
        a = a + 1;
    }
    let mut a: usize = 0;
    while a < em_claimed.len()
        invariant
            a <= em_claimed.len(),
            forall|q: int| 0 <= q < gen_claimed.len() ==> name_key(#[trigger] gen_claimed@[q]@) != k@,
            forall|q: int| 0 <= q < a ==> name_key(#[trigger] em_claimed@[q]@) != k@,
        decreases em_claimed.len() - a,
    {
        let g = get_key(em_claimed[a].as_str());
        if g == *k {
            return true;
        }
        a = a + 1;
    }
    false
}

proof fn lemma_group_units_members(units: Seq<GenerationUnit>, claimed: Seq<String>, g: (Seq<char>, Seq<char>), n: int)
    requires
        n <= units.len() <= usize::MAX,
    ensures
        forall|q: int| 0 <= q < group_units(units, claimed, g, n).len() ==> {
            let i = #[trigger] group_units(units, claimed, g, n)[q];
            0 <= i < n && unit_group(units, i as int) == g
        },
    decreases n,
{
    if n > 0 {
        lemma_group_units_members(units, claimed, g, n - 1);
        let before = group_units(units, claimed, g, n - 1);
        let now = group_units(units, claimed, g, n);
        assert forall|q: int| 0 <= q < now.len() implies {
            let i = #[trigger] now[q];
            0 <= i < n && unit_group(units, i as int) == g
        } by {
            if q < before.len() {
                assert(now[q] == before[q]);
            } else {
                assert(now[q] == (n - 1) as usize);
            }
        }
    }
}

/// What automatic matching makes of one group: its status, and whether its key is
/// also that of a record that a manual directive claimed.
pub open spec fn auto_match_holds(
    r: AutoMatch,
    units: Seq<GenerationUnit>,
    insts: Seq<EmissionInstallation>,
    gen_claimed: Seq<String>,
    em_claimed: Seq<String>,
) -> bool {
    let m = r.found@;
    let g = (m.country, m.name);
    &&& m.generation == group_units(units, gen_claimed, g, units.len() as int)
    &&& m.generation.len() > 0
    &&& m.emission == group_installations(insts, em_claimed, g, insts.len() as int)
    &&& m.emission_factor_range.is_none()
    &&& m.status == if m.name.len() == 0 {
        Status::Ignored(IgnoreReason::MeaninglessName)
    } else if m.emission.len() != 1 {
        Status::Ignored(IgnoreReason::Ambiguous(m.emission.len() as usize))
    } else {
        Status::Active
    }
    &&& r.similar_to_manual == (m.name.len() > 0 && manual_key(gen_claimed, em_claimed, m.name))
}

/// Groups the records that no manual directive claimed (`gen_claimed` and `em_claimed`
/// hold the names of those that one did) into matches, one for each country and key
/// of an unclaimed generation unit, named after the key.
pub fn generate_auto_matches(
    units: &Vec<GenerationUnit>,
    insts: &Vec<EmissionInstallation>,
    gen_claimed: &Vec<String>,
    em_claimed: &Vec<String>,
) -> (r: Vec<AutoMatch>)
    ensures
        forall|a: int, b: int|
            0 <= a < r.len() && 0 <= b < r.len() && a != b ==> (#[trigger] r@[a]).found@.country != (#[trigger] r@[b]).found@.country
                || r@[a].found@.name != r@[b].found@.name,
        forall|a: int| 0 <= a < r.len() ==> auto_match_holds(#[trigger] r@[a], units@, insts@, gen_claimed@, em_claimed@),
        forall|i: int| 0 <= i < units.len() && !listed(gen_claimed@, units@[i].name@) ==> exists|a: int|
            0 <= a < r.len() && (#[trigger] r@[a].found@.country, r@[a].found@.name) == unit_group(units@, i),
{
    let (mut countries, mut keys, mut gens) = group_generation(units, gen_claimed);
    let mut ems = attach_installations(&countries, &keys, insts, em_claimed);
    let ghost c0 = countries@;
    let ghost k0 = keys@;
    let ghost n0 = countries.len() as int;
    let mut r: Vec<AutoMatch> = Vec::new();
    while countries.len() > 0
        invariant
            forall|i: int| 0 <= i < units.len() && !listed(gen_claimed@, units@[i].name@) ==> exists|b: int|
                0 <= b < n0 && (#[trigger] c0[b]@, k0[b]@) == unit_group(units@, i),
            countries.len() == keys.len() == gens.len() == ems.len(),
            countries.len() <= n0,
            n0 == c0.len(),
            c0.len() == k0.len(),
            countries@ == c0.take(countries.len() as int),
            keys@ == k0.take(countries.len() as int),
            forall|b: int| 0 <= b < gens.len() ==> #[trigger] gens@[b]@
                == group_units(units@, gen_claimed@, (c0[b]@, k0[b]@), units.len() as int) && gens@[b]@.len() > 0,
            forall|b: int| 0 <= b < ems.len() ==> #[trigger] ems@[b]@
                == group_installations(insts@, em_claimed@, (c0[b]@, k0[b]@), insts.len() as int),
            forall|a: int, b: int|
                0 <= a < n0 && 0 <= b < n0 && a != b ==> !(#[trigger] c0[a]@ == #[trigger] c0[b]@ && k0[a]@ == k0[b]@),
            r.len() == n0 - countries.len(),
            forall|a: int| 0 <= a < r.len() ==> (#[trigger] r@[a]).found@.country == c0[n0 - 1 - a]@
                && r@[a].found@.name == k0[n0 - 1 - a]@,
            forall|a: int| 0 <= a < r.len() ==> auto_match_holds(#[trigger] r@[a], units@, insts@, gen_claimed@, em_claimed@),
        decreases countries.len(),
    {
        let country = countries.pop().unwrap();
        let key = keys.pop().unwrap();
        let generation = gens.pop().unwrap();
        let emission = ems.pop().unwrap();
        let ghost b = countries.len() as int;
        proof {
            lemma_group_units_members(units@, gen_claimed@, (c0[b]@, k0[b]@), units.len() as int);
            assert(generation@[0] == group_units(units@, gen_claimed@, (c0[b]@, k0[b]@), units.len() as int)[0]);
        }
        let similar = key.as_str().unicode_len() > 0 && is_manual_key(gen_claimed, em_claimed, &key);
        let mut m = Match::new(key, units, generation, emission);
        if m.name().as_str().unicode_len() == 0 {
            m.ignore(IgnoreReason::MeaninglessName);
        } else if m.emission().len() != 1 {
            let n = m.emission().len();
            m.ignore(IgnoreReason::Ambiguous(n));
        }
        let ghost before = r@;
        r.push(AutoMatch { found: m, similar_to_manual: similar });
        assert(r@ =~= before.push(r@[r.len() - 1]));
        assert(countries@ =~= c0.take(countries.len() as int));
        assert(keys@ =~= k0.take(countries.len() as int));
    }
    proof {
        assert forall|a: int, b: int|
            0 <= a < r.len() && 0 <= b < r.len() && a != b implies (#[trigger] r@[a]).found@.country != (#[trigger] r@[b]).found@.country
                || r@[a].found@.name != r@[b].found@.name by {
            assert(c0[n0 - 1 - a] == c0[n0 - 1 - a]);
        }
        assert forall|i: int| 0 <= i < units.len() && !listed(gen_claimed@, units@[i].name@) implies exists|a: int|
            0 <= a < r.len() && (#[trigger] r@[a].found@.country, r@[a].found@.name) == unit_group(units@, i) by {
            let b = choose|b: int| 0 <= b < n0 && (#[trigger] c0[b]@, k0[b]@) == unit_group(units@, i);
            assert(r@[n0 - 1 - b].found@.country == c0[b]@);
        }
    }
    r
}

/// The name of the `j`-th generation unit of the `a`-th match.
pub open spec fn unit_name_at(manual: Seq<Match>, units: Seq<GenerationUnit>, a: int, j: int) -> Seq<char> {
    units[manual[a]@.generation[j] as int].name@
}

/// `n` is the name of a generation unit of one of the first `bound` matches.
pub open spec fn in_generation_below(manual: Seq<Match>, units: Seq<GenerationUnit>, n: Seq<char>, bound: int) -> bool {
    exists|a: int, j: int|
        0 <= a < bound && 0 <= j < manual[a]@.generation.len() && #[trigger] unit_name_at(manual, units, a, j) == n
}

/// `n` is the name of a generation unit of one of the matches.
pub open spec fn in_generation_of(manual: Seq<Match>, units: Seq<GenerationUnit>, n: Seq<char>) -> bool {
    exists|a: int, j: int|
        0 <= a < manual.len() && 0 <= j < manual[a]@.generation.len() && #[trigger] unit_name_at(manual, units, a, j) == n
}

/// The names of the generation units of `manual`.
pub fn claimed_generation_names(manual: &Vec<Match>, units: &Vec<GenerationUnit>) -> (r: Vec<String>)
    requires
        forall|a: int, j: int| 0 <= a < manual.len() && 0 <= j < manual@[a]@.generation.len() ==> #[trigger] manual@[a]@.generation[j] < units.len(),
    ensures
        forall|n: Seq<char>| listed(r@, n) <==> in_generation_of(manual@, units@, n),
{
    let mut r: Vec<String> = Vec::new();
    let mut a: usize = 0;
    while a < manual.len()
        invariant
            a <= manual.len(),
            forall|a: int, j: int| 0 <= a < manual.len() && 0 <= j < manual@[a]@.generation.len() ==> #[trigger] manual@[a]@.generation[j] < units.len(),
            a <= manual.len(),
            forall|k: int| 0 <= k < r.len() ==> in_generation_below(manual@, units@, #[trigger] r@[k]@, a as int),
            forall|b: int, j: int| 0 <= b < a && 0 <= j < manual@[b]@.generation.len() ==> listed(r@, #[trigger] unit_name_at(manual@, units@, b, j)),
        decreases manual.len() - a,
    {
        let gens = manual[a].generation();
        assert forall|k: int| 0 <= k < r.len() implies in_generation_below(manual@, units@, #[trigger] r@[k]@, a + 1) by {
            let (b, q) = choose|b: int, q: int|
                0 <= b < a && 0 <= q < manual@[b]@.generation.len() && #[trigger] unit_name_at(manual@, units@, b, q) == r@[k]@;
            assert(unit_name_at(manual@, units@, b, q) == r@[k]@);
        }
        let mut j: usize = 0;
        while j < gens.len()
            invariant
                a < manual.len(),
                gens@ == manual@[a as int]@.generation,
                j <= gens.len(),
                forall|a: int, j: int| 0 <= a < manual.len() && 0 <= j < manual@[a]@.generation.len() ==> #[trigger] manual@[a]@.generation[j] < units.len(),
                forall|k: int| 0 <= k < r.len() ==> in_generation_below(manual@, units@, #[trigger] r@[k]@, a + 1),
                forall|b: int, q: int| 0 <= b < a && 0 <= q < manual@[b]@.generation.len() ==> listed(r@, #[trigger] unit_name_at(manual@, units@, b, q)),
                forall|q: int| 0 <= q < j ==> listed(r@, #[trigger] unit_name_at(manual@, units@, a as int, q)),
            decreases gens.len() - j,
        {
            let idx = gens[j];
            assert(manual@[a as int]@.generation[j as int] == idx);
            let ghost before = r@;
            r.push(units[idx].name.clone());
            proof {
                assert(r@[r.len() - 1]@ == units@[idx as int].name@);
                assert forall|n: Seq<char>| listed(before, n) implies listed(r@, n) by {
                    let k = choose|k: int| 0 <= k < before.len() && #[trigger] before[k]@ == n;
                    assert(r@[k] == before[k]);
                }
                assert forall|k: int| 0 <= k < r.len() implies in_generation_below(manual@, units@, #[trigger] r@[k]@, a + 1) by {
                    if k < before.len() {
                        assert(r@[k] == before[k]);
                    } else {
                        assert(unit_name_at(manual@, units@, a as int, j as int) == r@[k]@);
                    }
                }
                assert(listed(r@, unit_name_at(manual@, units@, a as int, j as int)));
            }
            j = j + 1;
        }
        a = a + 1;
    }
    assert forall|n: Seq<char>| listed(r@, n) <==> in_generation_of(manual@, units@, n) by {
        if listed(r@, n) {
            let k = choose|k: int| 0 <= k < r.len() && #[trigger] r@[k]@ == n;
            assert(in_generation_below(manual@, units@, r@[k]@, a as int));
        }
        if in_generation_of(manual@, units@, n) {
            let (b, q) = choose|b: int, q: int|
                0 <= b < manual.len() && 0 <= q < manual@[b]@.generation.len() && #[trigger] unit_name_at(manual@, units@, b, q) == n;
            assert(listed(r@, unit_name_at(manual@, units@, b, q)));
        }
    }
    r
}

/// The name of the `j`-th installation of the `a`-th match.
pub open spec fn inst_name_at(manual: Seq<Match>, insts: Seq<EmissionInstallation>, a: int, j: int) -> Seq<char> {
    insts[manual[a]@.emission[j] as int].name@
}

/// `n` is the name of a installation of one of the first `bound` matches.
pub open spec fn in_emission_below(manual: Seq<Match>, insts: Seq<EmissionInstallation>, n: Seq<char>, bound: int) -> bool {
    exists|a: int, j: int|
        0 <= a < bound && 0 <= j < manual[a]@.emission.len() && #[trigger] inst_name_at(manual, insts, a, j) == n
}

/// `n` is the name of a installation of one of the matches.
pub open spec fn in_emission_of(manual: Seq<Match>, insts: Seq<EmissionInstallation>, n: Seq<char>) -> bool {
    exists|a: int, j: int|
        0 <= a < manual.len() && 0 <= j < manual[a]@.emission.len() && #[trigger] inst_name_at(manual, insts, a, j) == n
}

/// The names of the generation insts of `manual`.
pub fn claimed_emission_names(manual: &Vec<Match>, insts: &Vec<EmissionInstallation>) -> (r: Vec<String>)
    requires
        forall|a: int, j: int| 0 <= a < manual.len() && 0 <= j < manual@[a]@.emission.len() ==> #[trigger] manual@[a]@.emission[j] < insts.len(),
    ensures
        forall|n: Seq<char>| listed(r@, n) <==> in_emission_of(manual@, insts@, n),
{
    let mut r: Vec<String> = Vec::new();
    let mut a: usize = 0;
    while a < manual.len()
        invariant
            a <= manual.len(),
            forall|a: int, j: int| 0 <= a < manual.len() && 0 <= j < manual@[a]@.emission.len() ==> #[trigger] manual@[a]@.emission[j] < insts.len(),
            a <= manual.len(),
            forall|k: int| 0 <= k < r.len() ==> in_emission_below(manual@, insts@, #[trigger] r@[k]@, a as int),
            forall|b: int, j: int| 0 <= b < a && 0 <= j < manual@[b]@.emission.len() ==> listed(r@, #[trigger] inst_name_at(manual@, insts@, b, j)),
        decreases manual.len() - a,
    {
        let gens = manual[a].emission();
        assert forall|k: int| 0 <= k < r.len() implies in_emission_below(manual@, insts@, #[trigger] r@[k]@, a + 1) by {
            let (b, q) = choose|b: int, q: int|
                0 <= b < a && 0 <= q < manual@[b]@.emission.len() && #[trigger] inst_name_at(manual@, insts@, b, q) == r@[k]@;
            assert(inst_name_at(manual@, insts@, b, q) == r@[k]@);
        }
        let mut j: usize = 0;
        while j < gens.len()
            invariant
                a < manual.len(),
                gens@ == manual@[a as int]@.emission,
                j <= gens.len(),
                forall|a: int, j: int| 0 <= a < manual.len() && 0 <= j < manual@[a]@.emission.len() ==> #[trigger] manual@[a]@.emission[j] < insts.len(),
                forall|k: int| 0 <= k < r.len() ==> in_emission_below(manual@, insts@, #[trigger] r@[k]@, a + 1),
                forall|b: int, q: int| 0 <= b < a && 0 <= q < manual@[b]@.emission.len() ==> listed(r@, #[trigger] inst_name_at(manual@, insts@, b, q)),
                forall|q: int| 0 <= q < j ==> listed(r@, #[trigger] inst_name_at(manual@, insts@, a as int, q)),
            decreases gens.len() - j,
        {
            let idx = gens[j];
            assert(manual@[a as int]@.emission[j as int] == idx);
            let ghost before = r@;
            r.push(insts[idx].name.clone());
            proof {
                assert(r@[r.len() - 1]@ == insts@[idx as int].name@);
                assert forall|n: Seq<char>| listed(before, n) implies listed(r@, n) by {
                    let k = choose|k: int| 0 <= k < before.len() && #[trigger] before[k]@ == n;
                    assert(r@[k] == before[k]);
                }
                assert forall|k: int| 0 <= k < r.len() implies in_emission_below(manual@, insts@, #[trigger] r@[k]@, a + 1) by {
                    if k < before.len() {
                        assert(r@[k] == before[k]);
                    } else {
                        assert(inst_name_at(manual@, insts@, a as int, j as int) == r@[k]@);
                    }
                }
                assert(listed(r@, inst_name_at(manual@, insts@, a as int, j as int)));
            }
            j = j + 1;
        }
        a = a + 1;
    }
    assert forall|n: Seq<char>| listed(r@, n) <==> in_emission_of(manual@, insts@, n) by {
        if listed(r@, n) {
            let k = choose|k: int| 0 <= k < r.len() && #[trigger] r@[k]@ == n;
            assert(in_emission_below(manual@, insts@, r@[k]@, a as int));
        }
        if in_emission_of(manual@, insts@, n) {
            let (b, q) = choose|b: int, q: int|
                0 <= b < manual.len() && 0 <= q < manual@[b]@.emission.len() && #[trigger] inst_name_at(manual@, insts@, b, q) == n;
            assert(listed(r@, inst_name_at(manual@, insts@, b, q)));
        }
    }
    r
}

} // verus!
