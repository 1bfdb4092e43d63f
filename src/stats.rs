//! The plan of the per-country, per-fuel statistics: which records and matches each
//! row adds up.
//!
//! A base row per country and fuel adds up the output of every generation unit of
//! that country and fuel (matched or not, `Other` left out), and the numbers of every
//! active match of that country and dominant fuel. A rollup row per fuel, with the
//! empty country, adds up the base rows of that fuel. A `coal+lignite` row per country
//! (the empty one included) adds up that country's `coal` and `lignite` rows.
//! The caller evaluates the rows in order; coverage and emission factor follow from
//! the sums.

use vstd::prelude::*;
use vstd::string::*;
use crate::filter::MatchFacts;
use crate::matching::{fuel_name, Fuel, GenerationUnit, Match};

verus! {

/// A base row: the units and the matches of one country and fuel.
pub struct BaseRow {
    pub country: String,
    pub fuel: Fuel,
    /// Indices of the generation units that make the total generation.
    pub units: Vec<usize>,
    /// Indices of the active matches that make the matched numbers.
    pub matches: Vec<usize>,
}

/// The unit at `i` counts for the row of country `c` and fuel `f`.
pub open spec fn unit_counts_for(units: Seq<GenerationUnit>, i: int, c: Seq<char>, f: Fuel) -> bool {
    units[i].fuel != Fuel::Other && units[i].fuel == f && units[i].country@ == c
}

/// The match at `k` counts for the row of country `c` and fuel `f`.
pub open spec fn match_counts_for(ms: Seq<Match>, fs: Seq<MatchFacts>, k: int, c: Seq<char>, f: Fuel) -> bool {
    ms[k]@.status is Active && fs[k].dominant_fuel == Some(f) && f != Fuel::Other && ms[k]@.country == c
}

/// The units below `n` that count for `(c, f)`, in order.
pub open spec fn row_units(units: Seq<GenerationUnit>, c: Seq<char>, f: Fuel, n: int) -> Seq<usize>
    decreases n,
{
    if n <= 0 {
        Seq::<usize>::empty()
    } else if unit_counts_for(units, n - 1, c, f) {
        row_units(units, c, f, n - 1).push((n - 1) as usize)
    } else {
        row_units(units, c, f, n - 1)
    }
}

/// The matches below `n` that count for `(c, f)`, in order.
pub open spec fn row_matches(ms: Seq<Match>, fs: Seq<MatchFacts>, c: Seq<char>, f: Fuel, n: int) -> Seq<usize>
    decreases n,
{
    if n <= 0 {
        Seq::<usize>::empty()
    } else if match_counts_for(ms, fs, n - 1, c, f) {
        row_matches(ms, fs, c, f, n - 1).push((n - 1) as usize)
    } else {
        row_matches(ms, fs, c, f, n - 1)
    }
}

proof fn lemma_row_units_empty(units: Seq<GenerationUnit>, c: Seq<char>, f: Fuel, n: int)
    requires
        forall|i: int| 0 <= i < n ==> !unit_counts_for(units, i, c, f),
    ensures
        row_units(units, c, f, n).len() == 0,
    decreases n,
{
    if n > 0 {
        lemma_row_units_empty(units, c, f, n - 1);
    }
}

proof fn lemma_row_matches_empty(ms: Seq<Match>, fs: Seq<MatchFacts>, c: Seq<char>, f: Fuel, n: int)
    requires
        forall|k: int| 0 <= k < n ==> !match_counts_for(ms, fs, k, c, f),
    ensures
        row_matches(ms, fs, c, f, n).len() == 0,
    decreases n,
{
    if n > 0 {
        lemma_row_matches_empty(ms, fs, c, f, n - 1);
    }
}

/// The base rows are those of the countries and fuels of the units below `nu`, one for
/// each, with exactly their units and their matches below `nm`; every counted match
/// below `nm` has its row.
pub open spec fn base_rows_hold(
    rows: Seq<BaseRow>,
    units: Seq<GenerationUnit>,
    ms: Seq<Match>,
    fs: Seq<MatchFacts>,
    nu: int,
    nm: int,
) -> bool {
    &&& forall|a: int, b: int|
        0 <= a < rows.len() && 0 <= b < rows.len() && a != b ==> !((#[trigger] rows[a]).country@ == (#[trigger] rows[b]).country@
            && rows[a].fuel == rows[b].fuel)
    &&& forall|b: int| 0 <= b < rows.len() ==> (#[trigger] rows[b]).units@ == row_units(units, rows[b].country@, rows[b].fuel, nu)
    &&& forall|b: int| 0 <= b < rows.len() ==> (#[trigger] rows[b]).matches@ == row_matches(ms, fs, rows[b].country@, rows[b].fuel, nm)
    &&& forall|b: int| 0 <= b < rows.len() ==> (#[trigger] rows[b]).units@.len() > 0
    &&& forall|b: int| 0 <= b < rows.len() ==> (#[trigger] rows[b]).fuel != Fuel::Other
    &&& forall|i: int| 0 <= i < nu && units[i].fuel != Fuel::Other ==> exists|b: int|
        0 <= b < rows.len() && unit_counts_for(units, i, (#[trigger] rows[b]).country@, rows[b].fuel)
    &&& forall|k: int| 0 <= k < nm && ms[k]@.status is Active && fs[k].dominant_fuel is Some
        && fs[k].dominant_fuel != Some(Fuel::Other) ==> exists|b: int|
        0 <= b < rows.len() && match_counts_for(ms, fs, k, (#[trigger] rows[b]).country@, rows[b].fuel)
}

fn find_row(rows: &Vec<BaseRow>, c: &String, f: Fuel) -> (r: Option<usize>)
    ensures
        match r {
            Some(b) => b < rows.len() && rows@[b as int].country@ == c@ && rows@[b as int].fuel == f,
            None => forall|b: int| 0 <= b < rows.len() ==> !(rows@[b].country@ == c@ && rows@[b].fuel == f),
        },
{
    let mut b: usize = 0;
    while b < rows.len()
        invariant
            b <= rows.len(),
            forall|q: int| 0 <= q < b ==> !(rows@[q].country@ == c@ && rows@[q].fuel == f),
        decreases rows.len() - b,
    {
        if rows[b].country == *c && rows[b].fuel == f {
            return Some(b);
        }
        b = b + 1;
    }
    None
}

#[verifier::rlimit(30)]
fn add_to_row(rows: &mut Vec<BaseRow>, b: usize, units: &Vec<GenerationUnit>, ms: &Vec<Match>, fs: &Vec<MatchFacts>, nu: usize, k: usize, c: &String, fuel: Fuel)
    requires
        ms.len() == fs.len(),
        nu == units.len(),
        k < ms.len(),
        base_rows_hold(old(rows)@, units@, ms@, fs@, nu as int, k as int),
        ms@[k as int]@.status is Active,
        fs@[k as int].dominant_fuel == Some(fuel),
        fuel != Fuel::Other,
        c@ == ms@[k as int]@.country,
        b < old(rows).len(),
        old(rows)@[b as int].country@ == c@,
        old(rows)@[b as int].fuel == fuel,
    ensures
        base_rows_hold(final(rows)@, units@, ms@, fs@, nu as int, k + 1),
{
        let ghost old_rows = rows@;
        rows[b].matches.push(k);
        assert forall|q: int| 0 <= q < rows.len() implies (#[trigger] rows@[q]).matches@
            == row_matches(ms@, fs@, rows@[q].country@, rows@[q].fuel, k + 1) by {
            if q != b {
                assert(rows@[q] == old_rows[q]);
            }
        }
        assert forall|q: int| 0 <= q < rows.len() implies (#[trigger] rows@[q]).units@
            == row_units(units@, rows@[q].country@, rows@[q].fuel, nu as int) by {
            if q != b {
                assert(rows@[q] == old_rows[q]);
            }
        }
        assert forall|j: int| 0 <= j < k + 1 && ms@[j]@.status is Active && fs@[j].dominant_fuel is Some
            && fs@[j].dominant_fuel != Some(Fuel::Other) implies exists|q: int|
            0 <= q < rows.len() && match_counts_for(ms@, fs@, j, (#[trigger] rows@[q]).country@, rows@[q].fuel) by {
            if j == k {
                assert(match_counts_for(ms@, fs@, j, rows@[b as int].country@, rows@[b as int].fuel));
            } else {
                let q = choose|q: int| 0 <= q < old_rows.len() && match_counts_for(ms@, fs@, j, (#[trigger] old_rows[q]).country@, old_rows[q].fuel);
                assert(rows@[q].country == old_rows[q].country);
            }
        }
        assert forall|j: int| 0 <= j < nu && units@[j].fuel != Fuel::Other implies exists|q: int|
            0 <= q < rows.len() && unit_counts_for(units@, j, (#[trigger] rows@[q]).country@, rows@[q].fuel) by {
            let q = choose|q: int| 0 <= q < old_rows.len() && unit_counts_for(units@, j, (#[trigger] old_rows[q]).country@, old_rows[q].fuel);
            assert(rows@[q].country == old_rows[q].country);
        }
}

/// Some generation unit has country `c` and fuel `f` (not `Other`).
pub open spec fn has_unit(units: Seq<GenerationUnit>, c: Seq<char>, f: Fuel) -> bool {
    exists|i: int| 0 <= i < units.len() && #[trigger] unit_counts_for(units, i, c, f)
}

/// The match at `k` is active with a dominant fuel other than `Other`, and no
/// generation unit has its country and that fuel: its numbers have no row to go to.
pub open spec fn lacks_units(units: Seq<GenerationUnit>, ms: Seq<Match>, fs: Seq<MatchFacts>, k: int) -> bool {
    &&& ms[k]@.status is Active
    &&& fs[k].dominant_fuel is Some
    &&& fs[k].dominant_fuel != Some(Fuel::Other)
    &&& !has_unit(units, ms[k]@.country, fs[k].dominant_fuel->0)
}

proof fn lemma_row_units_has(units: Seq<GenerationUnit>, c: Seq<char>, f: Fuel, n: int)
    requires
        n <= units.len(),
        row_units(units, c, f, n).len() > 0,
    ensures
        has_unit(units, c, f),
    decreases n,
{
    if n > 0 {
        if unit_counts_for(units, n - 1, c, f) {
            assert(unit_counts_for(units, n - 1, c, f));
        } else {
            lemma_row_units_has(units, c, f, n - 1);
        }
    }
}

/// The base rows: one per country and fuel of a generation unit (`Other` left out),
/// each with exactly the units and the active matches that count for it. An active
/// match whose country and dominant fuel no unit has is an error: the index of the
/// first such match.
pub fn base_rows(units: &Vec<GenerationUnit>, ms: &Vec<Match>, fs: &Vec<MatchFacts>) -> (r: Result<Vec<BaseRow>, usize>)
    requires
        ms.len() == fs.len(),
    ensures
        match r {
            Ok(rows) => base_rows_hold(rows@, units@, ms@, fs@, units.len() as int, ms.len() as int)
                && forall|k: int| 0 <= k < ms.len() ==> !lacks_units(units@, ms@, fs@, k),
            Err(k) => k < ms.len() && lacks_units(units@, ms@, fs@, k as int)
                && forall|j: int| 0 <= j < k ==> !lacks_units(units@, ms@, fs@, j),
        },
{
    let mut rows: Vec<BaseRow> = Vec::new();
    let mut i: usize = 0;
    while i < units.len()
        invariant
            i <= units.len(),
            base_rows_hold(rows@, units@, ms@, fs@, i as int, 0),
        decreases units.len() - i,
    {
        let u = &units[i];
        if u.fuel != Fuel::Other {
            match find_row(&rows, &u.country, u.fuel) {
                Some(b) => {
                    let ghost old_rows = rows@;
                    rows[b].units.push(i);
                    assert forall|q: int| 0 <= q < rows.len() implies (#[trigger] rows@[q]).units@
                        == row_units(units@, rows@[q].country@, rows@[q].fuel, i + 1) by {
                        if q != b {
                            assert(rows@[q] == old_rows[q]);
                        }
                    }
                    assert forall|j: int| 0 <= j < i + 1 && units@[j].fuel != Fuel::Other implies exists|q: int|
                        0 <= q < rows.len() && unit_counts_for(units@, j, (#[trigger] rows@[q]).country@, rows@[q].fuel) by {
                        if j == i {
                            assert(unit_counts_for(units@, j, rows@[b as int].country@, rows@[b as int].fuel));
                        } else {
                            let q = choose|q: int| 0 <= q < old_rows.len() && unit_counts_for(units@, j, (#[trigger] old_rows[q]).country@, old_rows[q].fuel);
                            assert(rows@[q].country == old_rows[q].country);
                        }
                    }
                    assert forall|q: int| 0 <= q < rows.len() implies (#[trigger] rows@[q]).matches@
                        == row_matches(ms@, fs@, rows@[q].country@, rows@[q].fuel, 0) by {
                        if q != b {
                            assert(rows@[q] == old_rows[q]);
                        }
                    }
                },
                None => {
                    proof {
                        assert forall|j: int| 0 <= j < i implies !unit_counts_for(units@, j, u.country@, u.fuel) by {
                            if unit_counts_for(units@, j, u.country@, u.fuel) {
                                let q = choose|q: int| 0 <= q < rows.len() && unit_counts_for(units@, j, (#[trigger] rows@[q]).country@, rows@[q].fuel);
                            }
                        }
                        lemma_row_units_empty(units@, u.country@, u.fuel, i as int);
                    }
                    let ghost old_rows = rows@;
                    let mut first: Vec<usize> = Vec::new();
                    first.push(i);
                    rows.push(BaseRow { country: u.country.clone(), fuel: u.fuel, units: first, matches: Vec::new() });
                    let last = rows.len() - 1;
                    assert(row_units(units@, u.country@, u.fuel, i + 1) =~= seq![i]);
                    assert forall|q: int| 0 <= q < rows.len() implies (#[trigger] rows@[q]).units@
                        == row_units(units@, rows@[q].country@, rows@[q].fuel, i + 1) by {
                        if q < last {
                            assert(rows@[q] == old_rows[q]);
                        }
                    }
                    assert forall|j: int| 0 <= j < i + 1 && units@[j].fuel != Fuel::Other implies exists|q: int|
                        0 <= q < rows.len() && unit_counts_for(units@, j, (#[trigger] rows@[q]).country@, rows@[q].fuel) by {
                        if j == i {
                            assert(unit_counts_for(units@, j, rows@[last as int].country@, rows@[last as int].fuel));
                        } else {
                            let q = choose|q: int| 0 <= q < old_rows.len() && unit_counts_for(units@, j, (#[trigger] old_rows[q]).country@, old_rows[q].fuel);
                            assert(rows@[q] == old_rows[q]);
                        }
                    }
                    assert forall|a: int, b: int|
                        0 <= a < rows.len() && 0 <= b < rows.len() && a != b implies !((#[trigger] rows@[a]).country@ == (#[trigger] rows@[b]).country@
                            && rows@[a].fuel == rows@[b].fuel) by {
                        if a < last { assert(rows@[a] == old_rows[a]); }
                        if b < last { assert(rows@[b] == old_rows[b]); }
                    }
                    assert forall|q: int| 0 <= q < rows.len() implies (#[trigger] rows@[q]).matches@
                        == row_matches(ms@, fs@, rows@[q].country@, rows@[q].fuel, 0) by {
                        if q < last {
                            assert(rows@[q] == old_rows[q]);
                        } else {
                            assert(rows@[q].matches@ =~= Seq::<usize>::empty());
                        }
                    }
                },
            }
        } else {
            assert forall|q: int| 0 <= q < rows.len() implies (#[trigger] rows@[q]).units@
                == row_units(units@, rows@[q].country@, rows@[q].fuel, i + 1) by {}
        }
        i = i + 1;
    }
    let nu = units.len();
    let mut k: usize = 0;
    while k < ms.len()
        invariant
            nu == units.len(),
            ms.len() == fs.len(),
            k <= ms.len(),
            base_rows_hold(rows@, units@, ms@, fs@, nu as int, k as int),
            forall|j: int| 0 <= j < k ==> !lacks_units(units@, ms@, fs@, j),
        decreases ms.len() - k,
    {
        let f = fs[k];
        let active = !ms[k].is_ignored();
        match f.dominant_fuel {
            Some(fuel) => {
                if active && fuel != Fuel::Other {
                    let c = ms[k].country();
                    match find_row(&rows, c, fuel) {
                        Some(b) => {
                            proof {
                                lemma_row_units_has(units@, c@, fuel, nu as int);
                            }
                            add_to_row(&mut rows, b, units, ms, fs, nu, k, c, fuel);
                        },
                        None => {
                            proof {
                                if has_unit(units@, c@, fuel) {
                                    let i = choose|i: int| 0 <= i < units.len() && #[trigger] unit_counts_for(units@, i, c@, fuel);
                                    let q = choose|q: int| 0 <= q < rows.len() && unit_counts_for(units@, i, (#[trigger] rows@[q]).country@, rows@[q].fuel);
                                }
                            }
                            return Err(k);
                        },
                    }
                } else {
                    assert forall|q: int| 0 <= q < rows.len() implies (#[trigger] rows@[q]).matches@
                        == row_matches(ms@, fs@, rows@[q].country@, rows@[q].fuel, k + 1) by {}
                }
            },
            None => {
                assert forall|q: int| 0 <= q < rows.len() implies (#[trigger] rows@[q]).matches@
                    == row_matches(ms@, fs@, rows@[q].country@, rows@[q].fuel, k + 1) by {}
            },
        }
        k = k + 1;
    }
    Ok(rows)
}

/// A row that adds up other rows; `parts` are their positions in the list of all rows,
/// the base rows first, then the rollup rows.
pub struct DerivedRow {
    pub country: String,
    pub fuel: String,
    pub parts: Vec<usize>,
}

/// The base rows of fuel `f` below `n`, in order.
pub open spec fn rows_of_fuel(base: Seq<BaseRow>, f: Fuel, n: int) -> Seq<usize>
    decreases n,
{
    if n <= 0 {
        Seq::<usize>::empty()
    } else if base[n - 1].fuel == f {
        rows_of_fuel(base, f, n - 1).push((n - 1) as usize)
    } else {
        rows_of_fuel(base, f, n - 1)
    }
}

fn rollup_row(base: &Vec<BaseRow>, f: Fuel) -> (r: Option<DerivedRow>)
    ensures
        match r {
            Some(row) => row.country@ == Seq::<char>::empty() && row.fuel@ == fuel_name(f)
                && row.parts@ == rows_of_fuel(base@, f, base.len() as int) && row.parts.len() > 0,
            None => rows_of_fuel(base@, f, base.len() as int).len() == 0,
        },
{
    let mut parts: Vec<usize> = Vec::new();
    let mut b: usize = 0;
    while b < base.len()
        invariant
            b <= base.len(),
            parts@ == rows_of_fuel(base@, f, b as int),
        decreases base.len() - b,
    {
        if base[b].fuel == f {
            parts.push(b);
        }
        b = b + 1;
    }
    if parts.len() == 0 {
        None
    } else {
        Some(DerivedRow { country: String::new(), fuel: String::from_str(f.name()), parts })
    }
}

/// The fuels in the order of their rollup rows.
pub open spec fn rollup_fuel(a: int) -> Fuel {
    if a == 0 { Fuel::Gas } else if a == 1 { Fuel::Coal } else if a == 2 { Fuel::Lignite } else { Fuel::Oil }
}

proof fn lemma_fuel_names_differ()
    ensures
        forall|f: Fuel, g: Fuel| f != g ==> fuel_name(f) != fuel_name(g),
{
    reveal_strlit("gas");
    reveal_strlit("coal");
    reveal_strlit("lignite");
    reveal_strlit("oil");
    reveal_strlit("other");
    assert forall|f: Fuel, g: Fuel| f != g implies fuel_name(f) != fuel_name(g) by {
        if fuel_name(f) == fuel_name(g) {
            assert(fuel_name(f).len() == fuel_name(g).len());
            assert(fuel_name(f)[0] == fuel_name(g)[0]);
        }
    }
}

/// `row` is the rollup row of the `q`-th fuel.
pub open spec fn is_rollup_row(base: Seq<BaseRow>, row: DerivedRow, q: int) -> bool {
    let f = rollup_fuel(q);
    &&& row.country@ == Seq::<char>::empty()
    &&& row.fuel@ == fuel_name(f)
    &&& row.parts@ == rows_of_fuel(base, f, base.len() as int)
    &&& row.parts.len() > 0
}

/// `row` is the rollup row of one of the fuels.
pub open spec fn is_some_rollup_row(base: Seq<BaseRow>, row: DerivedRow) -> bool {
    exists|q: int| 0 <= q < 4 && #[trigger] is_rollup_row(base, row, q)
}

/// The rollup rows: for each fossil fuel that has base rows, a row with the empty
/// country that adds up all of them.
pub fn rollup_rows(base: &Vec<BaseRow>) -> (r: Vec<DerivedRow>)
    ensures
        forall|a: int| 0 <= a < r.len() ==> is_some_rollup_row(base@, #[trigger] r@[a]),
        forall|q: int| 0 <= q < 4 && rows_of_fuel(base@, rollup_fuel(q), base.len() as int).len() > 0 ==> exists|a: int|
            0 <= a < r.len() && (#[trigger] r@[a]).fuel@ == fuel_name(rollup_fuel(q)),
        forall|a: int, b: int| 0 <= a < b < r.len() ==> (#[trigger] r@[a]).fuel@ != (#[trigger] r@[b]).fuel@,
{
    let mut r: Vec<DerivedRow> = Vec::new();
    let fuels = [Fuel::Gas, Fuel::Coal, Fuel::Lignite, Fuel::Oil];
    let ghost mut which: Seq<int> = Seq::empty();
    let mut q: usize = 0;
    proof { lemma_fuel_names_differ(); }
    while q < 4
        invariant
            q <= 4,
            fuels@ == seq![Fuel::Gas, Fuel::Coal, Fuel::Lignite, Fuel::Oil],
            which.len() == r.len(),
            forall|a: int| 0 <= a < r.len() ==> 0 <= #[trigger] which[a] < q && is_rollup_row(base@, r@[a], which[a]),
            forall|a: int, b: int| 0 <= a < b < r.len() ==> #[trigger] which[a] < #[trigger] which[b],
            forall|p: int| 0 <= p < q && rows_of_fuel(base@, rollup_fuel(p), base.len() as int).len() > 0 ==> exists|a: int|
                0 <= a < r.len() && #[trigger] which[a] == p,
        decreases 4 - q,
    {
        let f = fuels[q];
        assert(f == rollup_fuel(q as int));
        match rollup_row(base, f) {
            Some(row) => {
                let ghost before = r@;
                let ghost wbefore = which;
                r.push(row);
                proof { which = which.push(q as int); }
                assert forall|a: int| 0 <= a < r.len() implies 0 <= #[trigger] which[a] < q + 1 && is_rollup_row(base@, r@[a], which[a]) by {
                    if a < before.len() {
                        assert(r@[a] == before[a]);
                        assert(which[a] == wbefore[a]);
                    }
                }
                assert forall|p: int| 0 <= p < q + 1 && rows_of_fuel(base@, rollup_fuel(p), base.len() as int).len() > 0 implies exists|a: int|
                    0 <= a < r.len() && #[trigger] which[a] == p by {
                    if p < q {
                        let a = choose|a: int| 0 <= a < wbefore.len() && #[trigger] wbefore[a] == p;
                        assert(which[a] == wbefore[a]);
                    } else {
                        assert(which[r.len() - 1] == p);
                    }
                }
            },
            None => {},
        }
        q = q + 1;
    }
    assert forall|a: int| 0 <= a < r.len() implies is_some_rollup_row(base@, #[trigger] r@[a]) by {
        assert(is_rollup_row(base@, r@[a], which[a]));
    }
    assert forall|p: int| 0 <= p < 4 && rows_of_fuel(base@, rollup_fuel(p), base.len() as int).len() > 0 implies exists|a: int|
        0 <= a < r.len() && (#[trigger] r@[a]).fuel@ == fuel_name(rollup_fuel(p)) by {
        let a = choose|a: int| 0 <= a < r.len() && #[trigger] which[a] == p;
        assert(is_rollup_row(base@, r@[a], which[a]));
    }
    assert forall|a: int, b: int| 0 <= a < b < r.len() implies (#[trigger] r@[a]).fuel@ != (#[trigger] r@[b]).fuel@ by {
        assert(which[a] < which[b]);
        assert(is_rollup_row(base@, r@[a], which[a]));
        assert(is_rollup_row(base@, r@[b], which[b]));
        assert(rollup_fuel(which[a]) != rollup_fuel(which[b]));
    }
    r
}

/// The positions of the base rows of `(c, f)` below `n`: at most one when the rows are unique.
pub open spec fn base_rows_of(base: Seq<BaseRow>, c: Seq<char>, f: Fuel, n: int) -> Seq<usize>
    decreases n,
{
    if n <= 0 {
        Seq::<usize>::empty()
    } else if base[n - 1].fuel == f && base[n - 1].country@ == c {
        base_rows_of(base, c, f, n - 1).push((n - 1) as usize)
    } else {
        base_rows_of(base, c, f, n - 1)
    }
}

/// The positions, in the list of all rows, of the rollup rows of fuel `f` below `n`.
pub open spec fn rollup_rows_of(nb: nat, rollup: Seq<DerivedRow>, f: Fuel, n: int) -> Seq<usize>
    decreases n,
{
    if n <= 0 {
        Seq::<usize>::empty()
    } else if rollup[n - 1].fuel@ == fuel_name(f) {
        rollup_rows_of(nb, rollup, f, n - 1).push((nb + n - 1) as usize)
    } else {
        rollup_rows_of(nb, rollup, f, n - 1)
    }
}

/// What the `coal+lignite` row of country `c` adds up: the `coal` row, then the
/// `lignite` row, of that country; for the empty country, the rollup rows.
pub open spec fn coal_lignite_parts(base: Seq<BaseRow>, rollup: Seq<DerivedRow>, c: Seq<char>) -> Seq<usize> {
    if c.len() == 0 {
        rollup_rows_of(base.len(), rollup, Fuel::Coal, rollup.len() as int)
            + rollup_rows_of(base.len(), rollup, Fuel::Lignite, rollup.len() as int)
    } else {
        base_rows_of(base, c, Fuel::Coal, base.len() as int) + base_rows_of(base, c, Fuel::Lignite, base.len() as int)
    }
}

/// The label of the combined coal and lignite rows.
pub open spec fn coal_lignite_label() -> Seq<char> {
    "coal+lignite"@
}

fn base_rows_of_exec(base: &Vec<BaseRow>, c: &String, f: Fuel) -> (r: Vec<usize>)
    ensures
        r@ == base_rows_of(base@, c@, f, base.len() as int),
{
    let mut r: Vec<usize> = Vec::new();
    let mut b: usize = 0;
    while b < base.len()
        invariant
            b <= base.len(),
            r@ == base_rows_of(base@, c@, f, b as int),
        decreases base.len() - b,
    {
        if base[b].fuel == f && base[b].country == *c {
            r.push(b);
        }
        b = b + 1;
    }
    r
}

fn rollup_rows_of_exec(nb: usize, rollup: &Vec<DerivedRow>, f: Fuel) -> (r: Vec<usize>)
    requires
        nb + rollup.len() <= usize::MAX,
    ensures
        r@ == rollup_rows_of(nb as nat, rollup@, f, rollup.len() as int),
{
    let name = String::from_str(f.name());
    let mut r: Vec<usize> = Vec::new();
    let mut a: usize = 0;
    while a < rollup.len()
        invariant
            a <= rollup.len(),
            nb + rollup.len() <= usize::MAX,
            name@ == fuel_name(f),
            r@ == rollup_rows_of(nb as nat, rollup@, f, a as int),
        decreases rollup.len() - a,
    {
        if rollup[a].fuel == name {
            r.push(nb + a);
        }
        a = a + 1;
    }
    r
}

fn concat(a: Vec<usize>, b: Vec<usize>) -> (r: Vec<usize>)
    ensures
        r@ == a@ + b@,
{
    let mut r = a;
    let mut b = b;
    r.append(&mut b);
    r
}

/// The `coal+lignite` rows: one for each country with a `coal` or a `lignite` base
/// row, and one for the empty country when there is a `coal` or `lignite` rollup row.
pub fn coal_lignite_rows(base: &Vec<BaseRow>, rollup: &Vec<DerivedRow>) -> (r: Vec<DerivedRow>)
    requires
        base.len() + rollup.len() <= usize::MAX,
    ensures
        forall|a: int| 0 <= a < r.len() ==> (#[trigger] r@[a]).fuel@ == coal_lignite_label()
            && r@[a].parts@ == coal_lignite_parts(base@, rollup@, r@[a].country@) && r@[a].parts.len() > 0,
        forall|a: int, b: int| 0 <= a < b < r.len() ==> (#[trigger] r@[a]).country@ != (#[trigger] r@[b]).country@,
        forall|b: int| 0 <= b < base.len() && (base@[b].fuel == Fuel::Coal || base@[b].fuel == Fuel::Lignite)
            && base@[b].country@.len() > 0 ==> exists|a: int| 0 <= a < r.len() && (#[trigger] r@[a]).country@ == base@[b].country@,
        coal_lignite_parts(base@, rollup@, Seq::<char>::empty()).len() > 0 ==> exists|a: int|
            0 <= a < r.len() && (#[trigger] r@[a]).country@ == Seq::<char>::empty(),
{
    let mut r: Vec<DerivedRow> = Vec::new();
    let mut b: usize = 0;
    while b < base.len()
        invariant
            b <= base.len(),
            forall|a: int| 0 <= a < r.len() ==> (#[trigger] r@[a]).fuel@ == coal_lignite_label()
                && r@[a].parts@ == coal_lignite_parts(base@, rollup@, r@[a].country@) && r@[a].parts.len() > 0
                && r@[a].country@.len() > 0,
            forall|a: int, q: int| 0 <= a < q < r.len() ==> (#[trigger] r@[a]).country@ != (#[trigger] r@[q]).country@,
            forall|q: int| 0 <= q < b && (base@[q].fuel == Fuel::Coal || base@[q].fuel == Fuel::Lignite)
                && base@[q].country@.len() > 0 ==> exists|a: int| 0 <= a < r.len() && (#[trigger] r@[a]).country@ == base@[q].country@,
        decreases base.len() - b,
    {
        let row = &base[b];
        if (row.fuel == Fuel::Coal || row.fuel == Fuel::Lignite) && row.country.as_str().unicode_len() > 0 {
            let mut seen = false;
            let mut a: usize = 0;
            while a < r.len()
                invariant
                    a <= r.len(),
                    seen == exists|q: int| 0 <= q < a && (#[trigger] r@[q]).country@ == row.country@,
                decreases r.len() - a,
            {
                if r[a].country == row.country {
                    seen = true;
                }
                a = a + 1;
            }
            if !seen {
                let coal = base_rows_of_exec(base, &row.country, Fuel::Coal);
                let lignite = base_rows_of_exec(base, &row.country, Fuel::Lignite);
                proof {
                    lemma_base_rows_of_has(base@, row.country@, row.fuel, base.len() as int, b as int);
                }
                let parts = concat(coal, lignite);
                let ghost before = r@;
                r.push(DerivedRow { country: row.country.clone(), fuel: String::from_str("coal+lignite"), parts });
                assert forall|q: int| 0 <= q < b + 1 && (base@[q].fuel == Fuel::Coal || base@[q].fuel == Fuel::Lignite)
                    && base@[q].country@.len() > 0 implies exists|a: int| 0 <= a < r.len() && (#[trigger] r@[a]).country@ == base@[q].country@ by {
                    if q < b {
                        let a = choose|a: int| 0 <= a < before.len() && (#[trigger] before[a]).country@ == base@[q].country@;
                        assert(r@[a] == before[a]);
                    } else {
                        assert(r@[r.len() - 1].country@ == base@[q].country@);
                    }
                }
                assert forall|a: int, q: int| 0 <= a < q < r.len() implies (#[trigger] r@[a]).country@ != (#[trigger] r@[q]).country@ by {
                    assert(r@[a] == before[a]);
                    if q < before.len() {
                        assert(r@[q] == before[q]);
                    }
                }
            } else {
                assert forall|q: int| 0 <= q < b + 1 && (base@[q].fuel == Fuel::Coal || base@[q].fuel == Fuel::Lignite)
                    && base@[q].country@.len() > 0 implies exists|a: int| 0 <= a < r.len() && (#[trigger] r@[a]).country@ == base@[q].country@ by {
                    if q == b {
                        let a = choose|a: int| 0 <= a < r.len() && (#[trigger] r@[a]).country@ == row.country@;
                    }
                }
            }
        }
        b = b + 1;
    }
    let coal = rollup_rows_of_exec(base.len(), rollup, Fuel::Coal);
    let lignite = rollup_rows_of_exec(base.len(), rollup, Fuel::Lignite);
    let parts = concat(coal, lignite);
    if parts.len() > 0 {
        let ghost before = r@;
        r.push(DerivedRow { country: String::new(), fuel: String::from_str("coal+lignite"), parts });
        assert forall|a: int, q: int| 0 <= a < q < r.len() implies (#[trigger] r@[a]).country@ != (#[trigger] r@[q]).country@ by {
            assert(r@[a] == before[a]);
            if q < before.len() {
                assert(r@[q] == before[q]);
            }
        }
        assert forall|q: int| 0 <= q < base.len() && (base@[q].fuel == Fuel::Coal || base@[q].fuel == Fuel::Lignite)
            && base@[q].country@.len() > 0 implies exists|a: int| 0 <= a < r.len() && (#[trigger] r@[a]).country@ == base@[q].country@ by {
            let a = choose|a: int| 0 <= a < before.len() && (#[trigger] before[a]).country@ == base@[q].country@;
            assert(r@[a] == before[a]);
        }
        assert(r@[r.len() - 1].country@ == Seq::<char>::empty());
    }
    r
}

proof fn lemma_base_rows_of_has(base: Seq<BaseRow>, c: Seq<char>, f: Fuel, n: int, b: int)
    requires
        0 <= b < n <= base.len() <= usize::MAX,
        base[b].country@ == c,
        base[b].fuel == f,
    ensures
        base_rows_of(base, c, f, n).len() > 0,
    decreases n,
{
    if b < n - 1 {
        lemma_base_rows_of_has(base, c, f, n - 1, b);
    }
}

proof fn lemma_base_rows_of_unique(base: Seq<BaseRow>, c: Seq<char>, f: Fuel, n: int, b: int)
    requires
        0 <= b < n <= base.len() <= usize::MAX,
        base[b].country@ == c,
        base[b].fuel == f,
        forall|a: int| 0 <= a < base.len() && a != b ==> !((#[trigger] base[a]).country@ == c && base[a].fuel == f),
    ensures
        base_rows_of(base, c, f, n) == seq![b as usize],
    decreases n,
{
    if b < n - 1 {
        lemma_base_rows_of_unique(base, c, f, n - 1, b);
    } else {
        lemma_base_rows_of_none(base, c, f, n - 1);
        assert(Seq::<usize>::empty().push(b as usize) =~= seq![b as usize]);
    }
}

proof fn lemma_base_rows_of_none(base: Seq<BaseRow>, c: Seq<char>, f: Fuel, n: int)
    requires
        n <= base.len(),
        forall|a: int| 0 <= a < n ==> !((#[trigger] base[a]).country@ == c && base[a].fuel == f),
    ensures
        base_rows_of(base, c, f, n).len() == 0,
    decreases n,
{
    if n > 0 {
        lemma_base_rows_of_none(base, c, f, n - 1);
    }
}

/// The `coal+lignite` row of a country adds up exactly that country's `coal` row and
/// its `lignite` row, so that each of its sums is the sum of theirs.
pub proof fn lemma_coal_lignite_sums_both(
    base: Seq<BaseRow>,
    rollup: Seq<DerivedRow>,
    units: Seq<GenerationUnit>,
    ms: Seq<Match>,
    fs: Seq<MatchFacts>,
    c: Seq<char>,
    coal: int,
    lignite: int,
)
    requires
        base.len() <= usize::MAX,
        base_rows_hold(base, units, ms, fs, units.len() as int, ms.len() as int),
        c.len() > 0,
        0 <= coal < base.len() && base[coal].country@ == c && base[coal].fuel == Fuel::Coal,
        0 <= lignite < base.len() && base[lignite].country@ == c && base[lignite].fuel == Fuel::Lignite,
    ensures
        coal_lignite_parts(base, rollup, c) == seq![coal as usize, lignite as usize],
{
    lemma_base_rows_of_unique(base, c, Fuel::Coal, base.len() as int, coal);
    lemma_base_rows_of_unique(base, c, Fuel::Lignite, base.len() as int, lignite);
    assert(seq![coal as usize] + seq![lignite as usize] =~= seq![coal as usize, lignite as usize]);
}

} // verus!
