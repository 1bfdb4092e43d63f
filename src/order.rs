//! The output order of matches: by country, then name, then the name of the first
//! generation unit, each compared character by character by code point (the order of
//! Rust's `str`).

use vstd::prelude::*;
use vstd::string::*;
use crate::matching::{GenerationUnit, Match};

verus! {

/// `a` comes before `b`: at the first position where they differ, `a` has the smaller
/// character, or `a` ends there and `b` goes on.
pub open spec fn text_lt(a: Seq<char>, b: Seq<char>) -> bool {
    exists|i: int| #[trigger] differs_at(a, b, i)
}

/// `a` and `b` agree before `i`, and `a` is smaller at `i`.
pub open spec fn differs_at(a: Seq<char>, b: Seq<char>, i: int) -> bool {
    &&& 0 <= i <= a.len()
    &&& i <= b.len()
    &&& forall|k: int| 0 <= k < i ==> a[k] == b[k]
    &&& (i == a.len() && i < b.len()) || (i < a.len() && i < b.len() && (a[i] as u32) < (b[i] as u32))
}

proof fn lemma_text_lt_transitive(a: Seq<char>, b: Seq<char>, c: Seq<char>)
    requires
        text_lt(a, b),
        text_lt(b, c),
    ensures
        text_lt(a, c),
{
    let i = choose|i: int| #[trigger] differs_at(a, b, i);
    let j = choose|j: int| #[trigger] differs_at(b, c, j);
    if i < j {
        assert(differs_at(a, c, i));
    } else if j < i {
        assert(b[j] == a[j]);
        assert(differs_at(a, c, j));
    } else {
        assert(differs_at(a, c, i));
    }
}

proof fn lemma_text_lt_irreflexive(a: Seq<char>)
    ensures
        !text_lt(a, a),
{
}

/// Compares two texts: -1, 0 or 1 as `a` comes before, equals, or comes after `b`.
pub fn compare_text(a: &str, b: &str) -> (r: i8)
    ensures
        r == -1 <==> text_lt(a@, b@),
        r == 0 <==> a@ == b@,
        r == 1 <==> text_lt(b@, a@),
        r == -1 || r == 0 || r == 1,
{
    let n = a.unicode_len();
    let m = b.unicode_len();
    let mut i: usize = 0;
    while i < n && i < m
        invariant
            n == a@.len(),
            m == b@.len(),
            i <= n,
            i <= m,
            forall|k: int| 0 <= k < i ==> a@[k] == b@[k],
        decreases n - i,
    {
        let x = a.get_char(i);
        let y = b.get_char(i);
        if (x as u32) < (y as u32) {
            assert(differs_at(a@, b@, i as int));
            proof { lemma_not_lt_at(b@, a@, i as int); }
            assert(a@[i as int] != b@[i as int]);
            return -1;
        } else if (y as u32) < (x as u32) {
            assert(differs_at(b@, a@, i as int));
            proof { lemma_not_lt_at(a@, b@, i as int); }
            assert(a@[i as int] != b@[i as int]);
            return 1;
        }
        assert((x as u32) == (y as u32));
        assert(x == y);
        i = i + 1;
    }
    if n < m {
        assert(differs_at(a@, b@, i as int));
        proof { lemma_not_lt_at(b@, a@, i as int); }
        -1
    } else if m < n {
        assert(differs_at(b@, a@, i as int));
        proof { lemma_not_lt_at(a@, b@, i as int); }
        1
    } else {
        assert(a@ =~= b@);
        0
    }
}

proof fn lemma_not_lt_at(a: Seq<char>, b: Seq<char>, i: int)
    requires
        0 <= i <= a.len(),
        i <= b.len(),
        forall|k: int| 0 <= k < i ==> a[k] == b[k],
        (i < a.len() && i < b.len() && (b[i] as u32) < (a[i] as u32)) || i == b.len(),
    ensures
        !text_lt(a, b),
{
    if text_lt(a, b) {
        let j = choose|j: int| #[trigger] differs_at(a, b, j);
        if j > i {
            assert(a[i] == b[i]);
        }
    }
}

/// The order key of a match: its country, its name, and the name of its first
/// generation unit.
pub open spec fn match_key(m: Match, units: Seq<GenerationUnit>) -> (Seq<char>, Seq<char>, Seq<char>) {
    (m@.country, m@.name, units[m@.generation[0] as int].name@)
}

/// `x` comes before `y`: by the first part, then the second, then the third.
pub open spec fn key_lt(x: (Seq<char>, Seq<char>, Seq<char>), y: (Seq<char>, Seq<char>, Seq<char>)) -> bool {
    text_lt(x.0, y.0) || (x.0 == y.0 && (text_lt(x.1, y.1) || (x.1 == y.1 && text_lt(x.2, y.2))))
}

proof fn lemma_key_lt_transitive(
    x: (Seq<char>, Seq<char>, Seq<char>),
    y: (Seq<char>, Seq<char>, Seq<char>),
    z: (Seq<char>, Seq<char>, Seq<char>),
)
    requires
        key_lt(x, y),
        key_lt(y, z),
    ensures
        key_lt(x, z),
{
    if text_lt(x.0, y.0) && text_lt(y.0, z.0) {
        lemma_text_lt_transitive(x.0, y.0, z.0);
    }
    if x.0 == y.0 && y.0 == z.0 {
        if text_lt(x.1, y.1) && text_lt(y.1, z.1) {
            lemma_text_lt_transitive(x.1, y.1, z.1);
        }
        if x.1 == y.1 && y.1 == z.1 && text_lt(x.2, y.2) && text_lt(y.2, z.2) {
            lemma_text_lt_transitive(x.2, y.2, z.2);
        }
    }
}

proof fn lemma_key_lt_irreflexive(x: (Seq<char>, Seq<char>, Seq<char>))
    ensures
        !key_lt(x, x),
{
    lemma_text_lt_irreflexive(x.0);
    lemma_text_lt_irreflexive(x.1);
    lemma_text_lt_irreflexive(x.2);
}

fn key_before(a: &Match, b: &Match, units: &Vec<GenerationUnit>) -> (r: bool)
    requires
        a@.generation.len() > 0,
        a@.generation[0] < units.len(),
        b@.generation.len() > 0,
        b@.generation[0] < units.len(),
    ensures
        r == key_lt(match_key(*a, units@), match_key(*b, units@)),
{
    let c = compare_text(a.country().as_str(), b.country().as_str());
    if c != 0 {
        return c == -1;
    }
    let n = compare_text(a.name().as_str(), b.name().as_str());
    if n != 0 {
        return n == -1;
    }
    let g = compare_text(units[a.generation()[0]].name.as_str(), units[b.generation()[0]].name.as_str());
    g == -1
}

/// Every match has a first generation unit, and it is among `units`.
pub open spec fn keys_defined(ms: Seq<Match>, units: Seq<GenerationUnit>) -> bool {
    forall|k: int| 0 <= k < ms.len() ==> (#[trigger] ms[k])@.generation.len() > 0 && ms[k]@.generation[0] < units.len()
}

/// The order in which the matches are written: a permutation of their indices under
/// which their keys never decrease.
pub fn match_order(matches: &Vec<Match>, units: &Vec<GenerationUnit>) -> (r: Vec<usize>)
    requires
        keys_defined(matches@, units@),
    ensures
        r.len() == matches.len(),
        forall|a: int| 0 <= a < r.len() ==> #[trigger] r@[a] < matches.len(),
        forall|a: int, b: int| 0 <= a < b < r.len() ==> #[trigger] r@[a] != #[trigger] r@[b],
        forall|a: int, b: int|
            0 <= a < b < r.len() ==> !key_lt(
                match_key(matches@[#[trigger] r@[b] as int], units@),
                match_key(matches@[#[trigger] r@[a] as int], units@),
            ),
{
    let mut r: Vec<usize> = Vec::new();
    let mut i: usize = 0;
    while i < matches.len()
        invariant
            keys_defined(matches@, units@),
            i <= matches.len(),
            r.len() == i,
            forall|a: int| 0 <= a < r.len() ==> #[trigger] r@[a] < i,
            forall|a: int, b: int| 0 <= a < b < r.len() ==> #[trigger] r@[a] != #[trigger] r@[b],
            forall|a: int, b: int|
                0 <= a < b < r.len() ==> !key_lt(
                    match_key(matches@[#[trigger] r@[b] as int], units@),
                    match_key(matches@[#[trigger] r@[a] as int], units@),
                ),
        decreases matches.len() - i,
    {
        let ghost ki = match_key(matches@[i as int], units@);
        assert(matches@[i as int]@.generation.len() > 0);
        let mut j: usize = 0;
        while j < r.len() && !key_before(&matches[i], &matches[r[j]], units)
            invariant
                keys_defined(matches@, units@),
                i < matches.len(),
                ki == match_key(matches@[i as int], units@),
                j <= r.len(),
                forall|a: int| 0 <= a < r.len() ==> #[trigger] r@[a] < i,
                forall|k: int| 0 <= k < j ==> !key_lt(ki, match_key(matches@[#[trigger] r@[k] as int], units@)),
            decreases r.len() - j,
        {
            assert(matches@[r@[j as int] as int]@.generation.len() > 0);
            j = j + 1;
        }
        let ghost old_r = r@;
        proof {
            if j < old_r.len() {
                assert(key_lt(ki, match_key(matches@[old_r[j as int] as int], units@)));
            }
        }
        r.insert(j, i);
        assert(r@ == old_r.insert(j as int, i));
        proof {
            assert forall|a: int, b: int|
                0 <= a < b < r.len() implies !key_lt(
                    match_key(matches@[#[trigger] r@[b] as int], units@),
                    match_key(matches@[#[trigger] r@[a] as int], units@),
                ) by {
                let kj = match_key(matches@[old_r[j as int] as int], units@);
                if a < j && b < j {
                    assert(r@[a] == old_r[a] && r@[b] == old_r[b]);
                } else if a < j && b == j {
                    assert(r@[a] == old_r[a]);
                } else if a < j {
                    assert(r@[a] == old_r[a] && r@[b] == old_r[b - 1]);
                } else if a == j {
                    assert(r@[b] == old_r[b - 1]);
                    let kb = match_key(matches@[old_r[b - 1] as int], units@);
                    if key_lt(kb, ki) {
                        if b - 1 > j {
                            assert(!key_lt(kb, kj));
                            lemma_key_lt_transitive(kb, ki, kj);
                        } else {
                            lemma_key_lt_transitive(kb, ki, kb);
                            lemma_key_lt_irreflexive(kb);
                        }
                    }
                } else {
                    assert(r@[a] == old_r[a - 1] && r@[b] == old_r[b - 1]);
                }
            }
            assert forall|a: int, b: int| 0 <= a < b < r.len() implies #[trigger] r@[a] != #[trigger] r@[b] by {
                if a < j && b < j {
                    assert(r@[a] == old_r[a] && r@[b] == old_r[b]);
                } else if a < j && b > j {
                    assert(r@[a] == old_r[a] && r@[b] == old_r[b - 1]);
                } else if a > j {
                    assert(r@[a] == old_r[a - 1] && r@[b] == old_r[b - 1]);
                } else if a == j {
                    assert(r@[b] == old_r[b - 1]);
                } else {
                    assert(r@[a] == old_r[a]);
                }
            }
            assert forall|a: int| 0 <= a < r.len() implies #[trigger] r@[a] < i + 1 by {
                if a < j {
                    assert(r@[a] == old_r[a]);
                } else if a > j {
                    assert(r@[a] == old_r[a - 1]);
                }
            }
        }
        i = i + 1;
    }
    r
}

} // verus!
