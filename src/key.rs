//! Matching keys: the most telling word of a plant or installation name.
//!
//! A name is lower-cased and transliterated to ASCII, then cut into pieces at every
//! character that is not a letter. A piece is a candidate when it has at least three
//! letters and holds none of the stop words (generic corporate or technical terms).
//! The key is the longest candidate; among candidates of equal length the one that
//! comes last in the name wins. With no candidate the key is empty.

use vstd::prelude::*;
use vstd::string::*;
use vstd::utf8::is_ascii_chars;
use crate::text::{contains, occurs_in};

verus! {

/// What `str::to_lowercase` returns for a string.
pub uninterp spec fn lowercased(s: Seq<char>) -> Seq<char>;

/// What `deunicode::deunicode` returns for a string.
pub uninterp spec fn transliterated(s: Seq<char>) -> Seq<char>;

/// Relies on `str::to_lowercase`: its result depends on the characters alone.
#[verifier::external_body]
fn lowercase(s: &str) -> (r: String)
    ensures
        r@ == lowercased(s@),
{
    s.to_lowercase()
}

/// Relies on `deunicode::deunicode`: its result is ASCII, and a string whose characters
/// all lie below U+007F is returned as it is.
#[verifier::external_body]
fn transliterate(s: &str) -> (r: String)
    ensures
        r@ == transliterated(s@),
        is_ascii_chars(r@),
        (forall|i: int| 0 <= i < s@.len() ==> (#[trigger] s@[i] as u32) < 0x7f) ==> r@ == s@,
{
    deunicode::deunicode(s)
}

/// An ASCII letter; on the ASCII text that keys are taken from, exactly the alphabetic characters.
pub open spec fn is_letter(c: char) -> bool {
    ('a' <= c && c <= 'z') || ('A' <= c && c <= 'Z')
}

/// The pieces of `s` between the characters that are not letters, empty pieces included:
/// one more piece than there are such characters.
pub open spec fn pieces(s: Seq<char>) -> Seq<Seq<char>>
    decreases s.len(),
{
    if s.len() == 0 {
        seq![Seq::<char>::empty()]
    } else {
        let p = pieces(s.drop_last());
        if is_letter(s.last()) {
            p.update(p.len() - 1, p.last().push(s.last()))
        } else {
            p.push(Seq::<char>::empty())
        }
    }
}

/// The piece holds one of the stop words.
pub open spec fn has_stop_word(t: Seq<char>) -> bool {
    ||| occurs_in("electrabel"@, t)
    ||| occurs_in("elektrarn"@, t)
    ||| occurs_in("block"@, t)
    ||| occurs_in("dampf"@, t)
    ||| occurs_in("energie"@, t)
    ||| occurs_in("gud"@, t)
    ||| occurs_in("kraft"@, t)
    ||| occurs_in("turbine"@, t)
    ||| occurs_in("generat"@, t)
    ||| occurs_in("power"@, t)
    ||| occurs_in("station"@, t)
    ||| occurs_in("combinado"@, t)
    ||| occurs_in("electrica"@, t)
    ||| occurs_in("espana"@, t)
    ||| occurs_in("endesa"@, t)
    ||| occurs_in("generacion"@, t)
    ||| occurs_in("grupo"@, t)
    ||| occurs_in("iberdrola"@, t)
    ||| occurs_in("voimalaitos"@, t)
    ||| occurs_in("lampokeskus"@, t)
    ||| occurs_in("electrique"@, t)
    ||| occurs_in("limited"@, t)
    ||| occurs_in("gazturbinas"@, t)
    ||| occurs_in("eromu"@, t)
    ||| occurs_in("centrale"@, t)
    ||| occurs_in("energi"@, t)
    ||| occurs_in("termoelettrica"@, t)
    ||| occurs_in("turbogas"@, t)
    ||| occurs_in("combinato"@, t)
    ||| occurs_in("cogenera"@, t)
    ||| occurs_in("vattenfall"@, t)
    ||| occurs_in("cieplownia"@, t)
    ||| occurs_in("oddzial"@, t)
    ||| occurs_in("elektrowni"@, t)
    ||| occurs_in("energetyczny"@, t)
    ||| occurs_in("wytwarzanie"@, t)
    ||| occurs_in("central"@, t)
    ||| occurs_in("termoelectrica"@, t)
    ||| occurs_in("termoeletrica"@, t)
    ||| occurs_in("termica"@, t)
}

/// A piece that may serve as a key.
pub open spec fn is_candidate(t: Seq<char>) -> bool {
    t.len() >= 3 && !has_stop_word(t)
}

/// The longest candidate among `ps`, the last one on ties; empty when there is none.
pub open spec fn longest_candidate(ps: Seq<Seq<char>>) -> Seq<char>
    decreases ps.len(),
{
    if ps.len() == 0 {
        Seq::<char>::empty()
    } else {
        let best = longest_candidate(ps.drop_last());
        if is_candidate(ps.last()) && ps.last().len() >= best.len() {
            ps.last()
        } else {
            best
        }
    }
}

/// The key of an already normalised text.
pub open spec fn key_of(s: Seq<char>) -> Seq<char> {
    longest_candidate(pieces(s))
}

/// The key of a name as it stands in the records.
pub open spec fn name_key(name: Seq<char>) -> Seq<char> {
    key_of(transliterated(lowercased(name)))
}

fn has_stop_word_exec(t: &str) -> (r: bool)
    ensures
        r == has_stop_word(t@),
{
    contains(t, "electrabel") || contains(t, "elektrarn") || contains(t, "block")
        || contains(t, "dampf") || contains(t, "energie") || contains(t, "gud")
        || contains(t, "kraft") || contains(t, "turbine") || contains(t, "generat")
        || contains(t, "power") || contains(t, "station") || contains(t, "combinado")
        || contains(t, "electrica") || contains(t, "espana") || contains(t, "endesa")
        || contains(t, "generacion") || contains(t, "grupo") || contains(t, "iberdrola")
        || contains(t, "voimalaitos") || contains(t, "lampokeskus") || contains(t, "electrique")
        || contains(t, "limited") || contains(t, "gazturbinas") || contains(t, "eromu")
        || contains(t, "centrale") || contains(t, "energi") || contains(t, "termoelettrica")
        || contains(t, "turbogas") || contains(t, "combinato") || contains(t, "cogenera")
        || contains(t, "vattenfall") || contains(t, "cieplownia") || contains(t, "oddzial")
        || contains(t, "elektrowni") || contains(t, "energetyczny") || contains(t, "wytwarzanie")
        || contains(t, "central") || contains(t, "termoelectrica") || contains(t, "termoeletrica")
        || contains(t, "termica")
}

fn is_letter_exec(c: char) -> (r: bool)
    ensures
        r == is_letter(c),
{
    ('a' <= c && c <= 'z') || ('A' <= c && c <= 'Z')
}

/// The key of an already lower-cased and transliterated text.
pub fn longest_token(s: &str) -> (r: String)
    ensures
        r@ == key_of(s@),
{
    let n = s.unicode_len();
    let mut start: usize = 0;
    let mut best_from: usize = 0;
    let mut best_to: usize = 0;
    let mut i: usize = 0;
    assert(s@.take(0) =~= Seq::<char>::empty());
    while i < n
        invariant
            n == s@.len(),
            start <= i <= n,
            best_from <= best_to <= n,
            pieces(s@.take(i as int)).len() >= 1,
            pieces(s@.take(i as int)).last() == s@.subrange(start as int, i as int),
            longest_candidate(pieces(s@.take(i as int)).drop_last())
                == s@.subrange(best_from as int, best_to as int),
        decreases n - i,
    {
        let c = s.get_char(i);
        let ghost ps = pieces(s@.take(i as int));
        assert(s@.take(i + 1).drop_last() =~= s@.take(i as int));
        if !is_letter_exec(c) {
            let ghost best = s@.subrange(best_from as int, best_to as int);
            let len = i - start;
            if len >= 3 && len >= best_to - best_from {
                let t = s.substring_char(start, i);
                if !has_stop_word_exec(t) {
                    best_from = start;
                    best_to = i;
                }
            }
            assert(pieces(s@.take(i + 1)).drop_last() =~= ps);
            start = i + 1;
            assert(s@.subrange(start as int, i + 1) =~= Seq::<char>::empty());
        } else {
            assert(pieces(s@.take(i + 1)).drop_last() =~= ps.drop_last());
            assert(s@.subrange(start as int, i + 1) =~= s@.subrange(start as int, i as int).push(c));
        }
        i = i + 1;
    }
    assert(s@.take(n as int) =~= s@);
    let len = n - start;
    if len >= 3 && len >= best_to - best_from {
        let t = s.substring_char(start, n);
        if !has_stop_word_exec(t) {
            best_from = start;
            best_to = n;
        }
    }
    String::from_str(s.substring_char(best_from, best_to))
}

/// The matching key of a plant or installation name.
pub fn get_key(name: &str) -> (r: String)
    ensures
        r@ == name_key(name@),
{
    let lower = lowercase(name);
    let plain = transliterate(lower.as_str());
    longest_token(plain.as_str())
}

proof fn lemma_pieces_after_separator(s: Seq<char>, c: char, w: Seq<char>)
    requires
        !is_letter(c),
        forall|i: int| 0 <= i < w.len() ==> is_letter(#[trigger] w[i]),
    ensures
        pieces(s.push(c) + w) == pieces(s).push(w),
    decreases w.len(),
{
    if w.len() == 0 {
        assert(s.push(c) + w =~= s.push(c));
        assert(s.push(c).drop_last() =~= s);
        assert(w =~= Seq::<char>::empty());
    } else {
        let v = w.drop_last();
        lemma_pieces_after_separator(s, c, v);
        assert((s.push(c) + w).drop_last() =~= s.push(c) + v);
        assert((s.push(c) + w).last() == w.last());
        assert(is_letter(w[w.len() - 1]));
        assert(w =~= v.push(w.last()));
        assert(pieces(s).push(v).update(pieces(s).len() as int, v.push(w.last())) =~= pieces(s).push(w));
    }
}

/// Stop words are stripped: a word that holds a stop word, standing after a
/// separator at the end of a text, leaves the text's key as it is.
pub proof fn lemma_stop_word_ignored(s: Seq<char>, c: char, w: Seq<char>)
    requires
        !is_letter(c),
        forall|i: int| 0 <= i < w.len() ==> is_letter(#[trigger] w[i]),
        has_stop_word(w),
    ensures
        key_of(s.push(c) + w) == key_of(s),
{
    lemma_pieces_after_separator(s, c, w);
    assert(pieces(s).push(w).drop_last() =~= pieces(s));
}

/// Keys are case- and diacritic-insensitive: two names that agree once lower-cased and
/// transliterated have the same key.
pub proof fn lemma_key_normalised(a: Seq<char>, b: Seq<char>)
    requires
        transliterated(lowercased(a)) == transliterated(lowercased(b)),
    ensures
        name_key(a) == name_key(b),
{
}

proof fn lemma_longest_candidate_is_candidate(ps: Seq<Seq<char>>)
    ensures
        longest_candidate(ps).len() == 0 || (is_candidate(longest_candidate(ps)) && ps.contains(longest_candidate(ps))),
    decreases ps.len(),
{
    if ps.len() > 0 {
        lemma_longest_candidate_is_candidate(ps.drop_last());
        let best = longest_candidate(ps.drop_last());
        if !(is_candidate(ps.last()) && ps.last().len() >= best.len()) && best.len() > 0 {
            let i = choose|i: int| 0 <= i < ps.drop_last().len() && ps.drop_last()[i] == best;
            assert(ps[i] == best);
        } else if is_candidate(ps.last()) && ps.last().len() >= best.len() {
            assert(ps[ps.len() - 1] == ps.last());
        }
    }
}

/// A key is empty, or it is one of the pieces of the text: at least three letters long
/// and free of stop words.
pub proof fn lemma_key_is_candidate(s: Seq<char>)
    ensures
        key_of(s).len() == 0 || (is_candidate(key_of(s)) && pieces(s).contains(key_of(s))),
{
    lemma_longest_candidate_is_candidate(pieces(s));
}

} // verus!
