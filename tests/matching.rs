use emission_factors::auto::{claimed_emission_names, claimed_generation_names, generate_auto_matches};
use emission_factors::filter::{check_plausibility, filter_match, filter_matches, MatchFacts};
use emission_factors::manual::{
    emission_alias, generation_alias, offer_generation_units, offer_installations_to, parse_settings,
    register_directive, resolve_directive, ManualDirective, ManualErrorKind,
};
use emission_factors::matching::{EmissionInstallation, Fuel, GenerationUnit, IgnoreReason, Match};
use emission_factors::registry::{ClaimError, ClaimPool, FoundTwice};

fn unit(country: &str, name: &str, eic: &str, fuel: Fuel) -> GenerationUnit {
    GenerationUnit { country: country.to_string(), name: name.to_string(), eic: eic.to_string(), fuel }
}

fn inst(country: &str, name: &str, id: &str) -> EmissionInstallation {
    EmissionInstallation { country: country.to_string(), name: name.to_string(), id: id.to_string() }
}

fn directive(generation: &str, emission: &str, settings: &str, comment: &str) -> ManualDirective {
    ManualDirective {
        generation: generation.to_string(),
        emission: emission.to_string(),
        settings: settings.to_string(),
        comment: comment.to_string(),
    }
}

/// Registers the directives and offers the records, as the manual stage does.
fn pools(
    ds: &[ManualDirective],
    units: &Vec<GenerationUnit>,
    insts: &Vec<EmissionInstallation>,
) -> (ClaimPool, ClaimPool) {
    let mut g = ClaimPool::new();
    let mut e = ClaimPool::new();
    for d in ds {
        register_directive(d, &mut g, &mut e);
    }
    offer_generation_units(&mut g, units).unwrap();
    offer_installations_to(&mut e, insts).unwrap();
    (g, e)
}

#[test]
fn claim_pool_claims_once() {
    let mut p = ClaimPool::new();
    p.register("a".to_string());
    assert_eq!(p.offer(&"a".to_string(), &"eic:1".to_string(), 7), Ok(true));
    assert_eq!(p.offer(&"a".to_string(), &"eic:1".to_string(), 8), Err(FoundTwice));
    assert_eq!(p.offer(&"b".to_string(), &"eic:2".to_string(), 9), Ok(false));
    assert_eq!(p.claim(&"a".to_string()), Ok(7));
    assert_eq!(p.claim(&"a".to_string()), Err(ClaimError::UsedMoreThanOnce));
    assert_eq!(p.claim(&"zzz".to_string()), Err(ClaimError::UsedMoreThanOnce));
}

#[test]
fn claim_pool_reports_missing_record() {
    let mut p = ClaimPool::new();
    p.register("ghost".to_string());
    assert_eq!(p.claim(&"ghost".to_string()), Err(ClaimError::NotFound));
}

#[test]
fn claim_pool_uses_alias() {
    let mut p = ClaimPool::new();
    p.register("eic:XYZ".to_string());
    assert_eq!(p.offer(&"Unit 1".to_string(), &generation_alias(&"XYZ".to_string()), 3), Ok(true));
    assert_eq!(p.claim(&"eic:XYZ".to_string()), Ok(3));
}

#[test]
fn aliases_have_prefixes() {
    assert_eq!(generation_alias(&"10W".to_string()), "eic:10W");
    assert_eq!(emission_alias(&"DE1:7".to_string()), "id:DE1:7");
}

#[test]
fn manual_directive_without_emissions_is_ignored_with_comment() {
    let units = vec![unit("DE", "Block A", "E1", Fuel::Gas)];
    let insts: Vec<EmissionInstallation> = vec![];
    let ds = vec![directive("Block A", "", "", "no ETS record")];
    let (mut g, mut e) = pools(&ds, &units, &insts);
    let m = resolve_directive(&ds[0], &units, &mut g, &mut e).unwrap().unwrap();
    assert!(m.is_ignored());
    assert_eq!(m.ignore_reason(), Some("filtered in manual_matches.csv: no ETS record".to_string()));
    assert_eq!(m.name(), "Manual Match");
    assert_eq!(m.country(), "DE");
    assert_eq!(m.generation(), &vec![0]);
    assert!(m.emission().is_empty());
}

#[test]
fn manual_comment_row_gives_nothing() {
    let units: Vec<GenerationUnit> = vec![];
    let insts: Vec<EmissionInstallation> = vec![];
    let ds = vec![directive("", "", "", "DE")];
    let (mut g, mut e) = pools(&ds, &units, &insts);
    assert!(resolve_directive(&ds[0], &units, &mut g, &mut e).unwrap().is_none());
}

#[test]
fn manual_directive_pairs_records_and_sets_range() {
    let units = vec![unit("PL", "Turow 1", "E1", Fuel::Lignite), unit("PL", "Turow 2", "E2", Fuel::Lignite)];
    let insts = vec![inst("PL", "Elektrownia Turow", "P:1")];
    let ds = vec![directive("Turow 1|eic:E2", "id:P:1", "plausible-emission-factor-range:800-1400", "")];
    let (mut g, mut e) = pools(&ds, &units, &insts);
    let m = resolve_directive(&ds[0], &units, &mut g, &mut e).unwrap().unwrap();
    assert!(!m.is_ignored());
    assert_eq!(m.generation(), &vec![0, 1]);
    assert_eq!(m.emission(), &vec![0]);
    assert_eq!(m.emission_factor_range(), &Some(("800".to_string(), "1400".to_string())));
}

#[test]
fn manual_same_generation_twice_fails() {
    let units = vec![unit("DE", "Block A", "E1", Fuel::Gas)];
    let insts = vec![inst("DE", "Plant A", "P:1"), inst("DE", "Plant B", "P:2")];
    let ds = vec![directive("Block A", "Plant A", "", ""), directive("Block A", "Plant B", "", "")];
    let (mut g, mut e) = pools(&ds, &units, &insts);
    assert!(resolve_directive(&ds[0], &units, &mut g, &mut e).is_ok());
    let err = resolve_directive(&ds[1], &units, &mut g, &mut e).err().unwrap();
    assert_eq!(err.kind, ManualErrorKind::GenerationUsedMoreThanOnce);
    assert_eq!(err.subject, "Block A");
}

#[test]
fn manual_unknown_generation_fails() {
    let units = vec![unit("DE", "Block A", "E1", Fuel::Gas)];
    let insts: Vec<EmissionInstallation> = vec![];
    let ds = vec![directive("Block Z", "", "", "")];
    let (mut g, mut e) = pools(&ds, &units, &insts);
    let err = resolve_directive(&ds[0], &units, &mut g, &mut e).err().unwrap();
    assert_eq!(err.kind, ManualErrorKind::GenerationNotFound);
    assert_eq!(err.subject, "Block Z");
}

#[test]
fn manual_unknown_emission_fails() {
    let units = vec![unit("DE", "Block A", "E1", Fuel::Gas)];
    let insts: Vec<EmissionInstallation> = vec![];
    let ds = vec![directive("Block A", "Plant Q", "", "")];
    let (mut g, mut e) = pools(&ds, &units, &insts);
    let err = resolve_directive(&ds[0], &units, &mut g, &mut e).err().unwrap();
    assert_eq!(err.kind, ManualErrorKind::EmissionNotFound);
}

#[test]
fn settings_errors() {
    assert_eq!(parse_settings("").unwrap(), None);
    assert_eq!(
        parse_settings("plausible-emission-factor-range:300-500|").unwrap(),
        Some(("300".to_string(), "500".to_string()))
    );
    let e = parse_settings("nonsense").err().unwrap();
    assert_eq!(e.kind, ManualErrorKind::BadSetting);
    assert_eq!(e.subject, "nonsense");
    let e = parse_settings("colour:red").err().unwrap();
    assert_eq!(e.kind, ManualErrorKind::InvalidSetting);
    assert_eq!(e.subject, "colour:red");
    let e = parse_settings("plausible-emission-factor-range:300").err().unwrap();
    assert_eq!(e.kind, ManualErrorKind::BadEmissionFactorRange);
    assert_eq!(e.subject, "300");
}

#[test]
fn auto_matches_group_by_country_and_key() {
    let units = vec![
        unit("DE", "Kraftwerk Mehrum 3", "E1", Fuel::Coal),
        unit("DE", "Mehrum Block 4", "E2", Fuel::Coal),
        unit("AT", "Mehrum", "E3", Fuel::Gas),
        unit("IE", "Kilroot Power", "E4", Fuel::Coal),
        unit("DE", "GT", "E5", Fuel::Gas),
    ];
    let insts = vec![
        inst("DE", "Kraftwerk Mehrum", "P:1"),
        inst("XI", "Kilroot", "P:2"),
        inst("FR", "Nowhere Plant", "P:3"),
    ];
    let found = generate_auto_matches(&units, &insts, &vec![], &vec![]);
    assert_eq!(found.len(), 4);
    let by = |c: &str, k: &str| found.iter().find(|a| a.found.country() == c && a.found.name() == k).unwrap();
    let de = by("DE", "mehrum");
    assert_eq!(de.found.generation(), &vec![0, 1]);
    assert_eq!(de.found.emission(), &vec![0]);
    assert!(!de.found.is_ignored());
    let at = by("AT", "mehrum");
    assert!(at.found.emission().is_empty());
    assert_eq!(at.found.ignore_reason(), Some("found 0 possibly matching ETS records".to_string()));
    let ie = by("IE", "kilroot");
    assert_eq!(ie.found.emission(), &vec![1]);
    assert!(!ie.found.is_ignored());
    let empty = by("DE", "");
    assert_eq!(
        empty.found.ignore_reason(),
        Some("seems to be a meaningless generation unit name".to_string())
    );
}

#[test]
fn auto_matches_skip_claimed_and_flag_similar() {
    let units = vec![unit("DE", "Boxberg N", "E1", Fuel::Lignite), unit("DE", "Boxberg Q", "E2", Fuel::Lignite)];
    let insts = vec![inst("DE", "Boxberg", "P:1"), inst("DE", "Boxberg Kraftwerk", "P:2")];
    let found = generate_auto_matches(&units, &insts, &vec!["Boxberg N".to_string()], &vec!["Boxberg".to_string()]);
    assert_eq!(found.len(), 1);
    assert_eq!(found[0].found.generation(), &vec![1]);
    assert_eq!(found[0].found.emission(), &vec![1]);
    assert!(found[0].similar_to_manual);
}

#[test]
fn auto_matches_ambiguous() {
    let units = vec![unit("ES", "Central Termica As Pontes", "E1", Fuel::Coal)];
    let insts = vec![inst("ES", "As Pontes I", "P:1"), inst("ES", "Pontes", "P:2")];
    let found = generate_auto_matches(&units, &insts, &vec![], &vec![]);
    assert_eq!(found.len(), 1);
    assert_eq!(found[0].found.name(), "pontes");
    assert_eq!(found[0].found.ignore_reason(), Some("found 2 possibly matching ETS records".to_string()));
}

#[test]
fn claimed_names_come_from_records() {
    let units = vec![unit("DE", "Block A", "E1", Fuel::Gas), unit("DE", "Block B", "E2", Fuel::Gas)];
    let insts = vec![inst("DE", "Plant A", "P:1")];
    let ds = vec![directive("eic:E2", "Plant A", "", "")];
    let (mut g, mut e) = pools(&ds, &units, &insts);
    let m = resolve_directive(&ds[0], &units, &mut g, &mut e).unwrap().unwrap();
    let manual = vec![m];
    assert_eq!(claimed_generation_names(&manual, &units), vec!["Block B".to_string()]);
    assert_eq!(claimed_emission_names(&manual, &insts), vec!["Plant A".to_string()]);
}

fn facts(fuel: Option<Fuel>, generation_is_zero: bool, emissions_are_zero: bool) -> MatchFacts {
    MatchFacts { dominant_fuel: fuel, generation_is_zero, emissions_are_zero }
}

fn active_match(units: &Vec<GenerationUnit>) -> Match {
    Match::new("x".to_string(), units, vec![0], vec![0])
}

#[test]
fn filter_drops_other_fuel() {
    let units = vec![unit("DE", "Waste", "E1", Fuel::Other)];
    let mut m = active_match(&units);
    assert!(!filter_match(&mut m, &facts(Some(Fuel::Other), false, false)));
    let (kept, _) = filter_matches(vec![active_match(&units)], &vec![facts(Some(Fuel::Other), true, true)]);
    assert!(kept.is_empty());
}

#[test]
fn filter_applies_rules_in_order() {
    let units = vec![unit("DE", "A", "E1", Fuel::Gas)];
    let mut m = active_match(&units);
    assert!(filter_match(&mut m, &facts(None, true, true)));
    assert_eq!(m.ignore_reason(), Some("0 generation".to_string()));
    let mut m = active_match(&units);
    assert!(filter_match(&mut m, &facts(None, false, true)));
    assert_eq!(m.ignore_reason(), Some("uses mixed fuels".to_string()));
    let mut m = active_match(&units);
    assert!(filter_match(&mut m, &facts(Some(Fuel::Gas), false, true)));
    assert_eq!(m.ignore_reason(), Some("0 emissions".to_string()));
    let mut m = active_match(&units);
    assert!(filter_match(&mut m, &facts(Some(Fuel::Gas), false, false)));
    assert!(!m.is_ignored());
}

#[test]
fn filter_keeps_first_reason() {
    let units = vec![unit("DE", "A", "E1", Fuel::Gas)];
    let mut m = active_match(&units);
    m.ignore(IgnoreReason::Ambiguous(3));
    assert!(filter_match(&mut m, &facts(Some(Fuel::Gas), true, true)));
    assert_eq!(m.ignore_reason(), Some("found 3 possibly matching ETS records".to_string()));
}

#[test]
fn filter_matches_keeps_order() {
    let units = vec![unit("DE", "A", "E1", Fuel::Gas)];
    let ms = vec![
        Match::new("one".to_string(), &units, vec![0], vec![]),
        Match::new("two".to_string(), &units, vec![0], vec![]),
        Match::new("three".to_string(), &units, vec![0], vec![]),
    ];
    let fs = vec![facts(Some(Fuel::Gas), false, false), facts(Some(Fuel::Other), false, false), facts(None, false, false)];
    let (kept, kept_facts) = filter_matches(ms, &fs);
    assert_eq!(kept.len(), 2);
    assert_eq!(kept[0].name(), "one");
    assert_eq!(kept[1].name(), "three");
    assert_eq!(kept[1].ignore_reason(), Some("uses mixed fuels".to_string()));
    assert_eq!(kept_facts[0].dominant_fuel, Some(Fuel::Gas));
}

#[test]
fn plausibility_gate() {
    let units = vec![unit("DE", "A", "E1", Fuel::Gas)];
    let mut m = active_match(&units);
    check_plausibility(&mut m, true);
    assert!(!m.is_ignored());
    check_plausibility(&mut m, false);
    assert_eq!(m.ignore_reason(), Some("emission factor seems implausible".to_string()));
    check_plausibility(&mut m, false);
    assert_eq!(m.ignore_reason(), Some("emission factor seems implausible".to_string()));
}

#[test]
fn ignore_reason_texts() {
    assert_eq!(IgnoreReason::Manual("x".to_string()).text(), "filtered in manual_matches.csv: x");
    assert_eq!(IgnoreReason::Ambiguous(12).text(), "found 12 possibly matching ETS records");
    assert_eq!(IgnoreReason::ZeroGeneration.text(), "0 generation");
}

#[test]
fn fuel_names_round_trip() {
    for f in [Fuel::Gas, Fuel::Coal, Fuel::Lignite, Fuel::Oil, Fuel::Other] {
        assert_eq!(Fuel::from_name(f.name()), f);
    }
    assert_eq!(Fuel::from_name("biomass"), Fuel::Other);
}

#[test]
fn end_to_end_single_plant() {
    let units = vec![unit("DE", "A", "E1", Fuel::Gas)];
    let insts = vec![inst("DE", "A", "P:1")];
    let ds = vec![directive("A", "A", "", "")];
    let (mut g, mut e) = pools(&ds, &units, &insts);
    let m = resolve_directive(&ds[0], &units, &mut g, &mut e).unwrap().unwrap();
    let manual = vec![m];
    let auto = generate_auto_matches(
        &units,
        &insts,
        &claimed_generation_names(&manual, &units),
        &claimed_emission_names(&manual, &insts),
    );
    assert!(auto.is_empty());
    let (kept, kept_facts) = filter_matches(manual, &vec![facts(Some(Fuel::Gas), false, false)]);
    assert_eq!(kept.len(), 1);
    assert!(!kept[0].is_ignored());
    assert_eq!(kept_facts[0].dominant_fuel.unwrap().name(), "gas");
    assert_eq!(kept[0].generation(), &vec![0]);
    assert_eq!(kept[0].emission(), &vec![0]);
}

#[test]
fn offering_two_units_for_one_name_fails() {
    let units = vec![unit("DE", "Block A", "E1", Fuel::Gas), unit("DE", "Block A", "E2", Fuel::Gas)];
    let ds = vec![directive("Block A", "", "", "")];
    let mut g = ClaimPool::new();
    let mut e = ClaimPool::new();
    register_directive(&ds[0], &mut g, &mut e);
    assert_eq!(offer_generation_units(&mut g, &units), Err(1));
    let insts = vec![inst("DE", "X", "P:1"), inst("DE", "Y", "P:1")];
    let mut e2 = ClaimPool::new();
    e2.register("id:P:1".to_string());
    assert_eq!(offer_installations_to(&mut e2, &insts), Err(1));
}
