use emission_factors::order::{compare_text, match_order};
use emission_factors::factors::{
    check_degree_days_current, current_degree_day_index, degree_day_column, degree_day_country, is_stale,
    year_parameters, StaleDegreeDays, YearError, YearParameters,
};
use emission_factors::file_paths::FilePaths;
use emission_factors::filter::MatchFacts;
use emission_factors::matching::{Fuel, GenerationUnit, Match};
use emission_factors::preprocess::{
    installation_id, is_power_activity, is_reporting_country, map_code_country, production_type_fuel,
    readings_per_hour,
};
use emission_factors::stats::{base_rows, coal_lignite_rows, rollup_rows};

#[test]
fn year_parameters_by_year() {
    assert_eq!(year_parameters(2019), Err(YearError::Before2020));
    assert_eq!(
        year_parameters(2020),
        Ok(YearParameters { beta_per_ten_thousand: 8782, heat_benchmark_tenths: 623 })
    );
    assert_eq!(
        year_parameters(2021),
        Ok(YearParameters { beta_per_ten_thousand: 8562, heat_benchmark_tenths: 473 })
    );
    assert_eq!(
        year_parameters(2025),
        Ok(YearParameters { beta_per_ten_thousand: 7682, heat_benchmark_tenths: 473 })
    );
    assert_eq!(year_parameters(2026), Err(YearError::NoHeatBenchmark));
}

#[test]
fn degree_day_rows() {
    assert_eq!(degree_day_country("A,NR,HDD,DE"), Some("DE".to_string()));
    assert_eq!(degree_day_country("A,NR,HDD,EL"), Some("GR".to_string()));
    assert_eq!(degree_day_country("A,NR,CDD,DE"), None);
    assert_eq!(degree_day_country("A,NR"), None);
    assert_eq!(degree_day_column(1979), 1);
    assert_eq!(degree_day_column(2014), 36);
}

#[test]
fn degree_day_fallback_beyond_series() {
    assert_eq!(current_degree_day_index(2021, 8), Some(7));
    assert_eq!(current_degree_day_index(2022, 8), None);
    assert_eq!(current_degree_day_index(2030, 5), None);
    let baseline: f64 = [3000.0, 3100.0, 2900.0, 3050.0, 2950.0].iter().sum::<f64>() / 5.0;
    let series = [3000.0, 3100.0, 2900.0, 3050.0, 2950.0];
    let current = match current_degree_day_index(2030, series.len()) {
        Some(i) => series[i],
        None => baseline,
    };
    assert_eq!(current / baseline, 1.0);
}

#[test]
fn staleness_gate() {
    assert!(is_stale(2021, 2022));
    assert!(!is_stale(2022, 2022));
    assert_eq!(check_degree_days_current(2021, 2022, false), Err(StaleDegreeDays));
    assert_eq!(check_degree_days_current(2021, 2022, true), Ok(()));
    assert_eq!(check_degree_days_current(2023, 2022, false), Ok(()));
}

#[test]
fn file_paths_layout() {
    let p = FilePaths::new("data".to_string(), 2021);
    assert_eq!(p.emissions_file(), "data/2021/preprocessed/powerplant_emissions.csv");
    assert_eq!(p.generation_file(), "data/2021/preprocessed/powerplant_generation.csv");
    assert_eq!(p.manual_matches_file(), "data/2021/manual_matches.csv");
    assert_eq!(p.out_powerplants_file(), "data/2021/output/powerplants.csv");
    assert_eq!(p.ignored_powerplants_file(), "data/2021/output/ignored_powerplants.csv");
    assert_eq!(p.out_countries_file(), "data/2021/output/countries.csv");
    assert_eq!(p.degree_days_file(), "data/degree_days/nrg_chdd_a.tsv");
    assert_eq!(p.verified_emissions_file(), "data/verified_ets_emissions/verified_emissions.xlsx");
    let (new, old) = p.entso_e_zip_file(3);
    assert_eq!(
        new,
        "data/2021/entsoe_unit_generation/2021_03_ActualGenerationOutputPerGenerationUnit_16.1.A_r2.1.zip"
    );
    assert_eq!(old, "data/2021/entsoe_unit_generation/2021_03_ActualGenerationOutputPerGenerationUnit_16.1.A.zip");
}

#[test]
fn production_types_and_resolutions() {
    assert_eq!(production_type_fuel("Fossil Gas"), Some(Fuel::Gas));
    assert_eq!(production_type_fuel("Fossil Hard coal"), Some(Fuel::Coal));
    assert_eq!(production_type_fuel("Fossil Brown coal/Lignite"), Some(Fuel::Lignite));
    assert_eq!(production_type_fuel("Fossil Oil"), Some(Fuel::Oil));
    assert_eq!(production_type_fuel("Nuclear"), None);
    assert_eq!(production_type_fuel("Wind Offshore"), None);
    assert_eq!(production_type_fuel("Biomass"), Some(Fuel::Other));
    assert_eq!(readings_per_hour("PT60M"), Some(1));
    assert_eq!(readings_per_hour("PT30M"), Some(2));
    assert_eq!(readings_per_hour("PT15M"), Some(4));
    assert_eq!(readings_per_hour("PT5M"), None);
    assert_eq!(map_code_country("DE_TenneT_GER"), "DE");
    assert_eq!(map_code_country("PL"), "PL");
    assert!(is_power_activity(20) && is_power_activity(1) && !is_power_activity(21));
    assert!(!is_reporting_country(&"GB".to_string()) && is_reporting_country(&"DE".to_string()));
    assert_eq!(installation_id(&"DE-123".to_string(), &"45".to_string()), "DE-123:45");
}

fn unit(country: &str, fuel: Fuel) -> GenerationUnit {
    GenerationUnit { country: country.to_string(), name: "u".to_string(), eic: String::new(), fuel }
}

#[test]
fn fuel_stat_rows() {
    let units = vec![
        unit("DE", Fuel::Coal),
        unit("DE", Fuel::Lignite),
        unit("PL", Fuel::Coal),
        unit("DE", Fuel::Coal),
        unit("DE", Fuel::Other),
        unit("PL", Fuel::Gas),
    ];
    let ms = vec![
        Match::new("a".to_string(), &units, vec![0], vec![]),
        Match::new("b".to_string(), &units, vec![2], vec![]),
    ];
    let fs = vec![
        MatchFacts { dominant_fuel: Some(Fuel::Coal), generation_is_zero: false, emissions_are_zero: false },
        MatchFacts { dominant_fuel: Some(Fuel::Coal), generation_is_zero: false, emissions_are_zero: false },
    ];
    let base = base_rows(&units, &ms, &fs).unwrap();
    assert_eq!(base.len(), 4);
    let row = |c: &str, f: Fuel| base.iter().position(|r| r.country == c && r.fuel == f).unwrap();
    let de_coal = row("DE", Fuel::Coal);
    assert_eq!(base[de_coal].units, vec![0, 3]);
    assert_eq!(base[de_coal].matches, vec![0]);
    let pl_coal = row("PL", Fuel::Coal);
    assert_eq!(base[pl_coal].matches, vec![1]);
    let de_lignite = row("DE", Fuel::Lignite);
    assert!(base[de_lignite].matches.is_empty());
    let rollup = rollup_rows(&base);
    assert_eq!(rollup.len(), 3);
    let coal_rollup = rollup.iter().position(|r| r.fuel == "coal").unwrap();
    assert_eq!(rollup[coal_rollup].parts, vec![de_coal, pl_coal]);
    let cl = coal_lignite_rows(&base, &rollup);
    assert_eq!(cl.len(), 3);
    let de = cl.iter().find(|r| r.country == "DE").unwrap();
    assert_eq!(de.fuel, "coal+lignite");
    assert_eq!(de.parts, vec![de_coal, de_lignite]);
    let pl = cl.iter().find(|r| r.country == "PL").unwrap();
    assert_eq!(pl.parts, vec![pl_coal]);
    let all = cl.iter().find(|r| r.country.is_empty()).unwrap();
    let lignite_rollup = rollup.iter().position(|r| r.fuel == "lignite").unwrap();
    assert_eq!(all.parts, vec![base.len() + coal_rollup, base.len() + lignite_rollup]);
}

#[test]
fn text_comparison_by_code_point() {
    assert_eq!(compare_text("abc", "abd"), -1);
    assert_eq!(compare_text("abc", "abc"), 0);
    assert_eq!(compare_text("abcd", "abc"), 1);
    assert_eq!(compare_text("", "a"), -1);
    assert_eq!(compare_text("Z", "a"), -1);
    assert_eq!(compare_text("é", "z"), 1);
}

#[test]
fn matches_ordered_by_country_name_and_first_unit() {
    let units = vec![
        GenerationUnit { country: "DE".to_string(), name: "b".to_string(), eic: String::new(), fuel: Fuel::Gas },
        GenerationUnit { country: "DE".to_string(), name: "a".to_string(), eic: String::new(), fuel: Fuel::Gas },
        GenerationUnit { country: "AT".to_string(), name: "z".to_string(), eic: String::new(), fuel: Fuel::Gas },
    ];
    let ms = vec![
        Match::new("Manual Match".to_string(), &units, vec![0], vec![]),
        Match::new("Manual Match".to_string(), &units, vec![1], vec![]),
        Match::new("zeta".to_string(), &units, vec![2], vec![]),
        Match::new("alpha".to_string(), &units, vec![0], vec![]),
    ];
    assert_eq!(match_order(&ms, &units), vec![2, 1, 0, 3]);
    assert!(match_order(&vec![], &units).is_empty());
}

#[test]
fn fuel_stat_match_without_unit_row_is_an_error() {
    let units = vec![unit("AT", Fuel::Coal), unit("DE", Fuel::Gas)];
    let ms = vec![
        Match::new("a".to_string(), &units, vec![1], vec![]),
        Match::new("b".to_string(), &units, vec![0], vec![]),
        Match::new("c".to_string(), &units, vec![0], vec![]),
    ];
    let fs = vec![
        MatchFacts { dominant_fuel: Some(Fuel::Gas), generation_is_zero: false, emissions_are_zero: false },
        MatchFacts { dominant_fuel: Some(Fuel::Gas), generation_is_zero: false, emissions_are_zero: false },
        MatchFacts { dominant_fuel: Some(Fuel::Oil), generation_is_zero: false, emissions_are_zero: false },
    ];
    assert_eq!(base_rows(&units, &ms, &fs).err(), Some(1));
}
