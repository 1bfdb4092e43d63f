//! The integer side of the emission-factor calculation: the constants of a year,
//! the layout of the degree-day table, and the staleness gate.
//!
//! Rates are given as integers over a fixed denominator so that they can be stated
//! exactly: beta in ten-thousandths, the heat benchmark in tenths of a t CO2/TJ.

use vstd::prelude::*;
use vstd::string::*;
use crate::text::{split, split_by, texts};

verus! {

/// The constants of the calculation for one year.
#[derive(Clone, Copy, PartialEq, Eq, Structural, Debug)]
pub struct YearParameters {
    /// The linear reduction factor, in ten-thousandths: `8782 - 220 * (year - 2020)`.
    pub beta_per_ten_thousand: u32,
    /// The heat benchmark, in tenths of a t CO2 per TJ.
    pub heat_benchmark_tenths: u32,
}

/// A year for which the calculation is not defined.
#[derive(Clone, Copy, PartialEq, Eq, Structural, Debug)]
pub enum YearError {
    /// The factors are valid from 2020 on.
    Before2020,
    /// No heat benchmark is known for the year (2013 to 2025 are).
    NoHeatBenchmark,
}

/// Carbon-leakage exposure factor, in tenths.
pub const GAMMA_TENTHS: u32 = 3;
/// Efficiency of heat production, in hundredths.
pub const EFFICIENCY_HEAT_PERCENT: u32 = 80;
/// Efficiency of electricity production, in hundredths.
pub const EFFICIENCY_EL_PERCENT: u32 = 35;

/// The constants of `year`, or why there are none.
pub open spec fn year_parameters_of(year: u32) -> Result<YearParameters, YearError> {
    if year < 2020 {
        Err(YearError::Before2020)
    } else if year > 2025 {
        Err(YearError::NoHeatBenchmark)
    } else {
        Ok(YearParameters {
            beta_per_ten_thousand: (8782 - 220 * (year - 2020)) as u32,
            heat_benchmark_tenths: if year <= 2020 { 623 } else { 473 },
        })
    }
}

/// The constants of the calculation for `year`.
pub fn year_parameters(year: u32) -> (r: Result<YearParameters, YearError>)
    ensures
        r == year_parameters_of(year),
{
    if year < 2020 {
        Err(YearError::Before2020)
    } else if year > 2025 {
        Err(YearError::NoHeatBenchmark)
    } else {
        let heat_benchmark_tenths: u32 = if year <= 2020 { 623 } else { 473 };
        Ok(YearParameters { beta_per_ten_thousand: 8782 - 220 * (year - 2020), heat_benchmark_tenths })
    }
}

/// The country of a degree-day row: the fourth comma-separated field of its descriptor
/// when the third is `HDD`, with `EL` (Greece in that table) written `GR`.
pub open spec fn degree_day_country_of(descriptor: Seq<char>) -> Option<Seq<char>> {
    let fields = split_by(descriptor, ',');
    if fields.len() >= 4 && fields[2] == "HDD"@ {
        Some(if fields[3] == "EL"@ { "GR"@ } else { fields[3] })
    } else {
        None
    }
}

/// The country of a degree-day row, if the row holds heating degree days.
pub fn degree_day_country(descriptor: &str) -> (r: Option<String>)
    ensures
        match r {
            Some(c) => degree_day_country_of(descriptor@) == Some(c@),
            None => degree_day_country_of(descriptor@).is_none(),
        },
{
    let fields = split(descriptor, ',');
    assert(texts(fields@).len() == fields.len());
    if fields.len() >= 4 {
        assert(texts(fields@)[2] == fields@[2]@);
        assert(texts(fields@)[3] == fields@[3]@);
        if fields[2] == String::from_str("HDD") {
            if fields[3] == String::from_str("EL") {
                return Some(String::from_str("GR"));
            }
            return Some(fields[3].clone());
        }
    }
    None
}

/// The first year of the degree-day table's value columns.
pub const FIRST_TABLE_YEAR: u32 = 1979;
/// The first year of the degree-day series that the calculation uses.
pub const FIRST_SERIES_YEAR: u32 = 2014;
/// How many years, from the first of the series, make the baseline.
pub const BASELINE_YEARS: usize = 5;

/// The column of the degree-day table that holds `year`; the descriptor is column 0.
pub fn degree_day_column(year: u32) -> (r: usize)
    requires
        year >= FIRST_TABLE_YEAR,
    ensures
        r == year - FIRST_TABLE_YEAR + 1,
{
    (year - FIRST_TABLE_YEAR) as usize + 1
}

/// The position of `year` in a degree-day series that starts in 2014 and holds `len`
/// years, or `None` when the series ends before `year`.
pub open spec fn current_index_of(year: u32, len: usize) -> Option<usize> {
    if year - FIRST_SERIES_YEAR < len {
        Some((year - FIRST_SERIES_YEAR) as usize)
    } else {
        None
    }
}

/// Where the current degree days of `year` come from, in a series that starts in
/// 2014 and holds `len` years: its position in the series, or `None` when the series
/// ends before `year`, in which case the baseline stands in and the scaling is 1.
pub fn current_degree_day_index(year: u32, len: usize) -> (r: Option<usize>)
    requires
        year >= FIRST_SERIES_YEAR,
    ensures
        r == current_index_of(year, len),
{
    let k = (year - FIRST_SERIES_YEAR) as usize;
    if k < len {
        Some(k)
    } else {
        None
    }
}

/// The degree-day table ends before the year and nobody agreed to go on.
#[derive(Clone, Copy, PartialEq, Eq, Structural, Debug)]
pub struct StaleDegreeDays;

/// The staleness gate: a table whose last year is before `year` is accepted only when
/// the operator acknowledged it (`acknowledge` is what the caller's confirmation
/// capability answered; unattended callers pass `false`).
pub fn check_degree_days_current(latest_year: u32, year: u32, acknowledge: bool) -> (r: Result<(), StaleDegreeDays>)
    ensures
        r is Err <==> (latest_year < year && !acknowledge),
{
    if latest_year < year && !acknowledge {
        Err(StaleDegreeDays)
    } else {
        Ok(())
    }
}

/// The degree-day table is stale for `year`: its last year comes before it.
pub fn is_stale(latest_year: u32, year: u32) -> (r: bool)
    ensures
        r == (latest_year < year),
{
    latest_year < year
}

/// Degree-day fallback: for a year beyond the series, no current value is looked up
/// and the baseline stands in for it, so that the temperature scaling is exactly 1.
pub proof fn lemma_fallback_beyond_series(year: u32, len: usize)
    requires
        year >= FIRST_SERIES_YEAR + len,
    ensures
        current_index_of(year, len) is None,
{
}

} // verus!
