//! Where each input and output file of a processing year lives.

use vstd::prelude::*;
use vstd::string::*;
use crate::text::{decimal, decimal_of, padded_decimal, padded_decimal_of};

verus! {

/// The data directory and the directory of one processing year under it.
pub struct FilePaths {
    data_dir: String,
    year_dir: String,
    year: u32,
}

impl FilePaths {
    pub closed spec fn data_dir_view(&self) -> Seq<char> {
        self.data_dir@
    }

    pub closed spec fn year_dir_view(&self) -> Seq<char> {
        self.year_dir@
    }

    pub closed spec fn year_view(&self) -> u32 {
        self.year
    }

    /// The paths of `year` under `data_dir`; the year's directory is `<data_dir>/<year>`.
    /// Creating the directories is left to the caller.
    pub fn new(data_dir: String, year: u32) -> (r: Self)
        ensures
            r.data_dir_view() == data_dir@,
            r.year_dir_view() == data_dir@ + "/"@ + decimal_of(year as nat),
            r.year_view() == year,
    {
        let mut year_dir = data_dir.clone();
        year_dir.append("/");
        let y = decimal(year as u64);
        year_dir.append(y.as_str());
        FilePaths { data_dir, year_dir, year }
    }

    fn under(dir: &String, rel: &str) -> (r: String)
        ensures
            r@ == dir@ + "/"@ + rel@,
    {
        let mut p = dir.clone();
        p.append("/");
        p.append(rel);
        p
    }
    /// The directory of the processing year.
    pub fn year_dir(&self) -> (r: &String)
        ensures
            r@ == self.year_dir_view(),
    {
        &self.year_dir
    }

    /// The heating-degree-day table.
    pub fn degree_days_file(&self) -> (r: String)
        ensures
            r@ == self.data_dir_view() + "/"@ + "degree_days/nrg_chdd_a.tsv"@,
    {
        Self::under(&self.data_dir, "degree_days/nrg_chdd_a.tsv")
    }

    /// The preprocessed verified emissions of the year.
    pub fn emissions_file(&self) -> (r: String)
        ensures
            r@ == self.year_dir_view() + "/"@ + "preprocessed/powerplant_emissions.csv"@,
    {
        Self::under(&self.year_dir, "preprocessed/powerplant_emissions.csv")
    }

    /// The preprocessed generation per unit of the year.
    pub fn generation_file(&self) -> (r: String)
        ensures
            r@ == self.year_dir_view() + "/"@ + "preprocessed/powerplant_generation.csv"@,
    {
        Self::under(&self.year_dir, "preprocessed/powerplant_generation.csv")
    }

    /// The manual match directives of the year.
    pub fn manual_matches_file(&self) -> (r: String)
        ensures
            r@ == self.year_dir_view() + "/"@ + "manual_matches.csv"@,
    {
        Self::under(&self.year_dir, "manual_matches.csv")
    }

    /// The output of the usable plant-level matches.
    pub fn out_powerplants_file(&self) -> (r: String)
        ensures
            r@ == self.year_dir_view() + "/"@ + "output/powerplants.csv"@,
    {
        Self::under(&self.year_dir, "output/powerplants.csv")
    }

    /// The output of the ignored plant-level matches.
    pub fn ignored_powerplants_file(&self) -> (r: String)
        ensures
            r@ == self.year_dir_view() + "/"@ + "output/ignored_powerplants.csv"@,
    {
        Self::under(&self.year_dir, "output/ignored_powerplants.csv")
    }

    /// The output of the per-country, per-fuel statistics.
    pub fn out_countries_file(&self) -> (r: String)
        ensures
            r@ == self.year_dir_view() + "/"@ + "output/countries.csv"@,
    {
        Self::under(&self.year_dir, "output/countries.csv")
    }

    /// The verified emissions workbook.
    pub fn verified_emissions_file(&self) -> (r: String)
        ensures
            r@ == self.data_dir_view() + "/"@ + "verified_ets_emissions/verified_emissions.xlsx"@,
    {
        Self::under(&self.data_dir, "verified_ets_emissions/verified_emissions.xlsx")
    }

    /// The two names under which the generation archive of `month` may stand, the
    /// newer naming first: `<year>_<MM>_ActualGenerationOutputPerGenerationUnit_16.1.A_r2.1.zip`
    /// and the same without `_r2.1`. Which of them exists is for the caller to find out.
    pub fn entso_e_zip_file(&self, month: u8) -> (r: (String, String))
        ensures
            r.0@ == self.year_dir_view() + "/"@ + "entsoe_unit_generation"@ + "/"@
                + decimal_of(self.year_view() as nat) + "_"@ + padded_decimal_of(month as nat, 2)
                + "_ActualGenerationOutputPerGenerationUnit_16.1.A_r2.1.zip"@,
            r.1@ == self.year_dir_view() + "/"@ + "entsoe_unit_generation"@ + "/"@
                + decimal_of(self.year_view() as nat) + "_"@ + padded_decimal_of(month as nat, 2)
                + "_ActualGenerationOutputPerGenerationUnit_16.1.A.zip"@,
    {
        let dir = Self::under(&self.year_dir, "entsoe_unit_generation");
        let mut stem = Self::under(&dir, "");
        let y = decimal(self.year as u64);
        stem.append(y.as_str());
        stem.append("_");
        let m = padded_decimal(month as u64, 2);
        stem.append(m.as_str());
        let mut new = stem.clone();
        new.append("_ActualGenerationOutputPerGenerationUnit_16.1.A_r2.1.zip");
        let mut old = stem;
        old.append("_ActualGenerationOutputPerGenerationUnit_16.1.A.zip");
        proof {
            reveal_strlit("");
        }
        assert(dir@ + "/"@ + ""@ =~= dir@ + "/"@);
        (new, old)
    }
}

} // verus!
