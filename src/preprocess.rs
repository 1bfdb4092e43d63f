//! The decisions of preprocessing the raw data: which rows of the ETS workbook and of
//! the hourly generation archives are kept, and how their codes are read.

use vstd::prelude::*;
use vstd::string::*;
use crate::matching::Fuel;
use crate::text::{split, split_by, texts};

verus! {

/// The fuel of an ENTSO-E production type: `None` for the types that are not fossil
/// and are left out (nuclear, hydro, solar, wind); `Other` for any type not known.
pub open spec fn production_type_fuel_of(t: Seq<char>) -> Option<Fuel> {
    if t == "Fossil Gas"@ {
        Some(Fuel::Gas)
    } else if t == "Fossil Hard coal"@ {
        Some(Fuel::Coal)
    } else if t == "Fossil Brown coal/Lignite"@ {
        Some(Fuel::Lignite)
    } else if t == "Fossil Oil"@ {
        Some(Fuel::Oil)
    } else if t == "Nuclear"@ || t == "Hydro Pumped Storage"@ || t == "Hydro Water Reservoir"@
        || t == "Hydro Run-of-river and poundage"@ || t == "Solar"@ || t == "Wind Onshore"@
        || t == "Wind Offshore"@ {
        None
    } else {
        Some(Fuel::Other)
    }
}

/// The fuel of an ENTSO-E production type, `None` when units of that type are left out.
pub fn production_type_fuel(t: &str) -> (r: Option<Fuel>)
    ensures
        r == production_type_fuel_of(t@),
{
    let s = String::from_str(t);
    if s == String::from_str("Fossil Gas") {
        Some(Fuel::Gas)
    } else if s == String::from_str("Fossil Hard coal") {
        Some(Fuel::Coal)
    } else if s == String::from_str("Fossil Brown coal/Lignite") {
        Some(Fuel::Lignite)
    } else if s == String::from_str("Fossil Oil") {
        Some(Fuel::Oil)
    } else if s == String::from_str("Nuclear") || s == String::from_str("Hydro Pumped Storage")
        || s == String::from_str("Hydro Water Reservoir")
        || s == String::from_str("Hydro Run-of-river and poundage") || s == String::from_str("Solar")
        || s == String::from_str("Wind Onshore") || s == String::from_str("Wind Offshore") {
        None
    } else {
        Some(Fuel::Other)
    }
}

/// How many readings an hour holds at a resolution: `PT60M` one, `PT30M` two,
/// `PT15M` four; `None` for a resolution not known.
pub open spec fn readings_per_hour_of(code: Seq<char>) -> Option<u32> {
    if code == "PT60M"@ {
        Some(1)
    } else if code == "PT30M"@ {
        Some(2)
    } else if code == "PT15M"@ {
        Some(4)
    } else {
        None
    }
}

/// How many readings an hour holds at the resolution `code`.
pub fn readings_per_hour(code: &str) -> (r: Option<u32>)
    ensures
        r == readings_per_hour_of(code@),
{
    let s = String::from_str(code);
    if s == String::from_str("PT60M") {
        Some(1)
    } else if s == String::from_str("PT30M") {
        Some(2)
    } else if s == String::from_str("PT15M") {
        Some(4)
    } else {
        None
    }
}

/// The country of an ENTSO-E map code: the text before its first `_`.
pub fn map_code_country(map_code: &str) -> (r: String)
    ensures
        r@ == split_by(map_code@, '_')[0],
{
    let mut pieces = split(map_code, '_');
    assert(texts(pieces@)[0] == pieces@[0]@);
    pieces.swap_remove(0)
}

/// The ETS main activity types of power plants: combustion of fuels (20) and the
/// older code for combustion installations (1).
pub fn is_power_activity(activity: i64) -> (r: bool)
    ensures
        r == (activity == 20 || activity == 1),
{
    activity == 20 || activity == 1
}

/// Whether an ETS installation of `country` is kept: the United Kingdom no longer
/// reports to the ETS, so only old data is there.
pub fn is_reporting_country(country: &String) -> (r: bool)
    ensures
        r == (country@ != "GB"@),
{
    *country != String::from_str("GB")
}

/// The identifier of an ETS installation: `<permit>:<installation>`.
pub fn installation_id(permit: &String, installation: &String) -> (r: String)
    ensures
        r@ == permit@ + ":"@ + installation@,
{
    let mut r = permit.clone();
    r.append(":");
    r.append(installation.as_str());
    r
}

} // verus!
