//! Stations: the country codes, the sales periods and the fixed columns of their reports.

use crate::text::same;
use vstd::prelude::*;

verus! {

/// The countries whose reports make up the EU station, in the order of their blocks.
pub open spec fn eu_codes() -> Seq<Seq<char>> {
    seq![
        "DE"@, "FR"@, "IT"@, "ES"@, "IE"@, "NL"@, "BE"@, "AT"@, "PL"@, "CZ"@, "HU"@, "RO"@,
        "BG"@, "HR"@, "SI"@, "SK"@, "LT"@, "LV"@, "EE"@, "LU"@, "MT"@, "CY"@, "SE"@, "TR"@,
    ]
}

/// The sales periods, in days.
pub open spec fn period_names() -> Seq<Seq<char>> {
    seq!["7"@, "14"@, "30"@, "60"@, "90"@]
}

/// The texts of a list of string slices.
pub open spec fn texts(v: Seq<&'static str>) -> Seq<Seq<char>> {
    v.map_values(|s: &'static str| s@)
}

/// The countries of the EU station.
pub fn eu() -> (r: Vec<&'static str>)
    ensures
        texts(r@) == eu_codes(),
{
    let r: Vec<&'static str> = vec![
        "DE", "FR", "IT", "ES", "IE", "NL", "BE", "AT", "PL", "CZ", "HU", "RO", "BG", "HR", "SI",
        "SK", "LT", "LV", "EE", "LU", "MT", "CY", "SE", "TR",
    ];
    assert(texts(r@) =~= eu_codes());
    r
}

/// The sales periods.
pub fn periods() -> (r: Vec<&'static str>)
    ensures
        texts(r@) == period_names(),
{
    let r: Vec<&'static str> = vec!["7", "14", "30", "60", "90"];
    assert(texts(r@) =~= period_names());
    r
}

/// The station that a country code belongs to.
pub open spec fn station_of(code: Seq<char>) -> Option<Seq<char>> {
    if eu_codes().contains(code) || code == "EU"@ {
        Some("EU"@)
    } else if code == "US"@ || code == "CA"@ || code == "UK"@ || code == "JP"@ {
        Some(code)
    } else {
        None
    }
}

/// The station that a country code belongs to, if any.
pub fn station(code: &str) -> (r: Option<&str>)
    ensures
        match r {
            Some(s) => station_of(code@) == Some(s@),
            None => station_of(code@) is None,
        },
{
    let list: Vec<&'static str> = eu();
    let mut i: usize = 0;
    while i < list.len()
        invariant
            texts(list@) == eu_codes(),
            i <= list.len(),
            forall|j: int| 0 <= j < i ==> eu_codes()[j] != code@,
        decreases list.len() - i,
    {
        assert(texts(list@)[i as int] == list@[i as int]@);
        if same(list[i], code) {
            assert(eu_codes()[i as int] == code@);
            return Some("EU");
        }
        i = i + 1;
    }
    assert(!eu_codes().contains(code@)) by {
        assert(texts(list@).len() == list@.len());
    }
    if same(code, "EU") {
        Some("EU")
    } else if same(code, "US") || same(code, "CA") || same(code, "UK") || same(code, "JP") {
        Some(code)
    } else {
        None
    }
}

/// The zero-based columns of a sales report that hold counts.
pub open spec fn count_column_list(station: Seq<char>) -> Seq<usize> {
    if station == "EU"@ || station == "UK"@ {
        seq![3, 5, 8, 9, 13, 14]
    } else {
        seq![3, 4, 7, 8, 13, 14, 19, 20]
    }
}

/// The zero-based columns of a sales report that hold counts. They go by position alone, not
/// by the headings.
pub fn count_columns(station: &str) -> (r: Vec<usize>)
    ensures
        r@ == count_column_list(station@),
{
    if same(station, "EU") || same(station, "UK") {
        vec![3, 5, 8, 9, 13, 14]
    } else {
        vec![3, 4, 7, 8, 13, 14, 19, 20]
    }
}

/// The number of columns that a sales report of the station has.
pub open spec fn sales_width(station: Seq<char>) -> nat {
    if station == "EU"@ || station == "UK"@ {
        15
    } else {
        21
    }
}

/// Every count column lies within the width of the station's reports.
pub proof fn count_columns_lie_in_the_report(station: Seq<char>, i: int)
    requires
        0 <= i < count_column_list(station).len(),
    ensures
        count_column_list(station)[i] < sales_width(station),
{
}

/// Which codes belong to the EU station, to a station of their own and to none.
pub proof fn codes_belong_to_stations(code: Seq<char>)
    ensures
        station_of(code) == Some("EU"@) <==> code == "EU"@ || code == "DE"@
            || code == "FR"@
            || code == "IT"@
            || code == "ES"@
            || code == "IE"@
            || code == "NL"@
            || code == "BE"@
            || code == "AT"@
            || code == "PL"@
            || code == "CZ"@
            || code == "HU"@
            || code == "RO"@
            || code == "BG"@
            || code == "HR"@
            || code == "SI"@
            || code == "SK"@
            || code == "LT"@
            || code == "LV"@
            || code == "EE"@
            || code == "LU"@
            || code == "MT"@
            || code == "CY"@
            || code == "SE"@
            || code == "TR"@,
        station_of(code) == Some("US"@) <==> code == "US"@,
        station_of(code) == Some("CA"@) <==> code == "CA"@,
        station_of(code) == Some("UK"@) <==> code == "UK"@,
        station_of(code) == Some("JP"@) <==> code == "JP"@,
        station_of(code) matches Some(s) ==> s == "EU"@ || s == code,
{
    reveal_strlit("DE");
    reveal_strlit("FR");
    reveal_strlit("IT");
    reveal_strlit("ES");
    reveal_strlit("IE");
    reveal_strlit("NL");
    reveal_strlit("BE");
    reveal_strlit("AT");
    reveal_strlit("PL");
    reveal_strlit("CZ");
    reveal_strlit("HU");
    reveal_strlit("RO");
    reveal_strlit("BG");
    reveal_strlit("HR");
    reveal_strlit("SI");
    reveal_strlit("SK");
    reveal_strlit("LT");
    reveal_strlit("LV");
    reveal_strlit("EE");
    reveal_strlit("LU");
    reveal_strlit("MT");
    reveal_strlit("CY");
    reveal_strlit("SE");
    reveal_strlit("TR");
    reveal_strlit("EU");
    reveal_strlit("US");
    reveal_strlit("CA");
    reveal_strlit("UK");
    reveal_strlit("JP");
    let list = eu_codes();
    assert(list.len() == 24);
    assert(list[0] == "DE"@);
    assert(list[1] == "FR"@);
    assert(list[2] == "IT"@);
    assert(list[3] == "ES"@);
    assert(list[4] == "IE"@);
    assert(list[5] == "NL"@);
    assert(list[6] == "BE"@);
    assert(list[7] == "AT"@);
    assert(list[8] == "PL"@);
    assert(list[9] == "CZ"@);
    assert(list[10] == "HU"@);
    assert(list[11] == "RO"@);
    assert(list[12] == "BG"@);
    assert(list[13] == "HR"@);
    assert(list[14] == "SI"@);
    assert(list[15] == "SK"@);
    assert(list[16] == "LT"@);
    assert(list[17] == "LV"@);
    assert(list[18] == "EE"@);
    assert(list[19] == "LU"@);
    assert(list[20] == "MT"@);
    assert(list[21] == "CY"@);
    assert(list[22] == "SE"@);
    assert(list[23] == "TR"@);
    assert("US"@[0] == 'U' && "UK"@[0] == 'U' && "CA"@[0] == 'C' && "JP"@[0] == 'J');
    assert forall|i: int| 0 <= i < list.len() implies (#[trigger] list[i])[0] != 'U' by {
    }
    if list.contains(code) {
        let i = choose|i: int| 0 <= i < list.len() && list[i] == code;
        assert(list[i] == code);
    }
    assert("EU"@[1] == 'U' && "US"@[1] == 'S' && "CA"@[1] == 'A' && "UK"@[1] == 'K' && "JP"@[1] == 'P');
    assert("EU"@ != "US"@ && "EU"@ != "CA"@ && "EU"@ != "UK"@ && "EU"@ != "JP"@);
    assert("US"@ != "CA"@ && "US"@ != "UK"@ && "US"@ != "JP"@);
    assert("CA"@ != "UK"@ && "CA"@ != "JP"@ && "UK"@ != "JP"@);
}

/// The reports of the EU and of the United Kingdom have fifteen columns, of which the fourth, the
/// sixth, the ninth, the tenth, the fourteenth and the last hold counts; all others have twenty-one,
/// of which the fourth, the fifth, the eighth, the ninth, the fourteenth, the fifteenth and the last
/// two do.
pub proof fn counts_stand_in_fixed_columns(station: Seq<char>, col: usize)
    ensures
        station == "EU"@ || station == "UK"@ ==> sales_width(station) == 15 && (count_column_list(
            station,
        ).contains(col) <==> col == 3 || col == 5 || col == 8 || col == 9 || col == 13 || col == 14),
        station == "US"@ || station == "CA"@ || station == "JP"@ ==> sales_width(station) == 21 && (
        count_column_list(station).contains(col) <==> col == 3 || col == 4 || col == 7 || col == 8
            || col == 13 || col == 14 || col == 19 || col == 20),
{
    reveal_strlit("EU");
    reveal_strlit("UK");
    reveal_strlit("US");
    reveal_strlit("CA");
    reveal_strlit("JP");
    assert("US"@[0] == 'U' && "US"@[1] == 'S' && "CA"@[0] == 'C' && "JP"@[0] == 'J');
    assert("EU"@[0] == 'E' && "UK"@[0] == 'U' && "UK"@[1] == 'K');
    let list = count_column_list(station);
    if station == "EU"@ || station == "UK"@ {
        assert(list[0] == 3 && list[1] == 5 && list[2] == 8 && list[3] == 9 && list[4] == 13
            && list[5] == 14);
    } else {
        assert(list[0] == 3 && list[1] == 4 && list[2] == 7 && list[3] == 8 && list[4] == 13
            && list[5] == 14 && list[6] == 19 && list[7] == 20);
    }
}

/// The order of the countries in the EU station, and that of the periods.
pub proof fn countries_and_periods_have_their_order()
    ensures
        eu_codes().len() == 24,
        eu_codes()[0] == "DE"@,
        eu_codes()[1] == "FR"@,
        eu_codes()[2] == "IT"@,
        eu_codes()[3] == "ES"@,
        eu_codes()[4] == "IE"@,
        eu_codes()[5] == "NL"@,
        eu_codes()[6] == "BE"@,
        eu_codes()[7] == "AT"@,
        eu_codes()[8] == "PL"@,
        eu_codes()[9] == "CZ"@,
        eu_codes()[10] == "HU"@,
        eu_codes()[11] == "RO"@,
        eu_codes()[12] == "BG"@,
        eu_codes()[13] == "HR"@,
        eu_codes()[14] == "SI"@,
        eu_codes()[15] == "SK"@,
        eu_codes()[16] == "LT"@,
        eu_codes()[17] == "LV"@,
        eu_codes()[18] == "EE"@,
        eu_codes()[19] == "LU"@,
        eu_codes()[20] == "MT"@,
        eu_codes()[21] == "CY"@,
        eu_codes()[22] == "SE"@,
        eu_codes()[23] == "TR"@,
        period_names().len() == 5,
        period_names()[0] == "7"@,
        period_names()[1] == "14"@,
        period_names()[2] == "30"@,
        period_names()[3] == "60"@,
        period_names()[4] == "90"@,
{
}

} // verus!
