//! The reference set: the places for which forecasts are harvested.

use vstd::prelude::*;

verus! {

/// How many fields a record of the reference set must at least hold.
pub const RECORD_FIELDS: usize = 14;

/// One place of the reference set. Its identity is `location_id`.
///
/// The coordinates are kept as the reference set writes them.
#[derive(Debug, PartialEq, Eq)]
pub struct Location {
    pub location_id: String,
    pub location_name_en: String,
    pub location_name_zh: String,
    pub iso_3166_1: String,
    pub country_region_en: String,
    pub country_region_zh: String,
    pub adm1_name_en: String,
    pub adm1_name_zh: String,
    pub adm2_name_en: String,
    pub adm2_name_zh: String,
    pub timezone: String,
    pub latitude: String,
    pub longitude: String,
    pub ad_code: String,
}

/// A location as text.
pub struct LocationView {
    pub location_id: Seq<char>,
    pub location_name_en: Seq<char>,
    pub location_name_zh: Seq<char>,
    pub iso_3166_1: Seq<char>,
    pub country_region_en: Seq<char>,
    pub country_region_zh: Seq<char>,
    pub adm1_name_en: Seq<char>,
    pub adm1_name_zh: Seq<char>,
    pub adm2_name_en: Seq<char>,
    pub adm2_name_zh: Seq<char>,
    pub timezone: Seq<char>,
    pub latitude: Seq<char>,
    pub longitude: Seq<char>,
    pub ad_code: Seq<char>,
}

impl View for Location {
    type V = LocationView;

    open spec fn view(&self) -> LocationView {
        LocationView {
            location_id: self.location_id@,
            location_name_en: self.location_name_en@,
            location_name_zh: self.location_name_zh@,
            iso_3166_1: self.iso_3166_1@,
            country_region_en: self.country_region_en@,
            country_region_zh: self.country_region_zh@,
            adm1_name_en: self.adm1_name_en@,
            adm1_name_zh: self.adm1_name_zh@,
            adm2_name_en: self.adm2_name_en@,
            adm2_name_zh: self.adm2_name_zh@,
            timezone: self.timezone@,
            latitude: self.latitude@,
            longitude: self.longitude@,
            ad_code: self.ad_code@,
        }
    }
}

impl Clone for Location {
    fn clone(&self) -> (copy: Location)
        ensures
            copy == *self,
    {
        Location {
            location_id: self.location_id.clone(),
            location_name_en: self.location_name_en.clone(),
            location_name_zh: self.location_name_zh.clone(),
            iso_3166_1: self.iso_3166_1.clone(),
            country_region_en: self.country_region_en.clone(),
            country_region_zh: self.country_region_zh.clone(),
            adm1_name_en: self.adm1_name_en.clone(),
            adm1_name_zh: self.adm1_name_zh.clone(),
            adm2_name_en: self.adm2_name_en.clone(),
            adm2_name_zh: self.adm2_name_zh.clone(),
            timezone: self.timezone.clone(),
            latitude: self.latitude.clone(),
            longitude: self.longitude.clone(),
            ad_code: self.ad_code.clone(),
        }
    }
}

/// The location that a record of at least fourteen fields describes: the
/// fields in the order of the reference set, anything after them ignored.
pub open spec fn location_of(fields: Seq<Seq<char>>) -> LocationView {
    LocationView {
        location_id: fields[0],
        location_name_en: fields[1],
        location_name_zh: fields[2],
        iso_3166_1: fields[3],
        country_region_en: fields[4],
        country_region_zh: fields[5],
        adm1_name_en: fields[6],
        adm1_name_zh: fields[7],
        adm2_name_en: fields[8],
        adm2_name_zh: fields[9],
        timezone: fields[10],
        latitude: fields[11],
        longitude: fields[12],
        ad_code: fields[13],
    }
}

/// The identifiers of a sequence of locations, in its order.
pub open spec fn identifiers(locations: Seq<Location>) -> Seq<Seq<char>> {
    locations.map_values(|l: Location| l.location_id@)
}

/// No identifier occurs twice.
pub open spec fn distinct(ids: Seq<Seq<char>>) -> bool {
    forall|i: int, j: int| 0 <= i < j < ids.len() ==> ids[i] != ids[j]
}

impl Location {
    /// Reads a location off one record. `None` exactly when the record has
    /// fewer than fourteen fields.
    pub fn from_fields(fields: &Vec<String>) -> (made: Option<Location>)
        ensures
            made is Some <==> fields.len() >= RECORD_FIELDS,
            made matches Some(location) ==> location@ == location_of(fields.deep_view()),
    {
        if fields.len() < RECORD_FIELDS {
            return None;
        }
        Some(Location {
            location_id: fields[0].clone(),
            location_name_en: fields[1].clone(),
            location_name_zh: fields[2].clone(),
            iso_3166_1: fields[3].clone(),
            country_region_en: fields[4].clone(),
            country_region_zh: fields[5].clone(),
            adm1_name_en: fields[6].clone(),
            adm1_name_zh: fields[7].clone(),
            adm2_name_en: fields[8].clone(),
            adm2_name_zh: fields[9].clone(),
            timezone: fields[10].clone(),
            latitude: fields[11].clone(),
            longitude: fields[12].clone(),
            ad_code: fields[13].clone(),
        })
    }
}

/// Why a reference set was turned down.
#[derive(Clone, Copy, Debug, PartialEq, Eq, Structural)]
pub enum DatasetError {
    /// The data is not a table that can be read.
    Malformed,
    /// The record at `row` has fewer than fourteen fields.
    IncompleteRecord { row: usize },
    /// The record at `row` has an empty identifier.
    EmptyIdentifier { row: usize },
    /// The identifier of the record at `row` stands in an earlier record too.
    DuplicateIdentifier { row: usize },
}

/// The identifier of record `row` stands in a record before it.
pub open spec fn repeats_identifier(records: Seq<Seq<Seq<char>>>, row: int) -> bool {
    exists|earlier: int|
        0 <= earlier < row && records[earlier].len() > 0 && #[trigger] records[earlier][0]
            == records[row][0]
}

/// What is wrong with record `row`, if anything: too few fields, else an
/// empty identifier, else an identifier seen before.
pub open spec fn row_fault(records: Seq<Seq<Seq<char>>>, row: int) -> Option<DatasetError> {
    if records[row].len() < RECORD_FIELDS {
        Some(DatasetError::IncompleteRecord { row: row as usize })
    } else if records[row][0].len() == 0 {
        Some(DatasetError::EmptyIdentifier { row: row as usize })
    } else if repeats_identifier(records, row) {
        Some(DatasetError::DuplicateIdentifier { row: row as usize })
    } else {
        None
    }
}

/// What loading `records` must give: the fault of the first faulty record,
/// or, where no record is faulty, one location per record in their order.
pub open spec fn loaded(
    records: Seq<Seq<Seq<char>>>,
    outcome: Result<Vec<Location>, DatasetError>,
) -> bool {
    match outcome {
        Ok(locations) => {
            &&& locations.len() == records.len()
            &&& forall|row: int| 0 <= row < records.len() ==> row_fault(records, row) is None
            &&& forall|row: int|
                0 <= row < records.len() ==> (#[trigger] locations[row])@ == location_of(
                    records[row],
                )
        },
        Err(fault) => exists|row: int|
            {
                &&& 0 <= row < records.len()
                &&& #[trigger] row_fault(records, row) == Some(fault)
                &&& forall|earlier: int| 0 <= earlier < row ==> row_fault(records, earlier) is None
            },
    }
}

/// Where `identifier` first stands among `locations`, if it does.
pub fn find_identifier(locations: &Vec<Location>, identifier: &String) -> (found: Option<usize>)
    ensures
        match found {
            Some(at) => {
                &&& at < locations.len()
                &&& locations[at as int].location_id@ == identifier@
                &&& forall|k: int| 0 <= k < at ==> locations[k].location_id@ != identifier@
            },
            None => forall|k: int|
                0 <= k < locations.len() ==> locations[k].location_id@ != identifier@,
        },
{
    let mut at: usize = 0;
    while at < locations.len()
        invariant
            at <= locations.len(),
            forall|k: int| 0 <= k < at ==> locations[k].location_id@ != identifier@,
        decreases locations.len() - at,
    {
        if locations[at].location_id == *identifier {
            return Some(at);
        }
        at += 1;
    }
    None
}

/// Turns the records of a reference set into its locations.
///
/// A record needs fourteen fields, an identifier that is not empty, and one
/// that no earlier record has. The first record that fails this is named in
/// the error, and nothing is loaded.
pub fn load_locations(records: &Vec<Vec<String>>) -> (outcome: Result<Vec<Location>, DatasetError>)
    ensures
        loaded(records.deep_view(), outcome),
        outcome matches Ok(locations) ==> {
            &&& distinct(identifiers(locations@))
            &&& forall|k: int| 0 <= k < locations.len() ==> locations[k].location_id@.len() > 0
        },
{
    let ghost table = records.deep_view();
    let mut locations: Vec<Location> = Vec::new();
    let mut row: usize = 0;
    while row < records.len()
        invariant
            table == records.deep_view(),
            table.len() == records.len(),
            row <= records.len(),
            locations.len() == row,
            forall|k: int| 0 <= k < row ==> row_fault(table, k) is None,
            forall|k: int| 0 <= k < row ==> (#[trigger] locations[k])@ == location_of(table[k]),
        decreases records.len() - row,
    {
        assert(table[row as int] == records[row as int].deep_view());
        match Location::from_fields(&records[row]) {
            None => {
                assert(row_fault(table, row as int) == Some(
                    DatasetError::IncompleteRecord { row },
                ));
                return Err(DatasetError::IncompleteRecord { row });
            },
            Some(location) => {
                if location.location_id.as_str().is_empty() {
                    assert(row_fault(table, row as int) == Some(
                        DatasetError::EmptyIdentifier { row },
                    ));
                    return Err(DatasetError::EmptyIdentifier { row });
                }
                match find_identifier(&locations, &location.location_id) {
                    Some(at) => {
                        assert(row_fault(table, at as int) is None);
                        assert(locations[at as int]@ == location_of(table[at as int]));
                        assert(table[at as int][0] == table[row as int][0]);
                        assert(repeats_identifier(table, row as int));
                        assert(row_fault(table, row as int) == Some(
                            DatasetError::DuplicateIdentifier { row },
                        ));
                        return Err(DatasetError::DuplicateIdentifier { row });
                    },
                    None => {
                        assert(!repeats_identifier(table, row as int)) by {
                            assert forall|earlier: int|
                                0 <= earlier < row && table[earlier].len() > 0 implies
                                #[trigger] table[earlier][0] != table[row as int][0] by {
                                assert(locations[earlier]@ == location_of(table[earlier]));
                            }
                        }
                        assert(row_fault(table, row as int) is None);
                        locations.push(location);
                    },
                }
            },
        }
        row += 1;
    }
    proof {
        let ids = identifiers(locations@);
        assert forall|i: int, j: int| 0 <= i < j < ids.len() implies ids[i] != ids[j] by {
            assert(row_fault(table, j) is None);
            assert(locations[i]@ == location_of(table[i]));
            assert(locations[j]@ == location_of(table[j]));
            assert(row_fault(table, i) is None);
            if ids[i] == ids[j] {
                assert(table[i][0] == table[j][0]);
                assert(repeats_identifier(table, j));
            }
        }
        assert forall|k: int| 0 <= k < locations.len() implies locations[k].location_id@.len()
            > 0 by {
            assert(row_fault(table, k) is None);
            assert(locations[k]@ == location_of(table[k]));
        }
    }
    Ok(locations)
}

/// The records that a comma-separated table holds after its header line,
/// each as its fields, or `None` where the table cannot be read: what
/// `csv::Reader` in its default configuration yields for these bytes.
pub uninterp spec fn csv_records(data: Seq<u8>) -> Option<Seq<Seq<Seq<char>>>>;

#[verifier::external_type_specification]
#[verifier::external_body]
pub struct ExCsvError(csv::Error);

/// Reads a table with `csv::Reader::from_reader` and `Reader::records`.
///
/// Trusted, not proved: the records that come back, field by field, are
/// `csv_records` of the bytes, and the call fails exactly where that is
/// `None`. Nothing is claimed of what the records hold.
#[verifier::external_body]
fn read_records(data: &[u8]) -> (read: Result<Vec<Vec<String>>, csv::Error>)
    ensures
        match read {
            Ok(records) => csv_records(data@) == Some(records.deep_view()),
            Err(_) => csv_records(data@) is None,
        },
{
    let mut reader = csv::Reader::from_reader(data);
    let mut records: Vec<Vec<String>> = Vec::new();
    for record in reader.records() {
        records.push(record?.iter().map(|field| field.to_string()).collect());
    }
    Ok(records)
}

/// Reads a reference set from the bytes of its table: a header line, then
/// one record per location.
///
/// A table that cannot be read is `Malformed`; one that can is loaded as
/// `load_locations` loads its records.
pub fn parse_reference(data: &[u8]) -> (outcome: Result<Vec<Location>, DatasetError>)
    ensures
        match csv_records(data@) {
            None => outcome == Err::<Vec<Location>, DatasetError>(DatasetError::Malformed),
            Some(records) => loaded(records, outcome),
        },
        outcome matches Ok(locations) ==> {
            &&& distinct(identifiers(locations@))
            &&& forall|k: int| 0 <= k < locations.len() ==> locations[k].location_id@.len() > 0
        },
{
    match read_records(data) {
        Err(_) => Err(DatasetError::Malformed),
        Ok(records) => load_locations(&records),
    }
}


} // verus!
