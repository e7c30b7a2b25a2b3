//! The station that made an observation, as the second section of a report
//! describes it.

use crate::bytes::{lines_of, same_bytes, slice_views, split_lines};
use crate::header::{entry_of, split_entry};
use crate::number::{i32_value, is_float_literal, literal_of, parse_i32, Number};
use vstd::prelude::*;
use vstd::string::StringSliceAdditionalSpecFns;

verus! {

/// What the lines read so far say of the station.
pub struct StationFields {
    pub number: Option<i32>,
    pub id: Option<Seq<u8>>,
    pub latitude: Option<Seq<u8>>,
    pub longitude: Option<Seq<u8>>,
    pub elevation: Option<Seq<u8>>,
}

impl StationFields {
    /// Nothing is known yet.
    pub open spec fn empty() -> StationFields {
        StationFields { number: None, id: None, latitude: None, longitude: None, elevation: None }
    }

    /// Each of the five fields has been found.
    pub open spec fn complete(&self) -> bool {
        &&& self.number is Some
        &&& self.id is Some
        &&& self.latitude is Some
        &&& self.longitude is Some
        &&& self.elevation is Some
    }
}

/// What is known of the station after one more line. A line without a colon,
/// or with a label that names none of the five fields, changes nothing. A
/// line that names a field gives it its value, in place of an earlier one.
/// `None` where the line names a field that holds a number and its value is
/// none: such a report is refused.
pub open spec fn station_step(known: StationFields, line: Seq<u8>) -> Option<StationFields> {
    match entry_of(line) {
        Some((label, value)) => {
            if label == "Station identifier".spec_bytes() {
                Some(StationFields { id: Some(value), ..known })
            } else if label == "Station number".spec_bytes() {
                match i32_value(value) {
                    Some(number) => Some(StationFields { number: Some(number), ..known }),
                    None => None,
                }
            } else if label == "Station latitude".spec_bytes() {
                if is_float_literal(value) {
                    Some(StationFields { latitude: Some(value), ..known })
                } else {
                    None
                }
            } else if label == "Station longitude".spec_bytes() {
                if is_float_literal(value) {
                    Some(StationFields { longitude: Some(value), ..known })
                } else {
                    None
                }
            } else if label == "Station elevation".spec_bytes() {
                if is_float_literal(value) {
                    Some(StationFields { elevation: Some(value), ..known })
                } else {
                    None
                }
            } else {
                Some(known)
            }
        },
        None => Some(known),
    }
}

/// What is known of the station after the lines from `from` on, read in
/// order. Reading stops once the five fields are complete, so that no later
/// line counts.
pub open spec fn station_scan(lines: Seq<Seq<u8>>, from: int, known: StationFields) -> Option<
    StationFields,
>
    decreases lines.len() - from,
{
    if from < 0 || from >= lines.len() || known.complete() {
        Some(known)
    } else {
        match station_step(known, lines[from]) {
            Some(next) => station_scan(lines, from + 1, next),
            None => None,
        }
    }
}

/// A station as literals.
pub struct StationView {
    pub number: Option<i32>,
    pub id: Option<Seq<u8>>,
    pub location: Option<(Seq<u8>, Seq<u8>)>,
    pub elevation: Option<Seq<u8>>,
}

/// The station that the fields describe. It has a location where both
/// latitude and longitude are known.
pub open spec fn station_of(fields: StationFields) -> StationView {
    StationView {
        number: fields.number,
        id: fields.id,
        location: match (fields.latitude, fields.longitude) {
            (Some(latitude), Some(longitude)) => Some((latitude, longitude)),
            _ => None,
        },
        elevation: fields.elevation,
    }
}

/// The station that a section of text describes, unless the report is
/// refused.
pub open spec fn spec_parse_station_info(text: Seq<u8>) -> Option<StationView> {
    match station_scan(lines_of(text), 0, StationFields::empty()) {
        Some(fields) => Some(station_of(fields)),
        None => None,
    }
}

/// A station: its number, its identifier, where it lies as latitude and
/// longitude in degrees, and its elevation in meters. Each may be missing.
#[derive(Clone, Copy, Debug, PartialEq, Eq)]
pub struct StationInfo<'a> {
    pub number: Option<i32>,
    pub id: Option<&'a [u8]>,
    pub location: Option<(Number<'a>, Number<'a>)>,
    pub elevation: Option<Number<'a>>,
}

/// The bytes of a text that may be missing.
pub open spec fn bytes_of(text: Option<&[u8]>) -> Option<Seq<u8>> {
    match text {
        Some(t) => Some(t@),
        None => None,
    }
}

impl<'a> View for StationInfo<'a> {
    type V = StationView;

    open spec fn view(&self) -> StationView {
        StationView {
            number: self.number,
            id: bytes_of(self.id),
            location: match self.location {
                Some((latitude, longitude)) => Some((latitude@, longitude@)),
                None => None,
            },
            elevation: literal_of(self.elevation),
        }
    }
}

/// Reads what the second section of a report says of the station. Gives
/// `None` where a line that names the number, the latitude, the longitude or
/// the elevation holds no number, unless the five fields were complete before
/// that line.
pub fn parse_station_info<'a>(text: &'a str) -> (r: Option<StationInfo<'a>>)
    ensures
        r is Some <==> spec_parse_station_info(text.spec_bytes()) is Some,
        r matches Some(info) ==> Some(info@) == spec_parse_station_info(text.spec_bytes()),
{
    let lines = split_lines(text.as_bytes());
    let ghost all = lines_of(text.spec_bytes());
    let mut number: Option<i32> = None;
    let mut id: Option<&'a [u8]> = None;
    let mut latitude: Option<Number<'a>> = None;
    let mut longitude: Option<Number<'a>> = None;
    let mut elevation: Option<Number<'a>> = None;
    let mut i: usize = 0;
    while i < lines.len() && !(number.is_some() && id.is_some() && latitude.is_some()
        && longitude.is_some() && elevation.is_some())
        invariant
            i <= lines@.len(),
            slice_views(lines@) == all,
            all == lines_of(text.spec_bytes()),
            station_scan(all, 0, StationFields::empty()) == station_scan(
                all,
                i as int,
                StationFields {
                    number,
                    id: bytes_of(id),
                    latitude: literal_of(latitude),
                    longitude: literal_of(longitude),
                    elevation: literal_of(elevation),
                },
            ),
        decreases lines@.len() - i,
    {
        proof {
            assert(all[i as int] == lines@[i as int]@);
        }
        match split_entry(lines[i]) {
            Some((label, value)) => {
                if same_bytes(label, "Station identifier".as_bytes()) {
                    id = Some(value);
                } else if same_bytes(label, "Station number".as_bytes()) {
                    match parse_i32(value) {
                        Some(n) => {
                            number = Some(n);
                        },
                        None => {
                            return None;
                        },
                    }
                } else if same_bytes(label, "Station latitude".as_bytes()) {
                    match Number::read(value) {
                        Some(n) => {
                            latitude = Some(n);
                        },
                        None => {
                            return None;
                        },
                    }
                } else if same_bytes(label, "Station longitude".as_bytes()) {
                    match Number::read(value) {
                        Some(n) => {
                            longitude = Some(n);
                        },
                        None => {
                            return None;
                        },
                    }
                } else if same_bytes(label, "Station elevation".as_bytes()) {
                    match Number::read(value) {
                        Some(n) => {
                            elevation = Some(n);
                        },
                        None => {
                            return None;
                        },
                    }
                }
            },
            None => {},
        }
        i += 1;
    }
    let location = match (latitude, longitude) {
        (Some(latitude), Some(longitude)) => Some((latitude, longitude)),
        _ => None,
    };
    Some(StationInfo { number, id, location, elevation })
}

} // verus!
