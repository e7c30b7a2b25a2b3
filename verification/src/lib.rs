//! Decoder for upper-air sounding reports published as text inside an HTML page.
//!
//! A page holds any number of reports. Each report is a pair of marked sections:
//! a table of levels in fixed columns, and a block of `label: value` lines with
//! the station, the observation time and the indices the provider computed.
//! The library works on the bytes of the page and borrows every value it
//! returns from them.

pub mod bytes;
pub mod calendar;
pub mod document;
pub mod error;
pub mod header;
pub mod indexes;
pub mod number;
pub mod parse_section;
pub mod profile;
pub mod sounding_iter;
pub mod station;
pub mod text_iter;

pub use crate::error::Error;
pub use crate::calendar::{full_year, parse_valid_time, ValidTime};
pub use crate::indexes::{index_name, parse_indexes, ProviderIndexes, INDEX_COUNT};
pub use crate::number::Number;
pub use crate::parse_section::{parse, Sounding};
pub use crate::profile::{has_min_num, parse_profile, read_column, Profile, Wind};
pub use crate::sounding_iter::{parse_text, SoundingIterator};
pub use crate::station::{parse_station_info, StationInfo};
pub use crate::text_iter::{
    create_text_section_iterator, find_next_pre_section, SoundingText, SoundingTextIterator,
};
