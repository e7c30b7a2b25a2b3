//! Reads one report from the text of its two sections.

use crate::calendar::{parse_valid_time, spec_parse_valid_time, ValidTime};
use crate::indexes::{parse_indexes, provider_indexes, ProviderIndexes};
use crate::profile::{parse_profile, spec_parse_profile, Profile, ProfileView};
use crate::station::{parse_station_info, spec_parse_station_info, StationInfo, StationView};
use crate::text_iter::{SectionPair, SoundingText};
use vstd::prelude::*;
use vstd::string::StringSliceAdditionalSpecFns;

verus! {

/// A report as literals: where it came from, its profile, its station, its
/// time, and the value of each index.
pub struct Report {
    pub source_description: Seq<char>,
    pub profile: ProfileView,
    pub station_info: StationView,
    pub valid_time: ValidTime,
    pub indexes: Seq<Option<Seq<u8>>>,
}

/// The report that a pair of sections holds. There is one where the first
/// section holds a profile and the second describes a station and states a
/// time.
pub open spec fn spec_parse(text: SectionPair, source_description: Seq<char>) -> Option<Report> {
    match (
        spec_parse_profile(text.upper_air),
        spec_parse_station_info(text.stn_info_and_indexes),
        spec_parse_valid_time(text.stn_info_and_indexes),
    ) {
        (Some(profile), Some(station_info), Some(valid_time)) => Some(
            Report {
                source_description,
                profile,
                station_info,
                valid_time,
                indexes: provider_indexes(text.stn_info_and_indexes),
            },
        ),
        _ => None,
    }
}

/// A sounding without its indices, as literals.
pub struct SoundingView {
    pub source_description: Seq<char>,
    pub profile: ProfileView,
    pub station_info: StationView,
    pub valid_time: ValidTime,
}

/// One sounding: the profile that a balloon measured, with the station that
/// sent it up and the hour of the observation.
#[derive(Debug, PartialEq, Eq)]
pub struct Sounding<'a> {
    source_description: &'a str,
    station_info: StationInfo<'a>,
    valid_time: ValidTime,
    profile: Profile<'a>,
}

impl<'a> View for Sounding<'a> {
    type V = SoundingView;

    closed spec fn view(&self) -> SoundingView {
        SoundingView {
            source_description: self.source_description@,
            profile: self.profile@,
            station_info: self.station_info@,
            valid_time: self.valid_time,
        }
    }
}

impl<'a> Sounding<'a> {
    #[verifier::type_invariant]
    closed spec fn timed(&self) -> bool {
        self.valid_time.wf()
    }

    /// Where the sounding came from, as the caller described it.
    pub fn source_description(&self) -> (r: &'a str)
        ensures
            r@ == self@.source_description,
    {
        self.source_description
    }

    /// The station that made the observation.
    pub fn station_info(&self) -> (r: StationInfo<'a>)
        ensures
            r@ == self@.station_info,
    {
        self.station_info
    }

    /// The hour of the observation.
    pub fn valid_time(&self) -> (r: ValidTime)
        ensures
            r == self@.valid_time,
            r.wf(),
    {
        proof {
            use_type_invariant(self);
        }
        self.valid_time
    }

    /// The profile.
    pub fn profile(&self) -> (r: &Profile<'a>)
        ensures
            r@ == self@.profile,
    {
        &self.profile
    }
}

/// A sounding and its indices as one report.
pub open spec fn report_of(sounding: SoundingView, indexes: Seq<Option<Seq<u8>>>) -> Report {
    Report {
        source_description: sounding.source_description,
        profile: sounding.profile,
        station_info: sounding.station_info,
        valid_time: sounding.valid_time,
        indexes,
    }
}

/// Reads the report that a pair of sections holds. The first section is read
/// first: where it holds no profile the report is refused whatever the second
/// section says.
pub fn parse<'a>(text: SoundingText<'a>, source_description: &'a str) -> (r: Option<
    (Sounding<'a>, ProviderIndexes<'a>),
>)
    ensures
        r is Some <==> spec_parse(text@, source_description@) is Some,
        r matches Some((sounding, indexes)) ==> Some(report_of(sounding@, indexes@)) == spec_parse(
            text@,
            source_description@,
        ),
        spec_parse_profile(text@.upper_air) is None ==> r is None,
{
    let profile = match parse_profile(text.upper_air) {
        Some(profile) => profile,
        None => {
            return None;
        },
    };
    let station_info = match parse_station_info(text.stn_info_and_indexes) {
        Some(station_info) => station_info,
        None => {
            return None;
        },
    };
    let valid_time = match parse_valid_time(text.stn_info_and_indexes) {
        Some(valid_time) => valid_time,
        None => {
            return None;
        },
    };
    let indexes = parse_indexes(text.stn_info_and_indexes);
    Some((Sounding { source_description, station_info, valid_time, profile }, indexes))
}

} // verus!
