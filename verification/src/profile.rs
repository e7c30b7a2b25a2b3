//! The first section of a report: a table with one line for each level, the
//! values in fixed columns.

use crate::bytes::{lines_of, slice_views, split_lines, trim, trimmed};
use crate::number::{is_digit, is_float_literal, literal_of, literals, Number};
use vstd::prelude::*;
use vstd::slice::slice_subrange;
use vstd::string::StringSliceAdditionalSpecFns;

verus! {

/// The columns of the table, as the offsets of their first byte and of the
/// byte after their last.
pub const PRESSURE_START: usize = 0;

pub const PRESSURE_END: usize = 7;

pub const HEIGHT_START: usize = 8;

pub const HEIGHT_END: usize = 14;

pub const TEMPERATURE_START: usize = 15;

pub const TEMPERATURE_END: usize = 21;

pub const DEW_POINT_START: usize = 22;

pub const DEW_POINT_END: usize = 28;

pub const DIRECTION_START: usize = 45;

pub const DIRECTION_END: usize = 49;

pub const SPEED_START: usize = 52;

pub const SPEED_END: usize = 56;

pub const THETA_E_START: usize = 65;

pub const THETA_E_END: usize = 70;

/// Number of levels that must give a pressure, and the number that must give
/// a height, for a table to count as a profile.
pub const MIN_NUM_LEVELS: usize = 5;

/// The value that a line gives in the column from `start` to `end`: the
/// column without the white space at its ends, where the line reaches the end
/// of the column and that text is a floating-point literal.
pub open spec fn column_value(line: Seq<u8>, start: int, end: int) -> Option<Seq<u8>> {
    if end <= line.len() && is_float_literal(trimmed(line.subrange(start, end))) {
        Some(trimmed(line.subrange(start, end)))
    } else {
        None
    }
}

/// The wind that a line gives, as speed and direction: present where both are.
pub open spec fn wind_value(line: Seq<u8>) -> Option<(Seq<u8>, Seq<u8>)> {
    match (
        column_value(line, SPEED_START as int, SPEED_END as int),
        column_value(line, DIRECTION_START as int, DIRECTION_END as int),
    ) {
        (Some(speed), Some(direction)) => Some((speed, direction)),
        _ => None,
    }
}

/// The line is one of the table: its first byte after leading white space is
/// a digit.
pub open spec fn starts_with_digit(line: Seq<u8>) -> bool {
    trimmed(line).len() > 0 && is_digit(trimmed(line)[0])
}

/// Index of the first line from `from` on that starts with a digit, or the
/// number of lines.
pub open spec fn table_start(lines: Seq<Seq<u8>>, from: int) -> int
    decreases lines.len() - from,
{
    if from < 0 || from >= lines.len() {
        lines.len() as int
    } else if starts_with_digit(lines[from]) {
        from
    } else {
        table_start(lines, from + 1)
    }
}

/// The lines of the table: the first line that starts with a digit, and every
/// line after it.
pub open spec fn table_rows(text: Seq<u8>) -> Seq<Seq<u8>> {
    let lines = lines_of(text);
    lines.subrange(table_start(lines, 0), lines.len() as int)
}

/// One column of the table, a value or none for each line.
pub open spec fn column(rows: Seq<Seq<u8>>, start: int, end: int) -> Seq<Option<Seq<u8>>> {
    Seq::new(rows.len(), |i: int| column_value(rows[i], start, end))
}

/// The wind of each line of the table.
pub open spec fn wind_column(rows: Seq<Seq<u8>>) -> Seq<Option<(Seq<u8>, Seq<u8>)>> {
    Seq::new(rows.len(), |i: int| wind_value(rows[i]))
}

/// Number of values of a column that are present.
pub open spec fn present<T>(values: Seq<Option<T>>) -> nat
    decreases values.len(),
{
    if values.len() == 0 {
        0
    } else if values.last() is Some {
        present(values.drop_last()) + 1
    } else {
        present(values.drop_last())
    }
}

/// The table counts as a profile: enough of its lines give a pressure, and
/// enough give a height.
pub open spec fn is_profile(rows: Seq<Seq<u8>>) -> bool {
    &&& present(column(rows, PRESSURE_START as int, PRESSURE_END as int)) >= MIN_NUM_LEVELS
    &&& present(column(rows, HEIGHT_START as int, HEIGHT_END as int)) >= MIN_NUM_LEVELS
}

/// Two columns that have their values in the same places have as many.
pub proof fn lemma_present_alike<A, B>(a: Seq<Option<A>>, b: Seq<Option<B>>)
    requires
        a.len() == b.len(),
        forall|i: int| 0 <= i < a.len() ==> (a[i] is Some <==> b[i] is Some),
    ensures
        present(a) == present(b),
    decreases a.len(),
{
    if a.len() > 0 {
        lemma_present_alike(a.drop_last(), b.drop_last());
    }
}

/// Speed and direction of the wind at one level.
#[derive(Clone, Copy, Debug, PartialEq, Eq)]
pub struct Wind<'a> {
    pub speed: Number<'a>,
    pub direction: Number<'a>,
}

/// The literals of a wind that may be missing, speed first.
pub open spec fn wind_literals(wind: Option<Wind>) -> Option<(Seq<u8>, Seq<u8>)> {
    match wind {
        Some(w) => Some((w.speed@, w.direction@)),
        None => None,
    }
}

/// The literals of a column of winds.
pub open spec fn winds(values: Seq<Option<Wind>>) -> Seq<Option<(Seq<u8>, Seq<u8>)>> {
    Seq::new(values.len(), |i: int| wind_literals(values[i]))
}

/// The columns of a profile as literals.
pub struct ProfileView {
    pub pressure: Seq<Option<Seq<u8>>>,
    pub height: Seq<Option<Seq<u8>>>,
    pub temperature: Seq<Option<Seq<u8>>>,
    pub dew_point: Seq<Option<Seq<u8>>>,
    pub theta_e: Seq<Option<Seq<u8>>>,
    pub wind: Seq<Option<(Seq<u8>, Seq<u8>)>>,
}

impl ProfileView {
    /// Every column has `levels` places.
    pub open spec fn has_levels(&self, levels: nat) -> bool {
        &&& self.pressure.len() == levels
        &&& self.height.len() == levels
        &&& self.temperature.len() == levels
        &&& self.dew_point.len() == levels
        &&& self.theta_e.len() == levels
        &&& self.wind.len() == levels
    }
}

/// The profile that a table of lines holds.
pub open spec fn profile_of(rows: Seq<Seq<u8>>) -> ProfileView {
    ProfileView {
        pressure: column(rows, PRESSURE_START as int, PRESSURE_END as int),
        height: column(rows, HEIGHT_START as int, HEIGHT_END as int),
        temperature: column(rows, TEMPERATURE_START as int, TEMPERATURE_END as int),
        dew_point: column(rows, DEW_POINT_START as int, DEW_POINT_END as int),
        theta_e: column(rows, THETA_E_START as int, THETA_E_END as int),
        wind: wind_column(rows),
    }
}

/// The profile of a section of text, where its table counts as one.
pub open spec fn spec_parse_profile(text: Seq<u8>) -> Option<ProfileView> {
    if is_profile(table_rows(text)) {
        Some(profile_of(table_rows(text)))
    } else {
        None
    }
}

/// A vertical profile: for each level, in the order of the lines of the
/// table, the values measured there. The six columns have one place for each
/// level.
#[derive(Debug, PartialEq, Eq)]
pub struct Profile<'a> {
    pressure: Vec<Option<Number<'a>>>,
    height: Vec<Option<Number<'a>>>,
    temperature: Vec<Option<Number<'a>>>,
    dew_point: Vec<Option<Number<'a>>>,
    theta_e: Vec<Option<Number<'a>>>,
    wind: Vec<Option<Wind<'a>>>,
}

impl<'a> View for Profile<'a> {
    type V = ProfileView;

    closed spec fn view(&self) -> ProfileView {
        ProfileView {
            pressure: literals(self.pressure@),
            height: literals(self.height@),
            temperature: literals(self.temperature@),
            dew_point: literals(self.dew_point@),
            theta_e: literals(self.theta_e@),
            wind: winds(self.wind@),
        }
    }
}

impl<'a> Profile<'a> {
    #[verifier::type_invariant]
    closed spec fn aligned(&self) -> bool {
        &&& self.height@.len() == self.pressure@.len()
        &&& self.temperature@.len() == self.pressure@.len()
        &&& self.dew_point@.len() == self.pressure@.len()
        &&& self.theta_e@.len() == self.pressure@.len()
        &&& self.wind@.len() == self.pressure@.len()
    }

    /// Number of levels.
    pub fn len(&self) -> (n: usize)
        ensures
            self@.has_levels(n as nat),
    {
        proof {
            use_type_invariant(self);
        }
        self.pressure.len()
    }

    /// Pressure at each level, in hPa.
    pub fn pressure(&self) -> (r: &Vec<Option<Number<'a>>>)
        ensures
            literals(r@) == self@.pressure,
    {
        &self.pressure
    }

    /// Geopotential height at each level, in meters.
    pub fn height(&self) -> (r: &Vec<Option<Number<'a>>>)
        ensures
            literals(r@) == self@.height,
    {
        &self.height
    }

    /// Temperature at each level, in degrees Celsius.
    pub fn temperature(&self) -> (r: &Vec<Option<Number<'a>>>)
        ensures
            literals(r@) == self@.temperature,
    {
        &self.temperature
    }

    /// Dew point at each level, in degrees Celsius.
    pub fn dew_point(&self) -> (r: &Vec<Option<Number<'a>>>)
        ensures
            literals(r@) == self@.dew_point,
    {
        &self.dew_point
    }

    /// Equivalent potential temperature at each level, in kelvins.
    pub fn theta_e(&self) -> (r: &Vec<Option<Number<'a>>>)
        ensures
            literals(r@) == self@.theta_e,
    {
        &self.theta_e
    }

    /// Wind at each level: speed in knots, direction in degrees.
    pub fn wind(&self) -> (r: &Vec<Option<Wind<'a>>>)
        ensures
            winds(r@) == self@.wind,
    {
        &self.wind
    }
}

/// Reads the value that a line gives in the column from `start` to `end`. A
/// line that ends before the column does gives no value there.
pub fn read_column<'a>(line: &'a [u8], start: usize, end: usize) -> (r: Option<Number<'a>>)
    requires
        start <= end,
    ensures
        literal_of(r) == column_value(line@, start as int, end as int),
        line@.len() < end ==> r is None,
{
    if end <= line.len() {
        Number::read(trim(slice_subrange(line, start, end)))
    } else {
        None
    }
}

/// Tells whether enough values of a column are present.
pub fn has_min_num(values: &Vec<Option<Number>>) -> (r: bool)
    ensures
        r == (present(values@) >= MIN_NUM_LEVELS),
{
    let mut found: usize = 0;
    let mut i: usize = 0;
    while i < values.len()
        invariant
            i <= values@.len(),
            found == present(values@.take(i as int)),
            found <= i,
        decreases values@.len() - i,
    {
        proof {
            assert(values@.take(i + 1).drop_last() =~= values@.take(i as int));
        }
        if values[i].is_some() {
            found += 1;
        }
        i += 1;
    }
    proof {
        assert(values@.take(i as int) =~= values@);
    }
    found >= MIN_NUM_LEVELS
}

fn is_table_line(line: &[u8]) -> (r: bool)
    ensures
        r == starts_with_digit(line@),
{
    let text = trim(line);
    text.len() > 0 && 0x30 <= text[0] && text[0] <= 0x39
}

/// Reads the table of levels from the first section of a report. The lines
/// before the first one that starts with a digit are passed over; each line
/// from there on is a level. Gives `None` where fewer than `MIN_NUM_LEVELS`
/// levels give a pressure, or fewer give a height.
pub fn parse_profile<'a>(text: &'a str) -> (r: Option<Profile<'a>>)
    ensures
        r is Some <==> is_profile(table_rows(text.spec_bytes())),
        r matches Some(p) ==> p@ == profile_of(table_rows(text.spec_bytes())) && p@.has_levels(
            table_rows(text.spec_bytes()).len(),
        ),
        present(column(table_rows(text.spec_bytes()), PRESSURE_START as int, PRESSURE_END as int))
            < MIN_NUM_LEVELS ==> r is None,
{
    let lines = split_lines(text.as_bytes());
    let ghost all = lines_of(text.spec_bytes());
    let mut first: usize = 0;
    while first < lines.len() && !is_table_line(lines[first])
        invariant
            first <= lines@.len(),
            slice_views(lines@) == all,
            table_start(all, 0) == table_start(all, first as int),
        decreases lines@.len() - first,
    {
        first += 1;
    }
    let ghost rows = table_rows(text.spec_bytes());
    let mut pressure: Vec<Option<Number<'a>>> = Vec::new();
    let mut height: Vec<Option<Number<'a>>> = Vec::new();
    let mut temperature: Vec<Option<Number<'a>>> = Vec::new();
    let mut dew_point: Vec<Option<Number<'a>>> = Vec::new();
    let mut theta_e: Vec<Option<Number<'a>>> = Vec::new();
    let mut wind: Vec<Option<Wind<'a>>> = Vec::new();
    let mut i: usize = first;
    while i < lines.len()
        invariant
            first <= i <= lines@.len(),
            slice_views(lines@) == all,
            rows == all.subrange(first as int, all.len() as int),
            pressure@.len() == i - first,
            height@.len() == i - first,
            temperature@.len() == i - first,
            dew_point@.len() == i - first,
            theta_e@.len() == i - first,
            wind@.len() == i - first,
            forall|k: int|
                0 <= k < i - first ==> literal_of(#[trigger] pressure@[k]) == column_value(
                    rows[k],
                    PRESSURE_START as int,
                    PRESSURE_END as int,
                ),
            forall|k: int|
                0 <= k < i - first ==> literal_of(#[trigger] height@[k]) == column_value(
                    rows[k],
                    HEIGHT_START as int,
                    HEIGHT_END as int,
                ),
            forall|k: int|
                0 <= k < i - first ==> literal_of(#[trigger] temperature@[k]) == column_value(
                    rows[k],
                    TEMPERATURE_START as int,
                    TEMPERATURE_END as int,
                ),
            forall|k: int|
                0 <= k < i - first ==> literal_of(#[trigger] dew_point@[k]) == column_value(
                    rows[k],
                    DEW_POINT_START as int,
                    DEW_POINT_END as int,
                ),
            forall|k: int|
                0 <= k < i - first ==> literal_of(#[trigger] theta_e@[k]) == column_value(
                    rows[k],
                    THETA_E_START as int,
                    THETA_E_END as int,
                ),
            forall|k: int|
                0 <= k < i - first ==> wind_literals(#[trigger] wind@[k]) == wind_value(rows[k]),
        decreases lines@.len() - i,
    {
        let line = lines[i];
        proof {
            assert(rows[i - first] == line@);
        }
        pressure.push(read_column(line, PRESSURE_START, PRESSURE_END));
        height.push(read_column(line, HEIGHT_START, HEIGHT_END));
        temperature.push(read_column(line, TEMPERATURE_START, TEMPERATURE_END));
        dew_point.push(read_column(line, DEW_POINT_START, DEW_POINT_END));
        let direction = read_column(line, DIRECTION_START, DIRECTION_END);
        let speed = read_column(line, SPEED_START, SPEED_END);
        wind.push(
            match (speed, direction) {
                (Some(speed), Some(direction)) => Some(Wind { speed, direction }),
                _ => None,
            },
        );
        theta_e.push(read_column(line, THETA_E_START, THETA_E_END));
        i += 1;
    }
    let enough = has_min_num(&pressure) && has_min_num(&height);
    let profile = Profile { pressure, height, temperature, dew_point, theta_e, wind };
    proof {
        let view = profile_of(rows);
        assert(profile@.pressure =~= view.pressure);
        assert(profile@.height =~= view.height);
        assert(profile@.temperature =~= view.temperature);
        assert(profile@.dew_point =~= view.dew_point);
        assert(profile@.theta_e =~= view.theta_e);
        assert(profile@.wind =~= view.wind);
        lemma_present_alike(profile.pressure@, view.pressure);
        lemma_present_alike(profile.height@, view.height);
    }
    if enough {
        Some(profile)
    } else {
        None
    }
}

} // verus!
