//! The indices that the provider of a report computed and printed with it.

use crate::bytes::{lines_of, same_bytes, slice_views, split_lines};
use crate::header::{entry_of, split_entry};
use crate::number::{is_float_literal, literal_of, literals, Number};
use vstd::prelude::*;
use vstd::string::StringSliceAdditionalSpecFns;

verus! {

/// Number of indices that the library knows by their labels.
pub const INDEX_COUNT: usize = 24;

/// The label of each index, as the reports print it.
pub open spec fn spec_index_name(kind: int) -> &'static str {
    if kind == 0 {
        "Station latitude"
    } else if kind == 1 {
        "Station longitude"
    } else if kind == 2 {
        "Showalter index"
    } else if kind == 3 {
        "Lifted index"
    } else if kind == 4 {
        "LIFT computed using virtual temperature"
    } else if kind == 5 {
        "K index"
    } else if kind == 6 {
        "Cross totals index"
    } else if kind == 7 {
        "Vertical totals index"
    } else if kind == 8 {
        "Totals totals index"
    } else if kind == 9 {
        "Convective Available Potential Energy"
    } else if kind == 10 {
        "CAPE using virtual temperature"
    } else if kind == 11 {
        "Convective Inhibition"
    } else if kind == 12 {
        "CINS using virtual temperature"
    } else if kind == 13 {
        "Temp [K] of the Lifted Condensation Level"
    } else if kind == 14 {
        "Pres [hPa] of the Lifted Condensation Level"
    } else if kind == 15 {
        "Equivalent potential temp [K] of the LCL"
    } else if kind == 16 {
        "Mean mixed layer potential temperature"
    } else if kind == 17 {
        "Mean mixed layer mixing ratio"
    } else if kind == 18 {
        "1000 hPa to 500 hPa thickness"
    } else if kind == 19 {
        "Precipitable water [mm] for entire sounding"
    } else if kind == 20 {
        "Bulk Richardson Number"
    } else if kind == 21 {
        "Bulk Richardson Number using CAPV"
    } else if kind == 22 {
        "Station elevation"
    } else {
        "SWEAT index"
    }
}

/// The label of an index as bytes.
pub open spec fn index_label(kind: int) -> Seq<u8> {
    spec_index_name(kind).spec_bytes()
}

/// The label of the index with the number `kind`.
pub fn index_name(kind: usize) -> (name: &'static str)
    requires
        kind < INDEX_COUNT,
    ensures
        name == spec_index_name(kind as int),
{
    if kind == 0 {
        "Station latitude"
    } else if kind == 1 {
        "Station longitude"
    } else if kind == 2 {
        "Showalter index"
    } else if kind == 3 {
        "Lifted index"
    } else if kind == 4 {
        "LIFT computed using virtual temperature"
    } else if kind == 5 {
        "K index"
    } else if kind == 6 {
        "Cross totals index"
    } else if kind == 7 {
        "Vertical totals index"
    } else if kind == 8 {
        "Totals totals index"
    } else if kind == 9 {
        "Convective Available Potential Energy"
    } else if kind == 10 {
        "CAPE using virtual temperature"
    } else if kind == 11 {
        "Convective Inhibition"
    } else if kind == 12 {
        "CINS using virtual temperature"
    } else if kind == 13 {
        "Temp [K] of the Lifted Condensation Level"
    } else if kind == 14 {
        "Pres [hPa] of the Lifted Condensation Level"
    } else if kind == 15 {
        "Equivalent potential temp [K] of the LCL"
    } else if kind == 16 {
        "Mean mixed layer potential temperature"
    } else if kind == 17 {
        "Mean mixed layer mixing ratio"
    } else if kind == 18 {
        "1000 hPa to 500 hPa thickness"
    } else if kind == 19 {
        "Precipitable water [mm] for entire sounding"
    } else if kind == 20 {
        "Bulk Richardson Number"
    } else if kind == 21 {
        "Bulk Richardson Number using CAPV"
    } else if kind == 22 {
        "Station elevation"
    } else {
        "SWEAT index"
    }
}

/// The first index from `from` on whose label is `label`.
pub open spec fn kind_from(label: Seq<u8>, from: int) -> Option<int>
    decreases INDEX_COUNT - from,
{
    if from < 0 || from >= INDEX_COUNT {
        None
    } else if index_label(from) == label {
        Some(from)
    } else {
        kind_from(label, from + 1)
    }
}

/// The index that a label names, if any.
pub open spec fn kind_of(label: Seq<u8>) -> Option<int> {
    kind_from(label, 0)
}

/// The line states the index `kind`: its label is the label of that index
/// and its value is a floating-point literal.
pub open spec fn states_index(line: Seq<u8>, kind: int) -> bool {
    entry_of(line) matches Some((label, value)) && kind_of(label) == Some(kind)
        && is_float_literal(value)
}

/// The value that a list of lines gives the index `kind`: that of the last
/// line that states it.
pub open spec fn index_value(lines: Seq<Seq<u8>>, kind: int) -> Option<Seq<u8>>
    decreases lines.len(),
{
    if lines.len() == 0 {
        None
    } else if states_index(lines.last(), kind) {
        match entry_of(lines.last()) {
            Some((_, value)) => Some(value),
            None => None,
        }
    } else {
        index_value(lines.drop_last(), kind)
    }
}

/// The value of each index in a section of text.
pub open spec fn provider_indexes(text: Seq<u8>) -> Seq<Option<Seq<u8>>> {
    Seq::new(INDEX_COUNT as nat, |kind: int| index_value(lines_of(text), kind))
}

/// Finds the index that a label names.
pub fn find_kind(label: &[u8]) -> (r: Option<usize>)
    ensures
        r matches Some(kind) ==> kind < INDEX_COUNT && kind_of(label@) == Some(kind as int),
        r is None ==> kind_of(label@) is None,
{
    let mut kind: usize = 0;
    while kind < INDEX_COUNT
        invariant
            kind <= INDEX_COUNT,
            kind_of(label@) == kind_from(label@, kind as int),
        decreases INDEX_COUNT - kind,
    {
        if same_bytes(index_name(kind).as_bytes(), label) {
            return Some(kind);
        }
        kind += 1;
    }
    None
}

/// The values of the indices of one report, by the number of the index.
#[derive(Debug, PartialEq, Eq)]
pub struct ProviderIndexes<'a> {
    values: Vec<Option<Number<'a>>>,
}

impl<'a> View for ProviderIndexes<'a> {
    type V = Seq<Option<Seq<u8>>>;

    closed spec fn view(&self) -> Seq<Option<Seq<u8>>> {
        literals(self.values@)
    }
}

impl<'a> ProviderIndexes<'a> {
    #[verifier::type_invariant]
    closed spec fn has_every_kind(&self) -> bool {
        self.values@.len() == INDEX_COUNT
    }

    /// The value of the index with the number `kind`.
    pub fn get(&self, kind: usize) -> (r: Option<Number<'a>>)
        requires
            kind < INDEX_COUNT,
        ensures
            self@.len() == INDEX_COUNT,
            literal_of(r) == self@[kind as int],
    {
        proof {
            use_type_invariant(self);
        }
        self.values[kind]
    }

    /// The value of the index that `name` names, if it names one.
    pub fn lookup(&self, name: &str) -> (r: Option<Number<'a>>)
        ensures
            self@.len() == INDEX_COUNT,
            literal_of(r) == match kind_of(name.spec_bytes()) {
                Some(kind) => self@[kind],
                None => None,
            },
    {
        proof {
            use_type_invariant(self);
        }
        match find_kind(name.as_bytes()) {
            Some(kind) => self.values[kind],
            None => None,
        }
    }
}

/// Reads the indices from the second section of a report. A line whose label
/// names no index, or whose value is no number, is passed over; of two lines
/// for one index the later one counts.
pub fn parse_indexes<'a>(text: &'a str) -> (r: ProviderIndexes<'a>)
    ensures
        r@ == provider_indexes(text.spec_bytes()),
{
    let lines = split_lines(text.as_bytes());
    let ghost all = lines_of(text.spec_bytes());
    let mut values: Vec<Option<Number<'a>>> = Vec::new();
    while values.len() < INDEX_COUNT
        invariant
            values@.len() <= INDEX_COUNT,
            forall|k: int| 0 <= k < values@.len() ==> (#[trigger] values@[k]) is None,
        decreases INDEX_COUNT - values@.len(),
    {
        values.push(None);
    }
    let mut i: usize = 0;
    while i < lines.len()
        invariant
            i <= lines@.len(),
            slice_views(lines@) == all,
            values@.len() == INDEX_COUNT,
            forall|k: int|
                0 <= k < INDEX_COUNT ==> literal_of(#[trigger] values@[k]) == index_value(
                    all.take(i as int),
                    k,
                ),
        decreases lines@.len() - i,
    {
        let ghost before = all.take(i as int);
        let ghost after = all.take(i + 1);
        proof {
            assert(after.drop_last() =~= before);
            assert(after.last() == lines@[i as int]@);
        }
        match split_entry(lines[i]) {
            Some((label, value)) => {
                match find_kind(label) {
                    Some(kind) => {
                        match Number::read(value) {
                            Some(number) => {
                                values.set(kind, Some(number));
                            },
                            None => {},
                        }
                    },
                    None => {},
                }
            },
            None => {},
        }
        i += 1;
    }
    proof {
        assert(all.take(i as int) =~= all);
        assert(literals(values@) =~= provider_indexes(text.spec_bytes()));
    }
    ProviderIndexes { values }
}

} // verus!
