//! Breaks a page up into the marked sections that hold its reports, two to a
//! report, and hands the pairs out one by one.

use crate::bytes::{first_of_two, lemma_first_of_two, spec_first_of_two, spec_occurs_at};
use vstd::prelude::*;
use vstd::string::StringSliceAdditionalSpecFns;
use vstd::utf8::*;

verus! {

/// The marker that opens a section, in capital or in small letters.
pub open spec fn open_marker(small: bool) -> Seq<u8> {
    if small {
        "<pre>".spec_bytes()
    } else {
        "<PRE>".spec_bytes()
    }
}

/// The marker that closes a section, in capital or in small letters.
pub open spec fn close_marker(small: bool) -> Seq<u8> {
    if small {
        "</pre>".spec_bytes()
    } else {
        "</PRE>".spec_bytes()
    }
}

/// The bytes of the four markers.
pub proof fn lemma_markers()
    ensures
        open_marker(false) == seq![0x3cu8, 0x50, 0x52, 0x45, 0x3e],
        open_marker(true) == seq![0x3cu8, 0x70, 0x72, 0x65, 0x3e],
        close_marker(false) == seq![0x3cu8, 0x2f, 0x50, 0x52, 0x45, 0x3e],
        close_marker(true) == seq![0x3cu8, 0x2f, 0x70, 0x72, 0x65, 0x3e],
{
    reveal_strlit("<PRE>");
    reveal_strlit("<pre>");
    reveal_strlit("</PRE>");
    reveal_strlit("</pre>");
    vstd::string::is_ascii_spec_bytes("<PRE>");
    vstd::string::is_ascii_spec_bytes("<pre>");
    vstd::string::is_ascii_spec_bytes("</PRE>");
    vstd::string::is_ascii_spec_bytes("</pre>");
    assert(open_marker(false) =~= seq![0x3cu8, 0x50, 0x52, 0x45, 0x3e]);
    assert(open_marker(true) =~= seq![0x3cu8, 0x70, 0x72, 0x65, 0x3e]);
    assert(close_marker(false) =~= seq![0x3cu8, 0x2f, 0x50, 0x52, 0x45, 0x3e]);
    assert(close_marker(true) =~= seq![0x3cu8, 0x2f, 0x70, 0x72, 0x65, 0x3e]);
}

/// An opening marker stands in `s` at offset `at`.
pub open spec fn opens_at(s: Seq<u8>, at: int) -> bool {
    spec_occurs_at(s, at, open_marker(false)) || spec_occurs_at(s, at, open_marker(true))
}

/// A closing marker stands in `s` at offset `at`.
pub open spec fn closes_at(s: Seq<u8>, at: int) -> bool {
    spec_occurs_at(s, at, close_marker(false)) || spec_occurs_at(s, at, close_marker(true))
}

/// Offset of the first opening marker of `s` at or after `from`, or `s.len()`.
pub open spec fn first_open(s: Seq<u8>, from: int) -> int {
    spec_first_of_two(s, from, open_marker(false), open_marker(true))
}

/// Offset of the first closing marker of `s` at or after `from`, or `s.len()`.
pub open spec fn first_close(s: Seq<u8>, from: int) -> int {
    spec_first_of_two(s, from, close_marker(false), close_marker(true))
}

/// The first marked section of `s`, as the offsets where its body starts and
/// ends: the body starts after the first opening marker and ends before the
/// first closing marker that follows. `None` where either marker is missing.
pub open spec fn next_section(s: Seq<u8>) -> Option<(int, int)> {
    let start = first_open(s, 0) + 5;
    if first_open(s, 0) < s.len() && first_close(s, start) < s.len() {
        Some((start, first_close(s, start)))
    } else {
        None
    }
}

/// The two bodies of a report: the table of levels, and the block with the
/// station, the time and the indices.
pub struct SectionPair {
    pub upper_air: Seq<u8>,
    pub stn_info_and_indexes: Seq<u8>,
}

/// What is left of `s` after the section whose body ends at `end`.
pub open spec fn after_section(s: Seq<u8>, end: int) -> Seq<u8> {
    s.subrange(end + 6, s.len() as int)
}

/// The first two marked sections of `s` as a pair, and what is left of `s`
/// after them. `None` where `s` does not hold two whole sections.
pub open spec fn next_pair(s: Seq<u8>) -> Option<(SectionPair, Seq<u8>)> {
    match next_section(s) {
        Some((start, end)) => {
            let rest = after_section(s, end);
            match next_section(rest) {
                Some((start2, end2)) => Some(
                    (
                        SectionPair {
                            upper_air: s.subrange(start, end),
                            stn_info_and_indexes: rest.subrange(start2, end2),
                        },
                        after_section(rest, end2),
                    ),
                ),
                None => None,
            }
        },
        None => None,
    }
}

/// The pairs of sections of `s`, in the order in which they stand.
pub open spec fn section_pairs(s: Seq<u8>) -> Seq<SectionPair>
    decreases s.len(),
{
    match next_pair(s) {
        Some((pair, rest)) => {
            proof {
                lemma_next_pair_bounds(s);
            }
            seq![pair] + section_pairs(rest)
        },
        None => Seq::empty(),
    }
}

/// A section lies inside the text, with room for its two markers.
pub proof fn lemma_next_section_bounds(s: Seq<u8>)
    ensures
        next_section(s) matches Some((start, end)) ==> 5 <= start <= end && end + 6 <= s.len()
            && opens_at(s, start - 5) && closes_at(s, end),
{
    lemma_markers();
    lemma_first_of_two(s, 0, open_marker(false), open_marker(true));
    let start = first_open(s, 0) + 5;
    if first_open(s, 0) < s.len() {
        lemma_first_of_two(s, start, close_marker(false), close_marker(true));
    }
}

/// What is left after a pair is shorter than the text that held the pair.
pub proof fn lemma_next_pair_bounds(s: Seq<u8>)
    ensures
        next_pair(s) matches Some((pair, rest)) ==> rest.len() < s.len(),
{
    lemma_next_section_bounds(s);
    if let Some((start, end)) = next_section(s) {
        lemma_next_section_bounds(after_section(s, end));
    }
}

proof fn lemma_boundary_at_ascii(bytes: Seq<u8>, i: int)
    requires
        valid_utf8(bytes),
        0 <= i < bytes.len(),
        bytes[i] < 0x80,
    ensures
        is_char_boundary(bytes, i),
        is_char_boundary(bytes, i + 1),
{
    is_char_boundary_iff_not_is_continuation_byte(bytes, i);
    if i + 1 == bytes.len() {
        is_char_boundary_start_end_of_seq(bytes);
    } else {
        valid_utf8_split(bytes, i);
        let suffix = bytes.subrange(i, bytes.len() as int);
        assert(suffix[0] == bytes[i]);
        assert(suffix[1] == bytes[i + 1]);
        assert(valid_utf8(suffix));
        assert(length_of_first_scalar(suffix) == 1);
        assert(valid_utf8(pop_first_scalar(suffix)));
        assert(is_char_boundary(suffix, 1)) by {
            reveal_with_fuel(is_char_boundary, 2);
        }
        is_char_boundary_iff_not_is_continuation_byte(suffix, 1);
        is_char_boundary_iff_not_is_continuation_byte(bytes, i + 1);
    }
}

/// The part of `s` between two offsets at which characters start or end.
fn part<'a>(s: &'a str, from: usize, to: usize) -> (r: &'a str)
    requires
        from <= to <= s.spec_bytes().len(),
        is_char_boundary(s.spec_bytes(), from as int),
        is_char_boundary(s.spec_bytes(), to as int),
    ensures
        r.spec_bytes() == s.spec_bytes().subrange(from as int, to as int),
{
    let (head, _) = s.split_at(to);
    proof {
        let bytes = s.spec_bytes();
        encode_utf8_valid_utf8(s@);
        encode_utf8_valid_utf8(head@);
        if from == to {
            is_char_boundary_start_end_of_seq(head.spec_bytes());
        } else if from > 0 {
            is_char_boundary_iff_not_is_continuation_byte(bytes, from as int);
            assert(head.spec_bytes()[from as int] == bytes[from as int]);
            is_char_boundary_iff_not_is_continuation_byte(head.spec_bytes(), from as int);
        }
    }
    let (_, r) = head.split_at(from);
    proof {
        assert(r.spec_bytes() =~= s.spec_bytes().subrange(from as int, to as int));
    }
    r
}

/// The text of one report: its two sections.
#[derive(Clone, Copy, Debug)]
pub struct SoundingText<'a> {
    pub upper_air: &'a str,
    pub stn_info_and_indexes: &'a str,
}

impl<'a> View for SoundingText<'a> {
    type V = SectionPair;

    open spec fn view(&self) -> SectionPair {
        SectionPair {
            upper_air: self.upper_air.spec_bytes(),
            stn_info_and_indexes: self.stn_info_and_indexes.spec_bytes(),
        }
    }
}

/// A walk over the reports of a page. Its view is the text not yet walked.
pub struct SoundingTextIterator<'a> {
    remaining: &'a str,
}

impl<'a> View for SoundingTextIterator<'a> {
    type V = Seq<u8>;

    closed spec fn view(&self) -> Seq<u8> {
        self.remaining.spec_bytes()
    }
}

/// Starts a walk over the reports of `text`.
pub fn create_text_section_iterator<'a>(text: &'a str) -> (r: SoundingTextIterator<'a>)
    ensures
        r@ == text.spec_bytes(),
{
    SoundingTextIterator { remaining: text }
}

/// Finds the first marked section of `source`. Gives its body and the offset
/// just past its closing marker, from which a search for the next section
/// starts.
pub fn find_next_pre_section<'a>(source: &'a str) -> (r: Option<(&'a str, usize)>)
    ensures
        match next_section(source.spec_bytes()) {
            Some((start, end)) => r matches Some((body, after)) && body.spec_bytes()
                == source.spec_bytes().subrange(start, end) && after == end + 6
                && is_char_boundary(source.spec_bytes(), after as int),
            None => r is None,
        },
{
    let bytes = source.as_bytes();
    proof {
        lemma_markers();
        lemma_next_section_bounds(bytes@);
        encode_utf8_valid_utf8(source@);
    }
    let open: usize = first_of_two(bytes, 0, "<PRE>".as_bytes(), "<pre>".as_bytes());
    if open >= bytes.len() {
        return None;
    }
    proof {
        lemma_first_of_two(bytes@, 0, open_marker(false), open_marker(true));
    }
    let start: usize = open + 5;
    let end: usize = first_of_two(bytes, start, "</PRE>".as_bytes(), "</pre>".as_bytes());
    if end >= bytes.len() {
        return None;
    }
    proof {
        lemma_first_of_two(bytes@, start as int, close_marker(false), close_marker(true));
        assert(bytes@[open + 4] == open_marker(false)[4] || bytes@[open + 4] == open_marker(
            true,
        )[4]);
        assert(bytes@[end + 0] == close_marker(false)[0] || bytes@[end + 0] == close_marker(
            true,
        )[0]);
        assert(bytes@[end + 5] == close_marker(false)[5] || bytes@[end + 5] == close_marker(
            true,
        )[5]);
        lemma_boundary_at_ascii(bytes@, open + 4);
        lemma_boundary_at_ascii(bytes@, end as int);
        lemma_boundary_at_ascii(bytes@, end + 5);
    }
    Some((part(source, start, end), end + 6))
}

impl<'a> SoundingTextIterator<'a> {
    /// Hands out the next report and moves past it. Where the text left holds
    /// no two whole sections, gives `None` and stays where it is, so that
    /// every later call gives `None` too.
    pub fn next(&mut self) -> (r: Option<SoundingText<'a>>)
        ensures
            match next_pair(old(self)@) {
                Some((pair, rest)) => r matches Some(text) && text@.upper_air == pair.upper_air
                    && text@.stn_info_and_indexes == pair.stn_info_and_indexes && final(self)@
                    == rest,
                None => r is None && final(self)@ == old(self)@,
            },
    {
        let source = self.remaining;
        let (upper_air, after) = match find_next_pre_section(source) {
            Some(found) => found,
            None => {
                return None;
            },
        };
        proof {
            lemma_next_section_bounds(source.spec_bytes());
            encode_utf8_valid_utf8(source@);
            is_char_boundary_start_end_of_seq(source.spec_bytes());
        }
        let rest = part(source, after, source.as_bytes().len());
        let (stn_info_and_indexes, after) = match find_next_pre_section(rest) {
            Some(found) => found,
            None => {
                return None;
            },
        };
        proof {
            lemma_next_section_bounds(rest.spec_bytes());
            encode_utf8_valid_utf8(rest@);
            is_char_boundary_start_end_of_seq(rest.spec_bytes());
        }
        self.remaining = part(rest, after, rest.as_bytes().len());
        Some(SoundingText { upper_air, stn_info_and_indexes })
    }

    /// Number of bytes not yet walked.
    pub fn remaining_len(&self) -> (n: usize)
        ensures
            n == self@.len(),
    {
        self.remaining.as_bytes().len()
    }

    /// Walks to the end and gives the number of reports passed.
    pub fn count(self) -> (n: usize)
        ensures
            n == section_pairs(self@).len(),
    {
        let mut iter = self;
        let mut n: usize = 0;
        let ghost total = self@.len();
        let bound: usize = iter.remaining.as_bytes().len();
        loop
            invariant
                n + section_pairs(iter@).len() == section_pairs(self@).len(),
                n + iter@.len() <= total,
                total == bound,
            ensures
                n == section_pairs(self@).len(),
            decreases iter@.len(),
        {
            proof {
                lemma_next_pair_bounds(iter@);
            }
            match iter.next() {
                Some(_) => {
                    n += 1;
                },
                None => {
                    break ;
                },
            }
        }
        n
    }
}

} // verus!
