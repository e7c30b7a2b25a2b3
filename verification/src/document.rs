//! Pages put together from reports, and what the library reads back from
//! them.

use crate::bytes::{lemma_first_of_two_is, spec_first_of_two, spec_occurs_at};
use crate::parse_section::{spec_parse, Report};
use crate::sounding_iter::reports;
use crate::text_iter::{
    after_section, close_marker, closes_at, lemma_markers, lemma_next_pair_bounds, next_pair,
    next_section, open_marker, opens_at, section_pairs, SectionPair,
};
use vstd::prelude::*;

verus! {

/// An opening marker stands somewhere in `s`.
pub open spec fn holds_open(s: Seq<u8>) -> bool {
    exists|i: int| opens_at(s, i)
}

/// A closing marker stands somewhere in `s`.
pub open spec fn holds_close(s: Seq<u8>) -> bool {
    exists|i: int| closes_at(s, i)
}

/// A marked section as it stands in a page: the text that leads up to it,
/// its opening marker, its body and its closing marker. Each marker is
/// written in small letters or in capitals.
pub open spec fn section_text(
    lead: Seq<u8>,
    small_open: bool,
    body: Seq<u8>,
    small_close: bool,
) -> Seq<u8> {
    lead + open_marker(small_open) + body + close_marker(small_close)
}

/// One report as it stands in a page.
pub struct ReportText {
    /// What stands before the first section.
    pub lead: Seq<u8>,
    /// The body of the first section.
    pub upper_air: Seq<u8>,
    /// What stands between the two sections.
    pub gap: Seq<u8>,
    /// The body of the second section.
    pub stn_info_and_indexes: Seq<u8>,
    /// Whether each of the four markers is written in small letters, in the
    /// order in which they stand.
    pub small: (bool, bool, bool, bool),
}

impl ReportText {
    /// The markers of the report are the first ones a reader meets: no
    /// opening marker stands before a section, and no closing marker in a
    /// body.
    pub open spec fn wf(&self) -> bool {
        &&& !holds_open(self.lead)
        &&& !holds_close(self.upper_air)
        &&& !holds_open(self.gap)
        &&& !holds_close(self.stn_info_and_indexes)
    }

    /// The bytes of the report.
    pub open spec fn text(&self) -> Seq<u8> {
        section_text(self.lead, self.small.0, self.upper_air, self.small.1) + section_text(
            self.gap,
            self.small.2,
            self.stn_info_and_indexes,
            self.small.3,
        )
    }

    /// The two bodies of the report.
    pub open spec fn pair(&self) -> SectionPair {
        SectionPair {
            upper_air: self.upper_air,
            stn_info_and_indexes: self.stn_info_and_indexes,
        }
    }

    /// The two reports differ in the letters of their markers at most.
    pub open spec fn same_words(&self, other: ReportText) -> bool {
        &&& self.lead == other.lead
        &&& self.upper_air == other.upper_air
        &&& self.gap == other.gap
        &&& self.stn_info_and_indexes == other.stn_info_and_indexes
    }
}

/// The page that holds the given reports one after the other, and `tail`
/// after the last.
pub open spec fn page(blocks: Seq<ReportText>, tail: Seq<u8>) -> Seq<u8>
    decreases blocks.len(),
{
    if blocks.len() == 0 {
        tail
    } else {
        blocks[0].text() + page(blocks.drop_first(), tail)
    }
}

/// The bodies of the given reports.
pub open spec fn pairs_of(blocks: Seq<ReportText>) -> Seq<SectionPair> {
    Seq::new(blocks.len(), |i: int| blocks[i].pair())
}

/// The reports that a list of pairs of sections holds, in its order.
pub open spec fn reports_of_pairs(pairs: Seq<SectionPair>, source_description: Seq<char>) -> Seq<
    Report,
>
    decreases pairs.len(),
{
    if pairs.len() == 0 {
        Seq::empty()
    } else {
        match spec_parse(pairs[0], source_description) {
            Some(report) => seq![report] + reports_of_pairs(
                pairs.drop_first(),
                source_description,
            ),
            None => reports_of_pairs(pairs.drop_first(), source_description),
        }
    }
}

/// Each marker begins with the sign `<`, which stands nowhere else in it.
/// Opening markers have five bytes, closing markers six.
pub proof fn lemma_marker_shape(small: bool)
    ensures
        open_marker(small).len() == 5,
        close_marker(small).len() == 6,
        open_marker(small)[0] == 0x3c,
        close_marker(small)[0] == 0x3c,
        forall|k: int| 1 <= k < 5 ==> #[trigger] open_marker(small)[k] != 0x3c,
        forall|k: int| 1 <= k < 6 ==> #[trigger] close_marker(small)[k] != 0x3c,
{
    lemma_markers();
}

/// A marker cannot begin in `part`, which stands in `s` at `base`, where
/// `part` holds none whole and the byte after `part` is the sign that only
/// begins a marker.
proof fn lemma_no_marker_before(s: Seq<u8>, base: int, part: Seq<u8>, at: int, marker: Seq<u8>)
    requires
        0 <= base,
        0 <= at < part.len(),
        base + part.len() < s.len(),
        forall|k: int| 0 <= k < part.len() ==> s[base + k] == #[trigger] part[k],
        s[base + part.len()] == 0x3c,
        forall|k: int| 1 <= k < marker.len() ==> #[trigger] marker[k] != 0x3c,
        !spec_occurs_at(part, at, marker),
    ensures
        !spec_occurs_at(s, base + at, marker),
{
    if spec_occurs_at(s, base + at, marker) {
        if at + marker.len() <= part.len() {
            assert forall|k: int| 0 <= k < marker.len() implies part[at + k]
                == #[trigger] marker[k] by {
                assert(s[base + at + k] == marker[k]);
                assert(part[at + k] == s[base + (at + k)]);
            }
        } else {
            let k = part.len() - at;
            assert(s[base + at + k] == marker[k]);
        }
    }
}

/// Where `part` stands in `s` at `base` and holds neither `a` nor `b`, and
/// one of the two stands right after it, that one is the first to be found
/// from `base` on.
proof fn lemma_marker_found(s: Seq<u8>, base: int, part: Seq<u8>, a: Seq<u8>, b: Seq<u8>)
    requires
        0 <= base,
        base + part.len() < s.len(),
        forall|k: int| 0 <= k < part.len() ==> s[base + k] == #[trigger] part[k],
        spec_occurs_at(s, base + part.len(), a) || spec_occurs_at(s, base + part.len(), b),
        s[base + part.len()] == 0x3c,
        forall|k: int| 1 <= k < a.len() ==> #[trigger] a[k] != 0x3c,
        forall|k: int| 1 <= k < b.len() ==> #[trigger] b[k] != 0x3c,
        forall|i: int| !spec_occurs_at(part, i, a) && !spec_occurs_at(part, i, b),
    ensures
        spec_first_of_two(s, base, a, b) == base + part.len(),
{
    assert forall|i: int| base <= i < base + part.len() implies !spec_occurs_at(s, i, a)
        && !spec_occurs_at(s, i, b) by {
        lemma_no_marker_before(s, base, part, i - base, a);
        lemma_no_marker_before(s, base, part, i - base, b);
    }
    lemma_first_of_two_is(s, base, a, b, base + part.len());
}

/// The places of the parts of a text that starts with a section.
proof fn lemma_section_layout(
    lead: Seq<u8>,
    open: Seq<u8>,
    body: Seq<u8>,
    close: Seq<u8>,
    tail: Seq<u8>,
)
    ensures
        ({
            let s = lead + open + body + close + tail;
            let at = lead.len() as int;
            let start = at + open.len();
            let end = start + body.len();
            &&& s.len() == end + close.len() + tail.len()
            &&& forall|k: int| 0 <= k < lead.len() ==> s[0 + k] == #[trigger] lead[k]
            &&& forall|k: int| 0 <= k < body.len() ==> s[start + k] == #[trigger] body[k]
            &&& spec_occurs_at(s, at, open)
            &&& spec_occurs_at(s, end, close)
            &&& s.subrange(start, end) == body
            &&& s.subrange(end + close.len(), s.len() as int) == tail
        }),
{
    let s = lead + open + body + close + tail;
    let at = lead.len() as int;
    let start = at + open.len();
    let end = start + body.len();
    assert forall|k: int| 0 <= k < open.len() implies s[at + k] == #[trigger] open[k] by {}
    assert forall|k: int| 0 <= k < close.len() implies s[end + k] == #[trigger] close[k] by {}
    assert(s.subrange(start, end) =~= body);
    assert(s.subrange(end + close.len(), s.len() as int) =~= tail);
}

/// A section that is written out with nothing in its way is the first
/// section found in the text that starts with it, and the search goes on in
/// what follows it.
pub proof fn lemma_section_found(
    lead: Seq<u8>,
    small_open: bool,
    body: Seq<u8>,
    small_close: bool,
    tail: Seq<u8>,
)
    requires
        !holds_open(lead),
        !holds_close(body),
    ensures
        ({
            let s = section_text(lead, small_open, body, small_close) + tail;
            let start = lead.len() + 5;
            let end = start + body.len();
            &&& next_section(s) == Some((start as int, end as int))
            &&& s.subrange(start as int, end as int) == body
            &&& after_section(s, end as int) == tail
        }),
{
    lemma_marker_shape(false);
    lemma_marker_shape(true);
    let open = open_marker(small_open);
    let close = close_marker(small_close);
    let s = section_text(lead, small_open, body, small_close) + tail;
    let at = lead.len() as int;
    let start = at + 5;
    let end = start + body.len();
    lemma_section_layout(lead, open, body, close, tail);
    assert(s[at + 0] == open[0]);
    assert(s[end + 0] == close[0]);
    assert forall|i: int|
        !spec_occurs_at(lead, i, open_marker(false)) && !spec_occurs_at(
            lead,
            i,
            open_marker(true),
        ) by {
        assert(!opens_at(lead, i));
    }
    assert forall|i: int|
        !spec_occurs_at(body, i, close_marker(false)) && !spec_occurs_at(
            body,
            i,
            close_marker(true),
        ) by {
        assert(!closes_at(body, i));
    }
    lemma_marker_found(s, 0, lead, open_marker(false), open_marker(true));
    lemma_marker_found(s, start, body, close_marker(false), close_marker(true));
}

/// A report that is written out with nothing in its way is the first pair
/// of sections found in the text that starts with it.
pub proof fn lemma_report_found(block: ReportText, tail: Seq<u8>)
    requires
        block.wf(),
    ensures
        next_pair(block.text() + tail) == Some((block.pair(), tail)),
{
    let second = section_text(
        block.gap,
        block.small.2,
        block.stn_info_and_indexes,
        block.small.3,
    );
    let first = section_text(block.lead, block.small.0, block.upper_air, block.small.1);
    let s = block.text() + tail;
    assert(s =~= first + (second + tail));
    lemma_section_found(
        block.lead,
        block.small.0,
        block.upper_air,
        block.small.1,
        second + tail,
    );
    lemma_section_found(
        block.gap,
        block.small.2,
        block.stn_info_and_indexes,
        block.small.3,
        tail,
    );
}

/// A page that is put together from reports holds their pairs of sections,
/// as many as there are reports and in their order, and after them the pairs
/// of what follows the last report.
pub proof fn lemma_pairs_of_page(blocks: Seq<ReportText>, tail: Seq<u8>)
    requires
        forall|i: int| 0 <= i < blocks.len() ==> (#[trigger] blocks[i]).wf(),
    ensures
        section_pairs(page(blocks, tail)) == pairs_of(blocks) + section_pairs(tail),
    decreases blocks.len(),
{
    if blocks.len() == 0 {
        assert(pairs_of(blocks) + section_pairs(tail) =~= section_pairs(tail));
    } else {
        let rest = page(blocks.drop_first(), tail);
        assert(blocks[0].wf());
        lemma_report_found(blocks[0], rest);
        assert forall|i: int| 0 <= i < blocks.drop_first().len() implies (
        #[trigger] blocks.drop_first()[i]).wf() by {
            assert(blocks[i + 1].wf());
        }
        lemma_pairs_of_page(blocks.drop_first(), tail);
        assert(seq![blocks[0].pair()] + (pairs_of(blocks.drop_first()) + section_pairs(tail))
            =~= pairs_of(blocks) + section_pairs(tail));
    }
}

/// The reports of a page are those of its pairs of sections.
pub proof fn lemma_reports_by_pairs(text: Seq<u8>, source_description: Seq<char>)
    ensures
        reports(text, source_description) == reports_of_pairs(
            section_pairs(text),
            source_description,
        ),
    decreases text.len(),
{
    lemma_next_pair_bounds(text);
    if let Some((pair, rest)) = next_pair(text) {
        lemma_reports_by_pairs(rest, source_description);
        assert(section_pairs(text).drop_first() =~= section_pairs(rest));
    }
}

/// Where every pair of a list holds a report, the reports of the list are
/// those, one for each pair and in the order of the pairs.
pub proof fn lemma_every_pair_reports(pairs: Seq<SectionPair>, source_description: Seq<char>)
    requires
        forall|i: int|
            0 <= i < pairs.len() ==> spec_parse(#[trigger] pairs[i], source_description) is Some,
    ensures
        reports_of_pairs(pairs, source_description).len() == pairs.len(),
        forall|i: int|
            0 <= i < pairs.len() ==> Some(
                #[trigger] reports_of_pairs(pairs, source_description)[i],
            ) == spec_parse(pairs[i], source_description),
    decreases pairs.len(),
{
    if pairs.len() > 0 {
        let rest = pairs.drop_first();
        assert forall|i: int| 0 <= i < rest.len() implies spec_parse(
            #[trigger] rest[i],
            source_description,
        ) is Some by {
            assert(rest[i] == pairs[i + 1]);
        }
        lemma_every_pair_reports(rest, source_description);
        assert(spec_parse(pairs[0], source_description) is Some);
        assert forall|i: int| 0 <= i < pairs.len() implies Some(
            #[trigger] reports_of_pairs(pairs, source_description)[i],
        ) == spec_parse(pairs[i], source_description) by {
            if i > 0 {
                assert(rest[i - 1] == pairs[i]);
                assert(reports_of_pairs(pairs, source_description)[i] == reports_of_pairs(
                    rest,
                    source_description,
                )[i - 1]);
            }
        }
    }
}

/// A page made of `blocks.len()` reports, each of which holds a sounding,
/// and of nothing else that holds a pair of sections, gives exactly that
/// many soundings, in the order of the reports.
pub proof fn lemma_page_gives_every_report(
    blocks: Seq<ReportText>,
    tail: Seq<u8>,
    source_description: Seq<char>,
)
    requires
        forall|i: int| 0 <= i < blocks.len() ==> (#[trigger] blocks[i]).wf(),
        forall|i: int|
            0 <= i < blocks.len() ==> spec_parse(
                (#[trigger] blocks[i]).pair(),
                source_description,
            ) is Some,
        section_pairs(tail).len() == 0,
    ensures
        reports(page(blocks, tail), source_description).len() == blocks.len(),
        forall|i: int|
            0 <= i < blocks.len() ==> Some(
                #[trigger] reports(page(blocks, tail), source_description)[i],
            ) == spec_parse(blocks[i].pair(), source_description),
{
    lemma_pairs_of_page(blocks, tail);
    lemma_reports_by_pairs(page(blocks, tail), source_description);
    let pairs = pairs_of(blocks);
    assert(section_pairs(page(blocks, tail)) =~= pairs);
    assert forall|i: int| 0 <= i < pairs.len() implies spec_parse(
        #[trigger] pairs[i],
        source_description,
    ) is Some by {
        assert(blocks[i].wf());
    }
    lemma_every_pair_reports(pairs, source_description);
}

/// The letters in which the markers are written do not matter: two pages
/// that differ in them alone hold the same pairs of sections and give the
/// same soundings, and so equally many.
pub proof fn lemma_letters_of_markers(
    a: Seq<ReportText>,
    b: Seq<ReportText>,
    tail: Seq<u8>,
    source_description: Seq<char>,
)
    requires
        a.len() == b.len(),
        forall|i: int| 0 <= i < a.len() ==> (#[trigger] a[i]).wf(),
        forall|i: int| 0 <= i < a.len() ==> (#[trigger] a[i]).same_words(b[i]),
    ensures
        section_pairs(page(a, tail)) == section_pairs(page(b, tail)),
        reports(page(a, tail), source_description) == reports(page(b, tail), source_description),
        reports(page(a, tail), source_description).len() == reports(
            page(b, tail),
            source_description,
        ).len(),
{
    assert forall|i: int| 0 <= i < b.len() implies (#[trigger] b[i]).wf() by {
        assert(a[i].wf() && a[i].same_words(b[i]));
    }
    lemma_pairs_of_page(a, tail);
    lemma_pairs_of_page(b, tail);
    assert(pairs_of(a) =~= pairs_of(b)) by {
        assert forall|i: int| 0 <= i < a.len() implies a[i].pair() == b[i].pair() by {
            assert(a[i].same_words(b[i]));
        }
    }
    lemma_reports_by_pairs(page(a, tail), source_description);
    lemma_reports_by_pairs(page(b, tail), source_description);
}

} // verus!
