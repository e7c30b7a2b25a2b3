//! Searching, trimming and line splitting on byte strings.

use vstd::prelude::*;
use vstd::slice::slice_subrange;

verus! {

/// `needle` stands in `hay` at offset `at`.
pub open spec fn spec_occurs_at(hay: Seq<u8>, at: int, needle: Seq<u8>) -> bool {
    &&& 0 <= at
    &&& at + needle.len() <= hay.len()
    &&& forall|k: int| 0 <= k < needle.len() ==> hay[at + k] == #[trigger] needle[k]
}

/// Offset of the first place at or after `from` where `a` or `b` stands in
/// `hay`, or `hay.len()` where neither does.
pub open spec fn spec_first_of_two(hay: Seq<u8>, from: int, a: Seq<u8>, b: Seq<u8>) -> int
    decreases hay.len() - from,
{
    if from < 0 || from >= hay.len() {
        hay.len() as int
    } else if spec_occurs_at(hay, from, a) || spec_occurs_at(hay, from, b) {
        from
    } else {
        spec_first_of_two(hay, from + 1, a, b)
    }
}

/// Offset of the first occurrence of `needle` in `hay` at or after `from`, or
/// `hay.len()` where there is none.
pub open spec fn spec_first_occurrence(hay: Seq<u8>, from: int, needle: Seq<u8>) -> int {
    spec_first_of_two(hay, from, needle, needle)
}

/// Offset of the first byte equal to `byte` at or after `from`, or `s.len()`.
pub open spec fn spec_first_byte(s: Seq<u8>, from: int, byte: u8) -> int
    decreases s.len() - from,
{
    if from < 0 || from >= s.len() {
        s.len() as int
    } else if s[from] == byte {
        from
    } else {
        spec_first_byte(s, from + 1, byte)
    }
}

/// What `spec_first_of_two` finds is the least offset where one of the two
/// needles stands.
pub proof fn lemma_first_of_two(hay: Seq<u8>, from: int, a: Seq<u8>, b: Seq<u8>)
    requires
        0 <= from <= hay.len(),
    ensures
        from <= spec_first_of_two(hay, from, a, b) <= hay.len(),
        spec_first_of_two(hay, from, a, b) < hay.len() ==> (spec_occurs_at(
            hay,
            spec_first_of_two(hay, from, a, b),
            a,
        ) || spec_occurs_at(hay, spec_first_of_two(hay, from, a, b), b)),
        forall|i: int|
            from <= i < spec_first_of_two(hay, from, a, b) ==> !spec_occurs_at(hay, i, a)
                && !spec_occurs_at(hay, i, b),
    decreases hay.len() - from,
{
    if from < hay.len() && !(spec_occurs_at(hay, from, a) || spec_occurs_at(hay, from, b)) {
        lemma_first_of_two(hay, from + 1, a, b);
    }
}

/// The least offset where one of the two needles stands is what
/// `spec_first_of_two` finds.
pub proof fn lemma_first_of_two_is(hay: Seq<u8>, from: int, a: Seq<u8>, b: Seq<u8>, at: int)
    requires
        0 <= from <= at < hay.len(),
        spec_occurs_at(hay, at, a) || spec_occurs_at(hay, at, b),
        forall|i: int| from <= i < at ==> !spec_occurs_at(hay, i, a) && !spec_occurs_at(hay, i, b),
    ensures
        spec_first_of_two(hay, from, a, b) == at,
    decreases at - from,
{
    if from < at {
        lemma_first_of_two_is(hay, from + 1, a, b, at);
    }
}

/// What `spec_first_byte` finds is the least offset that holds `byte`.
pub proof fn lemma_first_byte(s: Seq<u8>, from: int, byte: u8)
    requires
        0 <= from <= s.len(),
    ensures
        from <= spec_first_byte(s, from, byte) <= s.len(),
        spec_first_byte(s, from, byte) < s.len() ==> s[spec_first_byte(s, from, byte)] == byte,
        forall|i: int| from <= i < spec_first_byte(s, from, byte) ==> s[i] != byte,
    decreases s.len() - from,
{
    if from < s.len() && s[from] != byte {
        lemma_first_byte(s, from + 1, byte);
    }
}

/// Tells whether `needle` stands in `hay` at offset `at`.
pub fn occurs_at(hay: &[u8], at: usize, needle: &[u8]) -> (r: bool)
    ensures
        r == spec_occurs_at(hay@, at as int, needle@),
{
    if needle.len() > hay.len() || at > hay.len() - needle.len() {
        return false;
    }
    let mut k: usize = 0;
    while k < needle.len()
        invariant
            at + needle.len() <= hay.len(),
            k <= needle.len(),
            forall|j: int| 0 <= j < k ==> hay@[at + j] == #[trigger] needle@[j],
        decreases needle.len() - k,
    {
        if hay[at + k] != needle[k] {
            return false;
        }
        k += 1;
    }
    true
}

/// Tells whether two byte strings are equal.
pub fn same_bytes(a: &[u8], b: &[u8]) -> (r: bool)
    ensures
        r == (a@ == b@),
{
    if a.len() != b.len() {
        return false;
    }
    let r = occurs_at(a, 0, b);
    proof {
        if r {
            assert(a@ =~= b@);
        }
    }
    r
}

/// Finds the first place at or after `from` where `a` or `b` stands in `hay`.
pub fn first_of_two(hay: &[u8], from: usize, a: &[u8], b: &[u8]) -> (r: usize)
    requires
        from <= hay.len(),
    ensures
        r == spec_first_of_two(hay@, from as int, a@, b@),
        from <= r <= hay.len(),
{
    let mut i: usize = from;
    while i < hay.len()
        invariant
            from <= i <= hay.len(),
            spec_first_of_two(hay@, from as int, a@, b@) == spec_first_of_two(
                hay@,
                i as int,
                a@,
                b@,
            ),
        decreases hay.len() - i,
    {
        if occurs_at(hay, i, a) || occurs_at(hay, i, b) {
            return i;
        }
        i += 1;
    }
    i
}

/// Finds the first occurrence of `needle` in `hay` at or after `from`.
pub fn first_occurrence(hay: &[u8], from: usize, needle: &[u8]) -> (r: usize)
    requires
        from <= hay.len(),
    ensures
        r == spec_first_occurrence(hay@, from as int, needle@),
        from <= r <= hay.len(),
{
    first_of_two(hay, from, needle, needle)
}

/// Finds the first byte equal to `byte` at or after `from`.
pub fn first_byte(s: &[u8], from: usize, byte: u8) -> (r: usize)
    requires
        from <= s.len(),
    ensures
        r == spec_first_byte(s@, from as int, byte),
        from <= r <= s.len(),
        r < s.len() ==> s@[r as int] == byte,
{
    let mut i: usize = from;
    while i < s.len()
        invariant
            from <= i <= s.len(),
            spec_first_byte(s@, from as int, byte) == spec_first_byte(s@, i as int, byte),
        decreases s.len() - i,
    {
        if s[i] == byte {
            return i;
        }
        i += 1;
    }
    i
}

/// Width in bytes of the white-space character whose UTF-8 form starts at
/// offset `at` of `s`, or 0 where none starts there. White space is what
/// Unicode marks as White_Space.
pub open spec fn space_width_at(s: Seq<u8>, at: int) -> int {
    if at < 0 || at >= s.len() {
        0
    } else if s[at] == 0x20 || (0x09 <= s[at] <= 0x0d) {
        1
    } else if at + 1 < s.len() && s[at] == 0xc2 && (s[at + 1] == 0x85 || s[at + 1] == 0xa0) {
        2
    } else if at + 2 < s.len() && wide_space(s[at], s[at + 1], s[at + 2]) {
        3
    } else {
        0
    }
}

/// Width in bytes of the white-space character whose UTF-8 form ends just
/// before offset `end` of `s`, or 0 where none ends there.
pub open spec fn space_width_before(s: Seq<u8>, end: int) -> int {
    if end <= 0 || end > s.len() {
        0
    } else if s[end - 1] == 0x20 || (0x09 <= s[end - 1] <= 0x0d) {
        1
    } else if end >= 2 && s[end - 2] == 0xc2 && (s[end - 1] == 0x85 || s[end - 1] == 0xa0) {
        2
    } else if end >= 3 && wide_space(s[end - 3], s[end - 2], s[end - 1]) {
        3
    } else {
        0
    }
}

/// The three bytes encode one of the white-space characters from U+1680 up.
pub open spec fn wide_space(b0: u8, b1: u8, b2: u8) -> bool {
    ||| b0 == 0xe1 && b1 == 0x9a && b2 == 0x80
    ||| b0 == 0xe2 && b1 == 0x80 && (0x80 <= b2 <= 0x8a || b2 == 0xa8 || b2 == 0xa9 || b2 == 0xaf)
    ||| b0 == 0xe2 && b1 == 0x81 && b2 == 0x9f
    ||| b0 == 0xe3 && b1 == 0x80 && b2 == 0x80
}

/// Offset of the first byte at or after `from` that is not part of leading
/// white space.
pub open spec fn content_start(s: Seq<u8>, from: int) -> int
    decreases s.len() - from,
{
    if space_width_at(s, from) > 0 {
        content_start(s, from + space_width_at(s, from))
    } else {
        from
    }
}

/// Offset just past the last byte before `end` that is not part of trailing
/// white space; never less than `low`.
pub open spec fn content_end(s: Seq<u8>, low: int, end: int) -> int
    decreases end - low,
{
    if space_width_before(s, end) > 0 && end - space_width_before(s, end) >= low {
        content_end(s, low, end - space_width_before(s, end))
    } else {
        end
    }
}

/// `s` without the white space at its two ends.
pub open spec fn trimmed(s: Seq<u8>) -> Seq<u8> {
    let start = content_start(s, 0);
    s.subrange(start, content_end(s, start, s.len() as int))
}

fn width_at(s: &[u8], at: usize) -> (w: usize)
    ensures
        w == space_width_at(s@, at as int),
        at + w <= s.len() || w == 0,
{
    if at >= s.len() {
        0
    } else if s[at] == 0x20 || (0x09 <= s[at] && s[at] <= 0x0d) {
        1
    } else if s.len() - at > 1 && s[at] == 0xc2 && (s[at + 1] == 0x85 || s[at + 1] == 0xa0) {
        2
    } else if s.len() - at > 2 && is_wide_space(s[at], s[at + 1], s[at + 2]) {
        3
    } else {
        0
    }
}

fn width_before(s: &[u8], end: usize) -> (w: usize)
    ensures
        w == space_width_before(s@, end as int),
        w <= end,
{
    if end == 0 || end > s.len() {
        0
    } else if s[end - 1] == 0x20 || (0x09 <= s[end - 1] && s[end - 1] <= 0x0d) {
        1
    } else if end >= 2 && s[end - 2] == 0xc2 && (s[end - 1] == 0x85 || s[end - 1] == 0xa0) {
        2
    } else if end >= 3 && is_wide_space(s[end - 3], s[end - 2], s[end - 1]) {
        3
    } else {
        0
    }
}

fn is_wide_space(b0: u8, b1: u8, b2: u8) -> (r: bool)
    ensures
        r == wide_space(b0, b1, b2),
{
    (b0 == 0xe1 && b1 == 0x9a && b2 == 0x80) || (b0 == 0xe2 && b1 == 0x80 && ((0x80 <= b2 && b2
        <= 0x8a) || b2 == 0xa8 || b2 == 0xa9 || b2 == 0xaf)) || (b0 == 0xe2 && b1 == 0x81 && b2
        == 0x9f) || (b0 == 0xe3 && b1 == 0x80 && b2 == 0x80)
}

/// Removes the white space at both ends of `s`.
pub fn trim<'a>(s: &'a [u8]) -> (r: &'a [u8])
    ensures
        r@ == trimmed(s@),
{
    let mut start: usize = 0;
    loop
        invariant
            start <= s.len(),
            content_start(s@, 0) == content_start(s@, start as int),
        ensures
            start <= s.len(),
            start == content_start(s@, 0),
        decreases s.len() - start,
    {
        let w: usize = width_at(s, start);
        if w == 0 {
            break ;
        }
        start += w;
    }
    let mut end: usize = s.len();
    loop
        invariant
            start <= end <= s.len(),
            content_end(s@, start as int, s@.len() as int) == content_end(
                s@,
                start as int,
                end as int,
            ),
        ensures
            start <= end <= s.len(),
            end == content_end(s@, start as int, s@.len() as int),
        decreases end - start,
    {
        let w: usize = width_before(s, end);
        if w == 0 || end - w < start {
            break ;
        }
        end -= w;
    }
    slice_subrange(s, start, end)
}

/// End of the line that starts at `from`: the offset of its line feed, or
/// `s.len()` where the text ends first.
pub open spec fn line_end(s: Seq<u8>, from: int) -> int {
    spec_first_byte(s, from, 0x0a)
}

/// The line of `s` that starts at `from`, without its line ending. A carriage
/// return belongs to the line ending only where a line feed follows it.
pub open spec fn line_at(s: Seq<u8>, from: int) -> Seq<u8> {
    let end = line_end(s, from);
    if from < end < s.len() && s[end - 1] == 0x0d {
        s.subrange(from, end - 1)
    } else {
        s.subrange(from, end)
    }
}

/// Reads the line of `s` that starts at `from`.
pub fn read_line<'a>(s: &'a [u8], from: usize) -> (r: &'a [u8])
    requires
        from <= s.len(),
    ensures
        r@ == line_at(s@, from as int),
{
    let end: usize = first_byte(s, from, 0x0a);
    if from < end && end < s.len() && s[end - 1] == 0x0d {
        slice_subrange(s, from, end - 1)
    } else {
        slice_subrange(s, from, end)
    }
}

/// The lines of `s` from offset `from` on. Text that ends in a line ending
/// has no empty line after it.
pub open spec fn lines_from(s: Seq<u8>, from: int) -> Seq<Seq<u8>>
    decreases s.len() - from,
{
    if from < 0 || from >= s.len() {
        Seq::empty()
    } else {
        proof {
            lemma_first_byte(s, from, 0x0a);
        }
        if line_end(s, from) >= s.len() {
            seq![line_at(s, from)]
        } else {
            seq![line_at(s, from)] + lines_from(s, line_end(s, from) + 1)
        }
    }
}

/// The lines of `s`.
pub open spec fn lines_of(s: Seq<u8>) -> Seq<Seq<u8>> {
    lines_from(s, 0)
}

/// The byte strings that a list of slices holds.
pub open spec fn slice_views(v: Seq<&[u8]>) -> Seq<Seq<u8>> {
    Seq::new(v.len(), |i: int| v[i]@)
}

/// Splits `s` into its lines.
pub fn split_lines<'a>(s: &'a [u8]) -> (r: Vec<&'a [u8]>)
    ensures
        slice_views(r@) == lines_of(s@),
{
    let mut lines: Vec<&'a [u8]> = Vec::new();
    let mut from: usize = 0;
    while from < s.len()
        invariant
            from <= s.len(),
            lines_of(s@) == slice_views(lines@) + lines_from(s@, from as int),
        decreases s.len() - from,
    {
        let end: usize = first_byte(s, from, 0x0a);
        let line = read_line(s, from);
        proof {
            let before = slice_views(lines@);
            let after = slice_views(lines@.push(line));
            assert(after =~= before + seq![line_at(s@, from as int)]);
            assert(lines_from(s@, end + 1) =~= if end < s.len() {
                lines_from(s@, end + 1)
            } else {
                Seq::empty()
            });
            assert(lines_from(s@, from as int) =~= seq![line_at(s@, from as int)] + lines_from(
                s@,
                end + 1,
            ));
            assert(before + (seq![line_at(s@, from as int)] + lines_from(s@, end + 1)) =~= (before
                + seq![line_at(s@, from as int)]) + lines_from(s@, end + 1));
        }
        lines.push(line);
        from = if end < s.len() {
            end + 1
        } else {
            end
        };
    }
    proof {
        assert(slice_views(lines@) + Seq::<Seq<u8>>::empty() =~= slice_views(lines@));
    }
    lines
}

} // verus!
