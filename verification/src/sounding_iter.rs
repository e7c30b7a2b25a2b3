//! Takes the text of a page and hands out the soundings that it holds.

use crate::indexes::ProviderIndexes;
use crate::parse_section::{parse, report_of, spec_parse, Report, Sounding};
use crate::text_iter::{
    create_text_section_iterator, lemma_next_pair_bounds, next_pair, SoundingTextIterator,
};
use vstd::prelude::*;
use vstd::string::StringSliceAdditionalSpecFns;

verus! {

/// The reports of a page, in the order in which they stand in it: of each
/// pair of sections the report it holds, if it holds one.
pub open spec fn reports(text: Seq<u8>, source_description: Seq<char>) -> Seq<Report>
    decreases text.len(),
{
    match next_pair(text) {
        Some((pair, rest)) => {
            proof {
                lemma_next_pair_bounds(text);
            }
            match spec_parse(pair, source_description) {
                Some(report) => seq![report] + reports(rest, source_description),
                None => reports(rest, source_description),
            }
        },
        None => Seq::empty(),
    }
}

/// A page holds fewer reports than bytes.
pub proof fn lemma_reports_bound(text: Seq<u8>, source_description: Seq<char>)
    ensures
        reports(text, source_description).len() <= text.len(),
    decreases text.len(),
{
    lemma_next_pair_bounds(text);
    if let Some((pair, rest)) = next_pair(text) {
        lemma_reports_bound(rest, source_description);
    }
}

/// A walk over the soundings of a page. Its view is the list of the reports
/// still to come.
pub struct SoundingIterator<'a> {
    text_iter: SoundingTextIterator<'a>,
    source_name: &'a str,
}

impl<'a> View for SoundingIterator<'a> {
    type V = Seq<Report>;

    closed spec fn view(&self) -> Seq<Report> {
        reports(self.text_iter@, self.source_name@)
    }
}

impl<'a> SoundingIterator<'a> {
    /// Hands out the next sounding with its indices, passing over the pairs
    /// of sections that hold no report. At the end it gives `None`, and does
    /// so at every later call.
    pub fn next(&mut self) -> (r: Option<(Sounding<'a>, ProviderIndexes<'a>)>)
        ensures
            old(self)@.len() == 0 ==> r is None && final(self)@ == old(self)@,
            old(self)@.len() > 0 ==> final(self)@ == old(self)@.drop_first(),
            old(self)@.len() > 0 ==> (r matches Some((sounding, indexes)) && report_of(
                sounding@,
                indexes@,
            ) == old(self)@[0]),
    {
        loop
            invariant
                self@ == old(self)@,
            decreases self.text_iter@.len(),
        {
            proof {
                lemma_next_pair_bounds(self.text_iter@);
            }
            match self.text_iter.next() {
                Some(text) => {
                    match parse(text, self.source_name) {
                        Some(found) => {
                            proof {
                                let rest = reports(self.text_iter@, self.source_name@);
                                assert((seq![old(self)@[0]] + rest).drop_first() =~= rest);
                            }
                            return Some(found);
                        },
                        None => {},
                    }
                },
                None => {
                    return None;
                },
            }
        }
    }

    /// Walks to the end and gives the soundings handed out, in their order.
    pub fn collect(self) -> (r: Vec<(Sounding<'a>, ProviderIndexes<'a>)>)
        ensures
            r@.len() == self@.len(),
            forall|i: int|
                0 <= i < r@.len() ==> report_of((#[trigger] r@[i]).0@, r@[i].1@) == self@[i],
    {
        let mut iter = self;
        let mut found: Vec<(Sounding<'a>, ProviderIndexes<'a>)> = Vec::new();
        loop
            invariant
                found@.len() <= self@.len(),
                iter@ == self@.skip(found@.len() as int),
                forall|i: int|
                    0 <= i < found@.len() ==> report_of((#[trigger] found@[i]).0@, found@[i].1@)
                        == self@[i],
            ensures
                found@.len() == self@.len(),
                forall|i: int|
                    0 <= i < found@.len() ==> report_of((#[trigger] found@[i]).0@, found@[i].1@)
                        == self@[i],
            decreases iter@.len(),
        {
            let ghost before = found@.len() as int;
            match iter.next() {
                Some(item) => {
                    proof {
                        assert(self@.skip(before).drop_first() =~= self@.skip(before + 1));
                    }
                    found.push(item);
                },
                None => {
                    break ;
                },
            }
        }
        found
    }

    /// Walks to the end and gives the number of soundings handed out.
    pub fn count(self) -> (n: usize)
        ensures
            n == self@.len(),
    {
        let mut iter = self;
        let mut n: usize = 0;
        let bound: usize = iter.text_iter.remaining_len();
        proof {
            lemma_reports_bound(iter.text_iter@, iter.source_name@);
        }
        loop
            invariant
                n + iter@.len() == self@.len(),
                self@.len() <= bound,
            ensures
                n == self@.len(),
            decreases iter@.len(),
        {
            match iter.next() {
                Some(_) => {
                    n += 1;
                },
                None => {
                    break ;
                },
            }
        }
        n
    }
}

/// Starts a walk over the soundings that `text_data` holds. Each sounding
/// carries `source_name` as the description of where it came from.
pub fn parse_text<'a>(source_name: &'a str, text_data: &'a str) -> (r: SoundingIterator<'a>)
    ensures
        r@ == reports(text_data.spec_bytes(), source_name@),
{
    let text_iter = create_text_section_iterator(text_data);
    SoundingIterator { text_iter, source_name }
}

} // verus!
