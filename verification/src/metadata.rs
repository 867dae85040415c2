//! The per-document record of computed statistics: populated once from the
//! token sequences, then read for reporting.
use vstd::prelude::*;

use crate::calculator;
use crate::calculator::Mean;
use crate::calculator::WordFreq;
use crate::calculator::count_word;
use crate::calculator::marker_and;
use crate::calculator::marker_but;
use crate::calculator::marker_however;
use crate::calculator::marker_if;
use crate::calculator::marker_might;
use crate::calculator::marker_more;
use crate::calculator::marker_must;
use crate::calculator::marker_that;
use crate::calculator::marker_this;
use crate::calculator::marker_very;
use crate::calculator::total_len;

verus! {

/// The statistics of one document: the word total, the two means, and the
/// frequency of each marker word.
#[derive(Clone, Copy, PartialEq, Eq, Structural, Debug)]
pub struct Metadata {
    pub word_total: usize,
    pub wordlen: Mean,
    pub sentlen: Mean,
    pub freq: WordFreq,
}

/// What `Metadata::words` records of a token sequence `ts`.
pub open spec fn words_recorded(m: Metadata, ts: Seq<Seq<u8>>) -> bool {
    &&& m.word_total == ts.len()
    &&& m.wordlen.sum == total_len(ts)
    &&& m.wordlen.count == ts.len()
    &&& m.freq.ands == count_word(ts, marker_and())
    &&& m.freq.buts == count_word(ts, marker_but())
    &&& m.freq.however == count_word(ts, marker_however())
    &&& m.freq.condition == count_word(ts, marker_if())
    &&& m.freq.thats == count_word(ts, marker_that())
    &&& m.freq.more == count_word(ts, marker_more())
    &&& m.freq.musts == count_word(ts, marker_must())
    &&& m.freq.mights == count_word(ts, marker_might())
    &&& m.freq.thises == count_word(ts, marker_this())
    &&& m.freq.very == count_word(ts, marker_very())
}

impl Default for Metadata {
    /// The all-zero record every document starts from.
    fn default() -> (m: Metadata)
        ensures
            m.word_total == 0,
            m.wordlen == (Mean { sum: 0, count: 0 }),
            m.sentlen == (Mean { sum: 0, count: 0 }),
            m.freq.ands == 0 && m.freq.buts == 0 && m.freq.however == 0 && m.freq.condition == 0,
            m.freq.thats == 0 && m.freq.more == 0 && m.freq.musts == 0 && m.freq.mights == 0,
            m.freq.thises == 0 && m.freq.very == 0,
    {
        Metadata {
            word_total: 0,
            wordlen: Mean { sum: 0, count: 0 },
            sentlen: Mean { sum: 0, count: 0 },
            freq: WordFreq {
                ands: 0,
                buts: 0,
                however: 0,
                condition: 0,
                thats: 0,
                more: 0,
                musts: 0,
                mights: 0,
                thises: 0,
                very: 0,
            },
        }
    }
}

impl Metadata {
    /// Records the word statistics of a document's word tokens: the total,
    /// the mean word length, and the marker-word frequencies. The mean
    /// sentence length is left as it was.
    pub fn words(&mut self, tokens: &Vec<Vec<u8>>)
        requires
            total_len(tokens.deep_view()) <= usize::MAX,
        ensures
            words_recorded(*final(self), tokens.deep_view()),
            final(self).sentlen == old(self).sentlen,
    {
        self.word_total = calculator::num_words(tokens);
        self.wordlen = calculator::word_mean(tokens);
        self.freq = calculator::word_freq(tokens);
    }

    /// Records the mean sentence length: the word total already recorded
    /// over the number of sentences. The word statistics are left as they
    /// were.
    pub fn sents(&mut self, sentences: &Vec<Vec<u8>>)
        ensures
            final(self).sentlen.sum == old(self).word_total,
            final(self).sentlen.count == sentences@.len(),
            final(self).word_total == old(self).word_total,
            final(self).wordlen == old(self).wordlen,
            final(self).freq == old(self).freq,
    {
        self.sentlen = calculator::sent_mean(self.word_total, sentences);
    }
}

} // verus!
