//! Lexical statistics over raw text: word and sentence tokenization and
//! per-document aggregate counts, for stylometric comparison of documents.
//!
//! The text of a document comes in as bytes. `tokenizer` splits it into word
//! tokens and sentence tokens, `calculator` turns token sequences into
//! counts, exact means and marker-word frequencies, and `metadata` gathers
//! the statistics of one document into a record. `document_stats` runs the
//! whole pipeline on one document.
use vstd::prelude::*;

pub mod calculator;
pub mod metadata;
pub mod tokenizer;

use crate::calculator::total_len;
use crate::metadata::Metadata;
use crate::metadata::words_recorded;
use crate::tokenizer::emit_word;
use crate::tokenizer::is_space;
use crate::tokenizer::lemma_word_trimmed_len;
use crate::tokenizer::sent_token;
use crate::tokenizer::sentence_tokens;
use crate::tokenizer::word_token;
use crate::tokenizer::word_tokens;
use crate::tokenizer::word_tokens_from;
use crate::tokenizer::word_trimmed;

verus! {

proof fn lemma_total_len_cons(t: Seq<u8>, rest: Seq<Seq<u8>>)
    ensures
        total_len(seq![t] + rest) == t.len() + total_len(rest),
{
    let c = seq![t] + rest;
    assert(c.first() == t);
    assert(c.drop_first() =~= rest);
}

proof fn lemma_emit_word_total(cur: Seq<u8>)
    ensures
        total_len(emit_word(cur)) <= cur.len(),
{
    lemma_word_trimmed_len(cur);
    if word_trimmed(cur).len() > 0 {
        lemma_total_len_cons(word_trimmed(cur), Seq::<Seq<u8>>::empty());
        assert(seq![word_trimmed(cur)] + Seq::<Seq<u8>>::empty() =~= emit_word(cur));
    }
}

/// The bytes kept in the word tokens of `cur + s` never outnumber the bytes
/// of `cur + s` itself: tokenizing only drops bytes.
pub proof fn lemma_word_tokens_total_len(s: Seq<u8>, cur: Seq<u8>)
    ensures
        total_len(word_tokens_from(s, cur)) <= s.len() + cur.len(),
    decreases s.len(),
{
    if s.len() == 0 {
        lemma_emit_word_total(cur);
    } else if is_space(s.first()) {
        lemma_word_tokens_total_len(s.drop_first(), Seq::<u8>::empty());
        lemma_emit_word_total(cur);
        let rest = word_tokens_from(s.drop_first(), Seq::<u8>::empty());
        if word_trimmed(cur).len() > 0 {
            lemma_total_len_cons(word_trimmed(cur), rest);
        } else {
            assert(emit_word(cur) + rest =~= rest);
        }
    } else {
        lemma_word_tokens_total_len(s.drop_first(), cur.push(s.first()));
    }
}

/// Tokenizes one document and fills a fresh record with every statistic of
/// it: the word total, the mean word and sentence lengths, and the
/// marker-word frequencies.
pub fn document_stats(text: &[u8]) -> (m: Metadata)
    ensures
        words_recorded(m, word_tokens(text@)),
        m.sentlen.sum == word_tokens(text@).len(),
        m.sentlen.count == sentence_tokens(text@).len(),
{
    let tokens = word_token(text);
    let sentences = sent_token(text);
    proof {
        lemma_word_tokens_total_len(text@, Seq::<u8>::empty());
        assert(text.len() == text@.len());
    }
    let mut m = Metadata::default();
    m.words(&tokens);
    m.sents(&sentences);
    m
}

} // verus!
