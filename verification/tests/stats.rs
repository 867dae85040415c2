use lexstats::calculator::{num_words, sent_mean, word_freq, word_mean, Mean};
use lexstats::document_stats;
use lexstats::metadata::Metadata;
use lexstats::tokenizer::{sent_token, word_token};

/// The mean a `Mean` stands for: its ratio, zero when the denominator is zero.
fn value(m: Mean) -> f32 {
    if m.count == 0 {
        0.0
    } else {
        m.sum as f32 / m.count as f32
    }
}

fn toks(words: &[&str]) -> Vec<Vec<u8>> {
    words.iter().map(|w| w.as_bytes().to_vec()).collect()
}

#[test]
fn empty_inputs_give_zero_statistics() {
    let none: Vec<Vec<u8>> = Vec::new();
    assert_eq!(num_words(&none), 0);
    assert_eq!(value(word_mean(&none)), 0.0);
    assert_eq!(value(sent_mean(0, &none)), 0.0);
}

#[test]
fn word_mean_of_cat_dog_is_three() {
    let tokens = toks(&["cat", "dog"]);
    let m = word_mean(&tokens);
    assert_eq!(m, Mean { sum: 6, count: 2 });
    assert_eq!(value(m), 3.0);
}

#[test]
fn sent_mean_of_ten_words_two_sentences_is_five() {
    let sentences = toks(&["one sentence", "another sentence"]);
    let m = sent_mean(10, &sentences);
    assert_eq!(m, Mean { sum: 10, count: 2 });
    assert_eq!(value(m), 5.0);
}

#[test]
fn word_freq_is_case_insensitive() {
    let tokens = toks(&["And", "and", "BUT"]);
    let f = word_freq(&tokens);
    assert_eq!(f.ands, 2);
    assert_eq!(f.buts, 1);
    assert_eq!(f.however, 0);
    assert_eq!(f.condition, 0);
    assert_eq!(f.thats, 0);
    assert_eq!(f.more, 0);
    assert_eq!(f.musts, 0);
    assert_eq!(f.mights, 0);
    assert_eq!(f.thises, 0);
    assert_eq!(f.very, 0);
}

#[test]
fn word_freq_counts_every_marker() {
    let tokens = toks(&[
        "and", "but", "HOWEVER", "If", "that", "more", "must", "might", "this", "very", "very",
    ]);
    let f = word_freq(&tokens);
    assert_eq!(f.ands, 1);
    assert_eq!(f.buts, 1);
    assert_eq!(f.however, 1);
    assert_eq!(f.condition, 1);
    assert_eq!(f.thats, 1);
    assert_eq!(f.more, 1);
    assert_eq!(f.musts, 1);
    assert_eq!(f.mights, 1);
    assert_eq!(f.thises, 1);
    assert_eq!(f.very, 2);
}

#[test]
fn word_token_strips_punctuation() {
    let tokens = word_token(b"Hello, world!");
    assert_eq!(tokens, toks(&["Hello", "world"]));
}

#[test]
fn word_token_keeps_apostrophes_and_drops_empty_runs() {
    let tokens = word_token(b"don't -- stop...");
    assert_eq!(tokens, toks(&["don't", "stop"]));
}

#[test]
fn word_token_of_empty_text_is_empty() {
    assert_eq!(word_token(b""), toks(&[]));
    assert_eq!(word_token(b"  \t \n "), toks(&[]));
}

#[test]
fn sent_token_splits_on_terminal_punctuation() {
    let sentences = sent_token(b"A. B? C!");
    assert_eq!(sentences.len(), 3);
    assert_eq!(sentences, toks(&["A", "B", "C"]));
}

#[test]
fn sent_token_takes_an_unterminated_tail_as_a_sentence() {
    let sentences = sent_token(b"First one. then the rest");
    assert_eq!(sentences, toks(&["First one", "then the rest"]));
}

#[test]
fn sent_token_of_empty_text_is_empty() {
    assert_eq!(sent_token(b""), toks(&[]));
    assert_eq!(sent_token(b"...!?"), toks(&[]));
}

#[test]
fn metadata_default_is_all_zero() {
    let m = Metadata::default();
    assert_eq!(m.word_total, 0);
    assert_eq!(m.wordlen, Mean { sum: 0, count: 0 });
    assert_eq!(m.sentlen, Mean { sum: 0, count: 0 });
    assert_eq!(m.freq.ands, 0);
    assert_eq!(m.freq.very, 0);
}

#[test]
fn metadata_records_words_then_sentences() {
    let mut m = Metadata::default();
    let tokens = toks(&["He", "said", "that", "and", "left"]);
    let sentences = toks(&["He said that and left"]);
    m.words(&tokens);
    m.sents(&sentences);
    assert_eq!(m.word_total, 5);
    assert_eq!(m.wordlen, Mean { sum: 17, count: 5 });
    assert_eq!(m.sentlen, Mean { sum: 5, count: 1 });
    assert_eq!(m.freq.thats, 1);
    assert_eq!(m.freq.ands, 1);
    assert_eq!(m.freq.buts, 0);
}

#[test]
fn document_stats_runs_the_whole_pipeline() {
    let m = document_stats(b"This is very fine. But that was MORE fun! Was it? And so on.");
    assert_eq!(m.word_total, 14);
    // this(4) is(2) very(4) fine(4) but(3) that(4) was(3) more(4)
    // fun(3) was(3) it(2) and(3) so(2) on(2)
    assert_eq!(m.wordlen, Mean { sum: 43, count: 14 });
    assert_eq!(m.sentlen, Mean { sum: 14, count: 4 });
    assert_eq!(m.freq.thises, 1);
    assert_eq!(m.freq.very, 1);
    assert_eq!(m.freq.buts, 1);
    assert_eq!(m.freq.thats, 1);
    assert_eq!(m.freq.more, 1);
    assert_eq!(m.freq.ands, 1);
    assert_eq!(m.freq.condition, 0);
    assert_eq!(m.freq.however, 0);
    assert_eq!(m.freq.musts, 0);
    assert_eq!(m.freq.mights, 0);
}
