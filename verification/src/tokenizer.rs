//! Splitting raw text (as bytes) into word tokens and sentence tokens.
//!
//! A word token is what remains of a maximal whitespace-free run after the
//! non-word bytes at its two ends are stripped; empty remainders are
//! discarded. A sentence token is what lies between sentence-terminal
//! punctuation (`.`, `!`, `?`), with surrounding whitespace trimmed and empty
//! segments discarded.
use vstd::prelude::*;

verus! {

/// True of the ASCII whitespace bytes that separate word tokens.
pub open spec fn is_space(b: u8) -> bool {
    b == 32 || b == 9 || b == 10 || b == 13 || b == 11 || b == 12
}

/// A byte that may stand inside a word token: a letter or an apostrophe.
pub open spec fn is_word_byte(b: u8) -> bool {
    ('a' as u8) <= b <= ('z' as u8) || ('A' as u8) <= b <= ('Z' as u8) || b == ('\'' as u8)
}

/// A byte that ends a sentence.
pub open spec fn is_sentence_end(b: u8) -> bool {
    b == ('.' as u8) || b == ('!' as u8) || b == ('?' as u8)
}

/// Drops bytes from the front of `t` until one satisfies `keep`.
pub open spec fn trim_front(t: Seq<u8>, keep: spec_fn(u8) -> bool) -> Seq<u8>
    decreases t.len(),
{
    if t.len() == 0 || keep(t.first()) {
        t
    } else {
        trim_front(t.drop_first(), keep)
    }
}

/// Drops bytes from the back of `t` until one satisfies `keep`.
pub open spec fn trim_back(t: Seq<u8>, keep: spec_fn(u8) -> bool) -> Seq<u8>
    decreases t.len(),
{
    if t.len() == 0 || keep(t.last()) {
        t
    } else {
        trim_back(t.drop_last(), keep)
    }
}

/// Drops bytes failing `keep` from both ends of `t`.
pub open spec fn trim_ends(t: Seq<u8>, keep: spec_fn(u8) -> bool) -> Seq<u8> {
    trim_back(trim_front(t, keep), keep)
}

/// A whitespace-free run with the non-word bytes at its ends stripped.
pub open spec fn word_trimmed(t: Seq<u8>) -> Seq<u8> {
    trim_ends(t, |b: u8| is_word_byte(b))
}

/// A sentence segment with surrounding whitespace trimmed.
pub open spec fn space_trimmed(t: Seq<u8>) -> Seq<u8> {
    trim_ends(t, |b: u8| !is_space(b))
}

fn word_byte(b: u8) -> (r: bool)
    ensures
        r == is_word_byte(b),
{
    (('a' as u8) <= b && b <= ('z' as u8)) || (('A' as u8) <= b && b <= ('Z' as u8)) || b == ('\''
        as u8)
}

fn space_byte(b: u8) -> (r: bool)
    ensures
        r == is_space(b),
{
    b == 32 || b == 9 || b == 10 || b == 13 || b == 11 || b == 12
}

fn sentence_end_byte(b: u8) -> (r: bool)
    ensures
        r == is_sentence_end(b),
{
    b == ('.' as u8) || b == ('!' as u8) || b == ('?' as u8)
}

/// Copies `t` with the bytes failing `is_word_byte` stripped from both ends.
#[verifier::loop_isolation(false)]
fn trim_word(t: &Vec<u8>) -> (r: Vec<u8>)
    ensures
        r@ == word_trimmed(t@),
{
    let ghost keep = |b: u8| is_word_byte(b);
    proof {
        assert(t@.skip(0) =~= t@);
    }
    let mut a: usize = 0;
    while a < t.len() && !word_byte(t[a])
        invariant
            a <= t.len(),
            trim_front(t@, keep) == trim_front(t@.skip(a as int), keep),
        decreases t.len() - a,
    {
        proof {
            let u = t@.skip(a as int);
            assert(u.drop_first() =~= t@.skip(a as int + 1));
        }
        a = a + 1;
    }
    proof {
        if a == t.len() {
            assert(t@.skip(a as int) =~= Seq::<u8>::empty());
        }
        assert(trim_front(t@, keep) == t@.skip(a as int));
        assert(t@.skip(a as int).take(t.len() - a as int) =~= t@.skip(a as int));
    }
    let mut b: usize = t.len();
    while b > a && !word_byte(t[b - 1])
        invariant
            a <= b <= t.len(),
            trim_back(t@.skip(a as int), keep) == trim_back(
                t@.skip(a as int).take(b - a as int),
                keep,
            ),
        decreases b,
    {
        proof {
            let u = t@.skip(a as int).take(b - a as int);
            assert(u.last() == t@[b - 1]);
            assert(u.drop_last() =~= t@.skip(a as int).take(b - 1 - a as int));
        }
        b = b - 1;
    }
    proof {
        let u = t@.skip(a as int).take(b - a as int);
        if b == a {
            assert(u =~= Seq::<u8>::empty());
        }
        assert(word_trimmed(t@) == u);
    }
    let mut r: Vec<u8> = Vec::new();
    let mut i: usize = a;
    while i < b
        invariant
            a <= i <= b <= t.len(),
            r@ =~= t@.subrange(a as int, i as int),
        decreases b - i,
    {
        r.push(t[i]);
        i = i + 1;
    }
    proof {
        assert(r@ =~= t@.skip(a as int).take(b - a as int));
    }
    r
}

/// The tokens a finished run `cur` contributes: one token if trimming leaves
/// something, none otherwise.
pub open spec fn emit_word(cur: Seq<u8>) -> Seq<Seq<u8>> {
    if word_trimmed(cur).len() > 0 {
        seq![word_trimmed(cur)]
    } else {
        Seq::<Seq<u8>>::empty()
    }
}

/// The word tokens of `cur + s`, where `cur` is the pending run read so far.
pub open spec fn word_tokens_from(s: Seq<u8>, cur: Seq<u8>) -> Seq<Seq<u8>>
    decreases s.len(),
{
    if s.len() == 0 {
        emit_word(cur)
    } else if is_space(s.first()) {
        emit_word(cur) + word_tokens_from(s.drop_first(), Seq::<u8>::empty())
    } else {
        word_tokens_from(s.drop_first(), cur.push(s.first()))
    }
}

/// The sequence of word tokens of `s`.
pub open spec fn word_tokens(s: Seq<u8>) -> Seq<Seq<u8>> {
    word_tokens_from(s, Seq::<u8>::empty())
}

/// Splits `text` on whitespace into runs, strips the non-word bytes at both
/// ends of each run, and discards runs that end up empty.
#[verifier::loop_isolation(false)]
pub fn word_token(text: &[u8]) -> (tokens: Vec<Vec<u8>>)
    ensures
        tokens.deep_view() == word_tokens(text@),
{
    let mut tokens: Vec<Vec<u8>> = Vec::new();
    let mut cur: Vec<u8> = Vec::new();
    let mut i: usize = 0;
    proof {
        assert(text@.skip(0) =~= text@);
    }
    while i < text.len()
        invariant
            i <= text.len(),
            word_tokens(text@) =~= tokens.deep_view() + word_tokens_from(
                text@.skip(i as int),
                cur@,
            ),
        decreases text.len() - i,
    {
        proof {
            let u = text@.skip(i as int);
            assert(u.drop_first() =~= text@.skip(i as int + 1));
        }
        let b = text[i];
        if space_byte(b) {
            let tk = trim_word(&cur);
            let ghost prev = tokens.deep_view();
            if tk.len() > 0 {
                tokens.push(tk);
                proof {
                    assert(tk.deep_view() =~= tk@);
                    assert(tokens.deep_view() =~= prev.push(tk@));
                    assert(tokens.deep_view() =~= prev + emit_word(cur@));
                }
            } else {
                proof {
                    assert(tokens.deep_view() =~= prev + emit_word(cur@));
                }
            }
            cur = Vec::new();
        } else {
            cur.push(b);
        }
        i = i + 1;
    }
    proof {
        assert(text@.skip(text.len() as int) =~= Seq::<u8>::empty());
    }
    let tk = trim_word(&cur);
    let ghost prev = tokens.deep_view();
    if tk.len() > 0 {
        tokens.push(tk);
        proof {
            assert(tk.deep_view() =~= tk@);
            assert(tokens.deep_view() =~= prev.push(tk@));
            assert(tokens.deep_view() =~= prev + emit_word(cur@));
        }
    } else {
        proof {
            assert(tokens.deep_view() =~= prev + emit_word(cur@));
        }
    }
    tokens
}

/// Copies `t` with the whitespace stripped from both ends.
#[verifier::loop_isolation(false)]
fn trim_space(t: &Vec<u8>) -> (r: Vec<u8>)
    ensures
        r@ == space_trimmed(t@),
{
    let ghost keep = |b: u8| !is_space(b);
    proof {
        assert(t@.skip(0) =~= t@);
    }
    let mut a: usize = 0;
    while a < t.len() && space_byte(t[a])
        invariant
            a <= t.len(),
            trim_front(t@, keep) == trim_front(t@.skip(a as int), keep),
        decreases t.len() - a,
    {
        proof {
            let u = t@.skip(a as int);
            assert(u.drop_first() =~= t@.skip(a as int + 1));
        }
        a = a + 1;
    }
    proof {
        if a == t.len() {
            assert(t@.skip(a as int) =~= Seq::<u8>::empty());
        }
        assert(trim_front(t@, keep) == t@.skip(a as int));
        assert(t@.skip(a as int).take(t.len() - a as int) =~= t@.skip(a as int));
    }
    let mut b: usize = t.len();
    while b > a && space_byte(t[b - 1])
        invariant
            a <= b <= t.len(),
            trim_back(t@.skip(a as int), keep) == trim_back(
                t@.skip(a as int).take(b - a as int),
                keep,
            ),
        decreases b,
    {
        proof {
            let u = t@.skip(a as int).take(b - a as int);
            assert(u.last() == t@[b - 1]);
            assert(u.drop_last() =~= t@.skip(a as int).take(b - 1 - a as int));
        }
        b = b - 1;
    }
    proof {
        let u = t@.skip(a as int).take(b - a as int);
        if b == a {
            assert(u =~= Seq::<u8>::empty());
        }
        assert(space_trimmed(t@) == u);
    }
    let mut r: Vec<u8> = Vec::new();
    let mut i: usize = a;
    while i < b
        invariant
            a <= i <= b <= t.len(),
            r@ =~= t@.subrange(a as int, i as int),
        decreases b - i,
    {
        r.push(t[i]);
        i = i + 1;
    }
    proof {
        assert(r@ =~= t@.skip(a as int).take(b - a as int));
    }
    r
}

/// The sentences a finished segment `cur` contributes: one sentence if
/// trimming leaves something, none otherwise.
pub open spec fn emit_sentence(cur: Seq<u8>) -> Seq<Seq<u8>> {
    if space_trimmed(cur).len() > 0 {
        seq![space_trimmed(cur)]
    } else {
        Seq::<Seq<u8>>::empty()
    }
}

/// The sentence tokens of `cur + s`, where `cur` is the pending segment read
/// so far.
pub open spec fn sentence_tokens_from(s: Seq<u8>, cur: Seq<u8>) -> Seq<Seq<u8>>
    decreases s.len(),
{
    if s.len() == 0 {
        emit_sentence(cur)
    } else if is_sentence_end(s.first()) {
        emit_sentence(cur) + sentence_tokens_from(s.drop_first(), Seq::<u8>::empty())
    } else {
        sentence_tokens_from(s.drop_first(), cur.push(s.first()))
    }
}

/// The sequence of sentence tokens of `s`.
pub open spec fn sentence_tokens(s: Seq<u8>) -> Seq<Seq<u8>> {
    sentence_tokens_from(s, Seq::<u8>::empty())
}

/// Splits `text` at `.`, `!` and `?` into segments, trims the whitespace
/// around each segment, and discards segments that end up empty.
#[verifier::loop_isolation(false)]
pub fn sent_token(text: &[u8]) -> (sentences: Vec<Vec<u8>>)
    ensures
        sentences.deep_view() == sentence_tokens(text@),
{
    let mut sentences: Vec<Vec<u8>> = Vec::new();
    let mut cur: Vec<u8> = Vec::new();
    let mut i: usize = 0;
    proof {
        assert(text@.skip(0) =~= text@);
    }
    while i < text.len()
        invariant
            i <= text.len(),
            sentence_tokens(text@) =~= sentences.deep_view() + sentence_tokens_from(
                text@.skip(i as int),
                cur@,
            ),
        decreases text.len() - i,
    {
        proof {
            let u = text@.skip(i as int);
            assert(u.drop_first() =~= text@.skip(i as int + 1));
        }
        let b = text[i];
        if sentence_end_byte(b) {
            let tk = trim_space(&cur);
            let ghost prev = sentences.deep_view();
            if tk.len() > 0 {
                sentences.push(tk);
                proof {
                    assert(tk.deep_view() =~= tk@);
                    assert(sentences.deep_view() =~= prev.push(tk@));
                    assert(sentences.deep_view() =~= prev + emit_sentence(cur@));
                }
            } else {
                proof {
                    assert(sentences.deep_view() =~= prev + emit_sentence(cur@));
                }
            }
            cur = Vec::new();
        } else {
            cur.push(b);
        }
        i = i + 1;
    }
    proof {
        assert(text@.skip(text.len() as int) =~= Seq::<u8>::empty());
    }
    let tk = trim_space(&cur);
    let ghost prev = sentences.deep_view();
    if tk.len() > 0 {
        sentences.push(tk);
        proof {
            assert(tk.deep_view() =~= tk@);
            assert(sentences.deep_view() =~= prev.push(tk@));
            assert(sentences.deep_view() =~= prev + emit_sentence(cur@));
        }
    } else {
        proof {
            assert(sentences.deep_view() =~= prev + emit_sentence(cur@));
        }
    }
    sentences
}


proof fn lemma_trim_front_len(t: Seq<u8>, keep: spec_fn(u8) -> bool)
    ensures
        trim_front(t, keep).len() <= t.len(),
    decreases t.len(),
{
    if t.len() == 0 || keep(t.first()) {
    } else {
        lemma_trim_front_len(t.drop_first(), keep);
    }
}

proof fn lemma_trim_back_len(t: Seq<u8>, keep: spec_fn(u8) -> bool)
    ensures
        trim_back(t, keep).len() <= t.len(),
    decreases t.len(),
{
    if t.len() == 0 || keep(t.last()) {
    } else {
        lemma_trim_back_len(t.drop_last(), keep);
    }
}

/// Stripping the ends of a run never lengthens it.
pub proof fn lemma_word_trimmed_len(t: Seq<u8>)
    ensures
        word_trimmed(t).len() <= t.len(),
{
    let keep = |b: u8| is_word_byte(b);
    lemma_trim_front_len(t, keep);
    lemma_trim_back_len(trim_front(t, keep), keep);
}

} // verus!
