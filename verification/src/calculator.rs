//! Aggregate statistics over token sequences: counts, exact means, and the
//! frequencies of the fixed marker words tracked as stylometric signals.
use vstd::prelude::*;

verus! {

/// An exact mean, kept as the pair of its numerator and denominator.
/// The mean it stands for is `sum / count`, taken as zero when `count` is
/// zero, so an empty input never divides by zero.
#[derive(Clone, Copy, PartialEq, Eq, Structural, Debug)]
pub struct Mean {
    pub sum: usize,
    pub count: usize,
}

/// The sum of the lengths of the tokens of `ts`.
pub open spec fn total_len(ts: Seq<Seq<u8>>) -> nat
    decreases ts.len(),
{
    if ts.len() == 0 {
        0
    } else {
        ts.first().len() + total_len(ts.drop_first())
    }
}

/// The lower-case form of a byte: ASCII letters are folded, all else kept.
pub open spec fn lower(b: u8) -> u8 {
    if ('A' as u8) <= b <= ('Z' as u8) {
        (b + 32) as u8
    } else {
        b
    }
}

/// `t` lower-cased byte by byte.
pub open spec fn lower_seq(t: Seq<u8>) -> Seq<u8> {
    t.map_values(|b: u8| lower(b))
}

/// How many tokens of `ts` equal `w` once lower-cased.
pub open spec fn count_word(ts: Seq<Seq<u8>>, w: Seq<u8>) -> nat
    decreases ts.len(),
{
    if ts.len() == 0 {
        0
    } else {
        (if lower_seq(ts.first()) == w {
            1nat
        } else {
            0nat
        }) + count_word(ts.drop_first(), w)
    }
}

pub open spec fn marker_and() -> Seq<u8> {
    seq!['a' as u8, 'n' as u8, 'd' as u8]
}

pub open spec fn marker_but() -> Seq<u8> {
    seq!['b' as u8, 'u' as u8, 't' as u8]
}

pub open spec fn marker_however() -> Seq<u8> {
    seq!['h' as u8, 'o' as u8, 'w' as u8, 'e' as u8, 'v' as u8, 'e' as u8, 'r' as u8]
}

pub open spec fn marker_if() -> Seq<u8> {
    seq!['i' as u8, 'f' as u8]
}

pub open spec fn marker_that() -> Seq<u8> {
    seq!['t' as u8, 'h' as u8, 'a' as u8, 't' as u8]
}

pub open spec fn marker_more() -> Seq<u8> {
    seq!['m' as u8, 'o' as u8, 'r' as u8, 'e' as u8]
}

pub open spec fn marker_must() -> Seq<u8> {
    seq!['m' as u8, 'u' as u8, 's' as u8, 't' as u8]
}

pub open spec fn marker_might() -> Seq<u8> {
    seq!['m' as u8, 'i' as u8, 'g' as u8, 'h' as u8, 't' as u8]
}

pub open spec fn marker_this() -> Seq<u8> {
    seq!['t' as u8, 'h' as u8, 'i' as u8, 's' as u8]
}

pub open spec fn marker_very() -> Seq<u8> {
    seq!['v' as u8, 'e' as u8, 'r' as u8, 'y' as u8]
}

/// The frequency of each marker word in one document.
#[derive(Clone, Copy, PartialEq, Eq, Structural, Debug)]
pub struct WordFreq {
    pub ands: usize,
    pub buts: usize,
    pub however: usize,
    pub condition: usize,
    pub thats: usize,
    pub more: usize,
    pub musts: usize,
    pub mights: usize,
    pub thises: usize,
    pub very: usize,
}

/// The number of word tokens.
pub fn num_words(tokens: &Vec<Vec<u8>>) -> (n: usize)
    ensures
        n == tokens@.len(),
{
    tokens.len()
}

/// Mean word length as an exact ratio: the total number of bytes in the
/// tokens over the number of tokens. An empty input gives the zero mean.
#[verifier::loop_isolation(false)]
pub fn word_mean(tokens: &Vec<Vec<u8>>) -> (m: Mean)
    requires
        total_len(tokens.deep_view()) <= usize::MAX,
    ensures
        m.sum == total_len(tokens.deep_view()),
        m.count == tokens@.len(),
{
    let ghost ts = tokens.deep_view();
    proof {
        assert(ts.skip(0) =~= ts);
    }
    let mut sum: usize = 0;
    let mut i: usize = 0;
    while i < tokens.len()
        invariant
            i <= tokens.len(),
            sum + total_len(ts.skip(i as int)) == total_len(ts),
        decreases tokens.len() - i,
    {
        proof {
            let u = ts.skip(i as int);
            assert(u.drop_first() =~= ts.skip(i as int + 1));
            assert(u.first() =~= tokens@[i as int]@);
        }
        sum = sum + tokens[i].len();
        i = i + 1;
    }
    proof {
        assert(ts.skip(tokens.len() as int) =~= Seq::<Seq<u8>>::empty());
    }
    Mean { sum, count: tokens.len() }
}

/// Mean sentence length as an exact ratio: the number of words in the
/// document over the number of sentences. With no sentences the denominator
/// is zero and the mean stands for zero.
pub fn sent_mean(word_total: usize, sentences: &Vec<Vec<u8>>) -> (m: Mean)
    ensures
        m.sum == word_total,
        m.count == sentences@.len(),
{
    Mean { sum: word_total, count: sentences.len() }
}

fn lower_byte(b: u8) -> (r: u8)
    ensures
        r == lower(b),
{
    if ('A' as u8) <= b && b <= ('Z' as u8) {
        b + 32
    } else {
        b
    }
}

/// Whether `t`, lower-cased, is exactly the word `w`.
#[verifier::loop_isolation(false)]
fn lower_eq(t: &Vec<u8>, w: &Vec<u8>) -> (r: bool)
    ensures
        r == (lower_seq(t@) == w@),
{
    if t.len() != w.len() {
        return false;
    }
    let mut i: usize = 0;
    while i < t.len()
        invariant
            i <= t.len(),
            forall|k: int| 0 <= k < i ==> lower_seq(t@)[k] == w@[k],
        decreases t.len() - i,
    {
        if lower_byte(t[i]) != w[i] {
            proof {
                assert(lower_seq(t@)[i as int] != w@[i as int]);
            }
            return false;
        }
        i = i + 1;
    }
    proof {
        assert(lower_seq(t@) =~= w@);
    }
    true
}

/// Counts, in one pass and case-insensitively, how often each marker word
/// occurs among the tokens.
#[verifier::loop_isolation(false)]
pub fn word_freq(tokens: &Vec<Vec<u8>>) -> (f: WordFreq)
    ensures
        f.ands == count_word(tokens.deep_view(), marker_and()),
        f.buts == count_word(tokens.deep_view(), marker_but()),
        f.however == count_word(tokens.deep_view(), marker_however()),
        f.condition == count_word(tokens.deep_view(), marker_if()),
        f.thats == count_word(tokens.deep_view(), marker_that()),
        f.more == count_word(tokens.deep_view(), marker_more()),
        f.musts == count_word(tokens.deep_view(), marker_must()),
        f.mights == count_word(tokens.deep_view(), marker_might()),
        f.thises == count_word(tokens.deep_view(), marker_this()),
        f.very == count_word(tokens.deep_view(), marker_very()),
{
    let ghost ts = tokens.deep_view();
    let w_and: Vec<u8> = vec!['a' as u8, 'n' as u8, 'd' as u8];
    let w_but: Vec<u8> = vec!['b' as u8, 'u' as u8, 't' as u8];
    let w_however: Vec<u8> = vec![
        'h' as u8,
        'o' as u8,
        'w' as u8,
        'e' as u8,
        'v' as u8,
        'e' as u8,
        'r' as u8,
    ];
    let w_if: Vec<u8> = vec!['i' as u8, 'f' as u8];
    let w_that: Vec<u8> = vec!['t' as u8, 'h' as u8, 'a' as u8, 't' as u8];
    let w_more: Vec<u8> = vec!['m' as u8, 'o' as u8, 'r' as u8, 'e' as u8];
    let w_must: Vec<u8> = vec!['m' as u8, 'u' as u8, 's' as u8, 't' as u8];
    let w_might: Vec<u8> = vec!['m' as u8, 'i' as u8, 'g' as u8, 'h' as u8, 't' as u8];
    let w_this: Vec<u8> = vec!['t' as u8, 'h' as u8, 'i' as u8, 's' as u8];
    let w_very: Vec<u8> = vec!['v' as u8, 'e' as u8, 'r' as u8, 'y' as u8];
    proof {
        assert(w_and@ =~= marker_and());
        assert(w_but@ =~= marker_but());
        assert(w_however@ =~= marker_however());
        assert(w_if@ =~= marker_if());
        assert(w_that@ =~= marker_that());
        assert(w_more@ =~= marker_more());
        assert(w_must@ =~= marker_must());
        assert(w_might@ =~= marker_might());
        assert(w_this@ =~= marker_this());
        assert(w_very@ =~= marker_very());
        assert(ts.skip(0) =~= ts);
    }
    let mut f = WordFreq {
        ands: 0,
        buts: 0,
        however: 0,
        condition: 0,
        thats: 0,
        more: 0,
        musts: 0,
        mights: 0,
        thises: 0,
        very: 0,
    };
    let mut i: usize = 0;
    while i < tokens.len()
        invariant
            i <= tokens.len(),
            f.ands <= i && f.buts <= i && f.however <= i && f.condition <= i && f.thats <= i,
            f.more <= i && f.musts <= i && f.mights <= i && f.thises <= i && f.very <= i,
            f.ands + count_word(ts.skip(i as int), marker_and()) == count_word(ts, marker_and()),
            f.buts + count_word(ts.skip(i as int), marker_but()) == count_word(ts, marker_but()),
            f.however + count_word(ts.skip(i as int), marker_however()) == count_word(
                ts,
                marker_however(),
            ),
            f.condition + count_word(ts.skip(i as int), marker_if()) == count_word(
                ts,
                marker_if(),
            ),
            f.thats + count_word(ts.skip(i as int), marker_that()) == count_word(
                ts,
                marker_that(),
            ),
            f.more + count_word(ts.skip(i as int), marker_more()) == count_word(
                ts,
                marker_more(),
            ),
            f.musts + count_word(ts.skip(i as int), marker_must()) == count_word(
                ts,
                marker_must(),
            ),
            f.mights + count_word(ts.skip(i as int), marker_might()) == count_word(
                ts,
                marker_might(),
            ),
            f.thises + count_word(ts.skip(i as int), marker_this()) == count_word(
                ts,
                marker_this(),
            ),
            f.very + count_word(ts.skip(i as int), marker_very()) == count_word(
                ts,
                marker_very(),
            ),
        decreases tokens.len() - i,
    {
        proof {
            let u = ts.skip(i as int);
            assert(u.drop_first() =~= ts.skip(i as int + 1));
            assert(u.first() =~= tokens@[i as int]@);
        }
        let tok = &tokens[i];
        if lower_eq(tok, &w_and) {
            f.ands = f.ands + 1;
        } else if lower_eq(tok, &w_but) {
            f.buts = f.buts + 1;
        } else if lower_eq(tok, &w_however) {
            f.however = f.however + 1;
        } else if lower_eq(tok, &w_if) {
            f.condition = f.condition + 1;
        } else if lower_eq(tok, &w_that) {
            f.thats = f.thats + 1;
        } else if lower_eq(tok, &w_more) {
            f.more = f.more + 1;
        } else if lower_eq(tok, &w_must) {
            f.musts = f.musts + 1;
        } else if lower_eq(tok, &w_might) {
            f.mights = f.mights + 1;
        } else if lower_eq(tok, &w_this) {
            f.thises = f.thises + 1;
        } else if lower_eq(tok, &w_very) {
            f.very = f.very + 1;
        }
        i = i + 1;
    }
    proof {
        assert(ts.skip(tokens.len() as int) =~= Seq::<Seq<u8>>::empty());
    }
    f
}

} // verus!
