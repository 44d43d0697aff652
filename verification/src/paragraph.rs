//! The paragraph composer: sentences, each followed by one space.

use crate::config::{Config, PARAGRAPH_MAX, PARAGRAPH_MIN, SENTENCE_MAX, SENTENCE_MIN};
use crate::draw::Draw;
use crate::range::{bounds, count, lemma_count_in_range, reads, util_range};
use crate::sentence::{
    lemma_sentence_agree, lemma_sentence_ending, lemma_sentence_shape, sentence_of, sentence_raw,
};
use crate::source::{agree, alike, ran, Rand};
use crate::word::Piece;
use vstd::prelude::*;
use vstd::string::StringExecFns;

verus! {

/// The first `k` sentences of a paragraph whose draws start at position
/// `from`, each followed by one space, the last one too.
pub open spec fn sentences(k: nat, config: Config, draws: Seq<Draw>, from: int) -> Piece
    decreases k,
{
    if k == 0 {
        Piece { text: Seq::empty(), end: from }
    } else {
        let before = sentences((k - 1) as nat, config, draws, from);
        let s = sentence_of(config, draws, before.end);
        Piece { text: before.text + s.text + seq![' '], end: s.end }
    }
}

/// The number of sentences that `config` asks for when the draw that
/// resolves it, if any, is read at position `from`.
pub open spec fn paragraph_len_of(config: Config, draws: Seq<Draw>, from: int) -> nat {
    count(config.paragraph_len, PARAGRAPH_MIN, PARAGRAPH_MAX, draws, from) as nat
}

/// The paragraph that `config` asks for when the draws are read from
/// position `from`: first the draw that resolves the length, if the length
/// is a range, then the draws of the sentences.
pub open spec fn paragraph_of(config: Config, draws: Seq<Draw>, from: int) -> Piece {
    let n = paragraph_len_of(config, draws, from);
    sentences(n, config, draws, from + reads(config.paragraph_len))
}

/// Whether no sentence that `config` asks for can be empty: the sentence
/// length in force has a lower end above zero.
pub open spec fn sentences_have_words(config: Config) -> bool {
    bounds(config.sentence_len, SENTENCE_MIN, SENTENCE_MAX).0 > 0
}

/// No sentence of a paragraph moves the reading position backward.
pub proof fn lemma_sentences_shape(k: nat, config: Config, draws: Seq<Draw>, from: int)
    ensures
        from <= sentences(k, config, draws, from).end,
        k > 0 ==> sentences((k - 1) as nat, config, draws, from).end <= sentences(
            k,
            config,
            draws,
            from,
        ).end,
    decreases k,
{
    if k > 0 {
        let less = (k - 1) as nat;
        lemma_sentences_shape(less, config, draws, from);
        lemma_sentence_shape(config, draws, sentences(less, config, draws, from).end);
    }
}

/// The sentences of a paragraph depend only on the draws that were read
/// for them.
pub proof fn lemma_sentences_agree(k: nat, config: Config, a: Seq<Draw>, b: Seq<Draw>, from: int)
    requires
        0 <= from,
        agree(a, b, sentences(k, config, a, from).end),
    ensures
        sentences(k, config, a, from) == sentences(k, config, b, from),
    decreases k,
{
    if k > 0 {
        let less = (k - 1) as nat;
        lemma_sentences_shape(k, config, a, from);
        lemma_sentences_shape(less, config, a, from);
        lemma_sentences_agree(less, config, a, b, from);
        lemma_sentence_agree(config, a, b, sentences(less, config, a, from).end);
    }
}

/// A paragraph depends only on the draws that were read for it.
pub proof fn lemma_paragraph_agree(config: Config, a: Seq<Draw>, b: Seq<Draw>, from: int)
    requires
        0 <= from,
        agree(a, b, paragraph_of(config, a, from).end),
    ensures
        paragraph_of(config, a, from) == paragraph_of(config, b, from),
{
    let n = paragraph_len_of(config, a, from);
    lemma_sentences_shape(n, config, a, from + reads(config.paragraph_len));
    if reads(config.paragraph_len) == 1 {
        assert(a[from] == b[from]);
    }
    lemma_sentences_agree(n, config, a, b, from + reads(config.paragraph_len));
}

/// A paragraph of no sentences is empty and reads nothing but the draw
/// that resolved its length, where there was one. Any other paragraph ends
/// with a space; and with just one, not two in a row, if no sentence can
/// be empty, that is if the sentence length in force has a lower end above
/// zero.
pub proof fn lemma_paragraph_ending(config: Config, draws: Seq<Draw>, from: int)
    ensures
        paragraph_len_of(config, draws, from) == 0 ==> paragraph_of(config, draws, from) == (Piece {
            text: Seq::empty(),
            end: from + reads(config.paragraph_len),
        }),
        paragraph_len_of(config, draws, from) > 0 ==> paragraph_of(config, draws, from).text.len()
            > 0 && paragraph_of(config, draws, from).text.last() == ' ',
        paragraph_len_of(config, draws, from) > 0 && sentences_have_words(config) ==> ({
            let text = paragraph_of(config, draws, from).text;
            text.len() >= 2 && text[text.len() - 2] != ' '
        }),
{
    let n = paragraph_len_of(config, draws, from);
    if n > 0 {
        let start = from + reads(config.paragraph_len);
        let before = sentences((n - 1) as nat, config, draws, start);
        let s = sentence_of(config, draws, before.end);
        let text = paragraph_of(config, draws, from).text;
        assert(text == before.text + s.text + seq![' ']);
        if sentences_have_words(config) {
            lemma_count_in_range(
                config.sentence_len,
                SENTENCE_MIN,
                SENTENCE_MAX,
                draws,
                before.end,
            );
            lemma_sentence_ending(config, draws, before.end);
            assert(text[text.len() - 2] == s.text.last());
        }
    }
}

/// Two runs whose draws are the same as far as both go made the same
/// paragraph from the same number of draws.
pub proof fn lemma_paragraph_determined(
    config: Config,
    a: Seq<Draw>,
    b: Seq<Draw>,
    out_a: Seq<char>,
    out_b: Seq<char>,
)
    requires
        paragraph_of(config, a, 0) == (Piece { text: out_a, end: a.len() as int }),
        paragraph_of(config, b, 0) == (Piece { text: out_b, end: b.len() as int }),
        alike(a, b),
    ensures
        out_a == out_b,
        a.len() == b.len(),
{
    if a.len() <= b.len() {
        lemma_paragraph_agree(config, a, b, 0);
    } else {
        lemma_paragraph_agree(config, b, a, 0);
    }
}

/// Builds a paragraph, recording the draws it takes.
///
/// `log` records the draws of the run so far, which began at `origin`; the
/// result carries the record with the paragraph's draws appended.
pub(crate) fn paragraph_raw<R: Rand>(
    rng: &mut R,
    config: &Config,
    Ghost(origin): Ghost<R>,
    Ghost(log): Ghost<Seq<Draw>>,
) -> (out: (String, Ghost<Seq<Draw>>))
    requires
        ran(origin, log, *old(rng)),
    ensures
        ran(origin, out.1@, *final(rng)),
        log.len() <= out.1@.len(),
        agree(log, out.1@, log.len() as int),
        paragraph_of(*config, out.1@, log.len() as int) == (Piece {
            text: out.0@,
            end: out.1@.len() as int,
        }),
        out.1@.len() == log.len() ==> *final(rng) == *old(rng),
{
    let mut out = String::new();

    let (len, Ghost(resolved)) = util_range(
        rng,
        config.paragraph_len,
        PARAGRAPH_MIN,
        PARAGRAPH_MAX,
        Ghost(origin),
        Ghost(log),
    );
    let ghost start = resolved.len() as int;
    let ghost rested = *rng;
    let ghost mut now = resolved;

    let mut i: u32 = 0;
    while i < len
        invariant
            i <= len,
            0 <= start <= now.len(),
            ran(origin, now, *rng),
            agree(resolved, now, start),
            sentences(i as nat, *config, now, start) == (Piece {
                text: out@,
                end: now.len() as int,
            }),
            now.len() == start ==> *rng == rested,
        decreases len - i,
    {
        let ghost before = now;
        let (s, Ghost(grown)) = sentence_raw(rng, config, Ghost(origin), Ghost(now));
        out.append(s.as_str());
        out.append(" ");
        proof {
            reveal_strlit(" ");
            now = grown;
            lemma_sentences_agree(i as nat, *config, before, now, start);
            assert(out@ =~= sentences((i + 1) as nat, *config, now, start).text);
        }
        i += 1;
    }
    proof {
        assert forall|k: int| 0 <= k < log.len() implies log[k] == now[k] by {
            assert(log[k] == resolved[k]);
        }
    }
    (out, Ghost(now))
}

/// Generates sentences to form a paragraph.
///
/// The paragraph is what `paragraph_of` makes of the draws that `rng`
/// handed out during the call, and the call takes no draw that the
/// paragraph does not read.
pub fn paragraph<R: Rand>(rng: &mut R, config: &Config) -> (out: String)
    ensures
        exists|draws: Seq<Draw>| #[trigger]
            ran(*old(rng), draws, *final(rng)) && paragraph_of(*config, draws, 0) == (Piece {
                text: out@,
                end: draws.len() as int,
            }),
        config.paragraph_len == Some((0u32, None::<u32>)) ==> out@.len() == 0 && *final(rng)
            == *old(rng),
        out@.len() > 0 ==> out@.last() == ' ',
        out@.len() > 0 && sentences_have_words(*config) ==> out@.len() >= 2 && out@[out@.len() - 2]
            != ' ',
{
    let ghost origin = *rng;
    let (out, Ghost(draws)) = paragraph_raw(rng, config, Ghost(origin), Ghost(Seq::empty()));
    proof {
        lemma_paragraph_ending(*config, draws, 0);
    }
    out
}

} // verus!
