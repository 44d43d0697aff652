//! The sentence composer: words chained by separators, closed by terminal
//! punctuation.

use crate::config::{Config, SENTENCE_MAX, SENTENCE_MIN};
use crate::draw::{binary64_draw, binary64_scaled, Draw};
use crate::range::{count, reads, util_range};
use crate::source::{agree, alike, ran, take, Rand};
use crate::word::{lemma_word_agree, lemma_word_shape, word_of, word_raw, Piece};
use vstd::arithmetic::power2::{lemma2_to64, pow2};
use vstd::prelude::*;
use vstd::string::StringExecFns;

verus! {

/// The largest draw that still puts a comma between two words: the draw
/// of 0.08, taken as a binary64 number. That number is the one nearest to
/// eight hundredths and lies just above them; 64 binary places hold it
/// exactly.
pub const COMMA_LIMIT: u64 = 0x147A_E147_AE14_7B00;

/// What stands between two words: a comma and a space when the draw is at
/// most 0.08, the limit itself included, and a space alone otherwise.
pub open spec fn separator_of(d: Draw) -> Seq<char> {
    if d.bits <= COMMA_LIMIT {
        seq![',', ' ']
    } else {
        seq![' ']
    }
}

/// What closes a sentence, by the band that the draw falls in. The bands
/// are half-open and tried in order.
pub open spec fn terminal_of(d: Draw) -> Seq<char> {
    if d.under(5) {
        seq!['!']
    } else if d.under(7) {
        seq!['!', '!']
    } else if d.under(14) {
        seq!['?']
    } else if d.under(25) {
        seq![' ', ':', '3']
    } else if d.under(27) {
        seq!['.', '.', '.']
    } else {
        seq!['.']
    }
}

/// The separator that the draw `d` selects.
pub fn separator(d: Draw) -> (s: &'static str)
    ensures
        s@ == separator_of(d),
{
    if d.bits <= COMMA_LIMIT {
        let s = ", ";
        proof {
            reveal_strlit(", ");
            assert(s@ =~= separator_of(d));
        }
        s
    } else {
        let s = " ";
        proof {
            reveal_strlit(" ");
            assert(s@ =~= separator_of(d));
        }
        s
    }
}

/// The comma limit is the draw of 0.08: of the binary64 number whose
/// encoding has the exponent field 1019 and the fraction
/// `0x4_7AE1_47AE_147B`.
pub proof fn lemma_comma_limit()
    ensures
        binary64_draw(0x3FB4_7AE1_47AE_147B) == COMMA_LIMIT,
{
    let bits: u64 = 0x3FB4_7AE1_47AE_147B;
    lemma2_to64();
    assert((bits / 0x10_0000_0000_0000) % 0x800 == 1019);
    assert(bits % 0x10_0000_0000_0000 == 0x4_7AE1_47AE_147B);
    assert(pow2(8) == 0x100);
    assert(binary64_scaled(bits) == 0x14_7AE1_47AE_147B * 0x100);
}

/// The terminal punctuation that the draw `d` selects.
pub fn terminal(d: Draw) -> (s: &'static str)
    ensures
        s@ == terminal_of(d),
{
    if d.is_under(5) {
        let s = "!";
        proof {
            reveal_strlit("!");
            assert(s@ =~= terminal_of(d));
        }
        s
    } else if d.is_under(7) {
        let s = "!!";
        proof {
            reveal_strlit("!!");
            assert(s@ =~= terminal_of(d));
        }
        s
    } else if d.is_under(14) {
        let s = "?";
        proof {
            reveal_strlit("?");
            assert(s@ =~= terminal_of(d));
        }
        s
    } else if d.is_under(25) {
        let s = " :3";
        proof {
            reveal_strlit(" :3");
            assert(s@ =~= terminal_of(d));
        }
        s
    } else if d.is_under(27) {
        let s = "...";
        proof {
            reveal_strlit("...");
            assert(s@ =~= terminal_of(d));
        }
        s
    } else {
        let s = ".";
        proof {
            reveal_strlit(".");
            assert(s@ =~= terminal_of(d));
        }
        s
    }
}

/// The first `k` words of a sentence of `total` words whose draws start at
/// position `from`, each followed by what the draw after it selects: the
/// terminal punctuation after the last word, a separator after any other.
pub open spec fn words(k: nat, total: nat, config: Config, draws: Seq<Draw>, from: int) -> Piece
    decreases k,
{
    if k == 0 {
        Piece { text: Seq::empty(), end: from }
    } else {
        let before = words((k - 1) as nat, total, config, draws, from);
        let w = word_of(config, draws, before.end);
        let mark = if k == total {
            terminal_of(draws[w.end])
        } else {
            separator_of(draws[w.end])
        };
        Piece { text: before.text + w.text + mark, end: w.end + 1 }
    }
}

/// The number of words that `config` asks for when the draw that resolves
/// it, if any, is read at position `from`.
pub open spec fn sentence_len_of(config: Config, draws: Seq<Draw>, from: int) -> nat {
    count(config.sentence_len, SENTENCE_MIN, SENTENCE_MAX, draws, from) as nat
}

/// The sentence that `config` asks for when the draws are read from
/// position `from`: first the draw that resolves the length, if the length
/// is a range, then the draws of the words and of what follows each.
pub open spec fn sentence_of(config: Config, draws: Seq<Draw>, from: int) -> Piece {
    let n = sentence_len_of(config, draws, from);
    words(n, n, config, draws, from + reads(config.sentence_len))
}

/// Every word of a sentence moves the reading position forward.
pub proof fn lemma_words_shape(k: nat, total: nat, config: Config, draws: Seq<Draw>, from: int)
    ensures
        from + k <= words(k, total, config, draws, from).end,
        k > 0 ==> words((k - 1) as nat, total, config, draws, from).end < words(
            k,
            total,
            config,
            draws,
            from,
        ).end,
    decreases k,
{
    if k > 0 {
        let less = (k - 1) as nat;
        lemma_words_shape(less, total, config, draws, from);
        lemma_word_shape(config, draws, words(less, total, config, draws, from).end);
    }
}

/// The words of a sentence depend only on the draws that were read for
/// them.
pub proof fn lemma_words_agree(
    k: nat,
    total: nat,
    config: Config,
    a: Seq<Draw>,
    b: Seq<Draw>,
    from: int,
)
    requires
        0 <= from,
        agree(a, b, words(k, total, config, a, from).end),
    ensures
        words(k, total, config, a, from) == words(k, total, config, b, from),
    decreases k,
{
    if k > 0 {
        let less = (k - 1) as nat;
        lemma_words_shape(k, total, config, a, from);
        lemma_words_shape(less, total, config, a, from);
        lemma_words_agree(less, total, config, a, b, from);
        let before = words(less, total, config, a, from);
        lemma_word_agree(config, a, b, before.end);
        lemma_word_shape(config, a, before.end);
        let w = word_of(config, a, before.end);
        assert(a[w.end] == b[w.end]);
    }
}

/// A sentence reads at least the draw that resolves its length, where
/// there is one.
pub proof fn lemma_sentence_shape(config: Config, draws: Seq<Draw>, from: int)
    ensures
        from + reads(config.sentence_len) <= sentence_of(config, draws, from).end,
{
    let n = sentence_len_of(config, draws, from);
    lemma_words_shape(n, n, config, draws, from + reads(config.sentence_len));
}

/// A sentence depends only on the draws that were read for it.
pub proof fn lemma_sentence_agree(config: Config, a: Seq<Draw>, b: Seq<Draw>, from: int)
    requires
        0 <= from,
        agree(a, b, sentence_of(config, a, from).end),
    ensures
        sentence_of(config, a, from) == sentence_of(config, b, from),
{
    lemma_sentence_shape(config, a, from);
    let n = sentence_len_of(config, a, from);
    if reads(config.sentence_len) == 1 {
        assert(a[from] == b[from]);
    }
    lemma_words_agree(n, n, config, a, b, from + reads(config.sentence_len));
}

/// The letters in the first `k` words of a sentence: the sum of the
/// lengths of the words, without separators and punctuation.
pub open spec fn letters_in(k: nat, total: nat, config: Config, draws: Seq<Draw>, from: int) -> nat
    decreases k,
{
    if k == 0 {
        0
    } else {
        let before = words((k - 1) as nat, total, config, draws, from);
        letters_in((k - 1) as nat, total, config, draws, from) + word_of(
            config,
            draws,
            before.end,
        ).text.len()
    }
}

/// The first `k` words of a sentence, with what follows each, are longer
/// than their letters alone by at least one character a word.
pub proof fn lemma_words_length(k: nat, total: nat, config: Config, draws: Seq<Draw>, from: int)
    ensures
        words(k, total, config, draws, from).text.len() >= letters_in(k, total, config, draws, from)
            + k,
    decreases k,
{
    if k > 0 {
        lemma_words_length((k - 1) as nat, total, config, draws, from);
    }
}

/// A sentence is never shorter than the words in it: it has at least one
/// character more for each word than the words have letters.
pub proof fn lemma_sentence_length(config: Config, draws: Seq<Draw>, from: int)
    ensures
        ({
            let n = sentence_len_of(config, draws, from);
            sentence_of(config, draws, from).text.len() >= letters_in(
                n,
                n,
                config,
                draws,
                from + reads(config.sentence_len),
            ) + n
        }),
{
    let n = sentence_len_of(config, draws, from);
    lemma_words_length(n, n, config, draws, from + reads(config.sentence_len));
}

/// A sentence of no words is empty and reads nothing but the draw that
/// resolved its length, where there was one. Any other sentence ends with
/// its punctuation, never with a space.
pub proof fn lemma_sentence_ending(config: Config, draws: Seq<Draw>, from: int)
    ensures
        sentence_len_of(config, draws, from) == 0 ==> sentence_of(config, draws, from) == (Piece {
            text: Seq::empty(),
            end: from + reads(config.sentence_len),
        }),
        sentence_len_of(config, draws, from) > 0 ==> sentence_of(config, draws, from).text.len() > 0
            && sentence_of(config, draws, from).text.last() != ' ',
{
    let n = sentence_len_of(config, draws, from);
    if n > 0 {
        let start = from + reads(config.sentence_len);
        let before = words((n - 1) as nat, n, config, draws, start);
        let w = word_of(config, draws, before.end);
        let mark = terminal_of(draws[w.end]);
        assert(mark.len() > 0 && mark.last() != ' ');
        assert(sentence_of(config, draws, from).text == before.text + w.text + mark);
    }
}

/// Two runs whose draws are the same as far as both go made the same
/// sentence from the same number of draws.
pub proof fn lemma_sentence_determined(
    config: Config,
    a: Seq<Draw>,
    b: Seq<Draw>,
    out_a: Seq<char>,
    out_b: Seq<char>,
)
    requires
        sentence_of(config, a, 0) == (Piece { text: out_a, end: a.len() as int }),
        sentence_of(config, b, 0) == (Piece { text: out_b, end: b.len() as int }),
        alike(a, b),
    ensures
        out_a == out_b,
        a.len() == b.len(),
{
    if a.len() <= b.len() {
        lemma_sentence_agree(config, a, b, 0);
    } else {
        lemma_sentence_agree(config, b, a, 0);
    }
}

/// Builds a sentence, recording the draws it takes.
///
/// `log` records the draws of the run so far, which began at `origin`; the
/// result carries the record with the sentence's draws appended.
pub(crate) fn sentence_raw<R: Rand>(
    rng: &mut R,
    config: &Config,
    Ghost(origin): Ghost<R>,
    Ghost(log): Ghost<Seq<Draw>>,
) -> (out: (String, Ghost<Seq<Draw>>))
    requires
        ran(origin, log, *old(rng)),
    ensures
        ran(origin, out.1@, *final(rng)),
        log.len() <= out.1@.len(),
        agree(log, out.1@, log.len() as int),
        sentence_of(*config, out.1@, log.len() as int) == (Piece {
            text: out.0@,
            end: out.1@.len() as int,
        }),
        out.1@.len() == log.len() ==> *final(rng) == *old(rng),
{
    let mut out = String::new();

    let (len, Ghost(resolved)) = util_range(
        rng,
        config.sentence_len,
        SENTENCE_MIN,
        SENTENCE_MAX,
        Ghost(origin),
        Ghost(log),
    );
    let ghost start = resolved.len() as int;
    let ghost rested = *rng;
    let ghost mut now = resolved;

    let mut i: u32 = 0;
    while i < len
        invariant
            i <= len,
            0 <= start <= now.len(),
            ran(origin, now, *rng),
            agree(resolved, now, start),
            words(i as nat, len as nat, *config, now, start) == (Piece {
                text: out@,
                end: now.len() as int,
            }),
            now.len() == start ==> *rng == rested,
        decreases len - i,
    {
        let ghost before = now;
        let ghost text_before = out@;
        let (w, Ghost(worded)) = word_raw(rng, config, Ghost(origin), Ghost(now));
        out.append(w.as_str());
        let d = take(rng, Ghost(origin), Ghost(worded));
        if i == len - 1 {
            out.append(terminal(d));
        } else {
            out.append(separator(d));
        }
        proof {
            now = worded.push(d);
            lemma_words_agree(i as nat, len as nat, *config, before, now, start);
            lemma_word_agree(*config, worded, now, before.len() as int);
            assert(out@ =~= words((i + 1) as nat, len as nat, *config, now, start).text);
        }
        i += 1;
    }
    proof {
        assert forall|k: int| 0 <= k < log.len() implies log[k] == now[k] by {
            assert(log[k] == resolved[k]);
        }
    }
    (out, Ghost(now))
}

/// Generates words to form a sentence. The sentence ends with some form of
/// punctuation, and may contain commas.
///
/// The sentence is what `sentence_of` makes of the draws that `rng` handed
/// out during the call, and the call takes no draw that the sentence does
/// not read.
pub fn sentence<R: Rand>(rng: &mut R, config: &Config) -> (out: String)
    ensures
        exists|draws: Seq<Draw>| #[trigger]
            ran(*old(rng), draws, *final(rng)) && sentence_of(*config, draws, 0) == (Piece {
                text: out@,
                end: draws.len() as int,
            }),
        config.sentence_len == Some((0u32, None::<u32>)) ==> out@.len() == 0 && *final(rng)
            == *old(rng),
        out@.len() > 0 ==> out@.last() != ' ',
{
    let ghost origin = *rng;
    let (out, Ghost(draws)) = sentence_raw(rng, config, Ghost(origin), Ghost(Seq::empty()));
    proof {
        lemma_sentence_ending(*config, draws, 0);
    }
    out
}

} // verus!
