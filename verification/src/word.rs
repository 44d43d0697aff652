//! The word synthesizer: a four-state machine over character classes that
//! emits one letter per step.

use crate::config::{Config, WORD_MAX, WORD_MIN};
use crate::draw::{lemma_floor_of_bounds, Draw};
use crate::range::{count, reads, util_range};
use crate::source::{agree, alike, ran, take, Rand};
use vstd::prelude::*;
use vstd::string::StringExecFns;

verus! {

/// The class of the letter emitted last.
#[derive(Clone, Copy, Debug, PartialEq, Eq, Structural)]
pub enum Kind {
    /// No letter yet: the state every word starts in.
    Start,
    /// A letter from the whole alphabet, or a consonant that is no liquid
    /// or approximant.
    Consonant,
    /// A vowel.
    Vowel,
    /// A liquid or approximant: one of `s`, `l`, `w`.
    Lac,
}

/// A table of letters to pick from.
#[derive(Clone, Copy, Debug, PartialEq, Eq, Structural)]
pub enum Pool {
    /// The whole alphabet, 26 letters.
    Full,
    /// The five vowels.
    Vowel,
    /// The consonants that are no liquids or approximants: the 18 letters
    /// that are neither vowels nor `s`, `l`, `w`.
    Fill,
    /// The liquids and approximants `s`, `l`, `w`.
    Lac,
}

impl Pool {
    /// The letters of the table, in order.
    pub open spec fn letters(self) -> Seq<char> {
        match self {
            Pool::Full => seq![
                'a', 'b', 'c', 'd', 'e', 'f', 'g', 'h', 'i', 'j', 'k', 'l', 'm',
                'n', 'o', 'p', 'q', 'r', 's', 't', 'u', 'v', 'w', 'x', 'y', 'z',
            ],
            Pool::Vowel => seq!['a', 'e', 'i', 'o', 'u'],
            Pool::Fill => seq![
                'b', 'c', 'd', 'f', 'g', 'h', 'j', 'k', 'm',
                'n', 'p', 'q', 'r', 't', 'v', 'x', 'y', 'z',
            ],
            Pool::Lac => seq!['s', 'l', 'w'],
        }
    }

    /// The letter that the draw `d` selects: the one at the whole part of
    /// `d` times the table's length.
    pub open spec fn letter_at(self, d: Draw) -> char {
        self.letters()[d.floor_of(self.letters().len() as int)]
    }

    /// The table as a string.
    pub fn text(self) -> (s: &'static str)
        ensures
            s@ == self.letters(),
            s.is_ascii(),
    {
        match self {
            Pool::Full => {
                let s = "abcdefghijklmnopqrstuvwxyz";
                proof {
                    reveal_strlit("abcdefghijklmnopqrstuvwxyz");
                    assert(s@ =~= self.letters());
                }
                s
            },
            Pool::Vowel => {
                let s = "aeiou";
                proof {
                    reveal_strlit("aeiou");
                    assert(s@ =~= self.letters());
                }
                s
            },
            Pool::Fill => {
                let s = "bcdfghjkmnpqrtvxyz";
                proof {
                    reveal_strlit("bcdfghjkmnpqrtvxyz");
                    assert(s@ =~= self.letters());
                }
                s
            },
            Pool::Lac => {
                let s = "slw";
                proof {
                    reveal_strlit("slw");
                    assert(s@ =~= self.letters());
                }
                s
            },
        }
    }

    /// Picks the letter that the draw `d` selects, as a one-letter string.
    pub fn pick(self, d: Draw) -> (s: &'static str)
        ensures
            s@ == seq![self.letter_at(d)],
    {
        let table = self.text();
        let size = table.unicode_len();
        let at = d.scale(size as u32) as usize;
        let s = table.substring_ascii(at, at + 1);
        assert(s@ =~= seq![self.letter_at(d)]);
        s
    }
}

impl Kind {
    /// Whether a step from this state takes a draw to choose its row of the
    /// table, before the draw that picks the letter.
    pub open spec fn branches(self) -> bool {
        self is Consonant || self is Vowel
    }

    /// The row of the transition table that applies in this state: the
    /// table the next letter comes from, and the state that follows.
    /// `branch` is the draw that chooses the row where the state has two.
    pub open spec fn turn_of(self, branch: Draw) -> (Pool, Kind) {
        match self {
            Kind::Start => (Pool::Full, Kind::Consonant),
            Kind::Consonant => if branch.under(33) {
                (Pool::Lac, Kind::Lac)
            } else {
                (Pool::Vowel, Kind::Vowel)
            },
            Kind::Lac => (Pool::Vowel, Kind::Vowel),
            Kind::Vowel => if branch.under(25) {
                (Pool::Vowel, Kind::Vowel)
            } else {
                (Pool::Fill, Kind::Consonant)
            },
        }
    }
}

/// A word under construction: the letters so far, the state of the machine,
/// and the position of the next draw to read.
pub struct Letters {
    pub text: Seq<char>,
    pub state: Kind,
    pub end: int,
}

/// One step of the machine: reads the branch draw where the state has one,
/// then the draw that picks the letter.
pub open spec fn step(before: Letters, draws: Seq<Draw>) -> Letters {
    let pick_at = if before.state.branches() {
        before.end + 1
    } else {
        before.end
    };
    let turn = before.state.turn_of(draws[before.end]);
    Letters {
        text: before.text.push(turn.0.letter_at(draws[pick_at])),
        state: turn.1,
        end: pick_at + 1,
    }
}

/// The first `n` letters of a word whose draws start at position `from`.
pub open spec fn letters(n: nat, draws: Seq<Draw>, from: int) -> Letters
    decreases n,
{
    if n == 0 {
        Letters { text: Seq::empty(), state: Kind::Start, end: from }
    } else {
        step(letters((n - 1) as nat, draws, from), draws)
    }
}

/// A piece of generated text, and the position just past the last draw
/// that went into it.
pub struct Piece {
    pub text: Seq<char>,
    pub end: int,
}

/// The number of letters that `config` asks for when the draw that
/// resolves it, if any, is read at position `from`.
pub open spec fn word_len_of(config: Config, draws: Seq<Draw>, from: int) -> nat {
    count(config.word_len, WORD_MIN, WORD_MAX, draws, from) as nat
}

/// The word that `config` asks for when the draws are read from position
/// `from`: first the draw that resolves the length, if the length is a
/// range, then the draws of the letters.
pub open spec fn word_of(config: Config, draws: Seq<Draw>, from: int) -> Piece {
    let made = letters(word_len_of(config, draws, from), draws, from + reads(config.word_len));
    Piece { text: made.text, end: made.end }
}

/// A word under construction has one letter per step, and each step reads
/// one or two draws.
pub proof fn lemma_letters_shape(n: nat, draws: Seq<Draw>, from: int)
    ensures
        letters(n, draws, from).text.len() == n,
        from + n <= letters(n, draws, from).end <= from + 2 * n,
        n > 0 ==> letters((n - 1) as nat, draws, from).end < letters(n, draws, from).end,
    decreases n,
{
    if n > 0 {
        lemma_letters_shape((n - 1) as nat, draws, from);
    }
}

/// The letters depend only on the draws that were read: two sequences that
/// agree up to the last position read give the same word.
pub proof fn lemma_letters_agree(n: nat, a: Seq<Draw>, b: Seq<Draw>, from: int)
    requires
        0 <= from,
        agree(a, b, letters(n, a, from).end),
    ensures
        letters(n, a, from) == letters(n, b, from),
    decreases n,
{
    if n > 0 {
        let less = (n - 1) as nat;
        lemma_letters_shape(n, a, from);
        lemma_letters_shape(less, a, from);
        lemma_letters_agree(less, a, b, from);
        let before = letters(less, a, from);
        assert(a[before.end] == b[before.end]);
        assert(a[before.end + 1] == b[before.end + 1] || !before.state.branches());
    }
}

/// A word reads at least the draw that resolves its length, where there is
/// one, and has as many letters as its length resolves to.
pub proof fn lemma_word_shape(config: Config, draws: Seq<Draw>, from: int)
    ensures
        from + reads(config.word_len) <= word_of(config, draws, from).end,
        word_of(config, draws, from).text.len() == word_len_of(config, draws, from),
{
    lemma_letters_shape(word_len_of(config, draws, from), draws, from + reads(config.word_len));
}

/// A word depends only on the draws that were read for it.
pub proof fn lemma_word_agree(config: Config, a: Seq<Draw>, b: Seq<Draw>, from: int)
    requires
        0 <= from,
        agree(a, b, word_of(config, a, from).end),
    ensures
        word_of(config, a, from) == word_of(config, b, from),
{
    lemma_word_shape(config, a, from);
    if reads(config.word_len) == 1 {
        assert(a[from] == b[from]);
    }
    lemma_letters_agree(word_len_of(config, a, from), a, b, from + reads(config.word_len));
}

/// Every letter of a table is a lower-case letter of the alphabet, and so
/// is every letter that a draw picks from it.
pub proof fn lemma_pick_lowercase(pool: Pool, d: Draw)
    ensures
        'a' <= pool.letter_at(d) <= 'z',
{
    let size = pool.letters().len() as int;
    lemma_floor_of_bounds(d, size);
    let at = d.floor_of(size);
    assert(0 <= at < size);
    assert forall|i: int| 0 <= i < size implies 'a' <= #[trigger] pool.letters()[i] <= 'z' by {
        match pool {
            Pool::Full => {},
            Pool::Vowel => {},
            Pool::Fill => {},
            Pool::Lac => {},
        }
    }
}

/// A word is made of lower-case letters only.
pub proof fn lemma_letters_lowercase(n: nat, draws: Seq<Draw>, from: int)
    ensures
        forall|i: int| 0 <= i < n ==> 'a' <= #[trigger] letters(n, draws, from).text[i] <= 'z',
    decreases n,
{
    if n > 0 {
        let less = (n - 1) as nat;
        lemma_letters_shape(less, draws, from);
        lemma_letters_lowercase(less, draws, from);
        let before = letters(less, draws, from);
        let pick_at = if before.state.branches() {
            before.end + 1
        } else {
            before.end
        };
        let turn = before.state.turn_of(draws[before.end]);
        lemma_pick_lowercase(turn.0, draws[pick_at]);
        assert forall|i: int| 0 <= i < n implies 'a' <= #[trigger] letters(
            n,
            draws,
            from,
        ).text[i] <= 'z' by {
            if i < n - 1 {
                assert(letters(n, draws, from).text[i] == before.text[i]);
            }
        }
    }
}

/// Whether `c` is one of the five vowels.
pub open spec fn is_vowel(c: char) -> bool {
    c == 'a' || c == 'e' || c == 'i' || c == 'o' || c == 'u'
}

/// Whether `c` is a liquid or approximant: `s`, `l` or `w`.
pub open spec fn is_liquid(c: char) -> bool {
    c == 's' || c == 'l' || c == 'w'
}

/// What a draw picks from a table other than the whole alphabet is of the
/// table's class: a vowel, a liquid, or a consonant that is neither.
pub proof fn lemma_pick_class(pool: Pool, d: Draw)
    ensures
        pool == Pool::Vowel ==> is_vowel(pool.letter_at(d)),
        pool == Pool::Lac ==> is_liquid(pool.letter_at(d)),
        pool == Pool::Fill ==> !is_vowel(pool.letter_at(d)) && !is_liquid(pool.letter_at(d)),
{
    let size = pool.letters().len() as int;
    lemma_floor_of_bounds(d, size);
    let at = d.floor_of(size);
    assert(0 <= at < size);
    match pool {
        Pool::Full => {},
        Pool::Vowel => {
            assert forall|i: int| 0 <= i < size implies is_vowel(#[trigger] pool.letters()[i]) by {}
        },
        Pool::Fill => {
            assert forall|i: int| 0 <= i < size implies !is_vowel(#[trigger] pool.letters()[i])
                && !is_liquid(pool.letters()[i]) by {}
        },
        Pool::Lac => {
            assert forall|i: int| 0 <= i < size implies is_liquid(#[trigger] pool.letters()[i]) by {}
        },
    }
}

/// A longer word starts with the shorter one: the first `k` letters of a
/// word do not depend on how many follow.
pub proof fn lemma_letters_prefix(k: nat, n: nat, draws: Seq<Draw>, from: int)
    requires
        k <= n,
    ensures
        forall|i: int|
            0 <= i < k ==> #[trigger] letters(n, draws, from).text[i] == letters(
                k,
                draws,
                from,
            ).text[i],
    decreases n,
{
    if k < n {
        let less = (n - 1) as nat;
        lemma_letters_prefix(k, less, draws, from);
        lemma_letters_shape(less, draws, from);
        lemma_letters_shape(k, draws, from);
        assert forall|i: int| 0 <= i < k implies #[trigger] letters(n, draws, from).text[i]
            == letters(k, draws, from).text[i] by {
            assert(letters(n, draws, from).text[i] == letters(less, draws, from).text[i]);
        }
    }
}

/// From the second letter on, the state of the machine tells the class of
/// the letter emitted last, and the class tells the state.
pub proof fn lemma_letters_class(n: nat, draws: Seq<Draw>, from: int)
    requires
        n >= 1,
    ensures
        letters(n, draws, from).state != Kind::Start,
        n >= 2 ==> ({
            let made = letters(n, draws, from);
            let last = made.text[n - 1];
            &&& made.state == Kind::Vowel <==> is_vowel(last)
            &&& made.state == Kind::Lac <==> is_liquid(last)
        }),
    decreases n,
{
    let less = (n - 1) as nat;
    let before = letters(less, draws, from);
    lemma_letters_shape(less, draws, from);
    if n >= 2 {
        lemma_letters_class(less, draws, from);
        let pick_at = if before.state.branches() {
            before.end + 1
        } else {
            before.end
        };
        lemma_pick_class(before.state.turn_of(draws[before.end]).0, draws[pick_at]);
    }
}

/// After a vowel, a letter that is no vowel is no liquid either: it comes
/// from the table of the other consonants.
pub proof fn lemma_no_liquid_after_vowel(n: nat, draws: Seq<Draw>, from: int)
    ensures
        forall|i: int|
            2 <= i < n && is_vowel(letters(n, draws, from).text[i - 1]) && !is_vowel(
                #[trigger] letters(n, draws, from).text[i],
            ) ==> !is_liquid(letters(n, draws, from).text[i]),
{
    let text = letters(n, draws, from).text;
    assert forall|i: int| 2 <= i < n && is_vowel(text[i - 1]) && !is_vowel(
        #[trigger] text[i],
    ) implies !is_liquid(text[i]) by {
        let upto = i as nat;
        let before = letters(upto, draws, from);
        let after = letters((upto + 1) as nat, draws, from);
        lemma_letters_prefix(upto, n, draws, from);
        lemma_letters_prefix((upto + 1) as nat, n, draws, from);
        lemma_letters_shape(upto, draws, from);
        lemma_letters_class(upto, draws, from);
        assert(text[i - 1] == before.text[i - 1]);
        assert(text[i] == after.text[i]);
        assert(before.state == Kind::Vowel);
        let turn = before.state.turn_of(draws[before.end]);
        lemma_pick_class(turn.0, draws[before.end + 1]);
        assert(after.text[i] == turn.0.letter_at(draws[before.end + 1]));
    }
}

/// The word that comes out when every draw is zero: `a` from the whole
/// alphabet, `s` from the liquids, then `a` from the vowels for as long as
/// the word goes on.
pub open spec fn zero_word(n: nat) -> Seq<char> {
    Seq::new(
        n,
        |i: int|
            if i == 1 {
                's'
            } else {
                'a'
            },
    )
}

/// With zero for every draw that is read, each step picks the first letter
/// of its table, and the machine goes from the start through a consonant
/// and a liquid to the vowels, where it stays.
pub proof fn lemma_zero_letters(n: nat, draws: Seq<Draw>, from: int)
    requires
        forall|i: int|
            from <= i < letters(n, draws, from).end ==> (#[trigger] draws[i]).bits == 0,
    ensures
        letters(n, draws, from).text == zero_word(n),
        letters(n, draws, from).state == (if n == 0 {
            Kind::Start
        } else if n == 1 {
            Kind::Consonant
        } else if n == 2 {
            Kind::Lac
        } else {
            Kind::Vowel
        }),
        letters(n, draws, from).end == from + (if n <= 1 {
            n as int
        } else if n == 2 {
            3
        } else {
            2 * n - 2
        }),
    decreases n,
{
    if n == 0 {
        assert(letters(n, draws, from).text =~= zero_word(n));
    } else {
        let less = (n - 1) as nat;
        lemma_letters_shape(n, draws, from);
        lemma_letters_shape(less, draws, from);
        lemma_zero_letters(less, draws, from);
        let before = letters(less, draws, from);
        assert(draws[before.end].bits == 0);
        assert(draws[before.end + 1].bits == 0 || !before.state.branches());
        assert(Pool::Full.letters()[0] == 'a');
        assert(Pool::Lac.letters()[0] == 's');
        assert(Pool::Vowel.letters()[0] == 'a');
        assert(letters(n, draws, from).text =~= zero_word(n));
    }
}

/// A word of length zero is empty and reads nothing but the draw that
/// resolved its length, where there was one.
pub proof fn lemma_empty_word(config: Config, draws: Seq<Draw>, from: int)
    requires
        word_len_of(config, draws, from) == 0,
    ensures
        word_of(config, draws, from) == (Piece {
            text: Seq::empty(),
            end: from + reads(config.word_len),
        }),
{
}

/// With zero for every draw, a word of fixed length `n` is the first `n`
/// letters of `asaaa...`.
pub proof fn lemma_zero_word(config: Config, n: u32, draws: Seq<Draw>, from: int)
    requires
        config.word_len == Some((n, None::<u32>)),
        forall|i: int|
            from <= i < word_of(config, draws, from).end ==> (#[trigger] draws[i]).bits == 0,
    ensures
        word_of(config, draws, from).text == zero_word(n as nat),
{
    lemma_zero_letters(n as nat, draws, from);
}

/// Two runs whose draws are the same as far as both go made the same word
/// from the same number of draws.
pub proof fn lemma_word_determined(
    config: Config,
    a: Seq<Draw>,
    b: Seq<Draw>,
    out_a: Seq<char>,
    out_b: Seq<char>,
)
    requires
        word_of(config, a, 0) == (Piece { text: out_a, end: a.len() as int }),
        word_of(config, b, 0) == (Piece { text: out_b, end: b.len() as int }),
        alike(a, b),
    ensures
        out_a == out_b,
        a.len() == b.len(),
{
    if a.len() <= b.len() {
        lemma_word_agree(config, a, b, 0);
    } else {
        lemma_word_agree(config, b, a, 0);
    }
}

/// Builds a word, recording the draws it takes.
///
/// `log` records the draws of the run so far, which began at `origin`; the
/// result carries the record with the word's draws appended.
pub(crate) fn word_raw<R: Rand>(
    rng: &mut R,
    config: &Config,
    Ghost(origin): Ghost<R>,
    Ghost(log): Ghost<Seq<Draw>>,
) -> (out: (String, Ghost<Seq<Draw>>))
    requires
        ran(origin, log, *old(rng)),
    ensures
        ran(origin, out.1@, *final(rng)),
        log.len() <= out.1@.len(),
        agree(log, out.1@, log.len() as int),
        word_of(*config, out.1@, log.len() as int) == (Piece {
            text: out.0@,
            end: out.1@.len() as int,
        }),
        out.1@.len() == log.len() ==> *final(rng) == *old(rng),
{
    let mut out = String::new();

    let (len, Ghost(resolved)) = util_range(
        rng,
        config.word_len,
        WORD_MIN,
        WORD_MAX,
        Ghost(origin),
        Ghost(log),
    );
    let ghost start = resolved.len() as int;
    let ghost rested = *rng;
    let ghost mut now = resolved;

    let mut state = Kind::Start;
    let mut i: u32 = 0;
    while i < len
        invariant
            i <= len,
            0 <= start <= now.len(),
            ran(origin, now, *rng),
            agree(resolved, now, start),
            letters(i as nat, now, start) == (Letters { text: out@, state, end: now.len() as int }),
            now.len() == start ==> *rng == rested,
        decreases len - i,
    {
        let ghost before = now;
        let pool = match state {
            Kind::Start => {
                state = Kind::Consonant;
                Pool::Full
            },
            Kind::Consonant => {
                let branch = take(rng, Ghost(origin), Ghost(now));
                proof {
                    now = now.push(branch);
                }
                if branch.is_under(33) {
                    state = Kind::Lac;
                    Pool::Lac
                } else {
                    state = Kind::Vowel;
                    Pool::Vowel
                }
            },
            Kind::Lac => {
                state = Kind::Vowel;
                Pool::Vowel
            },
            Kind::Vowel => {
                let branch = take(rng, Ghost(origin), Ghost(now));
                proof {
                    now = now.push(branch);
                }
                if branch.is_under(25) {
                    state = Kind::Vowel;
                    Pool::Vowel
                } else {
                    state = Kind::Consonant;
                    Pool::Fill
                }
            },
        };
        let d = take(rng, Ghost(origin), Ghost(now));
        let ghost grown = out@.push(pool.letter_at(d));
        out.append(pool.pick(d));
        proof {
            now = now.push(d);
            lemma_letters_agree(i as nat, before, now, start);
            assert(out@ =~= grown);
        }
        i += 1;
    }
    proof {
        lemma_letters_shape(len as nat, now, start);
        assert forall|k: int| 0 <= k < log.len() implies log[k] == now[k] by {
            assert(log[k] == resolved[k]);
        }
    }
    (out, Ghost(now))
}

/// Generates a word.
///
/// The word is what `word_of` makes of the draws that `rng` handed out
/// during the call, and the call takes no draw that the word does not
/// read.
pub fn word<R: Rand>(rng: &mut R, config: &Config) -> (out: String)
    ensures
        exists|draws: Seq<Draw>| #[trigger]
            ran(*old(rng), draws, *final(rng)) && word_of(*config, draws, 0) == (Piece {
                text: out@,
                end: draws.len() as int,
            }),
        config.word_len matches Some((n, None)) ==> out@.len() == n,
        forall|i: int| 0 <= i < out@.len() ==> 'a' <= #[trigger] out@[i] <= 'z',
        forall|i: int|
            2 <= i < out@.len() && is_vowel(out@[i - 1]) && !is_vowel(#[trigger] out@[i])
                ==> !is_liquid(out@[i]),
        config.word_len == Some((0u32, None::<u32>)) ==> *final(rng) == *old(rng),
{
    let ghost origin = *rng;
    let (out, Ghost(draws)) = word_raw(rng, config, Ghost(origin), Ghost(Seq::empty()));
    proof {
        let n = word_len_of(*config, draws, 0);
        lemma_letters_shape(n, draws, reads(config.word_len) as int);
        lemma_letters_lowercase(n, draws, reads(config.word_len) as int);
        lemma_no_liquid_after_vowel(n, draws, reads(config.word_len) as int);
    }
    out
}

} // verus!
