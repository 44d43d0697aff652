use babble::word::Pool;
use babble::{word, Config, Draw, Rand, Tape};

struct Fake;

impl Rand for Fake {
    fn next(&mut self) -> Draw {
        Draw::from_binary64(0.0f64.to_bits())
    }
}

/// Hands out the same draw forever and counts how often it was asked.
struct Constant {
    bits: u64,
    taken: usize,
}

impl Rand for Constant {
    fn next(&mut self) -> Draw {
        self.taken += 1;
        Draw::from_bits(self.bits)
    }
}

/// A linear congruential generator: every bit pattern may come out.
struct Lcg(u64);

impl Rand for Lcg {
    fn next(&mut self) -> Draw {
        self.0 = self
            .0
            .wrapping_mul(6364136223846793005)
            .wrapping_add(1442695040888963407);
        Draw::from_bits(self.0)
    }
}

fn letters(n: u32) -> Config {
    Config {
        word_len: Some((n, None)),
        ..Default::default()
    }
}

fn tape(bits: &[u64]) -> Tape {
    Tape::new(bits.iter().map(|b| Draw::from_bits(*b)).collect())
}

const HALF: u64 = 1 << 63;
const TOP: u64 = u64::MAX;
// The smallest draw that is not under 0.33, and the one before it.
const THIRD: u64 = 6087425544324152034;
// The draw 0.25 exactly.
const QUARTER: u64 = 1 << 62;

#[test]
fn test() {
    let word = word(
        &mut Fake,
        &Config {
            word_len: Some((4, None)),
            ..Default::default()
        },
    );
    assert_eq!(word.len(), 4);
}

#[test]
fn zero_source_gives_first_letters() {
    assert_eq!(word(&mut Fake, &letters(4)), "asaa");
    assert_eq!(word(&mut Fake, &letters(1)), "a");
    assert_eq!(word(&mut Fake, &letters(2)), "as");
    assert_eq!(word(&mut Fake, &letters(9)), "asaaaaaaa");
}

#[test]
fn zero_source_default_length_is_the_minimum() {
    assert_eq!(word(&mut Fake, &Config::default()), "as");
}

#[test]
fn fixed_length_is_exact_for_any_source() {
    for n in [0u32, 1, 2, 3, 7, 12, 40, 500] {
        for seed in [1u64, 2, 99, 12345] {
            let w = word(&mut Lcg(seed), &letters(n));
            assert_eq!(w.chars().count(), n as usize);
            assert_eq!(w.len(), n as usize);
        }
        assert_eq!(word(&mut Constant { bits: TOP, taken: 0 }, &letters(n)).len(), n as usize);
        assert_eq!(word(&mut Constant { bits: HALF, taken: 0 }, &letters(n)).len(), n as usize);
    }
}

#[test]
fn words_are_lower_case_letters() {
    for seed in 0..50u64 {
        let w = word(&mut Lcg(seed), &Config::default());
        assert!(w.chars().all(|c| c.is_ascii_lowercase()));
        assert!(w.len() >= 2 && w.len() < 12);
    }
}

#[test]
fn zero_length_word_is_empty_and_takes_no_draw() {
    let mut source = Constant { bits: HALF, taken: 0 };
    assert_eq!(word(&mut source, &letters(0)), "");
    assert_eq!(source.taken, 0);
}

#[test]
fn zero_length_from_a_range_takes_the_resolver_draw_only() {
    let mut source = Constant { bits: TOP, taken: 0 };
    let config = Config {
        word_len: Some((0, Some(1))),
        ..Default::default()
    };
    assert_eq!(word(&mut source, &config), "");
    assert_eq!(source.taken, 1);
}

#[test]
fn draws_per_letter_follow_the_state() {
    // Start takes one draw, Consonant two, Lac one, Vowel two.
    let mut source = Constant { bits: 0, taken: 0 };
    word(&mut source, &letters(1));
    assert_eq!(source.taken, 1);
    let mut source = Constant { bits: 0, taken: 0 };
    word(&mut source, &letters(2));
    assert_eq!(source.taken, 3);
    let mut source = Constant { bits: 0, taken: 0 };
    word(&mut source, &letters(3));
    assert_eq!(source.taken, 4);
    let mut source = Constant { bits: 0, taken: 0 };
    word(&mut source, &letters(4));
    assert_eq!(source.taken, 6);
}

#[test]
fn half_source_alternates_consonant_and_vowel() {
    let mut source = Constant { bits: HALF, taken: 0 };
    assert_eq!(word(&mut source, &Config::default()), "nininin");
    assert_eq!(source.taken, 14);
}

#[test]
fn top_source_stays_inside_every_table() {
    let mut source = Constant { bits: TOP, taken: 0 };
    assert_eq!(word(&mut source, &Config::default()), "zuzuzuzuzuz");
    assert_eq!(source.taken, 22);
}

#[test]
fn consonant_branches_at_a_third() {
    // Start picks 'a'; the branch draw just under 0.33 leads to the liquids.
    let mut under = tape(&[0, THIRD - 1, TOP]);
    assert_eq!(word(&mut under, &letters(2)), "aw");
    // At the threshold and above, a vowel follows.
    let mut at = tape(&[0, THIRD, TOP]);
    assert_eq!(word(&mut at, &letters(2)), "au");
}

#[test]
fn liquid_is_followed_by_a_vowel_without_a_branch() {
    let mut source = tape(&[0, 0, HALF, HALF, 7]);
    // 'a', branch to Lac, 'l' (middle of three), then a vowel from one draw.
    assert_eq!(word(&mut source, &letters(3)), "ali");
    assert_eq!(source.remaining(), 1);
}

#[test]
fn vowel_branches_at_a_quarter() {
    // a, (branch 0.5 -> vowel) 'a', then from Vowel: under 0.25 stays.
    let mut stays = tape(&[0, HALF, 0, QUARTER - 1, TOP]);
    assert_eq!(word(&mut stays, &letters(3)), "aau");
    // Exactly 0.25 is not under it: a consonant follows.
    let mut leaves = tape(&[0, HALF, 0, QUARTER, TOP]);
    assert_eq!(word(&mut leaves, &letters(3)), "aaz");
}

#[test]
fn ranged_word_length_takes_one_draw_first() {
    // Half of the way from 2 to 12 is 7 letters; then all-zero draws.
    let mut source = tape(&[HALF]);
    let config = Config {
        word_len: Some((2, Some(12))),
        ..Default::default()
    };
    assert_eq!(word(&mut source, &config), "asaaaaa");
}

#[test]
fn inverted_word_range_gives_the_minimum() {
    let mut source = Constant { bits: TOP, taken: 0 };
    let config = Config {
        word_len: Some((5, Some(3))),
        ..Default::default()
    };
    assert_eq!(word(&mut source, &config).len(), 5);
}

#[test]
fn pseudo_random_word() {
    assert_eq!(word(&mut Lcg(42), &Config::default()), "fobsiey");
}

#[test]
fn same_draws_same_word() {
    for seed in 0..20u64 {
        let a = word(&mut Lcg(seed), &Config::default());
        let b = word(&mut Lcg(seed), &Config::default());
        assert_eq!(a, b);
    }
    let draws = [HALF, 3, THIRD, QUARTER, TOP, 17, HALF, 0, 0];
    assert_eq!(
        word(&mut tape(&draws), &Config::default()),
        word(&mut tape(&draws), &Config::default())
    );
}

#[test]
fn fill_table_has_no_liquids() {
    let mut source = Lcg(5);
    for _ in 0..5000 {
        let letter = Pool::Fill.pick(source.next());
        assert!(!"aeiouslw".contains(letter));
    }
}

#[test]
fn no_liquid_follows_a_vowel() {
    for seed in 0..200u64 {
        let w: Vec<char> = word(&mut Lcg(seed), &letters(40)).chars().collect();
        for i in 2..w.len() {
            if "aeiou".contains(w[i - 1]) {
                assert!(!"slw".contains(w[i]));
            }
        }
    }
}

#[test]
fn tables_hold_the_alphabet() {
    assert_eq!(Pool::Full.text(), "abcdefghijklmnopqrstuvwxyz");
    assert_eq!(Pool::Vowel.text(), "aeiou");
    assert_eq!(Pool::Fill.text(), "bcdfghjkmnpqrtvxyz");
    assert_eq!(Pool::Lac.text(), "slw");
}

#[test]
fn pick_scales_the_draw_to_the_table() {
    assert_eq!(Pool::Full.pick(Draw::zero()), "a");
    assert_eq!(Pool::Full.pick(Draw::from_bits(HALF)), "n");
    assert_eq!(Pool::Full.pick(Draw::from_bits(TOP)), "z");
    assert_eq!(Pool::Vowel.pick(Draw::from_bits(HALF)), "i");
    assert_eq!(Pool::Vowel.pick(Draw::from_bits(TOP)), "u");
    assert_eq!(Pool::Fill.pick(Draw::zero()), "b");
    assert_eq!(Pool::Fill.pick(Draw::from_bits(HALF)), "n");
    assert_eq!(Pool::Fill.pick(Draw::from_bits(TOP)), "z");
    // Eight eighteenths exactly: the letter after `k` is `m`, not `l`.
    assert_eq!(Pool::Fill.pick(Draw::from_bits(8198552921648689608)), "m");
    assert_eq!(Pool::Fill.pick(Draw::from_bits(8198552921648689607)), "k");
    assert_eq!(Pool::Lac.pick(Draw::zero()), "s");
    assert_eq!(Pool::Lac.pick(Draw::from_bits(HALF)), "l");
    assert_eq!(Pool::Lac.pick(Draw::from_bits(TOP)), "w");
    // One fifth exactly is the second vowel; just below it, still the first.
    assert_eq!(Pool::Vowel.pick(Draw::from_bits(3689348814741910324)), "e");
    assert_eq!(Pool::Vowel.pick(Draw::from_bits(3689348814741910323)), "a");
}
