use babble::{sentence, word, Config, Draw, Rand};

/// A source of floats, seen as draws.
struct Floats {
    values: Vec<f64>,
    at: usize,
}

impl Rand for Floats {
    fn next(&mut self) -> Draw {
        let value = self.values[self.at % self.values.len()];
        self.at += 1;
        Draw::from_binary64(value.to_bits())
    }
}

fn draw(value: f64) -> Draw {
    Draw::from_binary64(value.to_bits())
}

/// The float times 2^64, cut off: scaling by a power of two is exact.
fn cut(value: f64) -> u64 {
    (value * 18446744073709551616.0) as u64
}

#[test]
fn binary64_fractions_are_kept_exactly() {
    assert_eq!(draw(0.0).bits, 0);
    assert_eq!(draw(0.5).bits, 1 << 63);
    assert_eq!(draw(0.25).bits, 1 << 62);
    assert_eq!(draw(0.75).bits, 3 << 62);
    assert_eq!(draw(0.33).bits, 6087425544324152320);
    assert_eq!(draw(1.0 - f64::EPSILON / 2.0).bits, u64::MAX - 2047);
}

#[test]
fn binary64_out_of_range_is_clamped() {
    assert_eq!(draw(1.0).bits, u64::MAX);
    assert_eq!(draw(1.5).bits, u64::MAX);
    assert_eq!(draw(1e300).bits, u64::MAX);
    assert_eq!(draw(f64::INFINITY).bits, u64::MAX);
    assert_eq!(draw(-0.0).bits, 0);
    assert_eq!(draw(-0.5).bits, 0);
    assert_eq!(draw(-1e300).bits, 0);
    assert_eq!(draw(f64::NEG_INFINITY).bits, 0);
    assert_eq!(draw(f64::NAN).bits, 0);
    assert_eq!(draw(-f64::NAN).bits, 0);
}

#[test]
fn binary64_small_numbers_are_cut_off() {
    assert_eq!(draw(f64::MIN_POSITIVE).bits, 0);
    assert_eq!(draw(f64::MIN_POSITIVE / 4.0).bits, 0);
    assert_eq!(draw(1e-300).bits, 0);
    // 2^-64 is the smallest draw above zero; 2^-65 is below it.
    assert_eq!(draw(5.421010862427522e-20).bits, 1);
    assert_eq!(draw(2.710505431213761e-20).bits, 0);
    // 1.5 * 2^-64 loses its half.
    assert_eq!(draw(8.131516293641283e-20).bits, 1);
    assert_eq!(draw(0.000244140625).bits, 1 << 52);
}

#[test]
fn binary64_agrees_with_scaling_by_two_to_the_64() {
    let mut x: u64 = 88172645463325252;
    for _ in 0..20000 {
        x ^= x << 13;
        x ^= x >> 7;
        x ^= x << 17;
        // A float in [0, 1) with all 53 bits in play, at varied magnitudes.
        let unit = (x >> 11) as f64 / 9007199254740992.0;
        for scale in [1.0, 0.5, 0.001, 1e-9, 1e-19, 1e-25, 3.0, -1.0] {
            let value = unit * scale;
            assert_eq!(draw(value).bits, cut(value));
        }
    }
}

#[test]
fn float_source_zero_word() {
    let mut source = Floats { values: vec![0.0], at: 0 };
    let config = Config {
        word_len: Some((4, None)),
        ..Default::default()
    };
    let w = word(&mut source, &config);
    assert_eq!(w.len(), 4);
    assert_eq!(w, "asaa");
}

#[test]
fn float_source_at_one_picks_the_last_letters() {
    let mut source = Floats { values: vec![1.0], at: 0 };
    assert_eq!(word(&mut source, &Config::default()), "zuzuzuzuzuz");
}

#[test]
fn float_source_comma_at_eight_hundredths() {
    let two_words = Config {
        sentence_len: Some((2, None)),
        word_len: Some((1, None)),
        ..Default::default()
    };
    // 0.08 is at most itself: a comma stands between the two words.
    let mut source = Floats { values: vec![0.0, 0.08, 0.0, 0.5], at: 0 };
    assert_eq!(sentence(&mut source, &two_words), "a, a.");
    let mut source = Floats { values: vec![0.0, 0.079, 0.0, 0.5], at: 0 };
    assert_eq!(sentence(&mut source, &two_words), "a, a.");
    let mut source = Floats { values: vec![0.0, 0.081, 0.0, 0.5], at: 0 };
    assert_eq!(sentence(&mut source, &two_words), "a a.");
}

#[test]
fn float_source_at_eight_hundredths_with_empty_words() {
    let config = Config {
        sentence_len: Some((2, None)),
        word_len: Some((0, None)),
        ..Default::default()
    };
    let mut source = Floats { values: vec![0.08], at: 0 };
    assert_eq!(sentence(&mut source, &config), ", ?");
    assert_eq!(source.at, 2);
}

#[test]
fn float_source_consonant_after_a_vowel() {
    let config = Config {
        word_len: Some((3, None)),
        ..Default::default()
    };
    let mut source = Floats { values: vec![0.0, 0.5, 0.0, 0.5, 0.4], at: 0 };
    assert_eq!(word(&mut source, &config), "aak");
    assert_eq!(source.at, 5);
}

#[test]
fn float_source_thresholds() {
    // 0.33 is not under a third, 0.32 is; 0.25 is not under a quarter.
    let config = Config {
        word_len: Some((2, None)),
        ..Default::default()
    };
    let mut source = Floats { values: vec![0.0, 0.33, 0.5], at: 0 };
    assert_eq!(word(&mut source, &config), "ai");
    let mut source = Floats { values: vec![0.0, 0.32, 0.5], at: 0 };
    assert_eq!(word(&mut source, &config), "al");
    let config = Config {
        sentence_len: Some((1, None)),
        word_len: Some((1, None)),
        ..Default::default()
    };
    for (value, text) in [
        (0.0, "a!"),
        (0.049, "a!"),
        (0.05, "a!!"),
        (0.069, "a!!"),
        (0.07, "a?"),
        (0.139, "a?"),
        (0.14, "a :3"),
        (0.249, "a :3"),
        (0.25, "a..."),
        (0.269, "a..."),
        (0.27, "a."),
        (0.999, "a."),
    ] {
        let mut source = Floats { values: vec![0.0, value], at: 0 };
        assert_eq!(sentence(&mut source, &config), text);
    }
}
