use babble::{Draw, Rand, Tape};

#[test]
fn tape_plays_its_draws_in_order() {
    let mut tape = Tape::new(vec![
        Draw::from_bits(3),
        Draw::from_bits(1),
        Draw::from_bits(2),
    ]);
    assert_eq!(tape.remaining(), 3);
    assert_eq!(tape.next(), Draw::from_bits(3));
    assert_eq!(tape.next(), Draw::from_bits(1));
    assert_eq!(tape.remaining(), 1);
    assert_eq!(tape.next(), Draw::from_bits(2));
    assert_eq!(tape.remaining(), 0);
}

#[test]
fn tape_hands_out_zero_when_it_has_run_out() {
    let mut tape = Tape::new(vec![Draw::from_bits(9)]);
    assert_eq!(tape.next().bits, 9);
    assert_eq!(tape.next(), Draw::zero());
    assert_eq!(tape.next(), Draw::zero());
    assert_eq!(tape.remaining(), 0);
    let mut empty = Tape::new(Vec::new());
    assert_eq!(empty.next(), Draw::zero());
}
