use mapwar::resolve::roll_points;
use mapwar::rng::Rng;

#[test]
fn first_values_from_seed_zero() {
    let mut rng = Rng::new_from_seed(0);
    assert_eq!(rng.generate(), 15864237570965628778);
    assert_eq!(rng.generate(), 18194340528229699284);
    assert_eq!(rng.generate(), 12851583597267946927);
}

#[test]
fn first_values_from_seed_forty_two() {
    let mut rng = Rng::new_from_seed(42);
    assert_eq!(rng.generate(), 7811415040244632452);
    assert_eq!(rng.generate(), 4995209040990933889);
    assert_eq!(rng.generate(), 17646122059996486192);
}

#[test]
fn counter_wraps_at_the_top() {
    let mut rng = Rng::new_from_seed(u64::MAX);
    assert_eq!(rng.generate(), 0);
    assert_eq!(rng.generate(), 15864237570965628778);
}

#[test]
fn equal_seeds_give_equal_streams() {
    let mut first = Rng::new_from_seed(0xfeed);
    let mut second = Rng::new_from_seed(0xfeed);
    for _ in 0..1000 {
        assert_eq!(first.generate(), second.generate());
    }
}

#[test]
fn different_seeds_diverge() {
    let mut first = Rng::new_from_seed(1);
    let mut second = Rng::new_from_seed(2);
    assert_ne!(first.generate(), second.generate());
}

#[test]
fn a_clone_continues_the_same_stream() {
    let mut first = Rng::new_from_seed(77);
    first.generate();
    let mut second = first.clone();
    assert_eq!(first.generate(), second.generate());
}

#[test]
fn entropy_seeded_streams_run() {
    let mut first = Rng::new();
    let a = first.generate();
    let b = first.generate();
    assert_ne!(a, b);
}

#[test]
fn entropy_seeded_streams_differ() {
    let mut distinct = false;
    let mut reference = Rng::new();
    let expected = reference.generate();
    for _ in 0..8 {
        let mut other = Rng::new();
        if other.generate() != expected {
            distinct = true;
        }
    }
    assert!(distinct);
}

#[test]
fn roll_adds_the_low_bits_of_each_draw() {
    let mut rng = Rng::new_from_seed(7);
    assert_eq!(roll_points(&mut rng, 5), 8);
    let mut after = Rng::new_from_seed(12);
    assert_eq!(rng.generate(), after.generate());
}

#[test]
fn roll_of_nothing_draws_nothing() {
    let mut rng = Rng::new_from_seed(7);
    assert_eq!(roll_points(&mut rng, 0), 0);
    assert_eq!(roll_points(&mut rng, -3), 0);
    let mut untouched = Rng::new_from_seed(7);
    assert_eq!(rng.generate(), untouched.generate());
}

#[test]
fn roll_stays_within_three_per_draw() {
    for seed in 0..50u64 {
        let mut rng = Rng::new_from_seed(seed);
        assert!(roll_points(&mut rng, 40) <= 120);
    }
}
