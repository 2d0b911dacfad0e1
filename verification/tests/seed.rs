use hyper_loader::seed::{lcg_bits, next_seed, FIRST_SEED};

#[test]
fn seeds_step_as_the_generator_does() {
    assert_eq!(FIRST_SEED, 12345678901234567);
    assert_eq!(next_seed(FIRST_SEED), 2625384477149282570);
    assert_eq!(next_seed(2625384477149282570), 18387642732858664465);
    assert_eq!(next_seed(0), 1442695040888963407);
    assert_eq!(next_seed(u64::MAX), 13525302890751722018);
}

#[test]
fn different_seeds_step_to_different_seeds() {
    assert_ne!(next_seed(1), next_seed(2));
    assert_ne!(next_seed(0), next_seed(u64::MAX));
}

#[test]
fn draws_are_the_upper_bits() {
    assert_eq!(lcg_bits(FIRST_SEED, 0), 1437226);
    assert_eq!(lcg_bits(FIRST_SEED, 49), 1437242);
    assert_eq!(lcg_bits(FIRST_SEED, 102), 1437260);
    assert_eq!(lcg_bits(u64::MAX, 0), 2147483647);
    assert_eq!(lcg_bits(u64::MAX, 1), 0);
}
