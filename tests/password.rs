use passgen::mt::MT19937;
use passgen::passgen::{
    active_classes, generate, passgen, ConfigurationError, CHARSET_ALL, CHARSET_LOWER,
    CHARSET_NUMERIC, CHARSET_SPECIAL, CHARSET_UPPER,
};

const UPPER: &str = "ABCDEFGHIJKLMNOPQRSTUVWXYZ";
const LOWER: &str = "abcdefghijklmnopqrstuvwxyz";
const NUMERIC: &str = "1234567890";
const SPECIAL: &str = "`~!@#$%^&*()_+-=[]{}\\;'\"";

fn chars(s: &str) -> Vec<char> {
    s.chars().collect()
}

#[test]
fn passgen_matches_reference_all_classes() {
    assert_eq!(passgen(42, CHARSET_ALL, 32), "7JN*qe5&YQ!=PUuuQ%Bi6gwC+7FwO53c");
}

#[test]
fn passgen_matches_reference_upper_only() {
    assert_eq!(passgen(1, CHARSET_UPPER, 10), "BDNWDLSCEV");
}

#[test]
fn passgen_matches_reference_numeric_only() {
    assert_eq!(passgen(123456789, CHARSET_NUMERIC, 20), "56217813263152837977");
}

#[test]
fn passgen_matches_reference_upper_and_numeric() {
    assert_eq!(passgen(0, CHARSET_UPPER | CHARSET_NUMERIC, 16), "Q844J8L85SIOI668");
}

#[test]
fn passgen_matches_reference_special_only() {
    assert_eq!(passgen(987654321987654321, CHARSET_SPECIAL, 12), "[$)`]\\'}*+]_");
}

#[test]
fn zero_length_is_empty() {
    assert_eq!(passgen(7, CHARSET_LOWER, 0), "");
    assert_eq!(passgen(7, CHARSET_ALL, 0), "");
}

#[test]
fn length_is_respected() {
    for len in [1usize, 2, 31, 700] {
        assert_eq!(passgen(11, CHARSET_ALL, len).chars().count(), len);
    }
}

#[test]
fn characters_come_from_enabled_alphabets() {
    let enabled = format!("{}{}", LOWER, SPECIAL);
    for seed in 0..50u128 {
        let p = passgen(seed, CHARSET_LOWER | CHARSET_SPECIAL, 40);
        assert!(p.chars().all(|c| enabled.contains(c)), "{}", p);
    }
}

#[test]
fn last_character_of_an_alphabet_never_appears() {
    for seed in 0..300u128 {
        assert_ne!(passgen(seed, CHARSET_NUMERIC, 1), "0");
    }
    for seed in 0..20u128 {
        let p = passgen(seed, CHARSET_UPPER | CHARSET_LOWER, 100);
        assert!(!p.contains('Z') && !p.contains('z'), "{}", p);
    }
}

#[test]
fn class_order_is_fixed() {
    let classes = active_classes(CHARSET_NUMERIC | CHARSET_UPPER);
    assert_eq!(classes, vec![chars(UPPER), chars(NUMERIC)]);
    let all = active_classes(CHARSET_ALL);
    assert_eq!(all, vec![chars(UPPER), chars(LOWER), chars(NUMERIC), chars(SPECIAL)]);
    assert_eq!(active_classes(CHARSET_ALL), all);
    assert!(active_classes(0).is_empty());
    assert!(active_classes(0x10).is_empty());
}

#[test]
fn generate_without_warm_up() {
    let mut rng = MT19937::new(42);
    let classes = active_classes(CHARSET_ALL);
    assert_eq!(generate(&mut rng, &classes, 8), Ok("%RfJyB*4".to_string()));
}

#[test]
fn generate_with_two_character_class_picks_first() {
    let mut rng = MT19937::new(2024);
    let classes = vec![vec!['x', 'y']];
    assert_eq!(generate(&mut rng, &classes, 5), Ok("xxxxx".to_string()));
    // ten outputs were used, two per character
    assert_eq!(rng.temper(), 282679417180218768740343246327275646833);
}

#[test]
fn single_character_class_is_a_configuration_error() {
    let mut rng = MT19937::new(5489);
    let classes = vec![chars(UPPER), vec!['q']];
    assert_eq!(
        generate(&mut rng, &classes, 4),
        Err(ConfigurationError::AlphabetTooShort)
    );
    // nothing was drawn
    assert_eq!(rng.temper(), 122868960835606120551946734499456394701);
}

#[test]
fn empty_class_is_a_configuration_error() {
    let mut rng = MT19937::new(5489);
    let classes = vec![Vec::new()];
    assert_eq!(
        generate(&mut rng, &classes, 0),
        Err(ConfigurationError::AlphabetTooShort)
    );
}

#[test]
fn no_class_is_an_error() {
    let mut rng = MT19937::new(5489);
    let classes: Vec<Vec<char>> = Vec::new();
    assert_eq!(
        generate(&mut rng, &classes, 3),
        Err(ConfigurationError::NoClassEnabled)
    );
}
