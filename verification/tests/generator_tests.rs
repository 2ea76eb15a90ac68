use passman::generator::PasswordGenerator;
use passman::models::PasswordOptions;

#[test]
fn generator_test_password_generation() {
    let mut generator = PasswordGenerator::new();
    let options = PasswordOptions::default();

    let password = generator.generate(&options).unwrap();
    assert_eq!(password.len(), options.length);
}

#[test]
fn test_simple_password() {
    let mut generator = PasswordGenerator::new();
    let password = generator.generate_simple(12).unwrap();
    assert_eq!(password.len(), 12);
}

#[test]
fn test_strong_password() {
    let mut generator = PasswordGenerator::new();
    let password = generator.generate_strong(16).unwrap();
    assert_eq!(password.len(), 16);
}

#[test]
fn test_strength_calculation() {
    let generator = PasswordGenerator::new();

    assert_eq!(generator.calculate_strength(""), 0);
    assert!(generator.calculate_strength("password") < 50);
    assert!(generator.calculate_strength("MyStr0ng!P@ssw0rd") >= 80);
}

#[test]
fn test_invalid_options() {
    let mut generator = PasswordGenerator::new();

    // Zero length
    let options = PasswordOptions { length: 0, ..Default::default() };
    assert!(generator.generate(&options).is_err());

    // No character types
    let options = PasswordOptions {
        length: 10,
        include_uppercase: false,
        include_lowercase: false,
        include_numbers: false,
        include_special: false,
        ..Default::default()
    };
    assert!(generator.generate(&options).is_err());
}

#[test]
fn strength_exact_values() {
    let generator = PasswordGenerator::new();
    // "password": length 8 -> 20 points, lowercase only -> +10, and it is a
    // well-known password -> -30: floored at 0.
    assert_eq!(generator.calculate_strength("password"), 0);
    // "Ab1!" : length 4 -> 10, all four classes -> +40; no pattern, not common.
    assert_eq!(generator.calculate_strength("Ab1!"), 50);
    // "aaab": tripled byte -> pattern penalty. 10 + 10 - 20 = 0.
    assert_eq!(generator.calculate_strength("aaab"), 0);
    // "xsdfgh..." keyboard run "sdf" -> penalty: len 8 -> 20, lower 10, -20.
    assert_eq!(generator.calculate_strength("xsdfghxx"), 10);
    // 24 non-repeating chars of all classes, no run: 60 + 40 = 100.
    assert_eq!(generator.calculate_strength("Ax1!Bx2@Cx3#Dx4$Ex5%Fx6^"), 100);
}

#[test]
fn strength_descriptions() {
    let generator = PasswordGenerator::new();
    assert_eq!(generator.get_strength_description(0), "Very Weak");
    assert_eq!(generator.get_strength_description(20), "Very Weak");
    assert_eq!(generator.get_strength_description(21), "Weak");
    assert_eq!(generator.get_strength_description(41), "Fair");
    assert_eq!(generator.get_strength_description(61), "Good");
    assert_eq!(generator.get_strength_description(81), "Strong");
    assert_eq!(generator.get_strength_description(100), "Very Strong");
    assert_eq!(generator.get_strength_description(101), "Unknown");
}

#[test]
fn excluded_similar_characters_never_appear() {
    let mut generator = PasswordGenerator::new();
    let options = PasswordOptions {
        length: 64,
        include_uppercase: false,
        include_lowercase: false,
        include_numbers: true,
        include_special: false,
        exclude_similar: true,
        exclude_ambiguous: false,
    };
    for _ in 0..10 {
        let p = generator.generate(&options).unwrap();
        // One character per enabled class is drawn from the full class set;
        // every other character comes from the filtered candidates, so at
        // most one similar-looking character can occur.
        let similar = p.chars().filter(|c| *c == '0' || *c == '1').count();
        assert!(similar <= 1);
        for c in p.chars() {
            assert!(c.is_ascii_digit());
        }
    }
}

#[test]
fn every_enabled_class_appears_at_least_once() {
    // One character of every enabled class is placed even for short lengths.
    let mut generator = PasswordGenerator::new();
    let options = PasswordOptions {
        length: 4,
        ..Default::default()
    };
    for _ in 0..10 {
        let p = generator.generate(&options).unwrap();
        assert_eq!(p.len(), 4);
        assert!(p.chars().any(|c| c.is_ascii_uppercase()));
        assert!(p.chars().any(|c| c.is_ascii_lowercase()));
        assert!(p.chars().any(|c| c.is_ascii_digit()));
    }
}

#[test]
fn passphrase_generation() {
    let mut generator = PasswordGenerator::new();
    assert!(generator.generate_passphrase(0, None).is_err());
    let p = generator.generate_passphrase(4, Some('-')).unwrap();
    assert_eq!(p.split('-').count(), 4);
    let q = generator.generate_passphrase(3, None).unwrap();
    assert_eq!(q.split(' ').count(), 3);
}

#[test]
fn validate_options_bounds() {
    let generator = PasswordGenerator::new();
    assert!(generator.validate_options(&PasswordOptions::new(1000)).is_ok());
    assert!(generator.validate_options(&PasswordOptions::new(1001)).is_err());
}
