use release_namer::cli::Cli;
use release_namer::generator::{
    fallback_timestamp_hex, hex_pair_to_value, normalize_sha, select_noun, ReleaseNameGenerator,
};
use release_namer::sha::{resolve, ResolveError};
use release_namer::{generate_from_checksum, generate_from_cli};

#[test]
fn generator_respects_shared_initial() {
    let generator = ReleaseNameGenerator::default();
    assert!(generator.generate("0000").starts_with("airy-a"));
}

#[test]
fn pads_short_inputs() {
    assert_eq!(normalize_sha("1"), "1000");
}

#[test]
fn filters_non_hex() {
    let normalized = normalize_sha("xyz");
    assert!(normalized.chars().all(|c| c.is_ascii_hexdigit()));
}

#[test]
fn generates_from_explicit_checksum() {
    let name =
        generate_from_checksum(Some("abcd")).expect("checksum-based generation should succeed");
    assert_eq!(name, "loony-lionfish");
}

#[test]
fn accepts_custom_checksum() {
    let result = resolve(Some("beef"));
    assert_eq!(result.unwrap(), "beef");
}

#[test]
fn rejects_empty_checksum() {
    let error = resolve(Some("   ")).unwrap_err();
    assert!(error.message().contains("checksum"));
}

#[test]
fn generation_is_deterministic() {
    let generator = ReleaseNameGenerator::default();
    assert_eq!(generator.generate("a1b2c3d4"), generator.generate("a1b2c3d4"));
    assert_eq!(generator.generate("BEEF"), generator.generate("BEEF"));
}

#[test]
fn empty_input_falls_back_to_hex_seed() {
    let normalized = normalize_sha("");
    assert!(normalized.len() >= 4);
    assert!(normalized.chars().all(|c| c.is_ascii_digit() || ('a'..='f').contains(&c)));
}

#[test]
fn junk_is_filtered_before_padding() {
    assert_eq!(normalize_sha("a!b@c#d"), "abcd");
}

#[test]
fn long_hex_input_is_kept_unpadded() {
    assert_eq!(normalize_sha("ab!cd!ef"), "abcdef");
}

#[test]
fn names_are_alliterative() {
    let generator = ReleaseNameGenerator::default();
    for seed in ["0000", "abcd", "beef", "1", "ffff", "1234", "deadbeef"] {
        let name = generator.generate(seed);
        let (adjective, noun) = name.split_once('-').expect("one hyphen");
        assert_eq!(
            adjective.chars().next().unwrap(),
            noun.chars().next().unwrap(),
            "seed {seed} gave non-alliterative {name}"
        );
    }
}

#[test]
fn names_match_the_two_word_shape() {
    let generator = ReleaseNameGenerator::default();
    for seed in ["", "xyz", "zzz", "0000", "abcd", "   ", "!!!!", "7", "c0ffee"] {
        let name = generator.generate(seed);
        let hyphens = name.chars().filter(|&c| c == '-').count();
        assert_eq!(hyphens, 1, "seed {seed:?} gave {name}");
        let (adjective, noun) = name.split_once('-').unwrap();
        assert!(!adjective.is_empty() && adjective.chars().all(|c| c.is_ascii_lowercase()));
        assert!(!noun.is_empty() && noun.chars().all(|c| c.is_ascii_lowercase()));
    }
}

#[test]
fn zero_seed_selects_first_words() {
    let generator = ReleaseNameGenerator::default();
    assert_eq!(generator.generate("0000"), "airy-albatross");
}

#[test]
fn explicit_beef_checksum_generates() {
    let name = generate_from_checksum(Some("beef")).unwrap();
    assert_eq!(name, "proud-panda");
}

#[test]
fn hex_pairs_convert_or_default_to_zero() {
    assert_eq!(hex_pair_to_value('0', '0'), 0);
    assert_eq!(hex_pair_to_value('f', 'f'), 255);
    assert_eq!(hex_pair_to_value('A', 'b'), 0xab);
    assert_eq!(hex_pair_to_value('g', '1'), 0);
}

#[test]
fn noun_selection_crosses_on_first_letter() {
    assert_eq!(select_noun("loony", 205), "lionfish");
    assert_eq!(select_noun("loony", 204), "lemur");
    assert_eq!(select_noun("airy", 0), "albatross");
    assert_eq!(select_noun("", 0), "albatross");
}

#[test]
fn fallback_seed_is_lowercase_hex() {
    let seed = fallback_timestamp_hex();
    assert!(!seed.is_empty());
    assert!(seed.chars().all(|c| c.is_ascii_digit() || ('a'..='f').contains(&c)));
}

#[test]
fn missing_checksum_is_reported() {
    let error = resolve(None).unwrap_err();
    assert_eq!(error, ResolveError::ChecksumRequired);
    assert!(error.message().contains("checksum"));
    assert!(generate_from_checksum(None).is_err());
}

#[test]
fn checksum_is_trimmed_before_use() {
    assert_eq!(resolve(Some("  beef\n")).unwrap(), "beef");
}

#[test]
fn cli_inputs_drive_generation() {
    let with_checksum = Cli { checksum: Some(String::from("abcd")) };
    assert_eq!(generate_from_cli(with_checksum).unwrap(), "loony-lionfish");
    let without = Cli { checksum: None };
    assert_eq!(generate_from_cli(without).unwrap_err(), ResolveError::ChecksumRequired);
}
