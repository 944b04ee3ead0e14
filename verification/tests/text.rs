use bartender::etaoin::etaoin;
use bartender::pig_latin::{capitalize_first_letter, eng_to_pig};
use bartender::pseudonym::Pseudonym;
use std::collections::HashMap;

#[test]
fn test_eng_to_pig_1() {
    let result = eng_to_pig("Hello, world! Awesome.".to_string());
    assert_eq!(result, "Ellohay, orldway! Awesomeway.".to_string());
}

#[test]
fn test_eng_to_pig_2() {
    let result = eng_to_pig(
        "Lorem Ipsum is simply dummy text of the printing and typesetting industry."
            .to_string(),
    );
    assert_eq!(result, "Oremlay Ipsumway isway implysay ummyday exttay ofway hetay rintingpay andway ypesettingtay industryway.".to_string());
}

#[test]
fn test_capitalize_first_letter_1() {
    let result = capitalize_first_letter("0");
    assert_eq!(result, "0");
}

#[test]
fn test_capitalize_first_letter_2() {
    let result = capitalize_first_letter("w");
    assert_eq!(result, "W");
}

#[test]
fn test_capitalize_first_letter_3() {
    let result = capitalize_first_letter("W");
    assert_eq!(result, "W");
}

#[test]
fn test_empty_string() {
    let result = etaoin("".to_string());
    assert_eq!(result, HashMap::new());
}

#[test]
fn test_single_character() {
    let mut expected = HashMap::new();
    expected.insert('a' as u32, 1);
    let result = etaoin("a".to_string());
    assert_eq!(result, expected);
}

#[test]
fn test_repeated_characters() {
    let mut expected = HashMap::new();
    expected.insert('a' as u32, 3);
    expected.insert('b' as u32, 2);
    expected.insert('c' as u32, 1);
    let result = etaoin("aaabbc".to_string());
    assert_eq!(result, expected);
}

#[test]
fn test_mixed_characters_with_spaces() {
    let mut expected = HashMap::new();
    expected.insert('a' as u32, 1);
    expected.insert('b' as u32, 1);
    expected.insert(' ' as u32, 1);
    let result = etaoin("a b".to_string());
    assert_eq!(result, expected);
}

#[test]
fn test_special_characters() {
    let mut expected = HashMap::new();
    expected.insert('!' as u32, 3);
    expected.insert('@' as u32, 2);
    expected.insert('#' as u32, 1);
    let result = etaoin("!!!@@#".to_string());
    assert_eq!(result, expected);
}

#[test]
fn generate_name_validity() {
    let names = Pseudonym {
        last_names: vec!["Linson".to_string()],
        first_names: vec!["Arnie".to_string()],
    };
    assert_eq!(names.generate(), "Arnie Linson");
}

#[test]
fn generate_name_by_empty() {
    let names = Pseudonym {
        last_names: vec![],
        first_names: vec![],
    };
    assert_eq!(names.generate(), "McLovin");
}

#[test]
fn generate_name_picks_from_pools() {
    let names = Pseudonym {
        last_names: vec!["North".to_string(), "South".to_string()],
        first_names: vec!["Kim".to_string()],
    };
    let full = names.generate();
    assert!(full == "Kim North" || full == "Kim South");
}

#[test]
fn pig_latin_collapses_whitespace() {
    let result = eng_to_pig("ab  cd".to_string());
    assert_eq!(result, "abway dcay");
}
