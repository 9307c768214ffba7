use mp::math_parser::number::number;
use mp::math_parser::text::{digit, letter, whitespace};

fn reads(text: &str) -> bool {
    number(&text.chars().collect())
}

#[test]
fn number_grammar_examples() {
    for good in [
        "0", "5", "007", "3.14", "+3.14", "-3.14", "5.", ".5", "1e5", "1E5", "1e+5", "1e-5", "1.e5",
        ".5e-3", "inf", "-inf", "+infinity", "NaN", "nan", "-NaN", "INF", "iNfInItY", "30400.414",
        "1e999999", "-0",
    ] {
        assert!(reads(good), "{}", good);
    }
    for bad in [
        "", "+", "-", ".", "e5", "1e", "1e+", ".e5", "1.5.2", "1_000", "0x10", " 5", "5 ", "1,5",
        "infinit", "na", "++5", "+-5", "5f", "m", "p", "(", "1e5.0", "--1",
    ] {
        assert!(!reads(bad), "{}", bad);
    }
}

/// Holds the grammar against the float parser on every text over the alphabet of up to
/// the given length, and tells how many there were.
fn compare_all(alphabet: &str, longest: usize) -> u64 {
    let alphabet: Vec<char> = alphabet.chars().collect();
    let mut text = String::new();
    let mut count: u64 = 0;
    let mut index: Vec<usize> = Vec::new();
    while index.len() <= longest {
        text.clear();
        for &i in &index {
            text.push(alphabet[i]);
        }
        assert_eq!(reads(&text), text.parse::<f32>().is_ok(), "{:?}", text);
        count += 1;
        let mut k = index.len();
        loop {
            if k == 0 {
                index.insert(0, 0);
                break;
            }
            k -= 1;
            if index[k] + 1 < alphabet.len() {
                index[k] += 1;
                break;
            }
            index[k] = 0;
        }
    }
    count
}

#[test]
fn number_grammar_agrees_with_the_float_parser() {
    assert_eq!(compare_all("+-.eE01 9iInNaAfFtTyY,x", 4), 292_561);
    assert_eq!(compare_all("+-.e15", 7), 335_923);
    assert_eq!(compare_all("infatyINFATY", 4), 22_621);
    for word in [
        "infinity", "INFINITY", "Infinity", "-infinity", "+Infinity", "infinitY", "infinity0",
        "infinit", "1e0000000001", "0000.0000e-00", "3.4028236e38", "1e-46", "\u{661}\u{662}",
        "\u{ff11}\u{ff12}", "1\u{a0}", "nan0", "-nan", "+.e1", "1.2.3", "1e1e1",
    ] {
        assert_eq!(reads(word), word.parse::<f32>().is_ok(), "{:?}", word);
    }
}

#[test]
fn character_classes_agree_with_the_standard_library() {
    let mut code: u32 = 0;
    while code <= 0x10FFFF {
        if let Some(c) = char::from_u32(code) {
            assert_eq!(whitespace(c), c.is_whitespace(), "{:?}", c);
            assert_eq!(letter(c), c.is_alphabetic(), "{:?}", c);
            assert_eq!(digit(c), c.is_digit(10), "{:?}", c);
        }
        code += 1;
    }
}
