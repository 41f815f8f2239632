use chess_pos_analyzer::text::{
    decimal_text, parse_i32, parse_u32, parse_usize, same_ignoring_case, sorted_texts, split_words,
    text_at_most, text_begins_with, text_contains, trim_text, white_space,
};

const SAMPLES: [&str; 26] = [
    "", " ", "a", " a ", "a b", "\ta\nb\r\n c\x0Cd\x0B", "\u{A0}x\u{2003}", "\u{FEFF}", "+", "-",
    "+1", "-1", "--1", "007", "4294967295", "4294967296", "-2147483648", "-2147483649", "2147483647",
    "2147483648", "1 ", "\u{661}", "info ", "ſtop", "K", "99999999999999999999999999",
];

#[test]
fn white_space_is_that_of_unicode() {
    for code in 0..=0x10FFFFu32 {
        if let Some(c) = char::from_u32(code) {
            assert_eq!(white_space(c), c.is_whitespace(), "{:x}", code);
        }
    }
}

#[test]
fn cutting_and_trimming() {
    for s in SAMPLES {
        assert_eq!(trim_text(s), s.trim());
        let words: Vec<String> = s.split_ascii_whitespace().map(String::from).collect();
        assert_eq!(split_words(s), words);
    }
}

#[test]
fn reading_numbers() {
    for s in SAMPLES {
        assert_eq!(parse_u32(s), s.parse::<u32>().ok(), "{:?}", s);
        assert_eq!(parse_i32(s), s.parse::<i32>().ok(), "{:?}", s);
        assert_eq!(parse_usize(s), s.parse::<usize>().ok(), "{:?}", s);
    }
}

#[test]
fn writing_numbers() {
    for n in [0u64, 1, 9, 10, 99, 100, 1024, u32::MAX as u64, u64::MAX] {
        assert_eq!(decimal_text(n), n.to_string());
    }
}

#[test]
fn finding_and_ordering() {
    for a in SAMPLES {
        for b in SAMPLES {
            assert_eq!(text_begins_with(a, b), a.starts_with(b));
            assert_eq!(text_contains(a, b), a.contains(b));
            assert_eq!(text_at_most(a, b), a <= b);
            assert_eq!(same_ignoring_case(a, b), a.eq_ignore_ascii_case(b));
        }
    }
    let mut list: Vec<String> = SAMPLES.iter().map(|s| s.to_string()).collect();
    let sorted = sorted_texts(list.clone());
    list.sort();
    assert_eq!(sorted, list);
}
