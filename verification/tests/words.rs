use ke2daira::text::{char_to_string, concatenate, join_with_space};
use ke2daira::words::{is_space, split_whitespace};

fn strings(items: &[&str]) -> Vec<String> {
    items.iter().map(|item| item.to_string()).collect()
}

#[test]
fn white_space_is_the_same_as_in_std() {
    for code in 0..=0x10FFFFu32 {
        if let Some(c) = char::from_u32(code) {
            assert_eq!(is_space(c), c.is_whitespace());
        }
    }
}

#[test]
fn common_white_space() {
    for c in [' ', '\t', '\n', '\r', '\u{3000}', '\u{A0}'] {
        assert!(is_space(c));
    }
    for c in ['a', 'ア', 'ー', '松', '\u{200B}', '\u{180E}', '\0'] {
        assert!(!is_space(c));
    }
}

#[test]
fn split_on_single_spaces() {
    assert_eq!(split_whitespace("松平 健"), vec!["松平", "健"]);
    assert_eq!(
        split_whitespace("ハリー ジェームズ ポッター"),
        vec!["ハリー", "ジェームズ", "ポッター"]
    );
}

#[test]
fn split_drops_runs_and_ends() {
    assert_eq!(split_whitespace("  a   b  "), vec!["a", "b"]);
    assert_eq!(split_whitespace("\tチェ\n\nゲバラ\r\n"), vec!["チェ", "ゲバラ"]);
    assert_eq!(split_whitespace("松平\u{3000}健"), vec!["松平", "健"]);
    assert_eq!(split_whitespace("a"), vec!["a"]);
    assert_eq!(split_whitespace(" a"), vec!["a"]);
    assert_eq!(split_whitespace("a "), vec!["a"]);
}

#[test]
fn split_of_blank_is_empty() {
    assert_eq!(split_whitespace(""), Vec::<String>::new());
    assert_eq!(split_whitespace(" "), Vec::<String>::new());
    assert_eq!(split_whitespace(" \t\u{3000}\n"), Vec::<String>::new());
}

#[test]
fn split_is_the_same_as_in_std() {
    for line in [
        "",
        " ",
        "松平 健",
        "  ハリー\tジェームズ　ポッター ",
        "a b  c   d",
        "\u{2003}x\u{2028}y\u{85}z",
        "no-space",
    ] {
        let expected: Vec<String> = line.split_whitespace().map(|w| w.to_string()).collect();
        assert_eq!(split_whitespace(line), expected);
    }
}

#[test]
fn join_puts_one_space_between() {
    assert_eq!(join_with_space(&strings(&[])), "");
    assert_eq!(join_with_space(&strings(&["スカルノ"])), "スカルノ");
    assert_eq!(join_with_space(&strings(&["ケツダイラ", "マン"])), "ケツダイラ マン");
    assert_eq!(join_with_space(&strings(&["a", "", "b"])), "a  b");
    assert_eq!(join_with_space(&strings(&["", ""])), " ");
}

#[test]
fn concatenate_puts_nothing_between() {
    assert_eq!(concatenate(&strings(&[])), "");
    assert_eq!(concatenate(&strings(&["チョ", "コ", "レ", "ー", "ト"])), "チョコレート");
    assert_eq!(concatenate(&strings(&["", "a", ""])), "a");
}

#[test]
fn one_character_string() {
    assert_eq!(char_to_string('ア'), "ア");
    assert_eq!(char_to_string('a'), "a");
}
