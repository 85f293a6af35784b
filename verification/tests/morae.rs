use ke2daira::kana2mora::{is_sutekana, katakana_to_mora};
use ke2daira::text::concatenate;

#[test]
fn test_katakana_to_mora() {
    assert_eq!(katakana_to_mora("サル"), vec!["サ", "ル"]);
    assert_eq!(katakana_to_mora("カッパ"), vec!["カ", "ッ", "パ"]);
    assert_eq!(
        katakana_to_mora("チョコレート"),
        vec!["チョ", "コ", "レ", "ー", "ト"]
    );
    assert_eq!(
        katakana_to_mora("ガッキュウシンブン"),
        vec!["ガ", "ッ", "キュ", "ウ", "シ", "ン", "ブ", "ン"]
    );
}

#[test]
fn empty_string_has_no_morae() {
    assert_eq!(katakana_to_mora(""), Vec::<String>::new());
}

#[test]
fn plain_characters_are_one_mora_each() {
    let morae = katakana_to_mora("スカルノ");
    assert_eq!(morae, vec!["ス", "カ", "ル", "ノ"]);
    assert_eq!(morae.len(), "スカルノ".chars().count());
}

#[test]
fn small_kana_joins_the_character_before_it() {
    assert_eq!(katakana_to_mora("ジェ"), vec!["ジェ"]);
    assert_eq!(katakana_to_mora("ジェームズ"), vec!["ジェ", "ー", "ム", "ズ"]);
    assert_eq!(katakana_to_mora("ファミリー"), vec!["ファ", "ミ", "リ", "ー"]);
    assert_eq!(katakana_to_mora("クヮ"), vec!["クヮ"]);
}

#[test]
fn leading_small_kana_stands_alone() {
    assert_eq!(katakana_to_mora("ァ"), vec!["ァ"]);
    assert_eq!(katakana_to_mora("ァア"), vec!["ァ", "ア"]);
    assert_eq!(katakana_to_mora("ョコ"), vec!["ョ", "コ"]);
}

#[test]
fn small_kana_in_a_row_join_one_mora() {
    assert_eq!(katakana_to_mora("ァィ"), vec!["ァィ"]);
    assert_eq!(katakana_to_mora("チョァ"), vec!["チョァ"]);
    assert_eq!(katakana_to_mora("ヴュィエ"), vec!["ヴュィ", "エ"]);
}

#[test]
fn long_vowel_mark_is_a_mora_of_its_own() {
    assert_eq!(katakana_to_mora("ー"), vec!["ー"]);
    assert_eq!(katakana_to_mora("チョー"), vec!["チョ", "ー"]);
    assert_eq!(katakana_to_mora("ーァ"), vec!["ーァ"]);
}

#[test]
fn small_tsu_and_small_ke_do_not_join() {
    assert_eq!(katakana_to_mora("ポッター"), vec!["ポ", "ッ", "タ", "ー"]);
    assert_eq!(katakana_to_mora("カヶ"), vec!["カ", "ヶ"]);
    assert_eq!(katakana_to_mora("カヵ"), vec!["カ", "ヵ"]);
}

#[test]
fn other_scripts_are_cut_character_by_character() {
    assert_eq!(katakana_to_mora("abc"), vec!["a", "b", "c"]);
    assert_eq!(katakana_to_mora("松ャ平"), vec!["松ャ", "平"]);
    assert_eq!(katakana_to_mora("ちょ"), vec!["ち", "ょ"]);
}

#[test]
fn morae_concatenate_to_the_input() {
    for input in [
        "",
        "サル",
        "カッパ",
        "チョコレート",
        "ガッキュウシンブン",
        "ァィゥ",
        "ーァー",
        "ジェームズ",
        "abcァ",
    ] {
        let morae = katakana_to_mora(input);
        assert_eq!(concatenate(&morae), input);
        assert_eq!(morae.concat(), input);
        assert!(morae.len() <= input.chars().count());
        assert!(morae.iter().all(|mora| !mora.is_empty()));
    }
}

#[test]
fn the_small_kana_are_nine() {
    let small = ['ァ', 'ィ', 'ゥ', 'ェ', 'ォ', 'ャ', 'ュ', 'ョ', 'ヮ'];
    for c in small {
        assert!(is_sutekana(c));
    }
    let mut count = 0;
    for code in 0..=0x10FFFFu32 {
        if let Some(c) = char::from_u32(code) {
            if is_sutekana(c) {
                count += 1;
            }
        }
    }
    assert_eq!(count, 9);
    for c in ['ッ', 'ヵ', 'ヶ', 'ー', 'ア', 'ヤ', 'ワ', 'ぁ', 'ゃ', 'a', ' '] {
        assert!(!is_sutekana(c));
    }
}
