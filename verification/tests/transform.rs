use ke2daira::ke2daira;

#[test]
fn test_ke2daira() {
    assert_eq!(ke2daira("松平 健"), Some("ケツダイラ マン".to_string()));
    assert_eq!(
        ke2daira("ハリー ジェームズ ポッター"),
        Some("ポリー ジェームズ ハッター".to_string())
    );
    assert_eq!(ke2daira("チェ ゲバラ"), Some("ゲ チェバラ".to_string()));
    assert_eq!(ke2daira("スカルノ"), Some("スカルノ".to_string()));

    // ghost character that cannot be converted to Katakana
    assert_eq!(ke2daira("彁"), None);
}

#[test]
fn single_name_is_its_reading() {
    assert_eq!(ke2daira("スカルノ"), Some("スカルノ".to_string()));
    assert_eq!(ke2daira("松平"), Some("マツダイラ".to_string()));
    assert_eq!(ke2daira("  チョコ "), Some("チョコ".to_string()));
}

#[test]
fn unreadable_component_gives_nothing() {
    assert_eq!(ke2daira("彁"), None);
    assert_eq!(ke2daira("彁 ケン"), None);
    assert_eq!(ke2daira("マツダイラ 彁"), None);
    assert_eq!(ke2daira("マツダイラ 彁 ケン"), None);
}

#[test]
fn component_with_an_unreadable_part_gives_nothing() {
    assert_eq!(ke2daira("松平 健"), Some("ケツダイラ マン".to_string()));
    assert_eq!(ke2daira("松平彁 健"), None);
    assert_eq!(ke2daira("松平 彁健"), None);
    assert_eq!(ke2daira("松平 ナカ彁 健"), None);
    assert_eq!(ke2daira("松平彁"), None);
}

#[test]
fn separators_become_single_spaces() {
    assert_eq!(ke2daira("  マツダイラ \t ケン\n"), Some("ケツダイラ マン".to_string()));
    assert_eq!(ke2daira("マツダイラ\u{3000}ケン"), Some("ケツダイラ マン".to_string()));
}

#[test]
fn no_name_gives_the_empty_string() {
    assert_eq!(ke2daira(""), Some(String::new()));
    assert_eq!(ke2daira("   "), Some(String::new()));
}

#[test]
fn two_equal_names() {
    assert_eq!(ke2daira("ケン ケン"), Some("ケン ケン".to_string()));
}

#[test]
fn mixed_scripts() {
    assert_eq!(ke2daira("松平 ケン"), Some("ケツダイラ マン".to_string()));
    assert_eq!(ke2daira("マツダイラ 健"), Some("ケツダイラ マン".to_string()));
}
