use kanshi::text::{chars_of, decimal_string, find_from, join, lines, text_eq, trim, trim_start_char};

#[test]
fn decimals() {
    assert_eq!("0", decimal_string(0));
    assert_eq!("1209600", decimal_string(1_209_600));
    assert_eq!("18446744073709551615", decimal_string(u64::MAX));
}

#[test]
fn joins() {
    let v: Vec<String> = vec!["a".into(), "b".into(), "c".into()];
    assert_eq!("a, b, c", join(&v, ", "));
    assert_eq!("", join(&Vec::new(), ", "));
}

#[test]
fn trims() {
    assert_eq!("a b", trim(" \t a b \n\u{3000}"));
    assert_eq!("", trim("   "));
    assert_eq!("1.0", trim_start_char("vv1.0", 'v'));
}

#[test]
fn splits_lines() {
    assert_eq!(vec!["a", "b", "", "c"], lines("a\r\nb\n\nc\n"));
    assert_eq!(Vec::<String>::new(), lines(""));
    assert_eq!(vec!["x\r"], lines("x\r"));
}

#[test]
fn finds() {
    let hay = chars_of("abcabc");
    let needle = chars_of("ca");
    assert_eq!(Some(2), find_from(&hay, &needle, 0));
    assert_eq!(None, find_from(&hay, &needle, 3));
    assert!(text_eq("将棋", "将棋"));
    assert!(!text_eq("将棋", "将"));
}
