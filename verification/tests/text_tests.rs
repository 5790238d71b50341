use webdav_backup::text::{
    chars_of, ends_with, find_char, is_whitespace, same, split_on, split_words, starts_with,
    string_of, trim_matches, trim_white,
};

fn s(v: &[char]) -> String {
    v.iter().collect()
}

#[test]
fn trims_unicode_white_space() {
    assert_eq!(s(&trim_white(&chars_of("\u{3000} \t a b \n\u{a0}"))), "a b");
    assert_eq!(s(&trim_white(&chars_of("   "))), "");
    assert!(is_whitespace('\u{2009}') && !is_whitespace('x') && !is_whitespace('\u{200b}'));
    assert_eq!(s(&trim_matches(&chars_of("**quoted*"), '*')), "quoted");
}

#[test]
fn splits_like_std() {
    let parts: Vec<String> = split_on(&chars_of("a,,b,"), ',').iter().map(|p| s(p)).collect();
    assert_eq!(parts, "a,,b,".split(',').collect::<Vec<_>>());
    let words: Vec<String> = split_words(&chars_of("  x y\t\tz ")).iter().map(|p| s(p)).collect();
    assert_eq!(words, vec!["x", "y", "z"]);
    assert!(split_words(&chars_of(" \n ")).is_empty());
}

#[test]
fn prefixes_and_search() {
    let v = chars_of("backup_1.zip");
    assert!(starts_with(&v, &chars_of("backup_")));
    assert!(!starts_with(&v, &chars_of("backup_1.zip2")));
    assert!(ends_with(&v, &chars_of(".zip")));
    assert!(!ends_with(&v, &chars_of(".tar")));
    assert_eq!(find_char(&v, '.'), 8);
    assert_eq!(find_char(&v, '#'), v.len());
    assert!(same(&chars_of("ab"), &chars_of("ab")) && !same(&chars_of("ab"), &chars_of("a")));
    assert_eq!(string_of(&v), "backup_1.zip");
}
