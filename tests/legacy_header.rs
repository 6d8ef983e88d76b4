use usync::sorter::parse_js_header;

#[test]
fn legacy_header_three_words() {
    let h = parse_js_header("// [[User:0xDeadbeef/usync]]: https://github.com/a/b  refs/heads/main\ttest.js \nrest").unwrap();
    assert_eq!(h.repo, "https://github.com/a/b");
    assert_eq!(h.ref_, "refs/heads/main");
    assert_eq!(h.file, "test.js");
}

#[test]
fn legacy_header_wrong_word_count() {
    assert!(parse_js_header("// [[User:0xDeadbeef/usync]]: a b").is_none());
    assert!(parse_js_header("// [[User:0xDeadbeef/usync]]: a b c d").is_none());
    assert!(parse_js_header("// [[User:0xDeadbeef/usync]]: a b\nc").is_none());
}

#[test]
fn legacy_header_needs_prefix_and_rest() {
    assert!(parse_js_header("// [[User:0xDeadbeef/usync]]:").is_none());
    assert!(parse_js_header(" // [[User:0xDeadbeef/usync]]: a b c").is_none());
    assert!(parse_js_header("").is_none());
}
