use usync::updater::parse_js_header;

#[test]
fn test_header_parse() {
    let h = "// {{Wikipedia:USync | repo = https://github.com/fee1-dead/usync |ref = refs/heads/main |path=test.js}}";

    let h = parse_js_header(h);

    assert!(h.is_some());

    let h = h.unwrap();
    assert_eq!("https://github.com/fee1-dead/usync", h.repo);
    assert_eq!("refs/heads/main", h.ref_);
    assert_eq!("test.js", h.path);
}

#[test]
fn header_round_trips_plain_triple() {
    let h = parse_js_header("//{{Wikipedia:USync|repo=R|ref=X|path=p.js}}\nalert(1);").unwrap();
    assert_eq!(h.repo, "R");
    assert_eq!(h.ref_, "X");
    assert_eq!(h.path, "p.js");
}

#[test]
fn header_duplicate_key_last_wins() {
    let h = parse_js_header("// {{Wikipedia:USync|repo=a|ref=b|path=c|repo=d}}").unwrap();
    assert_eq!(h.repo, "d");
}

#[test]
fn header_unknown_key_ignored() {
    let h = parse_js_header("// {{Wikipedia:USync|colour=blue|repo=a|ref=b|junk|path=c}}").unwrap();
    assert_eq!(h.repo, "a");
    assert_eq!(h.ref_, "b");
    assert_eq!(h.path, "c");
}

#[test]
fn header_value_keeps_later_equals_signs() {
    let h = parse_js_header("// {{Wikipedia:USync|repo=a=b|ref=b|path=c}}").unwrap();
    assert_eq!(h.repo, "a=b");
}

#[test]
fn header_missing_key_is_none() {
    assert!(parse_js_header("// {{Wikipedia:USync|repo=a|ref=b}}").is_none());
    assert!(parse_js_header("// {{Wikipedia:USync|repo=a|path=c}}").is_none());
    assert!(parse_js_header("// {{Wikipedia:USync|ref=b|path=c}}").is_none());
}

#[test]
fn header_without_marker_is_none() {
    assert!(parse_js_header("").is_none());
    assert!(parse_js_header("// repo=a|ref=b|path=c").is_none());
    assert!(parse_js_header("// {{wikipedia:usync|repo=a|ref=b|path=c}}").is_none());
    assert!(parse_js_header("/* {{Wikipedia:USync|repo=a|ref=b|path=c}} */").is_none());
    assert!(parse_js_header("// {{Wikipedia:USync|repo=a|ref=b|path=c").is_none());
}

#[test]
fn header_must_be_first_line() {
    assert!(parse_js_header("\n// {{Wikipedia:USync|repo=a|ref=b|path=c}}").is_none());
    assert!(parse_js_header("x\n// {{Wikipedia:USync|repo=a|ref=b|path=c}}").is_none());
}

#[test]
fn header_trims_whitespace_and_carriage_return() {
    let h = parse_js_header("  //   {{Wikipedia:USync  |  repo =  a  | ref=\tb |path = c }}  \r\nrest").unwrap();
    assert_eq!(h.repo, "a");
    assert_eq!(h.ref_, "b");
    assert_eq!(h.path, "c");
}

#[test]
fn headers_compare_field_by_field() {
    let a = parse_js_header("// {{Wikipedia:USync|repo=a|ref=b|path=c}}").unwrap();
    let b = parse_js_header("// {{Wikipedia:USync|path=c|ref=b|repo=a}}").unwrap();
    let c = parse_js_header("// {{Wikipedia:USync|repo=a|ref=b|path=d}}").unwrap();
    assert!(a == b);
    assert!(a != c);
}
