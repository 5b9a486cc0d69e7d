use simple_grep::pattern::MatchPredicate;

#[test]
fn literal_matches_anywhere() {
    let p = MatchPredicate::literal("hello");
    assert!(p.is_match("hello"));
    assert!(p.is_match("hello world"));
    assert!(p.is_match("say hello!"));
    assert!(!p.is_match("world"));
    assert!(!p.is_match(""));
    assert!(!p.is_match("hell o"));
}

#[test]
fn literal_boundaries() {
    let p = MatchPredicate::literal("lo");
    assert!(p.is_match("hello"));
    let q = MatchPredicate::literal("he");
    assert!(q.is_match("hello"));
    let whole = MatchPredicate::literal("hello");
    assert!(whole.is_match("hello"));
    let longer = MatchPredicate::literal("hello!");
    assert!(!longer.is_match("hello"));
}

#[test]
fn empty_literal_matches_every_line() {
    let p = MatchPredicate::literal("");
    assert!(p.is_match(""));
    assert!(p.is_match("anything"));
}

#[test]
fn literal_is_not_interpreted_as_regex() {
    let p = MatchPredicate::literal("a.b");
    assert!(p.is_match("xa.by"));
    assert!(!p.is_match("aXb"));
}

#[test]
fn regex_anchors_are_honoured() {
    let p = MatchPredicate::regex("^h").unwrap();
    assert!(p.is_match("hello"));
    assert!(p.is_match("hello world"));
    assert!(!p.is_match("world"));
    assert!(!p.is_match("say hello"));
}

#[test]
fn invalid_regex_is_rejected_before_any_scan() {
    assert!(MatchPredicate::regex("(").is_err());
    assert!(MatchPredicate::regex("[a-").is_err());
    assert!(MatchPredicate::regex("hello").is_ok());
}

#[test]
fn literal_agrees_with_substring_regex() {
    let lines = [
        "hello",
        "world",
        "hello world",
        "",
        "foo bar baz",
        "prefix hello suffix",
        "h e l l o",
    ];
    let lit = MatchPredicate::literal("hello");
    let sub = MatchPredicate::regex(".*hello.*").unwrap();
    let bare = MatchPredicate::regex("hello").unwrap();
    for line in lines.iter() {
        assert_eq!(lit.is_match(line), sub.is_match(line));
        assert_eq!(lit.is_match(line), bare.is_match(line));
    }
}

#[test]
fn non_ascii_lines_are_scanned_as_text() {
    let p = MatchPredicate::literal("grüß");
    assert!(p.is_match("ich grüße dich"));
    assert!(!p.is_match("ich gruesse dich"));
}
