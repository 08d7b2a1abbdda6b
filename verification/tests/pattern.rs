use web_crawler::pattern::pattern_matches;

#[test]
fn pattern_matching_basics() {
    assert!(pattern_matches("/a", "/abc"));
    assert!(!pattern_matches("/a$", "/abc"));
    assert!(pattern_matches("/a$", "/a"));
    assert!(pattern_matches("/*/x", "/foo/x/y"));
    assert!(!pattern_matches("/*/x$", "/foo/x/y"));
}

#[test]
fn pattern_without_wildcard_is_a_prefix() {
    assert!(pattern_matches("", ""));
    assert!(pattern_matches("", "/a"));
    assert!(pattern_matches("/a", "/a"));
    assert!(!pattern_matches("/a/", "/a"));
    assert!(!pattern_matches("/A", "/a"));
}

#[test]
fn pattern_anchor_pins_the_end() {
    assert!(pattern_matches("$", ""));
    assert!(!pattern_matches("$", "/"));
    assert!(pattern_matches("/a*$", "/abc"));
    assert!(pattern_matches("/*.pdf$", "/a.pdf.pdf"));
    assert!(!pattern_matches("/*.pdf$", "/a.pdfx"));
    // The end may not overlap what came before.
    assert!(!pattern_matches("/ab*b$", "/ab"));
    // Only the last dollar is an anchor.
    assert!(pattern_matches("/a$b", "/a$bc"));
    assert!(pattern_matches("/a$$", "/a$"));
}

#[test]
fn pattern_stars_take_what_they_need() {
    assert!(pattern_matches("*", ""));
    assert!(pattern_matches("**", "/x"));
    assert!(pattern_matches("/a*b*c", "/a-b-b-c-d"));
    assert!(!pattern_matches("/a*b*c", "/a-c-b"));
    assert!(pattern_matches("*b", "/ab"));
    assert!(pattern_matches("/*a*a$", "/aaa"));
    assert!(pattern_matches("/\u{e9}*\u{e8}$", "/\u{e9}x\u{e8}"));
}

#[test]
fn pattern_without_anchor_keeps_matching() {
    for more in ["", "x", "/y?z"] {
        let target = format!("/a/b{more}");
        assert!(pattern_matches("/a*b", &target));
    }
}
