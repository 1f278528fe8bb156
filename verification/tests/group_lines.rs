use anki_convert::group_lines::group_lines_file;
use anki_convert::group_lines::multi_to_single;

#[test]
fn empty_to_empty() {
    assert!(multi_to_single("").is_empty());
}

#[test]
fn single_to_single() {
    assert_eq!(multi_to_single("abc"), "abc".to_string());
}

#[test]
fn double() {
    assert_eq!(multi_to_single("Hello\nthere"), "Hello there".to_string());
}

#[test]
fn triple() {
    assert_eq!(multi_to_single("a\nb\nc"), "a b c".to_string());
}

#[test]
fn double_hypen() {
    assert_eq!(multi_to_single("a-\nb"), "ab".to_string());
}

#[test]
fn triple_hyphen() {
    assert_eq!(multi_to_single("a-\nb-\nc"), "abc".to_string());
}

#[test]
fn indented_par() {
    assert_eq!(multi_to_single("a\n   b   \nc"), "a b c".to_string());
}

#[test]
fn indented_par_to_line_space() {
    let contents = "   abc\n\ndef\n\n   gh";
    assert_eq!(group_lines_file(contents), "abc\n\ndef\n\ngh".to_string());
}

#[test]
fn indented_pars_with_line_sep() {
    let contents = "    abc\n    def\n\n$ a = b $\n\n    thus";
    assert_eq!(group_lines_file(contents), "abc def\n\n$ a = b $\n\nthus".to_string());
}

#[test]
fn empty_line_space() {
    let contents = "    abc\n     \n$$a$$";
    let result = "abc\n\n$$a$$".to_string();
    assert_eq!(group_lines_file(contents), result);
}

#[test]
fn single_par() {
    let contents = "This is a line\nthat is follow-\ned by another line.";
    let result = "This is a line that is followed by another line.".to_string();
    assert_eq!(group_lines_file(contents), result);
}

#[test]
fn two_par() {
    let contents = "This\n\nis\n\nspart-\na!";
    let result = "This\n\nis\n\nsparta!".to_string();
    assert_eq!(group_lines_file(contents), result);
}

#[test]
fn reflow_twice_is_reflow_once() {
    let inputs = [
        "",
        "abc",
        "a-\nb-\nc",
        "   abc\n\ndef\n\n   gh",
        "This is a line\nthat is follow-\ned by another line.",
        "x\n\n\n\ny",
        "  \n \n  ",
        "tail-",
    ];
    for contents in inputs.iter() {
        let once = group_lines_file(contents);
        let twice = group_lines_file(&once);
        assert_eq!(twice, once);
    }
}

#[test]
fn carriage_returns_are_trimmed() {
    assert_eq!(group_lines_file("a\r\nb\r\n"), "a b".to_string());
}
