use drawskill::error::Error;
use drawskill::path::{path_err, path_segments, PathSeg, PathTokenizer};

fn numbers(t: &mut PathTokenizer, n: usize) -> Vec<String> {
    let mut out = Vec::new();
    for _ in 0..n {
        out.push(t.number().unwrap().unwrap());
    }
    out
}

#[test]
fn path_tokenizer_walks_commands_and_numbers() {
    let mut t = PathTokenizer::new("M0 0 L10,-2.5 l1e3 .5E-1 Z");
    assert_eq!(t.peek_command(), Some('M'));
    t.advance();
    assert_eq!(numbers(&mut t, 2), vec!["0", "0"]);
    assert_eq!(t.peek_command(), Some('L'));
    t.advance();
    assert_eq!(numbers(&mut t, 2), vec!["10", "-2.5"]);
    assert_eq!(t.peek_command(), Some('l'));
    t.advance();
    assert_eq!(numbers(&mut t, 2), vec!["1e3", ".5E-1"]);
    assert_eq!(t.number().unwrap(), None);
    assert_eq!(t.peek_command(), Some('Z'));
    t.advance();
    assert!(t.is_done());
}

#[test]
fn path_tokenizer_signs_split_numbers() {
    let mut t = PathTokenizer::new("1-2+3");
    assert_eq!(numbers(&mut t, 3), vec!["1", "-2", "+3"]);
    assert!(t.is_done());
    assert_eq!(t.number().unwrap(), None);
}

#[test]
fn path_tokenizer_rejects_bad_numbers() {
    let mut t = PathTokenizer::new("1.2.3");
    match t.number() {
        Err(Error::Parse(m)) => assert_eq!(m, "invalid number in path: \"1.2.3\""),
        other => panic!("unexpected {other:?}"),
    }
    let mut t = PathTokenizer::new("-");
    match t.number() {
        Err(Error::Parse(m)) => assert_eq!(m, "invalid number in path: \"-\""),
        other => panic!("unexpected {other:?}"),
    }
    let mut t = PathTokenizer::new("2e");
    assert!(matches!(t.number(), Err(Error::Parse(_))));
}

#[test]
fn path_tokenizer_blank_is_done() {
    let mut t = PathTokenizer::new(" ,, \t");
    assert!(t.is_done());
    let mut t = PathTokenizer::new("");
    assert_eq!(t.peek_command(), None);
    assert!(t.is_done());
}

#[test]
fn path_error_names_the_command() {
    match path_err("C") {
        Error::Parse(m) => assert_eq!(m, "path command C has too few coordinates"),
        other => panic!("unexpected {other:?}"),
    }
}

fn seg(cmd: char, rel: bool, nums: &[&str]) -> PathSeg {
    PathSeg { cmd, rel, nums: nums.iter().map(|s| s.to_string()).collect() }
}

fn path_error(d: &str) -> String {
    match path_segments(d) {
        Err(Error::Parse(m)) => m,
        other => panic!("expected an error for {d:?}, got {other:?}"),
    }
}

#[test]
fn path_segments_read_commands_and_groups() {
    assert_eq!(
        path_segments("M0 0 L10,0 l0 10 Z").unwrap(),
        vec![
            seg('M', false, &["0", "0"]),
            seg('L', false, &["10", "0"]),
            seg('L', true, &["0", "10"]),
            seg('Z', false, &[]),
        ]
    );
    assert_eq!(
        path_segments("m1 2 3 4 z").unwrap(),
        vec![seg('M', true, &["1", "2"]), seg('L', true, &["3", "4"]), seg('Z', true, &[])]
    );
    assert_eq!(
        path_segments("H1 2 v-3").unwrap(),
        vec![seg('H', false, &["1"]), seg('H', false, &["2"]), seg('V', true, &["-3"])]
    );
    assert_eq!(
        path_segments("C1 2 3 4 5 6 7 8 9 10 11 12 q1 2 3 4").unwrap(),
        vec![
            seg('C', false, &["1", "2", "3", "4", "5", "6"]),
            seg('C', false, &["7", "8", "9", "10", "11", "12"]),
            seg('Q', true, &["1", "2", "3", "4"]),
        ]
    );
}

#[test]
fn path_segments_edge_cases() {
    assert_eq!(path_segments("").unwrap(), vec![]);
    assert_eq!(path_segments(" , ").unwrap(), vec![]);
    assert_eq!(path_segments("5 5").unwrap(), vec![]);
    assert_eq!(path_segments("M L0 0").unwrap(), vec![]);
    assert_eq!(path_segments("M1 1 M L0 0").unwrap(), vec![seg('M', false, &["1", "1"])]);
}

#[test]
fn path_segments_errors() {
    assert_eq!(path_error("C1 2 3 4"), "path command C has too few coordinates");
    assert_eq!(path_error("Q1 2"), "path command Q has too few coordinates");
    assert_eq!(path_error("L1"), "path coordinate missing y");
    assert_eq!(path_error("L1 2 3"), "path coordinate missing y");
    assert_eq!(path_error("A1 2"), "unsupported path command 'A'");
    assert_eq!(path_error("a1 2"), "unsupported path command 'A'");
    assert_eq!(path_error("M0 0 Z 5 5"), "path command Z takes no coordinates");
    assert_eq!(path_error("M0 0.1.2"), "invalid number in path: \"0.1.2\"");
}
