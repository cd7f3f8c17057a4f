use stupid_simple_dotenv::{parse, to_env, to_vec, file_to_vec, SimpleEnvError};

fn ok_lines(text: &str) -> Vec<Result<String, String>> {
    text.lines().map(|s| Ok(s.to_owned())).collect()
}

#[test]
fn it_works() {
    // fifteen raw lines, of which the one at index 14 is malformed
    let mut lines: Vec<Result<String, String>> = Vec::new();
    for i in 0..14 {
        lines.push(Ok(format!("key{}=value{}", i, i)));
    }
    lines.push(Ok("error=".to_owned()));
    let (_promoted, res) = to_env(&lines);
    match res {
        Ok(_) => {
            // an error is expected: one line is malformed
            assert!(false)
        }
        Err(e) => {
            assert_eq!(e.kind, "LinesError");
            assert_eq!(
                e.message
                    .starts_with("Error in Line 14: No name or value in 'error='"),
                true
            );
        }
    }
}

#[test]
fn test_parse() {
    let env_sim = r#"
FOO=BAR
# comment
FOO2= BAR2

FOO3="BAR3"
FOO4='BAR4'
FOO5=`BAR5`
FOO6=BAR6 #comment
Foo7=BA😀R7 #comment
"#;
    let lines = ok_lines(env_sim);
    let start = std::time::Instant::now();
    let list = parse(&lines).unwrap();
    let time_old = start.elapsed();
    let start = std::time::Instant::now();
    let list2 = parse(&lines).unwrap();
    println!("Old: {:?} New {:?}", time_old, start.elapsed());
    assert_eq!(
        list,
        vec![
            ("FOO".to_owned(), "BAR".to_owned()),
            ("FOO2".to_owned(), "BAR2".to_owned()),
            ("FOO3".to_owned(), "BAR3".to_owned()),
            ("FOO4".to_owned(), "BAR4".to_owned()),
            ("FOO5".to_owned(), "BAR5".to_owned()),
            ("FOO6".to_owned(), "BAR6".to_owned()),
            ("Foo7".to_owned(), "BA😀R7".to_owned()),
        ]
    );
    assert_eq!(list, list2);
}

#[test]
fn well_formed_lines_give_one_pair_each() {
    let lines = ok_lines("A=1\nB=2\nC=3");
    let list = parse(&lines).unwrap();
    assert_eq!(
        list,
        vec![
            ("A".to_owned(), "1".to_owned()),
            ("B".to_owned(), "2".to_owned()),
            ("C".to_owned(), "3".to_owned()),
        ]
    );
}

#[test]
fn empty_value_line_keeps_neighbours() {
    // the malformed line costs its own pair only: prior and later lines stay
    let lines = ok_lines("A=1\nKEY=\nB=2");
    let e = parse(&lines).unwrap_err();
    assert_eq!(e.kind, "LinesError");
    assert_eq!(
        e.message,
        "Error in Line 1: No name or value in 'KEY='"
    );
    assert_eq!(
        e.list.unwrap(),
        vec![
            ("A".to_owned(), "1".to_owned()),
            ("B".to_owned(), "2".to_owned()),
        ]
    );
}

#[test]
fn one_malformed_among_n_valid() {
    let lines = ok_lines("A=1\nB=2\n=\nC=3\nD=4");
    let e = parse(&lines).unwrap_err();
    assert_eq!(e.kind, "LinesError");
    assert_eq!(e.message, "Error in Line 2: No name or value in '='");
    assert_eq!(e.list.unwrap().len(), 4);
}

#[test]
fn parse_is_deterministic() {
    let lines = ok_lines("A=1\nbad\nB=2\n# note\n\nC=`x `");
    let e1 = parse(&lines).unwrap_err();
    let e2 = parse(&lines).unwrap_err();
    assert_eq!(e1.kind, e2.kind);
    assert_eq!(e1.message, e2.message);
    assert_eq!(e1.list, e2.list);
}

#[test]
fn unreadable_line_is_fatal() {
    let lines: Vec<Result<String, String>> = vec![
        Ok("A=1".to_owned()),
        Err("stream did not contain valid UTF-8".to_owned()),
        Ok("B=2".to_owned()),
    ];
    let e = parse(&lines).unwrap_err();
    assert_eq!(e.kind, "io");
    assert_eq!(e.message, "stream did not contain valid UTF-8");
    assert_eq!(e.list, None);
}

#[test]
fn diagnostics_are_bounded_at_ten() {
    let mut lines: Vec<Result<String, String>> = Vec::new();
    for _ in 0..12 {
        lines.push(Ok("broken".to_owned()));
    }
    let e = parse(&lines).unwrap_err();
    assert_eq!(e.kind, "LinesError");
    let rows: Vec<&str> = e.message.lines().collect();
    assert_eq!(rows.len(), 11);
    assert_eq!(rows[0], "Error in Line 0: No name or value in 'broken'");
    assert_eq!(rows[9], "Error in Line 9: No name or value in 'broken'");
    assert_eq!(rows[10], "And 2 more errors in .env file");
    assert_eq!(e.list.unwrap(), vec![]);
}

#[test]
fn comments_and_blanks_are_skipped() {
    let lines = ok_lines("# heading\n\n   \nA=1\n   # indented comment\nB=2");
    let list = to_vec(&lines).unwrap();
    assert_eq!(
        list,
        vec![
            ("A".to_owned(), "1".to_owned()),
            ("B".to_owned(), "2".to_owned()),
        ]
    );
}

#[test]
fn to_env_promotes_partial_list() {
    let lines = ok_lines("A=1\nbad line\nB=2");
    let (promoted, res) = to_env(&lines);
    assert_eq!(
        promoted,
        vec![
            ("A".to_owned(), "1".to_owned()),
            ("B".to_owned(), "2".to_owned()),
        ]
    );
    assert!(res.is_err());
}

#[test]
fn to_env_promotes_nothing_on_io_failure() {
    let lines: Vec<Result<String, String>> = vec![
        Ok("A=1".to_owned()),
        Err("permission denied".to_owned()),
    ];
    let (promoted, res) = to_env(&lines);
    assert_eq!(promoted, vec![]);
    let e = res.unwrap_err();
    assert_eq!(e.kind, "io");
}

#[test]
fn file_to_vec_wraps_the_error() {
    let lines = ok_lines("A=1\nB=2");
    assert_eq!(
        file_to_vec(&lines).map_err(|_| ()).unwrap(),
        vec![
            ("A".to_owned(), "1".to_owned()),
            ("B".to_owned(), "2".to_owned()),
        ]
    );
    let bad = ok_lines("=");
    let w = file_to_vec(&bad).err().unwrap();
    assert_eq!(w.0.kind, "LinesError");
}

#[test]
fn error_display_and_io_constructor() {
    let e = SimpleEnvError::io_error("no such file".to_owned());
    assert_eq!(e.kind, "io");
    assert_eq!(e.message, "no such file");
    assert_eq!(e.list, None);
    assert_eq!(e.display_string(), "io: no such file");
}
