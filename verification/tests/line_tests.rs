use stupid_simple_dotenv::parse_line;

#[test]
fn test_parse_line_new() {
    assert_eq!(parse_line("FOO=BAR").unwrap(), ("FOO", "BAR"));
    assert_eq!(parse_line("\"FOO\"=\"BAR\"").unwrap(), ("FOO", "BAR"));
    assert_eq!(parse_line("FOO = BAR").unwrap(), ("FOO", "BAR"));
    assert_eq!(parse_line("FOO=\"BAR\"").unwrap(), ("FOO", "BAR"));
    assert_eq!(parse_line("FOO='BAR'").unwrap(), ("FOO", "BAR"));
    assert_eq!(parse_line("FOO=`BAR`").unwrap(), ("FOO", "BAR"));
    assert_eq!(parse_line("FOO=\t `BAR`").unwrap(), ("FOO", "BAR"));
    assert_eq!(parse_line("FOO\t=\t `BAR`").unwrap(), ("FOO", "BAR"));
    assert_eq!(parse_line("FOO\t=\t ` BAR`").unwrap(), ("FOO", " BAR"));
    assert_eq!(
        parse_line("FOO\t=\t ` BAR`#comment").unwrap(),
        ("FOO", " BAR")
    );
    assert_eq!(parse_line("FOO\t=\t ` BAR `").unwrap(), ("FOO", " BAR "));
    assert_eq!(
        parse_line("FOO\t   =   \t ` BAR `").unwrap(),
        ("FOO", " BAR ")
    );
    assert_eq!(
        parse_line(" FOO\t   =   \t ` BAR `").unwrap(),
        ("FOO", " BAR ")
    );

    assert_eq!(true, matches!(parse_line(" FOO\t   = "), Result::Err(_)));
    assert_eq!(true, matches!(parse_line(" FOO\t   ="), Result::Err(_)));
    assert_eq!(true, matches!(parse_line("="), Result::Err(_)));
}

#[test]
fn round_trip_plain_pair() {
    assert_eq!(parse_line("KEY=VALUE").unwrap(), ("KEY", "VALUE"));
    assert_eq!(parse_line("A=B").unwrap(), ("A", "B"));
}

#[test]
fn quoting_preserves_whitespace() {
    assert_eq!(parse_line("KEY=` value `").unwrap(), ("KEY", " value "));
    assert_eq!(parse_line("KEY=\" value \"").unwrap(), ("KEY", " value "));
    assert_eq!(parse_line("KEY=' value '").unwrap(), ("KEY", " value "));
}

#[test]
fn trailing_comment_stripped_and_right_trimmed() {
    assert_eq!(parse_line("KEY=VALUE #comment").unwrap(), ("KEY", "VALUE"));
    assert_eq!(parse_line("KEY=VALUE\t  #comment").unwrap(), ("KEY", "VALUE"));
    assert_eq!(parse_line("KEY=VALUE#comment").unwrap(), ("KEY", "VALUE"));
}

#[test]
fn equals_only_line_fails() {
    let e = parse_line("=").unwrap_err();
    assert_eq!(e, "No name or value in '='");
}

#[test]
fn empty_unquoted_value_fails() {
    assert_eq!(
        parse_line("KEY=").unwrap_err(),
        "No name or value in 'KEY='"
    );
    assert!(matches!(parse_line("KEY= \t "), Result::Err(_)));
    assert!(matches!(parse_line("NOVALUE"), Result::Err(_)));
    assert!(matches!(parse_line("=VALUE"), Result::Err(_)));
}

#[test]
fn multibyte_characters_preserved() {
    assert_eq!(parse_line("KEY=BA\u{1F600}R").unwrap(), ("KEY", "BA\u{1F600}R"));
    assert_eq!(parse_line("KEY=B\u{1F600}").unwrap(), ("KEY", "B\u{1F600}"));
    assert_eq!(parse_line("K\u{00E4}Y=w\u{00FC}rde").unwrap(), ("K\u{00E4}Y", "w\u{00FC}rde"));
}

#[test]
fn quoted_empty_value_is_kept() {
    assert_eq!(parse_line("KEY=\"\"").unwrap(), ("KEY", ""));
}

#[test]
fn value_quotes_restart_the_span() {
    // an opening quote inside the value restarts it just after the quote
    assert_eq!(parse_line("KEY=abc\"def\"").unwrap(), ("KEY", "def"));
    // an equals sign inside a quoted value stays literal
    assert_eq!(parse_line("KEY=\"a=b\"").unwrap(), ("KEY", "a=b"));
    // a hash inside a quoted value stays literal
    assert_eq!(parse_line("KEY=\"a#b\"").unwrap(), ("KEY", "a#b"));
}
