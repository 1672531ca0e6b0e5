use byte_muncher::{ClassPattern, InputStatePattern, Pattern, SequencePattern};

fn parse_ok(src: &[u8]) -> Pattern {
    Pattern::parse(src).expect("pattern should parse")
}

fn parse_err(src: &[u8]) -> String {
    let e = Pattern::parse(src).expect_err("pattern should be rejected");
    String::from_utf8(e.message).expect("diagnostic should be text")
}

#[test]
fn parse_byte_pattern() {
    assert_eq!(parse_ok(b"'a'"), Pattern::Byte(0x61));
    assert_eq!(parse_ok(b"0x61"), Pattern::Byte(0x61));
}

#[test]
fn parse_seq_pattern() {
    assert_eq!(
        parse_ok(b"\"FooBar\"|i"),
        Pattern::Sequence(SequencePattern {
            bytes: vec![0x46, 0x6f, 0x6f, 0x42, 0x61, 0x72],
            ignore_case: true
        })
    );

    assert_eq!(
        parse_ok(b"[1, 2, 0x03]|i"),
        Pattern::Sequence(SequencePattern {
            bytes: vec![0x01, 0x02, 0x03],
            ignore_case: true
        })
    );
}

#[test]
fn parse_class_pattern() {
    assert_eq!(parse_ok(b"alnum"), Pattern::Class(ClassPattern::Alnum));
    assert_eq!(parse_ok(b"alpha"), Pattern::Class(ClassPattern::Alpha));
    assert_eq!(parse_ok(b"ascii"), Pattern::Class(ClassPattern::Ascii));
    assert_eq!(parse_ok(b"lower"), Pattern::Class(ClassPattern::Lower));
    assert_eq!(parse_ok(b"upper"), Pattern::Class(ClassPattern::Upper));
    assert_eq!(parse_ok(b"digit"), Pattern::Class(ClassPattern::Digit));
    assert_eq!(parse_ok(b"xdigit"), Pattern::Class(ClassPattern::Xdigit));
    assert_eq!(parse_ok(b"space"), Pattern::Class(ClassPattern::Space));
}

#[test]
fn parse_input_state_pattern() {
    assert_eq!(
        parse_ok(b"eoc"),
        Pattern::InputState(InputStatePattern::Eoc)
    );
    assert_eq!(
        parse_ok(b"eof"),
        Pattern::InputState(InputStatePattern::Eof)
    );
}

#[test]
fn parse_condition_pattern() {
    assert_eq!(
        parse_ok(b"if foobar"),
        Pattern::Condition(b"foobar".to_vec())
    );
}

#[test]
fn condition_pattern_without_identifier_error() {
    assert_eq!(parse_err(b"if =>"), "expected identifier");
}

#[test]
fn parse_any_pattern() {
    assert_eq!(parse_ok(b"_"), Pattern::Any);
}

#[test]
fn parse_state_enter_pattern() {
    assert_eq!(parse_ok(b"-->"), Pattern::StateEnter);
}

#[test]
fn unknown_pattern_error() {
    assert_eq!(parse_err(b"foobar"), "unknown pattern");
}

#[test]
fn unexpected_token_error() {
    let expected = [
        "expected one of: character literal, integer literal, ",
        "string literal, square brackets, identifier, `_`, `if`",
    ]
    .join("");
    assert_eq!(parse_err(b"-3"), expected);
}
