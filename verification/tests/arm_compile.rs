use byte_muncher::{Arm, ClassPattern, InputStatePattern, Pattern};

fn arm(pattern: Pattern) -> Arm {
    Arm {
        pattern,
        action: None,
        transition: None,
    }
}

fn compiled(pattern: Pattern) -> String {
    let out = arm(pattern).compile_condition(b"__RHS__");
    String::from_utf8(out).expect("branch text should be text")
}

#[test]
fn compile_any_pattern_arm() {
    assert_eq!(compiled(Pattern::Any), "_ => { __RHS__ }");
}

#[test]
fn compile_byte_pattern_arm() {
    assert_eq!(compiled(Pattern::Byte(97)), "97u8 => { __RHS__ }");
}

#[test]
fn compile_condition_pattern_arm() {
    assert_eq!(
        compiled(Pattern::Condition(b"foo".to_vec())),
        "Some(b) if self.foo(b) => { __RHS__ }"
    );
}

#[test]
fn compile_class_pattern_arm() {
    assert_eq!(
        compiled(Pattern::Class(ClassPattern::Alnum)),
        "Some(b'a'..=b'z') | Some(b'A'..=b'Z') | Some(b'0'..=b'9') => { __RHS__ }"
    );

    assert_eq!(
        compiled(Pattern::Class(ClassPattern::Alpha)),
        "Some(b'a'..=b'z') | Some(b'A'..=b'Z') => { __RHS__ }"
    );

    assert_eq!(
        compiled(Pattern::Class(ClassPattern::Ascii)),
        "Some(0x00..=0x7f) => { __RHS__ }"
    );

    assert_eq!(
        compiled(Pattern::Class(ClassPattern::Lower)),
        "Some(b'a'..=b'z') => { __RHS__ }"
    );

    assert_eq!(
        compiled(Pattern::Class(ClassPattern::Upper)),
        "Some(b'A'..=b'Z') => { __RHS__ }"
    );

    assert_eq!(
        compiled(Pattern::Class(ClassPattern::Digit)),
        "Some(b'0'..=b'9') => { __RHS__ }"
    );

    assert_eq!(
        compiled(Pattern::Class(ClassPattern::Xdigit)),
        "Some(b'0'..=b'9') | Some(b'a'..=b'f') | Some(b'A'..=b'F') => { __RHS__ }"
    );

    assert_eq!(
        compiled(Pattern::Class(ClassPattern::Space)),
        "Some(b' ') | Some(b'\\n') | Some(b'\\r') | Some(b'\\t') | Some(b'\\x0C') => { __RHS__ }"
    );
}

#[test]
fn compile_state_enter() {
    assert_eq!(
        compiled(Pattern::StateEnter),
        "if self.__state_enter { self.__state_enter = false; __RHS__ }"
    );
}

#[test]
fn compile_input_state_pattern() {
    assert_eq!(
        compiled(Pattern::InputState(InputStatePattern::Eof)),
        "None => { __RHS__ }"
    );

    assert_eq!(
        compiled(Pattern::InputState(InputStatePattern::Eoc)),
        "None if !input.is_last() => { __RHS__ }"
    );
}
