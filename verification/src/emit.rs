use vstd::prelude::*;
use vstd::string::StrSliceExecFns;

use crate::grammar::Arm;
use crate::pattern::{ClassPattern, InputStatePattern, Pattern};

verus! {

/// The bytes of an ASCII text, character for character.
pub open spec fn text(s: Seq<char>) -> Seq<u8> {
    Seq::new(s.len(), |i: int| s[i] as u8)
}

/// Appends the bytes of an ASCII string to the output buffer.
fn push_text(out: &mut Vec<u8>, s: &str)
    requires
        vstd::string::is_ascii(s),
    ensures
        final(out)@ == old(out)@ + text(s@),
{
    let mut piece = s.as_bytes_vec();
    proof {
        vstd::string::is_ascii_spec_bytes(s);
        assert(piece@ =~= text(s@));
    }
    out.append(&mut piece);
}

/// The decimal digit character for a value below ten.
pub open spec fn dec_digit(d: u8) -> u8 {
    ('0' as u8 + d) as u8
}

/// The shortest decimal rendering of a byte value.
pub open spec fn dec_text(b: u8) -> Seq<u8> {
    if b < 10 {
        seq![dec_digit(b)]
    } else if b < 100 {
        seq![dec_digit(b / 10), dec_digit(b % 10)]
    } else {
        seq![dec_digit(b / 100), dec_digit((b / 10) % 10), dec_digit(b % 10)]
    }
}

/// Appends the decimal rendering of a byte value.
fn push_dec(out: &mut Vec<u8>, b: u8)
    ensures
        final(out)@ == old(out)@ + dec_text(b),
{
    if b >= 100 {
        out.push('0' as u8 + b / 100);
    }
    if b >= 10 {
        out.push('0' as u8 + (b / 10) % 10);
    }
    out.push('0' as u8 + b % 10);
    proof {
        assert(final(out)@ =~= old(out)@ + dec_text(b));
    }
}

/// The guard text of each built-in class: the alternation of its documented
/// byte ranges, reproduced byte for byte.
pub open spec fn class_guard_text(c: ClassPattern) -> Seq<u8> {
    match c {
        ClassPattern::Alnum => text(
            "Some(b'a'..=b'z') | Some(b'A'..=b'Z') | Some(b'0'..=b'9')"@,
        ),
        ClassPattern::Alpha => text("Some(b'a'..=b'z') | Some(b'A'..=b'Z')"@),
        ClassPattern::Ascii => text("Some(0x00..=0x7f)"@),
        ClassPattern::Lower => text("Some(b'a'..=b'z')"@),
        ClassPattern::Upper => text("Some(b'A'..=b'Z')"@),
        ClassPattern::Digit => text("Some(b'0'..=b'9')"@),
        ClassPattern::Xdigit => text(
            "Some(b'0'..=b'9') | Some(b'a'..=b'f') | Some(b'A'..=b'F')"@,
        ),
        ClassPattern::Space => text(
            "Some(b' ') | Some(b'\\n') | Some(b'\\r') | Some(b'\\t') | Some(b'\\x0C')"@,
        ),
    }
}

/// Emits the guard of a built-in class pattern.
pub fn compile_class_pattern(c: ClassPattern) -> (r: Vec<u8>)
    ensures
        r@ == class_guard_text(c),
{
    let mut out: Vec<u8> = Vec::new();
    match c {
        ClassPattern::Alnum => {
            proof {
                reveal_strlit("Some(b'a'..=b'z') | Some(b'A'..=b'Z') | Some(b'0'..=b'9')");
            }
            push_text(&mut out, "Some(b'a'..=b'z') | Some(b'A'..=b'Z') | Some(b'0'..=b'9')");
        },
        ClassPattern::Alpha => {
            proof {
                reveal_strlit("Some(b'a'..=b'z') | Some(b'A'..=b'Z')");
            }
            push_text(&mut out, "Some(b'a'..=b'z') | Some(b'A'..=b'Z')");
        },
        ClassPattern::Ascii => {
            proof {
                reveal_strlit("Some(0x00..=0x7f)");
            }
            push_text(&mut out, "Some(0x00..=0x7f)");
        },
        ClassPattern::Lower => {
            proof {
                reveal_strlit("Some(b'a'..=b'z')");
            }
            push_text(&mut out, "Some(b'a'..=b'z')");
        },
        ClassPattern::Upper => {
            proof {
                reveal_strlit("Some(b'A'..=b'Z')");
            }
            push_text(&mut out, "Some(b'A'..=b'Z')");
        },
        ClassPattern::Digit => {
            proof {
                reveal_strlit("Some(b'0'..=b'9')");
            }
            push_text(&mut out, "Some(b'0'..=b'9')");
        },
        ClassPattern::Xdigit => {
            proof {
                reveal_strlit("Some(b'0'..=b'9') | Some(b'a'..=b'f') | Some(b'A'..=b'F')");
            }
            push_text(&mut out, "Some(b'0'..=b'9') | Some(b'a'..=b'f') | Some(b'A'..=b'F')");
        },
        ClassPattern::Space => {
            proof {
                reveal_strlit("Some(b' ') | Some(b'\\n') | Some(b'\\r') | Some(b'\\t') | Some(b'\\x0C')");
            }
            push_text(
                &mut out,
                "Some(b' ') | Some(b'\\n') | Some(b'\\r') | Some(b'\\t') | Some(b'\\x0C')",
            );
        },
    }
    proof {
        assert(out@ =~= class_guard_text(c));
    }
    out
}

/// The guard text of an absence-of-byte marker: `Eoc` is guarded on the
/// current chunk not being the last, `Eof` is the bare no-byte case.
pub open spec fn input_state_guard_text(s: InputStatePattern) -> Seq<u8> {
    match s {
        InputStatePattern::Eoc => text("None if !input.is_last()"@),
        InputStatePattern::Eof => text("None"@),
    }
}

/// Emits the guard of an absence-of-byte marker.
pub fn compile_input_state_pattern(s: InputStatePattern) -> (r: Vec<u8>)
    ensures
        r@ == input_state_guard_text(s),
{
    let mut out: Vec<u8> = Vec::new();
    match s {
        InputStatePattern::Eoc => {
            proof {
                reveal_strlit("None if !input.is_last()");
            }
            push_text(&mut out, "None if !input.is_last()");
        },
        InputStatePattern::Eof => {
            proof {
                reveal_strlit("None");
            }
            push_text(&mut out, "None");
        },
    }
    proof {
        assert(out@ =~= input_state_guard_text(s));
    }
    out
}

/// The guard text of a host-predicate pattern: the byte is handed to the
/// named predicate of the running instance.
pub open spec fn condition_guard_text(name: Seq<u8>) -> Seq<u8> {
    text("Some(b) if self."@) + name + text("(b)"@)
}

/// Emits the guard of a host-predicate pattern.
pub fn compile_condition_pattern(name: &Vec<u8>) -> (r: Vec<u8>)
    ensures
        r@ == condition_guard_text(name@),
{
    let mut out: Vec<u8> = Vec::new();
    proof {
        reveal_strlit("Some(b) if self.");
        reveal_strlit("(b)");
    }
    push_text(&mut out, "Some(b) if self.");
    let mut n = name.clone();
    out.append(&mut n);
    push_text(&mut out, "(b)");
    proof {
        assert(out@ =~= condition_guard_text(name@));
    }
    out
}

/// The guard text of an exact byte pattern: its decimal value with the byte
/// suffix.
pub open spec fn byte_guard_text(b: u8) -> Seq<u8> {
    dec_text(b) + text("u8"@)
}

/// The text of the one-shot entry prelude: the body runs only while the
/// just-entered flag of the running instance still stands, and clears it.
pub open spec fn state_enter_prelude_text(rhs: Seq<u8>) -> Seq<u8> {
    text("if self.__state_enter { self.__state_enter = false; "@) + rhs + text(" }"@)
}

/// Emits the one-shot entry prelude around the given body.
pub fn compile_state_enter_prelude(rhs: &[u8]) -> (r: Vec<u8>)
    ensures
        r@ == state_enter_prelude_text(rhs@),
{
    let mut out: Vec<u8> = Vec::new();
    proof {
        reveal_strlit("if self.__state_enter { self.__state_enter = false; ");
        reveal_strlit(" }");
    }
    push_text(&mut out, "if self.__state_enter { self.__state_enter = false; ");
    let mut body = vstd::slice::slice_to_vec(rhs);
    out.append(&mut body);
    push_text(&mut out, " }");
    proof {
        assert(out@ =~= state_enter_prelude_text(rhs@));
    }
    out
}

/// One guarded branch: the guard, the arrow, and the braced body.
pub open spec fn match_arm_text(guard: Seq<u8>, rhs: Seq<u8>) -> Seq<u8> {
    guard + text(" => { "@) + rhs + text(" }"@)
}

/// The decision text of one arm around a given body: a guarded branch for
/// every single-event pattern, and the entry prelude for `StateEnter`.
/// Multi-byte runs span several events and have no single branch; the
/// expander rewrites them first.
pub open spec fn arm_condition_text(p: Pattern, rhs: Seq<u8>) -> Seq<u8> {
    match p {
        Pattern::StateEnter => state_enter_prelude_text(rhs),
        Pattern::Byte(b) => match_arm_text(byte_guard_text(b), rhs),
        Pattern::Class(c) => match_arm_text(class_guard_text(c), rhs),
        Pattern::InputState(s) => match_arm_text(input_state_guard_text(s), rhs),
        Pattern::Condition(name) => match_arm_text(condition_guard_text(name@), rhs),
        Pattern::Any => match_arm_text(text("_"@), rhs),
        Pattern::Sequence(q) => Seq::empty(),
    }
}

/// Wraps a finished guard and the body into one branch.
fn finish_match_arm(guard: Vec<u8>, rhs: &[u8]) -> (r: Vec<u8>)
    ensures
        r@ == match_arm_text(guard@, rhs@),
{
    let ghost g0 = guard@;
    let mut out = guard;
    proof {
        reveal_strlit(" => { ");
        reveal_strlit(" }");
    }
    push_text(&mut out, " => { ");
    let mut body = vstd::slice::slice_to_vec(rhs);
    out.append(&mut body);
    push_text(&mut out, " }");
    proof {
        assert(out@ =~= match_arm_text(g0, rhs@));
    }
    out
}

impl Arm {
    /// Compiles this arm's pattern into its decision text around the given
    /// body. Multi-byte runs are rewritten by the expander before any arm
    /// reaches this point, so they are left out here.
    pub fn compile_condition(&self, rhs: &[u8]) -> (r: Vec<u8>)
        requires
            !(self.pattern is Sequence),
        ensures
            r@ == arm_condition_text(self.pattern, rhs@),
    {
        match &self.pattern {
            Pattern::StateEnter => compile_state_enter_prelude(rhs),
            Pattern::Byte(b) => {
                let mut guard: Vec<u8> = Vec::new();
                push_dec(&mut guard, *b);
                proof {
                    reveal_strlit("u8");
                }
                push_text(&mut guard, "u8");
                proof {
                    assert(guard@ =~= byte_guard_text(*b));
                }
                finish_match_arm(guard, rhs)
            },
            Pattern::Class(c) => finish_match_arm(compile_class_pattern(*c), rhs),
            Pattern::InputState(s) => finish_match_arm(compile_input_state_pattern(*s), rhs),
            Pattern::Condition(name) => finish_match_arm(compile_condition_pattern(name), rhs),
            Pattern::Any => {
                let mut guard: Vec<u8> = Vec::new();
                proof {
                    reveal_strlit("_");
                }
                push_text(&mut guard, "_");
                finish_match_arm(guard, rhs)
            },
            Pattern::Sequence(q) => Vec::new(),
        }
    }
}

} // verus!
