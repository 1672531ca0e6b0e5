use vstd::prelude::*;

verus! {

/// One of the fixed built-in ASCII character classes a pattern may name.
#[derive(Clone, Copy, Debug, PartialEq, Eq, Structural)]
pub enum ClassPattern {
    Alnum,
    Alpha,
    Ascii,
    Lower,
    Upper,
    Digit,
    Xdigit,
    Space,
}

/// An absence-of-byte marker: `Eof` for true stream exhaustion, `Eoc` for
/// exhaustion of the current chunk while more chunks are still expected.
#[derive(Clone, Copy, Debug, PartialEq, Eq, Structural)]
pub enum InputStatePattern {
    Eoc,
    Eof,
}

/// An ordered literal run of bytes, optionally case-folded for the
/// alphabetic positions.
#[derive(Clone, Debug, PartialEq, Eq)]
pub struct SequencePattern {
    pub bytes: Vec<u8>,
    pub ignore_case: bool,
}

/// The closed set of matchable patterns an arm may carry.
#[derive(Clone, Debug, PartialEq, Eq)]
pub enum Pattern {
    /// Exactly one byte value.
    Byte(u8),
    /// Any byte of a built-in class.
    Class(ClassPattern),
    /// A multi-byte literal run.
    Sequence(SequencePattern),
    /// An absence-of-byte marker.
    InputState(InputStatePattern),
    /// Delegates the decision to a host predicate over the current byte,
    /// named by the identifier held here.
    Condition(Vec<u8>),
    /// The wildcard: claims whatever reaches it.
    Any,
    /// The one-shot entry prelude; not a competing alternative.
    StateEnter,
}

pub open spec fn is_ascii_lower(b: u8) -> bool {
    'a' as u8 <= b <= 'z' as u8
}

pub open spec fn is_ascii_upper(b: u8) -> bool {
    'A' as u8 <= b <= 'Z' as u8
}

pub open spec fn is_ascii_digit(b: u8) -> bool {
    '0' as u8 <= b <= '9' as u8
}

pub open spec fn is_ascii_alpha(b: u8) -> bool {
    is_ascii_lower(b) || is_ascii_upper(b)
}

/// The documented byte set of each built-in class, byte for byte.
pub open spec fn class_matches(c: ClassPattern, b: u8) -> bool {
    match c {
        ClassPattern::Alnum => is_ascii_alpha(b) || is_ascii_digit(b),
        ClassPattern::Alpha => is_ascii_alpha(b),
        ClassPattern::Ascii => b <= 0x7f,
        ClassPattern::Lower => is_ascii_lower(b),
        ClassPattern::Upper => is_ascii_upper(b),
        ClassPattern::Digit => is_ascii_digit(b),
        ClassPattern::Xdigit => is_ascii_digit(b) || 'a' as u8 <= b <= 'f' as u8
            || 'A' as u8 <= b <= 'F' as u8,
        ClassPattern::Space => b == ' ' as u8 || b == '\n' as u8 || b == '\r' as u8
            || b == '\t' as u8 || b == 0x0c,
    }
}

impl ClassPattern {
    /// Decides membership of one byte in this class: exactly the class's
    /// documented byte set, nothing else.
    pub fn matches(self, b: u8) -> (r: bool)
        ensures
            r == class_matches(self, b),
    {
        match self {
            ClassPattern::Alnum => ('a' as u8 <= b && b <= 'z' as u8) || ('A' as u8 <= b && b <= 'Z' as u8)
                || ('0' as u8 <= b && b <= '9' as u8),
            ClassPattern::Alpha => ('a' as u8 <= b && b <= 'z' as u8) || ('A' as u8 <= b && b <= 'Z' as u8),
            ClassPattern::Ascii => b <= 0x7f,
            ClassPattern::Lower => 'a' as u8 <= b && b <= 'z' as u8,
            ClassPattern::Upper => 'A' as u8 <= b && b <= 'Z' as u8,
            ClassPattern::Digit => '0' as u8 <= b && b <= '9' as u8,
            ClassPattern::Xdigit => ('0' as u8 <= b && b <= '9' as u8) || ('a' as u8 <= b && b <= 'f' as u8)
                || ('A' as u8 <= b && b <= 'F' as u8),
            ClassPattern::Space => b == ' ' as u8 || b == '\n' as u8 || b == '\r' as u8 || b == '\t' as u8
                || b == 0x0c,
        }
    }
}

/// The other case variant of an ASCII letter; any other byte is its own
/// variant.
pub open spec fn case_flipped(b: u8) -> u8 {
    if is_ascii_lower(b) {
        (b - 0x20) as u8
    } else if is_ascii_upper(b) {
        (b + 0x20) as u8
    } else {
        b
    }
}

/// Whether one observed byte satisfies one position of a literal run: the
/// exact byte, or either case variant when the position is alphabetic and
/// the run is case-folded.
pub open spec fn run_byte_matches(expected: u8, ignore_case: bool, b: u8) -> bool {
    b == expected || (ignore_case && is_ascii_alpha(expected) && b == case_flipped(expected))
}

/// Computes the other case variant of an ASCII letter; any other byte
/// comes back unchanged.
pub fn flip_case(b: u8) -> (r: u8)
    ensures
        r == case_flipped(b),
{
    if 'a' as u8 <= b && b <= 'z' as u8 {
        b - 0x20
    } else if 'A' as u8 <= b && b <= 'Z' as u8 {
        b + 0x20
    } else {
        b
    }
}

/// Decides whether a byte is an ASCII letter.
pub fn is_alpha(b: u8) -> (r: bool)
    ensures
        r == is_ascii_alpha(b),
{
    ('a' as u8 <= b && b <= 'z' as u8) || ('A' as u8 <= b && b <= 'Z' as u8)
}

/// The mathematical shape of a pattern: every byte string it holds as a
/// sequence.
pub enum PatternView {
    Byte(u8),
    Class(ClassPattern),
    Sequence(Seq<u8>, bool),
    InputState(InputStatePattern),
    Condition(Seq<u8>),
    Any,
    StateEnter,
}

impl DeepView for Pattern {
    type V = PatternView;

    open spec fn deep_view(&self) -> PatternView {
        match self {
            Pattern::Byte(b) => PatternView::Byte(*b),
            Pattern::Class(c) => PatternView::Class(*c),
            Pattern::Sequence(q) => PatternView::Sequence(q.bytes@, q.ignore_case),
            Pattern::InputState(s) => PatternView::InputState(*s),
            Pattern::Condition(n) => PatternView::Condition(n@),
            Pattern::Any => PatternView::Any,
            Pattern::StateEnter => PatternView::StateEnter,
        }
    }
}

} // verus!
