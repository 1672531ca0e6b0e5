use vstd::prelude::*;
use vstd::string::StrSliceExecFns;

use crate::emit::text;
use crate::pattern::{ClassPattern, InputStatePattern, Pattern, PatternView, SequencePattern};

verus! {

/// A parse diagnostic: the message handed back to the caller.
#[derive(Clone, Debug, PartialEq, Eq)]
pub struct ParseError {
    pub message: Vec<u8>,
}

pub open spec fn is_ws_byte(b: u8) -> bool {
    b == ' ' as u8 || b == '\t' as u8 || b == '\n' as u8 || b == '\r' as u8
}

pub open spec fn is_digit_byte(b: u8) -> bool {
    '0' as u8 <= b <= '9' as u8
}

pub open spec fn is_hex_byte(b: u8) -> bool {
    is_digit_byte(b) || 'a' as u8 <= b <= 'f' as u8 || 'A' as u8 <= b <= 'F' as u8
}

pub open spec fn is_ident_start_byte(b: u8) -> bool {
    crate::pattern::is_ascii_alpha(b) || b == '_' as u8
}

pub open spec fn is_ident_byte(b: u8) -> bool {
    is_ident_start_byte(b) || is_digit_byte(b)
}

/// The position of the first non-blank byte at or after `i`.
pub open spec fn ws_end(s: Seq<u8>, i: int) -> int
    decreases s.len() - i,
{
    if 0 <= i < s.len() && is_ws_byte(s[i]) {
        ws_end(s, i + 1)
    } else {
        i
    }
}

/// The position right after the identifier starting at `i`.
pub open spec fn ident_end(s: Seq<u8>, i: int) -> int
    decreases s.len() - i,
{
    if 0 <= i < s.len() && is_ident_byte(s[i]) {
        ident_end(s, i + 1)
    } else {
        i
    }
}

/// The position right after the decimal digits starting at `i`.
pub open spec fn dec_end(s: Seq<u8>, i: int) -> int
    decreases s.len() - i,
{
    if 0 <= i < s.len() && is_digit_byte(s[i]) {
        dec_end(s, i + 1)
    } else {
        i
    }
}

/// The position right after the hexadecimal digits starting at `i`.
pub open spec fn hex_end(s: Seq<u8>, i: int) -> int
    decreases s.len() - i,
{
    if 0 <= i < s.len() && is_hex_byte(s[i]) {
        hex_end(s, i + 1)
    } else {
        i
    }
}

/// The position of the closing quote at or after `i`, or the end.
pub open spec fn str_end(s: Seq<u8>, i: int) -> int
    decreases s.len() - i,
{
    if 0 <= i < s.len() && s[i] != '"' as u8 {
        str_end(s, i + 1)
    } else {
        i
    }
}

/// The value of one hexadecimal digit.
pub open spec fn hex_digit_val(b: u8) -> int {
    if is_digit_byte(b) {
        b - '0' as u8
    } else if 'a' as u8 <= b <= 'f' as u8 {
        b - 'a' as u8 + 10
    } else {
        b - 'A' as u8 + 10
    }
}

/// The value of the decimal digits in `[i, e)`.
pub open spec fn dec_val(s: Seq<u8>, i: int, e: int) -> int
    decreases e - i,
{
    if e <= i {
        0
    } else {
        dec_val(s, i, e - 1) * 10 + (s[e - 1] - '0' as u8)
    }
}

/// The value of the hexadecimal digits in `[i, e)`.
pub open spec fn hex_val(s: Seq<u8>, i: int, e: int) -> int
    decreases e - i,
{
    if e <= i {
        0
    } else {
        hex_val(s, i, e - 1) * 16 + hex_digit_val(s[e - 1])
    }
}

/// One integer literal at `i`: decimal, or hexadecimal behind `0x`; its
/// value must fit in one byte.
pub open spec fn int_at(s: Seq<u8>, i: int) -> Result<(u8, int), Seq<u8>> {
    if !(0 <= i < s.len() && is_digit_byte(s[i])) {
        Err(text("malformed integer literal"@))
    } else if s[i] == '0' as u8 && i + 1 < s.len() && s[i + 1] == 'x' as u8 {
        let e = hex_end(s, i + 2);
        if e == i + 2 {
            Err(text("malformed integer literal"@))
        } else if hex_val(s, i + 2, e) > 255 {
            Err(text("byte value out of range"@))
        } else {
            Ok((hex_val(s, i + 2, e) as u8, e))
        }
    } else {
        let e = dec_end(s, i);
        if dec_val(s, i, e) > 255 {
            Err(text("byte value out of range"@))
        } else {
            Ok((dec_val(s, i, e) as u8, e))
        }
    }
}

/// The items of a bracketed byte list from `i` on, gathered onto `acc`;
/// the fuel only bounds the recursion and never runs out on an input the
/// list fits in.
pub open spec fn list_items(s: Seq<u8>, i: int, acc: Seq<u8>, fuel: nat) -> Result<
    (Seq<u8>, int),
    Seq<u8>,
>
    decreases fuel,
{
    if fuel == 0 {
        Err(text("malformed byte list"@))
    } else {
        let k = ws_end(s, i);
        match int_at(s, k) {
            Err(e) => Err(e),
            Ok((v, e)) => {
                let k2 = ws_end(s, e);
                if k2 < s.len() && s[k2] == ',' as u8 {
                    list_items(s, k2 + 1, acc.push(v), (fuel - 1) as nat)
                } else if k2 < s.len() && s[k2] == ']' as u8 {
                    Ok((acc.push(v), k2 + 1))
                } else {
                    Err(text("malformed byte list"@))
                }
            },
        }
    }
}

/// The built-in pattern keyword table: the eight classes and the two
/// absence-of-byte markers, and nothing else.
pub open spec fn keyword(w: Seq<u8>) -> Option<PatternView> {
    if w == text("alnum"@) {
        Some(PatternView::Class(ClassPattern::Alnum))
    } else if w == text("alpha"@) {
        Some(PatternView::Class(ClassPattern::Alpha))
    } else if w == text("ascii"@) {
        Some(PatternView::Class(ClassPattern::Ascii))
    } else if w == text("lower"@) {
        Some(PatternView::Class(ClassPattern::Lower))
    } else if w == text("upper"@) {
        Some(PatternView::Class(ClassPattern::Upper))
    } else if w == text("digit"@) {
        Some(PatternView::Class(ClassPattern::Digit))
    } else if w == text("xdigit"@) {
        Some(PatternView::Class(ClassPattern::Xdigit))
    } else if w == text("space"@) {
        Some(PatternView::Class(ClassPattern::Space))
    } else if w == text("eoc"@) {
        Some(PatternView::InputState(InputStatePattern::Eoc))
    } else if w == text("eof"@) {
        Some(PatternView::InputState(InputStatePattern::Eof))
    } else {
        None
    }
}

/// What the lookahead expects where no pattern form starts.
pub open spec fn expected_pattern_message() -> Seq<u8> {
    text(
        "expected one of: character literal, integer literal, string literal, square brackets, identifier, `_`, `if`"@,
    )
}

/// Accepts the parsed pattern if only blanks remain.
pub open spec fn finish(s: Seq<u8>, i: int, p: PatternView) -> Result<PatternView, Seq<u8>> {
    if ws_end(s, i) >= s.len() {
        Ok(p)
    } else {
        Err(text("unexpected token"@))
    }
}

/// Reads the optional case-folding flag `|i` behind a literal run.
pub open spec fn seq_flags(s: Seq<u8>, i: int, bytes: Seq<u8>) -> Result<PatternView, Seq<u8>> {
    let k = ws_end(s, i);
    if k < s.len() && s[k] == '|' as u8 {
        let k2 = ws_end(s, k + 1);
        if k2 < s.len() && s[k2] == 'i' as u8 && ident_end(s, k2) == k2 + 1 {
            finish(s, k2 + 1, PatternView::Sequence(bytes, true))
        } else {
            Err(text("unknown sequence flag"@))
        }
    } else {
        finish(s, k, PatternView::Sequence(bytes, false))
    }
}

/// One whole pattern, byte for byte: the entry arrow `-->`, a character or
/// integer byte literal, a quoted or bracketed literal run with its
/// optional `|i` flag, a keyword, the wildcard `_`, or `if` with a
/// predicate name.
pub open spec fn spec_parse_pattern(s: Seq<u8>) -> Result<PatternView, Seq<u8>> {
    let i = ws_end(s, 0);
    if i >= s.len() {
        Err(expected_pattern_message())
    } else if s[i] == '-' as u8 {
        if i + 2 < s.len() && s[i + 1] == '-' as u8 && s[i + 2] == '>' as u8 {
            finish(s, i + 3, PatternView::StateEnter)
        } else {
            Err(expected_pattern_message())
        }
    } else if s[i] == '\'' as u8 {
        if i + 2 < s.len() && s[i + 1] != '\'' as u8 && s[i + 1] != '\\' as u8 && s[i + 2]
            == '\'' as u8 {
            finish(s, i + 3, PatternView::Byte(s[i + 1]))
        } else {
            Err(text("malformed character literal"@))
        }
    } else if is_digit_byte(s[i]) {
        match int_at(s, i) {
            Err(e) => Err(e),
            Ok((v, e)) => finish(s, e, PatternView::Byte(v)),
        }
    } else if s[i] == '"' as u8 {
        let e = str_end(s, i + 1);
        if e >= s.len() {
            Err(text("unterminated string literal"@))
        } else if e == i + 1 {
            Err(text("empty sequence pattern"@))
        } else {
            seq_flags(s, e + 1, s.subrange(i + 1, e))
        }
    } else if s[i] == '[' as u8 {
        let k = ws_end(s, i + 1);
        if k < s.len() && s[k] == ']' as u8 {
            Err(text("empty sequence pattern"@))
        } else {
            match list_items(s, i + 1, Seq::empty(), s.len() as nat) {
                Err(e) => Err(e),
                Ok((bytes, e)) => seq_flags(s, e, bytes),
            }
        }
    } else if is_ident_start_byte(s[i]) {
        let e = ident_end(s, i);
        let w = s.subrange(i, e);
        if w == text("_"@) {
            finish(s, e, PatternView::Any)
        } else if w == text("if"@) {
            let k = ws_end(s, e);
            if k < s.len() && is_ident_start_byte(s[k]) {
                finish(s, ident_end(s, k), PatternView::Condition(s.subrange(k, ident_end(s, k))))
            } else {
                Err(text("expected identifier"@))
            }
        } else {
            match keyword(w) {
                Some(p) => finish(s, e, p),
                None => Err(text("unknown pattern"@)),
            }
        }
    } else {
        Err(expected_pattern_message())
    }
}

fn is_ws_x(b: u8) -> (r: bool)
    ensures
        r == is_ws_byte(b),
{
    b == ' ' as u8 || b == '\t' as u8 || b == '\n' as u8 || b == '\r' as u8
}

fn is_digit_x(b: u8) -> (r: bool)
    ensures
        r == is_digit_byte(b),
{
    '0' as u8 <= b && b <= '9' as u8
}

fn is_hex_x(b: u8) -> (r: bool)
    ensures
        r == is_hex_byte(b),
{
    ('0' as u8 <= b && b <= '9' as u8) || ('a' as u8 <= b && b <= 'f' as u8) || ('A' as u8 <= b
        && b <= 'F' as u8)
}

fn is_ident_start_x(b: u8) -> (r: bool)
    ensures
        r == is_ident_start_byte(b),
{
    crate::pattern::is_alpha(b) || b == '_' as u8
}

fn is_ident_x(b: u8) -> (r: bool)
    ensures
        r == is_ident_byte(b),
{
    is_ident_start_x(b) || is_digit_x(b)
}

fn ws_end_x(s: &[u8], i: usize) -> (r: usize)
    requires
        i <= s@.len(),
    ensures
        r == ws_end(s@, i as int),
        i <= r <= s@.len(),
    decreases s@.len() - i,
{
    if i < s.len() && is_ws_x(s[i]) {
        ws_end_x(s, i + 1)
    } else {
        i
    }
}

fn ident_end_x(s: &[u8], i: usize) -> (r: usize)
    requires
        i <= s@.len(),
    ensures
        r == ident_end(s@, i as int),
        i <= r <= s@.len(),
    decreases s@.len() - i,
{
    if i < s.len() && is_ident_x(s[i]) {
        ident_end_x(s, i + 1)
    } else {
        i
    }
}

fn dec_end_x(s: &[u8], i: usize) -> (r: usize)
    requires
        i <= s@.len(),
    ensures
        r == dec_end(s@, i as int),
        i <= r <= s@.len(),
    decreases s@.len() - i,
{
    if i < s.len() && is_digit_x(s[i]) {
        dec_end_x(s, i + 1)
    } else {
        i
    }
}

fn hex_end_x(s: &[u8], i: usize) -> (r: usize)
    requires
        i <= s@.len(),
    ensures
        r == hex_end(s@, i as int),
        i <= r <= s@.len(),
    decreases s@.len() - i,
{
    if i < s.len() && is_hex_x(s[i]) {
        hex_end_x(s, i + 1)
    } else {
        i
    }
}

fn str_end_x(s: &[u8], i: usize) -> (r: usize)
    requires
        i <= s@.len(),
    ensures
        r == str_end(s@, i as int),
        i <= r <= s@.len(),
    decreases s@.len() - i,
{
    if i < s.len() && s[i] != '"' as u8 {
        str_end_x(s, i + 1)
    } else {
        i
    }
}

/// Copies the bytes of `[i, e)` out of the input.
fn copy_range(s: &[u8], i: usize, e: usize) -> (r: Vec<u8>)
    requires
        i <= e <= s@.len(),
    ensures
        r@ == s@.subrange(i as int, e as int),
{
    let mut out: Vec<u8> = Vec::new();
    let mut k: usize = i;
    while k < e
        invariant
            i <= k <= e <= s@.len(),
            out@ == s@.subrange(i as int, k as int),
        decreases e - k,
    {
        out.push(s[k]);
        proof {
            assert(out@ =~= s@.subrange(i as int, k as int + 1));
        }
        k = k + 1;
    }
    out
}

/// Compares the bytes of `[i, e)` against an ASCII word.
fn is_word(s: &[u8], i: usize, e: usize, w: &str) -> (r: bool)
    requires
        i <= e <= s@.len(),
        vstd::string::is_ascii(w),
    ensures
        r == (s@.subrange(i as int, e as int) == text(w@)),
{
    let wb = w.as_bytes_vec();
    proof {
        vstd::string::is_ascii_spec_bytes(w);
        assert(wb@ =~= text(w@));
    }
    crate::grammar::bytes_eq(vstd::slice::slice_subrange(s, i, e), wb.as_slice())
}

/// Builds the diagnostic carrying an ASCII message.
fn make_error(w: &str) -> (r: ParseError)
    requires
        vstd::string::is_ascii(w),
    ensures
        r.message@ == text(w@),
{
    let m = w.as_bytes_vec();
    proof {
        vstd::string::is_ascii_spec_bytes(w);
        assert(m@ =~= text(w@));
    }
    ParseError { message: m }
}

/// Reads an integer literal and its end position; the value must fit in
/// one byte.
fn int_at_x(s: &[u8], i: usize) -> (r: Result<(u8, usize), ParseError>)
    requires
        i <= s@.len(),
    ensures
        match r {
            Ok((v, e)) => int_at(s@, i as int) == Ok::<(u8, int), Seq<u8>>((v, e as int)) && i
                <= e <= s@.len(),
            Err(er) => int_at(s@, i as int) matches Err(m) && er.message@ == m,
        },
{
    proof {
        reveal_strlit("malformed integer literal");
        reveal_strlit("byte value out of range");
    }
    if !(i < s.len() && is_digit_x(s[i])) {
        return Err(make_error("malformed integer literal"));
    }
    if s[i] == '0' as u8 && i + 1 < s.len() && s[i + 1] == 'x' as u8 {
        let e = hex_end_x(s, i + 2);
        if e == i + 2 {
            return Err(make_error("malformed integer literal"));
        }
        proof {
            assert forall|l: int| i + 2 <= l < e implies is_hex_byte(#[trigger] s@[l]) by {
                lemma_hex_end_digits(s@, i as int + 2, l);
            }
        }
        let mut acc: u32 = 0;
        let mut k: usize = i + 2;
        while k < e
            invariant
                i + 2 <= k <= e <= s@.len(),
                e == hex_end(s@, i as int + 2),
                forall|l: int| i + 2 <= l < e ==> is_hex_byte(#[trigger] s@[l]),
                acc <= 256,
                acc <= 255 ==> acc == hex_val(s@, i as int + 2, k as int),
                acc == 256 ==> hex_val(s@, i as int + 2, k as int) > 255,
            decreases e - k,
        {
            let d: u32 = hex_digit_x(s[k]);
            acc = if acc > 255 {
                256
            } else if acc * 16 + d > 255 {
                256
            } else {
                acc * 16 + d
            };
            k = k + 1;
        }
        if acc > 255 {
            return Err(make_error("byte value out of range"));
        }
        Ok((acc as u8, e))
    } else {
        let e = dec_end_x(s, i);
        proof {
            assert forall|l: int| i <= l < e implies is_digit_byte(#[trigger] s@[l]) by {
                lemma_dec_end_digits(s@, i as int, l);
            }
        }
        let mut acc: u32 = 0;
        let mut k: usize = i;
        while k < e
            invariant
                i <= k <= e <= s@.len(),
                e == dec_end(s@, i as int),
                forall|l: int| i <= l < e ==> is_digit_byte(#[trigger] s@[l]),
                acc <= 256,
                acc <= 255 ==> acc == dec_val(s@, i as int, k as int),
                acc == 256 ==> dec_val(s@, i as int, k as int) > 255,
            decreases e - k,
        {
            let d: u32 = (s[k] - '0' as u8) as u32;
            acc = if acc > 255 {
                256
            } else if acc * 10 + d > 255 {
                256
            } else {
                acc * 10 + d
            };
            k = k + 1;
        }
        if acc > 255 {
            return Err(make_error("byte value out of range"));
        }
        Ok((acc as u8, e))
    }
}

/// The value of a hexadecimal digit.
fn hex_digit_x(b: u8) -> (r: u32)
    requires
        is_hex_byte(b),
    ensures
        r == hex_digit_val(b),
        r < 16,
{
    if '0' as u8 <= b && b <= '9' as u8 {
        (b - '0' as u8) as u32
    } else if 'a' as u8 <= b && b <= 'f' as u8 {
        (b - 'a' as u8) as u32 + 10
    } else {
        (b - 'A' as u8) as u32 + 10
    }
}

/// Reads the items of a bracketed byte list, gathering them onto `acc`.
fn list_items_x(s: &[u8], i: usize, acc: Vec<u8>, fuel: usize) -> (r: Result<
    (Vec<u8>, usize),
    ParseError,
>)
    requires
        i <= s@.len(),
    ensures
        match r {
            Ok((bytes, e)) => list_items(s@, i as int, acc@, fuel as nat) == Ok::<
                (Seq<u8>, int),
                Seq<u8>,
            >((bytes@, e as int)) && e <= s@.len(),
            Err(er) => list_items(s@, i as int, acc@, fuel as nat) matches Err(m) && er.message@
                == m,
        },
    decreases fuel,
{
    proof {
        reveal_strlit("malformed byte list");
    }
    if fuel == 0 {
        return Err(make_error("malformed byte list"));
    }
    let k = ws_end_x(s, i);
    match int_at_x(s, k) {
        Err(er) => Err(er),
        Ok((v, e)) => {
            let k2 = ws_end_x(s, e);
            let mut next = acc;
            next.push(v);
            if k2 < s.len() && s[k2] == ',' as u8 {
                list_items_x(s, k2 + 1, next, fuel - 1)
            } else if k2 < s.len() && s[k2] == ']' as u8 {
                Ok((next, k2 + 1))
            } else {
                Err(make_error("malformed byte list"))
            }
        },
    }
}

/// Accepts the parsed pattern if only blanks remain.
fn finish_x(s: &[u8], i: usize, p: Pattern) -> (r: Result<Pattern, ParseError>)
    requires
        i <= s@.len(),
    ensures
        match r {
            Ok(q) => finish(s@, i as int, p.deep_view()) == Ok::<PatternView, Seq<u8>>(
                q.deep_view(),
            ),
            Err(er) => finish(s@, i as int, p.deep_view()) matches Err(m) && er.message@ == m,
        },
{
    proof {
        reveal_strlit("unexpected token");
    }
    let k = ws_end_x(s, i);
    if k >= s.len() {
        Ok(p)
    } else {
        Err(make_error("unexpected token"))
    }
}

/// Reads the optional case-folding flag behind a literal run.
fn seq_flags_x(s: &[u8], i: usize, bytes: Vec<u8>) -> (r: Result<Pattern, ParseError>)
    requires
        i <= s@.len(),
    ensures
        match r {
            Ok(q) => seq_flags(s@, i as int, bytes@) == Ok::<PatternView, Seq<u8>>(q.deep_view()),
            Err(er) => seq_flags(s@, i as int, bytes@) matches Err(m) && er.message@ == m,
        },
{
    proof {
        reveal_strlit("unknown sequence flag");
    }
    let k = ws_end_x(s, i);
    if k < s.len() && s[k] == '|' as u8 {
        let k2 = ws_end_x(s, k + 1);
        if k2 < s.len() && s[k2] == 'i' as u8 && ident_end_x(s, k2) == k2 + 1 {
            finish_x(s, k2 + 1, Pattern::Sequence(SequencePattern { bytes, ignore_case: true }))
        } else {
            Err(make_error("unknown sequence flag"))
        }
    } else {
        finish_x(s, k, Pattern::Sequence(SequencePattern { bytes, ignore_case: false }))
    }
}

impl Pattern {
    /// Classifies one bare identifier: a built-in class, an
    /// absence-of-byte marker, and nothing else.
    pub fn parse_from_ident(name: &[u8]) -> (r: Result<Pattern, ParseError>)
        ensures
            match keyword(name@) {
                Some(pv) => r matches Ok(p) && p.deep_view() == pv,
                None => r matches Err(e) && e.message@ == text("unknown pattern"@),
            },
    {
        proof {
            reveal_strlit("alnum");
            reveal_strlit("alpha");
            reveal_strlit("ascii");
            reveal_strlit("lower");
            reveal_strlit("upper");
            reveal_strlit("digit");
            reveal_strlit("xdigit");
            reveal_strlit("space");
            reveal_strlit("eoc");
            reveal_strlit("eof");
            reveal_strlit("unknown pattern");
            assert(name@.subrange(0, name@.len() as int) =~= name@);
        }
        let n = name.len();
        if is_word(name, 0, n, "alnum") {
            Ok(Pattern::Class(ClassPattern::Alnum))
        } else if is_word(name, 0, n, "alpha") {
            Ok(Pattern::Class(ClassPattern::Alpha))
        } else if is_word(name, 0, n, "ascii") {
            Ok(Pattern::Class(ClassPattern::Ascii))
        } else if is_word(name, 0, n, "lower") {
            Ok(Pattern::Class(ClassPattern::Lower))
        } else if is_word(name, 0, n, "upper") {
            Ok(Pattern::Class(ClassPattern::Upper))
        } else if is_word(name, 0, n, "digit") {
            Ok(Pattern::Class(ClassPattern::Digit))
        } else if is_word(name, 0, n, "xdigit") {
            Ok(Pattern::Class(ClassPattern::Xdigit))
        } else if is_word(name, 0, n, "space") {
            Ok(Pattern::Class(ClassPattern::Space))
        } else if is_word(name, 0, n, "eoc") {
            Ok(Pattern::InputState(InputStatePattern::Eoc))
        } else if is_word(name, 0, n, "eof") {
            Ok(Pattern::InputState(InputStatePattern::Eof))
        } else {
            Err(make_error("unknown pattern"))
        }
    }

    /// Parses one whole pattern from its textual form; exactly the inputs
    /// the pattern micro-syntax admits come back `Ok`, everything else
    /// comes back with the diagnostic the syntax owes it.
    pub fn parse(src: &[u8]) -> (r: Result<Pattern, ParseError>)
        ensures
            match r {
                Ok(p) => spec_parse_pattern(src@) == Ok::<PatternView, Seq<u8>>(p.deep_view()),
                Err(e) => spec_parse_pattern(src@) matches Err(m) && e.message@ == m,
            },
    {
        proof {
            reveal_strlit(
                "expected one of: character literal, integer literal, string literal, square brackets, identifier, `_`, `if`",
            );
            reveal_strlit("malformed character literal");
            reveal_strlit("unterminated string literal");
            reveal_strlit("empty sequence pattern");
            reveal_strlit("expected identifier");
            reveal_strlit("_");
            reveal_strlit("if");
        }
        let i = ws_end_x(src, 0);
        if i >= src.len() {
            return Err(make_error(
                "expected one of: character literal, integer literal, string literal, square brackets, identifier, `_`, `if`",
            ));
        }
        let c = src[i];
        if c == '-' as u8 {
            if src.len() - i > 2 && src[i + 1] == '-' as u8 && src[i + 2] == '>' as u8 {
                finish_x(src, i + 3, Pattern::StateEnter)
            } else {
                Err(make_error(
                    "expected one of: character literal, integer literal, string literal, square brackets, identifier, `_`, `if`",
                ))
            }
        } else if c == '\'' as u8 {
            if src.len() - i > 2 && src[i + 1] != '\'' as u8 && src[i + 1] != '\\' as u8 && src[i
                + 2] == '\'' as u8 {
                finish_x(src, i + 3, Pattern::Byte(src[i + 1]))
            } else {
                Err(make_error("malformed character literal"))
            }
        } else if is_digit_x(c) {
            match int_at_x(src, i) {
                Err(er) => Err(er),
                Ok((v, e)) => finish_x(src, e, Pattern::Byte(v)),
            }
        } else if c == '"' as u8 {
            let e = str_end_x(src, i + 1);
            if e >= src.len() {
                Err(make_error("unterminated string literal"))
            } else if e == i + 1 {
                Err(make_error("empty sequence pattern"))
            } else {
                seq_flags_x(src, e + 1, copy_range(src, i + 1, e))
            }
        } else if c == '[' as u8 {
            let k = ws_end_x(src, i + 1);
            if k < src.len() && src[k] == ']' as u8 {
                Err(make_error("empty sequence pattern"))
            } else {
                match list_items_x(src, i + 1, Vec::new(), src.len()) {
                    Err(er) => Err(er),
                    Ok((bytes, e)) => seq_flags_x(src, e, bytes),
                }
            }
        } else if is_ident_start_x(c) {
            let e = ident_end_x(src, i);
            if is_word(src, i, e, "_") {
                finish_x(src, e, Pattern::Any)
            } else if is_word(src, i, e, "if") {
                let k = ws_end_x(src, e);
                if k < src.len() && is_ident_start_x(src[k]) {
                    let e2 = ident_end_x(src, k);
                    finish_x(src, e2, Pattern::Condition(copy_range(src, k, e2)))
                } else {
                    Err(make_error("expected identifier"))
                }
            } else {
                match Self::parse_from_ident(vstd::slice::slice_subrange(src, i, e)) {
                    Err(er) => Err(er),
                    Ok(p) => finish_x(src, e, p),
                }
            }
        } else {
            Err(make_error(
                "expected one of: character literal, integer literal, string literal, square brackets, identifier, `_`, `if`",
            ))
        }
    }
}

/// Every byte of a scanned digit run is really a digit.
proof fn lemma_hex_end_digits(s: Seq<u8>, i: int, l: int)
    requires
        0 <= i <= l < hex_end(s, i),
    ensures
        is_hex_byte(s[l]),
    decreases l - i,
{
    if l > i {
        lemma_hex_end_digits(s, i + 1, l);
    }
}

proof fn lemma_dec_end_digits(s: Seq<u8>, i: int, l: int)
    requires
        0 <= i <= l < dec_end(s, i),
    ensures
        is_digit_byte(s[l]),
    decreases l - i,
{
    if l > i {
        lemma_dec_end_digits(s, i + 1, l);
    }
}

} // verus!
