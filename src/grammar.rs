//! The JSON grammar as a functional recursive-descent reading of a character
//! sequence. Each reading function starts at an offset and yields either what
//! it read together with the number of characters it consumed, or the cause of
//! the first failure together with its offset.
use crate::error::ErrorKind;
use crate::value::Json;
use vstd::prelude::*;

verus! {

/// How many arrays and objects may nest inside one another.
pub const MAX_DEPTH: usize = 128;

/// What a reading function yields.
pub type Outcome<T> = Result<(T, nat), (ErrorKind, int)>;

/// The characters left from offset `i`.
pub open spec fn rest(s: Seq<char>, i: int) -> nat {
    if 0 <= i < s.len() {
        (s.len() - i) as nat
    } else {
        0
    }
}

pub open spec fn is_ws(c: char) -> bool {
    c == ' ' || c == '\t' || c == '\n' || c == '\r'
}

pub open spec fn is_digit(c: char) -> bool {
    '0' <= c <= '9'
}

/// The number of whitespace characters starting at `i`.
pub open spec fn ws_len(s: Seq<char>, i: int) -> nat
    decreases rest(s, i),
{
    if 0 <= i < s.len() && is_ws(s[i]) {
        1 + ws_len(s, i + 1)
    } else {
        0
    }
}

/// The number of decimal digits starting at `i`.
pub open spec fn digits_len(s: Seq<char>, i: int) -> nat
    decreases rest(s, i),
{
    if 0 <= i < s.len() && is_digit(s[i]) {
        1 + digits_len(s, i + 1)
    } else {
        0
    }
}

pub open spec fn null_word() -> Seq<char> {
    seq!['n', 'u', 'l', 'l']
}

pub open spec fn true_word() -> Seq<char> {
    seq!['t', 'r', 'u', 'e']
}

pub open spec fn false_word() -> Seq<char> {
    seq!['f', 'a', 'l', 's', 'e']
}

/// Matches `w[k..]` against the input at `i + k`.
pub open spec fn literal_from(s: Seq<char>, i: int, w: Seq<char>, k: int) -> Result<(), (ErrorKind, int)>
    decreases w.len() - k,
{
    if k >= w.len() {
        Ok(())
    } else if i + k >= s.len() {
        Err((ErrorKind::LiteralAtEnd { expected: w[k] }, i + k))
    } else if s[i + k] != w[k] {
        Err((ErrorKind::LiteralMismatch { expected: w[k], found: s[i + k] }, i + k))
    } else {
        literal_from(s, i, w, k + 1)
    }
}

/// Reads the literal `w` at `i` as the value `v`.
pub open spec fn literal_at(s: Seq<char>, i: int, w: Seq<char>, v: Json) -> Outcome<Json> {
    match literal_from(s, i, w, 0) {
        Ok(_) => Ok((v, w.len())),
        Err(e) => Err(e),
    }
}

/// Reads a number at `i`. The value is the number's text.
pub open spec fn number_at(s: Seq<char>, i: int) -> Outcome<Json> {
    let a = if i < s.len() && s[i] == '-' { i + 1 } else { i };
    if !(a < s.len() && is_digit(s[a])) {
        Err((ErrorKind::ExpectedDigit, a))
    } else if s[a] == '0' && a + 1 < s.len() && is_digit(s[a + 1]) {
        Err((ErrorKind::LeadingZero, a + 1))
    } else {
        let b = if s[a] == '0' { a + 1 } else { a + digits_len(s, a) };
        if b < s.len() && s[b] == '.' && digits_len(s, b + 1) == 0 {
            Err((ErrorKind::ExpectedFractionDigit, b + 1))
        } else {
            let c = if b < s.len() && s[b] == '.' { b + 1 + digits_len(s, b + 1) } else { b };
            if c < s.len() && (s[c] == 'e' || s[c] == 'E') {
                let d = if c + 1 < s.len() && (s[c + 1] == '+' || s[c + 1] == '-') {
                    c + 2
                } else {
                    c + 1
                };
                if digits_len(s, d) == 0 {
                    Err((ErrorKind::ExpectedExponentDigit, d))
                } else {
                    let e = d + digits_len(s, d);
                    Ok((Json::Num(s.subrange(i, e)), (e - i) as nat))
                }
            } else {
                Ok((Json::Num(s.subrange(i, c)), (c - i) as nat))
            }
        }
    }
}

/// The value of a hex digit, or -1.
pub open spec fn hex_val(c: char) -> int {
    if '0' <= c <= '9' {
        c as int - '0' as int
    } else if 'a' <= c <= 'f' {
        c as int - 'a' as int + 10
    } else if 'A' <= c <= 'F' {
        c as int - 'A' as int + 10
    } else {
        -1
    }
}

/// The code unit written by the four hex digits at `p`, or -1.
pub open spec fn hex4(s: Seq<char>, p: int) -> int {
    if 0 <= p && p + 4 <= s.len() && hex_val(s[p]) >= 0 && hex_val(s[p + 1]) >= 0 && hex_val(
        s[p + 2],
    ) >= 0 && hex_val(s[p + 3]) >= 0 {
        hex_val(s[p]) * 4096 + hex_val(s[p + 1]) * 256 + hex_val(s[p + 2]) * 16 + hex_val(s[p + 3])
    } else {
        -1
    }
}

pub open spec fn is_high_surrogate(u: int) -> bool {
    0xD800 <= u <= 0xDBFF
}

pub open spec fn is_low_surrogate(u: int) -> bool {
    0xDC00 <= u <= 0xDFFF
}

/// The character whose scalar value is `n`.
pub open spec fn scalar(n: int) -> char {
    choose|c: char| #[trigger] code(c) == n
}

/// The scalar value of a character.
pub open spec fn code(c: char) -> int {
    c as int
}

/// Reads a `\u` escape whose backslash is at `i`: the character and whether
/// it took a surrogate pair (twelve characters) rather than one escape (six).
pub open spec fn unicode_escape(s: Seq<char>, i: int) -> Result<(char, bool), (ErrorKind, int)> {
    if i + 6 > s.len() {
        Err((ErrorKind::UnterminatedEscape, s.len() as int))
    } else {
        let u = hex4(s, i + 2);
        if u < 0 || is_low_surrogate(u) {
            Err((ErrorKind::InvalidUnicodeEscape, i))
        } else if !is_high_surrogate(u) {
            Ok((scalar(u), false))
        } else if i + 12 > s.len() {
            Err((ErrorKind::UnterminatedEscape, s.len() as int))
        } else if s[i + 6] == '\\' && s[i + 7] == 'u' && is_low_surrogate(hex4(s, i + 8)) {
            Ok((scalar(0x10000 + (u - 0xD800) * 0x400 + (hex4(s, i + 8) - 0xDC00)), true))
        } else {
            Err((ErrorKind::InvalidUnicodeEscape, i))
        }
    }
}

/// The character that a single-character escape stands for.
pub open spec fn simple_escape(e: char) -> Option<char> {
    if e == '"' {
        Some('"')
    } else if e == '\\' {
        Some('\\')
    } else if e == '/' {
        Some('/')
    } else if e == 'b' {
        Some('\u{8}')
    } else if e == 'f' {
        Some('\u{c}')
    } else if e == 'n' {
        Some('\n')
    } else if e == 'r' {
        Some('\r')
    } else if e == 't' {
        Some('\t')
    } else {
        None
    }
}

/// Reads the rest of a string from `i` (just after the opening quote or a
/// previous character), with `acc` read so far; consumes the closing quote.
pub open spec fn string_body(s: Seq<char>, i: int, acc: Seq<char>) -> Outcome<Seq<char>>
    decreases rest(s, i),
{
    if !(0 <= i < s.len()) {
        Err((ErrorKind::UnterminatedString, s.len() as int))
    } else if s[i] == '"' {
        Ok((acc, 1))
    } else if s[i] == '\\' {
        if i + 1 >= s.len() {
            Err((ErrorKind::UnterminatedEscape, s.len() as int))
        } else if simple_escape(s[i + 1]) is Some {
            match string_body(s, i + 2, acc.push(simple_escape(s[i + 1])->0)) {
                Ok((t, n)) => Ok((t, n + 2)),
                Err(e) => Err(e),
            }
        } else if s[i + 1] == 'u' {
            match unicode_escape(s, i) {
                Err(e) => Err(e),
                Ok((c, pair)) => {
                    let w: nat = if pair { 12 } else { 6 };
                    match string_body(s, i + w, acc.push(c)) {
                        Ok((t, n)) => Ok((t, n + w)),
                        Err(e) => Err(e),
                    }
                },
            }
        } else {
            Err((ErrorKind::InvalidEscape(s[i + 1]), i))
        }
    } else {
        match string_body(s, i + 1, acc.push(s[i])) {
            Ok((t, n)) => Ok((t, n + 1)),
            Err(e) => Err(e),
        }
    }
}

/// Reads a string whose opening quote is at `i`.
pub open spec fn string_at(s: Seq<char>, i: int) -> Outcome<Seq<char>> {
    match string_body(s, i + 1, Seq::empty()) {
        Ok((t, n)) => Ok((t, n + 1)),
        Err(e) => Err(e),
    }
}

/// The first index from `j` on whose entry has key `k`, or -1.
pub open spec fn key_pos(es: Seq<(Seq<char>, Json)>, k: Seq<char>, j: int) -> int
    decreases es.len() - j,
{
    if j < 0 || j >= es.len() {
        -1
    } else if es[j].0 == k {
        j
    } else {
        key_pos(es, k, j + 1)
    }
}

/// Sets key `k` to `v`: replaces the entry that has key `k`, or appends one.
pub open spec fn insert_entry(es: Seq<(Seq<char>, Json)>, k: Seq<char>, v: Json) -> Seq<
    (Seq<char>, Json),
> {
    let p = key_pos(es, k, 0);
    if p >= 0 {
        es.update(p, (k, v))
    } else {
        es.push((k, v))
    }
}

/// Reads a value that starts exactly at `i`, inside `d` enclosing arrays and
/// objects.
pub open spec fn value_at(s: Seq<char>, i: int, d: nat) -> Outcome<Json>
    decreases rest(s, i), 2nat,
{
    if !(0 <= i < s.len()) {
        Err((ErrorKind::UnexpectedEnd, i))
    } else {
        let c = s[i];
        if c == 'n' {
            literal_at(s, i, null_word(), Json::Null)
        } else if c == 't' {
            literal_at(s, i, true_word(), Json::Bool(true))
        } else if c == 'f' {
            literal_at(s, i, false_word(), Json::Bool(false))
        } else if c == '"' {
            match string_at(s, i) {
                Ok((t, n)) => Ok((Json::Str(t), n)),
                Err(e) => Err(e),
            }
        } else if c == '-' || is_digit(c) {
            number_at(s, i)
        } else if (c == '[' || c == '{') && d >= MAX_DEPTH {
            Err((ErrorKind::TooDeep, i))
        } else if c == '[' {
            match array_body(s, i + 1, d + 1) {
                Ok((v, n)) => Ok((v, n + 1)),
                Err(e) => Err(e),
            }
        } else if c == '{' {
            match object_body(s, i + 1, d + 1) {
                Ok((v, n)) => Ok((v, n + 1)),
                Err(e) => Err(e),
            }
        } else {
            Err((ErrorKind::UnexpectedChar(c), i))
        }
    }
}

/// Reads an array from just after its `[`; its elements lie inside `d`
/// arrays and objects.
pub open spec fn array_body(s: Seq<char>, i: int, d: nat) -> Outcome<Json>
    decreases rest(s, i), 4nat,
{
    let m = i + ws_len(s, i);
    if 0 <= m < s.len() && s[m] == ']' {
        Ok((Json::Arr(Seq::empty()), ws_len(s, i) + 1))
    } else {
        match array_items(s, m, Seq::empty(), d) {
            Ok((v, n)) => Ok((v, ws_len(s, i) + n)),
            Err(e) => Err(e),
        }
    }
}

/// Reads array elements from `i`, with `acc` read so far; consumes the `]`.
pub open spec fn array_items(s: Seq<char>, i: int, acc: Seq<Json>, d: nat) -> Outcome<Json>
    decreases rest(s, i), 3nat,
{
    if !(0 <= i < s.len()) {
        Err((ErrorKind::UnterminatedArray, i))
    } else {
        match value_at(s, i, d) {
            Err(e) => Err(e),
            Ok((v, n)) => {
                let k = i + n + ws_len(s, i + n);
                if !(0 <= k < s.len()) {
                    Err((ErrorKind::UnterminatedArray, k))
                } else if s[k] == ',' {
                    let m = k + 1 + ws_len(s, k + 1);
                    if 0 <= m < s.len() && s[m] == ']' {
                        Err((ErrorKind::TrailingComma, m))
                    } else {
                        match array_items(s, m, acc.push(v), d) {
                            Ok((a, r)) => Ok((a, (m - i + r) as nat)),
                            Err(e) => Err(e),
                        }
                    }
                } else if s[k] == ']' {
                    Ok((Json::Arr(acc.push(v)), (k + 1 - i) as nat))
                } else {
                    Err((ErrorKind::ExpectedCommaOrBracket(s[k]), k))
                }
            },
        }
    }
}

/// Reads an object from just after its `{`; its values lie inside `d`
/// arrays and objects.
pub open spec fn object_body(s: Seq<char>, i: int, d: nat) -> Outcome<Json>
    decreases rest(s, i), 4nat,
{
    let m = i + ws_len(s, i);
    if 0 <= m < s.len() && s[m] == '}' {
        Ok((Json::Obj(Seq::empty()), ws_len(s, i) + 1))
    } else {
        match object_members(s, m, Seq::empty(), d) {
            Ok((v, n)) => Ok((v, ws_len(s, i) + n)),
            Err(e) => Err(e),
        }
    }
}

/// Reads object members from `i`, with entries `acc` read so far; consumes
/// the `}`. A later member replaces an earlier one with the same key.
pub open spec fn object_members(s: Seq<char>, i: int, acc: Seq<(Seq<char>, Json)>, d: nat) -> Outcome<
    Json,
>
    decreases rest(s, i), 3nat,
{
    if !(0 <= i < s.len()) {
        Err((ErrorKind::UnterminatedObject, i))
    } else if s[i] != '"' {
        Err((ErrorKind::ExpectedKey(s[i]), i))
    } else {
        match string_at(s, i) {
            Err(e) => Err(e),
            Ok((key, kn)) => {
                let c = i + kn + ws_len(s, i + kn);
                if !(0 <= c < s.len()) {
                    Err((ErrorKind::UnterminatedObject, c))
                } else if s[c] != ':' {
                    Err((ErrorKind::ExpectedColon(s[c]), c))
                } else {
                    let b = c + 1 + ws_len(s, c + 1);
                    match value_at(s, b, d) {
                        Err(e) => Err(e),
                        Ok((v, n)) => {
                            let es = insert_entry(acc, key, v);
                            let k = b + n + ws_len(s, b + n);
                            if !(0 <= k < s.len()) {
                                Err((ErrorKind::UnterminatedObject, k))
                            } else if s[k] == ',' {
                                let m = k + 1 + ws_len(s, k + 1);
                                if 0 <= m < s.len() && s[m] == '}' {
                                    Err((ErrorKind::TrailingComma, m))
                                } else {
                                    match object_members(s, m, es, d) {
                                        Ok((o, r)) => Ok((o, (m - i + r) as nat)),
                                        Err(e) => Err(e),
                                    }
                                }
                            } else if s[k] == '}' {
                                Ok((Json::Obj(es), (k + 1 - i) as nat))
                            } else {
                                Err((ErrorKind::ExpectedCommaOrBrace(s[k]), k))
                            }
                        },
                    }
                }
            },
        }
    }
}

/// Reads a whole document from `i`: whitespace, one value, whitespace, and
/// nothing else.
pub open spec fn document_from(s: Seq<char>, i: int) -> Result<Json, (ErrorKind, int)> {
    let j = i + ws_len(s, i);
    match value_at(s, j, 0) {
        Err(e) => Err(e),
        Ok((v, n)) => {
            let k = j + n + ws_len(s, j + n);
            if k < s.len() {
                Err((ErrorKind::TrailingCharacters, k))
            } else {
                Ok(v)
            }
        },
    }
}

/// The reading of a whole text as one JSON document.
pub open spec fn parse_text(s: Seq<char>) -> Result<Json, (ErrorKind, int)> {
    document_from(s, 0)
}

} // verus!
