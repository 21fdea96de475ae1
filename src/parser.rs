//! The recursive-descent parser, proved to read exactly as `grammar` does.
use crate::error::{message_of, ErrorKind, ParseError};
use crate::grammar::{
    array_body, array_items, code, MAX_DEPTH, digits_len, document_from, false_word, hex4, hex_val,
    insert_entry, is_digit, is_ws, key_pos, literal_at, literal_from, null_word, number_at,
    object_body, object_members, parse_text, scalar, simple_escape, string_at, string_body,
    true_word, unicode_escape, value_at, ws_len, Outcome,
};
use crate::text::{char_from_u32, chars_of, push_char};
use crate::laws::{fits, lemma_parse_well_formed, wf_json};
use crate::value::{entries_view, lemma_array_view, lemma_object_view, values_view, Json, JsonValue};
use vstd::prelude::*;

verus! {

/// Shifts the consumed length of a successful outcome by `d`.
pub open spec fn shift<T>(o: Outcome<T>, d: nat) -> Outcome<T> {
    match o {
        Ok((t, n)) => Ok((t, n + d)),
        Err(e) => Err(e),
    }
}

/// `r`, read from offset `from` up to offset `to`, is what the grammar yields.
pub open spec fn value_agrees(r: &Result<JsonValue, ParseError>, from: int, to: int, o: Outcome<Json>) -> bool {
    match r {
        Ok(v) => from <= to && o == Outcome::<Json>::Ok((v@, (to - from) as nat)),
        Err(e) => o == Outcome::<Json>::Err((e.kind, e.position as int)) && e.message@ == message_of(e.kind),
    }
}

/// As `value_agrees`, for a string read as text.
pub open spec fn text_agrees(r: &Result<String, ParseError>, from: int, to: int, o: Outcome<Seq<char>>) -> bool {
    match r {
        Ok(t) => from <= to && o == Outcome::<Seq<char>>::Ok((t@, (to - from) as nat)),
        Err(e) => o == Outcome::<Seq<char>>::Err((e.kind, e.position as int))
            && e.message@ == message_of(e.kind),
    }
}

/// `r` is the failure `o`, or success where `o` succeeds.
pub open spec fn unit_agrees(r: &Result<(), ParseError>, o: Result<(), (ErrorKind, int)>) -> bool {
    match r {
        Ok(_) => o is Ok,
        Err(e) => o == Result::<(), (ErrorKind, int)>::Err((e.kind, e.position as int))
            && e.message@ == message_of(e.kind),
    }
}

/// A failure, if `r` is one, lies at an offset of at most `n`.
pub open spec fn fails_within<T>(r: &Result<T, ParseError>, n: int) -> bool {
    match r {
        Ok(_) => true,
        Err(e) => e.position <= n,
    }
}

/// A cursor over the characters of one input text.
pub struct Parser {
    input: Vec<char>,
    position: usize,
}

impl Parser {
    /// The characters being read.
    pub closed spec fn text(&self) -> Seq<char> {
        self.input@
    }

    /// The offset of the next character to read.
    pub closed spec fn pos(&self) -> int {
        self.position as int
    }

    /// The cursor lies within the input or just past its end.
    pub closed spec fn wf(&self) -> bool {
        self.position <= self.input.len()
    }

    /// A parser at the start of `input`.
    pub fn new(input: &str) -> (r: Parser)
        ensures
            r.wf(),
            r.text() == input@,
            r.pos() == 0,
    {
        Parser { input: chars_of(input), position: 0 }
    }

    /// The offset of the next character to read.
    pub fn position(&self) -> (r: usize)
        ensures
            r == self.pos(),
    {
        self.position
    }

    /// The next character, if any, without consuming it.
    pub fn peek_char(&self) -> (r: Option<char>)
        requires
            self.wf(),
        ensures
            r == (if self.pos() < self.text().len() {
                Some(self.text()[self.pos()])
            } else {
                None
            }),
    {
        if self.position < self.input.len() {
            Some(self.input[self.position])
        } else {
            None
        }
    }

    /// Consumes and returns the next character, if any.
    pub fn next_char(&mut self) -> (r: Option<char>)
        requires
            old(self).wf(),
        ensures
            final(self).wf(),
            final(self).text() == old(self).text(),
            r == (if old(self).pos() < old(self).text().len() {
                Some(old(self).text()[old(self).pos()])
            } else {
                None
            }),
            final(self).pos() == old(self).pos() + (if r is Some { 1int } else { 0int }),
    {
        let c = self.peek_char();
        if c.is_some() {
            self.position = self.position + 1;
        }
        c
    }

    /// Consumes JSON whitespace (space, tab, line feed, carriage return).
    pub fn skip_whitespace(&mut self)
        requires
            old(self).wf(),
        ensures
            final(self).wf(),
            final(self).text() == old(self).text(),
            final(self).pos() == old(self).pos() + ws_len(old(self).text(), old(self).pos()),
    {
        let ghost start = self.position as int;
        while self.position < self.input.len() && is_json_ws(self.input[self.position])
            invariant
                self.wf(),
                self.input@ == old(self).input@,
                start <= self.position,
                ws_len(self.input@, start) == (self.position - start) + ws_len(
                    self.input@,
                    self.position as int,
                ),
            decreases self.input.len() - self.position,
        {
            self.position = self.position + 1;
        }
    }

    /// The failure `kind` at the current offset.
    pub fn error(&self, kind: ErrorKind) -> (r: ParseError)
        ensures
            r.kind == kind,
            r.position == self.pos(),
            r.message@ == message_of(kind),
    {
        ParseError::new(kind, self.position)
    }

    /// Consumes the characters of `s` one at a time; fails at the first one
    /// that differs or is missing.
    pub fn consume_str(&mut self, s: &str) -> (r: Result<(), ParseError>)
        requires
            old(self).wf(),
        ensures
            final(self).wf(),
            final(self).text() == old(self).text(),
            unit_agrees(&r, literal_from(old(self).text(), old(self).pos(), s@, 0)),
            r is Ok ==> final(self).pos() == old(self).pos() + s@.len(),
            fails_within(&r, old(self).text().len() as int),
    {
        let n = s.unicode_len();
        let ghost i0 = self.position as int;
        let mut k: usize = 0;
        while k < n
            invariant
                self.wf(),
                self.input@ == old(self).input@,
                n == s@.len(),
                k <= n,
                i0 == old(self).pos(),
                self.position == i0 + k,
                literal_from(self.input@, i0, s@, 0) == literal_from(self.input@, i0, s@, k as int),
            decreases n - k,
        {
            let expected = s.get_char(k);
            match self.peek_char() {
                Some(c) => {
                    if c != expected {
                        return Err(self.error(ErrorKind::LiteralMismatch { expected, found: c }));
                    }
                    self.position = self.position + 1;
                },
                None => {
                    return Err(self.error(ErrorKind::LiteralAtEnd { expected }));
                },
            }
            k = k + 1;
        }
        Ok(())
    }

    /// Reads the literal `w` at the cursor as the value `v`.
    fn parse_literal(&mut self, w: &str, v: JsonValue) -> (r: Result<JsonValue, ParseError>)
        requires
            old(self).wf(),
        ensures
            final(self).wf(),
            final(self).text() == old(self).text(),
            value_agrees(&r, old(self).pos(), final(self).pos(), literal_at(old(self).text(), old(self).pos(), w@, v@)),
            fails_within(&r, old(self).text().len() as int),
    {
        match self.consume_str(w) {
            Ok(()) => Ok(v),
            Err(e) => Err(e),
        }
    }

    fn parse_null(&mut self) -> (r: Result<JsonValue, ParseError>)
        requires
            old(self).wf(),
        ensures
            final(self).wf(),
            final(self).text() == old(self).text(),
            value_agrees(&r, old(self).pos(), final(self).pos(), literal_at(old(self).text(), old(self).pos(), null_word(), Json::Null)),
            fails_within(&r, old(self).text().len() as int),
    {
        proof { reveal_strlit("null"); }
        assert("null"@ =~= null_word());
        self.parse_literal("null", JsonValue::Null)
    }

    fn parse_true(&mut self) -> (r: Result<JsonValue, ParseError>)
        requires
            old(self).wf(),
        ensures
            final(self).wf(),
            final(self).text() == old(self).text(),
            value_agrees(&r, old(self).pos(), final(self).pos(), literal_at(old(self).text(), old(self).pos(), true_word(), Json::Bool(true))),
            fails_within(&r, old(self).text().len() as int),
    {
        proof { reveal_strlit("true"); }
        assert("true"@ =~= true_word());
        self.parse_literal("true", JsonValue::Boolean(true))
    }

    fn parse_false(&mut self) -> (r: Result<JsonValue, ParseError>)
        requires
            old(self).wf(),
        ensures
            final(self).wf(),
            final(self).text() == old(self).text(),
            value_agrees(&r, old(self).pos(), final(self).pos(), literal_at(old(self).text(), old(self).pos(), false_word(), Json::Bool(false))),
            fails_within(&r, old(self).text().len() as int),
    {
        proof { reveal_strlit("false"); }
        assert("false"@ =~= false_word());
        self.parse_literal("false", JsonValue::Boolean(false))
    }

    /// Reads a number at the cursor. Its value is its text, which follows the
    /// JSON grammar: an optional minus, an integer part without leading zeros,
    /// an optional fraction and an optional exponent.
    pub fn parse_number(&mut self) -> (r: Result<JsonValue, ParseError>)
        requires
            old(self).wf(),
        ensures
            final(self).wf(),
            final(self).text() == old(self).text(),
            value_agrees(&r, old(self).pos(), final(self).pos(), number_at(old(self).text(), old(self).pos())),
            fails_within(&r, old(self).text().len() as int),
    {
        let i = self.position;
        let len = self.input.len();
        let a = if i < len && self.input[i] == '-' { i + 1 } else { i };
        if !(a < len && is_ascii_digit(self.input[a])) {
            self.position = a;
            return Err(self.error(ErrorKind::ExpectedDigit));
        }
        if self.input[a] == '0' && a + 1 < len && is_ascii_digit(self.input[a + 1]) {
            self.position = a + 1;
            return Err(self.error(ErrorKind::LeadingZero));
        }
        let b = if self.input[a] == '0' { a + 1 } else { scan_digits(&self.input, a) };
        let c = if b < len && self.input[b] == '.' {
            let c = scan_digits(&self.input, b + 1);
            if c == b + 1 {
                self.position = b + 1;
                return Err(self.error(ErrorKind::ExpectedFractionDigit));
            }
            c
        } else {
            b
        };
        let end = if c < len && (self.input[c] == 'e' || self.input[c] == 'E') {
            let d = if c + 1 < len && (self.input[c + 1] == '+' || self.input[c + 1] == '-') {
                c + 2
            } else {
                c + 1
            };
            let e = scan_digits(&self.input, d);
            if e == d {
                self.position = d;
                return Err(self.error(ErrorKind::ExpectedExponentDigit));
            }
            e
        } else {
            c
        };
        let t = copy_range(&self.input, i, end);
        self.position = end;
        Ok(JsonValue::Number(t))
    }

    /// Reads a string whose opening quote is at the cursor, resolving escapes.
    pub fn parse_string_text(&mut self) -> (r: Result<String, ParseError>)
        requires
            old(self).wf(),
            old(self).pos() < old(self).text().len(),
        ensures
            final(self).wf(),
            final(self).text() == old(self).text(),
            text_agrees(&r, old(self).pos(), final(self).pos(), string_at(old(self).text(), old(self).pos())),
            fails_within(&r, old(self).text().len() as int),
    {
        let ghost start = self.position as int;
        self.position = self.position + 1;
        let mut out = String::new();
        loop
            invariant
                self.wf(),
                self.input@ == old(self).input@,
                start == old(self).pos(),
                start < self.position,
                string_at(self.input@, start) == shift(
                    string_body(self.input@, self.position as int, out@),
                    (self.position - start) as nat,
                ),
            decreases self.input.len() - self.position,
        {
            let len = self.input.len();
            if self.position >= len {
                return Err(ParseError::new(ErrorKind::UnterminatedString, len));
            }
            let c = self.input[self.position];
            if c == '"' {
                self.position = self.position + 1;
                return Ok(out);
            } else if c == '\\' {
                if self.position + 1 >= len {
                    return Err(ParseError::new(ErrorKind::UnterminatedEscape, len));
                }
                let e = self.input[self.position + 1];
                match simple_escape_char(e) {
                    Some(x) => {
                        push_char(&mut out, x);
                        self.position = self.position + 2;
                    },
                    None => {
                        if e == 'u' {
                            match read_unicode_escape(&self.input, self.position) {
                                Ok((x, pair)) => {
                                    push_char(&mut out, x);
                                    self.position = self.position + if pair { 12 } else { 6 };
                                },
                                Err(err) => {
                                    return Err(err);
                                },
                            }
                        } else {
                            return Err(self.error(ErrorKind::InvalidEscape(e)));
                        }
                    },
                }
            } else {
                push_char(&mut out, c);
                self.position = self.position + 1;
            }
        }
    }

    /// Reads a string value whose opening quote is at the cursor.
    pub fn parse_string(&mut self) -> (r: Result<JsonValue, ParseError>)
        requires
            old(self).wf(),
            old(self).pos() < old(self).text().len(),
        ensures
            final(self).wf(),
            final(self).text() == old(self).text(),
            value_agrees(&r, old(self).pos(), final(self).pos(),
                match string_at(old(self).text(), old(self).pos()) {
                    Ok((t, n)) => Ok((Json::Str(t), n)),
                    Err(e) => Err(e),
                }),
            fails_within(&r, old(self).text().len() as int),
    {
        match self.parse_string_text() {
            Ok(t) => Ok(JsonValue::String(t)),
            Err(e) => Err(e),
        }
    }

    /// Skips whitespace, then reads the value that starts there, inside
    /// `depth` enclosing arrays and objects.
    pub fn parse_value(&mut self, depth: usize) -> (r: Result<JsonValue, ParseError>)
        requires
            old(self).wf(),
            depth <= MAX_DEPTH,
        ensures
            final(self).wf(),
            final(self).text() == old(self).text(),
            value_agrees(
                &r,
                old(self).pos(),
                final(self).pos(),
                shift(
                    value_at(
                        old(self).text(),
                        old(self).pos() + ws_len(old(self).text(), old(self).pos()),
                        depth as nat,
                    ),
                    ws_len(old(self).text(), old(self).pos()),
                ),
            ),
            fails_within(&r, old(self).text().len() as int),
        decreases old(self).text().len() - old(self).pos(), 3nat,
    {
        self.skip_whitespace();
        self.value_here(depth)
    }

    /// Reads the value that starts exactly at the cursor, inside `depth`
    /// enclosing arrays and objects, dispatching on its first character.
    fn value_here(&mut self, depth: usize) -> (r: Result<JsonValue, ParseError>)
        requires
            old(self).wf(),
            depth <= MAX_DEPTH,
        ensures
            final(self).wf(),
            final(self).text() == old(self).text(),
            value_agrees(
                &r,
                old(self).pos(),
                final(self).pos(),
                value_at(old(self).text(), old(self).pos(), depth as nat),
            ),
            fails_within(&r, old(self).text().len() as int),
        decreases old(self).text().len() - old(self).pos(), 2nat,
    {
        match self.peek_char() {
            None => Err(self.error(ErrorKind::UnexpectedEnd)),
            Some(c) => {
                if c == 'n' {
                    self.parse_null()
                } else if c == 't' {
                    self.parse_true()
                } else if c == 'f' {
                    self.parse_false()
                } else if c == '"' {
                    self.parse_string()
                } else if c == '-' || is_ascii_digit(c) {
                    self.parse_number()
                } else if (c == '[' || c == '{') && depth >= MAX_DEPTH {
                    Err(self.error(ErrorKind::TooDeep))
                } else if c == '[' {
                    self.parse_array(depth)
                } else if c == '{' {
                    self.parse_object(depth)
                } else {
                    Err(self.error(ErrorKind::UnexpectedChar(c)))
                }
            },
        }
    }

    /// Reads an array whose `[` is at the cursor.
    pub fn parse_array(&mut self, depth: usize) -> (r: Result<JsonValue, ParseError>)
        requires
            old(self).wf(),
            old(self).pos() < old(self).text().len(),
            old(self).text()[old(self).pos()] == '[',
            depth < MAX_DEPTH,
        ensures
            final(self).wf(),
            final(self).text() == old(self).text(),
            value_agrees(&r, old(self).pos(), final(self).pos(),
                shift(array_body(old(self).text(), old(self).pos() + 1, depth as nat + 1), 1)),
            fails_within(&r, old(self).text().len() as int),
        decreases old(self).text().len() - old(self).pos(), 1nat,
    {
        let ghost start = self.position as int;
        self.position = self.position + 1;
        self.skip_whitespace();
        let mut elements: Vec<JsonValue> = Vec::new();
        if self.peek_char() == Some(']') {
            self.position = self.position + 1;
            let ghost g = elements;
            let r = JsonValue::Array(elements);
            proof {
                lemma_array_view(g);
                assert(values_view(Seq::empty()) =~= Seq::<Json>::empty());
            }
            return Ok(r);
        }
        assert(values_view(elements@) =~= Seq::<Json>::empty());
        loop
            invariant
                self.wf(),
                self.input@ == old(self).input@,
                start == old(self).pos(),
                start + 1 <= self.position,
                depth < MAX_DEPTH,
                array_body(self.input@, start + 1, depth as nat + 1) == shift(
                    array_items(self.input@, self.position as int, values_view(elements@), depth as nat + 1),
                    (self.position - start - 1) as nat,
                ),
            decreases self.input.len() - self.position,
        {
            if self.position >= self.input.len() {
                return Err(self.error(ErrorKind::UnterminatedArray));
            }
            let ghost acc = values_view(elements@);
            let value = match self.value_here(depth + 1) {
                Ok(v) => v,
                Err(e) => {
                    return Err(e);
                },
            };
            let ghost vv = value@;
            elements.push(value);
            assert(values_view(elements@) =~= acc.push(vv));
            self.skip_whitespace();
            match self.peek_char() {
                Some(c) => {
                    if c == ',' {
                        self.position = self.position + 1;
                        self.skip_whitespace();
                        if self.peek_char() == Some(']') {
                            return Err(self.error(ErrorKind::TrailingComma));
                        }
                    } else if c == ']' {
                        self.position = self.position + 1;
                        let ghost g = elements;
                        let r = JsonValue::Array(elements);
                        proof {
                            lemma_array_view(g);
                        }
                        return Ok(r);
                    } else {
                        return Err(self.error(ErrorKind::ExpectedCommaOrBracket(c)));
                    }
                },
                None => {
                    return Err(self.error(ErrorKind::UnterminatedArray));
                },
            }
        }
    }

    /// Reads an object whose `{` is at the cursor. A later member replaces
    /// an earlier one with the same key.
    #[verifier::rlimit(60)]
    pub fn parse_object(&mut self, depth: usize) -> (r: Result<JsonValue, ParseError>)
        requires
            old(self).wf(),
            old(self).pos() < old(self).text().len(),
            old(self).text()[old(self).pos()] == '{',
            depth < MAX_DEPTH,
        ensures
            final(self).wf(),
            final(self).text() == old(self).text(),
            value_agrees(&r, old(self).pos(), final(self).pos(),
                shift(object_body(old(self).text(), old(self).pos() + 1, depth as nat + 1), 1)),
            fails_within(&r, old(self).text().len() as int),
        decreases old(self).text().len() - old(self).pos(), 1nat,
    {
        let ghost start = self.position as int;
        self.position = self.position + 1;
        self.skip_whitespace();
        let mut entries: Vec<(String, JsonValue)> = Vec::new();
        if self.peek_char() == Some('}') {
            self.position = self.position + 1;
            let ghost g = entries;
            let r = JsonValue::Object(entries);
            proof {
                lemma_object_view(g);
                assert(entries_view(Seq::empty()) =~= Seq::<(Seq<char>, Json)>::empty());
            }
            return Ok(r);
        }
        assert(entries_view(entries@) =~= Seq::<(Seq<char>, Json)>::empty());
        loop
            invariant
                self.wf(),
                self.input@ == old(self).input@,
                start == old(self).pos(),
                start + 1 <= self.position,
                depth < MAX_DEPTH,
                object_body(self.input@, start + 1, depth as nat + 1) == shift(
                    object_members(self.input@, self.position as int, entries_view(entries@), depth as nat + 1),
                    (self.position - start - 1) as nat,
                ),
            decreases self.input.len() - self.position,
        {
            if self.position >= self.input.len() {
                return Err(self.error(ErrorKind::UnterminatedObject));
            }
            let c = self.input[self.position];
            if c != '"' {
                return Err(self.error(ErrorKind::ExpectedKey(c)));
            }
            let key = match self.parse_string_text() {
                Ok(k) => k,
                Err(e) => {
                    return Err(e);
                },
            };
            self.skip_whitespace();
            match self.peek_char() {
                Some(c) => {
                    if c != ':' {
                        return Err(self.error(ErrorKind::ExpectedColon(c)));
                    }
                },
                None => {
                    return Err(self.error(ErrorKind::UnterminatedObject));
                },
            }
            self.position = self.position + 1;
            self.skip_whitespace();
            let value = match self.value_here(depth + 1) {
                Ok(v) => v,
                Err(e) => {
                    return Err(e);
                },
            };
            insert_member(&mut entries, key, value);
            self.skip_whitespace();
            match self.peek_char() {
                Some(c) => {
                    if c == ',' {
                        self.position = self.position + 1;
                        self.skip_whitespace();
                        if self.peek_char() == Some('}') {
                            return Err(self.error(ErrorKind::TrailingComma));
                        }
                    } else if c == '}' {
                        self.position = self.position + 1;
                        let ghost g = entries;
                        let r = JsonValue::Object(entries);
                        proof {
                            lemma_object_view(g);
                        }
                        return Ok(r);
                    } else {
                        return Err(self.error(ErrorKind::ExpectedCommaOrBrace(c)));
                    }
                },
                None => {
                    return Err(self.error(ErrorKind::UnterminatedObject));
                },
            }
        }
    }

    /// Reads a whole document from the cursor: whitespace, one value,
    /// whitespace, and then the end of input.
    pub fn parse(&mut self) -> (r: Result<JsonValue, ParseError>)
        requires
            old(self).wf(),
        ensures
            final(self).wf(),
            final(self).text() == old(self).text(),
            match r {
                Ok(v) => document_from(old(self).text(), old(self).pos()) == Result::<Json, (ErrorKind, int)>::Ok(v@),
                Err(e) => document_from(old(self).text(), old(self).pos()) == Result::<Json, (ErrorKind, int)>::Err((e.kind, e.position as int))
                    && e.message@ == message_of(e.kind),
            },
            fails_within(&r, old(self).text().len() as int),
            r is Ok ==> final(self).pos() == final(self).text().len(),
    {
        self.skip_whitespace();
        let v = match self.value_here(0) {
            Ok(v) => v,
            Err(e) => {
                return Err(e);
            },
        };
        self.skip_whitespace();
        if self.peek_char().is_some() {
            return Err(self.error(ErrorKind::TrailingCharacters));
        }
        Ok(v)
    }
}

fn is_json_ws(c: char) -> (r: bool)
    ensures
        r == is_ws(c),
{
    c == ' ' || c == '\t' || c == '\n' || c == '\r'
}

fn is_ascii_digit(c: char) -> (r: bool)
    ensures
        r == is_digit(c),
{
    '0' <= c && c <= '9'
}

/// The offset just past the run of digits that starts at `i`.
fn scan_digits(s: &Vec<char>, i: usize) -> (r: usize)
    requires
        i <= s.len(),
    ensures
        r == i + digits_len(s@, i as int),
        r <= s.len(),
{
    let mut j = i;
    while j < s.len() && is_ascii_digit(s[j])
        invariant
            i <= j <= s.len(),
            digits_len(s@, i as int) == (j - i) + digits_len(s@, j as int),
        decreases s.len() - j,
    {
        j = j + 1;
    }
    j
}


/// The characters of `s` from `i` up to `j`, as a string.
fn copy_range(s: &Vec<char>, i: usize, j: usize) -> (r: String)
    requires
        i <= j <= s.len(),
    ensures
        r@ == s@.subrange(i as int, j as int),
{
    let mut out = String::new();
    let mut k = i;
    while k < j
        invariant
            i <= k <= j <= s.len(),
            out@ == s@.subrange(i as int, k as int),
        decreases j - k,
    {
        push_char(&mut out, s[k]);
        k = k + 1;
        assert(out@ =~= s@.subrange(i as int, k as int));
    }
    out
}

/// The value of a hex digit, or -1.
fn hex_digit_value(c: char) -> (r: i64)
    ensures
        r == hex_val(c),
{
    if '0' <= c && c <= '9' {
        (c as u32 - '0' as u32) as i64
    } else if 'a' <= c && c <= 'f' {
        (c as u32 - 'a' as u32 + 10) as i64
    } else if 'A' <= c && c <= 'F' {
        (c as u32 - 'A' as u32 + 10) as i64
    } else {
        -1
    }
}

/// The code unit written by the four hex digits at `p`, or -1.
fn read_hex4(s: &Vec<char>, p: usize) -> (r: i64)
    requires
        p <= s.len(),
    ensures
        r == hex4(s@, p as int),
{
    if s.len() - p < 4 {
        return -1;
    }
    let a = hex_digit_value(s[p]);
    let b = hex_digit_value(s[p + 1]);
    let c = hex_digit_value(s[p + 2]);
    let d = hex_digit_value(s[p + 3]);
    if a < 0 || b < 0 || c < 0 || d < 0 {
        -1
    } else {
        a * 4096 + b * 256 + c * 16 + d
    }
}

/// The character with scalar value `n`, which must be one.
fn scalar_char(n: i64) -> (r: char)
    requires
        0 <= n < 0xD800 || (0xDFFF < n && n <= 0x10FFFF),
    ensures
        r == scalar(n as int),
{
    let c = char_from_u32(n as u32).unwrap();
    assert(code(c) == n);
    c
}

/// Reads a `\u` escape whose backslash is at `i`.
fn read_unicode_escape(s: &Vec<char>, i: usize) -> (r: Result<(char, bool), ParseError>)
    requires
        i + 1 < s.len(),
    ensures
        match r {
            Ok((c, pair)) => unicode_escape(s@, i as int) == Result::<(char, bool), (ErrorKind, int)>::Ok((c, pair)),
            Err(e) => unicode_escape(s@, i as int) == Result::<(char, bool), (ErrorKind, int)>::Err((e.kind, e.position as int))
                && e.message@ == message_of(e.kind) && e.position <= s.len(),
        },
{
    if s.len() - i < 6 {
        return Err(ParseError::new(ErrorKind::UnterminatedEscape, s.len()));
    }
    let u = read_hex4(s, i + 2);
    if u < 0 || (0xDC00 <= u && u <= 0xDFFF) {
        Err(ParseError::new(ErrorKind::InvalidUnicodeEscape, i))
    } else if !(0xD800 <= u && u <= 0xDBFF) {
        Ok((scalar_char(u), false))
    } else if s.len() - i < 12 {
        Err(ParseError::new(ErrorKind::UnterminatedEscape, s.len()))
    } else if s[i + 6] == '\\' && s[i + 7] == 'u' {
        let l = read_hex4(s, i + 8);
        if 0xDC00 <= l && l <= 0xDFFF {
            Ok((scalar_char(0x10000 + (u - 0xD800) * 0x400 + (l - 0xDC00)), true))
        } else {
            Err(ParseError::new(ErrorKind::InvalidUnicodeEscape, i))
        }
    } else {
        Err(ParseError::new(ErrorKind::InvalidUnicodeEscape, i))
    }
}

/// The character that a single-character escape stands for.
fn simple_escape_char(e: char) -> (r: Option<char>)
    ensures
        r == simple_escape(e),
{
    if e == '"' {
        Some('"')
    } else if e == '\\' {
        Some('\\')
    } else if e == '/' {
        Some('/')
    } else if e == 'b' {
        Some('\u{8}')
    } else if e == 'f' {
        Some('\u{c}')
    } else if e == 'n' {
        Some('\n')
    } else if e == 'r' {
        Some('\r')
    } else if e == 't' {
        Some('\t')
    } else {
        None
    }
}

/// Sets `key` to `value` among `entries`: replaces the entry with that key,
/// or appends one.
fn insert_member(entries: &mut Vec<(String, JsonValue)>, key: String, value: JsonValue)
    ensures
        entries_view(final(entries)@) == insert_entry(entries_view(old(entries)@), key@, value@),
{
    let ghost es = entries_view(entries@);
    let mut j: usize = 0;
    while j < entries.len()
        invariant
            entries@ == old(entries)@,
            es == entries_view(entries@),
            j <= entries.len(),
            key_pos(es, key@, 0) == key_pos(es, key@, j as int),
        decreases entries.len() - j,
    {
        if entries[j].0 == key {
            let ghost kv = key@;
            let ghost vv = value@;
            entries.set(j, (key, value));
            assert(entries_view(entries@) =~= es.update(j as int, (kv, vv)));
            return;
        }
        j = j + 1;
    }
    let ghost kv = key@;
    let ghost vv = value@;
    entries.push((key, value));
    assert(entries_view(entries@) =~= es.push((kv, vv)));
}

/// Reads `text` as one JSON document. A value it returns is well formed:
/// numbers are valid number text, keys are unique, and nesting stays within
/// the limit.
pub fn parse(text: &str) -> (r: Result<JsonValue, ParseError>)
    ensures
        match r {
            Ok(v) => parse_text(text@) == Result::<Json, (ErrorKind, int)>::Ok(v@),
            Err(e) => parse_text(text@) == Result::<Json, (ErrorKind, int)>::Err((e.kind, e.position as int))
                && e.message@ == message_of(e.kind) && e.position <= text@.len(),
        },
        r is Ok ==> wf_json(r->Ok_0@) && fits(r->Ok_0@, MAX_DEPTH as nat),
{
    let mut p = Parser::new(text);
    proof {
        lemma_parse_well_formed(text@);
    }
    p.parse()
}

} // verus!
