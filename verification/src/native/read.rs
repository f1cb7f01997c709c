//! The reader: from a Lisp string to the value it spells.
//!
//! A tokenizer walks the characters of the input one by one through a small state machine;
//! the reader puts the tokens together into lists.

use vstd::prelude::*;
use unicode_segmentation::UnicodeSegmentation;
use crate::metadata::{Location, Metadata};
use crate::memory::{Memory, GcRef, PrimitiveValue, MetaValue};
use crate::util::{
    allocates, keeps_all, is_symbol_named, list_elems, sanitized, ptrs, symbol, number, character,
    string_of, with_extra, lemma_allocates_trans, lemma_keeps_sub, lemma_sanitized_kept, lemma_keeps_all_trans,
    lemma_allocation_keeps, lemma_list_unchanged, lemma_elems_unchanged, lemma_string_unchanged, lemma_cdr_younger,
    vec_to_list_keeping, string_to_proper_list_keeping, lemma_elems_live, lemma_same_value_list, list_to_string, symbol_is_named,
};
use crate::text::{signed_decimal, i64_to_string};
use crate::config;
use crate::native::list::{is_plist, kv_keys, kv_values, make_plist_keeping};
use crate::error_utils::{make_error, fit_to_number, fits, is_error, type_of_name, type_of_str};
use crate::text::{white_space, is_whitespace, ascii_digit, is_ascii_digit, parse_int, parse_i64, IntError,
    int_error_text, int_error_message, string_from_chars, push_str, string_push};

verus! {

// ---------------------------------------------------------------------------------------------
// Grapheme clusters
// ---------------------------------------------------------------------------------------------

/// The number of extended grapheme clusters of a text.
pub uninterp spec fn grapheme_count(s: Seq<char>) -> nat;

/// The number of extended grapheme clusters of `s` (`unicode_segmentation`'s
/// `graphemes(s, true).count()`): none in an empty text, one in a text of one character, and
/// never more than there are characters.
#[verifier::external_body]
fn count_graphemes(s: &str) -> (n: usize)
    ensures
        n == grapheme_count(s@),
        s@.len() == 0 ==> n == 0,
        s@.len() == 1 ==> n == 1,
        n <= s@.len(),
{
    s.graphemes(true).count()
}

// ---------------------------------------------------------------------------------------------
// Tokens
// ---------------------------------------------------------------------------------------------

/// A token, as the specification sees it.
pub enum Tok {
    OpenParen,
    CloseParen,
    Character(char),
    Number(i64),
    Symbol(Seq<char>),
    Str(Seq<char>),
    Quote,
}

/// A token.
pub enum TokenValue {
    OpenParen,
    CloseParen,
    Character(char),
    Number(i64),
    Symbol(String),
    String(String),
    Quote,
}

impl TokenValue {
    pub open spec fn view(&self) -> Tok {
        match self {
            TokenValue::OpenParen => Tok::OpenParen,
            TokenValue::CloseParen => Tok::CloseParen,
            TokenValue::Character(c) => Tok::Character(*c),
            TokenValue::Number(n) => Tok::Number(*n),
            TokenValue::Symbol(s) => Tok::Symbol(s@),
            TokenValue::String(s) => Tok::Str(s@),
            TokenValue::Quote => Tok::Quote,
        }
    }
}

/// What the tokenizer is in the middle of.
#[derive(Debug, PartialEq, Eq, Clone, Copy, Structural)]
pub enum TokenIteratorStatus {
    WhiteSpace,
    Comment,
    Character,
    Number,
    Symbol,
    SymbolOrNumber,
    StringNormal,
    StringEscape,
}

/// Why no token came, as the specification sees it. `next`, `line` and `column` say where
/// the rest of the input starts.
pub enum Failure {
    InvalidString,
    Incomplete,
    Nothing,
    Error { msg: Seq<char>, location: Location, next: nat, line: nat, column: nat },
}

/// The outcome of scanning for one token, as the specification sees it: the token, where it
/// is, where the scan stopped (`after`), and where the rest of the input starts.
pub enum Scanned {
    Token { tok: Tok, location: Location, after: Location, next: nat, line: nat, column: nat },
    Failed(Failure),
}

/// Why no token came.
pub enum ReadError {
    InvalidString,
    Incomplete,
    Nothing,
    Error { msg: String, location: Location, next: usize, line: usize, column: usize },
}

impl ReadError {
    pub open spec fn view(&self) -> Failure {
        match self {
            ReadError::InvalidString => Failure::InvalidString,
            ReadError::Incomplete => Failure::Incomplete,
            ReadError::Nothing => Failure::Nothing,
            ReadError::Error { msg, location, next, line, column } =>
                Failure::Error { msg: msg@, location: *location, next: *next as nat, line: *line as nat, column: *column as nat },
        }
    }
}

/// A token, where it is, where the scan stopped, and where the rest of the input starts.
pub struct TokenAndRest {
    pub value: TokenValue,
    pub location: Location,
    pub after: Location,
    pub next: usize,
    pub line: usize,
    pub column: usize,
}

/// The view of the outcome of scanning.
pub open spec fn scanned_view(r: Result<TokenAndRest, ReadError>) -> Scanned {
    match r {
        Ok(t) => Scanned::Token { tok: t.value@, location: t.location, after: t.after,
            next: t.next as nat, line: t.line as nat, column: t.column as nat },
        Err(e) => Scanned::Failed(e@),
    }
}

// ---------------------------------------------------------------------------------------------
// The state machine
// ---------------------------------------------------------------------------------------------

/// The location after reading `ch` at `loc`: a newline starts a new line, any other character
/// moves one column on.
pub open spec fn loc_step(loc: Location, ch: char) -> Location {
    if ch == '\n' {
        loc.with_position((loc.line_of()->0 + 1) as usize, 0)
    } else {
        loc.with_position(loc.line_of()->0, (loc.column_of()->0 + 1) as usize)
    }
}

/// A character after which an atom ends.
pub open spec fn ends_atom(c: char) -> bool {
    c == ';' || c == '(' || c == ')' || c == '"' || c == '\'' || c == ',' || white_space(c)
}

/// The character that `%` followed by `buf` spells, or the error message.
pub open spec fn character_literal(buf: Seq<char>) -> Result<char, Seq<char>> {
    if buf.len() == 0 {
        Err("invalid character: '%' (empty literal)"@)
    } else if buf == seq!['\\', 'n'] {
        Ok('\n')
    } else if buf == seq!['\\', 't'] {
        Ok('\t')
    } else if buf == seq!['\\', 's'] {
        Ok(' ')
    } else if buf == seq!['\\', 'r'] {
        Ok('\r')
    } else if buf == seq!['\\', '\\'] {
        Ok('\\')
    } else if grapheme_count(buf) == 1 {
        Ok(buf[0])
    } else {
        Err("invalid character: '%"@ + buf + "'"@)
    }
}

/// The number that `buf` spells, or the error message.
pub open spec fn number_literal(buf: Seq<char>) -> Result<i64, Seq<char>> {
    match parse_int(buf) {
        Ok(v) => Ok(v as i64),
        Err(e) => Err("invalid number: '"@ + int_error_text(e) + "'"@),
    }
}

/// The character that an escape sequence `\c` in a string stands for.
pub open spec fn escaped(c: char) -> Option<char> {
    if c == '"' { Some('"') }
    else if c == 'n' { Some('\n') }
    else if c == 'r' { Some('\r') }
    else if c == 't' { Some('\t') }
    else if c == '\\' { Some('\\') }
    else { None }
}

/// The state after the character `ch` (not in a comment, a string or an escape), read at
/// location `loc`; `None` where the character ends the scan by itself.
pub open spec fn mid_state(ch: char, status: TokenIteratorStatus, buffer: Seq<char>, begin: Location, loc: Location)
    -> Option<(TokenIteratorStatus, Seq<char>, Location)>
{
    if white_space(ch) || ch == ',' {
        Some((TokenIteratorStatus::WhiteSpace, buffer, begin))
    } else if ch == ';' {
        Some((TokenIteratorStatus::Comment, buffer, begin))
    } else if ch == '\'' || ch == '(' || ch == ')' || ch == '"' && status == TokenIteratorStatus::StringNormal {
        None
    } else if ch == '"' {
        Some((TokenIteratorStatus::StringNormal, buffer, loc))
    } else if ch == '\\' {
        if status == TokenIteratorStatus::StringNormal {
            Some((TokenIteratorStatus::StringEscape, buffer, begin))
        } else if status == TokenIteratorStatus::Character {
            Some((status, buffer.push(ch), begin))
        } else {
            None
        }
    } else if ch == '%' {
        if status == TokenIteratorStatus::WhiteSpace {
            Some((TokenIteratorStatus::Character, buffer, loc))
        } else {
            Some((status, buffer.push(ch), begin))
        }
    } else if ch == '+' || ch == '-' {
        if status == TokenIteratorStatus::WhiteSpace {
            Some((TokenIteratorStatus::SymbolOrNumber, buffer.push(ch), loc))
        } else {
            Some((status, buffer.push(ch), begin))
        }
    } else if ascii_digit(ch) {
        if status == TokenIteratorStatus::SymbolOrNumber {
            Some((TokenIteratorStatus::Number, buffer.push(ch), begin))
        } else if status == TokenIteratorStatus::WhiteSpace {
            Some((TokenIteratorStatus::Number, buffer.push(ch), loc))
        } else {
            Some((status, buffer.push(ch), begin))
        }
    } else if status == TokenIteratorStatus::Number {
        None
    } else if status == TokenIteratorStatus::WhiteSpace {
        Some((TokenIteratorStatus::Symbol, buffer.push(ch), loc))
    } else if status == TokenIteratorStatus::SymbolOrNumber {
        Some((TokenIteratorStatus::Symbol, buffer.push(ch), begin))
    } else {
        Some((status, buffer.push(ch), begin))
    }
}

/// One step of the state machine: the state after the character at `pos` has been read, or
/// the outcome that the character ends the scan with.
pub enum Step {
    Continue { status: TokenIteratorStatus, buffer: Seq<char>, begin: Location, loc: Location },
    Done(Scanned),
}

/// The state machine reading the character at `pos` (which exists), in state `status` with
/// the characters `buffer` gathered, the current atom beginning at `begin`, and `loc` the
/// location of the last character read.
pub open spec fn step(chars: Seq<char>, terminated: bool, pos: nat, status: TokenIteratorStatus,
    buffer: Seq<char>, begin: Location, loc: Location) -> Step
{
    let ch = chars[pos as int];
    let loc = loc_step(loc, ch);
    let next = pos + 1;
    let rl = loc.line_of()->0 as nat;
    let rc = loc.column_of()->0 as nat + 1;
    let error = |msg: Seq<char>| Step::Done(Scanned::Failed(Failure::Error { msg, location: loc, next, line: rl, column: rc }));
    let token = |tok: Tok, at: Location| Step::Done(Scanned::Token { tok, location: at, after: loc, next, line: rl, column: rc });
    if status == TokenIteratorStatus::Comment {
        Step::Continue {
            status: if ch == '\n' { TokenIteratorStatus::WhiteSpace } else { TokenIteratorStatus::Comment },
            buffer, begin, loc,
        }
    } else if status == TokenIteratorStatus::StringNormal && ch != '"' && ch != '\\' {
        Step::Continue { status, buffer: buffer.push(ch), begin, loc }
    } else if status == TokenIteratorStatus::StringEscape {
        match escaped(ch) {
            Some(e) => Step::Continue { status: TokenIteratorStatus::StringNormal, buffer: buffer.push(e), begin, loc },
            None => error(seq!['\''] + seq![ch] + "' is not a valid escape character in a string literal"@),
        }
    } else {
        let mid = mid_state(ch, status, buffer, begin, loc);
        match mid {
            None => {
                if ch == '\'' {
                    token(Tok::Quote, loc)
                } else if ch == '(' {
                    token(Tok::OpenParen, loc)
                } else if ch == ')' {
                    token(Tok::CloseParen, loc)
                } else if ch == '"' {
                    token(Tok::Str(buffer), begin)
                } else if ch == '\\' {
                    error("unexpected character: '\\'"@)
                } else {
                    error("unexpected character in number literal: '"@ + seq![ch] + "'"@)
                }
            },
            Some((st, buf, bg)) => {
                let cont = Step::Continue { status: st, buffer: buf, begin: bg, loc };
                if buf.len() == 0 {
                    cont
                } else if next >= chars.len() && !terminated {
                    Step::Done(Scanned::Failed(Failure::InvalidString))
                } else if next < chars.len() && !ends_atom(chars[next as int]) {
                    cont
                } else if st == TokenIteratorStatus::Character {
                    match character_literal(buf) {
                        Ok(c) => token(Tok::Character(c), bg),
                        Err(msg) => error(msg),
                    }
                } else if st == TokenIteratorStatus::Number {
                    match number_literal(buf) {
                        Ok(n) => token(Tok::Number(n), bg),
                        Err(msg) => error(msg),
                    }
                } else if st == TokenIteratorStatus::Symbol || st == TokenIteratorStatus::SymbolOrNumber {
                    token(Tok::Symbol(buf), bg)
                } else {
                    cont
                }
            },
        }
    }
}

/// The scan is inside a string or a character literal, which the end of the input leaves
/// unfinished even before any of its characters.
pub open spec fn unfinished(status: TokenIteratorStatus) -> bool {
    status == TokenIteratorStatus::Character || status == TokenIteratorStatus::StringNormal
        || status == TokenIteratorStatus::StringEscape
}

/// Scanning from position `pos` in a given state until a token is complete, the input ends,
/// or an error stops the scan. `terminated` says whether the input ends after `chars`
/// (otherwise an element that is not a character follows them).
pub open spec fn scan(chars: Seq<char>, terminated: bool, pos: nat, status: TokenIteratorStatus,
    buffer: Seq<char>, begin: Location, loc: Location) -> Scanned
    decreases chars.len() - pos,
{
    if pos >= chars.len() {
        if !terminated {
            Scanned::Failed(Failure::InvalidString)
        } else if buffer.len() > 0 || unfinished(status) {
            Scanned::Failed(Failure::Incomplete)
        } else {
            Scanned::Failed(Failure::Nothing)
        }
    } else {
        match step(chars, terminated, pos, status, buffer, begin, loc) {
            Step::Continue { status, buffer, begin, loc } => scan(chars, terminated, pos + 1, status, buffer, begin, loc),
            Step::Done(r) => r,
        }
    }
}

/// The next token of the input from position `pos`, the scan starting in white space at `loc`.
pub open spec fn next_token_spec(chars: Seq<char>, terminated: bool, pos: nat, loc: Location) -> Scanned {
    scan(chars, terminated, pos, TokenIteratorStatus::WhiteSpace, Seq::empty(), loc, loc)
}

/// The location reached from `loc` by reading the characters `s`: a newline moves to the start
/// of the next line, any other character one column on.
pub open spec fn loc_after(loc: Location, s: Seq<char>) -> Location
    decreases s.len(),
{
    if s.len() == 0 {
        loc
    } else {
        loc_after(loc_step(loc, s[0]), s.drop_first())
    }
}

/// A scan in any state that finds a token ends where reading the characters it consumed leads.
proof fn lemma_scan_after(chars: Seq<char>, terminated: bool, pos: nat, status: TokenIteratorStatus,
    buffer: Seq<char>, begin: Location, loc: Location)
    requires
        scan(chars, terminated, pos, status, buffer, begin, loc) is Token,
    ensures
        ({
            let t = scan(chars, terminated, pos, status, buffer, begin, loc);
            &&& pos < t->next <= chars.len()
            &&& t->after == loc_after(loc, chars.subrange(pos as int, t->next as int))
            &&& t->line == t->after.line_of()->0
            &&& t->column == t->after.column_of()->0 + 1
        }),
    decreases chars.len() - pos,
{
    let t = scan(chars, terminated, pos, status, buffer, begin, loc);
    let ch = chars[pos as int];
    match step(chars, terminated, pos, status, buffer, begin, loc) {
        Step::Continue { status: s2, buffer: b2, begin: g2, loc: l2 } => {
            lemma_scan_after(chars, terminated, pos + 1, s2, b2, g2, l2);
            assert(chars.subrange(pos as int, t->next as int).drop_first() =~= chars.subrange(pos + 1int, t->next as int));
            assert(chars.subrange(pos as int, t->next as int)[0] == ch);
        },
        Step::Done(r) => {
            reveal_with_fuel(loc_after, 2);
            assert(chars.subrange(pos as int, pos + 1int).drop_first() =~= Seq::<char>::empty());
            assert(chars.subrange(pos as int, pos + 1int)[0] == ch);
        },
    }
}

/// The location reached from `loc` by reading the characters of `chars` from `from` up to and
/// including `last`.
pub open spec fn loc_through(loc: Location, chars: Seq<char>, from: int, last: int) -> Location {
    loc_after(loc, chars.subrange(from, last + 1))
}

/// The scan has started a token, whose first location it keeps.
pub open spec fn begun(status: TokenIteratorStatus) -> bool {
    status != TokenIteratorStatus::WhiteSpace && status != TokenIteratorStatus::Comment
}

/// Reading one more character moves the location reached by one step.
proof fn lemma_loc_after_push(loc: Location, s: Seq<char>, c: char)
    ensures
        loc_after(loc, s.push(c)) == loc_step(loc_after(loc, s), c),
    decreases s.len(),
{
    if s.len() == 0 {
        reveal_with_fuel(loc_after, 2);
        assert(s.push(c).drop_first() =~= Seq::<char>::empty());
    } else {
        assert(s.push(c).drop_first() =~= s.drop_first().push(c));
        lemma_loc_after_push(loc_step(loc, s[0]), s.drop_first(), c);
    }
}

/// A scan that started at `pos0` from `loc0` and finds a token stamps it with the location of
/// one of the characters it read.
#[verifier::rlimit(40)]
proof fn lemma_scan_start(chars: Seq<char>, terminated: bool, pos0: nat, loc0: Location, pos: nat,
    status: TokenIteratorStatus, buffer: Seq<char>, begin: Location, loc: Location)
    requires
        pos0 <= pos <= chars.len(),
        loc == loc_after(loc0, chars.subrange(pos0 as int, pos as int)),
        begun(status) ==> exists|s: int| pos0 <= s < pos && begin == #[trigger] loc_through(loc0, chars, pos0 as int, s),
        scan(chars, terminated, pos, status, buffer, begin, loc) is Token,
    ensures
        ({
            let t = scan(chars, terminated, pos, status, buffer, begin, loc);
            exists|s: int| pos0 <= s < t->next && t->location == #[trigger] loc_through(loc0, chars, pos0 as int, s)
        }),
    decreases chars.len() - pos,
{
    let t = scan(chars, terminated, pos, status, buffer, begin, loc);
    let ch = chars[pos as int];
    lemma_loc_after_push(loc0, chars.subrange(pos0 as int, pos as int), ch);
    assert(chars.subrange(pos0 as int, pos as int).push(ch) =~= chars.subrange(pos0 as int, pos + 1int));
    let nl = loc_step(loc, ch);
    assert(nl == loc_through(loc0, chars, pos0 as int, pos as int));
    match step(chars, terminated, pos, status, buffer, begin, loc) {
        Step::Continue { status: s2, buffer: b2, begin: g2, loc: l2 } => {
            assert(l2 == nl);
            assert(begun(s2) ==> exists|s: int| pos0 <= s < pos + 1 && g2 == #[trigger] loc_through(loc0, chars, pos0 as int, s));
            lemma_scan_start(chars, terminated, pos0, loc0, pos + 1, s2, b2, g2, l2);
        },
        Step::Done(r) => {
            assert(t == r);
            assert(t->next == pos + 1);
        },
    }
}

/// Each token's rest feeds the next scan: a token found from position `pos` at `loc` ends at a
/// later position `next`, and the location `after` from which the next token is scanned is `loc`
/// moved over the characters between (a newline starts the next line), whose line and column
/// (counted from 1) the token reports; the token itself is stamped with the location of one of
/// the characters read, the one where it starts.
pub proof fn law_token_rest(chars: Seq<char>, terminated: bool, pos: nat, loc: Location)
    requires
        next_token_spec(chars, terminated, pos, loc) is Token,
    ensures
        ({
            let t = next_token_spec(chars, terminated, pos, loc);
            &&& pos < t->next <= chars.len()
            &&& t->after == loc_after(loc, chars.subrange(pos as int, t->next as int))
            &&& t->line == t->after.line_of()->0
            &&& t->column == t->after.column_of()->0 + 1
            &&& exists|s: int| pos <= s < t->next && t->location == #[trigger] loc_through(loc, chars, pos as int, s)
        }),
{
    lemma_scan_after(chars, terminated, pos, TokenIteratorStatus::WhiteSpace, Seq::empty(), loc, loc);
    assert(chars.subrange(pos as int, pos as int) =~= Seq::<char>::empty());
    lemma_scan_start(chars, terminated, pos, loc, pos, TokenIteratorStatus::WhiteSpace, Seq::empty(), loc, loc);
}

/// Inside a string, a run of characters that are neither quotes nor backslashes is taken as it is.
proof fn lemma_string_run(chars: Seq<char>, terminated: bool, pos: nat, end: nat, buffer: Seq<char>,
    begin: Location, loc: Location)
    requires
        pos <= end <= chars.len(),
        forall|i: int| pos <= i < end ==> chars[i] != '"' && chars[i] != '\\',
    ensures
        scan(chars, terminated, pos, TokenIteratorStatus::StringNormal, buffer, begin, loc)
            == scan(chars, terminated, end, TokenIteratorStatus::StringNormal,
                buffer + chars.subrange(pos as int, end as int), begin, loc_after(loc, chars.subrange(pos as int, end as int))),
    decreases end - pos,
{
    let run = chars.subrange(pos as int, end as int);
    if pos == end {
        assert(run =~= Seq::<char>::empty());
        assert(buffer + run =~= buffer);
    } else {
        let ch = chars[pos as int];
        lemma_string_run(chars, terminated, pos + 1, end, buffer.push(ch), begin, loc_step(loc, ch));
        assert(run.drop_first() =~= chars.subrange(pos + 1int, end as int));
        assert(run[0] == ch);
        assert(buffer.push(ch) + chars.subrange(pos + 1int, end as int) =~= buffer + run);
    }
}

/// An escape in a string literal stands for its character: `\t` for a tab, `\n` for a newline,
/// `\r` for a carriage return, `\"` for a quote and `\\` for a backslash. Reading a string
/// literal whose text has one escape among other characters (no quotes or backslashes) gives the
/// string with that character in the escape's place.
pub proof fn law_string_escapes(a: Seq<char>, c: char, e: char, b: Seq<char>, rest: Seq<char>,
    terminated: bool, loc: Location)
    requires
        forall|i: int| 0 <= i < a.len() ==> a[i] != '"' && a[i] != '\\',
        forall|i: int| 0 <= i < b.len() ==> b[i] != '"' && b[i] != '\\',
        (c == 't' && e == '\t') || (c == 'n' && e == '\n') || (c == 'r' && e == '\r')
            || (c == '"' && e == '"') || (c == '\\' && e == '\\'),
    ensures
        next_token_spec(seq!['"'] + a + seq!['\\', c] + b + seq!['"'] + rest, terminated, 0, loc)
            matches Scanned::Token { tok, .. } && tok == Tok::Str(a + seq![e] + b),
{
    let chars = seq!['"'] + a + seq!['\\', c] + b + seq!['"'] + rest;
    let i1: nat = 1 + a.len();
    let i2: nat = i1 + 2;
    let i3: nat = i2 + b.len();
    assert(chars[0] == '"');
    assert forall|i: int| 1 <= i < i1 implies chars[i] != '"' && chars[i] != '\\' by {
        assert(chars[i] == a[i - 1]);
    }
    assert(chars[i1 as int] == '\\');
    assert(chars[i1 + 1int] == c);
    assert forall|i: int| i2 <= i < i3 implies chars[i] != '"' && chars[i] != '\\' by {
        assert(chars[i] == b[i - i2]);
    }
    assert(chars[i3 as int] == '"');
    assert(chars.subrange(1, i1 as int) =~= a);
    assert(chars.subrange(i2 as int, i3 as int) =~= b);
    let loc1 = loc_step(loc, '"');
    assert(next_token_spec(chars, terminated, 0, loc)
        == scan(chars, terminated, 1, TokenIteratorStatus::StringNormal, Seq::<char>::empty(), loc1, loc1));
    lemma_string_run(chars, terminated, 1, i1, Seq::<char>::empty(), loc1, loc1);
    assert(Seq::<char>::empty() + a =~= a);
    let l2 = loc_after(loc1, a);
    let l3 = loc_step(l2, '\\');
    assert(scan(chars, terminated, i1, TokenIteratorStatus::StringNormal, a, loc1, l2)
        == scan(chars, terminated, i1 + 1, TokenIteratorStatus::StringEscape, a, loc1, l3));
    let l4 = loc_step(l3, c);
    assert(escaped(c) == Some(e));
    assert(scan(chars, terminated, i1 + 1, TokenIteratorStatus::StringEscape, a, loc1, l3)
        == scan(chars, terminated, i2, TokenIteratorStatus::StringNormal, a.push(e), loc1, l4));
    lemma_string_run(chars, terminated, i2, i3, a.push(e), loc1, l4);
    assert(a.push(e) + b =~= a + seq![e] + b);
    let l5 = loc_after(l4, b);
    assert(scan(chars, terminated, i3, TokenIteratorStatus::StringNormal, a + seq![e] + b, loc1, l5)
        matches Scanned::Token { tok, .. } && tok == Tok::Str(a + seq![e] + b));
}

/// A backslash in a string literal followed by any character other than `t`, `n`, `r`, a quote
/// or a backslash is an error.
pub proof fn law_string_bad_escape(a: Seq<char>, c: char, rest: Seq<char>, terminated: bool, loc: Location)
    requires
        forall|i: int| 0 <= i < a.len() ==> a[i] != '"' && a[i] != '\\',
        c != 't' && c != 'n' && c != 'r' && c != '"' && c != '\\',
    ensures
        next_token_spec(seq!['"'] + a + seq!['\\', c] + rest, terminated, 0, loc) is Failed,
{
    let chars = seq!['"'] + a + seq!['\\', c] + rest;
    let i1: nat = 1 + a.len();
    assert(chars[0] == '"');
    assert forall|i: int| 1 <= i < i1 implies chars[i] != '"' && chars[i] != '\\' by {
        assert(chars[i] == a[i - 1]);
    }
    assert(chars[i1 as int] == '\\');
    assert(chars[i1 + 1int] == c);
    assert(chars.subrange(1, i1 as int) =~= a);
    let loc1 = loc_step(loc, '"');
    assert(next_token_spec(chars, terminated, 0, loc)
        == scan(chars, terminated, 1, TokenIteratorStatus::StringNormal, Seq::<char>::empty(), loc1, loc1));
    lemma_string_run(chars, terminated, 1, i1, Seq::<char>::empty(), loc1, loc1);
    assert(Seq::<char>::empty() + a =~= a);
    let l2 = loc_after(loc1, a);
    let l3 = loc_step(l2, '\\');
    assert(scan(chars, terminated, i1, TokenIteratorStatus::StringNormal, a, loc1, l2)
        == scan(chars, terminated, i1 + 1, TokenIteratorStatus::StringEscape, a, loc1, l3));
    assert(escaped(c) is None);
    assert(scan(chars, terminated, i1 + 1, TokenIteratorStatus::StringEscape, a, loc1, l3) is Failed);
}

/// A location with a line and a column that counting `n` more characters cannot overflow.
pub open spec fn room_for(loc: Location, n: nat) -> bool {
    &&& loc.line_of() is Some
    &&& loc.column_of() is Some
    &&& loc.line_of()->0 + n + 1 < usize::MAX
    &&& loc.column_of()->0 + n + 1 < usize::MAX
}


// ---------------------------------------------------------------------------------------------
// The tokenizer
// ---------------------------------------------------------------------------------------------

/// A copy of a location.
pub fn copy_location(l: &Location) -> (r: Location)
    ensures
        r == *l,
{
    match l {
        Location::Native => Location::Native,
        Location::Prelude { line, column } => Location::Prelude { line: *line, column: *column },
        Location::Stdin { line, column } => Location::Stdin { line: *line, column: *column },
        Location::File { path, line, column } => Location::File { path: path.clone(), line: *line, column: *column },
    }
}

/// `c` ends an atom.
fn is_atom_ending(c: char) -> (r: bool)
    ensures
        r == ends_atom(c),
{
    c == ';' || c == '(' || c == ')' || c == '"' || c == '\'' || c == ',' || is_whitespace(c)
}

/// The character that `%` followed by `buf` spells, or the error message.
fn build_character(buf: &Vec<char>) -> (r: Result<char, String>)
    ensures
        match character_literal(buf@) {
            Ok(c) => r == Ok::<char, String>(c),
            Err(m) => r matches Err(s) && s@ == m,
        },
{
    if buf.len() == 0 {
        return Err(String::from_str("invalid character: '%' (empty literal)"));
    }
    if buf.len() == 2 && buf[0] == '\\' {
        let c = buf[1];
        proof {
            assert(buf@ == seq!['\\', c]);
        }
        if c == 'n' { return Ok('\n'); }
        if c == 't' { return Ok('\t'); }
        if c == 's' { return Ok(' '); }
        if c == 'r' { return Ok('\r'); }
        if c == '\\' { return Ok('\\'); }
    }
    proof {
        if buf@.len() == 2 && buf@[0] == '\\' {
        } else {
            assert(buf@ != seq!['\\', 'n']);
            assert(buf@ != seq!['\\', 't']);
            assert(buf@ != seq!['\\', 's']);
            assert(buf@ != seq!['\\', 'r']);
            assert(buf@ != seq!['\\', '\\']);
        }
    }
    let text = string_from_chars(buf);
    if count_graphemes(text.as_str()) == 1 {
        Ok(buf[0])
    } else {
        let mut m = String::from_str("invalid character: '%");
        push_str(&mut m, text.as_str());
        push_str(&mut m, "'");
        Err(m)
    }
}

/// The number that `buf` spells, or the error message.
fn build_number(buf: &Vec<char>) -> (r: Result<i64, String>)
    ensures
        match number_literal(buf@) {
            Ok(n) => r == Ok::<i64, String>(n),
            Err(m) => r matches Err(s) && s@ == m,
        },
{
    match parse_i64(buf) {
        Ok(n) => Ok(n),
        Err(e) => {
            let mut m = String::from_str("invalid number: '");
            push_str(&mut m, int_error_message(e));
            push_str(&mut m, "'");
            Err(m)
        },
    }
}

/// A token that the scan ends with.
fn token_at(value: TokenValue, location: Location, after: &Location, next: usize) -> (r: Result<TokenAndRest, ReadError>)
    requires
        after.line_of() is Some,
        after.column_of() is Some,
        after.column_of()->0 + 1 <= usize::MAX,
    ensures
        scanned_view(r) == (Scanned::Token { tok: value@, location, after: *after, next: next as nat,
            line: after.line_of()->0 as nat, column: after.column_of()->0 as nat + 1 }),
{
    let line = after.get_line().unwrap();
    let column = after.get_column().unwrap() + 1;
    Ok(TokenAndRest { value, location, after: copy_location(after), next, line, column })
}

/// An error that the scan ends with.
fn error_at(msg: String, after: &Location, next: usize) -> (r: Result<TokenAndRest, ReadError>)
    requires
        after.line_of() is Some,
        after.column_of() is Some,
        after.column_of()->0 + 1 <= usize::MAX,
    ensures
        scanned_view(r) == Scanned::Failed((Failure::Error { msg: msg@, location: *after, next: next as nat,
            line: after.line_of()->0 as nat, column: after.column_of()->0 as nat + 1 })),
{
    let line = after.get_line().unwrap();
    let column = after.get_column().unwrap() + 1;
    Err(ReadError::Error { msg, location: copy_location(after), next, line, column })
}

/// The next token of the input from position `pos`, the scan starting at `loc`.
pub fn next_token(chars: &Vec<char>, terminated: bool, start: usize, loc: &Location) -> (r: Result<TokenAndRest, ReadError>)
    requires
        start <= chars@.len(),
        room_for(*loc, (chars@.len() - start) as nat),
    ensures
        scanned_view(r) == next_token_spec(chars@, terminated, start as nat, *loc),
        r matches Ok(t) ==> start < t.next <= chars@.len() && room_for(t.after, (chars@.len() - t.next) as nat),
        r matches Err(ReadError::Error { next, .. }) ==> start < next <= chars@.len(),
{
    let mut status = TokenIteratorStatus::WhiteSpace;
    let mut buffer: Vec<char> = Vec::new();
    let mut begin = copy_location(loc);
    let mut here = copy_location(loc);
    let mut pos = start;
    let ghost target = next_token_spec(chars@, terminated, pos as nat, *loc);
    let ghost pos0 = pos;
    loop
        invariant
            pos0 <= pos <= chars@.len(),
            room_for(here, (chars@.len() - pos) as nat),
            target == scan(chars@, terminated, pos as nat, status, buffer@, begin, here),
            target == next_token_spec(chars@, terminated, pos0 as nat, *loc),
            pos0 == start,
        decreases chars@.len() - pos,
    {
        if pos >= chars.len() {
            if !terminated {
                return Err(ReadError::InvalidString);
            } else if buffer.len() > 0 || status == TokenIteratorStatus::Character
                || status == TokenIteratorStatus::StringNormal || status == TokenIteratorStatus::StringEscape {
                return Err(ReadError::Incomplete);
            } else {
                return Err(ReadError::Nothing);
            }
        }
        let ghost st = status;
        let ghost buf0 = buffer@;
        let ghost bg0 = begin;
        let ghost loc0 = here;
        let ch = chars[pos];
        if ch == '\n' {
            here.step_line();
        } else {
            here.step_column();
        }
        proof {
            assert(here == loc_step(loc0, ch));
        }
        let next = pos + 1;
        let ghost stepped = step(chars@, terminated, pos as nat, st, buf0, bg0, loc0);
        if status == TokenIteratorStatus::Comment {
            if ch == '\n' {
                status = TokenIteratorStatus::WhiteSpace;
            }
            pos = next;
            continue;
        }
        if status == TokenIteratorStatus::StringNormal && ch != '"' && ch != '\\' {
            buffer.push(ch);
            pos = next;
            continue;
        }
        if status == TokenIteratorStatus::StringEscape {
            let e = if ch == '"' { Some('"') } else if ch == 'n' { Some('\n') } else if ch == 'r' { Some('\r') }
                else if ch == 't' { Some('\t') } else if ch == '\\' { Some('\\') } else { None };
            match e {
                Some(e) => {
                    buffer.push(e);
                    status = TokenIteratorStatus::StringNormal;
                    pos = next;
                    continue;
                },
                None => {
                    let mut m = String::new();
                    string_push(&mut m, '\'');
                    string_push(&mut m, ch);
                    push_str(&mut m, "' is not a valid escape character in a string literal");
                    proof {
                        assert(m@ =~= seq!['\''] + seq![ch] + "' is not a valid escape character in a string literal"@);
                    }
                    return error_at(m, &here, next);
                },
            }
        }
        // The character itself: either a token or an error right away, or a new state.
        let mut finish: u8 = 0;
        if is_whitespace(ch) || ch == ',' {
            status = TokenIteratorStatus::WhiteSpace;
        } else if ch == ';' {
            status = TokenIteratorStatus::Comment;
        } else if ch == '\'' || ch == '(' || ch == ')' || ch == '"' && status == TokenIteratorStatus::StringNormal {
            finish = 1;
        } else if ch == '"' {
            status = TokenIteratorStatus::StringNormal;
            begin = copy_location(&here);
        } else if ch == '\\' {
            if status == TokenIteratorStatus::StringNormal {
                status = TokenIteratorStatus::StringEscape;
            } else if status == TokenIteratorStatus::Character {
                buffer.push(ch);
            } else {
                finish = 1;
            }
        } else if ch == '%' {
            if status == TokenIteratorStatus::WhiteSpace {
                status = TokenIteratorStatus::Character;
                begin = copy_location(&here);
            } else {
                buffer.push(ch);
            }
        } else if ch == '+' || ch == '-' {
            if status == TokenIteratorStatus::WhiteSpace {
                status = TokenIteratorStatus::SymbolOrNumber;
                begin = copy_location(&here);
            }
            buffer.push(ch);
        } else if is_ascii_digit(ch) {
            if status == TokenIteratorStatus::SymbolOrNumber {
                status = TokenIteratorStatus::Number;
            } else if status == TokenIteratorStatus::WhiteSpace {
                status = TokenIteratorStatus::Number;
                begin = copy_location(&here);
            }
            buffer.push(ch);
        } else if status == TokenIteratorStatus::Number {
            finish = 1;
        } else {
            if status == TokenIteratorStatus::WhiteSpace {
                status = TokenIteratorStatus::Symbol;
                begin = copy_location(&here);
            } else if status == TokenIteratorStatus::SymbolOrNumber {
                status = TokenIteratorStatus::Symbol;
            }
            buffer.push(ch);
        }
        if finish == 1 {
            if ch == '\'' {
                return token_at(TokenValue::Quote, copy_location(&here), &here, next);
            } else if ch == '(' {
                return token_at(TokenValue::OpenParen, copy_location(&here), &here, next);
            } else if ch == ')' {
                return token_at(TokenValue::CloseParen, copy_location(&here), &here, next);
            } else if ch == '"' {
                let text = string_from_chars(&buffer);
                return token_at(TokenValue::String(text), copy_location(&begin), &here, next);
            } else if ch == '\\' {
                return error_at(String::from_str("unexpected character: '\\'"), &here, next);
            } else {
                let mut m = String::from_str("unexpected character in number literal: '");
                string_push(&mut m, ch);
                push_str(&mut m, "'");
                proof {
                    assert(m@ =~= "unexpected character in number literal: '"@ + seq![ch] + "'"@);
                }
                return error_at(m, &here, next);
            }
        }
        proof {
            assert(mid_state(ch, st, buf0, bg0, here) == Some((status, buffer@, begin)));
        }
        if buffer.len() > 0 {
            if next >= chars.len() && !terminated {
                return Err(ReadError::InvalidString);
            }
            let ending = next >= chars.len() || is_atom_ending(chars[next]);
            if ending {
                if status == TokenIteratorStatus::Character {
                    match build_character(&buffer) {
                        Ok(c) => { return token_at(TokenValue::Character(c), copy_location(&begin), &here, next); },
                        Err(m) => { return error_at(m, &here, next); },
                    }
                } else if status == TokenIteratorStatus::Number {
                    match build_number(&buffer) {
                        Ok(n) => { return token_at(TokenValue::Number(n), copy_location(&begin), &here, next); },
                        Err(m) => { return error_at(m, &here, next); },
                    }
                } else if status == TokenIteratorStatus::Symbol || status == TokenIteratorStatus::SymbolOrNumber {
                    let text = string_from_chars(&buffer);
                    return token_at(TokenValue::Symbol(text), copy_location(&begin), &here, next);
                }
            }
        }
        pos = next;
    }
}

// ---------------------------------------------------------------------------------------------
// The reader
// ---------------------------------------------------------------------------------------------

/// A value that the reader builds, as the specification sees it.
pub enum Datum {
    /// A number, character, symbol or string, and where it was read.
    Atom(Tok, Location),
    List(Seq<Datum>),
    /// `(quote d)`.
    Quoted(Box<Datum>),
}

/// `d`, quoted when `q` holds.
pub open spec fn quote_if(d: Datum, q: bool) -> Datum {
    if q { Datum::Quoted(Box::new(d)) } else { d }
}

/// What reading gives: the datum and where the rest of the input starts (its position, line
/// and column), or why nothing was read.
pub type ReadOutcome = Result<(Datum, nat, nat, nat), Failure>;

/// The reader from position `pos`, at location `loc`, with the unfinished lists of `stack`
/// (each with the elements read so far and whether it is quoted), and `quoted` saying whether
/// the next datum is quoted.
pub open spec fn reader(chars: Seq<char>, terminated: bool, pos: nat, loc: Location,
    stack: Seq<(Seq<Datum>, bool)>, quoted: bool) -> ReadOutcome
    decreases chars.len() - pos,
{
    match next_token_spec(chars, terminated, pos, loc) {
        Scanned::Failed(Failure::Nothing) => if stack.len() > 0 { Err(Failure::Incomplete) } else { Err(Failure::Nothing) },
        Scanned::Failed(f) => Err(f),
        Scanned::Token { tok, location, after, next, line, column } => {
            if next <= pos || next > chars.len() {
                Err(Failure::Nothing)
            } else {
                match tok {
                    Tok::Quote => reader(chars, terminated, next, after, stack, true),
                    Tok::OpenParen => reader(chars, terminated, next, after, stack.push((Seq::empty(), quoted)), false),
                    Tok::CloseParen => {
                        if stack.len() == 0 {
                            Err(Failure::Error { msg: "too many closing parentheses"@, location, next, line, column })
                        } else {
                            let (elems, q) = stack.last();
                            let list = quote_if(Datum::List(elems), q);
                            let quoted2 = if q { false } else { quoted };
                            let lower = stack.drop_last();
                            if lower.len() > 0 {
                                let (le, lq) = lower.last();
                                reader(chars, terminated, next, after, lower.drop_last().push((le.push(list), lq)), quoted2)
                            } else {
                                Ok((quote_if(list, quoted2), next, line, column))
                            }
                        }
                    },
                    _ => {
                        let x = quote_if(Datum::Atom(tok, location), quoted);
                        if stack.len() > 0 {
                            let (le, lq) = stack.last();
                            reader(chars, terminated, next, after, stack.drop_last().push((le.push(x), lq)), false)
                        } else {
                            Ok((x, next, line, column))
                        }
                    },
                }
            }
        },
    }
}

/// `p` denotes the datum `d`: atoms carry metadata with the location they were read at and the
/// text they were read from, a string is a list `(list c1 c2 ...)`, and a quoted datum is the
/// list `(quote d)`.
pub open spec fn represents(mem: &Memory, p: Option<usize>, d: Datum) -> bool
    decreases d,
{
    match d {
        Datum::Atom(tok, location) => mem.meta_of(p) matches Some(md) && md.location == location
            && md.documentation@ == Seq::<char>::empty() && match tok {
                Tok::Number(n) => mem.value_of(p) == Some(PrimitiveValue::Number(n)) && md.read_name@ == signed_decimal(n as int),
                Tok::Character(c) => mem.value_of(p) == Some(PrimitiveValue::Character(c)) && md.read_name@ == seq![c],
                Tok::Symbol(name) => is_symbol_named(mem, p, name) && md.read_name@ == name,
                Tok::Str(text) => string_of(mem, p) == Some(text) && md.read_name@ == Seq::<char>::empty()
                    && (list_elems(mem, p) matches Some(e) && e.len() > 0 && is_symbol_named(mem, e[0], "list"@)),
                _ => false,
            },
        Datum::List(ds) => list_elems(mem, p) matches Some(e) && e.len() == ds.len()
            && forall|i: int| 0 <= i < ds.len() ==> represents(mem, #[trigger] e[i], ds[i]),
        Datum::Quoted(b) => list_elems(mem, p) matches Some(e) && e.len() == 2
            && is_symbol_named(mem, e[0], "quote"@) && represents(mem, e[1], *b),
    }
}

/// What `p` denotes stays as it is while its cell is unchanged.
pub proof fn lemma_represents_unchanged(old: &Memory, new: &Memory, p: Option<usize>, d: Datum)
    requires
        old.wf(),
        old.evolves(new),
        old.unchanged(new, p),
        represents(old, p, d),
    ensures
        represents(new, p, d),
    decreases d,
{
    old.lemma_value_unchanged(new, p);
    match d {
        Datum::Atom(tok, location) => {
            if let Tok::Str(text) = tok {
                lemma_list_unchanged(old, new, p);
                lemma_string_unchanged(old, new, p);
                lemma_elems_unchanged(old, new, p);
                let e = list_elems(old, p)->0;
                old.lemma_value_unchanged(new, e[0]);
            }
        },
        Datum::List(ds) => {
            lemma_list_unchanged(old, new, p);
            lemma_elems_unchanged(old, new, p);
            let e = list_elems(old, p)->0;
            assert forall|i: int| 0 <= i < ds.len() implies represents(new, #[trigger] e[i], ds[i]) by {
                assert(old.unchanged(new, e[i]));
                lemma_represents_unchanged(old, new, e[i], ds[i]);
            }
        },
        Datum::Quoted(b) => {
            lemma_list_unchanged(old, new, p);
            lemma_elems_unchanged(old, new, p);
            let e = list_elems(old, p)->0;
            assert(old.unchanged(new, e[0]));
            assert(old.unchanged(new, e[1]));
            old.lemma_value_unchanged(new, e[0]);
            lemma_represents_unchanged(old, new, e[1], *b);
        },
    }
}

/// Handles that all denote their datums and are live.
pub open spec fn all_represent(mem: &Memory, v: Seq<GcRef>, ds: Seq<Datum>) -> bool {
    &&& v.len() == ds.len()
    &&& forall|i: int| 0 <= i < v.len() ==> represents(mem, #[trigger] v[i].ptr(), ds[i]) && mem.live(v[i].ptr())
}

/// Handles keep denoting their datums while their cells are kept.
proof fn lemma_all_represent_kept(old: &Memory, new: &Memory, v: Seq<GcRef>, ds: Seq<Datum>)
    requires
        old.wf(),
        old.evolves(new),
        keeps_all(old, new, v),
        all_represent(old, v, ds),
    ensures
        all_represent(new, v, ds),
{
    assert forall|i: int| 0 <= i < v.len() implies represents(new, #[trigger] v[i].ptr(), ds[i]) && new.live(v[i].ptr()) by {
        assert(old.keeps(new, v[i].ptr()));
        lemma_represents_unchanged(old, new, v[i].ptr(), ds[i]);
    }
}

/// The metadata the reader attaches to an atom.
fn read_metadata(read_name: String, location: Location) -> (md: Metadata)
    ensures
        md.read_name@ == read_name@,
        md.location == location,
        md.documentation@ == Seq::<char>::empty(),
{
    Metadata { read_name, location, documentation: String::new() }
}

/// The value of an atom token, with its metadata, keeping the cells of `keep` alive.
fn make_atom(mem: &mut Memory, tok: TokenValue, location: Location, keep: &[GcRef]) -> (r: GcRef)
    requires
        old(mem).wf(),
        tok@ is Character || tok@ is Number || tok@ is Symbol || tok@ is Str,
    ensures
        allocates(&*old(mem), &*final(mem)),
        keeps_all(&*old(mem), &*final(mem), keep@),
        represents(&*final(mem), r.ptr(), Datum::Atom(tok@, location)),
        final(mem).live(r.ptr()),
{
    let ghost m0 = *mem;
    let ghost t = tok@;
    let (x, name) = match tok {
        TokenValue::Number(n) => (number(mem, n, keep), i64_to_string(n)),
        TokenValue::Character(c) => {
            let mut name = String::new();
            string_push(&mut name, c);
            (character(mem, c, keep), name)
        },
        TokenValue::Symbol(sym) => (symbol(mem, sym.as_str(), keep), sym),
        TokenValue::String(text) => (string_to_proper_list_keeping(mem, text.as_str(), keep), String::new()),
        _ => (GcRef::nil(), String::new()),
    };
    let ghost m1 = *mem;
    let md = read_metadata(name, location);
    let r = mem.allocate_metadata_keeping(x, md, keep);
    proof {
        lemma_allocation_keeps(&m1, &*mem, r.ptr()->0, keep@);
        lemma_allocates_trans(&m0, &m1, &*mem);
        lemma_keeps_all_trans(&m0, &m1, &*mem, keep@);
        if t is Str {
            let e = list_elems(&m1, x.ptr())->0;
            assert(e.len() > 0);
            assert(m1.live(x.ptr()));
            assert(m1.unchanged(&*mem, x.ptr()));
            m1.lemma_value_unchanged(&*mem, x.ptr());
            lemma_same_value_list(&*mem, r.ptr(), x.ptr());
            lemma_list_unchanged(&m1, &*mem, x.ptr());
            lemma_elems_unchanged(&m1, &*mem, x.ptr());
            m1.lemma_value_unchanged(&*mem, e[0]);
            lemma_string_unchanged(&m1, &*mem, x.ptr());
        }
    }
    r
}


/// `(quote d)` for the handle `x` of `d`, keeping the cells of `keep` alive.
fn quote_it(mem: &mut Memory, x: GcRef, Ghost(d): Ghost<Datum>, keep: &[GcRef]) -> (r: GcRef)
    requires
        old(mem).wf(),
        represents(&*old(mem), x.ptr(), d),
        old(mem).live(x.ptr()),
    ensures
        allocates(&*old(mem), &*final(mem)),
        keeps_all(&*old(mem), &*final(mem), keep@),
        represents(&*final(mem), r.ptr(), Datum::Quoted(Box::new(d))),
        final(mem).live(r.ptr()),
{
    let ghost m0 = *mem;
    let ext = with_extra(keep, &[x.clone()]);
    let q = symbol(mem, "quote", ext.as_slice());
    let ghost m1 = *mem;
    proof {
        lemma_keeps_sub(&m0, &m1, keep@, ext@, 0);
        let n = keep@.len() as int;
        assert(ext@[0 + n].ptr() == x.ptr());
        assert(m0.keeps(&m1, ext@[n].ptr()));
        lemma_represents_unchanged(&m0, &m1, x.ptr(), d);
    }
    let pair = [q, x];
    let r = vec_to_list_keeping(mem, &pair, keep);
    proof {
        let v = pair@;
        assert(m1.live(v[0].ptr()));
        assert(m1.live(v[1].ptr()));
        assert(sanitized(&m1, v) =~= seq![v[0].ptr(), v[1].ptr()]);
        assert(m1.keeps(&*mem, v[0].ptr()));
        assert(m1.keeps(&*mem, v[1].ptr()));
        m1.lemma_value_unchanged(&*mem, v[0].ptr());
        lemma_represents_unchanged(&m1, &*mem, v[1].ptr(), d);
        lemma_allocates_trans(&m0, &m1, &*mem);
        lemma_keeps_all_trans(&m0, &m1, &*mem, keep@);
    }
    r
}

/// The list of the handles `elems` of the datums `ds`, keeping the cells of `keep` alive.
fn make_list(mem: &mut Memory, elems: &[GcRef], Ghost(ds): Ghost<Seq<Datum>>, keep: &[GcRef]) -> (r: GcRef)
    requires
        old(mem).wf(),
        all_represent(&*old(mem), elems@, ds),
    ensures
        allocates(&*old(mem), &*final(mem)),
        keeps_all(&*old(mem), &*final(mem), keep@),
        represents(&*final(mem), r.ptr(), Datum::List(ds)),
        final(mem).live(r.ptr()),
{
    let ghost m0 = *mem;
    let r = vec_to_list_keeping(mem, elems, keep);
    proof {
        assert(sanitized(&m0, elems@) =~= ptrs(elems@)) by {
            assert forall|i: int| 0 <= i < elems@.len() implies sanitized(&m0, elems@)[i] == ptrs(elems@)[i] by {
                assert(m0.live(elems@[i].ptr()));
            }
        }
        lemma_all_represent_kept(&m0, &*mem, elems@, ds);
        let e = list_elems(&*mem, r.ptr())->0;
        assert forall|i: int| 0 <= i < ds.len() implies represents(&*mem, #[trigger] e[i], ds[i]) by {
            assert(e[i] == elems@[i].ptr());
        }
    }
    r
}

/// The unfinished lists of the reader: level `k` holds the datums of `pd` from its start up to
/// the start of the next level (or the end), and whether it is quoted.
pub open spec fn stack_of(pd: Seq<Datum>, lv: Seq<(usize, bool)>) -> Seq<(Seq<Datum>, bool)> {
    Seq::new(lv.len(), |k: int| (
        pd.subrange(lv[k].0 as int, if k + 1 < lv.len() { lv[k + 1].0 as int } else { pd.len() as int }),
        lv[k].1,
    ))
}

/// The starts of the levels are in order and within the datums.
pub open spec fn levels_ok(lv: Seq<(usize, bool)>, n: nat) -> bool {
    &&& forall|k: int| 0 <= k < lv.len() ==> #[trigger] lv[k].0 <= n
    &&& forall|j: int, k: int| 0 <= j < k < lv.len() ==> #[trigger] lv[j].0 <= #[trigger] lv[k].0
}

proof fn lemma_stack_push_datum(pd: Seq<Datum>, lv: Seq<(usize, bool)>, x: Datum)
    requires
        lv.len() > 0,
        levels_ok(lv, pd.len()),
    ensures
        ({
            let st = stack_of(pd, lv);
            stack_of(pd.push(x), lv) == st.drop_last().push((st.last().0.push(x), st.last().1))
        }),
{
    let st = stack_of(pd, lv);
    let st2 = stack_of(pd.push(x), lv);
    let want = st.drop_last().push((st.last().0.push(x), st.last().1));
    assert forall|k: int| 0 <= k < lv.len() implies #[trigger] st2[k] == want[k] by {
        if k + 1 < lv.len() {
            assert(lv[k].0 <= lv[k + 1].0);
            assert(pd.push(x).subrange(lv[k].0 as int, lv[k + 1].0 as int) =~= pd.subrange(lv[k].0 as int, lv[k + 1].0 as int));
        } else {
            assert(pd.push(x).subrange(lv[k].0 as int, pd.len() + 1int) =~= pd.subrange(lv[k].0 as int, pd.len() as int).push(x));
        }
    }
    assert(st2 =~= want);
}

proof fn lemma_stack_open(pd: Seq<Datum>, lv: Seq<(usize, bool)>, q: bool)
    requires
        levels_ok(lv, pd.len()),
        pd.len() <= usize::MAX,
    ensures
        stack_of(pd, lv.push((pd.len() as usize, q))) == stack_of(pd, lv).push((Seq::<Datum>::empty(), q)),
        levels_ok(lv.push((pd.len() as usize, q)), pd.len()),
{
    let lv2 = lv.push((pd.len() as usize, q));
    let st = stack_of(pd, lv);
    let st2 = stack_of(pd, lv2);
    let want = st.push((Seq::<Datum>::empty(), q));
    assert forall|k: int| 0 <= k < lv2.len() implies #[trigger] st2[k] == want[k] by {
        if k < lv.len() {
            assert(lv2[k] == lv[k]);
            if k + 1 < lv.len() {
                assert(lv2[k + 1] == lv[k + 1]);
            }
        } else {
            assert(pd.subrange(pd.len() as int, pd.len() as int) =~= Seq::<Datum>::empty());
        }
    }
    assert(st2 =~= want);
}

proof fn lemma_stack_close(pd: Seq<Datum>, lv: Seq<(usize, bool)>)
    requires
        lv.len() > 0,
        levels_ok(lv, pd.len()),
    ensures
        ({
            let start = lv.last().0 as int;
            &&& stack_of(pd, lv).last() == (pd.subrange(start, pd.len() as int), lv.last().1)
            &&& stack_of(pd.subrange(0, start), lv.drop_last()) == stack_of(pd, lv).drop_last()
            &&& levels_ok(lv.drop_last(), start as nat)
        }),
{
    let start = lv.last().0 as int;
    let lv2 = lv.drop_last();
    let pd2 = pd.subrange(0, start);
    let st = stack_of(pd, lv);
    let st2 = stack_of(pd2, lv2);
    assert forall|k: int| 0 <= k < lv2.len() implies #[trigger] st2[k] == st.drop_last()[k] by {
        assert(lv2[k] == lv[k]);
        assert(lv[k].0 <= lv[lv.len() - 1].0);
        if k + 1 < lv2.len() {
            assert(lv2[k + 1] == lv[k + 1]);
            assert(lv[k + 1].0 <= lv[lv.len() - 1].0);
            assert(pd2.subrange(lv[k].0 as int, lv[k + 1].0 as int) =~= pd.subrange(lv[k].0 as int, lv[k + 1].0 as int));
        } else {
            assert(pd2.subrange(lv[k].0 as int, pd2.len() as int) =~= pd.subrange(lv[k].0 as int, lv[k + 1].0 as int));
        }
    }
    assert(st2 =~= st.drop_last());
    assert forall|k: int| 0 <= k < lv2.len() implies #[trigger] lv2[k].0 <= start as nat by {
        assert(lv[k].0 <= lv[lv.len() - 1].0);
    }
    assert forall|j: int, k: int| 0 <= j < k < lv2.len() implies #[trigger] lv2[j].0 <= #[trigger] lv2[k].0 by {
        assert(lv[j].0 <= lv[k].0);
    }
}

proof fn lemma_keep_both(a: &Memory, b: &Memory, pool: Seq<GcRef>, keep: Seq<GcRef>, all: Seq<GcRef>)
    requires
        keeps_all(a, b, all),
        all.len() == pool.len() + keep.len(),
        forall|q: int| 0 <= q < pool.len() ==> #[trigger] all[q].ptr() == pool[q].ptr(),
        forall|q: int| 0 <= q < keep.len() ==> #[trigger] all[q + pool.len()].ptr() == keep[q].ptr(),
    ensures
        keeps_all(a, b, pool),
        keeps_all(a, b, keep),
{
    lemma_keeps_sub(a, b, pool, all, 0);
    lemma_keeps_sub(a, b, keep, all, pool.len() as int);
}

proof fn lemma_keep_refl(a: &Memory, v: Seq<GcRef>)
    ensures
        keeps_all(a, a, v),
{
}

/// What reading the input `chars` from its start at `location` gives.
pub open spec fn read_outcome(chars: Seq<char>, terminated: bool, location: Location) -> ReadOutcome {
    reader(chars, terminated, 0, location, Seq::empty(), false)
}

/// What reading gives with its datum quoted: `(quote d)` for a datum `d`, at the same rest; the
/// same failure otherwise.
pub open spec fn quoted_outcome(o: ReadOutcome) -> ReadOutcome {
    match o {
        Ok((d, n, l, c)) => Ok((Datum::Quoted(Box::new(d)), n, l, c)),
        Err(f) => Err(f),
    }
}

/// No quote character stands in `chars` from position `pos` on.
pub open spec fn no_quote_from(chars: Seq<char>, pos: nat) -> bool {
    forall|i: int| pos <= i < chars.len() ==> chars[i] != '\''
}

/// A quote token is the quote character just before where the token ends.
proof fn lemma_scan_quote(chars: Seq<char>, terminated: bool, pos: nat, status: TokenIteratorStatus,
    buffer: Seq<char>, begin: Location, loc: Location)
    requires
        scan(chars, terminated, pos, status, buffer, begin, loc) matches Scanned::Token { tok: Tok::Quote, .. },
    ensures
        ({
            let t = scan(chars, terminated, pos, status, buffer, begin, loc);
            &&& pos < t->next <= chars.len()
            &&& chars[t->next - 1] == '\''
        }),
    decreases chars.len() - pos,
{
    match step(chars, terminated, pos, status, buffer, begin, loc) {
        Step::Continue { status: s2, buffer: b2, begin: g2, loc: l2 } => {
            lemma_scan_quote(chars, terminated, pos + 1, s2, b2, g2, l2);
        },
        Step::Done(r) => {},
    }
}

/// Two readings whose unfinished lists differ only in that the outermost one is quoted in the
/// first: the first gives the second's datum quoted, where no quote character follows.
proof fn lemma_reader_outer_quoted(chars: Seq<char>, terminated: bool, pos: nat, loc: Location,
    sa: Seq<(Seq<Datum>, bool)>, sb: Seq<(Seq<Datum>, bool)>)
    requires
        sa.len() == sb.len(),
        sa.len() > 0,
        sa[0].1,
        !sb[0].1,
        sa[0].0 == sb[0].0,
        forall|i: int| 0 < i < sa.len() ==> sa[i] == sb[i],
        no_quote_from(chars, pos),
    ensures
        reader(chars, terminated, pos, loc, sa, false) == quoted_outcome(reader(chars, terminated, pos, loc, sb, false)),
    decreases chars.len() - pos,
{
    match next_token_spec(chars, terminated, pos, loc) {
        Scanned::Failed(_) => {},
        Scanned::Token { tok, location, after, next, line, column } => {
            if next <= pos || next > chars.len() {
            } else {
                match tok {
                    Tok::Quote => {
                        lemma_scan_quote(chars, terminated, pos, TokenIteratorStatus::WhiteSpace, Seq::empty(), loc, loc);
                        assert(chars[next - 1] != '\'');
                    },
                    Tok::OpenParen => {
                        let ta = sa.push((Seq::<Datum>::empty(), false));
                        let tb = sb.push((Seq::<Datum>::empty(), false));
                        assert forall|i: int| 0 < i < ta.len() implies ta[i] == tb[i] by {
                            if i < sa.len() { assert(ta[i] == sa[i]); assert(tb[i] == sb[i]); }
                        }
                        lemma_reader_outer_quoted(chars, terminated, next, after, ta, tb);
                    },
                    Tok::CloseParen => {
                        let lower_a = sa.drop_last();
                        let lower_b = sb.drop_last();
                        if sa.len() > 1 {
                            assert(sa.last() == sb.last());
                            let (le, lq) = lower_a.last();
                            let (e, q) = sa.last();
                            let list = quote_if(Datum::List(e), q);
                            let ta = lower_a.drop_last().push((le.push(list), lq));
                            let tb = lower_b.drop_last().push((lower_b.last().0.push(list), lower_b.last().1));
                            assert(ta.len() == tb.len());
                            assert forall|i: int| 0 < i < ta.len() implies ta[i] == tb[i] by {
                                assert(lower_a[i] == lower_b[i]);
                            }
                            if sa.len() == 2 {
                                assert(lower_a[0] == sa[0]);
                                assert(lower_b[0] == sb[0]);
                            } else {
                                assert(lower_a[0] == sa[0]);
                                assert(lower_b[0] == sb[0]);
                                assert(lower_a.last() == lower_b.last());
                            }
                            lemma_reader_outer_quoted(chars, terminated, next, after, ta, tb);
                        } else {
                            assert(sa.last() == sa[0]);
                            assert(sb.last() == sb[0]);
                        }
                    },
                    _ => {
                        let x = Datum::Atom(tok, location);
                        let ta = sa.drop_last().push((sa.last().0.push(x), sa.last().1));
                        let tb = sb.drop_last().push((sb.last().0.push(x), sb.last().1));
                        if sa.len() == 1 {
                            assert(sa.last() == sa[0]);
                            assert(sb.last() == sb[0]);
                        } else {
                            assert(sa.last() == sb.last());
                        }
                        assert forall|i: int| 0 < i < ta.len() implies ta[i] == tb[i] by {
                            if i < sa.len() - 1 { assert(sa[i] == sb[i]); }
                        }
                        lemma_reader_outer_quoted(chars, terminated, next, after, ta, tb);
                    },
                }
            }
        },
    }
}

/// A leading quote wraps the datum: reading from a quote gives `(quote d)` where reading from
/// just after the quote gives `d`, with the same rest (position, line and column), or the same
/// failure, where no quote character follows.
pub proof fn law_quote_wraps(chars: Seq<char>, terminated: bool, pos: nat, loc: Location)
    requires
        next_token_spec(chars, terminated, pos, loc) matches Scanned::Token { tok: Tok::Quote, .. },
        no_quote_from(chars, next_token_spec(chars, terminated, pos, loc)->next),
    ensures
        ({
            let t = next_token_spec(chars, terminated, pos, loc);
            reader(chars, terminated, pos, loc, Seq::empty(), false)
                == quoted_outcome(reader(chars, terminated, t->next, t->after, Seq::empty(), false))
        }),
{
    let t = next_token_spec(chars, terminated, pos, loc);
    lemma_scan_quote(chars, terminated, pos, TokenIteratorStatus::WhiteSpace, Seq::empty(), loc, loc);
    let p1 = t->next;
    let l1 = t->after;
    assert(reader(chars, terminated, pos, loc, Seq::empty(), false) == reader(chars, terminated, p1, l1, Seq::empty(), true));
    match next_token_spec(chars, terminated, p1, l1) {
        Scanned::Failed(_) => {},
        Scanned::Token { tok, location, after, next, line, column } => {
            if next <= p1 || next > chars.len() {
            } else {
                match tok {
                    Tok::Quote => {
                        lemma_scan_quote(chars, terminated, p1, TokenIteratorStatus::WhiteSpace, Seq::empty(), l1, l1);
                        assert(chars[next - 1] != '\'');
                    },
                    Tok::OpenParen => {
                        let sa = Seq::<(Seq<Datum>, bool)>::empty().push((Seq::<Datum>::empty(), true));
                        let sb = Seq::<(Seq<Datum>, bool)>::empty().push((Seq::<Datum>::empty(), false));
                        lemma_reader_outer_quoted(chars, terminated, next, after, sa, sb);
                    },
                    _ => {},
                }
            }
        },
    }
}

/// Reads the first datum of the input `chars` (after which the input ends where `terminated`,
/// and an element that is not a character follows otherwise), starting at `location`. On
/// success, gives the datum and the position, line and column where the rest starts.
pub fn read_internal(mem: &mut Memory, chars: &Vec<char>, terminated: bool, location: Location, keep: &[GcRef])
    -> (r: Result<(GcRef, usize, usize, usize), ReadError>)
    requires
        old(mem).wf(),
        room_for(location, chars@.len() as nat),
    ensures
        allocates(&*old(mem), &*final(mem)),
        keeps_all(&*old(mem), &*final(mem), keep@),
        match read_outcome(chars@, terminated, location) {
            Ok((d, next, line, column)) => (r matches Ok((x, n, l, c)) && represents(&*final(mem), x.ptr(), d)
                && final(mem).live(x.ptr()) && n == next && l == line && c == column),
            Err(f) => (r matches Err(e) && e@ == f),
        },
        r matches Ok((x, n, l, c)) ==> 1 <= n <= chars@.len(),
        r matches Err(ReadError::Error { next, .. }) ==> 1 <= next <= chars@.len(),
{
    let ghost m0 = *mem;
    let ghost target = read_outcome(chars@, terminated, location);
    let mut pool: Vec<GcRef> = Vec::new();
    let ghost mut pd: Seq<Datum> = Seq::empty();
    let mut levels: Vec<(usize, bool)> = Vec::new();
    let mut quoted = false;
    let mut pos: usize = 0;
    let mut loc = location;
    proof {
        m0.lemma_evolves_refl();
        assert(stack_of(pd, levels@) =~= Seq::<(Seq<Datum>, bool)>::empty());
        assert forall|q: int| 0 <= q < keep@.len() implies #[trigger] m0.keeps(&m0, keep@[q].ptr()) by {}
    }
    loop
        invariant
            m0.wf(),
            allocates(&m0, &*mem),
            pos <= chars@.len(),
            room_for(loc, (chars@.len() - pos) as nat),
            all_represent(&*mem, pool@, pd),
            levels_ok(levels@, pd.len()),
            target == reader(chars@, terminated, pos as nat, loc, stack_of(pd, levels@), quoted),
            target == read_outcome(chars@, terminated, location),
            *old(mem) == m0,
            keeps_all(&m0, &*mem, keep@),
        decreases chars@.len() - pos,
    {
        let ghost m1 = *mem;
        let ghost st = stack_of(pd, levels@);
        let t = next_token(chars, terminated, pos, &loc);
        let tr = match t {
            Err(ReadError::Nothing) => {
                if levels.len() > 0 {
                    return Err(ReadError::Incomplete);
                } else {
                    return Err(ReadError::Nothing);
                }
            },
            Err(e) => { return Err(e); },
            Ok(tr) => tr,
        };
        let TokenAndRest { value, location: tl, after, next, line, column } = tr;
        match value {
            TokenValue::Quote => {
                quoted = true;
                pos = next;
                loc = after;
            },
            TokenValue::OpenParen => {
                let n = pool.len();
                proof { lemma_stack_open(pd, levels@, quoted); }
                levels.push((n, quoted));
                quoted = false;
                pos = next;
                loc = after;
            },
            TokenValue::CloseParen => {
                if levels.len() == 0 {
                    return Err(ReadError::Error { msg: String::from_str("too many closing parentheses"), location: tl, next, line, column });
                }
                proof { lemma_stack_close(pd, levels@); }
                let (start, q) = levels.pop().unwrap();
                let ghost top = pd.subrange(start as int, pd.len() as int);
                let mut elems: Vec<GcRef> = Vec::new();
                let mut k: usize = start;
                while k < pool.len()
                    invariant
                        start <= k <= pool@.len(),
                        elems@.len() == k - start,
                        forall|j: int| 0 <= j < elems@.len() ==> #[trigger] elems@[j].ptr() == pool@[start + j].ptr(),
                    decreases pool@.len() - k,
                {
                    elems.push(pool[k].clone());
                    k = k + 1;
                }
                proof {
                    assert forall|j: int| 0 <= j < elems@.len() implies
                        represents(&*mem, #[trigger] elems@[j].ptr(), top[j]) && mem.live(elems@[j].ptr()) by {
                        assert(elems@[j].ptr() == pool@[start + j].ptr());
                        assert(top[j] == pd[start + j]);
                    }
                }
                let ghost pv = pool@;
                pool.truncate(start);
                proof {
                    pd = pd.subrange(0, start as int);
                    assert forall|i: int| 0 <= i < pool@.len() implies represents(&*mem, #[trigger] pool@[i].ptr(), pd[i]) && mem.live(pool@[i].ptr()) by {
                        assert(pool@[i] == pv[i]);
                    }
                }
                let ghost m2 = *mem;
                let all = with_extra(pool.as_slice(), keep);
                let list = make_list(mem, elems.as_slice(), Ghost(top), all.as_slice());
                let ghost m3 = *mem;
                proof {
                    lemma_keep_both(&m2, &m3, pool@, keep@, all@);
                    lemma_all_represent_kept(&m2, &m3, pool@, pd);
                }
                let all = with_extra(pool.as_slice(), keep);
                let item = if q {
                    quoted = false;
                    quote_it(mem, list, Ghost(Datum::List(top)), all.as_slice())
                } else {
                    list
                };
                let ghost item_d = quote_if(Datum::List(top), q);
                let ghost m4 = *mem;
                proof {
                    if q {
                        lemma_keep_both(&m3, &m4, pool@, keep@, all@);
                    } else {
                        lemma_keep_refl(&m3, pool@);
                        lemma_keep_refl(&m3, keep@);
                    }
                    lemma_all_represent_kept(&m3, &m4, pool@, pd);
                    lemma_allocates_trans(&m0, &m1, &m3);
                    lemma_allocates_trans(&m0, &m3, &m4);
                    lemma_keeps_all_trans(&m1, &m2, &m3, keep@);
                    lemma_keeps_all_trans(&m1, &m3, &m4, keep@);
                    lemma_keeps_all_trans(&m0, &m1, &m4, keep@);
                }
                if levels.len() > 0 {
                    proof { lemma_stack_push_datum(pd, levels@, item_d); }
                    let ghost pv = pool@;
                    pool.push(item);
                    proof {
                        pd = pd.push(item_d);
                        assert forall|i: int| 0 <= i < pool@.len() implies represents(&*mem, #[trigger] pool@[i].ptr(), pd[i]) && mem.live(pool@[i].ptr()) by {
                            if i < pool@.len() - 1 {
                                assert(pool@[i] == pv[i]);
                            }
                        }
                    }
                    pos = next;
                    loc = after;
                } else {
                    if quoted {
                        let all = with_extra(pool.as_slice(), keep);
                        let w = quote_it(mem, item, Ghost(item_d), all.as_slice());
                        proof {
                            lemma_allocates_trans(&m0, &m4, &*mem);
                            lemma_keep_both(&m4, &*mem, pool@, keep@, all@);
                            lemma_keeps_all_trans(&m0, &m4, &*mem, keep@);
                        }
                        return Ok((w, next, line, column));
                    }
                    return Ok((item, next, line, column));
                }
            },
            _ => {
                let ghost tok = value@;
                let ghost q0 = quoted;
                let ghost tl0 = tl;
                let all = with_extra(pool.as_slice(), keep);
                let x = make_atom(mem, value, tl, all.as_slice());
                let ghost m2 = *mem;
                proof {
                    lemma_keep_both(&m1, &m2, pool@, keep@, all@);
                    lemma_all_represent_kept(&m1, &m2, pool@, pd);
                }
                let y = if quoted {
                    quoted = false;
                    quote_it(mem, x, Ghost(Datum::Atom(tok, tl0)), all.as_slice())
                } else {
                    x
                };
                let ghost y_d = quote_if(Datum::Atom(tok, tl0), q0);
                let ghost m3 = *mem;
                proof {
                    if q0 {
                        lemma_keep_both(&m2, &m3, pool@, keep@, all@);
                    } else {
                        lemma_keep_refl(&m2, pool@);
                        lemma_keep_refl(&m2, keep@);
                    }
                    lemma_all_represent_kept(&m2, &m3, pool@, pd);
                    lemma_allocates_trans(&m0, &m1, &m2);
                    lemma_allocates_trans(&m0, &m2, &m3);
                    lemma_keeps_all_trans(&m1, &m2, &m3, keep@);
                    lemma_keeps_all_trans(&m0, &m1, &m3, keep@);
                }
                if levels.len() > 0 {
                    proof { lemma_stack_push_datum(pd, levels@, y_d); }
                    let ghost pv = pool@;
                    pool.push(y);
                    proof {
                        pd = pd.push(y_d);
                        assert forall|i: int| 0 <= i < pool@.len() implies represents(&*mem, #[trigger] pool@[i].ptr(), pd[i]) && mem.live(pool@[i].ptr()) by {
                            if i < pool@.len() - 1 {
                                assert(pool@[i] == pv[i]);
                            }
                        }
                    }
                    pos = next;
                    loc = after;
                } else {
                    return Ok((y, next, line, column));
                }
            },
        }
    }
}

// ---------------------------------------------------------------------------------------------
// The native function `read`
// ---------------------------------------------------------------------------------------------

/// The characters at the start of the list `p`, and whether the list ends after them (rather
/// than with an element that is not a character, or with something that is not a list).
pub open spec fn input_chars(mem: &Memory, p: Option<usize>) -> (Seq<char>, bool)
    decreases mem.prank(p),
{
    match mem.value_of(p) {
        None => (Seq::empty(), true),
        Some(PrimitiveValue::Cons(c)) => {
            if mem.prank(c.cdr) < mem.prank(p) {
                match mem.value_of(c.car) {
                    Some(PrimitiveValue::Character(ch)) => {
                        let (rest, t) = input_chars(mem, c.cdr);
                        (seq![ch] + rest, t)
                    },
                    _ => (Seq::empty(), false),
                }
            } else {
                (Seq::empty(), false)
            }
        },
        Some(_) => (Seq::empty(), false),
    }
}

/// The list after the first `k` cells of the list `p`.
pub open spec fn rest_at(mem: &Memory, p: Option<usize>, k: nat) -> Option<usize>
    decreases k,
{
    if k == 0 {
        p
    } else {
        match mem.value_of(p) {
            Some(PrimitiveValue::Cons(c)) => rest_at(mem, c.cdr, (k - 1) as nat),
            _ => None,
        }
    }
}

/// The characters at the start of the list `input`, the list after each of them, and whether
/// the list ends after them.
pub(crate) fn string_input(mem: &Memory, input: &GcRef) -> (r: (Vec<char>, Vec<GcRef>, bool))
    requires
        mem.wf(),
    ensures
        r.0@ == input_chars(mem, input.ptr()).0,
        r.2 == input_chars(mem, input.ptr()).1,
        r.1@.len() == r.0@.len(),
        forall|k: int| 0 <= k < r.1@.len() ==> #[trigger] r.1@[k].ptr() == rest_at(mem, input.ptr(), (k + 1) as nat),
        forall|k: int| 0 <= k < r.1@.len() ==> mem.live(#[trigger] r.1@[k].ptr()),
{
    let mut chars: Vec<char> = Vec::new();
    let mut rests: Vec<GcRef> = Vec::new();
    let mut cursor = input.clone();
    loop
        invariant
            mem.wf(),
            rests@.len() == chars@.len(),
            cursor.ptr() == rest_at(mem, input.ptr(), chars@.len() as nat),
            forall|k: int| 0 <= k < rests@.len() ==> #[trigger] rests@[k].ptr() == rest_at(mem, input.ptr(), (k + 1) as nat),
            forall|k: int| 0 <= k < rests@.len() ==> mem.live(#[trigger] rests@[k].ptr()),
            input_chars(mem, input.ptr()) == ({
                let (t, b) = input_chars(mem, cursor.ptr());
                (chars@ + t, b)
            }),
        decreases mem.prank(cursor.ptr()),
    {
        let ghost n = chars@.len();
        proof { lemma_rest_at_step(mem, input.ptr(), n); }
        let step = match cursor.get(mem) {
            None => None,
            Some(PrimitiveValue::Cons(c)) => {
                let car = mem.make_ref(c.car);
                match car.get(mem) {
                    Some(PrimitiveValue::Character(ch)) => Some((*ch, c.cdr)),
                    _ => { return (chars, rests, false); },
                }
            },
            Some(_) => { return (chars, rests, false); },
        };
        match step {
            None => {
                proof { assert(chars@ + Seq::<char>::empty() =~= chars@); }
                return (chars, rests, true);
            },
            Some((ch, cdr)) => {
                proof { lemma_cdr_younger(mem, cursor.ptr()); }
                let ghost old_chars = chars@;
                chars.push(ch);
                rests.push(mem.make_ref(cdr));
                cursor = mem.make_ref(cdr);
                proof {
                    assert(old_chars + (seq![ch] + input_chars(mem, cdr).0) =~= chars@ + input_chars(mem, cdr).0);
                }
            },
        }
    }
}

proof fn lemma_rest_at_step(mem: &Memory, p: Option<usize>, n: nat)
    ensures
        rest_at(mem, p, n + 1) == match mem.value_of(rest_at(mem, p, n)) {
            Some(PrimitiveValue::Cons(c)) => c.cdr,
            _ => None,
        },
    decreases n,
{
    if n > 0 {
        match mem.value_of(p) {
            Some(PrimitiveValue::Cons(c)) => {
                lemma_rest_at_step(mem, c.cdr, (n - 1) as nat);
                assert(rest_at(mem, p, n + 1) == rest_at(mem, c.cdr, n));
                assert(rest_at(mem, p, n) == rest_at(mem, c.cdr, (n - 1) as nat));
                assert(((n - 1) as nat) + 1 == n);
            },
            _ => {
                assert(rest_at(mem, p, n + 1) == None::<usize>);
                assert(rest_at(mem, p, n) == None::<usize>);
            },
        }
    } else {
        assert(rest_at(mem, p, 1) == match mem.value_of(p) {
            Some(PrimitiveValue::Cons(c)) => rest_at(mem, c.cdr, 0),
            _ => None,
        });
    }
}


/// `q` names the source of `loc`: the symbol `prelude` or `stdin`, or the path as a string.
pub open spec fn names_source(mem: &Memory, q: Option<usize>, loc: Location) -> bool {
    match loc {
        Location::Native => is_symbol_named(mem, q, "native"@),
        Location::Prelude { .. } => is_symbol_named(mem, q, "prelude"@),
        Location::Stdin { .. } => is_symbol_named(mem, q, "stdin"@),
        Location::File { path, .. } => string_of(mem, q) == Some(path@),
    }
}

/// `q` is the property list `(file F line L column C)` of the location `loc`.
pub open spec fn describes_location(mem: &Memory, q: Option<usize>, loc: Location) -> bool {
    let g = list_elems(mem, q)->0;
    &&& is_plist(mem, q, seq!["file"@, "line"@, "column"@], seq![g[1], g[3], g[5]])
    &&& names_source(mem, g[1], loc)
    &&& (loc.line_of() matches Some(l) ==> mem.value_of(g[3]) == Some(PrimitiveValue::Number(l as i64)))
    &&& (loc.column_of() matches Some(c) ==> mem.value_of(g[5]) == Some(PrimitiveValue::Number(c as i64)))
}

/// `p` is the property list that `read` answers with for `outcome`, the rest of the input
/// being taken from the list `input` of `old`.
pub open spec fn is_read_result(mem: &Memory, p: Option<usize>, outcome: ReadOutcome, old: &Memory, input: Option<usize>) -> bool {
    let e = list_elems(mem, p)->0;
    let status = |name: Seq<char>| is_plist(mem, p, seq!["status"@], seq![e[1]]) && is_symbol_named(mem, e[1], name);
    let rest_keys = seq!["status"@, "result"@, "rest"@, "line"@, "column"@];
    match outcome {
        Ok((d, next, line, column)) =>
            is_plist(mem, p, seq!["status"@, "result"@, "rest"@, "line"@, "column"@], seq![e[1], e[3], e[5], e[7], e[9]])
            && is_symbol_named(mem, e[1], "ok"@) && represents(mem, e[3], d) && e[5] == rest_at(old, input, next)
            && mem.value_of(e[7]) == Some(PrimitiveValue::Number(line as i64))
            && mem.value_of(e[9]) == Some(PrimitiveValue::Number(column as i64)),
        Err(Failure::Nothing) => status("nothing"@),
        Err(Failure::Incomplete) => status("incomplete"@),
        Err(Failure::InvalidString) => status("invalid"@),
        Err(Failure::Error { msg, location, next, line, column }) => {
            let f = list_elems(mem, e[3])->0;
            &&& is_plist(mem, p, seq!["status"@, "error"@, "rest"@, "line"@, "column"@], seq![e[1], e[3], e[5], e[7], e[9]])
            &&& is_symbol_named(mem, e[1], "error"@)
            &&& is_plist(mem, e[3], seq!["location"@, "message"@], seq![f[1], f[3]])
            &&& describes_location(mem, f[1], location)
            &&& string_of(mem, f[3]) == Some(msg)
            &&& e[5] == rest_at(old, input, next)
            &&& mem.value_of(e[7]) == Some(PrimitiveValue::Number(line as i64))
            &&& mem.value_of(e[9]) == Some(PrimitiveValue::Number(column as i64))
        },
    }
}


/// The values of `kv` are all live in `mem`.
pub open spec fn values_live(mem: &Memory, kv: Seq<(&str, GcRef)>) -> bool {
    forall|q: int| 0 <= q < kv.len() ==> mem.live(#[trigger] kv[q].1.ptr())
}

/// A property list of live values: its elements are the keys' symbols and the values themselves.
fn plist_of_live(mem: &mut Memory, kv: &[(&str, GcRef)]) -> (r: GcRef)
    requires
        old(mem).wf(),
        values_live(&*old(mem), kv@),
    ensures
        allocates(&*old(mem), &*final(mem)),
        keeps_all(&*old(mem), &*final(mem), kv_values(kv@)),
        is_plist(&*final(mem), r.ptr(), kv_keys(kv@), ptrs(kv_values(kv@))),
        list_elems(&*final(mem), r.ptr()) matches Some(e) && e.len() == 2 * kv@.len()
            && forall|q: int| 0 <= q < kv@.len() ==> e[2 * q + 1] == #[trigger] kv@[q].1.ptr(),
        final(mem).live(r.ptr()),
{
    let ghost m0 = *mem;
    let r = make_plist_keeping(mem, kv, &[]);
    proof {
        let v = kv_values(kv@);
        assert forall|q: int| 0 <= q < v.len() implies m0.live(#[trigger] v[q].ptr()) by {
            assert(v[q] == kv@[q].1);
        }
        lemma_sanitized_kept(&m0, &*mem, v);
        let e = list_elems(&*mem, r.ptr())->0;
        assert forall|q: int| 0 <= q < kv@.len() implies e[2 * q + 1] == #[trigger] kv@[q].1.ptr() by {
            assert(v[q] == kv@[q].1);
            assert(ptrs(v)[q] == v[q].ptr());
        }
    }
    r
}

/// The answer of `read` for a datum read: `(status ok result R rest S line L column C)`.
#[verifier::spinoff_prover]
fn answer_ok(mem: &mut Memory, result: GcRef, Ghost(d): Ghost<Datum>, rest: GcRef, line: usize, column: usize) -> (r: GcRef)
    requires
        old(mem).wf(),
        represents(&*old(mem), result.ptr(), d),
        old(mem).live(result.ptr()),
        old(mem).live(rest.ptr()),
    ensures
        allocates(&*old(mem), &*final(mem)),
        ({
            let e = list_elems(&*final(mem), r.ptr())->0;
            &&& is_plist(&*final(mem), r.ptr(), seq!["status"@, "result"@, "rest"@, "line"@, "column"@], seq![e[1], e[3], e[5], e[7], e[9]])
            &&& is_symbol_named(&*final(mem), e[1], "ok"@)
            &&& represents(&*final(mem), e[3], d)
            &&& e[5] == rest.ptr()
            &&& final(mem).value_of(e[7]) == Some(PrimitiveValue::Number(line as i64))
            &&& final(mem).value_of(e[9]) == Some(PrimitiveValue::Number(column as i64))
        }),
        old(mem).keeps(&*final(mem), rest.ptr()),
{
    let ghost m0 = *mem;
    let s = symbol(mem, "ok", &[result.clone(), rest.clone()]);
    let ghost m1 = *mem;
    let l = number(mem, line as i64, &[result.clone(), rest.clone(), s.clone()]);
    let ghost m2 = *mem;
    let c = number(mem, column as i64, &[result.clone(), rest.clone(), s.clone(), l.clone()]);
    let ghost m3 = *mem;
    proof {
        assert(m0.keeps(&m1, result.ptr()));
        assert(m0.keeps(&m1, rest.ptr()));
        assert(m1.keeps(&m2, result.ptr()));
        assert(m1.keeps(&m2, rest.ptr()));
        assert(m1.keeps(&m2, s.ptr()));
        assert(m2.keeps(&m3, result.ptr()));
        assert(m2.keeps(&m3, rest.ptr()));
        assert(m2.keeps(&m3, s.ptr()));
        assert(m2.keeps(&m3, l.ptr()));
        m0.lemma_unchanged_trans(&m1, &m2, result.ptr());
        m0.lemma_unchanged_trans(&m2, &m3, result.ptr());
        lemma_represents_unchanged(&m0, &m3, result.ptr(), d);
        m0.lemma_unchanged_trans(&m1, &m2, rest.ptr());
        m0.lemma_unchanged_trans(&m2, &m3, rest.ptr());
        m1.lemma_unchanged_trans(&m2, &m3, s.ptr());
        m1.lemma_value_unchanged(&m3, s.ptr());
        m2.lemma_value_unchanged(&m3, l.ptr());
        lemma_allocates_trans(&m0, &m1, &m2);
        lemma_allocates_trans(&m0, &m2, &m3);
    }
    let kv = [("status", s), ("result", result), ("rest", rest), ("line", l), ("column", c)];
    proof {
        assert forall|q: int| 0 <= q < kv@.len() implies m3.live(#[trigger] kv@[q].1.ptr()) by {}
    }
    let r = plist_of_live(mem, &kv);
    proof {
        let v = kv_values(kv@);
        lemma_allocates_trans(&m0, &m3, &*mem);
        assert(kv_keys(kv@) =~= seq!["status"@, "result"@, "rest"@, "line"@, "column"@]);
        let e = list_elems(&*mem, r.ptr())->0;
        assert(e[2 * 0int + 1] == kv@[0].1.ptr());
        assert(e[2 * 1int + 1] == kv@[1].1.ptr());
        assert(e[2 * 2int + 1] == kv@[2].1.ptr());
        assert(e[2 * 3int + 1] == kv@[3].1.ptr());
        assert(e[2 * 4int + 1] == kv@[4].1.ptr());
        assert(ptrs(v) =~= seq![e[1], e[3], e[5], e[7], e[9]]);
        assert(v[0] == kv@[0].1);
        assert(v[1] == kv@[1].1);
        assert(v[2] == kv@[2].1);
        assert(v[3] == kv@[3].1);
        assert(v[4] == kv@[4].1);
        assert(m3.keeps(&*mem, v[0].ptr()));
        assert(m3.keeps(&*mem, v[1].ptr()));
        assert(m3.keeps(&*mem, v[2].ptr()));
        assert(m3.keeps(&*mem, v[3].ptr()));
        assert(m3.keeps(&*mem, v[4].ptr()));
        m3.lemma_value_unchanged(&*mem, s.ptr());
        m3.lemma_value_unchanged(&*mem, l.ptr());
        m3.lemma_value_unchanged(&*mem, c.ptr());
        lemma_represents_unchanged(&m3, &*mem, result.ptr(), d);
        m0.lemma_unchanged_trans(&m3, &*mem, rest.ptr());
    }
    r
}


/// The answer of `read` that only has a status: `(status NAME)`.
fn answer_status(mem: &mut Memory, name: &str) -> (r: GcRef)
    requires
        old(mem).wf(),
    ensures
        allocates(&*old(mem), &*final(mem)),
        ({
            let e = list_elems(&*final(mem), r.ptr())->0;
            is_plist(&*final(mem), r.ptr(), seq!["status"@], seq![e[1]]) && is_symbol_named(&*final(mem), e[1], name@)
        }),
{
    let ghost m0 = *mem;
    let s = symbol(mem, name, &[]);
    let ghost m1 = *mem;
    let kv = [("status", s)];
    proof {
        assert forall|q: int| 0 <= q < kv@.len() implies m1.live(#[trigger] kv@[q].1.ptr()) by {}
    }
    let r = plist_of_live(mem, &kv);
    proof {
        let v = kv_values(kv@);
        lemma_allocates_trans(&m0, &m1, &*mem);
        assert(kv_keys(kv@) =~= seq!["status"@]);
        let e = list_elems(&*mem, r.ptr())->0;
        assert(e[2 * 0int + 1] == kv@[0].1.ptr());
        assert(v[0] == kv@[0].1);
        assert(ptrs(v) =~= seq![e[1]]);
        assert(m1.keeps(&*mem, v[0].ptr()));
        m1.lemma_value_unchanged(&*mem, s.ptr());
    }
    r
}

/// The property list `(file F line L column C)` of `loc`, keeping the cells of `keep` alive.
fn location_plist(mem: &mut Memory, loc: &Location, keep: &[GcRef]) -> (r: GcRef)
    requires
        old(mem).wf(),
    ensures
        allocates(&*old(mem), &*final(mem)),
        keeps_all(&*old(mem), &*final(mem), keep@),
        describes_location(&*final(mem), r.ptr(), *loc),
        final(mem).live(r.ptr()),
{
    let ghost m0 = *mem;
    let file = match loc {
        Location::Native => symbol(mem, "native", keep),
        Location::Prelude { .. } => symbol(mem, "prelude", keep),
        Location::Stdin { .. } => symbol(mem, "stdin", keep),
        Location::File { path, .. } => string_to_proper_list_keeping(mem, path.as_str(), keep),
    };
    let ghost m1 = *mem;
    let (line, column) = match loc {
        Location::Native => (None, None),
        Location::Prelude { line, column } => (Some(*line), Some(*column)),
        Location::Stdin { line, column } => (Some(*line), Some(*column)),
        Location::File { line, column, .. } => (Some(*line), Some(*column)),
    };
    let k1 = with_extra(keep, &[file.clone()]);
    let ln = match line { Some(l) => number(mem, l as i64, k1.as_slice()), None => GcRef::nil() };
    let ghost m2 = *mem;
    let k2 = with_extra(k1.as_slice(), &[ln.clone()]);
    let cn = match column { Some(c) => number(mem, c as i64, k2.as_slice()), None => GcRef::nil() };
    let ghost m3 = *mem;
    proof {
        if line is None { m1.lemma_evolves_refl(); assert forall|q: int| 0 <= q < k1@.len() implies #[trigger] m1.keeps(&m2, k1@[q].ptr()) by {} }
        if column is None { m2.lemma_evolves_refl(); assert forall|q: int| 0 <= q < k2@.len() implies #[trigger] m2.keeps(&m3, k2@[q].ptr()) by {} }
        lemma_keeps_sub(&m1, &m2, keep@, k1@, 0);
        lemma_keeps_sub(&m2, &m3, keep@, k2@, 0);
        let nk = keep@.len() as int;
        assert(k1@[0 + nk].ptr() == file.ptr());
        assert(k2@[nk].ptr() == file.ptr());
        assert(k2@[0 + k1@.len() as int].ptr() == ln.ptr());
        assert(m1.keeps(&m2, file.ptr()));
        assert(m2.keeps(&m3, file.ptr()));
        assert(m2.keeps(&m3, ln.ptr()));
        m1.lemma_unchanged_trans(&m2, &m3, file.ptr());
        lemma_allocates_trans(&m0, &m1, &m2);
        lemma_allocates_trans(&m0, &m2, &m3);
        lemma_keeps_all_trans(&m0, &m1, &m2, keep@);
        lemma_keeps_all_trans(&m0, &m2, &m3, keep@);
        m1.lemma_value_unchanged(&m3, file.ptr());
        lemma_same_file(&m1, &m3, file.ptr());
        m2.lemma_value_unchanged(&m3, ln.ptr());
    }
    let kv = [("file", file), ("line", ln), ("column", cn)];
    proof {
        assert forall|q: int| 0 <= q < kv@.len() implies m3.live(#[trigger] kv@[q].1.ptr()) by {}
    }
    let r = make_plist_keeping(mem, &kv, keep);
    proof {
        let v = kv_values(kv@);
        assert forall|q: int| 0 <= q < v.len() implies m3.live(#[trigger] v[q].ptr()) by {
            assert(v[q] == kv@[q].1);
        }
        lemma_sanitized_kept(&m3, &*mem, v);
        lemma_allocates_trans(&m0, &m3, &*mem);
        lemma_keeps_all_trans(&m0, &m3, &*mem, keep@);
        assert(kv_keys(kv@) =~= seq!["file"@, "line"@, "column"@]);
        let e = list_elems(&*mem, r.ptr())->0;
        assert(e[2 * 0int + 1] == sanitized(&m3, v)[0]);
        assert(e[2 * 1int + 1] == sanitized(&m3, v)[1]);
        assert(e[2 * 2int + 1] == sanitized(&m3, v)[2]);
        assert(v[0] == kv@[0].1);
        assert(v[1] == kv@[1].1);
        assert(v[2] == kv@[2].1);
        assert(ptrs(v) =~= seq![e[1], e[3], e[5]]);
        assert(m3.keeps(&*mem, v[0].ptr()));
        assert(m3.keeps(&*mem, v[1].ptr()));
        assert(m3.keeps(&*mem, v[2].ptr()));
        m3.lemma_value_unchanged(&*mem, file.ptr());
        lemma_same_file(&m3, &*mem, file.ptr());
        m3.lemma_value_unchanged(&*mem, ln.ptr());
        m3.lemma_value_unchanged(&*mem, cn.ptr());
    }
    r
}

/// The names a file is given by stay while its cell is unchanged.
proof fn lemma_same_file(old: &Memory, new: &Memory, p: Option<usize>)
    requires
        old.wf(),
        old.evolves(new),
        old.unchanged(new, p),
    ensures
        string_of(new, p) == string_of(old, p),
{
    lemma_string_unchanged(old, new, p);
}


/// The description `(location LOC message MSG)` of an error, keeping `rest` alive.
pub(crate) fn error_description(mem: &mut Memory, msg: &String, location: &Location, rest: &GcRef) -> (err: GcRef)
    requires
        old(mem).wf(),
    ensures
        allocates(&*old(mem), &*final(mem)),
        old(mem).keeps(&*final(mem), rest.ptr()),
        final(mem).live(err.ptr()),
        ({
            let f = list_elems(&*final(mem), err.ptr())->0;
            &&& is_plist(&*final(mem), err.ptr(), seq!["location"@, "message"@], seq![f[1], f[3]])
            &&& describes_location(&*final(mem), f[1], *location)
            &&& string_of(&*final(mem), f[3]) == Some(msg@)
        }),
{
    let ghost m0 = *mem;
    let m = crate::util::string_to_list_keeping(mem, msg.as_str(), &[rest.clone()]);
    let ghost m1 = *mem;
    let lp = location_plist(mem, location, &[rest.clone(), m.clone()]);
    let ghost m2 = *mem;
    proof {
        assert(m0.keeps(&m1, rest.ptr()));
        assert(m1.keeps(&m2, rest.ptr()));
        assert(m1.keeps(&m2, m.ptr()));
        if m0.live(rest.ptr()) {
            m0.lemma_unchanged_trans(&m1, &m2, rest.ptr());
        }
        lemma_same_file(&m1, &m2, m.ptr());
        lemma_allocates_trans(&m0, &m1, &m2);
    }
    let kv1 = [("location", lp), ("message", m)];
    proof {
        assert forall|q: int| 0 <= q < kv1@.len() implies m2.live(#[trigger] kv1@[q].1.ptr()) by {}
    }
    let ghost k1 = kv1@;
    let err = make_plist_keeping(mem, &kv1, &[rest.clone()]);
    proof {
        let m3 = *mem;
        let v = kv_values(k1);
        assert forall|q: int| 0 <= q < v.len() implies m2.live(#[trigger] v[q].ptr()) by {
            assert(v[q] == k1[q].1);
        }
        lemma_sanitized_kept(&m2, &m3, v);
        assert(v[0] == k1[0].1);
        assert(v[1] == k1[1].1);
        assert(m2.keeps(&m3, v[0].ptr()));
        assert(m2.keeps(&m3, v[1].ptr()));
        assert(m2.keeps(&m3, rest.ptr()));
        if m0.live(rest.ptr()) {
            m0.lemma_unchanged_trans(&m2, &m3, rest.ptr());
        }
        lemma_same_file(&m2, &m3, m.ptr());
        lemma_describes_unchanged(&m2, &m3, lp.ptr(), *location);
        lemma_allocates_trans(&m0, &m2, &m3);
        assert(kv_keys(k1) =~= seq!["location"@, "message"@]);
        let f = list_elems(&m3, err.ptr())->0;
        assert(f[2 * 0int + 1] == sanitized(&m2, v)[0]);
        assert(f[2 * 1int + 1] == sanitized(&m2, v)[1]);
        assert(ptrs(v) =~= seq![f[1], f[3]]);
    }
    err
}

/// The answer of `read` for an error:
/// `(status error error (location LOC message MSG) rest S line L column C)`.
#[verifier::spinoff_prover]
#[verifier::rlimit(40)]
fn answer_error(mem: &mut Memory, msg: &String, location: &Location, rest: GcRef, line: usize, column: usize) -> (r: GcRef)
    requires
        old(mem).wf(),
        old(mem).live(rest.ptr()),
    ensures
        allocates(&*old(mem), &*final(mem)),
        ({
            let e = list_elems(&*final(mem), r.ptr())->0;
            let f = list_elems(&*final(mem), e[3])->0;
            &&& is_plist(&*final(mem), r.ptr(), seq!["status"@, "error"@, "rest"@, "line"@, "column"@], seq![e[1], e[3], e[5], e[7], e[9]])
            &&& is_symbol_named(&*final(mem), e[1], "error"@)
            &&& is_plist(&*final(mem), e[3], seq!["location"@, "message"@], seq![f[1], f[3]])
            &&& describes_location(&*final(mem), f[1], *location)
            &&& string_of(&*final(mem), f[3]) == Some(msg@)
            &&& e[5] == rest.ptr()
            &&& final(mem).value_of(e[7]) == Some(PrimitiveValue::Number(line as i64))
            &&& final(mem).value_of(e[9]) == Some(PrimitiveValue::Number(column as i64))
        }),
{
    let ghost m0 = *mem;
    let err = error_description(mem, msg, location, &rest);
    let ghost m3 = *mem;
    let st = symbol(mem, "error", &[rest.clone(), err.clone()]);
    let ghost m4 = *mem;
    let ln = number(mem, line as i64, &[rest.clone(), err.clone(), st.clone()]);
    let ghost m5 = *mem;
    let cn = number(mem, column as i64, &[rest.clone(), err.clone(), st.clone(), ln.clone()]);
    let ghost m6 = *mem;
    proof {
        assert(m3.keeps(&m4, rest.ptr()));
        assert(m3.keeps(&m4, err.ptr()));
        assert(m4.keeps(&m5, rest.ptr()));
        assert(m4.keeps(&m5, err.ptr()));
        assert(m4.keeps(&m5, st.ptr()));
        assert(m5.keeps(&m6, rest.ptr()));
        assert(m5.keeps(&m6, err.ptr()));
        assert(m5.keeps(&m6, st.ptr()));
        assert(m5.keeps(&m6, ln.ptr()));
        m3.lemma_unchanged_trans(&m4, &m5, err.ptr());
        m3.lemma_unchanged_trans(&m5, &m6, err.ptr());
        m0.lemma_unchanged_trans(&m3, &m4, rest.ptr());
        m0.lemma_unchanged_trans(&m4, &m5, rest.ptr());
        m0.lemma_unchanged_trans(&m5, &m6, rest.ptr());
        m4.lemma_unchanged_trans(&m5, &m6, st.ptr());
        lemma_allocates_trans(&m3, &m4, &m5);
        lemma_allocates_trans(&m3, &m5, &m6);
        lemma_allocates_trans(&m0, &m3, &m6);
        lemma_error_unchanged(&m3, &m6, err.ptr(), msg@, *location);
        m4.lemma_value_unchanged(&m6, st.ptr());
        m5.lemma_value_unchanged(&m6, ln.ptr());
    }
    let kv = [("status", st), ("error", err), ("rest", rest), ("line", ln), ("column", cn)];
    proof {
        assert forall|q: int| 0 <= q < kv@.len() implies m6.live(#[trigger] kv@[q].1.ptr()) by {}
    }
    let ghost kk = kv@;
    let r = plist_of_live(mem, &kv);
    proof {
        let v = kv_values(kk);
        lemma_allocates_trans(&m0, &m6, &*mem);
        assert(kv_keys(kk) =~= seq!["status"@, "error"@, "rest"@, "line"@, "column"@]);
        let e = list_elems(&*mem, r.ptr())->0;
        assert(e[2 * 0int + 1] == kk[0].1.ptr());
        assert(e[2 * 1int + 1] == kk[1].1.ptr());
        assert(e[2 * 2int + 1] == kk[2].1.ptr());
        assert(e[2 * 3int + 1] == kk[3].1.ptr());
        assert(e[2 * 4int + 1] == kk[4].1.ptr());
        assert(v[0] == kk[0].1);
        assert(v[1] == kk[1].1);
        assert(v[2] == kk[2].1);
        assert(v[3] == kk[3].1);
        assert(v[4] == kk[4].1);
        assert(ptrs(v) =~= seq![e[1], e[3], e[5], e[7], e[9]]);
        assert(m6.keeps(&*mem, v[0].ptr()));
        assert(m6.keeps(&*mem, v[1].ptr()));
        assert(m6.keeps(&*mem, v[3].ptr()));
        assert(m6.keeps(&*mem, v[4].ptr()));
        m6.lemma_value_unchanged(&*mem, st.ptr());
        m6.lemma_value_unchanged(&*mem, ln.ptr());
        m6.lemma_value_unchanged(&*mem, cn.ptr());
        lemma_error_unchanged(&m6, &*mem, err.ptr(), msg@, *location);
    }
    r
}

/// A description of a location stays while its cell is unchanged.
proof fn lemma_describes_unchanged(old: &Memory, new: &Memory, p: Option<usize>, loc: Location)
    requires
        old.wf(),
        old.evolves(new),
        old.unchanged(new, p),
        describes_location(old, p, loc),
    ensures
        describes_location(new, p, loc),
{
    lemma_list_unchanged(old, new, p);
    lemma_elems_unchanged(old, new, p);
    let g = list_elems(old, p)->0;
    assert(old.unchanged(new, g[0]));
    assert(old.unchanged(new, g[1]));
    assert(old.unchanged(new, g[2]));
    assert(old.unchanged(new, g[3]));
    assert(old.unchanged(new, g[4]));
    assert(old.unchanged(new, g[5]));
    old.lemma_value_unchanged(new, g[0]);
    old.lemma_value_unchanged(new, g[1]);
    old.lemma_value_unchanged(new, g[2]);
    old.lemma_value_unchanged(new, g[3]);
    old.lemma_value_unchanged(new, g[4]);
    old.lemma_value_unchanged(new, g[5]);
    lemma_string_unchanged(old, new, g[1]);
    assert(is_plist(old, p, seq!["file"@, "line"@, "column"@], seq![g[1], g[3], g[5]]));
    assert(is_plist(new, p, seq!["file"@, "line"@, "column"@], seq![g[1], g[3], g[5]])) by {
        assert(is_symbol_named(old, g[2 * 0int], "file"@));
        assert(is_symbol_named(old, g[2 * 1int], "line"@));
        assert(is_symbol_named(old, g[2 * 2int], "column"@));
    }
}

/// The error description `(location LOC message MSG)` stays while its cell is unchanged.
pub(crate) proof fn lemma_error_unchanged(old: &Memory, new: &Memory, p: Option<usize>, msg: Seq<char>, loc: Location)
    requires
        old.wf(),
        old.evolves(new),
        old.unchanged(new, p),
        ({
            let f = list_elems(old, p)->0;
            &&& is_plist(old, p, seq!["location"@, "message"@], seq![f[1], f[3]])
            &&& describes_location(old, f[1], loc)
            &&& string_of(old, f[3]) == Some(msg)
        }),
    ensures
        ({
            let f = list_elems(new, p)->0;
            &&& is_plist(new, p, seq!["location"@, "message"@], seq![f[1], f[3]])
            &&& describes_location(new, f[1], loc)
            &&& string_of(new, f[3]) == Some(msg)
        }),
{
    lemma_list_unchanged(old, new, p);
    lemma_elems_unchanged(old, new, p);
    let f = list_elems(old, p)->0;
    assert(old.unchanged(new, f[0]));
    assert(old.unchanged(new, f[1]));
    assert(old.unchanged(new, f[2]));
    assert(old.unchanged(new, f[3]));
    old.lemma_value_unchanged(new, f[0]);
    old.lemma_value_unchanged(new, f[2]);
    lemma_describes_unchanged(old, new, f[1], loc);
    lemma_string_unchanged(old, new, f[3]);
    assert(is_symbol_named(old, f[2 * 0int], "location"@));
    assert(is_symbol_named(old, f[2 * 1int], "message"@));
}


/// `e` is the error `kind` from `read` with the details `expected` and `actual`, the two
/// values of which are `x` and `y`.
pub open spec fn is_read_error2(mem: &Memory, e: Option<usize>, kind: Seq<char>, x: Option<usize>, y: Option<usize>) -> bool {
    let l = list_elems(mem, e)->0;
    &&& is_error(mem, e, kind, "read"@, seq!["expected"@, "actual"@], seq![l[5], l[7]])
    &&& l[5] == x
    &&& l[7] == y
}

/// An error of `read` with two details, `expected` and `actual`, whose values are live.
fn read_error2(mem: &mut Memory, kind: &str, x: GcRef, y: GcRef) -> (r: GcRef)
    requires
        old(mem).wf(),
        old(mem).live(x.ptr()),
        old(mem).live(y.ptr()),
    ensures
        allocates(&*old(mem), &*final(mem)),
        is_read_error2(&*final(mem), r.ptr(), kind@, x.ptr(), y.ptr()),
        old(mem).keeps(&*final(mem), x.ptr()),
        old(mem).keeps(&*final(mem), y.ptr()),
{
    let ghost m0 = *mem;
    let details = [("expected", x), ("actual", y)];
    let ghost dd = details@;
    let r = make_error(mem, kind, "read", &details);
    proof {
        let dv = kv_values(dd);
        assert(dv[0] == dd[0].1);
        assert(dv[1] == dd[1].1);
        assert(m0.keeps(&*mem, dv[0].ptr()));
        assert(m0.keeps(&*mem, dv[1].ptr()));
        assert(kv_keys(dd) =~= seq!["expected"@, "actual"@]);
        assert(sanitized(&m0, dv) =~= seq![x.ptr(), y.ptr()]);
        let l = list_elems(&*mem, r.ptr())->0;
        let vals = seq![l[1], l[3]] + sanitized(&m0, dv);
        assert(l[2 * 2int + 1] == vals[2]);
        assert(l[2 * 3int + 1] == vals[3]);
    }
    r
}

/// The error for a wrong number of arguments to `read`: it expects `(or 1 4)` of them.
fn read_arity_error(mem: &mut Memory, actual: usize) -> (r: GcRef)
    requires
        old(mem).wf(),
    ensures
        allocates(&*old(mem), &*final(mem)),
        ({
            let l = list_elems(&*final(mem), r.ptr())->0;
            let o = list_elems(&*final(mem), l[5])->0;
            &&& is_read_error2(&*final(mem), r.ptr(), "wrong-number-of-arguments"@, l[5], l[7])
            &&& fits(&*final(mem), l[7], actual)
            &&& list_elems(&*final(mem), l[5]) is Some && o.len() == 3
            &&& is_symbol_named(&*final(mem), o[0], "or"@)
            &&& final(mem).value_of(o[1]) == Some(PrimitiveValue::Number(1))
            &&& final(mem).value_of(o[2]) == Some(PrimitiveValue::Number(4))
        }),
{
    let ghost m0 = *mem;
    let or = symbol(mem, "or", &[]);
    let ghost m1 = *mem;
    let one = number(mem, 1, &[or.clone()]);
    let ghost m2 = *mem;
    let four = number(mem, 4, &[or.clone(), one.clone()]);
    let ghost m3 = *mem;
    proof {
        assert(m1.keeps(&m2, or.ptr()));
        assert(m2.keeps(&m3, or.ptr()));
        assert(m2.keeps(&m3, one.ptr()));
        m1.lemma_unchanged_trans(&m2, &m3, or.ptr());
        m1.lemma_value_unchanged(&m3, or.ptr());
        m2.lemma_value_unchanged(&m3, one.ptr());
        lemma_allocates_trans(&m0, &m1, &m2);
        lemma_allocates_trans(&m0, &m2, &m3);
    }
    let items = [or, one, four];
    let ghost it = items@;
    let lst = vec_to_list_keeping(mem, &items, &[]);
    let ghost m4 = *mem;
    proof {
        assert(sanitized(&m3, it) =~= seq![it[0].ptr(), it[1].ptr(), it[2].ptr()]);
        assert(m3.keeps(&m4, it[0].ptr()));
        assert(m3.keeps(&m4, it[1].ptr()));
        assert(m3.keeps(&m4, it[2].ptr()));
        m3.lemma_value_unchanged(&m4, it[0].ptr());
        m3.lemma_value_unchanged(&m4, it[1].ptr());
        m3.lemma_value_unchanged(&m4, it[2].ptr());
        lemma_allocates_trans(&m0, &m3, &m4);
    }
    let act = fit_to_number(mem, actual, &[lst.clone()]);
    let ghost m5 = *mem;
    proof {
        assert(m4.keeps(&m5, lst.ptr()));
        lemma_list_unchanged(&m4, &m5, lst.ptr());
        lemma_elems_unchanged(&m4, &m5, lst.ptr());
        let o = list_elems(&m4, lst.ptr())->0;
        m4.lemma_value_unchanged(&m5, o[0]);
        m4.lemma_value_unchanged(&m5, o[1]);
        m4.lemma_value_unchanged(&m5, o[2]);
        lemma_allocates_trans(&m0, &m4, &m5);
    }
    let r = read_error2(mem, "wrong-number-of-arguments", lst, act);
    proof {
        let m6 = *mem;
        lemma_allocates_trans(&m0, &m5, &m6);
        lemma_list_unchanged(&m5, &m6, lst.ptr());
        lemma_elems_unchanged(&m5, &m6, lst.ptr());
        let o = list_elems(&m5, lst.ptr())->0;
        m5.lemma_value_unchanged(&m6, o[0]);
        m5.lemma_value_unchanged(&m6, o[1]);
        m5.lemma_value_unchanged(&m6, o[2]);
        m5.lemma_value_unchanged(&m6, act.ptr());
        if !((actual as u64) <= 9223372036854775807u64) {
        }
    }
    r
}

/// The error for an argument of `read` that should be a number and is not.
fn read_number_expected(mem: &mut Memory, arg: &GcRef) -> (r: GcRef)
    requires
        old(mem).wf(),
    ensures
        allocates(&*old(mem), &*final(mem)),
        ({
            let l = list_elems(&*final(mem), r.ptr())->0;
            &&& is_read_error2(&*final(mem), r.ptr(), "wrong-argument-type"@, l[5], l[7])
            &&& is_symbol_named(&*final(mem), l[5], "number"@)
            &&& is_symbol_named(&*final(mem), l[7], type_of_name(&*old(mem), arg.ptr()))
        }),
{
    let ghost m0 = *mem;
    let t = type_of_str(mem, arg);
    let num = symbol(mem, "number", &[]);
    let ghost m1 = *mem;
    let act = symbol(mem, t, &[num.clone()]);
    let ghost m2 = *mem;
    proof {
        assert(m1.keeps(&m2, num.ptr()));
        m1.lemma_value_unchanged(&m2, num.ptr());
        lemma_allocates_trans(&m0, &m1, &m2);
    }
    let r = read_error2(mem, "wrong-argument-type", num, act);
    proof {
        m2.lemma_value_unchanged(&*mem, num.ptr());
        m2.lemma_value_unchanged(&*mem, act.ptr());
        lemma_allocates_trans(&m0, &m2, &*mem);
    }
    r
}


/// `loc` is the location `read` reads from when its source argument is `src`, with the given
/// first line and column: a file for a string, else the prelude or the standard input.
pub open spec fn source_location(mem: &Memory, src: Option<usize>, line: usize, column: usize, loc: Location) -> bool {
    if string_of(mem, src) is Some {
        loc matches Location::File { path, line: l, column: c } && path@ == string_of(mem, src)->0 && l == line && c == column
    } else if is_symbol_named(mem, src, "prelude"@) {
        loc == (Location::Prelude { line, column })
    } else if is_symbol_named(mem, src, "stdin"@) {
        loc == (Location::Stdin { line, column })
    } else {
        false
    }
}

/// `src` names a source `read` knows.
pub open spec fn source_known(mem: &Memory, src: Option<usize>) -> bool {
    string_of(mem, src) is Some || is_symbol_named(mem, src, "prelude"@) || is_symbol_named(mem, src, "stdin"@)
}

/// The column before the first one: the column argument counts from 1, the reader from 0.
pub open spec fn column_before(c: i64) -> usize {
    if c as usize == 0 { usize::MAX } else { (c as usize - 1) as usize }
}

/// `read` on the input `input` from `loc`: the answer, or an error where the line or the column
/// could overflow while reading.
pub open spec fn reads(old: &Memory, new: &Memory, input: Option<usize>, loc: Location, r: Result<GcRef, GcRef>) -> bool {
    let (chars, terminated) = input_chars(old, input);
    if room_for(loc, chars.len()) {
        r matches Ok(p) && is_read_result(new, p.ptr(), read_outcome(chars, terminated, loc), old, input)
    } else {
        r matches Err(e) && is_error(new, e.ptr(), "position-overflow"@, "read"@, Seq::empty(), Seq::empty())
    }
}

/// Reading `n` characters from `loc` can count lines and columns without overflow.
pub fn has_room(loc: &Location, n: usize) -> (b: bool)
    requires
        loc.line_of() is Some,
        loc.column_of() is Some,
    ensures
        b == room_for(*loc, n as nat),
{
    let l = loc.get_line().unwrap();
    let c = loc.get_column().unwrap();
    l < usize::MAX - 1 && n < usize::MAX - 1 - l && c < usize::MAX - 1 && n < usize::MAX - 1 - c
}

/// `read` on the input `input` from `location`.
fn read_from(mem: &mut Memory, input: &GcRef, location: Location) -> (r: Result<GcRef, GcRef>)
    requires
        old(mem).wf(),
        location.line_of() is Some,
        location.column_of() is Some,
    ensures
        allocates(&*old(mem), &*final(mem)),
        reads(&*old(mem), &*final(mem), input.ptr(), location, r),
{
    let ghost m0 = *mem;
    let ghost loc0 = location;
    let (chars, rests, terminated) = string_input(mem, input);
    if !has_room(&location, chars.len()) {
        let e = make_error(mem, "position-overflow", "read", &[]);
        proof {
            assert(kv_keys(Seq::<(&str, GcRef)>::empty()) =~= Seq::empty());
            assert(sanitized(&m0, kv_values(Seq::<(&str, GcRef)>::empty())) =~= Seq::empty());
        }
        return Err(e);
    }
    let outcome = read_internal(mem, &chars, terminated, location, rests.as_slice());
    let ghost m1 = *mem;
    let ghost expected = read_outcome(chars@, terminated, loc0);
    proof {
        lemma_sanitized_kept(&m0, &m1, rests@);
    }
    let answer = match outcome {
        Ok((x, n, l, c)) => {
            let ghost d = expected->Ok_0.0;
            let rest = rests[n - 1].clone();
            proof {
                assert(m0.keeps(&m1, rests@[n - 1].ptr()));
            }
            answer_ok(mem, x, Ghost(d), rest, l, c)
        },
        Err(ReadError::Nothing) => answer_status(mem, "nothing"),
        Err(ReadError::Incomplete) => answer_status(mem, "incomplete"),
        Err(ReadError::InvalidString) => answer_status(mem, "invalid"),
        Err(ReadError::Error { msg, location, next, line, column }) => {
            let rest = rests[next - 1].clone();
            proof {
                assert(m0.keeps(&m1, rests@[next - 1].ptr()));
            }
            answer_error(mem, &msg, &location, rest, line, column)
        },
    };
    proof {
        lemma_allocates_trans(&m0, &m1, &*mem);
    }
    Ok(answer)
}

/// The location that the last three arguments of a four-argument `read` give, or the error
/// about them.
fn read_location(mem: &mut Memory, args: &[GcRef]) -> (r: Result<Location, GcRef>)
    requires
        old(mem).wf(),
        args@.len() == 4,
    ensures
        allocates(&*old(mem), &*final(mem)),
        r matches Ok(loc) ==> *final(mem) == *old(mem) && loc.line_of() is Some && loc.column_of() is Some,
        match (old(mem).value_of(args@[2].ptr()), old(mem).value_of(args@[3].ptr())) {
            (Some(PrimitiveValue::Number(line)), Some(PrimitiveValue::Number(column))) => if source_known(&*old(mem), args@[1].ptr()) {
                r matches Ok(loc) && source_location(&*old(mem), args@[1].ptr(), line as usize, column_before(column), loc)
            } else {
                r matches Err(e) && is_error(&*final(mem), e.ptr(), "unknown-read-source"@, "read"@, seq!["the-unknown-source"@],
                    seq![if old(mem).live(args@[1].ptr()) { args@[1].ptr() } else { None }])
            },
            (Some(PrimitiveValue::Number(_)), _) => (r matches Err(e) && ({
                let l = list_elems(&*final(mem), e.ptr())->0;
                &&& is_read_error2(&*final(mem), e.ptr(), "wrong-argument-type"@, l[5], l[7])
                &&& is_symbol_named(&*final(mem), l[5], "number"@)
                &&& is_symbol_named(&*final(mem), l[7], type_of_name(&*old(mem), args@[3].ptr()))
            })),
            _ => (r matches Err(e) && ({
                let l = list_elems(&*final(mem), e.ptr())->0;
                &&& is_read_error2(&*final(mem), e.ptr(), "wrong-argument-type"@, l[5], l[7])
                &&& is_symbol_named(&*final(mem), l[5], "number"@)
                &&& is_symbol_named(&*final(mem), l[7], type_of_name(&*old(mem), args@[2].ptr()))
            })),
        },
{
    let ghost m0 = *mem;
    let line = match args[2].get(mem) {
        Some(PrimitiveValue::Number(x)) => *x as usize,
        _ => { return Err(read_number_expected(mem, &args[2])); },
    };
    let column = match args[3].get(mem) {
        Some(PrimitiveValue::Number(x)) => {
            let c = *x as usize;
            if c == 0 { usize::MAX } else { c - 1 }
        },
        _ => { return Err(read_number_expected(mem, &args[3])); },
    };
    proof { m0.lemma_evolves_refl(); }
    read_source(mem, &args[1], line, column)
}

/// The location at `line` and `column` of the source `source`: a file where it is a string,
/// the prelude or the standard input where it is the symbol `prelude` or `stdin`; otherwise the
/// error about it.
pub(crate) fn read_source(mem: &mut Memory, source: &GcRef, line: usize, column: usize) -> (r: Result<Location, GcRef>)
    requires
        old(mem).wf(),
    ensures
        allocates(&*old(mem), &*final(mem)),
        r matches Ok(loc) ==> *final(mem) == *old(mem) && loc.line_of() is Some && loc.column_of() is Some,
        source_known(&*old(mem), source.ptr()) ==> (r matches Ok(loc)
            && source_location(&*old(mem), source.ptr(), line, column, loc)),
        !source_known(&*old(mem), source.ptr()) ==> (r matches Err(e)
            && is_error(&*final(mem), e.ptr(), "unknown-read-source"@, "read"@, seq!["the-unknown-source"@],
                seq![if old(mem).live(source.ptr()) { source.ptr() } else { None }])),
{
    let ghost m0 = *mem;
    proof { m0.lemma_evolves_refl(); }
    match list_to_string(mem, source.clone()) {
        Some(path) => Ok(Location::File { path, line, column }),
        None => {
            if symbol_is_named(mem, source, "prelude") {
                Ok(Location::Prelude { line, column })
            } else if symbol_is_named(mem, source, "stdin") {
                Ok(Location::Stdin { line, column })
            } else {
                let details = [("the-unknown-source", source.clone())];
                let ghost dd = details@;
                let e = make_error(mem, "unknown-read-source", "read", &details);
                proof {
                    assert(kv_keys(dd) =~= seq!["the-unknown-source"@]);
                    assert(sanitized(&m0, kv_values(dd)) =~= seq![if m0.live(source.ptr()) { source.ptr() } else { None }]);
                }
                Err(e)
            }
        },
    }
}


/// What `read` gives for `args`, from the heap `old` to the heap `new`.
pub open spec fn read_call_outcome(old: &Memory, new: &Memory, args: Seq<GcRef>, env: GcRef, recursion_depth: usize,
    r: Result<GcRef, GcRef>) -> bool
{
    &&& (allocates(old, new))
    &&& (recursion_depth > config::MAX_RECURSION_DEPTH ==>
                (r matches Err(e) && is_error(new, e.ptr(), "stackoverflow"@, "read"@, Seq::empty(), Seq::empty())))
    &&& (recursion_depth <= config::MAX_RECURSION_DEPTH && args.len() != 1 && args.len() != 4 ==> (r matches Err(e) && ({
                let l = list_elems(new, e.ptr())->0;
                let o = list_elems(new, l[5])->0;
                &&& is_read_error2(new, e.ptr(), "wrong-number-of-arguments"@, l[5], l[7])
                &&& fits(new, l[7], args.len() as usize)
                &&& list_elems(new, l[5]) is Some && o.len() == 3
                &&& is_symbol_named(new, o[0], "or"@)
                &&& new.value_of(o[1]) == Some(PrimitiveValue::Number(1))
                &&& new.value_of(o[2]) == Some(PrimitiveValue::Number(4))
            })))
    &&& (recursion_depth <= config::MAX_RECURSION_DEPTH && args.len() == 1 ==>
                reads(old, new, args[0].ptr(), Location::Stdin { line: 1, column: 0 }, r))
    &&& (recursion_depth <= config::MAX_RECURSION_DEPTH && args.len() == 4 ==> match (old.value_of(args[2].ptr()), old.value_of(args[3].ptr())) {
                (Some(PrimitiveValue::Number(line)), Some(PrimitiveValue::Number(column))) => if source_known(old, args[1].ptr()) {
                    exists|loc: Location| #[trigger] source_location(old, args[1].ptr(), line as usize, column_before(column), loc)
                        && reads(old, new, args[0].ptr(), loc, r)
                } else {
                    r matches Err(e) && is_error(new, e.ptr(), "unknown-read-source"@, "read"@, seq!["the-unknown-source"@],
                        seq![if old.live(args[1].ptr()) { args[1].ptr() } else { None }])
                },
                (Some(PrimitiveValue::Number(_)), _) => (r matches Err(e) && ({
                    let l = list_elems(new, e.ptr())->0;
                    &&& is_read_error2(new, e.ptr(), "wrong-argument-type"@, l[5], l[7])
                    &&& is_symbol_named(new, l[5], "number"@)
                    &&& is_symbol_named(new, l[7], type_of_name(old, args[3].ptr()))
                })),
                _ => (r matches Err(e) && ({
                    let l = list_elems(new, e.ptr())->0;
                    &&& is_read_error2(new, e.ptr(), "wrong-argument-type"@, l[5], l[7])
                    &&& is_symbol_named(new, l[5], "number"@)
                    &&& is_symbol_named(new, l[7], type_of_name(old, args[2].ptr()))
                })),
            })
}

/// The first datum of the string `input`.
///
/// With one argument the input comes from the standard input, line 1. With four, the others
/// give the source (`prelude`, `stdin` or a file path), the first line and the first column.
/// The answer is a property list: `status` is `ok` (then `result`, `rest`, `line`, `column`),
/// `nothing`, `incomplete`, `invalid`, or `error` (then `error`, `rest`, `line`, `column`).
pub fn read(mem: &mut Memory, args: &[GcRef], env: GcRef, recursion_depth: usize) -> (r: Result<GcRef, GcRef>)
    requires
        old(mem).wf(),
    ensures
        read_call_outcome(&*old(mem), &*final(mem), args@, env, recursion_depth, r),
{
    if recursion_depth > config::MAX_RECURSION_DEPTH {
        let ghost m0 = *mem;
        let e = make_error(mem, "stackoverflow", "read", &[]);
        proof {
            assert(kv_keys(Seq::<(&str, GcRef)>::empty()) =~= Seq::empty());
            assert(sanitized(&m0, kv_values(Seq::<(&str, GcRef)>::empty())) =~= Seq::empty());
        }
        return Err(e);
    }
    if args.len() != 1 && args.len() != 4 {
        return Err(read_arity_error(mem, args.len()));
    }
    if args.len() == 1 {
        return read_from(mem, &args[0], Location::Stdin { line: 1, column: 0 });
    }
    let ghost m0 = *mem;
    match read_location(mem, args) {
        Err(e) => Err(e),
        Ok(location) => {
            let ghost loc0 = location;
            let r = read_from(mem, &args[0], location);
            proof {
                assert(source_location(&m0, args@[1].ptr(), loc0.line_of()->0, loc0.column_of()->0, loc0));
            }
            r
        },
    }
}

} // verus!
