use vstd::prelude::*;
use vstd::string::*;
use crate::token::{Token, TokenType, TokenView};

verus! {

/// A problem found while scanning; scanning goes on after it.
#[derive(Clone, Copy, Debug, PartialEq, Eq, Structural)]
pub enum ScanError {
    /// A character that starts no token, and the line it stands on.
    UnexpectedCharacter { ch: char, line: usize },
    /// The input ended inside a string literal that began on `line`.
    UnterminatedString { line: usize },
}

impl ScanError {
    /// The line that the error is reported on.
    pub fn line(&self) -> (r: usize)
        ensures
            r == match *self {
                ScanError::UnexpectedCharacter { line, .. } => line,
                ScanError::UnterminatedString { line } => line,
            },
    {
        match self {
            ScanError::UnexpectedCharacter { line, .. } => *line,
            ScanError::UnterminatedString { line } => *line,
        }
    }

    /// The diagnostic text of the error.
    pub fn message(&self) -> (r: &'static str)
        ensures
            r@ == match *self {
                ScanError::UnexpectedCharacter { .. } => "Unexpected character."@,
                ScanError::UnterminatedString { .. } => "Unterminated string."@,
            },
    {
        match self {
            ScanError::UnexpectedCharacter { .. } => "Unexpected character.",
            ScanError::UnterminatedString { .. } => "Unterminated string.",
        }
    }
}

/// The token kind of a one-character punctuation mark.
pub open spec fn single_char_kind(c: char) -> Option<TokenType> {
    if c == '(' {
        Some(TokenType::LeftParen)
    } else if c == ')' {
        Some(TokenType::RightParen)
    } else if c == '{' {
        Some(TokenType::LeftBrace)
    } else if c == '}' {
        Some(TokenType::RightBrace)
    } else if c == ',' {
        Some(TokenType::Comma)
    } else if c == '.' {
        Some(TokenType::Dot)
    } else if c == '-' {
        Some(TokenType::Minus)
    } else if c == '+' {
        Some(TokenType::Plus)
    } else if c == ';' {
        Some(TokenType::Semicolon)
    } else if c == '*' {
        Some(TokenType::Star)
    } else {
        None
    }
}

/// For a character that may be followed by `=`, the kind of the token alone
/// and the kind of the token with `=`.
pub open spec fn operator_kinds(c: char) -> Option<(TokenType, TokenType)> {
    if c == '!' {
        Some((TokenType::Bang, TokenType::BangEqual))
    } else if c == '=' {
        Some((TokenType::Equal, TokenType::EqualEqual))
    } else if c == '<' {
        Some((TokenType::Less, TokenType::LessEqual))
    } else if c == '>' {
        Some((TokenType::Greater, TokenType::GreaterEqual))
    } else {
        None
    }
}

/// The first index at or after `from` that holds `c`, or the length of `src`.
pub open spec fn index_of_from(src: Seq<char>, from: int, c: char) -> int
    decreases src.len() - from,
{
    if 0 <= from < src.len() {
        if src[from] == c {
            from
        } else {
            index_of_from(src, from + 1, c)
        }
    } else {
        src.len() as int
    }
}

/// The number of newlines in `src[a..b]`.
pub open spec fn newlines_in(src: Seq<char>, a: int, b: int) -> nat
    decreases b - a,
{
    if a < b {
        newlines_in(src, a, b - 1) + if src[b - 1] == '\n' {
            1nat
        } else {
            0nat
        }
    } else {
        0
    }
}

/// The token of kind `kind` made of `src[start..end]`, on `line`.
pub open spec fn token_of(src: Seq<char>, kind: TokenType, start: int, end: int, line: int) -> TokenView {
    TokenView {
        kind,
        lexeme: src.subrange(start, end),
        literal: if kind == TokenType::Str {
            Some(src.subrange(start + 1, end - 1))
        } else {
            None
        },
        line: line as nat,
    }
}

/// The end-of-input token on `line`.
pub open spec fn eof_token(line: int) -> TokenView {
    TokenView { kind: TokenType::Eof, lexeme: Seq::empty(), literal: None, line: line as nat }
}

/// What one scanning step yields: at most one token, at most one error, the
/// position where the next step starts and the line count there.
pub struct Step {
    pub token: Option<TokenView>,
    pub error: Option<ScanError>,
    pub end: int,
    pub line: int,
}

/// A step that yields the token `src[start..end]` and goes on at `end`.
pub open spec fn emit(src: Seq<char>, kind: TokenType, start: int, end: int, line: int) -> Step {
    Step { token: Some(token_of(src, kind, start, end, line)), error: None, end, line }
}

/// A step that yields nothing and goes on at `end`.
pub open spec fn skip(end: int, line: int) -> Step {
    Step { token: None, error: None, end, line }
}

/// One scanning step from position `pos` of `src`, with `line` the line count there.
pub open spec fn step(src: Seq<char>, pos: int, line: int) -> Step {
    let c = src[pos];
    let next_is_eq = pos + 1 < src.len() && src[pos + 1] == '=';
    if single_char_kind(c) is Some {
        emit(src, single_char_kind(c)->Some_0, pos, pos + 1, line)
    } else if operator_kinds(c) is Some {
        let (alone, with_eq) = operator_kinds(c)->Some_0;
        if next_is_eq {
            emit(src, with_eq, pos, pos + 2, line)
        } else {
            emit(src, alone, pos, pos + 1, line)
        }
    } else if c == '/' {
        if pos + 1 < src.len() && src[pos + 1] == '/' {
            skip(index_of_from(src, pos + 2, '\n'), line)
        } else {
            emit(src, TokenType::Slash, pos, pos + 1, line)
        }
    } else if c == ' ' || c == '\r' || c == '\t' {
        skip(pos + 1, line)
    } else if c == '\n' {
        skip(pos + 1, line + 1)
    } else if c == '"' {
        let close = index_of_from(src, pos + 1, '"');
        let end_line = line + newlines_in(src, pos + 1, close);
        if close < src.len() {
            Step {
                token: Some(token_of(src, TokenType::Str, pos, close + 1, line)),
                error: None,
                end: close + 1,
                line: end_line,
            }
        } else {
            Step {
                token: None,
                error: Some(ScanError::UnterminatedString { line: line as usize }),
                end: close,
                line: end_line,
            }
        }
    } else {
        Step {
            token: None,
            error: Some(ScanError::UnexpectedCharacter { ch: c, line: line as usize }),
            end: pos + 1,
            line,
        }
    }
}

/// The value of `o` as a sequence of zero or one elements.
pub open spec fn opt_seq<T>(o: Option<T>) -> Seq<T> {
    match o {
        Some(x) => seq![x],
        None => Seq::empty(),
    }
}

/// What scanning from a position to the end of the input yields.
pub struct ScanOutcome {
    pub tokens: Seq<TokenView>,
    pub errors: Seq<ScanError>,
    /// The line count at the end of the input.
    pub line: int,
}

/// Scans `src` from position `pos`, with `line` the line count there.
pub open spec fn scan_from(src: Seq<char>, pos: int, line: int) -> ScanOutcome
    decreases src.len() - pos via scan_from_decreases
{
    if 0 <= pos < src.len() {
        let s = step(src, pos, line);
        let rest = scan_from(src, s.end, s.line);
        ScanOutcome {
            tokens: opt_seq(s.token) + rest.tokens,
            errors: opt_seq(s.error) + rest.errors,
            line: rest.line,
        }
    } else {
        ScanOutcome { tokens: Seq::empty(), errors: Seq::empty(), line }
    }
}

/// The tokens of a whole input: those scanned from its start, then the
/// end-of-input token on the last line.
pub open spec fn scanned(src: Seq<char>) -> Seq<TokenView> {
    let o = scan_from(src, 0, 1);
    o.tokens.push(eof_token(o.line))
}

/// The errors found while scanning a whole input, in order.
pub open spec fn scan_errors(src: Seq<char>) -> Seq<ScanError> {
    scan_from(src, 0, 1).errors
}

pub proof fn lemma_index_of_from_bounds(src: Seq<char>, from: int, c: char)
    requires
        0 <= from <= src.len(),
    ensures
        from <= index_of_from(src, from, c) <= src.len(),
        index_of_from(src, from, c) < src.len() ==> src[index_of_from(src, from, c)] == c,
        forall|i: int| from <= i < index_of_from(src, from, c) ==> src[i] != c,
    decreases src.len() - from,
{
    if from < src.len() && src[from] != c {
        lemma_index_of_from_bounds(src, from + 1, c);
    }
}

pub proof fn lemma_newlines_bound(src: Seq<char>, a: int, b: int)
    requires
        a <= b,
    ensures
        newlines_in(src, a, b) <= b - a,
    decreases b - a,
{
    if a < b {
        lemma_newlines_bound(src, a, b - 1);
    }
}

/// A step starts at `pos`, ends after it and within the input, and counts at
/// most one line for each character it consumes.
pub proof fn lemma_step_advances(src: Seq<char>, pos: int, line: int)
    requires
        0 <= pos < src.len(),
    ensures
        pos < step(src, pos, line).end <= src.len(),
        line <= step(src, pos, line).line <= line + (step(src, pos, line).end - pos),
{
    let c = src[pos];
    if c == '/' && pos + 1 < src.len() && src[pos + 1] == '/' {
        lemma_index_of_from_bounds(src, pos + 2, '\n');
    } else if c == '"' {
        lemma_index_of_from_bounds(src, pos + 1, '"');
        let close = index_of_from(src, pos + 1, '"');
        lemma_newlines_bound(src, pos + 1, close);
    }
}

#[via_fn]
proof fn scan_from_decreases(src: Seq<char>, pos: int, line: int) {
    if 0 <= pos < src.len() {
        lemma_step_advances(src, pos, line);
    }
}


/// Every character of `src` from `pos` on is one-character punctuation.
pub open spec fn all_single_from(src: Seq<char>, pos: int) -> bool {
    forall|i: int| pos <= i < src.len() ==> (#[trigger] single_char_kind(src[i])) is Some
}

proof fn lemma_scan_singles(src: Seq<char>, pos: int, line: int)
    requires
        0 <= pos <= src.len(),
        all_single_from(src, pos),
    ensures
        ({
            let o = scan_from(src, pos, line);
            &&& o.tokens.len() == src.len() - pos
            &&& o.errors.len() == 0
            &&& o.line == line
            &&& forall|i: int|
                0 <= i < src.len() - pos ==> #[trigger] o.tokens[i] == token_of(
                    src,
                    single_char_kind(src[pos + i])->Some_0,
                    pos + i,
                    pos + i + 1,
                    line,
                )
        }),
    decreases src.len() - pos,
{
    if pos < src.len() {
        assert(single_char_kind(src[pos]) is Some);
        lemma_scan_singles(src, pos + 1, line);
        let o = scan_from(src, pos, line);
        let rest = scan_from(src, pos + 1, line);
        assert forall|i: int| 0 <= i < src.len() - pos implies #[trigger] o.tokens[i] == token_of(
            src,
            single_char_kind(src[pos + i])->Some_0,
            pos + i,
            pos + i + 1,
            line,
        ) by {
            if i > 0 {
                assert(o.tokens[i] == rest.tokens[i - 1]);
            }
        }
    }
}

/// An input made only of one-character punctuation gives one token per
/// character, in order, each of the kind of its character and with that
/// character as its lexeme, then the end-of-input token; nothing is an error.
pub proof fn lemma_punctuation_one_token_each(src: Seq<char>)
    requires
        all_single_from(src, 0),
    ensures
        scanned(src).len() == src.len() + 1,
        scan_errors(src).len() == 0,
        forall|i: int|
            0 <= i < src.len() ==> {
                &&& #[trigger] scanned(src)[i].lexeme == seq![src[i]]
                &&& scanned(src)[i].kind == single_char_kind(src[i])->Some_0
                &&& scanned(src)[i].line == 1
            },
        scanned(src)[src.len() as int] == eof_token(1),
{
    lemma_scan_singles(src, 0, 1);
    let o = scan_from(src, 0, 1);
    assert forall|i: int| 0 <= i < src.len() implies {
        &&& #[trigger] scanned(src)[i].lexeme == seq![src[i]]
        &&& scanned(src)[i].kind == single_char_kind(src[i])->Some_0
        &&& scanned(src)[i].line == 1
    } by {
        assert(scanned(src)[i] == o.tokens[0 + i]);
        assert(src.subrange(i, i + 1) =~= seq![src[i]]);
    }
}

/// A character that may take `=` after it forms one two-character token with
/// a following `=`, and a one-character token alone.
pub proof fn lemma_operator_pairs(c: char)
    requires
        operator_kinds(c) is Some,
    ensures
        scanned(seq![c, '=']) == seq![
            TokenView {
                kind: operator_kinds(c)->Some_0.1,
                lexeme: seq![c, '='],
                literal: None,
                line: 1,
            },
            eof_token(1),
        ],
        scanned(seq![c]) == seq![
            TokenView { kind: operator_kinds(c)->Some_0.0, lexeme: seq![c], literal: None, line: 1 },
            eof_token(1),
        ],
{
    let two = seq![c, '='];
    let one = seq![c];
    assert(two.subrange(0, 2) =~= two);
    assert(one.subrange(0, 1) =~= one);
    let o2 = scan_from(two, 0, 1);
    assert(scan_from(two, 2, 1).tokens =~= Seq::<TokenView>::empty());
    assert(o2.tokens =~= seq![token_of(two, operator_kinds(c)->Some_0.1, 0, 2, 1)]);
    assert(scanned(two) =~= seq![token_of(two, operator_kinds(c)->Some_0.1, 0, 2, 1), eof_token(1)]);
    let o1 = scan_from(one, 0, 1);
    assert(step(one, 0, 1) == emit(one, operator_kinds(c)->Some_0.0, 0, 1, 1));
    assert(scan_from(one, 1, 1).tokens =~= Seq::<TokenView>::empty());
    assert(o1.tokens =~= seq![token_of(one, operator_kinds(c)->Some_0.0, 0, 1, 1)]);
    assert(scanned(one) =~= seq![token_of(one, operator_kinds(c)->Some_0.0, 0, 1, 1), eof_token(1)]);
}

/// The state of a scanner as a mathematical value.
pub struct ScanState {
    pub source: Seq<char>,
    /// The tokens found so far.
    pub tokens: Seq<TokenView>,
    /// The errors found so far.
    pub errors: Seq<ScanError>,
    /// The position, in characters, where the next step starts.
    pub current: nat,
    /// The line count at `current`.
    pub line: nat,
}

/// The state after one scanning step from `st`.
pub open spec fn after_step(st: ScanState) -> ScanState {
    let s = step(st.source, st.current as int, st.line as int);
    ScanState {
        source: st.source,
        tokens: match s.token {
            Some(t) => st.tokens.push(t),
            None => st.tokens,
        },
        errors: match s.error {
            Some(e) => st.errors.push(e),
            None => st.errors,
        },
        current: s.end as nat,
        line: s.line as nat,
    }
}

/// The views of a sequence of tokens.
pub open spec fn token_views(ts: Seq<Token>) -> Seq<TokenView> {
    ts.map_values(|t: Token| t@)
}

/// Turns source text into tokens, one left-to-right pass over its characters.
pub struct Scanner {
    source: String,
    /// The length of `source` in characters.
    len: usize,
    tokens: Vec<Token>,
    errors: Vec<ScanError>,
    start: usize,
    current: usize,
    line: usize,
}

impl View for Scanner {
    type V = ScanState;

    closed spec fn view(&self) -> ScanState {
        ScanState {
            source: self.source@,
            tokens: token_views(self.tokens@),
            errors: self.errors@,
            current: self.current as nat,
            line: self.line as nat,
        }
    }
}

impl Scanner {
    /// Positions lie within the input, and the line count is at most one
    /// more than the number of characters consumed.
    pub closed spec fn wf(&self) -> bool {
        &&& self.len as nat == self.source@.len()
        &&& self.len < usize::MAX
        &&& self.start <= self.current <= self.len
        &&& 1 <= self.line <= self.current + 1
    }

    /// A scanner at the start of `source`, on line 1.
    pub fn new(source: &str) -> (s: Scanner)
        requires
            source@.len() < usize::MAX,
        ensures
            s.wf(),
            s@ == (ScanState {
                source: source@,
                tokens: Seq::empty(),
                errors: Seq::empty(),
                current: 0,
                line: 1,
            }),
    {
        let len = source.unicode_len();
        let s = Scanner {
            source: String::from_str(source),
            len,
            tokens: Vec::new(),
            errors: Vec::new(),
            start: 0,
            current: 0,
            line: 1,
        };
        assert(token_views(s.tokens@) =~= Seq::<TokenView>::empty());
        s
    }

    /// Whether the whole input has been consumed.
    pub fn is_at_end(&self) -> (r: bool)
        requires
            self.wf(),
        ensures
            r == (self@.current >= self@.source.len()),
    {
        self.current >= self.len
    }

    fn advance(&mut self) -> (c: char)
        requires
            old(self).wf(),
            old(self).current < old(self).len,
        ensures
            *final(self) == (Scanner { current: (old(self).current + 1) as usize, ..*old(self) }),
            c == old(self).source@[old(self).current as int],
    {
        let c = self.source.as_str().get_char(self.current);
        self.current = self.current + 1;
        c
    }

    fn peek(&self) -> (c: char)
        requires
            self.wf(),
        ensures
            c == if self.current < self.len {
                self.source@[self.current as int]
            } else {
                '\0'
            },
    {
        if self.is_at_end() {
            '\0'
        } else {
            self.source.as_str().get_char(self.current)
        }
    }

    fn match_char(&mut self, expected: char) -> (r: bool)
        requires
            old(self).wf(),
        ensures
            r == (old(self).current < old(self).len && old(self).source@[old(self).current as int]
                == expected),
            *final(self) == (Scanner {
                current: if r {
                    (old(self).current + 1) as usize
                } else {
                    old(self).current
                },
                ..*old(self)
            }),
    {
        if self.is_at_end() {
            return false;
        }
        if self.source.as_str().get_char(self.current) != expected {
            return false;
        }
        self.current = self.current + 1;
        true
    }

    /// Records the token made of the text from `start` to `current`.
    fn add_token(&mut self, kind: TokenType, line: usize)
        requires
            old(self).wf(),
            kind == TokenType::Str ==> old(self).start + 2 <= old(self).current,
        ensures
            final(self)@ == (ScanState {
                tokens: old(self)@.tokens.push(
                    token_of(
                        old(self)@.source,
                        kind,
                        old(self).start as int,
                        old(self).current as int,
                        line as int,
                    ),
                ),
                ..old(self)@
            }),
            final(self).start == old(self).start,
            final(self).len == old(self).len,
            final(self).wf(),
    {
        let text = String::from_str(self.source.as_str().substring_char(self.start, self.current));
        let literal = if kind == TokenType::Str {
            Some(
                String::from_str(
                    self.source.as_str().substring_char(self.start + 1, self.current - 1),
                ),
            )
        } else {
            None
        };
        let t = Token::new(kind, text, literal, line);
        proof {
            assert(t@ == token_of(
                self.source@,
                kind,
                self.start as int,
                self.current as int,
                line as int,
            ));
        }
        let ghost before = self.tokens@;
        self.tokens.push(t);
        assert(token_views(self.tokens@) =~= token_views(before).push(t@));
    }

    /// Scans the rest of a string literal whose opening quote is at `start`.
    fn string(&mut self)
        requires
            old(self).wf(),
            old(self).current == old(self).start + 1,
            old(self).source@[old(self).start as int] == '"',
        ensures
            final(self).wf(),
            final(self)@ == after_step(
                (ScanState { current: old(self).start as nat, ..old(self)@ }),
            ),
    {
        let ghost src = self.source@;
        let ghost pos = self.start as int;
        let start_line = self.line;
        proof {
            lemma_index_of_from_bounds(src, pos + 1, '"');
        }
        while self.peek() != '"' && !self.is_at_end()
            invariant
                self.wf(),
                self.source@ == src,
                self.start == pos,
                self.tokens == old(self).tokens,
                self.errors == old(self).errors,
                self.len == old(self).len,
                pos + 1 <= self.current <= index_of_from(src, pos + 1, '"'),
                index_of_from(src, self.current as int, '"') == index_of_from(src, pos + 1, '"'),
                self.line == start_line + newlines_in(src, pos + 1, self.current as int),
            decreases self.len - self.current,
        {
            proof {
                lemma_index_of_from_bounds(src, self.current as int, '"');
            }
            let c = self.advance();
            if c == '\n' {
                self.line = self.line + 1;
            }
        }
        let ghost close = index_of_from(src, pos + 1, '"');
        assert(self.current == close);
        if self.is_at_end() {
            self.errors.push(ScanError::UnterminatedString { line: start_line });
            return ;
        }
        self.advance();
        self.add_token(TokenType::Str, start_line);
    }

    /// Scans one token, or one stretch of text that yields none, from the
    /// current position.
    pub fn scan_token(&mut self)
        requires
            old(self).wf(),
            old(self)@.current < old(self)@.source.len(),
        ensures
            final(self).wf(),
            final(self)@ == after_step(old(self)@),
    {
        let ghost src = self.source@;
        let ghost pos = self.current as int;
        self.start = self.current;
        let line = self.line;
        let c = self.advance();
        match c {
            '(' => self.add_token(TokenType::LeftParen, line),
            ')' => self.add_token(TokenType::RightParen, line),
            '{' => self.add_token(TokenType::LeftBrace, line),
            '}' => self.add_token(TokenType::RightBrace, line),
            ',' => self.add_token(TokenType::Comma, line),
            '.' => self.add_token(TokenType::Dot, line),
            '-' => self.add_token(TokenType::Minus, line),
            '+' => self.add_token(TokenType::Plus, line),
            ';' => self.add_token(TokenType::Semicolon, line),
            '*' => self.add_token(TokenType::Star, line),
            '!' => {
                let kind = if self.match_char('=') {
                    TokenType::BangEqual
                } else {
                    TokenType::Bang
                };
                self.add_token(kind, line);
            },
            '=' => {
                let kind = if self.match_char('=') {
                    TokenType::EqualEqual
                } else {
                    TokenType::Equal
                };
                self.add_token(kind, line);
            },
            '<' => {
                let kind = if self.match_char('=') {
                    TokenType::LessEqual
                } else {
                    TokenType::Less
                };
                self.add_token(kind, line);
            },
            '>' => {
                let kind = if self.match_char('=') {
                    TokenType::GreaterEqual
                } else {
                    TokenType::Greater
                };
                self.add_token(kind, line);
            },
            '/' => {
                if self.match_char('/') {
                    proof {
                        lemma_index_of_from_bounds(src, pos + 2, '\n');
                    }
                    while self.peek() != '\n' && !self.is_at_end()
                        invariant
                            self.wf(),
                            self.source@ == src,
                            self.start == pos,
                            self.line == line,
                            self.tokens == old(self).tokens,
                            self.errors == old(self).errors,
                            self.len == old(self).len,
                            pos + 2 <= self.current <= index_of_from(src, pos + 2, '\n'),
                            index_of_from(src, self.current as int, '\n') == index_of_from(
                                src,
                                pos + 2,
                                '\n',
                            ),
                        decreases self.len - self.current,
                    {
                        proof {
                            lemma_index_of_from_bounds(src, self.current as int, '\n');
                        }
                        self.advance();
                    }
                } else {
                    self.add_token(TokenType::Slash, line);
                }
            },
            ' ' | '\r' | '\t' => {},
            '\n' => {
                self.line = self.line + 1;
            },
            '"' => self.string(),
            _ => {
                self.errors.push(ScanError::UnexpectedCharacter { ch: c, line });
            },
        }
    }

    /// Scans from the current position to the end of the input, then adds
    /// the end-of-input token, and returns every token recorded.
    pub fn scan_tokens(&mut self) -> (r: Vec<Token>)
        requires
            old(self).wf(),
        ensures
            ({
                let o = scan_from(old(self)@.source, old(self)@.current as int, old(self)@.line as int);
                &&& token_views(r@) == old(self)@.tokens + o.tokens.push(eof_token(o.line))
                &&& final(self)@ == (ScanState {
                    source: old(self)@.source,
                    tokens: token_views(r@),
                    errors: old(self)@.errors + o.errors,
                    current: old(self)@.source.len(),
                    line: o.line as nat,
                })
            }),
            final(self).wf(),
    {
        let ghost src = self@.source;
        let ghost o = scan_from(src, self@.current as int, self@.line as int);
        let ghost tokens0 = self@.tokens;
        let ghost errors0 = self@.errors;
        while !self.is_at_end()
            invariant
                self.wf(),
                self@.source == src,
                ({
                    let rest = scan_from(src, self@.current as int, self@.line as int);
                    &&& self@.tokens + rest.tokens == tokens0 + o.tokens
                    &&& self@.errors + rest.errors == errors0 + o.errors
                    &&& rest.line == o.line
                }),
            decreases self.len - self.current,
        {
            let ghost before = self@;
            self.start = self.current;
            assert(self@ == before);
            self.scan_token();
            proof {
                let st = step(src, before.current as int, before.line as int);
                lemma_step_advances(src, before.current as int, before.line as int);
                let rest = scan_from(src, st.end, st.line);
                assert(scan_from(src, before.current as int, before.line as int).tokens
                    == opt_seq(st.token) + rest.tokens);
                assert(self@.tokens + rest.tokens =~= before.tokens + (opt_seq(st.token)
                    + rest.tokens));
                assert(self@.errors + rest.errors =~= before.errors + (opt_seq(st.error)
                    + rest.errors));
            }
        }
        proof {
            let rest = scan_from(src, self@.current as int, self@.line as int);
            assert(self@.tokens + rest.tokens =~= self@.tokens);
            assert(self@.errors + rest.errors =~= self@.errors);
        }
        self.start = self.current;
        let eof = Token::new(TokenType::Eof, String::new(), None, self.line);
        let ghost before = self.tokens@;
        self.tokens.push(eof);
        assert(token_views(self.tokens@) =~= token_views(before).push(eof@));
        assert(eof@ == eof_token(o.line));
        assert(token_views(self.tokens@) =~= tokens0 + o.tokens.push(eof_token(o.line)));
        let mut out: Vec<Token> = Vec::new();
        let mut i: usize = 0;
        while i < self.tokens.len()
            invariant
                i <= self.tokens@.len(),
                token_views(out@) == token_views(self.tokens@).subrange(0, i as int),
            decreases self.tokens@.len() - i,
        {
            let t = self.tokens[i].clone();
            let ghost prev = out@;
            out.push(t);
            assert(token_views(out@) =~= token_views(prev).push(t@));
            assert(token_views(self.tokens@).subrange(0, i + 1) =~= token_views(
                self.tokens@,
            ).subrange(0, i as int).push(t@));
            i = i + 1;
        }
        assert(token_views(self.tokens@).subrange(0, i as int) =~= token_views(self.tokens@));
        out
    }

    /// The errors found so far, in the order met.
    pub fn errors(&self) -> (r: &Vec<ScanError>)
        ensures
            r@ == self@.errors,
    {
        &self.errors
    }
}

} // verus!
