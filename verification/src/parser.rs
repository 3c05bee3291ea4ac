use crate::text::{from_chars, to_chars};
use vstd::prelude::*;
use vstd::string::StringExecFns;

verus! {

/// Why reading failed.
#[derive(Copy, Clone, Debug, PartialEq, Eq, Structural)]
pub enum ParseError {
    /// The input ended inside a token or a list.
    EOF,
    /// A character stands where it cannot.
    Input,
    /// A token stands where it cannot.
    Token,
}

/// A failure and the place where it was detected: for the lexer the number of
/// characters read so far, for the builder the number of tokens read so far.
#[derive(Copy, Clone, Debug, PartialEq, Eq, Structural)]
pub struct ParseFailure {
    pub error: ParseError,
    pub position: usize,
}

impl ParseError {
    /// The message that describes the error.
    pub fn message(&self) -> (r: String)
        ensures
            r@ == (match *self {
                ParseError::EOF => "Unexpected end of input"@,
                ParseError::Input => "Unexpected input"@,
                ParseError::Token => "Unexpected token"@,
            }),
    {
        match self {
            ParseError::EOF => String::from_str("Unexpected end of input"),
            ParseError::Input => String::from_str("Unexpected input"),
            ParseError::Token => String::from_str("Unexpected token"),
        }
    }
}

#[derive(Debug, Clone, PartialEq, Eq)]
pub enum Token {
    LeftParen,
    RightParen,
    Quote,
    Nil,
    Bool(bool),
    String(String),
    Number(String),
    Symbol(String),
}

/// A token as plain data.
pub enum Lexeme {
    LeftParen,
    RightParen,
    Quote,
    Nil,
    Bool(bool),
    String(Seq<char>),
    Number(Seq<char>),
    Symbol(Seq<char>),
}

impl View for Token {
    type V = Lexeme;

    open spec fn view(&self) -> Lexeme {
        match *self {
            Token::LeftParen => Lexeme::LeftParen,
            Token::RightParen => Lexeme::RightParen,
            Token::Quote => Lexeme::Quote,
            Token::Nil => Lexeme::Nil,
            Token::Bool(b) => Lexeme::Bool(b),
            Token::String(s) => Lexeme::String(s@),
            Token::Number(s) => Lexeme::Number(s@),
            Token::Symbol(s) => Lexeme::Symbol(s@),
        }
    }
}

/// Tokens as plain data.
pub open spec fn lexemes(tokens: Seq<Token>) -> Seq<Lexeme> {
    Seq::new(tokens.len(), |i: int| tokens[i]@)
}

/// What reading one token gives: the tokens read and the number of characters
/// consumed up to there, or an error and the number of characters consumed
/// when it was detected.
pub enum Scan {
    Read(Seq<Lexeme>, int),
    Failed(ParseError, int),
}

/// The characters that separate tokens: those with the Unicode property
/// White_Space.
pub open spec fn spec_is_whitespace(c: char) -> bool {
    let u = c as u32;
    (0x09 <= u && u <= 0x0D) || u == 0x20 || u == 0x85 || u == 0xA0 || u == 0x1680 || (0x2000 <= u
        && u <= 0x200A) || u == 0x2028 || u == 0x2029 || u == 0x202F || u == 0x205F || u == 0x3000
}

pub open spec fn spec_is_digit(c: char) -> bool {
    '0' <= c && c <= '9'
}

/// The characters of a symbol; a digit cannot start one.
pub open spec fn spec_is_symbol_char(c: char, start: bool) -> bool {
    ('a' <= c && c <= 'z') || ('A' <= c && c <= 'Z') || c == '-' || c == '+' || c == '!' || c == '$'
        || c == '%' || c == '&' || c == '*' || c == '/' || c == ':' || c == '<' || c == '=' || c
        == '>' || c == '?' || c == '~' || c == '_' || c == '^' || (spec_is_digit(c) && !start)
}

/// The character that stands after a backslash in a string.
pub open spec fn unescaped(c: char) -> char {
    if c == 'n' {
        '\n'
    } else if c == 't' {
        '\t'
    } else {
        c
    }
}

/// The token for the text of a symbol: `nil` is the Nil token.
pub open spec fn classified(buf: Seq<char>) -> Lexeme {
    if buf == seq!['n', 'i', 'l'] {
        Lexeme::Nil
    } else {
        Lexeme::Symbol(buf)
    }
}

/// Reads a string from behind its opening quote. `pos` characters are
/// consumed and `buf` holds what was read of the string so far.
pub open spec fn scan_string(input: Seq<char>, pos: int, buf: Seq<char>) -> Scan
    decreases input.len() - pos,
{
    if pos < 0 || pos >= input.len() {
        Scan::Failed(ParseError::EOF, input.len() as int)
    } else if input[pos] == '\\' {
        if pos + 1 >= input.len() {
            Scan::Failed(ParseError::EOF, input.len() as int)
        } else {
            scan_string(input, pos + 2, buf.push(unescaped(input[pos + 1])))
        }
    } else if input[pos] == '"' {
        Scan::Read(seq![Lexeme::String(buf)], pos + 1)
    } else {
        scan_string(input, pos + 1, buf.push(input[pos]))
    }
}

/// Reads a boolean from behind its `#`. What follows the `t` or `f` must be
/// whitespace, a parenthesis, which is a token of its own, or the end.
pub open spec fn scan_bool(input: Seq<char>, pos: int) -> Scan {
    if pos < 0 || pos >= input.len() {
        Scan::Failed(ParseError::EOF, input.len() as int)
    } else if input[pos] != 't' && input[pos] != 'f' {
        Scan::Failed(ParseError::Input, pos + 1)
    } else {
        let b = Lexeme::Bool(input[pos] == 't');
        if pos + 1 >= input.len() {
            Scan::Read(seq![b], pos + 1)
        } else if spec_is_whitespace(input[pos + 1]) {
            Scan::Read(seq![b], pos + 2)
        } else if input[pos + 1] == '(' {
            Scan::Read(seq![b, Lexeme::LeftParen], pos + 2)
        } else if input[pos + 1] == ')' {
            Scan::Read(seq![b, Lexeme::RightParen], pos + 2)
        } else {
            Scan::Failed(ParseError::Input, pos + 2)
        }
    }
}

/// Reads the rest of a number whose digits so far are `buf`.
pub open spec fn scan_number(input: Seq<char>, pos: int, buf: Seq<char>) -> Scan
    decreases input.len() - pos,
{
    if pos < 0 || pos >= input.len() {
        Scan::Read(seq![Lexeme::Number(buf)], input.len() as int)
    } else if spec_is_whitespace(input[pos]) {
        Scan::Read(seq![Lexeme::Number(buf)], pos + 1)
    } else if spec_is_digit(input[pos]) {
        scan_number(input, pos + 1, buf.push(input[pos]))
    } else if input[pos] == '(' {
        Scan::Read(seq![Lexeme::Number(buf), Lexeme::LeftParen], pos + 1)
    } else if input[pos] == ')' {
        Scan::Read(seq![Lexeme::Number(buf), Lexeme::RightParen], pos + 1)
    } else {
        Scan::Failed(ParseError::Input, pos + 1)
    }
}

/// Reads the rest of a symbol whose characters so far are `buf`.
pub open spec fn scan_symbol(input: Seq<char>, pos: int, buf: Seq<char>) -> Scan
    decreases input.len() - pos,
{
    if pos < 0 || pos >= input.len() {
        Scan::Read(seq![classified(buf)], input.len() as int)
    } else if spec_is_symbol_char(input[pos], false) {
        scan_symbol(input, pos + 1, buf.push(input[pos]))
    } else if spec_is_whitespace(input[pos]) {
        Scan::Read(seq![classified(buf)], pos + 1)
    } else if input[pos] == '(' {
        Scan::Read(seq![classified(buf), Lexeme::LeftParen], pos + 1)
    } else if input[pos] == ')' {
        Scan::Read(seq![classified(buf), Lexeme::RightParen], pos + 1)
    } else {
        Scan::Failed(ParseError::Input, pos + 1)
    }
}

/// Reads what starts at `pos`: whitespace, which gives no token, or one token
/// with the parenthesis that ends it, if one does.
pub open spec fn scan_token(input: Seq<char>, pos: int) -> Scan
    recommends
        0 <= pos < input.len(),
{
    let c = input[pos];
    if c == '(' {
        Scan::Read(seq![Lexeme::LeftParen], pos + 1)
    } else if c == ')' {
        Scan::Read(seq![Lexeme::RightParen], pos + 1)
    } else if c == '\'' {
        Scan::Read(seq![Lexeme::Quote], pos + 1)
    } else if c == '"' {
        scan_string(input, pos + 1, Seq::empty())
    } else if c == '#' {
        scan_bool(input, pos + 1)
    } else if spec_is_whitespace(c) {
        Scan::Read(Seq::empty(), pos + 1)
    } else if spec_is_digit(c) {
        scan_number(input, pos + 1, seq![c])
    } else if spec_is_symbol_char(c, true) {
        scan_symbol(input, pos + 1, seq![c])
    } else {
        Scan::Failed(ParseError::Input, pos + 1)
    }
}

/// The tokens of the input from `pos` on, after `tokens`; or the first error.
pub open spec fn lex_from(input: Seq<char>, pos: int, tokens: Seq<Lexeme>) -> Result<
    Seq<Lexeme>,
    (ParseError, int),
>
    decreases input.len() - pos,
{
    if pos < 0 || pos >= input.len() {
        Ok(tokens)
    } else {
        let scan = scan_token(input, pos);
        if scan is Failed {
            Err((scan->Failed_0, scan->Failed_1))
        } else if pos < scan->Read_1 <= input.len() {
            lex_from(input, scan->Read_1, tokens + scan->Read_0)
        } else {
            Ok(tokens + scan->Read_0)
        }
    }
}

/// The tokens of a text; or the first lexical error with its position.
pub open spec fn lex(input: Seq<char>) -> Result<Seq<Lexeme>, (ParseError, int)> {
    lex_from(input, 0, Seq::empty())
}

#[verifier::when_used_as_spec(spec_is_whitespace)]
pub fn is_whitespace(c: char) -> (r: bool)
    ensures
        r == spec_is_whitespace(c),
{
    let u: u32 = c as u32;
    (0x09 <= u && u <= 0x0D) || u == 0x20 || u == 0x85 || u == 0xA0 || u == 0x1680 || (0x2000 <= u
        && u <= 0x200A) || u == 0x2028 || u == 0x2029 || u == 0x202F || u == 0x205F || u == 0x3000
}

#[verifier::when_used_as_spec(spec_is_digit)]
pub fn is_digit(c: char) -> (r: bool)
    ensures
        r == spec_is_digit(c),
{
    '0' <= c && c <= '9'
}

#[verifier::when_used_as_spec(spec_is_symbol_char)]
pub fn is_symbol_char(c: char, start: bool) -> (r: bool)
    ensures
        r == spec_is_symbol_char(c, start),
{
    ('a' <= c && c <= 'z') || ('A' <= c && c <= 'Z') || c == '-' || c == '+' || c == '!' || c == '$'
        || c == '%' || c == '&' || c == '*' || c == '/' || c == ':' || c == '<' || c == '=' || c
        == '>' || c == '?' || c == '~' || c == '_' || c == '^' || (is_digit(c) && !start)
}

/// The lexer: the input, how much of it is consumed, and the tokens so far.
pub struct Parser {
    pub position: usize,
    pub input: Vec<char>,
    pub tokens: Vec<Token>,
}

impl Parser {
    pub open spec fn wf(&self) -> bool {
        self.position <= self.input@.len()
    }

    /// How one step of reading moved the lexer from `before`, given what the
    /// step read.
    pub open spec fn follows(&self, before: Parser, scan: Scan, r: Result<(), ParseFailure>) -> bool {
        &&& self.input@ == before.input@
        &&& self.wf()
        &&& self.position >= before.position
        &&& match scan {
            Scan::Read(more, next) => r is Ok && lexemes(self.tokens@) == lexemes(before.tokens@)
                + more && self.position == next,
            Scan::Failed(e, p) => r is Err && r->Err_0.error == e && r->Err_0.position == p
                && self.position == p && lexemes(self.tokens@) == lexemes(before.tokens@),
        }
    }

    /// The tokens of `input`, or the first lexical error with the number of
    /// characters consumed when it was detected.
    pub fn parse(input: &str) -> (r: Result<Vec<Token>, ParseFailure>)
        ensures
            match lex(input@) {
                Ok(tokens) => r is Ok && lexemes(r.unwrap()@) == tokens,
                Err((e, p)) => r is Err && r->Err_0.error == e && r->Err_0.position == p,
            },
    {
        let mut parser = Parser { position: 0, input: to_chars(input), tokens: Vec::new() };
        assert(lexemes(parser.tokens@) =~= Seq::empty());
        match parser._parse() {
            Ok(()) => Ok(parser.tokens),
            Err(e) => Err(e),
        }
    }

    /// The next character, which is consumed; `None` at the end.
    pub fn next(&mut self) -> (r: Option<char>)
        requires
            old(self).wf(),
        ensures
            final(self).wf(),
            final(self).input@ == old(self).input@,
            final(self).tokens@ == old(self).tokens@,
            old(self).position < old(self).input@.len() ==> r == Some(
                old(self).input@[old(self).position as int],
            ) && final(self).position == old(self).position + 1,
            old(self).position >= old(self).input@.len() ==> r is None && final(self).position
                == old(self).position,
    {
        if self.position < self.input.len() {
            let c = self.input[self.position];
            self.position += 1;
            Some(c)
        } else {
            None
        }
    }

    fn emit(&mut self, t: Token)
        ensures
            final(self).input@ == old(self).input@,
            final(self).position == old(self).position,
            final(self).tokens@ == old(self).tokens@.push(t),
            lexemes(final(self).tokens@) == lexemes(old(self).tokens@).push(t@),
    {
        self.tokens.push(t);
        assert(lexemes(self.tokens@) =~= lexemes(old(self).tokens@).push(t@));
    }

    /// Reads all tokens from the current position on.
    pub fn _parse(&mut self) -> (r: Result<(), ParseFailure>)
        requires
            old(self).wf(),
        ensures
            final(self).input@ == old(self).input@,
            match lex_from(old(self).input@, old(self).position as int, lexemes(old(self).tokens@)) {
                Ok(tokens) => r is Ok && lexemes(final(self).tokens@) == tokens,
                Err((e, p)) => r is Err && r->Err_0.error == e && r->Err_0.position == p,
            },
    {
        loop
            invariant
                self.wf(),
                self.input@ == old(self).input@,
                lex_from(old(self).input@, old(self).position as int, lexemes(old(self).tokens@))
                    == lex_from(self.input@, self.position as int, lexemes(self.tokens@)),
            decreases self.input@.len() - self.position,
        {
            let ghost before = *self;
            let ghost start = self.position as int;
            let c = match self.next() {
                Some(c) => c,
                None => {
                    return Ok(());
                },
            };
            let step: Result<(), ParseFailure> = if c == '(' {
                self.emit(Token::LeftParen);
                Ok(())
            } else if c == ')' {
                self.emit(Token::RightParen);
                Ok(())
            } else if c == '\'' {
                self.emit(Token::Quote);
                Ok(())
            } else if c == '"' {
                self.parse_string()
            } else if c == '#' {
                self.parse_bool()
            } else if is_whitespace(c) {
                Ok(())
            } else if is_digit(c) {
                self.parse_number(c)
            } else if is_symbol_char(c, true) {
                self.parse_symbol(c)
            } else {
                Err(ParseFailure { error: ParseError::Input, position: self.position })
            };
            proof {
                assert(lexemes(before.tokens@) + Seq::<Lexeme>::empty() =~= lexemes(before.tokens@));
                assert(lexemes(before.tokens@) + seq![Lexeme::LeftParen] =~= lexemes(
                    before.tokens@,
                ).push(Lexeme::LeftParen));
                assert(lexemes(before.tokens@) + seq![Lexeme::RightParen] =~= lexemes(
                    before.tokens@,
                ).push(Lexeme::RightParen));
                assert(lexemes(before.tokens@) + seq![Lexeme::Quote] =~= lexemes(
                    before.tokens@,
                ).push(Lexeme::Quote));
                assert(self.follows(before, scan_token(before.input@, start), step));
            }
            match step {
                Ok(()) => {},
                Err(e) => {
                    return Err(e);
                },
            }
        }
    }

    /// Reads a string from behind its opening quote.
    pub fn parse_string(&mut self) -> (r: Result<(), ParseFailure>)
        requires
            old(self).wf(),
        ensures
            final(self).follows(
                *old(self),
                scan_string(old(self).input@, old(self).position as int, Seq::empty()),
                r,
            ),
    {
        let mut buf: Vec<char> = Vec::new();
        let ghost goal = scan_string(old(self).input@, old(self).position as int, Seq::empty());
        assert(buf@ =~= Seq::empty());
        loop
            invariant
                self.wf(),
                self.input@ == old(self).input@,
                self.tokens@ == old(self).tokens@,
                self.position >= old(self).position,
                goal == scan_string(old(self).input@, old(self).position as int, Seq::empty()),
                goal == scan_string(self.input@, self.position as int, buf@),
            decreases self.input@.len() - self.position,
        {
            match self.next() {
                None => {
                    return Err(ParseFailure { error: ParseError::EOF, position: self.position });
                },
                Some(c) => {
                    if c == '\\' {
                        match self.next() {
                            None => {
                                return Err(
                                    ParseFailure { error: ParseError::EOF, position: self.position },
                                );
                            },
                            Some(e) => {
                                if e == 'n' {
                                    buf.push('\n');
                                } else if e == 't' {
                                    buf.push('\t');
                                } else {
                                    buf.push(e);
                                }
                            },
                        }
                    } else if c == '"' {
                        self.emit(Token::String(from_chars(&buf)));
                        assert(lexemes(old(self).tokens@) + seq![Lexeme::String(buf@)] =~= lexemes(
                            old(self).tokens@,
                        ).push(Lexeme::String(buf@)));
                        return Ok(());
                    } else {
                        buf.push(c);
                    }
                },
            }
        }
    }

    /// Reads a boolean from behind its `#`.
    pub fn parse_bool(&mut self) -> (r: Result<(), ParseFailure>)
        requires
            old(self).wf(),
        ensures
            final(self).follows(*old(self), scan_bool(old(self).input@, old(self).position as int), r),
    {
        let ghost mine = lexemes(old(self).tokens@);
        let b: bool = match self.next() {
            None => {
                return Err(ParseFailure { error: ParseError::EOF, position: self.position });
            },
            Some(c) => {
                if c == 't' {
                    true
                } else if c == 'f' {
                    false
                } else {
                    return Err(ParseFailure { error: ParseError::Input, position: self.position });
                }
            },
        };
        match self.next() {
            None => {
                self.emit(Token::Bool(b));
                assert(mine + seq![Lexeme::Bool(b)] =~= mine.push(Lexeme::Bool(b)));
                Ok(())
            },
            Some(c) => {
                if is_whitespace(c) {
                    self.emit(Token::Bool(b));
                    assert(mine + seq![Lexeme::Bool(b)] =~= mine.push(Lexeme::Bool(b)));
                    Ok(())
                } else if c == '(' {
                    self.emit(Token::Bool(b));
                    self.emit(Token::LeftParen);
                    assert(mine + seq![Lexeme::Bool(b), Lexeme::LeftParen] =~= mine.push(
                        Lexeme::Bool(b),
                    ).push(Lexeme::LeftParen));
                    Ok(())
                } else if c == ')' {
                    self.emit(Token::Bool(b));
                    self.emit(Token::RightParen);
                    assert(mine + seq![Lexeme::Bool(b), Lexeme::RightParen] =~= mine.push(
                        Lexeme::Bool(b),
                    ).push(Lexeme::RightParen));
                    Ok(())
                } else {
                    Err(ParseFailure { error: ParseError::Input, position: self.position })
                }
            },
        }
    }

    /// Reads the rest of a number that starts with the digit `first`.
    pub fn parse_number(&mut self, first: char) -> (r: Result<(), ParseFailure>)
        requires
            old(self).wf(),
        ensures
            final(self).follows(
                *old(self),
                scan_number(old(self).input@, old(self).position as int, seq![first]),
                r,
            ),
    {
        let mut buf: Vec<char> = Vec::new();
        buf.push(first);
        let ghost mine = lexemes(old(self).tokens@);
        let ghost goal = scan_number(old(self).input@, old(self).position as int, seq![first]);
        assert(buf@ =~= seq![first]);
        loop
            invariant
                self.wf(),
                self.input@ == old(self).input@,
                self.tokens@ == old(self).tokens@,
                mine == lexemes(old(self).tokens@),
                self.position >= old(self).position,
                goal == scan_number(old(self).input@, old(self).position as int, seq![first]),
                goal == scan_number(self.input@, self.position as int, buf@),
            decreases self.input@.len() - self.position,
        {
            let ghost number = Lexeme::Number(buf@);
            match self.next() {
                None => {
                    self.emit(Token::Number(from_chars(&buf)));
                    assert(mine + seq![number] =~= mine.push(number));
                    return Ok(());
                },
                Some(c) => {
                    if is_whitespace(c) {
                        self.emit(Token::Number(from_chars(&buf)));
                        assert(mine + seq![number] =~= mine.push(number));
                        return Ok(());
                    } else if is_digit(c) {
                        buf.push(c);
                    } else if c == '(' {
                        self.emit(Token::Number(from_chars(&buf)));
                        self.emit(Token::LeftParen);
                        assert(mine + seq![number, Lexeme::LeftParen] =~= mine.push(number).push(
                            Lexeme::LeftParen,
                        ));
                        return Ok(());
                    } else if c == ')' {
                        self.emit(Token::Number(from_chars(&buf)));
                        self.emit(Token::RightParen);
                        assert(mine + seq![number, Lexeme::RightParen] =~= mine.push(number).push(
                            Lexeme::RightParen,
                        ));
                        return Ok(());
                    } else {
                        return Err(
                            ParseFailure { error: ParseError::Input, position: self.position },
                        );
                    }
                },
            }
        }
    }

    /// The token for the text of a symbol: `nil` is the Nil token.
    pub fn classify(buf: &Vec<char>) -> (t: Token)
        ensures
            t@ == classified(buf@),
    {
        if buf.len() == 3 && buf[0] == 'n' && buf[1] == 'i' && buf[2] == 'l' {
            assert(buf@ =~= seq!['n', 'i', 'l']);
            Token::Nil
        } else {
            assert(buf@ != seq!['n', 'i', 'l']) by {
                if buf@ == seq!['n', 'i', 'l'] {
                    assert(seq!['n', 'i', 'l'].len() == 3);
                    assert(seq!['n', 'i', 'l'][0] == 'n');
                    assert(seq!['n', 'i', 'l'][1] == 'i');
                    assert(seq!['n', 'i', 'l'][2] == 'l');
                }
            }
            Token::Symbol(from_chars(buf))
        }
    }

    /// Reads the rest of a symbol that starts with `first`.
    pub fn parse_symbol(&mut self, first: char) -> (r: Result<(), ParseFailure>)
        requires
            old(self).wf(),
        ensures
            final(self).follows(
                *old(self),
                scan_symbol(old(self).input@, old(self).position as int, seq![first]),
                r,
            ),
    {
        let mut buf: Vec<char> = Vec::new();
        buf.push(first);
        let ghost mine = lexemes(old(self).tokens@);
        let ghost goal = scan_symbol(old(self).input@, old(self).position as int, seq![first]);
        assert(buf@ =~= seq![first]);
        loop
            invariant
                self.wf(),
                self.input@ == old(self).input@,
                self.tokens@ == old(self).tokens@,
                mine == lexemes(old(self).tokens@),
                self.position >= old(self).position,
                goal == scan_symbol(old(self).input@, old(self).position as int, seq![first]),
                goal == scan_symbol(self.input@, self.position as int, buf@),
            decreases self.input@.len() - self.position,
        {
            let ghost symbol = classified(buf@);
            match self.next() {
                None => {
                    self.emit(Self::classify(&buf));
                    assert(mine + seq![symbol] =~= mine.push(symbol));
                    return Ok(());
                },
                Some(c) => {
                    if is_symbol_char(c, false) {
                        buf.push(c);
                    } else if is_whitespace(c) {
                        self.emit(Self::classify(&buf));
                        assert(mine + seq![symbol] =~= mine.push(symbol));
                        return Ok(());
                    } else if c == '(' {
                        self.emit(Self::classify(&buf));
                        self.emit(Token::LeftParen);
                        assert(mine + seq![symbol, Lexeme::LeftParen] =~= mine.push(symbol).push(
                            Lexeme::LeftParen,
                        ));
                        return Ok(());
                    } else if c == ')' {
                        self.emit(Self::classify(&buf));
                        self.emit(Token::RightParen);
                        assert(mine + seq![symbol, Lexeme::RightParen] =~= mine.push(symbol).push(
                            Lexeme::RightParen,
                        ));
                        return Ok(());
                    } else {
                        return Err(
                            ParseFailure { error: ParseError::Input, position: self.position },
                        );
                    }
                },
            }
        }
    }
}

} // verus!
