//! Lexer for the .bridge format.
//!
//! Source text is read byte by byte. Lines and columns count from one, columns in bytes.
use vstd::prelude::*;
use crate::text;
use crate::text::{push_decimal, same_text};

verus! {

#[derive(Debug, Clone, PartialEq)]
pub enum Token {
    // Keywords
    Namespace,
    Struct,
    Enum,
    Channel,
    // Literals & identifiers
    Ident(String),
    IntLit(usize),
    // Punctuation
    LBrace,
    RBrace,
    LBracket,
    RBracket,
    Colon,
    Semicolon,
    Comma,
    Eof,
}

/// A token with the line and column where it starts.
#[derive(Debug, Clone)]
pub struct SpannedToken {
    pub token: Token,
    pub line: usize,
    pub col: usize,
}

/// What a token says.
pub enum Lexeme {
    Namespace,
    Struct,
    Enum,
    Channel,
    Ident(Seq<char>),
    IntLit(usize),
    LBrace,
    RBrace,
    LBracket,
    RBracket,
    Colon,
    Semicolon,
    Comma,
    Eof,
}

/// What a token says, and where it starts.
pub struct Located {
    pub token: Lexeme,
    pub line: nat,
    pub col: nat,
}

impl View for Token {
    type V = Lexeme;

    open spec fn view(&self) -> Lexeme {
        match self {
            Token::Namespace => Lexeme::Namespace,
            Token::Struct => Lexeme::Struct,
            Token::Enum => Lexeme::Enum,
            Token::Channel => Lexeme::Channel,
            Token::Ident(name) => Lexeme::Ident(name@),
            Token::IntLit(n) => Lexeme::IntLit(*n),
            Token::LBrace => Lexeme::LBrace,
            Token::RBrace => Lexeme::RBrace,
            Token::LBracket => Lexeme::LBracket,
            Token::RBracket => Lexeme::RBracket,
            Token::Colon => Lexeme::Colon,
            Token::Semicolon => Lexeme::Semicolon,
            Token::Comma => Lexeme::Comma,
            Token::Eof => Lexeme::Eof,
        }
    }
}

impl View for SpannedToken {
    type V = Located;

    open spec fn view(&self) -> Located {
        Located { token: self.token@, line: self.line as nat, col: self.col as nat }
    }
}

/// The line of position `i`: one more than the newlines before it.
pub open spec fn line_at(b: Seq<u8>, i: int) -> nat
    decreases i,
{
    if i <= 0 {
        1
    } else if b[i - 1] == 10 {
        line_at(b, i - 1) + 1
    } else {
        line_at(b, i - 1)
    }
}

/// The column of position `i`: one more than the bytes between it and the newline before it.
pub open spec fn col_at(b: Seq<u8>, i: int) -> nat
    decreases i,
{
    if i <= 0 || b[i - 1] == 10 {
        1
    } else {
        col_at(b, i - 1) + 1
    }
}

/// ASCII white space: space, tab, newline, form feed, carriage return.
pub open spec fn is_space(c: u8) -> bool {
    c == 32 || c == 9 || c == 10 || c == 12 || c == 13
}

pub open spec fn is_digit(c: u8) -> bool {
    48 <= c <= 57
}

/// A letter or an underscore: what an identifier starts with.
pub open spec fn is_letter(c: u8) -> bool {
    65 <= c <= 90 || 97 <= c <= 122 || c == 95
}

/// What an identifier goes on with.
pub open spec fn is_word(c: u8) -> bool {
    is_letter(c) || is_digit(c)
}

/// Where the line of position `i` ends: at the next newline, or at the end of the source.
pub open spec fn line_end(b: Seq<u8>, i: int) -> int
    decreases b.len() - i,
{
    if 0 <= i < b.len() && b[i] != 10 {
        line_end(b, i + 1)
    } else {
        i
    }
}

/// Where a run of digits from `i` on ends.
pub open spec fn digits_end(b: Seq<u8>, i: int) -> int
    decreases b.len() - i,
{
    if 0 <= i < b.len() && is_digit(b[i]) {
        digits_end(b, i + 1)
    } else {
        i
    }
}

/// Where a run of identifier bytes from `i` on ends.
pub open spec fn word_end(b: Seq<u8>, i: int) -> int
    decreases b.len() - i,
{
    if 0 <= i < b.len() && is_word(b[i]) {
        word_end(b, i + 1)
    } else {
        i
    }
}

/// Whether a comment starts at `i`.
pub open spec fn is_comment(b: Seq<u8>, i: int) -> bool {
    0 <= i && i + 1 < b.len() && b[i] == 47 && b[i + 1] == 47
}

/// Where the next token starts from `i` on: behind white space and line comments.
pub open spec fn skip_blank(b: Seq<u8>, i: int) -> int
    decreases b.len() - i,
{
    proof {
        if is_comment(b, i) {
            lemma_line_end(b, i + 2);
        }
    }
    if 0 <= i < b.len() && is_space(b[i]) {
        skip_blank(b, i + 1)
    } else if is_comment(b, i) {
        skip_blank(b, line_end(b, i + 2))
    } else {
        i
    }
}

/// The text of a run of bytes, one character for each.
pub open spec fn text_of(b: Seq<u8>) -> Seq<char> {
    b.map_values(|c: u8| c as char)
}

/// The number that a run of digits stands for.
pub open spec fn digits_value(b: Seq<u8>) -> nat
    decreases b.len(),
{
    if b.len() == 0 {
        0
    } else {
        digits_value(b.drop_last()) * 10 + (b.last() - 48) as nat
    }
}

/// The token that a word is: a keyword or an identifier.
pub open spec fn word_token(word: Seq<char>) -> Lexeme {
    if word == "namespace"@ {
        Lexeme::Namespace
    } else if word == "struct"@ {
        Lexeme::Struct
    } else if word == "enum"@ {
        Lexeme::Enum
    } else if word == "channel"@ {
        Lexeme::Channel
    } else {
        Lexeme::Ident(word)
    }
}

/// The punctuation that a byte is.
pub open spec fn punctuation(c: u8) -> Option<Lexeme> {
    if c == 123 {
        Some(Lexeme::LBrace)
    } else if c == 125 {
        Some(Lexeme::RBrace)
    } else if c == 91 {
        Some(Lexeme::LBracket)
    } else if c == 93 {
        Some(Lexeme::RBracket)
    } else if c == 58 {
        Some(Lexeme::Colon)
    } else if c == 59 {
        Some(Lexeme::Semicolon)
    } else if c == 44 {
        Some(Lexeme::Comma)
    } else {
        None
    }
}

/// What keeps a source from being read as tokens.
pub enum LexFault {
    /// The byte at this position starts no token.
    Unexpected(int),
    /// The digits between these positions stand for a number that is too large.
    BadInteger(int, int),
}

/// The token that starts at `i`, and where it ends.
pub open spec fn lex_one(b: Seq<u8>, i: int) -> Result<(Lexeme, int), LexFault> {
    if punctuation(b[i]) is Some {
        Ok((punctuation(b[i]).unwrap(), i + 1))
    } else if is_digit(b[i]) {
        let end = digits_end(b, i);
        let value = digits_value(b.subrange(i, end));
        if value <= usize::MAX {
            Ok((Lexeme::IntLit(value as usize), end))
        } else {
            Err(LexFault::BadInteger(i, end))
        }
    } else if is_letter(b[i]) {
        let end = word_end(b, i);
        Ok((word_token(text_of(b.subrange(i, end))), end))
    } else {
        Err(LexFault::Unexpected(i))
    }
}

/// The tokens of a source from `i` on, the last of which marks its end.
pub open spec fn lex_all(b: Seq<u8>, i: int) -> Result<Seq<Located>, LexFault>
    decreases b.len() - i,
{
    proof {
        lemma_skip_blank(b, i);
        if skip_blank(b, i) < b.len() {
            lemma_lex_one(b, skip_blank(b, i));
        }
    }
    let p = skip_blank(b, i);
    let line = line_at(b, p);
    let col = col_at(b, p);
    if !(0 <= p < b.len()) {
        Ok(seq![Located { token: Lexeme::Eof, line, col }])
    } else {
        match lex_one(b, p) {
            Ok((token, end)) => match lex_all(b, end) {
                Ok(rest) => Ok(seq![Located { token, line, col }] + rest),
                Err(fault) => Err(fault),
            },
            Err(fault) => Err(fault),
        }
    }
}

/// The message for a fault.
pub open spec fn fault_text(b: Seq<u8>, fault: LexFault) -> Seq<char> {
    match fault {
        LexFault::Unexpected(at) => place_text(line_at(b, at), col_at(b, at))
            + "unexpected character '"@ + seq![b[at] as char] + "'"@,
        LexFault::BadInteger(start, end) => place_text(line_at(b, end), col_at(b, end))
            + "invalid integer '"@ + text_of(b.subrange(start, end)) + "'"@,
    }
}

/// The start of a message about a place in the source.
pub open spec fn place_text(line: nat, col: nat) -> Seq<char> {
    text::decimal(line) + ":"@ + text::decimal(col) + ": "@
}

pub proof fn lemma_line_end(b: Seq<u8>, i: int)
    requires
        0 <= i,
    ensures
        i <= line_end(b, i),
        i <= b.len() ==> line_end(b, i) <= b.len(),
        forall|j: int| i <= j < line_end(b, i) ==> b[j] != 10,
    decreases b.len() - i,
{
    if i < b.len() && b[i] != 10 {
        lemma_line_end(b, i + 1);
    }
}

pub proof fn lemma_digits_end(b: Seq<u8>, i: int)
    requires
        0 <= i <= b.len(),
    ensures
        i <= digits_end(b, i) <= b.len(),
        forall|j: int| i <= j < digits_end(b, i) ==> is_digit(b[j]),
    decreases b.len() - i,
{
    if i < b.len() && is_digit(b[i]) {
        lemma_digits_end(b, i + 1);
    }
}

pub proof fn lemma_word_end(b: Seq<u8>, i: int)
    requires
        0 <= i <= b.len(),
    ensures
        i <= word_end(b, i) <= b.len(),
        forall|j: int| i <= j < word_end(b, i) ==> is_word(b[j]),
    decreases b.len() - i,
{
    if i < b.len() && is_word(b[i]) {
        lemma_word_end(b, i + 1);
    }
}

pub proof fn lemma_skip_blank(b: Seq<u8>, i: int)
    ensures
        i <= skip_blank(b, i),
        0 <= i <= b.len() ==> skip_blank(b, i) <= b.len(),
        i < 0 ==> skip_blank(b, i) == i,
    decreases b.len() - i,
{
    if 0 <= i < b.len() && is_space(b[i]) {
        lemma_skip_blank(b, i + 1);
    } else if is_comment(b, i) {
        lemma_line_end(b, i + 2);
        lemma_skip_blank(b, line_end(b, i + 2));
    }
}

/// A token takes at least one byte.
pub proof fn lemma_lex_one(b: Seq<u8>, i: int)
    requires
        i < b.len(),
    ensures
        0 <= i ==> (lex_one(b, i) matches Ok((_, end)) ==> i < end <= b.len()),
{
    if 0 <= i {
        lemma_digits_end(b, i + 1);
        lemma_word_end(b, i + 1);
    }
}

/// Appends the start of a message about a place in the source.
pub fn push_place(out: &mut String, line: usize, col: usize)
    ensures
        final(out)@ == old(out)@ + place_text(line as nat, col as nat),
{
    push_decimal(out, line as u64);
    out.append(":");
    push_decimal(out, col as u64);
    out.append(": ");
    assert(out@ =~= old(out)@ + place_text(line as nat, col as nat));
}

fn is_space_byte(c: u8) -> (r: bool)
    ensures
        r == is_space(c),
{
    c == 32 || c == 9 || c == 10 || c == 12 || c == 13
}

fn is_digit_byte(c: u8) -> (r: bool)
    ensures
        r == is_digit(c),
{
    48 <= c && c <= 57
}

fn is_letter_byte(c: u8) -> (r: bool)
    ensures
        r == is_letter(c),
{
    (65 <= c && c <= 90) || (97 <= c && c <= 122) || c == 95
}

/// A reader of tokens, at a place in a source.
pub struct Lexer<'a> {
    pub input: &'a [u8],
    pub pos: usize,
    pub line: usize,
    pub col: usize,
}

impl<'a> Lexer<'a> {
    /// Whether line and column are those of the position.
    pub open spec fn wf(&self) -> bool {
        &&& self.input@.len() < usize::MAX
        &&& self.pos <= self.input@.len()
        &&& self.line == line_at(self.input@, self.pos as int)
        &&& self.col == col_at(self.input@, self.pos as int)
        &&& self.line <= self.pos + 1
        &&& self.col <= self.pos + 1
    }

    /// A lexer at the start of a source, which must be shorter than the largest number.
    pub fn new(input: &'a str) -> (lexer: Lexer<'a>)
        requires
            vstd::utf8::encode_utf8(input@).len() < usize::MAX,
        ensures
            lexer.wf(),
            lexer.input@ == vstd::utf8::encode_utf8(input@),
            lexer.pos == 0,
    {
        Lexer { input: input.as_bytes(), pos: 0, line: 1, col: 1 }
    }

    /// Reads all tokens from here on; the last one marks the end of the source.
    pub fn tokenize(&mut self) -> (r: Result<Vec<SpannedToken>, String>)
        requires
            old(self).wf(),
        ensures
            final(self).wf(),
            final(self).input == old(self).input,
            match lex_all(old(self).input@, old(self).pos as int) {
                Ok(all) => r matches Ok(tokens) && tokens@.map_values(|t: SpannedToken| t@) == all,
                Err(fault) => r matches Err(message) && message@ == fault_text(
                    old(self).input@,
                    fault,
                ),
            },
    {
        let mut tokens: Vec<SpannedToken> = Vec::new();
        let ghost b = self.input@;
        let ghost all = lex_all(b, self.pos as int);
        proof {
            assert(tokens@.map_values(|t: SpannedToken| t@) =~= Seq::<Located>::empty());
        }
        loop
            invariant
                self.wf(),
                self.input@ == b,
                self.input == old(self).input,
                b == old(self).input@,
                all == lex_all(b, old(self).pos as int),
                match lex_all(b, self.pos as int) {
                    Ok(rest) => all matches Ok(whole) && whole == tokens@.map_values(
                        |t: SpannedToken| t@,
                    ) + rest,
                    Err(fault) => all == Err::<Seq<Located>, LexFault>(fault),
                },
            decreases b.len() - self.pos,
        {
            let ghost start = self.pos as int;
            let ghost before = tokens@.map_values(|t: SpannedToken| t@);
            proof {
                lemma_skip_blank(b, start);
            }
            let token: SpannedToken = match self.next_token() {
                Ok(token) => token,
                Err(message) => {
                    return Err(message);
                },
            };
            let at_end: bool = match token.token {
                Token::Eof => true,
                _ => false,
            };
            let ghost last = token@;
            tokens.push(token);
            proof {
                let after = tokens@.map_values(|t: SpannedToken| t@);
                assert(after =~= before.push(last));
                match lex_all(b, self.pos as int) {
                    Ok(rest) => {
                        assert(after + rest =~= before + (seq![last] + rest));
                    },
                    Err(_) => {},
                }
                assert(after =~= before + seq![last]);
            }
            if at_end {
                return Ok(tokens);
            }
        }
    }

    /// Reads the next token.
    fn next_token(&mut self) -> (r: Result<SpannedToken, String>)
        requires
            old(self).wf(),
        ensures
            final(self).wf(),
            final(self).input == old(self).input,
            ({
                let b = old(self).input@;
                let p = skip_blank(b, old(self).pos as int);
                if p >= b.len() {
                    r matches Ok(token) && token@ == (Located {
                        token: Lexeme::Eof,
                        line: line_at(b, p),
                        col: col_at(b, p),
                    })
                } else {
                    match lex_one(b, p) {
                        Ok((lexeme, end)) => {
                            &&& r matches Ok(token) && token@ == (Located {
                                token: lexeme,
                                line: line_at(b, p),
                                col: col_at(b, p),
                            })
                            &&& lexeme !is Eof
                            &&& final(self).pos == end
                            &&& end > old(self).pos
                        },
                        Err(fault) => r matches Err(message) && message@ == fault_text(b, fault),
                    }
                }
            }),
    {
        proof {
            lemma_skip_blank(self.input@, self.pos as int);
        }
        self.skip_whitespace_and_comments();
        let line: usize = self.line;
        let col: usize = self.col;
        if self.pos >= self.input.len() {
            return Ok(SpannedToken { token: Token::Eof, line, col });
        }
        let ghost p = self.pos as int;
        proof {
            lemma_lex_one(self.input@, p);
        }
        let c: u8 = self.input[self.pos];
        let token: Token = if c == 123 {
            self.advance();
            Token::LBrace
        } else if c == 125 {
            self.advance();
            Token::RBrace
        } else if c == 91 {
            self.advance();
            Token::LBracket
        } else if c == 93 {
            self.advance();
            Token::RBracket
        } else if c == 58 {
            self.advance();
            Token::Colon
        } else if c == 59 {
            self.advance();
            Token::Semicolon
        } else if c == 44 {
            self.advance();
            Token::Comma
        } else if is_digit_byte(c) {
            match self.lex_number() {
                Ok(token) => token,
                Err(message) => {
                    return Err(message);
                },
            }
        } else if is_letter_byte(c) {
            self.lex_ident()
        } else {
            let mut message: String = String::new();
            push_place(&mut message, line, col);
            message.append("unexpected character '");
            message.push(c as char);
            message.append("'");
            assert(message@ =~= fault_text(self.input@, LexFault::Unexpected(p)));
            return Err(message);
        };
        Ok(SpannedToken { token, line, col })
    }

    /// Goes one byte further.
    fn advance(&mut self)
        requires
            old(self).wf(),
            old(self).pos < old(self).input@.len(),
        ensures
            final(self).wf(),
            final(self).input == old(self).input,
            final(self).pos == old(self).pos + 1,
    {
        if self.input[self.pos] == 10 {
            self.line = self.line + 1;
            self.col = 1;
        } else {
            self.col = self.col + 1;
        }
        self.pos = self.pos + 1;
    }

    fn skip_whitespace_and_comments(&mut self)
        requires
            old(self).wf(),
        ensures
            final(self).wf(),
            final(self).input == old(self).input,
            final(self).pos == skip_blank(old(self).input@, old(self).pos as int),
    {
        let ghost b = self.input@;
        let ghost goal = skip_blank(b, self.pos as int);
        loop
            invariant
                self.wf(),
                self.input == old(self).input,
                b == self.input@,
                goal == skip_blank(b, self.pos as int),
                goal == skip_blank(old(self).input@, old(self).pos as int),
            decreases b.len() - self.pos,
        {
            let ghost from = self.pos;
            while self.pos < self.input.len() && is_space_byte(self.input[self.pos])
                invariant
                    self.wf(),
                    from <= self.pos,
                    self.input == old(self).input,
                    b == self.input@,
                    goal == skip_blank(b, self.pos as int),
                decreases b.len() - self.pos,
            {
                self.advance();
            }
            let ghost start = self.pos as int;
            if self.pos + 1 < self.input.len() && self.input[self.pos] == 47
                && self.input[self.pos + 1] == 47 {
                proof {
                    lemma_line_end(b, start + 2);
                }
                self.advance();
                self.advance();
                while self.pos < self.input.len() && self.input[self.pos] != 10
                    invariant
                        self.wf(),
                        self.input == old(self).input,
                        b == self.input@,
                        start + 2 <= self.pos,
                        line_end(b, start + 2) == line_end(b, self.pos as int),
                    decreases b.len() - self.pos,
                {
                    self.advance();
                }
            } else {
                return;
            }
        }
    }

    fn lex_number(&mut self) -> (r: Result<Token, String>)
        requires
            old(self).wf(),
            old(self).pos < old(self).input@.len(),
            is_digit(old(self).input@[old(self).pos as int]),
        ensures
            final(self).wf(),
            final(self).input == old(self).input,
            ({
                let b = old(self).input@;
                let start = old(self).pos as int;
                let end = digits_end(b, start);
                let value = digits_value(b.subrange(start, end));
                &&& final(self).pos == end
                &&& if value <= usize::MAX {
                    r matches Ok(token) && token@ == Lexeme::IntLit(value as usize)
                } else {
                    r matches Err(message) && message@ == fault_text(
                        b,
                        LexFault::BadInteger(start, end),
                    )
                }
            }),
    {
        let start: usize = self.pos;
        let ghost b = self.input@;
        let ghost end = digits_end(b, start as int);
        let mut value: Option<usize> = Some(0);
        proof {
            assert(b.subrange(start as int, start as int) =~= Seq::<u8>::empty());
        }
        while self.pos < self.input.len() && is_digit_byte(self.input[self.pos])
            invariant
                self.wf(),
                self.input == old(self).input,
                b == self.input@,
                start <= self.pos,
                end == digits_end(b, self.pos as int),
                match value {
                    Some(n) => n == digits_value(b.subrange(start as int, self.pos as int)),
                    None => digits_value(b.subrange(start as int, self.pos as int)) > usize::MAX,
                },
            decreases b.len() - self.pos,
        {
            let digit: usize = (self.input[self.pos] - 48) as usize;
            proof {
                let longer = b.subrange(start as int, self.pos + 1);
                assert(longer.drop_last() =~= b.subrange(start as int, self.pos as int));
                assert(longer.last() == b[self.pos as int]);
            }
            value = match value {
                Some(n) => match n.checked_mul(10) {
                    Some(tens) => tens.checked_add(digit),
                    None => None,
                },
                None => None,
            };
            self.advance();
        }
        match value {
            Some(n) => Ok(Token::IntLit(n)),
            None => {
                let mut message: String = String::new();
                push_place(&mut message, self.line, self.col);
                message.append("invalid integer '");
                let digits: String = self.text_from(start);
                message.append(digits.as_str());
                message.append("'");
                assert(message@ =~= fault_text(b, LexFault::BadInteger(start as int, end)));
                Err(message)
            },
        }
    }

    /// The text from `start` up to here.
    fn text_from(&self, start: usize) -> (out: String)
        requires
            self.wf(),
            start <= self.pos,
        ensures
            out@ == text_of(self.input@.subrange(start as int, self.pos as int)),
    {
        let mut out: String = String::new();
        let mut i: usize = start;
        while i < self.pos
            invariant
                self.wf(),
                start <= i <= self.pos,
                out@ == text_of(self.input@.subrange(start as int, i as int)),
            decreases self.pos - i,
        {
            out.push(self.input[i] as char);
            i = i + 1;
            assert(out@ =~= text_of(self.input@.subrange(start as int, i as int)));
        }
        out
    }

    fn lex_ident(&mut self) -> (token: Token)
        requires
            old(self).wf(),
            old(self).pos < old(self).input@.len(),
        ensures
            final(self).wf(),
            final(self).input == old(self).input,
            final(self).pos == word_end(old(self).input@, old(self).pos as int),
            token@ == word_token(
                text_of(
                    old(self).input@.subrange(
                        old(self).pos as int,
                        word_end(old(self).input@, old(self).pos as int),
                    ),
                ),
            ),
    {
        let start: usize = self.pos;
        let ghost b = self.input@;
        let ghost end = word_end(b, start as int);
        while self.pos < self.input.len() && (is_letter_byte(self.input[self.pos])
            || is_digit_byte(self.input[self.pos]))
            invariant
                self.wf(),
                self.input == old(self).input,
                b == self.input@,
                start <= self.pos,
                end == word_end(b, self.pos as int),
            decreases b.len() - self.pos,
        {
            self.advance();
        }
        let word: String = self.text_from(start);
        if same_text(word.as_str(), "namespace") {
            Token::Namespace
        } else if same_text(word.as_str(), "struct") {
            Token::Struct
        } else if same_text(word.as_str(), "enum") {
            Token::Enum
        } else if same_text(word.as_str(), "channel") {
            Token::Channel
        } else {
            Token::Ident(word)
        }
    }
}

} // verus!
