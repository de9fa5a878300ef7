//! Parser for the .bridge format.
//! Consumes the tokens of the lexer and produces a syntax tree.
use vstd::prelude::*;
use crate::idl::ast;
use crate::idl::ast::{
    ChannelDef, ChannelEntry, EnumDef, Field, Item, PrimitiveType, Schema, StructDef, Type, Variant,
};
use crate::idl::lexer;
use crate::idl::lexer::{push_place, SpannedToken, Token};
use crate::text;
use crate::text::{push_decimal, same_text};

verus! {

/// What the parser looked for.
pub enum Wanted {
    Token(lexer::Lexeme),
    Identifier,
    ArrayLength,
    Declaration,
}

/// What keeps tokens from being read as a schema: the token at this index is not what was
/// wanted.
pub struct Fault {
    pub at: int,
    pub wanted: Wanted,
}

/// The token at `i`; behind the last one there is nothing but the end.
pub open spec fn tok(toks: Seq<lexer::Lexeme>, i: int) -> lexer::Lexeme {
    if 0 <= i < toks.len() {
        toks[i]
    } else {
        lexer::Lexeme::Eof
    }
}

/// Reads the token `t`.
pub open spec fn read_token(toks: Seq<lexer::Lexeme>, i: int, t: lexer::Lexeme) -> Result<
    int,
    Fault,
> {
    if tok(toks, i) == t {
        Ok(i + 1)
    } else {
        Err(Fault { at: i, wanted: Wanted::Token(t) })
    }
}

/// Reads an identifier.
pub open spec fn read_ident(toks: Seq<lexer::Lexeme>, i: int) -> Result<(Seq<char>, int), Fault> {
    match tok(toks, i) {
        lexer::Lexeme::Ident(name) => Ok((name, i + 1)),
        _ => Err(Fault { at: i, wanted: Wanted::Identifier }),
    }
}

/// The type that a name stands for: a primitive, or the struct or enum of that name.
pub open spec fn named_type(name: Seq<char>) -> ast::TypeView {
    if name == "u8"@ {
        ast::TypeView::Primitive(PrimitiveType::U8)
    } else if name == "u16"@ {
        ast::TypeView::Primitive(PrimitiveType::U16)
    } else if name == "u32"@ {
        ast::TypeView::Primitive(PrimitiveType::U32)
    } else if name == "u64"@ {
        ast::TypeView::Primitive(PrimitiveType::U64)
    } else if name == "i8"@ {
        ast::TypeView::Primitive(PrimitiveType::I8)
    } else if name == "i16"@ {
        ast::TypeView::Primitive(PrimitiveType::I16)
    } else if name == "i32"@ {
        ast::TypeView::Primitive(PrimitiveType::I32)
    } else if name == "i64"@ {
        ast::TypeView::Primitive(PrimitiveType::I64)
    } else if name == "f32"@ {
        ast::TypeView::Primitive(PrimitiveType::F32)
    } else if name == "f64"@ {
        ast::TypeView::Primitive(PrimitiveType::F64)
    } else if name == "bool"@ {
        ast::TypeView::Primitive(PrimitiveType::Bool)
    } else {
        ast::TypeView::Named(name)
    }
}

/// Reads a type: a name, or `[` type `;` length `]`.
pub open spec fn read_type(toks: Seq<lexer::Lexeme>, i: int) -> Result<(ast::TypeView, int), Fault>
    decreases toks.len() - i,
{
    if tok(toks, i) == lexer::Lexeme::LBracket {
        match read_type(toks, i + 1) {
            Ok((inner, j)) => match read_token(toks, j, lexer::Lexeme::Semicolon) {
                Ok(k) => match tok(toks, k) {
                    lexer::Lexeme::IntLit(n) => match read_token(
                        toks,
                        k + 1,
                        lexer::Lexeme::RBracket,
                    ) {
                        Ok(end) => Ok((ast::TypeView::Array(Box::new(inner), n), end)),
                        Err(fault) => Err(fault),
                    },
                    _ => Err(Fault { at: k, wanted: Wanted::ArrayLength }),
                },
                Err(fault) => Err(fault),
            },
            Err(fault) => Err(fault),
        }
    } else {
        match read_ident(toks, i) {
            Ok((name, j)) => Ok((named_type(name), j)),
            Err(fault) => Err(fault),
        }
    }
}

/// Passes over a comma, if there is one.
pub open spec fn skip_comma(toks: Seq<lexer::Lexeme>, i: int) -> int {
    if tok(toks, i) == lexer::Lexeme::Comma {
        i + 1
    } else {
        i
    }
}

/// Reads a field: name `:` type.
pub open spec fn read_field(toks: Seq<lexer::Lexeme>, i: int) -> Result<
    (ast::FieldView, int),
    Fault,
> {
    match read_ident(toks, i) {
        Ok((name, j)) => match read_token(toks, j, lexer::Lexeme::Colon) {
            Ok(k) => match read_type(toks, k) {
                Ok((ty, end)) => Ok((ast::FieldView { name, ty }, end)),
                Err(fault) => Err(fault),
            },
            Err(fault) => Err(fault),
        },
        Err(fault) => Err(fault),
    }
}

/// Reads fields up to a closing brace, each with an optional comma behind it.
pub open spec fn read_fields(toks: Seq<lexer::Lexeme>, i: int) -> Result<
    (Seq<ast::FieldView>, int),
    Fault,
>
    decreases toks.len() - i,
{
    proof {
        lemma_field(toks, i);
    }
    if tok(toks, i) == lexer::Lexeme::RBrace {
        Ok((Seq::empty(), i))
    } else {
        match read_field(toks, i) {
            Ok((field, j)) => match read_fields(toks, skip_comma(toks, j)) {
                Ok((rest, end)) => Ok((seq![field] + rest, end)),
                Err(fault) => Err(fault),
            },
            Err(fault) => Err(fault),
        }
    }
}

/// Reads `{` fields `}`.
pub open spec fn read_block(toks: Seq<lexer::Lexeme>, i: int) -> Result<
    (Seq<ast::FieldView>, int),
    Fault,
> {
    match read_token(toks, i, lexer::Lexeme::LBrace) {
        Ok(j) => match read_fields(toks, j) {
            Ok((fields, k)) => match read_token(toks, k, lexer::Lexeme::RBrace) {
                Ok(end) => Ok((fields, end)),
                Err(fault) => Err(fault),
            },
            Err(fault) => Err(fault),
        },
        Err(fault) => Err(fault),
    }
}

/// Reads a variant: a name, and `{` fields `}` if there is an opening brace.
pub open spec fn read_variant(toks: Seq<lexer::Lexeme>, i: int) -> Result<
    (ast::VariantView, int),
    Fault,
> {
    match read_ident(toks, i) {
        Ok((name, j)) => if tok(toks, j) == lexer::Lexeme::LBrace {
            match read_block(toks, j) {
                Ok((fields, end)) => Ok((ast::VariantView { name, fields }, end)),
                Err(fault) => Err(fault),
            }
        } else {
            Ok((ast::VariantView { name, fields: Seq::empty() }, j))
        },
        Err(fault) => Err(fault),
    }
}

/// Reads variants up to a closing brace, each with an optional comma behind it.
pub open spec fn read_variants(toks: Seq<lexer::Lexeme>, i: int) -> Result<
    (Seq<ast::VariantView>, int),
    Fault,
>
    decreases toks.len() - i,
{
    proof {
        lemma_variant(toks, i);
    }
    if tok(toks, i) == lexer::Lexeme::RBrace {
        Ok((Seq::empty(), i))
    } else {
        match read_variant(toks, i) {
            Ok((variant, j)) => match read_variants(toks, skip_comma(toks, j)) {
                Ok((rest, end)) => Ok((seq![variant] + rest, end)),
                Err(fault) => Err(fault),
            },
            Err(fault) => Err(fault),
        }
    }
}

/// Reads a channel entry: name `:` type name.
pub open spec fn read_entry(toks: Seq<lexer::Lexeme>, i: int) -> Result<
    (ast::EntryView, int),
    Fault,
> {
    match read_ident(toks, i) {
        Ok((name, j)) => match read_token(toks, j, lexer::Lexeme::Colon) {
            Ok(k) => match read_ident(toks, k) {
                Ok((ty, end)) => Ok((ast::EntryView { name, ty }, end)),
                Err(fault) => Err(fault),
            },
            Err(fault) => Err(fault),
        },
        Err(fault) => Err(fault),
    }
}

/// Reads channel entries up to a closing brace, each with an optional comma behind it.
pub open spec fn read_entries(toks: Seq<lexer::Lexeme>, i: int) -> Result<
    (Seq<ast::EntryView>, int),
    Fault,
>
    decreases toks.len() - i,
{
    if tok(toks, i) == lexer::Lexeme::RBrace {
        Ok((Seq::empty(), i))
    } else {
        match read_entry(toks, i) {
            Ok((entry, j)) => match read_entries(toks, skip_comma(toks, j)) {
                Ok((rest, end)) => Ok((seq![entry] + rest, end)),
                Err(fault) => Err(fault),
            },
            Err(fault) => Err(fault),
        }
    }
}

/// Reads a keyword, a name and an opening brace: what every declaration starts with.
pub open spec fn read_head(toks: Seq<lexer::Lexeme>, i: int, keyword: lexer::Lexeme) -> Result<
    (Seq<char>, int),
    Fault,
> {
    match read_token(toks, i, keyword) {
        Ok(j) => match read_ident(toks, j) {
            Ok((name, k)) => match read_token(toks, k, lexer::Lexeme::LBrace) {
                Ok(end) => Ok((name, end)),
                Err(fault) => Err(fault),
            },
            Err(fault) => Err(fault),
        },
        Err(fault) => Err(fault),
    }
}

/// Reads `struct` name `{` fields `}`.
pub open spec fn read_struct(toks: Seq<lexer::Lexeme>, i: int) -> Result<
    (ast::StructView, int),
    Fault,
> {
    match read_head(toks, i, lexer::Lexeme::Struct) {
        Ok((name, j)) => match read_fields(toks, j) {
            Ok((fields, k)) => match read_token(toks, k, lexer::Lexeme::RBrace) {
                Ok(end) => Ok((ast::StructView { name, fields }, end)),
                Err(fault) => Err(fault),
            },
            Err(fault) => Err(fault),
        },
        Err(fault) => Err(fault),
    }
}

/// Reads `enum` name `{` variants `}`.
pub open spec fn read_enum(toks: Seq<lexer::Lexeme>, i: int) -> Result<(ast::EnumView, int), Fault> {
    match read_head(toks, i, lexer::Lexeme::Enum) {
        Ok((name, j)) => match read_variants(toks, j) {
            Ok((variants, k)) => match read_token(toks, k, lexer::Lexeme::RBrace) {
                Ok(end) => Ok((ast::EnumView { name, variants }, end)),
                Err(fault) => Err(fault),
            },
            Err(fault) => Err(fault),
        },
        Err(fault) => Err(fault),
    }
}

/// Reads `channel` name `{` entries `}`.
pub open spec fn read_channel(toks: Seq<lexer::Lexeme>, i: int) -> Result<
    (ast::ChannelView, int),
    Fault,
> {
    match read_head(toks, i, lexer::Lexeme::Channel) {
        Ok((name, j)) => match read_entries(toks, j) {
            Ok((entries, k)) => match read_token(toks, k, lexer::Lexeme::RBrace) {
                Ok(end) => Ok((ast::ChannelView { name, entries }, end)),
                Err(fault) => Err(fault),
            },
            Err(fault) => Err(fault),
        },
        Err(fault) => Err(fault),
    }
}

/// Reads a declaration.
pub open spec fn read_item(toks: Seq<lexer::Lexeme>, i: int) -> Result<(ast::ItemView, int), Fault> {
    match tok(toks, i) {
        lexer::Lexeme::Struct => match read_struct(toks, i) {
            Ok((def, end)) => Ok((ast::ItemView::Struct(def), end)),
            Err(fault) => Err(fault),
        },
        lexer::Lexeme::Enum => match read_enum(toks, i) {
            Ok((def, end)) => Ok((ast::ItemView::Enum(def), end)),
            Err(fault) => Err(fault),
        },
        lexer::Lexeme::Channel => match read_channel(toks, i) {
            Ok((def, end)) => Ok((ast::ItemView::Channel(def), end)),
            Err(fault) => Err(fault),
        },
        _ => Err(Fault { at: i, wanted: Wanted::Declaration }),
    }
}

/// Reads declarations up to the end.
pub open spec fn read_items(toks: Seq<lexer::Lexeme>, i: int) -> Result<
    (Seq<ast::ItemView>, int),
    Fault,
>
    decreases toks.len() - i,
{
    proof {
        lemma_item(toks, i);
    }
    if tok(toks, i) == lexer::Lexeme::Eof {
        Ok((Seq::empty(), i))
    } else {
        match read_item(toks, i) {
            Ok((item, j)) => match read_items(toks, j) {
                Ok((rest, end)) => Ok((seq![item] + rest, end)),
                Err(fault) => Err(fault),
            },
            Err(fault) => Err(fault),
        }
    }
}

/// Reads `namespace` name `;`.
pub open spec fn read_namespace(toks: Seq<lexer::Lexeme>, i: int) -> Result<
    (Seq<char>, int),
    Fault,
> {
    match read_token(toks, i, lexer::Lexeme::Namespace) {
        Ok(j) => match read_ident(toks, j) {
            Ok((name, k)) => match read_token(toks, k, lexer::Lexeme::Semicolon) {
                Ok(end) => Ok((name, end)),
                Err(fault) => Err(fault),
            },
            Err(fault) => Err(fault),
        },
        Err(fault) => Err(fault),
    }
}

/// Reads a schema: an optional namespace, then declarations.
pub open spec fn read_schema(toks: Seq<lexer::Lexeme>, i: int) -> Result<
    (ast::SchemaView, int),
    Fault,
> {
    let head: Result<(Option<Seq<char>>, int), Fault> = if tok(toks, i)
        == lexer::Lexeme::Namespace {
        match read_namespace(toks, i) {
            Ok((name, j)) => Ok((Some(name), j)),
            Err(fault) => Err(fault),
        }
    } else {
        Ok((None, i))
    };
    match head {
        Ok((namespace, j)) => match read_items(toks, j) {
            Ok((items, end)) => Ok((ast::SchemaView { namespace, items }, end)),
            Err(fault) => Err(fault),
        },
        Err(fault) => Err(fault),
    }
}

pub proof fn lemma_type(toks: Seq<lexer::Lexeme>, i: int)
    ensures
        read_type(toks, i) matches Ok((_, end)) ==> 0 <= i < end <= toks.len(),
    decreases toks.len() - i,
{
    if tok(toks, i) == lexer::Lexeme::LBracket {
        lemma_type(toks, i + 1);
    }
}

pub proof fn lemma_field(toks: Seq<lexer::Lexeme>, i: int)
    ensures
        read_field(toks, i) matches Ok((_, end)) ==> 0 <= i < end <= toks.len(),
{
    lemma_type(toks, i + 2);
}

pub proof fn lemma_fields(toks: Seq<lexer::Lexeme>, i: int)
    ensures
        read_fields(toks, i) matches Ok((_, end)) ==> i <= end < toks.len() && tok(toks, end)
            == lexer::Lexeme::RBrace,
    decreases toks.len() - i,
{
    if tok(toks, i) != lexer::Lexeme::RBrace {
        lemma_field(toks, i);
        if let Ok((_, j)) = read_field(toks, i) {
            lemma_fields(toks, skip_comma(toks, j));
        }
    }
}

pub proof fn lemma_variant(toks: Seq<lexer::Lexeme>, i: int)
    ensures
        read_variant(toks, i) matches Ok((_, end)) ==> 0 <= i < end <= toks.len(),
{
    lemma_fields(toks, i + 2);
}

pub proof fn lemma_variants(toks: Seq<lexer::Lexeme>, i: int)
    ensures
        read_variants(toks, i) matches Ok((_, end)) ==> i <= end < toks.len() && tok(toks, end)
            == lexer::Lexeme::RBrace,
    decreases toks.len() - i,
{
    if tok(toks, i) != lexer::Lexeme::RBrace {
        lemma_variant(toks, i);
        if let Ok((_, j)) = read_variant(toks, i) {
            lemma_variants(toks, skip_comma(toks, j));
        }
    }
}

pub proof fn lemma_entries(toks: Seq<lexer::Lexeme>, i: int)
    ensures
        read_entries(toks, i) matches Ok((_, end)) ==> i <= end < toks.len() && tok(toks, end)
            == lexer::Lexeme::RBrace,
    decreases toks.len() - i,
{
    if tok(toks, i) != lexer::Lexeme::RBrace {
        if let Ok((_, j)) = read_entry(toks, i) {
            lemma_entries(toks, skip_comma(toks, j));
        }
    }
}

pub proof fn lemma_item(toks: Seq<lexer::Lexeme>, i: int)
    ensures
        read_item(toks, i) matches Ok((_, end)) ==> 0 <= i < end <= toks.len(),
{
    lemma_fields(toks, i + 3);
    lemma_variants(toks, i + 3);
    lemma_entries(toks, i + 3);
}

/// How std shows a string for debugging: in quotes, with characters escaped that need it.
pub uninterp spec fn str_debug(s: Seq<char>) -> Seq<char>;

/// Whether a string is made of ASCII letters, digits and underscores.
pub open spec fn is_plain(s: Seq<char>) -> bool {
    forall|i: int|
        0 <= i < s.len() ==> {
            let c = #[trigger] s[i] as u32;
            48 <= c <= 57 || 65 <= c <= 90 || 97 <= c <= 122 || c == 95
        }
}

/// `Debug` of std for `str`, by `format!`: the string in quotes, with escapes. Which characters
/// are escaped is not stated, but that ASCII letters, digits and underscores are not.
#[verifier::external_body]
fn debug_str(s: &str) -> (out: String)
    ensures
        out@ == str_debug(s@),
        is_plain(s@) ==> out@ == seq!['"'] + s@ + seq!['"'],
{
    format!("{:?}", s)
}

/// A token as it is named in messages, `quoted` being the name of an identifier in quotes.
pub open spec fn shown(t: lexer::Lexeme, quoted: Seq<char>) -> Seq<char> {
    match t {
        lexer::Lexeme::Namespace => "Namespace"@,
        lexer::Lexeme::Struct => "Struct"@,
        lexer::Lexeme::Enum => "Enum"@,
        lexer::Lexeme::Channel => "Channel"@,
        lexer::Lexeme::Ident(_) => "Ident("@ + quoted + ")"@,
        lexer::Lexeme::IntLit(n) => "IntLit("@ + text::decimal(n as nat) + ")"@,
        lexer::Lexeme::LBrace => "LBrace"@,
        lexer::Lexeme::RBrace => "RBrace"@,
        lexer::Lexeme::LBracket => "LBracket"@,
        lexer::Lexeme::RBracket => "RBracket"@,
        lexer::Lexeme::Colon => "Colon"@,
        lexer::Lexeme::Semicolon => "Semicolon"@,
        lexer::Lexeme::Comma => "Comma"@,
        lexer::Lexeme::Eof => "Eof"@,
    }
}

/// A token as it is named in messages.
pub open spec fn lexeme_text(t: lexer::Lexeme) -> Seq<char> {
    shown(
        t,
        match t {
            lexer::Lexeme::Ident(name) => str_debug(name),
            _ => Seq::empty(),
        },
    )
}

/// Names a token for a message, `quoted` being the name of an identifier in quotes.
pub fn show_token(token: &Token, quoted: &str) -> (out: String)
    ensures
        out@ == shown(token@, quoted@),
{
    let mut out: String = String::new();
    match token {
        Token::Namespace => out.append("Namespace"),
        Token::Struct => out.append("Struct"),
        Token::Enum => out.append("Enum"),
        Token::Channel => out.append("Channel"),
        Token::Ident(_) => {
            out.append("Ident(");
            out.append(quoted);
            out.append(")");
        },
        Token::IntLit(n) => {
            out.append("IntLit(");
            push_decimal(&mut out, *n as u64);
            out.append(")");
        },
        Token::LBrace => out.append("LBrace"),
        Token::RBrace => out.append("RBrace"),
        Token::LBracket => out.append("LBracket"),
        Token::RBracket => out.append("RBracket"),
        Token::Colon => out.append("Colon"),
        Token::Semicolon => out.append("Semicolon"),
        Token::Comma => out.append("Comma"),
        Token::Eof => out.append("Eof"),
    }
    assert(out@ =~= shown(token@, quoted@));
    out
}

/// Names a token for a message.
pub fn token_text(token: &Token) -> (out: String)
    ensures
        out@ == lexeme_text(token@),
        token@ matches lexer::Lexeme::Ident(name) ==> is_plain(name) ==> out@ == shown(
            token@,
            seq!['"'] + name + seq!['"'],
        ),
{
    match token {
        Token::Ident(name) => {
            let quoted: String = debug_str(name.as_str());
            show_token(token, quoted.as_str())
        },
        _ => show_token(token, ""),
    }
}

/// What a message says was wanted.
pub open spec fn wanted_text(wanted: Wanted) -> Seq<char> {
    match wanted {
        Wanted::Token(t) => "expected "@ + lexeme_text(t) + ", found "@,
        Wanted::Identifier => "expected identifier, found "@,
        Wanted::ArrayLength => "expected array length, found "@,
        Wanted::Declaration => "expected struct, enum, or channel, found "@,
    }
}

/// The message for a fault.
pub open spec fn fault_text(all: Seq<lexer::Located>, fault: Fault) -> Seq<char> {
    let found = all[fault.at];
    lexer::place_text(found.line, found.col) + wanted_text(fault.wanted) + lexeme_text(found.token)
}

/// Whether two tokens say the same.
fn same_token(a: &Token, b: &Token) -> (r: bool)
    ensures
        r == (a@ == b@),
{
    match (a, b) {
        (Token::Namespace, Token::Namespace) => true,
        (Token::Struct, Token::Struct) => true,
        (Token::Enum, Token::Enum) => true,
        (Token::Channel, Token::Channel) => true,
        (Token::Ident(x), Token::Ident(y)) => same_text(x.as_str(), y.as_str()),
        (Token::IntLit(x), Token::IntLit(y)) => *x == *y,
        (Token::LBrace, Token::LBrace) => true,
        (Token::RBrace, Token::RBrace) => true,
        (Token::LBracket, Token::LBracket) => true,
        (Token::RBracket, Token::RBracket) => true,
        (Token::Colon, Token::Colon) => true,
        (Token::Semicolon, Token::Semicolon) => true,
        (Token::Comma, Token::Comma) => true,
        (Token::Eof, Token::Eof) => true,
        _ => false,
    }
}

/// A reader of declarations, at a place among tokens.
pub struct Parser {
    pub tokens: Vec<SpannedToken>,
    pub pos: usize,
}

impl Parser {
    /// What the tokens say.
    pub open spec fn toks(self) -> Seq<lexer::Lexeme> {
        self.tokens@.map_values(|t: SpannedToken| t.token@)
    }

    /// What the tokens say and where they start.
    pub open spec fn located(self) -> Seq<lexer::Located> {
        self.tokens@.map_values(|t: SpannedToken| t@)
    }

    /// Whether the place is one of the tokens, of which the last marks the end.
    pub open spec fn wf(self) -> bool {
        &&& self.pos < self.tokens@.len()
        &&& self.tokens@.last().token@ == lexer::Lexeme::Eof
    }

    /// Whether a reader that stood at `self` and read `wanted` gave this result and stands
    /// there.
    spec fn agrees<T>(
        self,
        wanted: Result<(T, int), Fault>,
        after: Parser,
        ok: Option<T>,
        message: Seq<char>,
    ) -> bool {
        &&& after.wf()
        &&& after.tokens == self.tokens
        &&& match wanted {
            Ok((value, end)) => ok == Some(value) && after.pos == end,
            Err(fault) => {
                &&& ok is None
                &&& message == fault_text(self.located(), fault)
                &&& after.pos == fault.at
            },
        }
    }

    /// A parser at the start of a list of tokens, of which the last marks the end.
    pub fn new(tokens: Vec<SpannedToken>) -> (parser: Parser)
        requires
            tokens@.len() > 0,
            tokens@.last().token@ == lexer::Lexeme::Eof,
        ensures
            parser.wf(),
            parser.tokens == tokens,
            parser.pos == 0,
    {
        Parser { tokens, pos: 0 }
    }

    /// Reads a schema from here on.
    pub fn parse(&mut self) -> (r: Result<Schema, String>)
        requires
            old(self).wf(),
        ensures
            final(self).wf(),
            final(self).tokens == old(self).tokens,
            match read_schema(old(self).toks(), old(self).pos as int) {
                Ok((schema, end)) => {
                    &&& r matches Ok(found) && found@ == schema
                    &&& final(self).pos == end
                },
                Err(fault) => {
                    &&& r matches Err(message) && message@ == fault_text(
                        old(self).located(),
                        fault,
                    )
                    &&& final(self).pos == fault.at
                },
            },
    {
        let ghost toks = self.toks();
        let mut namespace: Option<String> = None;
        if self.peek_is(&Token::Namespace) {
            match self.parse_namespace() {
                Ok(name) => {
                    namespace = Some(name);
                },
                Err(message) => {
                    return Err(message);
                },
            }
        }
        let mut items: Vec<Item> = Vec::new();
        let ghost start = self.pos as int;
        let ghost whole = read_items(toks, start);
        proof {
            assert(items@.map_values(|i: Item| i@) =~= Seq::<ast::ItemView>::empty());
            if let Ok((rest, end)) = whole {
                assert(Seq::<ast::ItemView>::empty() + rest =~= rest);
            }
        }
        while !self.peek_is(&Token::Eof)
            invariant
                self.wf(),
                self.tokens == old(self).tokens,
                toks == self.toks(),
                whole == read_items(toks, start),
                whole matches Err(fault) ==> read_schema(toks, old(self).pos as int) == Err::<
                    (ast::SchemaView, int),
                    Fault,
                >(fault),
                match read_items(toks, self.pos as int) {
                    Ok((rest, end)) => whole == Ok::<(Seq<ast::ItemView>, int), Fault>(
                        (items@.map_values(|i: Item| i@) + rest, end),
                    ),
                    Err(fault) => whole == Err::<(Seq<ast::ItemView>, int), Fault>(fault),
                },
            decreases toks.len() - self.pos,
        {
            let ghost before = items@.map_values(|i: Item| i@);
            let ghost at = self.pos as int;
            proof {
                lemma_item(toks, at);
            }
            let item: Item = match self.parse_item() {
                Ok(item) => item,
                Err(message) => {
                    return Err(message);
                },
            };
            let ghost last = item@;
            items.push(item);
            proof {
                let after = items@.map_values(|i: Item| i@);
                assert(after =~= before.push(last));
                if let Ok((rest, end)) = read_items(toks, self.pos as int) {
                    assert(after + rest =~= before + (seq![last] + rest));
                }
            }
        }
        proof {
            assert(items@.map_values(|i: Item| i@) + Seq::<ast::ItemView>::empty() =~= items@
                .map_values(|i: Item| i@));
        }
        Ok(Schema { namespace, items })
    }

    fn parse_item(&mut self) -> (r: Result<Item, String>)
        requires
            old(self).wf(),
        ensures
            old(self).agrees(
                read_item(old(self).toks(), old(self).pos as int),
                *final(self),
                ok_view(r),
                err_view(r),
            ),
    {
        if self.peek_is(&Token::Struct) {
            match self.parse_struct() {
                Ok(def) => Ok(Item::Struct(def)),
                Err(message) => Err(message),
            }
        } else if self.peek_is(&Token::Enum) {
            match self.parse_enum() {
                Ok(def) => Ok(Item::Enum(def)),
                Err(message) => Err(message),
            }
        } else if self.peek_is(&Token::Channel) {
            match self.parse_channel() {
                Ok(def) => Ok(Item::Channel(def)),
                Err(message) => Err(message),
            }
        } else {
            Err(self.complain("expected struct, enum, or channel, found "))
        }
    }

    /// Whether the token here is `token`.
    fn peek_is(&self, token: &Token) -> (r: bool)
        requires
            self.wf(),
        ensures
            r == (tok(self.toks(), self.pos as int) == token@),
    {
        same_token(&self.tokens[self.pos].token, token)
    }

    /// The message that the token here is not what was wanted.
    fn complain(&self, wanted: &str) -> (message: String)
        requires
            self.wf(),
        ensures
            ({
                let found = self.located()[self.pos as int];
                message@ == lexer::place_text(found.line, found.col) + wanted@ + lexeme_text(
                    found.token,
                )
            }),
    {
        let mut message: String = String::new();
        let found: &SpannedToken = &self.tokens[self.pos];
        push_place(&mut message, found.line, found.col);
        message.append(wanted);
        let name: String = token_text(&found.token);
        message.append(name.as_str());
        assert(message@ =~= lexer::place_text(found@.line, found@.col) + wanted@ + lexeme_text(
            found@.token,
        ));
        message
    }

    fn expect(&mut self, expected: &Token) -> (r: Result<(), String>)
        requires
            old(self).wf(),
            expected@ != lexer::Lexeme::Eof,
        ensures
            final(self).wf(),
            final(self).tokens == old(self).tokens,
            match read_token(old(self).toks(), old(self).pos as int, expected@) {
                Ok(end) => r is Ok && final(self).pos == end,
                Err(fault) => {
                    &&& r matches Err(message) && message@ == fault_text(
                        old(self).located(),
                        fault,
                    )
                    &&& final(self).pos == fault.at
                },
            },
    {
        if self.peek_is(expected) {
            assert(self.pos < self.tokens.len());
            self.pos = self.pos + 1;
            Ok(())
        } else {
            let mut wanted: String = String::new();
            wanted.append("expected ");
            let name: String = token_text(expected);
            wanted.append(name.as_str());
            wanted.append(", found ");
            assert(wanted@ =~= wanted_text(Wanted::Token(expected@)));
            Err(self.complain(wanted.as_str()))
        }
    }

    fn expect_ident(&mut self) -> (r: Result<String, String>)
        requires
            old(self).wf(),
        ensures
            old(self).agrees(
                read_ident(old(self).toks(), old(self).pos as int),
                *final(self),
                ok_view(r),
                err_view(r),
            ),
    {
        let name: Option<String> = match &self.tokens[self.pos].token {
            Token::Ident(name) => Some(name.clone()),
            _ => None,
        };
        match name {
            Some(name) => {
                assert(self.pos < self.tokens.len());
                self.pos = self.pos + 1;
                Ok(name)
            },
            None => Err(self.complain("expected identifier, found ")),
        }
    }

    fn parse_namespace(&mut self) -> (r: Result<String, String>)
        requires
            old(self).wf(),
        ensures
            old(self).agrees(
                read_namespace(old(self).toks(), old(self).pos as int),
                *final(self),
                ok_view(r),
                err_view(r),
            ),
    {
        self.expect(&Token::Namespace)?;
        let name: String = self.expect_ident()?;
        self.expect(&Token::Semicolon)?;
        Ok(name)
    }

    /// Reads the keyword, the name and the opening brace of a declaration.
    fn parse_head(&mut self, keyword: &Token) -> (r: Result<String, String>)
        requires
            old(self).wf(),
            keyword@ != lexer::Lexeme::Eof,
        ensures
            old(self).agrees(
                read_head(old(self).toks(), old(self).pos as int, keyword@),
                *final(self),
                ok_view(r),
                err_view(r),
            ),
    {
        self.expect(keyword)?;
        let name: String = self.expect_ident()?;
        self.expect(&Token::LBrace)?;
        Ok(name)
    }

    fn parse_struct(&mut self) -> (r: Result<StructDef, String>)
        requires
            old(self).wf(),
        ensures
            old(self).agrees(
                read_struct(old(self).toks(), old(self).pos as int),
                *final(self),
                ok_view(r),
                err_view(r),
            ),
    {
        let name: String = self.parse_head(&Token::Struct)?;
        let fields: Vec<Field> = self.parse_fields()?;
        self.expect(&Token::RBrace)?;
        Ok(StructDef { name, fields })
    }

    fn parse_enum(&mut self) -> (r: Result<EnumDef, String>)
        requires
            old(self).wf(),
        ensures
            old(self).agrees(
                read_enum(old(self).toks(), old(self).pos as int),
                *final(self),
                ok_view(r),
                err_view(r),
            ),
    {
        let name: String = self.parse_head(&Token::Enum)?;
        let variants: Vec<Variant> = self.parse_variants()?;
        self.expect(&Token::RBrace)?;
        Ok(EnumDef { name, variants })
    }

    fn parse_channel(&mut self) -> (r: Result<ChannelDef, String>)
        requires
            old(self).wf(),
        ensures
            old(self).agrees(
                read_channel(old(self).toks(), old(self).pos as int),
                *final(self),
                ok_view(r),
                err_view(r),
            ),
    {
        let name: String = self.parse_head(&Token::Channel)?;
        let entries: Vec<ChannelEntry> = self.parse_entries()?;
        self.expect(&Token::RBrace)?;
        Ok(ChannelDef { name, entries })
    }

    fn parse_entries(&mut self) -> (r: Result<Vec<ChannelEntry>, String>)
        requires
            old(self).wf(),
        ensures
            ({
                let wanted = read_entries(old(self).toks(), old(self).pos as int);
                old(self).agrees(wanted, *final(self), list_view(r), err_view(r))
            }),
    {
        let mut entries: Vec<ChannelEntry> = Vec::new();
        let ghost toks = self.toks();
        let ghost whole = read_entries(toks, self.pos as int);
        proof {
            assert(views(entries@) =~= Seq::<ast::EntryView>::empty());
            if let Ok((rest, end)) = whole {
                assert(Seq::<ast::EntryView>::empty() + rest =~= rest);
            }
        }
        while !self.peek_is(&Token::RBrace)
            invariant
                self.wf(),
                self.tokens == old(self).tokens,
                toks == self.toks(),
                whole == read_entries(toks, old(self).pos as int),
                match read_entries(toks, self.pos as int) {
                    Ok((rest, end)) => whole == Ok::<(Seq<ast::EntryView>, int), Fault>(
                        (views(entries@) + rest, end),
                    ),
                    Err(fault) => whole == Err::<(Seq<ast::EntryView>, int), Fault>(fault),
                },
            decreases toks.len() - self.pos,
        {
            let ghost before = views(entries@);
            let name: String = self.expect_ident()?;
            self.expect(&Token::Colon)?;
            let ty: String = self.expect_ident()?;
            let entry: ChannelEntry = ChannelEntry { name, ty };
            let ghost last = entry@;
            entries.push(entry);
            self.skip_comma();
            proof {
                assert(views(entries@) =~= before.push(last));
                if let Ok((rest, end)) = read_entries(toks, self.pos as int) {
                    assert(views(entries@) + rest =~= before + (seq![last] + rest));
                }
            }
        }
        proof {
            assert(views(entries@) + Seq::<ast::EntryView>::empty() =~= views(entries@));
        }
        Ok(entries)
    }

    fn parse_fields(&mut self) -> (r: Result<Vec<Field>, String>)
        requires
            old(self).wf(),
        ensures
            ({
                let wanted = read_fields(old(self).toks(), old(self).pos as int);
                old(self).agrees(wanted, *final(self), list_view(r), err_view(r))
            }),
    {
        let mut fields: Vec<Field> = Vec::new();
        let ghost toks = self.toks();
        let ghost whole = read_fields(toks, self.pos as int);
        proof {
            assert(views(fields@) =~= Seq::<ast::FieldView>::empty());
            if let Ok((rest, end)) = whole {
                assert(Seq::<ast::FieldView>::empty() + rest =~= rest);
            }
        }
        while !self.peek_is(&Token::RBrace)
            invariant
                self.wf(),
                self.tokens == old(self).tokens,
                toks == self.toks(),
                whole == read_fields(toks, old(self).pos as int),
                match read_fields(toks, self.pos as int) {
                    Ok((rest, end)) => whole == Ok::<(Seq<ast::FieldView>, int), Fault>(
                        (views(fields@) + rest, end),
                    ),
                    Err(fault) => whole == Err::<(Seq<ast::FieldView>, int), Fault>(fault),
                },
            decreases toks.len() - self.pos,
        {
            let ghost before = views(fields@);
            proof {
                lemma_field(toks, self.pos as int);
            }
            let name: String = self.expect_ident()?;
            self.expect(&Token::Colon)?;
            let ty: Type = self.parse_type()?;
            let field: Field = Field { name, ty };
            let ghost last = field@;
            fields.push(field);
            self.skip_comma();
            proof {
                assert(views(fields@) =~= before.push(last));
                if let Ok((rest, end)) = read_fields(toks, self.pos as int) {
                    assert(views(fields@) + rest =~= before + (seq![last] + rest));
                }
            }
        }
        proof {
            assert(views(fields@) + Seq::<ast::FieldView>::empty() =~= views(fields@));
        }
        Ok(fields)
    }

    fn parse_variant(&mut self) -> (r: Result<Variant, String>)
        requires
            old(self).wf(),
        ensures
            old(self).agrees(
                read_variant(old(self).toks(), old(self).pos as int),
                *final(self),
                ok_view(r),
                err_view(r),
            ),
    {
        let name: String = self.expect_ident()?;
        if self.peek_is(&Token::LBrace) {
            self.expect(&Token::LBrace)?;
            let fields: Vec<Field> = self.parse_fields()?;
            self.expect(&Token::RBrace)?;
            Ok(Variant { name, fields })
        } else {
            let fields: Vec<Field> = Vec::new();
            assert(ast::fields_view(fields@) =~= Seq::<ast::FieldView>::empty());
            Ok(Variant { name, fields })
        }
    }

    fn parse_variants(&mut self) -> (r: Result<Vec<Variant>, String>)
        requires
            old(self).wf(),
        ensures
            ({
                let wanted = read_variants(old(self).toks(), old(self).pos as int);
                old(self).agrees(wanted, *final(self), list_view(r), err_view(r))
            }),
    {
        let mut variants: Vec<Variant> = Vec::new();
        let ghost toks = self.toks();
        let ghost whole = read_variants(toks, self.pos as int);
        proof {
            assert(views(variants@) =~= Seq::<ast::VariantView>::empty());
            if let Ok((rest, end)) = whole {
                assert(Seq::<ast::VariantView>::empty() + rest =~= rest);
            }
        }
        while !self.peek_is(&Token::RBrace)
            invariant
                self.wf(),
                self.tokens == old(self).tokens,
                toks == self.toks(),
                whole == read_variants(toks, old(self).pos as int),
                match read_variants(toks, self.pos as int) {
                    Ok((rest, end)) => whole == Ok::<(Seq<ast::VariantView>, int), Fault>(
                        (views(variants@) + rest, end),
                    ),
                    Err(fault) => whole == Err::<(Seq<ast::VariantView>, int), Fault>(fault),
                },
            decreases toks.len() - self.pos,
        {
            let ghost before = views(variants@);
            proof {
                lemma_variant(toks, self.pos as int);
            }
            let variant: Variant = self.parse_variant()?;
            let ghost last = variant@;
            variants.push(variant);
            self.skip_comma();
            proof {
                assert(views(variants@) =~= before.push(last));
                if let Ok((rest, end)) = read_variants(toks, self.pos as int) {
                    assert(views(variants@) + rest =~= before + (seq![last] + rest));
                }
            }
        }
        proof {
            assert(views(variants@) + Seq::<ast::VariantView>::empty() =~= views(variants@));
        }
        Ok(variants)
    }

    fn parse_type(&mut self) -> (r: Result<Type, String>)
        requires
            old(self).wf(),
        ensures
            old(self).agrees(
                read_type(old(self).toks(), old(self).pos as int),
                *final(self),
                ok_view(r),
                err_view(r),
            ),
        decreases old(self).tokens@.len() - old(self).pos,
    {
        if self.peek_is(&Token::LBracket) {
            assert(self.pos < self.tokens.len());
            self.pos = self.pos + 1;
            let inner: Type = self.parse_type()?;
            self.expect(&Token::Semicolon)?;
            let length: Option<usize> = match &self.tokens[self.pos].token {
                Token::IntLit(n) => Some(*n),
                _ => None,
            };
            match length {
                Some(n) => {
                    assert(self.pos < self.tokens.len());
                    self.pos = self.pos + 1;
                    self.expect(&Token::RBracket)?;
                    Ok(Type::Array(Box::new(inner), n))
                },
                None => Err(self.complain("expected array length, found ")),
            }
        } else {
            let name: String = self.expect_ident()?;
            Ok(type_named(name))
        }
    }

    fn skip_comma(&mut self)
        requires
            old(self).wf(),
        ensures
            final(self).wf(),
            final(self).tokens == old(self).tokens,
            final(self).pos == skip_comma(old(self).toks(), old(self).pos as int),
    {
        if self.peek_is(&Token::Comma) {
            assert(self.pos < self.tokens.len());
            self.pos = self.pos + 1;
        }
    }
}

/// The type that a name stands for.
fn type_named(name: String) -> (ty: Type)
    ensures
        ty@ == named_type(name@),
{
    if same_text(name.as_str(), "u8") {
        Type::Primitive(PrimitiveType::U8)
    } else if same_text(name.as_str(), "u16") {
        Type::Primitive(PrimitiveType::U16)
    } else if same_text(name.as_str(), "u32") {
        Type::Primitive(PrimitiveType::U32)
    } else if same_text(name.as_str(), "u64") {
        Type::Primitive(PrimitiveType::U64)
    } else if same_text(name.as_str(), "i8") {
        Type::Primitive(PrimitiveType::I8)
    } else if same_text(name.as_str(), "i16") {
        Type::Primitive(PrimitiveType::I16)
    } else if same_text(name.as_str(), "i32") {
        Type::Primitive(PrimitiveType::I32)
    } else if same_text(name.as_str(), "i64") {
        Type::Primitive(PrimitiveType::I64)
    } else if same_text(name.as_str(), "f32") {
        Type::Primitive(PrimitiveType::F32)
    } else if same_text(name.as_str(), "f64") {
        Type::Primitive(PrimitiveType::F64)
    } else if same_text(name.as_str(), "bool") {
        Type::Primitive(PrimitiveType::Bool)
    } else {
        Type::Named(name)
    }
}

/// What the elements of a list say.
spec fn views<T: View>(list: Seq<T>) -> Seq<T::V> {
    list.map_values(|t: T| t@)
}

/// What a result says, if it is one.
spec fn ok_view<T: View>(r: Result<T, String>) -> Option<T::V> {
    match r {
        Ok(value) => Some(value@),
        Err(_) => None,
    }
}

/// What the elements of a resulting list say, if there is one.
spec fn list_view<T: View>(r: Result<Vec<T>, String>) -> Option<Seq<T::V>> {
    match r {
        Ok(list) => Some(views(list@)),
        Err(_) => None,
    }
}

/// The message of a result that is an error.
spec fn err_view<T>(r: Result<T, String>) -> Seq<char> {
    match r {
        Ok(_) => Seq::empty(),
        Err(message) => message@,
    }
}

} // verus!
