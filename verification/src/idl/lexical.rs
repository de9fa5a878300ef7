//! What the tokens of a source are, byte by byte.
use vstd::prelude::*;
use crate::idl::lexer;
use crate::idl::lexer::Lexeme;
use crate::idl::source;
use crate::text;

verus! {

/// Which bytes are white space, digits, and what names are made of: the ASCII ones.
pub proof fn law_byte_classes(c: u8)
    ensures
        lexer::is_space(c) <==> c == 0x20 || c == 0x09 || c == 0x0A || c == 0x0C || c == 0x0D,
        lexer::is_digit(c) <==> 0x30 <= c <= 0x39,
        lexer::is_letter(c) <==> 0x41 <= c <= 0x5A || 0x61 <= c <= 0x7A || c == 0x5F,
        lexer::is_word(c) <==> 0x41 <= c <= 0x5A || 0x61 <= c <= 0x7A || c == 0x5F || 0x30 <= c
            <= 0x39,
{
}

/// Where a run of name bytes ends.
proof fn lemma_word(b: Seq<u8>, i: int, end: int)
    requires
        0 <= i <= end <= b.len(),
        forall|j: int| i <= j < end ==> lexer::is_word(#[trigger] b[j]),
        end < b.len() ==> !lexer::is_word(b[end]),
    ensures
        lexer::word_end(b, i) == end,
    decreases end - i,
{
    if i < end {
        lemma_word(b, i + 1, end);
    }
}

/// Where a run of digits ends.
proof fn lemma_digit_run(b: Seq<u8>, i: int, end: int)
    requires
        0 <= i <= end <= b.len(),
        forall|j: int| i <= j < end ==> lexer::is_digit(#[trigger] b[j]),
        end < b.len() ==> !lexer::is_digit(b[end]),
    ensures
        lexer::digits_end(b, i) == end,
    decreases end - i,
{
    if i < end {
        lemma_digit_run(b, i + 1, end);
    }
}

/// A text of ASCII letters, digits and underscores that does not start with a digit is read, where
/// it stands in a source and no further such character follows, as one token: the keyword that it
/// is, or else the identifier of that name.
pub proof fn law_names_are_read(b: Seq<u8>, i: int, name: Seq<char>)
    requires
        0 <= i,
        i + name.len() <= b.len(),
        name.len() > 0,
        !('0' <= name[0] <= '9'),
        forall|j: int|
            0 <= j < name.len() ==> {
                let c = #[trigger] name[j];
                'A' <= c <= 'Z' || 'a' <= c <= 'z' || '0' <= c <= '9' || c == '_'
            },
        forall|j: int| 0 <= j < name.len() ==> b[i + j] == #[trigger] name[j] as u8,
        i + name.len() < b.len() ==> {
            let c = b[i + name.len()];
            !(0x41 <= c <= 0x5A || 0x61 <= c <= 0x7A || c == 0x5F || 0x30 <= c <= 0x39)
        },
    ensures
        ({
            let read = lexer::lex_one(b, i);
            let end = i + name.len();
            &&& name == "namespace"@ ==> read == Ok::<(Lexeme, int), lexer::LexFault>(
                (Lexeme::Namespace, end),
            )
            &&& name == "struct"@ ==> read == Ok::<(Lexeme, int), lexer::LexFault>(
                (Lexeme::Struct, end),
            )
            &&& name == "enum"@ ==> read == Ok::<(Lexeme, int), lexer::LexFault>(
                (Lexeme::Enum, end),
            )
            &&& name == "channel"@ ==> read == Ok::<(Lexeme, int), lexer::LexFault>(
                (Lexeme::Channel, end),
            )
            &&& name != "namespace"@ && name != "struct"@ && name != "enum"@ && name != "channel"@
                ==> read == Ok::<(Lexeme, int), lexer::LexFault>((Lexeme::Ident(name), end))
        }),
{
    let end = i + name.len();
    assert forall|j: int| i <= j < end implies lexer::is_word(#[trigger] b[j]) by {
        assert(b[i + (j - i)] == name[j - i] as u8);
    }
    assert(b[i + 0] == name[0] as u8);
    lemma_word(b, i, end);
    let word = lexer::text_of(b.subrange(i, end));
    assert forall|j: int| 0 <= j < name.len() implies word[j] == #[trigger] name[j] by {
        assert(b[i + j] == name[j] as u8);
        vstd::utf8::char_u32_cast(name[j], name[j] as u32);
    }
    assert(word =~= name);
    reveal_strlit("namespace");
    reveal_strlit("struct");
    reveal_strlit("enum");
    reveal_strlit("channel");
    assert("namespace"@.len() == 9 && "struct"@.len() == 6 && "enum"@.len() == 4
        && "channel"@.len() == 7);
}

/// A source that is nothing but such a text, and is no keyword, is one identifier.
pub proof fn law_identifier(name: Seq<char>)
    requires
        name.len() > 0,
        !('0' <= name[0] <= '9'),
        forall|j: int|
            0 <= j < name.len() ==> {
                let c = #[trigger] name[j];
                'A' <= c <= 'Z' || 'a' <= c <= 'z' || '0' <= c <= '9' || c == '_'
            },
        name != "namespace"@,
        name != "struct"@,
        name != "enum"@,
        name != "channel"@,
    ensures
        ({
            let b = name.map_values(|c: char| c as u8);
            lexer::lex_all(b, 0) matches Ok(all) && source::lexemes(all) == seq![
                Lexeme::Ident(name),
                Lexeme::Eof,
            ]
        }),
{
    let b = name.map_values(|c: char| c as u8);
    law_names_are_read(b, 0, name);
    assert(b[0] == name[0] as u8);
    assert(lexer::skip_blank(b, 0) == 0);
    let n = name.len() as int;
    assert(lexer::skip_blank(b, n) == n);
    let rest = lexer::lex_all(b, n)->Ok_0;
    assert(source::lexemes(rest) =~= seq![Lexeme::Eof]);
    let all = lexer::lex_all(b, 0)->Ok_0;
    assert(source::lexemes(all) =~= seq![Lexeme::Ident(name), Lexeme::Eof]);
}

/// Digits behind zeros.
proof fn lemma_value(zeros: nat, n: nat)
    ensures
        ({
            let digits = Seq::new(zeros, |i: int| 48u8) + text::decimal(n).map_values(
                |c: char| c as u8,
            );
            &&& digits.len() > 0
            &&& forall|i: int| 0 <= i < digits.len() ==> 48 <= #[trigger] digits[i] <= 57
            &&& lexer::digits_value(digits) == n
        }),
    decreases n, zeros,
{
    let front = Seq::new(zeros, |i: int| 48u8);
    let written = text::decimal(n).map_values(|c: char| c as u8);
    let digits = front + written;
    let last = text::digit_char(n % 10) as u8;
    assert(last == 48 + n % 10);
    if n >= 10 {
        lemma_value(zeros, n / 10);
        let shorter = front + text::decimal(n / 10).map_values(|c: char| c as u8);
        assert(digits =~= shorter.push(last));
        assert(digits.drop_last() =~= shorter);
    } else {
        assert(digits =~= front.push(last));
        assert(digits.drop_last() =~= front);
        lemma_zeros(zeros);
    }
}

proof fn lemma_zeros(zeros: nat)
    ensures
        lexer::digits_value(Seq::new(zeros, |i: int| 48u8)) == 0,
    decreases zeros,
{
    if zeros > 0 {
        let less = (zeros - 1) as nat;
        lemma_zeros(less);
        assert(Seq::new(zeros, |i: int| 48u8).drop_last() =~= Seq::new(less, |i: int| 48u8));
    }
}

/// A number in decimal, with or without zeros in front, is read, where it stands in a source and
/// no further digit follows, as that number; one that is no `usize` is not read.
pub proof fn law_numbers_are_read(b: Seq<u8>, i: int, n: nat, zeros: nat)
    requires
        ({
            let digits = Seq::new(zeros, |i: int| 48u8) + text::decimal(n).map_values(
                |c: char| c as u8,
            );
            &&& 0 <= i
            &&& i + digits.len() <= b.len()
            &&& b.subrange(i, i + digits.len()) == digits
            &&& i + digits.len() < b.len() ==> !(0x30 <= b[i + digits.len()] <= 0x39)
        }),
    ensures
        ({
            let end = i + zeros + text::decimal(n).len();
            &&& n <= usize::MAX ==> lexer::lex_one(b, i) == Ok::<(Lexeme, int), lexer::LexFault>(
                (Lexeme::IntLit(n as usize), end),
            )
            &&& n > usize::MAX ==> lexer::lex_one(b, i) == Err::<(Lexeme, int), lexer::LexFault>(
                lexer::LexFault::BadInteger(i, end),
            )
        }),
{
    let digits = Seq::new(zeros, |i: int| 48u8) + text::decimal(n).map_values(|c: char| c as u8);
    let end = i + digits.len();
    lemma_value(zeros, n);
    assert forall|j: int| i <= j < end implies lexer::is_digit(#[trigger] b[j]) by {
        assert(b.subrange(i, end)[j - i] == digits[j - i]);
    }
    lemma_digit_run(b, i, end);
    assert(lexer::is_digit(b[i]));
}

/// Each mark is a token of one byte.
pub proof fn law_marks_are_read(b: Seq<u8>, i: int)
    requires
        0 <= i < b.len(),
    ensures
        b[i] == 0x7B ==> lexer::lex_one(b, i) == Ok::<(Lexeme, int), lexer::LexFault>(
            (Lexeme::LBrace, i + 1),
        ),
        b[i] == 0x7D ==> lexer::lex_one(b, i) == Ok::<(Lexeme, int), lexer::LexFault>(
            (Lexeme::RBrace, i + 1),
        ),
        b[i] == 0x5B ==> lexer::lex_one(b, i) == Ok::<(Lexeme, int), lexer::LexFault>(
            (Lexeme::LBracket, i + 1),
        ),
        b[i] == 0x5D ==> lexer::lex_one(b, i) == Ok::<(Lexeme, int), lexer::LexFault>(
            (Lexeme::RBracket, i + 1),
        ),
        b[i] == 0x3A ==> lexer::lex_one(b, i) == Ok::<(Lexeme, int), lexer::LexFault>(
            (Lexeme::Colon, i + 1),
        ),
        b[i] == 0x3B ==> lexer::lex_one(b, i) == Ok::<(Lexeme, int), lexer::LexFault>(
            (Lexeme::Semicolon, i + 1),
        ),
        b[i] == 0x2C ==> lexer::lex_one(b, i) == Ok::<(Lexeme, int), lexer::LexFault>(
            (Lexeme::Comma, i + 1),
        ),
{
}

/// No token starts with any other byte.
pub proof fn law_other_bytes(b: Seq<u8>, i: int)
    requires
        0 <= i < b.len(),
        !(0x41 <= b[i] <= 0x5A || 0x61 <= b[i] <= 0x7A || b[i] == 0x5F || 0x30 <= b[i] <= 0x39),
        b[i] != 0x7B && b[i] != 0x7D && b[i] != 0x5B && b[i] != 0x5D,
        b[i] != 0x3A && b[i] != 0x3B && b[i] != 0x2C,
    ensures
        lexer::lex_one(b, i) == Err::<(Lexeme, int), lexer::LexFault>(
            lexer::LexFault::Unexpected(i),
        ),
{
}

/// Between tokens, a space, tab, newline, form feed or carriage return is passed over; so are two
/// slashes and what follows them up to the end of the line; and nothing else is.
pub proof fn law_blanks_are_skipped(b: Seq<u8>, i: int, end: int)
    requires
        0 <= i <= b.len(),
    ensures
        ({
            let p = lexer::skip_blank(b, i);
            let space = |c: u8| c == 0x20 || c == 0x09 || c == 0x0A || c == 0x0C || c == 0x0D;
            &&& i <= p <= b.len()
            &&& p < b.len() ==> !space(b[p])
            &&& p + 1 < b.len() ==> !(b[p] == 0x2F && b[p + 1] == 0x2F)
            &&& i < b.len() && space(b[i]) ==> p == lexer::skip_blank(b, i + 1)
            &&& i + 1 < b.len() && b[i] == 0x2F && b[i + 1] == 0x2F && i + 2 <= end <= b.len() && (
            forall|j: int| i + 2 <= j < end ==> #[trigger] b[j] != 0x0A) && (end < b.len()
                ==> b[end] == 0x0A) ==> p == lexer::skip_blank(b, end)
            &&& (i == b.len() || (!space(b[i]) && !(i + 1 < b.len() && b[i] == 0x2F && b[i + 1]
                == 0x2F))) ==> p == i
        }),
    decreases b.len() - i,
{
    lexer::lemma_skip_blank(b, i);
    if i < b.len() && lexer::is_space(b[i]) {
        law_blanks_are_skipped(b, i + 1, end);
    } else if lexer::is_comment(b, i) {
        lexer::lemma_line_end(b, i + 2);
        let e = lexer::line_end(b, i + 2);
        law_blanks_are_skipped(b, e, end);
        if i + 2 <= end <= b.len() && (forall|j: int| i + 2 <= j < end ==> #[trigger] b[j] != 0x0A)
            && (end < b.len() ==> b[end] == 0x0A) {
            lemma_line(b, i + 2, end);
        }
    }
}

/// Where a line ends.
proof fn lemma_line(b: Seq<u8>, i: int, end: int)
    requires
        0 <= i <= end <= b.len(),
        forall|j: int| i <= j < end ==> #[trigger] b[j] != 0x0A,
        end < b.len() ==> b[end] == 0x0A,
    ensures
        lexer::line_end(b, i) == end,
    decreases end - i,
{
    if i < end {
        lemma_line(b, i + 1, end);
    }
}

/// A source starts at line 1, column 1; behind a newline the next line starts at column 1, and
/// behind any other byte the column is one further.
pub proof fn law_places(b: Seq<u8>, i: int)
    requires
        0 <= i < b.len(),
    ensures
        lexer::line_at(b, 0) == 1,
        lexer::col_at(b, 0) == 1,
        b[i] == 0x0A ==> lexer::line_at(b, i + 1) == lexer::line_at(b, i) + 1 && lexer::col_at(
            b,
            i + 1,
        ) == 1,
        b[i] != 0x0A ==> lexer::line_at(b, i + 1) == lexer::line_at(b, i) && lexer::col_at(b, i + 1)
            == lexer::col_at(b, i) + 1,
{
}

/// The tokens of a source: behind blanks there is its end, or a token at its place and then the
/// tokens of what follows it, or something that is no token, and then there are none.
pub proof fn law_tokens_of_a_source(b: Seq<u8>, i: int)
    requires
        0 <= i <= b.len(),
    ensures
        ({
            let p = lexer::skip_blank(b, i);
            let at = |token: Lexeme|
                lexer::Located { token, line: lexer::line_at(b, p), col: lexer::col_at(b, p) };
            &&& p == b.len() ==> lexer::lex_all(b, i) == Ok::<Seq<lexer::Located>, lexer::LexFault>(
                seq![at(Lexeme::Eof)],
            )
            &&& p < b.len() ==> match lexer::lex_one(b, p) {
                Ok((token, end)) => {
                    &&& p < end <= b.len()
                    &&& lexer::lex_all(b, end) is Ok <==> lexer::lex_all(b, i) is Ok
                    &&& lexer::lex_all(b, i) matches Ok(all) ==> all[0] == at(token)
                        && all.drop_first() == lexer::lex_all(b, end)->Ok_0
                    &&& lexer::lex_all(b, i) matches Err(fault) ==> lexer::lex_all(b, end) == Err::<
                        Seq<lexer::Located>,
                        lexer::LexFault,
                    >(fault)
                },
                Err(fault) => lexer::lex_all(b, i) == Err::<Seq<lexer::Located>, lexer::LexFault>(
                    fault,
                ),
            }
        }),
{
    let p = lexer::skip_blank(b, i);
    lexer::lemma_skip_blank(b, i);
    if p < b.len() {
        lexer::lemma_lex_one(b, p);
        if let Ok((token, end)) = lexer::lex_one(b, p) {
            if let Ok(rest) = lexer::lex_all(b, end) {
                assert(lexer::lex_all(b, i)->Ok_0.drop_first() =~= rest);
            }
        }
    }
}

/// What is said of a byte that starts no token, and of a number that is too large: the place, line
/// and column, and then what is wrong.
pub proof fn law_lexer_messages(b: Seq<u8>, i: int, end: int)
    ensures
        lexer::fault_text(b, lexer::LexFault::Unexpected(i)) == text::decimal(lexer::line_at(b, i))
            + ":"@ + text::decimal(lexer::col_at(b, i)) + ": "@ + "unexpected character '"@ + seq![
            b[i] as char,
        ] + "'"@,
        lexer::fault_text(b, lexer::LexFault::BadInteger(i, end)) == text::decimal(
            lexer::line_at(b, end),
        ) + ":"@ + text::decimal(lexer::col_at(b, end)) + ": "@ + "invalid integer '"@
            + b.subrange(i, end).map_values(|c: u8| c as char) + "'"@,
{
}

} // verus!
