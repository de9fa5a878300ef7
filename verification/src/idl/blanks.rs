//! White space and comments between the tokens of a source.
use vstd::prelude::*;
use crate::idl::lexer;
use crate::idl::source;

verus! {

/// Whether bytes are nothing but white space and line comments, each comment with its newline.
pub open spec fn is_blank(w: Seq<u8>) -> bool
    decreases w.len(),
{
    proof {
        lexer::lemma_line_end(w, 2);
    }
    if w.len() == 0 {
        true
    } else if lexer::is_space(w[0]) {
        is_blank(w.drop_first())
    } else {
        &&& lexer::is_comment(w, 0)
        &&& lexer::line_end(w, 2) < w.len()
        &&& is_blank(w.skip(lexer::line_end(w, 2)))
    }
}

/// Whether there is nothing but white space and whole comments from `i` up to `k`.
pub open spec fn blank_between(b: Seq<u8>, i: int, k: int) -> bool
    decreases b.len() - i,
{
    proof {
        if lexer::is_comment(b, i) {
            lexer::lemma_line_end(b, i + 2);
        }
    }
    if i == k {
        true
    } else if 0 <= i < b.len() && lexer::is_space(b[i]) {
        blank_between(b, i + 1, k)
    } else {
        &&& lexer::is_comment(b, i)
        &&& lexer::line_end(b, i + 2) < b.len()
        &&& blank_between(b, lexer::line_end(b, i + 2) + 1, k)
    }
}

/// Whether `k` is a place before, between or behind the tokens of a source from `i` on, and in no
/// comment.
pub open spec fn is_gap(b: Seq<u8>, i: int, k: int) -> bool
    decreases b.len() - i,
{
    proof {
        lexer::lemma_skip_blank(b, i);
        if lexer::skip_blank(b, i) < b.len() {
            lexer::lemma_lex_one(b, lexer::skip_blank(b, i));
        }
    }
    let p = lexer::skip_blank(b, i);
    blank_between(b, i, k) || (0 <= p < b.len() && match lexer::lex_one(b, p) {
        Ok((_, end)) => is_gap(b, end, k),
        Err(_) => false,
    })
}

/// A source with bytes put in at `k`.
pub open spec fn with_inserted(b: Seq<u8>, k: int, w: Seq<u8>) -> Seq<u8> {
    b.take(k) + w + b.skip(k)
}

/// Whether two sources are the same up to `k`.
spec fn same_start(b: Seq<u8>, c: Seq<u8>, k: int) -> bool {
    &&& 0 <= k <= b.len()
    &&& k <= c.len()
    &&& forall|j: int| 0 <= j < k ==> #[trigger] b[j] == c[j]
}

/// Whether one source has from `k + n` on what another has from `k` on.
spec fn same_end(b: Seq<u8>, c: Seq<u8>, k: int, n: int) -> bool {
    &&& 0 <= k <= b.len()
    &&& 0 <= n
    &&& c.len() == b.len() + n
    &&& forall|j: int| k <= j < b.len() ==> #[trigger] b[j] == c[j + n]
}

proof fn lemma_line_end_same(b: Seq<u8>, c: Seq<u8>, i: int, k: int)
    requires
        same_start(b, c, k),
        0 <= i,
        lexer::line_end(b, i) < k,
    ensures
        lexer::line_end(c, i) == lexer::line_end(b, i),
    decreases b.len() - i,
{
    lexer::lemma_line_end(b, i);
    if i < b.len() && b[i] != 10 {
        lemma_line_end_same(b, c, i + 1, k);
    } else {
        assert(b[i] == c[i]);
    }
}

/// Blanks are skipped.
proof fn lemma_blank_between(b: Seq<u8>, c: Seq<u8>, i: int, k: int)
    requires
        same_start(b, c, k),
        0 <= i <= b.len(),
        blank_between(b, i, k),
    ensures
        i <= k,
        lexer::skip_blank(c, i) == lexer::skip_blank(c, k),
    decreases b.len() - i,
{
    if i != k {
        if lexer::is_space(b[i]) && i < b.len() {
            lemma_blank_between(b, c, i + 1, k);
            assert(b[i] == c[i]);
        } else {
            let end = lexer::line_end(b, i + 2);
            lexer::lemma_line_end(b, i + 2);
            lemma_blank_between(b, c, end + 1, k);
            assert(b[i] == c[i] && b[i + 1] == c[i + 1]);
            lemma_line_end_same(b, c, i + 2, k);
            assert(b[end] == 10) by {
                lemma_line_end_stops(b, i + 2);
            }
            assert(b[end] == c[end]);
            assert(lexer::skip_blank(c, end) == lexer::skip_blank(c, end + 1));
        }
    }
}

/// A line ends with a newline, or with the source.
proof fn lemma_line_end_stops(b: Seq<u8>, i: int)
    requires
        0 <= i,
        lexer::line_end(b, i) < b.len(),
    ensures
        b[lexer::line_end(b, i)] == 10,
    decreases b.len() - i,
{
    if i < b.len() && b[i] != 10 {
        lemma_line_end_stops(b, i + 1);
    }
}

/// A line that ends inside a part of a source ends there in the source.
proof fn lemma_line_end_inside(c: Seq<u8>, at: int, w: Seq<u8>, x: int)
    requires
        0 <= at,
        at + w.len() <= c.len(),
        forall|j: int| 0 <= j < w.len() ==> c[at + j] == #[trigger] w[j],
        0 <= x,
        lexer::line_end(w, x) < w.len(),
    ensures
        lexer::line_end(c, at + x) == at + lexer::line_end(w, x),
    decreases w.len() - x,
{
    lexer::lemma_line_end(w, x);
    assert(c[at + x] == w[x]);
    if w[x] != 10 {
        lemma_line_end_inside(c, at, w, x + 1);
    }
}

/// A blank part of a source is skipped.
proof fn lemma_blank_skipped(c: Seq<u8>, at: int, w: Seq<u8>)
    requires
        0 <= at,
        at + w.len() <= c.len(),
        forall|j: int| 0 <= j < w.len() ==> c[at + j] == #[trigger] w[j],
        is_blank(w),
    ensures
        lexer::skip_blank(c, at) == lexer::skip_blank(c, at + w.len()),
    decreases w.len(),
{
    if w.len() > 0 {
        assert(c[at + 0] == w[0]);
        if lexer::is_space(w[0]) {
            let rest = w.drop_first();
            assert forall|j: int| 0 <= j < rest.len() implies c[at + 1 + j] == #[trigger] rest[j] by {
                assert(c[at + (j + 1)] == w[j + 1]);
            }
            lemma_blank_skipped(c, at + 1, rest);
        } else {
            let e = lexer::line_end(w, 2);
            lexer::lemma_line_end(w, 2);
            assert(c[at + 1] == w[1]);
            lemma_line_end_inside(c, at, w, 2);
            let rest = w.skip(e);
            assert forall|j: int| 0 <= j < rest.len() implies c[at + e + j] == #[trigger] rest[j] by {
                assert(c[at + (j + e)] == w[j + e]);
            }
            lemma_blank_skipped(c, at + e, rest);
            assert(lexer::is_comment(c, at));
        }
    }
}

proof fn lemma_line_end_shift(b: Seq<u8>, c: Seq<u8>, k: int, n: int, i: int)
    requires
        same_end(b, c, k, n),
        k <= i,
    ensures
        lexer::line_end(c, i + n) == lexer::line_end(b, i) + n,
    decreases b.len() - i,
{
    if i < b.len() {
        assert(b[i] == c[i + n]);
        if b[i] != 10 {
            lemma_line_end_shift(b, c, k, n, i + 1);
        }
    }
}

proof fn lemma_digits_end_shift(b: Seq<u8>, c: Seq<u8>, k: int, n: int, i: int)
    requires
        same_end(b, c, k, n),
        k <= i,
    ensures
        lexer::digits_end(c, i + n) == lexer::digits_end(b, i) + n,
    decreases b.len() - i,
{
    if i < b.len() {
        assert(b[i] == c[i + n]);
        if lexer::is_digit(b[i]) {
            lemma_digits_end_shift(b, c, k, n, i + 1);
        }
    }
}

proof fn lemma_word_end_shift(b: Seq<u8>, c: Seq<u8>, k: int, n: int, i: int)
    requires
        same_end(b, c, k, n),
        k <= i,
    ensures
        lexer::word_end(c, i + n) == lexer::word_end(b, i) + n,
    decreases b.len() - i,
{
    if i < b.len() {
        assert(b[i] == c[i + n]);
        if lexer::is_word(b[i]) {
            lemma_word_end_shift(b, c, k, n, i + 1);
        }
    }
}

proof fn lemma_skip_blank_shift(b: Seq<u8>, c: Seq<u8>, k: int, n: int, i: int)
    requires
        same_end(b, c, k, n),
        k <= i,
    ensures
        lexer::skip_blank(c, i + n) == lexer::skip_blank(b, i) + n,
    decreases b.len() - i,
{
    if i < b.len() {
        assert(b[i] == c[i + n]);
        if i + 1 < b.len() {
            assert(b[i + 1] == c[i + 1 + n]);
        }
        if lexer::is_space(b[i]) {
            lemma_skip_blank_shift(b, c, k, n, i + 1);
        } else if lexer::is_comment(b, i) {
            lexer::lemma_line_end(b, i + 2);
            lemma_line_end_shift(b, c, k, n, i + 2);
            lemma_skip_blank_shift(b, c, k, n, lexer::line_end(b, i + 2));
        }
    }
}

proof fn lemma_lex_one_shift(b: Seq<u8>, c: Seq<u8>, k: int, n: int, i: int)
    requires
        same_end(b, c, k, n),
        k <= i < b.len(),
    ensures
        lexer::lex_one(b, i) matches Ok((t, end)) ==> lexer::lex_one(c, i + n) == Ok::<
            (lexer::Lexeme, int),
            lexer::LexFault,
        >((t, end + n)),
{
    assert(b[i] == c[i + n]);
    lemma_digits_end_shift(b, c, k, n, i);
    lemma_word_end_shift(b, c, k, n, i);
    lexer::lemma_digits_end(b, i);
    lexer::lemma_word_end(b, i);
    assert(c.subrange(i + n, lexer::digits_end(b, i) + n) =~= b.subrange(
        i,
        lexer::digits_end(b, i),
    ));
    assert(c.subrange(i + n, lexer::word_end(b, i) + n) =~= b.subrange(i, lexer::word_end(b, i)));
}

/// The same source further on has the same tokens, at other places.
proof fn lemma_lex_all_shift(b: Seq<u8>, c: Seq<u8>, k: int, n: int, i: int)
    requires
        same_end(b, c, k, n),
        k <= i <= b.len(),
    ensures
        lexer::lex_all(b, i) matches Ok(all) ==> (lexer::lex_all(c, i + n) matches Ok(shifted)
            && source::lexemes(shifted) == source::lexemes(all)),
    decreases b.len() - i,
{
    let p = lexer::skip_blank(b, i);
    lexer::lemma_skip_blank(b, i);
    lemma_skip_blank_shift(b, c, k, n, i);
    if lexer::lex_all(b, i) is Ok {
        if p < b.len() {
            lexer::lemma_lex_one(b, p);
            lemma_lex_one_shift(b, c, k, n, p);
            let (t, end) = lexer::lex_one(b, p)->Ok_0;
            lemma_lex_all_shift(b, c, k, n, end);
            lemma_first_lexeme(b, i);
            lemma_first_lexeme(c, i + n);
        } else {
            assert(source::lexemes(lexer::lex_all(b, i)->Ok_0) =~= seq![lexer::Lexeme::Eof]);
            assert(source::lexemes(lexer::lex_all(c, i + n)->Ok_0) =~= seq![lexer::Lexeme::Eof]);
        }
    }
}

/// The first token of a source, and the others.
proof fn lemma_first_lexeme(b: Seq<u8>, i: int)
    requires
        0 <= lexer::skip_blank(b, i) < b.len(),
        lexer::lex_one(b, lexer::skip_blank(b, i)) is Ok,
    ensures
        ({
            let (t, end) = lexer::lex_one(b, lexer::skip_blank(b, i))->Ok_0;
            match lexer::lex_all(b, end) {
                Ok(rest) => lexer::lex_all(b, i) matches Ok(all) && source::lexemes(all) == seq![t]
                    + source::lexemes(rest),
                Err(_) => lexer::lex_all(b, i) is Err,
            }
        }),
{
    let (t, end) = lexer::lex_one(b, lexer::skip_blank(b, i))->Ok_0;
    if let Ok(rest) = lexer::lex_all(b, end) {
        let all = lexer::lex_all(b, i)->Ok_0;
        assert(source::lexemes(all) =~= seq![t] + source::lexemes(rest));
    }
}

/// What is skipped before a token stays skipped when only what follows changes.
proof fn lemma_skip_blank_same(b: Seq<u8>, c: Seq<u8>, i: int, k: int)
    requires
        same_start(b, c, k),
        0 <= i,
        lexer::skip_blank(b, i) < k,
        b[lexer::skip_blank(b, i)] != 47,
    ensures
        lexer::skip_blank(c, i) == lexer::skip_blank(b, i),
    decreases b.len() - i,
{
    lexer::lemma_skip_blank(b, i);
    assert(b[i] == c[i]);
    if i < b.len() && lexer::is_space(b[i]) {
        lemma_skip_blank_same(b, c, i + 1, k);
    } else if lexer::is_comment(b, i) {
        let end = lexer::line_end(b, i + 2);
        lexer::lemma_line_end(b, i + 2);
        lexer::lemma_skip_blank(b, end);
        assert(b[i + 1] == c[i + 1]);
        lemma_line_end_same(b, c, i + 2, k);
        lemma_skip_blank_same(b, c, end, k);
    }
}

proof fn lemma_digits_end_same(b: Seq<u8>, c: Seq<u8>, i: int, k: int)
    requires
        same_start(b, c, k),
        0 <= i <= k,
        lexer::digits_end(b, i) <= k,
        k < c.len() ==> !lexer::is_digit(c[k]),
    ensures
        lexer::digits_end(c, i) == lexer::digits_end(b, i),
    decreases b.len() - i,
{
    lexer::lemma_digits_end(b, i);
    if i < k {
        assert(b[i] == c[i]);
        if lexer::is_digit(b[i]) {
            lemma_digits_end_same(b, c, i + 1, k);
        }
    }
}

proof fn lemma_word_end_same(b: Seq<u8>, c: Seq<u8>, i: int, k: int)
    requires
        same_start(b, c, k),
        0 <= i <= k,
        lexer::word_end(b, i) <= k,
        k < c.len() ==> !lexer::is_word(c[k]),
    ensures
        lexer::word_end(c, i) == lexer::word_end(b, i),
    decreases b.len() - i,
{
    lexer::lemma_word_end(b, i);
    if i < k {
        assert(b[i] == c[i]);
        if lexer::is_word(b[i]) {
            lemma_word_end_same(b, c, i + 1, k);
        }
    }
}

/// A token that ends before a blank is read as before.
proof fn lemma_lex_one_same(b: Seq<u8>, c: Seq<u8>, i: int, k: int)
    requires
        same_start(b, c, k),
        0 <= i < b.len(),
        lexer::lex_one(b, i) matches Ok((_, end)) && end <= k,
        k < c.len() ==> !lexer::is_word(c[k]),
    ensures
        lexer::lex_one(c, i) == lexer::lex_one(b, i),
{
    lexer::lemma_lex_one(b, i);
    lexer::lemma_digits_end(b, i);
    lexer::lemma_word_end(b, i);
    assert(b[i] == c[i]);
    if lexer::is_digit(b[i]) {
        lemma_digits_end_same(b, c, i, k);
        let end = lexer::digits_end(b, i);
        assert(c.subrange(i, end) =~= b.subrange(i, end));
    } else if lexer::is_letter(b[i]) {
        lemma_word_end_same(b, c, i, k);
        let end = lexer::word_end(b, i);
        assert(c.subrange(i, end) =~= b.subrange(i, end));
    }
}

/// A place between tokens lies behind where one starts to look for it, and in the source.
proof fn lemma_gap_bounds(b: Seq<u8>, i: int, k: int)
    requires
        0 <= i <= b.len(),
        0 <= k <= b.len(),
        is_gap(b, i, k),
    ensures
        i <= k,
    decreases b.len() - i,
{
    if blank_between(b, i, k) {
        lemma_blank_between(b, b, i, k);
    } else {
        let p = lexer::skip_blank(b, i);
        lexer::lemma_skip_blank(b, i);
        lexer::lemma_lex_one(b, p);
        let (_, end) = lexer::lex_one(b, p)->Ok_0;
        lemma_gap_bounds(b, end, k);
    }
}

/// A blank put in at a place between tokens changes no token.
proof fn lemma_gap(b: Seq<u8>, c: Seq<u8>, i: int, k: int, w: Seq<u8>)
    requires
        0 <= i <= b.len(),
        0 <= k <= b.len(),
        is_gap(b, i, k),
        is_blank(w),
        w.len() > 0,
        c == with_inserted(b, k, w),
        lexer::lex_all(b, i) is Ok,
    ensures
        lexer::lex_all(c, i) matches Ok(all) && source::lexemes(all) == source::lexemes(
            lexer::lex_all(b, i)->Ok_0,
        ),
    decreases b.len() - i,
{
    let n = w.len() as int;
    assert(same_start(b, c, k));
    assert(same_end(b, c, k, n));
    let p = lexer::skip_blank(b, i);
    lexer::lemma_skip_blank(b, i);
    if blank_between(b, i, k) {
        lemma_blank_between(b, b, i, k);
        lemma_blank_between(b, c, i, k);
        assert forall|j: int| 0 <= j < w.len() implies c[k + j] == #[trigger] w[j] by {}
        lemma_blank_skipped(c, k, w);
        lemma_skip_blank_shift(b, c, k, n, k);
        lexer::lemma_skip_blank(b, k);
        assert(lexer::skip_blank(c, i) == lexer::skip_blank(c, k + n));
        assert(lexer::lex_all(c, i) == lexer::lex_all(c, k + n));
        assert(lexer::lex_all(b, i) == lexer::lex_all(b, k));
        lemma_lex_all_shift(b, c, k, n, k);
    } else {
        lexer::lemma_lex_one(b, p);
        let (t, end) = lexer::lex_one(b, p)->Ok_0;
        lemma_gap_bounds(b, end, k);
        assert(b[p] != 47);
        lemma_skip_blank_same(b, c, i, k);
        assert(c[k] == w[0]);
        lemma_lex_one_same(b, c, p, k);
        lemma_gap(b, c, end, k, w);
        lemma_first_lexeme(b, i);
        lemma_first_lexeme(c, i);
    }
}

/// White space and line comments put in before, between or behind the tokens of a source change
/// no token of it.
pub proof fn law_blanks_change_no_token(b: Seq<u8>, k: int, w: Seq<u8>)
    requires
        0 <= k <= b.len(),
        is_gap(b, 0, k),
        is_blank(w),
    ensures
        lexer::lex_all(b, 0) matches Ok(all) ==> (lexer::lex_all(with_inserted(b, k, w), 0) matches
            Ok(found) && source::lexemes(found) == source::lexemes(all)),
{
    let c = with_inserted(b, k, w);
    if lexer::lex_all(b, 0) is Ok {
        if w.len() == 0 {
            assert(c =~= b);
        } else {
            lemma_gap(b, c, 0, k, w);
        }
    }
}

} // verus!
