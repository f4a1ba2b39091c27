//! How the tokenizer reads what is written in a pattern string: the token
//! at a place, given the code points that stand there.

use crate::component::escape_pattern;
use crate::component::is_pattern_special;
use crate::error::ErrorView;
use crate::parser::escaped_char;
use crate::round_trip::is_name;
use crate::text::occurs_at;
use crate::tokenizer::Lexeme;
use crate::tokenizer::RegexpScan;
use crate::tokenizer::TokenType;
use crate::tokenizer::TokenView;
use crate::tokenizer::TokenizePolicy;
use crate::tokenizer::is_ascii_char;
use crate::tokenizer::lexeme_at;
use crate::tokenizer::name_end;
use crate::tokenizer::scan_regexp_from;
use crate::tokenizer::tokens_from;
use crate::tokenizer::valid_name_code_point;
use vstd::prelude::*;

verus! {

/// The token of one code point at `at`.
pub open spec fn one_token(kind: TokenType, at: int, c: char) -> TokenView {
    TokenView { kind, index: at as nat, value: seq![c] }
}

/// A token is read, and the rest is read behind it.
proof fn lemma_token_then(
    input: Seq<char>,
    at: int,
    kind: TokenType,
    next: int,
    from: int,
    len: int,
    rest: Seq<TokenView>,
)
    requires
        0 <= at < next <= input.len(),
        lexeme_at(input, at) == (Lexeme::Token { kind, next, from, len }),
        tokens_from(input, next, TokenizePolicy::Strict) == Ok::<Seq<TokenView>, ErrorView>(rest),
    ensures
        tokens_from(input, at, TokenizePolicy::Strict) == Ok::<Seq<TokenView>, ErrorView>(
            seq![TokenView { kind, index: at as nat, value: input.subrange(from, from + len) }]
                + rest,
        ),
{
}

/// The kind of token that a code point which is written for itself is
/// read as.
pub open spec fn kind_of_char(c: char) -> TokenType {
    if c == '*' {
        TokenType::Asterisk
    } else if c == '+' || c == '?' {
        TokenType::OtherModifier
    } else if c == '{' {
        TokenType::Open
    } else if c == '}' {
        TokenType::Close
    } else {
        TokenType::Char
    }
}

/// A code point that is no backslash, colon or opening parenthesis is
/// read as one token.
pub proof fn lemma_read_char(input: Seq<char>, at: int, rest: Seq<TokenView>)
    requires
        0 <= at < input.len(),
        input[at] != '\\' && input[at] != ':' && input[at] != '(',
        tokens_from(input, at + 1, TokenizePolicy::Strict) == Ok::<Seq<TokenView>, ErrorView>(
            rest,
        ),
    ensures
        tokens_from(input, at, TokenizePolicy::Strict) == Ok::<Seq<TokenView>, ErrorView>(
            seq![one_token(kind_of_char(input[at]), at, input[at])] + rest,
        ),
{
    assert(input.subrange(at, at + 1) =~= seq![input[at]]);
    lemma_token_then(input, at, kind_of_char(input[at]), at + 1, at, 1, rest);
}

/// A backslash and the code point behind it are read as one token.
pub proof fn lemma_read_escaped(input: Seq<char>, at: int, rest: Seq<TokenView>)
    requires
        0 <= at,
        at + 1 < input.len(),
        input[at] == '\\',
        tokens_from(input, at + 2, TokenizePolicy::Strict) == Ok::<Seq<TokenView>, ErrorView>(
            rest,
        ),
    ensures
        tokens_from(input, at, TokenizePolicy::Strict) == Ok::<Seq<TokenView>, ErrorView>(
            seq![one_token(TokenType::EscapedChar, at, input[at + 1])] + rest,
        ),
{
    assert(input.subrange(at + 1, at + 2) =~= seq![input[at + 1]]);
    lemma_token_then(input, at, TokenType::EscapedChar, at + 2, at + 1, 1, rest);
}

/// A name ends where the code points of a name end.
proof fn lemma_name_ends(input: Seq<char>, start: int, name: Seq<char>, i: int)
    requires
        0 <= start,
        occurs_at(input, start, name),
        is_name(name),
        0 <= i <= name.len(),
        start + name.len() == input.len() || !valid_name_code_point(
            input[start + name.len()],
            false,
        ),
    ensures
        name_end(input, start, start + i) == start + name.len(),
    decreases name.len() - i,
{
    if i < name.len() {
        assert(input[start + i] == input.subrange(start, start + name.len())[i]);
        assert(valid_name_code_point(name[i], i == 0));
        lemma_name_ends(input, start, name, i + 1);
    }
}

/// A colon and the name behind it are read as one token.
pub proof fn lemma_read_name(input: Seq<char>, at: int, name: Seq<char>, rest: Seq<TokenView>)
    requires
        0 <= at < input.len(),
        input[at] == ':',
        occurs_at(input, at + 1, name),
        is_name(name),
        at + 1 + name.len() == input.len() || !valid_name_code_point(
            input[at + 1 + name.len()],
            false,
        ),
        tokens_from(input, at + 1 + name.len(), TokenizePolicy::Strict) == Ok::<
            Seq<TokenView>,
            ErrorView,
        >(rest),
    ensures
        tokens_from(input, at, TokenizePolicy::Strict) == Ok::<Seq<TokenView>, ErrorView>(
            seq![TokenView { kind: TokenType::Name, index: at as nat, value: name }] + rest,
        ),
{
    lemma_name_ends(input, at + 1, name, 0);
    lemma_token_then(
        input,
        at,
        TokenType::Name,
        at + 1 + name.len(),
        at + 1,
        name.len() as int,
        rest,
    );
}

/// Whether the tokenizer's scan passes over `source` from `i` on with
/// `depth` parentheses open and comes to its end with one open: the one
/// that the closing parenthesis behind `source` closes.
pub open spec fn scans(source: Seq<char>, i: int, depth: nat) -> bool
    decreases source.len() - i,
{
    if i < 0 || i >= source.len() {
        depth == 1
    } else if !is_ascii_char(source[i]) {
        false
    } else if i == 0 && source[i] == '?' {
        false
    } else if source[i] == '\\' {
        i + 1 < source.len() && is_ascii_char(source[i + 1]) && scans(source, i + 2, depth)
    } else if source[i] == ')' {
        depth >= 2 && scans(source, i + 1, (depth - 1) as nat)
    } else if source[i] == '(' {
        i + 1 < source.len() && source[i + 1] == '?' && scans(source, i + 1, depth + 1)
    } else {
        scans(source, i + 1, depth)
    }
}

/// Whether `source` can stand in a pattern string as an embedded regular
/// expression.
pub open spec fn is_embeddable(source: Seq<char>) -> bool {
    source.len() > 0 && scans(source, 0, 1)
}

proof fn lemma_scan_closes(input: Seq<char>, start: int, source: Seq<char>, i: int, depth: nat)
    requires
        0 <= start,
        occurs_at(input, start, source),
        start + source.len() < input.len(),
        input[start + source.len()] == ')',
        0 <= i <= source.len(),
        depth >= 1,
        scans(source, i, depth),
    ensures
        scan_regexp_from(input, start, start + i, depth) == RegexpScan::Closed(
            start + source.len() + 1,
        ),
    decreases source.len() - i,
{
    if i < source.len() {
        assert(input[start + i] == input.subrange(start, start + source.len())[i]);
        if i + 1 < source.len() {
            assert(input[start + i + 1] == input.subrange(start, start + source.len())[i + 1]);
        }
        let c = source[i];
        if c == '\\' {
            lemma_scan_closes(input, start, source, i + 2, depth);
        } else if c == ')' {
            lemma_scan_closes(input, start, source, i + 1, (depth - 1) as nat);
        } else if c == '(' {
            lemma_scan_closes(input, start, source, i + 1, depth + 1);
        } else {
            lemma_scan_closes(input, start, source, i + 1, depth);
        }
    }
}

/// An embedded regular expression in its parentheses is read as one
/// token.
pub proof fn lemma_read_regexp(
    input: Seq<char>,
    at: int,
    source: Seq<char>,
    rest: Seq<TokenView>,
)
    requires
        0 <= at < input.len(),
        input[at] == '(',
        occurs_at(input, at + 1, source),
        is_embeddable(source),
        at + 1 + source.len() < input.len(),
        input[at + 1 + source.len()] == ')',
        tokens_from(input, at + source.len() + 2, TokenizePolicy::Strict) == Ok::<
            Seq<TokenView>,
            ErrorView,
        >(rest),
    ensures
        tokens_from(input, at, TokenizePolicy::Strict) == Ok::<Seq<TokenView>, ErrorView>(
            seq![TokenView { kind: TokenType::Regexp, index: at as nat, value: source }] + rest,
        ),
{
    lemma_scan_closes(input, at + 1, source, 0, 1);
    lemma_token_then(
        input,
        at,
        TokenType::Regexp,
        at + source.len() + 2,
        at + 1,
        source.len() as int,
        rest,
    );
}

/// Where the `k`th code point of `text` is written in the escaped text.
pub open spec fn written_at(text: Seq<char>, k: int) -> int {
    escape_pattern(text.take(k)).len() as int
}

/// The escaped text up to the `k`th code point, and what the `k`th code
/// point adds to it.
pub proof fn lemma_written_step(text: Seq<char>, k: int)
    requires
        0 <= k < text.len(),
    ensures
        escape_pattern(text.take(k + 1)) == escape_pattern(text.take(k)) + escaped_char(
            text[k],
            is_pattern_special(text[k]),
        ),
        written_at(text, k + 1) == written_at(text, k) + (if is_pattern_special(text[k]) {
            2int
        } else {
            1int
        }),
{
    assert(text.take(k + 1).drop_last() =~= text.take(k));
    assert(text.take(k + 1).last() == text[k]);
}

/// What is written for the first `k` code points stands at the start of
/// the escaped text.
pub proof fn lemma_written_prefix(text: Seq<char>, k: int)
    requires
        0 <= k <= text.len(),
    ensures
        written_at(text, k) <= escape_pattern(text).len(),
        escape_pattern(text).subrange(0, written_at(text, k)) == escape_pattern(text.take(k)),
    decreases text.len() - k,
{
    let whole = escape_pattern(text);
    if k == text.len() {
        assert(text.take(k) =~= text);
        assert(whole.subrange(0, whole.len() as int) =~= whole);
    } else {
        lemma_written_prefix(text, k + 1);
        lemma_written_step(text, k);
        let longer = escape_pattern(text.take(k + 1));
        let shorter = escape_pattern(text.take(k));
        assert(whole.subrange(0, shorter.len() as int) =~= whole.subrange(
            0,
            longer.len() as int,
        ).subrange(0, shorter.len() as int));
        assert(longer.subrange(0, shorter.len() as int) =~= shorter);
    }
}

/// The code points that are written for the `k`th code point of `text`.
pub proof fn lemma_written_code_points(text: Seq<char>, k: int)
    requires
        0 <= k < text.len(),
    ensures
        written_at(text, k + 1) <= escape_pattern(text).len(),
        is_pattern_special(text[k]) ==> escape_pattern(text)[written_at(text, k)] == '\\'
            && escape_pattern(text)[written_at(text, k) + 1] == text[k],
        !is_pattern_special(text[k]) ==> escape_pattern(text)[written_at(text, k)] == text[k],
{
    let whole = escape_pattern(text);
    lemma_written_prefix(text, k + 1);
    lemma_written_step(text, k);
    let longer = escape_pattern(text.take(k + 1));
    let at = written_at(text, k);
    assert(whole[at] == whole.subrange(0, longer.len() as int)[at]);
    assert(longer[at] == escaped_char(text[k], is_pattern_special(text[k]))[0]);
    if is_pattern_special(text[k]) {
        assert(whole[at + 1] == whole.subrange(0, longer.len() as int)[at + 1]);
        assert(longer[at + 1] == escaped_char(text[k], true)[1]);
    }
}

/// The tokens that the code points of `text` from the `j`th on are read
/// as, where what is written for `text` starts at `base`.
pub open spec fn text_tokens(text: Seq<char>, base: int, j: int) -> Seq<TokenView> {
    Seq::new(
        (text.len() - j) as nat,
        |i: int|
            one_token(
                if is_pattern_special(text[j + i]) {
                    TokenType::EscapedChar
                } else {
                    TokenType::Char
                },
                base + written_at(text, j + i),
                text[j + i],
            ),
    )
}

/// What is written for a literal text is read as one token for each of
/// its code points.
pub proof fn lemma_read_text(
    input: Seq<char>,
    base: int,
    text: Seq<char>,
    j: int,
    rest: Seq<TokenView>,
)
    requires
        0 <= base,
        occurs_at(input, base, escape_pattern(text)),
        0 <= j <= text.len(),
        tokens_from(input, base + escape_pattern(text).len(), TokenizePolicy::Strict) == Ok::<
            Seq<TokenView>,
            ErrorView,
        >(rest),
    ensures
        tokens_from(input, base + written_at(text, j), TokenizePolicy::Strict) == Ok::<
            Seq<TokenView>,
            ErrorView,
        >(text_tokens(text, base, j) + rest),
    decreases text.len() - j,
{
    let whole = escape_pattern(text);
    let at = base + written_at(text, j);
    if j == text.len() {
        assert(text.take(j) =~= text);
        assert(text_tokens(text, base, j) + rest =~= rest);
    } else {
        lemma_written_code_points(text, j);
        lemma_written_step(text, j);
        lemma_read_text(input, base, text, j + 1, rest);
        let c = text[j];
        let behind = text_tokens(text, base, j + 1) + rest;
        let w = written_at(text, j);
        assert(input[base + w] == input.subrange(base, base + whole.len())[w]);
        if is_pattern_special(c) {
            assert(input[base + w + 1] == input.subrange(base, base + whole.len())[w + 1]);
            lemma_read_escaped(input, at, behind);
            assert(seq![one_token(TokenType::EscapedChar, at, c)] + behind =~= text_tokens(
                text,
                base,
                j,
            ) + rest);
        } else {
            lemma_read_char(input, at, behind);
            assert(kind_of_char(c) == TokenType::Char);
            assert(seq![one_token(TokenType::Char, at, c)] + behind =~= text_tokens(text, base, j)
                + rest);
        }
    }
}

/// Where two texts in a row stand, each of them stands.
pub proof fn lemma_occurs_both(input: Seq<char>, at: int, first: Seq<char>, second: Seq<char>)
    requires
        occurs_at(input, at, first + second),
    ensures
        occurs_at(input, at, first),
        occurs_at(input, at + first.len(), second),
{
    let whole = first + second;
    assert(input.subrange(at, at + first.len()) =~= whole.subrange(0, first.len() as int));
    assert(whole.subrange(0, first.len() as int) =~= first);
    assert(input.subrange(at + first.len(), at + whole.len()) =~= whole.subrange(
        first.len() as int,
        whole.len() as int,
    ));
    assert(whole.subrange(first.len() as int, whole.len() as int) =~= second);
}

} // verus!
