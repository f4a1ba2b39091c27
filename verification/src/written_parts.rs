//! The tokens that the tokenizer reads from what is written for a part in
//! the canonical pattern string.

use crate::canonicalize_and_process::Encoder;
use crate::component::escape_pattern;
use crate::component::group_body;
use crate::component::is_custom_name;
use crate::component::is_pattern_special;
use crate::component::modifier_text;
use crate::component::needs_grouping;
use crate::component::part_pattern;
use crate::component::pattern_body;
use crate::component::pattern_string;
use crate::component::suffix_needs_escape;
use crate::component::text_if;
use crate::component::written_as_asterisk;
use crate::error::ErrorView;
use crate::parser::OptionsView;
use crate::parser::PartModifier;
use crate::parser::PartType;
use crate::parser::PartView;
use crate::parser::full_wildcard_regexp;
use crate::parser::segment_wildcard_regexp;
use crate::round_trip::body_at;
use crate::round_trip::close_at;
use crate::round_trip::count_if;
use crate::round_trip::ends_in_name;
use crate::round_trip::has_body;
use crate::round_trip::is_body_token;
use crate::round_trip::is_canonical;
use crate::round_trip::is_group;
use crate::round_trip::is_modifier_token;
use crate::round_trip::is_name;
use crate::round_trip::modifier_at;
use crate::round_trip::name_at;
use crate::round_trip::part_is_canonical;
use crate::round_trip::part_spelled;
use crate::round_trip::spelled;
use crate::round_trip::spells_code_point;
use crate::round_trip::spells_text;
use crate::round_trip::suffix_at;
use crate::round_trip::token_count;
use crate::text::occurs_at;
use crate::tokenizer::TokenType;
use crate::tokenizer::TokenView;
use crate::tokenizer::TokenizePolicy;
use crate::tokenizer::is_ascii_char;
use crate::tokenizer::tokens_from;
use crate::tokenizer::valid_name_code_point;
use crate::written::is_embeddable;
use crate::written::kind_of_char;
use crate::written::lemma_occurs_both;
use crate::written::lemma_read_char;
use crate::written::lemma_read_escaped;
use crate::written::lemma_read_name;
use crate::written::lemma_read_regexp;
use crate::written::lemma_read_text;
use crate::written::lemma_written_step;
use crate::written::one_token;
use crate::written::scans;
use crate::written::text_tokens;
use vstd::prelude::*;

verus! {

/// What is read where `input` is read from `at` on.
pub open spec fn reads(input: Seq<char>, at: int, tokens: Seq<TokenView>) -> bool {
    tokens_from(input, at, TokenizePolicy::Strict) == Ok::<Seq<TokenView>, ErrorView>(tokens)
}

/// The tokens of a modifier are read: one, or none where there is no
/// modifier.
pub proof fn lemma_read_modifier(
    input: Seq<char>,
    at: int,
    m: PartModifier,
    rest: Seq<TokenView>,
) -> (tokens: Seq<TokenView>)
    requires
        0 <= at,
        occurs_at(input, at, modifier_text(m)),
        reads(input, at + modifier_text(m).len(), rest),
    ensures
        reads(input, at, tokens),
        tokens.len() == count_if(m != PartModifier::NoModifier) + rest.len(),
        tokens.skip(count_if(m != PartModifier::NoModifier)) == rest,
        m != PartModifier::NoModifier ==> is_modifier_token(tokens[0], m),
{
    if m == PartModifier::NoModifier {
        assert(rest.skip(0) =~= rest);
        rest
    } else {
        let text = modifier_text(m);
        assert(input[at] == input.subrange(at, at + text.len())[0]);
        lemma_read_char(input, at, rest);
        let tokens = seq![one_token(kind_of_char(input[at]), at, input[at])] + rest;
        assert(tokens.skip(1) =~= rest);
        tokens
    }
}

/// One code point that is written for itself is read as one token, if it
/// is written at all.
pub proof fn lemma_read_optional_char(
    input: Seq<char>,
    at: int,
    written: bool,
    c: char,
    rest: Seq<TokenView>,
) -> (tokens: Seq<TokenView>)
    requires
        0 <= at,
        c == '{' || c == '}',
        occurs_at(input, at, text_if(written, seq![c])),
        reads(input, at + count_if(written), rest),
    ensures
        reads(input, at, tokens),
        tokens.len() == count_if(written) + rest.len(),
        tokens.skip(count_if(written)) == rest,
        written ==> tokens[0].kind == kind_of_char(c),
{
    if !written {
        assert(rest.skip(0) =~= rest);
        rest
    } else {
        assert(input[at] == input.subrange(at, at + 1)[0]);
        lemma_read_char(input, at, rest);
        let tokens = seq![one_token(kind_of_char(c), at, c)] + rest;
        assert(tokens.skip(1) =~= rest);
        tokens
    }
}

/// A literal text is read as its tokens; with a backslash before it, its
/// first code point is read as an escaped one.
#[verifier::rlimit(40)]
pub proof fn lemma_read_literal(
    input: Seq<char>,
    at: int,
    text: Seq<char>,
    escaped: bool,
    rest: Seq<TokenView>,
) -> (tokens: Seq<TokenView>)
    requires
        0 <= at,
        occurs_at(input, at, text_if(escaped, seq!['\\'])),
        occurs_at(input, at + count_if(escaped), escape_pattern(text)),
        escaped ==> text.len() > 0 && !is_pattern_special(text[0]),
        reads(input, at + count_if(escaped) + escape_pattern(text).len(), rest),
    ensures
        reads(input, at, tokens),
        tokens.len() == text.len() + rest.len(),
        tokens.skip(text.len() as int) == rest,
        spells_text(tokens, 0, text, escaped),
{
    let base = at + count_if(escaped);
    let whole = escape_pattern(text);
    assert(text.take(0) =~= Seq::<char>::empty());
    if !escaped {
        lemma_read_text(input, base, text, 0, rest);
        let tokens = text_tokens(text, base, 0) + rest;
        assert(tokens.skip(text.len() as int) =~= rest);
        assert forall|j: int| 0 <= j < text.len() implies #[trigger] spells_code_point(
            tokens,
            0,
            text,
            escaped,
            j,
        ) by {
            assert(tokens[j] == text_tokens(text, base, 0)[j]);
        }
        tokens
    } else {
        lemma_read_text(input, base, text, 1, rest);
        lemma_written_step(text, 0);
        crate::written::lemma_written_code_points(text, 0);
        let behind = text_tokens(text, base, 1) + rest;
        assert(input[at] == input.subrange(at, at + 1)[0]);
        assert(input[base] == input.subrange(base, base + whole.len())[0]);
        lemma_read_escaped(input, at, behind);
        let tokens = seq![one_token(TokenType::EscapedChar, at, text[0])] + behind;
        assert(tokens.skip(text.len() as int) =~= rest);
        assert forall|j: int| 0 <= j < text.len() implies #[trigger] spells_code_point(
            tokens,
            0,
            text,
            escaped,
            j,
        ) by {
            if j > 0 {
                assert(tokens[j] == behind[j - 1]);
                assert(behind[j - 1] == text_tokens(text, base, 1)[j - 1]);
            }
        }
        tokens
    }
}

/// A name behind its colon is read as one token, if it is written at
/// all.
pub proof fn lemma_read_optional_name(
    input: Seq<char>,
    at: int,
    written: bool,
    name: Seq<char>,
    rest: Seq<TokenView>,
) -> (tokens: Seq<TokenView>)
    requires
        0 <= at,
        occurs_at(input, at, text_if(written, seq![':'] + name)),
        written ==> is_name(name) && (at + 1 + name.len() == input.len()
            || !valid_name_code_point(input[at + 1 + name.len()], false)),
        reads(input, at + text_if(written, seq![':'] + name).len(), rest),
    ensures
        reads(input, at, tokens),
        tokens.len() == count_if(written) + rest.len(),
        tokens.skip(count_if(written)) == rest,
        written ==> tokens[0].kind == TokenType::Name && tokens[0].value == name,
{
    if !written {
        assert(rest.skip(0) =~= rest);
        rest
    } else {
        let colon = seq![':'];
        lemma_occurs_both(input, at, colon, name);
        assert(input[at] == input.subrange(at, at + 1)[0]);
        lemma_read_name(input, at, name, rest);
        let tokens = seq![TokenView { kind: TokenType::Name, index: at as nat, value: name }]
            + rest;
        assert(tokens.skip(1) =~= rest);
        tokens
    }
}

/// Whether the options are such that the regular expression of a segment
/// wildcard can stand in a pattern string: the delimiter is one ASCII code
/// point or none.
pub open spec fn delimiter_is_plain(options: OptionsView) -> bool {
    options.delimiter_code_point.len() <= 1 && (options.delimiter_code_point.len() == 1
        ==> is_ascii_char(options.delimiter_code_point[0]))
}

/// The regular expressions of the two wildcards can stand in a pattern
/// string.
pub proof fn lemma_wildcards_embeddable(options: OptionsView)
    requires
        delimiter_is_plain(options),
    ensures
        is_embeddable(segment_wildcard_regexp(options)),
        is_embeddable(full_wildcard_regexp()),
{
    reveal_with_fuel(scans, 8);
    reveal_with_fuel(crate::parser::escape_regexp, 3);
    let d = options.delimiter_code_point;
    let inner = crate::parser::escape_regexp(d);
    let source = segment_wildcard_regexp(options);
    if d.len() == 0 {
        assert(inner =~= Seq::<char>::empty());
        assert(source =~= seq!['[', '^', ']', '+', '?']);
    } else {
        assert(d.drop_last() =~= Seq::<char>::empty());
        let c = d[0];
        assert(d.last() == c);
        if crate::parser::is_regexp_special(c) {
            assert(inner =~= seq!['\\', c]);
            assert(source =~= seq!['[', '^', '\\', c, ']', '+', '?']);
        } else {
            assert(inner =~= seq![c]);
            assert(source =~= seq!['[', '^', c, ']', '+', '?']);
        }
    }
}

/// An embedded regular expression in parentheses is read as one token.
proof fn lemma_read_in_parentheses(
    input: Seq<char>,
    at: int,
    source: Seq<char>,
    rest: Seq<TokenView>,
) -> (tokens: Seq<TokenView>)
    requires
        0 <= at,
        occurs_at(input, at, seq!['('] + source + seq![')']),
        is_embeddable(source),
        reads(input, at + source.len() + 2, rest),
    ensures
        reads(input, at, tokens),
        tokens.len() == 1 + rest.len(),
        tokens.skip(1) == rest,
        tokens[0].kind == TokenType::Regexp,
        tokens[0].value == source,
{
    let open = seq!['('];
    let close = seq![')'];
    lemma_occurs_both(input, at, open + source, close);
    lemma_occurs_both(input, at, open, source);
    assert(input[at] == input.subrange(at, at + 1)[0]);
    assert(input[at + 1 + source.len()] == input.subrange(
        at + 1 + source.len(),
        at + 2 + source.len(),
    )[0]);
    lemma_read_regexp(input, at, source, rest);
    let tokens = seq![TokenView { kind: TokenType::Regexp, index: at as nat, value: source }]
        + rest;
    assert(tokens.skip(1) =~= rest);
    tokens
}

/// What is written for the capture of a group is read as one token, if
/// anything is written for it.
#[verifier::rlimit(40)]
pub proof fn lemma_read_body(
    input: Seq<char>,
    at: int,
    parts: Seq<PartView>,
    k: int,
    options: OptionsView,
    rest: Seq<TokenView>,
) -> (tokens: Seq<TokenView>)
    requires
        0 <= at,
        0 <= k < parts.len(),
        is_group(parts[k]),
        delimiter_is_plain(options),
        parts[k].kind == PartType::Regexp ==> is_embeddable(parts[k].value),
        occurs_at(input, at, group_body(parts, k, options)),
        reads(input, at + group_body(parts, k, options).len(), rest),
    ensures
        reads(input, at, tokens),
        tokens.len() == count_if(has_body(parts, k)) + rest.len(),
        tokens.skip(count_if(has_body(parts, k))) == rest,
        has_body(parts, k) ==> is_body_token(tokens[0], parts, k, options),
{
    let part = parts[k];
    lemma_wildcards_embeddable(options);
    if !has_body(parts, k) {
        assert(rest.skip(0) =~= rest);
        rest
    } else if part.kind == PartType::FullWildcard && written_as_asterisk(parts, k, options) {
        assert(input[at] == input.subrange(at, at + 1)[0]);
        lemma_read_char(input, at, rest);
        let tokens = seq![one_token(TokenType::Asterisk, at, '*')] + rest;
        assert(tokens.skip(1) =~= rest);
        tokens
    } else {
        let source = if part.kind == PartType::Regexp {
            part.value
        } else if part.kind == PartType::SegmentWildcard {
            segment_wildcard_regexp(options)
        } else {
            full_wildcard_regexp()
        };
        lemma_read_in_parentheses(input, at, source, rest)
    }
}

/// No code point that has a meaning of its own in a pattern string is a
/// name code point.
pub proof fn lemma_special_is_no_name(c: char)
    requires
        is_pattern_special(c) || c == '}' || c == '{',
    ensures
        !valid_name_code_point(c, false),
        !valid_name_code_point(c, true),
{
}

/// What stands behind a number of tokens stands that number of places
/// further on.
proof fn lemma_behind(tokens: Seq<TokenView>, n: int, rest: Seq<TokenView>, i: int)
    requires
        0 <= n <= tokens.len(),
        tokens.skip(n) == rest,
        0 <= i < rest.len(),
    ensures
        tokens[n + i] == rest[i],
        tokens.len() == n + rest.len(),
{
}

proof fn lemma_text_behind(
    tokens: Seq<TokenView>,
    n: int,
    rest: Seq<TokenView>,
    t: int,
    text: Seq<char>,
    escaped: bool,
)
    requires
        0 <= n <= tokens.len(),
        tokens.skip(n) == rest,
        spells_text(rest, t, text, escaped),
    ensures
        spells_text(tokens, n + t, text, escaped),
{
    assert forall|j: int| 0 <= j < text.len() implies #[trigger] spells_code_point(
        tokens,
        n + t,
        text,
        escaped,
        j,
    ) by {
        assert(spells_code_point(rest, t, text, escaped, j));
        assert(tokens[n + t + j] == rest[t + j]);
    }
}

proof fn lemma_behind_behind(
    tokens: Seq<TokenView>,
    n: int,
    middle: Seq<TokenView>,
    m: int,
    rest: Seq<TokenView>,
)
    requires
        0 <= n <= tokens.len(),
        tokens.skip(n) == middle,
        0 <= m <= middle.len(),
        middle.skip(m) == rest,
    ensures
        tokens.skip(n + m) == rest,
{
    assert(tokens.skip(n + m) =~= tokens.skip(n).skip(m));
}

/// Whether nothing that can go on a name stands in `input` at `at`.
pub open spec fn closes_name(input: Seq<char>, at: int) -> bool {
    at >= input.len() || !valid_name_code_point(input[at], false)
}

/// The `i`th of the eight pieces that are written for the group at `k`:
/// the opening brace, the prefix, the name behind its colon, the capture,
/// the backslash before the suffix, the suffix, the closing brace, the
/// modifier.
pub open spec fn piece(parts: Seq<PartView>, k: int, options: OptionsView, i: int) -> Seq<char> {
    let part = parts[k];
    if i == 0 {
        text_if(needs_grouping(parts, k, options), seq!['{'])
    } else if i == 1 {
        escape_pattern(part.prefix)
    } else if i == 2 {
        text_if(is_custom_name(part.name), seq![':'] + part.name)
    } else if i == 3 {
        group_body(parts, k, options)
    } else if i == 4 {
        text_if(suffix_needs_escape(part), seq!['\\'])
    } else if i == 5 {
        escape_pattern(part.suffix)
    } else if i == 6 {
        text_if(needs_grouping(parts, k, options), seq!['}'])
    } else {
        modifier_text(part.modifier)
    }
}

/// Where the `i`th piece of the group at `k` stands, if the first stands
/// at `at`.
pub open spec fn piece_at(parts: Seq<PartView>, k: int, options: OptionsView, at: int, i: int)
    -> int
    decreases i,
{
    if i <= 0 {
        at
    } else {
        piece_at(parts, k, options, at, i - 1) + piece(parts, k, options, i - 1).len()
    }
}

/// Where what is written for a group stands, each of its pieces stands at
/// its place.
#[verifier::rlimit(40)]
proof fn lemma_group_layout(
    input: Seq<char>,
    at: int,
    parts: Seq<PartView>,
    k: int,
    options: OptionsView,
)
    requires
        0 <= at,
        0 <= k < parts.len(),
        is_group(parts[k]),
        occurs_at(input, at, part_pattern(parts, k, options)),
    ensures
        forall|i: int|
            0 <= i < 8 ==> occurs_at(
                input,
                #[trigger] piece_at(parts, k, options, at, i),
                piece(parts, k, options, i),
            ),
        piece_at(parts, k, options, at, 8) == at + part_pattern(parts, k, options).len(),
{
    reveal_with_fuel(piece_at, 9);
    let q0 = piece(parts, k, options, 0);
    let q1 = piece(parts, k, options, 1);
    let q2 = piece(parts, k, options, 2);
    let q3 = piece(parts, k, options, 3);
    let q4 = piece(parts, k, options, 4);
    let q5 = piece(parts, k, options, 5);
    let q6 = piece(parts, k, options, 6);
    let q7 = piece(parts, k, options, 7);
    assert(part_pattern(parts, k, options) == q0 + q1 + q2 + q3 + q4 + q5 + q6 + q7);
    lemma_occurs_both(input, at, q0 + q1 + q2 + q3 + q4 + q5 + q6, q7);
    lemma_occurs_both(input, at, q0 + q1 + q2 + q3 + q4 + q5, q6);
    lemma_occurs_both(input, at, q0 + q1 + q2 + q3 + q4, q5);
    lemma_occurs_both(input, at, q0 + q1 + q2 + q3, q4);
    lemma_occurs_both(input, at, q0 + q1 + q2, q3);
    lemma_occurs_both(input, at, q0 + q1, q2);
    lemma_occurs_both(input, at, q0, q1);
}

/// Behind the name of a group, where it is written, stands nothing that
/// can go on the name, given that nothing of the kind stands behind the
/// group.
#[verifier::rlimit(40)]
proof fn lemma_name_is_closed(
    input: Seq<char>,
    at: int,
    parts: Seq<PartView>,
    k: int,
    options: OptionsView,
)
    requires
        0 <= at,
        0 <= k < parts.len(),
        is_group(parts[k]),
        is_custom_name(parts[k].name),
        occurs_at(input, at, part_pattern(parts, k, options)),
        ends_in_name(parts, k, options) ==> closes_name(
            input,
            at + part_pattern(parts, k, options).len(),
        ),
    ensures
        closes_name(input, piece_at(parts, k, options, at, 3)),
{
    reveal_with_fuel(piece_at, 9);
    lemma_group_layout(input, at, parts, k, options);
    let part = parts[k];
    let a3 = piece_at(parts, k, options, at, 3);
    let q3 = piece(parts, k, options, 3);
    let q4 = piece(parts, k, options, 4);
    let q5 = piece(parts, k, options, 5);
    let q6 = piece(parts, k, options, 6);
    let q7 = piece(parts, k, options, 7);
    assert(occurs_at(input, piece_at(parts, k, options, at, 3), q3));
    assert(occurs_at(input, piece_at(parts, k, options, at, 4), q4));
    assert(occurs_at(input, piece_at(parts, k, options, at, 5), q5));
    assert(occurs_at(input, piece_at(parts, k, options, at, 6), q6));
    assert(occurs_at(input, piece_at(parts, k, options, at, 7), q7));
    if q3.len() > 0 {
        assert(input[a3] == input.subrange(a3, a3 + q3.len())[0]);
        assert(q3[0] == '(');
    } else if q4.len() > 0 {
        assert(input[a3] == input.subrange(a3, a3 + q4.len())[0]);
    } else if part.suffix.len() > 0 {
        crate::written::lemma_written_code_points(part.suffix, 0);
        assert(part.suffix.take(0) =~= Seq::<char>::empty());
        assert(input[a3] == input.subrange(a3, a3 + q5.len())[0]);
    } else if q6.len() > 0 {
        assert(q5.len() == 0);
        assert(input[a3] == input.subrange(a3, a3 + q6.len())[0]);
    } else if q7.len() > 0 {
        assert(q5.len() == 0);
        assert(input[a3] == input.subrange(a3, a3 + q7.len())[0]);
    } else {
        assert(q5.len() == 0);
    }
}

/// The tokens of a group are those that it is written as, where they are
/// put together from the tokens of its pieces.
#[verifier::rlimit(40)]
proof fn lemma_group_spelled(
    x0: Seq<TokenView>,
    x1: Seq<TokenView>,
    x2: Seq<TokenView>,
    x3: Seq<TokenView>,
    x4: Seq<TokenView>,
    x6: Seq<TokenView>,
    x7: Seq<TokenView>,
    rest: Seq<TokenView>,
    parts: Seq<PartView>,
    k: int,
    options: OptionsView,
)
    requires
        0 <= k < parts.len(),
        is_group(parts[k]),
        x7.len() == count_if(parts[k].modifier != PartModifier::NoModifier) + rest.len(),
        x7.skip(count_if(parts[k].modifier != PartModifier::NoModifier)) == rest,
        parts[k].modifier != PartModifier::NoModifier ==> is_modifier_token(
            x7[0],
            parts[k].modifier,
        ),
        x6.len() == count_if(needs_grouping(parts, k, options)) + x7.len(),
        x6.skip(count_if(needs_grouping(parts, k, options))) == x7,
        needs_grouping(parts, k, options) ==> x6[0].kind == TokenType::Close,
        x4.len() == parts[k].suffix.len() + x6.len(),
        x4.skip(parts[k].suffix.len() as int) == x6,
        spells_text(x4, 0, parts[k].suffix, suffix_needs_escape(parts[k])),
        x3.len() == count_if(has_body(parts, k)) + x4.len(),
        x3.skip(count_if(has_body(parts, k))) == x4,
        has_body(parts, k) ==> is_body_token(x3[0], parts, k, options),
        x2.len() == count_if(is_custom_name(parts[k].name)) + x3.len(),
        x2.skip(count_if(is_custom_name(parts[k].name))) == x3,
        is_custom_name(parts[k].name) ==> x2[0].kind == TokenType::Name && x2[0].value
            == parts[k].name,
        x1.len() == parts[k].prefix.len() + x2.len(),
        x1.skip(parts[k].prefix.len() as int) == x2,
        spells_text(x1, 0, parts[k].prefix, false),
        x0.len() == count_if(needs_grouping(parts, k, options)) + x1.len(),
        x0.skip(count_if(needs_grouping(parts, k, options))) == x1,
        needs_grouping(parts, k, options) ==> x0[0].kind == TokenType::Open,
    ensures
        x0.len() == token_count(parts, k, options) + rest.len(),
        x0.skip(token_count(parts, k, options)) == rest,
        part_spelled(x0, 0, parts, k, options),
{
    let part = parts[k];
    let g = count_if(needs_grouping(parts, k, options));
    let p = part.prefix.len() as int;
    let c = count_if(is_custom_name(part.name));
    let b = count_if(has_body(parts, k));
    let n = part.suffix.len() as int;
    let m = count_if(part.modifier != PartModifier::NoModifier);
    lemma_behind_behind(x0, g, x1, p, x2);
    lemma_behind_behind(x0, g + p, x2, c, x3);
    lemma_behind_behind(x0, g + p + c, x3, b, x4);
    lemma_behind_behind(x0, g + p + c + b, x4, n, x6);
    lemma_behind_behind(x0, g + p + c + b + n, x6, g, x7);
    lemma_behind_behind(x0, g + p + c + b + n + g, x7, m, rest);
    lemma_text_behind(x0, g, x1, 0, part.prefix, false);
    lemma_text_behind(x0, g + p + c + b, x4, 0, part.suffix, suffix_needs_escape(part));
    assert(name_at(parts, k, options, 0) == g + p);
    assert(body_at(parts, k, options, 0) == g + p + c);
    assert(suffix_at(parts, k, options, 0) == g + p + c + b);
    assert(close_at(parts, k, options, 0) == g + p + c + b + n);
    assert(modifier_at(parts, k, options, 0) == g + p + c + b + n + g);
    if is_custom_name(part.name) {
        lemma_behind(x0, g + p, x2, 0);
    }
    if has_body(parts, k) {
        lemma_behind(x0, g + p + c, x3, 0);
    }
    if needs_grouping(parts, k, options) {
        lemma_behind(x0, g + p + c + b + n, x6, 0);
    }
    if part.modifier != PartModifier::NoModifier {
        lemma_behind(x0, g + p + c + b + n + g, x7, 0);
    }
}

proof fn lemma_occurs_nothing(input: Seq<char>, at: int)
    requires
        0 <= at <= input.len(),
    ensures
        occurs_at(input, at, Seq::empty()),
{
    assert(input.subrange(at, at) =~= Seq::<char>::empty());
}

/// What is written for a group is read as the tokens of the group.
#[verifier::rlimit(40)]
pub proof fn lemma_read_group(
    input: Seq<char>,
    at: int,
    parts: Seq<PartView>,
    k: int,
    options: OptionsView,
    rest: Seq<TokenView>,
) -> (tokens: Seq<TokenView>)
    requires
        0 <= at,
        0 <= k < parts.len(),
        is_group(parts[k]),
        delimiter_is_plain(options),
        parts[k].kind == PartType::Regexp ==> is_embeddable(parts[k].value),
        is_custom_name(parts[k].name) ==> is_name(parts[k].name),
        occurs_at(input, at, part_pattern(parts, k, options)),
        reads(input, at + part_pattern(parts, k, options).len(), rest),
        ends_in_name(parts, k, options) ==> closes_name(
            input,
            at + part_pattern(parts, k, options).len(),
        ),
    ensures
        reads(input, at, tokens),
        tokens.len() == token_count(parts, k, options) + rest.len(),
        tokens.skip(token_count(parts, k, options)) == rest,
        part_spelled(tokens, 0, parts, k, options),
{
    reveal_with_fuel(piece_at, 9);
    let part = parts[k];
    let grouped = needs_grouping(parts, k, options);
    let custom = is_custom_name(part.name);
    let escaped = suffix_needs_escape(part);
    lemma_group_layout(input, at, parts, k, options);
    let a1 = piece_at(parts, k, options, at, 1);
    let a2 = piece_at(parts, k, options, at, 2);
    let a3 = piece_at(parts, k, options, at, 3);
    let a4 = piece_at(parts, k, options, at, 4);
    let a5 = piece_at(parts, k, options, at, 5);
    let a6 = piece_at(parts, k, options, at, 6);
    let a7 = piece_at(parts, k, options, at, 7);
    assert(occurs_at(input, piece_at(parts, k, options, at, 0), piece(parts, k, options, 0)));
    assert(occurs_at(input, a1, piece(parts, k, options, 1)));
    assert(occurs_at(input, a2, piece(parts, k, options, 2)));
    assert(occurs_at(input, a3, piece(parts, k, options, 3)));
    assert(occurs_at(input, a4, piece(parts, k, options, 4)));
    assert(occurs_at(input, a5, piece(parts, k, options, 5)));
    assert(occurs_at(input, a6, piece(parts, k, options, 6)));
    assert(occurs_at(input, a7, piece(parts, k, options, 7)));
    if escaped && is_pattern_special(part.suffix[0]) {
        lemma_special_is_no_name(part.suffix[0]);
    }
    let x7 = lemma_read_modifier(input, a7, part.modifier, rest);
    let x6 = lemma_read_optional_char(input, a6, grouped, '}', x7);
    let x4 = lemma_read_literal(input, a4, part.suffix, escaped, x6);
    let x3 = lemma_read_body(input, a3, parts, k, options, x4);
    if custom {
        lemma_name_is_closed(input, at, parts, k, options);
    }
    let x2 = lemma_read_optional_name(input, a2, custom, part.name, x3);
    lemma_occurs_nothing(input, a1);
    let x1 = lemma_read_literal(input, a1, part.prefix, false, x2);
    let x0 = lemma_read_optional_char(input, at, grouped, '{', x1);
    lemma_group_spelled(x0, x1, x2, x3, x4, x6, x7, rest, parts, k, options);
    x0
}

/// What is written for a literal text, with or without a modifier, is
/// read as the tokens of the part.
#[verifier::rlimit(40)]
pub proof fn lemma_read_fixed(
    input: Seq<char>,
    at: int,
    parts: Seq<PartView>,
    k: int,
    options: OptionsView,
    rest: Seq<TokenView>,
) -> (tokens: Seq<TokenView>)
    requires
        0 <= at,
        0 <= k < parts.len(),
        parts[k].kind == PartType::FixedText,
        occurs_at(input, at, part_pattern(parts, k, options)),
        reads(input, at + part_pattern(parts, k, options).len(), rest),
    ensures
        reads(input, at, tokens),
        tokens.len() == token_count(parts, k, options) + rest.len(),
        tokens.skip(token_count(parts, k, options)) == rest,
        part_spelled(tokens, 0, parts, k, options),
{
    let part = parts[k];
    let text = escape_pattern(part.value);
    let n = part.value.len() as int;
    if part.modifier == PartModifier::NoModifier {
        lemma_occurs_nothing(input, at);
        lemma_read_literal(input, at, part.value, false, rest)
    } else {
        let open = seq!['{'];
        let close = seq!['}'];
        let m = modifier_text(part.modifier);
        assert(part_pattern(parts, k, options) == open + text + close + m);
        lemma_occurs_both(input, at, open + text + close, m);
        lemma_occurs_both(input, at, open + text, close);
        lemma_occurs_both(input, at, open, text);
        let x3 = lemma_read_modifier(input, at + 1 + text.len() + 1, part.modifier, rest);
        let x2 = lemma_read_optional_char(input, at + 1 + text.len(), true, '}', x3);
        lemma_occurs_nothing(input, at + 1);
        let x1 = lemma_read_literal(input, at + 1, part.value, false, x2);
        let x0 = lemma_read_optional_char(input, at, true, '{', x1);
        lemma_behind_behind(x0, 1, x1, n, x2);
        lemma_behind_behind(x0, 1 + n, x2, 1, x3);
        lemma_behind_behind(x0, 2 + n, x3, 1, rest);
        lemma_text_behind(x0, 1, x1, 0, part.value, false);
        lemma_behind(x0, 1 + n, x2, 0);
        lemma_behind(x0, 2 + n, x3, 0);
        x0
    }
}

/// Tokens that are those of a part stay so where tokens are put before
/// them.
#[verifier::rlimit(40)]
proof fn lemma_part_spelled_behind(
    tokens: Seq<TokenView>,
    n: int,
    rest: Seq<TokenView>,
    t: int,
    parts: Seq<PartView>,
    k: int,
    options: OptionsView,
)
    requires
        0 <= n <= tokens.len(),
        tokens.skip(n) == rest,
        0 <= t,
        0 <= k < parts.len(),
        part_spelled(rest, t, parts, k, options),
        t + token_count(parts, k, options) < rest.len(),
    ensures
        part_spelled(tokens, n + t, parts, k, options),
{
    let part = parts[k];
    let v = part.value.len() as int;
    if part.kind == PartType::FixedText {
        if part.modifier == PartModifier::NoModifier {
            lemma_text_behind(tokens, n, rest, t, part.value, false);
        } else {
            lemma_text_behind(tokens, n, rest, t + 1, part.value, false);
            lemma_behind(tokens, n, rest, t);
            lemma_behind(tokens, n, rest, t + 1 + v);
            lemma_behind(tokens, n, rest, t + 2 + v);
        }
    } else {
        let grouped = needs_grouping(parts, k, options);
        lemma_text_behind(tokens, n, rest, t + count_if(grouped), part.prefix, false);
        lemma_text_behind(
            tokens,
            n,
            rest,
            suffix_at(parts, k, options, t),
            part.suffix,
            suffix_needs_escape(part),
        );
        lemma_behind(tokens, n, rest, t);
        lemma_behind(tokens, n, rest, name_at(parts, k, options, t));
        lemma_behind(tokens, n, rest, body_at(parts, k, options, t));
        lemma_behind(tokens, n, rest, close_at(parts, k, options, t));
        lemma_behind(tokens, n, rest, modifier_at(parts, k, options, t));
        assert(name_at(parts, k, options, n + t) == n + name_at(parts, k, options, t));
        assert(body_at(parts, k, options, n + t) == n + body_at(parts, k, options, t));
        assert(suffix_at(parts, k, options, n + t) == n + suffix_at(parts, k, options, t));
        assert(close_at(parts, k, options, n + t) == n + close_at(parts, k, options, t));
        assert(modifier_at(parts, k, options, n + t) == n + modifier_at(parts, k, options, t));
    }
}

/// How many tokens a part is written in: at least none.
proof fn lemma_token_count(parts: Seq<PartView>, k: int, options: OptionsView)
    requires
        0 <= k < parts.len(),
    ensures
        token_count(parts, k, options) >= 0,
{
}

/// Tokens that are those of a part list stay so where tokens are put
/// before them.
pub proof fn lemma_spelled_behind(
    tokens: Seq<TokenView>,
    n: int,
    rest: Seq<TokenView>,
    t: int,
    parts: Seq<PartView>,
    k: int,
    options: OptionsView,
)
    requires
        0 <= n <= tokens.len(),
        tokens.skip(n) == rest,
        0 <= t,
        0 <= k <= parts.len(),
        spelled(rest, t, parts, k, options),
    ensures
        spelled(tokens, n + t, parts, k, options),
        t < rest.len(),
    decreases parts.len() - k,
{
    if k < parts.len() {
        lemma_token_count(parts, k, options);
        lemma_spelled_behind(
            tokens,
            n,
            rest,
            t + token_count(parts, k, options),
            parts,
            k + 1,
            options,
        );
        lemma_part_spelled_behind(tokens, n, rest, t, parts, k, options);
    } else {
        lemma_behind(tokens, n, rest, t);
    }
}

/// Where the part at `k` is written in the canonical pattern string.
pub open spec fn written_part_at(parts: Seq<PartView>, k: int, options: OptionsView) -> int {
    pattern_body(parts, k as nat, options).len() as int
}

/// What is written for the part at `k` stands in the canonical pattern
/// string at its place.
pub proof fn lemma_part_occurs(parts: Seq<PartView>, k: int, n: int, options: OptionsView)
    requires
        0 <= k < n <= parts.len(),
    ensures
        occurs_at(
            pattern_body(parts, n as nat, options),
            written_part_at(parts, k, options),
            part_pattern(parts, k, options),
        ),
        written_part_at(parts, k + 1, options) == written_part_at(parts, k, options)
            + part_pattern(parts, k, options).len(),
    decreases n - k,
{
    let whole = pattern_body(parts, n as nat, options);
    let before = pattern_body(parts, k as nat, options);
    let text = part_pattern(parts, k, options);
    assert(pattern_body(parts, (k + 1) as nat, options) == before + text);
    if n == k + 1 {
        assert(whole.subrange(before.len() as int, (before.len() + text.len()) as int) =~= text);
    } else {
        lemma_part_occurs(parts, k, n - 1, options);
        let shorter = pattern_body(parts, (n - 1) as nat, options);
        assert(whole == shorter + part_pattern(parts, n - 1, options));
        assert(whole.subrange(before.len() as int, (before.len() + text.len()) as int)
            =~= shorter.subrange(before.len() as int, (before.len() + text.len()) as int));
    }
}

/// Whether a part list can be written such that the tokenizer reads back
/// what was written: the delimiter of the options is one ASCII code point
/// or none; an embedded regular expression is one that the tokenizer lets
/// through; and where a part ends in a name, what is written next does
/// not start with a name code point.
pub open spec fn is_writable(parts: Seq<PartView>, options: OptionsView) -> bool {
    &&& delimiter_is_plain(options)
    &&& forall|k: int|
        0 <= k < parts.len() && (#[trigger] parts[k]).kind == PartType::Regexp ==> is_embeddable(
            parts[k].value,
        )
    &&& forall|k: int|
        0 <= k && k + 1 < parts.len() && #[trigger] ends_in_name(parts, k, options)
            ==> part_pattern(parts, k + 1, options).len() > 0 && !valid_name_code_point(
            part_pattern(parts, k + 1, options)[0],
            false,
        )
}

/// The tokenizer reads the canonical pattern string of a part list, from
/// the place of the part at `k` on, as the tokens that the parts from
/// there on are written as.
pub proof fn lemma_read_parts(
    parts: Seq<PartView>,
    k: int,
    options: OptionsView,
    encoding: Encoder,
) -> (tokens: Seq<TokenView>)
    requires
        is_canonical(parts, options, encoding),
        is_writable(parts, options),
        0 <= k <= parts.len(),
    ensures
        reads(pattern_string(parts, options), written_part_at(parts, k, options), tokens),
        spelled(tokens, 0, parts, k, options),
    decreases parts.len() - k,
{
    let input = pattern_string(parts, options);
    let at = written_part_at(parts, k, options);
    if k == parts.len() {
        seq![crate::tokenizer::end_token(input)]
    } else {
        let rest = lemma_read_parts(parts, k + 1, options, encoding);
        lemma_part_occurs(parts, k, parts.len() as int, options);
        let next = written_part_at(parts, k + 1, options);
        assert(part_is_canonical(parts, k, options, encoding));
        if ends_in_name(parts, k, options) && k + 1 < parts.len() {
            lemma_part_occurs(parts, k + 1, parts.len() as int, options);
            let follows = part_pattern(parts, k + 1, options);
            assert(input[next] == input.subrange(next, next + follows.len())[0]);
        }
        if k + 1 == parts.len() {
            assert(next == input.len());
        }
        let tokens = if parts[k].kind == PartType::FixedText {
            lemma_read_fixed(input, at, parts, k, options, rest)
        } else {
            lemma_read_group(input, at, parts, k, options, rest)
        };
        lemma_spelled_behind(tokens, token_count(parts, k, options), rest, 0, parts, k + 1, options);
        tokens
    }
}

} // verus!
