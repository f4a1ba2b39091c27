//! The round trip of a part list: the tokens that its canonical pattern
//! string is written in, and what the parser makes of them.

use crate::canonicalize_and_process::Encoder;
use crate::component::ends_in_prefix_code_point;
use crate::component::is_custom_name;
use crate::component::is_pattern_special;
use crate::component::needs_grouping;
use crate::component::suffix_needs_escape;
use crate::component::written_as_asterisk;
use crate::error::ErrorView;
use crate::parser::OptionsView;
use crate::parser::PartModifier;
use crate::parser::PartType;
use crate::parser::PartView;
use crate::parser::Progress;
use crate::parser::Step;
use crate::parser::braced_group_step;
use crate::parser::flushed;
use crate::parser::full_wildcard_regexp;
use crate::parser::group_kind;
use crate::parser::group_regexp;
use crate::parser::group_token_at;
use crate::parser::has_kind;
use crate::parser::modifier_of;
use crate::parser::modifier_token_at;
use crate::parser::name_token_at;
use crate::parser::names_distinct;
use crate::parser::parse_from;
use crate::parser::parse_step;
use crate::parser::segment_wildcard_regexp;
use crate::parser::text_run;
use crate::parser::text_value;
use crate::parser::with_bare_group;
use crate::parser::with_part;
use crate::text::decimal;
use crate::tokenizer::TokenType;
use crate::tokenizer::TokenView;
use crate::tokenizer::valid_name_code_point;
use vstd::prelude::*;

verus! {

/// Whether the token at `t + j` is the one that the `j`th code point of
/// `text` is written as: escaped if the code point has a meaning of its
/// own in a pattern string, or if it is the first and `first_escaped`
/// holds, else plain.
pub open spec fn spells_code_point(
    tokens: Seq<TokenView>,
    t: int,
    text: Seq<char>,
    first_escaped: bool,
    j: int,
) -> bool {
    let token = tokens[t + j];
    token.value == seq![text[j]] && token.kind == (if is_pattern_special(text[j]) || (j == 0
        && first_escaped) {
        TokenType::EscapedChar
    } else {
        TokenType::Char
    })
}

/// Whether the tokens from `t` on are those that `text` is written as.
pub open spec fn spells_text(tokens: Seq<TokenView>, t: int, text: Seq<char>, first_escaped: bool)
    -> bool {
    0 <= t && t + text.len() <= tokens.len() && forall|j: int|
        0 <= j < text.len() ==> #[trigger] spells_code_point(tokens, t, text, first_escaped, j)
}

/// Whether a token is no literal text.
pub open spec fn ends_text(tokens: Seq<TokenView>, i: int) -> bool {
    !has_kind(tokens, i, TokenType::Char) && !has_kind(tokens, i, TokenType::EscapedChar)
}

/// The parser reads the tokens of a literal text as one run with that
/// text.
pub proof fn lemma_text_run(
    tokens: Seq<TokenView>,
    t: int,
    text: Seq<char>,
    first_escaped: bool,
    j: int,
)
    requires
        spells_text(tokens, t, text, first_escaped),
        ends_text(tokens, t + text.len()),
        0 <= j <= text.len(),
    ensures
        text_run(tokens, t + j) == text.len() - j,
        text_value(tokens, t, j as nat) == text.take(j),
    decreases text.len() - j,
{
    if j < text.len() {
        assert(spells_code_point(tokens, t, text, first_escaped, j));
        lemma_text_run(tokens, t, text, first_escaped, j + 1);
    }
    lemma_text_value(tokens, t, text, first_escaped, j);
}

proof fn lemma_text_value(
    tokens: Seq<TokenView>,
    t: int,
    text: Seq<char>,
    first_escaped: bool,
    j: int,
)
    requires
        spells_text(tokens, t, text, first_escaped),
        0 <= j <= text.len(),
    ensures
        text_value(tokens, t, j as nat) == text.take(j),
    decreases j,
{
    if j > 0 {
        lemma_text_value(tokens, t, text, first_escaped, j - 1);
        assert(spells_code_point(tokens, t, text, first_escaped, j - 1));
        assert(text.take(j - 1) + seq![text[j - 1]] =~= text.take(j));
    } else {
        assert(text.take(0) =~= Seq::<char>::empty());
    }
}

/// One if `b` holds, else none.
pub open spec fn count_if(b: bool) -> int {
    if b {
        1
    } else {
        0
    }
}

/// Whether a part is a group.
pub open spec fn is_group(part: PartView) -> bool {
    part.kind != PartType::FixedText
}

/// Whether a part is literal text that stands exactly once.
pub open spec fn is_plain_literal(part: PartView) -> bool {
    part.kind == PartType::FixedText && part.modifier == PartModifier::NoModifier
}

/// Whether something is written for the capture of the group at `k`: for
/// every group but a segment wildcard with a name of its own.
pub open spec fn has_body(parts: Seq<PartView>, k: int) -> bool {
    !(parts[k].kind == PartType::SegmentWildcard && is_custom_name(parts[k].name))
}

/// Where the name token of the group at `k` stands, if the first token of
/// the group stands at `t`.
pub open spec fn name_at(parts: Seq<PartView>, k: int, options: OptionsView, t: int) -> int {
    t + count_if(needs_grouping(parts, k, options)) + parts[k].prefix.len()
}

/// Where the token of the capture of the group at `k` stands.
pub open spec fn body_at(parts: Seq<PartView>, k: int, options: OptionsView, t: int) -> int {
    name_at(parts, k, options, t) + count_if(is_custom_name(parts[k].name))
}

/// Where the tokens of the suffix of the group at `k` start.
pub open spec fn suffix_at(parts: Seq<PartView>, k: int, options: OptionsView, t: int) -> int {
    body_at(parts, k, options, t) + count_if(has_body(parts, k))
}

/// Where the closing brace of the group at `k` stands, if it has one.
pub open spec fn close_at(parts: Seq<PartView>, k: int, options: OptionsView, t: int) -> int {
    suffix_at(parts, k, options, t) + parts[k].suffix.len()
}

/// Where the modifier of the group at `k` stands, if it has one.
pub open spec fn modifier_at(parts: Seq<PartView>, k: int, options: OptionsView, t: int) -> int {
    close_at(parts, k, options, t) + count_if(needs_grouping(parts, k, options))
}

/// How many tokens the part at `k` is written in.
pub open spec fn token_count(parts: Seq<PartView>, k: int, options: OptionsView) -> int {
    let part = parts[k];
    if part.kind == PartType::FixedText {
        if part.modifier == PartModifier::NoModifier {
            part.value.len() as int
        } else {
            (part.value.len() + 3) as int
        }
    } else {
        modifier_at(parts, k, options, 0) + count_if(part.modifier != PartModifier::NoModifier)
    }
}

/// Whether `token` is the one that the modifier `m` is written as.
pub open spec fn is_modifier_token(token: TokenView, m: PartModifier) -> bool {
    match m {
        PartModifier::NoModifier => true,
        PartModifier::Optional => token.kind == TokenType::OtherModifier && token.value
            == seq!['?'],
        PartModifier::ZeroOrMore => token.kind == TokenType::Asterisk && token.value == seq!['*'],
        PartModifier::OneOrMore => token.kind == TokenType::OtherModifier && token.value
            == seq!['+'],
    }
}

/// Whether `token` is the one that the capture of the group at `k` is
/// written as.
pub open spec fn is_body_token(
    token: TokenView,
    parts: Seq<PartView>,
    k: int,
    options: OptionsView,
) -> bool {
    match parts[k].kind {
        PartType::Regexp => token.kind == TokenType::Regexp && token.value == parts[k].value,
        PartType::SegmentWildcard => token.kind == TokenType::Regexp && token.value
            == segment_wildcard_regexp(options),
        PartType::FullWildcard => if written_as_asterisk(parts, k, options) {
            token.kind == TokenType::Asterisk && token.value == seq!['*']
        } else {
            token.kind == TokenType::Regexp && token.value == full_wildcard_regexp()
        },
        PartType::FixedText => false,
    }
}

/// Whether the tokens from `t` on are those that the part at `k` is
/// written as.
pub open spec fn part_spelled(
    tokens: Seq<TokenView>,
    t: int,
    parts: Seq<PartView>,
    k: int,
    options: OptionsView,
) -> bool {
    let part = parts[k];
    let n = part.value.len() as int;
    if part.kind == PartType::FixedText {
        if part.modifier == PartModifier::NoModifier {
            spells_text(tokens, t, part.value, false)
        } else {
            &&& has_kind(tokens, t, TokenType::Open)
            &&& spells_text(tokens, t + 1, part.value, false)
            &&& has_kind(tokens, t + 1 + n, TokenType::Close)
            &&& t + 2 + n < tokens.len()
            &&& is_modifier_token(tokens[t + 2 + n], part.modifier)
        }
    } else {
        let grouped = needs_grouping(parts, k, options);
        &&& 0 <= t
        &&& t + token_count(parts, k, options) <= tokens.len()
        &&& grouped ==> has_kind(tokens, t, TokenType::Open)
        &&& spells_text(tokens, t + count_if(grouped), part.prefix, false)
        &&& is_custom_name(part.name) ==> has_kind(
            tokens,
            name_at(parts, k, options, t),
            TokenType::Name,
        ) && tokens[name_at(parts, k, options, t)].value == part.name
        &&& has_body(parts, k) ==> is_body_token(
            tokens[body_at(parts, k, options, t)],
            parts,
            k,
            options,
        )
        &&& spells_text(
            tokens,
            suffix_at(parts, k, options, t),
            part.suffix,
            suffix_needs_escape(part),
        )
        &&& grouped ==> has_kind(tokens, close_at(parts, k, options, t), TokenType::Close)
        &&& is_modifier_token(tokens[modifier_at(parts, k, options, t)], part.modifier)
    }
}

/// Whether the tokens from `t` on are those that the parts from `k` on are
/// written as, with the `End` token behind them.
pub open spec fn spelled(
    tokens: Seq<TokenView>,
    t: int,
    parts: Seq<PartView>,
    k: int,
    options: OptionsView,
) -> bool
    decreases parts.len() - k,
{
    if k < 0 || k >= parts.len() {
        tokens.len() == t + 1 && has_kind(tokens, t, TokenType::End)
    } else {
        part_spelled(tokens, t, parts, k, options) && spelled(
            tokens,
            t + token_count(parts, k, options),
            parts,
            k + 1,
            options,
        )
    }
}

/// How many of the first `k` parts are groups without a name of their
/// own.
pub open spec fn unnamed_before(parts: Seq<PartView>, k: int) -> nat
    decreases k,
{
    if k <= 0 {
        0
    } else {
        unnamed_before(parts, k - 1) + (if is_group(parts[k - 1]) && !is_custom_name(
            parts[k - 1].name,
        ) {
            1nat
        } else {
            0nat
        })
    }
}

/// Whether `name` is made of name code points.
pub open spec fn is_name(name: Seq<char>) -> bool {
    name.len() > 0 && forall|i: int|
        0 <= i < name.len() ==> valid_name_code_point(#[trigger] name[i], i == 0)
}

/// Whether the part at `k` ends with a name that nothing closes: a
/// segment wildcard with a name of its own that is written without
/// braces and without a modifier.
pub open spec fn ends_in_name(parts: Seq<PartView>, k: int, options: OptionsView) -> bool {
    parts[k].kind == PartType::SegmentWildcard && is_custom_name(parts[k].name)
        && parts[k].modifier == PartModifier::NoModifier && !needs_grouping(parts, k, options)
}

/// Whether what is written for the part at `k` starts with a regular
/// expression in parentheses.
pub open spec fn starts_with_regexp(parts: Seq<PartView>, k: int, options: OptionsView) -> bool {
    0 <= k < parts.len() && is_group(parts[k]) && !needs_grouping(parts, k, options)
        && parts[k].prefix.len() == 0 && !is_custom_name(parts[k].name) && !(parts[k].kind
        == PartType::FullWildcard && written_as_asterisk(parts, k, options))
}

/// Whether the part at `k` is as the parser makes parts, and is written
/// such that it is read back alone: its literal texts are in canonical
/// form; a literal text is not empty and does not follow another that
/// stands once; a group has a name of name code points or the number of
/// the groups without names before it; an embedded regular expression is
/// none of the two wildcards; and where the part ends in a name, what
/// follows does not start with a regular expression.
pub open spec fn part_is_canonical(
    parts: Seq<PartView>,
    k: int,
    options: OptionsView,
    encoding: Encoder,
) -> bool {
    let part = parts[k];
    if part.kind == PartType::FixedText {
        &&& part.value.len() > 0
        &&& encoding(part.value) == Ok::<Seq<char>, ErrorView>(part.value)
        &&& part.name.len() == 0 && part.prefix.len() == 0 && part.suffix.len() == 0
        &&& is_plain_literal(part) && k > 0 ==> !is_plain_literal(parts[k - 1])
    } else {
        &&& encoding(part.prefix) == Ok::<Seq<char>, ErrorView>(part.prefix)
        &&& encoding(part.suffix) == Ok::<Seq<char>, ErrorView>(part.suffix)
        &&& if is_custom_name(part.name) {
            is_name(part.name)
        } else {
            part.name == decimal(unnamed_before(parts, k))
        }
        &&& if part.kind == PartType::Regexp {
            part.value.len() > 0 && part.value != segment_wildcard_regexp(options) && part.value
                != full_wildcard_regexp()
        } else {
            part.value.len() == 0
        }
        &&& ends_in_name(parts, k, options) ==> !starts_with_regexp(parts, k + 1, options)
    }
}

/// Whether every part is canonical, no two groups have one name, and the
/// prefix code point of the options is a code point that is written
/// plainly and that no name holds.
pub open spec fn is_canonical(parts: Seq<PartView>, options: OptionsView, encoding: Encoder)
    -> bool {
    &&& forall|k: int| 0 <= k < parts.len() ==> #[trigger] part_is_canonical(
        parts,
        k,
        options,
        encoding,
    )
    &&& names_distinct(parts)
    &&& options.prefix_code_point.len() <= 1
    &&& options.prefix_code_point.len() == 1 ==> !is_pattern_special(options.prefix_code_point[0])
        && !valid_name_code_point(options.prefix_code_point[0], false)
    &&& encoding(Seq::empty()) == Ok::<Seq<char>, ErrorView>(Seq::empty())
}

/// The literal text that the parser holds back before the part at `k`:
/// that of a literal that stands once right before it.
pub open spec fn pending_at(parts: Seq<PartView>, k: int) -> Seq<char> {
    if k > 0 && is_plain_literal(parts[k - 1]) {
        parts[k - 1].value
    } else {
        Seq::empty()
    }
}

/// The state of the parser before the part at `k`.
pub open spec fn state_at(parts: Seq<PartView>, k: int) -> Progress {
    Progress {
        parts: if k > 0 && is_plain_literal(parts[k - 1]) {
            parts.take(k - 1)
        } else {
            parts.take(k)
        },
        pending: pending_at(parts, k),
        next_numeric_name: unnamed_before(parts, k),
    }
}

/// The state of the parser before the part at `k`, once what it holds
/// back has become a part.
pub open spec fn flushed_at(parts: Seq<PartView>, k: int) -> Progress {
    Progress {
        parts: parts.take(k),
        pending: Seq::empty(),
        next_numeric_name: unnamed_before(parts, k),
    }
}

proof fn lemma_flushed_state(
    parts: Seq<PartView>,
    k: int,
    options: OptionsView,
    encoding: Encoder,
)
    requires
        is_canonical(parts, options, encoding),
        0 <= k <= parts.len(),
    ensures
        flushed(state_at(parts, k), encoding) == Ok::<Progress, ErrorView>(flushed_at(parts, k)),
        flushed(flushed_at(parts, k), encoding) == Ok::<Progress, ErrorView>(flushed_at(parts, k)),
{
    if k > 0 && is_plain_literal(parts[k - 1]) {
        assert(part_is_canonical(parts, k - 1, options, encoding));
        assert(parts.take(k - 1).push(parts[k - 1]) =~= parts.take(k));
        assert(parts[k - 1].name =~= Seq::<char>::empty());
        assert(parts[k - 1].prefix =~= Seq::<char>::empty());
        assert(parts[k - 1].suffix =~= Seq::<char>::empty());
        assert(parts[k - 1] == crate::parser::plain_part(
            PartType::FixedText,
            parts[k - 1].value,
            PartModifier::NoModifier,
        ));
    }
}

/// The source of the regular expression of a segment wildcard is not that
/// of a full wildcard.
proof fn lemma_wildcards_differ(options: OptionsView)
    ensures
        segment_wildcard_regexp(options) != full_wildcard_regexp(),
{
    assert(segment_wildcard_regexp(options)[0] == '[');
    assert(full_wildcard_regexp()[0] == '.');
}

/// What the parser adds for the tokens of the group at `k`.
#[verifier::rlimit(40)]
proof fn lemma_with_group(
    parts: Seq<PartView>,
    k: int,
    p: Progress,
    name: Option<TokenView>,
    group: Option<TokenView>,
    modifier: Option<TokenView>,
    options: OptionsView,
    encoding: Encoder,
)
    requires
        is_canonical(parts, options, encoding),
        0 <= k < parts.len(),
        is_group(parts[k]),
        flushed(p, encoding) == Ok::<Progress, ErrorView>(flushed_at(parts, k)),
        p.next_numeric_name == unnamed_before(parts, k),
        is_custom_name(parts[k].name) ==> (name matches Some(t) && t.value == parts[k].name),
        !is_custom_name(parts[k].name) ==> name is None,
        has_body(parts, k) ==> (group matches Some(t) && is_body_token(t, parts, k, options)),
        !has_body(parts, k) ==> group is None,
        parts[k].modifier != PartModifier::NoModifier ==> (modifier matches Some(t)
            && is_modifier_token(t, parts[k].modifier)),
        parts[k].modifier == PartModifier::NoModifier ==> modifier is None,
    ensures
        with_part(
            p,
            parts[k].prefix,
            name,
            group,
            parts[k].suffix,
            modifier,
            options,
            encoding,
        ) == Ok::<Progress, ErrorView>(flushed_at(parts, k + 1)),
{
    let part = parts[k];
    assert(part_is_canonical(parts, k, options, encoding));
    lemma_wildcards_differ(options);
    let regexp = group_regexp(group, options);
    let kind = group_kind(regexp, options);
    assert(kind == part.kind);
    assert(modifier_of(modifier) == part.modifier) by {
        assert(seq!['?'] != seq!['*']) by {
            assert(seq!['?'][0] != seq!['*'][0]);
        }
        assert(seq!['+'] != seq!['*']) by {
            assert(seq!['+'][0] != seq!['*'][0]);
        }
        assert(seq!['+'] != seq!['?']) by {
            assert(seq!['+'][0] != seq!['?'][0]);
        }
    }
    let made = PartView {
        kind,
        value: if kind == PartType::Regexp {
            regexp
        } else {
            Seq::empty()
        },
        modifier: part.modifier,
        name: match name {
            Some(t) => t.value,
            None => decimal(unnamed_before(parts, k)),
        },
        prefix: part.prefix,
        suffix: part.suffix,
    };
    assert(made.value =~= part.value);
    assert(made == part);
    assert(parts.take(k).push(part) =~= parts.take(k + 1));
    reveal_with_fuel(unnamed_before, 2);
}

/// The first token of what is written from the part at `k` on.
#[verifier::rlimit(40)]
proof fn lemma_first_token(
    tokens: Seq<TokenView>,
    t: int,
    parts: Seq<PartView>,
    k: int,
    options: OptionsView,
    encoding: Encoder,
)
    requires
        is_canonical(parts, options, encoding),
        spelled(tokens, t, parts, k, options),
        0 <= k <= parts.len(),
    ensures
        0 <= t < tokens.len(),
        k == parts.len() ==> tokens[t].kind == TokenType::End,
        k < parts.len() ==> t + token_count(parts, k, options) < tokens.len() && token_count(
            parts,
            k,
            options,
        ) >= 1,
        tokens[t].kind != TokenType::OtherModifier,
        tokens[t].kind != TokenType::Close,
        tokens[t].kind == TokenType::Asterisk ==> k < parts.len() && parts[k].kind
            == PartType::FullWildcard && written_as_asterisk(parts, k, options)
            && !needs_grouping(parts, k, options) && parts[k].prefix.len() == 0,
        tokens[t].kind == TokenType::Regexp ==> starts_with_regexp(parts, k, options),
        tokens[t].kind == TokenType::Name ==> k < parts.len() && is_group(parts[k])
            && !needs_grouping(parts, k, options) && parts[k].prefix.len() == 0,
        tokens[t].kind == TokenType::Char && k < parts.len() && is_group(parts[k])
            ==> !needs_grouping(parts, k, options) && parts[k].prefix
            == options.prefix_code_point && parts[k].prefix.len() == 1 && tokens[t].value
            == parts[k].prefix,
        tokens[t].kind == TokenType::EscapedChar ==> k < parts.len() && is_plain_literal(parts[k]),
        tokens[t].kind == TokenType::Open ==> k < parts.len() && !is_plain_literal(parts[k]) && (
        is_group(parts[k]) ==> needs_grouping(parts, k, options)),
    decreases parts.len() - k,
{
    if k < parts.len() {
        let part = parts[k];
        assert(part_is_canonical(parts, k, options, encoding));
        lemma_first_token(tokens, t + token_count(parts, k, options), parts, k + 1, options, encoding);
        if part.kind == PartType::FixedText {
            if part.modifier == PartModifier::NoModifier {
                assert(spells_code_point(tokens, t, part.value, false, 0));
            }
        } else if !needs_grouping(parts, k, options) {
            if part.prefix.len() > 0 {
                assert(spells_code_point(tokens, t, part.prefix, false, 0));
                assert(part.prefix =~= seq![part.prefix[0]]);
            }
        }
    }
}

/// The name token and the token of the capture of the group at `k`, as
/// the parser finds them.
#[verifier::rlimit(40)]
proof fn lemma_group_tokens(
    tokens: Seq<TokenView>,
    t: int,
    parts: Seq<PartView>,
    k: int,
    options: OptionsView,
    encoding: Encoder,
)
    requires
        is_canonical(parts, options, encoding),
        spelled(tokens, t, parts, k, options),
        0 <= k < parts.len(),
        is_group(parts[k]),
    ensures
        is_custom_name(parts[k].name) ==> name_token_at(tokens, name_at(parts, k, options, t))
            == Some(tokens[name_at(parts, k, options, t)]) && tokens[name_at(
            parts,
            k,
            options,
            t,
        )].value == parts[k].name,
        !is_custom_name(parts[k].name) ==> name_token_at(tokens, name_at(parts, k, options, t))
            is None,
        has_body(parts, k) ==> group_token_at(
            tokens,
            body_at(parts, k, options, t),
            is_custom_name(parts[k].name),
        ) == Some(tokens[body_at(parts, k, options, t)]) && is_body_token(
            tokens[body_at(parts, k, options, t)],
            parts,
            k,
            options,
        ),
        !has_body(parts, k) ==> group_token_at(
            tokens,
            body_at(parts, k, options, t),
            is_custom_name(parts[k].name),
        ) is None,
        parts[k].modifier != PartModifier::NoModifier ==> modifier_token_at(
            tokens,
            modifier_at(parts, k, options, t),
        ) == Some(tokens[modifier_at(parts, k, options, t)]) && is_modifier_token(
            tokens[modifier_at(parts, k, options, t)],
            parts[k].modifier,
        ),
        parts[k].modifier == PartModifier::NoModifier ==> modifier_token_at(
            tokens,
            modifier_at(parts, k, options, t),
        ) is None,
        0 <= t,
        modifier_at(parts, k, options, t) < tokens.len(),
{
    let part = parts[k];
    let next = t + token_count(parts, k, options);
    assert(part_is_canonical(parts, k, options, encoding));
    assert(part_spelled(tokens, t, parts, k, options));
    lemma_first_token(tokens, next, parts, k + 1, options, encoding);
    let a = name_at(parts, k, options, t);
    let b = body_at(parts, k, options, t);
    let c = suffix_at(parts, k, options, t);
    let e = modifier_at(parts, k, options, t);
    if !is_custom_name(part.name) {
        assert(has_body(parts, k));
        assert(a == b);
    } else if !has_body(parts, k) {
        assert(b == c);
        if part.suffix.len() > 0 {
            assert(spells_code_point(tokens, c, part.suffix, suffix_needs_escape(part), 0));
        } else if !needs_grouping(parts, k, options) && part.modifier
            == PartModifier::NoModifier {
            assert(ends_in_name(parts, k, options));
            assert(b == next);
        }
    }
    if part.modifier == PartModifier::NoModifier {
        assert(e == next);
    }
}

/// The step of the parser at a literal text with a modifier.
#[verifier::rlimit(40)]
proof fn lemma_step_modified_literal(
    tokens: Seq<TokenView>,
    t: int,
    parts: Seq<PartView>,
    k: int,
    options: OptionsView,
    encoding: Encoder,
)
    requires
        is_canonical(parts, options, encoding),
        spelled(tokens, t, parts, k, options),
        0 <= k < parts.len(),
        parts[k].kind == PartType::FixedText,
        parts[k].modifier != PartModifier::NoModifier,
    ensures
        parse_step(tokens, t, state_at(parts, k), options, encoding) == Step::Next(
            t + token_count(parts, k, options),
            flushed_at(parts, k + 1),
        ),
{
    let part = parts[k];
    let p = state_at(parts, k);
    assert(part_is_canonical(parts, k, options, encoding));
    assert(part_spelled(tokens, t, parts, k, options));
    lemma_flushed_state(parts, k, options, encoding);
    let n = part.value.len() as int;
    lemma_text_run(tokens, t + 1, part.value, false, 0);
    lemma_text_run(tokens, t + 1, part.value, false, n);
    assert(part.value.take(n) =~= part.value);
    assert(text_run(tokens, t + 1 + n) == 0);
    assert(text_value(tokens, t + 1 + n, 0) =~= Seq::<char>::empty());
    let modifier = modifier_token_at(tokens, t + 2 + n);
    assert(modifier == Some(tokens[t + 2 + n]));
    assert(modifier_of(modifier) == part.modifier) by {
        assert(seq!['?'][0] != seq!['*'][0]);
        assert(seq!['+'][0] != seq!['*'][0]);
        assert(seq!['+'][0] != seq!['?'][0]);
    }
    assert(parts.take(k).push(part) =~= parts.take(k + 1));
    assert(part.name =~= Seq::<char>::empty());
    assert(part.prefix =~= Seq::<char>::empty());
    assert(part.suffix =~= Seq::<char>::empty());
    reveal_with_fuel(unnamed_before, 2);
    let made = crate::parser::plain_part(PartType::FixedText, part.value, part.modifier);
    assert(made == part);
    assert(with_part(p, part.value, None, None, Seq::empty(), modifier, options, encoding)
        == Ok::<Progress, ErrorView>(flushed_at(parts, k + 1)));
    assert(name_token_at(tokens, t + 1 + n) is None);
    assert(group_token_at(tokens, t + 1 + n, false) is None);
    assert(braced_group_step(tokens, t, p, options, encoding) == Step::Next(
        t + token_count(parts, k, options),
        flushed_at(parts, k + 1),
    ));
}

/// The step of the parser at a group that is written in braces.
#[verifier::rlimit(40)]
proof fn lemma_step_braced_group(
    tokens: Seq<TokenView>,
    t: int,
    parts: Seq<PartView>,
    k: int,
    options: OptionsView,
    encoding: Encoder,
)
    requires
        is_canonical(parts, options, encoding),
        spelled(tokens, t, parts, k, options),
        0 <= k < parts.len(),
        is_group(parts[k]),
        needs_grouping(parts, k, options),
    ensures
        parse_step(tokens, t, state_at(parts, k), options, encoding) == Step::Next(
            t + token_count(parts, k, options),
            flushed_at(parts, k + 1),
        ),
{
    let part = parts[k];
    let p = state_at(parts, k);
    assert(part_spelled(tokens, t, parts, k, options));
    lemma_flushed_state(parts, k, options, encoding);
    lemma_group_tokens(tokens, t, parts, k, options, encoding);
    let a = name_at(parts, k, options, t);
    let b = body_at(parts, k, options, t);
    let c = suffix_at(parts, k, options, t);
    let d = close_at(parts, k, options, t);
    let e = modifier_at(parts, k, options, t);
    let name = name_token_at(tokens, a);
    let group = group_token_at(tokens, b, name is Some);
    let modifier = modifier_token_at(tokens, e);
    assert(ends_text(tokens, a));
    lemma_text_run(tokens, t + 1, part.prefix, false, 0);
    lemma_text_run(tokens, t + 1, part.prefix, false, part.prefix.len() as int);
    assert(part.prefix.take(part.prefix.len() as int) =~= part.prefix);
    lemma_text_run(tokens, c, part.suffix, suffix_needs_escape(part), 0);
    lemma_text_run(tokens, c, part.suffix, suffix_needs_escape(part), part.suffix.len() as int);
    assert(part.suffix.take(part.suffix.len() as int) =~= part.suffix);
    lemma_with_group(parts, k, p, name, group, modifier, options, encoding);
    assert(braced_group_step(tokens, t, p, options, encoding) == Step::Next(
        t + token_count(parts, k, options),
        flushed_at(parts, k + 1),
    ));
}

/// The step of the parser at a group that is written without braces.
#[verifier::rlimit(40)]
proof fn lemma_step_bare_group(
    tokens: Seq<TokenView>,
    t: int,
    parts: Seq<PartView>,
    k: int,
    options: OptionsView,
    encoding: Encoder,
)
    requires
        is_canonical(parts, options, encoding),
        spelled(tokens, t, parts, k, options),
        0 <= k < parts.len(),
        is_group(parts[k]),
        !needs_grouping(parts, k, options),
    ensures
        parse_step(tokens, t, state_at(parts, k), options, encoding) == Step::Next(
            t + token_count(parts, k, options),
            flushed_at(parts, k + 1),
        ),
{
    let part = parts[k];
    let p = state_at(parts, k);
    assert(part_spelled(tokens, t, parts, k, options));
    lemma_flushed_state(parts, k, options, encoding);
    lemma_group_tokens(tokens, t, parts, k, options, encoding);
    lemma_first_token(tokens, t, parts, k, options, encoding);
    let a = name_at(parts, k, options, t);
    let b = body_at(parts, k, options, t);
    let e = modifier_at(parts, k, options, t);
    let name = name_token_at(tokens, a);
    let group = group_token_at(tokens, b, name is Some);
    let modifier = modifier_token_at(tokens, e);
    assert(part.suffix =~= Seq::<char>::empty());
    let first = if part.prefix.len() > 0 {
        tokens[t].value
    } else {
        Seq::<char>::empty()
    };
    if part.prefix.len() > 0 {
        assert(spells_code_point(tokens, t, part.prefix, false, 0));
        assert(part.prefix =~= seq![part.prefix[0]]);
        assert(has_kind(tokens, t, TokenType::Char));
    } else {
        assert(part.prefix =~= Seq::<char>::empty());
        assert(!has_kind(tokens, t, TokenType::Char));
    }
    assert(first == part.prefix);
    lemma_with_group(parts, k, flushed_at(parts, k), name, group, modifier, options, encoding);
    assert(with_bare_group(p, first, name, group, modifier, options, encoding) == Ok::<
        Progress,
        ErrorView,
    >(flushed_at(parts, k + 1)));
}

/// The state of the parser within the literal text at `k`, before its
/// `j`th code point.
pub open spec fn state_within(parts: Seq<PartView>, k: int, j: int) -> Progress {
    Progress {
        parts: parts.take(k),
        pending: parts[k].value.take(j),
        next_numeric_name: unnamed_before(parts, k),
    }
}

/// The parser reads the rest of a literal text and what follows it, given
/// that it reads what follows the text, and what follows the part behind
/// the text.
#[verifier::rlimit(40)]
proof fn lemma_parse_literal(
    tokens: Seq<TokenView>,
    t: int,
    parts: Seq<PartView>,
    k: int,
    j: int,
    options: OptionsView,
    encoding: Encoder,
)
    requires
        is_canonical(parts, options, encoding),
        spelled(tokens, t, parts, k, options),
        0 <= k < parts.len(),
        is_plain_literal(parts[k]),
        0 <= j <= parts[k].value.len(),
        parse_from(
            tokens,
            t + parts[k].value.len(),
            state_at(parts, k + 1),
            options,
            encoding,
        ) == Ok::<Seq<PartView>, ErrorView>(parts),
        k + 1 < parts.len() ==> parse_from(
            tokens,
            t + parts[k].value.len() + token_count(parts, k + 1, options),
            state_at(parts, k + 2),
            options,
            encoding,
        ) == Ok::<Seq<PartView>, ErrorView>(parts),
    ensures
        parse_from(tokens, t + j, state_within(parts, k, j), options, encoding) == Ok::<
            Seq<PartView>,
            ErrorView,
        >(parts),
    decreases parts[k].value.len() - j,
{
    let part = parts[k];
    let value = part.value;
    let n = value.len() as int;
    let p = state_within(parts, k, j);
    assert(part_is_canonical(parts, k, options, encoding));
    assert(part_spelled(tokens, t, parts, k, options));
    lemma_first_token(tokens, t + n, parts, k + 1, options, encoding);
    if j == n {
        assert(value.take(n) =~= value);
        assert(p == state_at(parts, k + 1));
    } else {
        assert(spells_code_point(tokens, t, value, false, j));
        assert(value.take(j) + seq![value[j]] =~= value.take(j + 1));
        let token = tokens[t + j];
        let after = tokens[t + j + 1];
        if j + 1 < n {
            assert(spells_code_point(tokens, t, value, false, j + 1));
        }
        let merges = token.kind == TokenType::Char && j + 1 == n && (after.kind == TokenType::Name
            || after.kind == TokenType::Regexp || after.kind == TokenType::Asterisk);
        if merges {
            let next = t + n;
            assert(is_group(parts[k + 1]));
            assert(!needs_grouping(parts, k + 1, options));
            assert(parts[k + 1].prefix.len() == 0);
            assert(!ends_in_prefix_code_point(part, options));
            assert(value.last() == value[j]);
            assert(token.value != options.prefix_code_point);
            lemma_group_tokens(tokens, next, parts, k + 1, options, encoding);
            assert(spelled(tokens, next, parts, k + 1, options));
            assert(part_spelled(tokens, next, parts, k + 1, options));
            let a = name_at(parts, k + 1, options, next);
            let b = body_at(parts, k + 1, options, next);
            let e = modifier_at(parts, k + 1, options, next);
            assert(a == next);
            let name = name_token_at(tokens, a);
            let group = group_token_at(tokens, b, name is Some);
            let modifier = modifier_token_at(tokens, e);
            assert(parts[k + 1].suffix =~= Seq::<char>::empty());
            assert(parts[k + 1].prefix =~= Seq::<char>::empty());
            let held = Progress { pending: p.pending + token.value, ..p };
            assert(held.pending =~= value);
            assert(part.name =~= Seq::<char>::empty());
            assert(part.prefix =~= Seq::<char>::empty());
            assert(part.suffix =~= Seq::<char>::empty());
            assert(part == crate::parser::plain_part(
                PartType::FixedText,
                value,
                PartModifier::NoModifier,
            ));
            assert(parts.take(k).push(part) =~= parts.take(k + 1));
            reveal_with_fuel(unnamed_before, 2);
            assert(flushed(held, encoding) == Ok::<Progress, ErrorView>(flushed_at(parts, k + 1)));
            lemma_flushed_state(parts, k + 1, options, encoding);
            lemma_with_group(
                parts,
                k + 1,
                flushed_at(parts, k + 1),
                name,
                group,
                modifier,
                options,
                encoding,
            );
            assert(with_bare_group(p, token.value, name, group, modifier, options, encoding)
                == Ok::<Progress, ErrorView>(flushed_at(parts, k + 2)));
            assert(parse_step(tokens, t + j, p, options, encoding) == Step::Next(
                next + token_count(parts, k + 1, options),
                flushed_at(parts, k + 2),
            ));
            assert(state_at(parts, k + 2) == flushed_at(parts, k + 2));
            lemma_first_token(
                tokens,
                next + token_count(parts, k + 1, options),
                parts,
                k + 2,
                options,
                encoding,
            );
        } else {
            lemma_parse_literal(tokens, t, parts, k, j + 1, options, encoding);
            assert(parse_step(tokens, t + j, p, options, encoding) == Step::Next(
                t + j + 1,
                state_within(parts, k, j + 1),
            ));
        }
    }
}

/// The parser makes of the tokens that a canonical part list is written
/// as, from the part at `k` on, what is left of the list.
#[verifier::rlimit(40)]
pub proof fn lemma_parse_spelled(
    tokens: Seq<TokenView>,
    t: int,
    parts: Seq<PartView>,
    k: int,
    options: OptionsView,
    encoding: Encoder,
)
    requires
        is_canonical(parts, options, encoding),
        spelled(tokens, t, parts, k, options),
        0 <= k <= parts.len(),
    ensures
        parse_from(tokens, t, state_at(parts, k), options, encoding) == Ok::<
            Seq<PartView>,
            ErrorView,
        >(parts),
    decreases parts.len() - k,
{
    let p = state_at(parts, k);
    lemma_first_token(tokens, t, parts, k, options, encoding);
    lemma_flushed_state(parts, k, options, encoding);
    if k == parts.len() {
        assert(parts.take(k) =~= parts);
        assert(parse_step(tokens, t, p, options, encoding) == Step::Next(
            t + 1,
            flushed_at(parts, k),
        ));
        assert(parse_from(tokens, t + 1, flushed_at(parts, k), options, encoding) == Ok::<
            Seq<PartView>,
            ErrorView,
        >(parts));
    } else {
        let part = parts[k];
        let next = t + token_count(parts, k, options);
        assert(part_is_canonical(parts, k, options, encoding));
        lemma_parse_spelled(tokens, next, parts, k + 1, options, encoding);
        if is_plain_literal(part) {
            if k + 1 < parts.len() {
                assert(spelled(tokens, next, parts, k + 1, options));
                lemma_parse_spelled(
                    tokens,
                    next + token_count(parts, k + 1, options),
                    parts,
                    k + 2,
                    options,
                    encoding,
                );
            }
            lemma_parse_literal(tokens, t, parts, k, 0, options, encoding);
            assert(part.value.take(0) =~= Seq::<char>::empty());
            assert(p == state_within(parts, k, 0));
        } else {
            if part.kind == PartType::FixedText {
                lemma_step_modified_literal(tokens, t, parts, k, options, encoding);
            } else if needs_grouping(parts, k, options) {
                lemma_step_braced_group(tokens, t, parts, k, options, encoding);
            } else {
                lemma_step_bare_group(tokens, t, parts, k, options, encoding);
            }
            assert(state_at(parts, k + 1) == flushed_at(parts, k + 1));
        }
    }
}

} // verus!
