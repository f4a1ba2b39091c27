//! What holds of every part list that the parser makes: the names of its
//! groups and their embedded regular expressions are as the tokenizer
//! lets them through, groups without names are numbered in order, and
//! all literal text is text that the encoding gave.

use crate::canonicalize_and_process::Encoder;
use crate::component::is_custom_name;
use crate::error::ErrorView;
use crate::parser::OptionsView;
use crate::parser::PartType;
use crate::parser::PartView;
use crate::parser::Progress;
use crate::parser::Step;
use crate::parser::flushed;
use crate::parser::full_wildcard_regexp;
use crate::parser::group_token_at;
use crate::parser::has_kind;
use crate::parser::modifier_token_at;
use crate::parser::name_token_at;
use crate::parser::parse_from;
use crate::parser::parse_step;
use crate::parser::segment_wildcard_regexp;
use crate::parser::text_run;
use crate::parser::text_value;
use crate::parser::width;
use crate::parser::with_part;
use crate::round_trip::is_group;
use crate::round_trip::is_name;
use crate::round_trip::unnamed_before;
use crate::text::decimal;
use crate::tokenizer::Lexeme;
use crate::tokenizer::RegexpScan;
use crate::tokenizer::TokenType;
use crate::tokenizer::TokenView;
use crate::tokenizer::TokenizePolicy;
use crate::tokenizer::lexeme_at;
use crate::tokenizer::name_end;
use crate::tokenizer::scan_regexp_from;
use crate::tokenizer::tokens_from;
use crate::tokenizer::valid_name_code_point;
use crate::written::is_embeddable;
use crate::written::scans;
use vstd::prelude::*;

verus! {

/// The code points up to the end of a name are name code points.
proof fn lemma_name_is_name(input: Seq<char>, start: int, pos: int)
    requires
        0 <= start <= pos <= input.len(),
    ensures
        pos <= name_end(input, start, pos) <= input.len(),
        forall|i: int|
            pos <= i < name_end(input, start, pos) ==> valid_name_code_point(
                #[trigger] input[i],
                i == start,
            ),
    decreases input.len() - pos,
{
    if pos < input.len() && valid_name_code_point(input[pos], pos == start) {
        lemma_name_is_name(input, start, pos + 1);
    }
}

/// What the scan of an embedded regular expression passes over up to the
/// closing parenthesis can stand in a pattern string again.
proof fn lemma_scan_is_embeddable(input: Seq<char>, start: int, pos: int, depth: nat, end: int)
    requires
        0 <= start <= pos <= input.len(),
        depth >= 1,
        scan_regexp_from(input, start, pos, depth) == RegexpScan::Closed(end),
    ensures
        pos < end <= input.len(),
        depth >= 2 ==> pos < end - 1,
        scans(input.subrange(start, end - 1), pos - start, depth),
    decreases input.len() - pos,
{
    let c = input[pos];
    let i = pos - start;
    if c == '\\' {
        lemma_scan_is_embeddable(input, start, pos + 2, depth, end);
        let v = input.subrange(start, end - 1);
        assert(v[i] == c);
        assert(v[i + 1] == input[pos + 1]);
    } else if c == ')' {
        if depth > 1 {
            lemma_scan_is_embeddable(input, start, pos + 1, (depth - 1) as nat, end);
            let v = input.subrange(start, end - 1);
            assert(v[i] == c);
        }
    } else if c == '(' {
        lemma_scan_is_embeddable(input, start, pos + 1, depth + 1, end);
        let v = input.subrange(start, end - 1);
        assert(v[i] == c);
        assert(v[i + 1] == '?');
    } else {
        lemma_scan_is_embeddable(input, start, pos + 1, depth, end);
        let v = input.subrange(start, end - 1);
        assert(v[i] == c);
    }
}

/// Whether every name token holds a name, and every token of an embedded
/// regular expression holds one that can stand in a pattern string.
pub open spec fn tokens_are_proper(tokens: Seq<TokenView>) -> bool {
    forall|i: int|
        0 <= i < tokens.len() ==> ((#[trigger] tokens[i]).kind == TokenType::Name ==> is_name(
            tokens[i].value,
        )) && (tokens[i].kind == TokenType::Regexp ==> is_embeddable(tokens[i].value))
}

proof fn lemma_token_is_proper(input: Seq<char>, pos: int)
    requires
        0 <= pos < input.len(),
    ensures
        lexeme_at(input, pos) matches Lexeme::Token { kind, next, from, len } ==> (kind
            == TokenType::Name ==> is_name(input.subrange(from, from + len))) && (kind
            == TokenType::Regexp ==> is_embeddable(input.subrange(from, from + len))),
{
    match lexeme_at(input, pos) {
        Lexeme::Token { kind, next, from, len } => {
            let value = input.subrange(from, from + len);
            if kind == TokenType::Name {
                lemma_name_is_name(input, pos + 1, pos + 1);
                assert forall|i: int| 0 <= i < value.len() implies valid_name_code_point(
                    #[trigger] value[i],
                    i == 0,
                ) by {
                    assert(value[i] == input[from + i]);
                }
            }
            if kind == TokenType::Regexp {
                lemma_scan_is_embeddable(input, pos + 1, pos + 1, 1, next);
            }
        },
        Lexeme::Invalid { .. } => {},
    }
}

/// The tokenizer makes proper tokens only.
pub proof fn lemma_tokens_are_proper(input: Seq<char>, pos: int, policy: TokenizePolicy)
    requires
        0 <= pos,
    ensures
        tokens_from(input, pos, policy) matches Ok(tokens) ==> tokens_are_proper(tokens),
    decreases input.len() - pos,
{
    if pos < input.len() {
        lemma_token_is_proper(input, pos);
        match lexeme_at(input, pos) {
            Lexeme::Token { kind, next, from, len } => {
                if pos < next <= input.len() {
                    lemma_tokens_are_proper(input, next, policy);
                    if tokens_from(input, pos, policy) is Ok {
                        let rest = tokens_from(input, next, policy)->Ok_0;
                        let tokens = tokens_from(input, pos, policy)->Ok_0;
                        assert forall|i: int| 0 <= i < tokens.len() implies ((
                        #[trigger] tokens[i]).kind == TokenType::Name ==> is_name(
                            tokens[i].value,
                        )) && (tokens[i].kind == TokenType::Regexp ==> is_embeddable(
                            tokens[i].value,
                        )) by {
                            if i > 0 {
                                assert(tokens[i] == rest[i - 1]);
                            }
                        }
                    }
                }
            },
            Lexeme::Invalid { error, next } => {
                if policy != TokenizePolicy::Strict && pos < next <= input.len() {
                    lemma_tokens_are_proper(input, next, policy);
                    if tokens_from(input, pos, policy) is Ok {
                        let rest = tokens_from(input, next, policy)->Ok_0;
                        let tokens = tokens_from(input, pos, policy)->Ok_0;
                        assert forall|i: int| 0 <= i < tokens.len() implies ((
                        #[trigger] tokens[i]).kind == TokenType::Name ==> is_name(
                            tokens[i].value,
                        )) && (tokens[i].kind == TokenType::Regexp ==> is_embeddable(
                            tokens[i].value,
                        )) by {
                            if i > 0 {
                                assert(tokens[i] == rest[i - 1]);
                            }
                        }
                    }
                }
            },
        }
    }
}

/// Whether the part at `k` has the shape that the parser gives its parts.
/// A literal text has no name, prefix or suffix. A group has a name that
/// was written, which is made of name code points, or the number of the
/// groups without names before it; the embedded regular expression of a
/// group of kind `Regexp` can stand in a pattern string and is none of
/// the two wildcards, and a wildcard has none.
pub open spec fn part_has_shape(parts: Seq<PartView>, k: int, options: OptionsView) -> bool {
    let part = parts[k];
    if part.kind == PartType::FixedText {
        part.name.len() == 0 && part.prefix.len() == 0 && part.suffix.len() == 0
    } else {
        &&& if is_custom_name(part.name) {
            is_name(part.name)
        } else {
            part.name == decimal(unnamed_before(parts, k))
        }
        &&& if part.kind == PartType::Regexp {
            is_embeddable(part.value) && part.value != segment_wildcard_regexp(options)
                && part.value != full_wildcard_regexp()
        } else {
            part.value.len() == 0
        }
    }
}

/// Whether every part has the shape that the parser gives its parts.
pub open spec fn parts_have_shape(parts: Seq<PartView>, options: OptionsView) -> bool {
    forall|k: int| 0 <= k < parts.len() ==> #[trigger] part_has_shape(parts, k, options)
}

/// Whether the parser's state is one that it comes to from its start: its
/// parts have their shape, and its counter is the number of groups
/// without names among them.
pub open spec fn progress_has_shape(p: Progress, options: OptionsView) -> bool {
    parts_have_shape(p.parts, options) && p.next_numeric_name == unnamed_before(
        p.parts,
        p.parts.len() as int,
    )
}

/// The number of groups without names before a part does not depend on
/// what comes behind the part.
proof fn lemma_unnamed_before_push(parts: Seq<PartView>, part: PartView, k: int)
    requires
        0 <= k <= parts.len(),
    ensures
        unnamed_before(parts.push(part), k) == unnamed_before(parts, k),
    decreases k,
{
    if k > 0 {
        lemma_unnamed_before_push(parts, part, k - 1);
        assert(parts.push(part)[k - 1] == parts[k - 1]);
    }
}

proof fn lemma_pushed_has_shape(p: Progress, part: PartView, counter: nat, options: OptionsView)
    requires
        progress_has_shape(p, options),
        part_has_shape(p.parts.push(part), p.parts.len() as int, options),
        counter == p.next_numeric_name + (if is_group(part) && !is_custom_name(part.name) {
            1nat
        } else {
            0nat
        }),
    ensures
        progress_has_shape(
            Progress { parts: p.parts.push(part), pending: p.pending, next_numeric_name: counter },
            options,
        ),
        parts_have_shape(p.parts.push(part), options),
{
    let longer = p.parts.push(part);
    let n = p.parts.len() as int;
    assert forall|k: int| 0 <= k < longer.len() implies #[trigger] part_has_shape(
        longer,
        k,
        options,
    ) by {
        if k < n {
            assert(part_has_shape(p.parts, k, options));
            assert(longer[k] == p.parts[k]);
            lemma_unnamed_before_push(p.parts, part, k);
        }
    }
    lemma_unnamed_before_push(p.parts, part, n);
    assert(longer[n] == part);
    reveal_with_fuel(unnamed_before, 2);
}

proof fn lemma_flushed_has_shape(p: Progress, encoding: Encoder, options: OptionsView)
    requires
        progress_has_shape(p, options),
    ensures
        flushed(p, encoding) matches Ok(q) ==> progress_has_shape(q, options),
{
    if flushed(p, encoding) is Ok && p.pending.len() > 0 {
        let q = flushed(p, encoding)->Ok_0;
        let part = q.parts.last();
        assert(q.parts =~= p.parts.push(part));
        lemma_pushed_has_shape(p, part, p.next_numeric_name, options);
    }
}

/// Whether a name token and a group token are as the parser finds them
/// among proper tokens.
pub open spec fn found_tokens_are_proper(name: Option<TokenView>, group: Option<TokenView>) -> bool {
    &&& name matches Some(t) ==> is_name(t.value)
    &&& group matches Some(t) ==> t.kind == TokenType::Asterisk || is_embeddable(t.value)
}

/// A name starts with no digit.
proof fn lemma_name_is_custom(name: Seq<char>)
    requires
        is_name(name),
    ensures
        is_custom_name(name),
{
    assert(valid_name_code_point(name[0], true));
}

#[verifier::rlimit(40)]
proof fn lemma_with_part_has_shape(
    p: Progress,
    prefix: Seq<char>,
    name: Option<TokenView>,
    group: Option<TokenView>,
    suffix: Seq<char>,
    modifier_token: Option<TokenView>,
    options: OptionsView,
    encoding: Encoder,
)
    requires
        progress_has_shape(p, options),
        found_tokens_are_proper(name, group),
    ensures
        with_part(p, prefix, name, group, suffix, modifier_token, options, encoding) matches Ok(q)
            ==> progress_has_shape(q, options),
{
    let r = with_part(p, prefix, name, group, suffix, modifier_token, options, encoding);
    if r is Ok {
        let q = r->Ok_0;
        lemma_flushed_has_shape(p, encoding, options);
        if flushed(p, encoding) is Ok {
            let f = flushed(p, encoding)->Ok_0;
            if q.parts != f.parts && q.parts != p.parts {
                let part = q.parts.last();
                let longer = f.parts.push(part);
                let n = f.parts.len() as int;
                assert(q.parts =~= longer);
                assert(longer[n] == part);
                crate::text::lemma_decimal_starts_with_digit(f.next_numeric_name);
                lemma_unnamed_before_push(f.parts, part, n);
                if name is Some {
                    lemma_name_is_custom(name->0.value);
                }
                if !is_group(part) {
                    assert(part.name =~= Seq::<char>::empty());
                }
                assert(part_has_shape(longer, n, options));
                lemma_pushed_has_shape(f, part, q.next_numeric_name, options);
            }
        }
    }
}

proof fn lemma_found_tokens(tokens: Seq<TokenView>, i: int, j: int, named: bool)
    requires
        tokens_are_proper(tokens),
    ensures
        found_tokens_are_proper(name_token_at(tokens, i), group_token_at(tokens, j, named)),
{
}

/// One step of the parser keeps the shape of the parts.
#[verifier::rlimit(40)]
proof fn lemma_parse_step_has_shape(
    tokens: Seq<TokenView>,
    i: int,
    p: Progress,
    options: OptionsView,
    encoding: Encoder,
)
    requires
        tokens_are_proper(tokens),
        progress_has_shape(p, options),
    ensures
        parse_step(tokens, i, p, options, encoding) matches Step::Next(j, q)
            ==> progress_has_shape(q, options),
{
    let after_char = if has_kind(tokens, i, TokenType::Char) {
        i + 1
    } else {
        i
    };
    let name = name_token_at(tokens, after_char);
    let after_name = after_char + width(name);
    let group = group_token_at(tokens, after_name, name is Some);
    let after_group = after_name + width(group);
    lemma_found_tokens(tokens, after_char, after_name, name is Some);
    lemma_flushed_has_shape(p, encoding, options);
    if name is Some || group is Some {
        let first = if after_char > i {
            tokens[i].value
        } else {
            Seq::empty()
        };
        let modifier = modifier_token_at(tokens, after_group);
        let kept = first.len() == 0 || first == options.prefix_code_point;
        let pending = if kept {
            p.pending
        } else {
            p.pending + first
        };
        let held = Progress { pending, ..p };
        lemma_flushed_has_shape(held, encoding, options);
        if flushed(held, encoding) is Ok {
            lemma_with_part_has_shape(
                flushed(held, encoding)->Ok_0,
                if kept {
                    first
                } else {
                    Seq::empty()
                },
                name,
                group,
                Seq::empty(),
                modifier,
                options,
                encoding,
            );
        }
    } else if after_char > i || has_kind(tokens, i, TokenType::EscapedChar) {
    } else if has_kind(tokens, i, TokenType::Open) {
        let prefix_len = text_run(tokens, i + 1);
        let after_prefix = i + 1 + prefix_len;
        let name = name_token_at(tokens, after_prefix);
        let after_name = after_prefix + width(name);
        let group = group_token_at(tokens, after_name, name is Some);
        let after_group = after_name + width(group);
        let suffix_len = text_run(tokens, after_group);
        let after_suffix = after_group + suffix_len;
        lemma_found_tokens(tokens, after_prefix, after_name, name is Some);
        lemma_with_part_has_shape(
            p,
            text_value(tokens, i + 1, prefix_len),
            name,
            group,
            text_value(tokens, after_group, suffix_len),
            modifier_token_at(tokens, after_suffix + 1),
            options,
            encoding,
        );
    }
}

/// The parser makes parts of the parser's shape only.
pub proof fn lemma_parse_has_shape(
    tokens: Seq<TokenView>,
    i: int,
    p: Progress,
    options: OptionsView,
    encoding: Encoder,
)
    requires
        tokens_are_proper(tokens),
        progress_has_shape(p, options),
    ensures
        parse_from(tokens, i, p, options, encoding) matches Ok(parts) ==> parts_have_shape(
            parts,
            options,
        ),
    decreases tokens.len() - i,
{
    if 0 <= i < tokens.len() {
        lemma_parse_step_has_shape(tokens, i, p, options, encoding);
        match parse_step(tokens, i, p, options, encoding) {
            Step::Fail(_) => {},
            Step::Next(j, q) => {
                if i < j <= tokens.len() {
                    lemma_parse_has_shape(tokens, j, q, options, encoding);
                }
            },
        }
    }
}

/// Every part list that is parsed from a pattern has the parser's shape.
pub proof fn lemma_parsed_parts_have_shape(
    input: Seq<char>,
    options: OptionsView,
    encoding: Encoder,
)
    requires
        crate::parser::parse_pattern_spec(input, options, encoding) is Ok,
    ensures
        parts_have_shape(
            crate::parser::parse_pattern_spec(input, options, encoding)->Ok_0,
            options,
        ),
{
    let tokens = crate::tokenizer::tokenize_spec(input, TokenizePolicy::Strict)->Ok_0;
    lemma_tokens_are_proper(input, 0, TokenizePolicy::Strict);
    let start = crate::parser::start_progress();
    assert(progress_has_shape(start, options));
    lemma_parse_has_shape(tokens, 0, start, options, encoding);
}

/// Whether `text` is a text that the encoding gives.
pub open spec fn is_encoded(text: Seq<char>, encoding: Encoder) -> bool {
    exists|source: Seq<char>| #[trigger] encoding(source) == Ok::<Seq<char>, ErrorView>(text)
}

/// Whether the literal text of a part is text that the encoding gave.
pub open spec fn part_is_encoded(part: PartView, encoding: Encoder) -> bool {
    if part.kind == PartType::FixedText {
        is_encoded(part.value, encoding)
    } else {
        is_encoded(part.prefix, encoding) && is_encoded(part.suffix, encoding)
    }
}

/// Whether the literal text of every part is text that the encoding gave.
pub open spec fn parts_are_encoded(parts: Seq<PartView>, encoding: Encoder) -> bool {
    forall|k: int| 0 <= k < parts.len() ==> part_is_encoded(#[trigger] parts[k], encoding)
}

proof fn lemma_flushed_is_encoded(p: Progress, encoding: Encoder)
    requires
        parts_are_encoded(p.parts, encoding),
    ensures
        flushed(p, encoding) matches Ok(q) ==> parts_are_encoded(q.parts, encoding),
{
    if flushed(p, encoding) is Ok && p.pending.len() > 0 {
        let q = flushed(p, encoding)->Ok_0;
        let part = q.parts.last();
        assert(encoding(p.pending) == Ok::<Seq<char>, ErrorView>(part.value));
        assert forall|k: int| 0 <= k < q.parts.len() implies part_is_encoded(
            #[trigger] q.parts[k],
            encoding,
        ) by {
            if k < p.parts.len() {
                assert(q.parts[k] == p.parts[k]);
            }
        }
    }
}

#[verifier::rlimit(40)]
proof fn lemma_with_part_is_encoded(
    p: Progress,
    prefix: Seq<char>,
    name: Option<TokenView>,
    group: Option<TokenView>,
    suffix: Seq<char>,
    modifier_token: Option<TokenView>,
    options: OptionsView,
    encoding: Encoder,
)
    requires
        parts_are_encoded(p.parts, encoding),
    ensures
        with_part(p, prefix, name, group, suffix, modifier_token, options, encoding) matches Ok(q)
            ==> parts_are_encoded(q.parts, encoding),
{
    let r = with_part(p, prefix, name, group, suffix, modifier_token, options, encoding);
    if r is Ok {
        let q = r->Ok_0;
        lemma_flushed_is_encoded(p, encoding);
        if flushed(p, encoding) is Ok {
            let f = flushed(p, encoding)->Ok_0;
            if q.parts != f.parts && q.parts != p.parts {
                let part = q.parts.last();
                assert(q.parts =~= f.parts.push(part));
                let text = encoding(prefix);
                assert(text is Ok);
                if name is None && group is None {
                    assert(part.value == text->Ok_0);
                } else {
                    assert(part.prefix == text->Ok_0);
                    assert(encoding(suffix) == Ok::<Seq<char>, ErrorView>(part.suffix));
                }
                assert(part_is_encoded(part, encoding));
                assert forall|k: int| 0 <= k < q.parts.len() implies part_is_encoded(
                    #[trigger] q.parts[k],
                    encoding,
                ) by {
                    if k < f.parts.len() {
                        assert(q.parts[k] == f.parts[k]);
                    }
                }
            }
        }
    }
}

/// One step of the parser puts no text into a part but what the encoding
/// gave.
#[verifier::rlimit(40)]
proof fn lemma_parse_step_is_encoded(
    tokens: Seq<TokenView>,
    i: int,
    p: Progress,
    options: OptionsView,
    encoding: Encoder,
)
    requires
        parts_are_encoded(p.parts, encoding),
    ensures
        parse_step(tokens, i, p, options, encoding) matches Step::Next(j, q) ==> parts_are_encoded(
            q.parts,
            encoding,
        ),
{
    let after_char = if has_kind(tokens, i, TokenType::Char) {
        i + 1
    } else {
        i
    };
    let name = name_token_at(tokens, after_char);
    let after_name = after_char + width(name);
    let group = group_token_at(tokens, after_name, name is Some);
    let after_group = after_name + width(group);
    lemma_flushed_is_encoded(p, encoding);
    if name is Some || group is Some {
        let first = if after_char > i {
            tokens[i].value
        } else {
            Seq::empty()
        };
        let modifier = modifier_token_at(tokens, after_group);
        let kept = first.len() == 0 || first == options.prefix_code_point;
        let pending = if kept {
            p.pending
        } else {
            p.pending + first
        };
        let held = Progress { pending, ..p };
        lemma_flushed_is_encoded(held, encoding);
        if flushed(held, encoding) is Ok {
            lemma_with_part_is_encoded(
                flushed(held, encoding)->Ok_0,
                if kept {
                    first
                } else {
                    Seq::empty()
                },
                name,
                group,
                Seq::empty(),
                modifier,
                options,
                encoding,
            );
        }
    } else if after_char > i || has_kind(tokens, i, TokenType::EscapedChar) {
    } else if has_kind(tokens, i, TokenType::Open) {
        let prefix_len = text_run(tokens, i + 1);
        let after_prefix = i + 1 + prefix_len;
        let name = name_token_at(tokens, after_prefix);
        let after_name = after_prefix + width(name);
        let group = group_token_at(tokens, after_name, name is Some);
        let after_group = after_name + width(group);
        let suffix_len = text_run(tokens, after_group);
        let after_suffix = after_group + suffix_len;
        lemma_with_part_is_encoded(
            p,
            text_value(tokens, i + 1, prefix_len),
            name,
            group,
            text_value(tokens, after_group, suffix_len),
            modifier_token_at(tokens, after_suffix + 1),
            options,
            encoding,
        );
    }
}

proof fn lemma_parse_is_encoded(
    tokens: Seq<TokenView>,
    i: int,
    p: Progress,
    options: OptionsView,
    encoding: Encoder,
)
    requires
        parts_are_encoded(p.parts, encoding),
    ensures
        parse_from(tokens, i, p, options, encoding) matches Ok(parts) ==> parts_are_encoded(
            parts,
            encoding,
        ),
    decreases tokens.len() - i,
{
    if 0 <= i < tokens.len() {
        lemma_parse_step_is_encoded(tokens, i, p, options, encoding);
        match parse_step(tokens, i, p, options, encoding) {
            Step::Fail(_) => {},
            Step::Next(j, q) => {
                if i < j <= tokens.len() {
                    lemma_parse_is_encoded(tokens, j, q, options, encoding);
                }
            },
        }
    }
}

/// The literal text of every part that is parsed from a pattern is text
/// that the encoding gave.
pub proof fn lemma_parsed_parts_are_encoded(
    input: Seq<char>,
    options: OptionsView,
    encoding: Encoder,
)
    requires
        crate::parser::parse_pattern_spec(input, options, encoding) is Ok,
    ensures
        parts_are_encoded(
            crate::parser::parse_pattern_spec(input, options, encoding)->Ok_0,
            encoding,
        ),
{
    let tokens = crate::tokenizer::tokenize_spec(input, TokenizePolicy::Strict)->Ok_0;
    lemma_parse_is_encoded(tokens, 0, crate::parser::start_progress(), options, encoding);
}

} // verus!
