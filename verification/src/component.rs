//! A compiled component: from the parts of its pattern come the canonical
//! pattern string, the source of a regular expression with the names of its
//! groups, and a matcher.

use crate::canonicalize_and_process::Encoder;
use crate::canonicalize_and_process::EncodingCallback;
use crate::canonicalize_and_process::encoder;
use crate::error::Error;
use crate::error::ErrorView;
use crate::match_result::ComponentResultView;
use crate::match_result::UrlPatternComponentResult;
use crate::match_result::names_are_distinct;
use crate::match_result::pair_views;
use crate::matcher::InnerMatcher;
use crate::matcher::InnerMatcherView;
use crate::matcher::Matcher;
use crate::matcher::MatcherView;
use crate::matcher::compiled_view;
use crate::parser::Options;
use crate::parser::OptionsView;
use crate::parser::Part;
use crate::parser::PartModifier;
use crate::parser::PartType;
use crate::parser::PartView;
use crate::parser::escape_regexp;
use crate::parser::escape_regexp_string;
use crate::parser::escaped_char;
use crate::parser::full_wildcard_regexp;
use crate::parser::parse_pattern_spec;
use crate::parser::parse_pattern_string;
use crate::parser::part_views;
use crate::parser::segment_wildcard_regexp;
use crate::regexp::captures_view;
use crate::regexp::compile_regex;
use crate::regexp::regex_captured;
use crate::regexp::regex_captures;
use crate::regexp::regex_compiled;
use crate::text::chars_of;
use crate::text::is_ascii_digit;
use crate::text::option_str_view;
use crate::text::str_eq;
use crate::text::text_or_empty;
use crate::tokenizer::is_valid_name_codepoint;
use crate::tokenizer::valid_name_code_point;
use vstd::prelude::*;
use vstd::slice::slice_subrange;
use vstd::string::StringExecFns;

verus! {

/// A modifier as it is written.
pub open spec fn modifier_text(m: PartModifier) -> Seq<char> {
    match m {
        PartModifier::NoModifier => Seq::empty(),
        PartModifier::Optional => seq!['?'],
        PartModifier::ZeroOrMore => seq!['*'],
        PartModifier::OneOrMore => seq!['+'],
    }
}

/// The source of the regular expression that a group captures with.
pub open spec fn capture_regexp(part: PartView, options: OptionsView) -> Seq<char> {
    match part.kind {
        PartType::SegmentWildcard => segment_wildcard_regexp(options),
        PartType::FullWildcard => full_wildcard_regexp(),
        _ => part.value,
    }
}

/// Whether the modifier lets its part stand at most once.
pub open spec fn at_most_once(m: PartModifier) -> bool {
    m == PartModifier::NoModifier || m == PartModifier::Optional
}

/// The piece of the regular expression that stands for one part. Each group
/// gives exactly one capturing pair of parentheses; all others are of the
/// non-capturing form.
pub open spec fn part_regexp(part: PartView, options: OptionsView) -> Seq<char> {
    let m = modifier_text(part.modifier);
    if part.kind == PartType::FixedText {
        if part.modifier == PartModifier::NoModifier {
            escape_regexp(part.value)
        } else {
            seq!['(', '?', ':'] + escape_regexp(part.value) + seq![')'] + m
        }
    } else {
        let rv = capture_regexp(part, options);
        let pre = escape_regexp(part.prefix);
        let suf = escape_regexp(part.suffix);
        if part.prefix.len() == 0 && part.suffix.len() == 0 {
            if at_most_once(part.modifier) {
                seq!['('] + rv + seq![')'] + m
            } else {
                seq!['(', '(', '?', ':'] + rv + seq![')'] + m + seq![')']
            }
        } else if at_most_once(part.modifier) {
            seq!['(', '?', ':'] + pre + seq!['('] + rv + seq![')'] + suf + seq![')'] + m
        } else {
            seq!['(', '?', ':'] + pre + seq!['(', '(', '?', ':'] + rv + seq![')', '(', '?', ':']
                + suf + pre + seq!['(', '?', ':'] + rv + seq![')', ')', '*', ')'] + suf + seq![')']
                + (if part.modifier == PartModifier::ZeroOrMore {
                seq!['?']
            } else {
                Seq::empty()
            })
        }
    }
}

/// The pieces of the first `n` parts, one behind the other.
pub open spec fn regexp_body(parts: Seq<PartView>, n: nat, options: OptionsView) -> Seq<char>
    decreases n,
{
    if n == 0 {
        Seq::empty()
    } else {
        regexp_body(parts, (n - 1) as nat, options) + part_regexp(parts[n - 1], options)
    }
}

/// The source of the regular expression of a part list: the pieces of its
/// parts between `^` and `$`.
pub open spec fn regexp_source(parts: Seq<PartView>, options: OptionsView) -> Seq<char> {
    seq!['^'] + regexp_body(parts, parts.len(), options) + seq!['$']
}

/// The names of the groups among the first `n` parts, in order.
pub open spec fn group_names(parts: Seq<PartView>, n: nat) -> Seq<Seq<char>>
    decreases n,
{
    if n == 0 {
        Seq::empty()
    } else if parts[n - 1].kind == PartType::FixedText {
        group_names(parts, (n - 1) as nat)
    } else {
        group_names(parts, (n - 1) as nat).push(parts[n - 1].name)
    }
}

/// How many of the first `n` parts are groups.
pub open spec fn group_count(parts: Seq<PartView>, n: nat) -> nat
    decreases n,
{
    if n == 0 {
        0
    } else if parts[n - 1].kind == PartType::FixedText {
        group_count(parts, (n - 1) as nat)
    } else {
        group_count(parts, (n - 1) as nat) + 1
    }
}

/// The views of a list of strings.
pub open spec fn string_views(strings: Seq<String>) -> Seq<Seq<char>> {
    strings.map_values(|s: String| s@)
}

/// There are as many names as groups.
pub proof fn lemma_group_names_len(parts: Seq<PartView>, n: nat)
    ensures
        group_names(parts, n).len() == group_count(parts, n),
    decreases n,
{
    if n > 0 {
        lemma_group_names_len(parts, (n - 1) as nat);
    }
}

fn push_modifier(s: &mut String, m: PartModifier)
    ensures
        final(s)@ == old(s)@ + modifier_text(m),
{
    match m {
        PartModifier::NoModifier => {},
        PartModifier::Optional => {
            s.push('?');
        },
        PartModifier::ZeroOrMore => {
            s.push('*');
        },
        PartModifier::OneOrMore => {
            s.push('+');
        },
    }
    assert(final(s)@ =~= old(s)@ + modifier_text(m));
}

/// Writes `(?:` at the end of `s`.
fn push_open_group(s: &mut String)
    ensures
        final(s)@ == old(s)@ + seq!['(', '?', ':'],
{
    s.push('(');
    s.push('?');
    s.push(':');
    assert(final(s)@ =~= old(s)@ + seq!['(', '?', ':']);
}

fn push_char(s: &mut String, c: char)
    ensures
        final(s)@ == old(s)@ + seq![c],
{
    s.push(c);
    assert(final(s)@ =~= old(s)@ + seq![c]);
}

fn capture_regexp_string(part: &Part, options: &Options) -> (r: String)
    ensures
        r@ == capture_regexp(part@, options@),
{
    match part.kind {
        PartType::SegmentWildcard => options.generate_segment_wildcard_regexp(),
        PartType::FullWildcard => {
            let mut r = String::new();
            r.push('.');
            r.push('*');
            assert(r@ =~= full_wildcard_regexp());
            r
        },
        _ => part.value.clone(),
    }
}

/// The piece of the regular expression that stands for `part`.
#[verifier::rlimit(40)]
fn part_regexp_string(part: &Part, options: &Options) -> (r: String)
    ensures
        r@ == part_regexp(part@, options@),
{
    let mut r = String::new();
    if part.kind == PartType::FixedText {
        let escaped = escape_regexp_string(part.value.as_str());
        if part.modifier == PartModifier::NoModifier {
            return escaped;
        }
        push_open_group(&mut r);
        r.append(escaped.as_str());
        push_char(&mut r, ')');
        push_modifier(&mut r, part.modifier);
        assert(r@ =~= part_regexp(part@, options@));
        return r;
    }
    let rv = capture_regexp_string(part, options);
    let once = part.modifier == PartModifier::NoModifier || part.modifier
        == PartModifier::Optional;
    if part.prefix.as_str().is_empty() && part.suffix.as_str().is_empty() {
        if once {
            push_char(&mut r, '(');
            r.append(rv.as_str());
            push_char(&mut r, ')');
            push_modifier(&mut r, part.modifier);
        } else {
            push_char(&mut r, '(');
            push_open_group(&mut r);
            r.append(rv.as_str());
            push_char(&mut r, ')');
            push_modifier(&mut r, part.modifier);
            push_char(&mut r, ')');
        }
        assert(r@ =~= part_regexp(part@, options@));
        return r;
    }
    let pre = escape_regexp_string(part.prefix.as_str());
    let suf = escape_regexp_string(part.suffix.as_str());
    if once {
        push_open_group(&mut r);
        r.append(pre.as_str());
        push_char(&mut r, '(');
        r.append(rv.as_str());
        push_char(&mut r, ')');
        r.append(suf.as_str());
        push_char(&mut r, ')');
        push_modifier(&mut r, part.modifier);
        assert(r@ =~= part_regexp(part@, options@));
        return r;
    }
    push_open_group(&mut r);
    r.append(pre.as_str());
    push_char(&mut r, '(');
    push_open_group(&mut r);
    r.append(rv.as_str());
    push_char(&mut r, ')');
    push_open_group(&mut r);
    r.append(suf.as_str());
    r.append(pre.as_str());
    push_open_group(&mut r);
    r.append(rv.as_str());
    push_char(&mut r, ')');
    push_char(&mut r, ')');
    push_char(&mut r, '*');
    push_char(&mut r, ')');
    r.append(suf.as_str());
    push_char(&mut r, ')');
    if part.modifier == PartModifier::ZeroOrMore {
        push_char(&mut r, '?');
    }
    assert(r@ =~= part_regexp(part@, options@));
    r
}

/// The source of the regular expression of `part_list`, anchored at both
/// ends, and the names of its groups in the order of their capturing
/// parentheses.
pub fn generate_regular_expression_and_name_list(part_list: &[Part], options: &Options) -> (r: (
    String,
    Vec<String>,
))
    ensures
        r.0@ == regexp_source(part_views(part_list@), options@),
        string_views(r.1@) == group_names(part_views(part_list@), part_list@.len()),
        r.0@.len() >= 2 && r.0@.first() == '^' && r.0@.last() == '$',
        r.1@.len() == group_count(part_views(part_list@), part_list@.len()),
{
    let ghost pv = part_views(part_list@);
    let mut result = String::new();
    result.push('^');
    let mut name_list: Vec<String> = Vec::new();
    let mut i: usize = 0;
    assert(result@ =~= seq!['^'] + regexp_body(pv, 0, options@));
    assert(string_views(name_list@) =~= group_names(pv, 0));
    while i < part_list.len()
        invariant
            pv == part_views(part_list@),
            i <= part_list.len(),
            result@ == seq!['^'] + regexp_body(pv, i as nat, options@),
            string_views(name_list@) == group_names(pv, i as nat),
        decreases part_list.len() - i,
    {
        let part = &part_list[i];
        assert(pv[i as int] == part@);
        let piece = part_regexp_string(part, options);
        result.append(piece.as_str());
        if part.kind != PartType::FixedText {
            let name = part.name.clone();
            assert(string_views(name_list@.push(name)) =~= string_views(name_list@).push(name@));
            name_list.push(name);
        }
        i += 1;
        assert(result@ =~= seq!['^'] + regexp_body(pv, i as nat, options@));
    }
    result.push('$');
    proof {
        assert(result@ =~= regexp_source(pv, options@));
        lemma_group_names_len(pv, part_list@.len());
        assert(string_views(name_list@).len() == name_list@.len());
    }
    (result, name_list)
}

/// Whether `c` has a meaning of its own in a pattern string.
pub open spec fn is_pattern_special(c: char) -> bool {
    c == '+' || c == '*' || c == '?' || c == ':' || c == '{' || c == '}' || c == '(' || c == ')'
        || c == '\\'
}

/// `input` with a backslash before each code point that has a meaning of
/// its own in a pattern string.
pub open spec fn escape_pattern(input: Seq<char>) -> Seq<char>
    decreases input.len(),
{
    if input.len() == 0 {
        Seq::empty()
    } else {
        escape_pattern(input.drop_last()) + escaped_char(
            input.last(),
            is_pattern_special(input.last()),
        )
    }
}

/// Puts a backslash before each code point of `input` that has a meaning
/// of its own in a pattern string.
pub fn escape_pattern_string(input: &str) -> (r: String)
    ensures
        r@ == escape_pattern(input@),
{
    let chars = chars_of(input);
    let mut result = String::new();
    let mut i: usize = 0;
    while i < chars.len()
        invariant
            chars@ == input@,
            i <= chars.len(),
            result@ == escape_pattern(input@.take(i as int)),
        decreases chars.len() - i,
    {
        let c = chars[i];
        assert(input@.take(i + 1).drop_last() =~= input@.take(i as int));
        if c == '+' || c == '*' || c == '?' || c == ':' || c == '{' || c == '}' || c == '(' || c
            == ')' || c == '\\' {
            result.push('\\');
        }
        result.push(c);
        assert(result@ =~= escape_pattern(input@.take(i + 1)));
        i += 1;
    }
    assert(input@.take(i as int) =~= input@);
    result
}

/// Whether a group's name was written in the pattern: the names that the
/// parser gives out start with a digit.
pub open spec fn is_custom_name(name: Seq<char>) -> bool {
    name.len() > 0 && !is_ascii_digit(name[0])
}

/// Whether `next`, written right behind a name, would be read as more of
/// the name.
pub open spec fn continues_name(next: PartView) -> bool {
    if next.kind == PartType::FixedText {
        next.value.len() > 0 && valid_name_code_point(next.value[0], false)
    } else {
        next.name.len() > 0 && is_ascii_digit(next.name[0])
    }
}

/// Whether the text of the fixed part `prev` ends in the prefix code point.
pub open spec fn ends_in_prefix_code_point(prev: PartView, options: OptionsView) -> bool {
    prev.kind == PartType::FixedText && prev.value.len() > 0 && seq![prev.value.last()]
        == options.prefix_code_point
}

/// Whether the group at `i` has to be written in braces.
pub open spec fn needs_grouping(parts: Seq<PartView>, i: int, options: OptionsView) -> bool {
    let part = parts[i];
    ||| part.suffix.len() > 0
    ||| (part.prefix.len() > 0 && part.prefix != options.prefix_code_point)
    ||| (part.kind == PartType::SegmentWildcard && is_custom_name(part.name) && part.modifier
        == PartModifier::NoModifier && part.prefix.len() == 0 && part.suffix.len() == 0 && i + 1
        < parts.len() && continues_name(parts[i + 1]))
    ||| (part.prefix.len() == 0 && i > 0 && ends_in_prefix_code_point(parts[i - 1], options))
}

/// Whether the full wildcard at `i` can be written as an asterisk and be
/// read back as what it is.
pub open spec fn written_as_asterisk(parts: Seq<PartView>, i: int, options: OptionsView) -> bool {
    let part = parts[i];
    !is_custom_name(part.name) && (i == 0 || parts[i - 1].kind == PartType::FixedText || parts[i
        - 1].modifier != PartModifier::NoModifier || needs_grouping(parts, i, options)
        || part.prefix.len() > 0)
}

/// What is written for the capture of the group at `i`, behind its prefix
/// and name.
pub open spec fn group_body(parts: Seq<PartView>, i: int, options: OptionsView) -> Seq<char> {
    let part = parts[i];
    match part.kind {
        PartType::Regexp => seq!['('] + part.value + seq![')'],
        PartType::SegmentWildcard => if is_custom_name(part.name) {
            Seq::empty()
        } else {
            seq!['('] + segment_wildcard_regexp(options) + seq![')']
        },
        PartType::FullWildcard => if written_as_asterisk(parts, i, options) {
            seq!['*']
        } else {
            seq!['('] + full_wildcard_regexp() + seq![')']
        },
        PartType::FixedText => Seq::empty(),
    }
}

/// Whether a backslash has to part the name of the group `part` from its
/// suffix.
pub open spec fn suffix_needs_escape(part: PartView) -> bool {
    part.kind == PartType::SegmentWildcard && is_custom_name(part.name) && part.suffix.len() > 0
        && valid_name_code_point(part.suffix[0], false)
}

/// `text` if `cond` holds, else nothing.
pub open spec fn text_if(cond: bool, text: Seq<char>) -> Seq<char> {
    if cond {
        text
    } else {
        Seq::empty()
    }
}

/// What is written for the part at `i` in the canonical pattern string.
pub open spec fn part_pattern(parts: Seq<PartView>, i: int, options: OptionsView) -> Seq<char> {
    let part = parts[i];
    if part.kind == PartType::FixedText {
        if part.modifier == PartModifier::NoModifier {
            escape_pattern(part.value)
        } else {
            seq!['{'] + escape_pattern(part.value) + seq!['}'] + modifier_text(part.modifier)
        }
    } else {
        let grouping = needs_grouping(parts, i, options);
        text_if(grouping, seq!['{']) + escape_pattern(part.prefix) + text_if(
            is_custom_name(part.name),
            seq![':'] + part.name,
        ) + group_body(parts, i, options) + text_if(suffix_needs_escape(part), seq!['\\'])
            + escape_pattern(part.suffix) + text_if(grouping, seq!['}']) + modifier_text(
            part.modifier,
        )
    }
}

/// What is written for the first `n` parts.
pub open spec fn pattern_body(parts: Seq<PartView>, n: nat, options: OptionsView) -> Seq<char>
    decreases n,
{
    if n == 0 {
        Seq::empty()
    } else {
        pattern_body(parts, (n - 1) as nat, options) + part_pattern(parts, n - 1, options)
    }
}

/// The canonical pattern string of a part list.
pub open spec fn pattern_string(parts: Seq<PartView>, options: OptionsView) -> Seq<char> {
    pattern_body(parts, parts.len(), options)
}

/// The first code point of `s`, if it has one.
fn first_char(s: &str) -> (r: Option<char>)
    ensures
        s@.len() == 0 ==> r is None,
        s@.len() > 0 ==> r == Some(s@[0]),
{
    if s.is_empty() {
        None
    } else {
        Some(s.get_char(0))
    }
}

/// The last code point of `s`, if it has one.
fn last_char(s: &str) -> (r: Option<char>)
    ensures
        s@.len() == 0 ==> r is None,
        s@.len() > 0 ==> r == Some(s@.last()),
{
    let n = s.unicode_len();
    if n == 0 {
        None
    } else {
        Some(s.get_char(n - 1))
    }
}

fn custom_name(name: &str) -> (r: bool)
    ensures
        r == is_custom_name(name@),
{
    match first_char(name) {
        Some(c) => !(c >= '0' && c <= '9'),
        None => false,
    }
}

fn part_continues_name(next: &Part) -> (r: bool)
    ensures
        r == continues_name(next@),
{
    if next.kind == PartType::FixedText {
        match first_char(next.value.as_str()) {
            Some(c) => is_valid_name_codepoint(c, false),
            None => false,
        }
    } else {
        match first_char(next.name.as_str()) {
            Some(c) => c >= '0' && c <= '9',
            None => false,
        }
    }
}

fn part_ends_in_prefix_code_point(prev: &Part, options: &Options) -> (r: bool)
    ensures
        r == ends_in_prefix_code_point(prev@, options@),
{
    if prev.kind != PartType::FixedText {
        return false;
    }
    match last_char(prev.value.as_str()) {
        Some(c) => crate::text::str_is_char(options.prefix_code_point.as_str(), c),
        None => false,
    }
}

#[verifier::rlimit(40)]
fn part_needs_grouping(part_list: &[Part], i: usize, options: &Options) -> (r: bool)
    requires
        i < part_list.len(),
    ensures
        r == needs_grouping(part_views(part_list@), i as int, options@),
{
    let ghost pv = part_views(part_list@);
    let part = &part_list[i];
    assert(pv[i as int] == part@);
    if !part.suffix.as_str().is_empty() {
        return true;
    }
    if !part.prefix.as_str().is_empty() && !str_eq(
        part.prefix.as_str(),
        options.prefix_code_point.as_str(),
    ) {
        return true;
    }
    if part.kind == PartType::SegmentWildcard && custom_name(part.name.as_str()) && part.modifier
        == PartModifier::NoModifier && part.prefix.as_str().is_empty() && i + 1
        < part_list.len() {
        assert(pv[i + 1] == part_list@[i + 1]@);
        if part_continues_name(&part_list[i + 1]) {
            return true;
        }
    }
    if part.prefix.as_str().is_empty() && i > 0 {
        assert(pv[i - 1] == part_list@[i - 1]@);
        if part_ends_in_prefix_code_point(&part_list[i - 1], options) {
            return true;
        }
    }
    false
}

#[verifier::rlimit(40)]
fn group_body_string(part_list: &[Part], i: usize, grouping: bool, options: &Options) -> (r: String)
    requires
        i < part_list.len(),
        grouping == needs_grouping(part_views(part_list@), i as int, options@),
    ensures
        r@ == group_body(part_views(part_list@), i as int, options@),
{
    let ghost pv = part_views(part_list@);
    let part = &part_list[i];
    assert(pv[i as int] == part@);
    let custom = custom_name(part.name.as_str());
    let mut r = String::new();
    match part.kind {
        PartType::FixedText => {},
        PartType::Regexp => {
            push_char(&mut r, '(');
            r.append(part.value.as_str());
            push_char(&mut r, ')');
            assert(r@ =~= seq!['('] + part@.value + seq![')']);
        },
        PartType::SegmentWildcard => {
            if !custom {
                let regexp = options.generate_segment_wildcard_regexp();
                push_char(&mut r, '(');
                r.append(regexp.as_str());
                push_char(&mut r, ')');
                assert(r@ =~= seq!['('] + segment_wildcard_regexp(options@) + seq![')']);
            }
        },
        PartType::FullWildcard => {
            let mut asterisk = false;
            if !custom {
                if i == 0 || grouping || !part.prefix.as_str().is_empty() {
                    asterisk = true;
                } else {
                    assert(pv[i - 1] == part_list@[i - 1]@);
                    let prev = &part_list[i - 1];
                    asterisk = prev.kind == PartType::FixedText || prev.modifier
                        != PartModifier::NoModifier;
                }
            }
            assert(asterisk == written_as_asterisk(pv, i as int, options@));
            if asterisk {
                r.push('*');
                assert(r@ =~= seq!['*']);
            } else {
                r.push('(');
                r.push('.');
                r.push('*');
                r.push(')');
                assert(r@ =~= seq!['('] + full_wildcard_regexp() + seq![')']);
            }
        },
    }
    r
}

/// What is written for the part at `i` in the canonical pattern string.
#[verifier::rlimit(40)]
fn part_pattern_string(part_list: &[Part], i: usize, options: &Options) -> (r: String)
    requires
        i < part_list.len(),
    ensures
        r@ == part_pattern(part_views(part_list@), i as int, options@),
{
    let ghost pv = part_views(part_list@);
    let part = &part_list[i];
    assert(pv[i as int] == part@);
    let mut r = String::new();
    if part.kind == PartType::FixedText {
        let escaped = escape_pattern_string(part.value.as_str());
        if part.modifier == PartModifier::NoModifier {
            return escaped;
        }
        push_char(&mut r, '{');
        r.append(escaped.as_str());
        push_char(&mut r, '}');
        push_modifier(&mut r, part.modifier);
        assert(r@ =~= part_pattern(pv, i as int, options@));
        return r;
    }
    let grouping = part_needs_grouping(part_list, i, options);
    let custom = custom_name(part.name.as_str());
    let ghost written0 = text_if(grouping, seq!['{']);
    if grouping {
        push_char(&mut r, '{');
    }
    assert(r@ =~= written0);
    let prefix = escape_pattern_string(part.prefix.as_str());
    r.append(prefix.as_str());
    let ghost written1 = written0 + escape_pattern(part@.prefix);
    assert(r@ =~= written1);
    if custom {
        r.push(':');
        r.append(part.name.as_str());
    }
    let ghost written2 = written1 + text_if(custom, seq![':'] + part@.name);
    assert(r@ =~= written2);
    let body = group_body_string(part_list, i, grouping, options);
    r.append(body.as_str());
    let ghost written3 = written2 + group_body(pv, i as int, options@);
    assert(r@ =~= written3);
    let escape = part.kind == PartType::SegmentWildcard && custom && match first_char(
        part.suffix.as_str(),
    ) {
        Some(c) => is_valid_name_codepoint(c, false),
        None => false,
    };
    assert(escape == suffix_needs_escape(part@));
    if escape {
        push_char(&mut r, '\\');
    }
    let ghost written4 = written3 + text_if(escape, seq!['\\']);
    assert(r@ =~= written4);
    let suffix = escape_pattern_string(part.suffix.as_str());
    r.append(suffix.as_str());
    let ghost written5 = written4 + escape_pattern(part@.suffix);
    assert(r@ =~= written5);
    if grouping {
        push_char(&mut r, '}');
    }
    let ghost written6 = written5 + text_if(grouping, seq!['}']);
    assert(r@ =~= written6);
    push_modifier(&mut r, part.modifier);
    assert(r@ == written6 + modifier_text(part@.modifier));
    r
}

/// The canonical pattern string of `part_list`: the shortest writing, by
/// the rules of `part_pattern`, that is read back as the same parts.
pub fn generate_pattern_string(part_list: &[Part], options: &Options) -> (r: String)
    ensures
        r@ == pattern_string(part_views(part_list@), options@),
{
    let ghost pv = part_views(part_list@);
    let mut result = String::new();
    let mut i: usize = 0;
    while i < part_list.len()
        invariant
            pv == part_views(part_list@),
            i <= part_list.len(),
            result@ == pattern_body(pv, i as nat, options@),
        decreases part_list.len() - i,
    {
        let piece = part_pattern_string(part_list, i, options);
        result.append(piece.as_str());
        i += 1;
    }
    result
}

/// Whether a part is literal text that stands exactly once.
pub open spec fn is_literal_part(part: PartView) -> bool {
    part.kind == PartType::FixedText && part.modifier == PartModifier::NoModifier
}

/// How many parts at the start of `parts` are taken off as a literal
/// prefix: one or none.
pub open spec fn literal_head(parts: Seq<PartView>) -> int {
    if parts.len() > 0 && is_literal_part(parts[0]) {
        1
    } else {
        0
    }
}

/// How many parts at the end of `parts` are taken off as a literal suffix,
/// once the prefix is taken off: one or none.
pub open spec fn literal_tail(parts: Seq<PartView>) -> int {
    if parts.len() > literal_head(parts) && is_literal_part(parts.last()) {
        1
    } else {
        0
    }
}

/// The source as it is handed to the engine: a flag goes before it where
/// case is to be ignored.
pub open spec fn flagged_source(source: Seq<char>, ignore_case: bool) -> Seq<char> {
    if ignore_case {
        seq!['(', '?', 'i', ')'] + source
    } else {
        source
    }
}

/// What the engine reads for a segment wildcard where no delimiter is set:
/// any code point, once or more, as few as will do.
pub open spec fn engine_wildcard() -> Seq<char> {
    seq!['[', '\\', 's', '\\', 'S', ']', '+', '?']
}

/// The part as the engine is to read it. A segment wildcard without a
/// delimiter is written with an empty negated class, which stands for every
/// code point; the engine does not read that writing, so it is handed the
/// same class in its own writing, as a group with that expression.
pub open spec fn engine_part(part: PartView, options: OptionsView) -> PartView {
    if part.kind == PartType::SegmentWildcard && options.delimiter_code_point.len() == 0 {
        PartView { kind: PartType::Regexp, value: engine_wildcard(), ..part }
    } else {
        part
    }
}

/// The parts as the engine is to read them.
pub open spec fn engine_parts(parts: Seq<PartView>, options: OptionsView) -> Seq<PartView> {
    Seq::new(parts.len(), |i: int| engine_part(parts[i], options))
}

/// The source that is handed to the engine for `parts`: their regular
/// expression with every segment wildcard in the engine's writing, behind the
/// flag where case is to be ignored.
pub open spec fn engine_source(parts: Seq<PartView>, options: OptionsView) -> Seq<char> {
    flagged_source(regexp_source(engine_parts(parts, options), options), options.ignore_case)
}

/// The matcher of a part list where case is ignored: the regular expression
/// of the whole list. Nothing is taken off the ends, since a prefix and a
/// suffix are compared as they stand.
pub open spec fn folding_matcher(parts: Seq<PartView>, options: OptionsView) -> MatcherView {
    MatcherView {
        prefix: Seq::empty(),
        suffix: Seq::empty(),
        inner: InnerMatcherView::RegExp { regexp: regex_compiled(engine_source(parts, options)) },
    }
}

/// The matcher of a part list. Where case is ignored it is the regular
/// expression of the whole list. Else literal text at the two ends of the
/// list is taken off as the prefix and the suffix of the matcher. If nothing
/// is left, the matcher is a literal; if one wildcard without modifier is
/// left, it is a single capture with the wildcard's own prefix and suffix
/// added to those of the matcher; else it is the regular expression of what
/// is left.
pub open spec fn matcher_of(parts: Seq<PartView>, options: OptionsView) -> MatcherView {
    if options.ignore_case {
        folding_matcher(parts, options)
    } else {
        exact_matcher(parts, options)
    }
}

/// The matcher of a part list where case is not ignored.
pub open spec fn exact_matcher(parts: Seq<PartView>, options: OptionsView) -> MatcherView {
    let from = literal_head(parts);
    let to = parts.len() - literal_tail(parts);
    let prefix = text_if(from == 1, parts[0].value);
    let suffix = text_if(to < parts.len(), parts.last().value);
    let rest = parts.subrange(from, to);
    if rest.len() == 0 {
        MatcherView {
            prefix: Seq::empty(),
            suffix: Seq::empty(),
            inner: InnerMatcherView::Literal { literal: prefix + suffix },
        }
    } else if rest.len() == 1 && rest[0].kind == PartType::FullWildcard && rest[0].modifier
        == PartModifier::NoModifier {
        MatcherView {
            prefix: prefix + rest[0].prefix,
            suffix: rest[0].suffix + suffix,
            inner: InnerMatcherView::SingleCapture { filter: None, allow_empty: true },
        }
    } else if rest.len() == 1 && rest[0].kind == PartType::SegmentWildcard && rest[0].modifier
        == PartModifier::NoModifier {
        MatcherView {
            prefix: prefix + rest[0].prefix,
            suffix: rest[0].suffix + suffix,
            inner: InnerMatcherView::SingleCapture {
                filter: if options.delimiter_code_point.len() == 0 {
                    None
                } else {
                    Some(options.delimiter_code_point)
                },
                allow_empty: false,
            },
        }
    } else {
        MatcherView {
            prefix,
            suffix,
            inner: InnerMatcherView::RegExp {
                regexp: regex_compiled(engine_source(rest, options)),
            },
        }
    }
}

/// Compiles `source`, ignoring case if told so.
pub fn compile_regexp(source: &str, ignore_case: bool) -> (r: Result<regex::Regex, Error>)
    ensures
        compiled_view(r) == regex_compiled(flagged_source(source@, ignore_case)),
        r matches Err(e) ==> e == Error::RegExp,
{
    let compiled = if ignore_case {
        let mut flagged = String::new();
        flagged.push('(');
        flagged.push('?');
        flagged.push('i');
        flagged.push(')');
        flagged.append(source);
        assert(flagged@ =~= flagged_source(source@, true));
        compile_regex(flagged.as_str())
    } else {
        compile_regex(source)
    };
    match compiled {
        Some(r) => Ok(r),
        None => Err(Error::RegExp),
    }
}

fn engine_part_of(part: &Part, options: &Options) -> (r: Part)
    ensures
        r@ == engine_part(part@, options@),
{
    if part.kind == PartType::SegmentWildcard && options.delimiter_code_point.as_str().is_empty() {
        let mut value = String::new();
        value.push('[');
        value.push('\\');
        value.push('s');
        value.push('\\');
        value.push('S');
        value.push(']');
        value.push('+');
        value.push('?');
        assert(value@ =~= engine_wildcard());
        Part {
            kind: PartType::Regexp,
            value,
            modifier: part.modifier,
            name: part.name.clone(),
            prefix: part.prefix.clone(),
            suffix: part.suffix.clone(),
        }
    } else {
        Part {
            kind: part.kind,
            value: part.value.clone(),
            modifier: part.modifier,
            name: part.name.clone(),
            prefix: part.prefix.clone(),
            suffix: part.suffix.clone(),
        }
    }
}

/// Compiles the regular expression of `part_list` as the engine is to read
/// it.
pub fn compile_parts(part_list: &[Part], options: &Options) -> (r: Result<regex::Regex, Error>)
    ensures
        compiled_view(r) == regex_compiled(engine_source(part_views(part_list@), options@)),
        r matches Err(e) ==> e == Error::RegExp,
{
    let ghost pv = part_views(part_list@);
    let mut read: Vec<Part> = Vec::new();
    let mut i: usize = 0;
    while i < part_list.len()
        invariant
            pv == part_views(part_list@),
            i <= part_list.len(),
            read@.len() == i,
            forall|k: int| 0 <= k < i ==> (#[trigger] read@[k])@ == engine_part(pv[k], options@),
        decreases part_list.len() - i,
    {
        assert(pv[i as int] == part_list@[i as int]@);
        read.push(engine_part_of(&part_list[i], options));
        i += 1;
    }
    assert(part_views(read@) =~= engine_parts(pv, options@));
    let generated = generate_regular_expression_and_name_list(read.as_slice(), options);
    compile_regexp(generated.0.as_str(), options.ignore_case)
}

fn literal_part(part: &Part) -> (r: bool)
    ensures
        r == is_literal_part(part@),
{
    part.kind == PartType::FixedText && part.modifier == PartModifier::NoModifier
}

/// Whether a matcher whose regular expression did not compile holds the
/// error of the engine.
pub open spec fn keeps_engine_error(m: Matcher) -> bool {
    m.inner matches InnerMatcher::RegExp { regexp } ==> (regexp matches Err(e) ==> e
        == Error::RegExp)
}

/// The matcher of `part_list`.
#[verifier::rlimit(40)]
pub fn generate_matcher(part_list: &[Part], options: &Options) -> (r: Matcher)
    ensures
        r@ == matcher_of(part_views(part_list@), options@),
        keeps_engine_error(r),
{
    let ghost pv = part_views(part_list@);
    if options.ignore_case {
        let regexp = compile_parts(part_list, options);
        return Matcher {
            prefix: String::new(),
            suffix: String::new(),
            inner: InnerMatcher::RegExp { regexp },
        };
    }
    let n = part_list.len();
    let mut from: usize = 0;
    let mut to: usize = n;
    let mut prefix = String::new();
    let mut suffix = String::new();
    if n > 0 {
        assert(pv[0] == part_list@[0]@);
        assert(pv.last() == part_list@[n - 1]@);
        if literal_part(&part_list[0]) {
            prefix = part_list[0].value.clone();
            from = 1;
        }
        if n > from && literal_part(&part_list[n - 1]) {
            suffix = part_list[n - 1].value.clone();
            to = n - 1;
        }
    }
    assert(from == literal_head(pv));
    assert(to == pv.len() - literal_tail(pv));
    let rest = slice_subrange(part_list, from, to);
    assert(part_views(rest@) =~= pv.subrange(from as int, to as int));
    if from == to {
        let mut literal = prefix;
        literal.append(suffix.as_str());
        return Matcher::literal(literal);
    }
    if to - from == 1 {
        let part = &part_list[from];
        assert(pv.subrange(from as int, to as int)[0] == part@);
        if part.modifier == PartModifier::NoModifier && (part.kind == PartType::FullWildcard
            || part.kind == PartType::SegmentWildcard) {
            prefix.append(part.prefix.as_str());
            let mut whole_suffix = part.suffix.clone();
            whole_suffix.append(suffix.as_str());
            let inner = if part.kind == PartType::FullWildcard {
                InnerMatcher::SingleCapture { filter: None, allow_empty: true }
            } else {
                let filter = if options.delimiter_code_point.as_str().is_empty() {
                    None
                } else {
                    Some(options.delimiter_code_point.clone())
                };
                InnerMatcher::SingleCapture { filter, allow_empty: false }
            };
            return Matcher { prefix, suffix: whole_suffix, inner };
        }
    }
    let regexp = compile_parts(rest, options);
    Matcher { prefix, suffix, inner: InnerMatcher::RegExp { regexp } }
}

/// One component of a pattern, compiled.
#[derive(Debug)]
pub struct Component {
    /// The pattern in its canonical writing.
    pub pattern_string: String,
    /// The source of the regular expression of the whole pattern.
    pub regexp_string: String,
    /// That regular expression, compiled from the source as the engine
    /// reads it, or the error of the engine.
    pub regexp: Result<regex::Regex, Error>,
    /// The names of the groups, in the order of their captures.
    pub group_name_list: Vec<String>,
    pub matcher: Matcher,
}

/// A component with its strings as sequences.
pub struct ComponentView {
    pub pattern_string: Seq<char>,
    pub regexp_string: Seq<char>,
    pub regexp: Option<regex::Regex>,
    pub group_name_list: Seq<Seq<char>>,
    pub matcher: MatcherView,
}

impl View for Component {
    type V = ComponentView;

    open spec fn view(&self) -> ComponentView {
        ComponentView {
            pattern_string: self.pattern_string@,
            regexp_string: self.regexp_string@,
            regexp: compiled_view(self.regexp),
            group_name_list: string_views(self.group_name_list@),
            matcher: self.matcher@,
        }
    }
}

/// The component that a part list compiles to.
pub open spec fn component_of(parts: Seq<PartView>, options: OptionsView) -> ComponentView {
    ComponentView {
        pattern_string: pattern_string(parts, options),
        regexp_string: regexp_source(parts, options),
        regexp: regex_compiled(engine_source(parts, options)),
        group_name_list: group_names(parts, parts.len()),
        matcher: matcher_of(parts, options),
    }
}

/// The pattern of a component that was given none: it matches everything.
pub open spec fn pattern_or_wildcard(input: Option<Seq<char>>) -> Seq<char> {
    match input {
        Some(s) => s,
        None => seq!['*'],
    }
}

/// The component that a pattern compiles to.
pub open spec fn compile_spec(input: Option<Seq<char>>, encoding: Encoder, options: OptionsView)
    -> Result<ComponentView, ErrorView> {
    match parse_pattern_spec(pattern_or_wildcard(input), options, encoding) {
        Err(e) => Err(e),
        Ok(parts) => Ok(component_of(parts, options)),
    }
}

/// A component or an error, with strings as sequences.
pub open spec fn component_result_view(r: Result<Component, Error>) -> Result<
    ComponentView,
    ErrorView,
> {
    match r {
        Ok(c) => Ok(c@),
        Err(e) => Err(e@),
    }
}

/// Whether the expression matches one of the six special schemes.
pub open spec fn matches_special_scheme(regexp: Option<regex::Regex>) -> bool {
    match regexp {
        None => false,
        Some(r) => regex_captured(r, "ftp"@) is Some || regex_captured(r, "file"@) is Some
            || regex_captured(r, "http"@) is Some || regex_captured(r, "https"@) is Some
            || regex_captured(r, "ws"@) is Some || regex_captured(r, "wss"@) is Some,
    }
}

/// The names of a pattern's groups, each with what its group captured; a
/// group that took no part in the match has the empty text.
pub open spec fn paired_groups(names: Seq<Seq<char>>, captures: Seq<Option<Seq<char>>>) -> Seq<
    (Seq<char>, Seq<char>),
> {
    Seq::new(
        if names.len() <= captures.len() {
            names.len()
        } else {
            captures.len()
        },
        |i: int| (names[i], text_or_empty(captures[i])),
    )
}

impl Component {
    /// Whether this component and its matcher hold the error of the engine
    /// where a regular expression of theirs did not compile.
    pub open spec fn holds_engine_error(&self) -> bool {
        (self.regexp matches Err(e) ==> e == Error::RegExp) && keeps_engine_error(self.matcher)
    }

    /// Compiles the pattern of one component; a component without a
    /// pattern gets `*`. The error of a regular expression that the engine
    /// refuses is kept in the component.
    pub fn compile<E: EncodingCallback>(input: Option<&str>, callback: E, options: Options) -> (r: Result<
        Component,
        Error,
    >)
        requires
            callback.is_function(),
        ensures
            component_result_view(r) == compile_spec(
                option_str_view(input),
                encoder(callback),
                options@,
            ),
            r matches Ok(c) ==> c.holds_engine_error(),
            r matches Ok(c) ==> c.regexp_string@.len() >= 2 && c.regexp_string@.first() == '^'
                && c.regexp_string@.last() == '$',
            r matches Ok(c) ==> c.group_name_list@.len() == crate::captures::capture_count(
                c.regexp_string@,
                0,
            ),
            r matches Ok(c) ==> string_views(c.group_name_list@).no_duplicates(),
    {
        proof {
            let view = option_str_view(input);
            if compile_spec(view, encoder(callback), options@) is Ok {
                crate::laws::law_compiled_regexp_is_anchored(view, encoder(callback), options@);
                crate::laws::law_captures_align_with_names(view, encoder(callback), options@);
                crate::laws::law_group_names_are_unique(view, encoder(callback), options@);
            }
        }
        let parsed = match input {
            Some(s) => parse_pattern_string(s, &options, callback),
            None => {
                let mut wildcard = String::new();
                wildcard.push('*');
                assert(wildcard@ =~= seq!['*']);
                parse_pattern_string(wildcard.as_str(), &options, callback)
            },
        };
        let part_list = match parsed {
            Ok(parts) => parts,
            Err(e) => {
                return Err(e);
            },
        };
        let generated = generate_regular_expression_and_name_list(part_list.as_slice(), &options);
        let regexp_string = generated.0;
        let name_list = generated.1;
        let regexp = compile_parts(part_list.as_slice(), &options);
        let pattern_string = generate_pattern_string(part_list.as_slice(), &options);
        let matcher = generate_matcher(part_list.as_slice(), &options);
        Ok(
            Component {
                pattern_string,
                regexp_string,
                regexp,
                group_name_list: name_list,
                matcher,
            },
        )
    }

    /// Whether the regular expression of this component, taken as a
    /// protocol, matches one of the special schemes.
    pub fn protocol_component_matches_special_scheme(&self) -> (r: bool)
        ensures
            r == matches_special_scheme(self@.regexp),
    {
        match &self.regexp {
            Err(_) => false,
            Ok(regex) => regex_captures(regex, "ftp").is_some() || regex_captures(
                regex,
                "file",
            ).is_some() || regex_captures(regex, "http").is_some() || regex_captures(
                regex,
                "https",
            ).is_some() || regex_captures(regex, "ws").is_some() || regex_captures(
                regex,
                "wss",
            ).is_some(),
        }
    }

    /// The result of a match on this component, from the matched input and
    /// the captures.
    pub fn create_match_result(&self, input: String, exec_result: Vec<Option<String>>) -> (r:
        UrlPatternComponentResult)
        ensures
            r@ == (ComponentResultView {
                input: input@,
                groups: paired_groups(self@.group_name_list, captures_view(exec_result@)),
            }),
            self@.group_name_list.no_duplicates() ==> names_are_distinct(r@.groups),
    {
        let ghost names = string_views(self.group_name_list@);
        let ghost captures = captures_view(exec_result@);
        let n = if self.group_name_list.len() <= exec_result.len() {
            self.group_name_list.len()
        } else {
            exec_result.len()
        };
        let mut groups: Vec<(String, String)> = Vec::new();
        let mut i: usize = 0;
        while i < n
            invariant
                names == string_views(self.group_name_list@),
                captures == captures_view(exec_result@),
                i <= n,
                n <= self.group_name_list.len(),
                n <= exec_result.len(),
                pair_views(groups@) == Seq::new(
                    i as nat,
                    |k: int| (names[k], text_or_empty(captures[k])),
                ),
            decreases n - i,
        {
            let name = self.group_name_list[i].clone();
            let value = match &exec_result[i] {
                Some(s) => s.clone(),
                None => String::new(),
            };
            assert(names[i as int] == name@);
            assert(text_or_empty(captures[i as int]) == value@);
            let ghost before = pair_views(groups@);
            let ghost pair = (name@, value@);
            groups.push((name, value));
            assert(pair_views(groups@) =~= before.push(pair));
            i += 1;
            assert(before.push(pair) =~= Seq::new(
                i as nat,
                |k: int| (names[k], text_or_empty(captures[k])),
            ));
        }
        UrlPatternComponentResult { input, groups }
    }

    /// This component, unless `do_transpose` holds and its regular
    /// expression did not compile.
    pub fn optionally_transpose_regex_error(self, do_transpose: bool) -> (r: Result<
        Component,
        Error,
    >)
        ensures
            do_transpose && self.regexp is Err ==> r == Err::<Component, Error>(Error::RegExp),
            !(do_transpose && self.regexp is Err) ==> r == Ok::<Component, Error>(self),
    {
        if do_transpose && self.regexp.is_err() {
            Err(Error::RegExp)
        } else {
            Ok(self)
        }
    }
}

} // verus!
