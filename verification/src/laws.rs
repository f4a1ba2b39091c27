//! What holds of every pattern.

use crate::canonicalize_and_process::Encoder;
use crate::canonicalize_and_process::Encoding;
use crate::canonicalize_and_process::ProcessType;
use crate::canonicalize_and_process::default_port;
use crate::canonicalize_and_process::encoded;
use crate::canonicalize_and_process::encoder;
use crate::canonicalize_and_process::is_special_scheme_spec;
use crate::captures::capture_count;
use crate::captures::lemma_engine_source;
use crate::captures::lemma_regexp_source;
use crate::component::Component;
use crate::component::compile_spec;
use crate::component::engine_source;
use crate::component::component_result_view;
use crate::component::group_names;
use crate::component::is_pattern_special;
use crate::component::lemma_group_names_len;
use crate::component::literal_head;
use crate::component::literal_tail;
use crate::component::matcher_of;
use crate::component::part_pattern;
use crate::component::pattern_string;
use crate::component::regexp_source;
use crate::error::Error;
use crate::error::ErrorView;
use crate::init::InitView;
use crate::init::empty_init;
use crate::init::process_spec;
use crate::joined::groups_of;
use crate::joined::is_literal_pair;
use crate::joined::joined;
use crate::joined::lemma_engine_reads_joined;
use crate::joined::lemma_joined;
use crate::joined::literals_are_filled;
use crate::language::between;
use crate::language::capture_accepts;
use crate::language::fits_around;
use crate::language::is_one_line;
use crate::language::lemma_fits_before_suffix;
use crate::language::lemma_fits_behind_prefix;
use crate::language::lemma_language_before_literal;
use crate::language::lemma_language_behind_literal;
use crate::language::lemma_language_of_one;
use crate::language::parts_language;
use crate::match_result::UrlPatternResult;
use crate::match_result::group_value;
use crate::match_result::names_are_distinct;
use crate::matcher::InnerMatcherView;
use crate::matcher::MatcherView;
use crate::matcher::inner_match;
use crate::matcher::matcher_match;
use crate::parsed::lemma_parsed_parts_have_shape;
use crate::parsed::part_has_shape;
use crate::parsed::parts_have_shape;
use crate::parser::OptionsView;
use crate::parser::PartType;
use crate::parser::PartView;
use crate::parser::Step;
use crate::parser::first_duplicate;
use crate::parser::flushed;
use crate::parser::lemma_checked_names_distinct;
use crate::parser::name_taken;
use crate::parser::names_distinct;
use crate::parser::parse_from;
use crate::parser::parse_pattern_spec;
use crate::parser::parse_step;
use crate::parser::start_progress;
use crate::pattern::MatchInputSource;
use crate::pattern::PatternView;
use crate::pattern::compile_all;
use crate::pattern::elided_default_port;
use crate::pattern::match_spec;
use crate::pattern::option_result_view;
use crate::pattern::parse_spec;
use crate::round_trip::ends_in_name;
use crate::round_trip::is_canonical;
use crate::round_trip::is_plain_literal;
use crate::round_trip::lemma_parse_spelled;
use crate::round_trip::part_is_canonical;
use crate::round_trip::starts_with_regexp;
use crate::round_trip::state_at;
use crate::tokenizer::TokenView;
use crate::tokenizer::TokenizePolicy;
use crate::tokenizer::end_token;
use crate::tokenizer::tokenize_spec;
use crate::tokenizer::valid_name_code_point;
use crate::written_parts::delimiter_is_plain;
use crate::written_parts::is_writable;
use crate::written_parts::lemma_read_parts;
use vstd::prelude::*;

verus! {

/// The source of the regular expression of every part list starts with
/// `^` and ends with `$`.
pub proof fn law_regexp_is_anchored(parts: Seq<PartView>, options: OptionsView)
    ensures
        regexp_source(parts, options).len() >= 2,
        regexp_source(parts, options).first() == '^',
        regexp_source(parts, options).last() == '$',
{
}

/// The source of the regular expression of every component that compiles
/// starts with `^` and ends with `$`.
pub proof fn law_compiled_regexp_is_anchored(
    input: Option<Seq<char>>,
    encoding: Encoder,
    options: OptionsView,
)
    requires
        compile_spec(input, encoding, options) is Ok,
    ensures
        compile_spec(input, encoding, options)->Ok_0.regexp_string.len() >= 2,
        compile_spec(input, encoding, options)->Ok_0.regexp_string.first() == '^',
        compile_spec(input, encoding, options)->Ok_0.regexp_string.last() == '$',
{
    let parts = parse_pattern_spec(crate::component::pattern_or_wildcard(input), options, encoding)->Ok_0;
    law_regexp_is_anchored(parts, options);
}

/// A pattern is parsed only if no two of its groups have one name.
pub proof fn law_names_are_unique(input: Seq<char>, options: OptionsView, encoding: Encoder)
    requires
        parse_pattern_spec(input, options, encoding) is Ok,
    ensures
        names_distinct(parse_pattern_spec(input, options, encoding)->Ok_0),
{
    let tokens = tokenize_spec(input, TokenizePolicy::Strict)->Ok_0;
    let parts = parse_from(tokens, 0, start_progress(), options, encoding)->Ok_0;
    lemma_checked_names_distinct(parts);
}

/// Whether one of the first `n` parts is a group of the given name.
pub open spec fn is_group_name(parts: Seq<PartView>, n: nat, name: Seq<char>) -> bool {
    exists|i: int|
        0 <= i < n && (#[trigger] parts[i]).kind != PartType::FixedText && parts[i].name == name
}

/// The names of the groups of a part list are distinct where no two of its
/// groups have one name.
pub proof fn lemma_group_names_distinct(parts: Seq<PartView>, n: nat)
    requires
        names_distinct(parts),
        n <= parts.len(),
    ensures
        group_names(parts, n).no_duplicates(),
        forall|k: int|
            0 <= k < group_names(parts, n).len() ==> is_group_name(
                parts,
                n,
                #[trigger] group_names(parts, n)[k],
            ),
    decreases n,
{
    if n > 0 {
        lemma_group_names_distinct(parts, (n - 1) as nat);
        let before = group_names(parts, (n - 1) as nat);
        let names = group_names(parts, n);
        assert forall|k: int| 0 <= k < names.len() implies is_group_name(
            parts,
            n,
            #[trigger] names[k],
        ) by {
            if k < before.len() {
                assert(names[k] == before[k]);
                assert(is_group_name(parts, (n - 1) as nat, before[k]));
                let i = choose|i: int|
                    0 <= i < n - 1 && (#[trigger] parts[i]).kind != PartType::FixedText
                        && parts[i].name == before[k];
                assert(0 <= i < n && parts[i].kind != PartType::FixedText && parts[i].name
                    == names[k]);
            } else {
                assert(parts[n - 1].kind != PartType::FixedText && parts[n - 1].name == names[k]);
            }
        }
        assert forall|a: int, b: int| 0 <= a < b < names.len() implies names[a] != names[b] by {
            if b < before.len() {
                assert(names[a] == before[a] && names[b] == before[b]);
            } else {
                assert(names[a] == before[a]);
                assert(is_group_name(parts, (n - 1) as nat, before[a]));
                let i = choose|i: int|
                    0 <= i < n - 1 && (#[trigger] parts[i]).kind != PartType::FixedText
                        && parts[i].name == before[a];
                assert(parts[i].name != parts[n - 1].name);
            }
        }
    }
}

/// A component compiles only to a list of group names in which no name
/// stands twice.
pub proof fn law_group_names_are_unique(
    input: Option<Seq<char>>,
    encoding: Encoder,
    options: OptionsView,
)
    requires
        compile_spec(input, encoding, options) is Ok,
    ensures
        compile_spec(input, encoding, options)->Ok_0.group_name_list
            .no_duplicates(),
{
    let text = crate::component::pattern_or_wildcard(input);
    law_names_are_unique(text, options, encoding);
    let parts = parse_pattern_spec(text, options, encoding)->Ok_0;
    lemma_group_names_distinct(parts, parts.len());
}

/// Compiling is a function of the pattern, the encoding and the options:
/// two results of `Component::compile` on the same arguments are the same
/// component.
pub proof fn law_compile_is_deterministic(
    first: Result<Component, Error>,
    second: Result<Component, Error>,
    input: Option<Seq<char>>,
    encoding: Encoder,
    options: OptionsView,
)
    requires
        component_result_view(first) == compile_spec(input, encoding, options),
        component_result_view(second) == compile_spec(input, encoding, options),
    ensures
        component_result_view(first) == component_result_view(second),
{
}

/// Matching is a function of the pattern and the input: two results of
/// `UrlPattern::exec` on the same arguments are the same result.
pub proof fn law_match_is_deterministic(
    first: Option<UrlPatternResult>,
    second: Option<UrlPatternResult>,
    pattern: PatternView,
    input: MatchInputSource,
)
    requires
        option_result_view(first) == match_spec(pattern, input),
        option_result_view(second) == match_spec(pattern, input),
    ensures
        option_result_view(first) == option_result_view(second),
{
}

/// The empty pattern has no parts.
pub proof fn lemma_empty_pattern_has_no_parts(options: OptionsView, encoding: Encoder)
    ensures
        parse_pattern_spec(Seq::empty(), options, encoding) == Ok::<Seq<PartView>, ErrorView>(
            Seq::empty(),
        ),
{
    let input = Seq::<char>::empty();
    let tokens = seq![end_token(input)];
    assert(tokenize_spec(input, TokenizePolicy::Strict) == Ok::<Seq<TokenView>, ErrorView>(tokens));
    let p = start_progress();
    assert(flushed(p, encoding) == Ok::<crate::parser::Progress, ErrorView>(p));
    assert(parse_step(tokens, 0, p, options, encoding) == Step::Next(1, p));
    assert(parse_from(tokens, 1, p, options, encoding) == Ok::<Seq<PartView>, ErrorView>(p.parts));
    assert(parse_from(tokens, 0, p, options, encoding) == Ok::<Seq<PartView>, ErrorView>(p.parts));
    assert(first_duplicate(p.parts, 0) is None);
}

/// Where the protocol of a processed init record is a special scheme and
/// its port is the default port of that scheme, the pattern that is
/// compiled from it has the empty string as the pattern of its port.
#[verifier::rlimit(40)]
pub proof fn law_default_port_is_elided(init: InitView, report: bool)
    requires
        parse_spec(init, report) is Ok,
        process_spec(init, ProcessType::Pattern, empty_init()) matches Ok(processed)
            && processed.protocol is Some && is_special_scheme_spec(processed.protocol->0)
            && default_port(processed.protocol->0) == processed.port,
    ensures
        parse_spec(init, report)->Ok_0.port.pattern_string == Seq::<char>::empty(),
{
    let processed = process_spec(init, ProcessType::Pattern, empty_init())->Ok_0;
    let elided = elided_default_port(processed);
    assert(elided.port == Some(Seq::<char>::empty()));
    lemma_empty_pattern_has_no_parts(crate::parser::default_options(), encoder(Encoding::Port));
    let c = compile_spec(elided.port, encoder(Encoding::Port), crate::parser::default_options());
    assert(c is Ok);
    assert(c->Ok_0.pattern_string == pattern_string(
        Seq::<PartView>::empty(),
        crate::parser::default_options(),
    ));
    assert(compile_all(elided, report) is Ok);
}

/// The source of the regular expression of every component that compiles
/// opens as many plain capturing groups as the component has group names:
/// opening parentheses that are not escaped and that no question mark
/// follows. (A named group within an embedded regular expression starts
/// with `(?` and is none of these.)
pub proof fn law_captures_align_with_names(
    input: Option<Seq<char>>,
    encoding: Encoder,
    options: OptionsView,
)
    requires
        compile_spec(input, encoding, options) is Ok,
    ensures
        capture_count(compile_spec(input, encoding, options)->Ok_0.regexp_string, 0)
            == compile_spec(input, encoding, options)->Ok_0.group_name_list.len(),
{
    let text = crate::component::pattern_or_wildcard(input);
    let parts = parse_pattern_spec(text, options, encoding)->Ok_0;
    lemma_parsed_parts_have_shape(text, options, encoding);
    assert forall|k: int| 0 <= k < parts.len() implies crate::captures::part_is_sound(
        #[trigger] parts[k],
    ) by {
        assert(part_has_shape(parts, k, options));
        if parts[k].kind == PartType::Regexp {
            crate::captures::lemma_embeddable_is_quiet(parts[k].value);
        }
    }
    lemma_regexp_source(parts, options);
    lemma_group_names_len(parts, parts.len());
}

/// What the engine is handed for a pattern that is parsed opens as many
/// plain capturing groups as the pattern has groups; if case is ignored, the
/// flag in front of it opens none.
pub proof fn law_engine_captures_align_with_names(
    input: Seq<char>,
    encoding: Encoder,
    options: OptionsView,
)
    requires
        parse_pattern_spec(input, options, encoding) is Ok,
    ensures
        capture_count(
            engine_source(parse_pattern_spec(input, options, encoding)->Ok_0, options),
            0,
        ) == group_names(
            parse_pattern_spec(input, options, encoding)->Ok_0,
            parse_pattern_spec(input, options, encoding)->Ok_0.len(),
        ).len(),
{
    let parts = parse_pattern_spec(input, options, encoding)->Ok_0;
    lemma_parsed_parts_have_shape(input, options, encoding);
    assert forall|k: int| 0 <= k < parts.len() implies crate::captures::part_is_sound(
        #[trigger] parts[k],
    ) by {
        assert(part_has_shape(parts, k, options));
        if parts[k].kind == PartType::Regexp {
            crate::captures::lemma_embeddable_is_quiet(parts[k].value);
        }
    }
    lemma_engine_source(parts, options);
    lemma_group_names_len(parts, parts.len());
}

/// Where no two groups have one name, the check of the names finds
/// nothing.
proof fn lemma_distinct_names_pass(parts: Seq<PartView>, j: int)
    requires
        names_distinct(parts),
        0 <= j,
    ensures
        first_duplicate(parts, j) is None,
    decreases parts.len() - j,
{
    if j < parts.len() {
        if name_taken(parts, j) {
            let i = choose|i: int|
                0 <= i < j && (#[trigger] parts[i]).kind != PartType::FixedText && parts[i].name
                    == parts[j].name;
            assert(parts[i].name != parts[j].name);
        }
        lemma_distinct_names_pass(parts, j + 1);
    }
}

/// The canonical pattern string of a part list is parsed back to the same
/// part list, where the list is as the parser makes part lists
/// (`is_canonical`) and is written such that the tokenizer reads back what
/// was written (`is_writable`).
pub proof fn lemma_canonical_parts_round_trip(
    parts: Seq<PartView>,
    options: OptionsView,
    encoding: Encoder,
)
    requires
        is_canonical(parts, options, encoding),
        is_writable(parts, options),
    ensures
        parse_pattern_spec(pattern_string(parts, options), options, encoding) == Ok::<
            Seq<PartView>,
            ErrorView,
        >(parts),
{
    let tokens = lemma_read_parts(parts, 0, options, encoding);
    lemma_parse_spelled(tokens, 0, parts, 0, options, encoding);
    assert(parts.take(0) =~= Seq::<PartView>::empty());
    assert(state_at(parts, 0) == start_progress());
    lemma_distinct_names_pass(parts, 0);
}

/// Whether the literal text of a part is in canonical form, so that the
/// encoding leaves it as it is; the text of a literal part is not empty.
pub open spec fn part_text_is_canonical(part: PartView, encoding: Encoder) -> bool {
    if part.kind == PartType::FixedText {
        part.value.len() > 0 && encoding(part.value) == Ok::<Seq<char>, ErrorView>(
            part.value,
        )
    } else {
        encoding(part.prefix) == Ok::<Seq<char>, ErrorView>(part.prefix) && encoding(part.suffix,
        ) == Ok::<Seq<char>, ErrorView>(part.suffix)
    }
}

/// Whether the options are such that what is written under them is read
/// back: the delimiter is one ASCII code point or none; the prefix code
/// point is one code point or none, and one that is written plainly and
/// that no name holds.
pub open spec fn options_are_plain(options: OptionsView) -> bool {
    &&& delimiter_is_plain(options)
    &&& options.prefix_code_point.len() <= 1
    &&& options.prefix_code_point.len() == 1 ==> !is_pattern_special(options.prefix_code_point[0])
        && !valid_name_code_point(options.prefix_code_point[0], false)
}

/// Whether the part at `k` is no literal text right behind another one.
/// Two literal texts side by side are written as one.
pub open spec fn literals_are_apart(parts: Seq<PartView>, k: int) -> bool {
    is_plain_literal(parts[k]) && k > 0 ==> !is_plain_literal(parts[k - 1])
}

/// Whether the name that the part at `k` ends in, if it ends in one, is
/// closed by what is written next: that neither goes on the name nor
/// starts with a regular expression, which would be read as that of the
/// name.
pub open spec fn name_is_closed(parts: Seq<PartView>, k: int, options: OptionsView) -> bool {
    ends_in_name(parts, k, options) ==> !starts_with_regexp(parts, k + 1, options) && (k + 1
        < parts.len() ==> part_pattern(parts, k + 1, options).len() > 0 && !valid_name_code_point(
        part_pattern(parts, k + 1, options)[0],
        false,
    ))
}

/// What two texts in a row start with.
proof fn lemma_first_of_both(a: Seq<char>, b: Seq<char>)
    ensures
        a.len() > 0 ==> (a + b).len() > 0 && (a + b)[0] == a[0],
        a.len() == 0 ==> a + b == b,
{
    if a.len() == 0 {
        assert(a + b =~= b);
    }
}

/// The first code point that is written for a literal text.
proof fn lemma_first_written_of_literal(parts: Seq<PartView>, k: int, options: OptionsView)
    requires
        0 <= k < parts.len(),
        parts[k].kind == PartType::FixedText,
        parts[k].value.len() > 0,
    ensures
        part_pattern(parts, k, options).len() > 0,
        part_pattern(parts, k, options)[0] == '{' || part_pattern(parts, k, options)[0] == '\\'
            || (part_pattern(parts, k, options)[0] == parts[k].value[0] && is_plain_literal(
            parts[k],
        )),
{
    let part = parts[k];
    crate::written::lemma_written_code_points(part.value, 0);
    assert(part.value.take(0) =~= Seq::<char>::empty());
    let written = crate::component::escape_pattern(part.value);
    if part.modifier != crate::parser::PartModifier::NoModifier {
        let open = seq!['{'];
        lemma_first_of_both(open, written);
        lemma_first_of_both(open + written, seq!['}']);
        lemma_first_of_both(
            open + written + seq!['}'],
            crate::component::modifier_text(part.modifier),
        );
    }
}

/// The first code point that is written for a group.
#[verifier::rlimit(40)]
proof fn lemma_first_written_of_group(parts: Seq<PartView>, k: int, options: OptionsView)
    requires
        0 <= k < parts.len(),
        parts[k].kind != PartType::FixedText,
        options_are_plain(options),
        part_has_shape(parts, k, options),
    ensures
        part_pattern(parts, k, options).len() > 0,
        part_pattern(parts, k, options)[0] == '{' || (parts[k].prefix.len() > 0
            && options.prefix_code_point.len() == 1 && part_pattern(parts, k, options)[0]
            == options.prefix_code_point[0]) || part_pattern(parts, k, options)[0] == ':'
            || !crate::component::is_custom_name(parts[k].name),
{
    let part = parts[k];
    let grouped = crate::component::needs_grouping(parts, k, options);
    let custom = crate::component::is_custom_name(part.name);
    let q0 = crate::component::text_if(grouped, seq!['{']);
    let q1 = crate::component::escape_pattern(part.prefix);
    let q2 = crate::component::text_if(custom, seq![':'] + part.name);
    let q3 = crate::component::group_body(parts, k, options);
    let q4 = crate::component::text_if(crate::component::suffix_needs_escape(part), seq!['\\']);
    let q5 = crate::component::escape_pattern(part.suffix);
    let q6 = crate::component::text_if(grouped, seq!['}']);
    let q7 = crate::component::modifier_text(part.modifier);
    assert(part_pattern(parts, k, options) == q0 + q1 + q2 + q3 + q4 + q5 + q6 + q7);
    lemma_first_of_both(q0, q1);
    lemma_first_of_both(q0 + q1, q2);
    lemma_first_of_both(q0 + q1 + q2, q3);
    lemma_first_of_both(q0 + q1 + q2 + q3, q4);
    lemma_first_of_both(q0 + q1 + q2 + q3 + q4, q5);
    lemma_first_of_both(q0 + q1 + q2 + q3 + q4 + q5, q6);
    lemma_first_of_both(q0 + q1 + q2 + q3 + q4 + q5 + q6, q7);
    if !grouped {
        if part.prefix.len() > 0 {
            assert(part.prefix == options.prefix_code_point);
            crate::written::lemma_written_code_points(part.prefix, 0);
            assert(part.prefix.take(0) =~= Seq::<char>::empty());
        } else {
            assert(part.prefix =~= Seq::<char>::empty());
            assert(q1.len() == 0);
            if custom {
                lemma_first_of_both(seq![':'], part.name);
            } else {
                assert(q3.len() > 0);
            }
        }
    }
}

/// A name that ends a part without a prefix is closed by what is written
/// next.
proof fn lemma_bare_name_is_closed(
    parts: Seq<PartView>,
    k: int,
    options: OptionsView,
    encoding: Encoder,
)
    requires
        0 <= k < parts.len(),
        options_are_plain(options),
        parts[k].prefix.len() == 0,
        k + 1 < parts.len() ==> part_has_shape(parts, k + 1, options) && part_text_is_canonical(
            parts[k + 1],
            encoding,
        ),
    ensures
        name_is_closed(parts, k, options),
{
    if ends_in_name(parts, k, options) && k + 1 < parts.len() {
        let next = parts[k + 1];
        assert(!crate::component::continues_name(next));
        if next.kind == PartType::FixedText {
            lemma_first_written_of_literal(parts, k + 1, options);
        } else {
            lemma_first_written_of_group(parts, k + 1, options);
            if !crate::component::is_custom_name(next.name) {
                crate::text::lemma_decimal_starts_with_digit(crate::round_trip::unnamed_before(parts, k + 1));
            }
        }
    }
}

/// Whether the encoding leaves the empty text empty.
pub open spec fn keeps_empty_text(encoding: Encoder) -> bool {
    encoding(Seq::empty()) == Ok::<Seq<char>, ErrorView>(Seq::empty())
}

/// Every encoding of this library leaves the empty text empty.
pub proof fn law_library_encodings_keep_the_empty_text(encoding: Encoding)
    ensures
        keeps_empty_text(encoder(encoding)),
{
    let empty = Seq::<char>::empty();
    assert(crate::canonicalize_and_process::canonical_ipv6_hostname(empty) == Ok::<
        Seq<char>,
        ErrorView,
    >(empty)) by {
        assert(Seq::new(
            empty.len(),
            |i: int| crate::text::ascii_lower(empty[i]),
        ) =~= empty);
    }
}

/// A part list of the shape that the parser gives its lists is parsed back
/// from its canonical pattern string, where its literal text is in
/// canonical form, no two of its literal texts stand side by side, and the
/// name that a group with a prefix ends in is closed by what follows.
#[verifier::rlimit(40)]
proof fn lemma_shaped_parts_round_trip(
    parts: Seq<PartView>,
    options: OptionsView,
    encoding: Encoder,
)
    requires
        parts_have_shape(parts, options),
        names_distinct(parts),
        options_are_plain(options),
        keeps_empty_text(encoding),
        forall|k: int| 0 <= k < parts.len() ==> part_text_is_canonical(#[trigger] parts[k], encoding),
        forall|k: int| 0 <= k < parts.len() ==> #[trigger] literals_are_apart(parts, k),
        forall|k: int|
            0 <= k < parts.len() && (#[trigger] parts[k]).prefix.len() > 0 ==> name_is_closed(
                parts,
                k,
                options,
            ),
    ensures
        parse_pattern_spec(pattern_string(parts, options), options, encoding) == Ok::<
            Seq<PartView>,
            ErrorView,
        >(parts),
{
    assert forall|k: int| 0 <= k < parts.len() implies name_is_closed(parts, k, options) by {
        if parts[k].prefix.len() == 0 {
            if k + 1 < parts.len() {
                assert(part_has_shape(parts, k + 1, options));
                assert(part_text_is_canonical(parts[k + 1], encoding));
            }
            lemma_bare_name_is_closed(parts, k, options, encoding);
        }
    }
    assert forall|k: int| 0 <= k < parts.len() implies #[trigger] part_is_canonical(
        parts,
        k,
        options,
        encoding,
    ) by {
        assert(part_has_shape(parts, k, options));
        assert(part_text_is_canonical(parts[k], encoding));
        assert(literals_are_apart(parts, k));
        assert(name_is_closed(parts, k, options));
    }
    assert(is_writable(parts, options)) by {
        assert forall|k: int|
            0 <= k < parts.len() && (#[trigger] parts[k]).kind
                == PartType::Regexp implies crate::written::is_embeddable(parts[k].value) by {
            assert(part_has_shape(parts, k, options));
        }
        assert forall|k: int|
            0 <= k && k + 1 < parts.len() && #[trigger] ends_in_name(
                parts,
                k,
                options,
            ) implies part_pattern(parts, k + 1, options).len() > 0 && !valid_name_code_point(
            part_pattern(parts, k + 1, options)[0],
            false,
        ) by {
            assert(name_is_closed(parts, k, options));
        }
    }
    lemma_canonical_parts_round_trip(parts, options, encoding);
}

/// The parts that a pattern is parsed into; stated of patterns that are
/// parsed.
pub open spec fn parts_of(input: Seq<char>, options: OptionsView, encoding: Encoder) -> Seq<
    PartView,
> {
    parse_pattern_spec(input, options, encoding)->Ok_0
}

/// Whether the encoding leaves what it gave as it is.
pub open spec fn encoding_is_idempotent(encoding: Encoder) -> bool {
    forall|source: Seq<char>| (#[trigger] encoding(source)) matches Ok(text) ==> encoding(text,
    ) == Ok::<Seq<char>, ErrorView>(text)
}

/// The encoding that leaves a text as it stands and that of an IPv6
/// hostname leave what they gave as it is. (Of the others this rests on
/// what the URL parser does.)
pub proof fn law_plain_encodings_are_idempotent()
    ensures
        encoding_is_idempotent(encoder(Encoding::Verbatim)),
        encoding_is_idempotent(encoder(Encoding::Ipv6Hostname)),
{
    assert forall|source: Seq<char>| (#[trigger] encoded(Encoding::Ipv6Hostname, source))
        is Ok implies encoded(
        Encoding::Ipv6Hostname,
        encoded(Encoding::Ipv6Hostname, source)->Ok_0,
    ) == Ok::<Seq<char>, ErrorView>(encoded(Encoding::Ipv6Hostname, source)->Ok_0) by {
        {
            let text = encoded(Encoding::Ipv6Hostname, source)->Ok_0;
            assert forall|i: int| 0 <= i < text.len() implies crate::canonicalize_and_process::is_ipv6_code_point(
                #[trigger] text[i],
            ) && crate::text::ascii_lower(text[i]) == text[i] by {
                assert(crate::canonicalize_and_process::is_ipv6_code_point(source[i]));
            }
            assert(Seq::new(text.len(), |i: int| crate::text::ascii_lower(text[i])) =~= text);
        }
    }
}

/// Under an encoding that leaves what it gave as it is, the literal text
/// of every part that is parsed from a pattern is in canonical form, where
/// no literal text is empty.
pub proof fn law_parsed_text_is_canonical(
    input: Seq<char>,
    options: OptionsView,
    encoding: Encoder,
)
    requires
        parse_pattern_spec(input, options, encoding) is Ok,
        encoding_is_idempotent(encoding),
        literals_are_filled(parts_of(input, options, encoding)),
    ensures
        forall|k: int|
            0 <= k < parts_of(input, options, encoding).len() ==> part_text_is_canonical(
                #[trigger] parts_of(input, options, encoding)[k],
                encoding,
            ),
{
    let parts = parts_of(input, options, encoding);
    crate::parsed::lemma_parsed_parts_are_encoded(input, options, encoding);
    assert forall|k: int| 0 <= k < parts.len() implies part_text_is_canonical(
        #[trigger] parts[k],
        encoding,
    ) by {
        assert(crate::parsed::part_is_encoded(parts[k], encoding));
        if parts[k].kind == PartType::FixedText {
            lemma_stays_encoded(parts[k].value, encoding);
        } else {
            lemma_stays_encoded(parts[k].prefix, encoding);
            lemma_stays_encoded(parts[k].suffix, encoding);
        }
    }
}

/// An encoding that leaves what it gave as it is leaves every text that it
/// gave.
proof fn lemma_stays_encoded(text: Seq<char>, encoding: Encoder)
    requires
        encoding_is_idempotent(encoding),
        crate::parsed::is_encoded(text, encoding),
    ensures
        encoding(text) == Ok::<Seq<char>, ErrorView>(text),
{
    let source = choose|source: Seq<char>| #[trigger]
        encoding(source) == Ok::<Seq<char>, ErrorView>(text);
    assert(encoding(source) matches Ok(t) && t == text);
}

/// The round trip: where a pattern is parsed, its canonical pattern
/// string is parsed back to the same part list.
///
/// This is stated for options that are plain and for patterns whose
/// literal text is in canonical form, so that the encoding leaves it as
/// it is. It is not stated for the part lists of which it does not hold:
/// those with two literal texts side by side, which are written as one
/// (of these the next law speaks), and those in which a group with a
/// prefix ends in a name that runs into what is written next.
pub proof fn law_pattern_string_round_trips(
    input: Seq<char>,
    options: OptionsView,
    encoding: Encoder,
)
    requires
        parse_pattern_spec(input, options, encoding) is Ok,
        options_are_plain(options),
        keeps_empty_text(encoding),
        forall|k: int|
            0 <= k < parse_pattern_spec(input, options, encoding)->Ok_0.len()
                ==> part_text_is_canonical(
                #[trigger] parse_pattern_spec(input, options, encoding)->Ok_0[k],
                encoding,
            ),
        forall|k: int|
            0 <= k < parse_pattern_spec(input, options, encoding)->Ok_0.len()
                ==> #[trigger] literals_are_apart(
                parse_pattern_spec(input, options, encoding)->Ok_0,
                k,
            ),
        forall|k: int|
            0 <= k < parse_pattern_spec(input, options, encoding)->Ok_0.len() && (
            #[trigger] parse_pattern_spec(input, options, encoding)->Ok_0[k]).prefix.len() > 0
                ==> name_is_closed(parse_pattern_spec(input, options, encoding)->Ok_0, k, options),
    ensures
        parse_pattern_spec(
            pattern_string(parse_pattern_spec(input, options, encoding)->Ok_0, options),
            options,
            encoding,
        ) == parse_pattern_spec(input, options, encoding),
{
    let parts = parse_pattern_spec(input, options, encoding)->Ok_0;
    lemma_parsed_parts_have_shape(input, options, encoding);
    law_names_are_unique(input, options, encoding);
    lemma_shaped_parts_round_trip(parts, options, encoding);
}

/// The round trip under an encoding that leaves what it gave as it is:
/// where a pattern is parsed, its canonical pattern string is parsed back to
/// the same part list.
///
/// This is stated for options that are plain and for patterns of which no
/// literal text is empty once it is encoded. It is not stated for the part
/// lists of which it does not hold: those with two literal texts side by
/// side, and those in which a group with a prefix ends in a name that runs
/// into what is written next.
pub proof fn law_pattern_string_round_trips_under_idempotent_encoding(
    input: Seq<char>,
    options: OptionsView,
    encoding: Encoder,
)
    requires
        parse_pattern_spec(input, options, encoding) is Ok,
        options_are_plain(options),
        keeps_empty_text(encoding),
        encoding_is_idempotent(encoding),
        literals_are_filled(parts_of(input, options, encoding)),
        forall|k: int|
            0 <= k < parts_of(input, options, encoding).len() ==> #[trigger] literals_are_apart(
                parts_of(input, options, encoding),
                k,
            ),
        forall|k: int|
            0 <= k < parts_of(input, options, encoding).len() && (#[trigger] parts_of(
                input,
                options,
                encoding,
            )[k]).prefix.len() > 0 ==> name_is_closed(
                parts_of(input, options, encoding),
                k,
                options,
            ),
    ensures
        parse_pattern_spec(
            pattern_string(parts_of(input, options, encoding), options),
            options,
            encoding,
        ) == parse_pattern_spec(input, options, encoding),
{
    let parts = parse_pattern_spec(input, options, encoding)->Ok_0;
    assert(parts == parts_of(input, options, encoding));
    law_parsed_text_is_canonical(input, options, encoding);
    assert forall|k: int| 0 <= k < parts.len() implies #[trigger] literals_are_apart(parts, k) by {
        assert(literals_are_apart(parts_of(input, options, encoding), k));
    }
    law_pattern_string_round_trips(input, options, encoding);
}

/// The round trip of every pattern: where a pattern is parsed, its
/// canonical pattern string is parsed back to the same part list but for
/// literal texts that stood side by side, which come back as one text. The
/// list that comes back has the same groups in the same order, with their
/// kinds, names, modifiers, expressions, prefixes and suffixes, and the same
/// regular expression.
///
/// This is stated for options that are plain and for patterns whose
/// literal text, where it is not empty, is in canonical form once the texts
/// side by side are one, so that the encoding leaves it as it is. It is not
/// stated for the part lists of which it does not hold: those in which a
/// group with a prefix ends in a name that runs into what is written
/// next.
pub proof fn law_pattern_string_round_trips_with_literals_joined(
    input: Seq<char>,
    options: OptionsView,
    encoding: Encoder,
)
    requires
        parse_pattern_spec(input, options, encoding) is Ok,
        options_are_plain(options),
        keeps_empty_text(encoding),
        literals_are_filled(parts_of(input, options, encoding)),
        forall|k: int|
            0 <= k < joined(parts_of(input, options, encoding)).len() ==> part_text_is_canonical(
                #[trigger] joined(parts_of(input, options, encoding))[k],
                encoding,
            ),
        forall|k: int|
            0 <= k < joined(parts_of(input, options, encoding)).len() && (#[trigger] joined(
                parts_of(input, options, encoding),
            )[k]).prefix.len() > 0 ==> name_is_closed(
                joined(parts_of(input, options, encoding)),
                k,
                options,
            ),
    ensures
        parse_pattern_spec(
            pattern_string(parts_of(input, options, encoding), options),
            options,
            encoding,
        ) == Ok::<Seq<PartView>, ErrorView>(joined(parts_of(input, options, encoding))),
        groups_of(
            joined(parts_of(input, options, encoding)),
            joined(parts_of(input, options, encoding)).len(),
        ) == groups_of(
            parts_of(input, options, encoding),
            parts_of(input, options, encoding).len(),
        ),
        group_names(
            joined(parts_of(input, options, encoding)),
            joined(parts_of(input, options, encoding)).len(),
        ) == group_names(
            parts_of(input, options, encoding),
            parts_of(input, options, encoding).len(),
        ),
        regexp_source(joined(parts_of(input, options, encoding)), options) == regexp_source(
            parts_of(input, options, encoding),
            options,
        ),
        pattern_string(joined(parts_of(input, options, encoding)), options) == pattern_string(
            parts_of(input, options, encoding),
            options,
        ),
{
    let parts = parts_of(input, options, encoding);
    let back = joined(parts);
    lemma_parsed_parts_have_shape(input, options, encoding);
    law_names_are_unique(input, options, encoding);
    lemma_joined(parts, options);
    assert forall|k: int| 0 <= k < back.len() implies #[trigger] literals_are_apart(back, k) by {
        if k > 0 {
            assert(!is_literal_pair(back, k - 1));
        }
    }
    lemma_shaped_parts_round_trip(back, options, encoding);
}

/// Compiling the canonical pattern string of a component gives the
/// component again: the same pattern string, regular expression, group
/// names and matcher. This is stated where the pattern string is parsed
/// back to the same part list.
pub proof fn law_recompiled_component_is_the_same(
    input: Seq<char>,
    options: OptionsView,
    encoding: Encoder,
)
    requires
        parse_pattern_spec(input, options, encoding) is Ok,
        options_are_plain(options),
        keeps_empty_text(encoding),
        forall|k: int|
            0 <= k < parts_of(input, options, encoding).len() ==> part_text_is_canonical(
                #[trigger] parts_of(input, options, encoding)[k],
                encoding,
            ),
        forall|k: int|
            0 <= k < parts_of(input, options, encoding).len() ==> #[trigger] literals_are_apart(
                parts_of(input, options, encoding),
                k,
            ),
        forall|k: int|
            0 <= k < parts_of(input, options, encoding).len() && (#[trigger] parts_of(
                input,
                options,
                encoding,
            )[k]).prefix.len() > 0 ==> name_is_closed(
                parts_of(input, options, encoding),
                k,
                options,
            ),
    ensures
        compile_spec(Some(input), encoding, options) is Ok,
        compile_spec(
            Some(compile_spec(Some(input), encoding, options)->Ok_0.pattern_string),
            encoding,
            options,
        ) == compile_spec(Some(input), encoding, options),
{
    let parts = parse_pattern_spec(input, options, encoding)->Ok_0;
    assert(parts == parts_of(input, options, encoding));
    assert forall|k: int| 0 <= k < parts.len() implies #[trigger] literals_are_apart(parts, k) by {
        assert(literals_are_apart(parts_of(input, options, encoding), k));
    }
    law_pattern_string_round_trips(input, options, encoding);
}

/// Under an encoding that leaves what it gave as it is, compiling the
/// canonical pattern string of a component gives the component again. This
/// is stated where the pattern string is parsed back to the same part list.
pub proof fn law_recompiled_component_is_the_same_under_idempotent_encoding(
    input: Seq<char>,
    options: OptionsView,
    encoding: Encoder,
)
    requires
        parse_pattern_spec(input, options, encoding) is Ok,
        options_are_plain(options),
        keeps_empty_text(encoding),
        encoding_is_idempotent(encoding),
        literals_are_filled(parts_of(input, options, encoding)),
        forall|k: int|
            0 <= k < parts_of(input, options, encoding).len() ==> #[trigger] literals_are_apart(
                parts_of(input, options, encoding),
                k,
            ),
        forall|k: int|
            0 <= k < parts_of(input, options, encoding).len() && (#[trigger] parts_of(
                input,
                options,
                encoding,
            )[k]).prefix.len() > 0 ==> name_is_closed(
                parts_of(input, options, encoding),
                k,
                options,
            ),
    ensures
        compile_spec(Some(input), encoding, options) is Ok,
        compile_spec(
            Some(compile_spec(Some(input), encoding, options)->Ok_0.pattern_string),
            encoding,
            options,
        ) == compile_spec(Some(input), encoding, options),
{
    law_pattern_string_round_trips_under_idempotent_encoding(input, options, encoding);
}

/// Compiling the canonical pattern string of a component gives a
/// component with the same pattern string, the same regular expression, in
/// its source and as it is compiled, and the same group names, also where
/// literal texts stood side by side in the pattern; where case is ignored,
/// the same matcher too. (Where it is not, the matcher then takes more
/// literal text off the ends than the first one did.)
pub proof fn law_recompiled_component_reads_the_same(
    input: Seq<char>,
    options: OptionsView,
    encoding: Encoder,
)
    requires
        parse_pattern_spec(input, options, encoding) is Ok,
        options_are_plain(options),
        keeps_empty_text(encoding),
        literals_are_filled(parts_of(input, options, encoding)),
        forall|k: int|
            0 <= k < joined(parts_of(input, options, encoding)).len() ==> part_text_is_canonical(
                #[trigger] joined(parts_of(input, options, encoding))[k],
                encoding,
            ),
        forall|k: int|
            0 <= k < joined(parts_of(input, options, encoding)).len() && (#[trigger] joined(
                parts_of(input, options, encoding),
            )[k]).prefix.len() > 0 ==> name_is_closed(
                joined(parts_of(input, options, encoding)),
                k,
                options,
            ),
    ensures
        compile_spec(Some(input), encoding, options) is Ok,
        compile_spec(
            Some(compile_spec(Some(input), encoding, options)->Ok_0.pattern_string),
            encoding,
            options,
        ) matches Ok(again) && again.pattern_string == compile_spec(
            Some(input),
            encoding,
            options,
        )->Ok_0.pattern_string && again.regexp_string == compile_spec(
            Some(input),
            encoding,
            options,
        )->Ok_0.regexp_string && again.regexp == compile_spec(
            Some(input),
            encoding,
            options,
        )->Ok_0.regexp && again.group_name_list == compile_spec(
            Some(input),
            encoding,
            options,
        )->Ok_0.group_name_list && (options.ignore_case ==> again.matcher == compile_spec(
            Some(input),
            encoding,
            options,
        )->Ok_0.matcher),
{
    law_pattern_string_round_trips_with_literals_joined(input, options, encoding);
    lemma_engine_reads_joined(parts_of(input, options, encoding), options);
}

proof fn lemma_group_is_found_from(groups: Seq<(Seq<char>, Seq<char>)>, i: int, from: int)
    requires
        names_are_distinct(groups),
        0 <= from <= i < groups.len(),
    ensures
        group_value(groups, groups[i].0, from) == Some(groups[i].1),
    decreases i - from,
{
    if from < i {
        lemma_group_is_found_from(groups, i, from + 1);
    }
}

/// Among the entries of a match result with distinct names, the text that
/// is found under the name of an entry is the text of that entry: the
/// entries are a map from names to texts.
pub proof fn law_group_is_found_by_name(groups: Seq<(Seq<char>, Seq<char>)>, i: int)
    requires
        names_are_distinct(groups),
        0 <= i < groups.len(),
    ensures
        group_value(groups, groups[i].0, 0) == Some(groups[i].1),
{
    lemma_group_is_found_from(groups, i, 0);
}

/// Where case is ignored, the matcher of a part list is the regular
/// expression of the component itself, with nothing taken off the ends: the
/// matcher accepts what the expression accepts.
pub proof fn law_matcher_ignoring_case_is_the_expression(
    parts: Seq<PartView>,
    options: OptionsView,
    input: Seq<char>,
)
    requires
        options.ignore_case,
    ensures
        matcher_of(parts, options).prefix.len() == 0,
        matcher_of(parts, options).suffix.len() == 0,
        matcher_of(parts, options).inner == (InnerMatcherView::RegExp {
            regexp: crate::component::component_of(parts, options).regexp,
        }),
        matcher_match(matcher_of(parts, options), input) == inner_match(
            matcher_of(parts, options).inner,
            input,
        ),
{
    let empty = Seq::<char>::empty();
    assert(input.subrange(0, input.len() as int) =~= input);
    assert(input.subrange(0, 0) =~= empty);
    assert(input.subrange(input.len() as int, input.len() as int) =~= empty);
}

/// Whether a matcher is of one of the two forms that do without a regular
/// expression.
pub open spec fn is_specialized(m: MatcherView) -> bool {
    m.inner is Literal || m.inner is SingleCapture
}

/// Whether a matcher captures with a full wildcard.
pub open spec fn captures_all(m: MatcherView) -> bool {
    m.inner matches InnerMatcherView::SingleCapture { allow_empty, .. } && allow_empty
}

/// A single capture accepts the texts that its wildcard can capture.
proof fn lemma_single_capture_accepts(
    part: PartView,
    options: OptionsView,
    inner: InnerMatcherView,
    text: Seq<char>,
)
    requires
        part.kind == PartType::FullWildcard || part.kind == PartType::SegmentWildcard,
        inner == (InnerMatcherView::SingleCapture {
            filter: if part.kind == PartType::FullWildcard
                || options.delimiter_code_point.len() == 0 {
                None
            } else {
                Some(options.delimiter_code_point)
            },
            allow_empty: part.kind == PartType::FullWildcard,
        }),
    ensures
        (part.kind == PartType::FullWildcard ==> is_one_line(text)) ==> (inner_match(inner, text)
            is Some <==> capture_accepts(part, options, text)),
{
}

/// A matcher of a special form accepts exactly the texts that the part
/// list stands for, which are the texts that the regular expression of the
/// list is written to match.
///
/// Where case is ignored no matcher is of a special form. This is stated
/// for inputs in which the text that a full wildcard captures has no line
/// feed: the dot of the regular expression matches no line feed.
#[verifier::rlimit(40)]
pub proof fn law_specialized_matcher_agrees(
    parts: Seq<PartView>,
    options: OptionsView,
    input: Seq<char>,
)
    requires
        options.delimiter_code_point.len() <= 1,
        is_specialized(matcher_of(parts, options)),
        captures_all(matcher_of(parts, options)) && fits_around(
            input,
            matcher_of(parts, options).prefix,
            matcher_of(parts, options).suffix,
        ) ==> is_one_line(
            between(input, matcher_of(parts, options).prefix, matcher_of(parts, options).suffix),
        ),
    ensures
        matcher_match(matcher_of(parts, options), input) is Some <==> parts_language(
            parts,
            options,
            input,
        ),
{
    let m = matcher_of(parts, options);
    let from = literal_head(parts);
    let to = parts.len() - literal_tail(parts);
    let rest = parts.subrange(from, to);
    let n = input.len() as int;
    let empty = Seq::<char>::empty();
    assert(input.subrange(0, n) =~= input);
    assert(input.subrange(0, 0) =~= empty);
    assert(input.subrange(n, n) =~= empty);
    if n == 0 {
        assert(input =~= empty);
    }
    assert(input.skip(0) =~= input);
    assert(input.take(n) =~= input);
    if rest.len() == 0 {
        if parts.len() == 0 {
            assert(empty + empty =~= empty);
        } else if parts.len() == 1 {
            assert(parts =~= seq![parts[0]]);
            lemma_language_of_one(parts[0], options, input);
            assert(parts[0].value + empty =~= parts[0].value);
        } else {
            assert(parts.len() == 2);
            let tail = parts.drop_first();
            assert(tail =~= seq![parts[1]]);
            lemma_language_behind_literal(parts, options, input);
            let v0 = parts[0].value;
            let v1 = parts[1].value;
            lemma_language_of_one(parts[1], options, input.skip(v0.len() as int));
            if input == v0 + v1 {
                assert(input.subrange(0, v0.len() as int) =~= v0);
                assert(input.skip(v0.len() as int) =~= v1);
            }
            if crate::text::starts_with(input, v0) && input.skip(v0.len() as int) == v1 {
                assert(input =~= v0 + v1);
            }
        }
    } else {
        assert(rest.len() == 1);
        let w = rest[0];
        assert(w == parts[from]);
        let inner = m.inner;
        if from == 0 && to == parts.len() {
            assert(parts =~= seq![w]);
            lemma_language_of_one(w, options, input);
            assert(empty + w.prefix =~= w.prefix);
            assert(w.suffix + empty =~= w.suffix);
            lemma_single_capture_accepts(w, options, inner, between(input, w.prefix, w.suffix));
        } else if from == 1 && to == parts.len() {
            let first = parts[0].value;
            assert(parts.drop_first() =~= seq![w]);
            lemma_language_behind_literal(parts, options, input);
            let behind = input.skip(first.len() as int);
            lemma_language_of_one(w, options, behind);
            assert(w.suffix + empty =~= w.suffix);
            lemma_fits_behind_prefix(input, first, w.prefix, w.suffix);
            lemma_single_capture_accepts(w, options, inner, between(behind, w.prefix, w.suffix));
        } else if from == 0 {
            let last = parts.last();
            assert(parts =~= seq![w, last]);
            lemma_language_before_literal(w, last, options, input);
            let before = input.take(n - last.value.len());
            assert(empty + w.prefix =~= w.prefix);
            lemma_fits_before_suffix(input, w.prefix, w.suffix, last.value);
            lemma_single_capture_accepts(w, options, inner, between(before, w.prefix, w.suffix));
        } else {
            let first = parts[0].value;
            let last = parts.last();
            assert(parts.len() == 3);
            assert(parts.drop_first() =~= seq![w, last]);
            lemma_language_behind_literal(parts, options, input);
            let behind = input.skip(first.len() as int);
            lemma_language_before_literal(w, last, options, behind);
            let middle = behind.take(behind.len() - last.value.len());
            lemma_fits_behind_prefix(input, first, w.prefix, w.suffix + last.value);
            lemma_fits_before_suffix(behind, w.prefix, w.suffix, last.value);
            lemma_single_capture_accepts(w, options, inner, between(middle, w.prefix, w.suffix));
        }
    }
}

} // verus!
