//! The pattern parser: the tokens of one component become a list of parts.

use crate::canonicalize_and_process::Encoder;
use crate::canonicalize_and_process::EncodingCallback;
use crate::canonicalize_and_process::encoder;
use crate::error::Error;
use crate::error::ErrorView;
use crate::error::ParserError;
use crate::error::ParserErrorView;
use crate::text::chars_of;
use crate::text::decimal;
use crate::text::decimal_string;
use crate::text::str_eq;
use crate::tokenizer::Token;
use crate::tokenizer::TokenType;
use crate::tokenizer::TokenView;
use crate::tokenizer::TokenizePolicy;
use crate::tokenizer::token_text_fits;
use crate::tokenizer::token_views;
use crate::tokenizer::tokenize;
use crate::tokenizer::tokenize_spec;
use crate::tokenizer::tokens_well_formed;
use vstd::prelude::*;
use vstd::string::StringExecFns;

verus! {

/// What a component's pattern is parsed and compiled under. The two
/// code-point fields hold one ASCII character or nothing.
#[derive(Debug, Clone, PartialEq, Eq)]
pub struct Options {
    pub delimiter_code_point: String,
    pub prefix_code_point: String,
    pub ignore_case: bool,
}

/// Options with their strings as sequences.
pub struct OptionsView {
    pub delimiter_code_point: Seq<char>,
    pub prefix_code_point: Seq<char>,
    pub ignore_case: bool,
}

impl View for Options {
    type V = OptionsView;

    open spec fn view(&self) -> OptionsView {
        OptionsView {
            delimiter_code_point: self.delimiter_code_point@,
            prefix_code_point: self.prefix_code_point@,
            ignore_case: self.ignore_case,
        }
    }
}

/// What a part is: literal text or one of three kinds of group.
#[derive(Debug, Clone, Copy, PartialEq, Eq, Structural)]
pub enum PartType {
    FixedText,
    Regexp,
    SegmentWildcard,
    FullWildcard,
}

/// How often a part may stand: once, at most once, any number of times,
/// or at least once.
#[derive(Debug, Clone, Copy, PartialEq, Eq, Structural)]
pub enum PartModifier {
    NoModifier,
    Optional,
    ZeroOrMore,
    OneOrMore,
}

/// One part of a component's pattern. A fixed text has its text in `value`
/// and no name; a group has a name, a regular expression's source in `value`
/// if it is of kind `Regexp`, and the literal text around it in `prefix` and
/// `suffix`.
#[derive(Debug, Clone, PartialEq, Eq)]
pub struct Part {
    pub kind: PartType,
    pub value: String,
    pub modifier: PartModifier,
    pub name: String,
    pub prefix: String,
    pub suffix: String,
}

/// A part with its strings as sequences.
pub struct PartView {
    pub kind: PartType,
    pub value: Seq<char>,
    pub modifier: PartModifier,
    pub name: Seq<char>,
    pub prefix: Seq<char>,
    pub suffix: Seq<char>,
}

impl View for Part {
    type V = PartView;

    open spec fn view(&self) -> PartView {
        PartView {
            kind: self.kind,
            value: self.value@,
            modifier: self.modifier,
            name: self.name@,
            prefix: self.prefix@,
            suffix: self.suffix@,
        }
    }
}

/// The views of a list of parts.
pub open spec fn part_views(parts: Seq<Part>) -> Seq<PartView> {
    parts.map_values(|p: Part| p@)
}

/// A part with `value` and no name, prefix or suffix.
pub open spec fn plain_part(kind: PartType, value: Seq<char>, modifier: PartModifier) -> PartView {
    PartView {
        kind,
        value,
        modifier,
        name: Seq::empty(),
        prefix: Seq::empty(),
        suffix: Seq::empty(),
    }
}

/// The options of a component without delimiter and prefix.
pub open spec fn default_options() -> OptionsView {
    OptionsView {
        delimiter_code_point: Seq::empty(),
        prefix_code_point: Seq::empty(),
        ignore_case: false,
    }
}

/// The options of a hostname.
pub open spec fn hostname_options() -> OptionsView {
    OptionsView {
        delimiter_code_point: seq!['.'],
        prefix_code_point: Seq::empty(),
        ignore_case: false,
    }
}

/// The options of the path of a hierarchical URL.
pub open spec fn pathname_options() -> OptionsView {
    OptionsView {
        delimiter_code_point: seq!['/'],
        prefix_code_point: seq!['/'],
        ignore_case: false,
    }
}

impl Default for Options {
    fn default() -> (r: Options)
        ensures
            r@ == default_options(),
    {
        Options {
            delimiter_code_point: String::new(),
            prefix_code_point: String::new(),
            ignore_case: false,
        }
    }
}

impl Options {
    /// The options of a hostname: labels end at a dot.
    pub fn hostname() -> (r: Options)
        ensures
            r@ == hostname_options(),
    {
        let mut delimiter = String::new();
        delimiter.push('.');
        Options {
            delimiter_code_point: delimiter,
            prefix_code_point: String::new(),
            ignore_case: false,
        }
    }

    /// The options of the path of a hierarchical URL: segments end at a
    /// slash, and a slash before a group belongs to the group.
    pub fn pathname() -> (r: Options)
        ensures
            r@ == pathname_options(),
    {
        let mut delimiter = String::new();
        delimiter.push('/');
        let mut prefix = String::new();
        prefix.push('/');
        Options { delimiter_code_point: delimiter, prefix_code_point: prefix, ignore_case: false }
    }

    /// The regular expression of a segment wildcard: one or more code
    /// points, as few as possible, none of them the delimiter.
    pub fn generate_segment_wildcard_regexp(&self) -> (r: String)
        ensures
            r@ == segment_wildcard_regexp(self@),
    {
        let mut r = String::new();
        r.push('[');
        r.push('^');
        let escaped = escape_regexp_string(self.delimiter_code_point.as_str());
        r.append(escaped.as_str());
        r.push(']');
        r.push('+');
        r.push('?');
        assert(r@ =~= segment_wildcard_regexp(self@));
        r
    }
}

impl Part {
    /// A part with `value` and no name, prefix or suffix.
    pub fn new(kind: PartType, value: String, modifier: PartModifier) -> (r: Part)
        ensures
            r@ == plain_part(kind, value@, modifier),
    {
        Part {
            kind,
            value,
            modifier,
            name: String::new(),
            prefix: String::new(),
            suffix: String::new(),
        }
    }
}

/// The source of the regular expression of a full wildcard.
pub open spec fn full_wildcard_regexp() -> Seq<char> {
    seq!['.', '*']
}

/// Whether `c` has a meaning of its own in a regular expression.
pub open spec fn is_regexp_special(c: char) -> bool {
    c == '.' || c == '+' || c == '*' || c == '?' || c == '^' || c == '$' || c == '{' || c == '}'
        || c == '(' || c == ')' || c == '[' || c == ']' || c == '|' || c == '/' || c == '\\'
}

/// `c`, behind a backslash where `special` holds of it.
pub open spec fn escaped_char(c: char, special: bool) -> Seq<char> {
    if special {
        seq!['\\', c]
    } else {
        seq![c]
    }
}

/// `input` with a backslash before each code point that has a meaning of
/// its own in a regular expression.
pub open spec fn escape_regexp(input: Seq<char>) -> Seq<char>
    decreases input.len(),
{
    if input.len() == 0 {
        Seq::empty()
    } else {
        escape_regexp(input.drop_last()) + escaped_char(
            input.last(),
            is_regexp_special(input.last()),
        )
    }
}

/// The source of the regular expression of a segment wildcard: one or
/// more code points, as few as possible, none of them the delimiter.
pub open spec fn segment_wildcard_regexp(options: OptionsView) -> Seq<char> {
    seq!['[', '^'] + escape_regexp(options.delimiter_code_point) + seq![']', '+', '?']
}

fn regexp_special(c: char) -> (r: bool)
    ensures
        r == is_regexp_special(c),
{
    c == '.' || c == '+' || c == '*' || c == '?' || c == '^' || c == '$' || c == '{' || c == '}'
        || c == '(' || c == ')' || c == '[' || c == ']' || c == '|' || c == '/' || c == '\\'
}

/// Puts a backslash before each code point of `input` that has a meaning
/// of its own in a regular expression.
pub fn escape_regexp_string(input: &str) -> (r: String)
    ensures
        r@ == escape_regexp(input@),
{
    let chars = chars_of(input);
    let mut result = String::new();
    let mut i: usize = 0;
    while i < chars.len()
        invariant
            chars@ == input@,
            i <= chars.len(),
            result@ == escape_regexp(input@.take(i as int)),
        decreases chars.len() - i,
    {
        let c = chars[i];
        assert(input@.take(i + 1).drop_last() =~= input@.take(i as int));
        if regexp_special(c) {
            result.push('\\');
        }
        result.push(c);
        assert(result@ =~= escape_regexp(input@.take(i + 1)));
        i += 1;
    }
    assert(input@.take(i as int) =~= input@);
    result
}

/// What the parser has gathered so far: the parts, the literal text that is
/// not yet a part, and the number that the next unnamed group gets as its
/// name.
pub struct Progress {
    pub parts: Seq<PartView>,
    pub pending: Seq<char>,
    pub next_numeric_name: nat,
}

/// Whether a token of `kind` stands at `i`.
pub open spec fn has_kind(tokens: Seq<TokenView>, i: int, kind: TokenType) -> bool {
    0 <= i < tokens.len() && tokens[i].kind == kind
}

/// The group token at `i`: a regular expression, or, for a group without a
/// name, an asterisk.
pub open spec fn group_token_at(tokens: Seq<TokenView>, i: int, named: bool) -> Option<TokenView> {
    if has_kind(tokens, i, TokenType::Regexp) {
        Some(tokens[i])
    } else if !named && has_kind(tokens, i, TokenType::Asterisk) {
        Some(tokens[i])
    } else {
        None
    }
}

/// The modifier token at `i`, if one stands there.
pub open spec fn modifier_token_at(tokens: Seq<TokenView>, i: int) -> Option<TokenView> {
    if has_kind(tokens, i, TokenType::OtherModifier) || has_kind(tokens, i, TokenType::Asterisk) {
        Some(tokens[i])
    } else {
        None
    }
}

/// The name token at `i`, if one stands there.
pub open spec fn name_token_at(tokens: Seq<TokenView>, i: int) -> Option<TokenView> {
    if has_kind(tokens, i, TokenType::Name) {
        Some(tokens[i])
    } else {
        None
    }
}

/// How many tokens an optional token takes.
pub open spec fn width(t: Option<TokenView>) -> int {
    if t is Some {
        1
    } else {
        0
    }
}

/// How many tokens of literal text stand in a row from `i` on.
pub open spec fn text_run(tokens: Seq<TokenView>, i: int) -> nat
    decreases tokens.len() - i,
{
    if has_kind(tokens, i, TokenType::Char) || has_kind(tokens, i, TokenType::EscapedChar) {
        1 + text_run(tokens, i + 1)
    } else {
        0
    }
}

/// The text of the `n` tokens from `i` on.
pub open spec fn text_value(tokens: Seq<TokenView>, i: int, n: nat) -> Seq<char>
    decreases n,
{
    if n == 0 {
        Seq::empty()
    } else {
        text_value(tokens, i, (n - 1) as nat) + tokens[i + n - 1].value
    }
}

/// The modifier that a modifier token stands for.
pub open spec fn modifier_of(t: Option<TokenView>) -> PartModifier {
    match t {
        None => PartModifier::NoModifier,
        Some(t) => if t.value == seq!['?'] {
            PartModifier::Optional
        } else if t.value == seq!['*'] {
            PartModifier::ZeroOrMore
        } else {
            PartModifier::OneOrMore
        },
    }
}

/// `p` after the pending literal text, if there is any, has become a fixed
/// part.
pub open spec fn flushed(p: Progress, encoding: Encoder) -> Result<Progress, ErrorView> {
    if p.pending.len() == 0 {
        Ok(p)
    } else {
        match encoding(p.pending) {
            Err(e) => Err(e),
            Ok(value) => Ok(
                Progress {
                    parts: p.parts.push(plain_part(PartType::FixedText, value, PartModifier::NoModifier)),
                    pending: Seq::empty(),
                    next_numeric_name: p.next_numeric_name,
                },
            ),
        }
    }
}

/// The source of the regular expression that a group stands for.
pub open spec fn group_regexp(group: Option<TokenView>, options: OptionsView) -> Seq<char> {
    match group {
        None => segment_wildcard_regexp(options),
        Some(t) => if t.kind == TokenType::Asterisk {
            full_wildcard_regexp()
        } else {
            t.value
        },
    }
}

/// The kind of the part that a group with the regular expression `regexp`
/// becomes.
pub open spec fn group_kind(regexp: Seq<char>, options: OptionsView) -> PartType {
    if regexp == segment_wildcard_regexp(options) {
        PartType::SegmentWildcard
    } else if regexp == full_wildcard_regexp() {
        PartType::FullWildcard
    } else {
        PartType::Regexp
    }
}

/// `p` after a group was read: `prefix`, then a name, a group token or
/// both, then `suffix`, and behind them a modifier or none.
pub open spec fn with_part(
    p: Progress,
    prefix: Seq<char>,
    name: Option<TokenView>,
    group: Option<TokenView>,
    suffix: Seq<char>,
    modifier_token: Option<TokenView>,
    options: OptionsView,
    encoding: Encoder,
) -> Result<Progress, ErrorView> {
    let modifier = modifier_of(modifier_token);
    if name is None && group is None && modifier == PartModifier::NoModifier {
        Ok(Progress { pending: p.pending + prefix, ..p })
    } else {
        match flushed(p, encoding) {
            Err(e) => Err(e),
            Ok(p) => if name is None && group is None {
                if prefix.len() == 0 {
                    Ok(p)
                } else {
                    match encoding(prefix) {
                        Err(e) => Err(e),
                        Ok(value) => Ok(
                            Progress {
                                parts: p.parts.push(
                                    plain_part(PartType::FixedText, value, modifier),
                                ),
                                ..p
                            },
                        ),
                    }
                }
            } else {
                let regexp = group_regexp(group, options);
                let kind = group_kind(regexp, options);
                match encoding(prefix) {
                    Err(e) => Err(e),
                    Ok(encoded_prefix) => match encoding(suffix) {
                        Err(e) => Err(e),
                        Ok(encoded_suffix) => Ok(
                            Progress {
                                parts: p.parts.push(
                                    PartView {
                                        kind,
                                        value: if kind == PartType::Regexp {
                                            regexp
                                        } else {
                                            Seq::empty()
                                        },
                                        modifier,
                                        name: match name {
                                            Some(t) => t.value,
                                            None => decimal(p.next_numeric_name),
                                        },
                                        prefix: encoded_prefix,
                                        suffix: encoded_suffix,
                                    },
                                ),
                                pending: p.pending,
                                next_numeric_name: if name is Some {
                                    p.next_numeric_name
                                } else {
                                    p.next_numeric_name + 1
                                },
                            },
                        ),
                    },
                }
            },
        }
    }
}

/// The error of a token list that has no token of `expected` kind at `i`.
pub open spec fn expected_token(tokens: Seq<TokenView>, i: int, expected: TokenType) -> ErrorView {
    if 0 <= i < tokens.len() {
        ErrorView::Parser(
            ParserErrorView::ExpectedToken(expected, tokens[i].kind, tokens[i].value),
        )
    } else {
        ErrorView::Parser(
            ParserErrorView::ExpectedToken(expected, TokenType::End, Seq::empty()),
        )
    }
}

/// What one step of the parser comes to.
pub enum Step {
    /// The parser goes on at this index with this state.
    Next(int, Progress),
    Fail(ErrorView),
}

/// The step that goes on at `i` with `p`, or fails with its error.
pub open spec fn step_of(i: int, p: Result<Progress, ErrorView>) -> Step {
    match p {
        Ok(p) => Step::Next(i, p),
        Err(e) => Step::Fail(e),
    }
}

/// `p` after a group without braces was read, with `first` the text of the
/// `Char` token before it, if there was one. That text is the group's
/// prefix if it is the prefix code point of the options; else it is literal
/// text.
pub open spec fn with_bare_group(
    p: Progress,
    first: Seq<char>,
    name: Option<TokenView>,
    group: Option<TokenView>,
    modifier: Option<TokenView>,
    options: OptionsView,
    encoding: Encoder,
) -> Result<Progress, ErrorView> {
    let kept = first.len() == 0 || first == options.prefix_code_point;
    let prefix = if kept {
        first
    } else {
        Seq::empty()
    };
    let pending = if kept {
        p.pending
    } else {
        p.pending + first
    };
    match flushed(Progress { pending, ..p }, encoding) {
        Err(e) => Err(e),
        Ok(p) => with_part(p, prefix, name, group, Seq::empty(), modifier, options, encoding),
    }
}

/// The step at `i`, where a `{` token stands: literal text, a name, a group
/// token, literal text, the `}` token, a modifier.
pub open spec fn braced_group_step(
    tokens: Seq<TokenView>,
    i: int,
    p: Progress,
    options: OptionsView,
    encoding: Encoder,
) -> Step {
    let prefix_len = text_run(tokens, i + 1);
    let after_prefix = i + 1 + prefix_len;
    let name = name_token_at(tokens, after_prefix);
    let after_name = after_prefix + width(name);
    let group = group_token_at(tokens, after_name, name is Some);
    let after_group = after_name + width(group);
    let suffix_len = text_run(tokens, after_group);
    let after_suffix = after_group + suffix_len;
    if !has_kind(tokens, after_suffix, TokenType::Close) {
        Step::Fail(expected_token(tokens, after_suffix, TokenType::Close))
    } else {
        let modifier = modifier_token_at(tokens, after_suffix + 1);
        step_of(
            after_suffix + 1 + width(modifier),
            with_part(
                p,
                text_value(tokens, i + 1, prefix_len),
                name,
                group,
                text_value(tokens, after_group, suffix_len),
                modifier,
                options,
                encoding,
            ),
        )
    }
}

/// The step of the parser at `i`. It reads, in this order of preference: a
/// group without braces (one `Char` token as its prefix, a name, a group
/// token, a modifier); one token of literal text; a group in braces; the
/// end of the list.
pub open spec fn parse_step(
    tokens: Seq<TokenView>,
    i: int,
    p: Progress,
    options: OptionsView,
    encoding: Encoder,
) -> Step {
    let after_char = if has_kind(tokens, i, TokenType::Char) {
        i + 1
    } else {
        i
    };
    let name = name_token_at(tokens, after_char);
    let after_name = after_char + width(name);
    let group = group_token_at(tokens, after_name, name is Some);
    let after_group = after_name + width(group);
    if name is Some || group is Some {
        let first = if after_char > i {
            tokens[i].value
        } else {
            Seq::empty()
        };
        let modifier = modifier_token_at(tokens, after_group);
        step_of(
            after_group + width(modifier),
            with_bare_group(p, first, name, group, modifier, options, encoding),
        )
    } else if after_char > i || has_kind(tokens, i, TokenType::EscapedChar) {
        Step::Next(i + 1, Progress { pending: p.pending + tokens[i].value, ..p })
    } else if has_kind(tokens, i, TokenType::Open) {
        braced_group_step(tokens, i, p, options, encoding)
    } else if has_kind(tokens, i, TokenType::End) {
        step_of(i + 1, flushed(p, encoding))
    } else {
        match flushed(p, encoding) {
            Err(e) => Step::Fail(e),
            Ok(_) => Step::Fail(expected_token(tokens, i, TokenType::End)),
        }
    }
}

/// The parts of the tokens from `i` on, put behind what `p` holds.
pub open spec fn parse_from(
    tokens: Seq<TokenView>,
    i: int,
    p: Progress,
    options: OptionsView,
    encoding: Encoder,
) -> Result<Seq<PartView>, ErrorView>
    decreases tokens.len() - i,
{
    if i < 0 || i >= tokens.len() {
        Ok(p.parts)
    } else {
        match parse_step(tokens, i, p, options, encoding) {
            Step::Fail(e) => Err(e),
            Step::Next(j, q) => if i < j <= tokens.len() {
                parse_from(tokens, j, q, options, encoding)
            } else {
                Ok(q.parts)
            },
        }
    }
}

/// Whether the part at `j` is a group whose name an earlier group has.
pub open spec fn name_taken(parts: Seq<PartView>, j: int) -> bool {
    parts[j].kind != PartType::FixedText && exists|i: int|
        0 <= i < j && (#[trigger] parts[i]).kind != PartType::FixedText && parts[i].name
            == parts[j].name
}

/// The first part from `j` on that is a group whose name an earlier group
/// has.
pub open spec fn first_duplicate(parts: Seq<PartView>, j: int) -> Option<int>
    decreases parts.len() - j,
{
    if j < 0 || j >= parts.len() {
        None
    } else if name_taken(parts, j) {
        Some(j)
    } else {
        first_duplicate(parts, j + 1)
    }
}

/// No two groups have one name.
pub open spec fn names_distinct(parts: Seq<PartView>) -> bool {
    forall|i: int, j: int|
        0 <= i < j < parts.len() && (#[trigger] parts[i]).kind != PartType::FixedText && (
        #[trigger] parts[j]).kind != PartType::FixedText ==> parts[i].name != parts[j].name
}

/// Every group has a name.
pub open spec fn groups_named(parts: Seq<PartView>) -> bool {
    forall|i: int|
        0 <= i < parts.len() && (#[trigger] parts[i]).kind != PartType::FixedText
            ==> parts[i].name.len() > 0
}

/// `parts`, unless two of its groups have one name.
pub open spec fn checked_names(parts: Seq<PartView>) -> Result<Seq<PartView>, ErrorView> {
    match first_duplicate(parts, 0) {
        Some(j) => Err(ErrorView::Parser(ParserErrorView::DuplicateName(parts[j].name))),
        None => Ok(parts),
    }
}

/// The state of the parser before its first step.
pub open spec fn start_progress() -> Progress {
    Progress { parts: Seq::empty(), pending: Seq::empty(), next_numeric_name: 0 }
}

/// The parts of a token list.
pub open spec fn parse_tokens_spec(
    tokens: Seq<TokenView>,
    options: OptionsView,
    encoding: Encoder,
) -> Result<Seq<PartView>, ErrorView> {
    match parse_from(tokens, 0, start_progress(), options, encoding) {
        Err(e) => Err(e),
        Ok(parts) => checked_names(parts),
    }
}

/// The parts of a component's pattern: those of its tokens under the strict
/// policy.
pub open spec fn parse_pattern_spec(
    input: Seq<char>,
    options: OptionsView,
    encoding: Encoder,
) -> Result<Seq<PartView>, ErrorView> {
    match tokenize_spec(input, TokenizePolicy::Strict) {
        Err(e) => Err(e),
        Ok(tokens) => parse_tokens_spec(tokens, options, encoding),
    }
}

/// A part list or an error, with strings as sequences.
pub open spec fn parts_result_view(r: Result<Vec<Part>, Error>) -> Result<
    Seq<PartView>,
    ErrorView,
> {
    match r {
        Ok(parts) => Ok(part_views(parts@)),
        Err(e) => Err(e@),
    }
}

/// The state of the parser.
struct PatternParser {
    part_list: Vec<Part>,
    pending_fixed_value: String,
    index: usize,
    next_numeric_name: usize,
}

/// The token at `i`, if `i` names one.
pub open spec fn token_at(tokens: Seq<TokenView>, i: Option<usize>) -> Option<TokenView> {
    match i {
        Some(i) => Some(tokens[i as int]),
        None => None,
    }
}

impl PatternParser {
    closed spec fn progress(&self) -> Progress {
        Progress {
            parts: part_views(self.part_list@),
            pending: self.pending_fixed_value@,
            next_numeric_name: self.next_numeric_name as nat,
        }
    }

    /// Moves past the token at the index if it is of `kind`.
    fn try_consume_token(&mut self, tokens: &Vec<Token>, kind: TokenType) -> (r: Option<usize>)
        ensures
            final(self).progress() == old(self).progress(),
            has_kind(token_views(tokens@), old(self).index as int, kind) ==> r == Some(
                old(self).index,
            ) && final(self).index == old(self).index + 1,
            !has_kind(token_views(tokens@), old(self).index as int, kind) ==> r is None && final(self).index == old(self).index,
    {
        if self.index < tokens.len() && tokens[self.index].kind == kind {
            let i = self.index;
            self.index += 1;
            Some(i)
        } else {
            None
        }
    }

    fn try_consume_regexp_or_wildcard_token(&mut self, tokens: &Vec<Token>, named: bool) -> (r:
        Option<usize>)
        ensures
            final(self).progress() == old(self).progress(),
            token_at(token_views(tokens@), r) == group_token_at(
                token_views(tokens@),
                old(self).index as int,
                named,
            ),
            r matches Some(i) ==> i == old(self).index && i < tokens.len(),
            final(self).index == old(self).index + width(token_at(token_views(tokens@), r)),
    {
        let token = self.try_consume_token(tokens, TokenType::Regexp);
        if !named && token.is_none() {
            self.try_consume_token(tokens, TokenType::Asterisk)
        } else {
            token
        }
    }

    fn try_consume_modifier_token(&mut self, tokens: &Vec<Token>) -> (r: Option<usize>)
        ensures
            final(self).progress() == old(self).progress(),
            token_at(token_views(tokens@), r) == modifier_token_at(
                token_views(tokens@),
                old(self).index as int,
            ),
            r matches Some(i) ==> i == old(self).index && i < tokens.len(),
            final(self).index == old(self).index + width(token_at(token_views(tokens@), r)),
    {
        let token = self.try_consume_token(tokens, TokenType::OtherModifier);
        if token.is_some() {
            token
        } else {
            self.try_consume_token(tokens, TokenType::Asterisk)
        }
    }

    fn maybe_add_part_from_pending_fixed_value<E: EncodingCallback>(&mut self, callback: &E) -> (r: Result<
        (),
        Error,
    >)
        requires
            callback.is_function(),
        ensures
            final(self).index == old(self).index,
            final(self).next_numeric_name == old(self).next_numeric_name,
            match flushed(old(self).progress(), encoder(*callback)) {
                Ok(p) => r is Ok && final(self).progress() == p,
                Err(e) => r matches Err(x) && x@ == e,
            },
            groups_named(old(self).progress().parts) ==> groups_named(final(self).progress().parts),
    {
        if self.pending_fixed_value.as_str().is_empty() {
            return Ok(());
        }
        let encoded_value = match callback.canonicalize(self.pending_fixed_value.as_str()) {
            Ok(v) => v,
            Err(e) => {
                return Err(e);
            },
        };
        self.pending_fixed_value = String::new();
        let part = Part::new(PartType::FixedText, encoded_value, PartModifier::NoModifier);
        proof {
            assert(part_views(self.part_list@.push(part)) =~= part_views(self.part_list@).push(
                part@,
            ));
        }
        self.part_list.push(part);
        Ok(())
    }

    #[verifier::rlimit(40)]
    fn add_part<E: EncodingCallback>(
        &mut self,
        tokens: &Vec<Token>,
        prefix: &str,
        name_token: Option<usize>,
        group_token: Option<usize>,
        suffix: &str,
        modifier_token: Option<usize>,
        segment_wildcard: &str,
        Ghost(options): Ghost<OptionsView>,
        callback: &E,
    ) -> (r: Result<(), Error>)
        requires
            callback.is_function(),
            name_token matches Some(i) ==> i < tokens.len(),
            group_token matches Some(i) ==> i < tokens.len(),
            modifier_token matches Some(i) ==> i < tokens.len(),
            segment_wildcard@ == segment_wildcard_regexp(options),
            old(self).next_numeric_name < usize::MAX,
        ensures
            final(self).index == old(self).index,
            match with_part(
                old(self).progress(),
                prefix@,
                token_at(token_views(tokens@), name_token),
                token_at(token_views(tokens@), group_token),
                suffix@,
                token_at(token_views(tokens@), modifier_token),
                options,
                encoder(*callback),
            ) {
                Ok(p) => r is Ok && final(self).progress() == p,
                Err(e) => r matches Err(x) && x@ == e,
            },
            final(self).next_numeric_name <= old(self).next_numeric_name + 1,
            groups_named(old(self).progress().parts) && (name_token matches Some(i)
                ==> tokens@[i as int].value@.len() > 0) ==> groups_named(
                final(self).progress().parts,
            ),
    {
        let ghost tv = token_views(tokens@);
        let modifier = match modifier_token {
            None => PartModifier::NoModifier,
            Some(i) => {
                let value = tokens[i].value.as_str();
                if crate::text::str_is_char(value, '?') {
                    PartModifier::Optional
                } else if crate::text::str_is_char(value, '*') {
                    PartModifier::ZeroOrMore
                } else {
                    PartModifier::OneOrMore
                }
            },
        };
        assert(modifier == modifier_of(token_at(tv, modifier_token)));
        if name_token.is_none() && group_token.is_none() && modifier == PartModifier::NoModifier {
            self.pending_fixed_value.append(prefix);
            return Ok(());
        }
        match self.maybe_add_part_from_pending_fixed_value(callback) {
            Ok(_) => {},
            Err(e) => {
                return Err(e);
            },
        }
        if name_token.is_none() && group_token.is_none() {
            if prefix.is_empty() {
                return Ok(());
            }
            let encoded_value = match callback.canonicalize(prefix) {
                Ok(v) => v,
                Err(e) => {
                    return Err(e);
                },
            };
            let part = Part::new(PartType::FixedText, encoded_value, modifier);
            proof {
                assert(part_views(self.part_list@.push(part)) =~= part_views(
                    self.part_list@,
                ).push(part@));
            }
            self.part_list.push(part);
            return Ok(());
        }
        let regexp_value: String = match group_token {
            None => segment_wildcard.to_owned(),
            Some(i) => {
                if tokens[i].kind == TokenType::Asterisk {
                    let mut full = String::new();
                    full.push('.');
                    full.push('*');
                    assert(full@ =~= full_wildcard_regexp());
                    full
                } else {
                    tokens[i].value.clone()
                }
            },
        };
        assert(regexp_value@ == group_regexp(token_at(tv, group_token), options));
        let mut kind = PartType::Regexp;
        let mut value = regexp_value;
        if str_eq(value.as_str(), segment_wildcard) {
            kind = PartType::SegmentWildcard;
            value = String::new();
        } else if is_full_wildcard(value.as_str()) {
            kind = PartType::FullWildcard;
            value = String::new();
        }
        let name = match name_token {
            Some(i) => tokens[i].value.clone(),
            None => {
                proof {
                    crate::text::lemma_decimal_starts_with_digit(self.next_numeric_name as nat);
                }
                decimal_string(self.next_numeric_name)
            },
        };
        let encoded_prefix = match callback.canonicalize(prefix) {
            Ok(v) => v,
            Err(e) => {
                return Err(e);
            },
        };
        let encoded_suffix = match callback.canonicalize(suffix) {
            Ok(v) => v,
            Err(e) => {
                return Err(e);
            },
        };
        if name_token.is_none() {
            self.next_numeric_name += 1;
        }
        let part = Part {
            kind,
            value,
            modifier,
            name,
            prefix: encoded_prefix,
            suffix: encoded_suffix,
        };
        proof {
            assert(part_views(self.part_list@.push(part)) =~= part_views(self.part_list@).push(
                part@,
            ));
        }
        self.part_list.push(part);
        Ok(())
    }

    /// Moves past the literal text at the index and returns it.
    fn consume_text(&mut self, tokens: &Vec<Token>) -> (r: String)
        ensures
            final(self).progress() == old(self).progress(),
            final(self).index == old(self).index + text_run(
                token_views(tokens@),
                old(self).index as int,
            ),
            r@ == text_value(
                token_views(tokens@),
                old(self).index as int,
                text_run(token_views(tokens@), old(self).index as int),
            ),
    {
        let ghost tv = token_views(tokens@);
        let ghost start = self.index;
        let mut result = String::new();
        loop
            invariant
                tv == token_views(tokens@),
                self.progress() == old(self).progress(),
                start == old(self).index,
                start <= self.index <= start + text_run(tv, start as int),
                text_run(tv, start as int) == (self.index - start) + text_run(tv, self.index as int),
                result@ == text_value(tv, start as int, (self.index - start) as nat),
            decreases tokens.len() - self.index,
        {
            let mut token = self.try_consume_token(tokens, TokenType::Char);
            if token.is_none() {
                token = self.try_consume_token(tokens, TokenType::EscapedChar);
            }
            match token {
                None => {
                    return result;
                },
                Some(i) => {
                    result.append(tokens[i].value.as_str());
                },
            }
        }
    }

    /// Moves past the token at the index, which has to be of `kind`.
    fn consume_required_token(&mut self, tokens: &Vec<Token>, kind: TokenType) -> (r: Result<
        usize,
        Error,
    >)
        ensures
            final(self).progress() == old(self).progress(),
            has_kind(token_views(tokens@), old(self).index as int, kind) ==> r == Ok::<
                usize,
                Error,
            >(old(self).index) && final(self).index == old(self).index + 1,
            !has_kind(token_views(tokens@), old(self).index as int, kind) ==> final(self).index
                == old(self).index && (r matches Err(x) && x@ == expected_token(
                token_views(tokens@),
                old(self).index as int,
                kind,
            )),
    {
        match self.try_consume_token(tokens, kind) {
            Some(i) => Ok(i),
            None => {
                if self.index < tokens.len() {
                    Err(
                        Error::Parser(
                            ParserError::ExpectedToken(
                                kind,
                                tokens[self.index].kind,
                                tokens[self.index].value.clone(),
                            ),
                        ),
                    )
                } else {
                    Err(
                        Error::Parser(
                            ParserError::ExpectedToken(kind, TokenType::End, String::new()),
                        ),
                    )
                }
            },
        }
    }
}

fn is_full_wildcard(value: &str) -> (r: bool)
    ensures
        r == (value@ == full_wildcard_regexp()),
{
    if value.unicode_len() != 2 {
        return false;
    }
    let r = value.get_char(0) == '.' && value.get_char(1) == '*';
    if r {
        assert(value@ =~= full_wildcard_regexp());
    }
    r
}

/// The index of the first part that is a group whose name an earlier group
/// has.
fn find_duplicate_name(parts: &Vec<Part>) -> (r: Option<usize>)
    ensures
        match first_duplicate(part_views(parts@), 0) {
            Some(j) => r == Some(j as usize) && 0 <= j < parts.len(),
            None => r is None,
        },
{
    let ghost pv = part_views(parts@);
    let mut j: usize = 0;
    while j < parts.len()
        invariant
            pv == part_views(parts@),
            j <= parts.len(),
            first_duplicate(pv, 0) == first_duplicate(pv, j as int),
        decreases parts.len() - j,
    {
        if parts[j].kind != PartType::FixedText {
            let mut i: usize = 0;
            while i < j
                invariant
                    pv == part_views(parts@),
                    i <= j < parts.len(),
                    first_duplicate(pv, 0) == first_duplicate(pv, j as int),
                    pv[j as int].kind != PartType::FixedText,
                    forall|k: int|
                        0 <= k < i ==> !((#[trigger] pv[k]).kind != PartType::FixedText
                            && pv[k].name == pv[j as int].name),
                decreases j - i,
            {
                if parts[i].kind != PartType::FixedText && str_eq(
                    parts[i].name.as_str(),
                    parts[j].name.as_str(),
                ) {
                    assert(pv[i as int].kind != PartType::FixedText && pv[i as int].name
                        == pv[j as int].name);
                    assert(name_taken(pv, j as int));
                    return Some(j);
                }
                i += 1;
            }
            assert(!name_taken(pv, j as int));
        }
        j += 1;
    }
    None
}

proof fn lemma_none_taken(parts: Seq<PartView>, j: int)
    requires
        0 <= j <= parts.len(),
        first_duplicate(parts, j) is None,
    ensures
        forall|k: int| j <= k < parts.len() ==> !name_taken(parts, k),
    decreases parts.len() - j,
{
    if j < parts.len() {
        lemma_none_taken(parts, j + 1);
    }
}

/// A part list passes the check of its names only if no two of its groups
/// have one name.
pub proof fn lemma_checked_names_distinct(parts: Seq<PartView>)
    requires
        checked_names(parts) is Ok,
    ensures
        checked_names(parts) == Ok::<Seq<PartView>, ErrorView>(parts),
        names_distinct(parts),
{
    lemma_none_taken(parts, 0);
    assert forall|i: int, j: int|
        0 <= i < j < parts.len() && (#[trigger] parts[i]).kind != PartType::FixedText && (
        #[trigger] parts[j]).kind != PartType::FixedText implies parts[i].name
        != parts[j].name by {
        if parts[i].name == parts[j].name {
            assert(name_taken(parts, j));
        }
    }
}

impl PatternParser {
    /// Ends a group without braces, of which the tokens are read but for
    /// the modifier.
    #[verifier::rlimit(40)]
    fn close_bare_group<E: EncodingCallback>(
        &mut self,
        tokens: &Vec<Token>,
        char_token: Option<usize>,
        name_token: Option<usize>,
        group_token: Option<usize>,
        options: &Options,
        segment_wildcard: &str,
        callback: &E,
    ) -> (r: Result<(), Error>)
        requires
            callback.is_function(),
            char_token matches Some(i) ==> i < tokens.len(),
            name_token matches Some(i) ==> i < tokens.len(),
            group_token matches Some(i) ==> i < tokens.len(),
            name_token is Some || group_token is Some,
            segment_wildcard@ == segment_wildcard_regexp(options@),
            old(self).next_numeric_name < usize::MAX,
        ensures
            final(self).index == old(self).index + width(
                modifier_token_at(token_views(tokens@), old(self).index as int),
            ),
            final(self).next_numeric_name <= old(self).next_numeric_name + 1,
            match with_bare_group(
                old(self).progress(),
                match char_token {
                    Some(i) => tokens@[i as int].value@,
                    None => Seq::empty(),
                },
                token_at(token_views(tokens@), name_token),
                token_at(token_views(tokens@), group_token),
                modifier_token_at(token_views(tokens@), old(self).index as int),
                options@,
                encoder(*callback),
            ) {
                Ok(p) => r is Ok && final(self).progress() == p,
                Err(e) => r matches Err(x) && x@ == e,
            },
            groups_named(old(self).progress().parts) && (name_token matches Some(i)
                ==> tokens@[i as int].value@.len() > 0) ==> groups_named(
                final(self).progress().parts,
            ),
    {
        let modifier_token = self.try_consume_modifier_token(tokens);
        let mut prefix = String::new();
        match char_token {
            Some(i) => {
                let first = tokens[i].value.clone();
                if first.as_str().is_empty() || str_eq(
                    first.as_str(),
                    options.prefix_code_point.as_str(),
                ) {
                    prefix = first;
                } else {
                    self.pending_fixed_value.append(first.as_str());
                }
            },
            None => {},
        }
        match self.maybe_add_part_from_pending_fixed_value(callback) {
            Ok(_) => {},
            Err(e) => {
                return Err(e);
            },
        }
        let suffix = String::new();
        self.add_part(
            tokens,
            prefix.as_str(),
            name_token,
            group_token,
            suffix.as_str(),
            modifier_token,
            segment_wildcard,
            Ghost(options@),
            callback,
        )
    }

    /// Reads a group in braces, of which the opening brace is read.
    #[verifier::rlimit(40)]
    fn read_braced_group<E: EncodingCallback>(
        &mut self,
        tokens: &Vec<Token>,
        options: &Options,
        segment_wildcard: &str,
        callback: &E,
    ) -> (r: Result<(), Error>)
        requires
            callback.is_function(),
            0 < old(self).index,
            segment_wildcard@ == segment_wildcard_regexp(options@),
            old(self).next_numeric_name < usize::MAX,
            forall|i: int| 0 <= i < tokens.len() ==> token_text_fits(#[trigger] tokens@[i]@),
        ensures
            final(self).next_numeric_name <= old(self).next_numeric_name + 1,
            match braced_group_step(
                token_views(tokens@),
                old(self).index - 1,
                old(self).progress(),
                options@,
                encoder(*callback),
            ) {
                Step::Next(j, p) => r is Ok && final(self).progress() == p && final(self).index
                    == j,
                Step::Fail(e) => r matches Err(x) && x@ == e,
            },
            r is Ok ==> old(self).index <= final(self).index <= tokens.len(),
            groups_named(old(self).progress().parts) ==> groups_named(final(self).progress().parts),
    {
        let ghost tv = token_views(tokens@);
        let ghost start = self.index as int;
        let prefix = self.consume_text(tokens);
        let name_token = self.try_consume_token(tokens, TokenType::Name);
        let group_token = self.try_consume_regexp_or_wildcard_token(tokens, name_token.is_some());
        assert(token_at(tv, name_token) == name_token_at(tv, start + text_run(tv, start)));
        let suffix = self.consume_text(tokens);
        match self.consume_required_token(tokens, TokenType::Close) {
            Ok(_) => {},
            Err(e) => {
                return Err(e);
            },
        }
        let modifier_token = self.try_consume_modifier_token(tokens);
        self.add_part(
            tokens,
            prefix.as_str(),
            name_token,
            group_token,
            suffix.as_str(),
            modifier_token,
            segment_wildcard,
            Ghost(options@),
            callback,
        )
    }

    /// Takes one step of the parser.
    #[verifier::rlimit(40)]
    fn step<E: EncodingCallback>(
        &mut self,
        tokens: &Vec<Token>,
        options: &Options,
        segment_wildcard: &str,
        callback: &E,
    ) -> (r: Result<(), Error>)
        requires
            callback.is_function(),
            old(self).index < tokens.len(),
            old(self).next_numeric_name <= old(self).index,
            segment_wildcard@ == segment_wildcard_regexp(options@),
            forall|i: int| 0 <= i < tokens.len() ==> token_text_fits(#[trigger] tokens@[i]@),
        ensures
            match parse_step(
                token_views(tokens@),
                old(self).index as int,
                old(self).progress(),
                options@,
                encoder(*callback),
            ) {
                Step::Next(j, p) => r is Ok && final(self).progress() == p && final(self).index
                    == j,
                Step::Fail(e) => r matches Err(x) && x@ == e,
            },
            r is Ok ==> old(self).index < final(self).index <= tokens.len() && final(self).next_numeric_name <= final(self).index,
            groups_named(old(self).progress().parts) ==> groups_named(final(self).progress().parts),
    {
        let ghost tv = token_views(tokens@);
        let ghost start = self.index as int;
        let char_token = self.try_consume_token(tokens, TokenType::Char);
        let name_token = self.try_consume_token(tokens, TokenType::Name);
        let group_token = self.try_consume_regexp_or_wildcard_token(tokens, name_token.is_some());
        assert(token_at(tv, name_token) == name_token_at(
            tv,
            if has_kind(tv, start, TokenType::Char) {
                start + 1
            } else {
                start
            },
        ));
        if name_token.is_some() || group_token.is_some() {
            return self.close_bare_group(
                tokens,
                char_token,
                name_token,
                group_token,
                options,
                segment_wildcard,
                callback,
            );
        }
        let mut fixed_token = char_token;
        if fixed_token.is_none() {
            fixed_token = self.try_consume_token(tokens, TokenType::EscapedChar);
        }
        match fixed_token {
            Some(i) => {
                self.pending_fixed_value.append(tokens[i].value.as_str());
                return Ok(());
            },
            None => {},
        }
        let open_token = self.try_consume_token(tokens, TokenType::Open);
        if open_token.is_some() {
            return self.read_braced_group(tokens, options, segment_wildcard, callback);
        }
        match self.maybe_add_part_from_pending_fixed_value(callback) {
            Ok(_) => {},
            Err(e) => {
                return Err(e);
            },
        }
        match self.consume_required_token(tokens, TokenType::End) {
            Ok(_) => Ok(()),
            Err(e) => Err(e),
        }
    }
}

/// Parses a token list that the tokenizer made.
#[verifier::rlimit(40)]
fn parse_tokens<E: EncodingCallback>(tokens: &Vec<Token>, options: &Options, callback: &E) -> (r: Result<
    Vec<Part>,
    Error,
>)
    requires
        callback.is_function(),
        exists|n: nat| tokens_well_formed(token_views(tokens@), n),
    ensures
        parts_result_view(r) == parse_tokens_spec(token_views(tokens@), options@, encoder(*callback)),
        r matches Ok(parts) ==> groups_named(part_views(parts@)) && names_distinct(
            part_views(parts@),
        ),
{
    let ghost tv = token_views(tokens@);
    let segment_wildcard = options.generate_segment_wildcard_regexp();
    let mut parser = PatternParser {
        part_list: Vec::new(),
        pending_fixed_value: String::new(),
        index: 0,
        next_numeric_name: 0,
    };
    assert(parser.progress() == start_progress()) by {
        assert(part_views(parser.part_list@) =~= Seq::<PartView>::empty());
    }
    assert(forall|i: int| 0 <= i < tokens.len() ==> token_text_fits(#[trigger] tokens@[i]@)) by {
        assert forall|i: int| 0 <= i < tokens.len() implies token_text_fits(
            #[trigger] tokens@[i]@,
        ) by {
            assert(tv[i] == tokens@[i]@);
            assert(token_text_fits(tv[i]));
        }
    }
    while parser.index < tokens.len()
        invariant
            tv == token_views(tokens@),
            forall|i: int| 0 <= i < tokens.len() ==> token_text_fits(#[trigger] tokens@[i]@),
            segment_wildcard@ == segment_wildcard_regexp(options@),
            parser.index <= tokens.len(),
            parser.next_numeric_name <= parser.index,
            groups_named(parser.progress().parts),
            callback.is_function(),
            parse_from(tv, 0, start_progress(), options@, encoder(*callback)) == parse_from(
                tv,
                parser.index as int,
                parser.progress(),
                options@,
                encoder(*callback),
            ),
        decreases tokens.len() - parser.index,
    {
        match parser.step(tokens, options, segment_wildcard.as_str(), callback) {
            Ok(_) => {},
            Err(e) => {
                return Err(e);
            },
        }
    }
    let parts = parser.part_list;
    match find_duplicate_name(&parts) {
        Some(j) => Err(Error::Parser(ParserError::DuplicateName(parts[j].name.clone()))),
        None => {
            proof {
                lemma_checked_names_distinct(part_views(parts@));
            }
            Ok(parts)
        },
    }
}

/// Parses the pattern of one component into its parts. The literal text of
/// the pattern is brought into canonical form by `callback`: one of the
/// encodings of this library, or a `Callback` with a function of the
/// caller's own.
pub fn parse_pattern_string<E: EncodingCallback>(input: &str, options: &Options, callback: E) -> (r: Result<
    Vec<Part>,
    Error,
>)
    requires
        callback.is_function(),
    ensures
        parts_result_view(r) == parse_pattern_spec(input@, options@, encoder(callback)),
        r matches Ok(parts) ==> groups_named(part_views(parts@)) && names_distinct(
            part_views(parts@),
        ),
{
    match tokenize(input, TokenizePolicy::Strict) {
        Err(e) => Err(e),
        Ok(tokens) => parse_tokens(&tokens, options, &callback),
    }
}

} // verus!
