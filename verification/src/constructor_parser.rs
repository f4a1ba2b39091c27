//! The constructor-string parser: a pattern written as one URL-shaped
//! string is cut into the patterns of its components.

use crate::canonicalize_and_process::Encoding;
use crate::canonicalize_and_process::encoder;
use crate::component::Component;
use crate::component::compile_spec;
use crate::component::matches_special_scheme;
use crate::error::Error;
use crate::error::ErrorView;
use crate::init::InitView;
use crate::init::UrlPatternInit;
use crate::init::empty_init;
use crate::parser::Options;
use crate::parser::default_options;
use crate::text::chars_of;
use crate::text::str_is_char;
use crate::text::string_of;
use crate::tokenizer::Token;
use crate::tokenizer::TokenType;
use crate::tokenizer::TokenView;
use crate::tokenizer::TokenizePolicy;
use crate::tokenizer::token_views;
use crate::tokenizer::tokenize;
use crate::tokenizer::tokenize_spec;
use crate::tokenizer::tokens_well_formed;
use vstd::prelude::*;

verus! {

/// The component that the parser is reading.
#[derive(Clone, Copy, Debug, PartialEq, Eq, Structural)]
pub enum ConstructorStringParserState {
    Init,
    Protocol,
    Authority,
    Username,
    Password,
    Hostname,
    Port,
    Pathname,
    Search,
    Hash,
    Done,
}

/// The place of a state in the order in which the states follow each
/// other.
pub open spec fn rank(state: ConstructorStringParserState) -> nat {
    match state {
        ConstructorStringParserState::Init => 0,
        ConstructorStringParserState::Protocol => 1,
        ConstructorStringParserState::Authority => 2,
        ConstructorStringParserState::Username => 3,
        ConstructorStringParserState::Password => 4,
        ConstructorStringParserState::Hostname => 5,
        ConstructorStringParserState::Port => 6,
        ConstructorStringParserState::Pathname => 7,
        ConstructorStringParserState::Search => 8,
        ConstructorStringParserState::Hash => 9,
        ConstructorStringParserState::Done => 10,
    }
}

/// The parser's state of work.
pub struct Machine {
    pub result: InitView,
    /// The index of the token at which the current component starts.
    pub component_start: int,
    pub token_index: int,
    pub token_increment: int,
    /// How many braces are open.
    pub group_depth: nat,
    pub standard: bool,
    pub state: ConstructorStringParserState,
}

/// The token at `i`, or the last one where `i` is no index.
pub open spec fn safe_token(tokens: Seq<TokenView>, i: int) -> TokenView {
    if 0 <= i < tokens.len() {
        tokens[i]
    } else {
        tokens.last()
    }
}

/// Whether plain text stands at `i` that is the one code point `c`: a
/// token of literal text, escaped or not, or one that the tokenizer could
/// not read.
#[verifier::opaque]
pub open spec fn is_plain_char(tokens: Seq<TokenView>, i: int, c: char) -> bool {
    let t = safe_token(tokens, i);
    t.value == seq![c] && (t.kind == TokenType::Char || t.kind == TokenType::EscapedChar || t.kind
        == TokenType::InvalidChar)
}

/// Whether a question mark stands at `i` that starts the search: one in
/// plain text, or one that cannot be a modifier because no group stands
/// before it.
#[verifier::opaque]
pub open spec fn is_search_prefix_at(tokens: Seq<TokenView>, i: int) -> bool {
    is_plain_char(tokens, i, '?') || (safe_token(tokens, i).value == seq!['?'] && (i <= 0 || {
        let kind = safe_token(tokens, i - 1).kind;
        kind != TokenType::Name && kind != TokenType::Regexp && kind != TokenType::Close && kind
            != TokenType::Asterisk
    }))
}

/// Whether two slashes in plain text follow the token at `i`.
#[verifier::opaque]
pub open spec fn authority_slashes_follow(tokens: Seq<TokenView>, i: int) -> bool {
    is_plain_char(tokens, i + 1, '/') && is_plain_char(tokens, i + 2, '/')
}

/// The input from the token at `from` up to the token at `to`.
#[verifier::opaque]
pub open spec fn component_text(input: Seq<char>, tokens: Seq<TokenView>, from: int, to: int)
    -> Seq<char> {
    let a = safe_token(tokens, from).index;
    let b = safe_token(tokens, to).index;
    if a <= b <= input.len() {
        input.subrange(a as int, b as int)
    } else {
        Seq::empty()
    }
}

/// `result` with `text` as the component that `state` names, if it names
/// one.
pub open spec fn with_component(
    result: InitView,
    state: ConstructorStringParserState,
    text: Seq<char>,
) -> InitView {
    match state {
        ConstructorStringParserState::Protocol => InitView { protocol: Some(text), ..result },
        ConstructorStringParserState::Username => InitView { username: Some(text), ..result },
        ConstructorStringParserState::Password => InitView { password: Some(text), ..result },
        ConstructorStringParserState::Hostname => InitView { hostname: Some(text), ..result },
        ConstructorStringParserState::Port => InitView { port: Some(text), ..result },
        ConstructorStringParserState::Pathname => InitView { pathname: Some(text), ..result },
        ConstructorStringParserState::Search => InitView { search: Some(text), ..result },
        ConstructorStringParserState::Hash => InitView { hash: Some(text), ..result },
        _ => result,
    }
}

/// `m` after a change of state: the component that was being read gets the
/// input from its start up to the current token, and the next component
/// starts `skip` tokens further on.
#[verifier::opaque]
pub open spec fn changed(
    m: Machine,
    state: ConstructorStringParserState,
    skip: int,
    input: Seq<char>,
    tokens: Seq<TokenView>,
) -> Machine {
    Machine {
        result: with_component(
            m.result,
            m.state,
            component_text(input, tokens, m.component_start, m.token_index),
        ),
        state,
        component_start: m.token_index + skip,
        token_index: m.token_index + skip,
        token_increment: 0,
        ..m
    }
}

/// `m` back at the start of the current component.
pub open spec fn rewound(m: Machine) -> Machine {
    Machine { token_index: m.component_start, token_increment: 0, ..m }
}

/// `m` moved on by its token increment.
pub open spec fn advanced(m: Machine) -> Machine {
    Machine { token_index: m.token_index + m.token_increment, ..m }
}

/// Whether a pattern that starts with the protocol pattern `protocol` is
/// one of a standard URL: whether the protocol, compiled, matches a
/// special scheme.
#[verifier::opaque]
pub open spec fn protocol_is_standard(protocol: Seq<char>) -> Result<bool, ErrorView> {
    match compile_spec(Some(protocol), encoder(Encoding::Protocol), default_options()) {
        Err(e) => Err(e),
        Ok(c) => Ok(matches_special_scheme(c.regexp)),
    }
}

/// What the end of the input makes of `m`.
#[verifier::opaque]
pub open spec fn end_step(m: Machine, input: Seq<char>, tokens: Seq<TokenView>) -> Machine {
    if m.state == ConstructorStringParserState::Init {
        let m = rewound(m);
        if is_plain_char(tokens, m.token_index, '#') {
            advanced(changed(m, ConstructorStringParserState::Hash, 1, input, tokens))
        } else if is_search_prefix_at(tokens, m.token_index) {
            let m = changed(m, ConstructorStringParserState::Search, 1, input, tokens);
            advanced(Machine { result: InitView { hash: Some(Seq::empty()), ..m.result }, ..m })
        } else {
            let m = changed(m, ConstructorStringParserState::Pathname, 0, input, tokens);
            advanced(
                Machine {
                    result: InitView {
                        search: Some(Seq::empty()),
                        hash: Some(Seq::empty()),
                        ..m.result
                    },
                    ..m
                },
            )
        }
    } else if m.state == ConstructorStringParserState::Authority {
        advanced(Machine { state: ConstructorStringParserState::Hostname, ..rewound(m) })
    } else {
        changed(m, ConstructorStringParserState::Done, 0, input, tokens)
    }
}

/// `result` with every component but the protocol empty.
pub open spec fn seeded(result: InitView) -> InitView {
    InitView {
        username: Some(Seq::empty()),
        password: Some(Seq::empty()),
        hostname: Some(Seq::empty()),
        port: Some(Seq::empty()),
        pathname: Some(Seq::empty()),
        search: Some(Seq::empty()),
        hash: Some(Seq::empty()),
        ..result
    }
}

/// What the colon behind the protocol makes of `m`.
#[verifier::opaque]
pub open spec fn protocol_step(m: Machine, input: Seq<char>, tokens: Seq<TokenView>) -> Result<
    Machine,
    ErrorView,
> {
    match protocol_is_standard(component_text(input, tokens, m.component_start, m.token_index)) {
        Err(e) => Err(e),
        Ok(standard) => {
            let standard = m.standard || standard;
            let m = Machine {
                standard,
                result: if standard {
                    InitView { pathname: Some(seq!['/']), ..m.result }
                } else {
                    m.result
                },
                ..m
            };
            if authority_slashes_follow(tokens, m.token_index) {
                Ok(changed(m, ConstructorStringParserState::Authority, 3, input, tokens))
            } else if standard {
                Ok(changed(m, ConstructorStringParserState::Authority, 1, input, tokens))
            } else {
                Ok(changed(m, ConstructorStringParserState::Pathname, 1, input, tokens))
            }
        },
    }
}

/// What a token outside braces makes of `m`, by the state that `m` is in.
#[verifier::opaque]
pub open spec fn state_step(m: Machine, input: Seq<char>, tokens: Seq<TokenView>) -> Result<
    Machine,
    ErrorView,
> {
    let i = m.token_index;
    let slash = is_plain_char(tokens, i, '/');
    let colon = is_plain_char(tokens, i, ':');
    let at = is_plain_char(tokens, i, '@');
    let number = is_plain_char(tokens, i, '#');
    let question = is_search_prefix_at(tokens, i);
    match m.state {
        ConstructorStringParserState::Init => if colon {
            Ok(
                Machine {
                    result: seeded(m.result),
                    state: ConstructorStringParserState::Protocol,
                    ..rewound(m)
                },
            )
        } else {
            Ok(m)
        },
        ConstructorStringParserState::Protocol => if colon {
            protocol_step(m, input, tokens)
        } else {
            Ok(m)
        },
        ConstructorStringParserState::Authority => if at {
            Ok(Machine { state: ConstructorStringParserState::Username, ..rewound(m) })
        } else if slash || question || number {
            Ok(Machine { state: ConstructorStringParserState::Hostname, ..rewound(m) })
        } else {
            Ok(m)
        },
        ConstructorStringParserState::Username => if colon {
            Ok(changed(m, ConstructorStringParserState::Password, 1, input, tokens))
        } else if at {
            Ok(changed(m, ConstructorStringParserState::Hostname, 1, input, tokens))
        } else {
            Ok(m)
        },
        ConstructorStringParserState::Password => if at {
            Ok(changed(m, ConstructorStringParserState::Hostname, 1, input, tokens))
        } else {
            Ok(m)
        },
        ConstructorStringParserState::Hostname => if colon {
            Ok(changed(m, ConstructorStringParserState::Port, 1, input, tokens))
        } else if slash {
            Ok(changed(m, ConstructorStringParserState::Pathname, 0, input, tokens))
        } else if question {
            Ok(changed(m, ConstructorStringParserState::Search, 1, input, tokens))
        } else if number {
            Ok(changed(m, ConstructorStringParserState::Hash, 1, input, tokens))
        } else {
            Ok(m)
        },
        ConstructorStringParserState::Port => if slash {
            Ok(changed(m, ConstructorStringParserState::Pathname, 0, input, tokens))
        } else if question {
            Ok(changed(m, ConstructorStringParserState::Search, 1, input, tokens))
        } else if number {
            Ok(changed(m, ConstructorStringParserState::Hash, 1, input, tokens))
        } else {
            Ok(m)
        },
        ConstructorStringParserState::Pathname => if question {
            Ok(changed(m, ConstructorStringParserState::Search, 1, input, tokens))
        } else if number {
            Ok(changed(m, ConstructorStringParserState::Hash, 1, input, tokens))
        } else {
            Ok(m)
        },
        ConstructorStringParserState::Search => if number {
            Ok(changed(m, ConstructorStringParserState::Hash, 1, input, tokens))
        } else {
            Ok(m)
        },
        _ => Ok(m),
    }
}

/// `m` moved on by its token increment, if there is one.
pub open spec fn advanced_result(m: Result<Machine, ErrorView>) -> Result<Machine, ErrorView> {
    match m {
        Ok(m) => Ok(advanced(m)),
        Err(e) => Err(e),
    }
}

/// One step of the parser, on the token at the index of `m`. An opening
/// brace, and every token within braces but the one that closes them, is
/// passed over. No state changes within braces.
#[verifier::opaque]
pub open spec fn machine_step(m: Machine, input: Seq<char>, tokens: Seq<TokenView>) -> Result<
    Machine,
    ErrorView,
> {
    let m = Machine { token_increment: 1, ..m };
    let kind = safe_token(tokens, m.token_index).kind;
    if kind == TokenType::End {
        Ok(end_step(m, input, tokens))
    } else if kind == TokenType::Open {
        Ok(advanced(Machine { group_depth: m.group_depth + 1, ..m }))
    } else if m.group_depth > 0 && kind != TokenType::Close {
        Ok(advanced(m))
    } else {
        let m = if m.group_depth > 0 {
            Machine { group_depth: (m.group_depth - 1) as nat, ..m }
        } else {
            m
        };
        advanced_result(state_step(m, input, tokens))
    }
}

/// `n` times the rank of `state`.
pub open spec fn weight(state: ConstructorStringParserState, n: int) -> int {
    match state {
        ConstructorStringParserState::Init => 0,
        ConstructorStringParserState::Protocol => n,
        ConstructorStringParserState::Authority => 2 * n,
        ConstructorStringParserState::Username => 3 * n,
        ConstructorStringParserState::Password => 4 * n,
        ConstructorStringParserState::Hostname => 5 * n,
        ConstructorStringParserState::Port => 6 * n,
        ConstructorStringParserState::Pathname => 7 * n,
        ConstructorStringParserState::Search => 8 * n,
        ConstructorStringParserState::Hash => 9 * n,
        ConstructorStringParserState::Done => 10 * n,
    }
}

/// How far the parser has come: states count before tokens.
pub open spec fn progress_of(m: Machine, tokens: Seq<TokenView>) -> int {
    weight(m.state, (tokens.len() + 1) as int) + m.token_index
}

/// The components that the parser ends with when it goes on from `m`.
pub open spec fn run_from(m: Machine, input: Seq<char>, tokens: Seq<TokenView>) -> Result<
    InitView,
    ErrorView,
>
    decreases 11 * (tokens.len() + 1) - progress_of(m, tokens),
{
    if m.state == ConstructorStringParserState::Done || m.token_index < 0 || m.token_index
        >= tokens.len() {
        Ok(m.result)
    } else {
        match machine_step(m, input, tokens) {
            Err(e) => Err(e),
            Ok(next) => if progress_of(next, tokens) > progress_of(m, tokens) && 0
                <= next.token_index <= tokens.len() {
                run_from(next, input, tokens)
            } else {
                Ok(next.result)
            },
        }
    }
}

/// The parser before its first step.
pub open spec fn start_machine() -> Machine {
    Machine {
        result: empty_init(),
        component_start: 0,
        token_index: 0,
        token_increment: 1,
        group_depth: 0,
        standard: false,
        state: ConstructorStringParserState::Init,
    }
}

/// The components of a constructor string: the parser runs over its tokens
/// under the lenient policy, from the first token on.
pub open spec fn parse_constructor_spec(input: Seq<char>) -> Result<InitView, ErrorView> {
    match tokenize_spec(input, TokenizePolicy::Lenient) {
        Err(e) => Err(e),
        Ok(tokens) => run_from(start_machine(), input, tokens),
    }
}

/// A later state is further on than an earlier one, whatever the token.
pub proof fn lemma_rank_outweighs_tokens(m: Machine, next: Machine, tokens: Seq<TokenView>)
    requires
        rank(next.state) > rank(m.state),
        m.token_index <= tokens.len(),
        0 <= next.token_index,
    ensures
        progress_of(next, tokens) > progress_of(m, tokens),
{
}

/// The parser's state of work, with machine numbers.
struct ConstructorStringParser {
    result: UrlPatternInit,
    component_start: usize,
    token_index: usize,
    token_increment: usize,
    group_depth: u128,
    should_treat_as_standard_url: bool,
    state: ConstructorStringParserState,
}

/// The token at `index`, or the last one where `index` is no index.
fn get_safe_token(tokens: &Vec<Token>, index: usize) -> (r: &Token)
    requires
        tokens.len() > 0,
    ensures
        r@ == safe_token(token_views(tokens@), index as int),
{
    if index < tokens.len() {
        &tokens[index]
    } else {
        &tokens[tokens.len() - 1]
    }
}

fn is_non_special_pattern_char(tokens: &Vec<Token>, index: usize, value: char) -> (r: bool)
    requires
        tokens.len() > 0,
    ensures
        r == is_plain_char(token_views(tokens@), index as int, value),
{
    proof {
        reveal(is_plain_char);
    }
    let token = get_safe_token(tokens, index);
    if !str_is_char(token.value.as_str(), value) {
        false
    } else {
        token.kind == TokenType::Char || token.kind == TokenType::EscapedChar || token.kind
            == TokenType::InvalidChar
    }
}

impl ConstructorStringParser {
    closed spec fn machine(&self) -> Machine {
        Machine {
            result: self.result@,
            component_start: self.component_start as int,
            token_index: self.token_index as int,
            token_increment: self.token_increment as int,
            group_depth: self.group_depth as nat,
            standard: self.should_treat_as_standard_url,
            state: self.state,
        }
    }

    fn rewind(&mut self)
        ensures
            final(self).machine() == rewound(old(self).machine()),
    {
        self.token_index = self.component_start;
        self.token_increment = 0;
    }

    fn is_hash_prefix(&self, tokens: &Vec<Token>) -> (r: bool)
        requires
            tokens.len() > 0,
        ensures
            r == is_plain_char(token_views(tokens@), self.token_index as int, '#'),
    {
        is_non_special_pattern_char(tokens, self.token_index, '#')
    }

    fn is_protocol_suffix(&self, tokens: &Vec<Token>) -> (r: bool)
        requires
            tokens.len() > 0,
        ensures
            r == is_plain_char(token_views(tokens@), self.token_index as int, ':'),
    {
        is_non_special_pattern_char(tokens, self.token_index, ':')
    }

    fn is_search_prefix(&self, tokens: &Vec<Token>) -> (r: bool)
        requires
            tokens.len() > 0,
        ensures
            r == is_search_prefix_at(token_views(tokens@), self.token_index as int),
    {
        proof {
            reveal(is_search_prefix_at);
        }
        if is_non_special_pattern_char(tokens, self.token_index, '?') {
            return true;
        }
        if !str_is_char(get_safe_token(tokens, self.token_index).value.as_str(), '?') {
            return false;
        }
        if self.token_index == 0 {
            return true;
        }
        let previous = get_safe_token(tokens, self.token_index - 1);
        !(previous.kind == TokenType::Name || previous.kind == TokenType::Regexp || previous.kind
            == TokenType::Close || previous.kind == TokenType::Asterisk)
    }

    fn is_password_prefix(&self, tokens: &Vec<Token>) -> (r: bool)
        requires
            tokens.len() > 0,
        ensures
            r == is_plain_char(token_views(tokens@), self.token_index as int, ':'),
    {
        is_non_special_pattern_char(tokens, self.token_index, ':')
    }

    fn is_port_prefix(&self, tokens: &Vec<Token>) -> (r: bool)
        requires
            tokens.len() > 0,
        ensures
            r == is_plain_char(token_views(tokens@), self.token_index as int, ':'),
    {
        is_non_special_pattern_char(tokens, self.token_index, ':')
    }

    fn is_pathname_start(&self, tokens: &Vec<Token>) -> (r: bool)
        requires
            tokens.len() > 0,
        ensures
            r == is_plain_char(token_views(tokens@), self.token_index as int, '/'),
    {
        is_non_special_pattern_char(tokens, self.token_index, '/')
    }

    fn is_identity_terminator(&self, tokens: &Vec<Token>) -> (r: bool)
        requires
            tokens.len() > 0,
        ensures
            r == is_plain_char(token_views(tokens@), self.token_index as int, '@'),
    {
        is_non_special_pattern_char(tokens, self.token_index, '@')
    }

    fn next_is_authority_slashes(&self, tokens: &Vec<Token>) -> (r: bool)
        requires
            tokens.len() > 0,
            self.token_index < tokens.len(),
            token_views(tokens@).last().kind == TokenType::End,
        ensures
            r == authority_slashes_follow(token_views(tokens@), self.token_index as int),
            r ==> self.token_index + 3 < tokens.len(),
    {
        let ghost tv = token_views(tokens@);
        proof {
            reveal(is_plain_char);
            reveal(authority_slashes_follow);
        }
        assert(tv.last() == tv[tokens.len() - 1]);
        if !is_non_special_pattern_char(tokens, self.token_index + 1, '/') {
            return false;
        }
        assert(self.token_index + 1 < tokens.len() - 1);
        let r = is_non_special_pattern_char(tokens, self.token_index + 2, '/');
        assert(r ==> self.token_index + 2 < tokens.len() - 1);
        r
    }

    fn make_component_string(&self, input: &Vec<char>, tokens: &Vec<Token>) -> (r: String)
        requires
            tokens.len() > 0,
        ensures
            r@ == component_text(
                input@,
                token_views(tokens@),
                self.component_start as int,
                self.token_index as int,
            ),
    {
        proof {
            reveal(component_text);
        }
        let to = get_safe_token(tokens, self.token_index).index;
        let from = get_safe_token(tokens, self.component_start).index;
        if from <= to && to <= input.len() {
            string_of(input, from, to)
        } else {
            String::new()
        }
    }

    fn change_state(
        &mut self,
        input: &Vec<char>,
        tokens: &Vec<Token>,
        state: ConstructorStringParserState,
        skip: usize,
    )
        requires
            tokens.len() > 0,
            old(self).token_index + skip <= tokens.len(),
        ensures
            final(self).machine() == changed(
                old(self).machine(),
                state,
                skip as int,
                input@,
                token_views(tokens@),
            ),
            final(self).state == state,
            final(self).token_index == old(self).token_index + skip,
            final(self).component_start == final(self).token_index,
            final(self).token_increment == 0,
            final(self).group_depth == old(self).group_depth,
            final(self).should_treat_as_standard_url == old(self).should_treat_as_standard_url,
            final(self).result@.base_url == old(self).result@.base_url,
    {
        proof {
            reveal(changed);
        }
        match self.state {
            ConstructorStringParserState::Protocol => {
                self.result.protocol = Some(self.make_component_string(input, tokens));
            },
            ConstructorStringParserState::Username => {
                self.result.username = Some(self.make_component_string(input, tokens));
            },
            ConstructorStringParserState::Password => {
                self.result.password = Some(self.make_component_string(input, tokens));
            },
            ConstructorStringParserState::Hostname => {
                self.result.hostname = Some(self.make_component_string(input, tokens));
            },
            ConstructorStringParserState::Port => {
                self.result.port = Some(self.make_component_string(input, tokens));
            },
            ConstructorStringParserState::Pathname => {
                self.result.pathname = Some(self.make_component_string(input, tokens));
            },
            ConstructorStringParserState::Search => {
                self.result.search = Some(self.make_component_string(input, tokens));
            },
            ConstructorStringParserState::Hash => {
                self.result.hash = Some(self.make_component_string(input, tokens));
            },
            _ => {},
        }
        self.state = state;
        self.token_index = self.token_index + skip;
        self.component_start = self.token_index;
        self.token_increment = 0;
    }

    fn rewind_and_set_state(&mut self, state: ConstructorStringParserState)
        ensures
            final(self).machine() == (Machine { state, ..rewound(old(self).machine()) }),
    {
        self.rewind();
        self.state = state;
    }

    fn is_group_open(&self, tokens: &Vec<Token>) -> (r: bool)
        requires
            self.token_index < tokens.len(),
        ensures
            r == (token_views(tokens@)[self.token_index as int].kind == TokenType::Open),
    {
        tokens[self.token_index].kind == TokenType::Open
    }

    fn is_group_close(&self, tokens: &Vec<Token>) -> (r: bool)
        requires
            self.token_index < tokens.len(),
        ensures
            r == (token_views(tokens@)[self.token_index as int].kind == TokenType::Close),
    {
        tokens[self.token_index].kind == TokenType::Close
    }

    /// Compiles the protocol that was read and notes whether it matches a
    /// special scheme.
    fn compute_should_treat_as_standard_url(&mut self, input: &Vec<char>, tokens: &Vec<Token>) -> (r:
        Result<(), Error>)
        requires
            tokens.len() > 0,
        ensures
            match protocol_is_standard(
                component_text(
                    input@,
                    token_views(tokens@),
                    old(self).component_start as int,
                    old(self).token_index as int,
                ),
            ) {
                Err(e) => r matches Err(x) && x@ == e,
                Ok(standard) => r is Ok && final(self).machine() == (Machine {
                    standard: old(self).machine().standard || standard,
                    ..old(self).machine()
                }),
            },
            final(self).result@.base_url == old(self).result@.base_url,
            final(self).group_depth == old(self).group_depth,
            final(self).token_index == old(self).token_index,
            final(self).state == old(self).state,
    {
        proof {
            reveal(protocol_is_standard);
        }
        let protocol_string = self.make_component_string(input, tokens);
        let protocol_component = match Component::compile(
            Some(protocol_string.as_str()),
            Encoding::Protocol,
            Options::default(),
        ) {
            Ok(c) => c,
            Err(e) => {
                return Err(e);
            },
        };
        if protocol_component.protocol_component_matches_special_scheme() {
            self.should_treat_as_standard_url = true;
        }
        Ok(())
    }
}

/// What the parser works on: the input and its tokens, and what is known
/// of them.
pub open spec fn parser_input_ok(input: Seq<char>, tokens: Seq<TokenView>) -> bool {
    tokens_well_formed(tokens, input.len())
}

/// A token of plain text, and a question mark, is not the last token.
proof fn lemma_delimiter_is_not_last(tokens: Seq<TokenView>, len: nat, i: int, c: char)
    requires
        tokens_well_formed(tokens, len),
        0 <= i < tokens.len(),
        is_plain_char(tokens, i, c) || (c == '?' && is_search_prefix_at(tokens, i)),
    ensures
        i + 1 < tokens.len(),
{
    reveal(is_plain_char);
    reveal(is_search_prefix_at);
    if i == tokens.len() - 1 {
        assert(tokens[i] == tokens.last());
        assert(tokens[i].value.len() == 0);
        assert(seq![c].len() == 1);
    }
}

impl ConstructorStringParser {
    closed spec fn bounded(&self, tokens: Seq<TokenView>) -> bool {
        &&& self.token_index < tokens.len()
        &&& self.state != ConstructorStringParserState::Done
        &&& self.group_depth < 0xffff_ffff_ffff_ffff_ffff_ffff
    }

    /// The step at the end of the input.
    #[verifier::rlimit(40)]
    fn step_at_end(&mut self, input: &Vec<char>, tokens: &Vec<Token>)
        requires
            parser_input_ok(input@, token_views(tokens@)),
            old(self).bounded(token_views(tokens@)),
            old(self).token_increment == 1,
            old(self).component_start <= old(self).token_index,
        ensures
            final(self).machine() == end_step(old(self).machine(), input@, token_views(tokens@)),
            final(self).token_index <= tokens.len(),
            final(self).component_start <= final(self).token_index,
            rank(final(self).state) > rank(old(self).state),
            final(self).group_depth == old(self).group_depth,
            final(self).result@.base_url == old(self).result@.base_url,
    {
        let ghost tv = token_views(tokens@);
        proof {
            reveal(end_step);
        }
        if self.state == ConstructorStringParserState::Init {
            self.rewind();
            if self.is_hash_prefix(tokens) {
                proof {
                    lemma_delimiter_is_not_last(tv, input@.len(), self.token_index as int, '#');
                }
                self.change_state(input, tokens, ConstructorStringParserState::Hash, 1);
            } else if self.is_search_prefix(tokens) {
                proof {
                    lemma_delimiter_is_not_last(tv, input@.len(), self.token_index as int, '?');
                }
                self.change_state(input, tokens, ConstructorStringParserState::Search, 1);
                self.result.hash = Some(String::new());
            } else {
                self.change_state(input, tokens, ConstructorStringParserState::Pathname, 0);
                self.result.search = Some(String::new());
                self.result.hash = Some(String::new());
            }
            self.token_index = self.token_index + self.token_increment;
        } else if self.state == ConstructorStringParserState::Authority {
            self.rewind_and_set_state(ConstructorStringParserState::Hostname);
            self.token_index = self.token_index + self.token_increment;
        } else {
            self.change_state(input, tokens, ConstructorStringParserState::Done, 0);
        }
    }

    /// The step at the colon behind the protocol.
    #[verifier::rlimit(40)]
    fn step_behind_protocol(&mut self, input: &Vec<char>, tokens: &Vec<Token>) -> (r: Result<
        (),
        Error,
    >)
        requires
            parser_input_ok(input@, token_views(tokens@)),
            old(self).bounded(token_views(tokens@)),
            old(self).state == ConstructorStringParserState::Protocol,
            is_plain_char(token_views(tokens@), old(self).token_index as int, ':'),
        ensures
            match protocol_step(old(self).machine(), input@, token_views(tokens@)) {
                Ok(m) => r is Ok && final(self).machine() == m,
                Err(e) => r matches Err(x) && x@ == e,
            },
            r is Ok ==> final(self).token_index < tokens.len() && final(self).component_start
                == final(self).token_index && rank(final(self).state) > rank(old(self).state)
                && final(self).token_increment == 0 && final(self).group_depth == old(self).group_depth,
            final(self).result@.base_url == old(self).result@.base_url,
    {
        let ghost tv = token_views(tokens@);
        proof {
            reveal(protocol_step);
            lemma_delimiter_is_not_last(tv, input@.len(), self.token_index as int, ':');
        }
        match self.compute_should_treat_as_standard_url(input, tokens) {
            Ok(_) => {},
            Err(e) => {
                return Err(e);
            },
        }
        if self.should_treat_as_standard_url {
            let mut slash = String::new();
            slash.push('/');
            assert(slash@ =~= seq!['/']);
            self.result.pathname = Some(slash);
        }
        let mut next_state = ConstructorStringParserState::Pathname;
        let mut skip: usize = 1;
        if self.next_is_authority_slashes(tokens) {
            next_state = ConstructorStringParserState::Authority;
            skip = 3;
        } else if self.should_treat_as_standard_url {
            next_state = ConstructorStringParserState::Authority;
        }
        self.change_state(input, tokens, next_state, skip);
        Ok(())
    }

    /// The step at a token outside braces.
    #[verifier::rlimit(40)]
    fn step_in_state(&mut self, input: &Vec<char>, tokens: &Vec<Token>) -> (r: Result<(), Error>)
        requires
            parser_input_ok(input@, token_views(tokens@)),
            old(self).bounded(token_views(tokens@)),
            old(self).token_increment == 1,
            old(self).component_start <= old(self).token_index,
        ensures
            match state_step(old(self).machine(), input@, token_views(tokens@)) {
                Ok(m) => r is Ok && final(self).machine() == m,
                Err(e) => r matches Err(x) && x@ == e,
            },
            r is Ok ==> final(self).token_index + final(self).token_increment <= tokens.len()
                && final(self).component_start <= final(self).token_index && (rank(
                final(self).state,
            ) > rank(old(self).state) || (final(self).state == old(self).state && final(self).token_index == old(self).token_index && final(self).token_increment == 1)),
            r is Ok ==> final(self).group_depth == old(self).group_depth,
            final(self).result@.base_url == old(self).result@.base_url,
    {
        let ghost tv = token_views(tokens@);
        let ghost n = input@.len();
        let ghost i = self.token_index as int;
        proof {
            reveal(state_step);
            if is_plain_char(tv, i, '/') {
                lemma_delimiter_is_not_last(tv, n, i, '/');
            }
            if is_plain_char(tv, i, ':') {
                lemma_delimiter_is_not_last(tv, n, i, ':');
            }
            if is_plain_char(tv, i, '@') {
                lemma_delimiter_is_not_last(tv, n, i, '@');
            }
            if is_plain_char(tv, i, '#') {
                lemma_delimiter_is_not_last(tv, n, i, '#');
            }
            if is_search_prefix_at(tv, i) {
                lemma_delimiter_is_not_last(tv, n, i, '?');
            }
        }
        match self.state {
            ConstructorStringParserState::Init => {
                if self.is_protocol_suffix(tokens) {
                    self.result.username = Some(String::new());
                    self.result.password = Some(String::new());
                    self.result.hostname = Some(String::new());
                    self.result.port = Some(String::new());
                    self.result.pathname = Some(String::new());
                    self.result.search = Some(String::new());
                    self.result.hash = Some(String::new());
                    self.rewind_and_set_state(ConstructorStringParserState::Protocol);
                }
            },
            ConstructorStringParserState::Protocol => {
                if self.is_protocol_suffix(tokens) {
                    return self.step_behind_protocol(input, tokens);
                }
            },
            ConstructorStringParserState::Authority => {
                if self.is_identity_terminator(tokens) {
                    self.rewind_and_set_state(ConstructorStringParserState::Username);
                } else if self.is_pathname_start(tokens) || self.is_search_prefix(tokens)
                    || self.is_hash_prefix(tokens) {
                    self.rewind_and_set_state(ConstructorStringParserState::Hostname);
                }
            },
            ConstructorStringParserState::Username => {
                if self.is_password_prefix(tokens) {
                    self.change_state(input, tokens, ConstructorStringParserState::Password, 1);
                } else if self.is_identity_terminator(tokens) {
                    self.change_state(input, tokens, ConstructorStringParserState::Hostname, 1);
                }
            },
            ConstructorStringParserState::Password => {
                if self.is_identity_terminator(tokens) {
                    self.change_state(input, tokens, ConstructorStringParserState::Hostname, 1);
                }
            },
            ConstructorStringParserState::Hostname => {
                if self.is_port_prefix(tokens) {
                    self.change_state(input, tokens, ConstructorStringParserState::Port, 1);
                } else if self.is_pathname_start(tokens) {
                    self.change_state(input, tokens, ConstructorStringParserState::Pathname, 0);
                } else if self.is_search_prefix(tokens) {
                    self.change_state(input, tokens, ConstructorStringParserState::Search, 1);
                } else if self.is_hash_prefix(tokens) {
                    self.change_state(input, tokens, ConstructorStringParserState::Hash, 1);
                }
            },
            ConstructorStringParserState::Port => {
                if self.is_pathname_start(tokens) {
                    self.change_state(input, tokens, ConstructorStringParserState::Pathname, 0);
                } else if self.is_search_prefix(tokens) {
                    self.change_state(input, tokens, ConstructorStringParserState::Search, 1);
                } else if self.is_hash_prefix(tokens) {
                    self.change_state(input, tokens, ConstructorStringParserState::Hash, 1);
                }
            },
            ConstructorStringParserState::Pathname => {
                if self.is_search_prefix(tokens) {
                    self.change_state(input, tokens, ConstructorStringParserState::Search, 1);
                } else if self.is_hash_prefix(tokens) {
                    self.change_state(input, tokens, ConstructorStringParserState::Hash, 1);
                }
            },
            ConstructorStringParserState::Search => {
                if self.is_hash_prefix(tokens) {
                    self.change_state(input, tokens, ConstructorStringParserState::Hash, 1);
                }
            },
            _ => {},
        }
        Ok(())
    }

    /// One step of the parser.
    #[verifier::rlimit(40)]
    fn step(&mut self, input: &Vec<char>, tokens: &Vec<Token>) -> (r: Result<(), Error>)
        requires
            parser_input_ok(input@, token_views(tokens@)),
            old(self).bounded(token_views(tokens@)),
            old(self).component_start <= old(self).token_index,
        ensures
            match machine_step(old(self).machine(), input@, token_views(tokens@)) {
                Ok(m) => r is Ok && final(self).machine() == m,
                Err(e) => r matches Err(x) && x@ == e,
            },
            r is Ok ==> final(self).token_index <= tokens.len() && final(self).component_start
                <= final(self).token_index && progress_of(
                final(self).machine(),
                token_views(tokens@),
            ) > progress_of(old(self).machine(), token_views(tokens@)),
            r is Ok ==> final(self).group_depth <= old(self).group_depth + 1,
            final(self).result@.base_url == old(self).result@.base_url,
    {
        let ghost tv = token_views(tokens@);
        let ghost before = self.machine();
        proof {
            reveal(machine_step);
        }
        self.token_increment = 1;
        assert(tv[self.token_index as int] == tokens@[self.token_index as int]@);
        if tokens[self.token_index].kind == TokenType::End {
            self.step_at_end(input, tokens);
            proof {
                lemma_rank_outweighs_tokens(before, self.machine(), tv);
            }
            return Ok(());
        }
        assert(self.token_index < tokens.len() && self.token_increment == 1);
        if self.is_group_open(tokens) {
            self.group_depth = self.group_depth + 1;
            self.token_index = self.token_index + self.token_increment;
            return Ok(());
        }
        if self.group_depth > 0 {
            if self.is_group_close(tokens) {
                self.group_depth = self.group_depth - 1;
            } else {
                self.token_index = self.token_index + self.token_increment;
                return Ok(());
            }
        }
        match self.step_in_state(input, tokens) {
            Ok(_) => {},
            Err(e) => {
                return Err(e);
            },
        }
        self.token_index = self.token_index + self.token_increment;
        proof {
            if rank(self.state) > rank(before.state) {
                lemma_rank_outweighs_tokens(before, self.machine(), tv);
            }
        }
        Ok(())
    }
}

/// An init record or an error, with strings as sequences.
pub open spec fn init_result_view(r: Result<UrlPatternInit, Error>) -> Result<InitView, ErrorView> {
    match r {
        Ok(init) => Ok(init@),
        Err(e) => Err(e@),
    }
}

/// Cuts a constructor string into the patterns of its components. The
/// result has no base URL.
#[verifier::rlimit(40)]
pub fn parse_constructor_string(input: &str) -> (r: Result<UrlPatternInit, Error>)
    ensures
        init_result_view(r) == parse_constructor_spec(input@),
        r matches Ok(init) ==> init.base_url is None,
{
    let tokens = match tokenize(input, TokenizePolicy::Lenient) {
        Ok(tokens) => tokens,
        Err(e) => {
            return Err(e);
        },
    };
    let chars = chars_of(input);
    let ghost tv = token_views(tokens@);
    let mut parser = ConstructorStringParser {
        result: UrlPatternInit::default(),
        component_start: 0,
        token_index: 0,
        token_increment: 1,
        group_depth: 0,
        should_treat_as_standard_url: false,
        state: ConstructorStringParserState::Init,
    };
    while parser.state != ConstructorStringParserState::Done && parser.token_index < tokens.len()
        invariant
            chars@ == input@,
            tv == token_views(tokens@),
            tokenize_spec(input@, TokenizePolicy::Lenient) == Ok::<Seq<TokenView>, ErrorView>(tv),
            parser_input_ok(input@, tv),
            parser.token_index <= tokens.len(),
            parser.component_start <= parser.token_index,
            parser.group_depth <= progress_of(parser.machine(), tv),
            parser.result@.base_url is None,
            run_from(start_machine(), input@, tv) == run_from(parser.machine(), input@, tv),
        decreases 11 * (tokens.len() + 1) - progress_of(parser.machine(), tv),
    {
        let ghost before = parser.machine();
        assert(run_from(before, input@, tv) == match machine_step(before, input@, tv) {
            Err(e) => Err::<InitView, ErrorView>(e),
            Ok(next) => if progress_of(next, tv) > progress_of(before, tv) && 0
                <= next.token_index <= tv.len() {
                run_from(next, input@, tv)
            } else {
                Ok(next.result)
            },
        });
        match parser.step(&chars, &tokens) {
            Ok(_) => {},
            Err(e) => {
                return Err(e);
            },
        }
    }
    Ok(parser.result)
}

} // verus!
