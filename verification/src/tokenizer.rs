//! The tokenizer: a pattern string becomes a list of tokens.

use crate::error::Error;
use crate::error::ErrorView;
use crate::error::TokenizerError;
use crate::text::chars_of;
use crate::text::is_ascii_digit;
use crate::text::string_of;
use crate::unicode::id_continue;
use crate::unicode::id_start;
use crate::unicode::is_ascii_letter;
use crate::unicode::is_id_continue;
use crate::unicode::is_id_start;
use vstd::prelude::*;

verus! {

/// The kinds of token.
#[derive(Clone, Copy, Debug, PartialEq, Eq, Structural)]
pub enum TokenType {
    Open,
    Close,
    Regexp,
    Name,
    Char,
    EscapedChar,
    OtherModifier,
    Asterisk,
    End,
    InvalidChar,
}

/// A token: its kind, the code-point offset at which it starts in the
/// tokenized string, and the text that it carries.
#[derive(Clone, Debug, PartialEq, Eq)]
pub struct Token {
    pub kind: TokenType,
    pub index: usize,
    pub value: String,
}

/// What the tokenizer does where no token can be read: fail, or put an
/// `InvalidChar` token there and go on.
#[derive(Clone, Copy, Debug, PartialEq, Eq, Structural)]
pub enum TokenizePolicy {
    Strict,
    Lenient,
}

/// A token with its text as a sequence of code points.
pub struct TokenView {
    pub kind: TokenType,
    pub index: nat,
    pub value: Seq<char>,
}

impl View for Token {
    type V = TokenView;

    open spec fn view(&self) -> TokenView {
        TokenView { kind: self.kind, index: self.index as nat, value: self.value@ }
    }
}

/// Whether `c` is an ASCII code point.
pub open spec fn is_ascii_char(c: char) -> bool {
    (c as u32) < 128
}

/// Whether `c` may stand in a name: as its first code point if `first`,
/// else as a later one. A name starts with a letter, a dollar sign or an
/// underscore and goes on with letters, digits, dollar signs, underscores
/// and the two joiners; what a letter or a digit is beyond ASCII, the
/// identifier classes of Unicode say.
pub open spec fn valid_name_code_point(c: char, first: bool) -> bool {
    if is_ascii_char(c) {
        is_ascii_letter(c) || c == '$' || c == '_' || (!first && is_ascii_digit(c))
    } else if first {
        id_start(c)
    } else {
        id_continue(c) || c == '\u{200C}' || c == '\u{200D}'
    }
}

/// Whether `code_point` may stand in a name: as its first code point if
/// `first`, else as a later one.
pub fn is_valid_name_codepoint(code_point: char, first: bool) -> (r: bool)
    ensures
        r == valid_name_code_point(code_point, first),
{
    if first {
        is_id_start(code_point) || code_point == '$' || code_point == '_'
    } else {
        is_id_continue(code_point) || code_point == '$' || code_point == '\u{200C}' || code_point
            == '\u{200D}'
    }
}

/// Where the longest run of name code points ends that starts at `start`,
/// seen from `pos` within that run.
pub open spec fn name_end(input: Seq<char>, start: int, pos: int) -> int
    decreases input.len() - pos,
{
    if start <= pos < input.len() && valid_name_code_point(input[pos], pos == start) {
        name_end(input, start, pos + 1)
    } else {
        pos
    }
}

/// How the scan of an embedded regular expression ends.
pub enum RegexpScan {
    /// The offset just behind the closing parenthesis.
    Closed(int),
    Failed(TokenizerError),
}

/// The error of an embedded regular expression that holds a code point
/// beyond ASCII.
pub open spec fn err_non_ascii() -> TokenizerError {
    TokenizerError::InvalidRegex("non ascii character was used")
}

/// The error of an embedded regular expression that starts with a
/// question mark.
pub open spec fn err_leading_question() -> TokenizerError {
    TokenizerError::InvalidRegex("must not start with ?")
}

/// The error of an embedded regular expression that ends with an opening
/// parenthesis.
pub open spec fn err_nested_open() -> TokenizerError {
    TokenizerError::InvalidRegex("nested groups not closed")
}

/// The error of an embedded regular expression with a group of its own
/// that does not start with a question mark.
pub open spec fn err_nested_capture() -> TokenizerError {
    TokenizerError::InvalidRegex("nested groups must start with ?")
}

/// The error of an embedded regular expression that is not closed.
pub open spec fn err_unclosed() -> TokenizerError {
    TokenizerError::InvalidRegex("missing closing )")
}

/// The error of an embedded regular expression that is empty.
pub open spec fn err_empty_regexp() -> TokenizerError {
    TokenizerError::InvalidRegex("length must be > 0")
}

/// The scan of an embedded regular expression whose text starts at `start`
/// (just behind its opening parenthesis), continued at `pos` with `depth`
/// parentheses open.
pub open spec fn scan_regexp_from(input: Seq<char>, start: int, pos: int, depth: nat) -> RegexpScan
    decreases input.len() - pos,
{
    if pos < 0 || pos >= input.len() {
        RegexpScan::Failed(err_unclosed())
    } else if !is_ascii_char(input[pos]) {
        RegexpScan::Failed(err_non_ascii())
    } else if pos == start && input[pos] == '?' {
        RegexpScan::Failed(err_leading_question())
    } else if input[pos] == '\\' {
        if pos == input.len() - 1 {
            RegexpScan::Failed(TokenizerError::IncompleteEscapeCode)
        } else if !is_ascii_char(input[pos + 1]) {
            RegexpScan::Failed(err_non_ascii())
        } else {
            scan_regexp_from(input, start, pos + 2, depth)
        }
    } else if input[pos] == ')' {
        if depth <= 1 {
            RegexpScan::Closed(pos + 1)
        } else {
            scan_regexp_from(input, start, pos + 1, (depth - 1) as nat)
        }
    } else if input[pos] == '(' {
        if pos == input.len() - 1 {
            RegexpScan::Failed(err_nested_open())
        } else if input[pos + 1] != '?' {
            RegexpScan::Failed(err_nested_capture())
        } else {
            scan_regexp_from(input, start, pos + 1, depth + 1)
        }
    } else {
        scan_regexp_from(input, start, pos + 1, depth)
    }
}

/// What stands at an offset of the input.
pub enum Lexeme {
    /// A token of `kind` that ends before `next` and carries the `len` code
    /// points from `from` on.
    Token { kind: TokenType, next: int, from: int, len: int },
    /// No token can be read; a lenient tokenizer resumes at `next`.
    Invalid { error: TokenizerError, next: int },
}

/// What stands at `pos`, a valid offset of `input`.
pub open spec fn lexeme_at(input: Seq<char>, pos: int) -> Lexeme {
    let c = input[pos];
    if c == '*' {
        Lexeme::Token { kind: TokenType::Asterisk, next: pos + 1, from: pos, len: 1 }
    } else if c == '+' || c == '?' {
        Lexeme::Token { kind: TokenType::OtherModifier, next: pos + 1, from: pos, len: 1 }
    } else if c == '\\' {
        if pos == input.len() - 1 {
            Lexeme::Invalid { error: TokenizerError::IncompleteEscapeCode, next: pos + 1 }
        } else {
            Lexeme::Token { kind: TokenType::EscapedChar, next: pos + 2, from: pos + 1, len: 1 }
        }
    } else if c == '{' {
        Lexeme::Token { kind: TokenType::Open, next: pos + 1, from: pos, len: 1 }
    } else if c == '}' {
        Lexeme::Token { kind: TokenType::Close, next: pos + 1, from: pos, len: 1 }
    } else if c == ':' {
        let end = name_end(input, pos + 1, pos + 1);
        if end <= pos + 1 {
            Lexeme::Invalid { error: TokenizerError::InvalidName, next: pos + 1 }
        } else {
            Lexeme::Token { kind: TokenType::Name, next: end, from: pos + 1, len: end - (pos + 1) }
        }
    } else if c == '(' {
        match scan_regexp_from(input, pos + 1, pos + 1, 1) {
            RegexpScan::Failed(error) => Lexeme::Invalid { error, next: pos + 1 },
            RegexpScan::Closed(end) => {
                if end - (pos + 1) - 1 <= 0 {
                    Lexeme::Invalid { error: err_empty_regexp(), next: pos + 1 }
                } else {
                    Lexeme::Token {
                        kind: TokenType::Regexp,
                        next: end,
                        from: pos + 1,
                        len: end - (pos + 1) - 1,
                    }
                }
            },
        }
    } else {
        Lexeme::Token { kind: TokenType::Char, next: pos + 1, from: pos, len: 1 }
    }
}

/// The offset behind a lexeme.
pub open spec fn lexeme_next(l: Lexeme) -> int {
    match l {
        Lexeme::Token { next, .. } => next,
        Lexeme::Invalid { next, .. } => next,
    }
}

/// The token that ends every token list.
pub open spec fn end_token(input: Seq<char>) -> TokenView {
    TokenView { kind: TokenType::End, index: input.len(), value: Seq::empty() }
}

/// `first` put before the tokens of `rest`, if there are any.
pub open spec fn prepend_token(
    first: TokenView,
    rest: Result<Seq<TokenView>, ErrorView>,
) -> Result<Seq<TokenView>, ErrorView> {
    match rest {
        Ok(tokens) => Ok(seq![first] + tokens),
        Err(e) => Err(e),
    }
}

/// The tokens of `input` from the offset `pos` on.
pub open spec fn tokens_from(input: Seq<char>, pos: int, policy: TokenizePolicy) -> Result<
    Seq<TokenView>,
    ErrorView,
>
    decreases input.len() - pos,
{
    if pos < 0 || pos >= input.len() {
        Ok(seq![end_token(input)])
    } else {
        match lexeme_at(input, pos) {
            Lexeme::Token { kind, next, from, len } => if !(pos < next <= input.len()) {
                Ok(seq![end_token(input)])
            } else {
                prepend_token(
                    TokenView { kind, index: pos as nat, value: input.subrange(from, from + len) },
                    tokens_from(input, next, policy),
                )
            },
            Lexeme::Invalid { error, next } => if policy == TokenizePolicy::Strict {
                Err(ErrorView::Tokenizer(error, next as nat))
            } else if !(pos < next <= input.len()) {
                Ok(seq![end_token(input)])
            } else {
                prepend_token(
                    TokenView {
                        kind: TokenType::InvalidChar,
                        index: pos as nat,
                        value: input.subrange(pos, next),
                    },
                    tokens_from(input, next, policy),
                )
            },
        }
    }
}

/// The token list of `input`: each code point belongs to exactly one token,
/// and an `End` token closes the list. A strict tokenizer fails at the first
/// place where no token can be read; a lenient one covers the place with an
/// `InvalidChar` token and goes on.
pub open spec fn tokenize_spec(input: Seq<char>, policy: TokenizePolicy) -> Result<
    Seq<TokenView>,
    ErrorView,
> {
    tokens_from(input, 0, policy)
}

/// The views of a list of tokens.
pub open spec fn token_views(tokens: Seq<Token>) -> Seq<TokenView> {
    tokens.map_values(|t: Token| t@)
}

/// What `tokenize` returns, with strings as sequences.
pub open spec fn tokens_result_view(r: Result<Vec<Token>, Error>) -> Result<
    Seq<TokenView>,
    ErrorView,
> {
    match r {
        Ok(tokens) => Ok(token_views(tokens@)),
        Err(e) => Err(e@),
    }
}

/// `before` put before the tokens of `rest`, if there are any.
pub open spec fn prepend_tokens(
    before: Seq<TokenView>,
    rest: Result<Seq<TokenView>, ErrorView>,
) -> Result<Seq<TokenView>, ErrorView> {
    match rest {
        Ok(tokens) => Ok(before + tokens),
        Err(e) => Err(e),
    }
}

/// What a token's text can be, given its kind.
pub open spec fn token_text_fits(t: TokenView) -> bool {
    match t.kind {
        TokenType::Open => t.value == seq!['{'],
        TokenType::Close => t.value == seq!['}'],
        TokenType::Asterisk => t.value == seq!['*'],
        TokenType::OtherModifier => t.value == seq!['+'] || t.value == seq!['?'],
        TokenType::Char => t.value.len() == 1,
        TokenType::EscapedChar => t.value.len() == 1,
        TokenType::InvalidChar => t.value.len() == 1,
        TokenType::Name => t.value.len() >= 1,
        TokenType::Regexp => t.value.len() >= 1,
        TokenType::End => t.value.len() == 0,
    }
}

/// The first `count` tokens start at increasing offsets below `limit`, none
/// of them is an `End` token, and the text of each fits its kind.
pub open spec fn tokens_ascend(tokens: Seq<TokenView>, count: int, limit: int) -> bool {
    &&& forall|i: int|
        0 <= i < count ==> (#[trigger] tokens[i]).kind != TokenType::End && tokens[i].index < limit
            && token_text_fits(tokens[i])
    &&& forall|i: int, j: int|
        0 <= i < j < count ==> (#[trigger] tokens[i]).index < (#[trigger] tokens[j]).index
}

/// A token list as the tokenizer makes it for an input of `len` code points:
/// tokens at increasing offsets, closed by the one `End` token, which stands
/// at `len`.
pub open spec fn tokens_well_formed(tokens: Seq<TokenView>, len: nat) -> bool {
    &&& tokens.len() >= 1
    &&& tokens.last() == (TokenView { kind: TokenType::End, index: len, value: Seq::empty() })
    &&& tokens_ascend(tokens, tokens.len() - 1, len as int)
}

/// A name ends within the input.
pub proof fn lemma_name_end_bounds(input: Seq<char>, start: int, pos: int)
    requires
        0 <= start <= pos <= input.len(),
    ensures
        pos <= name_end(input, start, pos) <= input.len(),
    decreases input.len() - pos,
{
    if start <= pos < input.len() && valid_name_code_point(input[pos], pos == start) {
        lemma_name_end_bounds(input, start, pos + 1);
    }
}

/// An embedded regular expression is closed within the input.
pub proof fn lemma_scan_regexp_bounds(input: Seq<char>, start: int, pos: int, depth: nat)
    requires
        0 <= start <= pos <= input.len(),
    ensures
        scan_regexp_from(input, start, pos, depth) matches RegexpScan::Closed(end) ==> pos < end
            <= input.len(),
    decreases input.len() - pos,
{
    if pos < input.len() && is_ascii_char(input[pos]) && !(pos == start && input[pos] == '?') {
        if input[pos] == '\\' {
            if pos != input.len() - 1 && is_ascii_char(input[pos + 1]) {
                lemma_scan_regexp_bounds(input, start, pos + 2, depth);
            }
        } else if input[pos] == ')' {
            if depth > 1 {
                lemma_scan_regexp_bounds(input, start, pos + 1, (depth - 1) as nat);
            }
        } else if input[pos] == '(' {
            if pos != input.len() - 1 && input[pos + 1] == '?' {
                lemma_scan_regexp_bounds(input, start, pos + 1, depth + 1);
            }
        } else {
            lemma_scan_regexp_bounds(input, start, pos + 1, depth);
        }
    }
}

/// Every lexeme ends behind its start and within the input, and a token's
/// text lies in between.
pub proof fn lemma_lexeme_bounds(input: Seq<char>, pos: int)
    requires
        0 <= pos < input.len(),
    ensures
        pos < lexeme_next(lexeme_at(input, pos)) <= input.len(),
        lexeme_at(input, pos) matches Lexeme::Token { kind, next, from, len } ==> pos <= from
            && 1 <= len && from + len <= next && kind != TokenType::End && kind
            != TokenType::InvalidChar && token_text_fits(
            TokenView { kind, index: pos as nat, value: input.subrange(from, from + len) },
        ),
        lexeme_at(input, pos) matches Lexeme::Invalid { error, next } ==> next == pos + 1,
{
    let c = input[pos];
    if c == ':' {
        lemma_name_end_bounds(input, pos + 1, pos + 1);
    }
    if c == '(' {
        lemma_scan_regexp_bounds(input, pos + 1, pos + 1, 1);
    }
    match lexeme_at(input, pos) {
        Lexeme::Token { kind, next, from, len } => {
            let value = input.subrange(from, from + len);
            if len == 1 {
                assert(value =~= seq![input[from]]);
            }
        },
        Lexeme::Invalid { .. } => {},
    }
}

/// Where the name ends that starts at `start`.
fn scan_name(input: &Vec<char>, start: usize) -> (end: usize)
    requires
        start <= input.len(),
    ensures
        end == name_end(input@, start as int, start as int),
        start <= end <= input.len(),
{
    let mut pos: usize = start;
    while pos < input.len()
        invariant
            start <= pos <= input.len(),
            name_end(input@, start as int, start as int) == name_end(
                input@,
                start as int,
                pos as int,
            ),
        decreases input.len() - pos,
    {
        if !is_valid_name_codepoint(input[pos], pos == start) {
            return pos;
        }
        pos += 1;
    }
    pos
}

/// The outcome of a scan, with mathematical offsets.
pub open spec fn regexp_scan_view(r: Result<usize, TokenizerError>) -> RegexpScan {
    match r {
        Ok(end) => RegexpScan::Closed(end as int),
        Err(e) => RegexpScan::Failed(e),
    }
}

fn is_ascii_code_point(c: char) -> (r: bool)
    ensures
        r == is_ascii_char(c),
{
    (c as u32) < 128
}

/// Scans the embedded regular expression whose text starts at `start`.
#[verifier::rlimit(40)]
fn scan_regexp(input: &Vec<char>, start: usize) -> (r: Result<usize, TokenizerError>)
    requires
        start <= input.len(),
    ensures
        regexp_scan_view(r) == scan_regexp_from(input@, start as int, start as int, 1),
        r matches Ok(end) ==> start < end <= input.len(),
{
    let mut depth: usize = 1;
    let mut pos: usize = start;
    while pos < input.len()
        invariant
            start <= pos <= input.len(),
            1 <= depth <= pos - start + 1,
            scan_regexp_from(input@, start as int, start as int, 1) == scan_regexp_from(
                input@,
                start as int,
                pos as int,
                depth as nat,
            ),
        decreases input.len() - pos,
    {
        let c = input[pos];
        if !is_ascii_code_point(c) {
            return Err(TokenizerError::InvalidRegex("non ascii character was used"));
        }
        if pos == start && c == '?' {
            return Err(TokenizerError::InvalidRegex("must not start with ?"));
        }
        if c == '\\' {
            if pos == input.len() - 1 {
                return Err(TokenizerError::IncompleteEscapeCode);
            }
            if !is_ascii_code_point(input[pos + 1]) {
                return Err(TokenizerError::InvalidRegex("non ascii character was used"));
            }
            pos += 2;
        } else if c == ')' {
            if depth == 1 {
                return Ok(pos + 1);
            }
            depth -= 1;
            pos += 1;
        } else if c == '(' {
            if pos == input.len() - 1 {
                return Err(TokenizerError::InvalidRegex("nested groups not closed"));
            }
            if input[pos + 1] != '?' {
                return Err(TokenizerError::InvalidRegex("nested groups must start with ?"));
            }
            depth += 1;
            pos += 1;
        } else {
            pos += 1;
        }
    }
    Err(TokenizerError::InvalidRegex("missing closing )"))
}

/// A lexeme with machine offsets.
enum Lexed {
    Token { kind: TokenType, next: usize, from: usize, len: usize },
    Invalid { error: TokenizerError, next: usize },
}

impl View for Lexed {
    type V = Lexeme;

    closed spec fn view(&self) -> Lexeme {
        match *self {
            Lexed::Token { kind, next, from, len } => Lexeme::Token {
                kind,
                next: next as int,
                from: from as int,
                len: len as int,
            },
            Lexed::Invalid { error, next } => Lexeme::Invalid { error, next: next as int },
        }
    }
}

/// Reads what stands at `pos`.
#[verifier::rlimit(40)]
fn read_lexeme(input: &Vec<char>, pos: usize) -> (l: Lexed)
    requires
        pos < input.len(),
    ensures
        l@ == lexeme_at(input@, pos as int),
{
    proof {
        lemma_lexeme_bounds(input@, pos as int);
    }
    let c = input[pos];
    if c == '*' {
        Lexed::Token { kind: TokenType::Asterisk, next: pos + 1, from: pos, len: 1 }
    } else if c == '+' || c == '?' {
        Lexed::Token { kind: TokenType::OtherModifier, next: pos + 1, from: pos, len: 1 }
    } else if c == '\\' {
        if pos == input.len() - 1 {
            Lexed::Invalid { error: TokenizerError::IncompleteEscapeCode, next: pos + 1 }
        } else {
            Lexed::Token { kind: TokenType::EscapedChar, next: pos + 2, from: pos + 1, len: 1 }
        }
    } else if c == '{' {
        Lexed::Token { kind: TokenType::Open, next: pos + 1, from: pos, len: 1 }
    } else if c == '}' {
        Lexed::Token { kind: TokenType::Close, next: pos + 1, from: pos, len: 1 }
    } else if c == ':' {
        let end = scan_name(input, pos + 1);
        if end <= pos + 1 {
            Lexed::Invalid { error: TokenizerError::InvalidName, next: pos + 1 }
        } else {
            Lexed::Token { kind: TokenType::Name, next: end, from: pos + 1, len: end - (pos + 1) }
        }
    } else if c == '(' {
        match scan_regexp(input, pos + 1) {
            Err(error) => Lexed::Invalid { error, next: pos + 1 },
            Ok(end) => {
                if end - (pos + 1) - 1 == 0 {
                    Lexed::Invalid {
                        error: TokenizerError::InvalidRegex("length must be > 0"),
                        next: pos + 1,
                    }
                } else {
                    Lexed::Token {
                        kind: TokenType::Regexp,
                        next: end,
                        from: pos + 1,
                        len: end - (pos + 1) - 1,
                    }
                }
            },
        }
    } else {
        Lexed::Token { kind: TokenType::Char, next: pos + 1, from: pos, len: 1 }
    }
}

/// Splits `input` into tokens. Under the strict policy the first place where
/// no token can be read ends the work with `Error::Tokenizer`, which carries
/// the offset just behind the code point that opened the failed token; under
/// the lenient policy that code point becomes an `InvalidChar` token.
#[verifier::rlimit(40)]
pub fn tokenize(input: &str, policy: TokenizePolicy) -> (r: Result<Vec<Token>, Error>)
    ensures
        tokens_result_view(r) == tokenize_spec(input@, policy),
        policy == TokenizePolicy::Lenient ==> r is Ok,
        r matches Ok(tokens) ==> tokens_well_formed(token_views(tokens@), input@.len()),
{
    let chars = chars_of(input);
    let mut tokens: Vec<Token> = Vec::new();
    let mut index: usize = 0;
    assert(prepend_tokens(token_views(tokens@), tokens_from(input@, 0, policy)) == tokens_from(
        input@,
        0,
        policy,
    )) by {
        match tokens_from(input@, 0, policy) {
            Ok(ts) => {
                assert(token_views(tokens@) + ts =~= ts);
            },
            Err(_) => {},
        }
    }
    while index < chars.len()
        invariant
            chars@ == input@,
            index <= chars.len(),
            tokenize_spec(input@, policy) == prepend_tokens(
                token_views(tokens@),
                tokens_from(input@, index as int, policy),
            ),
            tokens_ascend(token_views(tokens@), tokens@.len() as int, index as int),
        decreases chars.len() - index,
    {
        proof {
            lemma_lexeme_bounds(input@, index as int);
        }
        let ghost before = token_views(tokens@);
        let ghost old_index = index;
        match read_lexeme(&chars, index) {
            Lexed::Token { kind, next, from, len } => {
                let token = Token { kind, index, value: string_of(&chars, from, from + len) };
                proof {
                    lemma_prepend_step(before, token@, tokens_from(input@, next as int, policy));
                }
                tokens.push(token);
                index = next;
            },
            Lexed::Invalid { error, next } => {
                if policy == TokenizePolicy::Strict {
                    return Err(Error::Tokenizer(error, next));
                }
                let token = Token {
                    kind: TokenType::InvalidChar,
                    index,
                    value: string_of(&chars, index, next),
                };
                proof {
                    lemma_prepend_step(before, token@, tokens_from(input@, next as int, policy));
                }
                tokens.push(token);
                index = next;
            },
        }
        proof {
            assert(token_views(tokens@) =~= before.push(tokens@.last()@));
        }
    }
    let end = Token { kind: TokenType::End, index, value: String::new() };
    proof {
        assert(token_views(tokens@.push(end)) =~= token_views(tokens@) + seq![end_token(input@)]);
    }
    tokens.push(end);
    Ok(tokens)
}

/// Putting `t` before `rest` and then `before` before that is putting
/// `before` with `t` at its end before `rest`.
proof fn lemma_prepend_step(
    before: Seq<TokenView>,
    t: TokenView,
    rest: Result<Seq<TokenView>, ErrorView>,
)
    ensures
        prepend_tokens(before, prepend_token(t, rest)) == prepend_tokens(before.push(t), rest),
{
    match rest {
        Ok(ts) => {
            assert(before + (seq![t] + ts) =~= before.push(t) + ts);
        },
        Err(_) => {},
    }
}

} // verus!
