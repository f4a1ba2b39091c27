//! A compiled URL pattern: eight components, and the match of an input
//! against all of them.

use crate::canonicalize_and_process::Encoding;
use crate::canonicalize_and_process::encoder;
use crate::canonicalize_and_process::ProcessType;
use crate::canonicalize_and_process::default_port;
use crate::canonicalize_and_process::is_special_scheme;
use crate::canonicalize_and_process::is_special_scheme_spec;
use crate::canonicalize_and_process::special_scheme_default_port;
use crate::component::Component;
use crate::component::ComponentView;
use crate::component::compile_spec;
use crate::component::matches_special_scheme;
use crate::component::paired_groups;
use crate::error::Error;
use crate::error::ErrorView;
use crate::init::InitView;
use crate::init::UrlPatternInit;
use crate::init::components_of_url;
use crate::init::hostname_pattern_is_ipv6_address;
use crate::init::is_ipv6_pattern;
use crate::init::process_spec;
use crate::match_result::ComponentResultView;
use crate::match_result::ResultView;
use crate::match_result::UrlPatternResult;
use crate::matcher::matcher_match;
use crate::parser::Options;
use crate::parser::OptionsView;
use crate::parser::default_options;
use crate::parser::hostname_options;
use crate::parser::pathname_options;
use crate::text::as_text;
use crate::text::option_string_view;
use crate::text::owned_or_empty;
use crate::text::str_eq;
use crate::text::text_or_empty;
use vstd::prelude::*;

verus! {

/// A pattern that URLs are matched against.
#[derive(Debug)]
pub struct UrlPattern {
    pub protocol: Component,
    pub username: Component,
    pub password: Component,
    pub hostname: Component,
    pub port: Component,
    pub pathname: Component,
    pub search: Component,
    pub hash: Component,
}

/// A pattern as the views of its components.
pub struct PatternView {
    pub protocol: ComponentView,
    pub username: ComponentView,
    pub password: ComponentView,
    pub hostname: ComponentView,
    pub port: ComponentView,
    pub pathname: ComponentView,
    pub search: ComponentView,
    pub hash: ComponentView,
}

impl View for UrlPattern {
    type V = PatternView;

    open spec fn view(&self) -> PatternView {
        PatternView {
            protocol: self.protocol@,
            username: self.username@,
            password: self.password@,
            hostname: self.hostname@,
            port: self.port@,
            pathname: self.pathname@,
            search: self.search@,
            hash: self.hash@,
        }
    }
}

/// What a pattern is matched against: an init record or a URL.
#[derive(Debug, PartialEq, Eq)]
pub enum UrlPatternMatchInput {
    Init(UrlPatternInit),
    Url(url::Url),
}

/// What a pattern is matched against, with strings as sequences.
pub enum MatchInputSource {
    Init(InitView),
    Url(url::Url),
}

impl View for UrlPatternMatchInput {
    type V = MatchInputSource;

    open spec fn view(&self) -> MatchInputSource {
        match *self {
            UrlPatternMatchInput::Init(init) => MatchInputSource::Init(init@),
            UrlPatternMatchInput::Url(url) => MatchInputSource::Url(url),
        }
    }
}

/// The eight strings that the components of a pattern are matched
/// against.
#[derive(Debug, Clone, PartialEq, Eq)]
pub struct MatchInput {
    pub protocol: String,
    pub username: String,
    pub password: String,
    pub hostname: String,
    pub port: String,
    pub pathname: String,
    pub search: String,
    pub hash: String,
}

/// The eight strings of a match input as sequences.
pub struct MatchInputView {
    pub protocol: Seq<char>,
    pub username: Seq<char>,
    pub password: Seq<char>,
    pub hostname: Seq<char>,
    pub port: Seq<char>,
    pub pathname: Seq<char>,
    pub search: Seq<char>,
    pub hash: Seq<char>,
}

impl View for MatchInput {
    type V = MatchInputView;

    open spec fn view(&self) -> MatchInputView {
        MatchInputView {
            protocol: self.protocol@,
            username: self.username@,
            password: self.password@,
            hostname: self.hostname@,
            port: self.port@,
            pathname: self.pathname@,
            search: self.search@,
            hash: self.hash@,
        }
    }
}

/// The match input whose strings are all empty.
pub open spec fn empty_match_input() -> MatchInputView {
    MatchInputView {
        protocol: Seq::empty(),
        username: Seq::empty(),
        password: Seq::empty(),
        hostname: Seq::empty(),
        port: Seq::empty(),
        pathname: Seq::empty(),
        search: Seq::empty(),
        hash: Seq::empty(),
    }
}

impl Default for MatchInput {
    fn default() -> (r: MatchInput)
        ensures
            r@ == empty_match_input(),
    {
        MatchInput {
            protocol: String::new(),
            username: String::new(),
            password: String::new(),
            hostname: String::new(),
            port: String::new(),
            pathname: String::new(),
            search: String::new(),
            hash: String::new(),
        }
    }
}

/// The init record with every component empty.
pub open spec fn blank_init() -> InitView {
    InitView {
        protocol: Some(Seq::empty()),
        username: Some(Seq::empty()),
        password: Some(Seq::empty()),
        hostname: Some(Seq::empty()),
        port: Some(Seq::empty()),
        pathname: Some(Seq::empty()),
        search: Some(Seq::empty()),
        hash: Some(Seq::empty()),
        base_url: None,
    }
}

/// The eight strings of an init record; a component that it does not name
/// is empty.
pub open spec fn strings_of(init: InitView) -> MatchInputView {
    MatchInputView {
        protocol: text_or_empty(init.protocol),
        username: text_or_empty(init.username),
        password: text_or_empty(init.password),
        hostname: text_or_empty(init.hostname),
        port: text_or_empty(init.port),
        pathname: text_or_empty(init.pathname),
        search: text_or_empty(init.search),
        hash: text_or_empty(init.hash),
    }
}

/// The eight strings that an input is matched by: the components of a URL,
/// or the fields of an init record, processed as those of a URL over empty
/// components. An init record that cannot be processed gives none.
pub open spec fn match_input_of(input: MatchInputSource) -> Option<MatchInputView> {
    match input {
        MatchInputSource::Init(init) => match process_spec(init, ProcessType::Url, blank_init()) {
            Ok(r) => Some(strings_of(r)),
            Err(_) => None,
        },
        MatchInputSource::Url(url) => Some(strings_of(components_of_url(url))),
    }
}

/// `init` with an empty port where its protocol is a special scheme and
/// its port is the default port of that scheme.
pub open spec fn elided_default_port(init: InitView) -> InitView {
    match init.protocol {
        Some(p) => if is_special_scheme_spec(p) && default_port(p) == init.port {
            InitView { port: Some(Seq::empty()), ..init }
        } else {
            init
        },
        None => init,
    }
}

/// The component that a pattern compiles to; with `report`, the error of a
/// regular expression that the engine refuses is the result.
pub open spec fn compile_reporting(
    input: Option<Seq<char>>,
    encoding: Encoding,
    options: OptionsView,
    report: bool,
) -> Result<ComponentView, ErrorView> {
    match compile_spec(input, encoder(encoding), options) {
        Err(e) => Err(e),
        Ok(c) => if report && c.regexp is None {
            Err(ErrorView::RegExp)
        } else {
            Ok(c)
        },
    }
}

/// The canonical form of the literal text of a hostname pattern.
pub open spec fn hostname_encoding(hostname: Option<Seq<char>>) -> Encoding {
    match hostname {
        Some(h) => if is_ipv6_pattern(h) {
            Encoding::Ipv6Hostname
        } else {
            Encoding::Hostname
        },
        None => Encoding::Hostname,
    }
}

/// The pattern of a processed init record. The components are compiled in
/// the order protocol, hostname, pathname, username, password, port,
/// search, hash, and the first that fails gives the error. The pathname is
/// that of a hierarchical URL where the protocol matches a special scheme,
/// else an opaque one.
pub open spec fn compile_all(init: InitView, report: bool) -> Result<PatternView, ErrorView> {
    match compile_reporting(init.protocol, Encoding::Protocol, default_options(), report) {
        Err(e) => Err(e),
        Ok(protocol) => match compile_reporting(
            init.hostname,
            hostname_encoding(init.hostname),
            hostname_options(),
            report,
        ) {
            Err(e) => Err(e),
            Ok(hostname) => match (if matches_special_scheme(protocol.regexp) {
                compile_reporting(init.pathname, Encoding::Pathname, pathname_options(), report)
            } else {
                compile_reporting(
                    init.pathname,
                    Encoding::OpaquePathname,
                    default_options(),
                    report,
                )
            }) {
                Err(e) => Err(e),
                Ok(pathname) => match compile_reporting(
                    init.username,
                    Encoding::Username,
                    default_options(),
                    report,
                ) {
                    Err(e) => Err(e),
                    Ok(username) => match compile_reporting(
                        init.password,
                        Encoding::Password,
                        default_options(),
                        report,
                    ) {
                        Err(e) => Err(e),
                        Ok(password) => match compile_reporting(
                            init.port,
                            Encoding::Port,
                            default_options(),
                            report,
                        ) {
                            Err(e) => Err(e),
                            Ok(port) => match compile_reporting(
                                init.search,
                                Encoding::Search,
                                default_options(),
                                report,
                            ) {
                                Err(e) => Err(e),
                                Ok(search) => match compile_reporting(
                                    init.hash,
                                    Encoding::Hash,
                                    default_options(),
                                    report,
                                ) {
                                    Err(e) => Err(e),
                                    Ok(hash) => Ok(
                                        PatternView {
                                            protocol,
                                            username,
                                            password,
                                            hostname,
                                            port,
                                            pathname,
                                            search,
                                            hash,
                                        },
                                    ),
                                },
                            },
                        },
                    },
                },
            },
        },
    }
}

/// The pattern of an init record: the record is processed as a pattern,
/// the default port is taken out, and the components are compiled.
pub open spec fn parse_spec(init: InitView, report: bool) -> Result<PatternView, ErrorView> {
    match process_spec(init, ProcessType::Pattern, crate::init::empty_init()) {
        Err(e) => Err(e),
        Ok(processed) => compile_all(elided_default_port(processed), report),
    }
}

/// A pattern or an error, with strings as sequences.
pub open spec fn pattern_result_view(r: Result<UrlPattern, Error>) -> Result<
    PatternView,
    ErrorView,
> {
    match r {
        Ok(p) => Ok(p@),
        Err(e) => Err(e@),
    }
}

/// The result of the match of one component, if it matches.
pub open spec fn component_match(c: ComponentView, input: Seq<char>) -> Option<
    ComponentResultView,
> {
    match matcher_match(c.matcher, input) {
        Some(captures) => Some(
            ComponentResultView { input, groups: paired_groups(c.group_name_list, captures) },
        ),
        None => None,
    }
}

/// The result of the match of `input` against `p`: there is one where
/// every component matches its string.
pub open spec fn pattern_match(p: PatternView, input: MatchInputView) -> Option<ResultView> {
    if component_match(p.protocol, input.protocol) is Some && component_match(
        p.username,
        input.username,
    ) is Some && component_match(p.password, input.password) is Some && component_match(
        p.hostname,
        input.hostname,
    ) is Some && component_match(p.port, input.port) is Some && component_match(
        p.pathname,
        input.pathname,
    ) is Some && component_match(p.search, input.search) is Some && component_match(
        p.hash,
        input.hash,
    ) is Some {
        Some(
            ResultView {
                protocol: component_match(p.protocol, input.protocol)->0,
                username: component_match(p.username, input.username)->0,
                password: component_match(p.password, input.password)->0,
                hostname: component_match(p.hostname, input.hostname)->0,
                port: component_match(p.port, input.port)->0,
                pathname: component_match(p.pathname, input.pathname)->0,
                search: component_match(p.search, input.search)->0,
                hash: component_match(p.hash, input.hash)->0,
            },
        )
    } else {
        None
    }
}

/// The result of the match of an input against `p`.
pub open spec fn match_spec(p: PatternView, input: MatchInputSource) -> Option<ResultView> {
    match match_input_of(input) {
        Some(strings) => pattern_match(p, strings),
        None => None,
    }
}

/// The view of a match result, if there is one.
pub open spec fn option_result_view(r: Option<UrlPatternResult>) -> Option<ResultView> {
    match r {
        Some(r) => Some(r@),
        None => None,
    }
}

/// Takes the default port out of a processed init record.
pub fn elide_default_port(init: UrlPatternInit) -> (r: UrlPatternInit)
    ensures
        r@ == elided_default_port(init@),
        init@.protocol matches Some(p) && is_special_scheme_spec(p) && default_port(p)
            == init@.port ==> r@.port == Some(Seq::<char>::empty()),
{
    let mut init = init;
    let elide = match &init.protocol {
        Some(protocol) => {
            if is_special_scheme(protocol.as_str()) {
                match (special_scheme_default_port(protocol.as_str()), &init.port) {
                    (Some(d), Some(p)) => str_eq(d, p.as_str()),
                    (None, None) => true,
                    _ => false,
                }
            } else {
                false
            }
        },
        None => false,
    };
    if elide {
        init.port = Some(String::new());
    }
    init
}

/// The eight strings of an init record that was processed.
fn strings_of_init(init: UrlPatternInit) -> (r: MatchInput)
    ensures
        r@ == strings_of(init@),
{
    MatchInput {
        protocol: owned_or_empty(init.protocol),
        username: owned_or_empty(init.username),
        password: owned_or_empty(init.password),
        hostname: owned_or_empty(init.hostname),
        port: owned_or_empty(init.port),
        pathname: owned_or_empty(init.pathname),
        search: owned_or_empty(init.search),
        hash: owned_or_empty(init.hash),
    }
}

fn blank() -> (r: UrlPatternInit)
    ensures
        r@ == blank_init(),
{
    UrlPatternInit {
        protocol: Some(String::new()),
        username: Some(String::new()),
        password: Some(String::new()),
        hostname: Some(String::new()),
        port: Some(String::new()),
        pathname: Some(String::new()),
        search: Some(String::new()),
        hash: Some(String::new()),
        base_url: None,
    }
}

/// The eight strings that `input` is matched by, if there are any.
pub fn parse_match_input(input: UrlPatternMatchInput) -> (r: Option<MatchInput>)
    ensures
        (match r {
            Some(i) => Some(i@),
            None => None,
        }) == match_input_of(input@),
{
    match input {
        UrlPatternMatchInput::Init(init) => match init.process(ProcessType::Url, blank()) {
            Ok(processed) => Some(strings_of_init(processed)),
            Err(_) => None,
        },
        UrlPatternMatchInput::Url(url) => Some(strings_of_init(UrlPatternInit::from_url(&url))),
    }
}

fn compile_component(input: &Option<String>, encoding: Encoding, options: Options, report: bool)
    -> (r: Result<Component, Error>)
    ensures
        crate::component::component_result_view(r) == compile_reporting(
            option_string_view(*input),
            encoding,
            options@,
            report,
        ),
        r matches Ok(c) ==> c.holds_engine_error(),
{
    match Component::compile(as_text(input), encoding, options) {
        Err(e) => Err(e),
        Ok(c) => c.optionally_transpose_regex_error(report),
    }
}

impl UrlPattern {
    /// Whether each component holds the error of the engine where a regular
    /// expression of its own did not compile.
    pub open spec fn holds_engine_errors(&self) -> bool {
        &&& self.protocol.holds_engine_error()
        &&& self.username.holds_engine_error()
        &&& self.password.holds_engine_error()
        &&& self.hostname.holds_engine_error()
        &&& self.port.holds_engine_error()
        &&& self.pathname.holds_engine_error()
        &&& self.search.holds_engine_error()
        &&& self.hash.holds_engine_error()
    }

    /// Makes the pattern of an init record. A regular expression that the
    /// engine refuses is an error.
    pub fn parse(init: UrlPatternInit) -> (r: Result<UrlPattern, Error>)
        ensures
            pattern_result_view(r) == parse_spec(init@, true),
            r matches Ok(pattern) ==> (process_spec(
                init@,
                ProcessType::Pattern,
                crate::init::empty_init(),
            ) matches Ok(processed) && processed.protocol is Some && is_special_scheme_spec(
                processed.protocol->0,
            ) && default_port(processed.protocol->0) == processed.port
                ==> pattern@.port.pattern_string == Seq::<char>::empty()),
            r matches Ok(pattern) ==> pattern.holds_engine_errors(),
    {
        UrlPattern::parse_internal(init, true)
    }

    /// Makes the pattern of an init record. With `report_regex_errors`, a
    /// regular expression that the engine refuses is an error; without,
    /// it is kept in its component, which then matches nothing that needs
    /// it.
    #[verifier::rlimit(40)]
    pub fn parse_internal(init: UrlPatternInit, report_regex_errors: bool) -> (r: Result<
        UrlPattern,
        Error,
    >)
        ensures
            pattern_result_view(r) == parse_spec(init@, report_regex_errors),
            r matches Ok(pattern) ==> (process_spec(
                init@,
                ProcessType::Pattern,
                crate::init::empty_init(),
            ) matches Ok(processed) && processed.protocol is Some && is_special_scheme_spec(
                processed.protocol->0,
            ) && default_port(processed.protocol->0) == processed.port
                ==> pattern@.port.pattern_string == Seq::<char>::empty()),
            r matches Ok(pattern) ==> pattern.holds_engine_errors(),
    {
        proof {
            if parse_spec(init@, report_regex_errors) is Ok {
                let processed = process_spec(
                    init@,
                    ProcessType::Pattern,
                    crate::init::empty_init(),
                )->Ok_0;
                if processed.protocol is Some && is_special_scheme_spec(processed.protocol->0)
                    && default_port(processed.protocol->0) == processed.port {
                    crate::laws::law_default_port_is_elided(init@, report_regex_errors);
                }
            }
        }
        let processed = match init.process(ProcessType::Pattern, UrlPatternInit::default()) {
            Ok(p) => p,
            Err(e) => {
                return Err(e);
            },
        };
        let processed = elide_default_port(processed);
        let report = report_regex_errors;
        let protocol = match compile_component(
            &processed.protocol,
            Encoding::Protocol,
            Options::default(),
            report,
        ) {
            Ok(c) => c,
            Err(e) => {
                return Err(e);
            },
        };
        let hostname_is_ipv6 = match &processed.hostname {
            Some(h) => hostname_pattern_is_ipv6_address(h.as_str()),
            None => false,
        };
        let hostname_encoding = if hostname_is_ipv6 {
            Encoding::Ipv6Hostname
        } else {
            Encoding::Hostname
        };
        let hostname = match compile_component(
            &processed.hostname,
            hostname_encoding,
            Options::hostname(),
            report,
        ) {
            Ok(c) => c,
            Err(e) => {
                return Err(e);
            },
        };
        let compiled_pathname = if protocol.protocol_component_matches_special_scheme() {
            compile_component(&processed.pathname, Encoding::Pathname, Options::pathname(), report)
        } else {
            compile_component(
                &processed.pathname,
                Encoding::OpaquePathname,
                Options::default(),
                report,
            )
        };
        let pathname = match compiled_pathname {
            Ok(c) => c,
            Err(e) => {
                return Err(e);
            },
        };
        let username = match compile_component(
            &processed.username,
            Encoding::Username,
            Options::default(),
            report,
        ) {
            Ok(c) => c,
            Err(e) => {
                return Err(e);
            },
        };
        let password = match compile_component(
            &processed.password,
            Encoding::Password,
            Options::default(),
            report,
        ) {
            Ok(c) => c,
            Err(e) => {
                return Err(e);
            },
        };
        let port = match compile_component(
            &processed.port,
            Encoding::Port,
            Options::default(),
            report,
        ) {
            Ok(c) => c,
            Err(e) => {
                return Err(e);
            },
        };
        let search = match compile_component(
            &processed.search,
            Encoding::Search,
            Options::default(),
            report,
        ) {
            Ok(c) => c,
            Err(e) => {
                return Err(e);
            },
        };
        let hash = match compile_component(
            &processed.hash,
            Encoding::Hash,
            Options::default(),
            report,
        ) {
            Ok(c) => c,
            Err(e) => {
                return Err(e);
            },
        };
        Ok(UrlPattern { protocol, username, password, hostname, port, pathname, search, hash })
    }

    /// The pattern that the protocol of a URL is matched against.
    pub fn protocol(&self) -> (r: &str)
        ensures
            r@ == self@.protocol.pattern_string,
    {
        self.protocol.pattern_string.as_str()
    }

    /// The pattern that the username of a URL is matched against.
    pub fn username(&self) -> (r: &str)
        ensures
            r@ == self@.username.pattern_string,
    {
        self.username.pattern_string.as_str()
    }

    /// The pattern that the password of a URL is matched against.
    pub fn password(&self) -> (r: &str)
        ensures
            r@ == self@.password.pattern_string,
    {
        self.password.pattern_string.as_str()
    }

    /// The pattern that the hostname of a URL is matched against.
    pub fn hostname(&self) -> (r: &str)
        ensures
            r@ == self@.hostname.pattern_string,
    {
        self.hostname.pattern_string.as_str()
    }

    /// The pattern that the port of a URL is matched against.
    pub fn port(&self) -> (r: &str)
        ensures
            r@ == self@.port.pattern_string,
    {
        self.port.pattern_string.as_str()
    }

    /// The pattern that the path of a URL is matched against.
    pub fn pathname(&self) -> (r: &str)
        ensures
            r@ == self@.pathname.pattern_string,
    {
        self.pathname.pattern_string.as_str()
    }

    /// The pattern that the query of a URL is matched against.
    pub fn search(&self) -> (r: &str)
        ensures
            r@ == self@.search.pattern_string,
    {
        self.search.pattern_string.as_str()
    }

    /// The pattern that the fragment of a URL is matched against.
    pub fn hash(&self) -> (r: &str)
        ensures
            r@ == self@.hash.pattern_string,
    {
        self.hash.pattern_string.as_str()
    }

    /// Whether `input` matches this pattern.
    pub fn test(&self, input: UrlPatternMatchInput) -> (r: Result<bool, Error>)
        ensures
            r == Ok::<bool, Error>(match_spec(self@, input@) is Some),
    {
        match self.matches(input) {
            Ok(m) => Ok(m.is_some()),
            Err(e) => Err(e),
        }
    }

    /// Matches `input` against this pattern and returns, if it matches,
    /// what each component matched and captured.
    pub fn exec(&self, input: UrlPatternMatchInput) -> (r: Result<Option<UrlPatternResult>, Error>)
        ensures
            r matches Ok(m) && option_result_view(m) == match_spec(self@, input@),
    {
        self.matches(input)
    }

    /// Matches the eight strings against the eight components.
    #[verifier::rlimit(40)]
    pub fn match_components(&self, input: MatchInput) -> (r: Option<UrlPatternResult>)
        ensures
            option_result_view(r) == pattern_match(self@, input@),
    {
        let protocol = match self.protocol.matcher.matches(input.protocol.as_str()) {
            Some(c) => c,
            None => {
                return None;
            },
        };
        let username = match self.username.matcher.matches(input.username.as_str()) {
            Some(c) => c,
            None => {
                return None;
            },
        };
        let password = match self.password.matcher.matches(input.password.as_str()) {
            Some(c) => c,
            None => {
                return None;
            },
        };
        let hostname = match self.hostname.matcher.matches(input.hostname.as_str()) {
            Some(c) => c,
            None => {
                return None;
            },
        };
        let port = match self.port.matcher.matches(input.port.as_str()) {
            Some(c) => c,
            None => {
                return None;
            },
        };
        let pathname = match self.pathname.matcher.matches(input.pathname.as_str()) {
            Some(c) => c,
            None => {
                return None;
            },
        };
        let search = match self.search.matcher.matches(input.search.as_str()) {
            Some(c) => c,
            None => {
                return None;
            },
        };
        let hash = match self.hash.matcher.matches(input.hash.as_str()) {
            Some(c) => c,
            None => {
                return None;
            },
        };
        Some(
            UrlPatternResult {
                protocol: self.protocol.create_match_result(input.protocol, protocol),
                username: self.username.create_match_result(input.username, username),
                password: self.password.create_match_result(input.password, password),
                hostname: self.hostname.create_match_result(input.hostname, hostname),
                port: self.port.create_match_result(input.port, port),
                pathname: self.pathname.create_match_result(input.pathname, pathname),
                search: self.search.create_match_result(input.search, search),
                hash: self.hash.create_match_result(input.hash, hash),
            },
        )
    }

    /// Matches `input` against this pattern. An init record that cannot be
    /// processed as a URL matches nothing.
    pub fn matches(&self, input: UrlPatternMatchInput) -> (r: Result<
        Option<UrlPatternResult>,
        Error,
    >)
        ensures
            r matches Ok(m) && option_result_view(m) == match_spec(self@, input@),
    {
        match parse_match_input(input) {
            Some(strings) => Ok(self.match_components(strings)),
            None => Ok(None),
        }
    }
}

} // verus!
