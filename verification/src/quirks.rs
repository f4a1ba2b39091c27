//! What a browser needs to hold this library to the URLPattern interface:
//! inputs that are a string or a record, with base URLs as strings, and
//! patterns as plain data.

use crate::component::Component;
use crate::component::ComponentView;
use crate::component::string_views;
use crate::error::Error;
use crate::error::ErrorView;
use crate::init::InitView;
use crate::init::constructor_init;
use crate::pattern::MatchInputSource;
use crate::pattern::PatternView;
use crate::pattern::UrlPatternMatchInput;
use crate::pattern::parse_spec;
use crate::text::as_text;
use crate::text::copy_text;
use crate::text::option_str_view;
use crate::text::option_string_view;
use crate::weburl::join_url;
use crate::weburl::parse_url;
use crate::weburl::text_of_url;
use crate::weburl::url_joined;
use crate::weburl::url_as_parsed;
use crate::weburl::url_parsed;
use vstd::prelude::*;

pub use crate::pattern::MatchInput;
pub use crate::pattern::parse_match_input;

verus! {

/// An init record whose base URL is a string.
#[derive(Debug, Clone, PartialEq, Eq)]
pub struct UrlPatternInit {
    pub protocol: Option<String>,
    pub username: Option<String>,
    pub password: Option<String>,
    pub hostname: Option<String>,
    pub port: Option<String>,
    pub pathname: Option<String>,
    pub search: Option<String>,
    pub hash: Option<String>,
    pub base_url: Option<String>,
}

/// A pattern or an input: a string or a record.
#[derive(Debug, Clone, PartialEq, Eq)]
pub enum StringOrInit {
    String(String),
    Init(UrlPatternInit),
}

/// An init record whose base URL is a string, with strings as sequences.
pub struct TextInitView {
    pub protocol: Option<Seq<char>>,
    pub username: Option<Seq<char>>,
    pub password: Option<Seq<char>>,
    pub hostname: Option<Seq<char>>,
    pub port: Option<Seq<char>>,
    pub pathname: Option<Seq<char>>,
    pub search: Option<Seq<char>>,
    pub hash: Option<Seq<char>>,
    pub base_url: Option<Seq<char>>,
}

/// A string or a record, with strings as sequences.
pub enum StringOrInitView {
    String(Seq<char>),
    Init(TextInitView),
}

impl View for UrlPatternInit {
    type V = TextInitView;

    open spec fn view(&self) -> TextInitView {
        TextInitView {
            protocol: option_string_view(self.protocol),
            username: option_string_view(self.username),
            password: option_string_view(self.password),
            hostname: option_string_view(self.hostname),
            port: option_string_view(self.port),
            pathname: option_string_view(self.pathname),
            search: option_string_view(self.search),
            hash: option_string_view(self.hash),
            base_url: option_string_view(self.base_url),
        }
    }
}

impl View for StringOrInit {
    type V = StringOrInitView;

    open spec fn view(&self) -> StringOrInitView {
        match *self {
            StringOrInit::String(s) => StringOrInitView::String(s@),
            StringOrInit::Init(init) => StringOrInitView::Init(init@),
        }
    }
}

/// The record `init` with `base_url` as its base URL.
pub open spec fn init_with_base(init: TextInitView, base_url: Option<url::Url>) -> InitView {
    InitView {
        protocol: init.protocol,
        username: init.username,
        password: init.password,
        hostname: init.hostname,
        port: init.port,
        pathname: init.pathname,
        search: init.search,
        hash: init.hash,
        base_url,
    }
}

/// The URL that an optional string parses to.
pub open spec fn optional_url(text: Option<Seq<char>>) -> Result<
    Option<url::Url>,
    url::ParseError,
> {
    match text {
        None => Ok(None),
        Some(t) => match url_parsed(t) {
            Ok(url) => Ok(Some(url)),
            Err(e) => Err(e),
        },
    }
}

/// The init record that a pattern is made from. A string is cut into its
/// components and takes the base URL given beside it; a record brings its
/// own base URL, and none may be given beside it.
pub open spec fn construct_input(input: StringOrInitView, base_url: Option<Seq<char>>) -> Result<
    InitView,
    ErrorView,
> {
    match input {
        StringOrInitView::String(pattern) => match optional_url(base_url) {
            Err(e) => Err(ErrorView::Url(e)),
            Ok(base) => constructor_init(pattern, base),
        },
        StringOrInitView::Init(init) => if base_url is Some {
            Err(ErrorView::BaseUrlWithInit)
        } else {
            match optional_url(init.base_url) {
                Err(e) => Err(ErrorView::Url(e)),
                Ok(base) => Ok(init_with_base(init, base)),
            }
        },
    }
}

fn parse_optional_url(text: Option<&str>) -> (r: Result<Option<url::Url>, url::ParseError>)
    ensures
        match optional_url(option_str_view(text)) {
            Ok(url) => r matches Ok(u) && u == url,
            Err(e) => r == Err::<Option<url::Url>, url::ParseError>(e),
        },
        r matches Ok(Some(u)) ==> url_as_parsed(u),
{
    match text {
        None => Ok(None),
        Some(t) => match parse_url(t) {
            Ok(url) => Ok(Some(url)),
            Err(e) => Err(e),
        },
    }
}

fn to_init(init: &UrlPatternInit, base_url: Option<url::Url>) -> (r: crate::init::UrlPatternInit)
    ensures
        r@ == init_with_base(init@, base_url),
{
    crate::init::UrlPatternInit {
        protocol: copy_text(&init.protocol),
        username: copy_text(&init.username),
        password: copy_text(&init.password),
        hostname: copy_text(&init.hostname),
        port: copy_text(&init.port),
        pathname: copy_text(&init.pathname),
        search: copy_text(&init.search),
        hash: copy_text(&init.hash),
        base_url,
    }
}

/// Makes the init record of a pattern from a string or a record and the
/// base URL given beside it.
pub fn process_construct_pattern_input(input: StringOrInit, base_url: Option<&str>) -> (r: Result<
    crate::init::UrlPatternInit,
    Error,
>)
    ensures
        crate::constructor_parser::init_result_view(r) == construct_input(
            input@,
            option_str_view(base_url),
        ),
{
    match input {
        StringOrInit::String(pattern) => {
            let base = match parse_optional_url(base_url) {
                Ok(base) => base,
                Err(e) => {
                    return Err(Error::Url(e));
                },
            };
            crate::init::UrlPatternInit::parse_constructor_string(pattern.as_str(), base)
        },
        StringOrInit::Init(init) => {
            if base_url.is_some() {
                return Err(Error::BaseUrlWithInit);
            }
            let base = match parse_optional_url(as_text(&init.base_url)) {
                Ok(base) => base,
                Err(e) => {
                    return Err(Error::Url(e));
                },
            };
            Ok(to_init(&init, base))
        },
    }
}

/// One component of a pattern, as plain data.
#[derive(Debug, Clone, PartialEq, Eq)]
pub struct UrlPatternComponent {
    pub pattern_string: String,
    pub regexp_string: String,
    pub group_name_list: Vec<String>,
}

/// A pattern as plain data.
#[derive(Debug, Clone, PartialEq, Eq)]
pub struct UrlPattern {
    pub protocol: UrlPatternComponent,
    pub username: UrlPatternComponent,
    pub password: UrlPatternComponent,
    pub hostname: UrlPatternComponent,
    pub port: UrlPatternComponent,
    pub pathname: UrlPatternComponent,
    pub search: UrlPatternComponent,
    pub hash: UrlPatternComponent,
}

/// The plain data of a component, with strings as sequences.
pub struct ComponentDataView {
    pub pattern_string: Seq<char>,
    pub regexp_string: Seq<char>,
    pub group_name_list: Seq<Seq<char>>,
}

/// The plain data of a pattern, with strings as sequences.
pub struct PatternDataView {
    pub protocol: ComponentDataView,
    pub username: ComponentDataView,
    pub password: ComponentDataView,
    pub hostname: ComponentDataView,
    pub port: ComponentDataView,
    pub pathname: ComponentDataView,
    pub search: ComponentDataView,
    pub hash: ComponentDataView,
}

impl View for UrlPatternComponent {
    type V = ComponentDataView;

    open spec fn view(&self) -> ComponentDataView {
        ComponentDataView {
            pattern_string: self.pattern_string@,
            regexp_string: self.regexp_string@,
            group_name_list: string_views(self.group_name_list@),
        }
    }
}

impl View for UrlPattern {
    type V = PatternDataView;

    open spec fn view(&self) -> PatternDataView {
        PatternDataView {
            protocol: self.protocol@,
            username: self.username@,
            password: self.password@,
            hostname: self.hostname@,
            port: self.port@,
            pathname: self.pathname@,
            search: self.search@,
            hash: self.hash@,
        }
    }
}

/// The plain data of a component.
pub open spec fn component_data(c: ComponentView) -> ComponentDataView {
    ComponentDataView {
        pattern_string: c.pattern_string,
        regexp_string: c.regexp_string,
        group_name_list: c.group_name_list,
    }
}

/// The plain data of a pattern.
pub open spec fn pattern_data(p: PatternView) -> PatternDataView {
    PatternDataView {
        protocol: component_data(p.protocol),
        username: component_data(p.username),
        password: component_data(p.password),
        hostname: component_data(p.hostname),
        port: component_data(p.port),
        pathname: component_data(p.pathname),
        search: component_data(p.search),
        hash: component_data(p.hash),
    }
}

fn data_of(c: Component) -> (r: UrlPatternComponent)
    ensures
        r@ == component_data(c@),
{
    UrlPatternComponent {
        pattern_string: c.pattern_string,
        regexp_string: c.regexp_string,
        group_name_list: c.group_name_list,
    }
}

/// Parses a pattern into its components as plain data. A regular
/// expression that this library's engine refuses is no error here: the
/// source is handed out for another engine.
pub fn parse_pattern(init: crate::init::UrlPatternInit) -> (r: Result<UrlPattern, Error>)
    ensures
        match parse_spec(init@, false) {
            Ok(p) => r matches Ok(data) && data@ == pattern_data(p),
            Err(e) => r matches Err(x) && x@ == e,
        },
{
    let pattern = match crate::pattern::UrlPattern::parse_internal(init, false) {
        Ok(p) => p,
        Err(e) => {
            return Err(e);
        },
    };
    Ok(
        UrlPattern {
            protocol: data_of(pattern.protocol),
            username: data_of(pattern.username),
            password: data_of(pattern.password),
            hostname: data_of(pattern.hostname),
            port: data_of(pattern.port),
            pathname: data_of(pattern.pathname),
            search: data_of(pattern.search),
            hash: data_of(pattern.hash),
        },
    )
}

/// A match input with the inputs that it was made from: the string or
/// record, and the serialization of the base URL where one was given.
pub struct ProcessedMatchInput {
    pub input: MatchInputSource,
    pub inputs: (StringOrInitView, Option<Seq<char>>),
}

/// The serialization of a URL, if there is one.
pub open spec fn option_url_text(url: Option<url::Url>) -> Option<Seq<char>> {
    match url {
        Some(url) => Some(crate::weburl::url_text(url)),
        None => None,
    }
}

/// The URL that `text` is, alone or relative to `base`.
pub open spec fn url_against(text: Seq<char>, base: Option<url::Url>) -> Result<
    url::Url,
    url::ParseError,
> {
    match base {
        Some(b) => url_joined(b, text),
        None => url_parsed(text),
    }
}

/// What a pattern is matched against, made from a string or a record and
/// the base URL given beside it. A string is a URL, relative to the base
/// URL where there is one; a record brings its own base URL, and none may
/// be given beside it. Where a URL cannot be parsed there is nothing to
/// match.
pub open spec fn match_input_spec(input: StringOrInitView, base_url: Option<Seq<char>>) -> Result<
    Option<ProcessedMatchInput>,
    ErrorView,
> {
    match input {
        StringOrInitView::String(text) => match optional_url(base_url) {
            Err(_) => Ok(None),
            Ok(base) => match url_against(text, base) {
                Err(_) => Ok(None),
                Ok(url) => Ok(
                    Some(
                        ProcessedMatchInput {
                            input: MatchInputSource::Url(url),
                            inputs: (input, option_url_text(base)),
                        },
                    ),
                ),
            },
        },
        StringOrInitView::Init(init) => if base_url is Some {
            Err(ErrorView::BaseUrlWithInit)
        } else {
            match optional_url(init.base_url) {
                Err(_) => Ok(None),
                Ok(base) => Ok(
                    Some(
                        ProcessedMatchInput {
                            input: MatchInputSource::Init(init_with_base(init, base)),
                            inputs: (input, None),
                        },
                    ),
                ),
            }
        },
    }
}

/// Makes what a pattern is matched against from a string or a record and
/// the base URL given beside it.
pub fn process_match_input(input: StringOrInit, base_url_str: Option<&str>) -> (r: Result<
    Option<(UrlPatternMatchInput, (StringOrInit, Option<String>))>,
    Error,
>)
    ensures
        match match_input_spec(
            input@,
            option_str_view(base_url_str),
        ) {
            Err(e) => r matches Err(x) && x@ == e,
            Ok(None) => r matches Ok(None),
            Ok(Some(p)) => r matches Ok(Some(found)) && found.0@ == p.input && found.1.0@
                == p.inputs.0 && option_string_view(found.1.1) == p.inputs.1,
        },
{
    match input {
        StringOrInit::String(text) => {
            let base = match parse_optional_url(base_url_str) {
                Ok(base) => base,
                Err(_) => {
                    return Ok(None);
                },
            };
            let parsed = match &base {
                Some(b) => join_url(b, text.as_str()),
                None => parse_url(text.as_str()),
            };
            let base_text = match &base {
                Some(b) => Some(text_of_url(b)),
                None => None,
            };
            match parsed {
                Ok(url) => Ok(
                    Some((UrlPatternMatchInput::Url(url), (StringOrInit::String(text), base_text))),
                ),
                Err(_) => Ok(None),
            }
        },
        StringOrInit::Init(init) => {
            if base_url_str.is_some() {
                return Err(Error::BaseUrlWithInit);
            }
            let base = match parse_optional_url(as_text(&init.base_url)) {
                Ok(base) => base,
                Err(_) => {
                    return Ok(None);
                },
            };
            let match_input = UrlPatternMatchInput::Init(to_init(&init, base));
            Ok(Some((match_input, (StringOrInit::Init(init), None))))
        },
    }
}

} // verus!
