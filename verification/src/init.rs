//! The init record: the eight components of a pattern or of a URL, each
//! optional, and an optional base URL.

use crate::canonicalize_and_process::ProcessType;
use crate::canonicalize_and_process::canonical_hash;
use crate::canonicalize_and_process::canonical_hostname;
use crate::canonicalize_and_process::canonical_password;
use crate::canonicalize_and_process::canonical_pathname_under;
use crate::canonicalize_and_process::canonical_port;
use crate::canonicalize_and_process::canonical_protocol;
use crate::canonicalize_and_process::canonical_search;
use crate::canonicalize_and_process::canonical_username;
use crate::canonicalize_and_process::kept_or;
use crate::canonicalize_and_process::process_hash_init;
use crate::canonicalize_and_process::process_hostname_init;
use crate::canonicalize_and_process::process_password_init;
use crate::canonicalize_and_process::process_pathname_init;
use crate::canonicalize_and_process::process_port_init;
use crate::canonicalize_and_process::process_protocol_init;
use crate::canonicalize_and_process::process_search_init;
use crate::canonicalize_and_process::process_username_init;
use crate::canonicalize_and_process::without_leading;
use crate::canonicalize_and_process::without_trailing_colon;
use crate::constructor_parser::init_result_view;
use crate::constructor_parser::parse_constructor_spec;
use crate::error::Error;
use crate::error::ErrorView;
use crate::text::as_text;
use crate::text::chars_of;
use crate::text::option_string_view;
use crate::text::owned_or_empty;
use crate::text::string_of;
use crate::text::text_or_empty;
use crate::weburl::fragment_of_url;
use crate::weburl::hostname_of_url;
use crate::weburl::password_of_url;
use crate::weburl::path_of_url;
use crate::weburl::port_of_url;
use crate::weburl::query_of_url;
use crate::weburl::scheme_of_url;
use crate::weburl::url_cannot_be_a_base;
use crate::weburl::url_fragment;
use crate::weburl::url_hostname;
use crate::weburl::url_is_opaque;
use crate::weburl::url_password;
use crate::weburl::url_path;
use crate::weburl::url_port;
use crate::weburl::url_query;
use crate::weburl::url_scheme;
use crate::weburl::url_username;
use crate::weburl::username_of_url;
use vstd::prelude::*;
use vstd::string::StringExecFns;

verus! {

/// The structured input from which a pattern is made, or against which one
/// is matched.
#[derive(Debug, Clone, PartialEq, Eq)]
pub struct UrlPatternInit {
    pub protocol: Option<String>,
    pub username: Option<String>,
    pub password: Option<String>,
    pub hostname: Option<String>,
    pub port: Option<String>,
    pub pathname: Option<String>,
    pub search: Option<String>,
    pub hash: Option<String>,
    pub base_url: Option<url::Url>,
}

/// An init record with its strings as sequences; its base URL is the value
/// of the `url` crate itself, of which the components are read.
pub struct InitView {
    pub protocol: Option<Seq<char>>,
    pub username: Option<Seq<char>>,
    pub password: Option<Seq<char>>,
    pub hostname: Option<Seq<char>>,
    pub port: Option<Seq<char>>,
    pub pathname: Option<Seq<char>>,
    pub search: Option<Seq<char>>,
    pub hash: Option<Seq<char>>,
    pub base_url: Option<url::Url>,
}

impl View for UrlPatternInit {
    type V = InitView;

    open spec fn view(&self) -> InitView {
        InitView {
            protocol: option_string_view(self.protocol),
            username: option_string_view(self.username),
            password: option_string_view(self.password),
            hostname: option_string_view(self.hostname),
            port: option_string_view(self.port),
            pathname: option_string_view(self.pathname),
            search: option_string_view(self.search),
            hash: option_string_view(self.hash),
            base_url: self.base_url,
        }
    }
}

/// The init record that names nothing.
pub open spec fn empty_init() -> InitView {
    InitView {
        protocol: None,
        username: None,
        password: None,
        hostname: None,
        port: None,
        pathname: None,
        search: None,
        hash: None,
        base_url: None,
    }
}

impl Default for UrlPatternInit {
    fn default() -> (r: UrlPatternInit)
        ensures
            r@ == empty_init(),
    {
        UrlPatternInit {
            protocol: None,
            username: None,
            password: None,
            hostname: None,
            port: None,
            pathname: None,
            search: None,
            hash: None,
            base_url: None,
        }
    }
}

/// Whether a path starts at the root: with a slash or, in a pattern, with
/// an escaped slash or a slash that opens a group.
pub open spec fn is_absolute_pathname_spec(input: Seq<char>, kind: ProcessType) -> bool {
    input.len() > 0 && (input[0] == '/' || (kind == ProcessType::Pattern && input.len() >= 2 && (
    input[0] == '\\' || input[0] == '{') && input[1] == '/'))
}

/// Whether a path starts at the root.
pub fn is_absolute_pathname(input: &str, kind: &ProcessType) -> (r: bool)
    ensures
        r == is_absolute_pathname_spec(input@, *kind),
{
    let n = input.unicode_len();
    if n == 0 {
        return false;
    }
    let first = input.get_char(0);
    if first == '/' {
        return true;
    }
    if *kind == ProcessType::Url {
        return false;
    }
    if n < 2 {
        return false;
    }
    (first == '\\' || first == '{') && input.get_char(1) == '/'
}

/// Whether the pattern of a hostname is that of an IPv6 address: it
/// starts with a bracket, plain, escaped or behind an opening brace.
pub open spec fn is_ipv6_pattern(input: Seq<char>) -> bool {
    input.len() >= 2 && (input[0] == '[' || ((input[0] == '{' || input[0] == '\\') && input[1]
        == '['))
}

/// Whether the pattern of a hostname is that of an IPv6 address.
pub fn hostname_pattern_is_ipv6_address(input: &str) -> (r: bool)
    ensures
        r == is_ipv6_pattern(input@),
{
    if input.unicode_len() < 2 {
        return false;
    }
    let first = input.get_char(0);
    first == '[' || ((first == '{' || first == '\\') && input.get_char(1) == '[')
}

/// The components of a URL, as an init record.
pub open spec fn components_of_url(url: url::Url) -> InitView {
    InitView {
        protocol: Some(url_scheme(url)),
        username: Some(url_username(url)),
        password: Some(text_or_empty(url_password(url))),
        hostname: Some(url_hostname(url)),
        port: Some(url_port(url)),
        pathname: Some(url_path(url)),
        search: Some(text_or_empty(url_query(url))),
        hash: Some(text_or_empty(url_fragment(url))),
        base_url: None,
    }
}

/// Where `c` stands last in `s`, if it stands there at all.
pub open spec fn last_index_of(s: Seq<char>, c: char) -> Option<int>
    decreases s.len(),
{
    if s.len() == 0 {
        None
    } else if s.last() == c {
        Some(s.len() - 1)
    } else {
        last_index_of(s.drop_last(), c)
    }
}

/// `pathname` as a path relative to `base` stands for: behind the
/// directory of the base path, unless the base has an opaque path or
/// `pathname` starts at the root.
pub open spec fn resolved_pathname(pathname: Seq<char>, base: Option<url::Url>, kind: ProcessType)
    -> Seq<char> {
    match base {
        Some(url) => if !url_cannot_be_a_base(url) && !is_absolute_pathname_spec(pathname, kind) {
            match last_index_of(url_path(url), '/') {
                Some(i) => url_path(url).subrange(0, i + 1) + pathname,
                None => pathname,
            }
        } else {
            pathname
        },
        None => pathname,
    }
}

/// `r` with the field that `set` writes taken from `value`, if there is
/// one and it could be processed.
pub open spec fn with_field(
    r: Result<InitView, ErrorView>,
    value: Option<Result<Seq<char>, ErrorView>>,
    set: spec_fn(InitView, Seq<char>) -> InitView,
) -> Result<InitView, ErrorView> {
    match r {
        Err(e) => Err(e),
        Ok(r) => match value {
            None => Ok(r),
            Some(Err(e)) => Err(e),
            Some(Ok(v)) => Ok(set(r, v)),
        },
    }
}

/// The protocol of a processed init record, if there is one.
pub open spec fn protocol_of(r: Result<InitView, ErrorView>) -> Option<Seq<char>> {
    match r {
        Ok(r) => r.protocol,
        Err(_) => None,
    }
}

/// What `f` makes of `value`, if there is one.
pub open spec fn processed(
    value: Option<Seq<char>>,
    f: spec_fn(Seq<char>) -> Result<Seq<char>, ErrorView>,
) -> Option<Result<Seq<char>, ErrorView>> {
    match value {
        Some(v) => Some(f(v)),
        None => None,
    }
}

/// The init record that processing `init` gives. The fields start from
/// `prior`, or from the components of the base URL where `init` has one.
/// Then each field that `init` names is processed, in the order protocol,
/// username, password, hostname, port, pathname, search, hash, and takes
/// the place of what was there; the port and the pathname are processed
/// under the protocol as it stands by then, the pathname after it was
/// resolved against the base URL. The first field that cannot be processed
/// ends the work with its error.
pub open spec fn process_spec(init: InitView, kind: ProcessType, prior: InitView) -> Result<
    InitView,
    ErrorView,
> {
    let r0: Result<InitView, ErrorView> = Ok(
        match init.base_url {
            Some(url) => components_of_url(url),
            None => InitView { base_url: None, ..prior },
        },
    );
    let r1 = with_field(
        r0,
        processed(
            init.protocol,
            |v: Seq<char>|
                kept_or(
                    kind,
                    without_trailing_colon(v),
                    canonical_protocol(without_trailing_colon(v)),
                ),
        ),
        |r: InitView, v: Seq<char>| InitView { protocol: Some(v), ..r },
    );
    let r2 = with_field(
        r1,
        processed(init.username, |v: Seq<char>| kept_or(kind, v, canonical_username(v))),
        |r: InitView, v: Seq<char>| InitView { username: Some(v), ..r },
    );
    let r3 = with_field(
        r2,
        processed(init.password, |v: Seq<char>| kept_or(kind, v, canonical_password(v))),
        |r: InitView, v: Seq<char>| InitView { password: Some(v), ..r },
    );
    let r4 = with_field(
        r3,
        processed(init.hostname, |v: Seq<char>| kept_or(kind, v, canonical_hostname(v))),
        |r: InitView, v: Seq<char>| InitView { hostname: Some(v), ..r },
    );
    let r5 = with_field(
        r4,
        processed(
            init.port,
            |v: Seq<char>| kept_or(kind, v, canonical_port(v, protocol_of(r4))),
        ),
        |r: InitView, v: Seq<char>| InitView { port: Some(v), ..r },
    );
    let r6 = with_field(
        r5,
        processed(
            init.pathname,
            |v: Seq<char>|
                kept_or(
                    kind,
                    resolved_pathname(v, init.base_url, kind),
                    canonical_pathname_under(
                        resolved_pathname(v, init.base_url, kind),
                        protocol_of(r5),
                    ),
                ),
        ),
        |r: InitView, v: Seq<char>| InitView { pathname: Some(v), ..r },
    );
    let r7 = with_field(
        r6,
        processed(
            init.search,
            |v: Seq<char>|
                kept_or(kind, without_leading(v, '?'), canonical_search(without_leading(v, '?'))),
        ),
        |r: InitView, v: Seq<char>| InitView { search: Some(v), ..r },
    );
    with_field(
        r7,
        processed(
            init.hash,
            |v: Seq<char>|
                kept_or(kind, without_leading(v, '#'), canonical_hash(without_leading(v, '#'))),
        ),
        |r: InitView, v: Seq<char>| InitView { hash: Some(v), ..r },
    )
}

/// The init record of a constructor string: its components, with the base
/// URL that is given beside it. A string that names no protocol needs a
/// base URL.
pub open spec fn constructor_init(pattern: Seq<char>, base_url: Option<url::Url>) -> Result<
    InitView,
    ErrorView,
> {
    match parse_constructor_spec(pattern) {
        Err(e) => Err(e),
        Ok(init) => if base_url is None && init.protocol is None {
            Err(ErrorView::BaseUrlRequired)
        } else {
            Ok(InitView { base_url, ..init })
        },
    }
}

/// Where `c` stands last in `s`.
fn find_last(s: &Vec<char>, c: char) -> (r: Option<usize>)
    ensures
        match last_index_of(s@, c) {
            Some(i) => r == Some(i as usize) && 0 <= i < s.len(),
            None => r is None,
        },
{
    let mut n: usize = s.len();
    assert(s@.take(n as int) =~= s@);
    while n > 0
        invariant
            n <= s.len(),
            last_index_of(s@, c) == last_index_of(s@.take(n as int), c),
        decreases n,
    {
        assert(s@.take(n as int).drop_last() =~= s@.take(n - 1));
        if s[n - 1] == c {
            return Some(n - 1);
        }
        n -= 1;
    }
    assert(s@.take(0).len() == 0);
    None
}

impl UrlPatternInit {
    /// The init record of a constructor string and the base URL that is
    /// given beside it.
    pub fn parse_constructor_string(pattern: &str, base_url: Option<url::Url>) -> (r: Result<
        UrlPatternInit,
        Error,
    >)
        ensures
            init_result_view(r) == constructor_init(pattern@, base_url),
    {
        let mut init = match crate::constructor_parser::parse_constructor_string(pattern) {
            Ok(init) => init,
            Err(e) => {
                return Err(e);
            },
        };
        if base_url.is_none() && init.protocol.is_none() {
            return Err(Error::BaseUrlRequired);
        }
        init.base_url = base_url;
        Ok(init)
    }

    /// The init record whose fields are the components of `url`.
    pub fn from_url(url: &url::Url) -> (r: UrlPatternInit)
        ensures
            r@ == components_of_url(*url),
    {
        UrlPatternInit {
            protocol: Some(scheme_of_url(url)),
            username: Some(username_of_url(url)),
            password: Some(owned_or_empty(password_of_url(url))),
            hostname: Some(hostname_of_url(url)),
            port: Some(port_of_url(url)),
            pathname: Some(path_of_url(url)),
            search: Some(owned_or_empty(query_of_url(url))),
            hash: Some(owned_or_empty(fragment_of_url(url))),
            base_url: None,
        }
    }

    /// `pathname` behind the directory of the base URL's path, where it is
    /// relative and the base URL has a hierarchical path.
    fn resolve_pathname(&self, pathname: &str, kind: &ProcessType) -> (r: String)
        ensures
            r@ == resolved_pathname(pathname@, self.base_url, *kind),
    {
        match &self.base_url {
            Some(base_url) => {
                if !url_is_opaque(base_url) && !is_absolute_pathname(pathname, kind) {
                    let base_path = path_of_url(base_url);
                    let chars = chars_of(base_path.as_str());
                    match find_last(&chars, '/') {
                        Some(i) => {
                            let mut r = string_of(&chars, 0, i + 1);
                            r.append(pathname);
                            r
                        },
                        None => pathname.to_owned(),
                    }
                } else {
                    pathname.to_owned()
                }
            },
            None => pathname.to_owned(),
        }
    }

    /// Processes this init record for a pattern or for a match, starting
    /// from the fields of `prior`.
    #[verifier::rlimit(40)]
    pub fn process(&self, kind: ProcessType, prior: UrlPatternInit) -> (r: Result<
        UrlPatternInit,
        Error,
    >)
        ensures
            init_result_view(r) == process_spec(self@, kind, prior@),
            r matches Ok(init) ==> init.base_url is None,
    {
        let mut result = match &self.base_url {
            Some(base_url) => UrlPatternInit::from_url(base_url),
            None => prior,
        };
        result.base_url = None;
        match &self.protocol {
            Some(protocol) => match process_protocol_init(protocol.as_str(), &kind) {
                Ok(v) => {
                    result.protocol = Some(v);
                },
                Err(e) => {
                    return Err(e);
                },
            },
            None => {},
        }
        match &self.username {
            Some(username) => match process_username_init(username.as_str(), &kind) {
                Ok(v) => {
                    result.username = Some(v);
                },
                Err(e) => {
                    return Err(e);
                },
            },
            None => {},
        }
        match &self.password {
            Some(password) => match process_password_init(password.as_str(), &kind) {
                Ok(v) => {
                    result.password = Some(v);
                },
                Err(e) => {
                    return Err(e);
                },
            },
            None => {},
        }
        match &self.hostname {
            Some(hostname) => match process_hostname_init(hostname.as_str(), &kind) {
                Ok(v) => {
                    result.hostname = Some(v);
                },
                Err(e) => {
                    return Err(e);
                },
            },
            None => {},
        }
        match &self.port {
            Some(port) => match process_port_init(port.as_str(), as_text(&result.protocol), &kind) {
                Ok(v) => {
                    result.port = Some(v);
                },
                Err(e) => {
                    return Err(e);
                },
            },
            None => {},
        }
        match &self.pathname {
            Some(pathname) => {
                let resolved = self.resolve_pathname(pathname.as_str(), &kind);
                match process_pathname_init(resolved.as_str(), as_text(&result.protocol), &kind) {
                    Ok(v) => {
                        result.pathname = Some(v);
                    },
                    Err(e) => {
                        return Err(e);
                    },
                }
            },
            None => {},
        }
        match &self.search {
            Some(search) => match process_search_init(search.as_str(), &kind) {
                Ok(v) => {
                    result.search = Some(v);
                },
                Err(e) => {
                    return Err(e);
                },
            },
            None => {},
        }
        match &self.hash {
            Some(hash) => match process_hash_init(hash.as_str(), &kind) {
                Ok(v) => {
                    result.hash = Some(v);
                },
                Err(e) => {
                    return Err(e);
                },
            },
            None => {},
        }
        Ok(result)
    }
}

} // verus!
