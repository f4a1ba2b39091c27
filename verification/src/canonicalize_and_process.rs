//! The canonical form of each component of a URL, how the fields of an
//! init record are prepared for a pattern or for a match, and the callbacks
//! that bring the literal text of a pattern into canonical form.

use crate::error::Error;
use crate::error::ErrorView;
use crate::error::string_result_view;
use crate::text::ascii_lower;
use crate::text::chars_of;
use crate::text::is_ascii_hex_digit;
use crate::text::option_str_view;
use crate::text::owned_or_empty;
use crate::text::parse_u16;
use crate::text::parse_u16_spec;
use crate::text::str_eq;
use crate::text::string_of;
use crate::text::text_or_empty;
use crate::text::to_ascii_lower;
use crate::weburl::MAX_BASE_LEN;
use crate::weburl::MAX_VALUE_LEN;
use crate::weburl::fragment_of_url;
use crate::weburl::hostname_of_url;
use crate::weburl::parse_url;
use crate::weburl::password_of_url;
use crate::weburl::path_of_url;
use crate::weburl::port_of_url;
use crate::weburl::query_of_url;
use crate::weburl::scheme_of_url;
use crate::weburl::set_url_fragment;
use crate::weburl::set_url_hostname;
use crate::weburl::set_url_password;
use crate::weburl::set_url_path;
use crate::weburl::set_url_port;
use crate::weburl::set_url_query;
use crate::weburl::set_url_username;
use crate::weburl::text_of_url;
use crate::weburl::url_as_parsed;
use crate::weburl::url_fragment;
use crate::weburl::url_fragment_set;
use crate::weburl::url_hostname;
use crate::weburl::url_hostname_set;
use crate::weburl::url_parsed;
use crate::weburl::url_password;
use crate::weburl::url_password_set;
use crate::weburl::url_path;
use crate::weburl::url_path_set;
use crate::weburl::url_port;
use crate::weburl::url_port_set;
use crate::weburl::url_query;
use crate::weburl::url_query_set;
use crate::weburl::url_scheme;
use crate::weburl::url_text;
use crate::weburl::url_username;
use crate::weburl::url_username_set;
use crate::weburl::username_of_url;
use vstd::prelude::*;
use vstd::string::StringExecFns;

verus! {

/// What an init record is processed for: a pattern keeps its fields as they
/// are written, a URL has them canonicalized.
#[derive(Debug, Clone, Copy, PartialEq, Eq, Structural)]
pub enum ProcessType {
    Pattern,
    Url,
}

/// The URL in which a component of a hierarchical URL is canonicalized.
pub open spec fn hierarchical_base() -> Seq<char> {
    "http://dummy.test"@
}

/// The URL in which an opaque path is canonicalized.
pub open spec fn opaque_base() -> Seq<char> {
    "data:dummy,test"@
}

/// What follows a scheme in the URL in which the scheme is canonicalized.
pub open spec fn scheme_rest() -> Seq<char> {
    "://dummy.test"@
}

/// The error of a value that is too long to be written into a URL.
pub open spec fn too_long() -> ErrorView {
    ErrorView::Url(url::ParseError::Overflow)
}

/// The URL that `text` parses to, if it is short enough to have a value
/// written into it.
pub open spec fn base_url(text: Seq<char>) -> Result<url::Url, ErrorView> {
    match url_parsed(text) {
        Err(e) => Err(ErrorView::Url(e)),
        Ok(url) => if url_text(url).len() > MAX_BASE_LEN {
            Err(too_long())
        } else {
            Ok(url)
        },
    }
}

/// The canonical form of a protocol: the scheme that the URL parser reads
/// from `value` followed by `://dummy.test`.
pub open spec fn canonical_protocol(value: Seq<char>) -> Result<Seq<char>, ErrorView> {
    if value.len() == 0 {
        Ok(Seq::empty())
    } else {
        match url_parsed(value + scheme_rest()) {
            Ok(url) => Ok(url_scheme(url)),
            Err(e) => Err(ErrorView::Url(e)),
        }
    }
}

/// The canonical form of a username: what a hierarchical URL holds as its
/// username after `value` was set as such.
pub open spec fn canonical_username(value: Seq<char>) -> Result<Seq<char>, ErrorView> {
    if value.len() == 0 {
        Ok(Seq::empty())
    } else if value.len() > MAX_VALUE_LEN {
        Err(too_long())
    } else {
        match base_url(hierarchical_base()) {
            Err(e) => Err(e),
            Ok(url) => match url_username_set(url, value) {
                None => Err(ErrorView::Url(url::ParseError::EmptyHost)),
                Some(url) => Ok(url_username(url)),
            },
        }
    }
}

/// The canonical form of a password, made as that of a username.
pub open spec fn canonical_password(value: Seq<char>) -> Result<Seq<char>, ErrorView> {
    if value.len() == 0 {
        Ok(Seq::empty())
    } else if value.len() > MAX_VALUE_LEN {
        Err(too_long())
    } else {
        match base_url(hierarchical_base()) {
            Err(e) => Err(e),
            Ok(url) => match url_password_set(url, value) {
                None => Err(ErrorView::Url(url::ParseError::EmptyHost)),
                Some(url) => Ok(text_or_empty(url_password(url))),
            },
        }
    }
}

/// The canonical form of a hostname: the host of a hierarchical URL after
/// `value` was set as its hostname.
pub open spec fn canonical_hostname(value: Seq<char>) -> Result<Seq<char>, ErrorView> {
    if value.len() == 0 {
        Ok(Seq::empty())
    } else if value.len() > MAX_VALUE_LEN {
        Err(too_long())
    } else {
        match base_url(hierarchical_base()) {
            Err(e) => Err(e),
            Ok(url) => match url_hostname_set(url, value) {
                None => Err(ErrorView::Url(url::ParseError::InvalidDomainCharacter)),
                Some(url) => Ok(url_hostname(url)),
            },
        }
    }
}

/// Whether `c` may stand in the pattern of an IPv6 address.
pub open spec fn is_ipv6_code_point(c: char) -> bool {
    is_ascii_hex_digit(c) || c == '[' || c == ']' || c == ':'
}

/// The canonical form of an IPv6 hostname: `value` in lower case, where it
/// holds only hexadecimal digits, brackets and colons.
pub open spec fn canonical_ipv6_hostname(value: Seq<char>) -> Result<Seq<char>, ErrorView> {
    if forall|i: int| 0 <= i < value.len() ==> is_ipv6_code_point(#[trigger] value[i]) {
        Ok(Seq::new(value.len(), |i: int| ascii_lower(value[i])))
    } else {
        Err(ErrorView::Url(url::ParseError::InvalidIpv6Address))
    }
}

/// The scheme under which a port is canonicalized: `protocol`, or `dummy`
/// where there is none.
pub open spec fn port_scheme(protocol: Option<Seq<char>>) -> Seq<char> {
    match protocol {
        Some(p) => if p.len() == 0 {
            "dummy"@
        } else {
            p
        },
        None => "dummy"@,
    }
}

/// The canonical form of a port: the port that a URL of the given protocol
/// shows after the number that `value` writes was set as its port, which is
/// empty for the default port of the protocol.
pub open spec fn canonical_port(value: Seq<char>, protocol: Option<Seq<char>>) -> Result<
    Seq<char>,
    ErrorView,
> {
    if value.len() == 0 {
        Ok(Seq::empty())
    } else {
        match parse_u16_spec(value) {
            None => Err(ErrorView::Url(url::ParseError::InvalidPort)),
            Some(port) => match base_url(port_scheme(protocol) + scheme_rest()) {
                Err(e) => Err(e),
                Ok(url) => match url_port_set(url, port) {
                    None => Err(ErrorView::Url(url::ParseError::EmptyHost)),
                    Some(url) => Ok(url_port(url)),
                },
            },
        }
    }
}

/// The canonical form of the path of a hierarchical URL.
pub open spec fn canonical_pathname(value: Seq<char>) -> Result<Seq<char>, ErrorView> {
    if value.len() == 0 {
        Ok(Seq::empty())
    } else if value.len() > MAX_VALUE_LEN {
        Err(too_long())
    } else {
        match base_url(hierarchical_base()) {
            Err(e) => Err(e),
            Ok(url) => Ok(url_path(url_path_set(url, value))),
        }
    }
}

/// The canonical form of an opaque path.
pub open spec fn canonical_opaque_pathname(value: Seq<char>) -> Result<Seq<char>, ErrorView> {
    if value.len() == 0 {
        Ok(Seq::empty())
    } else if value.len() > MAX_VALUE_LEN {
        Err(too_long())
    } else {
        match base_url(opaque_base()) {
            Err(e) => Err(e),
            Ok(url) => Ok(url_path(url_path_set(url, value))),
        }
    }
}

/// The canonical form of a query.
pub open spec fn canonical_search(value: Seq<char>) -> Result<Seq<char>, ErrorView> {
    if value.len() == 0 {
        Ok(Seq::empty())
    } else if value.len() > MAX_VALUE_LEN {
        Err(too_long())
    } else {
        match base_url(hierarchical_base()) {
            Err(e) => Err(e),
            Ok(url) => Ok(text_or_empty(url_query(url_query_set(url, value)))),
        }
    }
}

/// The canonical form of a fragment.
pub open spec fn canonical_hash(value: Seq<char>) -> Result<Seq<char>, ErrorView> {
    if value.len() == 0 {
        Ok(Seq::empty())
    } else if value.len() > MAX_VALUE_LEN {
        Err(too_long())
    } else {
        match base_url(hierarchical_base()) {
            Err(e) => Err(e),
            Ok(url) => Ok(text_or_empty(url_fragment(url_fragment_set(url, value)))),
        }
    }
}

/// Parses the URL into which a value is to be written.
fn parse_base(text: &str) -> (r: Result<url::Url, Error>)
    ensures
        match base_url(text@) {
            Ok(url) => r matches Ok(u) && u == url && url_as_parsed(u) && url_text(u).len()
                <= MAX_BASE_LEN,
            Err(e) => r matches Err(x) && x@ == e,
        },
{
    match parse_url(text) {
        Err(e) => Err(Error::Url(e)),
        Ok(url) => {
            if text_of_url(&url).as_str().unicode_len() > MAX_BASE_LEN {
                Err(Error::Url(url::ParseError::Overflow))
            } else {
                Ok(url)
            }
        },
    }
}

/// Brings a protocol into its canonical form: the scheme that the URL
/// parser reads from it.
pub fn canonicalize_protocol(value: &str) -> (r: Result<String, Error>)
    ensures
        string_result_view(r) == canonical_protocol(value@),
{
    if value.is_empty() {
        return Ok(String::new());
    }
    let mut text = value.to_owned();
    text.append("://dummy.test");
    match parse_url(text.as_str()) {
        Ok(url) => Ok(scheme_of_url(&url)),
        Err(e) => Err(Error::Url(e)),
    }
}

/// Brings a username into its canonical form, in which it is
/// percent-encoded.
pub fn canonicalize_username(value: &str) -> (r: Result<String, Error>)
    ensures
        string_result_view(r) == canonical_username(value@),
{
    if value.is_empty() {
        return Ok(String::new());
    }
    if value.unicode_len() > MAX_VALUE_LEN {
        return Err(Error::Url(url::ParseError::Overflow));
    }
    match parse_base("http://dummy.test") {
        Err(e) => Err(e),
        Ok(mut url) => match set_url_username(&mut url, value) {
            Err(_) => Err(Error::Url(url::ParseError::EmptyHost)),
            Ok(_) => Ok(username_of_url(&url)),
        },
    }
}

/// Brings a password into its canonical form, in which it is
/// percent-encoded.
pub fn canonicalize_password(value: &str) -> (r: Result<String, Error>)
    ensures
        string_result_view(r) == canonical_password(value@),
{
    if value.is_empty() {
        return Ok(String::new());
    }
    if value.unicode_len() > MAX_VALUE_LEN {
        return Err(Error::Url(url::ParseError::Overflow));
    }
    match parse_base("http://dummy.test") {
        Err(e) => Err(e),
        Ok(mut url) => match set_url_password(&mut url, value) {
            Err(_) => Err(Error::Url(url::ParseError::EmptyHost)),
            Ok(_) => Ok(owned_or_empty(password_of_url(&url))),
        },
    }
}

/// Brings a hostname into its canonical form; fails where it is no host.
pub fn canonicalize_hostname(value: &str) -> (r: Result<String, Error>)
    ensures
        string_result_view(r) == canonical_hostname(value@),
{
    if value.is_empty() {
        return Ok(String::new());
    }
    if value.unicode_len() > MAX_VALUE_LEN {
        return Err(Error::Url(url::ParseError::Overflow));
    }
    match parse_base("http://dummy.test") {
        Err(e) => Err(e),
        Ok(mut url) => match set_url_hostname(&mut url, value) {
            Err(_) => Err(Error::Url(url::ParseError::InvalidDomainCharacter)),
            Ok(_) => Ok(hostname_of_url(&url)),
        },
    }
}

fn is_ipv6_char(c: char) -> (r: bool)
    ensures
        r == is_ipv6_code_point(c),
{
    (c >= '0' && c <= '9') || (c >= 'a' && c <= 'f') || (c >= 'A' && c <= 'F') || c == '['
        || c == ']' || c == ':'
}

/// Brings the literal text of an IPv6 hostname pattern into its canonical
/// form: lower case. Fails where the text holds anything but hexadecimal
/// digits, brackets and colons.
pub fn canonicalize_ipv6_hostname(value: &str) -> (r: Result<String, Error>)
    ensures
        string_result_view(r) == canonical_ipv6_hostname(value@),
{
    let chars = chars_of(value);
    let mut result = String::new();
    let mut i: usize = 0;
    while i < chars.len()
        invariant
            chars@ == value@,
            i <= chars.len(),
            forall|k: int| 0 <= k < i ==> is_ipv6_code_point(#[trigger] value@[k]),
            result@ == Seq::new(i as nat, |k: int| ascii_lower(value@[k])),
        decreases chars.len() - i,
    {
        let c = chars[i];
        if !is_ipv6_char(c) {
            assert(!is_ipv6_code_point(value@[i as int]));
            return Err(Error::Url(url::ParseError::InvalidIpv6Address));
        }
        result.push(to_ascii_lower(c));
        i += 1;
        assert(result@ =~= Seq::new(i as nat, |k: int| ascii_lower(value@[k])));
    }
    Ok(result)
}

/// Brings a port into its canonical form under the given protocol;
/// fails where it is no number below 65536.
pub fn canonicalize_port(value: &str, protocol: Option<&str>) -> (r: Result<String, Error>)
    ensures
        string_result_view(r) == canonical_port(
            value@,
            match protocol {
                Some(p) => Some(p@),
                None => None,
            },
        ),
{
    if value.is_empty() {
        return Ok(String::new());
    }
    let port = match parse_u16(value) {
        Some(port) => port,
        None => {
            return Err(Error::Url(url::ParseError::InvalidPort));
        },
    };
    let mut text = match protocol {
        Some(p) => if p.is_empty() {
            "dummy".to_owned()
        } else {
            p.to_owned()
        },
        None => "dummy".to_owned(),
    };
    text.append("://dummy.test");
    match parse_base(text.as_str()) {
        Err(e) => Err(e),
        Ok(mut url) => match set_url_port(&mut url, port) {
            Err(_) => Err(Error::Url(url::ParseError::EmptyHost)),
            Ok(_) => Ok(port_of_url(&url)),
        },
    }
}

/// Brings the path of a hierarchical URL into its canonical form.
pub fn canonicalize_pathname(value: &str) -> (r: Result<String, Error>)
    ensures
        string_result_view(r) == canonical_pathname(value@),
{
    if value.is_empty() {
        return Ok(String::new());
    }
    if value.unicode_len() > MAX_VALUE_LEN {
        return Err(Error::Url(url::ParseError::Overflow));
    }
    match parse_base("http://dummy.test") {
        Err(e) => Err(e),
        Ok(mut url) => {
            set_url_path(&mut url, value);
            Ok(path_of_url(&url))
        },
    }
}

/// Brings an opaque path into its canonical form.
pub fn canonicalize_cannot_be_a_base_url_pathname(value: &str) -> (r: Result<String, Error>)
    ensures
        string_result_view(r) == canonical_opaque_pathname(value@),
{
    if value.is_empty() {
        return Ok(String::new());
    }
    if value.unicode_len() > MAX_VALUE_LEN {
        return Err(Error::Url(url::ParseError::Overflow));
    }
    match parse_base("data:dummy,test") {
        Err(e) => Err(e),
        Ok(mut url) => {
            set_url_path(&mut url, value);
            Ok(path_of_url(&url))
        },
    }
}

/// Brings a query into its canonical form, in which it is
/// percent-encoded.
pub fn canonicalize_search(value: &str) -> (r: Result<String, Error>)
    ensures
        string_result_view(r) == canonical_search(value@),
{
    if value.is_empty() {
        return Ok(String::new());
    }
    if value.unicode_len() > MAX_VALUE_LEN {
        return Err(Error::Url(url::ParseError::Overflow));
    }
    match parse_base("http://dummy.test") {
        Err(e) => Err(e),
        Ok(mut url) => {
            set_url_query(&mut url, value);
            Ok(owned_or_empty(query_of_url(&url)))
        },
    }
}

/// Brings a fragment into its canonical form, in which it is
/// percent-encoded.
pub fn canonicalize_hash(value: &str) -> (r: Result<String, Error>)
    ensures
        string_result_view(r) == canonical_hash(value@),
{
    if value.is_empty() {
        return Ok(String::new());
    }
    if value.unicode_len() > MAX_VALUE_LEN {
        return Err(Error::Url(url::ParseError::Overflow));
    }
    match parse_base("http://dummy.test") {
        Err(e) => Err(e),
        Ok(mut url) => {
            set_url_fragment(&mut url, value);
            Ok(owned_or_empty(fragment_of_url(&url)))
        },
    }
}

/// `value` without one colon at its end.
pub open spec fn without_trailing_colon(value: Seq<char>) -> Seq<char> {
    if value.len() > 0 && value.last() == ':' {
        value.drop_last()
    } else {
        value
    }
}

/// `value` without one `c` at its start.
pub open spec fn without_leading(value: Seq<char>, c: char) -> Seq<char> {
    if value.len() > 0 && value[0] == c {
        value.subrange(1, value.len() as int)
    } else {
        value
    }
}

/// `value` as a pattern keeps it, or as `canonical` gives it for a URL.
pub open spec fn kept_or(kind: ProcessType, value: Seq<char>, canonical: Result<
    Seq<char>,
    ErrorView,
>) -> Result<Seq<char>, ErrorView> {
    if kind == ProcessType::Pattern {
        Ok(value)
    } else {
        canonical
    }
}

/// Whether `scheme` is one of the six special schemes.
pub open spec fn is_special_scheme_spec(scheme: Seq<char>) -> bool {
    scheme == "http"@ || scheme == "https"@ || scheme == "ws"@ || scheme == "wss"@ || scheme
        == "ftp"@ || scheme == "file"@
}

/// The port that a special scheme stands for where a URL names none.
pub open spec fn default_port(scheme: Seq<char>) -> Option<Seq<char>> {
    if scheme == "http"@ || scheme == "ws"@ {
        Some("80"@)
    } else if scheme == "https"@ || scheme == "wss"@ {
        Some("443"@)
    } else if scheme == "ftp"@ {
        Some("21"@)
    } else {
        None
    }
}

/// The canonical form of a path under `protocol`: that of a hierarchical
/// URL where the protocol is empty or special, else that of an opaque path.
pub open spec fn canonical_pathname_under(value: Seq<char>, protocol: Option<Seq<char>>) -> Result<
    Seq<char>,
    ErrorView,
> {
    match protocol {
        Some(p) => if p.len() == 0 || is_special_scheme_spec(p) {
            canonical_pathname(value)
        } else {
            canonical_opaque_pathname(value)
        },
        None => canonical_opaque_pathname(value),
    }
}

/// Whether `scheme` is one of the six special schemes.
pub fn is_special_scheme(scheme: &str) -> (r: bool)
    ensures
        r == is_special_scheme_spec(scheme@),
{
    str_eq(scheme, "http") || str_eq(scheme, "https") || str_eq(scheme, "ws") || str_eq(
        scheme,
        "wss",
    ) || str_eq(scheme, "ftp") || str_eq(scheme, "file")
}

/// The port that a special scheme stands for where a URL names none.
pub fn special_scheme_default_port(scheme: &str) -> (r: Option<&'static str>)
    ensures
        option_str_view(r) == default_port(scheme@),
{
    if str_eq(scheme, "http") || str_eq(scheme, "ws") {
        Some("80")
    } else if str_eq(scheme, "https") || str_eq(scheme, "wss") {
        Some("443")
    } else if str_eq(scheme, "ftp") {
        Some("21")
    } else {
        None
    }
}

/// `value` without one colon at its end.
fn strip_trailing_colon(value: &str) -> (r: String)
    ensures
        r@ == without_trailing_colon(value@),
{
    let chars = chars_of(value);
    let n = chars.len();
    if n > 0 && chars[n - 1] == ':' {
        let r = string_of(&chars, 0, n - 1);
        assert(value@.drop_last() =~= value@.subrange(0, n - 1));
        r
    } else {
        value.to_owned()
    }
}

/// `value` without one `c` at its start.
fn strip_leading(value: &str, c: char) -> (r: String)
    ensures
        r@ == without_leading(value@, c),
{
    let chars = chars_of(value);
    let n = chars.len();
    if n > 0 && chars[0] == c {
        string_of(&chars, 1, n)
    } else {
        value.to_owned()
    }
}

/// Prepares the protocol of an init record: a colon at its end is taken
/// off, and for a URL the rest is canonicalized.
pub fn process_protocol_init(value: &str, kind: &ProcessType) -> (r: Result<String, Error>)
    ensures
        string_result_view(r) == kept_or(
            *kind,
            without_trailing_colon(value@),
            canonical_protocol(without_trailing_colon(value@)),
        ),
{
    let stripped = strip_trailing_colon(value);
    if *kind == ProcessType::Pattern {
        Ok(stripped)
    } else {
        canonicalize_protocol(stripped.as_str())
    }
}

/// Prepares the username of an init record.
pub fn process_username_init(value: &str, kind: &ProcessType) -> (r: Result<String, Error>)
    ensures
        string_result_view(r) == kept_or(*kind, value@, canonical_username(value@)),
{
    if *kind == ProcessType::Pattern {
        Ok(value.to_owned())
    } else {
        canonicalize_username(value)
    }
}

/// Prepares the password of an init record.
pub fn process_password_init(value: &str, kind: &ProcessType) -> (r: Result<String, Error>)
    ensures
        string_result_view(r) == kept_or(*kind, value@, canonical_password(value@)),
{
    if *kind == ProcessType::Pattern {
        Ok(value.to_owned())
    } else {
        canonicalize_password(value)
    }
}

/// Prepares the hostname of an init record.
pub fn process_hostname_init(value: &str, kind: &ProcessType) -> (r: Result<String, Error>)
    ensures
        string_result_view(r) == kept_or(*kind, value@, canonical_hostname(value@)),
{
    if *kind == ProcessType::Pattern {
        Ok(value.to_owned())
    } else {
        canonicalize_hostname(value)
    }
}

/// Prepares the port of an init record, for a URL under the given
/// protocol.
pub fn process_port_init(port_value: &str, protocol_value: Option<&str>, kind: &ProcessType) -> (r:
    Result<String, Error>)
    ensures
        string_result_view(r) == kept_or(
            *kind,
            port_value@,
            canonical_port(port_value@, option_str_view(protocol_value)),
        ),
{
    if *kind == ProcessType::Pattern {
        Ok(port_value.to_owned())
    } else {
        canonicalize_port(port_value, protocol_value)
    }
}

/// Prepares the pathname of an init record; for a URL it is canonicalized
/// as a hierarchical path where the protocol is empty or special, else as
/// an opaque path.
pub fn process_pathname_init(
    pathname_value: &str,
    protocol_value: Option<&str>,
    kind: &ProcessType,
) -> (r: Result<String, Error>)
    ensures
        string_result_view(r) == kept_or(
            *kind,
            pathname_value@,
            canonical_pathname_under(pathname_value@, option_str_view(protocol_value)),
        ),
{
    if *kind == ProcessType::Pattern {
        Ok(pathname_value.to_owned())
    } else {
        match protocol_value {
            Some(protocol) => {
                if protocol.is_empty() || is_special_scheme(protocol) {
                    canonicalize_pathname(pathname_value)
                } else {
                    canonicalize_cannot_be_a_base_url_pathname(pathname_value)
                }
            },
            None => canonicalize_cannot_be_a_base_url_pathname(pathname_value),
        }
    }
}

/// Prepares the search of an init record: a question mark at its start is
/// taken off, and for a URL the rest is canonicalized.
pub fn process_search_init(value: &str, kind: &ProcessType) -> (r: Result<String, Error>)
    ensures
        string_result_view(r) == kept_or(
            *kind,
            without_leading(value@, '?'),
            canonical_search(without_leading(value@, '?')),
        ),
{
    let stripped = strip_leading(value, '?');
    if *kind == ProcessType::Pattern {
        Ok(stripped)
    } else {
        canonicalize_search(stripped.as_str())
    }
}

/// Prepares the hash of an init record: a number sign at its start is
/// taken off, and for a URL the rest is canonicalized.
pub fn process_hash_init(value: &str, kind: &ProcessType) -> (r: Result<String, Error>)
    ensures
        string_result_view(r) == kept_or(
            *kind,
            without_leading(value@, '#'),
            canonical_hash(without_leading(value@, '#')),
        ),
{
    let stripped = strip_leading(value, '#');
    if *kind == ProcessType::Pattern {
        Ok(stripped)
    } else {
        canonicalize_hash(stripped.as_str())
    }
}

/// The canonical form that the literal text of a pattern is brought into:
/// one for each kind of component, and one that leaves the text as it
/// stands.
#[derive(Debug, Clone, Copy, PartialEq, Eq, Structural)]
pub enum Encoding {
    Verbatim,
    Protocol,
    Username,
    Password,
    Hostname,
    Ipv6Hostname,
    Port,
    Pathname,
    OpaquePathname,
    Search,
    Hash,
}

/// `value` in the canonical form that `encoding` names.
pub open spec fn encoded(encoding: Encoding, value: Seq<char>) -> Result<Seq<char>, ErrorView> {
    match encoding {
        Encoding::Verbatim => Ok(value),
        Encoding::Protocol => canonical_protocol(value),
        Encoding::Username => canonical_username(value),
        Encoding::Password => canonical_password(value),
        Encoding::Hostname => canonical_hostname(value),
        Encoding::Ipv6Hostname => canonical_ipv6_hostname(value),
        Encoding::Port => canonical_port(value, None),
        Encoding::Pathname => canonical_pathname(value),
        Encoding::OpaquePathname => canonical_opaque_pathname(value),
        Encoding::Search => canonical_search(value),
        Encoding::Hash => canonical_hash(value),
    }
}

/// Brings `value` into the canonical form that `encoding` names.
pub fn encode(encoding: Encoding, value: &str) -> (r: Result<String, Error>)
    ensures
        string_result_view(r) == encoded(encoding, value@),
{
    match encoding {
        Encoding::Verbatim => Ok(value.to_owned()),
        Encoding::Protocol => canonicalize_protocol(value),
        Encoding::Username => canonicalize_username(value),
        Encoding::Password => canonicalize_password(value),
        Encoding::Hostname => canonicalize_hostname(value),
        Encoding::Ipv6Hostname => canonicalize_ipv6_hostname(value),
        Encoding::Port => canonicalize_port(value, None),
        Encoding::Pathname => canonicalize_pathname(value),
        Encoding::OpaquePathname => canonicalize_cannot_be_a_base_url_pathname(value),
        Encoding::Search => canonicalize_search(value),
        Encoding::Hash => canonicalize_hash(value),
    }
}

/// What the literal text of a pattern is brought into canonical form by,
/// as a function from a text to the text in that form or an error.
pub type Encoder = spec_fn(Seq<char>) -> Result<Seq<char>, ErrorView>;

/// What brings the literal text of a pattern into canonical form: one of
/// the encodings of this library, or a function of a caller's own.
pub trait EncodingCallback {
    /// Whether this can be called with every text and gives one result for
    /// one text.
    spec fn is_function(&self) -> bool;

    /// What this gives for `text`.
    spec fn given(&self, text: Seq<char>) -> Result<Seq<char>, ErrorView>;

    /// Brings `text` into canonical form.
    fn canonicalize(&self, text: &str) -> (r: Result<String, Error>)
        requires
            self.is_function(),
        ensures
            string_result_view(r) == self.given(text@),
    ;
}

impl EncodingCallback for Encoding {
    open spec fn is_function(&self) -> bool {
        true
    }

    open spec fn given(&self, text: Seq<char>) -> Result<Seq<char>, ErrorView> {
        encoded(*self, text)
    }

    fn canonicalize(&self, text: &str) -> (r: Result<String, Error>) {
        encode(*self, text)
    }
}

/// A function of a caller's own that brings literal text into canonical
/// form.
pub struct Callback<F>(pub F);

impl<F: Fn(&str) -> Result<String, Error>> EncodingCallback for Callback<F> {
    open spec fn is_function(&self) -> bool {
        &&& forall|s: &str| call_requires(self.0, (s,))
        &&& forall|s: &str, t: &str, a: Result<String, Error>, b: Result<String, Error>|
            s@ == t@ && #[trigger] call_ensures(self.0, (s,), a) && #[trigger] call_ensures(
                self.0,
                (t,),
                b,
            ) ==> string_result_view(a) == string_result_view(b)
    }

    open spec fn given(&self, text: Seq<char>) -> Result<Seq<char>, ErrorView> {
        let found = choose|s: &str, a: Result<String, Error>|
            s@ == text && #[trigger] call_ensures(self.0, (s,), a);
        string_result_view(found.1)
    }

    fn canonicalize(&self, text: &str) -> (r: Result<String, Error>) {
        let r = (self.0)(text);
        assert(call_ensures(self.0, (text,), r));
        r
    }
}

/// The encoding callback `callback` as a function of the text.
pub open spec fn encoder<E: EncodingCallback>(callback: E) -> Encoder {
    |text: Seq<char>| callback.given(text)
}

} // verus!
