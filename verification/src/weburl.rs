//! URLs, as the `url` crate parses, changes and reads them. A `url::Url` is
//! opaque here. The names below say what the crate reads from such a value
//! and makes of it; they speak of the value and not of its serialization,
//! since the crate keeps more in a value than its serialization shows.

use crate::text::option_string_view;
use vstd::prelude::*;

verus! {

/// A parsed URL of the `url` crate.
#[verifier::external_type_specification]
#[verifier::external_body]
pub struct ExUrl(url::Url);

/// The error of the `url` crate's parser: an enum without fields.
#[verifier::external_type_specification]
pub struct ExParseError(url::ParseError);

/// What the `url` crate writes for one of its errors.
pub uninterp spec fn url_error_text(e: url::ParseError) -> Seq<char>;

/// Calls `to_string` of `url::ParseError`, which writes a fixed text for
/// each variant. The text is given its name.
#[verifier::external_body]
pub(crate) fn parse_error_text(e: url::ParseError) -> (r: String)
    ensures
        r@ == url_error_text(e),
{
    e.to_string()
}

/// The most code points of a value that is written into a URL. The `url`
/// crate keeps offsets in 32 bits and stops where a URL outgrows them; a
/// code point takes at most twelve bytes once it is percent-encoded.
pub const MAX_VALUE_LEN: usize = 268435455;

/// The most code points of a URL into which a value is written. A code point
/// of a serialization takes at most four bytes, so that the URL and the
/// value together stay within the 32 bits of an offset, with fifteen bytes
/// to spare for the delimiters that a setter writes.
pub const MAX_BASE_LEN: usize = 268435455;

/// The serialization that `url` holds.
pub uninterp spec fn url_text(url: url::Url) -> Seq<char>;

/// Whether `url` is as the parser of the `url` crate left it. A value that
/// went through `Url::set_host` with no host keeps a record of the host it
/// had and offsets that its serialization no longer bears out; on such a
/// value `Url::set_username` can stop the program. Nothing but a value as
/// the parser left it is handed to a setter or to `Url::join`.
pub uninterp spec fn url_as_parsed(url: url::Url) -> bool;

/// The URL that `Url::parse` makes of `input`.
pub uninterp spec fn url_parsed(input: Seq<char>) -> Result<url::Url, url::ParseError>;

/// The URL that `input` is relative to the URL `base`.
pub uninterp spec fn url_joined(base: url::Url, input: Seq<char>) -> Result<
    url::Url,
    url::ParseError,
>;

/// The scheme of `url`, without the colon.
pub uninterp spec fn url_scheme(url: url::Url) -> Seq<char>;

/// The username of `url`, percent-encoded.
pub uninterp spec fn url_username(url: url::Url) -> Seq<char>;

/// The password of `url`, percent-encoded, if it has one.
pub uninterp spec fn url_password(url: url::Url) -> Option<Seq<char>>;

/// The host of `url` as text; empty where it has none.
pub uninterp spec fn url_hostname(url: url::Url) -> Seq<char>;

/// The port of `url` as decimal text; empty where it has none or the
/// default of its scheme.
pub uninterp spec fn url_port(url: url::Url) -> Seq<char>;

/// The path of `url`, percent-encoded.
pub uninterp spec fn url_path(url: url::Url) -> Seq<char>;

/// The query of `url` without the question mark, if it has one.
pub uninterp spec fn url_query(url: url::Url) -> Option<Seq<char>>;

/// The fragment of `url` without the number sign, if it has one.
pub uninterp spec fn url_fragment(url: url::Url) -> Option<Seq<char>>;

/// Whether `url` has an opaque path, so that no relative URL resolves
/// against it.
pub uninterp spec fn url_cannot_be_a_base(url: url::Url) -> bool;

/// `url` after its username was set to `value`, where that is possible.
pub uninterp spec fn url_username_set(url: url::Url, value: Seq<char>) -> Option<url::Url>;

/// `url` after its password was set to `value`, where that is possible.
pub uninterp spec fn url_password_set(url: url::Url, value: Seq<char>) -> Option<url::Url>;

/// `url` after its host was set to `value`, where that is possible.
pub uninterp spec fn url_hostname_set(url: url::Url, value: Seq<char>) -> Option<url::Url>;

/// `url` after its port was set to `port`, where that is possible.
pub uninterp spec fn url_port_set(url: url::Url, port: u16) -> Option<url::Url>;

/// `url` after its path was set to `value`.
pub uninterp spec fn url_path_set(url: url::Url, value: Seq<char>) -> url::Url;

/// `url` after its query was set to `value`.
pub uninterp spec fn url_query_set(url: url::Url, value: Seq<char>) -> url::Url;

/// `url` after its fragment was set to `value`.
pub uninterp spec fn url_fragment_set(url: url::Url, value: Seq<char>) -> url::Url;

/// Calls `Url::parse`. The URL that it makes depends on `input` alone and
/// is given its name; it is a value as the parser left it.
#[verifier::external_body]
pub(crate) fn parse_url(input: &str) -> (r: Result<url::Url, url::ParseError>)
    ensures
        r == url_parsed(input@),
        r matches Ok(u) ==> url_as_parsed(u),
{
    url::Url::parse(input)
}

/// Calls `Url::join`, which parses `input` with `base` as the base URL. The
/// URL that it makes depends on the two alone and is given its name.
#[verifier::external_body]
pub(crate) fn join_url(base: &url::Url, input: &str) -> (r: Result<url::Url, url::ParseError>)
    requires
        url_as_parsed(*base),
    ensures
        r == url_joined(*base, input@),
{
    base.join(input)
}

/// Calls `Url::as_str`, which returns the serialization.
#[verifier::external_body]
pub(crate) fn text_of_url(url: &url::Url) -> (r: String)
    ensures
        r@ == url_text(*url),
{
    url.as_str().to_string()
}

/// Calls `Url::scheme`.
#[verifier::external_body]
pub(crate) fn scheme_of_url(url: &url::Url) -> (r: String)
    ensures
        r@ == url_scheme(*url),
{
    url.scheme().to_string()
}

/// Calls `Url::username`.
#[verifier::external_body]
pub(crate) fn username_of_url(url: &url::Url) -> (r: String)
    ensures
        r@ == url_username(*url),
{
    url.username().to_string()
}

/// Calls `Url::password`.
#[verifier::external_body]
pub(crate) fn password_of_url(url: &url::Url) -> (r: Option<String>)
    ensures
        option_string_view(r) == url_password(*url),
{
    url.password().map(|s| s.to_string())
}

/// Calls `url::quirks::hostname`, which cuts the host out of the
/// serialization and gives the empty text where the URL has no host.
#[verifier::external_body]
pub(crate) fn hostname_of_url(url: &url::Url) -> (r: String)
    ensures
        r@ == url_hostname(*url),
{
    url::quirks::hostname(url).to_string()
}

/// Calls `url::quirks::port`.
#[verifier::external_body]
pub(crate) fn port_of_url(url: &url::Url) -> (r: String)
    ensures
        r@ == url_port(*url),
{
    url::quirks::port(url).to_string()
}

/// Calls `url::quirks::pathname`, which is `Url::path`.
#[verifier::external_body]
pub(crate) fn path_of_url(url: &url::Url) -> (r: String)
    ensures
        r@ == url_path(*url),
{
    url::quirks::pathname(url).to_string()
}

/// Calls `Url::query`.
#[verifier::external_body]
pub(crate) fn query_of_url(url: &url::Url) -> (r: Option<String>)
    ensures
        option_string_view(r) == url_query(*url),
{
    url.query().map(|s| s.to_string())
}

/// Calls `Url::fragment`.
#[verifier::external_body]
pub(crate) fn fragment_of_url(url: &url::Url) -> (r: Option<String>)
    ensures
        option_string_view(r) == url_fragment(*url),
{
    url.fragment().map(|s| s.to_string())
}

/// Calls `Url::cannot_be_a_base`.
#[verifier::external_body]
pub(crate) fn url_is_opaque(url: &url::Url) -> (r: bool)
    ensures
        r == url_cannot_be_a_base(*url),
{
    url.cannot_be_a_base()
}

/// Calls `Url::set_username`, which fails on a URL without a host and on a
/// `file` URL. The URL that results is given its name.
#[verifier::external_body]
pub(crate) fn set_url_username(url: &mut url::Url, value: &str) -> (r: Result<(), ()>)
    requires
        url_as_parsed(*old(url)),
        value@.len() <= MAX_VALUE_LEN,
        url_text(*old(url)).len() <= MAX_BASE_LEN,
    ensures
        r is Ok <==> url_username_set(*old(url), value@) is Some,
        r is Ok ==> Some(*final(url)) == url_username_set(*old(url), value@),
{
    url.set_username(value)
}

/// Calls `Url::set_password`, which fails on a URL without a host and on a
/// `file` URL. The URL that results is given its name.
#[verifier::external_body]
pub(crate) fn set_url_password(url: &mut url::Url, value: &str) -> (r: Result<(), ()>)
    requires
        url_as_parsed(*old(url)),
        value@.len() <= MAX_VALUE_LEN,
        url_text(*old(url)).len() <= MAX_BASE_LEN,
    ensures
        r is Ok <==> url_password_set(*old(url), value@) is Some,
        r is Ok ==> Some(*final(url)) == url_password_set(*old(url), value@),
{
    url.set_password(Some(value))
}

/// Calls `url::quirks::set_hostname`, which fails where `value` is no host
/// for the URL's scheme. The URL that results is given its name.
#[verifier::external_body]
pub(crate) fn set_url_hostname(url: &mut url::Url, value: &str) -> (r: Result<(), ()>)
    requires
        url_as_parsed(*old(url)),
        value@.len() <= MAX_VALUE_LEN,
        url_text(*old(url)).len() <= MAX_BASE_LEN,
    ensures
        r is Ok <==> url_hostname_set(*old(url), value@) is Some,
        r is Ok ==> Some(*final(url)) == url_hostname_set(*old(url), value@),
{
    url::quirks::set_hostname(url, value)
}

/// Calls `Url::set_port`, which fails on a URL without a host and on a
/// `file` URL. The URL that results is given its name.
#[verifier::external_body]
pub(crate) fn set_url_port(url: &mut url::Url, port: u16) -> (r: Result<(), ()>)
    requires
        url_as_parsed(*old(url)),
        url_text(*old(url)).len() <= MAX_BASE_LEN,
    ensures
        r is Ok <==> url_port_set(*old(url), port) is Some,
        r is Ok ==> Some(*final(url)) == url_port_set(*old(url), port),
{
    url.set_port(Some(port))
}

/// Calls `Url::set_path`. The URL that results is given its name.
#[verifier::external_body]
pub(crate) fn set_url_path(url: &mut url::Url, value: &str)
    requires
        url_as_parsed(*old(url)),
        value@.len() <= MAX_VALUE_LEN,
        url_text(*old(url)).len() <= MAX_BASE_LEN,
    ensures
        *final(url) == url_path_set(*old(url), value@),
{
    url.set_path(value)
}

/// Calls `Url::set_query`. The URL that results is given its name.
#[verifier::external_body]
pub(crate) fn set_url_query(url: &mut url::Url, value: &str)
    requires
        url_as_parsed(*old(url)),
        value@.len() <= MAX_VALUE_LEN,
        url_text(*old(url)).len() <= MAX_BASE_LEN,
    ensures
        *final(url) == url_query_set(*old(url), value@),
{
    url.set_query(Some(value))
}

/// Calls `Url::set_fragment`. The URL that results is given its name.
#[verifier::external_body]
pub(crate) fn set_url_fragment(url: &mut url::Url, value: &str)
    requires
        url_as_parsed(*old(url)),
        value@.len() <= MAX_VALUE_LEN,
        url_text(*old(url)).len() <= MAX_BASE_LEN,
    ensures
        *final(url) == url_fragment_set(*old(url), value@),
{
    url.set_fragment(Some(value))
}

} // verus!
