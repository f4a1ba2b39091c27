use urlpattern::error::ParserError;
use urlpattern::error::TokenizerError;
use urlpattern::Error;
use urlpattern::UrlPattern;
use urlpattern::UrlPatternInit;
use urlpattern::UrlPatternMatchInput;
use urlpattern::UrlPatternResult;

fn init() -> UrlPatternInit {
    UrlPatternInit::default()
}

fn url(text: &str) -> UrlPatternMatchInput {
    UrlPatternMatchInput::Url(url::Url::parse(text).unwrap())
}

fn from_string(pattern: &str, base: Option<&str>) -> Result<UrlPattern, Error> {
    let base = base.map(|b| url::Url::parse(b).unwrap());
    UrlPatternInit::parse_constructor_string(pattern, base).and_then(UrlPattern::parse)
}

fn exec(pattern: &UrlPattern, input: UrlPatternMatchInput) -> Option<UrlPatternResult> {
    pattern.exec(input).unwrap()
}

fn pairs(list: &[(&str, &str)]) -> Vec<(String, String)> {
    list.iter().map(|(a, b)| (a.to_string(), b.to_string())).collect()
}

#[test]
fn named_group_in_pathname_of_init() {
    let pattern =
        UrlPattern::parse(UrlPatternInit { pathname: Some("/users/:id".to_string()), ..init() })
            .unwrap();
    assert_eq!(pattern.pathname(), "/users/:id");
    assert_eq!(pattern.protocol(), "*");
    let result = exec(&pattern, url("https://example.com/users/123")).unwrap();
    assert_eq!(result.pathname.input, "/users/123");
    assert_eq!(result.pathname.groups, pairs(&[("id", "123")]));
    assert_eq!(result.pathname.group("id"), Some("123".to_string()));
    assert_eq!(result.pathname.group("other"), None);
    assert_eq!(result.protocol.groups, pairs(&[("0", "https")]));
    assert_eq!(result.hostname.groups, pairs(&[("0", "example.com")]));
    assert_eq!(pattern.test(url("https://example.com/users/123")), Ok(true));
    assert_eq!(pattern.test(url("https://example.com/users/")), Ok(false));
    assert_eq!(pattern.test(url("https://example.com/users/1/2")), Ok(false));
}

#[test]
fn constructor_string_with_protocol_and_host() {
    let pattern = from_string("https://example.com/foo/:bar", None).unwrap();
    assert_eq!(pattern.protocol(), "https");
    assert_eq!(pattern.username(), "");
    assert_eq!(pattern.password(), "");
    assert_eq!(pattern.hostname(), "example.com");
    assert_eq!(pattern.port(), "");
    assert_eq!(pattern.pathname(), "/foo/:bar");
    assert_eq!(pattern.search(), "");
    assert_eq!(pattern.hash(), "");
    let result = exec(&pattern, url("https://example.com/foo/baz")).unwrap();
    assert_eq!(result.pathname.groups, pairs(&[("bar", "baz")]));
    assert!(result.protocol.groups.is_empty());
    assert_eq!(result.hostname.input, "example.com");
    assert!(exec(&pattern, url("http://example.com/foo/baz")).is_none());
    assert!(exec(&pattern, url("https://example.org/foo/baz")).is_none());
    assert!(exec(&pattern, url("https://example.com/foo/baz?q")).is_none());
}

#[test]
fn relative_constructor_string_with_base() {
    let pattern = from_string("/foo/*", Some("https://example.com/")).unwrap();
    assert_eq!(pattern.protocol(), "https");
    assert_eq!(pattern.hostname(), "example.com");
    assert_eq!(pattern.pathname(), "/foo/*");
    let result = exec(&pattern, url("https://example.com/foo/a/b")).unwrap();
    assert_eq!(result.pathname.groups, pairs(&[("0", "a/b")]));
}

#[test]
fn relative_constructor_string_needs_a_base() {
    assert_eq!(
        UrlPatternInit::parse_constructor_string("/foo/*", None),
        Err(Error::BaseUrlRequired)
    );
}

#[test]
fn optional_group_that_takes_no_part_is_empty() {
    let pattern =
        UrlPattern::parse(UrlPatternInit { pathname: Some("/a/:x?".to_string()), ..init() })
            .unwrap();
    assert_eq!(pattern.pathname(), "/a/:x?");
    let result = exec(&pattern, url("https://example.com/a")).unwrap();
    assert_eq!(result.pathname.group("x"), Some(String::new()));
    assert_eq!(result.pathname.groups, pairs(&[("x", "")]));
    let result = exec(&pattern, url("https://example.com/a/b")).unwrap();
    assert_eq!(result.pathname.groups, pairs(&[("x", "b")]));
}

#[test]
fn opaque_path_behind_a_protocol_that_is_not_special() {
    let pattern = from_string("data\\:foo", None).unwrap();
    assert_eq!(pattern.protocol(), "data");
    assert_eq!(pattern.pathname(), "foo");
    assert_eq!(pattern.hostname(), "");
    let result = exec(&pattern, url("data:foo")).unwrap();
    assert_eq!(result.protocol.input, "data");
    assert_eq!(result.pathname.input, "foo");
    assert!(exec(&pattern, url("data:bar")).is_none());
}

#[test]
fn unescaped_colon_before_a_name_is_a_group() {
    assert_eq!(
        UrlPatternInit::parse_constructor_string("data:foo", None),
        Err(Error::BaseUrlRequired)
    );
}

#[test]
fn ipv6_hostname() {
    let pattern = UrlPattern::parse(UrlPatternInit {
        hostname: Some("[\\:\\:AB]".to_string()),
        ..init()
    })
    .unwrap();
    assert_eq!(pattern.hostname(), "[\\:\\:ab]");
    assert!(exec(&pattern, url("http://[::ab]/")).is_some());
    assert!(exec(&pattern, url("http://[::ac]/")).is_none());
    let one = UrlPattern::parse(UrlPatternInit {
        hostname: Some("[\\:\\:1]".to_string()),
        ..init()
    })
    .unwrap();
    assert_eq!(one.hostname(), "[\\:\\:1]");
    assert!(exec(&one, url("http://[::1]/")).is_some());
}

#[test]
fn ipv6_hostname_takes_hexadecimal_digits_only() {
    let r = UrlPattern::parse(UrlPatternInit {
        hostname: Some("[\\:\\:xy]".to_string()),
        ..init()
    });
    assert_eq!(r.err(), Some(Error::Url(url::ParseError::InvalidIpv6Address)));
}

#[test]
fn unescaped_colons_of_an_address_are_no_names() {
    let r = UrlPattern::parse(UrlPatternInit { hostname: Some("[::1]".to_string()), ..init() });
    assert_eq!(r.err(), Some(Error::Tokenizer(TokenizerError::InvalidName, 2)));
}

#[test]
fn duplicate_name_is_an_error() {
    let r = from_string("/a/:dup/:dup", Some("https://example.com/"));
    assert_eq!(r.err(), Some(Error::Parser(ParserError::DuplicateName("dup".to_string()))));
}

#[test]
fn group_that_starts_with_a_question_mark_is_an_error() {
    let r = UrlPattern::parse(UrlPatternInit {
        pathname: Some("/a(?invalid)".to_string()),
        ..init()
    });
    assert_eq!(
        r.err(),
        Some(Error::Tokenizer(TokenizerError::InvalidRegex("must not start with ?"), 3))
    );
}

#[test]
fn default_port_of_the_scheme_is_left_out() {
    let pattern = UrlPattern::parse(UrlPatternInit {
        protocol: Some("https".to_string()),
        port: Some("443".to_string()),
        ..init()
    })
    .unwrap();
    assert_eq!(pattern.port(), "");
    let other = UrlPattern::parse(UrlPatternInit {
        protocol: Some("https".to_string()),
        port: Some("8443".to_string()),
        ..init()
    })
    .unwrap();
    assert_eq!(other.port(), "8443");
    let plain = UrlPattern::parse(UrlPatternInit {
        protocol: Some("foo".to_string()),
        port: Some("80".to_string()),
        ..init()
    })
    .unwrap();
    assert_eq!(plain.port(), "80");
    let ftp = UrlPattern::parse(UrlPatternInit {
        protocol: Some("ftp:".to_string()),
        port: Some("21".to_string()),
        ..init()
    })
    .unwrap();
    assert_eq!(ftp.protocol(), "ftp");
    assert_eq!(ftp.port(), "");
}

#[test]
fn init_input_is_canonicalized_before_the_match() {
    let pattern =
        UrlPattern::parse(UrlPatternInit { pathname: Some("/a b/:x".to_string()), ..init() })
            .unwrap();
    assert_eq!(pattern.pathname(), "/a%20b/:x");
    let input = UrlPatternMatchInput::Init(UrlPatternInit {
        pathname: Some("/a b/c".to_string()),
        ..init()
    });
    let result = exec(&pattern, input).unwrap();
    assert_eq!(result.pathname.input, "/a%20b/c");
    assert_eq!(result.pathname.groups, pairs(&[("x", "c")]));
    assert_eq!(result.protocol.input, "");
}

#[test]
fn init_input_that_cannot_be_canonicalized_matches_nothing() {
    let pattern = UrlPattern::parse(init()).unwrap();
    let input =
        UrlPatternMatchInput::Init(UrlPatternInit { port: Some("x".to_string()), ..init() });
    assert_eq!(pattern.exec(input), Ok(None));
    let input =
        UrlPatternMatchInput::Init(UrlPatternInit { port: Some("80".to_string()), ..init() });
    assert_eq!(pattern.test(input), Ok(true));
}

#[test]
fn init_with_base_url_resolves_relative_pathname() {
    let base = url::Url::parse("https://example.com/a/b?q#h").unwrap();
    let pattern = UrlPattern::parse(UrlPatternInit {
        pathname: Some("c/:d".to_string()),
        base_url: Some(base),
        ..init()
    })
    .unwrap();
    assert_eq!(pattern.protocol(), "https");
    assert_eq!(pattern.hostname(), "example.com");
    assert_eq!(pattern.pathname(), "/a/c/:d");
    assert_eq!(pattern.search(), "q");
    assert_eq!(pattern.hash(), "h");
    assert_eq!(pattern.test(url("https://example.com/a/c/x?q#h")), Ok(true));
    assert_eq!(pattern.test(url("https://example.com/a/c/x")), Ok(false));
}
