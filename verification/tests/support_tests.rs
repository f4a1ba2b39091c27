use urlpattern::error::Error;
use urlpattern::error::ParserError;
use urlpattern::error::TokenizerError;
use urlpattern::pattern::elide_default_port;
use urlpattern::pattern::parse_match_input;
use urlpattern::pattern::MatchInput;
use urlpattern::quirks;
use urlpattern::text::chars_of;
use urlpattern::text::decimal_string;
use urlpattern::text::has_at;
use urlpattern::text::has_text;
use urlpattern::text::parse_u16;
use urlpattern::text::str_eq;
use urlpattern::text::str_is_char;
use urlpattern::text::string_from_chars;
use urlpattern::text::string_of;
use urlpattern::text::to_ascii_lower;
use urlpattern::tokenizer::is_valid_name_codepoint;
use urlpattern::tokenizer::TokenType;
use urlpattern::UrlPattern;
use urlpattern::UrlPatternInit;
use urlpattern::UrlPatternMatchInput;

fn some(s: &str) -> Option<String> {
    Some(s.to_string())
}

#[test]
fn strings_and_code_points() {
    let v = chars_of("aé€b");
    assert_eq!(v, vec!['a', 'é', '€', 'b']);
    assert_eq!(string_of(&v, 1, 3), "é€");
    assert_eq!(string_of(&v, 2, 2), "");
    assert_eq!(string_from_chars(&v), "aé€b");
    assert!(str_eq("aé", "aé"));
    assert!(!str_eq("aé", "ae"));
    assert!(!str_eq("a", "ab"));
    assert!(str_is_char("é", 'é'));
    assert!(!str_is_char("éé", 'é'));
    assert!(!str_is_char("", 'é'));
    assert_eq!(to_ascii_lower('A'), 'a');
    assert_eq!(to_ascii_lower('Z'), 'z');
    assert_eq!(to_ascii_lower('a'), 'a');
    assert_eq!(to_ascii_lower('É'), 'É');
    assert_eq!(to_ascii_lower('['), '[');
}

#[test]
fn decimal_numbers() {
    assert_eq!(decimal_string(0), "0");
    assert_eq!(decimal_string(7), "7");
    assert_eq!(decimal_string(10), "10");
    assert_eq!(decimal_string(9053), "9053");
    assert_eq!(parse_u16("0"), Some(0));
    assert_eq!(parse_u16("007"), Some(7));
    assert_eq!(parse_u16("+65535"), Some(65535));
    assert_eq!(parse_u16("65536"), None);
    assert_eq!(parse_u16(""), None);
    assert_eq!(parse_u16("+"), None);
    assert_eq!(parse_u16("1 "), None);
    assert_eq!(parse_u16("１"), None);
    for s in ["1", "80", "443", "+1", "00", "70000", "a", "-0", "++1", "6553", "65535", "655350"] {
        assert_eq!(parse_u16(s), s.parse::<u16>().ok(), "{}", s);
    }
}

#[test]
fn search_in_code_points() {
    let s = chars_of("abcabc");
    assert!(has_at(&s, 0, &chars_of("abc")));
    assert!(has_at(&s, 3, &chars_of("abc")));
    assert!(!has_at(&s, 4, &chars_of("abc")));
    assert!(!has_at(&s, 1, &chars_of("abc")));
    assert!(has_at(&s, 6, &chars_of("")));
    assert!(!has_at(&s, 7, &chars_of("")));
    assert!(has_text(&s, &chars_of("ca")));
    assert!(has_text(&s, &chars_of("")));
    assert!(!has_text(&s, &chars_of("cc")));
    assert!(!has_text(&s, &chars_of("abcabca")));
}

#[test]
fn name_code_points() {
    assert!(is_valid_name_codepoint('a', true));
    assert!(is_valid_name_codepoint('_', true));
    assert!(is_valid_name_codepoint('$', true));
    assert!(is_valid_name_codepoint('é', true));
    assert!(!is_valid_name_codepoint('1', true));
    assert!(!is_valid_name_codepoint('-', true));
    assert!(!is_valid_name_codepoint('\u{200C}', true));
    assert!(is_valid_name_codepoint('1', false));
    assert!(is_valid_name_codepoint('_', false));
    assert!(is_valid_name_codepoint('$', false));
    assert!(is_valid_name_codepoint('\u{200C}', false));
    assert!(is_valid_name_codepoint('\u{200D}', false));
    assert!(!is_valid_name_codepoint('-', false));
    assert!(!is_valid_name_codepoint('/', false));
    assert!(!is_valid_name_codepoint('.', false));
    assert!(!is_valid_name_codepoint('\0', false));
}

#[test]
fn error_messages() {
    assert_eq!(
        Error::BaseUrlRequired.message(),
        "a relative input without a base URL is not valid"
    );
    assert_eq!(
        Error::BaseUrlWithInit.message(),
        "specifying both an init object, and a separate base URL is not valid"
    );
    assert_eq!(
        Error::Tokenizer(TokenizerError::InvalidName, 12).message(),
        "tokenizer error: invalid name; must be at least length 1 (at char 12)"
    );
    assert_eq!(
        Error::Tokenizer(TokenizerError::IncompleteEscapeCode, 0).message(),
        "tokenizer error: incomplete escape code (at char 0)"
    );
    assert_eq!(
        TokenizerError::InvalidRegex("must not start with ?").message(),
        "invalid regex: must not start with ?"
    );
    assert_eq!(
        Error::Parser(ParserError::DuplicateName("id".to_string())).message(),
        "parser error: pattern contains duplicate name id"
    );
    assert_eq!(
        ParserError::ExpectedToken(TokenType::Close, TokenType::End, String::new()).message(),
        "expected token Close, found '' of type End"
    );
    assert_eq!(
        ParserError::ExpectedToken(TokenType::End, TokenType::OtherModifier, "?".to_string())
            .message(),
        "expected token End, found '?' of type OtherModifier"
    );
    assert_eq!(Error::Url(url::ParseError::InvalidPort).message(), "invalid port number");
    assert_eq!(Error::Url(url::ParseError::EmptyHost).message(), "empty host");
    assert_eq!(Error::RegExp.message(), "regexp error");
}

#[test]
fn default_port_elision() {
    let init = UrlPatternInit {
        protocol: some("https"),
        port: some("443"),
        ..UrlPatternInit::default()
    };
    assert_eq!(elide_default_port(init).port, some(""));
    let init =
        UrlPatternInit { protocol: some("https"), port: some("80"), ..UrlPatternInit::default() };
    assert_eq!(elide_default_port(init).port, some("80"));
    let init = UrlPatternInit { protocol: some("https"), ..UrlPatternInit::default() };
    assert_eq!(elide_default_port(init).port, None);
    let init = UrlPatternInit { protocol: some("file"), ..UrlPatternInit::default() };
    assert_eq!(elide_default_port(init).port, some(""));
    let init =
        UrlPatternInit { protocol: some("file"), port: some("1"), ..UrlPatternInit::default() };
    assert_eq!(elide_default_port(init).port, some("1"));
    let init = UrlPatternInit { port: some("80"), ..UrlPatternInit::default() };
    assert_eq!(elide_default_port(init).port, some("80"));
    let init =
        UrlPatternInit { protocol: some("data"), port: some("80"), ..UrlPatternInit::default() };
    assert_eq!(elide_default_port(init).port, some("80"));
}

#[test]
fn processing_seeds_from_the_base_url() {
    let base = url::Url::parse("https://u:p@example.com:8443/a/b?q#h").unwrap();
    let init = UrlPatternInit { base_url: Some(base), ..UrlPatternInit::default() };
    let r = init
        .process(urlpattern::canonicalize_and_process::ProcessType::Pattern, UrlPatternInit::default())
        .unwrap();
    assert_eq!(
        r,
        UrlPatternInit {
            protocol: some("https"),
            username: some("u"),
            password: some("p"),
            hostname: some("example.com"),
            port: some("8443"),
            pathname: some("/a/b"),
            search: some("q"),
            hash: some("h"),
            base_url: None,
        }
    );
    let from = UrlPatternInit::from_url(&url::Url::parse("data:text").unwrap());
    assert_eq!(
        from,
        UrlPatternInit {
            protocol: some("data"),
            username: some(""),
            password: some(""),
            hostname: some(""),
            port: some(""),
            pathname: some("text"),
            search: some(""),
            hash: some(""),
            base_url: None,
        }
    );
}

#[test]
fn processing_keeps_what_is_not_named() {
    let prior = UrlPatternInit { hash: some("h"), ..UrlPatternInit::default() };
    let init = UrlPatternInit { search: some("?q"), ..UrlPatternInit::default() };
    let r = init.process(urlpattern::canonicalize_and_process::ProcessType::Pattern, prior).unwrap();
    assert_eq!(r, UrlPatternInit { search: some("q"), hash: some("h"), ..UrlPatternInit::default() });
}

#[test]
fn relative_pathname_is_resolved_against_the_base() {
    let kind = urlpattern::canonicalize_and_process::ProcessType::Pattern;
    let base = url::Url::parse("https://example.com/a/b").unwrap();
    let relative = UrlPatternInit {
        pathname: some("c"),
        base_url: Some(base.clone()),
        ..UrlPatternInit::default()
    };
    assert_eq!(relative.process(kind, UrlPatternInit::default()).unwrap().pathname, some("/a/c"));
    let absolute = UrlPatternInit {
        pathname: some("{/c}"),
        base_url: Some(base),
        ..UrlPatternInit::default()
    };
    assert_eq!(absolute.process(kind, UrlPatternInit::default()).unwrap().pathname, some("{/c}"));
    let opaque = UrlPatternInit {
        pathname: some("c"),
        base_url: Some(url::Url::parse("data:a/b").unwrap()),
        ..UrlPatternInit::default()
    };
    assert_eq!(opaque.process(kind, UrlPatternInit::default()).unwrap().pathname, some("c"));
}

#[test]
fn match_input_of_a_url() {
    let url = url::Url::parse("https://u:p@example.com:8443/a?q#h").unwrap();
    let i = parse_match_input(UrlPatternMatchInput::Url(url)).unwrap();
    assert_eq!(
        i,
        MatchInput {
            protocol: "https".to_string(),
            username: "u".to_string(),
            password: "p".to_string(),
            hostname: "example.com".to_string(),
            port: "8443".to_string(),
            pathname: "/a".to_string(),
            search: "q".to_string(),
            hash: "h".to_string(),
        }
    );
    let url = url::Url::parse("https://example.com:443/").unwrap();
    let i = parse_match_input(UrlPatternMatchInput::Url(url)).unwrap();
    assert_eq!(i.port, "");
    assert_eq!(i.search, "");
}

#[test]
fn match_input_of_an_init_record() {
    let init = UrlPatternInit {
        protocol: some("HTTPS:"),
        hostname: some("EXAMPLE.com"),
        port: some("443"),
        pathname: some("/a b"),
        search: some("?q"),
        hash: some("#h"),
        ..UrlPatternInit::default()
    };
    let i = parse_match_input(UrlPatternMatchInput::Init(init)).unwrap();
    assert_eq!(
        i,
        MatchInput {
            protocol: "https".to_string(),
            username: String::new(),
            password: String::new(),
            hostname: "example.com".to_string(),
            port: String::new(),
            pathname: "/a%20b".to_string(),
            search: "q".to_string(),
            hash: "h".to_string(),
        }
    );
    assert_eq!(MatchInput::default().protocol, "");
    let bad = UrlPatternInit { port: some("x"), ..UrlPatternInit::default() };
    assert_eq!(parse_match_input(UrlPatternMatchInput::Init(bad)), None);
}

fn text_init() -> quirks::UrlPatternInit {
    quirks::UrlPatternInit {
        protocol: None,
        username: None,
        password: None,
        hostname: None,
        port: None,
        pathname: None,
        search: None,
        hash: None,
        base_url: None,
    }
}

#[test]
fn pattern_input_from_a_string() {
    let r = quirks::process_construct_pattern_input(
        quirks::StringOrInit::String("/a".to_string()),
        Some("https://example.com/"),
    )
    .unwrap();
    assert_eq!(r.pathname, some("/a"));
    assert_eq!(r.base_url, Some(url::Url::parse("https://example.com/").unwrap()));
    assert_eq!(
        quirks::process_construct_pattern_input(
            quirks::StringOrInit::String("/a".to_string()),
            None
        ),
        Err(Error::BaseUrlRequired)
    );
    assert_eq!(
        quirks::process_construct_pattern_input(
            quirks::StringOrInit::String("/a".to_string()),
            Some("no url")
        ),
        Err(Error::Url(url::ParseError::RelativeUrlWithoutBase))
    );
}

#[test]
fn pattern_input_from_a_record() {
    let init = quirks::UrlPatternInit {
        pathname: some("/a"),
        base_url: some("https://example.com/"),
        ..text_init()
    };
    let r =
        quirks::process_construct_pattern_input(quirks::StringOrInit::Init(init.clone()), None)
            .unwrap();
    assert_eq!(r.pathname, some("/a"));
    assert_eq!(r.protocol, None);
    assert_eq!(r.base_url, Some(url::Url::parse("https://example.com/").unwrap()));
    assert_eq!(
        quirks::process_construct_pattern_input(
            quirks::StringOrInit::Init(init),
            Some("https://example.com/")
        ),
        Err(Error::BaseUrlWithInit)
    );
    let bad = quirks::UrlPatternInit { base_url: some("no url"), ..text_init() };
    assert_eq!(
        quirks::process_construct_pattern_input(quirks::StringOrInit::Init(bad), None),
        Err(Error::Url(url::ParseError::RelativeUrlWithoutBase))
    );
}

#[test]
fn pattern_as_plain_data() {
    let init = UrlPatternInit { pathname: some("/a/:id"), ..UrlPatternInit::default() };
    let p = quirks::parse_pattern(init).unwrap();
    assert_eq!(
        p.pathname,
        quirks::UrlPatternComponent {
            pattern_string: "/a/:id".to_string(),
            regexp_string: "^\\/a(?:\\/([^\\/]+?))$".to_string(),
            group_name_list: vec!["id".to_string()],
        }
    );
    assert_eq!(p.protocol.pattern_string, "*");
    assert_eq!(p.protocol.regexp_string, "^(.*)$");
    assert_eq!(p.protocol.group_name_list, vec!["0".to_string()]);
}

#[test]
fn expression_for_another_engine_is_no_error() {
    let init = UrlPatternInit { search: some(":a(b(?=c))"), ..UrlPatternInit::default() };
    let p = quirks::parse_pattern(init.clone()).unwrap();
    assert_eq!(p.search.regexp_string, "^(b(?=c))$");
    assert_eq!(UrlPattern::parse(init).err(), Some(Error::RegExp));
}

#[test]
fn named_groups_outside_hostname_and_pathname() {
    let init = UrlPatternInit {
        protocol: some("http:s?"),
        username: some(":u-x"),
        search: some("q=:a&r=:b"),
        hash: some(":h?end"),
        ..UrlPatternInit::default()
    };
    let quirk = quirks::parse_pattern(init.clone()).unwrap();
    assert_eq!(quirk.search.regexp_string, "^q=([^]+?)&r=([^]+?)$");
    let p = UrlPattern::parse(init).unwrap();
    assert_eq!(p.search(), "q=:a&r=:b");
    let input = UrlPatternMatchInput::Url(
        url::Url::parse("https://me-x@example.com/p?q=1&r=2#end").unwrap(),
    );
    let result = p.exec(input).unwrap().unwrap();
    assert_eq!(result.protocol.group("s").as_deref(), Some("s"));
    assert_eq!(result.username.group("u").as_deref(), Some("me"));
    assert_eq!(result.search.group("a").as_deref(), Some("1"));
    assert_eq!(result.search.group("b").as_deref(), Some("2"));
    assert_eq!(result.hash.group("h").as_deref(), Some(""));
    let other = UrlPatternMatchInput::Url(url::Url::parse("https://me-x@example.com/p?q=1#end").unwrap());
    assert_eq!(p.exec(other), Ok(None));
}

#[test]
fn match_input_from_a_string() {
    let input = quirks::StringOrInit::String("/a?q".to_string());
    let (m, inputs) =
        quirks::process_match_input(input.clone(), Some("https://example.com/x/")).unwrap().unwrap();
    assert_eq!(
        m,
        UrlPatternMatchInput::Url(url::Url::parse("https://example.com/a?q").unwrap())
    );
    assert_eq!(inputs, (input, some("https://example.com/x/")));
    let absolute = quirks::StringOrInit::String("https://example.com/a".to_string());
    let (m, inputs) = quirks::process_match_input(absolute.clone(), None).unwrap().unwrap();
    assert_eq!(m, UrlPatternMatchInput::Url(url::Url::parse("https://example.com/a").unwrap()));
    assert_eq!(inputs, (absolute, None));
    let relative = quirks::StringOrInit::String("/a".to_string());
    assert_eq!(quirks::process_match_input(relative.clone(), None), Ok(None));
    assert_eq!(quirks::process_match_input(relative, Some("no url")), Ok(None));
}

#[test]
fn match_input_from_a_record() {
    let init = quirks::UrlPatternInit {
        pathname: some("/a"),
        base_url: some("https://example.com/"),
        ..text_init()
    };
    let input = quirks::StringOrInit::Init(init);
    let (m, inputs) = quirks::process_match_input(input.clone(), None).unwrap().unwrap();
    assert_eq!(
        m,
        UrlPatternMatchInput::Init(UrlPatternInit {
            pathname: some("/a"),
            base_url: Some(url::Url::parse("https://example.com/").unwrap()),
            ..UrlPatternInit::default()
        })
    );
    assert_eq!(inputs, (input.clone(), None));
    assert_eq!(
        quirks::process_match_input(input, Some("https://example.com/")),
        Err(Error::BaseUrlWithInit)
    );
    let bad = quirks::UrlPatternInit { base_url: some("no url"), ..text_init() };
    assert_eq!(quirks::process_match_input(quirks::StringOrInit::Init(bad), None), Ok(None));
}

#[test]
fn matching_twice_gives_the_same_result() {
    let pattern = UrlPattern::parse(UrlPatternInit {
        pathname: some("/a/:x?/b/:y(\\d+)"),
        ..UrlPatternInit::default()
    })
    .unwrap();
    let first = pattern
        .exec(UrlPatternMatchInput::Url(url::Url::parse("https://example.com/a/b/12").unwrap()));
    let second = pattern
        .exec(UrlPatternMatchInput::Url(url::Url::parse("https://example.com/a/b/12").unwrap()));
    assert_eq!(first, second);
    assert!(first.unwrap().is_some());
}

#[test]
fn hostname_of_a_url_whose_host_was_taken_away() {
    let mut changed = url::Url::parse("foo://h/x").unwrap();
    changed.set_host(None).unwrap();
    let parsed = url::Url::parse("foo:/x").unwrap();
    assert_eq!(changed.as_str(), parsed.as_str());
    let from_changed = UrlPatternInit::from_url(&changed);
    assert_eq!(from_changed.hostname, some(""));
    assert_eq!(from_changed, UrlPatternInit::from_url(&parsed));
    let with_host = UrlPatternInit::from_url(&url::Url::parse("https://Example.com:8080/x").unwrap());
    assert_eq!(with_host.hostname, some("example.com"));
    assert_eq!(with_host.port, some("8080"));
    let address = UrlPatternInit::from_url(&url::Url::parse("http://[::1]/").unwrap());
    assert_eq!(address.hostname, some("[::1]"));
}

#[test]
fn url_whose_host_was_taken_away_is_matched_as_the_parsed_one() {
    let init = UrlPatternInit { protocol: some("foo"), hostname: some(""), ..UrlPatternInit::default() };
    let p = UrlPattern::parse(init).unwrap();
    let mut changed = url::Url::parse("foo://[::1]/x").unwrap();
    changed.set_host(None).unwrap();
    let parsed = url::Url::parse("foo:/x").unwrap();
    let a = p.exec(UrlPatternMatchInput::Url(changed)).unwrap();
    let b = p.exec(UrlPatternMatchInput::Url(parsed)).unwrap();
    assert_eq!(a, b);
    let result = a.unwrap();
    assert_eq!(result.hostname.input, "");
    assert_eq!(result.pathname.input, "/x");
    assert_eq!(result.pathname.group("0").as_deref(), Some("/x"));
}

#[test]
fn components_are_read_from_the_value_and_not_from_its_text() {
    let mut changed = url::Url::parse("foo://host//path").unwrap();
    changed.set_host(None).unwrap();
    let parsed = url::Url::parse("foo://path").unwrap();
    assert_eq!(changed.as_str(), parsed.as_str());
    let from_changed = UrlPatternInit::from_url(&changed);
    assert_eq!(from_changed.hostname, some(""));
    assert_eq!(from_changed.pathname, some("//path"));
    let from_parsed = UrlPatternInit::from_url(&parsed);
    assert_eq!(from_parsed.hostname, some("path"));
    assert_eq!(from_parsed.pathname, some(""));
    let init = UrlPatternInit { hostname: some("path"), ..UrlPatternInit::default() };
    let p = UrlPattern::parse(init).unwrap();
    assert!(p.test(UrlPatternMatchInput::Url(parsed)).unwrap());
    assert!(!p.test(UrlPatternMatchInput::Url(changed)).unwrap());
}
