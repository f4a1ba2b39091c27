use urlpattern::canonicalize_and_process::canonicalize_cannot_be_a_base_url_pathname;
use urlpattern::canonicalize_and_process::canonicalize_hash;
use urlpattern::canonicalize_and_process::canonicalize_hostname;
use urlpattern::canonicalize_and_process::canonicalize_ipv6_hostname;
use urlpattern::canonicalize_and_process::canonicalize_password;
use urlpattern::canonicalize_and_process::canonicalize_pathname;
use urlpattern::canonicalize_and_process::canonicalize_port;
use urlpattern::canonicalize_and_process::canonicalize_protocol;
use urlpattern::canonicalize_and_process::canonicalize_search;
use urlpattern::canonicalize_and_process::canonicalize_username;
use urlpattern::canonicalize_and_process::encode;
use urlpattern::canonicalize_and_process::is_special_scheme;
use urlpattern::canonicalize_and_process::process_hash_init;
use urlpattern::canonicalize_and_process::process_hostname_init;
use urlpattern::canonicalize_and_process::process_password_init;
use urlpattern::canonicalize_and_process::process_pathname_init;
use urlpattern::canonicalize_and_process::process_port_init;
use urlpattern::canonicalize_and_process::process_protocol_init;
use urlpattern::canonicalize_and_process::process_search_init;
use urlpattern::canonicalize_and_process::process_username_init;
use urlpattern::canonicalize_and_process::special_scheme_default_port;
use urlpattern::canonicalize_and_process::Encoding;
use urlpattern::canonicalize_and_process::ProcessType;
use urlpattern::error::Error;
use urlpattern::init::hostname_pattern_is_ipv6_address;
use urlpattern::init::is_absolute_pathname;

fn ok(s: &str) -> Result<String, Error> {
    Ok(s.to_string())
}

#[test]
fn empty_values_stay_empty() {
    assert_eq!(canonicalize_protocol(""), ok(""));
    assert_eq!(canonicalize_username(""), ok(""));
    assert_eq!(canonicalize_password(""), ok(""));
    assert_eq!(canonicalize_hostname(""), ok(""));
    assert_eq!(canonicalize_ipv6_hostname(""), ok(""));
    assert_eq!(canonicalize_port("", None), ok(""));
    assert_eq!(canonicalize_port("", Some("http")), ok(""));
    assert_eq!(canonicalize_pathname(""), ok(""));
    assert_eq!(canonicalize_cannot_be_a_base_url_pathname(""), ok(""));
    assert_eq!(canonicalize_search(""), ok(""));
    assert_eq!(canonicalize_hash(""), ok(""));
}

#[test]
fn protocol_is_a_scheme() {
    assert_eq!(canonicalize_protocol("HTTP"), ok("http"));
    assert_eq!(canonicalize_protocol("web+foo"), ok("web+foo"));
    for s in ["http", "https", "ws", "wss", "ftp", "file"] {
        assert_eq!(canonicalize_protocol(s), ok(s));
    }
    assert!(matches!(canonicalize_protocol("a b"), Err(Error::Url(_))));
}

#[test]
fn username_and_password() {
    assert_eq!(canonicalize_username("user name"), ok("user%20name"));
    assert_eq!(canonicalize_username("a:b"), ok("a%3Ab"));
    assert_eq!(canonicalize_password("p@ss"), ok("p%40ss"));
    assert_eq!(canonicalize_password("plain"), ok("plain"));
}

#[test]
fn hostname_is_a_host() {
    assert_eq!(canonicalize_hostname("EXAMPLE.com"), ok("example.com"));
    assert_eq!(canonicalize_hostname("a b"), Err(Error::Url(url::ParseError::InvalidDomainCharacter)));
}

#[test]
fn ipv6_hostname_is_lowered() {
    assert_eq!(canonicalize_ipv6_hostname("[::AB]"), ok("[::ab]"));
    assert_eq!(canonicalize_ipv6_hostname("0123456789abcdefABCDEF"), ok("0123456789abcdefabcdef"));
    assert_eq!(
        canonicalize_ipv6_hostname("[::g]"),
        Err(Error::Url(url::ParseError::InvalidIpv6Address))
    );
    assert_eq!(
        canonicalize_ipv6_hostname("é"),
        Err(Error::Url(url::ParseError::InvalidIpv6Address))
    );
}

#[test]
fn port_is_a_number() {
    assert_eq!(canonicalize_port("8080", None), ok("8080"));
    assert_eq!(canonicalize_port("80", None), ok("80"));
    assert_eq!(canonicalize_port("80", Some("")), ok("80"));
    assert_eq!(canonicalize_port("80", Some("http")), ok(""));
    assert_eq!(canonicalize_port("80", Some("ws")), ok(""));
    assert_eq!(canonicalize_port("443", Some("https")), ok(""));
    assert_eq!(canonicalize_port("443", Some("wss")), ok(""));
    assert_eq!(canonicalize_port("21", Some("ftp")), ok(""));
    assert_eq!(canonicalize_port("443", Some("http")), ok("443"));
    assert_eq!(canonicalize_port("0080", Some("foo")), ok("80"));
    assert_eq!(canonicalize_port("+80", None), ok("80"));
    assert_eq!(canonicalize_port("65535", None), ok("65535"));
    let invalid = Err(Error::Url(url::ParseError::InvalidPort));
    assert_eq!(canonicalize_port("65536", None), invalid);
    assert_eq!(canonicalize_port("99999999999999999999", None), invalid);
    assert_eq!(canonicalize_port("8o", None), invalid);
    assert_eq!(canonicalize_port("+", None), invalid);
    assert_eq!(canonicalize_port("-1", None), invalid);
    assert_eq!(canonicalize_port(" 80", None), invalid);
    assert!(matches!(canonicalize_port("80", Some("file")), Err(Error::Url(_))));
}

#[test]
fn pathname_is_a_path() {
    assert_eq!(canonicalize_pathname("/a b"), ok("/a%20b"));
    assert_eq!(canonicalize_pathname("/a/../b"), ok("/b"));
    assert_eq!(canonicalize_pathname("a"), ok("/a"));
    assert_eq!(canonicalize_cannot_be_a_base_url_pathname("foo"), ok("foo"));
    assert_eq!(canonicalize_cannot_be_a_base_url_pathname("/a"), ok("%2Fa"));
}

#[test]
fn search_and_hash() {
    assert_eq!(canonicalize_search("q=a b"), ok("q=a%20b"));
    assert_eq!(canonicalize_search("q=1"), ok("q=1"));
    assert_eq!(canonicalize_hash("a b"), ok("a%20b"));
    assert_eq!(canonicalize_hash("top"), ok("top"));
}

#[test]
fn encoding_names_the_canonical_form() {
    assert_eq!(encode(Encoding::Protocol, "HTTP"), ok("http"));
    assert_eq!(encode(Encoding::Username, "a b"), ok("a%20b"));
    assert_eq!(encode(Encoding::Password, "a b"), ok("a%20b"));
    assert_eq!(encode(Encoding::Hostname, "A.b"), ok("a.b"));
    assert_eq!(encode(Encoding::Ipv6Hostname, "[A]"), ok("[a]"));
    assert_eq!(encode(Encoding::Port, "080"), ok("80"));
    assert_eq!(encode(Encoding::Pathname, "/a b"), ok("/a%20b"));
    assert_eq!(encode(Encoding::OpaquePathname, "/a"), ok("%2Fa"));
    assert_eq!(encode(Encoding::Search, "a b"), ok("a%20b"));
    assert_eq!(encode(Encoding::Hash, "a b"), ok("a%20b"));
}

#[test]
fn special_schemes_and_their_ports() {
    for s in ["http", "https", "ws", "wss", "ftp", "file"] {
        assert!(is_special_scheme(s));
    }
    for s in ["", "data", "HTTP", "httpx", "htt"] {
        assert!(!is_special_scheme(s));
    }
    assert_eq!(special_scheme_default_port("http"), Some("80"));
    assert_eq!(special_scheme_default_port("ws"), Some("80"));
    assert_eq!(special_scheme_default_port("https"), Some("443"));
    assert_eq!(special_scheme_default_port("wss"), Some("443"));
    assert_eq!(special_scheme_default_port("ftp"), Some("21"));
    assert_eq!(special_scheme_default_port("file"), None);
    assert_eq!(special_scheme_default_port("data"), None);
}

#[test]
fn pattern_fields_are_kept_as_written() {
    let p = ProcessType::Pattern;
    assert_eq!(process_protocol_init("HTTP:", &p), ok("HTTP"));
    assert_eq!(process_protocol_init("HTTP", &p), ok("HTTP"));
    assert_eq!(process_protocol_init("a::", &p), ok("a:"));
    assert_eq!(process_username_init("a b", &p), ok("a b"));
    assert_eq!(process_password_init("a b", &p), ok("a b"));
    assert_eq!(process_hostname_init("A B", &p), ok("A B"));
    assert_eq!(process_port_init("x", Some("http"), &p), ok("x"));
    assert_eq!(process_pathname_init("a b", Some("http"), &p), ok("a b"));
    assert_eq!(process_search_init("?a b", &p), ok("a b"));
    assert_eq!(process_search_init("??a", &p), ok("?a"));
    assert_eq!(process_search_init("a?", &p), ok("a?"));
    assert_eq!(process_hash_init("#a b", &p), ok("a b"));
    assert_eq!(process_hash_init("a", &p), ok("a"));
    assert_eq!(process_hash_init("", &p), ok(""));
}

#[test]
fn url_fields_are_canonicalized() {
    let u = ProcessType::Url;
    assert_eq!(process_protocol_init("HTTP:", &u), ok("http"));
    assert_eq!(process_username_init("a b", &u), ok("a%20b"));
    assert_eq!(process_password_init("a b", &u), ok("a%20b"));
    assert_eq!(process_hostname_init("A.b", &u), ok("a.b"));
    assert_eq!(process_port_init("80", Some("http"), &u), ok(""));
    assert_eq!(process_port_init("80", None, &u), ok("80"));
    assert_eq!(process_pathname_init("/a b", Some("http"), &u), ok("/a%20b"));
    assert_eq!(process_pathname_init("/a", Some(""), &u), ok("/a"));
    assert_eq!(process_pathname_init("/a", Some("data"), &u), ok("%2Fa"));
    assert_eq!(process_pathname_init("/a", None, &u), ok("%2Fa"));
    assert_eq!(process_search_init("?a b", &u), ok("a%20b"));
    assert_eq!(process_hash_init("#a b", &u), ok("a%20b"));
    assert_eq!(process_port_init("x", None, &u), Err(Error::Url(url::ParseError::InvalidPort)));
}

#[test]
fn absolute_pathnames() {
    let p = ProcessType::Pattern;
    let u = ProcessType::Url;
    assert!(is_absolute_pathname("/", &p));
    assert!(is_absolute_pathname("/a", &u));
    assert!(is_absolute_pathname("\\/a", &p));
    assert!(is_absolute_pathname("{/a}", &p));
    assert!(!is_absolute_pathname("\\/a", &u));
    assert!(!is_absolute_pathname("{/a}", &u));
    assert!(!is_absolute_pathname("", &p));
    assert!(!is_absolute_pathname("a/", &p));
    assert!(!is_absolute_pathname("{", &p));
    assert!(!is_absolute_pathname("{a/", &p));
}

#[test]
fn ipv6_hostname_patterns() {
    assert!(hostname_pattern_is_ipv6_address("[a"));
    assert!(hostname_pattern_is_ipv6_address("{[a"));
    assert!(hostname_pattern_is_ipv6_address("\\[a"));
    assert!(!hostname_pattern_is_ipv6_address("["));
    assert!(!hostname_pattern_is_ipv6_address(""));
    assert!(!hostname_pattern_is_ipv6_address("a["));
    assert!(!hostname_pattern_is_ipv6_address("{a"));
}
