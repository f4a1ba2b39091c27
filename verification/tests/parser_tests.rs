use urlpattern::canonicalize_and_process::Encoding;
use urlpattern::error::Error;
use urlpattern::error::ParserError;
use urlpattern::error::TokenizerError;
use urlpattern::parser::escape_regexp_string;
use urlpattern::parser::parse_pattern_string;
use urlpattern::parser::Options;
use urlpattern::parser::Part;
use urlpattern::parser::PartModifier;
use urlpattern::parser::PartType;
use urlpattern::tokenizer::TokenType;

fn fixed(value: &str, modifier: PartModifier) -> Part {
    Part::new(PartType::FixedText, value.to_string(), modifier)
}

fn group(
    kind: PartType,
    name: &str,
    value: &str,
    prefix: &str,
    suffix: &str,
    modifier: PartModifier,
) -> Part {
    Part {
        kind,
        value: value.to_string(),
        modifier,
        name: name.to_string(),
        prefix: prefix.to_string(),
        suffix: suffix.to_string(),
    }
}

fn path(input: &str) -> Result<Vec<Part>, Error> {
    parse_pattern_string(input, &Options::pathname(), Encoding::Hash)
}

#[test]
fn options_presets() {
    let d = Options::default();
    assert_eq!(d.delimiter_code_point, "");
    assert_eq!(d.prefix_code_point, "");
    assert!(!d.ignore_case);
    let h = Options::hostname();
    assert_eq!(h.delimiter_code_point, ".");
    assert_eq!(h.prefix_code_point, "");
    let p = Options::pathname();
    assert_eq!(p.delimiter_code_point, "/");
    assert_eq!(p.prefix_code_point, "/");
    assert_eq!(d.generate_segment_wildcard_regexp(), "[^]+?");
    assert_eq!(h.generate_segment_wildcard_regexp(), "[^\\.]+?");
    assert_eq!(p.generate_segment_wildcard_regexp(), "[^\\/]+?");
}

#[test]
fn new_part_has_no_name_prefix_or_suffix() {
    let p = Part::new(PartType::FixedText, "abc".to_string(), PartModifier::Optional);
    assert_eq!(p, group(PartType::FixedText, "", "abc", "", "", PartModifier::Optional));
}

#[test]
fn regexp_escape_covers_the_special_characters() {
    assert_eq!(escape_regexp_string(".+*?^${}()[]|/\\"), "\\.\\+\\*\\?\\^\\$\\{\\}\\(\\)\\[\\]\\|\\/\\\\");
    assert_eq!(escape_regexp_string("abc-_:é"), "abc-_:é");
    assert_eq!(escape_regexp_string(""), "");
}

#[test]
fn literal_text_is_one_part() {
    assert_eq!(path("/foo/bar"), Ok(vec![fixed("/foo/bar", PartModifier::NoModifier)]));
    assert_eq!(path(""), Ok(vec![]));
    assert_eq!(path("\\:a\\*"), Ok(vec![fixed(":a*", PartModifier::NoModifier)]));
}

#[test]
fn literal_text_is_encoded() {
    assert_eq!(path("/a b"), Ok(vec![fixed("/a%20b", PartModifier::NoModifier)]));
}

#[test]
fn named_group_takes_the_prefix_code_point() {
    assert_eq!(
        path("/foo/:bar"),
        Ok(vec![
            fixed("/foo", PartModifier::NoModifier),
            group(PartType::SegmentWildcard, "bar", "", "/", "", PartModifier::NoModifier),
        ])
    );
}

#[test]
fn other_character_before_a_group_is_literal_text() {
    assert_eq!(
        path("/foo-:bar"),
        Ok(vec![
            fixed("/foo-", PartModifier::NoModifier),
            group(PartType::SegmentWildcard, "bar", "", "", "", PartModifier::NoModifier),
        ])
    );
    let parts =
        parse_pattern_string("/:bar", &Options::default(), Encoding::Search).unwrap();
    assert_eq!(
        parts,
        vec![
            fixed("/", PartModifier::NoModifier),
            group(PartType::SegmentWildcard, "bar", "", "", "", PartModifier::NoModifier),
        ]
    );
}

#[test]
fn unnamed_groups_are_numbered_from_zero() {
    assert_eq!(
        path("/(a+)/:x/*/(b)"),
        Ok(vec![
            group(PartType::Regexp, "0", "a+", "/", "", PartModifier::NoModifier),
            group(PartType::SegmentWildcard, "x", "", "/", "", PartModifier::NoModifier),
            group(PartType::FullWildcard, "1", "", "/", "", PartModifier::NoModifier),
            group(PartType::Regexp, "2", "b", "/", "", PartModifier::NoModifier),
        ])
    );
}

#[test]
fn modifiers() {
    assert_eq!(
        path("/:a?/:b*/:c+"),
        Ok(vec![
            group(PartType::SegmentWildcard, "a", "", "/", "", PartModifier::Optional),
            group(PartType::SegmentWildcard, "b", "", "/", "", PartModifier::ZeroOrMore),
            group(PartType::SegmentWildcard, "c", "", "/", "", PartModifier::OneOrMore),
        ])
    );
}

#[test]
fn asterisk_behind_a_wildcard_is_a_modifier() {
    assert_eq!(
        path("/**"),
        Ok(vec![group(PartType::FullWildcard, "0", "", "/", "", PartModifier::ZeroOrMore)])
    );
}

#[test]
fn named_group_with_regexp() {
    assert_eq!(
        path("/:id(\\d+)"),
        Ok(vec![group(PartType::Regexp, "id", "\\d+", "/", "", PartModifier::NoModifier)])
    );
}

#[test]
fn regexp_of_a_wildcard_becomes_the_wildcard() {
    assert_eq!(
        path("/:a(.*)/:b([^\\/]+?)"),
        Ok(vec![
            group(PartType::FullWildcard, "a", "", "/", "", PartModifier::NoModifier),
            group(PartType::SegmentWildcard, "b", "", "/", "", PartModifier::NoModifier),
        ])
    );
}

#[test]
fn group_in_braces_has_prefix_and_suffix() {
    assert_eq!(
        path("/x{-:id.html}?"),
        Ok(vec![
            fixed("/x", PartModifier::NoModifier),
            group(PartType::SegmentWildcard, "id", "", "-", ".html", PartModifier::Optional),
        ])
    );
}

#[test]
fn braces_around_text_alone() {
    assert_eq!(path("/a{bc}d"), Ok(vec![fixed("/abcd", PartModifier::NoModifier)]));
    assert_eq!(
        path("/a{bc}?d"),
        Ok(vec![
            fixed("/a", PartModifier::NoModifier),
            fixed("bc", PartModifier::Optional),
            fixed("d", PartModifier::NoModifier),
        ])
    );
    assert_eq!(path("{}?"), Ok(vec![]));
}

#[test]
fn missing_closing_brace() {
    assert_eq!(
        path("/{a:b"),
        Err(Error::Parser(ParserError::ExpectedToken(
            TokenType::Close,
            TokenType::End,
            String::new()
        )))
    );
    assert_eq!(
        path("/{a{b}}"),
        Err(Error::Parser(ParserError::ExpectedToken(
            TokenType::Close,
            TokenType::Open,
            "{".to_string()
        )))
    );
}

#[test]
fn token_that_starts_no_part() {
    assert_eq!(
        path("/a}"),
        Err(Error::Parser(ParserError::ExpectedToken(
            TokenType::End,
            TokenType::Close,
            "}".to_string()
        )))
    );
    assert_eq!(
        path("?"),
        Err(Error::Parser(ParserError::ExpectedToken(
            TokenType::End,
            TokenType::OtherModifier,
            "?".to_string()
        )))
    );
}

#[test]
fn tokenizer_error_ends_the_parse() {
    assert_eq!(path("/:"), Err(Error::Tokenizer(TokenizerError::InvalidName, 2)));
}

#[test]
fn duplicate_names() {
    assert_eq!(
        path("/:a/:b/:a/:b"),
        Err(Error::Parser(ParserError::DuplicateName("a".to_string())))
    );
    assert_eq!(
        path("/(x)/:0"),
        Err(Error::Tokenizer(TokenizerError::InvalidName, 6))
    );
    assert!(path("/:a/:b/:c").is_ok());
}

#[test]
fn encoding_error_ends_the_parse() {
    let r = parse_pattern_string("[x]", &Options::hostname(), Encoding::Ipv6Hostname);
    assert_eq!(r, Err(Error::Url(url::ParseError::InvalidIpv6Address)));
    let r = parse_pattern_string("[A\\:B]", &Options::hostname(), Encoding::Ipv6Hostname);
    assert_eq!(r, Ok(vec![fixed("[a:b]", PartModifier::NoModifier)]));
}

#[test]
fn syntax_error_comes_before_duplicate_name() {
    assert_eq!(
        path("/:a/:a}"),
        Err(Error::Parser(ParserError::ExpectedToken(
            TokenType::End,
            TokenType::Close,
            "}".to_string()
        )))
    );
}

#[test]
fn pathname_encoding_is_that_of_a_whole_path() {
    let parts =
        parse_pattern_string("/a/:id.html", &Options::pathname(), Encoding::Pathname).unwrap();
    assert_eq!(
        parts,
        vec![
            fixed("/a", PartModifier::NoModifier),
            group(PartType::SegmentWildcard, "id", "", "/", "", PartModifier::NoModifier),
            fixed("/.html", PartModifier::NoModifier),
        ]
    );
}
