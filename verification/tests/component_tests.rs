use urlpattern::canonicalize_and_process::Callback;
use urlpattern::canonicalize_and_process::Encoding;
use urlpattern::component::compile_regexp;
use urlpattern::component::escape_pattern_string;
use urlpattern::component::generate_matcher;
use urlpattern::component::generate_pattern_string;
use urlpattern::component::generate_regular_expression_and_name_list;
use urlpattern::component::Component;
use urlpattern::error::Error;
use urlpattern::matcher::InnerMatcher;
use urlpattern::matcher::Matcher;
use urlpattern::parser::parse_pattern_string;
use urlpattern::parser::Options;
use urlpattern::parser::Part;
use urlpattern::parser::PartModifier;
use urlpattern::parser::PartType;

fn path_parts(input: &str) -> Vec<Part> {
    parse_pattern_string(input, &Options::pathname(), Encoding::Hash).unwrap()
}

fn regexp(input: &str) -> String {
    generate_regular_expression_and_name_list(&path_parts(input), &Options::pathname()).0
}

fn names(input: &str) -> Vec<String> {
    generate_regular_expression_and_name_list(&path_parts(input), &Options::pathname()).1
}

fn canonical(input: &str) -> String {
    generate_pattern_string(&path_parts(input), &Options::pathname())
}

fn part(
    kind: PartType,
    name: &str,
    value: &str,
    prefix: &str,
    suffix: &str,
    modifier: PartModifier,
) -> Part {
    Part {
        kind,
        value: value.to_string(),
        modifier,
        name: name.to_string(),
        prefix: prefix.to_string(),
        suffix: suffix.to_string(),
    }
}

fn captures(list: &[Option<&str>]) -> Option<Vec<Option<String>>> {
    Some(list.iter().map(|c| c.map(|s| s.to_string())).collect())
}

#[test]
fn regexp_of_fixed_text() {
    assert_eq!(regexp("/a.b"), "^\\/a\\.b$");
    assert_eq!(regexp(""), "^$");
    assert_eq!(regexp("/a{b.}?"), "^\\/a(?:b\\.)?$");
    assert_eq!(regexp("{ab}+"), "^(?:ab)+$");
    assert_eq!(regexp("{ab}*"), "^(?:ab)*$");
}

#[test]
fn regexp_of_groups_without_prefix_and_suffix() {
    assert_eq!(regexp("x:a"), "^x([^\\/]+?)$");
    assert_eq!(regexp("x:a?"), "^x([^\\/]+?)?$");
    assert_eq!(regexp("x:a*"), "^x((?:[^\\/]+?)*)$");
    assert_eq!(regexp("x:a+"), "^x((?:[^\\/]+?)+)$");
    assert_eq!(regexp("x(\\d+)"), "^x(\\d+)$");
    assert_eq!(regexp("*"), "^(.*)$");
}

#[test]
fn regexp_of_groups_with_prefix_or_suffix() {
    assert_eq!(regexp("/:a"), "^(?:\\/([^\\/]+?))$");
    assert_eq!(regexp("/:a?"), "^(?:\\/([^\\/]+?))?$");
    assert_eq!(regexp("{-:a.}"), "^(?:-([^\\/]+?)\\.)$");
    assert_eq!(
        regexp("/:a*"),
        "^(?:\\/((?:[^\\/]+?)(?:\\/(?:[^\\/]+?))*))?$"
    );
    assert_eq!(
        regexp("/:a+"),
        "^(?:\\/((?:[^\\/]+?)(?:\\/(?:[^\\/]+?))*))$"
    );
    assert_eq!(
        regexp("{a(\\d)b}+"),
        "^(?:a((?:\\d)(?:ba(?:\\d))*)b)$"
    );
}

#[test]
fn regexp_starts_and_ends_with_its_anchors() {
    for p in ["", "/", "/:a/:b*", "{a:b(c)d}+", "/*", "\\^\\$"] {
        let r = regexp(p);
        assert!(r.starts_with('^'), "{}", r);
        assert!(r.ends_with('$'), "{}", r);
        assert!(r.len() >= 2);
    }
}

#[test]
fn names_are_those_of_the_groups_in_order() {
    assert_eq!(names("/a/:x/(b)/*/:y?"), vec!["x", "0", "1", "y"]);
    assert!(names("/a/b").is_empty());
    let compiled =
        Component::compile(Some("/a/:x/(b)/*/:y?"), Encoding::Hash, Options::pathname())
            .unwrap();
    assert_eq!(compiled.group_name_list, vec!["x", "0", "1", "y"]);
    let engine = compiled.regexp.as_ref().unwrap();
    assert_eq!(engine.captures_len() - 1, compiled.group_name_list.len());
}

#[test]
fn named_group_of_an_embedded_expression_is_counted_by_the_engine_only() {
    let compiled =
        Component::compile(Some("/((?<x>a))"), Encoding::Hash, Options::pathname()).unwrap();
    assert_eq!(compiled.group_name_list, vec!["0"]);
    assert_eq!(compiled.regexp.as_ref().unwrap().captures_len() - 1, 2);
}

#[test]
fn pattern_escape_covers_the_special_characters() {
    assert_eq!(escape_pattern_string("+*?:{}()\\"), "\\+\\*\\?\\:\\{\\}\\(\\)\\\\");
    assert_eq!(escape_pattern_string("a.b/c[d]"), "a.b/c[d]");
}

#[test]
fn pattern_string_of_fixed_text() {
    assert_eq!(canonical("/a\\:b"), "/a\\:b");
    assert_eq!(canonical("/a{b}?"), "/a{b}?");
    assert_eq!(canonical("/a{b}"), "/ab");
}

#[test]
fn pattern_string_of_groups() {
    assert_eq!(canonical("/:a"), "/:a");
    assert_eq!(canonical("/:a?"), "/:a?");
    assert_eq!(canonical("/:a(\\d+)"), "/:a(\\d+)");
    assert_eq!(canonical("/(\\d+)"), "/(\\d+)");
    assert_eq!(canonical("/*"), "/*");
    assert_eq!(canonical("/(.*)"), "/*");
    assert_eq!(canonical("/:a(.*)"), "/:a(.*)");
    assert_eq!(canonical("/([^\\/]+?)"), "/([^\\/]+?)");
    assert_eq!(canonical("{/:a}"), "/:a");
}

#[test]
fn pattern_string_groups_where_it_has_to() {
    assert_eq!(canonical("{-:a}"), "{-:a}");
    assert_eq!(canonical("-:a"), "-:a");
    assert_eq!(canonical("{:a.x}"), "{:a.x}");
    assert_eq!(canonical("{:a}x"), "{:a}x");
    assert_eq!(canonical("{:a}-"), ":a-");
    assert_eq!(canonical("{:a}(b)"), "{:a}(b)");
    assert_eq!(canonical("{:a}:b"), ":a:b");
    assert_eq!(canonical("/{:a}"), "/{:a}");
    assert_eq!(canonical("{x/:a}"), "{x/:a}");
    assert_eq!(canonical("{:a\\x}"), "{:a\\x}");
    assert_eq!(canonical("{:a-x}"), "{:a-x}");
}

#[test]
fn second_full_wildcard_in_a_row_is_written_in_full() {
    assert_eq!(canonical("*{*}"), "*(.*)");
    assert_eq!(canonical("*?*"), "*?*");
    assert_eq!(canonical("a*"), "a*");
    let parts = vec![
        part(PartType::SegmentWildcard, "a", "", "", "", PartModifier::NoModifier),
        part(PartType::FullWildcard, "0", "", "", "", PartModifier::NoModifier),
    ];
    assert_eq!(generate_pattern_string(&parts, &Options::default()), "{:a}(.*)");
}

#[test]
fn canonical_pattern_string_is_parsed_back_to_the_same_parts() {
    for p in [
        "",
        "/",
        "/a/b",
        "/:a",
        "/:a?/:b*/:c+",
        "/a{b}?",
        "{-:a.x}+",
        "{:a}x",
        "/(\\d+)/:n(a|b)",
        "/*",
        "*{*}",
        "/a\\:b\\*",
        "/{:a}",
        "{:a\\x}",
    ] {
        let parts = path_parts(p);
        let written = generate_pattern_string(&parts, &Options::pathname());
        assert_eq!(path_parts(&written), parts, "{} -> {}", p, written);
    }
}

#[test]
fn name_behind_a_prefix_runs_into_the_text_that_follows() {
    let parts = path_parts("/:id{x}");
    let written = generate_pattern_string(&parts, &Options::pathname());
    assert_eq!(written, "/:idx");
    assert_ne!(path_parts(&written), parts);
}

#[test]
fn matcher_of_literal_text() {
    let m = generate_matcher(&path_parts("/a/b"), &Options::pathname());
    assert_eq!(m.prefix, "");
    assert_eq!(m.suffix, "");
    assert!(matches!(&m.inner, InnerMatcher::Literal { literal } if literal == "/a/b"));
    assert_eq!(m.matches("/a/b"), captures(&[]));
    assert_eq!(m.matches("/a/c"), None);
    assert_eq!(m.matches("/a/b/"), None);
    let empty = generate_matcher(&[], &Options::default());
    assert!(matches!(&empty.inner, InnerMatcher::Literal { literal } if literal.is_empty()));
    assert_eq!(empty.matches(""), captures(&[]));
    assert_eq!(empty.matches("a"), None);
    let both = generate_matcher(
        &[
            part(PartType::FixedText, "", "ab", "", "", PartModifier::NoModifier),
            part(PartType::FixedText, "", "cd", "", "", PartModifier::NoModifier),
        ],
        &Options::default(),
    );
    assert!(matches!(&both.inner, InnerMatcher::Literal { literal } if literal == "abcd"));
}

#[test]
fn matcher_of_one_full_wildcard() {
    let m = generate_matcher(&path_parts("/a/*.js"), &Options::pathname());
    assert_eq!(m.prefix, "/a/");
    assert_eq!(m.suffix, ".js");
    assert!(matches!(
        &m.inner,
        InnerMatcher::SingleCapture { filter: None, allow_empty: true }
    ));
    assert_eq!(m.matches("/a/x/y.js"), captures(&[Some("x/y")]));
    assert_eq!(m.matches("/a/.js"), captures(&[Some("")]));
    assert_eq!(m.matches("/a/.j"), None);
    assert_eq!(m.matches("/a.js"), None);
    assert_eq!(m.matches("/b/x.js"), None);
}

#[test]
fn matcher_of_one_segment_wildcard() {
    let m = generate_matcher(&path_parts("/a/:id"), &Options::pathname());
    assert_eq!(m.prefix, "/a/");
    assert_eq!(m.suffix, "");
    assert!(matches!(
        &m.inner,
        InnerMatcher::SingleCapture { filter: Some(f), allow_empty: false } if f == "/"
    ));
    assert_eq!(m.matches("/a/x"), captures(&[Some("x")]));
    assert_eq!(m.matches("/a/"), None);
    assert_eq!(m.matches("/a/x/y"), None);
    let parts = parse_pattern_string(":x", &Options::default(), Encoding::Search).unwrap();
    let free = generate_matcher(&parts, &Options::default());
    assert!(matches!(
        &free.inner,
        InnerMatcher::SingleCapture { filter: None, allow_empty: false }
    ));
    assert_eq!(free.matches("a/b"), captures(&[Some("a/b")]));
    assert_eq!(free.matches(""), None);
}

#[test]
fn matcher_with_a_regular_expression() {
    let m = generate_matcher(&path_parts("/a/:x?/b/:y(\\d+)"), &Options::pathname());
    assert_eq!(m.prefix, "/a");
    assert_eq!(m.suffix, "");
    assert!(matches!(&m.inner, InnerMatcher::RegExp { regexp: Ok(_) }));
    assert_eq!(m.matches("/a/k/b/12"), captures(&[Some("k"), Some("12")]));
    assert_eq!(m.matches("/a/b/12"), captures(&[None, Some("12")]));
    assert_eq!(m.matches("/a/b/x"), None);
    assert_eq!(m.matches("/c/b/12"), None);
}

#[test]
fn matcher_whose_expression_did_not_compile_matches_nothing() {
    let m = Matcher {
        prefix: String::new(),
        suffix: String::new(),
        inner: InnerMatcher::RegExp { regexp: Err(Error::RegExp) },
    };
    assert_eq!(m.matches(""), None);
    assert_eq!(m.matches("a"), None);
}

#[test]
fn prefix_and_suffix_may_not_overlap() {
    let m = Matcher {
        prefix: "ab".to_string(),
        suffix: "ba".to_string(),
        inner: InnerMatcher::SingleCapture { filter: None, allow_empty: true },
    };
    assert_eq!(m.matches("aba"), None);
    assert_eq!(m.matches("abba"), captures(&[Some("")]));
    assert_eq!(m.matches("abxba"), captures(&[Some("x")]));
    let l = Matcher::literal("x".to_string());
    assert_eq!(l.prefix, "");
    assert_eq!(l.matches("x"), captures(&[]));
}

#[test]
fn specialized_matchers_accept_what_the_expression_accepts() {
    let inputs = ["", "/", "/a", "/a/", "/a/x", "/a/x/y", "/a/x.js", "/b/x", "a", "/a/.js", "x.js"];
    for p in ["", "/a", "/a/*", "/a/:id", "*", ":id", "/a/*.js", "/a/:id.js", "{/a}{/:id}{.js}"] {
        let compiled =
            Component::compile(Some(p), Encoding::Hash, Options::pathname()).unwrap();
        assert!(!matches!(&compiled.matcher.inner, InnerMatcher::RegExp { .. }), "{}", p);
        let engine = compiled.regexp.as_ref().unwrap();
        for i in inputs {
            assert_eq!(compiled.matcher.matches(i).is_some(), engine.is_match(i), "{} on {}", p, i);
        }
    }
}

#[test]
fn full_wildcard_matcher_takes_a_line_feed_that_the_expression_refuses() {
    let compiled = Component::compile(Some("*"), Encoding::Search, Options::default()).unwrap();
    assert!(compiled.matcher.matches("a\nb").is_some());
    assert!(!compiled.regexp.as_ref().unwrap().is_match("a\nb"));
}

#[test]
fn compile_regexp_takes_the_flag() {
    let plain = compile_regexp("^abc$", false).unwrap();
    assert!(plain.is_match("abc"));
    assert!(!plain.is_match("ABC"));
    let folded = compile_regexp("^abc$", true).unwrap();
    assert!(folded.is_match("ABC"));
    assert_eq!(compile_regexp("^(abc$", false).err(), Some(Error::RegExp));
}

#[test]
fn compiled_component() {
    let c = Component::compile(Some("/a/:id"), Encoding::Hash, Options::pathname()).unwrap();
    assert_eq!(c.pattern_string, "/a/:id");
    assert_eq!(c.regexp_string, "^\\/a(?:\\/([^\\/]+?))$");
    assert_eq!(c.group_name_list, vec!["id"]);
    assert!(c.regexp.is_ok());
    let wild = Component::compile(None, Encoding::Search, Options::default()).unwrap();
    assert_eq!(wild.pattern_string, "*");
    assert_eq!(wild.regexp_string, "^(.*)$");
    assert_eq!(wild.group_name_list, vec!["0"]);
}

#[test]
fn compiling_twice_gives_the_same_component() {
    let a = Component::compile(Some("/a/:id(\\d+)?"), Encoding::Hash, Options::pathname())
        .unwrap();
    let b = Component::compile(Some("/a/:id(\\d+)?"), Encoding::Hash, Options::pathname())
        .unwrap();
    assert_eq!(a.pattern_string, b.pattern_string);
    assert_eq!(a.regexp_string, b.regexp_string);
    assert_eq!(a.group_name_list, b.group_name_list);
    assert_eq!(a.matcher.matches("/a/12"), b.matcher.matches("/a/12"));
    assert_eq!(a.matcher.matches("/a/12"), a.matcher.matches("/a/12"));
}

#[test]
fn expression_that_the_engine_refuses_is_kept_as_an_error() {
    let c = Component::compile(Some(":x(a(?=b))-:y"), Encoding::Search, Options::default()).unwrap();
    assert_eq!(c.regexp_string, "^(a(?=b))-([^]+?)$");
    assert_eq!(c.regexp.as_ref().err(), Some(&Error::RegExp));
    assert_eq!(c.matcher.matches("a-b"), None);
    assert!(!c.protocol_component_matches_special_scheme());
    assert_eq!(c.optionally_transpose_regex_error(true).err(), Some(Error::RegExp));
    let c = Component::compile(Some(":x(a(?=b))-:y"), Encoding::Search, Options::default()).unwrap();
    assert!(c.optionally_transpose_regex_error(false).is_ok());
}

#[test]
fn wildcard_without_delimiter_is_read_by_the_engine() {
    let c = Component::compile(Some(":x-:y"), Encoding::Search, Options::default()).unwrap();
    assert_eq!(c.regexp_string, "^([^]+?)-([^]+?)$");
    assert_eq!(c.group_name_list, vec!["x".to_string(), "y".to_string()]);
    let regexp = c.regexp.as_ref().unwrap();
    assert_eq!(regexp.as_str(), "^([\\s\\S]+?)-([\\s\\S]+?)$");
    assert_eq!(c.matcher.matches("a-b"), captures(&[Some("a"), Some("b")]));
    assert_eq!(c.matcher.matches("a\nb-c-d"), captures(&[Some("a\nb"), Some("c-d")]));
    assert_eq!(c.matcher.matches("-b"), None);
    assert_eq!(c.matcher.matches("ab"), None);
    assert!(c.optionally_transpose_regex_error(true).is_ok());
    let options = Options { ignore_case: true, ..Options::default() };
    let folded = Component::compile(Some("a:x?b:y+"), Encoding::Hash, options).unwrap();
    assert_eq!(folded.regexp_string, "^a([^]+?)?b((?:[^]+?)+)$");
    assert_eq!(folded.regexp.as_ref().unwrap().as_str(), "(?i)^a([\\s\\S]+?)?b((?:[\\s\\S]+?)+)$");
    assert_eq!(folded.matcher.matches("aBc"), captures(&[None, Some("c")]));
    assert_eq!(folded.matcher.matches("ABc"), captures(&[None, Some("c")]));
    let written = Component::compile(Some("([^]+?)-:y"), Encoding::Hash, Options::default()).unwrap();
    assert_eq!(written.pattern_string, "([^]+?)-:y");
    assert_eq!(written.matcher.matches("a-b"), captures(&[Some("a"), Some("b")]));
}

#[test]
fn wildcard_with_delimiter_is_handed_on_as_written() {
    let c = Component::compile(Some("/:x?/b"), Encoding::Hash, Options::pathname()).unwrap();
    assert_eq!(c.regexp.as_ref().unwrap().as_str(), c.regexp_string);
    assert_eq!(c.regexp_string, "^(?:\\/([^\\/]+?))?\\/b$");
    let refused = Component::compile(Some("/:x([^]+)/b"), Encoding::Hash, Options::pathname()).unwrap();
    assert_eq!(refused.regexp.as_ref().err(), Some(&Error::RegExp));
}

#[test]
fn ignore_case_goes_to_the_engine() {
    let options = Options { ignore_case: true, ..Options::pathname() };
    let c = Component::compile(Some("/a/:x?"), Encoding::Hash, options).unwrap();
    assert!(c.regexp.as_ref().unwrap().is_match("/A/b"));
    assert_eq!(c.regexp_string, "^\\/a(?:\\/([^\\/]+?))?$");
    assert_eq!(c.matcher.matches("/a/b"), captures(&[Some("b")]));
}

#[test]
fn special_schemes() {
    for (p, expected) in [
        ("http", true),
        ("https", true),
        ("http{s}?", true),
        ("ws", true),
        ("wss", true),
        ("ftp", true),
        ("file", true),
        ("*", true),
        ("data", false),
        ("htt", false),
        ("", false),
    ] {
        let c = Component::compile(Some(p), Encoding::Protocol, Options::default()).unwrap();
        assert_eq!(c.protocol_component_matches_special_scheme(), expected, "{}", p);
    }
}

#[test]
fn match_result_pairs_names_with_captures() {
    let c = Component::compile(Some("/:a/:b?"), Encoding::Hash, Options::pathname()).unwrap();
    let r = c.create_match_result("/x".to_string(), vec![Some("x".to_string()), None]);
    assert_eq!(r.input, "/x");
    assert_eq!(
        r.groups,
        vec![("a".to_string(), "x".to_string()), ("b".to_string(), String::new())]
    );
    let short = c.create_match_result("/x".to_string(), vec![Some("x".to_string())]);
    assert_eq!(short.groups, vec![("a".to_string(), "x".to_string())]);
}

#[test]
fn two_literal_texts_side_by_side_are_written_as_one() {
    let parts = path_parts("a{}?b");
    assert_eq!(parts.len(), 2);
    let written = generate_pattern_string(&parts, &Options::pathname());
    assert_eq!(written, "ab");
    assert_eq!(path_parts(&written).len(), 1);
}

#[test]
fn literal_texts_side_by_side_come_back_as_one_with_the_same_groups() {
    for p in ["a{}?b", "/a{}?b/:x{}*-c{}+d", "{}?x{}?/:x{}?-y{}?-z", "/:a{}?{-b}{}?c/*"] {
        let parts = path_parts(p);
        let written = generate_pattern_string(&parts, &Options::pathname());
        let back = path_parts(&written);
        assert!(back.len() < parts.len(), "{}", p);
        assert_eq!(generate_pattern_string(&back, &Options::pathname()), written);
        assert_eq!(
            generate_regular_expression_and_name_list(&back, &Options::pathname()),
            generate_regular_expression_and_name_list(&parts, &Options::pathname())
        );
        let groups = |list: &[Part]| -> Vec<Part> {
            list.iter().filter(|q| q.kind != PartType::FixedText).cloned().collect()
        };
        assert_eq!(groups(&back), groups(&parts));
        for pair in back.windows(2) {
            let plain = |q: &Part| q.kind == PartType::FixedText && q.modifier == PartModifier::NoModifier;
            assert!(!(plain(&pair[0]) && plain(&pair[1])));
        }
    }
    assert_eq!(
        path_parts("a{}?b"),
        vec![
            part(PartType::FixedText, "", "a", "", "", PartModifier::NoModifier),
            part(PartType::FixedText, "", "b", "", "", PartModifier::NoModifier),
        ]
    );
    assert_eq!(
        path_parts("ab"),
        vec![part(PartType::FixedText, "", "ab", "", "", PartModifier::NoModifier)]
    );
}

#[test]
fn recompiled_component_is_the_same() {
    for (p, options) in [
        ("/a/:b?/*", Options::pathname()),
        ("{:sub.}*example.com", Options::hostname()),
        (":a-:b", Options::default()),
        ("/:n(\\d+)/x{y}+", Options::pathname()),
    ] {
        let c = Component::compile(Some(p), Encoding::Verbatim, options.clone()).unwrap();
        let again =
            Component::compile(Some(&c.pattern_string), Encoding::Verbatim, options).unwrap();
        assert_eq!(again.pattern_string, c.pattern_string);
        assert_eq!(again.regexp_string, c.regexp_string);
        assert_eq!(again.group_name_list, c.group_name_list);
        assert_eq!(again.regexp.as_ref().unwrap().as_str(), c.regexp.as_ref().unwrap().as_str());
        assert_eq!(again.matcher.prefix, c.matcher.prefix);
        assert_eq!(again.matcher.suffix, c.matcher.suffix);
        for input in ["/a/x/y", "/a", "a.b.example.com", "x-y", "/12/xyy", ""] {
            assert_eq!(again.matcher.matches(input), c.matcher.matches(input), "{} on {}", p, input);
        }
    }
}

#[test]
fn verbatim_encoding_leaves_the_text_as_it_stands() {
    assert_eq!(urlpattern::canonicalize_and_process::encode(Encoding::Verbatim, "/A b\u{e9}"), Ok("/A b\u{e9}".to_string()));
    assert_eq!(urlpattern::canonicalize_and_process::encode(Encoding::Verbatim, ""), Ok(String::new()));
    assert_eq!(
        urlpattern::canonicalize_and_process::encode(Encoding::Pathname, "/A b\u{e9}"),
        Ok("/A%20b%C3%A9".to_string())
    );
    let parts = parse_pattern_string("/A b/:x", &Options::pathname(), Encoding::Verbatim).unwrap();
    assert_eq!(
        parts,
        vec![
            part(PartType::FixedText, "", "/A b", "", "", PartModifier::NoModifier),
            part(PartType::SegmentWildcard, "x", "", "/", "", PartModifier::NoModifier),
        ]
    );
    let encoded = parse_pattern_string("/A b/:x", &Options::pathname(), Encoding::Pathname).unwrap();
    assert_eq!(encoded[0].value, "/A%20b");
}

#[test]
fn callback_of_the_caller_brings_literal_text_into_its_form() {
    let upper = Callback(|s: &str| -> Result<String, Error> { Ok(s.to_uppercase()) });
    let parts = parse_pattern_string("/ab/:x.js", &Options::pathname(), upper).unwrap();
    assert_eq!(
        parts,
        vec![
            part(PartType::FixedText, "", "/AB", "", "", PartModifier::NoModifier),
            part(PartType::SegmentWildcard, "x", "", "/", "", PartModifier::NoModifier),
            part(PartType::FixedText, "", ".JS", "", "", PartModifier::NoModifier),
        ]
    );
    let same = Callback(|s: &str| -> Result<String, Error> { Ok(s.to_string()) });
    assert_eq!(
        parse_pattern_string("/ab/:x.js", &Options::pathname(), same),
        parse_pattern_string("/ab/:x.js", &Options::pathname(), Encoding::Verbatim)
    );
    let refusing = Callback(|s: &str| -> Result<String, Error> {
        if s.contains('!') {
            Err(Error::BaseUrlRequired)
        } else {
            Ok(s.to_string())
        }
    });
    assert_eq!(
        parse_pattern_string("/a!/:x", &Options::pathname(), refusing).err(),
        Some(Error::BaseUrlRequired)
    );
    let lower = Callback(|s: &str| -> Result<String, Error> { Ok(s.to_lowercase()) });
    let c = Component::compile(Some("/A/:x+"), lower, Options::pathname()).unwrap();
    assert_eq!(c.pattern_string, "/a/:x+");
    assert_eq!(c.regexp_string, "^\\/a(?:\\/((?:[^\\/]+?)(?:\\/(?:[^\\/]+?))*))$");
    assert_eq!(c.matcher.matches("/a/b/c"), captures(&[Some("b/c")]));
    assert_eq!(c.matcher.matches("/A/b"), None);
}

#[test]
fn matcher_that_ignores_case_is_the_expression_of_the_whole_pattern() {
    let folding = Options { ignore_case: true, ..Options::pathname() };
    let literal = generate_matcher(&path_parts("/a"), &folding);
    assert_eq!(literal.prefix, "");
    assert_eq!(literal.suffix, "");
    assert!(matches!(literal.inner, InnerMatcher::RegExp { regexp: Ok(_) }));
    assert_eq!(literal.matches("/a"), captures(&[]));
    assert_eq!(literal.matches("/A"), captures(&[]));
    assert_eq!(literal.matches("/b"), None);
    let grouped = Component::compile(Some("/a/:x?"), Encoding::Hash, folding.clone()).unwrap();
    assert_eq!(grouped.matcher.prefix, "");
    assert_eq!(grouped.matcher.matches("/A/b"), captures(&[Some("b")]));
    assert_eq!(grouped.matcher.matches("/A"), captures(&[None]));
    assert_eq!(
        grouped.matcher.matches("/A/b").is_some(),
        grouped.regexp.as_ref().unwrap().is_match("/A/b")
    );
    let wildcard = generate_matcher(&path_parts("/Img/*.PNG"), &folding);
    assert_eq!(wildcard.matches("/img/x.png"), captures(&[Some("x")]));
    let exact = generate_matcher(&path_parts("/a"), &Options::pathname());
    assert!(matches!(exact.inner, InnerMatcher::Literal { .. }));
    assert_eq!(exact.matches("/A"), None);
    let refused = generate_matcher(&path_parts("/:x(a(?=b))"), &folding);
    assert!(matches!(refused.inner, InnerMatcher::RegExp { regexp: Err(Error::RegExp) }));
    assert_eq!(refused.matches("/a"), None);
}
