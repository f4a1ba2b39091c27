//! The matcher of a component: literal text at both ends of the input, and
//! between them a literal, one capture, or a regular expression.

use crate::error::Error;
use crate::regexp::captures_view;
use crate::regexp::match_view;
use crate::regexp::regex_captured;
use crate::regexp::regex_captures;
use crate::text::chars_of;
use crate::text::contains_text;
use crate::text::ends_with;
use crate::text::has_at;
use crate::text::has_text;
use crate::text::starts_with;
use crate::text::str_eq;
use crate::text::string_of;
use vstd::prelude::*;

verus! {

/// What a matcher does with the text between its prefix and its suffix.
#[derive(Debug)]
pub enum InnerMatcher {
    /// Matches the literal and nothing else; captures nothing.
    Literal { literal: String },
    /// Matches any text, but not the empty text unless `allow_empty`, and
    /// not a text in which `filter` occurs; captures the text.
    SingleCapture { filter: Option<String>, allow_empty: bool },
    /// Matches what the regular expression matches; where that did not
    /// compile, nothing.
    RegExp { regexp: Result<regex::Regex, Error> },
}

/// Matches an input that starts with `prefix`, ends with `suffix` behind
/// it, and of which `inner` matches what is left between the two.
#[derive(Debug)]
pub struct Matcher {
    pub prefix: String,
    pub suffix: String,
    pub inner: InnerMatcher,
}

/// An inner matcher with its strings as sequences.
pub enum InnerMatcherView {
    Literal { literal: Seq<char> },
    SingleCapture { filter: Option<Seq<char>>, allow_empty: bool },
    RegExp { regexp: Option<regex::Regex> },
}

/// A matcher with its strings as sequences.
pub struct MatcherView {
    pub prefix: Seq<char>,
    pub suffix: Seq<char>,
    pub inner: InnerMatcherView,
}

/// A compiled expression, if there is one.
pub open spec fn compiled_view(regexp: Result<regex::Regex, Error>) -> Option<regex::Regex> {
    match regexp {
        Ok(r) => Some(r),
        Err(_) => None,
    }
}

impl View for InnerMatcher {
    type V = InnerMatcherView;

    open spec fn view(&self) -> InnerMatcherView {
        match *self {
            InnerMatcher::Literal { literal } => InnerMatcherView::Literal { literal: literal@ },
            InnerMatcher::SingleCapture { filter, allow_empty } => InnerMatcherView::SingleCapture {
                filter: match filter {
                    Some(f) => Some(f@),
                    None => None,
                },
                allow_empty,
            },
            InnerMatcher::RegExp { regexp } => InnerMatcherView::RegExp {
                regexp: compiled_view(regexp),
            },
        }
    }
}

impl View for Matcher {
    type V = MatcherView;

    open spec fn view(&self) -> MatcherView {
        MatcherView { prefix: self.prefix@, suffix: self.suffix@, inner: self.inner@ }
    }
}

/// What `inner` captures in `input`, if it matches it.
pub open spec fn inner_match(inner: InnerMatcherView, input: Seq<char>) -> Option<
    Seq<Option<Seq<char>>>,
> {
    match inner {
        InnerMatcherView::Literal { literal } => if input == literal {
            Some(Seq::empty())
        } else {
            None
        },
        InnerMatcherView::SingleCapture { filter, allow_empty } => {
            if input.len() == 0 && !allow_empty {
                None
            } else if filter is Some && contains_text(input, filter->0) {
                None
            } else {
                Some(seq![Some(input)])
            }
        },
        InnerMatcherView::RegExp { regexp } => match regexp {
            Some(r) => regex_captured(r, input),
            None => None,
        },
    }
}

/// What `m` captures in `input`, if it matches it: one entry for each group
/// of the pattern, in order, empty of text where the group took no part.
pub open spec fn matcher_match(m: MatcherView, input: Seq<char>) -> Option<
    Seq<Option<Seq<char>>>,
> {
    if m.prefix.len() + m.suffix.len() > input.len() || !starts_with(input, m.prefix)
        || !ends_with(input, m.suffix) {
        None
    } else {
        inner_match(m.inner, input.subrange(m.prefix.len() as int, input.len() - m.suffix.len()))
    }
}

impl Matcher {
    /// The matcher of one literal.
    pub fn literal(literal: String) -> (r: Matcher)
        ensures
            r@ == (MatcherView {
                prefix: Seq::empty(),
                suffix: Seq::empty(),
                inner: InnerMatcherView::Literal { literal: literal@ },
            }),
    {
        Matcher {
            prefix: String::new(),
            suffix: String::new(),
            inner: InnerMatcher::Literal { literal },
        }
    }

    /// Matches `input` and returns its captures.
    pub fn matches(&self, input: &str) -> (r: Option<Vec<Option<String>>>)
        ensures
            match_view(r) == matcher_match(self@, input@),
    {
        let chars = chars_of(input);
        let prefix = chars_of(self.prefix.as_str());
        let suffix = chars_of(self.suffix.as_str());
        let n = chars.len();
        if prefix.len() > n || suffix.len() > n - prefix.len() {
            return None;
        }
        if !has_at(&chars, 0, &prefix) {
            return None;
        }
        if !has_at(&chars, n - suffix.len(), &suffix) {
            return None;
        }
        let middle = string_of(&chars, prefix.len(), n - suffix.len());
        match &self.inner {
            InnerMatcher::Literal { literal } => {
                if str_eq(middle.as_str(), literal.as_str()) {
                    let captures: Vec<Option<String>> = Vec::new();
                    assert(captures_view(captures@) =~= Seq::empty());
                    Some(captures)
                } else {
                    None
                }
            },
            InnerMatcher::SingleCapture { filter, allow_empty } => {
                if middle.as_str().is_empty() && !*allow_empty {
                    return None;
                }
                match filter {
                    Some(f) => {
                        let text = chars_of(middle.as_str());
                        let part = chars_of(f.as_str());
                        if has_text(&text, &part) {
                            return None;
                        }
                    },
                    None => {},
                }
                let mut captures: Vec<Option<String>> = Vec::new();
                captures.push(Some(middle));
                assert(captures_view(captures@) =~= seq![Some(middle@)]);
                Some(captures)
            },
            InnerMatcher::RegExp { regexp } => match regexp {
                Ok(r) => regex_captures(r, middle.as_str()),
                Err(_) => None,
            },
        }
    }
}

} // verus!
