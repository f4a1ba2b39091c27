//! What a match gives back.

use crate::text::option_string_view;
use vstd::prelude::*;

verus! {

/// The result of a match on one component: the text that was matched and,
/// for each group of the pattern in order, its name and the text that it
/// captured (empty where the group took no part in the match). No two
/// entries have one name where the pattern was compiled by this library.
/// The groups are a list and not a hash map: vstd gives no key model for
/// `String`, so that nothing is proved of a map with such keys.
#[derive(Debug, Clone, PartialEq, Eq)]
pub struct UrlPatternComponentResult {
    pub input: String,
    pub groups: Vec<(String, String)>,
}

/// The result of a match: that of each component.
#[derive(Debug, Clone, PartialEq, Eq)]
pub struct UrlPatternResult {
    pub protocol: UrlPatternComponentResult,
    pub username: UrlPatternComponentResult,
    pub password: UrlPatternComponentResult,
    pub hostname: UrlPatternComponentResult,
    pub port: UrlPatternComponentResult,
    pub pathname: UrlPatternComponentResult,
    pub search: UrlPatternComponentResult,
    pub hash: UrlPatternComponentResult,
}

/// The result of a match on one component, with strings as sequences.
pub struct ComponentResultView {
    pub input: Seq<char>,
    pub groups: Seq<(Seq<char>, Seq<char>)>,
}

/// The result of a match, with strings as sequences.
pub struct ResultView {
    pub protocol: ComponentResultView,
    pub username: ComponentResultView,
    pub password: ComponentResultView,
    pub hostname: ComponentResultView,
    pub port: ComponentResultView,
    pub pathname: ComponentResultView,
    pub search: ComponentResultView,
    pub hash: ComponentResultView,
}

/// The views of a list of pairs of strings.
pub open spec fn pair_views(pairs: Seq<(String, String)>) -> Seq<(Seq<char>, Seq<char>)> {
    pairs.map_values(|p: (String, String)| (p.0@, p.1@))
}

impl View for UrlPatternComponentResult {
    type V = ComponentResultView;

    open spec fn view(&self) -> ComponentResultView {
        ComponentResultView { input: self.input@, groups: pair_views(self.groups@) }
    }
}

impl View for UrlPatternResult {
    type V = ResultView;

    open spec fn view(&self) -> ResultView {
        ResultView {
            protocol: self.protocol@,
            username: self.username@,
            password: self.password@,
            hostname: self.hostname@,
            port: self.port@,
            pathname: self.pathname@,
            search: self.search@,
            hash: self.hash@,
        }
    }
}

/// The text that the first group of the given name captured.
pub open spec fn group_value(groups: Seq<(Seq<char>, Seq<char>)>, name: Seq<char>, from: int)
    -> Option<Seq<char>>
    decreases groups.len() - from,
{
    if from < 0 || from >= groups.len() {
        None
    } else if groups[from].0 == name {
        Some(groups[from].1)
    } else {
        group_value(groups, name, from + 1)
    }
}

/// Whether no two entries have one name. The entries are then those of a
/// map from names to texts, in the order of the groups.
pub open spec fn names_are_distinct(groups: Seq<(Seq<char>, Seq<char>)>) -> bool {
    forall|i: int, j: int| 0 <= i < j < groups.len() ==> groups[i].0 != groups[j].0
}

impl UrlPatternComponentResult {
    /// The text that the group `name` captured, if there is such a group.
    pub fn group(&self, name: &str) -> (r: Option<String>)
        ensures
            option_string_view(r) == group_value(self@.groups, name@, 0),
    {
        let mut i: usize = 0;
        while i < self.groups.len()
            invariant
                i <= self.groups.len(),
                group_value(self@.groups, name@, 0) == group_value(self@.groups, name@, i as int),
            decreases self.groups.len() - i,
        {
            assert(self@.groups[i as int] == (self.groups@[i as int].0@, self.groups@[i as int].1@));
            if crate::text::str_eq(self.groups[i].0.as_str(), name) {
                return Some(self.groups[i].1.clone());
            }
            i += 1;
        }
        None
    }
}

} // verus!
