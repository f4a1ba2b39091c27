//! Literal texts side by side. Two literal texts that stand once, one
//! right behind the other, are written as one text and match what that one
//! text matches; a part list with such neighbours is read back from its
//! canonical pattern string with each run of them as one part.

use crate::component::engine_part;
use crate::component::engine_parts;
use crate::component::engine_source;
use crate::component::escape_pattern;
use crate::component::group_names;
use crate::component::part_pattern;
use crate::component::part_regexp;
use crate::component::pattern_body;
use crate::component::pattern_string;
use crate::component::regexp_body;
use crate::component::regexp_source;
use crate::parsed::part_has_shape;
use crate::parsed::parts_have_shape;
use crate::parser::OptionsView;
use crate::parser::PartType;
use crate::parser::PartView;
use crate::parser::escape_regexp;
use crate::parser::names_distinct;
use crate::round_trip::is_plain_literal;
use crate::round_trip::unnamed_before;
use vstd::prelude::*;

verus! {

/// Whether the parts at `k` and `k + 1` are literal texts that stand once.
pub open spec fn is_literal_pair(parts: Seq<PartView>, k: int) -> bool {
    0 <= k && k + 1 < parts.len() && is_plain_literal(parts[k]) && is_plain_literal(parts[k + 1])
}

/// `parts` with the two parts at `k` and `k + 1` as one, which holds the
/// text of both.
pub open spec fn joined_at(parts: Seq<PartView>, k: int) -> Seq<PartView> {
    Seq::new(
        (parts.len() - 1) as nat,
        |j: int|
            if j < k {
                parts[j]
            } else if j == k {
                PartView { value: parts[k].value + parts[k + 1].value, ..parts[k] }
            } else {
                parts[j + 1]
            },
    )
}

/// Where the first two literal texts side by side stand, from `from` on;
/// the length of the list if there are none.
pub open spec fn first_pair(parts: Seq<PartView>, from: int) -> int
    decreases parts.len() - from,
{
    if from < 0 || from + 1 >= parts.len() {
        parts.len() as int
    } else if is_literal_pair(parts, from) {
        from
    } else {
        first_pair(parts, from + 1)
    }
}

/// `parts` with every run of literal texts side by side as one part.
pub open spec fn joined(parts: Seq<PartView>) -> Seq<PartView>
    decreases parts.len(),
{
    let k = first_pair(parts, 0);
    if is_literal_pair(parts, k) {
        joined(joined_at(parts, k))
    } else {
        parts
    }
}

/// Whether no literal text of `parts` is empty.
pub open spec fn literals_are_filled(parts: Seq<PartView>) -> bool {
    forall|k: int|
        0 <= k < parts.len() && (#[trigger] parts[k]).kind == PartType::FixedText
            ==> parts[k].value.len() > 0
}

/// The groups among the first `n` parts, in their order.
pub open spec fn groups_of(parts: Seq<PartView>, n: nat) -> Seq<PartView>
    decreases n,
{
    if n == 0 {
        Seq::empty()
    } else if parts[n - 1].kind == PartType::FixedText {
        groups_of(parts, (n - 1) as nat)
    } else {
        groups_of(parts, (n - 1) as nat).push(parts[n - 1])
    }
}

/// Where there are no two literal texts side by side from `from` on, there
/// are none at any place from there on.
proof fn lemma_no_pair(parts: Seq<PartView>, from: int, k: int)
    requires
        0 <= from <= k,
        !is_literal_pair(parts, first_pair(parts, from)),
    ensures
        !is_literal_pair(parts, k),
    decreases parts.len() - from,
{
    if from + 1 < parts.len() && !is_literal_pair(parts, from) && from < k {
        lemma_no_pair(parts, from + 1, k);
    }
}

/// Two texts in a row are escaped as each of them is.
proof fn lemma_escape_pattern_of_both(a: Seq<char>, b: Seq<char>)
    ensures
        escape_pattern(a + b) == escape_pattern(a) + escape_pattern(b),
    decreases b.len(),
{
    if b.len() == 0 {
        assert(a + b =~= a);
        assert(escape_pattern(a) + escape_pattern(b) =~= escape_pattern(a));
    } else {
        lemma_escape_pattern_of_both(a, b.drop_last());
        assert((a + b).drop_last() =~= a + b.drop_last());
        assert((a + b).last() == b.last());
        assert(escape_pattern(a + b) =~= escape_pattern(a) + escape_pattern(b));
    }
}

/// Two texts in a row are escaped as each of them is.
proof fn lemma_escape_regexp_of_both(a: Seq<char>, b: Seq<char>)
    ensures
        escape_regexp(a + b) == escape_regexp(a) + escape_regexp(b),
    decreases b.len(),
{
    if b.len() == 0 {
        assert(a + b =~= a);
        assert(escape_regexp(a) + escape_regexp(b) =~= escape_regexp(a));
    } else {
        lemma_escape_regexp_of_both(a, b.drop_last());
        assert((a + b).drop_last() =~= a + b.drop_last());
        assert((a + b).last() == b.last());
        assert(escape_regexp(a + b) =~= escape_regexp(a) + escape_regexp(b));
    }
}

/// The place in `parts` of what stands at `j` in `joined_at(parts, k)`; for
/// the joined part, the place of its second half.
pub open spec fn place_before(k: int, j: int) -> int {
    if j < k {
        j
    } else {
        j + 1
    }
}

/// What is written for a part is written for it after two literal texts
/// were joined; the joined part is written as the two were.
#[verifier::rlimit(40)]
proof fn lemma_joined_part_pattern(parts: Seq<PartView>, k: int, options: OptionsView, j: int)
    requires
        is_literal_pair(parts, k),
        literals_are_filled(parts),
        0 <= j < parts.len() - 1,
    ensures
        j != k ==> part_pattern(joined_at(parts, k), j, options) == part_pattern(
            parts,
            place_before(k, j),
            options,
        ),
        j == k ==> part_pattern(joined_at(parts, k), j, options) == part_pattern(parts, k, options)
            + part_pattern(parts, k + 1, options),
{
    let m = joined_at(parts, k);
    let a = parts[k].value;
    let b = parts[k + 1].value;
    assert(a.len() > 0 && b.len() > 0);
    assert((a + b).len() > 0 && (a + b)[0] == a[0] && (a + b).last() == b.last());
    if j == k {
        lemma_escape_pattern_of_both(a, b);
    } else if j < k {
        assert(m[j] == parts[j]);
        if j > 0 {
            assert(m[j - 1] == parts[j - 1]);
        }
        if j + 1 < k {
            assert(m[j + 1] == parts[j + 1]);
        }
    } else {
        assert(m[j] == parts[j + 1]);
        if j - 1 > k {
            assert(m[j - 1] == parts[j]);
        }
        if j + 1 < m.len() {
            assert(m[j + 1] == parts[j + 2]);
        }
    }
}

/// What is written for the first parts after two literal texts were joined
/// is what was written for them before.
proof fn lemma_joined_pattern_body(parts: Seq<PartView>, k: int, options: OptionsView, n: nat)
    requires
        is_literal_pair(parts, k),
        literals_are_filled(parts),
        n <= parts.len() - 1,
    ensures
        pattern_body(joined_at(parts, k), n, options) == pattern_body(
            parts,
            (if n <= k {
                n
            } else {
                n + 1
            }) as nat,
            options,
        ),
    decreases n,
{
    if n > 0 {
        lemma_joined_pattern_body(parts, k, options, (n - 1) as nat);
        lemma_joined_part_pattern(parts, k, options, n - 1);
        if n - 1 == k {
            let front = pattern_body(parts, k as nat, options);
            let first = part_pattern(parts, k, options);
            let second = part_pattern(parts, k + 1, options);
            assert(pattern_body(parts, (k + 1) as nat, options) == front + first);
            assert(pattern_body(parts, (k + 2) as nat, options) == front + first + second);
            assert(front + (first + second) =~= front + first + second);
        }
    }
}

/// The piece of the regular expression of each part after two literal
/// texts were joined.
proof fn lemma_joined_regexp_body(parts: Seq<PartView>, k: int, options: OptionsView, n: nat)
    requires
        is_literal_pair(parts, k),
        n <= parts.len() - 1,
    ensures
        regexp_body(joined_at(parts, k), n, options) == regexp_body(
            parts,
            (if n <= k {
                n
            } else {
                n + 1
            }) as nat,
            options,
        ),
        group_names(joined_at(parts, k), n) == group_names(
            parts,
            (if n <= k {
                n
            } else {
                n + 1
            }) as nat,
        ),
        groups_of(joined_at(parts, k), n) == groups_of(
            parts,
            (if n <= k {
                n
            } else {
                n + 1
            }) as nat,
        ),
        unnamed_before(joined_at(parts, k), n as int) == unnamed_before(
            parts,
            place_before(k + 1, n as int),
        ),
    decreases n,
{
    if n > 0 {
        let m = joined_at(parts, k);
        lemma_joined_regexp_body(parts, k, options, (n - 1) as nat);
        if n - 1 == k {
            let a = parts[k].value;
            let b = parts[k + 1].value;
            lemma_escape_regexp_of_both(a, b);
            let front = regexp_body(parts, k as nat, options);
            let first = part_regexp(parts[k], options);
            let second = part_regexp(parts[k + 1], options);
            assert(regexp_body(parts, (k + 1) as nat, options) == front + first);
            assert(regexp_body(parts, (k + 2) as nat, options) == front + first + second);
            assert(front + (first + second) =~= front + first + second);
            assert(group_names(parts, (k + 2) as nat) == group_names(parts, (k + 1) as nat));
            assert(groups_of(parts, (k + 2) as nat) == groups_of(parts, (k + 1) as nat));
            assert(unnamed_before(parts, k + 2) == unnamed_before(parts, k + 1));
        } else if n - 1 < k {
            assert(m[n - 1] == parts[n - 1]);
        } else {
            assert(m[n - 1] == parts[n as int]);
        }
    }
}

/// Joining two literal texts changes neither what is written for the list
/// nor what it matches nor its groups, and the list keeps the shape that
/// the parser gave it.
pub proof fn lemma_joined_at(parts: Seq<PartView>, k: int, options: OptionsView)
    requires
        is_literal_pair(parts, k),
        literals_are_filled(parts),
    ensures
        joined_at(parts, k).len() == parts.len() - 1,
        pattern_string(joined_at(parts, k), options) == pattern_string(parts, options),
        regexp_source(joined_at(parts, k), options) == regexp_source(parts, options),
        groups_of(joined_at(parts, k), joined_at(parts, k).len()) == groups_of(parts, parts.len()),
        group_names(joined_at(parts, k), joined_at(parts, k).len()) == group_names(
            parts,
            parts.len(),
        ),
        literals_are_filled(joined_at(parts, k)),
        parts_have_shape(parts, options) ==> parts_have_shape(joined_at(parts, k), options),
        names_distinct(parts) ==> names_distinct(joined_at(parts, k)),
{
    let m = joined_at(parts, k);
    lemma_joined_pattern_body(parts, k, options, m.len());
    lemma_joined_regexp_body(parts, k, options, m.len());
    assert forall|j: int| 0 <= j < m.len() && (#[trigger] m[j]).kind
        == PartType::FixedText implies m[j].value.len() > 0 by {
        assert(parts[place_before(k, j)].kind == PartType::FixedText);
    }
    if parts_have_shape(parts, options) {
        assert forall|j: int| 0 <= j < m.len() implies #[trigger] part_has_shape(
            m,
            j,
            options,
        ) by {
            assert(part_has_shape(parts, place_before(k, j), options));
            lemma_joined_regexp_body(parts, k, options, j as nat);
            if j != k {
                assert(m[j] == parts[place_before(k, j)]);
                assert(place_before(k + 1, j) == place_before(k, j));
            } else {
                assert(part_has_shape(parts, k, options));
            }
        }
    }
    if names_distinct(parts) {
        assert forall|i: int, j: int|
            0 <= i < j < m.len() && (#[trigger] m[i]).kind != PartType::FixedText && (
            #[trigger] m[j]).kind != PartType::FixedText implies m[i].name != m[j].name by {
            assert(parts[place_before(k, i)].kind != PartType::FixedText);
            assert(parts[place_before(k, j)].kind != PartType::FixedText);
        }
    }
}

/// Joining every run of literal texts changes neither what is written for
/// the list nor what it matches nor its groups; the list keeps the shape
/// that the parser gave it, and no two literal texts are left side by
/// side.
pub proof fn lemma_joined(parts: Seq<PartView>, options: OptionsView)
    requires
        literals_are_filled(parts),
    ensures
        pattern_string(joined(parts), options) == pattern_string(parts, options),
        regexp_source(joined(parts), options) == regexp_source(parts, options),
        groups_of(joined(parts), joined(parts).len()) == groups_of(parts, parts.len()),
        group_names(joined(parts), joined(parts).len()) == group_names(parts, parts.len()),
        literals_are_filled(joined(parts)),
        parts_have_shape(parts, options) ==> parts_have_shape(joined(parts), options),
        names_distinct(parts) ==> names_distinct(joined(parts)),
        forall|j: int| 0 <= j ==> !is_literal_pair(joined(parts), j),
    decreases parts.len(),
{
    let k = first_pair(parts, 0);
    if is_literal_pair(parts, k) {
        lemma_joined_at(parts, k, options);
        lemma_joined(joined_at(parts, k), options);
    } else {
        assert forall|j: int| 0 <= j implies !is_literal_pair(parts, j) by {
            lemma_no_pair(parts, 0, j);
        }
    }
}

/// The engine reads literal texts as they are written, so that the first
/// two side by side stand where they stood.
proof fn lemma_engine_first_pair(parts: Seq<PartView>, options: OptionsView, from: int)
    ensures
        first_pair(engine_parts(parts, options), from) == first_pair(parts, from),
    decreases parts.len() - from,
{
    let read = engine_parts(parts, options);
    if 0 <= from && from + 1 < parts.len() {
        assert(read[from] == engine_part(parts[from], options));
        assert(read[from + 1] == engine_part(parts[from + 1], options));
        if !is_literal_pair(parts, from) {
            lemma_engine_first_pair(parts, options, from + 1);
        }
    }
}

/// The joined parts as the engine reads them are what the engine reads of
/// the parts, joined; so the engine is handed one source for both lists.
pub proof fn lemma_engine_reads_joined(parts: Seq<PartView>, options: OptionsView)
    requires
        literals_are_filled(parts),
    ensures
        engine_parts(joined(parts), options) == joined(engine_parts(parts, options)),
        engine_source(joined(parts), options) == engine_source(parts, options),
    decreases parts.len(),
{
    let read = engine_parts(parts, options);
    let k = first_pair(parts, 0);
    lemma_engine_first_pair(parts, options, 0);
    assert forall|j: int| 0 <= j < read.len() && (#[trigger] read[j]).kind
        == PartType::FixedText implies read[j].value.len() > 0 by {
        assert(parts[j].kind == PartType::FixedText);
    }
    if is_literal_pair(parts, k) {
        assert(read[k] == parts[k] && read[k + 1] == parts[k + 1]);
        assert(is_literal_pair(read, k));
        assert(engine_parts(joined_at(parts, k), options) =~= joined_at(read, k));
        lemma_joined_at(parts, k, options);
        lemma_engine_reads_joined(joined_at(parts, k), options);
        lemma_joined(read, options);
    } else {
        assert(!is_literal_pair(read, k)) by {
            if 0 <= k && k + 1 < parts.len() {
                assert(read[k] == engine_part(parts[k], options));
                assert(read[k + 1] == engine_part(parts[k + 1], options));
            }
        }
    }
    lemma_joined(read, options);
}

} // verus!
