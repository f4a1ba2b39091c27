//! The capturing groups in the source of a regular expression, counted as
//! the synthesis writes them: each group of a pattern gives one pair of
//! plain parentheses, and every other pair starts with `(?`.

use crate::component::at_most_once;
use crate::component::capture_regexp;
use crate::component::engine_parts;
use crate::component::engine_source;
use crate::component::engine_wildcard;
use crate::component::group_names;
use crate::component::group_count;
use crate::component::modifier_text;
use crate::component::part_regexp;
use crate::component::regexp_body;
use crate::component::regexp_source;
use crate::parser::OptionsView;
use crate::parser::PartModifier;
use crate::parser::PartType;
use crate::parser::PartView;
use crate::parser::escape_regexp;
use crate::parser::escaped_char;
use crate::parser::full_wildcard_regexp;
use crate::parser::is_regexp_special;
use crate::parser::segment_wildcard_regexp;
use crate::written::is_embeddable;
use crate::written::scans;
use vstd::prelude::*;

verus! {

/// How many plain capturing groups `source` opens from the offset `i` on:
/// opening parentheses that are not escaped and that no question mark
/// follows.
pub open spec fn capture_count(source: Seq<char>, i: int) -> nat
    decreases source.len() - i,
{
    if i < 0 || i >= source.len() {
        0
    } else if source[i] == '\\' {
        if i + 1 < source.len() {
            capture_count(source, i + 2)
        } else {
            0
        }
    } else if source[i] == '(' && !(i + 1 < source.len() && source[i + 1] == '?') {
        1 + capture_count(source, i + 1)
    } else {
        capture_count(source, i + 1)
    }
}

/// Whether every backslash of `source` from the offset `i` on, read from
/// left to right, has the code point with it that it escapes.
pub open spec fn escapes_complete(source: Seq<char>, i: int) -> bool
    decreases source.len() - i,
{
    if i < 0 || i >= source.len() {
        true
    } else if source[i] == '\\' {
        i + 1 < source.len() && escapes_complete(source, i + 2)
    } else {
        escapes_complete(source, i + 1)
    }
}

/// Whether `b` can follow `a` without a parenthesis at the end of `a`
/// taking a question mark at the start of `b` for its own.
pub open spec fn joinable(a: Seq<char>, b: Seq<char>) -> bool {
    a.len() == 0 || a.last() != '(' || b.len() == 0 || b[0] != '?'
}

/// A piece of source that stands for itself wherever it is put: its
/// escapes are complete, and it does not start with a question mark.
pub open spec fn is_piece(s: Seq<char>) -> bool {
    escapes_complete(s, 0) && (s.len() == 0 || s[0] != '?')
}

proof fn lemma_count_behind(a: Seq<char>, b: Seq<char>, j: int)
    requires
        0 <= j <= b.len(),
    ensures
        capture_count(a + b, a.len() + j) == capture_count(b, j),
        escapes_complete(a + b, a.len() + j) == escapes_complete(b, j),
    decreases b.len() - j,
{
    let s = a + b;
    let n = a.len() as int;
    if j < b.len() {
        assert(s[n + j] == b[j]);
        if j + 1 < b.len() {
            assert(s[n + j + 1] == b[j + 1]);
        }
        if b[j] == '\\' {
            if j + 1 < b.len() {
                lemma_count_behind(a, b, j + 2);
            }
        } else {
            lemma_count_behind(a, b, j + 1);
        }
    }
}

proof fn lemma_count_across(a: Seq<char>, b: Seq<char>, i: int)
    requires
        0 <= i <= a.len(),
        escapes_complete(a, i),
        joinable(a, b),
    ensures
        capture_count(a + b, i) == capture_count(a, i) + capture_count(b, 0),
        escapes_complete(a + b, i) == escapes_complete(b, 0),
    decreases a.len() - i,
{
    let s = a + b;
    if i == a.len() {
        lemma_count_behind(a, b, 0);
    } else {
        assert(s[i] == a[i]);
        if a[i] == '\\' {
            lemma_count_across(a, b, i + 2);
        } else {
            if i + 1 < a.len() {
                assert(s[i + 1] == a[i + 1]);
            } else if b.len() > 0 {
                assert(s[i + 1] == b[0]);
                assert(a.last() == a[i]);
            }
            lemma_count_across(a, b, i + 1);
        }
    }
}

/// The groups of two pieces in a row are those of the first and those of
/// the second.
pub proof fn lemma_append(a: Seq<char>, b: Seq<char>)
    requires
        escapes_complete(a, 0),
        escapes_complete(b, 0),
        joinable(a, b),
    ensures
        escapes_complete(a + b, 0),
        capture_count(a + b, 0) == capture_count(a, 0) + capture_count(b, 0),
        is_piece(a) && (a.len() > 0 || is_piece(b)) ==> is_piece(a + b),
        a.len() > 0 ==> (a + b)[0] == a[0],
        b.len() > 0 ==> (a + b).last() == b.last(),
        b.len() == 0 ==> a + b == a,
{
    lemma_count_across(a, b, 0);
    if a.len() > 0 {
        assert((a + b)[0] == a[0]);
    } else {
        assert(a + b =~= b);
    }
    if b.len() == 0 {
        assert(a + b =~= a);
    }
}

/// Escaped text is a piece without groups.
pub proof fn lemma_escaped_text(text: Seq<char>)
    ensures
        is_piece(escape_regexp(text)),
        capture_count(escape_regexp(text), 0) == 0,
    decreases text.len(),
{
    reveal_with_fuel(capture_count, 3);
    reveal_with_fuel(escapes_complete, 3);
    if text.len() > 0 {
        let front = escape_regexp(text.drop_last());
        let c = text.last();
        let unit = escaped_char(c, is_regexp_special(c));
        lemma_escaped_text(text.drop_last());
        assert(is_piece(unit) && capture_count(unit, 0) == 0);
        lemma_append(front, unit);
    }
}

/// What a wildcard captures with is a piece without groups.
pub proof fn lemma_wildcard_regexp(options: OptionsView)
    ensures
        is_piece(segment_wildcard_regexp(options)),
        capture_count(segment_wildcard_regexp(options), 0) == 0,
        is_piece(full_wildcard_regexp()),
        capture_count(full_wildcard_regexp(), 0) == 0,
{
    reveal_with_fuel(capture_count, 4);
    reveal_with_fuel(escapes_complete, 4);
    let open = seq!['[', '^'];
    let inner = escape_regexp(options.delimiter_code_point);
    let close = seq![']', '+', '?'];
    lemma_escaped_text(options.delimiter_code_point);
    lemma_append(open, inner);
    lemma_append(open + inner, close);
}

/// The source of an embedded regular expression as the tokenizer lets it
/// through: a piece without plain capturing groups.
pub open spec fn is_quiet(source: Seq<char>) -> bool {
    is_piece(source) && capture_count(source, 0) == 0
}

/// A part whose embedded regular expression, if it has one, is as the
/// tokenizer lets it through.
pub open spec fn part_is_sound(part: PartView) -> bool {
    part.kind == PartType::Regexp ==> is_quiet(part.value)
}

/// Whether every part is sound.
pub open spec fn parts_are_sound(parts: Seq<PartView>) -> bool {
    forall|i: int| 0 <= i < parts.len() ==> part_is_sound(#[trigger] parts[i])
}

proof fn lemma_modifier_text(m: PartModifier)
    ensures
        escapes_complete(modifier_text(m), 0),
        capture_count(modifier_text(m), 0) == 0,
{
    reveal_with_fuel(capture_count, 3);
    reveal_with_fuel(escapes_complete, 3);
}

/// The fixed pieces that the synthesis writes around a part: each is a
/// piece of its own, and only the opening parenthesis of a capture opens
/// a plain capturing group.
proof fn lemma_fixed_pieces()
    ensures
        is_piece(seq!['(', '?', ':']) && capture_count(seq!['(', '?', ':'], 0) == 0,
        is_piece(seq![')']) && capture_count(seq![')'], 0) == 0,
        is_piece(seq!['(']) && capture_count(seq!['('], 0) == 1,
        is_piece(seq!['(', '(', '?', ':']) && capture_count(seq!['(', '(', '?', ':'], 0) == 1,
        is_piece(seq![')', '(', '?', ':']) && capture_count(seq![')', '(', '?', ':'], 0) == 0,
        is_piece(seq![')', ')', '*', ')']) && capture_count(seq![')', ')', '*', ')'], 0) == 0,
        escapes_complete(seq!['?'], 0) && capture_count(seq!['?'], 0) == 0,
        escapes_complete(Seq::<char>::empty(), 0) && capture_count(Seq::<char>::empty(), 0) == 0,
{
    reveal_with_fuel(capture_count, 6);
    reveal_with_fuel(escapes_complete, 6);
}

/// What is known of a text that is put together from pieces.
pub open spec fn is_made(text: Seq<char>, groups: nat) -> bool {
    is_piece(text) && text.len() > 0 && capture_count(text, 0) == groups
}

/// A piece behind a text that is put together from pieces.
proof fn lemma_then(text: Seq<char>, groups: nat, piece: Seq<char>, more: nat)
    requires
        is_made(text, groups),
        escapes_complete(piece, 0),
        capture_count(piece, 0) == more,
        joinable(text, piece),
    ensures
        is_made(text + piece, groups + more),
        piece.len() > 0 ==> (text + piece).last() == piece.last(),
        piece.len() == 0 ==> text + piece == text,
{
    lemma_append(text, piece);
}

/// The piece of a literal text.
proof fn lemma_literal_regexp(part: PartView, options: OptionsView)
    requires
        part.kind == PartType::FixedText,
    ensures
        is_piece(part_regexp(part, options)),
        capture_count(part_regexp(part, options), 0) == 0,
{
    let m = modifier_text(part.modifier);
    lemma_modifier_text(part.modifier);
    lemma_fixed_pieces();
    let open = seq!['(', '?', ':'];
    let close = seq![')'];
    let text = escape_regexp(part.value);
    lemma_escaped_text(part.value);
    if part.modifier != PartModifier::NoModifier {
        lemma_then(open, 0, text, 0);
        lemma_then(open + text, 0, close, 0);
        lemma_then(open + text + close, 0, m, 0);
    }
}

/// The piece of a group without prefix and suffix.
#[verifier::rlimit(40)]
proof fn lemma_plain_group_regexp(part: PartView, options: OptionsView)
    requires
        part.kind != PartType::FixedText,
        part_is_sound(part),
        part.prefix.len() == 0 && part.suffix.len() == 0,
    ensures
        is_piece(part_regexp(part, options)),
        capture_count(part_regexp(part, options), 0) == 1,
{
    let m = modifier_text(part.modifier);
    lemma_modifier_text(part.modifier);
    lemma_fixed_pieces();
    lemma_wildcard_regexp(options);
    let close = seq![')'];
    let capture = seq!['('];
    let rv = capture_regexp(part, options);
    assert(is_quiet(rv));
    if at_most_once(part.modifier) {
        lemma_then(capture, 1, rv, 0);
        lemma_then(capture + rv, 1, close, 0);
        lemma_then(capture + rv + close, 1, m, 0);
    } else {
        let both = seq!['(', '(', '?', ':'];
        lemma_then(both, 1, rv, 0);
        lemma_then(both + rv, 1, close, 0);
        lemma_then(both + rv + close, 1, m, 0);
        lemma_then(both + rv + close + m, 1, close, 0);
    }
}

/// The piece of a group with a prefix or a suffix that stands at most
/// once.
#[verifier::rlimit(40)]
proof fn lemma_single_group_regexp(part: PartView, options: OptionsView)
    requires
        part.kind != PartType::FixedText,
        part_is_sound(part),
        !(part.prefix.len() == 0 && part.suffix.len() == 0),
        at_most_once(part.modifier),
    ensures
        is_piece(part_regexp(part, options)),
        capture_count(part_regexp(part, options), 0) == 1,
{
    let m = modifier_text(part.modifier);
    lemma_modifier_text(part.modifier);
    lemma_fixed_pieces();
    lemma_wildcard_regexp(options);
    let open = seq!['(', '?', ':'];
    let close = seq![')'];
    let capture = seq!['('];
    let rv = capture_regexp(part, options);
    assert(is_quiet(rv));
    let pre = escape_regexp(part.prefix);
    let suf = escape_regexp(part.suffix);
    lemma_escaped_text(part.prefix);
    lemma_escaped_text(part.suffix);
    lemma_then(open, 0, pre, 0);
    lemma_then(open + pre, 0, capture, 1);
    lemma_then(open + pre + capture, 1, rv, 0);
    lemma_then(open + pre + capture + rv, 1, close, 0);
    lemma_then(open + pre + capture + rv + close, 1, suf, 0);
    lemma_then(open + pre + capture + rv + close + suf, 1, close, 0);
    lemma_then(open + pre + capture + rv + close + suf + close, 1, m, 0);
}

/// The piece of a group with a prefix or a suffix that may stand more
/// than once.
#[verifier::rlimit(40)]
proof fn lemma_repeated_group_regexp(part: PartView, options: OptionsView)
    requires
        part.kind != PartType::FixedText,
        part_is_sound(part),
        !(part.prefix.len() == 0 && part.suffix.len() == 0),
        !at_most_once(part.modifier),
    ensures
        is_piece(part_regexp(part, options)),
        capture_count(part_regexp(part, options), 0) == 1,
{
    lemma_fixed_pieces();
    lemma_wildcard_regexp(options);
    let open = seq!['(', '?', ':'];
    let close = seq![')'];
    let rv = capture_regexp(part, options);
    assert(is_quiet(rv));
    let pre = escape_regexp(part.prefix);
    let suf = escape_regexp(part.suffix);
    lemma_escaped_text(part.prefix);
    lemma_escaped_text(part.suffix);
    let both = seq!['(', '(', '?', ':'];
    let again = seq![')', '(', '?', ':'];
    let end = seq![')', ')', '*', ')'];
    let tail = if part.modifier == PartModifier::ZeroOrMore {
        seq!['?']
    } else {
        Seq::<char>::empty()
    };
    let acc1 = open + pre;
    lemma_then(open, 0, pre, 0);
    let acc2 = acc1 + both;
    lemma_then(acc1, 0, both, 1);
    let acc3 = acc2 + rv;
    lemma_then(acc2, 1, rv, 0);
    let acc4 = acc3 + again;
    lemma_then(acc3, 1, again, 0);
    let acc5 = acc4 + suf;
    lemma_then(acc4, 1, suf, 0);
    let acc6 = acc5 + pre;
    lemma_then(acc5, 1, pre, 0);
    let acc7 = acc6 + open;
    lemma_then(acc6, 1, open, 0);
    let acc8 = acc7 + rv;
    lemma_then(acc7, 1, rv, 0);
    let acc9 = acc8 + end;
    lemma_then(acc8, 1, end, 0);
    let acc10 = acc9 + suf;
    lemma_then(acc9, 1, suf, 0);
    let acc11 = acc10 + close;
    lemma_then(acc10, 1, close, 0);
    lemma_then(acc11, 1, tail, 0);
    assert(part_regexp(part, options) == acc11 + tail);
}

/// The piece of one part opens one plain capturing group if the part is a
/// group, and none if it is literal text.
pub proof fn lemma_part_regexp(part: PartView, options: OptionsView)
    requires
        part_is_sound(part),
    ensures
        is_piece(part_regexp(part, options)),
        capture_count(part_regexp(part, options), 0) == (if part.kind == PartType::FixedText {
            0nat
        } else {
            1nat
        }),
{
    if part.kind == PartType::FixedText {
        lemma_literal_regexp(part, options);
    } else if part.prefix.len() == 0 && part.suffix.len() == 0 {
        lemma_plain_group_regexp(part, options);
    } else if at_most_once(part.modifier) {
        lemma_single_group_regexp(part, options);
    } else {
        lemma_repeated_group_regexp(part, options);
    }
}

/// The pieces of the first `n` parts open as many plain capturing groups
/// as there are groups among these parts.
pub proof fn lemma_regexp_body(parts: Seq<PartView>, n: nat, options: OptionsView)
    requires
        n <= parts.len(),
        parts_are_sound(parts),
    ensures
        is_piece(regexp_body(parts, n, options)),
        capture_count(regexp_body(parts, n, options), 0) == group_count(parts, n),
    decreases n,
{
    if n > 0 {
        lemma_regexp_body(parts, (n - 1) as nat, options);
        lemma_part_regexp(parts[n - 1], options);
        lemma_append(
            regexp_body(parts, (n - 1) as nat, options),
            part_regexp(parts[n - 1], options),
        );
    }
}

/// The source of the regular expression of a part list opens as many
/// plain capturing groups as the list has groups.
pub proof fn lemma_regexp_source(parts: Seq<PartView>, options: OptionsView)
    requires
        parts_are_sound(parts),
    ensures
        capture_count(regexp_source(parts, options), 0) == group_count(parts, parts.len()),
{
    reveal_with_fuel(capture_count, 3);
    reveal_with_fuel(escapes_complete, 3);
    let body = regexp_body(parts, parts.len(), options);
    lemma_regexp_body(parts, parts.len(), options);
    lemma_append(seq!['^'], body);
    lemma_append(seq!['^'] + body, seq!['$']);
}

/// The parts as the engine reads them have the groups and the names of the
/// parts as they are written.
pub proof fn lemma_engine_groups(parts: Seq<PartView>, options: OptionsView, n: nat)
    requires
        n <= parts.len(),
    ensures
        group_count(engine_parts(parts, options), n) == group_count(parts, n),
        group_names(engine_parts(parts, options), n) == group_names(parts, n),
    decreases n,
{
    if n > 0 {
        lemma_engine_groups(parts, options, (n - 1) as nat);
    }
}

/// What the engine is handed for a part list opens as many plain capturing
/// groups as the list has groups.
pub proof fn lemma_engine_source(parts: Seq<PartView>, options: OptionsView)
    requires
        parts_are_sound(parts),
    ensures
        capture_count(engine_source(parts, options), 0) == group_count(parts, parts.len()),
{
    reveal_with_fuel(capture_count, 9);
    reveal_with_fuel(escapes_complete, 9);
    let read = engine_parts(parts, options);
    assert(is_quiet(engine_wildcard()));
    assert forall|i: int| 0 <= i < read.len() implies part_is_sound(#[trigger] read[i]) by {
        assert(part_is_sound(parts[i]));
    }
    lemma_engine_groups(parts, options, parts.len());
    let body = regexp_body(read, read.len(), options);
    lemma_regexp_body(read, read.len(), options);
    lemma_append(seq!['^'], body);
    lemma_append(seq!['^'] + body, seq!['$']);
    if options.ignore_case {
        lemma_append(seq!['(', '?', 'i', ')'], regexp_source(read, options));
    }
}

/// What the tokenizer's scan passes over holds complete escapes and no
/// plain capturing group.
proof fn lemma_scanned_is_quiet(source: Seq<char>, i: int, depth: nat)
    requires
        0 <= i,
        scans(source, i, depth),
    ensures
        escapes_complete(source, i),
        capture_count(source, i) == 0,
    decreases source.len() - i,
{
    if i < source.len() {
        if source[i] == '\\' {
            lemma_scanned_is_quiet(source, i + 2, depth);
        } else if source[i] == ')' {
            lemma_scanned_is_quiet(source, i + 1, (depth - 1) as nat);
        } else if source[i] == '(' {
            lemma_scanned_is_quiet(source, i + 1, depth + 1);
        } else {
            lemma_scanned_is_quiet(source, i + 1, depth);
        }
    }
}

/// An embedded regular expression that the tokenizer lets through opens
/// no plain capturing group, starts with no question mark, and holds no
/// escape that is cut off.
pub proof fn lemma_embeddable_is_quiet(source: Seq<char>)
    requires
        is_embeddable(source),
    ensures
        is_quiet(source),
{
    lemma_scanned_is_quiet(source, 0, 1);
}

} // verus!
