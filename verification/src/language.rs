//! The texts that a part list stands for, where its parts are literal
//! text and wildcards that stand exactly once: the language of the regular
//! expression that is made from the list.

use crate::parser::OptionsView;
use crate::parser::PartType;
use crate::parser::PartView;
use crate::text::contains_text;
use crate::text::ends_with;
use crate::text::starts_with;
use vstd::prelude::*;

verus! {

/// Whether `text` has no line feed, the one code point that the dot of a
/// regular expression does not stand for.
pub open spec fn is_one_line(text: Seq<char>) -> bool {
    forall|i: int| 0 <= i < text.len() ==> #[trigger] text[i] != '\n'
}

/// Whether the wildcard `part` can capture `text`. A full wildcard captures
/// any text of one line; a segment wildcard captures any text that is not
/// empty and holds no delimiter.
pub open spec fn capture_accepts(part: PartView, options: OptionsView, text: Seq<char>) -> bool {
    match part.kind {
        PartType::FullWildcard => is_one_line(text),
        PartType::SegmentWildcard => text.len() > 0 && (options.delimiter_code_point.len() == 0
            || !contains_text(text, options.delimiter_code_point)),
        _ => false,
    }
}

/// Whether `text` starts with `prefix` and ends, behind it, with `suffix`.
pub open spec fn fits_around(text: Seq<char>, prefix: Seq<char>, suffix: Seq<char>) -> bool {
    prefix.len() + suffix.len() <= text.len() && starts_with(text, prefix) && ends_with(
        text,
        suffix,
    )
}

/// What stands in `text` between a prefix and a suffix of these lengths.
pub open spec fn between(text: Seq<char>, prefix: Seq<char>, suffix: Seq<char>) -> Seq<char> {
    text.subrange(prefix.len() as int, text.len() - suffix.len())
}

/// Whether `part` stands for `text`: a literal for its own text, a
/// wildcard for its prefix, a text that it can capture, and its suffix.
pub open spec fn part_language(part: PartView, options: OptionsView, text: Seq<char>) -> bool {
    if part.kind == PartType::FixedText {
        text == part.value
    } else {
        fits_around(text, part.prefix, part.suffix) && capture_accepts(
            part,
            options,
            between(text, part.prefix, part.suffix),
        )
    }
}

/// Whether `parts` stands for `text`: whether `text` can be cut into one
/// piece for each part, in order, such that each part stands for its
/// piece.
pub open spec fn parts_language(parts: Seq<PartView>, options: OptionsView, text: Seq<char>) -> bool
    decreases parts.len(),
{
    if parts.len() == 0 {
        text.len() == 0
    } else {
        exists|k: int|
            0 <= k <= text.len() && part_language(parts[0], options, #[trigger] text.take(k))
                && parts_language(parts.drop_first(), options, text.skip(k))
    }
}

/// A list of one part stands for what the part stands for.
pub proof fn lemma_language_of_one(part: PartView, options: OptionsView, text: Seq<char>)
    ensures
        parts_language(seq![part], options, text) <==> part_language(part, options, text),
{
    reveal_with_fuel(parts_language, 2);
    let parts = seq![part];
    assert(parts.drop_first() =~= Seq::<PartView>::empty());
    if parts_language(parts, options, text) {
        let k = choose|k: int|
            0 <= k <= text.len() && part_language(parts[0], options, #[trigger] text.take(k))
                && parts_language(parts.drop_first(), options, text.skip(k));
        assert(text.skip(k).len() == 0);
        assert(text.take(k) =~= text);
    }
    if part_language(part, options, text) {
        let k = text.len() as int;
        assert(text.take(k) =~= text);
        assert(text.skip(k).len() == 0);
        assert(part_language(parts[0], options, text.take(k)));
    }
}

/// A list that starts with a literal stands for the texts that start with
/// the literal and go on with what the rest of the list stands for.
pub proof fn lemma_language_behind_literal(
    parts: Seq<PartView>,
    options: OptionsView,
    text: Seq<char>,
)
    requires
        parts.len() > 0,
        parts[0].kind == PartType::FixedText,
    ensures
        parts_language(parts, options, text) <==> starts_with(text, parts[0].value)
            && parts_language(parts.drop_first(), options, text.skip(parts[0].value.len() as int)),
{
    let value = parts[0].value;
    if parts_language(parts, options, text) {
        let k = choose|k: int|
            0 <= k <= text.len() && part_language(parts[0], options, #[trigger] text.take(k))
                && parts_language(parts.drop_first(), options, text.skip(k));
        assert(text.take(k) == value);
        assert(k == value.len());
        assert(text.subrange(0, k) =~= text.take(k));
    }
    if starts_with(text, value) && parts_language(
        parts.drop_first(),
        options,
        text.skip(value.len() as int),
    ) {
        let k = value.len() as int;
        assert(text.take(k) =~= text.subrange(0, k));
        assert(part_language(parts[0], options, text.take(k)));
    }
}

/// A part followed by a literal stands for the texts that end with the
/// literal and start with what the part stands for.
#[verifier::rlimit(40)]
pub proof fn lemma_language_before_literal(
    part: PartView,
    literal: PartView,
    options: OptionsView,
    text: Seq<char>,
)
    requires
        literal.kind == PartType::FixedText,
    ensures
        parts_language(seq![part, literal], options, text) <==> ends_with(text, literal.value)
            && part_language(part, options, text.take(text.len() - literal.value.len())),
{
    let parts = seq![part, literal];
    let rest = parts.drop_first();
    assert(rest =~= seq![literal]);
    let n = text.len() as int;
    let m = literal.value.len() as int;
    if parts_language(parts, options, text) {
        let k = choose|k: int|
            0 <= k <= text.len() && part_language(parts[0], options, #[trigger] text.take(k))
                && parts_language(parts.drop_first(), options, text.skip(k));
        lemma_language_of_one(literal, options, text.skip(k));
        assert(text.skip(k) == literal.value);
        assert(k == n - m);
        assert(text.subrange(n - m, n) =~= text.skip(k));
    }
    if ends_with(text, literal.value) && part_language(part, options, text.take(n - m)) {
        let k = n - m;
        assert(text.skip(k) =~= text.subrange(n - m, n));
        lemma_language_of_one(literal, options, text.skip(k));
        assert(part_language(parts[0], options, text.take(k)));
    }
}

/// A text starts with two texts in a row where it starts with the first
/// and goes on with the second.
#[verifier::rlimit(40)]
pub proof fn lemma_fits_behind_prefix(
    text: Seq<char>,
    first: Seq<char>,
    prefix: Seq<char>,
    suffix: Seq<char>,
)
    ensures
        fits_around(text, first + prefix, suffix) <==> starts_with(text, first) && fits_around(
            text.skip(first.len() as int),
            prefix,
            suffix,
        ),
        fits_around(text, first + prefix, suffix) ==> between(text, first + prefix, suffix)
            == between(text.skip(first.len() as int), prefix, suffix),
{
    let a = first.len() as int;
    let b = prefix.len() as int;
    let c = suffix.len() as int;
    let n = text.len() as int;
    let whole = first + prefix;
    if fits_around(text, whole, suffix) {
        let rest = text.skip(a);
        assert(text.subrange(0, a) =~= whole.subrange(0, a));
        assert(whole.subrange(0, a) =~= first);
        assert(rest.subrange(0, b) =~= text.subrange(0, a + b).subrange(a, a + b));
        assert(whole.subrange(a, a + b) =~= prefix);
        assert(rest.subrange(rest.len() - c, rest.len() as int) =~= text.subrange(n - c, n));
        assert(between(text, whole, suffix) =~= between(rest, prefix, suffix));
    }
    if starts_with(text, first) && fits_around(text.skip(a), prefix, suffix) {
        let rest = text.skip(a);
        assert(text.subrange(0, a + b) =~= text.subrange(0, a) + rest.subrange(0, b));
        assert(text.subrange(n - c, n) =~= rest.subrange(rest.len() - c, rest.len() as int));
    }
}

/// A text ends with two texts in a row where it ends with the second and
/// has the first before it.
#[verifier::rlimit(40)]
pub proof fn lemma_fits_before_suffix(
    text: Seq<char>,
    prefix: Seq<char>,
    suffix: Seq<char>,
    last: Seq<char>,
)
    ensures
        fits_around(text, prefix, suffix + last) <==> ends_with(text, last) && fits_around(
            text.take(text.len() - last.len()),
            prefix,
            suffix,
        ),
        fits_around(text, prefix, suffix + last) ==> between(text, prefix, suffix + last)
            == between(text.take(text.len() - last.len()), prefix, suffix),
{
    let b = prefix.len() as int;
    let c = suffix.len() as int;
    let d = last.len() as int;
    let n = text.len() as int;
    let whole = suffix + last;
    if fits_around(text, prefix, whole) {
        let rest = text.take(n - d);
        assert(text.subrange(n - d, n) =~= text.subrange(n - c - d, n).subrange(c, c + d));
        assert(whole.subrange(c, c + d) =~= last);
        assert(rest.subrange(rest.len() - c, rest.len() as int) =~= text.subrange(
            n - c - d,
            n,
        ).subrange(0, c));
        assert(whole.subrange(0, c) =~= suffix);
        assert(rest.subrange(0, b) =~= text.subrange(0, b));
        assert(between(text, prefix, whole) =~= between(rest, prefix, suffix));
    }
    if ends_with(text, last) && fits_around(text.take(n - d), prefix, suffix) {
        let rest = text.take(n - d);
        assert(text.subrange(n - c - d, n) =~= rest.subrange(rest.len() - c, rest.len() as int)
            + text.subrange(n - d, n));
        assert(text.subrange(0, b) =~= rest.subrange(0, b));
    }
}

} // verus!
