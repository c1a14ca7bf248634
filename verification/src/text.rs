//! Pieces of text: white space, comma-separated lists, decimal numbers.
use vstd::prelude::*;

verus! {

/// The characters with the Unicode property White_Space.
pub open spec fn is_white_space(c: char) -> bool {
    ||| '\u{9}' <= c <= '\u{d}'
    ||| c == ' '
    ||| c == '\u{85}'
    ||| c == '\u{a0}'
    ||| c == '\u{1680}'
    ||| '\u{2000}' <= c <= '\u{200a}'
    ||| c == '\u{2028}'
    ||| c == '\u{2029}'
    ||| c == '\u{202f}'
    ||| c == '\u{205f}'
    ||| c == '\u{3000}'
}

/// `text` without the white space that it starts with.
pub open spec fn trimmed_start(text: Seq<char>) -> Seq<char>
    decreases text.len(),
{
    if text.len() > 0 && is_white_space(text.first()) {
        trimmed_start(text.drop_first())
    } else {
        text
    }
}

/// `text` without the white space that it ends with.
pub open spec fn trimmed_end(text: Seq<char>) -> Seq<char>
    decreases text.len(),
{
    if text.len() > 0 && is_white_space(text.last()) {
        trimmed_end(text.drop_last())
    } else {
        text
    }
}

/// `text` without the white space at its two ends.
pub open spec fn trimmed(text: Seq<char>) -> Seq<char> {
    trimmed_end(trimmed_start(text))
}

/// `str::trim` of std: removes the characters with the property White_Space from both ends.
pub assume_specification[ str::trim ](s: &str) -> (r: &str)
    ensures
        r@ == trimmed(s@),
;

/// The parts of `text` between its separators, in order. There is always one part more than there
/// are separators.
pub open spec fn split_at(text: Seq<char>, is_separator: spec_fn(char) -> bool) -> Seq<Seq<char>>
    decreases text.len(),
{
    if text.len() == 0 {
        seq![Seq::empty()]
    } else {
        let parts = split_at(text.drop_last(), is_separator);
        if is_separator(text.last()) {
            parts.push(Seq::empty())
        } else {
            parts.drop_last().push(parts.last().push(text.last()))
        }
    }
}

/// The separator that is a certain character.
pub open spec fn the_char(separator: char) -> spec_fn(char) -> bool {
    |c: char| c == separator
}

/// The parts of `text` between its characters `separator`.
pub open spec fn split_at_char(text: Seq<char>, separator: char) -> Seq<Seq<char>> {
    split_at(text, the_char(separator))
}

/// The parts of `text` between its commas.
pub open spec fn split_at_commas(text: Seq<char>) -> Seq<Seq<char>> {
    split_at_char(text, ',')
}

/// The separator that is any white space.
pub open spec fn any_white_space() -> spec_fn(char) -> bool {
    |c: char| is_white_space(c)
}

/// The parts of `text` between its white space characters.
pub open spec fn split_at_white_space(text: Seq<char>) -> Seq<Seq<char>> {
    split_at(text, any_white_space())
}

/// Whether `text` is made of decimal digits, at least `least` and at most `most` of them.
pub open spec fn is_number(text: Seq<char>, least: nat, most: nat) -> bool {
    &&& least <= text.len() <= most
    &&& forall|i: int| 0 <= i < text.len() ==> '0' <= #[trigger] text[i] <= '9'
}

/// Whether `text` is made of decimal digits, at least one of them.
pub open spec fn is_numeric(text: Seq<char>) -> bool {
    is_number(text, 1, text.len())
}

/// Whether `text` has no line feed in it.
pub open spec fn is_one_line(text: Seq<char>) -> bool {
    forall|i: int| 0 <= i < text.len() ==> #[trigger] text[i] != '\n'
}

/// Whether `piece` stands in `text` as it is.
pub open spec fn is_piece_of(piece: Seq<char>, text: Seq<char>) -> bool {
    exists|from: int, to: int|
        0 <= from <= to <= text.len() && piece == #[trigger] text.subrange(from, to)
}

/// Whether `piece` stands in `text`, at a certain place.
pub open spec fn stands_at(text: Seq<char>, piece: Seq<char>, place: int) -> bool {
    0 <= place <= text.len() - piece.len() && text.subrange(place, place + piece.len()) == piece
}

/// Whether `piece` stands in `text` at one place at most.
pub open spec fn stands_at_most_once(text: Seq<char>, piece: Seq<char>) -> bool {
    forall|i: int, j: int| #[trigger]
        stands_at(text, piece, i) && #[trigger] stands_at(text, piece, j) ==> i == j
}

/// `parts` in order, with `separator` between neighbours.
pub open spec fn joined(parts: Seq<Seq<char>>, separator: Seq<char>) -> Seq<char>
    decreases parts.len(),
{
    if parts.len() == 0 {
        Seq::empty()
    } else if parts.len() == 1 {
        parts[0]
    } else {
        joined(parts.drop_last(), separator) + separator + parts.last()
    }
}

/// There is always at least one part.
pub proof fn lemma_split_is_not_empty(text: Seq<char>, is_separator: spec_fn(char) -> bool)
    ensures
        split_at(text, is_separator).len() > 0,
    decreases text.len(),
{
    if text.len() > 0 {
        lemma_split_is_not_empty(text.drop_last(), is_separator);
    }
}

/// The first part starts like the text, and is the whole text where it is the only one.
pub proof fn lemma_first_part_starts(text: Seq<char>, is_separator: spec_fn(char) -> bool)
    ensures
        split_at(text, is_separator)[0].len() > 0 ==> text.len() > 0 && split_at(
            text,
            is_separator,
        )[0].first() == text.first(),
        split_at(text, is_separator).len() == 1 ==> split_at(text, is_separator)[0] == text,
    decreases text.len(),
{
    if text.len() > 0 {
        lemma_first_part_starts(text.drop_last(), is_separator);
        lemma_split_is_not_empty(text.drop_last(), is_separator);
    }
}

/// A text without a separator is its only part.
pub proof fn lemma_split_without_separator(text: Seq<char>, is_separator: spec_fn(char) -> bool)
    requires
        forall|i: int| 0 <= i < text.len() ==> !is_separator(#[trigger] text[i]),
    ensures
        split_at(text, is_separator) == seq![text],
    decreases text.len(),
{
    if text.len() > 0 {
        let rest = text.drop_last();
        assert forall|i: int| 0 <= i < rest.len() implies !is_separator(#[trigger] rest[i]) by {
            assert(rest[i] == text[i]);
        }
        lemma_split_without_separator(rest, is_separator);
        assert(!is_separator(text[text.len() - 1]));
        assert(rest.push(text.last()) =~= text);
    } else {
        assert(text =~= Seq::empty());
    }
    assert(split_at(text, is_separator) =~= seq![text]);
}

/// Behind the first part comes a separator, and then a text that has the other parts.
pub proof fn lemma_first_part_and_the_others(
    text: Seq<char>,
    is_separator: spec_fn(char) -> bool,
) -> (r: (char, Seq<char>))
    requires
        split_at(text, is_separator).len() > 1,
    ensures
        is_separator(r.0),
        text == split_at(text, is_separator)[0] + seq![r.0] + r.1,
        split_at(r.1, is_separator) == split_at(text, is_separator).skip(1),
    decreases text.len(),
{
    let rest = text.drop_last();
    let last = text.last();
    let parts = split_at(text, is_separator);
    let before = split_at(rest, is_separator);
    lemma_split_is_not_empty(rest, is_separator);
    lemma_first_part_starts(rest, is_separator);
    assert(text =~= rest.push(last));
    if before.len() == 1 {
        assert(is_separator(last));
        assert(text =~= parts[0] + seq![last] + Seq::empty());
        assert(parts.skip(1) =~= seq![Seq::empty()]);
        (last, Seq::empty())
    } else {
        let (c, others) = lemma_first_part_and_the_others(rest, is_separator);
        let more = others.push(last);
        assert(more.drop_last() =~= others);
        assert(text =~= parts[0] + seq![c] + more);
        assert(split_at(more, is_separator) =~= parts.skip(1));
        (c, more)
    }
}

/// Splitting loses nothing: the parts, with the separator between neighbours, are the text again.
pub proof fn law_split_parts_join_to_the_text(text: Seq<char>, separator: char)
    ensures
        joined(split_at_char(text, separator), seq![separator]) == text,
    decreases text.len(),
{
    let is_separator = the_char(separator);
    let between = seq![separator];
    if text.len() == 0 {
        assert(joined(split_at(text, is_separator), between) =~= text);
    } else {
        let rest = text.drop_last();
        let parts = split_at(rest, is_separator);
        law_split_parts_join_to_the_text(rest, separator);
        lemma_split_is_not_empty(rest, is_separator);
        assert(joined(parts, between) == rest);
        let all = split_at(text, is_separator);
        if text.last() == separator {
            assert(all.drop_last() =~= parts);
            assert(joined(all, between) =~= text);
        } else {
            assert(all.drop_last() =~= parts.drop_last());
            assert(joined(all, between) =~= joined(parts, between).push(text.last()));
            assert(joined(all, between) =~= text);
        }
    }
}

/// No part has a separator in it.
pub proof fn law_split_parts_have_no_separator(text: Seq<char>, separator: char)
    ensures
        forall|i: int|
            0 <= i < split_at_char(text, separator).len() ==> !(
            #[trigger] split_at_char(text, separator)[i]).contains(separator),
    decreases text.len(),
{
    let is_separator = the_char(separator);
    let all = split_at(text, is_separator);
    if text.len() > 0 {
        let parts = split_at(text.drop_last(), is_separator);
        law_split_parts_have_no_separator(text.drop_last(), separator);
        lemma_split_is_not_empty(text.drop_last(), is_separator);
        assert(parts == split_at_char(text.drop_last(), separator));
        assert forall|i: int| 0 <= i < all.len() implies !(#[trigger] all[i]).contains(
            separator,
        ) by {
            if i < parts.len() {
                let part = split_at_char(text.drop_last(), separator)[i];
                assert(!part.contains(separator));
                if all[i].contains(separator) {
                    let k = all[i].index_of(separator);
                    assert(all[i][k] == separator);
                    if all[i] != part {
                        assert(all[i] == part.push(text.last()));
                        assert(part[k] == separator);
                    }
                }
            }
        }
    }
}

/// Joining two lists is joining each, with the separator between.
pub proof fn law_lists_are_joined_one_by_one(
    first: Seq<Seq<char>>,
    second: Seq<Seq<char>>,
    separator: Seq<char>,
)
    requires
        first.len() > 0,
        second.len() > 0,
    ensures
        joined(first + second, separator) == joined(first, separator) + separator + joined(
            second,
            separator,
        ),
    decreases second.len(),
{
    let both = first + second;
    assert(both.drop_last() =~= first + second.drop_last());
    if second.len() == 1 {
        assert(both.drop_last() =~= first);
    } else {
        law_lists_are_joined_one_by_one(first, second.drop_last(), separator);
    }
    assert(joined(both, separator) =~= joined(first, separator) + separator + joined(
        second,
        separator,
    ));
}

/// A list of one part is joined to this part, and a list of none to the empty text.
pub proof fn law_a_single_part_is_the_joined_text(part: Seq<char>, separator: Seq<char>)
    ensures
        joined(seq![part], separator) == part,
        joined(Seq::empty(), separator) == Seq::<char>::empty(),
{
}

/// Every part stands as a whole in the text that the parts are joined to.
pub proof fn law_every_part_is_in_the_joined_text(
    parts: Seq<Seq<char>>,
    separator: Seq<char>,
    i: int,
)
    requires
        0 <= i < parts.len(),
    ensures
        is_piece_of(parts[i], joined(parts, separator)),
    decreases parts.len(),
{
    let text = joined(parts, separator);
    if parts.len() == 1 {
        assert(parts[i] =~= text.subrange(0, text.len() as int));
    } else {
        let rest = joined(parts.drop_last(), separator);
        if i == parts.len() - 1 {
            let start = (rest + separator).len() as int;
            assert(parts[i] =~= text.subrange(start, text.len() as int));
        } else {
            law_every_part_is_in_the_joined_text(parts.drop_last(), separator, i);
            let (from, to) = choose|from: int, to: int|
                0 <= from <= to <= rest.len() && parts.drop_last()[i]
                    == #[trigger] rest.subrange(from, to);
            assert(parts[i] =~= text.subrange(from, to));
        }
    }
}

/// Whether `text` is nothing but white space.
pub open spec fn is_space(text: Seq<char>) -> bool {
    forall|i: int| 0 <= i < text.len() ==> is_white_space(#[trigger] text[i])
}

/// White space around a text is trimmed away, however much of it there is.
pub proof fn law_space_around_is_trimmed(before: Seq<char>, text: Seq<char>, after: Seq<char>)
    requires
        is_space(before),
        is_space(after),
    ensures
        trimmed(before + text + after) == trimmed(text),
{
    assert(before + text + after =~= before + (text + after));
    lemma_space_before_is_trimmed(before, text + after);
    lemma_trimmed_start_of_concatenation(text, after);
    if trimmed_start(text).len() > 0 {
        lemma_space_behind_is_trimmed(trimmed_start(text), after);
    } else {
        lemma_space_before_is_trimmed(after, Seq::empty());
        assert(after + Seq::<char>::empty() =~= after);
        assert(trimmed_start(text) =~= Seq::empty());
    }
}

/// White space before a text is trimmed away.
pub proof fn lemma_space_before_is_trimmed(before: Seq<char>, text: Seq<char>)
    requires
        is_space(before),
    ensures
        trimmed_start(before + text) == trimmed_start(text),
    decreases before.len(),
{
    if before.len() == 0 {
        assert(before + text =~= text);
    } else {
        assert((before + text).drop_first() =~= before.drop_first() + text);
        lemma_space_before_is_trimmed(before.drop_first(), text);
    }
}

proof fn lemma_space_behind_is_trimmed(text: Seq<char>, after: Seq<char>)
    requires
        is_space(after),
    ensures
        trimmed_end(text + after) == trimmed_end(text),
    decreases after.len(),
{
    if after.len() == 0 {
        assert(text + after =~= text);
    } else {
        assert((text + after).drop_last() =~= text + after.drop_last());
        lemma_space_behind_is_trimmed(text, after.drop_last());
    }
}

proof fn lemma_trimmed_start_of_concatenation(text: Seq<char>, after: Seq<char>)
    ensures
        trimmed_start(text + after) == if trimmed_start(text).len() > 0 {
            trimmed_start(text) + after
        } else {
            trimmed_start(after)
        },
    decreases text.len(),
{
    if text.len() == 0 {
        assert(text + after =~= after);
    } else if is_white_space(text.first()) {
        assert((text + after).drop_first() =~= text.drop_first() + after);
        lemma_trimmed_start_of_concatenation(text.drop_first(), after);
    }
}

/// Trimming a second time changes nothing.
pub proof fn law_trimming_is_idempotent(text: Seq<char>)
    ensures
        trimmed(trimmed(text)) == trimmed(text),
{
    lemma_trimmed_start_starts(text);
    lemma_trimmed_end_ends(trimmed_start(text));
    lemma_trimmed_end_keeps_start(trimmed_start(text));
}

/// What is left at the start is no white space.
pub proof fn lemma_trimmed_start_starts(text: Seq<char>)
    ensures
        trimmed_start(text).len() > 0 ==> !is_white_space(trimmed_start(text).first()),
    decreases text.len(),
{
    if text.len() > 0 && is_white_space(text.first()) {
        lemma_trimmed_start_starts(text.drop_first());
    }
}

proof fn lemma_trimmed_end_ends(text: Seq<char>)
    ensures
        trimmed_end(text).len() > 0 ==> !is_white_space(trimmed_end(text).last()),
    decreases text.len(),
{
    if text.len() > 0 && is_white_space(text.last()) {
        lemma_trimmed_end_ends(text.drop_last());
    }
}

proof fn lemma_trimmed_end_keeps_start(text: Seq<char>)
    ensures
        trimmed_end(text).len() > 0 ==> trimmed_end(text).first() == text.first(),
    decreases text.len(),
{
    if text.len() > 0 && is_white_space(text.last()) {
        lemma_trimmed_end_keeps_start(text.drop_last());
    }
}

/// What is trimmed away at the start is white space.
pub proof fn lemma_trimmed_start_leaves(text: Seq<char>) -> (left: Seq<char>)
    ensures
        is_space(left),
        text == left + trimmed_start(text),
    decreases text.len(),
{
    if text.len() > 0 && is_white_space(text.first()) {
        let left = lemma_trimmed_start_leaves(text.drop_first());
        let more = seq![text.first()] + left;
        assert(text =~= seq![text.first()] + text.drop_first());
        assert(seq![text.first()] + (left + trimmed_start(text)) =~= more + trimmed_start(text));
        more
    } else {
        assert(text =~= Seq::empty() + text);
        Seq::empty()
    }
}

proof fn lemma_trimmed_end_leaves(text: Seq<char>) -> (right: Seq<char>)
    ensures
        is_space(right),
        text == trimmed_end(text) + right,
    decreases text.len(),
{
    if text.len() > 0 && is_white_space(text.last()) {
        let right = lemma_trimmed_end_leaves(text.drop_last());
        let more = right.push(text.last());
        assert(text =~= text.drop_last().push(text.last()));
        assert((trimmed_end(text) + right).push(text.last()) =~= trimmed_end(text) + more);
        more
    } else {
        assert(text =~= text + Seq::empty());
        Seq::empty()
    }
}

/// Trimming takes away white space alone, at the two ends alone, and all that is there.
pub proof fn law_trimming_takes_away_the_space_around(text: Seq<char>)
    ensures
        exists|left: Seq<char>, right: Seq<char>|
            is_space(left) && is_space(right) && text == #[trigger] (left + trimmed(text) + right),
        trimmed(text).len() > 0 ==> !is_white_space(trimmed(text).first()) && !is_white_space(
            trimmed(text).last(),
        ),
{
    let start = trimmed_start(text);
    let left = lemma_trimmed_start_leaves(text);
    let right = lemma_trimmed_end_leaves(start);
    assert(text =~= left + trimmed(text) + right);
    lemma_trimmed_start_starts(text);
    lemma_trimmed_end_ends(start);
    lemma_trimmed_end_keeps_start(start);
}

/// A text that neither starts nor ends with white space is not changed by trimming.
pub proof fn law_what_has_no_space_around_is_not_trimmed(text: Seq<char>)
    requires
        text.len() > 0 ==> !is_white_space(text.first()) && !is_white_space(text.last()),
    ensures
        trimmed(text) == text,
{
}

/// Two texts with a separator between them have the parts of the one and the parts of the other.
pub proof fn law_split_of_two_texts(
    first: Seq<char>,
    separator: char,
    second: Seq<char>,
    is_separator: spec_fn(char) -> bool,
)
    requires
        is_separator(separator),
    ensures
        split_at(first + seq![separator] + second, is_separator) == split_at(first, is_separator)
            + split_at(second, is_separator),
    decreases second.len(),
{
    let whole = first + seq![separator] + second;
    lemma_split_is_not_empty(second, is_separator);
    if second.len() == 0 {
        assert(whole.drop_last() =~= first);
    } else {
        let rest = second.drop_last();
        law_split_of_two_texts(first, separator, rest, is_separator);
        lemma_split_is_not_empty(rest, is_separator);
        assert(whole.drop_last() =~= first + seq![separator] + rest);
    }
    assert(split_at(whole, is_separator) =~= split_at(first, is_separator) + split_at(
        second,
        is_separator,
    ));
}

/// A piece of a single line is a single line.
pub proof fn lemma_piece_is_one_line(piece: Seq<char>, text: Seq<char>)
    requires
        is_one_line(text),
        is_piece_of(piece, text),
    ensures
        is_one_line(piece),
{
    let (from, to) = choose|from: int, to: int|
        0 <= from <= to <= text.len() && piece == #[trigger] text.subrange(from, to);
    assert forall|i: int| 0 <= i < piece.len() implies #[trigger] piece[i] != '\n' by {
        assert(piece[i] == text[from + i]);
    }
}

proof fn lemma_trimmed_start_is_one_line(text: Seq<char>)
    requires
        is_one_line(text),
    ensures
        is_one_line(trimmed_start(text)),
    decreases text.len(),
{
    if text.len() > 0 && is_white_space(text.first()) {
        lemma_trimmed_start_is_one_line(text.drop_first());
    }
}

proof fn lemma_trimmed_end_is_one_line(text: Seq<char>)
    requires
        is_one_line(text),
    ensures
        is_one_line(trimmed_end(text)),
    decreases text.len(),
{
    if text.len() > 0 && is_white_space(text.last()) {
        lemma_trimmed_end_is_one_line(text.drop_last());
    }
}

/// A single line is still one when it is trimmed.
pub proof fn lemma_trimmed_is_one_line(text: Seq<char>)
    requires
        is_one_line(text),
    ensures
        is_one_line(trimmed(text)),
{
    lemma_trimmed_start_is_one_line(text);
    lemma_trimmed_end_is_one_line(trimmed_start(text));
}

/// Single lines are a single line when they are joined by one.
pub proof fn lemma_joined_is_one_line(parts: Seq<Seq<char>>, separator: Seq<char>)
    requires
        is_one_line(separator),
        forall|i: int| 0 <= i < parts.len() ==> is_one_line(#[trigger] parts[i]),
    ensures
        is_one_line(joined(parts, separator)),
    decreases parts.len(),
{
    if parts.len() > 1 {
        assert forall|i: int| 0 <= i < parts.drop_last().len() implies is_one_line(
            #[trigger] parts.drop_last()[i],
        ) by {
            assert(parts.drop_last()[i] == parts[i]);
        }
        lemma_joined_is_one_line(parts.drop_last(), separator);
        assert(is_one_line(parts[parts.len() - 1]));
    }
}

/// Splits `text` at its commas.
pub fn split_commas(text: &str) -> (parts: Vec<String>)
    ensures
        parts.deep_view() == split_at_commas(text@),
{
    let mut parts: Vec<String> = Vec::new();
    let mut start: usize = 0;
    let mut i: usize = 0;
    let length: usize = text.unicode_len();
    assert(text@.take(0) =~= Seq::empty());
    assert(parts.deep_view().push(text@.subrange(0, 0)) =~= split_at_commas(text@.take(0)));
    for c in chars: text.chars()
        invariant
            chars.seq() == text@,
            length == text@.len(),
            i == chars.index(),
            start <= i <= text@.len(),
            parts.deep_view().push(text@.subrange(start as int, i as int)) == split_at_commas(
                text@.take(i as int),
            ),
    {
        let ghost before = text@.take(i as int);
        let ghost done = parts.deep_view();
        assert(text@.take(i + 1).drop_last() =~= before);
        assert(text@.take(i + 1).last() == c);
        if c == ',' {
            parts.push(text.substring_char(start, i).to_string());
            assert(parts.deep_view() =~= done.push(text@.subrange(start as int, i as int)));
            start = i + 1;
            assert(text@.subrange(i + 1, i + 1) =~= Seq::empty());
        } else {
            assert(done.push(text@.subrange(start as int, i as int)).drop_last() =~= done);
            assert(text@.subrange(start as int, i + 1) =~= text@.subrange(
                start as int,
                i as int,
            ).push(c));
        }
        i = i + 1;
    }
    let ghost done = parts.deep_view();
    assert(text@.take(i as int) =~= text@);
    parts.push(text.substring_char(start, length).to_string());
    assert(parts.deep_view() =~= done.push(text@.subrange(start as int, length as int)));
    parts
}

/// Joins `parts` with `separator` between neighbours.
pub fn join(parts: &Vec<String>, separator: &str) -> (text: String)
    ensures
        text@ == joined(parts.deep_view(), separator@),
{
    let mut text = String::new();
    for i in 0..parts.len()
        invariant
            text@ == joined(parts.deep_view().take(i as int), separator@),
    {
        let ghost all = parts.deep_view();
        assert(all.take(i + 1).drop_last() =~= all.take(i as int));
        if i > 0 {
            text.append(separator);
        }
        text.append(parts[i].as_str());
        assert(text@ =~= joined(all.take(i + 1), separator@));
    }
    assert(parts.deep_view().take(parts.len() as int) =~= parts.deep_view());
    text
}

} // verus!
