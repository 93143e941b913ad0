//! Texts and lists, in terms of their characters and items.

use vstd::prelude::*;

use crate::lists;
use crate::text::{self, Rank};

verus! {

/// Filtering is what the sequences of the mathematical library call filtering.
pub proof fn picking_is_filtering<T>(list: Seq<T>, passes: spec_fn(T) -> bool)
    ensures
        lists::picked(list, passes) == list.filter(passes),
    decreases list.len(),
{
    reveal(Seq::filter);
    if list.len() > 0 {
        picking_is_filtering(list.drop_last(), passes);
    }
}

/// What stands between two texts occurs in the whole.
pub proof fn what_stands_inside_occurs(before: Seq<char>, needle: Seq<char>, after: Seq<char>)
    ensures
        text::occurs_in(needle, before + needle + after),
{
    let all = before + needle + after;
    let at = before.len() as int;
    assert(all.subrange(at, at + needle.len()) =~= needle);
}

/// What occurs in a text stands between what comes before it and what comes
/// after.
pub proof fn what_occurs_stands_inside(needle: Seq<char>, text: Seq<char>) -> (around: (
    Seq<char>,
    Seq<char>,
))
    requires
        text::occurs_in(needle, text),
    ensures
        text == around.0 + needle + around.1,
{
    let at = choose|at: int|
        0 <= at && at + needle.len() <= text.len() && #[trigger] text.subrange(
            at,
            at + needle.len(),
        ) == needle;
    let around = (text.take(at), text.skip(at + needle.len()));
    assert(text =~= around.0 + needle + around.1);
    around
}

/// A path with one more segment is the path, a dot and the segment.
pub proof fn segments_are_joined_by_a_dot(path: Seq<char>, key: Seq<char>)
    ensures
        text::dotted(path, key) == path + seq!['.'] + key,
{
    assert(text::dotted(path, key) =~= path + seq!['.'] + key);
}

/// The number that decimal digits are worth.
pub open spec fn worth(digits: Seq<char>) -> int
    decreases digits.len(),
{
    if digits.len() == 0 {
        0
    } else {
        10 * worth(digits.drop_last()) + (digits.last() as int - '0' as int)
    }
}

/// A number in decimal notation is made of digits, is worth the number, and
/// starts with no needless zero.
pub proof fn decimals_are_worth_their_number(n: nat)
    ensures
        worth(text::decimal(n)) == n,
        text::decimal(n).len() > 0,
        forall|i: int|
            0 <= i < text::decimal(n).len() ==> '0' as int <= (#[trigger] text::decimal(n)[i]) as int
                <= '9' as int,
        text::decimal(n)[0] == '0' ==> text::decimal(n).len() == 1,
    decreases n,
{
    let shown = text::decimal(n);
    if n < 10 {
        assert(shown.drop_last() =~= Seq::empty());
        assert(worth(shown.drop_last()) == 0);
        assert(shown.last() as int == 48 + n);
    } else {
        assert(shown.last() as int == 48 + n % 10);
        decimals_are_worth_their_number(n / 10);
        assert(shown.drop_last() =~= text::decimal(n / 10));
        assert(shown[0] == text::decimal(n / 10)[0]);
        if shown[0] == '0' {
            let one = text::decimal(n / 10);
            assert(one.drop_last() =~= Seq::empty());
            assert(worth(one) == 10 * worth(one.drop_last()) + 0);
        }
    }
}

/// The code points of white space, as Unicode lists them.
pub open spec fn white_points() -> Seq<int> {
    seq![
        0x9, 0xa, 0xb, 0xc, 0xd, 0x20, 0x85, 0xa0, 0x1680, 0x2000, 0x2001, 0x2002, 0x2003, 0x2004,
        0x2005, 0x2006, 0x2007, 0x2008, 0x2009, 0x200a, 0x2028, 0x2029, 0x202f, 0x205f, 0x3000,
    ]
}

/// White space is what Unicode lists as such, and nothing else.
pub proof fn white_space_is_what_unicode_lists(c: char)
    ensures
        text::is_white(c) <==> white_points().contains(c as int),
{
    let list = white_points();
    let n = c as int;
    assert(list.len() == 25);
    assert(list[0] == 0x9 && list[1] == 0xa && list[2] == 0xb && list[3] == 0xc && list[4] == 0xd
        && list[5] == 0x20 && list[6] == 0x85 && list[7] == 0xa0 && list[8] == 0x1680);
    assert(list[9] == 0x2000 && list[10] == 0x2001 && list[11] == 0x2002 && list[12] == 0x2003
        && list[13] == 0x2004 && list[14] == 0x2005 && list[15] == 0x2006 && list[16] == 0x2007);
    assert(list[17] == 0x2008 && list[18] == 0x2009 && list[19] == 0x200a && list[20] == 0x2028
        && list[21] == 0x2029 && list[22] == 0x202f && list[23] == 0x205f && list[24] == 0x3000);
    if list.contains(n) {
        let i = choose|i: int| 0 <= i < list.len() && list[i] == n;
        assert(text::is_white(c));
    }
}

/// Whether a text is white space throughout.
pub open spec fn blank(text: Seq<char>) -> bool {
    forall|i: int| 0 <= i < text.len() ==> text::is_white(#[trigger] text[i])
}

/// Whether a text holds no white space.
pub open spec fn solid(text: Seq<char>) -> bool {
    forall|i: int| 0 <= i < text.len() ==> !text::is_white(#[trigger] text[i])
}

/// Trimming cuts white space at both ends and nothing else, and leaves none
/// there.
pub proof fn trimming_cuts_white_space(text: Seq<char>) -> (cut: (Seq<char>, Seq<char>))
    ensures
        text == cut.0 + text::trimmed(text) + cut.1,
        blank(cut.0),
        blank(cut.1),
        text::trimmed(text).len() > 0 ==> !text::is_white(text::trimmed(text)[0])
            && !text::is_white(text::trimmed(text).last()),
    decreases text.len(),
{
    if text.len() == 0 {
        assert(text =~= Seq::empty() + text + Seq::empty());
        (Seq::empty(), Seq::empty())
    } else if text::is_white(text[0]) {
        let inner = text.drop_first();
        let cut = trimming_cuts_white_space(inner);
        let head = seq![text[0]] + cut.0;
        assert(text =~= seq![text[0]] + inner);
        assert(seq![text[0]] + (cut.0 + text::trimmed(inner) + cut.1) =~= head + text::trimmed(
            inner,
        ) + cut.1);
        (head, cut.1)
    } else if text::is_white(text.last()) {
        let inner = text.drop_last();
        let cut = trimming_cuts_white_space(inner);
        let tail = cut.1.push(text.last());
        assert(text =~= inner.push(text.last()));
        assert((cut.0 + text::trimmed(inner) + cut.1).push(text.last()) =~= cut.0 + text::trimmed(
            inner,
        ) + tail);
        (cut.0, tail)
    } else {
        assert(text =~= Seq::empty() + text + Seq::empty());
        (Seq::empty(), Seq::empty())
    }
}

/// White space around a text that starts and ends with something else is what
/// trimming takes away.
pub proof fn padding_is_trimmed_away(before: Seq<char>, text: Seq<char>, after: Seq<char>)
    requires
        blank(before),
        blank(after),
        text.len() > 0 ==> !text::is_white(text[0]) && !text::is_white(text.last()),
    ensures
        text::trimmed(before + text + after) == text,
    decreases before.len() + after.len(),
{
    let all = before + text + after;
    if before.len() > 0 {
        let fewer = before.drop_first();
        assert(all[0] == before[0]);
        assert(all.drop_first() =~= fewer + text + after);
        assert forall|i: int| 0 <= i < fewer.len() implies text::is_white(#[trigger] fewer[i]) by {
            assert(fewer[i] == before[i + 1]);
        }
        padding_is_trimmed_away(fewer, text, after);
    } else if after.len() > 0 {
        let fewer = after.drop_last();
        assert forall|i: int| 0 <= i < fewer.len() implies text::is_white(#[trigger] fewer[i]) by {
            assert(fewer[i] == after[i]);
        }
        assert(all.last() == after[after.len() - 1]);
        if text.len() > 0 {
            assert(all[0] == text[0]);
            assert(all.drop_last() =~= before + text + fewer);
            padding_is_trimmed_away(before, text, fewer);
        } else {
            assert(all =~= after);
            assert(text::is_white(after[0]));
            let rest = after.drop_first();
            assert forall|i: int| 0 <= i < rest.len() implies text::is_white(
                #[trigger] rest[i],
            ) by {
                assert(rest[i] == after[i + 1]);
            }
            assert(before + text + rest =~= rest);
            padding_is_trimmed_away(before, text, rest);
        }
    } else {
        assert(all =~= text);
    }
}

/// White space alone holds no word.
pub proof fn white_space_holds_no_word(text: Seq<char>)
    requires
        blank(text),
    ensures
        text::words(text) == Seq::<Seq<char>>::empty(),
    decreases text.len(),
{
    if text.len() > 0 {
        assert(text::is_white(text[text.len() - 1]));
        assert forall|i: int| 0 <= i < text.drop_last().len() implies text::is_white(
            #[trigger] text.drop_last()[i],
        ) by {
            assert(text.drop_last()[i] == text[i]);
        }
        white_space_holds_no_word(text.drop_last());
    }
}

proof fn one_word(lead: Seq<char>, word: Seq<char>)
    requires
        blank(lead),
        solid(word),
        word.len() > 0,
    ensures
        text::words(lead + word) == seq![word],
    decreases word.len(),
{
    let all = lead + word;
    let rest = word.drop_last();
    assert(all.drop_last() =~= lead + rest);
    assert(all.last() == word[word.len() - 1]);
    if word.len() == 1 {
        assert(lead + rest =~= lead);
        white_space_holds_no_word(lead);
        if all.len() > 1 {
            assert(all[all.len() - 2] == lead[lead.len() - 1]);
        }
        assert(seq![all.last()] =~= word);
    } else {
        assert forall|i: int| 0 <= i < rest.len() implies !text::is_white(#[trigger] rest[i]) by {
            assert(rest[i] == word[i]);
        }
        one_word(lead, rest);
        assert(all[all.len() - 2] == word[word.len() - 2]);
        assert(rest.push(all.last()) =~= word);
        assert(seq![rest].drop_last().push(rest.push(all.last())) =~= seq![word]);
    }
}

/// The words of a text are its longest runs without white space, in order: a
/// text that starts with such a run, with or without white space before it,
/// has that run for its first word and then the words of what follows.
pub proof fn words_come_one_by_one(lead: Seq<char>, word: Seq<char>, rest: Seq<char>)
    requires
        blank(lead),
        solid(word),
        word.len() > 0,
        rest.len() > 0 ==> text::is_white(rest[0]),
    ensures
        text::words(lead + word + rest) == seq![word] + text::words(rest),
    decreases rest.len(),
{
    let all = lead + word + rest;
    if rest.len() == 0 {
        one_word(lead, word);
        assert(all =~= lead + word);
        assert(seq![word] + Seq::<Seq<char>>::empty() =~= seq![word]);
    } else {
        let fewer = rest.drop_last();
        assert(all.drop_last() =~= lead + word + fewer);
        assert(all.last() == rest.last());
        if fewer.len() > 0 {
            assert(fewer[0] == rest[0]);
        }
        words_come_one_by_one(lead, word, fewer);
        if !text::is_white(rest.last()) {
            assert(rest.len() > 1);
            assert(all[all.len() - 2] == rest[rest.len() - 2]);
            let before = text::words(fewer);
            if text::is_white(rest[rest.len() - 2]) {
                assert((seq![word] + before).push(seq![rest.last()]) =~= seq![word] + before.push(
                    seq![rest.last()],
                ));
            } else {
                assert(fewer.last() == rest[rest.len() - 2]);
                text::words_hold_no_white_space(fewer);
                let longer = before.last().push(rest.last());
                assert((seq![word] + before).last() == before.last());
                assert((seq![word] + before).drop_last().push(longer) =~= seq![word]
                    + before.drop_last().push(longer));
            }
        }
    }
}

/// Words written one behind the other, each with a gap before it.
pub open spec fn spelled(words: Seq<Seq<char>>, gaps: Seq<Seq<char>>) -> Seq<char>
    decreases words.len(),
{
    if words.len() == 0 {
        Seq::empty()
    } else {
        gaps[0] + words[0] + spelled(words.skip(1), gaps.skip(1))
    }
}

/// Whether words can be told apart when they are written with these gaps: no
/// word is empty or holds white space, and a gap is white space, which only the
/// first one can do without.
pub open spec fn can_be_told_apart(words: Seq<Seq<char>>, gaps: Seq<Seq<char>>) -> bool {
    &&& gaps.len() == words.len()
    &&& forall|i: int| 0 <= i < words.len() ==> (#[trigger] words[i]).len() > 0 && solid(words[i])
    &&& forall|i: int| 0 <= i < gaps.len() ==> blank(#[trigger] gaps[i])
    &&& forall|i: int| 0 < i < gaps.len() ==> (#[trigger] gaps[i]).len() > 0
}

/// Words written with white space between them are found again, in order.
pub proof fn words_are_found_again(
    words: Seq<Seq<char>>,
    gaps: Seq<Seq<char>>,
)
    requires
        can_be_told_apart(words, gaps),
    ensures
        text::words(spelled(words, gaps)) == words,
    decreases words.len(),
{
    if words.len() > 0 {
        let (fewer, rest) = (words.skip(1), gaps.skip(1));
        assert(can_be_told_apart(fewer, rest)) by {
            assert(forall|i: int| 0 <= i < fewer.len() ==> #[trigger] fewer[i] == words[i + 1]);
            assert(forall|i: int| 0 <= i < rest.len() ==> #[trigger] rest[i] == gaps[i + 1]);
        }
        words_are_found_again(fewer, rest);
        let tail = spelled(fewer, rest);
        assert(words[0].len() > 0 && solid(words[0]));
        assert(blank(gaps[0]));
        if tail.len() > 0 {
            assert(fewer.len() > 0);
            assert(rest[0] == gaps[1]);
            assert(tail[0] == rest[0][0]);
            assert(text::is_white(rest[0][0]));
        }
        words_come_one_by_one(gaps[0], words[0], tail);
        assert(seq![words[0]] + fewer =~= words);
    } else {
        assert(words =~= Seq::empty());
    }
}

/// The first place of a character is where it stands with none of it before.
pub proof fn the_first_place_has_none_before(before: Seq<char>, wanted: char, after: Seq<char>)
    requires
        !before.contains(wanted),
    ensures
        text::first_place(before.push(wanted) + after, wanted) == before.len(),
        text::first_place(before, wanted) == before.len(),
    decreases before.len(),
{
    let all = before.push(wanted) + after;
    if before.len() > 0 {
        let inner = before.drop_first();
        assert(before.contains(before[0]));
        assert(!inner.contains(wanted)) by {
            if inner.contains(wanted) {
                let i = choose|i: int| 0 <= i < inner.len() && inner[i] == wanted;
                assert(before[i + 1] == wanted);
            }
        }
        the_first_place_has_none_before(inner, wanted, after);
        assert(all.drop_first() =~= inner.push(wanted) + after);
    }
}

/// The last place of a character is where it stands with none of it behind.
pub proof fn the_last_place_has_none_behind(before: Seq<char>, wanted: char, after: Seq<char>)
    requires
        !after.contains(wanted),
    ensures
        text::last_place(before.push(wanted) + after, wanted) == before.len(),
        text::last_place(after, wanted) == -1,
    decreases after.len(),
{
    let all = before.push(wanted) + after;
    if after.len() > 0 {
        let inner = after.drop_last();
        assert(after.contains(after[after.len() - 1]));
        assert(!inner.contains(wanted)) by {
            if inner.contains(wanted) {
                let i = choose|i: int| 0 <= i < inner.len() && inner[i] == wanted;
                assert(after[i] == wanted);
            }
        }
        the_last_place_has_none_behind(before, wanted, inner);
        assert(all.drop_last() =~= before.push(wanted) + inner);
    }
}

/// A run is found where it first stands.
pub proof fn a_run_is_found_where_it_first_stands(text: Seq<char>, needle: Seq<char>, from: int)
    requires
        0 <= from,
    ensures
        match text::run_place(text, needle, from) {
            Some(at) => {
                &&& from <= at
                &&& at + needle.len() <= text.len()
                &&& text.subrange(at, at + needle.len()) == needle
                &&& forall|k: int|
                    from <= k < at ==> #[trigger] text.subrange(k, k + needle.len()) != needle
            },
            None => forall|k: int|
                from <= k && k + needle.len() <= text.len() ==> #[trigger] text.subrange(
                    k,
                    k + needle.len(),
                ) != needle,
        },
    decreases text.len() + 1 - from,
{
    if from + needle.len() <= text.len() && text.subrange(from, from + needle.len()) != needle {
        a_run_is_found_where_it_first_stands(text, needle, from + 1);
    }
}

/// Texts rank by the first character in which they differ, the one with the
/// smaller code point first; where they do not differ, the shorter comes first.
pub proof fn texts_rank_by_their_first_difference(a: Seq<char>, b: Seq<char>) -> (at: int)
    ensures
        0 <= at <= a.len(),
        at <= b.len(),
        a.take(at) == b.take(at),
        at == a.len() || at == b.len() || a[at] != b[at],
        text::text_rank(a, b) == (if at == a.len() && at == b.len() {
            Rank::Same
        } else if at == a.len() {
            Rank::Before
        } else if at == b.len() {
            Rank::After
        } else if (a[at] as int) < b[at] as int {
            Rank::Before
        } else {
            Rank::After
        }),
    decreases a.len(),
{
    if a.len() > 0 && b.len() > 0 && a[0] == b[0] {
        let (x, y) = (a.drop_first(), b.drop_first());
        let at = texts_rank_by_their_first_difference(x, y);
        assert(a.take(at + 1) =~= b.take(at + 1)) by {
            assert forall|i: int| 0 <= i < at + 1 implies #[trigger] a.take(at + 1)[i] == b.take(at + 1)[i] by {
                if i > 0 {
                    assert(x.take(at)[i - 1] == y.take(at)[i - 1]);
                }
            }
        }
        at + 1
    } else {
        assert(a.take(0) =~= b.take(0));
        0
    }
}

/// Runs of bytes rank by the first byte in which they differ; where they do not
/// differ, the shorter comes first.
pub proof fn bytes_rank_by_their_first_difference(a: Seq<u8>, b: Seq<u8>) -> (at: int)
    ensures
        0 <= at <= a.len(),
        at <= b.len(),
        a.take(at) == b.take(at),
        at == a.len() || at == b.len() || a[at] != b[at],
        text::byte_rank(a, b) == (if at == a.len() && at == b.len() {
            Rank::Same
        } else if at == a.len() {
            Rank::Before
        } else if at == b.len() {
            Rank::After
        } else if a[at] < b[at] {
            Rank::Before
        } else {
            Rank::After
        }),
    decreases a.len(),
{
    if a.len() > 0 && b.len() > 0 && a[0] == b[0] {
        let (x, y) = (a.drop_first(), b.drop_first());
        let at = bytes_rank_by_their_first_difference(x, y);
        assert(a.take(at + 1) =~= b.take(at + 1)) by {
            assert forall|i: int| 0 <= i < at + 1 implies #[trigger] a.take(at + 1)[i] == b.take(at + 1)[i] by {
                if i > 0 {
                    assert(x.take(at)[i - 1] == y.take(at)[i - 1]);
                }
            }
        }
        at + 1
    } else {
        assert(a.take(0) =~= b.take(0));
        0
    }
}

/// An excerpt on one line shows a short text whole and the head of a longer
/// one, closed by an ellipsis, with every line break as a space.
pub proof fn an_excerpt_shows_the_head(text: Seq<char>, max_chars: nat)
    ensures
        ({
            let line = text::one_line(text, max_chars);
            let kept = if text.len() <= max_chars {
                text.len() as int
            } else {
                max_chars as int
            };
            &&& line.len() == kept + if text.len() > max_chars {
                1int
            } else {
                0int
            }
            &&& text.len() > max_chars ==> line[kept] == '…'
            &&& forall|i: int|
                0 <= i < kept ==> #[trigger] line[i] == (if text[i] == '\n' || text[i] == '\r' {
                    ' '
                } else {
                    text[i]
                })
            &&& !line.contains('\n')
            &&& !line.contains('\r')
        }),
{
    let line = text::one_line(text, max_chars);
    let cut = text::excerpted(text, max_chars);
    assert forall|i: int| 0 <= i < line.len() implies #[trigger] line[i] != '\n' && line[i]
        != '\r' by {
        assert(line[i] == text::unbroken(cut[i]));
    }
}

/// A tooltip shows a value of up to 1200 characters whole; of a longer one it
/// shows that many and says how many are missing.
pub proof fn a_tooltip_says_what_it_leaves_out(value: Seq<char>)
    ensures
        value.len() <= 1200 ==> text::tooltip(value) == value,
        value.len() > 1200 ==> text::tooltip(value) == value.subrange(0, 1200) + "…\n\n("@
            + text::decimal((value.len() - 1200) as nat) + " more characters)"@,
{
    assert(value.len() > 1200 ==> value.take(1200) =~= value.subrange(0, 1200));
}

/// Only the capitals of ASCII change, each to the small letter of its name.
pub proof fn ascii_capitals_become_small(text: Seq<char>, i: int)
    requires
        0 <= i < text.len(),
    ensures
        text::ascii_lowered(text).len() == text.len(),
        65 <= text[i] as int <= 90 ==> text::ascii_lowered(text)[i] as int == text[i] as int + 32,
        !(65 <= text[i] as int <= 90) ==> text::ascii_lowered(text)[i] == text[i],
{
}

} // verus!
