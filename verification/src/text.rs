//! Texts as sequences of characters: case, search, trimming, words, order.

use vstd::prelude::*;

verus! {

/// The lowercase form of a text, as `str::to_lowercase` gives it.
pub uninterp spec fn lowered(text: Seq<char>) -> Seq<char>;

/// Whether a text is ASCII throughout.
pub open spec fn all_ascii(text: Seq<char>) -> bool {
    forall|i: int| 0 <= i < text.len() ==> (#[trigger] text[i] as int) < 128
}

/// Calls `str::to_lowercase`. The Unicode tables behind it are not described:
/// the result is only named, as a function of the text, beside what becomes of a
/// text that is ASCII throughout.
#[verifier::external_body]
pub(crate) fn lowercase(text: &str) -> (lower: String)
    ensures
        lower@ == lowered(text@),
        all_ascii(text@) ==> lower@ == ascii_lowered(text@),
{
    text.to_lowercase()
}

/// Whether `needle` stands somewhere inside `text`.
pub open spec fn occurs_in(needle: Seq<char>, text: Seq<char>) -> bool {
    exists|at: int|
        0 <= at && at + needle.len() <= text.len() && #[trigger] text.subrange(
            at,
            at + needle.len(),
        ) == needle
}

/// Calls `str::contains` with a text for its pattern: true when the pattern is
/// a run of the text's characters.
#[verifier::external_body]
pub(crate) fn contains_text(text: &str, needle: &str) -> (found: bool)
    ensures
        found == occurs_in(needle@, text@),
{
    text.contains(needle)
}

/// Specifies `String::push`: the character goes to the end of the text.
pub assume_specification[ std::string::String::push ](string: &mut String, ch: char)
    ensures
        final(string)@ == old(string)@.push(ch),
;

/// The views of a sequence of texts.
pub open spec fn texts(list: Seq<String>) -> Seq<Seq<char>> {
    list.map_values(|text: String| text@)
}

/// The view of an optional text.
pub open spec fn text_option(text: Option<String>) -> Option<Seq<char>> {
    match text {
        Some(text) => Some(text@),
        None => None,
    }
}

/// A copy of an optional text.
pub fn clone_option(text: &Option<String>) -> (copy: Option<String>)
    ensures
        text_option(copy) == text_option(*text),
{
    match text {
        Some(text) => Some(text.clone()),
        None => None,
    }
}

/// The characters of a text.
pub fn characters(text: &str) -> (chars: Vec<char>)
    ensures
        chars@ == text@,
{
    let mut chars: Vec<char> = Vec::new();
    for c in it: text.chars()
        invariant
            chars@ == it.seq().take(it.index() as int),
            it.seq() == text@,
    {
        chars.push(c);
    }
    chars
}

/// The text made of the characters from `from` up to `to`.
pub fn text_between(chars: &Vec<char>, from: usize, to: usize) -> (text: String)
    requires
        from <= to <= chars@.len(),
    ensures
        text@ == chars@.subrange(from as int, to as int),
{
    let mut text = String::new();
    for i in from..to
        invariant
            from <= to <= chars@.len(),
            text@ == chars@.subrange(from as int, i as int),
    {
        text.push(chars[i]);
    }
    text
}

/// Whether a text begins with `prefix`.
pub fn starts_with(text: &str, prefix: &str) -> (yes: bool)
    ensures
        yes == prefix@.is_prefix_of(text@),
{
    let mut rest = text.chars();
    let mut wanted = prefix.chars();
    let ghost mut done: int = 0;
    loop
        invariant
            0 <= done <= prefix@.len(),
            done <= text@.len(),
            vstd::std_specs::iter::IteratorSpec::remaining(&wanted) == prefix@.skip(done),
            vstd::std_specs::iter::IteratorSpec::remaining(&rest) == text@.skip(done),
            prefix@.take(done) == text@.take(done),
        decreases prefix@.len() - done,
    {
        match wanted.next() {
            None => {
                assert(prefix@.take(done) == prefix@);
                return true;
            },
            Some(w) => {
                match rest.next() {
                    None => {
                        return false;
                    },
                    Some(c) => {
                        if c != w {
                            assert(text@[done] != prefix@[done]);
                            return false;
                        }
                        proof {
                            assert(prefix@.take(done + 1) == prefix@.take(done).push(w));
                            assert(text@.take(done + 1) == text@.take(done).push(w));
                            done = done + 1;
                        }
                    },
                }
            },
        }
    }
}

/// Whether two texts hold the same characters.
pub fn same_text(a: &str, b: &str) -> (same: bool)
    ensures
        same == (a@ == b@),
{
    let mut left = a.chars();
    let mut right = b.chars();
    let ghost mut done: int = 0;
    loop
        invariant
            0 <= done <= a@.len(),
            done <= b@.len(),
            vstd::std_specs::iter::IteratorSpec::remaining(&left) == a@.skip(done),
            vstd::std_specs::iter::IteratorSpec::remaining(&right) == b@.skip(done),
            a@.take(done) == b@.take(done),
        decreases a@.len() - done,
    {
        let x = left.next();
        let y = right.next();
        match (x, y) {
            (None, None) => {
                assert(a@.take(done) == a@);
                assert(b@.take(done) == b@);
                return true;
            },
            (Some(x), Some(y)) => {
                if x != y {
                    assert(a@[done] != b@[done]);
                    return false;
                }
                proof {
                    assert(a@.take(done + 1) == a@.take(done).push(x));
                    assert(b@.take(done + 1) == b@.take(done).push(y));
                    done = done + 1;
                }
            },
            _ => {
                return false;
            },
        }
    }
}

/// Whether a text holds the character `wanted`.
pub fn has_char(text: &str, wanted: char) -> (found: bool)
    ensures
        found == text@.contains(wanted),
{
    for c in it: text.chars()
        invariant
            it.seq() == text@,
            forall|i: int| 0 <= i < it.index() ==> text@[i] != wanted,
    {
        if c == wanted {
            assert(text@[it.index() as int] == wanted);
            return true;
        }
    }
    false
}

// ---- concatenation ----

/// A text followed by another.
pub fn concat(a: &str, b: &str) -> (both: String)
    ensures
        both@ == a@ + b@,
{
    let mut both = a.to_owned();
    both.append(b);
    both
}

/// A path with one more segment: `path.key`.
pub open spec fn dotted(path: Seq<char>, key: Seq<char>) -> Seq<char> {
    path.push('.') + key
}

/// Computes [`dotted`].
pub fn join_path(path: &str, key: &str) -> (joined: String)
    ensures
        joined@ == dotted(path@, key@),
{
    let mut joined = path.to_owned();
    joined.push('.');
    joined.append(key);
    joined
}

// ---- numbers ----

/// The character of a decimal digit.
pub open spec fn digit(d: nat) -> char {
    (48 + d) as char
}

/// A number in decimal notation.
pub open spec fn decimal(n: nat) -> Seq<char>
    decreases n,
{
    if n < 10 {
        seq![digit(n)]
    } else {
        decimal(n / 10).push(digit(n % 10))
    }
}

/// Appends a number in decimal notation.
pub fn push_decimal(text: &mut String, n: u64)
    ensures
        final(text)@ == old(text)@ + decimal(n as nat),
    decreases n,
{
    if n >= 10 {
        push_decimal(text, n / 10);
    }
    let d: u8 = (n % 10) as u8;
    text.push((48u8 + d) as char);
}

/// A number in decimal notation.
pub fn decimal_text(n: u64) -> (text: String)
    ensures
        text@ == decimal(n as nat),
{
    let mut text = String::new();
    push_decimal(&mut text, n);
    text
}

// ---- ASCII case ----

/// A character with an ASCII capital made small.
pub open spec fn ascii_lower(c: char) -> char {
    if 'A' <= c <= 'Z' {
        (c as int + 32) as char
    } else {
        c
    }
}

/// A text with its ASCII capitals made small.
pub open spec fn ascii_lowered(text: Seq<char>) -> Seq<char> {
    text.map_values(|c: char| ascii_lower(c))
}

fn to_ascii_lower(c: char) -> (lower: char)
    ensures
        lower == ascii_lower(c),
{
    if 'A' <= c && c <= 'Z' {
        (c as u8 + 32) as char
    } else {
        c
    }
}

/// Whether two texts are equal up to the case of their ASCII letters.
pub fn same_ignoring_ascii_case(a: &str, b: &str) -> (same: bool)
    ensures
        same == (ascii_lowered(a@) == ascii_lowered(b@)),
{
    let left = characters(a);
    let right = characters(b);
    if left.len() != right.len() {
        assert(ascii_lowered(a@).len() != ascii_lowered(b@).len());
        return false;
    }
    for i in 0..left.len()
        invariant
            left@ == a@,
            right@ == b@,
            left@.len() == right@.len(),
            forall|j: int| 0 <= j < i ==> ascii_lower(left@[j]) == ascii_lower(right@[j]),
    {
        if to_ascii_lower(left[i]) != to_ascii_lower(right[i]) {
            assert(ascii_lowered(a@)[i as int] != ascii_lowered(b@)[i as int]);
            return false;
        }
    }
    assert(ascii_lowered(a@) =~= ascii_lowered(b@));
    true
}

// ---- white space, trimming, words ----

/// The characters with the Unicode property `White_Space`.
pub open spec fn is_white(c: char) -> bool {
    ||| 9 <= c as int <= 13
    ||| c as int == 0x20
    ||| c as int == 0x85
    ||| c as int == 0xa0
    ||| c as int == 0x1680
    ||| 0x2000 <= c as int <= 0x200a
    ||| c as int == 0x2028
    ||| c as int == 0x2029
    ||| c as int == 0x202f
    ||| c as int == 0x205f
    ||| c as int == 0x3000
}

/// Whether a character is white space.
pub fn white_space(c: char) -> (white: bool)
    ensures
        white == is_white(c),
{
    let n: u32 = c as u32;
    (9 <= n && n <= 13) || n == 0x20 || n == 0x85 || n == 0xa0 || n == 0x1680 || (0x2000 <= n && n
        <= 0x200a) || n == 0x2028 || n == 0x2029 || n == 0x202f || n == 0x205f || n == 0x3000
}

/// A text without the white space at its two ends.
pub open spec fn trimmed(text: Seq<char>) -> Seq<char>
    decreases text.len(),
{
    if text.len() == 0 {
        text
    } else if is_white(text[0]) {
        trimmed(text.drop_first())
    } else if is_white(text.last()) {
        trimmed(text.drop_last())
    } else {
        text
    }
}

/// Computes [`trimmed`].
#[verifier::rlimit(40)]
pub fn trim(text: &str) -> (kept: String)
    ensures
        kept@ == trimmed(text@),
{
    let chars = characters(text);
    let mut from: usize = 0;
    let mut to: usize = chars.len();
    assert(chars@.subrange(0, to as int) == text@);
    while from < to && white_space(chars[from])
        invariant
            from <= to == chars@.len(),
            trimmed(text@) == trimmed(chars@.subrange(from as int, to as int)),
        decreases to - from,
    {
        assert(chars@.subrange(from as int, to as int).drop_first() == chars@.subrange(
            from + 1,
            to as int,
        ));
        from = from + 1;
    }
    while from < to && white_space(chars[to - 1])
        invariant
            from <= to <= chars@.len(),
            from < to ==> !is_white(chars@[from as int]),
            trimmed(text@) == trimmed(chars@.subrange(from as int, to as int)),
        decreases to - from,
    {
        assert(chars@.subrange(from as int, to as int).drop_last() == chars@.subrange(
            from as int,
            to - 1,
        ));
        to = to - 1;
    }
    text_between(&chars, from, to)
}

/// The words of a text: its longest runs without white space, in order.
pub open spec fn words(text: Seq<char>) -> Seq<Seq<char>>
    decreases text.len(),
{
    if text.len() == 0 {
        Seq::empty()
    } else {
        let before = words(text.drop_last());
        if is_white(text.last()) {
            before
        } else if text.len() == 1 || is_white(text[text.len() - 2]) {
            before.push(seq![text.last()])
        } else {
            before.drop_last().push(before.last().push(text.last()))
        }
    }
}

/// Computes [`words`].
pub fn split_words(text: &str) -> (list: Vec<String>)
    ensures
        texts(list@) == words(text@),
{
    let chars = characters(text);
    let mut list: Vec<String> = Vec::new();
    let mut word = String::new();
    let mut in_word = false;
    for i in 0..chars.len()
        invariant
            chars@ == text@,
            in_word == (i > 0 && !is_white(chars@[i - 1])),
            words(chars@.take(i as int)) == (if in_word {
                texts(list@).push(word@)
            } else {
                texts(list@)
            }),
            !in_word ==> word@.len() == 0,
    {
        let c = chars[i];
        let ghost before = chars@.take(i as int);
        let ghost after = chars@.take(i + 1);
        assert(after.drop_last() == before);
        if white_space(c) {
            if in_word {
                let ghost earlier = texts(list@);
                list.push(word);
                assert(texts(list@) =~= earlier.push(word@));
                word = String::new();
                in_word = false;
            }
        } else {
            let ghost held = word@;
            word.push(c);
            proof {
                if in_word {
                    assert(words(before).drop_last() =~= texts(list@));
                } else {
                    assert(word@ =~= seq![c]);
                }
            }
            in_word = true;
        }
    }
    assert(chars@.take(chars@.len() as int) == text@);
    if in_word {
        let ghost earlier = texts(list@);
        list.push(word);
        assert(texts(list@) =~= earlier.push(word@));
    }
    list
}

/// A word is never empty and holds no white space.
pub proof fn words_hold_no_white_space(text: Seq<char>)
    ensures
        forall|i: int| 0 <= i < words(text).len() ==> (#[trigger] words(text)[i]).len() > 0,
        forall|i: int, j: int|
            0 <= i < words(text).len() && 0 <= j < words(text)[i].len() ==> !is_white(
                #[trigger] words(text)[i][j],
            ),
        text.len() > 0 && !is_white(text.last()) ==> words(text).len() > 0,
    decreases text.len(),
{
    if text.len() > 0 {
        let before = words(text.drop_last());
        words_hold_no_white_space(text.drop_last());
        if text.len() > 1 {
            assert(text.drop_last().last() == text[text.len() - 2]);
        }
        assert forall|i: int| 0 <= i < words(text).len() implies (
        #[trigger] words(text)[i]).len() > 0 && (forall|j: int|
            0 <= j < words(text)[i].len() ==> !is_white(#[trigger] words(text)[i][j])) by {
            if i < before.len() {
                assert(before[i].len() > 0);
                assert(forall|j: int| 0 <= j < before[i].len() ==> !is_white(before[i][j]));
            }
        }
    }
}

// ---- searching for one character ----

/// How many characters stand before the first `wanted`, all of them where
/// there is none.
pub open spec fn first_place(text: Seq<char>, wanted: char) -> int
    decreases text.len(),
{
    if text.len() == 0 || text[0] == wanted {
        0
    } else {
        1 + first_place(text.drop_first(), wanted)
    }
}

/// Where the last `wanted` stands, `-1` where there is none.
pub open spec fn last_place(text: Seq<char>, wanted: char) -> int
    decreases text.len(),
{
    if text.len() == 0 {
        -1
    } else if text.last() == wanted {
        text.len() - 1
    } else {
        last_place(text.drop_last(), wanted)
    }
}

/// The position of the first `wanted`, or the length where there is none.
pub fn find_first(chars: &Vec<char>, wanted: char) -> (at: usize)
    ensures
        at == first_place(chars@, wanted),
        at <= chars@.len(),
        at < chars@.len() ==> chars@[at as int] == wanted,
        at == chars@.len() <==> !chars@.contains(wanted),
{
    let mut at: usize = 0;
    assert(chars@.skip(0) == chars@);
    while at < chars.len() && chars[at] != wanted
        invariant
            at <= chars@.len(),
            first_place(chars@, wanted) == at + first_place(chars@.skip(at as int), wanted),
            forall|i: int| 0 <= i < at ==> chars@[i] != wanted,
        decreases chars.len() - at,
    {
        assert(chars@.skip(at as int).drop_first() == chars@.skip(at + 1));
        at = at + 1;
    }
    at
}

/// The position of the last `wanted`, if there is one.
pub fn find_last(chars: &Vec<char>, wanted: char) -> (at: Option<usize>)
    ensures
        match at {
            Some(at) => at == last_place(chars@, wanted) && at < chars@.len(),
            None => last_place(chars@, wanted) == -1,
        },
{
    let mut end: usize = chars.len();
    assert(chars@.take(end as int) == chars@);
    while end > 0
        invariant
            end <= chars@.len(),
            last_place(chars@, wanted) == last_place(chars@.take(end as int), wanted),
        decreases end,
    {
        if chars[end - 1] == wanted {
            return Some(end - 1);
        }
        assert(chars@.take(end as int).drop_last() == chars@.take(end - 1));
        end = end - 1;
    }
    None
}

/// Where `needle` first stands in a text from `from` on.
pub open spec fn run_place(text: Seq<char>, needle: Seq<char>, from: int) -> Option<int>
    decreases text.len() + 1 - from,
{
    if from + needle.len() > text.len() {
        None
    } else if text.subrange(from, from + needle.len()) == needle {
        Some(from)
    } else {
        run_place(text, needle, from + 1)
    }
}

/// Where `needle` first stands in a text.
pub fn find_run(chars: &Vec<char>, needle: &Vec<char>) -> (at: Option<usize>)
    ensures
        run_place(chars@, needle@, 0) == (match at {
            Some(at) => Some(at as int),
            None => None,
        }),
        at matches Some(at) ==> at + needle@.len() <= chars@.len(),
{
    if needle.len() > chars.len() {
        return None;
    }
    let mut from: usize = 0;
    while from <= chars.len() - needle.len()
        invariant
            needle.len() <= chars.len(),
            from <= chars.len() - needle.len() + 1,
            run_place(chars@, needle@, 0) == run_place(chars@, needle@, from as int),
        decreases chars.len() + 1 - from,
    {
        let mut same: usize = 0;
        while same < needle.len() && chars[from + same] == needle[same]
            invariant
                same <= needle.len(),
                needle.len() <= chars.len(),
                from <= chars.len() - needle.len(),
                forall|k: int| 0 <= k < same ==> #[trigger] needle@[k] == chars@[from + k],
            decreases needle.len() - same,
        {
            same = same + 1;
        }
        let ghost part = chars@.subrange(from as int, from + needle@.len());
        if same == needle.len() {
            assert(part =~= needle@);
            return Some(from);
        }
        assert(part[same as int] != needle@[same as int]);
        if from == chars.len() - needle.len() {
            assert(run_place(chars@, needle@, from + 1) is None);
            return None;
        }
        from = from + 1;
    }
    None
}

// ---- excerpts ----

/// The leading `max_chars` characters, with an ellipsis when anything was cut.
pub open spec fn excerpted(text: Seq<char>, max_chars: nat) -> Seq<char> {
    if text.len() <= max_chars {
        text
    } else {
        text.take(max_chars as int).push('…')
    }
}

/// Computes [`excerpted`].
pub fn excerpt(text: &str, max_chars: usize) -> (out: String)
    ensures
        out@ == excerpted(text@, max_chars as nat),
{
    let mut out = String::new();
    let mut kept: usize = 0;
    for c in it: text.chars()
        invariant
            it.seq() == text@,
            kept == it.index(),
            kept <= max_chars,
            out@ == text@.take(kept as int),
    {
        if kept == max_chars {
            out.push('…');
            return out;
        }
        out.push(c);
        kept = kept + 1;
    }
    assert(text@.take(kept as int) == text@);
    out
}

/// A character with a line break made a space.
pub open spec fn unbroken(c: char) -> char {
    if c == '\n' || c == '\r' {
        ' '
    } else {
        c
    }
}

/// [`excerpted`] on one line: every line break is a space.
pub open spec fn one_line(text: Seq<char>, max_chars: nat) -> Seq<char> {
    excerpted(text, max_chars).map_values(|c: char| unbroken(c))
}

/// Excerpt for a single-line label, where a line break would otherwise end the
/// visible text early.
pub fn single_line(text: &str, max_chars: usize) -> (line: String)
    ensures
        line@ == one_line(text@, max_chars as nat),
{
    let cut = excerpt(text, max_chars);
    let mut line = String::new();
    for c in it: cut.as_str().chars()
        invariant
            it.seq() == cut@,
            line@ == cut@.take(it.index() as int).map_values(|c: char| unbroken(c)),
    {
        let ghost i = it.index() as int;
        line.push(if c == '\n' || c == '\r' { ' ' } else { c });
        assert(cut@.take(i + 1).map_values(|c: char| unbroken(c)) =~= cut@.take(i).map_values(
            |c: char| unbroken(c),
        ).push(unbroken(c)));
    }
    assert(cut@.take(cut@.len() as int) == cut@);
    line
}

/// Characters a tooltip shows before it says how many more there are.
pub const TOOLTIP_CHARS: usize = 1200;

/// A value as a tooltip shows it: whole, or its head and how much is missing.
pub open spec fn tooltip(value: Seq<char>) -> Seq<char> {
    if value.len() <= TOOLTIP_CHARS {
        value
    } else {
        value.take(TOOLTIP_CHARS as int) + "…\n\n("@ + decimal((value.len() - TOOLTIP_CHARS) as nat)
            + " more characters)"@
    }
}

/// Full-value hover text, capped so that a multi-kilobyte prompt does not fill
/// the screen.
pub fn tooltip_excerpt(value: &str) -> (shown: String)
    ensures
        shown@ == tooltip(value@),
{
    let chars = characters(value);
    if chars.len() <= TOOLTIP_CHARS {
        return value.to_owned();
    }
    let mut shown = text_between(&chars, 0, TOOLTIP_CHARS);
    shown.append("…\n\n(");
    push_decimal(&mut shown, (chars.len() - TOOLTIP_CHARS) as u64);
    shown.append(" more characters)");
    shown
}

// ---- order ----

/// How one thing stands to another in an order.
#[derive(Clone, Copy, PartialEq, Eq, Structural, Debug)]
pub enum Rank {
    Before,
    Same,
    After,
}

impl Rank {
    /// The rank with the two things exchanged.
    pub open spec fn flipped(self) -> Rank {
        match self {
            Rank::Before => Rank::After,
            Rank::Same => Rank::Same,
            Rank::After => Rank::Before,
        }
    }

    /// Computes [`Rank::flipped`].
    pub fn flip(self) -> (other: Rank)
        ensures
            other == self.flipped(),
    {
        match self {
            Rank::Before => Rank::After,
            Rank::Same => Rank::Same,
            Rank::After => Rank::Before,
        }
    }
}

/// The rank of one integer to another.
pub open spec fn number_rank(a: int, b: int) -> Rank {
    if a < b {
        Rank::Before
    } else if a == b {
        Rank::Same
    } else {
        Rank::After
    }
}

/// The lexicographic order of texts, by the code points of their characters.
pub open spec fn text_rank(a: Seq<char>, b: Seq<char>) -> Rank
    decreases a.len(),
{
    if a.len() == 0 && b.len() == 0 {
        Rank::Same
    } else if a.len() == 0 {
        Rank::Before
    } else if b.len() == 0 {
        Rank::After
    } else if a[0] != b[0] {
        number_rank(a[0] as int, b[0] as int)
    } else {
        text_rank(a.drop_first(), b.drop_first())
    }
}

/// Computes [`text_rank`].
pub fn rank_texts(a: &str, b: &str) -> (rank: Rank)
    ensures
        rank == text_rank(a@, b@),
{
    let mut left = a.chars();
    let mut right = b.chars();
    let ghost mut done: int = 0;
    assert(a@.skip(0) == a@);
    assert(b@.skip(0) == b@);
    loop
        invariant
            0 <= done <= a@.len(),
            done <= b@.len(),
            vstd::std_specs::iter::IteratorSpec::remaining(&left) == a@.skip(done),
            vstd::std_specs::iter::IteratorSpec::remaining(&right) == b@.skip(done),
            text_rank(a@, b@) == text_rank(a@.skip(done), b@.skip(done)),
        decreases a@.len() - done,
    {
        let x = left.next();
        let y = right.next();
        match (x, y) {
            (None, None) => {
                return Rank::Same;
            },
            (None, Some(_)) => {
                return Rank::Before;
            },
            (Some(_), None) => {
                return Rank::After;
            },
            (Some(x), Some(y)) => {
                if x != y {
                    return if x < y { Rank::Before } else { Rank::After };
                }
                proof {
                    assert(a@.skip(done).drop_first() == a@.skip(done + 1));
                    assert(b@.skip(done).drop_first() == b@.skip(done + 1));
                    done = done + 1;
                }
            },
        }
    }
}

/// Two texts rank the same only when they are equal, and exchanging them flips
/// their rank.
pub proof fn text_rank_is_antisymmetric(a: Seq<char>, b: Seq<char>)
    ensures
        text_rank(a, b) == Rank::Same <==> a == b,
        text_rank(b, a) == text_rank(a, b).flipped(),
    decreases a.len(),
{
    if a.len() > 0 && b.len() > 0 && a[0] == b[0] {
        text_rank_is_antisymmetric(a.drop_first(), b.drop_first());
        assert(a =~= seq![a[0]] + a.drop_first());
        assert(b =~= seq![b[0]] + b.drop_first());
    } else if a.len() == 0 && b.len() == 0 {
        assert(a =~= b);
    }
}

/// The order of texts is transitive.
pub proof fn text_rank_is_transitive(a: Seq<char>, b: Seq<char>, c: Seq<char>)
    requires
        text_rank(a, b) != Rank::After,
        text_rank(b, c) != Rank::After,
    ensures
        text_rank(a, c) != Rank::After,
    decreases a.len(),
{
    if a.len() > 0 && b.len() > 0 && c.len() > 0 && a[0] == b[0] && b[0] == c[0] {
        text_rank_is_transitive(a.drop_first(), b.drop_first(), c.drop_first());
    }
}

/// The lexicographic order of runs of bytes.
pub open spec fn byte_rank(a: Seq<u8>, b: Seq<u8>) -> Rank
    decreases a.len(),
{
    if a.len() == 0 && b.len() == 0 {
        Rank::Same
    } else if a.len() == 0 {
        Rank::Before
    } else if b.len() == 0 {
        Rank::After
    } else if a[0] != b[0] {
        number_rank(a[0] as int, b[0] as int)
    } else {
        byte_rank(a.drop_first(), b.drop_first())
    }
}

/// Computes [`byte_rank`].
pub fn rank_bytes(a: &Vec<u8>, b: &Vec<u8>) -> (rank: Rank)
    ensures
        rank == byte_rank(a@, b@),
{
    let mut i: usize = 0;
    assert(a@.skip(0) =~= a@);
    assert(b@.skip(0) =~= b@);
    while i < a.len() && i < b.len()
        invariant
            i <= a@.len(),
            i <= b@.len(),
            byte_rank(a@, b@) == byte_rank(a@.skip(i as int), b@.skip(i as int)),
        decreases a@.len() - i,
    {
        if a[i] != b[i] {
            return if a[i] < b[i] { Rank::Before } else { Rank::After };
        }
        assert(a@.skip(i as int).drop_first() =~= a@.skip(i + 1));
        assert(b@.skip(i as int).drop_first() =~= b@.skip(i + 1));
        i = i + 1;
    }
    if i < b.len() {
        Rank::Before
    } else if i < a.len() {
        Rank::After
    } else {
        Rank::Same
    }
}

/// Two runs of bytes rank the same only when they are equal, and exchanging
/// them flips their rank.
pub proof fn byte_rank_is_antisymmetric(a: Seq<u8>, b: Seq<u8>)
    ensures
        byte_rank(a, b) == Rank::Same <==> a == b,
        byte_rank(b, a) == byte_rank(a, b).flipped(),
    decreases a.len(),
{
    if a.len() > 0 && b.len() > 0 && a[0] == b[0] {
        byte_rank_is_antisymmetric(a.drop_first(), b.drop_first());
        assert(a =~= seq![a[0]] + a.drop_first());
        assert(b =~= seq![b[0]] + b.drop_first());
    } else if a.len() == 0 && b.len() == 0 {
        assert(a =~= b);
    }
}

/// The order of runs of bytes is transitive.
pub proof fn byte_rank_is_transitive(a: Seq<u8>, b: Seq<u8>, c: Seq<u8>)
    requires
        byte_rank(a, b) != Rank::After,
        byte_rank(b, c) != Rank::After,
    ensures
        byte_rank(a, c) != Rank::After,
    decreases a.len(),
{
    if a.len() > 0 && b.len() > 0 && c.len() > 0 && a[0] == b[0] && b[0] == c[0] {
        byte_rank_is_transitive(a.drop_first(), b.drop_first(), c.drop_first());
    }
}

} // verus!
