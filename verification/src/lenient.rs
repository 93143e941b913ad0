//! JSON with bare `NaN`, `Infinity` and `-Infinity`, as Python's `json.dumps`
//! writes it and strict JSON refuses it. Each such token becomes `null`.

use vstd::prelude::*;

use crate::text::{self, characters};

verus! {

/// Where the scan of a document stands.
#[derive(Clone, Copy, PartialEq, Eq, Structural)]
pub struct Scan {
    /// Inside a string literal.
    pub in_string: bool,
    /// Inside a string literal, right behind a backslash.
    pub escaped: bool,
    /// The last character outside of string literals that is no white space,
    /// NUL at the start of the document.
    pub last: char,
}

/// The scan before the first character.
pub open spec fn scan_start() -> Scan {
    Scan { in_string: false, escaped: false, last: '\0' }
}

/// The white space of the ASCII range.
pub open spec fn ascii_white(c: char) -> bool {
    c == ' ' || c == '\t' || c == '\n' || c == '\r' || c as u32 == 12
}

impl Scan {
    /// Whether a value may start here: after a key's colon, an array's comma or
    /// bracket, or at the start of the document.
    pub open spec fn at_value(self) -> bool {
        !self.in_string && (self.last == ':' || self.last == ',' || self.last == '[' || self.last
            == '\0')
    }

    /// The scan behind one character that is kept.
    pub open spec fn after(self, c: char) -> Scan {
        if self.in_string {
            if self.escaped {
                Scan { escaped: false, ..self }
            } else if c == '\\' {
                Scan { escaped: true, ..self }
            } else if c == '"' {
                Scan { in_string: false, ..self }
            } else {
                self
            }
        } else if c == '"' {
            Scan { in_string: true, last: '"', ..self }
        } else if ascii_white(c) {
            self
        } else {
            Scan { last: c, ..self }
        }
    }

    /// The scan behind a token that was replaced.
    pub open spec fn after_null(self) -> Scan {
        Scan { last: 'l', ..self }
    }
}

/// The token that a text starts with, as a number of characters: 9 for
/// `-Infinity`, 8 for `Infinity`, 3 for `NaN`, and 0 for anything else.
pub open spec fn token_at(text: Seq<char>) -> int {
    if "-Infinity"@.is_prefix_of(text) {
        9
    } else if "Infinity"@.is_prefix_of(text) {
        8
    } else if "NaN"@.is_prefix_of(text) {
        3
    } else {
        0
    }
}

proof fn token_lengths()
    ensures
        "-Infinity"@.len() == 9,
        "Infinity"@.len() == 8,
        "NaN"@.len() == 3,
        "null"@ == seq!['n', 'u', 'l', 'l'],
        "-Infinity"@ == seq!['-', 'I', 'n', 'f', 'i', 'n', 'i', 't', 'y'],
        "Infinity"@ == seq!['I', 'n', 'f', 'i', 'n', 'i', 't', 'y'],
        "NaN"@ == seq!['N', 'a', 'N'],
{
    reveal_strlit("-Infinity");
    reveal_strlit("Infinity");
    reveal_strlit("NaN");
    reveal_strlit("null");
    assert("null"@ =~= seq!['n', 'u', 'l', 'l']);
    assert("-Infinity"@ =~= seq!['-', 'I', 'n', 'f', 'i', 'n', 'i', 't', 'y']);
    assert("Infinity"@ =~= seq!['I', 'n', 'f', 'i', 'n', 'i', 't', 'y']);
    assert("NaN"@ =~= seq!['N', 'a', 'N']);
}

/// A text with every bare token replaced by `null`, scanned on from `scan`.
pub open spec fn scrubbed(text: Seq<char>, scan: Scan) -> Seq<char>
    decreases text.len(),
{
    if text.len() == 0 {
        Seq::empty()
    } else if scan.at_value() && token_at(text) > 0 && token_at(text) <= text.len() {
        "null"@ + scrubbed(text.skip(token_at(text)), scan.after_null())
    } else {
        seq![text[0]] + scrubbed(text.skip(1), scan.after(text[0]))
    }
}

/// Whether a text holds a bare token, scanned on from `scan`.
pub open spec fn has_token(text: Seq<char>, scan: Scan) -> bool
    decreases text.len(),
{
    if text.len() == 0 {
        false
    } else if scan.at_value() && token_at(text) > 0 && token_at(text) <= text.len() {
        true
    } else {
        has_token(text.skip(1), scan.after(text[0]))
    }
}

fn matches_at(chars: &Vec<char>, at: usize, wanted: &str) -> (yes: bool)
    requires
        at <= chars@.len(),
    ensures
        yes == wanted@.is_prefix_of(chars@.skip(at as int)),
{
    let token = characters(wanted);
    if token.len() > chars.len() - at {
        return false;
    }
    for i in 0..token.len()
        invariant
            token@ == wanted@,
            token@.len() <= chars.len() - at,
            forall|j: int| 0 <= j < i ==> token@[j] == #[trigger] chars@.skip(at as int)[j],
    {
        if token[i] != chars[at + i] {
            assert(chars@.skip(at as int)[i as int] == chars@[at + i]);
            assert(!wanted@.is_prefix_of(chars@.skip(at as int))) by {
                if wanted@.is_prefix_of(chars@.skip(at as int)) {
                    assert(wanted@[i as int] == chars@.skip(at as int).take(
                        wanted@.len() as int,
                    )[i as int]);
                }
            }
            return false;
        }
    }
    assert(chars@.skip(at as int).take(wanted@.len() as int) =~= wanted@);
    true
}

fn token_len(chars: &Vec<char>, at: usize) -> (len: usize)
    requires
        at <= chars@.len(),
    ensures
        len == token_at(chars@.skip(at as int)),
        len <= chars@.len() - at,
{
    proof {
        token_lengths();
    }
    if matches_at(chars, at, "-Infinity") {
        9
    } else if matches_at(chars, at, "Infinity") {
        8
    } else if matches_at(chars, at, "NaN") {
        3
    } else {
        0
    }
}

fn is_ascii_white(c: char) -> (yes: bool)
    ensures
        yes == ascii_white(c),
{
    c == ' ' || c == '\t' || c == '\n' || c == '\r' || c as u32 == 12
}

impl Scan {
    fn value_starts(self) -> (yes: bool)
        ensures
            yes == self.at_value(),
    {
        !self.in_string && (self.last == ':' || self.last == ',' || self.last == '[' || self.last
            == '\0')
    }

    fn step(self, c: char) -> (next: Scan)
        ensures
            next == self.after(c),
    {
        if self.in_string {
            if self.escaped {
                Scan { in_string: true, escaped: false, last: self.last }
            } else if c == '\\' {
                Scan { in_string: true, escaped: true, last: self.last }
            } else if c == '"' {
                Scan { in_string: false, escaped: false, last: self.last }
            } else {
                self
            }
        } else if c == '"' {
            Scan { in_string: true, escaped: self.escaped, last: '"' }
        } else if is_ascii_white(c) {
            self
        } else {
            Scan { in_string: false, escaped: self.escaped, last: c }
        }
    }
}

/// A document with its bare tokens replaced, where it holds any.
pub open spec fn sanitized(text: Seq<char>) -> Option<Seq<char>> {
    if has_token(text, scan_start()) {
        Some(scrubbed(text, scan_start()))
    } else {
        None
    }
}

/// Replaces bare `NaN`, `Infinity` and `-Infinity` by `null`, leaving string
/// literals alone. Nothing when there was nothing to replace.
pub fn replace_nonfinite_tokens(text: &str) -> (out: Option<String>)
    ensures
        text::text_option(out) == sanitized(text@),
{
    let chars = characters(text);
    let mut out = String::new();
    let mut replaced = false;
    let mut scan = Scan { in_string: false, escaped: false, last: '\0' };
    let mut at: usize = 0;
    assert(chars@.skip(0) =~= chars@);
    while at < chars.len()
        invariant
            chars@ == text@,
            at <= chars@.len(),
            out@ + scrubbed(chars@.skip(at as int), scan) == scrubbed(text@, scan_start()),
            has_token(text@, scan_start()) == (replaced || has_token(
                chars@.skip(at as int),
                scan,
            )),
        decreases chars@.len() - at,
    {
        let ghost rest = chars@.skip(at as int);
        let ghost before = out@;
        if scan.value_starts() {
            let len = token_len(&chars, at);
            if len > 0 {
                out.append("null");
                replaced = true;
                assert(rest.skip(len as int) =~= chars@.skip(at + len));
                assert(before + ("null"@ + scrubbed(rest.skip(len as int), scan.after_null()))
                    =~= out@ + scrubbed(rest.skip(len as int), scan.after_null()));
                at = at + len;
                scan = Scan { in_string: false, escaped: scan.escaped, last: 'l' };
                continue ;
            }
        }
        let c = chars[at];
        out.push(c);
        assert(rest.skip(1) =~= chars@.skip(at + 1));
        assert(before + (seq![c] + scrubbed(rest.skip(1), scan.after(c))) =~= out@ + scrubbed(
            rest.skip(1),
            scan.after(c),
        ));
        scan = scan.step(c);
        at = at + 1;
    }
    assert(out@ + Seq::<char>::empty() =~= out@);
    if replaced {
        Some(out)
    } else {
        None
    }
}

// ---------------------------------------------------------------------------
// Laws
// ---------------------------------------------------------------------------

/// A text without bare tokens stays as it is.
pub proof fn without_tokens_nothing_changes(text: Seq<char>, scan: Scan)
    requires
        !has_token(text, scan),
    ensures
        scrubbed(text, scan) == text,
    decreases text.len(),
{
    if text.len() > 0 {
        without_tokens_nothing_changes(text.skip(1), scan.after(text[0]));
        assert(seq![text[0]] + text.skip(1) =~= text);
    }
}

/// The scan behind all characters of a text that are kept.
pub open spec fn scan_over(text: Seq<char>, scan: Scan) -> Scan
    decreases text.len(),
{
    if text.len() == 0 {
        scan
    } else {
        scan_over(text.skip(1), scan.after(text[0]))
    }
}

/// Whether a string literal, open at `scan`, is still open behind every
/// character of `body` but perhaps the last.
pub open spec fn inside_literal(body: Seq<char>, scan: Scan) -> bool
    decreases body.len(),
{
    body.len() == 0 || (scan.in_string && inside_literal(body.skip(1), scan.after(body[0])))
}

/// What stands inside a string literal is kept, whatever it looks like.
pub proof fn string_literals_are_kept(body: Seq<char>, rest: Seq<char>, scan: Scan)
    requires
        inside_literal(body, scan),
    ensures
        scrubbed(body + rest, scan) == body + scrubbed(rest, scan_over(body, scan)),
        has_token(body + rest, scan) == has_token(rest, scan_over(body, scan)),
    decreases body.len(),
{
    let all = body + rest;
    if body.len() == 0 {
        assert(all =~= rest);
        assert(body + scrubbed(rest, scan) =~= scrubbed(rest, scan));
    } else {
        let inner = body.skip(1);
        let next = scan.after(body[0]);
        string_literals_are_kept(inner, rest, next);
        assert(all.skip(1) =~= inner + rest);
        assert(seq![body[0]] + (inner + scrubbed(rest, scan_over(inner, next))) =~= body
            + scrubbed(rest, scan_over(inner, next)));
    }
}

/// Whether every character is one that tokens are made of.
spec fn token_letters(text: Seq<char>) -> bool {
    forall|i: int|
        0 <= i < text.len() ==> ((#[trigger] text[i]) == '-' || text[i] == 'I' || text[i] == 'n'
            || text[i] == 'f' || text[i] == 'i' || text[i] == 't' || text[i] == 'y' || text[i]
            == 'N' || text[i] == 'a')
}

/// Behind a letter no value starts, so letters there come from the text itself.
proof fn letters_come_from_the_text(text: Seq<char>, scan: Scan, run: Seq<char>)
    requires
        !scan.in_string,
        !scan.at_value(),
        token_letters(run),
        run.is_prefix_of(scrubbed(text, scan)),
    ensures
        run.is_prefix_of(text),
    decreases text.len(),
{
    if run.len() > 0 {
        let out = scrubbed(text, scan);
        assert(text.len() > 0);
        assert(run[0] == out[0]);
        assert(out[0] == text[0]);
        let next = scan.after(text[0]);
        assert(out.skip(1) =~= scrubbed(text.skip(1), next));
        assert(run.skip(1).is_prefix_of(out.skip(1)));
        assert(token_letters(run.skip(1))) by {
            assert forall|i: int| 0 <= i < run.skip(1).len() implies run.skip(1)[i] == run[i
                + 1] by {}
        }
        letters_come_from_the_text(text.skip(1), next, run.skip(1));
        assert(run =~= seq![run[0]] + run.skip(1));
        assert(run.is_prefix_of(text)) by {
            assert forall|i: int| 0 <= i < run.len() implies run[i] == text[i] by {
                if i > 0 {
                    assert(run[i] == run.skip(1)[i - 1]);
                    assert(text[i] == text.skip(1)[i - 1]);
                }
            }
        }
    }
}

/// A token at the head of what a kept first character leads to was there before.
proof fn tokens_come_from_the_text(text: Seq<char>, scan: Scan)
    requires
        scan.at_value(),
        text.len() > 0,
        token_at(text) == 0,
    ensures
        token_at(scrubbed(text, scan)) == 0,
{
    token_lengths();
    let out = scrubbed(text, scan);
    let next = scan.after(text[0]);
    assert(out.skip(1) =~= scrubbed(text.skip(1), next));
    assert forall|token: Seq<char>|
        token.len() > 0 && token_letters(token) && #[trigger] token.is_prefix_of(
            out,
        ) implies token.is_prefix_of(text) by {
        assert(token[0] == out[0] && out[0] == text[0]);
        assert(token.skip(1).is_prefix_of(out.skip(1)));
        assert(token_letters(token.skip(1))) by {
            assert forall|i: int| 0 <= i < token.skip(1).len() implies token.skip(1)[i] == token[i
                + 1] by {}
        }
        letters_come_from_the_text(text.skip(1), next, token.skip(1));
        assert forall|i: int| 0 <= i < token.len() implies token[i] == text[i] by {
            if i > 0 {
                assert(token[i] == token.skip(1)[i - 1]);
                assert(text[i] == text.skip(1)[i - 1]);
            }
        }
    }
    assert(token_letters("-Infinity"@));
    assert(token_letters("Infinity"@));
    assert(token_letters("NaN"@));
}

/// Replacing is done once and for all: what comes out holds no bare token.
pub proof fn no_token_is_left(text: Seq<char>, scan: Scan)
    ensures
        !has_token(scrubbed(text, scan), scan),
    decreases text.len(),
{
    token_lengths();
    if text.len() > 0 {
        let out = scrubbed(text, scan);
        if scan.at_value() && token_at(text) > 0 && token_at(text) <= text.len() {
            let rest = scrubbed(text.skip(token_at(text)), scan.after_null());
            no_token_is_left(text.skip(token_at(text)), scan.after_null());
            assert(out == "null"@ + rest);
            assert(out[0] == 'n' && out[1] == 'u' && out[2] == 'l' && out[3] == 'l');
            assert(!"-Infinity"@.is_prefix_of(out)) by {
                assert("-Infinity"@[0] != out[0]);
            }
            assert(!"Infinity"@.is_prefix_of(out)) by {
                assert("Infinity"@[0] != out[0]);
            }
            assert(!"NaN"@.is_prefix_of(out)) by {
                assert("NaN"@[0] != out[0]);
            }
            let one = scan.after('n');
            let two = one.after('u');
            let three = two.after('l');
            let four = three.after('l');
            assert(four == scan.after_null());
            assert(out.skip(1)[0] == 'u');
            assert(out.skip(1).skip(1)[0] == 'l');
            assert(out.skip(1).skip(1).skip(1)[0] == 'l');
            assert(out.skip(1).skip(1).skip(1).skip(1) =~= rest);
            assert(!has_token(out.skip(1).skip(1).skip(1), three));
            assert(!has_token(out.skip(1).skip(1), two));
            assert(!has_token(out.skip(1), one));
        } else {
            let next = scan.after(text[0]);
            no_token_is_left(text.skip(1), next);
            assert(out[0] == text[0]);
            assert(out.skip(1) =~= scrubbed(text.skip(1), next));
            if scan.at_value() {
                tokens_come_from_the_text(text, scan);
            }
        }
    }
}

} // verus!
