//! Bare tokens in JSON documents.

use vstd::prelude::*;

use crate::lenient::{self, Scan};

verus! {

/// The tokens that Python writes and JSON refuses.
pub open spec fn is_token(text: Seq<char>) -> bool {
    text == seq!['N', 'a', 'N'] || text == seq!['I', 'n', 'f', 'i', 'n', 'i', 't', 'y'] || text
        == seq!['-', 'I', 'n', 'f', 'i', 'n', 'i', 't', 'y']
}

/// Whether a value may start: outside of a literal, at the start of the document
/// or behind a colon, a comma or an opening bracket.
pub open spec fn may_start(scan: Scan) -> bool {
    !scan.in_string && (scan.last == ':' || scan.last == ',' || scan.last == '[' || scan.last
        == '\0')
}

/// Whether a text starts with a token.
pub open spec fn starts_with_token(text: Seq<char>) -> bool {
    exists|token: Seq<char>| is_token(token) && #[trigger] token.is_prefix_of(text)
}

proof fn spelling()
    ensures
        "NaN"@ == seq!['N', 'a', 'N'],
        "Infinity"@ == seq!['I', 'n', 'f', 'i', 'n', 'i', 't', 'y'],
        "-Infinity"@ == seq!['-', 'I', 'n', 'f', 'i', 'n', 'i', 't', 'y'],
        "null"@ == seq!['n', 'u', 'l', 'l'],
{
    reveal_strlit("-Infinity");
    reveal_strlit("Infinity");
    reveal_strlit("NaN");
    reveal_strlit("null");
    assert("null"@ =~= seq!['n', 'u', 'l', 'l']);
    assert("-Infinity"@ =~= seq!['-', 'I', 'n', 'f', 'i', 'n', 'i', 't', 'y']);
    assert("Infinity"@ =~= seq!['I', 'n', 'f', 'i', 'n', 'i', 't', 'y']);
    assert("NaN"@ =~= seq!['N', 'a', 'N']);
}

proof fn the_token_is_measured(token: Seq<char>, rest: Seq<char>)
    requires
        is_token(token),
    ensures
        lenient::token_at(token + rest) == token.len(),
        token.len() > 0,
{
    spelling();
    let all = token + rest;
    assert(all.take(token.len() as int) =~= token);
    assert(token.is_prefix_of(all));
    assert(all[0] == token[0]);
    if token == "NaN"@ {
        assert(!"-Infinity"@.is_prefix_of(all)) by {
            assert("-Infinity"@[0] != all[0]);
        }
        assert(!"Infinity"@.is_prefix_of(all)) by {
            assert("Infinity"@[0] != all[0]);
        }
    } else if token == "Infinity"@ {
        assert(!"-Infinity"@.is_prefix_of(all)) by {
            assert("-Infinity"@[0] != all[0]);
        }
    }
}

/// Each of the three tokens becomes `null` where a value may start, and what
/// follows it is read as it is behind any value.
pub proof fn a_bare_token_becomes_null(token: Seq<char>, rest: Seq<char>, scan: Scan)
    requires
        is_token(token),
        may_start(scan),
    ensures
        lenient::scrubbed(token + rest, scan) == seq!['n', 'u', 'l', 'l'] + lenient::scrubbed(
            rest,
            Scan { in_string: false, escaped: scan.escaped, last: 'l' },
        ),
        lenient::has_token(token + rest, scan),
{
    spelling();
    the_token_is_measured(token, rest);
    assert((token + rest).skip(token.len() as int) =~= rest);
}

/// A character stays where no value may start, as inside of a literal, and where
/// no token stands.
pub proof fn everything_else_is_kept(c: char, rest: Seq<char>, scan: Scan)
    requires
        !may_start(scan) || !starts_with_token(seq![c] + rest),
    ensures
        lenient::scrubbed(seq![c] + rest, scan) == seq![c] + lenient::scrubbed(
            rest,
            scan.after(c),
        ),
        lenient::has_token(seq![c] + rest, scan) == lenient::has_token(rest, scan.after(c)),
        lenient::scrubbed(Seq::empty(), scan) == Seq::<char>::empty(),
        !lenient::has_token(Seq::empty(), scan),
{
    let all = seq![c] + rest;
    spelling();
    if may_start(scan) {
        assert(is_token("NaN"@) && is_token("Infinity"@) && is_token("-Infinity"@));
        assert(lenient::token_at(all) == 0);
    }
    assert(all.skip(1) =~= rest);
}

/// How a character is read: a quote opens a literal and closes it, unless a
/// backslash stands before it inside; outside of literals, what is no white space
/// is remembered.
pub proof fn how_a_character_is_read(scan: Scan, c: char)
    ensures
        ({
            let next = scan.after(c);
            let white = c == ' ' || c == '\t' || c == '\n' || c == '\r' || c as int == 12;
            &&& !scan.in_string && c == '"' ==> next.in_string && next.last == '"'
            &&& !scan.in_string && c != '"' ==> !next.in_string
            &&& !scan.in_string && c != '"' && white ==> next == scan
            &&& !scan.in_string && c != '"' && !white ==> next.last == c
            &&& !scan.in_string ==> next.escaped == scan.escaped
            &&& scan.in_string && scan.escaped ==> next.in_string && !next.escaped
            &&& scan.in_string && !scan.escaped && c == '\\' ==> next.in_string && next.escaped
            &&& scan.in_string && !scan.escaped && c == '"' ==> !next.in_string && !next.escaped
            &&& scan.in_string && !scan.escaped && c != '\\' && c != '"' ==> next == scan
            &&& scan.in_string ==> next.last == scan.last
        }),
{
}

proof fn a_token_changes_the_text(text: Seq<char>, scan: Scan)
    requires
        lenient::has_token(text, scan),
    ensures
        lenient::scrubbed(text, scan) != text,
    decreases text.len(),
{
    spelling();
    let out = lenient::scrubbed(text, scan);
    if scan.at_value() && lenient::token_at(text) > 0 && lenient::token_at(text) <= text.len() {
        assert(out[0] == 'n');
        if "-Infinity"@.is_prefix_of(text) {
            assert("-Infinity"@[0] == text[0]);
        } else if "Infinity"@.is_prefix_of(text) {
            assert("Infinity"@[0] == text[0]);
        } else {
            assert("NaN"@[0] == text[0]);
        }
    } else {
        a_token_changes_the_text(text.skip(1), scan.after(text[0]));
        if out == text {
            assert(lenient::scrubbed(text.skip(1), scan.after(text[0])) =~= out.skip(1));
        }
    }
}

/// A document is taken over with its tokens replaced where that changes it, and
/// is left alone where it changes nothing.
pub proof fn a_document_without_tokens_is_left_alone(text: Seq<char>)
    ensures
        ({
            let start = Scan { in_string: false, escaped: false, last: '\0' };
            let out = lenient::scrubbed(text, start);
            &&& out != text ==> lenient::sanitized(text) == Some(out)
            &&& out == text ==> lenient::sanitized(text) is None
        }),
{
    let start = lenient::scan_start();
    if lenient::has_token(text, start) {
        a_token_changes_the_text(text, start);
    } else {
        lenient::without_tokens_nothing_changes(text, start);
    }
}

} // verus!
