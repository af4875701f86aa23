//! The textual format shared by both directions of the engine boundary:
//! grammars are handed to the engine as an array of strings, and results
//! come back as objects, both in the common bracketed notation with quoted,
//! escaped strings. This module fixes how a string is escaped and encoded;
//! the grammar encoder and the result decoder build on it.

use vstd::prelude::*;

use crate::text::push_char;

verus! {

/// The digit characters used in a two-digit hexadecimal escape, lower case.
pub open spec fn hex_digit(n: int) -> char {
    if n == 0 {
        '0'
    } else if n == 1 {
        '1'
    } else if n == 2 {
        '2'
    } else if n == 3 {
        '3'
    } else if n == 4 {
        '4'
    } else if n == 5 {
        '5'
    } else if n == 6 {
        '6'
    } else if n == 7 {
        '7'
    } else if n == 8 {
        '8'
    } else if n == 9 {
        '9'
    } else if n == 10 {
        'a'
    } else if n == 11 {
        'b'
    } else if n == 12 {
        'c'
    } else if n == 13 {
        'd'
    } else if n == 14 {
        'e'
    } else {
        'f'
    }
}

/// How one character appears inside an encoded string: the quote and the
/// backslash are escaped, control characters get their short escape or a
/// two-digit hexadecimal escape, and everything else stands as itself.
pub open spec fn escape_char(c: char) -> Seq<char> {
    if c == '"' {
        seq!['\\', '"']
    } else if c == '\\' {
        seq!['\\', '\\']
    } else if c == '\u{8}' {
        seq!['\\', 'b']
    } else if c == '\u{9}' {
        seq!['\\', 't']
    } else if c == '\u{a}' {
        seq!['\\', 'n']
    } else if c == '\u{c}' {
        seq!['\\', 'f']
    } else if c == '\u{d}' {
        seq!['\\', 'r']
    } else if (c as u32) < 0x20 {
        seq!['\\', 'u', '0', '0', hex_digit(((c as u32) / 16) as int), hex_digit(((c as u32) % 16) as int)]
    } else {
        seq![c]
    }
}

/// A whole text, escaped character by character.
pub open spec fn escape_text(s: Seq<char>) -> Seq<char>
    decreases s.len(),
{
    if s.len() == 0 {
        Seq::empty()
    } else {
        escape_text(s.drop_last()) + escape_char(s.last())
    }
}

/// An encoded string: the escaped text between quotes.
pub open spec fn json_string(s: Seq<char>) -> Seq<char> {
    seq!['"'] + escape_text(s) + seq!['"']
}

/// The encoded strings joined by commas, as they stand inside an array.
pub open spec fn comma_joined_strings(elems: Seq<Seq<char>>) -> Seq<char>
    decreases elems.len(),
{
    if elems.len() == 0 {
        Seq::empty()
    } else if elems.len() == 1 {
        json_string(elems[0])
    } else {
        json_string(elems[0]) + seq![','] + comma_joined_strings(elems.drop_first())
    }
}

/// An encoded array of strings.
pub open spec fn json_string_array(elems: Seq<Seq<char>>) -> Seq<char> {
    seq!['['] + comma_joined_strings(elems) + seq![']']
}

/// The texts of a list of owned strings.
pub open spec fn string_views(elems: Seq<String>) -> Seq<Seq<char>> {
    elems.map_values(|e: String| e@)
}

/// Escaping a text one character longer appends that character's escape.
pub proof fn lemma_escape_text_push(s: Seq<char>, c: char)
    ensures
        escape_text(s.push(c)) == escape_text(s) + escape_char(c),
{
    assert(s.push(c).drop_last() =~= s);
    assert(s.push(c).last() == c);
}

/// An escaped text starts with its first character's escape.
pub proof fn lemma_escape_text_first(s: Seq<char>)
    requires
        s.len() > 0,
    ensures
        escape_text(s) == escape_char(s[0]) + escape_text(s.drop_first()),
    decreases s.len(),
{
    if s.len() == 1 {
        assert(s.drop_last() =~= Seq::<char>::empty());
        assert(s.drop_first() =~= Seq::<char>::empty());
        assert(s.last() == s[0]);
        assert(escape_text(s) =~= escape_char(s[0]) + escape_text(s.drop_first()));
    } else {
        lemma_escape_text_first(s.drop_last());
        assert(s.drop_last()[0] == s[0]);
        assert(s.drop_last().drop_first() =~= s.drop_first().drop_last());
        assert(s.drop_first().last() == s.last());
        assert(s.drop_first().len() > 0);
        assert(escape_text(s.drop_first()) == escape_text(s.drop_first().drop_last())
            + escape_char(s.drop_first().last()));
        assert(escape_text(s) =~= escape_char(s[0]) + escape_text(s.drop_first()));
    }
}

/// No character of an escape is the null character.
proof fn lemma_escape_char_has_no_nul(c: char)
    ensures
        forall|i: int| 0 <= i < escape_char(c).len() ==> #[trigger] escape_char(c)[i] != '\0',
{
    let e = escape_char(c);
    if c == '"' || c == '\\' || c == '\u{8}' || c == '\u{9}' || c == '\u{a}' || c == '\u{c}' || c
        == '\u{d}' {
        assert(e[0] == '\\' && e[1] != '\0');
    } else if (c as u32) < 0x20 {
        assert(e[0] == '\\' && e[1] == 'u' && e[2] == '0' && e[3] == '0');
        assert(e[4] == hex_digit(((c as u32) / 16) as int) && e[4] != '\0');
        assert(e[5] == hex_digit(((c as u32) % 16) as int) && e[5] != '\0');
    } else {
        assert(e[0] == c && (c as u32) >= 0x20);
        assert(('\0' as u32) < 0x20);
    }
}

/// No escape produces the null character, and no passed-through character is
/// the null character, so an encoded string never contains one. The engine
/// takes grammars as null-terminated byte strings, so this is what lets an
/// encoded grammar cross that boundary unclipped.
pub proof fn lemma_escape_text_has_no_nul(s: Seq<char>)
    ensures
        forall|i: int| 0 <= i < escape_text(s).len() ==> #[trigger] escape_text(s)[i] != '\0',
    decreases s.len(),
{
    if s.len() > 0 {
        lemma_escape_text_has_no_nul(s.drop_last());
        lemma_escape_char_has_no_nul(s.last());
        let a = escape_text(s.drop_last());
        let b = escape_char(s.last());
        assert(escape_text(s) == a + b);
        assert forall|i: int| 0 <= i < escape_text(s).len() implies #[trigger] escape_text(s)[i]
            != '\0' by {
            if i < a.len() {
                assert(escape_text(s)[i] == a[i]);
            } else {
                assert(escape_text(s)[i] == b[i - a.len()]);
            }
        }
    }
}

/// The character for one hexadecimal digit, matching `hex_digit`.
fn hex_digit_char(n: u8) -> (c: char)
    requires
        n < 16,
    ensures
        c == hex_digit(n as int),
{
    match n {
        0 => '0',
        1 => '1',
        2 => '2',
        3 => '3',
        4 => '4',
        5 => '5',
        6 => '6',
        7 => '7',
        8 => '8',
        9 => '9',
        10 => 'a',
        11 => 'b',
        12 => 'c',
        13 => 'd',
        14 => 'e',
        _ => 'f',
    }
}

/// Appends the escaped form of one character.
fn push_escaped_char(out: &mut String, c: char)
    ensures
        final(out)@ == old(out)@ + escape_char(c),
{
    if c == '"' {
        push_char(out, '\\');
        push_char(out, '"');
    } else if c == '\\' {
        push_char(out, '\\');
        push_char(out, '\\');
    } else if c == '\u{8}' {
        push_char(out, '\\');
        push_char(out, 'b');
    } else if c == '\u{9}' {
        push_char(out, '\\');
        push_char(out, 't');
    } else if c == '\u{a}' {
        push_char(out, '\\');
        push_char(out, 'n');
    } else if c == '\u{c}' {
        push_char(out, '\\');
        push_char(out, 'f');
    } else if c == '\u{d}' {
        push_char(out, '\\');
        push_char(out, 'r');
    } else if (c as u32) < 0x20 {
        push_char(out, '\\');
        push_char(out, 'u');
        push_char(out, '0');
        push_char(out, '0');
        let code = c as u32;
        push_char(out, hex_digit_char((code / 16) as u8));
        push_char(out, hex_digit_char((code % 16) as u8));
    } else {
        push_char(out, c);
    }
    proof {
        assert(final(out)@ =~= old(out)@ + escape_char(c));
    }
}

/// Appends the encoded form of a string: quote, escaped text, quote.
pub(crate) fn push_json_string(out: &mut String, s: &str)
    ensures
        final(out)@ == old(out)@ + json_string(s@),
{
    let ghost start = out@;
    push_char(out, '"');
    let n = s.unicode_len();
    let mut i: usize = 0;
    while i < n
        invariant
            i <= n,
            n == s@.len(),
            out@ == start + seq!['"'] + escape_text(s@.take(i as int)),
        decreases n - i,
    {
        let c = s.get_char(i);
        push_escaped_char(out, c);
        proof {
            lemma_escape_text_push(s@.take(i as int), c);
            assert(s@.take(i as int + 1) =~= s@.take(i as int).push(c));
        }
        i = i + 1;
    }
    push_char(out, '"');
    proof {
        assert(s@.take(n as int) =~= s@);
        assert(final(out)@ =~= old(out)@ + json_string(s@));
    }
}

/// Encodes a list of strings as an array: the encoded strings between
/// brackets, separated by commas.
pub fn encode_string_array(elems: &Vec<String>) -> (r: String)
    ensures
        r@ == json_string_array(string_views(elems@)),
{
    let ghost views = string_views(elems@);
    let mut out = String::new();
    push_char(&mut out, '[');
    let mut k: usize = 0;
    while k < elems.len()
        invariant
            k <= elems.len(),
            views == string_views(elems@),
            views.len() == elems@.len(),
            out@ == seq!['['] + comma_joined_strings(views.take(k as int)),
        decreases elems.len() - k,
    {
        if k > 0 {
            push_char(&mut out, ',');
        }
        push_json_string(&mut out, elems[k].as_str());
        proof {
            lemma_comma_joined_push(views.take(k as int), views[k as int]);
            assert(views.take(k as int + 1) =~= views.take(k as int).push(views[k as int]));
            assert(views[k as int] == elems@[k as int]@);
        }
        k = k + 1;
    }
    push_char(&mut out, ']');
    proof {
        assert(views.take(elems@.len() as int) =~= views);
        assert(out@ =~= json_string_array(views));
    }
    out
}

/// Joining one more string appends a comma (between elements) and its
/// encoded form.
proof fn lemma_comma_joined_push(elems: Seq<Seq<char>>, e: Seq<char>)
    ensures
        comma_joined_strings(elems.push(e)) == if elems.len() == 0 {
            json_string(e)
        } else {
            comma_joined_strings(elems) + seq![','] + json_string(e)
        },
    decreases elems.len(),
{
    if elems.len() == 0 {
        assert(elems.push(e)[0] == e);
        assert(comma_joined_strings(elems.push(e)) == json_string(e));
    } else if elems.len() == 1 {
        assert(elems.push(e).drop_first() =~= seq![e]);
        assert(comma_joined_strings(seq![e]) == json_string(e));
        assert(comma_joined_strings(elems.push(e)) =~= comma_joined_strings(elems) + seq![',']
            + json_string(e));
    } else {
        assert(elems.push(e).drop_first() =~= elems.drop_first().push(e));
        lemma_comma_joined_push(elems.drop_first(), e);
        assert(comma_joined_strings(elems.push(e)) =~= comma_joined_strings(elems) + seq![',']
            + json_string(e));
    }
}

} // verus!
