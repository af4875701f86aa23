//! The result decoder: the engine hands recognition results back as text in
//! its bracketed result format, and this module turns that text into the
//! structured result shapes. A retrieval call's text is valid only until the
//! next call on the same decoder, so every shape owns its text outright.
//!
//! Three shapes exist: an in-progress hypothesis carries one `partial`
//! field; a finalized utterance carries a `text` field, preceded, when the
//! engine reported word detail, by a `result` field holding one entry per
//! word with its confidence and timing, in the order the engine prints them.
//! Text that follows none of the shapes is a recoverable error, never a
//! guess.

use vstd::prelude::*;

use crate::Error;
use crate::text::{char_from_code, push_char};

verus! {

/// An in-progress hypothesis: may be empty, may repeat across calls, never
/// carries word-level detail.
#[derive(Debug, Clone, PartialEq, Eq)]
pub struct RecognizedPartial {
    /// The hypothesis so far.
    pub partial: String,
}

/// One word of a finalized utterance, with its confidence and timing. The
/// three numeric fields hold the decimal numeral exactly as the engine
/// printed it.
#[derive(Debug, Clone, PartialEq, Eq)]
pub struct RecognizedWord {
    /// The word itself.
    pub word: String,
    /// Confidence, at most one.
    pub conf: String,
    /// Start time of the word in seconds.
    pub start: String,
    /// End time of the word in seconds.
    pub end: String,
}

/// A finalized utterance: its text, and per-word detail when the engine
/// reported any.
#[derive(Debug, Clone, PartialEq, Eq)]
pub struct RecognizedText {
    /// The full text; empty when no transcribable speech was found.
    pub text: String,
    /// More about each word, absent when the engine reported none.
    pub result: Option<Vec<RecognizedWord>>,
}

/// The mathematical shape of an in-progress hypothesis.
pub struct PartialValue {
    pub partial: Seq<char>,
}

/// The mathematical shape of one finalized word.
pub struct WordValue {
    pub word: Seq<char>,
    pub conf: Seq<char>,
    pub start: Seq<char>,
    pub end: Seq<char>,
}

/// The mathematical shape of a finalized utterance.
pub struct FinalValue {
    pub text: Seq<char>,
    pub words: Option<Seq<WordValue>>,
}

/// The shapes of a list of parsed words.
pub open spec fn word_views(words: Seq<RecognizedWord>) -> Seq<WordValue> {
    words.map_values(|w: RecognizedWord| w@)
}

impl View for RecognizedPartial {
    type V = PartialValue;

    open spec fn view(&self) -> PartialValue {
        PartialValue { partial: self.partial@ }
    }
}

impl View for RecognizedWord {
    type V = WordValue;

    open spec fn view(&self) -> WordValue {
        WordValue { word: self.word@, conf: self.conf@, start: self.start@, end: self.end@ }
    }
}

impl View for RecognizedText {
    type V = FinalValue;

    open spec fn view(&self) -> FinalValue {
        FinalValue {
            text: self.text@,
            words: match self.result {
                Some(words) => Some(word_views(words@)),
                None => None,
            },
        }
    }
}

/// The whitespace the result format allows between its tokens.
pub open spec fn is_result_ws(c: char) -> bool {
    c == ' ' || c == '\u{9}' || c == '\u{a}' || c == '\u{d}'
}

/// The position of the next non-whitespace character at or after `i`.
pub open spec fn skip_ws(s: Seq<char>, i: int) -> int
    decreases s.len() - i,
{
    if 0 <= i < s.len() && is_result_ws(s[i]) {
        skip_ws(s, i + 1)
    } else {
        i
    }
}

/// Whether the text carries exactly the given characters at position `i`.
pub open spec fn match_at(s: Seq<char>, i: int, pat: Seq<char>) -> bool {
    0 <= i && i + pat.len() <= s.len() && s.subrange(i, i + pat.len()) == pat
}

/// The position after the given characters, when they stand at `i`.
pub open spec fn after_lit(s: Seq<char>, i: int, pat: Seq<char>) -> Option<int> {
    if match_at(s, i, pat) {
        Some(i + pat.len())
    } else {
        None
    }
}

/// The field name of an in-progress hypothesis, quotes included.
pub open spec fn key_partial() -> Seq<char> {
    seq!['"', 'p', 'a', 'r', 't', 'i', 'a', 'l', '"']
}

/// The field name of a finalized utterance's text, quotes included.
pub open spec fn key_text() -> Seq<char> {
    seq!['"', 't', 'e', 'x', 't', '"']
}

/// The field name of the word-detail list, quotes included.
pub open spec fn key_result() -> Seq<char> {
    seq!['"', 'r', 'e', 's', 'u', 'l', 't', '"']
}

/// The field name of a word's confidence, quotes included.
pub open spec fn key_conf() -> Seq<char> {
    seq!['"', 'c', 'o', 'n', 'f', '"']
}

/// The field name of a word's end time, quotes included.
pub open spec fn key_end() -> Seq<char> {
    seq!['"', 'e', 'n', 'd', '"']
}

/// The field name of a word's start time, quotes included.
pub open spec fn key_start() -> Seq<char> {
    seq!['"', 's', 't', 'a', 'r', 't', '"']
}

/// The field name of a word's text, quotes included.
pub open spec fn key_word() -> Seq<char> {
    seq!['"', 'w', 'o', 'r', 'd', '"']
}

/// The value of one hexadecimal digit; sixteen for anything that is none.
pub open spec fn hex_val(c: char) -> int {
    if c == '0' {
        0
    } else if c == '1' {
        1
    } else if c == '2' {
        2
    } else if c == '3' {
        3
    } else if c == '4' {
        4
    } else if c == '5' {
        5
    } else if c == '6' {
        6
    } else if c == '7' {
        7
    } else if c == '8' {
        8
    } else if c == '9' {
        9
    } else if c == 'a' || c == 'A' {
        10
    } else if c == 'b' || c == 'B' {
        11
    } else if c == 'c' || c == 'C' {
        12
    } else if c == 'd' || c == 'D' {
        13
    } else if c == 'e' || c == 'E' {
        14
    } else if c == 'f' || c == 'F' {
        15
    } else {
        16
    }
}

/// A decimal digit.
pub open spec fn is_digit(c: char) -> bool {
    ('0' as u32) <= (c as u32) && (c as u32) <= ('9' as u32)
}

/// The position of the next non-digit character at or after `i`.
pub open spec fn digits_end(s: Seq<char>, i: int) -> int
    decreases s.len() - i,
{
    if 0 <= i < s.len() && is_digit(s[i]) {
        digits_end(s, i + 1)
    } else {
        i
    }
}

/// The decoded characters of a quoted string, read from position `i` (just
/// past the opening quote) to its closing quote, with the position after
/// that quote. Escapes are decoded; a bare control character, a bad escape,
/// or a missing closing quote is a failure.
pub open spec fn parse_string_body(s: Seq<char>, i: int) -> Option<(Seq<char>, int)>
    decreases s.len() - i,
{
    if !(0 <= i < s.len()) {
        None
    } else {
        let c = s[i];
        if c == '"' {
            Some((Seq::empty(), i + 1))
        } else if c == '\\' {
            if i + 1 >= s.len() {
                None
            } else {
                let e = s[i + 1];
                if e == '"' || e == '\\' || e == '/' {
                    with_first(e, parse_string_body(s, i + 2))
                } else if e == 'b' {
                    with_first('\u{8}', parse_string_body(s, i + 2))
                } else if e == 't' {
                    with_first('\u{9}', parse_string_body(s, i + 2))
                } else if e == 'n' {
                    with_first('\u{a}', parse_string_body(s, i + 2))
                } else if e == 'f' {
                    with_first('\u{c}', parse_string_body(s, i + 2))
                } else if e == 'r' {
                    with_first('\u{d}', parse_string_body(s, i + 2))
                } else if e == 'u' {
                    if i + 6 > s.len() {
                        None
                    } else if hex_val(s[i + 2]) == 16 || hex_val(s[i + 3]) == 16 || hex_val(
                        s[i + 4],
                    ) == 16 || hex_val(s[i + 5]) == 16 {
                        None
                    } else {
                        let h = (hex_val(s[i + 2]) * 4096 + hex_val(s[i + 3]) * 256 + hex_val(
                            s[i + 4],
                        ) * 16 + hex_val(s[i + 5])) as u32;
                        if 0xD800 <= h && h < 0xE000 {
                            None
                        } else {
                            with_first(h as char, parse_string_body(s, i + 6))
                        }
                    }
                } else {
                    None
                }
            }
        } else if (c as u32) < 0x20 {
            None
        } else {
            with_first(c, parse_string_body(s, i + 1))
        }
    }
}

/// The rest of a string with one more decoded character in front.
pub open spec fn with_first(c: char, rest: Option<(Seq<char>, int)>) -> Option<(Seq<char>, int)> {
    match rest {
        Some((v, j)) => Some((seq![c] + v, j)),
        None => None,
    }
}

/// A quoted string read from its opening quote at `i`: its decoded
/// characters and the position after the closing quote.
pub open spec fn parse_string(s: Seq<char>, i: int) -> Option<(Seq<char>, int)> {
    if 0 <= i < s.len() && s[i] == '"' {
        parse_string_body(s, i + 1)
    } else {
        None
    }
}

/// A decimal numeral read from position `i`: an optional minus sign, an
/// integer part without leading zeroes, an optional fraction, an optional
/// exponent. Yields the numeral exactly as written and the position after
/// it.
pub open spec fn parse_number(s: Seq<char>, i: int) -> Option<(Seq<char>, int)> {
    if !(0 <= i < s.len()) {
        None
    } else {
        let a = if s[i] == '-' {
            i + 1
        } else {
            i
        };
        if !(a < s.len() && is_digit(s[a])) {
            None
        } else {
            let b = if s[a] == '0' {
                a + 1
            } else {
                digits_end(s, a)
            };
            parse_number_from_fraction(s, i, b)
        }
    }
}

/// The rest of a numeral from its fraction part on; `start` is where the
/// numeral began, `b` where its integer part ended.
pub open spec fn parse_number_from_fraction(s: Seq<char>, start: int, b: int) -> Option<
    (Seq<char>, int),
> {
    if b < s.len() && s[b] == '.' {
        if b + 1 < s.len() && is_digit(s[b + 1]) {
            parse_number_from_exponent(s, start, digits_end(s, b + 1))
        } else {
            None
        }
    } else {
        parse_number_from_exponent(s, start, b)
    }
}

/// The rest of a numeral from its exponent part on; `c` is where its
/// fraction part ended.
pub open spec fn parse_number_from_exponent(s: Seq<char>, start: int, c: int) -> Option<
    (Seq<char>, int),
> {
    if c < s.len() && (s[c] == 'e' || s[c] == 'E') {
        let e0 = if c + 1 < s.len() && (s[c + 1] == '+' || s[c + 1] == '-') {
            c + 2
        } else {
            c + 1
        };
        if e0 < s.len() && is_digit(s[e0]) {
            Some((s.subrange(start, digits_end(s, e0)), digits_end(s, e0)))
        } else {
            None
        }
    } else {
        Some((s.subrange(start, c), c))
    }
}

/// One field whose value is a numeral: whitespace, the key, whitespace, a
/// colon, whitespace, the numeral.
pub open spec fn parse_number_field(s: Seq<char>, i: int, key: Seq<char>) -> Option<
    (Seq<char>, int),
> {
    match after_lit(s, skip_ws(s, i), key) {
        None => None,
        Some(j) => match after_lit(s, skip_ws(s, j), seq![':']) {
            None => None,
            Some(j2) => parse_number(s, skip_ws(s, j2)),
        },
    }
}

/// One field whose value is a quoted string: whitespace, the key,
/// whitespace, a colon, whitespace, the string.
pub open spec fn parse_string_field(s: Seq<char>, i: int, key: Seq<char>) -> Option<
    (Seq<char>, int),
> {
    match after_lit(s, skip_ws(s, i), key) {
        None => None,
        Some(j) => match after_lit(s, skip_ws(s, j), seq![':']) {
            None => None,
            Some(j2) => parse_string(s, skip_ws(s, j2)),
        },
    }
}

/// One word entry of the detail list, in the order the engine prints its
/// fields: confidence, end time, start time, the word.
pub open spec fn parse_word_obj(s: Seq<char>, i: int) -> Option<(WordValue, int)> {
    match after_lit(s, skip_ws(s, i), seq!['{']) {
        None => None,
        Some(j0) => match parse_number_field(s, j0, key_conf()) {
            None => None,
            Some((conf, j1)) => match after_lit(s, skip_ws(s, j1), seq![',']) {
                None => None,
                Some(j2) => match parse_number_field(s, j2, key_end()) {
                    None => None,
                    Some((end, j3)) => match after_lit(s, skip_ws(s, j3), seq![',']) {
                        None => None,
                        Some(j4) => match parse_number_field(s, j4, key_start()) {
                            None => None,
                            Some((start, j5)) => match after_lit(s, skip_ws(s, j5), seq![',']) {
                                None => None,
                                Some(j6) => match parse_string_field(s, j6, key_word()) {
                                    None => None,
                                    Some((word, j7)) => match after_lit(
                                        s,
                                        skip_ws(s, j7),
                                        seq!['}'],
                                    ) {
                                        None => None,
                                        Some(j8) => Some(
                                            (WordValue { word, conf, start, end }, j8),
                                        ),
                                    },
                                },
                            },
                        },
                    },
                },
            },
        },
    }
}

/// Whitespace never runs left of where it started, nor past the end.
pub proof fn lemma_skip_ws_bounds(s: Seq<char>, i: int)
    requires
        0 <= i <= s.len(),
    ensures
        i <= skip_ws(s, i) <= s.len(),
    decreases s.len() - i,
{
    if i < s.len() && is_result_ws(s[i]) {
        lemma_skip_ws_bounds(s, i + 1);
    }
}

/// Digits never run left of where they started, nor past the end.
pub proof fn lemma_digits_end_bounds(s: Seq<char>, i: int)
    requires
        0 <= i <= s.len(),
    ensures
        i <= digits_end(s, i) <= s.len(),
    decreases s.len() - i,
{
    if i < s.len() && is_digit(s[i]) {
        lemma_digits_end_bounds(s, i + 1);
    }
}

/// A parsed string body ends right of where it started and inside the text.
pub proof fn lemma_parse_string_body_bounds(s: Seq<char>, i: int)
    requires
        0 <= i <= s.len(),
    ensures
        parse_string_body(s, i) is Some ==> i < parse_string_body(s, i).unwrap().1 <= s.len(),
    decreases s.len() - i,
{
    if i < s.len() {
        if s[i] == '\\' && i + 1 < s.len() {
            let e = s[i + 1];
            if e == 'u' {
                if i + 6 <= s.len() {
                    lemma_parse_string_body_bounds(s, i + 6);
                }
            } else {
                lemma_parse_string_body_bounds(s, i + 2);
            }
        } else {
            lemma_parse_string_body_bounds(s, i + 1);
        }
    }
}

/// A parsed numeral ends right of where it started and inside the text.
pub proof fn lemma_parse_number_bounds(s: Seq<char>, i: int)
    requires
        0 <= i <= s.len(),
    ensures
        parse_number(s, i) is Some ==> i < parse_number(s, i).unwrap().1 <= s.len(),
{
    if i < s.len() {
        let a = if s[i] == '-' {
            i + 1
        } else {
            i
        };
        if a < s.len() && is_digit(s[a]) {
            let b = if s[a] == '0' {
                a + 1
            } else {
                digits_end(s, a)
            };
            lemma_digits_end_bounds(s, a);
            assert(a < b) by {
                if s[a] != '0' {
                    assert(digits_end(s, a) == digits_end(s, a + 1));
                    lemma_digits_end_bounds(s, a + 1);
                }
            }
            if b < s.len() && s[b] == '.' {
                if b + 1 < s.len() && is_digit(s[b + 1]) {
                    lemma_digits_end_bounds(s, b + 1);
                    lemma_parse_number_tail_bounds(s, i, digits_end(s, b + 1));
                }
            } else {
                lemma_parse_number_tail_bounds(s, i, b);
            }
        }
    }
}

/// The exponent part of a numeral stays inside the text as well.
proof fn lemma_parse_number_tail_bounds(s: Seq<char>, start: int, c: int)
    requires
        0 <= start < c <= s.len(),
    ensures
        parse_number_from_exponent(s, start, c) is Some ==> start < parse_number_from_exponent(
            s,
            start,
            c,
        ).unwrap().1 <= s.len(),
{
    if c < s.len() && (s[c] == 'e' || s[c] == 'E') {
        let e0 = if c + 1 < s.len() && (s[c + 1] == '+' || s[c + 1] == '-') {
            c + 2
        } else {
            c + 1
        };
        if e0 < s.len() && is_digit(s[e0]) {
            lemma_digits_end_bounds(s, e0);
            assert(digits_end(s, e0) == digits_end(s, e0 + 1));
            lemma_digits_end_bounds(s, e0 + 1);
        }
    }
}

/// A parsed word entry ends right of where it started and inside the text.
pub proof fn lemma_parse_word_obj_bounds(s: Seq<char>, i: int)
    requires
        0 <= i <= s.len(),
    ensures
        parse_word_obj(s, i) is Some ==> i < parse_word_obj(s, i).unwrap().1 <= s.len(),
{
    lemma_skip_ws_bounds(s, i);
    if after_lit(s, skip_ws(s, i), seq!['{']) is Some {
        let j0 = after_lit(s, skip_ws(s, i), seq!['{']).unwrap();
        lemma_parse_number_field_bounds(s, j0, key_conf());
        if parse_number_field(s, j0, key_conf()) is Some {
            let (_, j1) = parse_number_field(s, j0, key_conf()).unwrap();
            lemma_skip_ws_bounds(s, j1);
            if after_lit(s, skip_ws(s, j1), seq![',']) is Some {
                let j2 = after_lit(s, skip_ws(s, j1), seq![',']).unwrap();
                lemma_parse_number_field_bounds(s, j2, key_end());
                if parse_number_field(s, j2, key_end()) is Some {
                    let (_, j3) = parse_number_field(s, j2, key_end()).unwrap();
                    lemma_skip_ws_bounds(s, j3);
                    if after_lit(s, skip_ws(s, j3), seq![',']) is Some {
                        let j4 = after_lit(s, skip_ws(s, j3), seq![',']).unwrap();
                        lemma_parse_number_field_bounds(s, j4, key_start());
                        if parse_number_field(s, j4, key_start()) is Some {
                            let (_, j5) = parse_number_field(s, j4, key_start()).unwrap();
                            lemma_skip_ws_bounds(s, j5);
                            if after_lit(s, skip_ws(s, j5), seq![',']) is Some {
                                let j6 = after_lit(s, skip_ws(s, j5), seq![',']).unwrap();
                                lemma_parse_string_field_bounds(s, j6, key_word());
                                if parse_string_field(s, j6, key_word()) is Some {
                                    let (_, j7) = parse_string_field(s, j6, key_word()).unwrap();
                                    lemma_skip_ws_bounds(s, j7);
                                }
                            }
                        }
                    }
                }
            }
        }
    }
}

/// A parsed numeral field ends right of where it started and inside the
/// text.
pub proof fn lemma_parse_number_field_bounds(s: Seq<char>, i: int, key: Seq<char>)
    requires
        0 <= i <= s.len(),
    ensures
        parse_number_field(s, i, key) is Some ==> i < parse_number_field(s, i, key).unwrap().1
            <= s.len(),
{
    lemma_skip_ws_bounds(s, i);
    if after_lit(s, skip_ws(s, i), key) is Some {
        let j = after_lit(s, skip_ws(s, i), key).unwrap();
        lemma_skip_ws_bounds(s, j);
        if after_lit(s, skip_ws(s, j), seq![':']) is Some {
            let j2 = after_lit(s, skip_ws(s, j), seq![':']).unwrap();
            lemma_skip_ws_bounds(s, j2);
            lemma_parse_number_bounds(s, skip_ws(s, j2));
        }
    }
}

/// A parsed string field ends right of where it started and inside the
/// text.
pub proof fn lemma_parse_string_field_bounds(s: Seq<char>, i: int, key: Seq<char>)
    requires
        0 <= i <= s.len(),
    ensures
        parse_string_field(s, i, key) is Some ==> i < parse_string_field(s, i, key).unwrap().1
            <= s.len(),
{
    lemma_skip_ws_bounds(s, i);
    if after_lit(s, skip_ws(s, i), key) is Some {
        let j = after_lit(s, skip_ws(s, i), key).unwrap();
        lemma_skip_ws_bounds(s, j);
        if after_lit(s, skip_ws(s, j), seq![':']) is Some {
            let j2 = after_lit(s, skip_ws(s, j), seq![':']).unwrap();
            lemma_skip_ws_bounds(s, j2);
            let p = skip_ws(s, j2);
            if p < s.len() && s[p] == '"' {
                lemma_parse_string_body_bounds(s, p + 1);
            }
        }
    }
}

/// The word entries of the detail list from the first entry at `i` to the
/// closing bracket, with the position after that bracket.
pub open spec fn parse_words(s: Seq<char>, i: int) -> Option<(Seq<WordValue>, int)>
    decreases s.len() - i when 0 <= i <= s.len() via parse_words_decreases
{
    if !(0 <= i <= s.len()) {
        None
    } else {
        match parse_word_obj(s, i) {
            None => None,
            Some((w, j)) => {
                let j1 = skip_ws(s, j);
                if match_at(s, j1, seq![',']) {
                    match parse_words(s, j1 + 1) {
                        None => None,
                        Some((rest, k)) => Some((seq![w] + rest, k)),
                    }
                } else if match_at(s, j1, seq![']']) {
                    Some((seq![w], j1 + 1))
                } else {
                    None
                }
            },
        }
    }
}

#[via_fn]
proof fn parse_words_decreases(s: Seq<char>, i: int) {
    if 0 <= i <= s.len() {
        lemma_parse_word_obj_bounds(s, i);
        if parse_word_obj(s, i) is Some {
            let j = parse_word_obj(s, i).unwrap().1;
            lemma_skip_ws_bounds(s, j);
        }
    }
}

/// The whole detail list from its opening bracket: whitespace, `[`, either
/// an immediate `]` or the entries, with the position after the closing
/// bracket.
pub open spec fn parse_word_array(s: Seq<char>, i: int) -> Option<(Seq<WordValue>, int)> {
    match after_lit(s, skip_ws(s, i), seq!['[']) {
        None => None,
        Some(j) => {
            let j1 = skip_ws(s, j);
            if match_at(s, j1, seq![']']) {
                Some((Seq::empty(), j1 + 1))
            } else {
                parse_words(s, j1)
            }
        },
    }
}

/// A whole in-progress hypothesis: one object with one `partial` field and
/// nothing but whitespace around it.
pub open spec fn parse_partial_value(s: Seq<char>) -> Option<PartialValue> {
    match after_lit(s, skip_ws(s, 0), seq!['{']) {
        None => None,
        Some(i1) => match parse_string_field(s, i1, key_partial()) {
            None => None,
            Some((v, i2)) => match after_lit(s, skip_ws(s, i2), seq!['}']) {
                None => None,
                Some(i3) => if skip_ws(s, i3) == s.len() {
                    Some(PartialValue { partial: v })
                } else {
                    None
                },
            },
        },
    }
}

/// A whole finalized utterance: one object holding either a `text` field
/// alone, or a `result` detail list followed by the `text` field, and
/// nothing but whitespace around it.
pub open spec fn parse_final_value(s: Seq<char>) -> Option<FinalValue> {
    match after_lit(s, skip_ws(s, 0), seq!['{']) {
        None => None,
        Some(i1) => {
            let i2 = skip_ws(s, i1);
            if match_at(s, i2, key_text()) {
                match parse_string_field(s, i1, key_text()) {
                    None => None,
                    Some((t, j)) => match after_lit(s, skip_ws(s, j), seq!['}']) {
                        None => None,
                        Some(j2) => if skip_ws(s, j2) == s.len() {
                            Some(FinalValue { text: t, words: None })
                        } else {
                            None
                        },
                    },
                }
            } else if match_at(s, i2, key_result()) {
                match after_lit(s, skip_ws(s, i2 + key_result().len()), seq![':']) {
                    None => None,
                    Some(j0) => match parse_word_array(s, j0) {
                        None => None,
                        Some((entries, j1)) => match after_lit(s, skip_ws(s, j1), seq![',']) {
                            None => None,
                            Some(j2) => match parse_string_field(s, j2, key_text()) {
                                None => None,
                                Some((t, j3)) => match after_lit(s, skip_ws(s, j3), seq!['}']) {
                                    None => None,
                                    Some(j4) => if skip_ws(s, j4) == s.len() {
                                        Some(FinalValue { text: t, words: Some(entries) })
                                    } else {
                                        None
                                    },
                                },
                            },
                        },
                    },
                }
            } else {
                None
            }
        },
    }
}

/// The wire form of a finalized utterance without word detail, as the
/// engine prints it at its tersest: the text field alone, no whitespace.
pub open spec fn render_text_only(text: Seq<char>) -> Seq<char> {
    seq!['{'] + key_text() + seq![':'] + crate::json::json_string(text) + seq!['}']
}

/// Renders a finalized utterance without word detail in the engine's wire
/// form.
pub fn render_final_text(text: &str) -> (r: String)
    ensures
        r@ == render_text_only(text@),
{
    proof {
        reveal_strlit("\"text\"");
        assert("\"text\""@ =~= key_text());
    }
    let mut out = String::new();
    push_char(&mut out, '{');
    out.append("\"text\"");
    push_char(&mut out, ':');
    crate::json::push_json_string(&mut out, text);
    push_char(&mut out, '}');
    proof {
        assert(out@ =~= render_text_only(text@));
    }
    out
}

/// Hexadecimal digits read back as their value.
proof fn lemma_hex_digit_inverts(n: int)
    requires
        0 <= n < 16,
    ensures
        hex_val(crate::json::hex_digit(n)) == n,
{
}

/// A text's escaped form, closed by a quote, reads back as exactly the
/// text.
proof fn lemma_parse_escaped_body(s: Seq<char>, i: int, v: Seq<char>)
    requires
        0 <= i,
        i + crate::json::escape_text(v).len() + 1 <= s.len(),
        forall|t: int|
            0 <= t < crate::json::escape_text(v).len() ==> s[i + t]
                == #[trigger] crate::json::escape_text(v)[t],
        s[i + crate::json::escape_text(v).len()] == '"',
    ensures
        parse_string_body(s, i) == Some((v, i + crate::json::escape_text(v).len() + 1)),
    decreases v.len(),
{
    let esc = crate::json::escape_text(v);
    if v.len() == 0 {
        assert(esc.len() == 0);
        assert(s[i] == '"');
        assert(v =~= Seq::<char>::empty());
    } else {
        let c = v[0];
        let e = crate::json::escape_char(c);
        let w = v.drop_first();
        let rest = crate::json::escape_text(w);
        crate::json::lemma_escape_text_first(v);
        assert(esc == e + rest);
        assert forall|t: int| 0 <= t < e.len() implies s[i + t] == #[trigger] e[t] by {
            assert(esc[t] == e[t]);
        }
        assert forall|t: int| 0 <= t < rest.len() implies s[i + e.len() + t] == #[trigger] rest[t]
        by {
            assert(esc[e.len() + t] == rest[t]);
        }
        assert(s[i + e.len() + rest.len()] == '"');
        lemma_parse_escaped_body(s, i + e.len(), w);
        assert(seq![c] + w =~= v);
        let cu = c as u32;
        if c == '"' || c == '\\' {
            assert(s[i] == '\\' && s[i + 1] == c);
            assert(parse_string_body(s, i) == with_first(c, parse_string_body(s, i + 2)));
        } else if c == '\u{8}' || c == '\u{9}' || c == '\u{a}' || c == '\u{c}' || c == '\u{d}' {
            assert(s[i] == '\\');
            assert(parse_string_body(s, i) == with_first(c, parse_string_body(s, i + 2)));
        } else if cu < 0x20 {
            assert(s[i] == '\\' && s[i + 1] == 'u' && s[i + 2] == '0' && s[i + 3] == '0');
            assert(s[i + 4] == crate::json::hex_digit((cu / 16) as int));
            assert(s[i + 5] == crate::json::hex_digit((cu % 16) as int));
            lemma_hex_digit_inverts((cu / 16) as int);
            lemma_hex_digit_inverts((cu % 16) as int);
            assert(hex_val(s[i + 2]) == 0 && hex_val(s[i + 3]) == 0);
            let h = (hex_val(s[i + 2]) * 4096 + hex_val(s[i + 3]) * 256 + hex_val(s[i + 4]) * 16
                + hex_val(s[i + 5])) as u32;
            assert(h == cu);
            vstd::utf8::char_u32_cast(c, cu);
            assert((h as char) == c);
            assert(parse_string_body(s, i) == with_first(c, parse_string_body(s, i + 6)));
        } else {
            assert(e == seq![c]);
            assert(s[i] == c);
            assert(c != '"' && c != '\\' && !(cu < 0x20));
            assert(parse_string_body(s, i) == with_first(c, parse_string_body(s, i + 1)));
        }
    }
}

/// Law: rendering a finalized utterance and decoding the rendered text
/// gives the utterance back — for every text, escapes included, the
/// decoder reads the rendered wire form as exactly that text, with no word
/// detail.
pub proof fn lemma_render_parse_round_trip(text: Seq<char>)
    ensures
        parse_final_value(render_text_only(text)) == Some(
            FinalValue { text, words: None::<Seq<WordValue>> },
        ),
{
    let s = render_text_only(text);
    let esc = crate::json::escape_text(text);
    let m = esc.len() as int;
    assert(crate::json::json_string(text).len() == m + 2);
    assert(s.len() == m + 11);
    assert(s[0] == '{');
    assert forall|t: int| 0 <= t < 6 implies s[1 + t] == #[trigger] key_text()[t] by {}
    assert(s[7] == ':');
    assert forall|t: int| 0 <= t < m + 2 implies s[8 + t] == #[trigger] crate::json::json_string(
        text,
    )[t] by {}
    assert(s[8] == crate::json::json_string(text)[0]);
    assert(s[8] == '"');
    assert forall|t: int| 0 <= t < m implies s[9 + t] == #[trigger] esc[t] by {
        assert(crate::json::json_string(text)[1 + t] == esc[t]);
    }
    assert(s[9 + m] == crate::json::json_string(text)[m + 1]);
    assert(s[9 + m] == '"');
    assert(s[10 + m] == '}');

    assert(!is_result_ws('{') && !is_result_ws('"') && !is_result_ws(':') && !is_result_ws('}'));
    assert(skip_ws(s, 0) == 0);
    assert(s.subrange(0, 1) =~= seq!['{']);
    assert(after_lit(s, 0, seq!['{']) == Some(1int));
    assert(skip_ws(s, 1) == 1);
    assert(s.subrange(1, 7) =~= key_text());
    assert(match_at(s, 1, key_text()));
    assert(after_lit(s, 1, key_text()) == Some(7int));
    assert(skip_ws(s, 7) == 7);
    assert(s.subrange(7, 8) =~= seq![':']);
    assert(after_lit(s, 7, seq![':']) == Some(8int));
    assert(skip_ws(s, 8) == 8);
    lemma_parse_escaped_body(s, 9, text);
    assert(parse_string(s, 8) == Some((text, 10 + m)));
    assert(parse_string_field(s, 1, key_text()) == Some((text, 10 + m)));
    assert(skip_ws(s, 10 + m) == 10 + m);
    assert(s.subrange(10 + m, 11 + m) =~= seq!['}']);
    assert(after_lit(s, 10 + m, seq!['}']) == Some(11 + m));
    assert(skip_ws(s, 11 + m) == 11 + m);
    assert(parse_final_value(s) == Some(FinalValue { text, words: None::<Seq<WordValue>> }));
}

/// Whether one character is the format's whitespace, matching
/// `is_result_ws`.
fn is_ws_char(c: char) -> (r: bool)
    ensures
        r == is_result_ws(c),
{
    c == ' ' || c == '\u{9}' || c == '\u{a}' || c == '\u{d}'
}

/// Whether one character is a decimal digit, matching `is_digit`.
fn is_digit_char(c: char) -> (r: bool)
    ensures
        r == is_digit(c),
{
    let u = c as u32;
    ('0' as u32) <= u && u <= ('9' as u32)
}

/// The value of one hexadecimal digit, matching `hex_val`.
fn hex_val_char(c: char) -> (r: u8)
    ensures
        r as int == hex_val(c),
{
    match c {
        '0' => 0,
        '1' => 1,
        '2' => 2,
        '3' => 3,
        '4' => 4,
        '5' => 5,
        '6' => 6,
        '7' => 7,
        '8' => 8,
        '9' => 9,
        'a' | 'A' => 10,
        'b' | 'B' => 11,
        'c' | 'C' => 12,
        'd' | 'D' => 13,
        'e' | 'E' => 14,
        'f' | 'F' => 15,
        _ => 16,
    }
}

/// Walks past whitespace, matching `skip_ws`.
fn scan_ws(s: &str, i: usize) -> (j: usize)
    requires
        i <= s@.len(),
    ensures
        j as int == skip_ws(s@, i as int),
        i <= j <= s@.len(),
{
    let n = s.unicode_len();
    let mut j = i;
    while j < n && is_ws_char(s.get_char(j))
        invariant
            i <= j <= n,
            n == s@.len(),
            skip_ws(s@, i as int) == skip_ws(s@, j as int),
        decreases n - j,
    {
        j = j + 1;
    }
    j
}

/// Walks past decimal digits, matching `digits_end`.
fn scan_digits(s: &str, i: usize) -> (j: usize)
    requires
        i <= s@.len(),
    ensures
        j as int == digits_end(s@, i as int),
        i <= j <= s@.len(),
{
    let n = s.unicode_len();
    let mut j = i;
    while j < n && is_digit_char(s.get_char(j))
        invariant
            i <= j <= n,
            n == s@.len(),
            digits_end(s@, i as int) == digits_end(s@, j as int),
        decreases n - j,
    {
        j = j + 1;
    }
    j
}

/// Whether the text carries the given characters at `i`, matching
/// `match_at`.
fn match_chars(s: &str, i: usize, pat: &str) -> (r: bool)
    requires
        i <= s@.len(),
    ensures
        r == match_at(s@, i as int, pat@),
{
    let n = s.unicode_len();
    let m = pat.unicode_len();
    if m > n - i {
        return false;
    }
    let mut k: usize = 0;
    while k < m
        invariant
            k <= m,
            i + m <= n,
            n == s@.len(),
            m == pat@.len(),
            forall|t: int| 0 <= t < k ==> s@[i + t] == pat@[t],
        decreases m - k,
    {
        if s.get_char(i + k) != pat.get_char(k) {
            proof {
                if match_at(s@, i as int, pat@) {
                    assert(s@.subrange(i as int, i + pat@.len())[k as int] == s@[i + k]);
                }
            }
            return false;
        }
        k = k + 1;
    }
    proof {
        assert(s@.subrange(i as int, i + pat@.len()) =~= pat@);
    }
    true
}

/// Walks past the given characters when they stand at `i`, matching
/// `after_lit`.
fn expect_lit(s: &str, i: usize, pat: &str) -> (r: Option<usize>)
    requires
        i <= s@.len(),
    ensures
        r is Some <==> after_lit(s@, i as int, pat@) is Some,
        r is Some ==> r.unwrap() as int == after_lit(s@, i as int, pat@).unwrap() && i
            <= r.unwrap() <= s@.len(),
{
    if match_chars(s, i, pat) {
        let n = s.unicode_len();
        let m = pat.unicode_len();
        Some(i + m)
    } else {
        None
    }
}

/// Reads a quoted string's characters from just past its opening quote,
/// matching `parse_string_body`.
fn scan_string_body(s: &str, i: usize) -> (r: Option<(String, usize)>)
    requires
        i <= s@.len(),
    ensures
        r is Some <==> parse_string_body(s@, i as int) is Some,
        r is Some ==> {
            let (v, j) = parse_string_body(s@, i as int).unwrap();
            &&& r.unwrap().0@ == v
            &&& r.unwrap().1 as int == j
            &&& i < r.unwrap().1 <= s@.len()
        },
    decreases s@.len() - i,
{
    let n = s.unicode_len();
    if i >= n {
        return None;
    }
    let c = s.get_char(i);
    if c == '"' {
        return Some((String::new(), i + 1));
    }
    if c == '\\' {
        if i + 1 >= n {
            return None;
        }
        let e = s.get_char(i + 1);
        let (d, next): (char, usize) = if e == '"' || e == '\\' || e == '/' {
            (e, i + 2)
        } else if e == 'b' {
            ('\u{8}', i + 2)
        } else if e == 't' {
            ('\u{9}', i + 2)
        } else if e == 'n' {
            ('\u{a}', i + 2)
        } else if e == 'f' {
            ('\u{c}', i + 2)
        } else if e == 'r' {
            ('\u{d}', i + 2)
        } else if e == 'u' {
            if n - i < 6 {
                return None;
            }
            let h0 = hex_val_char(s.get_char(i + 2));
            let h1 = hex_val_char(s.get_char(i + 3));
            let h2 = hex_val_char(s.get_char(i + 4));
            let h3 = hex_val_char(s.get_char(i + 5));
            if h0 == 16 || h1 == 16 || h2 == 16 || h3 == 16 {
                return None;
            }
            let h: u32 = (h0 as u32) * 4096 + (h1 as u32) * 256 + (h2 as u32) * 16 + (h3 as u32);
            proof {
                assert(h as int == hex_val(s@[i + 2]) * 4096 + hex_val(s@[i + 3]) * 256 + hex_val(
                    s@[i + 4],
                ) * 16 + hex_val(s@[i + 5]));
            }
            if h >= 0xD800 && h < 0xE000 {
                return None;
            }
            (char_from_code(h), i + 6)
        } else {
            return None;
        };
        match scan_string_body(s, next) {
            None => None,
            Some((tail, j)) => {
                let mut out = String::new();
                push_char(&mut out, d);
                out.append(tail.as_str());
                proof {
                    assert(out@ =~= seq![d] + tail@);
                }
                Some((out, j))
            },
        }
    } else if (c as u32) < 0x20 {
        None
    } else {
        match scan_string_body(s, i + 1) {
            None => None,
            Some((tail, j)) => {
                let mut out = String::new();
                push_char(&mut out, c);
                out.append(tail.as_str());
                proof {
                    assert(out@ =~= seq![c] + tail@);
                }
                Some((out, j))
            },
        }
    }
}

/// Reads a quoted string from its opening quote, matching `parse_string`.
fn scan_string(s: &str, i: usize) -> (r: Option<(String, usize)>)
    requires
        i <= s@.len(),
    ensures
        r is Some <==> parse_string(s@, i as int) is Some,
        r is Some ==> {
            let (v, j) = parse_string(s@, i as int).unwrap();
            &&& r.unwrap().0@ == v
            &&& r.unwrap().1 as int == j
            &&& i < r.unwrap().1 <= s@.len()
        },
{
    let n = s.unicode_len();
    if i < n && s.get_char(i) == '"' {
        scan_string_body(s, i + 1)
    } else {
        None
    }
}

/// Reads a decimal numeral, matching `parse_number`.
fn scan_number(s: &str, i: usize) -> (r: Option<(String, usize)>)
    requires
        i <= s@.len(),
    ensures
        r is Some <==> parse_number(s@, i as int) is Some,
        r is Some ==> {
            let (v, j) = parse_number(s@, i as int).unwrap();
            &&& r.unwrap().0@ == v
            &&& r.unwrap().1 as int == j
            &&& i <= r.unwrap().1 <= s@.len()
        },
{
    let n = s.unicode_len();
    if i >= n {
        return None;
    }
    let a = if s.get_char(i) == '-' {
        i + 1
    } else {
        i
    };
    if !(a < n && is_digit_char(s.get_char(a))) {
        return None;
    }
    let b = if s.get_char(a) == '0' {
        a + 1
    } else {
        scan_digits(s, a)
    };
    let c2 = if b < n && s.get_char(b) == '.' {
        if b + 1 < n && is_digit_char(s.get_char(b + 1)) {
            scan_digits(s, b + 1)
        } else {
            return None;
        }
    } else {
        b
    };
    let j_end = if c2 < n {
        let cc = s.get_char(c2);
        if cc == 'e' || cc == 'E' {
            let e0 = if c2 + 1 < n {
                let cs = s.get_char(c2 + 1);
                if cs == '+' || cs == '-' {
                    c2 + 2
                } else {
                    c2 + 1
                }
            } else {
                c2 + 1
            };
            if e0 < n && is_digit_char(s.get_char(e0)) {
                scan_digits(s, e0)
            } else {
                return None;
            }
        } else {
            c2
        }
    } else {
        c2
    };
    let numeral = String::from_str(s.substring_char(i, j_end));
    Some((numeral, j_end))
}

/// Reads one numeral field, matching `parse_number_field`.
fn scan_number_field(s: &str, i: usize, key: &str) -> (r: Option<(String, usize)>)
    requires
        i <= s@.len(),
    ensures
        r is Some <==> parse_number_field(s@, i as int, key@) is Some,
        r is Some ==> {
            let (v, j) = parse_number_field(s@, i as int, key@).unwrap();
            &&& r.unwrap().0@ == v
            &&& r.unwrap().1 as int == j
            &&& r.unwrap().1 <= s@.len()
        },
{
    proof {
        reveal_strlit(":");
        assert(":"@ =~= seq![':']);
    }
    let j = scan_ws(s, i);
    let j2 = match expect_lit(s, j, key) {
        Some(x) => x,
        None => {
            return None;
        },
    };
    let j3 = scan_ws(s, j2);
    let j4 = match expect_lit(s, j3, ":") {
        Some(x) => x,
        None => {
            return None;
        },
    };
    let j5 = scan_ws(s, j4);
    scan_number(s, j5)
}

/// Reads one quoted-string field, matching `parse_string_field`.
fn scan_string_field(s: &str, i: usize, key: &str) -> (r: Option<(String, usize)>)
    requires
        i <= s@.len(),
    ensures
        r is Some <==> parse_string_field(s@, i as int, key@) is Some,
        r is Some ==> {
            let (v, j) = parse_string_field(s@, i as int, key@).unwrap();
            &&& r.unwrap().0@ == v
            &&& r.unwrap().1 as int == j
            &&& r.unwrap().1 <= s@.len()
        },
{
    proof {
        reveal_strlit(":");
        assert(":"@ =~= seq![':']);
    }
    let j = scan_ws(s, i);
    let j2 = match expect_lit(s, j, key) {
        Some(x) => x,
        None => {
            return None;
        },
    };
    let j3 = scan_ws(s, j2);
    let j4 = match expect_lit(s, j3, ":") {
        Some(x) => x,
        None => {
            return None;
        },
    };
    let j5 = scan_ws(s, j4);
    scan_string(s, j5)
}

/// Reads one word entry of the detail list, matching `parse_word_obj`.
fn scan_word_obj(s: &str, i: usize) -> (r: Option<(RecognizedWord, usize)>)
    requires
        i <= s@.len(),
    ensures
        r is Some <==> parse_word_obj(s@, i as int) is Some,
        r is Some ==> {
            let (w, j) = parse_word_obj(s@, i as int).unwrap();
            &&& r.unwrap().0@ == w
            &&& r.unwrap().1 as int == j
            &&& r.unwrap().1 <= s@.len()
        },
{
    proof {
        reveal_strlit("{");
        reveal_strlit("}");
        reveal_strlit(",");
        reveal_strlit("\"conf\"");
        reveal_strlit("\"end\"");
        reveal_strlit("\"start\"");
        reveal_strlit("\"word\"");
        assert("{"@ =~= seq!['{']);
        assert("}"@ =~= seq!['}']);
        assert(","@ =~= seq![',']);
        assert("\"conf\""@ =~= key_conf());
        assert("\"end\""@ =~= key_end());
        assert("\"start\""@ =~= key_start());
        assert("\"word\""@ =~= key_word());
    }
    let j0 = match expect_lit(s, scan_ws(s, i), "{") {
        Some(x) => x,
        None => {
            return None;
        },
    };
    let (conf, j1) = match scan_number_field(s, j0, "\"conf\"") {
        Some(x) => x,
        None => {
            return None;
        },
    };
    let j2 = match expect_lit(s, scan_ws(s, j1), ",") {
        Some(x) => x,
        None => {
            return None;
        },
    };
    let (end, j3) = match scan_number_field(s, j2, "\"end\"") {
        Some(x) => x,
        None => {
            return None;
        },
    };
    let j4 = match expect_lit(s, scan_ws(s, j3), ",") {
        Some(x) => x,
        None => {
            return None;
        },
    };
    let (start, j5) = match scan_number_field(s, j4, "\"start\"") {
        Some(x) => x,
        None => {
            return None;
        },
    };
    let j6 = match expect_lit(s, scan_ws(s, j5), ",") {
        Some(x) => x,
        None => {
            return None;
        },
    };
    let (word, j7) = match scan_string_field(s, j6, "\"word\"") {
        Some(x) => x,
        None => {
            return None;
        },
    };
    let j8 = match expect_lit(s, scan_ws(s, j7), "}") {
        Some(x) => x,
        None => {
            return None;
        },
    };
    Some((RecognizedWord { word, conf, start, end }, j8))
}

/// Reads the word entries up to the closing bracket, matching
/// `parse_words`.
fn scan_words(s: &str, i: usize) -> (r: Option<(Vec<RecognizedWord>, usize)>)
    requires
        i <= s@.len(),
    ensures
        r is Some <==> parse_words(s@, i as int) is Some,
        r is Some ==> {
            let (entries, j) = parse_words(s@, i as int).unwrap();
            &&& word_views(r.unwrap().0@) == entries
            &&& r.unwrap().1 as int == j
            &&& r.unwrap().1 <= s@.len()
        },
    decreases s@.len() - i,
{
    proof {
        reveal_strlit(",");
        reveal_strlit("]");
        assert(","@ =~= seq![',']);
        assert("]"@ =~= seq![']']);
    }
    let n = s.unicode_len();
    let (w, j) = match scan_word_obj(s, i) {
        Some(x) => x,
        None => {
            return None;
        },
    };
    proof {
        lemma_parse_word_obj_bounds(s@, i as int);
    }
    let j1 = scan_ws(s, j);
    if match_chars(s, j1, ",") {
        match scan_words(s, j1 + 1) {
            None => None,
            Some((rest, k)) => {
                let ghost rest_view = rest@;
                let mut out: Vec<RecognizedWord> = Vec::new();
                out.push(w);
                let mut tail = rest;
                out.append(&mut tail);
                proof {
                    assert(out@ =~= seq![w] + rest_view);
                    let lhs = word_views(out@);
                    let rhs = seq![w@] + word_views(rest_view);
                    assert(lhs.len() == rhs.len());
                    assert forall|t: int| 0 <= t < lhs.len() implies lhs[t] == #[trigger] rhs[t]
                    by {
                        if t > 0 {
                            assert(out@[t] == rest_view[t - 1]);
                            assert(word_views(rest_view)[t - 1] == rest_view[t - 1]@);
                        }
                    }
                    assert(lhs =~= rhs);
                }
                Some((out, k))
            },
        }
    } else if match_chars(s, j1, "]") {
        let mut out: Vec<RecognizedWord> = Vec::new();
        out.push(w);
        proof {
            assert(word_views(out@) =~= seq![w@]);
        }
        Some((out, j1 + 1))
    } else {
        None
    }
}

/// Reads the whole detail list from its opening bracket, matching
/// `parse_word_array`.
fn scan_word_array(s: &str, i: usize) -> (r: Option<(Vec<RecognizedWord>, usize)>)
    requires
        i <= s@.len(),
    ensures
        r is Some <==> parse_word_array(s@, i as int) is Some,
        r is Some ==> {
            let (entries, j) = parse_word_array(s@, i as int).unwrap();
            &&& word_views(r.unwrap().0@) == entries
            &&& r.unwrap().1 as int == j
            &&& r.unwrap().1 <= s@.len()
        },
{
    proof {
        reveal_strlit("[");
        reveal_strlit("]");
        assert("["@ =~= seq!['[']);
        assert("]"@ =~= seq![']']);
    }
    let n = s.unicode_len();
    let j = match expect_lit(s, scan_ws(s, i), "[") {
        Some(x) => x,
        None => {
            return None;
        },
    };
    let j1 = scan_ws(s, j);
    if match_chars(s, j1, "]") {
        let out: Vec<RecognizedWord> = Vec::new();
        proof {
            assert(word_views(out@) =~= Seq::<WordValue>::empty());
        }
        Some((out, j1 + 1))
    } else {
        scan_words(s, j1)
    }
}

impl RecognizedPartial {
    /// Decodes an in-progress hypothesis from the text a retrieval call
    /// handed back: the one `partial` field of the partial shape. Text of
    /// any other form is the malformed-result error, exactly when the shape
    /// is not met.
    pub fn parse(s: &str) -> (r: Result<RecognizedPartial, Error>)
        ensures
            r is Ok <==> parse_partial_value(s@) is Some,
            r is Ok ==> r.unwrap()@ == parse_partial_value(s@).unwrap(),
            r is Err ==> r == Err::<RecognizedPartial, Error>(Error::MalformedResult),
    {
        proof {
            reveal_strlit("{");
            reveal_strlit("}");
            reveal_strlit("\"partial\"");
            assert("{"@ =~= seq!['{']);
            assert("}"@ =~= seq!['}']);
            assert("\"partial\""@ =~= key_partial());
        }
        let i1 = match expect_lit(s, scan_ws(s, 0), "{") {
            Some(x) => x,
            None => {
                return Err(Error::MalformedResult);
            },
        };
        let (v, i2) = match scan_string_field(s, i1, "\"partial\"") {
            Some(x) => x,
            None => {
                return Err(Error::MalformedResult);
            },
        };
        let i3 = match expect_lit(s, scan_ws(s, i2), "}") {
            Some(x) => x,
            None => {
                return Err(Error::MalformedResult);
            },
        };
        let i4 = scan_ws(s, i3);
        if i4 == s.unicode_len() {
            Ok(RecognizedPartial { partial: v })
        } else {
            Err(Error::MalformedResult)
        }
    }
}

impl RecognizedText {
    /// Decodes a finalized utterance from the text a retrieval call handed
    /// back: either the bare `text` field, or the `result` detail list
    /// followed by the `text` field. Text of any other form is the
    /// malformed-result error, exactly when neither shape is met.
    pub fn parse(s: &str) -> (r: Result<RecognizedText, Error>)
        ensures
            r is Ok <==> parse_final_value(s@) is Some,
            r is Ok ==> r.unwrap()@ == parse_final_value(s@).unwrap(),
            r is Err ==> r == Err::<RecognizedText, Error>(Error::MalformedResult),
    {
        proof {
            reveal_strlit("{");
            reveal_strlit("}");
            reveal_strlit(",");
            reveal_strlit(":");
            reveal_strlit("\"text\"");
            reveal_strlit("\"result\"");
            assert("{"@ =~= seq!['{']);
            assert("}"@ =~= seq!['}']);
            assert(","@ =~= seq![',']);
            assert(":"@ =~= seq![':']);
            assert("\"text\""@ =~= key_text());
            assert("\"result\""@ =~= key_result());
        }
        let i1 = match expect_lit(s, scan_ws(s, 0), "{") {
            Some(x) => x,
            None => {
                return Err(Error::MalformedResult);
            },
        };
        let i2 = scan_ws(s, i1);
        if match_chars(s, i2, "\"text\"") {
            let (t, j) = match scan_string_field(s, i1, "\"text\"") {
                Some(x) => x,
                None => {
                    return Err(Error::MalformedResult);
                },
            };
            let j2 = match expect_lit(s, scan_ws(s, j), "}") {
                Some(x) => x,
                None => {
                    return Err(Error::MalformedResult);
                },
            };
            if scan_ws(s, j2) == s.unicode_len() {
                Ok(RecognizedText { text: t, result: None })
            } else {
                Err(Error::MalformedResult)
            }
        } else if match_chars(s, i2, "\"result\"") {
            let n = s.unicode_len();
            let j0 = match expect_lit(s, scan_ws(s, i2 + 8), ":") {
                Some(x) => x,
                None => {
                    return Err(Error::MalformedResult);
                },
            };
            let (entries, j1) = match scan_word_array(s, j0) {
                Some(x) => x,
                None => {
                    return Err(Error::MalformedResult);
                },
            };
            let j2 = match expect_lit(s, scan_ws(s, j1), ",") {
                Some(x) => x,
                None => {
                    return Err(Error::MalformedResult);
                },
            };
            let (t, j3) = match scan_string_field(s, j2, "\"text\"") {
                Some(x) => x,
                None => {
                    return Err(Error::MalformedResult);
                },
            };
            let j4 = match expect_lit(s, scan_ws(s, j3), "}") {
                Some(x) => x,
                None => {
                    return Err(Error::MalformedResult);
                },
            };
            if scan_ws(s, j4) == s.unicode_len() {
                Ok(RecognizedText { text: t, result: Some(entries) })
            } else {
                Err(Error::MalformedResult)
            }
        } else {
            Err(Error::MalformedResult)
        }
    }
}

} // verus!
