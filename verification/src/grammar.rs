//! The grammar encoder: turns a caller-supplied vocabulary or list of
//! phrases into the structured form the engine accepts as a constrained
//! grammar. A phrase is an ordered list of words; its words are joined by
//! single spaces and the joined phrase is stripped of leading and trailing
//! whitespace; the phrase strings, in input order, are then encoded as an
//! array of strings. A flat vocabulary is the special case of one phrase
//! per word.

use vstd::prelude::*;

use crate::json::json_string_array;
use crate::text::push_char;

verus! {

/// The whitespace characters: the set `str::trim` and `str::split_whitespace`
/// go by.
pub open spec fn is_space(c: char) -> bool {
    ||| c == ' '
    ||| c == '\u{9}'
    ||| c == '\u{a}'
    ||| c == '\u{b}'
    ||| c == '\u{c}'
    ||| c == '\u{d}'
    ||| c == '\u{85}'
    ||| c == '\u{a0}'
    ||| c == '\u{1680}'
    ||| (0x2000 <= (c as int) && (c as int) <= 0x200a)
    ||| c == '\u{2028}'
    ||| c == '\u{2029}'
    ||| c == '\u{202f}'
    ||| c == '\u{205f}'
    ||| c == '\u{3000}'
}

/// Whether one character is whitespace, matching `is_space`.
pub fn is_space_char(c: char) -> (r: bool)
    ensures
        r == is_space(c),
{
    c == ' ' || c == '\u{9}' || c == '\u{a}' || c == '\u{b}' || c == '\u{c}' || c == '\u{d}' || c
        == '\u{85}' || c == '\u{a0}' || c == '\u{1680}' || ('\u{2000}' <= c && c <= '\u{200a}') || c
        == '\u{2028}' || c == '\u{2029}' || c == '\u{202f}' || c == '\u{205f}' || c == '\u{3000}'
}

/// The words of a phrase joined by exactly one interior space.
pub open spec fn join_words(words: Seq<Seq<char>>) -> Seq<char>
    decreases words.len(),
{
    if words.len() == 0 {
        Seq::empty()
    } else if words.len() == 1 {
        words[0]
    } else {
        words[0] + seq![' '] + join_words(words.drop_first())
    }
}

/// The text with its leading whitespace removed.
pub open spec fn trim_start(s: Seq<char>) -> Seq<char>
    decreases s.len(),
{
    if s.len() > 0 && is_space(s[0]) {
        trim_start(s.drop_first())
    } else {
        s
    }
}

/// The text with its trailing whitespace removed.
pub open spec fn trim_end(s: Seq<char>) -> Seq<char>
    decreases s.len(),
{
    if s.len() > 0 && is_space(s[s.len() - 1]) {
        trim_end(s.drop_last())
    } else {
        s
    }
}

/// The phrase string one list of words becomes: the words joined by single
/// spaces, with leading and trailing whitespace trimmed away.
pub open spec fn phrase_of(words: Seq<Seq<char>>) -> Seq<char> {
    trim_end(trim_start(join_words(words)))
}

/// The words of one list of owned strings, as sequences of characters.
pub open spec fn words_view(p: Vec<String>) -> Seq<Seq<char>> {
    p@.map_values(|w: String| w@)
}

/// The phrases of one list of word lists, as sequences of characters.
pub open spec fn phrases_view_of(ps: Seq<Vec<String>>) -> Seq<Seq<Seq<char>>> {
    ps.map_values(|p: Vec<String>| words_view(p))
}

/// The phrases of one owned list of word lists.
pub open spec fn phrases_view(ps: Vec<Vec<String>>) -> Seq<Seq<Seq<char>>> {
    phrases_view_of(ps@)
}

/// The phrase strings of a list of phrases, each joined and trimmed.
pub open spec fn encoded_phrases(phrases: Seq<Seq<Seq<char>>>) -> Seq<Seq<char>> {
    phrases.map_values(|p: Seq<Seq<char>>| phrase_of(p))
}

/// The encoded grammar a list of phrases becomes: each phrase joined and
/// trimmed, the phrase strings encoded, in input order, as an array of
/// strings.
pub open spec fn grammar_json(phrases: Seq<Seq<Seq<char>>>) -> Seq<char> {
    json_string_array(encoded_phrases(phrases))
}

/// How far the leading run of non-whitespace characters reaches.
pub open spec fn leading_run(s: Seq<char>) -> nat
    decreases s.len(),
{
    if s.len() == 0 || is_space(s[0]) {
        0
    } else {
        1 + leading_run(s.drop_first())
    }
}

/// The whitespace-separated words of a text, in order: the flat vocabulary
/// form a caller may hand over in place of a phrase list.
pub open spec fn split_words(s: Seq<char>) -> Seq<Seq<char>>
    decreases s.len(),
    via split_words_decreases
{
    if s.len() == 0 {
        Seq::empty()
    } else if is_space(s[0]) {
        split_words(s.drop_first())
    } else {
        seq![s.take(leading_run(s) as int)] + split_words(s.skip(leading_run(s) as int))
    }
}

#[via_fn]
proof fn split_words_decreases(s: Seq<char>) {
    if s.len() > 0 && !is_space(s[0]) {
        lemma_leading_run_bounds(s);
    }
}

/// The leading run stays inside the text, and is not empty when the text
/// starts with a non-whitespace character.
proof fn lemma_leading_run_bounds(s: Seq<char>)
    ensures
        leading_run(s) <= s.len(),
        s.len() > 0 && !is_space(s[0]) ==> leading_run(s) >= 1,
    decreases s.len(),
{
    if s.len() > 0 && !is_space(s[0]) {
        lemma_leading_run_bounds(s.drop_first());
    }
}

/// Every character of the leading run is non-whitespace, and the run ends
/// at the end of the text or at a whitespace character.
proof fn lemma_leading_run_chars(s: Seq<char>)
    ensures
        forall|t: int| 0 <= t < leading_run(s) ==> !is_space(#[trigger] s[t]),
        leading_run(s) < s.len() ==> is_space(s[leading_run(s) as int]),
    decreases s.len(),
{
    if s.len() > 0 && !is_space(s[0]) {
        lemma_leading_run_chars(s.drop_first());
        lemma_leading_run_bounds(s.drop_first());
        assert forall|t: int| 0 <= t < leading_run(s) implies !is_space(#[trigger] s[t]) by {
            if t > 0 {
                assert(!is_space(s.drop_first()[t - 1]));
            }
        }
    }
}

/// A word given exactly by its bounds: the run from `k` back to the start
/// is non-whitespace and stops there.
proof fn lemma_leading_run_is(u: Seq<char>, k: int)
    requires
        0 <= k <= u.len(),
        forall|t: int| 0 <= t < k ==> !is_space(#[trigger] u[t]),
        k < u.len() ==> is_space(u[k]),
    ensures
        leading_run(u) == k,
    decreases k,
{
    if k == 0 {
    } else {
        lemma_leading_run_is(u.drop_first(), k - 1);
    }
}

/// Splitting is unmoved by one leading whitespace character.
proof fn lemma_split_words_skip_space(s: Seq<char>, i: int)
    requires
        0 <= i < s.len(),
        is_space(s[i]),
    ensures
        split_words(s.skip(i)) == split_words(s.skip(i + 1)),
{
    assert(s.skip(i)[0] == s[i]);
    assert(s.skip(i).drop_first() =~= s.skip(i + 1));
}

/// A maximal non-whitespace run from `i` to `j` is the next word, and
/// splitting goes on after it.
proof fn lemma_split_words_word(s: Seq<char>, i: int, j: int)
    requires
        0 <= i < j <= s.len(),
        forall|t: int| i <= t < j ==> !is_space(#[trigger] s[t]),
        j < s.len() ==> is_space(s[j]),
    ensures
        split_words(s.skip(i)) == seq![s.subrange(i, j)] + split_words(s.skip(j)),
{
    let u = s.skip(i);
    assert forall|t: int| 0 <= t < j - i implies !is_space(#[trigger] u[t]) by {
        assert(u[t] == s[i + t]);
    }
    lemma_leading_run_is(u, j - i);
    assert(!is_space(u[0]));
    assert(u.take(j - i) =~= s.subrange(i, j));
    assert(u.skip(j - i) =~= s.skip(j));
}

/// A word of a split: not empty, no whitespace inside.
pub open spec fn space_free_word(w: Seq<char>) -> bool {
    w.len() > 0 && forall|t: int| 0 <= t < w.len() ==> !is_space(#[trigger] w[t])
}

/// Every word a split yields is a non-empty run of non-whitespace
/// characters.
pub proof fn lemma_split_words_space_free(s: Seq<char>)
    ensures
        forall|k: int|
            0 <= k < split_words(s).len() ==> space_free_word(#[trigger] split_words(s)[k]),
    decreases s.len(),
{
    if s.len() == 0 {
    } else if is_space(s[0]) {
        lemma_split_words_space_free(s.drop_first());
        assert(split_words(s) == split_words(s.drop_first()));
    } else {
        lemma_leading_run_bounds(s);
        lemma_leading_run_chars(s);
        let k = leading_run(s) as int;
        lemma_split_words_space_free(s.skip(k));
        assert(split_words(s) == seq![s.take(k)] + split_words(s.skip(k)));
        let w = s.take(k);
        assert(space_free_word(w)) by {
            assert forall|t: int| 0 <= t < w.len() implies !is_space(#[trigger] w[t]) by {
                assert(w[t] == s[t]);
            }
        }
        assert forall|q: int|
            0 <= q < split_words(s).len() implies space_free_word(
            #[trigger] split_words(s)[q],
        ) by {
            if q > 0 {
                assert(split_words(s)[q] == split_words(s.skip(k))[q - 1]);
            }
        }
    }
}

/// Each word of a vocabulary as a phrase of its own.
pub open spec fn one_word_phrases(words: Seq<Seq<char>>) -> Seq<Seq<Seq<char>>> {
    words.map_values(|w: Seq<char>| seq![w])
}

/// A word without whitespace passes through joining and trimming unchanged.
proof fn lemma_phrase_of_single_word(w: Seq<char>)
    requires
        forall|t: int| 0 <= t < w.len() ==> !is_space(#[trigger] w[t]),
    ensures
        phrase_of(seq![w]) == w,
{
    assert(join_words(seq![w]) == w);
    assert(trim_start(w) == w);
    assert(trim_end(w) == w);
}

/// Law: constraining by a flat vocabulary is constraining by the grammar
/// with one phrase per word, and that grammar encodes the split words
/// themselves, unchanged and in order.
pub proof fn lemma_vocabulary_grammar(s: Seq<char>)
    ensures
        grammar_json(one_word_phrases(split_words(s))) == json_string_array(split_words(s)),
{
    lemma_split_words_space_free(s);
    let words = split_words(s);
    let phrases = one_word_phrases(words);
    assert forall|t: int| 0 <= t < words.len() implies encoded_phrases(phrases)[t] == #[trigger] words[t] by {
        assert(phrases[t] == seq![words[t]]);
        assert(space_free_word(words[t]));
        lemma_phrase_of_single_word(words[t]);
    }
    assert(encoded_phrases(phrases) =~= words);
}

/// Joining one more word appends a separating space (between words) and the
/// word itself.
proof fn lemma_join_words_push(words: Seq<Seq<char>>, w: Seq<char>)
    ensures
        join_words(words.push(w)) == if words.len() == 0 {
            w
        } else {
            join_words(words) + seq![' '] + w
        },
    decreases words.len(),
{
    if words.len() == 0 {
        assert(words.push(w)[0] == w);
        assert(join_words(words.push(w)) == w);
    } else if words.len() == 1 {
        assert(words.push(w).drop_first() =~= seq![w]);
        assert(join_words(seq![w]) == w);
    } else {
        assert(words.push(w).drop_first() =~= words.drop_first().push(w));
        lemma_join_words_push(words.drop_first(), w);
    }
}

/// Where the leading whitespace of a text ends, trimming it starts: the
/// trimmed front is the suffix from the first non-whitespace character on.
proof fn lemma_trim_start_subrange(s: Seq<char>, k: int)
    requires
        0 <= k <= s.len(),
        forall|i: int| 0 <= i < k ==> is_space(#[trigger] s[i]),
        k < s.len() ==> !is_space(s[k]),
    ensures
        trim_start(s) == s.subrange(k, s.len() as int),
    decreases k,
{
    if k == 0 {
        assert(trim_start(s) =~= s.subrange(0, s.len() as int));
    } else {
        assert(is_space(s[0]));
        lemma_trim_start_subrange(s.drop_first(), k - 1);
        assert(s.drop_first().subrange(k - 1, s.drop_first().len() as int) =~= s.subrange(
            k,
            s.len() as int,
        ));
    }
}

/// Where the trailing whitespace of a text begins, trimming it ends: the
/// trimmed back is the prefix up to the last non-whitespace character.
proof fn lemma_trim_end_subrange(s: Seq<char>, m: int)
    requires
        0 <= m <= s.len(),
        forall|i: int| m <= i < s.len() ==> is_space(#[trigger] s[i]),
        m > 0 ==> !is_space(s[m - 1]),
    ensures
        trim_end(s) == s.subrange(0, m),
    decreases s.len() - m,
{
    if m == s.len() {
        if s.len() > 0 && is_space(s[s.len() - 1]) {
            assert(!is_space(s[m - 1]));
        }
        assert(trim_end(s) =~= s.subrange(0, m));
    } else {
        assert(is_space(s[s.len() - 1]));
        lemma_trim_end_subrange(s.drop_last(), m);
        assert(s.drop_last() =~= s.subrange(0, s.len() - 1));
        assert(s.drop_last().subrange(0, m) =~= s.subrange(0, m));
    }
}

/// Joins the words of one phrase with single spaces and trims the result.
pub fn join_phrase(words: &Vec<String>) -> (r: String)
    ensures
        r@ == phrase_of(words_view(*words)),
{
    let ghost ws = words_view(*words);
    let mut joined = String::new();
    let mut k: usize = 0;
    while k < words.len()
        invariant
            k <= words.len(),
            ws == words_view(*words),
            ws.len() == words@.len(),
            joined@ == join_words(ws.take(k as int)),
        decreases words.len() - k,
    {
        if k > 0 {
            push_char(&mut joined, ' ');
        }
        joined.append(words[k].as_str());
        proof {
            lemma_join_words_push(ws.take(k as int), ws[k as int]);
            assert(ws.take(k as int + 1) =~= ws.take(k as int).push(ws[k as int]));
            assert(ws[k as int] == words@[k as int]@);
        }
        k = k + 1;
    }
    proof {
        assert(ws.take(words@.len() as int) =~= ws);
    }
    trim_string(&joined)
}

/// Strips leading and trailing whitespace from a text.
pub fn trim_string(s: &String) -> (r: String)
    ensures
        r@ == trim_end(trim_start(s@)),
{
    let n = s.as_str().unicode_len();
    let mut a: usize = 0;
    while a < n && is_space_char(s.as_str().get_char(a))
        invariant
            a <= n,
            n == s@.len(),
            forall|i: int| 0 <= i < a ==> is_space(#[trigger] s@[i]),
        decreases n - a,
    {
        a = a + 1;
    }
    if a == n {
        proof {
            lemma_trim_start_subrange(s@, n as int);
            assert(s@.subrange(n as int, n as int) =~= Seq::<char>::empty());
            assert(trim_end(Seq::<char>::empty()) =~= Seq::<char>::empty());
        }
        return String::new();
    }
    let mut b: usize = n;
    while b > a && is_space_char(s.as_str().get_char(b - 1))
        invariant
            a <= b <= n,
            n == s@.len(),
            a < n,
            !is_space(s@[a as int]),
            forall|i: int| b <= i < n ==> is_space(#[trigger] s@[i]),
        decreases b,
    {
        b = b - 1;
    }
    proof {
        if b == a {
            assert(is_space(s@[a as int]));
        }
    }
    let trimmed = s.as_str().substring_char(a, b);
    proof {
        lemma_trim_start_subrange(s@, a as int);
        let tail = s@.subrange(a as int, n as int);
        lemma_trim_end_subrange(tail, b - a);
        assert(tail.subrange(0, b - a) =~= s@.subrange(a as int, b as int));
    }
    String::from_str(trimmed)
}

/// Encodes a list of phrases, each a list of words, as the engine's grammar
/// form: phrase strings in input order, as an encoded array of strings.
pub fn encode_grammar(phrases: &Vec<Vec<String>>) -> (r: String)
    ensures
        r@ == grammar_json(phrases_view(*phrases)),
{
    let ghost pv = phrases_view(*phrases);
    let mut strings: Vec<String> = Vec::new();
    let mut k: usize = 0;
    while k < phrases.len()
        invariant
            k <= phrases.len(),
            pv == phrases_view(*phrases),
            pv.len() == phrases@.len(),
            crate::json::string_views(strings@) == encoded_phrases(pv.take(k as int)),
            strings@.len() == k,
        decreases phrases.len() - k,
    {
        let ghost strings_before = strings@;
        let phrase = join_phrase(&phrases[k]);
        strings.push(phrase);
        proof {
            assert(pv[k as int] == words_view(phrases@[k as int]));
            assert(strings@ == strings_before.push(phrase));
            let lhs = crate::json::string_views(strings@);
            let rhs = encoded_phrases(pv.take(k as int + 1));
            assert(lhs.len() == k + 1 && rhs.len() == k + 1);
            assert forall|i: int| 0 <= i < lhs.len() implies lhs[i] == #[trigger] rhs[i] by {
                if i < k {
                    assert(crate::json::string_views(strings_before)[i] == encoded_phrases(
                        pv.take(k as int),
                    )[i]);
                    assert(lhs[i] == strings_before[i]@);
                    assert(rhs[i] == phrase_of(pv[i]));
                } else {
                    assert(lhs[i] == phrase@);
                    assert(rhs[i] == phrase_of(pv[k as int]));
                }
            }
            assert(lhs =~= rhs);
        }
        k = k + 1;
    }
    proof {
        assert(pv.take(phrases@.len() as int) =~= pv);
    }
    crate::json::encode_string_array(&strings)
}

/// Splits a flat vocabulary at whitespace into one phrase per word.
pub fn vocabulary_phrases(word_list: &str) -> (r: Vec<Vec<String>>)
    ensures
        phrases_view(r) == one_word_phrases(split_words(word_list@)),
{
    let ghost full = split_words(word_list@);
    let n = word_list.unicode_len();
    let mut r: Vec<Vec<String>> = Vec::new();
    let ghost mut found: Seq<Seq<char>> = Seq::empty();
    let mut i: usize = 0;
    proof {
        assert(word_list@.skip(0) =~= word_list@);
        assert(phrases_view_of(r@) =~= one_word_phrases(found));
    }
    while i < n
        invariant
            i <= n,
            n == word_list@.len(),
            full == split_words(word_list@),
            full == found + split_words(word_list@.skip(i as int)),
            phrases_view_of(r@) == one_word_phrases(found),
        decreases n - i,
    {
        if is_space_char(word_list.get_char(i)) {
            proof {
                lemma_split_words_skip_space(word_list@, i as int);
            }
            i = i + 1;
        } else {
            let mut j = i + 1;
            while j < n && !is_space_char(word_list.get_char(j))
                invariant
                    i < j <= n,
                    n == word_list@.len(),
                    forall|t: int| i <= t < j ==> !is_space(#[trigger] word_list@[t]),
                decreases n - j,
            {
                j = j + 1;
            }
            let word = String::from_str(word_list.substring_char(i, j));
            let mut phrase: Vec<String> = Vec::new();
            phrase.push(word);
            let ghost r_before = r@;
            let ghost w = word_list@.subrange(i as int, j as int);
            r.push(phrase);
            proof {
                lemma_split_words_word(word_list@, i as int, j as int);
                assert(found + split_words(word_list@.skip(i as int)) =~= found.push(w)
                    + split_words(word_list@.skip(j as int)));
                let lhs = phrases_view_of(r@);
                let rhs = one_word_phrases(found.push(w));
                assert(words_view(phrase) =~= seq![w]);
                assert(r@ == r_before.push(phrase));
                assert(phrases_view_of(r_before).len() == r_before.len());
                assert(one_word_phrases(found).len() == found.len());
                assert(lhs.len() == rhs.len());
                assert forall|t: int| 0 <= t < lhs.len() implies lhs[t] == #[trigger] rhs[t] by {
                    if t < r_before.len() {
                        assert(phrases_view_of(r_before)[t] == one_word_phrases(found)[t]);
                    }
                }
                assert(lhs =~= rhs);
                found = found.push(w);
            }
            i = j;
        }
    }
    proof {
        assert(word_list@.skip(n as int) =~= Seq::<char>::empty());
        assert(full =~= found);
    }
    r
}

/// Encodes a flat whitespace-separated vocabulary as the grammar with one
/// phrase per word: the split words themselves, unchanged and in order, as
/// an encoded array of strings.
pub fn encode_vocabulary(word_list: &str) -> (r: String)
    ensures
        r@ == grammar_json(one_word_phrases(split_words(word_list@))),
        r@ == json_string_array(split_words(word_list@)),
{
    let phrases = vocabulary_phrases(word_list);
    let encoded = encode_grammar(&phrases);
    proof {
        lemma_vocabulary_grammar(word_list@);
    }
    encoded
}

} // verus!
