//! Character-level text utilities: conversion between strings and character
//! vectors, substring search, replacement, word splitting and shortening.

use vstd::prelude::*;
use vstd::utf8::encode_utf8;

verus! {

/// `String::push`: appends one character to the end of the string.
#[verifier::external_body]
fn push_char(s: &mut String, c: char)
    ensures
        final(s)@ == old(s)@.push(c),
{
    s.push(c)
}

/// The characters of `s`, in order.
pub fn chars_of(s: &str) -> (out: Vec<char>)
    ensures
        out@ == s@,
{
    let mut out: Vec<char> = Vec::new();
    let chars = s.chars();
    for c in it: chars
        invariant
            out@ == it.seq().take(it.index()),
            it.seq() == s@,
    {
        out.push(c);
    }
    out
}

/// The string made of the characters of `chars`, in order.
pub fn string_of(chars: &Vec<char>) -> (out: String)
    ensures
        out@ == chars@,
{
    let mut out = String::new();
    let mut i: usize = 0;
    while i < chars.len()
        invariant
            i <= chars.len(),
            out@ == chars@.take(i as int),
        decreases chars.len() - i,
    {
        push_char(&mut out, chars[i]);
        i += 1;
    }
    out
}

/// `pattern` stands in `text` at position `at`.
pub open spec fn occurs_at(text: Seq<char>, pattern: Seq<char>, at: int) -> bool {
    &&& 0 <= at
    &&& at + pattern.len() <= text.len()
    &&& text.subrange(at, at + pattern.len()) == pattern
}

/// `text` begins with `pattern`.
pub open spec fn starts_with(text: Seq<char>, pattern: Seq<char>) -> bool {
    occurs_at(text, pattern, 0)
}

/// `pattern` stands somewhere in `text`.
pub open spec fn contains(text: Seq<char>, pattern: Seq<char>) -> bool {
    exists|at: int| occurs_at(text, pattern, at)
}

/// Whether `needle` stands in `hay` at position `at`.
pub fn matches_at(hay: &Vec<char>, needle: &Vec<char>, at: usize) -> (found: bool)
    ensures
        found == occurs_at(hay@, needle@, at as int),
{
    if needle.len() > hay.len() || at > hay.len() - needle.len() {
        return false;
    }
    let mut k: usize = 0;
    while k < needle.len()
        invariant
            k <= needle.len(),
            at + needle.len() <= hay.len(),
            forall|j: int| 0 <= j < k ==> hay@[at + j] == needle@[j],
        decreases needle.len() - k,
    {
        if hay[at + k] != needle[k] {
            proof {
                let window = hay@.subrange(at as int, at + needle.len());
                assert(window[k as int] == hay@[at + k]);
            }
            return false;
        }
        k += 1;
    }
    proof {
        assert(hay@.subrange(at as int, at + needle.len()) =~= needle@);
    }
    true
}

/// Whether `needle` stands somewhere in `hay`.
pub fn contains_chars(hay: &Vec<char>, needle: &Vec<char>) -> (found: bool)
    ensures
        found == contains(hay@, needle@),
{
    if needle.len() > hay.len() {
        return false;
    }
    if needle.len() == 0 {
        proof {
            assert(hay@.subrange(0, 0) =~= needle@);
            assert(occurs_at(hay@, needle@, 0));
        }
        return true;
    }
    let last: usize = hay.len() - needle.len();
    let mut at: usize = 0;
    while at <= last
        invariant
            needle.len() > 0,
            last == hay.len() - needle.len(),
            at <= last + 1,
            forall|j: int| 0 <= j < at ==> !occurs_at(hay@, needle@, j),
        decreases last + 1 - at,
    {
        if matches_at(hay, needle, at) {
            return true;
        }
        at += 1;
    }
    false
}

/// The three dots that mark a shortened text.
pub open spec fn ellipsis() -> Seq<char> {
    seq!['.', '.', '.']
}

/// `text` shortened to at most `max_len` characters, counted as characters
/// and not as bytes. A text that is too long keeps its first `max_len - 3`
/// characters, followed by the three dots; where `max_len` leaves no room
/// for a character of the text, as many of the dots remain as fit.
pub open spec fn truncated(text: Seq<char>, max_len: nat) -> Seq<char> {
    if text.len() <= max_len {
        text
    } else if max_len <= 3 {
        ellipsis().take(max_len as int)
    } else {
        text.take(max_len - 3) + ellipsis()
    }
}

/// Shortens `s` to at most `max_len` characters, marking the cut with dots.
pub fn truncate(s: &str, max_len: usize) -> (out: String)
    ensures
        out@ == truncated(s@, max_len as nat),
        s@.len() <= max_len ==> out@ == s@,
        out@.len() <= max_len,
{
    let chars = chars_of(s);
    if chars.len() <= max_len {
        return string_of(&chars);
    }
    let mut kept: Vec<char> = Vec::new();
    let dots: usize = if max_len > 3 {
        let keep: usize = max_len - 3;
        let mut i: usize = 0;
        while i < keep
            invariant
                i <= keep,
                keep < chars.len(),
                kept@ == chars@.take(i as int),
            decreases keep - i,
        {
            kept.push(chars[i]);
            i += 1;
        }
        3
    } else {
        max_len
    };
    let ghost prefix = kept@;
    let mut k: usize = 0;
    while k < dots
        invariant
            k <= dots <= 3,
            kept@ == prefix + ellipsis().take(k as int),
        decreases dots - k,
    {
        kept.push('.');
        proof {
            assert(kept@ =~= prefix + ellipsis().take(k + 1));
        }
        k += 1;
    }
    proof {
        assert(ellipsis().take(3) =~= ellipsis());
        assert(Seq::<char>::empty() + ellipsis().take(dots as int) =~= ellipsis().take(
            dots as int,
        ));
    }
    string_of(&kept)
}

/// Shortening a text that already fits leaves it as it is.
pub proof fn lemma_truncated_short_is_unchanged(text: Seq<char>, max_len: nat)
    requires
        text.len() <= max_len,
    ensures
        truncated(text, max_len) == text,
{
}

/// Shortening twice gives what shortening once gives.
pub proof fn lemma_truncated_is_idempotent(text: Seq<char>, max_len: nat)
    ensures
        truncated(truncated(text, max_len), max_len) == truncated(text, max_len),
{
}

/// A shortened text never has more than `max_len` characters.
pub proof fn lemma_truncated_fits(text: Seq<char>, max_len: nat)
    ensures
        truncated(text, max_len).len() <= max_len,
{
}

/// A shortened text is the whole text, or some of its leading characters,
/// each kept whole, followed by the dots or by as many of them as fit.
pub proof fn lemma_truncated_keeps_whole_characters(text: Seq<char>, max_len: nat)
    ensures
        truncated(text, max_len) == text || exists|kept: int, dots: int|
            0 <= kept <= text.len() && 0 <= dots <= 3 && #[trigger] text.take(kept)
                + #[trigger] ellipsis().take(dots) == truncated(text, max_len),
{
    if text.len() > max_len {
        if max_len <= 3 {
            assert(text.take(0) + ellipsis().take(max_len as int) =~= truncated(text, max_len));
        } else {
            assert(ellipsis().take(3) =~= ellipsis());
            assert(text.take(max_len - 3) + ellipsis().take(3) == truncated(text, max_len));
        }
    }
}

/// `text` with every occurrence of the non-empty `pattern` replaced by
/// `with`, found from left to right without overlap.
pub open spec fn replaced(text: Seq<char>, pattern: Seq<char>, with: Seq<char>) -> Seq<char>
    decreases text.len(),
{
    if pattern.len() == 0 || text.len() < pattern.len() {
        text
    } else if occurs_at(text, pattern, 0) {
        with + replaced(text.skip(pattern.len() as int), pattern, with)
    } else {
        seq![text[0]] + replaced(text.skip(1), pattern, with)
    }
}

/// Replaces every occurrence of `pattern` in `text` by `with`.
pub fn replace_chars(text: &Vec<char>, pattern: &Vec<char>, with: &Vec<char>) -> (out: Vec<char>)
    ensures
        out@ == replaced(text@, pattern@, with@),
{
    if pattern.len() == 0 {
        return text.clone();
    }
    let mut out: Vec<char> = Vec::new();
    let mut at: usize = 0;
    proof {
        assert(text@.skip(0) =~= text@);
        assert(out@ + replaced(text@, pattern@, with@) =~= replaced(text@, pattern@, with@));
    }
    while at < text.len()
        invariant
            pattern.len() > 0,
            at <= text.len(),
            out@ + replaced(text@.skip(at as int), pattern@, with@) == replaced(
                text@,
                pattern@,
                with@,
            ),
        decreases text.len() - at,
    {
        let ghost rest = text@.skip(at as int);
        let ghost before = out@;
        if matches_at(text, pattern, at) {
            let mut k: usize = 0;
            while k < with.len()
                invariant
                    k <= with.len(),
                    out@ == before + with@.take(k as int),
                decreases with.len() - k,
            {
                out.push(with[k]);
                k += 1;
            }
            proof {
                assert(rest.subrange(0, pattern@.len() as int) =~= text@.subrange(
                    at as int,
                    at + pattern@.len(),
                ));
                assert(occurs_at(rest, pattern@, 0));
                assert(rest.skip(pattern@.len() as int) =~= text@.skip(at + pattern@.len()));
                assert(with@.take(with@.len() as int) =~= with@);
                assert(out@ + replaced(text@.skip(at + pattern@.len()), pattern@, with@) =~= before
                    + (with@ + replaced(rest.skip(pattern@.len() as int), pattern@, with@)));
            }
            at += pattern.len();
        } else {
            out.push(text[at]);
            proof {
                if rest.len() >= pattern@.len() {
                    assert(rest.subrange(0, pattern@.len() as int) =~= text@.subrange(
                        at as int,
                        at + pattern@.len(),
                    ));
                    assert(!occurs_at(rest, pattern@, 0));
                }
                assert(rest.skip(1) =~= text@.skip(at + 1));
                lemma_replaced_without_match(rest, pattern@, with@);
                assert(out@ + replaced(text@.skip(at + 1), pattern@, with@) =~= before + (seq![
                    rest[0],
                ] + replaced(rest.skip(1), pattern@, with@)));
            }
            at += 1;
        }
    }
    proof {
        assert(text@.skip(text@.len() as int) =~= Seq::<char>::empty());
        assert(out@ + Seq::<char>::empty() =~= out@);
    }
    out
}

/// Where the pattern does not stand at the start of a non-empty text, the
/// first character is kept and the rest is replaced.
proof fn lemma_replaced_without_match(text: Seq<char>, pattern: Seq<char>, with: Seq<char>)
    requires
        pattern.len() > 0,
        text.len() > 0,
        !occurs_at(text, pattern, 0),
    ensures
        replaced(text, pattern, with) == seq![text[0]] + replaced(text.skip(1), pattern, with),
    decreases text.len(),
{
    if text.len() < pattern.len() {
        assert(replaced(text, pattern, with) == text);
        let tail = text.skip(1);
        assert(tail.len() < pattern.len());
        assert(replaced(tail, pattern, with) == tail);
        assert(seq![text[0]] + tail =~= text);
    }
}

/// Whether `c` is white space as Unicode defines it: one of the 25
/// characters that have the property `White_Space`. These are the controls
/// from tab to carriage return, the space, next line, the no-break space,
/// the ogham space mark, the spaces from en quad to hair space, the line
/// and the paragraph separator, the narrow no-break space, the medium
/// mathematical space and the ideographic space.
pub open spec fn is_whitespace(c: char) -> bool {
    let code = c as u32;
    ||| 0x0009 <= code <= 0x000D
    ||| code == 0x0020
    ||| code == 0x0085
    ||| code == 0x00A0
    ||| code == 0x1680
    ||| 0x2000 <= code <= 0x200A
    ||| code == 0x2028
    ||| code == 0x2029
    ||| code == 0x202F
    ||| code == 0x205F
    ||| code == 0x3000
}

/// `char::is_whitespace`: tells whether the character has the Unicode
/// property `White_Space`, which is the set that `is_whitespace` lists.
#[verifier::external_body]
fn char_is_whitespace(c: char) -> (white: bool)
    ensures
        white == is_whitespace(c),
{
    c.is_whitespace()
}

/// The number of leading characters of `text` that are not white space.
pub open spec fn word_length(text: Seq<char>) -> nat
    decreases text.len(),
{
    if text.len() == 0 || is_whitespace(text[0]) {
        0
    } else {
        1 + word_length(text.skip(1))
    }
}

/// The words of `text`: its longest runs of characters that are not white
/// space, in order.
pub open spec fn words(text: Seq<char>) -> Seq<Seq<char>>
    decreases text.len(),
{
    if text.len() == 0 {
        Seq::empty()
    } else if is_whitespace(text[0]) {
        words(text.skip(1))
    } else {
        let n = word_length(text);
        proof {
            lemma_word_length_bounds(text);
        }
        seq![text.take(n as int)] + words(text.skip(n as int))
    }
}

/// A word is no longer than its text, and not empty where the text starts
/// with a character that is not white space.
pub proof fn lemma_word_length_bounds(text: Seq<char>)
    ensures
        word_length(text) <= text.len(),
        text.len() > 0 && !is_whitespace(text[0]) ==> word_length(text) >= 1,
    decreases text.len(),
{
    if text.len() > 0 && !is_whitespace(text[0]) {
        lemma_word_length_bounds(text.skip(1));
    }
}

/// A run of `n` characters without white space that ends at white space or
/// at the end of the text is the first word.
proof fn lemma_word_length(text: Seq<char>, n: int)
    requires
        0 <= n <= text.len(),
        forall|j: int| 0 <= j < n ==> !is_whitespace(text[j]),
        n == text.len() || is_whitespace(text[n]),
    ensures
        word_length(text) == n,
    decreases n,
{
    if n > 0 {
        let tail = text.skip(1);
        assert forall|j: int| 0 <= j < n - 1 implies !is_whitespace(tail[j]) by {
            assert(tail[j] == text[j + 1]);
        }
        lemma_word_length(tail, n - 1);
    }
}

/// Splits `text` into its words.
pub fn split_words(text: &Vec<char>) -> (out: Vec<String>)
    ensures
        out.deep_view() == words(text@),
{
    let mut out: Vec<String> = Vec::new();
    let mut at: usize = 0;
    proof {
        assert(text@.skip(0) =~= text@);
        assert(out.deep_view() + words(text@) =~= words(text@));
    }
    while at < text.len()
        invariant
            at <= text.len(),
            out.deep_view() + words(text@.skip(at as int)) == words(text@),
        decreases text.len() - at,
    {
        let ghost rest = text@.skip(at as int);
        if char_is_whitespace(text[at]) {
            proof {
                assert(rest.skip(1) =~= text@.skip(at + 1));
            }
            at += 1;
        } else {
            let start: usize = at;
            let mut word: Vec<char> = Vec::new();
            while at < text.len() && !char_is_whitespace(text[at])
                invariant
                    start <= at <= text.len(),
                    word@ == text@.subrange(start as int, at as int),
                    forall|j: int| start <= j < at ==> !is_whitespace(text@[j]),
                decreases text.len() - at,
            {
                word.push(text[at]);
                at += 1;
                proof {
                    assert(word@ =~= text@.subrange(start as int, at as int));
                }
            }
            let ghost before = out.deep_view();
            proof {
                let n = at - start;
                assert forall|j: int| 0 <= j < n implies !is_whitespace(rest[j]) by {
                    assert(rest[j] == text@[start + j]);
                }
                lemma_word_length(rest, n);
                assert(rest.take(n) =~= word@);
                assert(rest.skip(n) =~= text@.skip(at as int));
            }
            out.push(string_of(&word));
            proof {
                assert(out.deep_view() =~= before.push(word@));
                assert(before.push(word@) + words(text@.skip(at as int)) =~= before + (seq![word@]
                    + words(text@.skip(at as int))));
            }
        }
    }
    proof {
        assert(text@.skip(text@.len() as int) =~= Seq::<char>::empty());
        assert(out.deep_view() + Seq::<Seq<char>>::empty() =~= out.deep_view());
    }
    out
}

/// The parts written one after another with `sep` between neighbours.
pub open spec fn joined(parts: Seq<Seq<char>>, sep: Seq<char>) -> Seq<char>
    decreases parts.len(),
{
    if parts.len() == 0 {
        Seq::empty()
    } else if parts.len() == 1 {
        parts[0]
    } else {
        joined(parts.drop_last(), sep) + sep + parts.last()
    }
}

/// Writes the parts one after another with `sep` between neighbours.
pub fn join_strings(parts: &Vec<String>, sep: &str) -> (out: String)
    ensures
        out@ == joined(parts.deep_view(), sep@),
{
    let mut out = String::new();
    let mut i: usize = 0;
    proof {
        assert(parts.deep_view().take(0) =~= Seq::<Seq<char>>::empty());
    }
    while i < parts.len()
        invariant
            i <= parts.len(),
            out@ == joined(parts.deep_view().take(i as int), sep@),
        decreases parts.len() - i,
    {
        let ghost done = parts.deep_view().take(i as int);
        let ghost next = parts.deep_view().take(i + 1);
        proof {
            assert(next.drop_last() =~= done);
            assert(next.last() == parts@[i as int]@);
        }
        if i > 0 {
            out.append(sep);
        }
        out.append(parts[i].as_str());
        proof {
            if i == 0 {
                assert(out@ =~= parts@[0]@);
            }
        }
        i += 1;
    }
    proof {
        assert(parts.deep_view().take(parts.len() as int) =~= parts.deep_view());
    }
    out
}

/// Whether `pattern` stands somewhere in `text`.
pub fn contains_str(text: &str, pattern: &str) -> (found: bool)
    ensures
        found == contains(text@, pattern@),
{
    let hay = chars_of(text);
    let needle = chars_of(pattern);
    contains_chars(&hay, &needle)
}

/// Whether the two texts are the same.
pub fn same_text(a: &str, b: &str) -> (same: bool)
    ensures
        same == (a@ == b@),
{
    let left = chars_of(a);
    let right = chars_of(b);
    if left.len() != right.len() {
        return false;
    }
    let same = matches_at(&left, &right, 0);
    proof {
        assert(left@.subrange(0, left@.len() as int) =~= left@);
    }
    same
}

/// Whether `text` begins with `pattern`.
pub fn starts_with_str(text: &str, pattern: &str) -> (found: bool)
    ensures
        found == starts_with(text@, pattern@),
{
    let hay = chars_of(text);
    let needle = chars_of(pattern);
    matches_at(&hay, &needle, 0)
}

/// What `str::to_lowercase` makes of a text: its lowercase form under the
/// Unicode case mapping.
pub uninterp spec fn lowercase(text: Seq<char>) -> Seq<char>;

/// `str::to_lowercase`: the lowercase form of `s` as a new string. The
/// result depends on the characters of `s` alone.
#[verifier::external_body]
pub(crate) fn lowercase_of(s: &str) -> (out: String)
    ensures
        out@ == lowercase(s@),
{
    s.to_lowercase()
}

/// Whether a word is a link or names a hosting site, and so is left out
/// of cleaned text.
pub open spec fn is_link_word(word: Seq<char>) -> bool {
    ||| starts_with(word, "http"@)
    ||| contains(word, "github.com"@)
    ||| contains(word, "gamebanana.com"@)
}

/// `text` without the wiki markup brackets `[[`, `]]`, `{{`, `}}`, without
/// empty parentheses, and with each pair of spaces, found from the left,
/// turned into one space.
pub open spec fn without_markup(text: Seq<char>) -> Seq<char> {
    let a = replaced(text, "[["@, Seq::empty());
    let b = replaced(a, "]]"@, Seq::empty());
    let c = replaced(b, "{{"@, Seq::empty());
    let d = replaced(c, "}}"@, Seq::empty());
    let e = replaced(d, "()"@, Seq::empty());
    replaced(e, "  "@, " "@)
}

/// The words among `all` that are no link words, in order.
pub open spec fn plain_words(all: Seq<Seq<char>>) -> Seq<Seq<char>> {
    all.filter(|word: Seq<char>| !is_link_word(word))
}

/// The cleaned form of `text`: its words that are no link words, joined by
/// single spaces, without markup.
pub open spec fn cleaned(text: Seq<char>) -> Seq<char> {
    without_markup(joined(plain_words(words(text)), " "@))
}

/// How the plain words grow when one more word is considered.
proof fn lemma_plain_words_step(all: Seq<Seq<char>>, n: int)
    requires
        0 <= n < all.len(),
    ensures
        plain_words(all.take(n + 1)) == if is_link_word(all[n]) {
            plain_words(all.take(n))
        } else {
            plain_words(all.take(n)).push(all[n])
        },
{
    reveal(Seq::filter);
    assert(all.take(n + 1).drop_last() =~= all.take(n));
}

/// Whether `word` is a link word.
pub fn is_link(word: &str) -> (link: bool)
    ensures
        link == is_link_word(word@),
{
    let chars = chars_of(word);
    matches_at(&chars, &chars_of("http"), 0) || contains_chars(&chars, &chars_of("github.com"))
        || contains_chars(&chars, &chars_of("gamebanana.com"))
}

/// Removes the markup from `text`.
pub fn strip_markup(text: &Vec<char>) -> (out: Vec<char>)
    ensures
        out@ == without_markup(text@),
{
    let nothing: Vec<char> = Vec::new();
    let a = replace_chars(text, &chars_of("[["), &nothing);
    let b = replace_chars(&a, &chars_of("]]"), &nothing);
    let c = replace_chars(&b, &chars_of("{{"), &nothing);
    let d = replace_chars(&c, &chars_of("}}"), &nothing);
    let e = replace_chars(&d, &chars_of("()"), &nothing);
    replace_chars(&e, &chars_of("  "), &chars_of(" "))
}

/// Cleans a text taken from a page: drops link words, squeezes white space
/// between words into single spaces and removes markup.
pub fn clean_text(text: &str) -> (out: String)
    ensures
        out@ == cleaned(text@),
{
    let all = split_words(&chars_of(text));
    let mut kept: Vec<String> = Vec::new();
    let mut i: usize = 0;
    proof {
        reveal(Seq::filter);
        assert(all.deep_view().take(0) =~= Seq::<Seq<char>>::empty());
        assert(kept.deep_view() =~= Seq::<Seq<char>>::empty());
    }
    while i < all.len()
        invariant
            i <= all.len(),
            kept.deep_view() == plain_words(all.deep_view().take(i as int)),
        decreases all.len() - i,
    {
        let ghost before = kept.deep_view();
        proof {
            lemma_plain_words_step(all.deep_view(), i as int);
        }
        if !is_link(all[i].as_str()) {
            kept.push(all[i].clone());
            proof {
                assert(kept.deep_view() =~= before.push(all@[i as int]@));
            }
        }
        i += 1;
    }
    proof {
        assert(all.deep_view().take(all.len() as int) =~= all.deep_view());
    }
    let line = join_strings(&kept, " ");
    string_of(&strip_markup(&chars_of(line.as_str())))
}

/// The number of bytes that `text` takes in UTF-8.
pub open spec fn byte_length(text: Seq<char>) -> nat {
    encode_utf8(text).len()
}

/// The number of bytes that `s` takes in UTF-8.
pub fn byte_len(s: &str) -> (n: usize)
    ensures
        n == byte_length(s@),
{
    s.as_bytes().len()
}

/// `text` without its leading white space.
pub open spec fn trimmed_start(text: Seq<char>) -> Seq<char>
    decreases text.len(),
{
    if text.len() > 0 && is_whitespace(text[0]) {
        trimmed_start(text.skip(1))
    } else {
        text
    }
}

/// `text` without its trailing white space.
pub open spec fn trimmed_end(text: Seq<char>) -> Seq<char>
    decreases text.len(),
{
    if text.len() > 0 && is_whitespace(text.last()) {
        trimmed_end(text.drop_last())
    } else {
        text
    }
}

/// `text` without white space at either end.
pub open spec fn trimmed(text: Seq<char>) -> Seq<char> {
    trimmed_end(trimmed_start(text))
}

/// Trimming makes a text no longer.
pub proof fn lemma_trimmed_is_no_longer(text: Seq<char>)
    ensures
        trimmed(text).len() <= text.len(),
{
    lemma_trimmed_start_is_no_longer(text);
    lemma_trimmed_end_is_no_longer(trimmed_start(text));
}

/// Dropping leading white space makes a text no longer.
proof fn lemma_trimmed_start_is_no_longer(text: Seq<char>)
    ensures
        trimmed_start(text).len() <= text.len(),
    decreases text.len(),
{
    if text.len() > 0 && is_whitespace(text[0]) {
        lemma_trimmed_start_is_no_longer(text.skip(1));
    }
}

/// Dropping trailing white space makes a text no longer.
proof fn lemma_trimmed_end_is_no_longer(text: Seq<char>)
    ensures
        trimmed_end(text).len() <= text.len(),
    decreases text.len(),
{
    if text.len() > 0 && is_whitespace(text.last()) {
        lemma_trimmed_end_is_no_longer(text.drop_last());
    }
}

/// Removes the white space at both ends of `s`.
pub fn trim(s: &str) -> (out: String)
    ensures
        out@ == trimmed(s@),
{
    let chars = chars_of(s);
    let mut from: usize = 0;
    proof {
        assert(chars@.skip(0) =~= chars@);
    }
    while from < chars.len() && char_is_whitespace(chars[from])
        invariant
            from <= chars.len(),
            trimmed_start(chars@.skip(from as int)) == trimmed_start(chars@),
        decreases chars.len() - from,
    {
        proof {
            assert(chars@.skip(from as int).skip(1) =~= chars@.skip(from + 1));
        }
        from += 1;
    }
    let mut to: usize = chars.len();
    proof {
        assert(chars@.subrange(from as int, to as int) =~= chars@.skip(from as int));
    }
    while to > from && char_is_whitespace(chars[to - 1])
        invariant
            from <= to <= chars.len(),
            trimmed_start(chars@) == chars@.skip(from as int),
            trimmed_end(chars@.subrange(from as int, to as int)) == trimmed(chars@),
        decreases to,
    {
        proof {
            assert(chars@.subrange(from as int, to as int).drop_last() =~= chars@.subrange(
                from as int,
                to - 1,
            ));
        }
        to -= 1;
    }
    let mut kept: Vec<char> = Vec::new();
    let mut i: usize = from;
    while i < to
        invariant
            from <= i <= to <= chars.len(),
            kept@ == chars@.subrange(from as int, i as int),
        decreases to - i,
    {
        kept.push(chars[i]);
        proof {
            assert(kept@ =~= chars@.subrange(from as int, i + 1));
        }
        i += 1;
    }
    string_of(&kept)
}

/// Every character of the text is white space.
pub open spec fn is_blank_text(text: Seq<char>) -> bool {
    forall|i: int| 0 <= i < text.len() ==> is_whitespace(text[i])
}

/// Whether every character of `s` is white space.
pub fn is_blank(s: &str) -> (blank: bool)
    ensures
        blank == is_blank_text(s@),
{
    let chars = chars_of(s);
    let mut i: usize = 0;
    while i < chars.len()
        invariant
            i <= chars.len(),
            chars@ == s@,
            forall|j: int| 0 <= j < i ==> is_whitespace(s@[j]),
        decreases chars.len() - i,
    {
        if !char_is_whitespace(chars[i]) {
            return false;
        }
        i += 1;
    }
    true
}

} // verus!
