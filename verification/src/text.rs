//! Text primitives shared by the other modules.
//!
//! Strings are reasoned about as sequences of characters.  What depends on
//! the Unicode character database (which characters are letters, how a
//! string is lowercased) is taken from the standard library; each such fact
//! has a name here, and the name stands for whatever the standard library
//! answers.

use vstd::prelude::*;
use vstd::string::StringExecFns;

verus! {

/// Whether `c` has the Unicode property `Alphabetic`: the answer of
/// `char::is_alphabetic`.
pub uninterp spec fn unicode_alphabetic(c: char) -> bool;

/// Whether `c` has the Unicode property `Uppercase`: the answer of
/// `char::is_uppercase`.
pub uninterp spec fn unicode_uppercase(c: char) -> bool;

/// Whether `c` has the Unicode property `White_Space`: the answer of
/// `char::is_whitespace`.
pub uninterp spec fn unicode_whitespace(c: char) -> bool;

/// The lowercase mapping of `c`: the characters that `char::to_lowercase`
/// yields, in order.
pub uninterp spec fn lowercase_mapping(c: char) -> Seq<char>;

/// The uppercase mapping of `c`: the characters that `char::to_uppercase`
/// yields, in order.
pub uninterp spec fn uppercase_mapping(c: char) -> Seq<char>;

/// The lowercase equivalent of the string `s`: the result of
/// `str::to_lowercase`.
pub uninterp spec fn lowercase_of(s: Seq<char>) -> Seq<char>;

/// Taken on trust: `char::is_alphabetic` answers with the property named
/// [`unicode_alphabetic`], and the same character always gets the same
/// answer.
pub assume_specification[ char::is_alphabetic ](c: char) -> (r: bool)
    ensures
        r == unicode_alphabetic(c),
;

/// Taken on trust: `char::is_uppercase` answers with the property named
/// [`unicode_uppercase`], and the same character always gets the same
/// answer.
pub assume_specification[ char::is_uppercase ](c: char) -> (r: bool)
    ensures
        r == unicode_uppercase(c),
;

/// Taken on trust: `char::is_whitespace` answers with the property named
/// [`unicode_whitespace`], and the same character always gets the same
/// answer.
pub assume_specification[ char::is_whitespace ](c: char) -> (r: bool)
    ensures
        r == unicode_whitespace(c),
;

/// Taken on trust: `str::to_lowercase` returns the string named
/// [`lowercase_of`], which depends on the characters of its argument alone.
pub assume_specification[ str::to_lowercase ](s: &str) -> (r: String)
    ensures
        r@ == lowercase_of(s@),
;

/// Taken on trust: `String::push` appends the character to the end of the
/// string and changes nothing else.
pub assume_specification[ String::push ](s: &mut String, c: char)
    ensures
        final(s)@ == old(s)@.push(c),
;

/// Calls `char::to_lowercase` and collects what it yields.  Taken on
/// trust: the characters are the mapping named [`lowercase_mapping`], the
/// same for the same character.
#[verifier::external_body]
pub(crate) fn char_to_lowercase(c: char) -> (r: Vec<char>)
    ensures
        r@ == lowercase_mapping(c),
{
    c.to_lowercase().collect()
}

/// Calls `char::to_uppercase` and collects what it yields.  Taken on
/// trust: the characters are the mapping named [`uppercase_mapping`], the
/// same for the same character.
#[verifier::external_body]
pub(crate) fn char_to_uppercase(c: char) -> (r: Vec<char>)
    ensures
        r@ == uppercase_mapping(c),
{
    c.to_uppercase().collect()
}

/// Whether `needle` occurs in `haystack` as a contiguous run of characters.
pub open spec fn is_substring(needle: Seq<char>, haystack: Seq<char>) -> bool {
    exists|i: int|
        0 <= i <= haystack.len() - needle.len() && #[trigger] haystack.subrange(
            i,
            i + needle.len(),
        ) == needle
}

/// Calls `str::contains` with a string pattern.  Taken on trust: it
/// reports whether the pattern occurs in the string as a contiguous run of
/// characters.
#[verifier::external_body]
pub(crate) fn str_contains(haystack: &str, needle: &str) -> (r: bool)
    ensures
        r == is_substring(needle@, haystack@),
{
    haystack.contains(needle)
}

/// The number of characters of `s` before its first line feed, or the
/// length of `s` if it holds none.
pub open spec fn line_len(s: Seq<char>) -> nat
    decreases s.len(),
{
    if s.len() == 0 || s[0] == '\n' {
        0
    } else {
        1 + line_len(s.drop_first())
    }
}

/// A line without the carriage return that preceded its line feed.
pub open spec fn without_carriage_return(line: Seq<char>) -> Seq<char> {
    if line.len() > 0 && line.last() == '\r' {
        line.drop_last()
    } else {
        line
    }
}

/// The lines of `s`.
///
/// A line ends at a line feed, or at a carriage return directly followed by
/// a line feed; the line ending is not part of the line.  The last line
/// needs no line ending, and a text that ends in one has no empty line
/// after it.
pub open spec fn lines_of(s: Seq<char>) -> Seq<Seq<char>>
    decreases s.len(),
{
    if s.len() == 0 {
        Seq::empty()
    } else {
        let n = line_len(s) as int;
        if n < s.len() {
            seq![without_carriage_return(s.take(n))] + lines_of(s.skip(n + 1))
        } else {
            seq![s]
        }
    }
}

/// The character sequences that a sequence of string slices stands for.
pub open spec fn str_views(slices: Seq<&str>) -> Seq<Seq<char>> {
    slices.map_values(|slice: &str| slice@)
}

/// The character sequences that a sequence of strings stands for.
pub open spec fn string_views(strings: Seq<String>) -> Seq<Seq<char>> {
    strings.map_values(|string: String| string@)
}

/// Calls `str::lines` and collects the slices it yields.  Taken on trust:
/// they are the lines of the text as [`lines_of`] defines them, in order.
#[verifier::external_body]
pub(crate) fn str_lines<'a>(text: &'a str) -> (r: Vec<&'a str>)
    ensures
        str_views(r@) == lines_of(text@),
{
    text.lines().collect()
}

/// The characters of `s`, in order.
pub fn chars_of(s: &str) -> (v: Vec<char>)
    ensures
        v@ == s@,
{
    broadcast use vstd::string::group_string_axioms;

    let mut v: Vec<char> = Vec::new();
    for c in it: s.chars()
        invariant
            v@ == it.seq().take(it.index() as int),
    {
        v.push(c);
    }
    v
}

/// A character together with what the Unicode character database says of
/// it.  The text algorithms read these fields and nothing else, so they are
/// defined for every combination of values.
#[derive(Clone, Copy, PartialEq, Eq, Debug)]
pub struct Glyph {
    /// The character itself.
    pub ch: char,
    /// Whether it is a letter.
    pub alphabetic: bool,
    /// Whether it is an uppercase letter.
    pub uppercase: bool,
    /// Whether it is white space.
    pub whitespace: bool,
    /// The first character of its lowercase mapping, if the mapping has one.
    pub lower: Option<char>,
    /// The first character of its uppercase mapping, if the mapping has one.
    pub upper: Option<char>,
}

/// The first element of `mapping`, if it has one.
pub open spec fn first_of(mapping: Seq<char>) -> Option<char> {
    if mapping.len() > 0 {
        Some(mapping[0])
    } else {
        None
    }
}

/// The glyph of `c`: the character with its Unicode properties.
pub open spec fn glyph_of(c: char) -> Glyph {
    Glyph {
        ch: c,
        alphabetic: unicode_alphabetic(c),
        uppercase: unicode_uppercase(c),
        whitespace: unicode_whitespace(c),
        lower: first_of(lowercase_mapping(c)),
        upper: first_of(uppercase_mapping(c)),
    }
}

/// The glyphs of the characters of `s`.
pub open spec fn glyphs_of(s: Seq<char>) -> Seq<Glyph> {
    s.map_values(|c: char| glyph_of(c))
}

/// The characters of `glyphs`.
pub open spec fn chars_in(glyphs: Seq<Glyph>) -> Seq<char> {
    glyphs.map_values(|g: Glyph| g.ch)
}

/// The first element of `mapping`, if it has one.
fn first_char(mapping: &Vec<char>) -> (first: Option<char>)
    ensures
        first == first_of(mapping@),
{
    if mapping.len() > 0 {
        Some(mapping[0])
    } else {
        None
    }
}

/// Looks up the Unicode properties of `c`.
pub fn classify(c: char) -> (g: Glyph)
    ensures
        g == glyph_of(c),
{
    let lower = char_to_lowercase(c);
    let upper = char_to_uppercase(c);
    Glyph {
        ch: c,
        alphabetic: c.is_alphabetic(),
        uppercase: c.is_uppercase(),
        whitespace: c.is_whitespace(),
        lower: first_char(&lower),
        upper: first_char(&upper),
    }
}

/// Looks up the Unicode properties of every character of `s`.
pub fn classify_str(s: &str) -> (glyphs: Vec<Glyph>)
    ensures
        glyphs@ == glyphs_of(s@),
{
    let chars = chars_of(s);
    let mut glyphs: Vec<Glyph> = Vec::new();
    let mut i: usize = 0;
    while i < chars.len()
        invariant
            i <= chars@.len(),
            glyphs@.len() == i,
            forall|j: int| 0 <= j < i ==> #[trigger] glyphs@[j] == glyph_of(chars@[j]),
        decreases chars@.len() - i,
    {
        glyphs.push(classify(chars[i]));
        i += 1;
    }
    assert(glyphs@ =~= glyphs_of(s@));
    glyphs
}

/// The string made of the characters of `glyphs`.
pub fn spell(glyphs: &Vec<Glyph>) -> (s: String)
    ensures
        s@ == chars_in(glyphs@),
{
    let mut s = String::new();
    let mut i: usize = 0;
    while i < glyphs.len()
        invariant
            i <= glyphs@.len(),
            s@ == chars_in(glyphs@.take(i as int)),
        decreases glyphs@.len() - i,
    {
        s.push(glyphs[i].ch);
        i += 1;
        assert(s@ =~= chars_in(glyphs@.take(i as int)));
    }
    assert(glyphs@.take(i as int) =~= glyphs@);
    s
}

/// The length of the longest prefix of `glyphs` whose glyphs all satisfy
/// `keep`.
pub open spec fn leading(glyphs: Seq<Glyph>, keep: spec_fn(Glyph) -> bool) -> nat
    decreases glyphs.len(),
{
    if glyphs.len() == 0 || !keep(glyphs[0]) {
        0
    } else {
        1 + leading(glyphs.drop_first(), keep)
    }
}

/// A leading run is no longer than the text, and it is not empty if the
/// first glyph belongs to it.
pub proof fn lemma_leading_bounds(glyphs: Seq<Glyph>, keep: spec_fn(Glyph) -> bool)
    ensures
        leading(glyphs, keep) <= glyphs.len(),
        glyphs.len() > 0 && keep(glyphs[0]) ==> leading(glyphs, keep) >= 1,
    decreases glyphs.len(),
{
    if glyphs.len() > 0 && keep(glyphs[0]) {
        lemma_leading_bounds(glyphs.drop_first(), keep);
    }
}

/// A run of kept glyphs that ends at a glyph that is not kept, or at the end
/// of the text, is the whole leading run.
pub proof fn lemma_leading_of_run(glyphs: Seq<Glyph>, keep: spec_fn(Glyph) -> bool, end: int)
    requires
        0 <= end <= glyphs.len(),
        forall|j: int| 0 <= j < end ==> keep(#[trigger] glyphs[j]),
        end == glyphs.len() || !keep(glyphs[end]),
    ensures
        leading(glyphs, keep) == end,
    decreases end,
{
    if end > 0 {
        let rest = glyphs.drop_first();
        assert forall|j: int| 0 <= j < end - 1 implies keep(#[trigger] rest[j]) by {
            assert(rest[j] == glyphs[j + 1]);
        }
        lemma_leading_of_run(rest, keep, end - 1);
    }
}

/// The glyphs that can stand in a word: all but white space.
pub open spec fn in_word() -> spec_fn(Glyph) -> bool {
    |g: Glyph| !g.whitespace
}

/// The words of `glyphs`: the maximal runs of glyphs that are not white
/// space, in their order.  White space separates words and belongs to none.
pub open spec fn words(glyphs: Seq<Glyph>) -> Seq<Seq<Glyph>>
    decreases glyphs.len(),
{
    if glyphs.len() == 0 {
        Seq::empty()
    } else if glyphs[0].whitespace {
        words(glyphs.drop_first())
    } else {
        let n = leading(glyphs, in_word()) as int;
        proof {
            lemma_leading_bounds(glyphs, in_word());
        }
        seq![glyphs.take(n)] + words(glyphs.skip(n))
    }
}

/// The glyph sequences that a sequence of glyph vectors stands for.
pub open spec fn glyph_views(vectors: Seq<Vec<Glyph>>) -> Seq<Seq<Glyph>> {
    vectors.map_values(|vector: Vec<Glyph>| vector@)
}

/// The words of a text that starts with a run without white space, closed
/// by white space or by the end of the text: the run, if it is not empty,
/// and then the words after the closing glyph.
proof fn lemma_words_after_run(glyphs: Seq<Glyph>, start: int, end: int)
    requires
        0 <= start <= end <= glyphs.len(),
        forall|j: int| start <= j < end ==> !(#[trigger] glyphs[j]).whitespace,
        end == glyphs.len() || glyphs[end].whitespace,
    ensures
        start < end ==> words(glyphs.skip(start)) == seq![glyphs.subrange(start, end)] + words(
            glyphs.skip(end),
        ),
        end < glyphs.len() ==> words(glyphs.skip(end)) == words(glyphs.skip(end + 1)),
        end == glyphs.len() ==> words(glyphs.skip(end)) == Seq::<Seq<Glyph>>::empty(),
{
    let tail = glyphs.skip(start);
    if start < end {
        assert forall|j: int| 0 <= j < end - start implies in_word()(#[trigger] tail[j]) by {
            assert(tail[j] == glyphs[start + j]);
        }
        lemma_leading_of_run(tail, in_word(), end - start);
        assert(tail.take(end - start) =~= glyphs.subrange(start, end));
        assert(tail.skip(end - start) =~= glyphs.skip(end));
        assert(!tail[0].whitespace);
    }
    if end < glyphs.len() {
        assert(glyphs.skip(end).drop_first() =~= glyphs.skip(end + 1));
    }
}

/// Splits `glyphs` at white space into its words.
pub fn split_words(glyphs: &Vec<Glyph>) -> (found: Vec<Vec<Glyph>>)
    ensures
        glyph_views(found@) == words(glyphs@),
{
    let mut found: Vec<Vec<Glyph>> = Vec::new();
    let mut current: Vec<Glyph> = Vec::new();
    let ghost mut start: int = 0;
    let mut i: usize = 0;
    proof {
        assert(glyphs@.skip(0) =~= glyphs@);
        assert(glyph_views(found@) + words(glyphs@.skip(start)) =~= words(glyphs@));
    }
    while i < glyphs.len()
        invariant
            0 <= start <= i <= glyphs@.len(),
            current@ == glyphs@.subrange(start, i as int),
            forall|j: int| start <= j < i ==> !(#[trigger] glyphs@[j]).whitespace,
            glyph_views(found@) + words(glyphs@.skip(start)) == words(glyphs@),
        decreases glyphs@.len() - i,
    {
        let g = glyphs[i];
        if g.whitespace {
            let ghost before = found@;
            proof {
                lemma_words_after_run(glyphs@, start, i as int);
            }
            if current.len() > 0 {
                found.push(current);
                current = Vec::new();
                proof {
                    assert(glyph_views(found@) =~= glyph_views(before) + seq![
                        glyphs@.subrange(start, i as int),
                    ]);
                }
            }
            proof {
                assert(glyph_views(found@) + words(glyphs@.skip(i + 1)) =~= glyph_views(before)
                    + words(glyphs@.skip(start)));
                start = i + 1;
                assert(current@ =~= glyphs@.subrange(start, i + 1));
            }
        } else {
            current.push(g);
            proof {
                assert(current@ =~= glyphs@.subrange(start, i + 1));
            }
        }
        i += 1;
    }
    let ghost before = found@;
    proof {
        lemma_words_after_run(glyphs@, start, i as int);
        assert(glyphs@.skip(i as int) =~= Seq::<Glyph>::empty());
    }
    if current.len() > 0 {
        found.push(current);
        proof {
            assert(glyph_views(found@) =~= glyph_views(before) + seq![
                glyphs@.subrange(start, i as int),
            ]);
        }
    }
    proof {
        assert(glyph_views(found@) =~= glyph_views(before) + words(glyphs@.skip(start)));
    }
    found
}

/// The pieces joined by single spaces.
pub open spec fn joined(pieces: Seq<Seq<char>>) -> Seq<char>
    decreases pieces.len(),
{
    if pieces.len() == 0 {
        Seq::empty()
    } else if pieces.len() == 1 {
        pieces[0]
    } else {
        joined(pieces.drop_last()) + seq![' '] + pieces.last()
    }
}

/// Joins `pieces[from..to]` by single spaces.
pub fn join(pieces: &Vec<String>, from: usize, to: usize) -> (out: String)
    requires
        from <= to <= pieces@.len(),
    ensures
        out@ == joined(string_views(pieces@).subrange(from as int, to as int)),
{
    let ghost all = string_views(pieces@);
    let mut out = String::new();
    let mut i: usize = from;
    while i < to
        invariant
            from <= i <= to <= pieces@.len(),
            all == string_views(pieces@),
            out@ == joined(all.subrange(from as int, i as int)),
        decreases to - i,
    {
        proof {
            assert(all.subrange(from as int, i + 1).drop_last() =~= all.subrange(
                from as int,
                i as int,
            ));
            assert(all.subrange(from as int, i + 1).last() == pieces@[i as int]@);
        }
        if i > from {
            out.push(' ');
        }
        out.append(pieces[i].as_str());
        i += 1;
        proof {
            assert(out@ =~= joined(all.subrange(from as int, i as int)));
        }
    }
    out
}

/// Whether `text` reads exactly as `key`.
pub fn same_text(text: &String, key: &str) -> (r: bool)
    ensures
        r == (text@ == key@),
{
    let key = String::from_str(key);
    *text == key
}

/// Whether `a` comes before `b`, or equals it, in the order of strings:
/// the strings are compared character by character, by code point, and a
/// string comes before every string that it starts.
pub open spec fn precedes(a: Seq<char>, b: Seq<char>) -> bool
    decreases a.len(),
{
    if a.len() == 0 {
        true
    } else if b.len() == 0 {
        false
    } else if a[0] != b[0] {
        (a[0] as int) < (b[0] as int)
    } else {
        precedes(a.drop_first(), b.drop_first())
    }
}

/// Whether `strings` is in the order of strings.
pub open spec fn in_order(strings: Seq<Seq<char>>) -> bool {
    forall|i: int, j: int| 0 <= i < j < strings.len() ==> precedes(strings[i], strings[j])
}

/// Calls the standard library's slice sort on strings.  Taken on trust: it
/// puts them in the order of strings, as [`precedes`] defines it, and
/// neither drops nor adds one.
#[verifier::external_body]
pub(crate) fn sort_strings(strings: &mut Vec<String>)
    ensures
        in_order(string_views(final(strings)@)),
        string_views(final(strings)@).to_multiset() == string_views(old(strings)@).to_multiset(),
{
    strings.sort();
}

/// Copies `strings`.
pub fn copy_strings(strings: &Vec<String>) -> (copy: Vec<String>)
    ensures
        string_views(copy@) == string_views(strings@),
{
    let mut copy: Vec<String> = Vec::new();
    let mut i: usize = 0;
    while i < strings.len()
        invariant
            i <= strings@.len(),
            copy@.len() == i,
            forall|j: int| 0 <= j < i ==> (#[trigger] copy@[j])@ == strings@[j]@,
        decreases strings@.len() - i,
    {
        copy.push(strings[i].clone());
        i += 1;
    }
    assert(string_views(copy@) =~= string_views(strings@));
    copy
}

} // verus!
