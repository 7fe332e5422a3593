//! Pig latin: a word moves its leading consonants behind a hyphen and gains
//! the ending "ay"; a word that starts with a vowel gains "-hay".

use crate::text::{
    chars_in, classify, classify_str, glyph_of, glyph_views, glyphs_of, joined, leading,
    lemma_leading_bounds, lemma_leading_of_run, lowercase_of, spell, split_words, words, Glyph,
};
use vstd::prelude::*;
use vstd::string::StringExecFns;

verus! {

/// The lowercase vowels, plain and accented.
pub open spec fn vowel_letter(c: char) -> bool {
    ||| c == 'a' || c == 'e' || c == 'i' || c == 'o' || c == 'u'
    ||| c == '\u{e0}' || c == '\u{e1}' || c == '\u{e2}' || c == '\u{e3}' || c == '\u{e4}' || c
        == '\u{e5}'
    ||| c == '\u{e8}' || c == '\u{e9}' || c == '\u{ea}' || c == '\u{eb}'
    ||| c == '\u{ec}' || c == '\u{ed}' || c == '\u{ee}' || c == '\u{ef}'
    ||| c == '\u{f2}' || c == '\u{f3}' || c == '\u{f4}' || c == '\u{f5}' || c == '\u{f6}'
    ||| c == '\u{f9}' || c == '\u{fa}' || c == '\u{fb}' || c == '\u{fc}'
}

/// The character by which a glyph is compared with lowercase letters: the
/// first of its lowercase mapping, or the character itself if the mapping
/// is empty.
pub open spec fn folded(g: Glyph) -> char {
    match g.lower {
        Some(lower) => lower,
        None => g.ch,
    }
}

/// Whether a glyph is a vowel, in either case.
pub open spec fn vowel(g: Glyph) -> bool {
    vowel_letter(folded(g))
}

/// Whether a glyph is a letter that is no vowel.
pub open spec fn consonant(g: Glyph) -> bool {
    g.alphabetic && !vowel(g)
}

/// The glyphs that are no letters.
pub open spec fn no_letter() -> spec_fn(Glyph) -> bool {
    |g: Glyph| !g.alphabetic
}

/// The glyphs that belong to a word inside a token: letters and the
/// apostrophe.
pub open spec fn word_glyph() -> spec_fn(Glyph) -> bool {
    |g: Glyph| g.alphabetic || g.ch == '\''
}

/// The number of glyphs that a word which starts at a consonant moves
/// behind the hyphen.
///
/// Consonants are counted up to the first vowel.  A `q` directly followed by
/// a `u` closes the count and takes the `u` along.  Glyphs that are no
/// letters are passed over without being counted.
pub open spec fn cluster_len(body: Seq<Glyph>) -> nat
    decreases body.len(),
{
    if body.len() == 0 {
        0
    } else if !body[0].alphabetic {
        cluster_len(body.drop_first())
    } else if vowel(body[0]) {
        0
    } else if body[0].lower == Some('q') && body.len() > 1 && body[1].lower == Some('u') {
        2
    } else {
        1 + cluster_len(body.drop_first())
    }
}

/// The characters of `rest`, the first of them replaced by the first of its
/// uppercase mapping if `capitalize` is set.
pub open spec fn capitalized(rest: Seq<Glyph>, capitalize: bool) -> Seq<char> {
    if capitalize && rest.len() > 0 {
        let first = match rest[0].upper {
            Some(upper) => upper,
            None => rest[0].ch,
        };
        seq![first] + chars_in(rest.drop_first())
    } else {
        chars_in(rest)
    }
}

/// A word put together from its parts: what stood before the first letter,
/// what followed the consonant cluster, a hyphen, the cluster in lowercase,
/// and "ay".
pub open spec fn assembled(
    prefix: Seq<char>,
    rest: Seq<Glyph>,
    cluster: Seq<char>,
    capitalize: bool,
) -> Seq<char> {
    prefix + capitalized(rest, capitalize) + seq!['-'] + cluster + seq!['a', 'y']
}

/// The pig-latin form of one word.
///
/// A word without a letter stays as it is.  Otherwise the word is read from
/// its first letter on.  If that letter is a vowel, "-hay" is appended.  If
/// it is a consonant, the consonant cluster moves behind a hyphen, in
/// lowercase, and "ay" follows; if the first letter was uppercase, the
/// letter that now comes first is capitalized.
pub open spec fn pig_latin_word(word: Seq<Glyph>) -> Seq<char> {
    let start = leading(word, no_letter()) as int;
    if start >= word.len() {
        chars_in(word)
    } else {
        let body = word.skip(start);
        if vowel(body[0]) {
            chars_in(word) + seq!['-', 'h', 'a', 'y']
        } else {
            let k = cluster_len(body) as int;
            assembled(
                chars_in(word.take(start)),
                body.skip(k),
                lowercase_of(chars_in(body.take(k))),
                body[0].uppercase,
            )
        }
    }
}

/// Whether `c` is one of the lowercase vowels.
fn is_vowel_letter(c: char) -> (r: bool)
    ensures
        r == vowel_letter(c),
{
    match c {
        'a' | 'e' | 'i' | 'o' | 'u' => true,
        '\u{e0}' | '\u{e1}' | '\u{e2}' | '\u{e3}' | '\u{e4}' | '\u{e5}' => true,
        '\u{e8}' | '\u{e9}' | '\u{ea}' | '\u{eb}' => true,
        '\u{ec}' | '\u{ed}' | '\u{ee}' | '\u{ef}' => true,
        '\u{f2}' | '\u{f3}' | '\u{f4}' | '\u{f5}' | '\u{f6}' => true,
        '\u{f9}' | '\u{fa}' | '\u{fb}' | '\u{fc}' => true,
        _ => false,
    }
}

/// Whether the glyph is a vowel.
pub fn glyph_is_vowel(g: &Glyph) -> (r: bool)
    ensures
        r == vowel(*g),
{
    match g.lower {
        Some(lower) => is_vowel_letter(lower),
        None => is_vowel_letter(g.ch),
    }
}

/// Whether `c` is a vowel, in either case, plain or accented.
pub fn is_vowel(c: char) -> (r: bool)
    ensures
        r == vowel(glyph_of(c)),
{
    let g = classify(c);
    glyph_is_vowel(&g)
}

/// Whether `c` is a letter.
pub fn is_letter(c: char) -> (r: bool)
    ensures
        r == glyph_of(c).alphabetic,
{
    c.is_alphabetic()
}

/// A consonant cluster is no longer than the text it is counted in.
pub proof fn lemma_cluster_len_bound(body: Seq<Glyph>)
    ensures
        cluster_len(body) <= body.len(),
    decreases body.len(),
{
    if body.len() > 0 {
        lemma_cluster_len_bound(body.drop_first());
    }
}

/// Counts the glyphs that `word[from..]` moves behind the hyphen.
pub fn cluster_length(word: &Vec<Glyph>, from: usize) -> (k: usize)
    requires
        from <= word@.len(),
    ensures
        k == cluster_len(word@.skip(from as int)),
        from + k <= word@.len(),
{
    let mut count: usize = 0;
    let mut i: usize = from;
    proof {
        lemma_cluster_len_bound(word@.skip(from as int));
    }
    while i < word.len()
        invariant
            from <= i <= word@.len(),
            count <= i - from,
            count + cluster_len(word@.skip(i as int)) == cluster_len(word@.skip(from as int)),
        decreases word@.len() - i,
    {
        let g = word[i];
        proof {
            assert(word@.skip(i as int).drop_first() =~= word@.skip(i + 1));
            assert(word@.skip(i as int)[0] == g);
        }
        if g.alphabetic {
            if glyph_is_vowel(&g) {
                return count;
            }
            if g.lower == Some('q') && i + 1 < word.len() && word[i + 1].lower == Some('u') {
                proof {
                    assert(word@.skip(i as int)[1] == word@[i + 1]);
                }
                return count + 2;
            }
            proof {
                if i + 1 < word@.len() {
                    assert(word@.skip(i as int)[1] == word@[i + 1]);
                }
            }
            count += 1;
        }
        i += 1;
    }
    count
}

/// The glyphs `glyphs[from..to]`.
pub fn part(glyphs: &Vec<Glyph>, from: usize, to: usize) -> (copy: Vec<Glyph>)
    requires
        from <= to <= glyphs@.len(),
    ensures
        copy@ == glyphs@.subrange(from as int, to as int),
{
    let mut copy: Vec<Glyph> = Vec::new();
    let mut i: usize = from;
    while i < to
        invariant
            from <= i <= to <= glyphs@.len(),
            copy@ == glyphs@.subrange(from as int, i as int),
        decreases to - i,
    {
        copy.push(glyphs[i]);
        i += 1;
        assert(copy@ =~= glyphs@.subrange(from as int, i as int));
    }
    copy
}

/// Puts a word together from its parts: `prefix`, then `rest` with its
/// first character capitalized if `capitalize` is set, a hyphen, `cluster`,
/// and "ay".
pub fn assemble(prefix: &str, rest: &Vec<Glyph>, cluster: &str, capitalize: bool) -> (word: String)
    ensures
        word@ == assembled(prefix@, rest@, cluster@, capitalize),
{
    let mut word = String::from_str(prefix);
    if capitalize && rest.len() > 0 {
        let first = match rest[0].upper {
            Some(upper) => upper,
            None => rest[0].ch,
        };
        word.push(first);
        let tail = part(rest, 1, rest.len());
        let tail = spell(&tail);
        word.append(tail.as_str());
        proof {
            assert(rest@.subrange(1, rest@.len() as int) =~= rest@.drop_first());
        }
    } else {
        let all = spell(rest);
        word.append(all.as_str());
    }
    word.push('-');
    word.append(cluster);
    word.push('a');
    word.push('y');
    proof {
        assert(word@ =~= assembled(prefix@, rest@, cluster@, capitalize));
    }
    word
}

/// Finds the first letter of `word`: its index, or the length of `word` if
/// it holds no letter.
pub fn first_letter(word: &Vec<Glyph>) -> (start: usize)
    ensures
        start == leading(word@, no_letter()),
        start <= word@.len(),
{
    let mut i: usize = 0;
    while i < word.len() && !word[i].alphabetic
        invariant
            i <= word@.len(),
            forall|j: int| 0 <= j < i ==> no_letter()(#[trigger] word@[j]),
        decreases word@.len() - i,
    {
        i += 1;
    }
    proof {
        lemma_leading_of_run(word@, no_letter(), i as int);
    }
    i
}

/// Turns one word, given by its glyphs, into pig latin.
pub fn transform_word(word: &Vec<Glyph>) -> (out: String)
    ensures
        out@ == pig_latin_word(word@),
{
    let start = first_letter(word);
    if start >= word.len() {
        return spell(word);
    }
    proof {
        assert(word@.skip(start as int)[0] == word@[start as int]);
    }
    if glyph_is_vowel(&word[start]) {
        let mut out = spell(word);
        out.push('-');
        out.push('h');
        out.push('a');
        out.push('y');
        proof {
            assert(out@ =~= chars_in(word@) + seq!['-', 'h', 'a', 'y']);
        }
        return out;
    }
    let k = cluster_length(word, start);
    let prefix = spell(&part(word, 0, start));
    let cluster = spell(&part(word, start, start + k));
    let rest = part(word, start + k, word.len());
    let lowered = cluster.as_str().to_lowercase();
    proof {
        let body = word@.skip(start as int);
        assert(word@.subrange(0, start as int) =~= word@.take(start as int));
        assert(word@.subrange(start as int, start + k) =~= body.take(k as int));
        assert(word@.subrange(start + k, word@.len() as int) =~= body.skip(k as int));
    }
    assemble(prefix.as_str(), &rest, lowered.as_str(), word[start].uppercase)
}

/// Turns one word into pig latin.
///
/// The word is read glyph by glyph; see [`pig_latin_word`] for the rules.
pub fn word_to_pig_latin(word: &str) -> (out: String)
    ensures
        out@ == pig_latin_word(glyphs_of(word@)),
{
    let glyphs = classify_str(word);
    transform_word(&glyphs)
}

/// The pig-latin form of one token, that is of a piece of text without
/// white space.
///
/// Letters and apostrophes form words; each maximal run of them is replaced
/// by its pig-latin form.  Every other character, a hyphen for one, stays
/// where it is and separates the words around it.
pub open spec fn pig_latin_token(token: Seq<Glyph>) -> Seq<char>
    decreases token.len(),
{
    if token.len() == 0 {
        Seq::empty()
    } else if word_glyph()(token[0]) {
        let n = leading(token, word_glyph()) as int;
        proof {
            lemma_leading_bounds(token, word_glyph());
        }
        pig_latin_word(token.take(n)) + pig_latin_token(token.skip(n))
    } else {
        seq![token[0].ch] + pig_latin_token(token.drop_first())
    }
}

/// The pig-latin form of a text: the pig-latin forms of its tokens, joined
/// by single spaces.
pub open spec fn pig_latin_text(text: Seq<Glyph>) -> Seq<char> {
    joined(words(text).map_values(|token: Seq<Glyph>| pig_latin_token(token)))
}

/// The form of a token that starts with a run of word glyphs, closed by
/// another glyph or by the end of the token.
proof fn lemma_token_after_run(token: Seq<Glyph>, start: int, end: int)
    requires
        0 <= start <= end <= token.len(),
        forall|j: int| start <= j < end ==> word_glyph()(#[trigger] token[j]),
        end == token.len() || !word_glyph()(token[end]),
    ensures
        start < end ==> pig_latin_token(token.skip(start)) == pig_latin_word(
            token.subrange(start, end),
        ) + pig_latin_token(token.skip(end)),
        end < token.len() ==> pig_latin_token(token.skip(end)) == seq![token[end].ch]
            + pig_latin_token(token.skip(end + 1)),
        end == token.len() ==> pig_latin_token(token.skip(end)) == Seq::<char>::empty(),
{
    let tail = token.skip(start);
    if start < end {
        assert forall|j: int| 0 <= j < end - start implies word_glyph()(#[trigger] tail[j]) by {
            assert(tail[j] == token[start + j]);
        }
        lemma_leading_of_run(tail, word_glyph(), end - start);
        assert(tail.take(end - start) =~= token.subrange(start, end));
        assert(tail.skip(end - start) =~= token.skip(end));
        assert(word_glyph()(tail[0]));
    }
    if end < token.len() {
        assert(token.skip(end).drop_first() =~= token.skip(end + 1));
    }
}

/// Turns one token, given by its glyphs, into pig latin.
pub fn transform_token(token: &Vec<Glyph>) -> (out: String)
    ensures
        out@ == pig_latin_token(token@),
{
    let mut out = String::new();
    let mut current: Vec<Glyph> = Vec::new();
    let ghost mut start: int = 0;
    let mut i: usize = 0;
    proof {
        assert(token@.skip(0) =~= token@);
        assert(out@ + pig_latin_token(token@.skip(start)) =~= pig_latin_token(token@));
    }
    while i < token.len()
        invariant
            0 <= start <= i <= token@.len(),
            current@ == token@.subrange(start, i as int),
            forall|j: int| start <= j < i ==> word_glyph()(#[trigger] token@[j]),
            out@ + pig_latin_token(token@.skip(start)) == pig_latin_token(token@),
        decreases token@.len() - i,
    {
        let g = token[i];
        if g.alphabetic || g.ch == '\'' {
            current.push(g);
            proof {
                assert(current@ =~= token@.subrange(start, i + 1));
            }
        } else {
            let ghost before = out@;
            proof {
                lemma_token_after_run(token@, start, i as int);
            }
            if current.len() > 0 {
                let word = transform_word(&current);
                out.append(word.as_str());
                current = Vec::new();
            }
            out.push(g.ch);
            proof {
                assert(out@ + pig_latin_token(token@.skip(i + 1)) =~= before + pig_latin_token(
                    token@.skip(start),
                ));
                start = i + 1;
                assert(current@ =~= token@.subrange(start, i + 1));
            }
        }
        i += 1;
    }
    let ghost before = out@;
    proof {
        lemma_token_after_run(token@, start, i as int);
    }
    if current.len() > 0 {
        let word = transform_word(&current);
        out.append(word.as_str());
    }
    proof {
        assert(out@ =~= before + pig_latin_token(token@.skip(start)));
    }
    out
}

/// Turns a text, given by its glyphs, into pig latin.
pub fn transform_text(text: &Vec<Glyph>) -> (out: String)
    ensures
        out@ == pig_latin_text(text@),
{
    let tokens = split_words(text);
    let ghost forms = words(text@).map_values(|token: Seq<Glyph>| pig_latin_token(token));
    let mut out = String::new();
    let mut i: usize = 0;
    while i < tokens.len()
        invariant
            i <= tokens@.len(),
            glyph_views(tokens@) == words(text@),
            forms == words(text@).map_values(|token: Seq<Glyph>| pig_latin_token(token)),
            out@ == joined(forms.take(i as int)),
        decreases tokens@.len() - i,
    {
        let form = transform_token(&tokens[i]);
        proof {
            assert(glyph_views(tokens@)[i as int] == tokens@[i as int]@);
            assert(forms.take(i + 1).drop_last() =~= forms.take(i as int));
            assert(forms.take(i + 1).last() == form@);
        }
        if i > 0 {
            out.push(' ');
        }
        out.append(form.as_str());
        i += 1;
        proof {
            assert(out@ =~= joined(forms.take(i as int)));
        }
    }
    proof {
        assert(forms.take(i as int) =~= forms);
    }
    out
}

/// Turns a text into pig latin, word by word.
///
/// White space separates tokens and comes out as single spaces; inside a
/// token, punctuation stays in place.  See [`pig_latin_text`].
pub fn to_pig_latin(text: &str) -> (out: String)
    ensures
        out@ == pig_latin_text(glyphs_of(text@)),
{
    let glyphs = classify_str(text);
    transform_text(&glyphs)
}

} // verus!
