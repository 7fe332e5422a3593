use workbench::pig_latin::{
    assemble, cluster_length, first_letter, glyph_is_vowel, is_letter, is_vowel, part,
    to_pig_latin, transform_text, transform_token, transform_word, word_to_pig_latin,
};
use workbench::text::{classify, classify_str, spell, split_words, Glyph};

#[test]
fn test_is_vowel() {
    assert!(is_vowel('a'));
    assert!(is_vowel('E'));
    assert!(is_vowel('i'));
    assert!(is_vowel('O'));
    assert!(is_vowel('u'));
    assert!(!is_vowel('b'));
    assert!(!is_vowel('Z'));
}

#[test]
fn test_word_to_pig_latin_vowel_start() {
    assert_eq!(word_to_pig_latin("apple"), "apple-hay");
    assert_eq!(word_to_pig_latin("eat"), "eat-hay");
    assert_eq!(word_to_pig_latin("Apple"), "Apple-hay");
}

#[test]
fn test_word_to_pig_latin_consonant_start() {
    assert_eq!(word_to_pig_latin("first"), "irst-fay");
    assert_eq!(word_to_pig_latin("hello"), "ello-hay");
    assert_eq!(word_to_pig_latin("school"), "ool-schay");
    assert_eq!(word_to_pig_latin("First"), "Irst-fay");
}

#[test]
fn test_word_to_pig_latin_with_punctuation() {
    assert_eq!(word_to_pig_latin("don't"), "on't-day");
}

#[test]
fn test_hyphenated_words() {
    assert_eq!(to_pig_latin("well-known"), "ell-way-own-knay");
}

#[test]
fn test_to_pig_latin_sentence() {
    assert_eq!(to_pig_latin("hello world"), "ello-hay orld-way");
    assert_eq!(
        to_pig_latin("The quick brown fox"),
        "E-thay ick-quay own-bray ox-fay"
    );
}

#[test]
fn test_utf8_handling() {
    assert_eq!(word_to_pig_latin("café"), "afé-cay");
    assert_eq!(word_to_pig_latin("émigré"), "émigré-hay");
}

#[test]
fn test_empty_and_edge_cases() {
    assert_eq!(word_to_pig_latin(""), "");
    assert_eq!(word_to_pig_latin("123"), "123");
    assert_eq!(to_pig_latin(""), "");
}

#[test]
fn accented_vowels_count_in_both_cases() {
    for c in "àáâãäåèéêëìíîïòóôõöùúûü".chars() {
        assert!(is_vowel(c), "{c}");
    }
    for c in "ÀÉÎÕÜ".chars() {
        assert!(is_vowel(c), "{c}");
    }
    for c in "ýÿñçæøß1 -'".chars() {
        assert!(!is_vowel(c), "{c}");
    }
}

#[test]
fn letters_are_alphabetic_characters() {
    assert!(is_letter('a'));
    assert!(is_letter('Z'));
    assert!(is_letter('é'));
    assert!(is_letter('中'));
    assert!(!is_letter('1'));
    assert!(!is_letter('\''));
    assert!(!is_letter('-'));
    assert!(!is_letter(' '));
}

#[test]
fn classify_reads_the_character_database() {
    let g = classify('Q');
    assert_eq!(
        g,
        Glyph {
            ch: 'Q',
            alphabetic: true,
            uppercase: true,
            whitespace: false,
            lower: Some('q'),
            upper: Some('Q'),
        }
    );
    let g = classify('ß');
    assert_eq!(g.lower, Some('ß'));
    assert_eq!(g.upper, Some('S'));
    assert!(!g.uppercase);
    let g = classify('\t');
    assert!(g.whitespace && !g.alphabetic);
    assert_eq!(g.lower, Some('\t'));
    let g = classify('\u{a0}');
    assert!(g.whitespace);
    assert_eq!(spell(&classify_str("a b\u{2003}c")), "a b\u{2003}c");
}

#[test]
fn leading_punctuation_stays_in_front() {
    assert_eq!(word_to_pig_latin("\"hello"), "\"ello-hay");
    assert_eq!(word_to_pig_latin("(apple"), "(apple-hay");
    assert_eq!(word_to_pig_latin("'tis"), "'is-tay");
    assert_eq!(word_to_pig_latin("...!"), "...!");
}

#[test]
fn qu_moves_together() {
    assert_eq!(word_to_pig_latin("quick"), "ick-quay");
    assert_eq!(word_to_pig_latin("Queen"), "Een-quay");
    assert_eq!(word_to_pig_latin("squid"), "id-squay");
    assert_eq!(word_to_pig_latin("q"), "-qay");
    assert_eq!(word_to_pig_latin("qi"), "i-qay");
    assert_eq!(word_to_pig_latin("QU"), "-quay");
}

#[test]
fn words_without_vowels_move_whole() {
    assert_eq!(word_to_pig_latin("hmm"), "-hmmay");
    assert_eq!(word_to_pig_latin("Brr"), "-brray");
    assert_eq!(word_to_pig_latin("b"), "-bay");
}

#[test]
fn characters_passed_over_are_not_counted() {
    assert_eq!(word_to_pig_latin("s't"), "t-s'ay");
    assert_eq!(word_to_pig_latin("d'or"), "'or-day");
    assert_eq!(word_to_pig_latin("x1y2z"), "2z-x1yay");
}

#[test]
fn capital_moves_to_the_new_first_letter() {
    assert_eq!(word_to_pig_latin("Hello"), "Ello-hay");
    assert_eq!(word_to_pig_latin("HELLO"), "ELLO-hay");
    assert_eq!(word_to_pig_latin("STREET"), "EET-stray");
    assert_eq!(word_to_pig_latin("Çok"), "Ok-çay");
    assert_eq!(word_to_pig_latin("hELLO"), "ELLO-hay");
}

#[test]
fn text_keeps_punctuation_and_normalises_spaces() {
    assert_eq!(to_pig_latin("hello, world!"), "ello-hay, orld-way!");
    assert_eq!(to_pig_latin("don't stop"), "on't-day op-stay");
    assert_eq!(to_pig_latin("  hello \t\n world  "), "ello-hay orld-way");
    assert_eq!(to_pig_latin("123 numbers"), "123 umbers-nay");
    assert_eq!(to_pig_latin("I love programming"), "I-hay ove-lay ogramming-pray");
    assert_eq!(to_pig_latin("café résumé"), "afé-cay ésumé-ray");
    assert_eq!(to_pig_latin("émigré naïve"), "émigré-hay aïve-nay");
    assert_eq!(to_pig_latin("--"), "--");
    assert_eq!(to_pig_latin("a-b"), "a-hay--bay");
    assert_eq!(to_pig_latin(" \t "), "");
}

#[test]
fn glyph_level_functions_agree_with_the_string_level() {
    let word = classify_str("(School");
    assert_eq!(first_letter(&word), 1);
    assert_eq!(cluster_length(&word, 1), 3);
    assert_eq!(cluster_length(&word, 7), 0);
    assert_eq!(cluster_length(&word, 4), 0);
    assert_eq!(spell(&part(&word, 1, 4)), "Sch");
    assert_eq!(spell(&part(&word, 3, 3)), "");
    assert_eq!(transform_word(&word), "(Ool-schay");
    assert_eq!(transform_token(&classify_str("well-known!")), "ell-way-own-knay!");
    assert_eq!(transform_text(&classify_str("well-known  fact")), "ell-way-own-knay act-fay");
    assert_eq!(first_letter(&classify_str("12")), 2);
    assert_eq!(first_letter(&classify_str("")), 0);
    let words = split_words(&classify_str(" one  two\tthree "));
    let words: Vec<String> = words.iter().map(spell).collect();
    assert_eq!(words, vec!["one", "two", "three"]);
}

#[test]
fn assemble_uses_the_cluster_it_is_given() {
    let rest = classify_str("ello");
    assert_eq!(assemble("(", &rest, "h", false), "(ello-hay");
    assert_eq!(assemble("(", &rest, "h", true), "(Ello-hay");
    assert_eq!(assemble("", &rest, "XY", true), "Ello-XYay");
    assert_eq!(assemble("", &Vec::new(), "brr", true), "-brray");
    assert_eq!(assemble("", &Vec::new(), "", false), "-ay");
}

#[test]
fn glyph_functions_read_only_the_fields() {
    let odd = Glyph {
        ch: 'x',
        alphabetic: true,
        uppercase: false,
        whitespace: false,
        lower: Some('e'),
        upper: None,
    };
    assert!(glyph_is_vowel(&odd));
    assert_eq!(transform_word(&vec![odd]), "x-hay");
    let bare = Glyph { lower: None, ..odd };
    assert!(!glyph_is_vowel(&bare));
    assert_eq!(assemble("", &vec![bare], "k", true), "x-kay");
    let vowel = Glyph { ch: 'a', lower: None, ..odd };
    assert!(glyph_is_vowel(&vowel));
}
