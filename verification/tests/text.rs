use workbench::text::{
    chars_of, classify_str, copy_strings, join, same_text, spell, split_words,
};

#[test]
fn chars_of_gives_the_characters_in_order() {
    assert_eq!(chars_of(""), Vec::<char>::new());
    assert_eq!(chars_of("aé中😀"), vec!['a', 'é', '中', '😀']);
    assert_eq!(chars_of("a b\n"), vec!['a', ' ', 'b', '\n']);
}

#[test]
fn spell_undoes_classify() {
    for text in ["", "plain", "Ünïcödé ß ǅ", " \t lines\r\n"] {
        assert_eq!(spell(&classify_str(text)), text);
    }
}

#[test]
fn split_words_keeps_maximal_runs() {
    let split = |text: &str| -> Vec<String> {
        split_words(&classify_str(text)).iter().map(spell).collect()
    };
    assert_eq!(split(""), Vec::<String>::new());
    assert_eq!(split("   \n\t"), Vec::<String>::new());
    assert_eq!(split("one"), vec!["one"]);
    assert_eq!(split("one two"), vec!["one", "two"]);
    assert_eq!(split(" \tone\u{3000}two  three\n"), vec!["one", "two", "three"]);
    assert_eq!(split("a,b ; c"), vec!["a,b", ";", "c"]);
    assert_eq!(split("zero\u{200b}width"), vec!["zero\u{200b}width"]);
}

fn strings(values: &[&str]) -> Vec<String> {
    values.iter().map(|value| value.to_string()).collect()
}

#[test]
fn join_puts_single_spaces_between_pieces() {
    let pieces = strings(&["a", "bc", "", "d"]);
    assert_eq!(join(&pieces, 0, 4), "a bc  d");
    assert_eq!(join(&pieces, 1, 2), "bc");
    assert_eq!(join(&pieces, 2, 3), "");
    assert_eq!(join(&pieces, 2, 4), " d");
    assert_eq!(join(&pieces, 3, 3), "");
    assert_eq!(join(&Vec::new(), 0, 0), "");
}

#[test]
fn same_text_compares_whole_strings() {
    assert!(same_text(&"to".to_string(), "to"));
    assert!(!same_text(&"to".to_string(), "To"));
    assert!(!same_text(&"to".to_string(), "too"));
    assert!(!same_text(&"".to_string(), "to"));
    assert!(same_text(&"".to_string(), ""));
}

#[test]
fn copy_strings_copies_every_string() {
    let list = strings(&["b", "", "a"]);
    assert_eq!(copy_strings(&list), list);
    assert_eq!(copy_strings(&Vec::new()), Vec::<String>::new());
}
