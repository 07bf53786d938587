use dap_codegen::casing::{
    has_words, is_pascal_splittable, is_stable, is_stable_text, is_word_splittable, to_pascal_case,
    to_snake_case, words,
};

fn strings(v: &[&str]) -> Vec<String> {
    v.iter().map(|s| s.to_string()).collect()
}

#[test]
fn words_split_camel_case() {
    assert_eq!(words("supportsFooBar"), strings(&["supports", "foo", "bar"]));
}

#[test]
fn words_split_at_underscores_and_spaces() {
    assert_eq!(words("foo_bar baz"), strings(&["foo", "bar", "baz"]));
}

#[test]
fn words_keep_a_run_of_capitals_in_one_word() {
    assert_eq!(words("HTTPServer"), strings(&["httpserver"]));
}

#[test]
fn words_split_pascal_case() {
    assert_eq!(words("LoadedSource"), strings(&["loaded", "source"]));
}

#[test]
fn words_drop_empty_words() {
    assert_eq!(words("__a__b_"), strings(&["a", "b"]));
    assert_eq!(words(""), Vec::<String>::new());
    assert_eq!(words("_ _"), Vec::<String>::new());
}

#[test]
fn words_are_lowercase() {
    assert_eq!(words("A"), strings(&["a"]));
    assert_eq!(words("\u{c4}rger"), strings(&["\u{e4}rger"]));
}

#[test]
fn snake_case_joins_words_with_underscores() {
    assert_eq!(to_snake_case("supportsFooBar"), "supports_foo_bar");
    assert_eq!(to_snake_case("name"), "name");
    assert_eq!(to_snake_case("Foo Bar"), "foo_bar");
}

#[test]
fn snake_case_renames_the_reserved_word() {
    assert_eq!(to_snake_case("type"), "type_");
    assert_eq!(to_snake_case("Type"), "type");
}

#[test]
fn pascal_case_capitalizes_each_word() {
    assert_eq!(to_pascal_case("loadedSource"), "LoadedSource");
    assert_eq!(to_pascal_case("foo_bar"), "FooBar");
    assert_eq!(to_pascal_case("all threads stopped"), "AllThreadsStopped");
    assert_eq!(to_pascal_case(""), "");
}

#[test]
fn pascal_case_uses_the_full_uppercase_mapping() {
    assert_eq!(to_pascal_case("\u{df}a"), "SSa");
}

#[test]
fn has_words_tells_names_from_separators() {
    assert!(has_words("a"));
    assert!(has_words("type"));
    assert!(!has_words(""));
    assert!(!has_words("_ _"));
}

#[test]
fn splitting_is_stable_under_snake_case() {
    for s in ["supportsFooBar", "foo_bar baz", "HTTPServer", "x", "already_snake_case"] {
        let once = words(s);
        assert_eq!(words(&to_snake_case(s)), once);
    }
}

#[test]
fn splitting_is_stable_under_pascal_case_of_longer_words() {
    for s in ["supportsFooBar", "foo_bar baz", "loaded source"] {
        let once = words(s);
        assert_eq!(words(&to_pascal_case(s)), once);
    }
}

#[test]
fn every_ascii_text_is_word_splittable() {
    for code in 0u8..128 {
        let c = code as char;
        assert!(is_word_splittable(&c.to_string()), "{:?}", c);
        for d in c.to_lowercase() {
            assert!(d == '_' || d == ' ' || is_stable(d), "{:?}", d);
        }
    }
    assert!(is_word_splittable("supportsFooBar_baz QUX 7x"));
    assert!(is_word_splittable(""));
}

#[test]
fn an_uppercase_character_without_lowercase_is_not_word_splittable() {
    assert!(!is_word_splittable("aB\u{3d2}"));
    assert!(!is_stable('\u{3d2}'));
    assert!(!is_stable('A'));
    assert!(!is_stable('_'));
    assert!(!is_stable(' '));
    assert!(is_stable('a'));
    assert!(is_stable('7'));
    assert!(is_stable_text("abc7"));
    assert!(is_stable_text(""));
    assert!(!is_stable_text("abC"));
    assert_ne!(words(&to_snake_case("aB\u{3d2}")), words("aB\u{3d2}"));
}

#[test]
fn splitting_is_stable_under_the_member_name() {
    for s in ["type", "Type", "supportsFooBar", "a", "ab_c", "x y z", "HTTPServer2"] {
        assert!(is_word_splittable(s));
        assert_eq!(words(&to_snake_case(s)), words(s), "{}", s);
    }
}

#[test]
fn a_member_name_is_its_own_member_name() {
    for s in ["supportsFooBar", "a", "ab_c", "x y z", "HTTPServer2", "__a__b_", "Types"] {
        let name = to_snake_case(s);
        assert_eq!(to_snake_case(&name), name, "{}", s);
        assert!(!name.starts_with('_') && !name.ends_with('_') && !name.contains("__"));
        assert!(!name.chars().any(|c| c.is_uppercase()));
    }
    assert_eq!(to_snake_case(&to_snake_case("Type")), "type_");
}

#[test]
fn pascal_case_keeps_words_that_survive_capitalization() {
    for s in ["a", "ab_c", "supportsFooBar", "loaded source", "1a", "ab_cd_e", ""] {
        assert!(is_pascal_splittable(s), "{}", s);
        assert_eq!(words(&to_pascal_case(s)), words(s), "{}", s);
    }
}

#[test]
fn pascal_case_loses_one_letter_words_and_words_without_capital() {
    for s in ["a_b", "ab_1c", "x y z", "ab_c_de"] {
        assert!(!is_pascal_splittable(s), "{}", s);
        assert_ne!(words(&to_pascal_case(s)), words(s), "{}", s);
    }
    assert!(!is_pascal_splittable("\u{df}a"));
}
