use tekfor_game::utils::{pascal_to_sentence_ascii, plain_path_last_segment};

// Type paths as the compiler prints them: `TestOuter` at the top of a test
// module, `TestInner` inside `test_mod`, and a generic `TestGeneric<i32>`.
const OUTER_PATH: &str = "tekfor_game::utils::type_name_str_test::TestOuter";
const INNER_PATH: &str = "tekfor_game::utils::type_name_str_test::test_mod::TestInner";
const GENERIC_PATH: &str = "tekfor_game::utils::type_name_str_test::TestGeneric<i32>";

#[test]
fn pascal_to_sentence_ascii_test() {
    assert_eq!(pascal_to_sentence_ascii("PascalCase"), Some(String::from("Pascal case")));
    assert_eq!(pascal_to_sentence_ascii("UPPER"), None);
}

#[test]
fn utils_type_name_str_test() {
    assert_eq!(plain_path_last_segment(OUTER_PATH), Some("TestOuter"));
    assert_eq!(plain_path_last_segment(INNER_PATH), Some("TestInner"));
    assert_eq!(plain_path_last_segment(GENERIC_PATH), None);
}

#[test]
fn lua_api_type_name_str_test() {
    assert_eq!(plain_path_last_segment("tekfor_game::lua_api::TestOuter"), Some("TestOuter"));
    assert_eq!(plain_path_last_segment("tekfor_game::lua_api::test_mod::TestInner"), Some("TestInner"));
}

#[test]
fn sentence_is_returned_unchanged() {
    assert_eq!(pascal_to_sentence_ascii("  Already a sentence "), Some(String::from("  Already a sentence ")));
}

#[test]
fn surrounding_spaces_do_not_make_a_sentence() {
    // Trimmed, the text holds no inner space, so every capital after the
    // first character is split off, the one after the leading space too.
    assert_eq!(pascal_to_sentence_ascii(" WallVertical"), Some(String::from("  wall vertical")));
}

#[test]
fn single_word_and_empty_text() {
    assert_eq!(pascal_to_sentence_ascii("Crate"), Some(String::from("Crate")));
    assert_eq!(pascal_to_sentence_ascii("lowerCamel"), Some(String::from("lower camel")));
    assert_eq!(pascal_to_sentence_ascii(""), None);
}

#[test]
fn path_without_separator_is_its_own_segment() {
    assert_eq!(plain_path_last_segment("Plain"), Some("Plain"));
    assert_eq!(plain_path_last_segment("a::b::"), Some(""));
    assert_eq!(plain_path_last_segment("Vec<u8>"), None);
}

#[test]
fn tabs_and_line_breaks_count_as_whitespace() {
    assert_eq!(pascal_to_sentence_ascii("\tTwo\tWords\n"), Some(String::from("\tTwo\tWords\n")));
    assert_eq!(pascal_to_sentence_ascii("\tWallVertical\n"), Some(String::from("\t wall vertical\n")));
    assert_eq!(pascal_to_sentence_ascii(" \t\r\n"), Some(String::from(" \t\r\n")));
}
