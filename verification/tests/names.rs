use hardlight::snake_to_pascal_case;

#[test]
fn test_snake_to_pascal_case_empty() {
    assert_eq!(snake_to_pascal_case(""), "");
}

#[test]
fn test_snake_to_pascal_case_single_word() {
    assert_eq!(snake_to_pascal_case("hello"), "Hello");
    assert_eq!(snake_to_pascal_case("world"), "World");
}

#[test]
fn test_snake_to_pascal_case_multiple_words() {
    assert_eq!(snake_to_pascal_case("hello_world"), "HelloWorld");
    assert_eq!(snake_to_pascal_case("foo_bar_baz"), "FooBarBaz");
}

#[test]
fn test_snake_to_pascal_case_mixed_case() {
    assert_eq!(snake_to_pascal_case("hello_world_42"), "HelloWorld42");
    assert_eq!(snake_to_pascal_case("foo_BAR_baz"), "FooBarBaz");
}

#[test]
fn names_beyond_ascii_convert() {
    assert_eq!(snake_to_pascal_case("élan_ß"), "ÉlanSS");
    assert_eq!(snake_to_pascal_case("aÉ"), "Aé");
}

#[test]
fn underscores_only_part_words() {
    assert_eq!(snake_to_pascal_case("_"), "");
    assert_eq!(snake_to_pascal_case("__a__b_"), "AB");
    assert_eq!(
        snake_to_pascal_case("make_a_noise"),
        snake_to_pascal_case("make_a") + &snake_to_pascal_case("noise")
    );
}

#[test]
fn ascii_letters_convert_next_to_others() {
    assert_eq!(snake_to_pascal_case("go_\u{e9}T\u{c9}_hOME"), "Go\u{c9}t\u{e9}Home");
}
