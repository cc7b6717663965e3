use caller_utils_gen::naming::{
    to_kebab_case, to_pascal_case, to_snake_case, validate_name, DeclKind, NamingViolation,
};

#[test]
fn snake_case_replaces_every_hyphen() {
    assert_eq!(to_snake_case("get-count"), "get_count");
    assert_eq!(to_snake_case("a-b-c"), "a_b_c");
    assert_eq!(to_snake_case("plain"), "plain");
    assert_eq!(to_snake_case(""), "");
    assert_eq!(to_snake_case("--"), "__");
}

#[test]
fn pascal_case_capitalises_each_word() {
    assert_eq!(to_pascal_case("get-count"), "GetCount");
    assert_eq!(to_pascal_case("html-parser"), "HtmlParser");
    assert_eq!(to_pascal_case("plain"), "Plain");
    assert_eq!(to_pascal_case(""), "");
}

#[test]
fn pascal_case_skips_empty_words() {
    assert_eq!(to_pascal_case("-a--b-"), "AB");
    assert_eq!(to_pascal_case("---"), "");
}

#[test]
fn pascal_case_takes_first_character_of_a_longer_mapping() {
    assert_eq!(to_pascal_case("\u{df}a"), "Sa");
}

#[test]
fn names_without_digits_or_stream_are_accepted() {
    assert_eq!(validate_name(DeclKind::Function, "get-count"), Ok(()));
    assert_eq!(validate_name(DeclKind::Type, "ItemInfo"), Ok(()));
    assert_eq!(validate_name(DeclKind::Field, "strea_m"), Ok(()));
    assert_eq!(validate_name(DeclKind::Parameter, ""), Ok(()));
    assert_eq!(validate_name(DeclKind::VariantCase, "STREA"), Ok(()));
}

#[test]
fn names_with_a_digit_are_rejected_for_every_kind() {
    for kind in [
        DeclKind::Type,
        DeclKind::Field,
        DeclKind::Function,
        DeclKind::Parameter,
        DeclKind::VariantCase,
    ] {
        for name in ["v2", "0", "item9info", "a-1"] {
            assert_eq!(
                validate_name(kind, name),
                Err(NamingViolation { kind, identifier: name.to_string() })
            );
        }
    }
}

#[test]
fn names_with_stream_in_any_case_are_rejected_for_every_kind() {
    for kind in [
        DeclKind::Type,
        DeclKind::Field,
        DeclKind::Function,
        DeclKind::Parameter,
        DeclKind::VariantCase,
    ] {
        for name in ["stream", "DataStream", "STREAM", "upStReAmer", "my_stream_id"] {
            assert_eq!(
                validate_name(kind, name),
                Err(NamingViolation { kind, identifier: name.to_string() })
            );
        }
    }
}

#[test]
fn kebab_case_parts_words_at_capitals_and_underscores() {
    assert_eq!(to_kebab_case("get_count"), "get-count");
    assert_eq!(to_kebab_case("ItemInfo"), "item-info");
    assert_eq!(to_kebab_case("getCount"), "get-count");
    assert_eq!(to_kebab_case("plain"), "plain");
    assert_eq!(to_kebab_case(""), "");
    assert_eq!(to_kebab_case("already-hyphenated"), "already-hyphenated");
}

#[test]
fn kebab_case_keeps_a_run_of_capitals_together() {
    assert_eq!(to_kebab_case("HTMLParser"), "html-parser");
    assert_eq!(to_kebab_case("MyURL"), "my-url");
    assert_eq!(to_kebab_case("URL"), "url");
    assert_eq!(to_kebab_case("parseHTTPResponse"), "parse-http-response");
    assert_eq!(to_kebab_case("A"), "a");
    assert_eq!(to_kebab_case("AB"), "ab");
    assert_eq!(to_kebab_case("ABc"), "a-bc");
}

#[test]
fn kebab_case_puts_one_hyphen_at_a_separator() {
    assert_eq!(to_kebab_case("Get_Count"), "get-count");
    assert_eq!(to_kebab_case("a__b"), "a--b");
    assert_eq!(to_kebab_case("_Lead"), "-lead");
}
