use walriust::category::Category;

#[test]
fn every_alias_names_its_category() {
    assert_eq!(Category::from_string("food"), Some(Category::Food));
    assert_eq!(Category::from_string("f"), Some(Category::Food));
    assert_eq!(Category::from_string("drink"), Some(Category::Food));
    assert_eq!(Category::from_string("d"), Some(Category::Food));
    assert_eq!(Category::from_string("travel"), Some(Category::Travel));
    assert_eq!(Category::from_string("work"), Some(Category::Work));
    assert_eq!(Category::from_string("misc"), Some(Category::Miscellaneous));
}

#[test]
fn aliases_in_any_case_and_between_blanks() {
    assert_eq!(Category::from_string("FOOD"), Some(Category::Food));
    assert_eq!(Category::from_string(" FooD "), Some(Category::Food));
    assert_eq!(Category::from_string("\tF\n"), Some(Category::Food));
    assert_eq!(Category::from_string("  DrInK"), Some(Category::Food));
    assert_eq!(Category::from_string("D  "), Some(Category::Food));
    assert_eq!(Category::from_string("\r\n TRAVEL \u{a0}"), Some(Category::Travel));
    assert_eq!(Category::from_string("\u{3000}Work\u{2003}"), Some(Category::Work));
    assert_eq!(Category::from_string("mISC"), Some(Category::Miscellaneous));
}

#[test]
fn kelvin_sign_is_a_capital_k() {
    assert_eq!(Category::from_string("wor\u{212a}"), Some(Category::Work));
    assert_eq!(Category::from_string("DRIN\u{212a}"), Some(Category::Food));
}

#[test]
fn other_words_name_no_category() {
    assert_eq!(Category::from_string(""), None);
    assert_eq!(Category::from_string("   "), None);
    assert_eq!(Category::from_string("dude"), None);
    assert_eq!(Category::from_string("foods"), None);
    assert_eq!(Category::from_string("foo"), None);
    assert_eq!(Category::from_string("fo od"), None);
    assert_eq!(Category::from_string("miscellaneous"), None);
    assert_eq!(Category::from_string("drinks"), None);
    assert_eq!(Category::from_string("t"), None);
    assert_eq!(Category::from_string("w"), None);
    assert_eq!(Category::from_string("300.00"), None);
    assert_eq!(Category::from_string("f\u{f6}\u{f6}d"), None);
    assert_eq!(Category::from_string("_food_"), None);
}

#[test]
fn is_category_agrees_with_from_string() {
    for word in ["food", " F ", "Drink", "d", "TRAVEL", "work", "misc"] {
        assert!(Category::is_category(word));
        assert!(Category::from_string(word).is_some());
    }
    for word in ["", "x", "list", "help", "current", "1337", "fd"] {
        assert!(!Category::is_category(word));
        assert!(Category::from_string(word).is_none());
    }
}

#[test]
fn all_lists_the_four_that_can_be_chosen() {
    assert_eq!(
        Category::all(),
        vec![Category::Food, Category::Travel, Category::Work, Category::Miscellaneous]
    );
}

/// The lookup written with the lowercase form and the trimming that the
/// standard library gives.
fn by_lowercase_and_trim(text: &str) -> Option<Category> {
    match text.to_lowercase().trim() {
        "food" | "f" => Some(Category::Food),
        "drink" | "d" => Some(Category::Food),
        "travel" => Some(Category::Travel),
        "work" => Some(Category::Work),
        "misc" => Some(Category::Miscellaneous),
        _ => None,
    }
}

#[test]
fn lookup_agrees_with_lowercase_and_trim_around_every_character() {
    let mut code: u32 = 0;
    while code <= 0x2FFFF {
        if let Some(c) = char::from_u32(code) {
            let texts = [
                format!("{}", c),
                format!("foo{}", c),
                format!("{}ork", c),
                format!("{}d{}", c, c),
                format!("drin{}", c),
                format!("{}ravel{}", c, c),
                format!("m{}sc", c),
            ];
            for text in texts.iter() {
                assert_eq!(Category::from_string(text), by_lowercase_and_trim(text));
            }
        }
        code += 1;
    }
}

#[test]
fn stored_name_names_the_category_again() {
    for category in Category::all() {
        assert_eq!(Category::from_string(category.name()), Some(category));
    }
    assert_eq!(Category::Food.name(), "food");
    assert_eq!(Category::Drink.name(), "drink");
    assert_eq!(Category::Travel.name(), "travel");
    assert_eq!(Category::Work.name(), "work");
    assert_eq!(Category::Miscellaneous.name(), "misc");
    assert_eq!(Category::from_string(Category::Drink.name()), Some(Category::Food));
}
