use vlrx::text::name_precedes;

#[test]
fn names_are_ordered_as_strings_compare() {
    let names = ["", "a", "A", "ab", "abc", "b", "Z", "é", "e", "日本", "z", "a b", "a\u{0}", "\u{10ffff}"];
    for one in names {
        for other in names {
            assert_eq!(name_precedes(one, other), one <= other, "{:?} and {:?}", one, other);
        }
    }
}

#[test]
fn a_name_precedes_itself_and_its_extensions() {
    assert!(name_precedes("Jett", "Jett"));
    assert!(name_precedes("Jet", "Jett"));
    assert!(!name_precedes("Jett", "Jet"));
    assert!(name_precedes("", "Jett"));
    assert!(!name_precedes("Jett", ""));
}

#[test]
fn upper_case_comes_before_lower_case() {
    assert!(name_precedes("Sova", "jett"));
    assert!(!name_precedes("jett", "Sova"));
}
