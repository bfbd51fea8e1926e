use vsm_generator::content::get_id_from_name;

fn id(name: &str) -> String {
    String::from_utf8(get_id_from_name(name.as_bytes())).unwrap()
}

#[test]
fn id_is_lowercase_with_dashes() {
    assert_eq!(id("Hello World"), "hello-world");
    assert_eq!(id("snake_case name"), "snake-case-name");
}

#[test]
fn id_drops_one_leading_digit_and_one_dot() {
    assert_eq!(id("1. Introduction"), "introduction");
    assert_eq!(id("12. Twelve"), "2-twelve");
    assert_eq!(id("1.. Dots"), "-dots");
    assert_eq!(id(".hidden"), "hidden");
}

#[test]
fn id_drops_everything_else() {
    assert_eq!(id("What's new? (2024)"), "whats-new-2024");
    assert_eq!(id("a-b"), "ab");
    assert_eq!(id("Zażółć gęślą"), "za-gl");
    assert_eq!(id(""), "");
}

#[test]
fn id_trims_white_space_of_any_width() {
    assert_eq!(id("  padded  "), "padded");
    assert_eq!(id("\u{a0}\u{2003} wide \u{3000}\u{85}"), "wide");
    assert_eq!(id("\t\r\n x y \n"), "x-y");
}

#[test]
fn id_agrees_with_trim_of_strings() {
    let samples = [
        "plain",
        " lead",
        "trail ",
        "\u{1680}a b\u{2028}",
        "\u{2000}\u{200a}x\u{202f}\u{205f}",
        "\u{2029}mid dle\u{2009}",
        "é x é",
        "\u{200b} zero width is kept ",
    ];
    for sample in samples {
        let mut expected = String::new();
        for c in sample.trim().chars() {
            if c.is_ascii_alphanumeric() {
                expected.push(c.to_ascii_lowercase());
            } else if c == ' ' || c == '_' {
                expected.push('-');
            }
        }
        assert_eq!(id(sample), expected);
    }
}

#[test]
fn id_holds_only_its_alphabet() {
    let id = get_id_from_name("9.Mixed UP_and down 42 !?#<>".as_bytes());
    assert_eq!(id, b"mixed-up-and-down-42-".to_vec());
    for b in id {
        assert!(b.is_ascii_lowercase() || b.is_ascii_digit() || b == b'-');
    }
}
