use octgn_cards::card::CARD_TYPES;
use octgn_cards::normalize::fold_accents;
use octgn_cards::text::{
    char_of_digit, chars_of, digit_of, format_u8, parse_u8, split, str_eq, string_of,
};
use octgn_cards::{document_body, normalize, CardType, Sphere, UCard, UCards};

#[test]
fn normalizing_lowers_the_case() {
    assert_eq!(normalize("Fastred"), "fastred");
    assert_eq!(normalize("ABC xyz 123"), "abc xyz 123");
    assert_eq!(normalize(""), "");
}

#[test]
fn normalizing_replaces_what_the_table_lists() {
    assert_eq!(normalize("\u{fa}"), "u");
    assert_eq!(normalize("\u{2019}"), "'");
    assert_eq!(normalize("\u{ed}"), "i");
    assert_eq!(normalize("\u{fb}"), "u");
    assert_eq!(normalize("\u{ee}"), "i");
    assert_eq!(normalize("\u{f3}"), "o");
    assert_eq!(normalize("\u{e9}"), "e");
    assert_eq!(normalize("\u{e2}"), "a");
    assert_eq!(normalize("\u{201c}"), "");
    assert_eq!(normalize("\u{eb}"), "e");
    assert_eq!(normalize("\u{201d}"), "");
    assert_eq!(normalize("\u{e1}"), "a");
    assert_eq!(normalize("\u{a0}"), "eo");
    assert_eq!(normalize("\u{e4}"), "a");
    assert_eq!(normalize("\u{301}"), "");
    assert_eq!(normalize("\u{f6}"), "o");
    assert_eq!(normalize("\u{302}"), "u");
}

#[test]
fn normalizing_lowers_before_it_replaces() {
    assert_eq!(normalize("\u{c9}owyn"), "eowyn");
    assert_eq!(normalize("TH\u{c9}ODEN"), "theoden");
    assert_eq!(normalize("Barad-D\u{db}r"), "barad-dur");
    assert_eq!(normalize("\u{201c}Foes\u{201d}"), "foes");
    assert_eq!(normalize("Nazgu\u{302}l"), "nazguul");
    assert_eq!(normalize("Th\u{a0}den"), "theoden");
}

#[test]
fn normalizing_leaves_other_characters_alone() {
    assert_eq!(normalize("\u{f1}"), "\u{f1}");
    assert_eq!(normalize("\u{e8}"), "\u{e8}");
    assert_eq!(normalize("a-b'c\"d"), "a-b'c\"d");
    assert_eq!(normalize("\u{4e2d}"), "\u{4e2d}");
}

#[test]
fn the_table_alone_does_not_touch_capitals() {
    assert_eq!(fold_accents("\u{c9}owyn"), "\u{c9}owyn");
    assert_eq!(fold_accents("\u{e9}owyn"), "eowyn");
    assert_eq!(fold_accents("ABC"), "ABC");
    assert_eq!(fold_accents("a\u{a0}b"), "aeob");
}

#[test]
fn normalizing_twice_changes_nothing_more() {
    let samples = [
        "Fastred",
        "\u{c9}owyn",
        "Barad-D\u{db}r",
        "\u{201c}Foes and fire\u{201d}",
        "Th\u{a0}den",
        "Nazgu\u{302}l",
        "e\u{301}",
        "Lúthien Tinúviel",
        "\u{2019}",
        "  x  ",
        "",
    ];
    for sample in samples {
        let once = normalize(sample);
        assert_eq!(normalize(&once), once);
        assert_eq!(fold_accents(&fold_accents(sample)), fold_accents(sample));
    }
}

#[test]
fn splitting_at_single_spaces() {
    assert_eq!(split("Rally the West", ' '), vec!["Rally", "the", "West"]);
    assert_eq!(split("Fastred", ' '), vec!["Fastred"]);
    assert_eq!(split("", ' '), vec![""]);
    assert_eq!(split(" ", ' '), vec!["", ""]);
    assert_eq!(split("a  b", ' '), vec!["a", "", "b"]);
    assert_eq!(split(" a ", ' '), vec!["", "a", ""]);
    assert_eq!(split("a\tb", ' '), vec!["a\tb"]);
    assert_eq!(split("a,b", ','), vec!["a", "b"]);
    assert_eq!(split("\u{e9} \u{4e2d}", ' '), vec!["\u{e9}", "\u{4e2d}"]);
}

#[test]
fn splitting_agrees_with_the_standard_library() {
    for text in ["", " ", "a", "a b", "  a  b  ", "Rohan. Warrior.", "x y z "] {
        let expected: Vec<String> = text.split(' ').map(String::from).collect();
        assert_eq!(split(text, ' '), expected);
    }
}

#[test]
fn reading_small_numbers() {
    assert_eq!(parse_u8("0"), Some(0));
    assert_eq!(parse_u8("9"), Some(9));
    assert_eq!(parse_u8("81"), Some(81));
    assert_eq!(parse_u8("255"), Some(255));
    assert_eq!(parse_u8("+255"), Some(255));
    assert_eq!(parse_u8("000"), Some(0));
    assert_eq!(parse_u8("0000255"), Some(255));
    assert_eq!(parse_u8("256"), None);
    assert_eq!(parse_u8("0000256"), None);
    assert_eq!(parse_u8("999999999999999999999999"), None);
    assert_eq!(parse_u8(""), None);
    assert_eq!(parse_u8("+"), None);
    assert_eq!(parse_u8("-"), None);
    assert_eq!(parse_u8("-0"), None);
    assert_eq!(parse_u8("++1"), None);
    assert_eq!(parse_u8("1+"), None);
    assert_eq!(parse_u8(" 1"), None);
    assert_eq!(parse_u8("1 "), None);
    assert_eq!(parse_u8("1_0"), None);
    assert_eq!(parse_u8("0x10"), None);
    assert_eq!(parse_u8("\u{663}"), None);
}

#[test]
fn reading_numbers_agrees_with_the_standard_library() {
    let mut texts: Vec<String> = (0..300u32).map(|n| n.to_string()).collect();
    for extra in ["", "+", "-", "+7", "-7", "07", "+007", " 7", "7 ", "a", "2a", "+-1", "１"] {
        texts.push(extra.to_string());
    }
    for text in texts {
        assert_eq!(parse_u8(&text), text.parse::<u8>().ok(), "{:?}", text);
    }
}

#[test]
fn writing_small_numbers() {
    assert_eq!(format_u8(0), "0");
    assert_eq!(format_u8(9), "9");
    assert_eq!(format_u8(10), "10");
    assert_eq!(format_u8(99), "99");
    assert_eq!(format_u8(100), "100");
    assert_eq!(format_u8(109), "109");
    assert_eq!(format_u8(255), "255");
    for n in 0..=255u8 {
        assert_eq!(format_u8(n), n.to_string());
        assert_eq!(parse_u8(&format_u8(n)), Some(n));
    }
}

#[test]
fn digits() {
    assert_eq!(digit_of('0'), Some(0));
    assert_eq!(digit_of('9'), Some(9));
    assert_eq!(digit_of('/'), None);
    assert_eq!(digit_of(':'), None);
    assert_eq!(digit_of('a'), None);
    assert_eq!(char_of_digit(0), '0');
    assert_eq!(char_of_digit(9), '9');
}

#[test]
fn strings_and_their_characters() {
    assert_eq!(chars_of("a\u{e9}b"), vec!['a', '\u{e9}', 'b']);
    assert_eq!(chars_of(""), Vec::<char>::new());
    let chars = vec!['R', 'o', 'h', 'a', 'n'];
    assert_eq!(string_of(&chars, 0, 5), "Rohan");
    assert_eq!(string_of(&chars, 1, 3), "oh");
    assert_eq!(string_of(&chars, 2, 2), "");
    assert!(str_eq("Type", "Type"));
    assert!(str_eq("", ""));
    assert!(!str_eq("Type", "Typo"));
    assert!(!str_eq("Type", "Typ"));
    assert!(!str_eq("Type", "type"));
    assert!(str_eq("\u{e9}", "\u{e9}"));
    assert!(!str_eq("\u{e9}", "e\u{301}"));
}

#[test]
fn spheres_are_read_from_their_names() {
    assert_eq!(Sphere::from_str("Spirit"), Ok(Sphere::Spirit));
    assert_eq!(Sphere::from_str("Lore"), Ok(Sphere::Lore));
    assert_eq!(Sphere::from_str("Leadership"), Ok(Sphere::Leadership));
    assert_eq!(Sphere::from_str("Tactics"), Ok(Sphere::Tactics));
    assert_eq!(Sphere::from_str("Baggins"), Err("Baggins is not a shpere".to_string()));
    assert_eq!(Sphere::from_str("spirit"), Err("spirit is not a shpere".to_string()));
    assert_eq!(Sphere::from_str(""), Err(" is not a shpere".to_string()));
    for sphere in [Sphere::Spirit, Sphere::Lore, Sphere::Leadership, Sphere::Tactics] {
        assert_eq!(Sphere::from_str(sphere.as_str()), Ok(sphere));
    }
    assert_eq!(Sphere::default(), Sphere::Spirit);
    assert_eq!("Tactics".parse::<Sphere>(), Ok(Sphere::Tactics));
    assert_eq!("tactics".parse::<Sphere>(), Err("tactics is not a shpere".to_string()));
}

#[test]
fn card_types_are_read_from_their_names() {
    assert_eq!(CardType::from_label("Hero"), Some(CardType::Hero));
    assert_eq!(CardType::from_label("Side Quest"), Some(CardType::SideQuest));
    assert_eq!(CardType::from_label("Objective Ally"), Some(CardType::ObjectiveAlly));
    assert_eq!(CardType::from_label("Ship-Enemy"), Some(CardType::ShipEnemy));
    assert_eq!(CardType::from_label("Objective"), Some(CardType::Objective));
    assert_eq!(CardType::from_label("Internal"), None);
    assert_eq!(CardType::from_label("SideQuest"), None);
    assert_eq!(CardType::from_label("hero"), None);
    assert_eq!(CardType::from_label(""), None);
    assert_eq!(CardType::default(), CardType::Attachment);
    assert_eq!(CardType::Attachment.index(), 0);
    assert_eq!(CardType::Contract.index(), CARD_TYPES - 1);
    assert_eq!(CardType::SideQuest.as_str(), "Side Quest");
}

fn named(name: &str) -> UCard {
    UCard { id: format!("id-{}", name), name: name.to_string(), properties: vec![] }
}

#[test]
fn appending_moves_the_cards_to_the_end() {
    let mut first = UCards { card: vec![named("a"), named("b")] };
    let mut second = UCards { card: vec![named("c"), named("a"), named("d")] };
    first.append(&mut second);
    assert_eq!(first.len(), 5);
    assert_eq!(second.len(), 0);
    let names: Vec<&str> = first.card.iter().map(|c| c.name.as_str()).collect();
    assert_eq!(names, vec!["a", "b", "c", "a", "d"]);
    let ids: Vec<&str> = first.card.iter().map(|c| c.id.as_str()).collect();
    assert_eq!(ids, vec!["id-a", "id-b", "id-c", "id-a", "id-d"]);
}

#[test]
fn appending_to_and_from_the_empty_collection() {
    let mut empty = UCards::empty();
    assert_eq!(empty.len(), 0);
    let mut other = UCards::empty();
    empty.append(&mut other);
    assert_eq!(empty.len(), 0);
    let mut some = UCards { card: vec![named("a")] };
    some.append(&mut empty);
    assert_eq!(some.len(), 1);
    empty.append(&mut some);
    assert_eq!(empty.len(), 1);
    assert_eq!(some.len(), 0);
    assert_eq!(empty.card[0].name, "a");
}

#[test]
fn the_body_of_a_document_starts_at_its_first_line_break() {
    let document = "<?xml version=\"1.0\" encoding=\"UTF-8\" standalone=\"true\"?>\n<set name=\"The Black Serpent\">\n</set>";
    assert_eq!(document_body(document), Some("\n<set name=\"The Black Serpent\">\n</set>"));
    assert_eq!(document_body("a\nb"), Some("\nb"));
    assert_eq!(document_body("\n"), Some("\n"));
    assert_eq!(document_body("\n\n"), Some("\n\n"));
    assert_eq!(document_body("a\n"), Some("\n"));
    assert_eq!(document_body("\u{e9}\u{4e2d}\n\u{e9}"), Some("\n\u{e9}"));
    assert_eq!(document_body("a\r\nb"), Some("\nb"));
}

#[test]
fn a_document_of_one_line_has_no_body() {
    assert_eq!(document_body(""), None);
    assert_eq!(document_body("<set/>"), None);
    assert_eq!(document_body("a\rb"), None);
}
