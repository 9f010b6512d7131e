use octgn_cards::bits::MAX_POSITIONS;
use octgn_cards::{
    build_name_index, build_type_index, CardType, NameIndex, PositionSet, TypeIndex, UCard, UCards,
    UProperty,
};

fn named(name: &str) -> UCard {
    UCard { id: name.to_string(), name: name.to_string(), properties: vec![] }
}

fn typed(name: &str, types: &[&str]) -> UCard {
    UCard {
        id: name.to_string(),
        name: name.to_string(),
        properties: types
            .iter()
            .map(|t| UProperty { name: "Type".to_string(), value: t.to_string() })
            .collect(),
    }
}

fn cards(card: Vec<UCard>) -> UCards {
    UCards { card }
}

fn under(index: &NameIndex, key: &str) -> Option<Vec<usize>> {
    index.get(key).map(|set| set.positions())
}

#[test]
fn position_sets_start_empty() {
    let set = PositionSet::new(5);
    assert_eq!(set.len(), 5);
    assert_eq!(set.positions(), Vec::<usize>::new());
    assert!(!set.is_full());
    for position in 0..7 {
        assert!(!set.contains(position));
    }
}

#[test]
fn position_sets_hold_what_was_inserted() {
    let mut set = PositionSet::new(70);
    set.insert(69);
    set.insert(0);
    set.insert(64);
    set.insert(0);
    assert_eq!(set.len(), 70);
    assert_eq!(set.positions(), vec![0, 64, 69]);
    assert!(set.contains(0) && set.contains(64) && set.contains(69));
    assert!(!set.contains(1) && !set.contains(63) && !set.contains(70));
    assert!(!set.is_full());
}

#[test]
fn position_sets_are_full_when_every_position_is_in() {
    let mut set = PositionSet::new(3);
    set.insert(0);
    set.insert(2);
    assert!(!set.is_full());
    set.insert(1);
    assert!(set.is_full());
    assert!(PositionSet::new(0).is_full());
    assert_eq!(PositionSet::new(0).len(), 0);
}

#[test]
fn the_bound_on_position_sets_is_that_of_the_bit_vector() {
    assert_eq!(MAX_POSITIONS, bitvec::slice::BitSlice::<usize, bitvec::order::Lsb0>::MAX_BITS);
    assert_eq!(MAX_POSITIONS, usize::MAX >> 3);
}

#[test]
fn an_empty_collection_has_empty_indexes() {
    let empty = UCards::empty();
    let names = build_name_index(&empty);
    assert_eq!(names.width(), 0);
    assert!(names.get("a").is_none());
    let types = build_type_index(&empty).unwrap();
    assert_eq!(types.width(), 0);
    assert!(types.get(CardType::Hero).is_none());
}

#[test]
fn names_are_indexed_in_canonical_form() {
    let index = build_name_index(&cards(vec![
        named("\u{c9}owyn"),
        named("Th\u{e9}oden"),
        named("EOMER"),
        named("Gr\u{ed}ma Wormtongue"),
    ]));
    assert_eq!(under(&index, "e"), Some(vec![0, 2]));
    assert_eq!(under(&index, "eo"), Some(vec![0, 2]));
    assert_eq!(under(&index, "eow"), Some(vec![0]));
    assert_eq!(under(&index, "eowyn"), Some(vec![0]));
    assert_eq!(under(&index, "theoden"), Some(vec![1]));
    assert_eq!(under(&index, "grima"), Some(vec![3]));
    assert_eq!(under(&index, "w"), Some(vec![3]));
    assert_eq!(under(&index, "wormtongue"), Some(vec![3]));
    assert_eq!(under(&index, "\u{e9}"), None);
    assert_eq!(under(&index, "E"), None);
    assert_eq!(under(&index, "owyn"), None);
    assert_eq!(under(&index, "grima wormtongue"), None);
}

#[test]
fn each_word_of_a_name_is_indexed_on_its_own() {
    let index = build_name_index(&cards(vec![named("Rally the West"), named("The Rally")]));
    assert_eq!(under(&index, "rally"), Some(vec![0, 1]));
    assert_eq!(under(&index, "the"), Some(vec![0, 1]));
    assert_eq!(under(&index, "west"), Some(vec![0]));
    assert_eq!(under(&index, "rallythe"), None);
    assert_eq!(under(&index, "ally"), None);
}

#[test]
fn empty_words_give_no_key() {
    let index = build_name_index(&cards(vec![named(""), named("  a "), named("\u{201c}\u{201d}")]));
    assert_eq!(under(&index, ""), None);
    assert_eq!(under(&index, " "), None);
    assert_eq!(under(&index, "a"), Some(vec![1]));
    assert_eq!(index.width(), 3);
}

#[test]
fn a_word_that_comes_twice_marks_its_card_once() {
    let index = build_name_index(&cards(vec![named("Bill Bill"), named("Bilbo")]));
    assert_eq!(under(&index, "bil"), Some(vec![0, 1]));
    assert_eq!(under(&index, "bill"), Some(vec![0]));
    assert_eq!(under(&index, "bilb"), Some(vec![1]));
}

#[test]
fn position_sets_are_as_long_as_the_collection() {
    let collection = cards((0..70).map(|i| named(&format!("Card{}", i))).collect());
    let index = build_name_index(&collection);
    assert_eq!(index.width(), 70);
    let all = index.get("card").unwrap();
    assert_eq!(all.len(), 70);
    assert!(all.is_full());
    assert_eq!(under(&index, "card6"), Some(vec![6, 60, 61, 62, 63, 64, 65, 66, 67, 68, 69]));
    assert_eq!(under(&index, "card69"), Some(vec![69]));
    assert_eq!(index.get("card69").unwrap().len(), 70);
}

#[test]
fn an_index_is_not_kept_up_to_date() {
    let mut collection = cards(vec![named("Fastred")]);
    let index = build_name_index(&collection);
    let mut more = cards(vec![named("Faramir")]);
    collection.append(&mut more);
    assert_eq!(index.width(), 1);
    assert_eq!(under(&index, "fa"), Some(vec![0]));
    let rebuilt = build_name_index(&collection);
    assert_eq!(rebuilt.width(), 2);
    assert_eq!(under(&rebuilt, "fa"), Some(vec![0, 1]));
}

#[test]
fn marking_by_hand() {
    let index = NameIndex::new(4);
    assert!(index.get("a").is_none());
    let index = index.mark("ab".to_string(), 3);
    let index = index.mark("ab".to_string(), 1);
    let index = index.mark("b".to_string(), 0);
    assert_eq!(under(&index, "ab"), Some(vec![1, 3]));
    assert_eq!(under(&index, "b"), Some(vec![0]));
    assert_eq!(under(&index, "a"), None);
    let index = index.mark_beginnings("abc", 2);
    assert_eq!(under(&index, "abc"), Some(vec![2]));
    assert_eq!(under(&index, "ab"), Some(vec![1, 2, 3]));
    assert_eq!(under(&index, "a"), Some(vec![2]));
    assert_eq!(under(&index, "b"), Some(vec![0]));
    let index = index.mark_beginnings("", 0);
    assert_eq!(under(&index, ""), None);
    assert_eq!(index.width(), 4);
}

#[test]
fn every_card_type_is_indexed_under_its_name() {
    let labels = [
        ("Attachment", CardType::Attachment),
        ("Hero", CardType::Hero),
        ("Side Quest", CardType::SideQuest),
        ("Event", CardType::Event),
        ("Ally", CardType::Ally),
        ("Objective", CardType::Objective),
        ("Enemy", CardType::Enemy),
        ("Location", CardType::Location),
        ("Treachery", CardType::Treachery),
        ("Quest", CardType::Quest),
        ("Rules", CardType::Rules),
        ("Nightmare", CardType::Nightmare),
        ("Treasure", CardType::Treasure),
        ("Campaign", CardType::Campaign),
        ("Objective Ally", CardType::ObjectiveAlly),
        ("Ship-Enemy", CardType::ShipEnemy),
        ("Contract", CardType::Contract),
    ];
    let collection = cards(labels.iter().map(|(label, _)| typed(label, &[label])).collect());
    let index = build_type_index(&collection).unwrap();
    for (position, (_, card_type)) in labels.iter().enumerate() {
        let set = index.get(*card_type).unwrap();
        assert_eq!(set.positions(), vec![position]);
        assert_eq!(set.len(), labels.len());
    }
}

#[test]
fn a_card_may_have_no_type_or_several() {
    let collection = cards(vec![
        typed("none", &[]),
        typed("two", &["Ally", "Objective"]),
        typed("twice", &["Ally", "Ally"]),
        typed("one", &["Objective"]),
    ]);
    let index = build_type_index(&collection).unwrap();
    assert_eq!(index.get(CardType::Ally).unwrap().positions(), vec![1, 2]);
    assert_eq!(index.get(CardType::Objective).unwrap().positions(), vec![1, 3]);
    assert!(index.get(CardType::ObjectiveAlly).is_none());
    assert!(index.get(CardType::Attachment).is_none());
}

#[test]
fn an_internal_card_is_in_no_position_set() {
    let collection = cards(vec![
        typed("hero", &["Hero"]),
        typed("marker", &["Internal"]),
        typed("ally", &["Ally"]),
        typed("both", &["Internal", "Hero", "Internal"]),
    ]);
    let index = build_type_index(&collection).unwrap();
    let all = [
        CardType::Attachment,
        CardType::Hero,
        CardType::SideQuest,
        CardType::Event,
        CardType::Ally,
        CardType::Objective,
        CardType::Enemy,
        CardType::Location,
        CardType::Treachery,
        CardType::Quest,
        CardType::Rules,
        CardType::Nightmare,
        CardType::Treasure,
        CardType::Campaign,
        CardType::ObjectiveAlly,
        CardType::ShipEnemy,
        CardType::Contract,
    ];
    for card_type in all {
        if let Some(set) = index.get(card_type) {
            assert!(!set.contains(1));
        }
    }
    assert_eq!(index.get(CardType::Hero).unwrap().positions(), vec![0, 3]);
    assert_eq!(index.get(CardType::Ally).unwrap().positions(), vec![2]);
}

#[test]
fn only_attributes_named_type_give_a_type() {
    let mut card = typed("odd", &[]);
    card.properties.push(UProperty { name: "Sphere".to_string(), value: "Hero".to_string() });
    card.properties.push(UProperty { name: "type".to_string(), value: "Hero".to_string() });
    card.properties.push(UProperty { name: "Kind".to_string(), value: "Nonsense".to_string() });
    let index = build_type_index(&cards(vec![card])).unwrap();
    assert!(index.get(CardType::Hero).is_none());
}

#[test]
fn an_unknown_type_ends_the_building() {
    let collection = cards(vec![
        typed("hero", &["Hero"]),
        typed("odd", &["Internal", "Ally", "Ship-Objective", "Nonsense"]),
        typed("other", &["Gibberish"]),
    ]);
    let unknown = build_type_index(&collection).err().unwrap();
    assert_eq!(unknown.position, 1);
    assert_eq!(unknown.value, "Ship-Objective");
}

#[test]
fn type_names_are_matched_exactly() {
    for value in ["hero", "Hero ", "SideQuest", "internal", ""] {
        let unknown = build_type_index(&cards(vec![typed("x", &[value])])).err().unwrap();
        assert_eq!(unknown.position, 0);
        assert_eq!(unknown.value, value);
    }
}

#[test]
fn marking_types_by_hand() {
    let index = TypeIndex::new(3);
    assert!(index.get(CardType::Hero).is_none());
    let index = index.mark(CardType::Hero, 2);
    let index = index.mark(CardType::Contract, 0);
    let index = index.mark(CardType::Hero, 0);
    assert_eq!(index.get(CardType::Hero).unwrap().positions(), vec![0, 2]);
    assert_eq!(index.get(CardType::Contract).unwrap().positions(), vec![0]);
    assert!(index.get(CardType::Attachment).is_none());
    assert_eq!(index.width(), 3);
}
