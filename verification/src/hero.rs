//! The hero record: the typed shape that a hero card's attributes are
//! rebuilt into, and the strict rebuilding itself. Every attribute must
//! belong to the shape, every value must convert, and every field must be
//! supplied.

use crate::bits::PositionSet;
use crate::card::{Attribute, CardType, CardView, Sphere, UCard, UProperty};
use crate::text::{
    chars_of, decimal_text, format_u8, joined, lemma_parse_decimal_text, lemma_split_of_joined,
    parse_u8, parsed_u8, split, split_on, str_eq, string_of, texts,
};
use vstd::string::*;
use vstd::prelude::*;

verus! {

/// The number of fields that a hero card must supply.
pub const HERO_FIELDS: usize = 11;

/// The fields that a hero card must supply, in the order in which their
/// presence is tracked.
#[derive(Copy, Clone, Debug, PartialEq, Eq, Structural)]
pub enum HeroField {
    CardNumber,
    Quantity,
    Type,
    Traits,
    Cost,
    Willpower,
    Attack,
    Defense,
    Health,
    Sphere,
    Text,
}

impl HeroField {
    /// The attribute name that supplies this field.
    pub open spec fn label(self) -> Seq<char> {
        match self {
            HeroField::CardNumber => "Card Number"@,
            HeroField::Quantity => "Quantity"@,
            HeroField::Type => "Type"@,
            HeroField::Traits => "Traits"@,
            HeroField::Cost => "Cost"@,
            HeroField::Willpower => "Willpower"@,
            HeroField::Attack => "Attack"@,
            HeroField::Defense => "Defense"@,
            HeroField::Health => "Health"@,
            HeroField::Sphere => "Sphere"@,
            HeroField::Text => "Text"@,
        }
    }

    /// The field that an attribute of this name supplies, if any.
    pub open spec fn named(name: Seq<char>) -> Option<HeroField> {
        if name == HeroField::CardNumber.label() {
            Some(HeroField::CardNumber)
        } else if name == HeroField::Quantity.label() {
            Some(HeroField::Quantity)
        } else if name == HeroField::Type.label() {
            Some(HeroField::Type)
        } else if name == HeroField::Traits.label() {
            Some(HeroField::Traits)
        } else if name == HeroField::Cost.label() {
            Some(HeroField::Cost)
        } else if name == HeroField::Willpower.label() {
            Some(HeroField::Willpower)
        } else if name == HeroField::Attack.label() {
            Some(HeroField::Attack)
        } else if name == HeroField::Defense.label() {
            Some(HeroField::Defense)
        } else if name == HeroField::Health.label() {
            Some(HeroField::Health)
        } else if name == HeroField::Sphere.label() {
            Some(HeroField::Sphere)
        } else if name == HeroField::Text.label() {
            Some(HeroField::Text)
        } else {
            None
        }
    }

    /// The place of this field in the tracking order, from 0.
    pub open spec fn ordinal(self) -> nat {
        match self {
            HeroField::CardNumber => 0,
            HeroField::Quantity => 1,
            HeroField::Type => 2,
            HeroField::Traits => 3,
            HeroField::Cost => 4,
            HeroField::Willpower => 5,
            HeroField::Attack => 6,
            HeroField::Defense => 7,
            HeroField::Health => 8,
            HeroField::Sphere => 9,
            HeroField::Text => 10,
        }
    }

    /// The field at place `i` of the tracking order (the last field for a
    /// place past the end).
    pub open spec fn at(i: nat) -> HeroField {
        if i == 0 {
            HeroField::CardNumber
        } else if i == 1 {
            HeroField::Quantity
        } else if i == 2 {
            HeroField::Type
        } else if i == 3 {
            HeroField::Traits
        } else if i == 4 {
            HeroField::Cost
        } else if i == 5 {
            HeroField::Willpower
        } else if i == 6 {
            HeroField::Attack
        } else if i == 7 {
            HeroField::Defense
        } else if i == 8 {
            HeroField::Health
        } else if i == 9 {
            HeroField::Sphere
        } else {
            HeroField::Text
        }
    }

    /// The attribute name that supplies this field.
    pub fn as_str(self) -> (label: &'static str)
        ensures
            label@ == self.label(),
    {
        match self {
            HeroField::CardNumber => "Card Number",
            HeroField::Quantity => "Quantity",
            HeroField::Type => "Type",
            HeroField::Traits => "Traits",
            HeroField::Cost => "Cost",
            HeroField::Willpower => "Willpower",
            HeroField::Attack => "Attack",
            HeroField::Defense => "Defense",
            HeroField::Health => "Health",
            HeroField::Sphere => "Sphere",
            HeroField::Text => "Text",
        }
    }

    /// The place of this field in the tracking order, from 0.
    pub fn index(self) -> (index: usize)
        ensures
            index == self.ordinal(),
            index < HERO_FIELDS,
            HeroField::at(index as nat) == self,
    {
        match self {
            HeroField::CardNumber => 0,
            HeroField::Quantity => 1,
            HeroField::Type => 2,
            HeroField::Traits => 3,
            HeroField::Cost => 4,
            HeroField::Willpower => 5,
            HeroField::Attack => 6,
            HeroField::Defense => 7,
            HeroField::Health => 8,
            HeroField::Sphere => 9,
            HeroField::Text => 10,
        }
    }

    /// The field at place `index` of the tracking order, if there is one.
    pub fn from_index(index: usize) -> (field: Option<HeroField>)
        ensures
            field == if index < HERO_FIELDS {
                Some(HeroField::at(index as nat))
            } else {
                None
            },
    {
        if index == 0 {
            Some(HeroField::CardNumber)
        } else if index == 1 {
            Some(HeroField::Quantity)
        } else if index == 2 {
            Some(HeroField::Type)
        } else if index == 3 {
            Some(HeroField::Traits)
        } else if index == 4 {
            Some(HeroField::Cost)
        } else if index == 5 {
            Some(HeroField::Willpower)
        } else if index == 6 {
            Some(HeroField::Attack)
        } else if index == 7 {
            Some(HeroField::Defense)
        } else if index == 8 {
            Some(HeroField::Health)
        } else if index == 9 {
            Some(HeroField::Sphere)
        } else if index == 10 {
            Some(HeroField::Text)
        } else {
            None
        }
    }

    /// The field that an attribute of this name supplies. A name outside
    /// the shape gives `None`.
    pub fn from_name(name: &str) -> (field: Option<HeroField>)
        ensures
            field == HeroField::named(name@),
    {
        if str_eq(name, "Card Number") {
            Some(HeroField::CardNumber)
        } else if str_eq(name, "Quantity") {
            Some(HeroField::Quantity)
        } else if str_eq(name, "Type") {
            Some(HeroField::Type)
        } else if str_eq(name, "Traits") {
            Some(HeroField::Traits)
        } else if str_eq(name, "Cost") {
            Some(HeroField::Cost)
        } else if str_eq(name, "Willpower") {
            Some(HeroField::Willpower)
        } else if str_eq(name, "Attack") {
            Some(HeroField::Attack)
        } else if str_eq(name, "Defense") {
            Some(HeroField::Defense)
        } else if str_eq(name, "Health") {
            Some(HeroField::Health)
        } else if str_eq(name, "Sphere") {
            Some(HeroField::Sphere)
        } else if str_eq(name, "Text") {
            Some(HeroField::Text)
        } else {
            None
        }
    }
}

/// A hero card as mathematics sees it.
pub struct HeroRecord {
    pub card_number: u8,
    pub quantity: u8,
    pub card_type: CardType,
    pub sphere: Sphere,
    pub traits: Seq<Seq<char>>,
    pub cost: u8,
    pub willpower: u8,
    pub attack: u8,
    pub defense: u8,
    pub health: u8,
    pub text: Seq<char>,
    pub set: Seq<char>,
}

/// A hero card with typed fields. `set` names the set that the card belongs
/// to; no attribute carries it, so rebuilding leaves it empty.
#[derive(Debug)]
pub struct HeroCard {
    pub card_number: u8,
    pub quantity: u8,
    pub card_type: CardType,
    pub sphere: Sphere,
    pub traits: Vec<String>,
    pub cost: u8,
    pub willpower: u8,
    pub attack: u8,
    pub defense: u8,
    pub health: u8,
    pub text: String,
    pub set: String,
}

impl View for HeroCard {
    type V = HeroRecord;

    open spec fn view(&self) -> HeroRecord {
        HeroRecord {
            card_number: self.card_number,
            quantity: self.quantity,
            card_type: self.card_type,
            sphere: self.sphere,
            traits: texts(self.traits@),
            cost: self.cost,
            willpower: self.willpower,
            attack: self.attack,
            defense: self.defense,
            health: self.health,
            text: self.text@,
            set: self.set@,
        }
    }
}

/// The record that rebuilding starts from.
pub open spec fn blank_record() -> HeroRecord {
    HeroRecord {
        card_number: 0,
        quantity: 0,
        card_type: CardType::Attachment,
        sphere: Sphere::Spirit,
        traits: Seq::empty(),
        cost: 0,
        willpower: 0,
        attack: 0,
        defense: 0,
        health: 0,
        text: Seq::empty(),
        set: Seq::empty(),
    }
}

impl Default for HeroCard {
    fn default() -> (hero: HeroCard)
        ensures
            hero@ == blank_record(),
    {
        let hero = HeroCard {
            card_number: 0,
            quantity: 0,
            card_type: CardType::Attachment,
            sphere: Sphere::Spirit,
            traits: Vec::new(),
            cost: 0,
            willpower: 0,
            attack: 0,
            defense: 0,
            health: 0,
            text: String::new(),
            set: String::new(),
        };
        assert(hero@.traits =~= Seq::<Seq<char>>::empty());
        hero
    }
}

/// What is wrong with the attributes of a card, as mathematics sees it.
pub enum Fault {
    UnknownField { name: Seq<char> },
    InvalidValue { field: HeroField, value: Seq<char> },
    MissingFields { fields: Seq<HeroField> },
}

/// Why a card could not be rebuilt as a typed record, as mathematics sees
/// it.
pub struct Failure {
    pub card_id: Seq<char>,
    pub card_name: Seq<char>,
    pub fault: Fault,
}

/// What is wrong with the attributes of a card.
#[derive(Debug)]
pub enum ValidationErrorKind {
    /// The card carries an attribute whose name the shape does not know.
    UnknownField { name: String },
    /// The value of a known attribute does not convert to its field.
    InvalidValue { field: HeroField, value: String },
    /// No attribute supplies these fields, listed in tracking order.
    MissingFields { fields: Vec<HeroField> },
}

impl View for ValidationErrorKind {
    type V = Fault;

    open spec fn view(&self) -> Fault {
        match self {
            ValidationErrorKind::UnknownField { name } => Fault::UnknownField { name: name@ },
            ValidationErrorKind::InvalidValue { field, value } => Fault::InvalidValue {
                field: *field,
                value: value@,
            },
            ValidationErrorKind::MissingFields { fields } => Fault::MissingFields {
                fields: fields@,
            },
        }
    }
}

/// Why a card could not be rebuilt as a typed record: the card, by id and
/// name, and what is wrong with its attributes.
#[derive(Debug)]
pub struct ValidationError {
    pub card_id: String,
    pub card_name: String,
    pub kind: ValidationErrorKind,
}

impl View for ValidationError {
    type V = Failure;

    open spec fn view(&self) -> Failure {
        Failure { card_id: self.card_id@, card_name: self.card_name@, fault: self.kind@ }
    }
}

/// `s` without its last character; the empty text stays empty.
pub open spec fn without_last(s: Seq<char>) -> Seq<char> {
    if s.len() == 0 {
        s
    } else {
        s.drop_last()
    }
}

/// The traits that a "Traits" value lists: its pieces between single spaces,
/// each without its last character (the full stop that closes a trait word).
pub open spec fn traits_in(value: Seq<char>) -> Seq<Seq<char>> {
    split_on(value, ' ').map_values(|piece: Seq<char>| without_last(piece))
}

/// Whether `value` converts to the type of `field`.
pub open spec fn value_fits(field: HeroField, value: Seq<char>) -> bool {
    match field {
        HeroField::Type | HeroField::Traits | HeroField::Text => true,
        HeroField::Sphere => Sphere::named(value) is Some,
        HeroField::CardNumber
        | HeroField::Quantity
        | HeroField::Cost
        | HeroField::Willpower
        | HeroField::Attack
        | HeroField::Defense
        | HeroField::Health => parsed_u8(value) is Some,
    }
}

/// What is wrong with one attribute, if anything.
pub open spec fn fault_of(attribute: Attribute) -> Option<Fault> {
    match HeroField::named(attribute.name) {
        None => Some(Fault::UnknownField { name: attribute.name }),
        Some(field) => if value_fits(field, attribute.value) {
            None
        } else {
            Some(Fault::InvalidValue { field, value: attribute.value })
        },
    }
}

/// What is wrong with the first attribute that has anything wrong with it.
pub open spec fn first_fault(attributes: Seq<Attribute>) -> Option<Fault>
    decreases attributes.len(),
{
    if attributes.len() == 0 {
        None
    } else {
        match first_fault(attributes.drop_last()) {
            Some(fault) => Some(fault),
            None => fault_of(attributes.last()),
        }
    }
}

/// The value of the last attribute that supplies `field`.
pub open spec fn last_value(attributes: Seq<Attribute>, field: HeroField) -> Option<Seq<char>>
    decreases attributes.len(),
{
    if attributes.len() == 0 {
        None
    } else if HeroField::named(attributes.last().name) == Some(field) {
        Some(attributes.last().value)
    } else {
        last_value(attributes.drop_last(), field)
    }
}

/// The number that the attributes give to `field`; 0 where they give none.
pub open spec fn number_in(attributes: Seq<Attribute>, field: HeroField) -> u8 {
    match last_value(attributes, field) {
        Some(value) => match parsed_u8(value) {
            Some(number) => number,
            None => 0,
        },
        None => 0,
    }
}

/// The record that the attributes describe: each field converted from the
/// last attribute that supplies it, and left blank where none does.
pub open spec fn record_of(attributes: Seq<Attribute>) -> HeroRecord {
    HeroRecord {
        card_number: number_in(attributes, HeroField::CardNumber),
        quantity: number_in(attributes, HeroField::Quantity),
        card_type: if last_value(attributes, HeroField::Type) is Some {
            CardType::Hero
        } else {
            CardType::Attachment
        },
        sphere: match last_value(attributes, HeroField::Sphere) {
            Some(value) => match Sphere::named(value) {
                Some(sphere) => sphere,
                None => Sphere::Spirit,
            },
            None => Sphere::Spirit,
        },
        traits: match last_value(attributes, HeroField::Traits) {
            Some(value) => traits_in(value),
            None => Seq::empty(),
        },
        cost: number_in(attributes, HeroField::Cost),
        willpower: number_in(attributes, HeroField::Willpower),
        attack: number_in(attributes, HeroField::Attack),
        defense: number_in(attributes, HeroField::Defense),
        health: number_in(attributes, HeroField::Health),
        text: match last_value(attributes, HeroField::Text) {
            Some(value) => value,
            None => Seq::empty(),
        },
        set: Seq::empty(),
    }
}

/// The fields among the first `k` of the tracking order that no attribute
/// supplies, in that order.
pub open spec fn missing_below(attributes: Seq<Attribute>, k: nat) -> Seq<HeroField>
    decreases k,
{
    if k == 0 {
        Seq::empty()
    } else {
        let field = HeroField::at((k - 1) as nat);
        let lower = missing_below(attributes, (k - 1) as nat);
        if last_value(attributes, field) is None {
            lower.push(field)
        } else {
            lower
        }
    }
}

/// What is wrong with the attributes, if anything. The first attribute that
/// is unknown or does not convert decides; failing that, the fields that no
/// attribute supplies.
pub open spec fn fault_in(attributes: Seq<Attribute>) -> Option<Fault> {
    match first_fault(attributes) {
        Some(fault) => Some(fault),
        None => {
            let missing = missing_below(attributes, HERO_FIELDS as nat);
            if missing.len() > 0 {
                Some(Fault::MissingFields { fields: missing })
            } else {
                None
            }
        },
    }
}

/// What rebuilding a card as a hero record gives: the record that its
/// attributes describe, or the card's id and name with what is wrong with
/// its attributes.
pub open spec fn reconstructed(card: CardView) -> Result<HeroRecord, Failure> {
    match fault_in(card.attributes) {
        Some(fault) => Err(Failure { card_id: card.id, card_name: card.name, fault }),
        None => Ok(record_of(card.attributes)),
    }
}

/// The outcome of rebuilding as mathematics sees it.
pub open spec fn outcome_view(outcome: Result<HeroCard, ValidationError>) -> Result<
    HeroRecord,
    Failure,
> {
    match outcome {
        Ok(hero) => Ok(hero@),
        Err(error) => Err(error@),
    }
}

/// A fault among the first attributes is the fault of the whole list.
pub proof fn lemma_first_fault_decides(attributes: Seq<Attribute>, k: int)
    requires
        0 <= k <= attributes.len(),
        first_fault(attributes.take(k)) is Some,
    ensures
        first_fault(attributes) == first_fault(attributes.take(k)),
    decreases attributes.len() - k,
{
    if k == attributes.len() {
        assert(attributes.take(k) =~= attributes);
    } else {
        assert(attributes.take(k + 1).drop_last() =~= attributes.take(k));
        lemma_first_fault_decides(attributes, k + 1);
    }
}

/// `token` without its last character.
pub fn drop_last_char(token: &str) -> (rest: String)
    ensures
        rest@ == without_last(token@),
{
    let chars = chars_of(token);
    if chars.len() == 0 {
        String::new()
    } else {
        string_of(&chars, 0, chars.len() - 1)
    }
}

/// The traits that a "Traits" value lists.
pub fn parse_traits(value: &str) -> (traits: Vec<String>)
    ensures
        texts(traits@) == traits_in(value@),
{
    let pieces = split(value, ' ');
    let mut traits: Vec<String> = Vec::new();
    let mut i: usize = 0;
    while i < pieces.len()
        invariant
            i <= pieces.len(),
            texts(pieces@) == split_on(value@, ' '),
            traits.len() == i,
            forall|j: int| 0 <= j < i ==> traits[j]@ == without_last(pieces[j]@),
        decreases pieces.len() - i,
    {
        traits.push(drop_last_char(pieces[i].as_str()));
        i += 1;
    }
    traits
}

/// The fields whose bit is not raised in `seen`, in tracking order.
fn fields_not_seen(seen: &PositionSet, Ghost(attributes): Ghost<Seq<Attribute>>) -> (missing: Vec<
    HeroField,
>)
    requires
        seen@.len() == HERO_FIELDS,
        forall|k: int|
            0 <= k < HERO_FIELDS ==> seen@[k] == (last_value(attributes, HeroField::at(k as nat))
                is Some),
    ensures
        missing@ == missing_below(attributes, HERO_FIELDS as nat),
{
    let mut missing: Vec<HeroField> = Vec::new();
    let mut k: usize = 0;
    while k < HERO_FIELDS
        invariant
            k <= HERO_FIELDS,
            seen@.len() == HERO_FIELDS,
            forall|j: int|
                0 <= j < HERO_FIELDS ==> seen@[j] == (last_value(
                    attributes,
                    HeroField::at(j as nat),
                ) is Some),
            missing@ == missing_below(attributes, k as nat),
        decreases HERO_FIELDS - k,
    {
        if !seen.contains(k) {
            match HeroField::from_index(k) {
                Some(field) => missing.push(field),
                None => {},
            }
        }
        k += 1;
    }
    missing
}

/// A full presence vector means that no field is missing, and the other
/// way round.
proof fn lemma_missing_iff_not_full(attributes: Seq<Attribute>, seen: Seq<bool>, k: nat)
    requires
        k <= seen.len() == HERO_FIELDS,
        forall|j: int|
            0 <= j < HERO_FIELDS ==> seen[j] == (last_value(attributes, HeroField::at(j as nat))
                is Some),
    ensures
        missing_below(attributes, k).len() == 0 <==> (forall|j: int| 0 <= j < k ==> seen[j]),
    decreases k,
{
    if k > 0 {
        lemma_missing_iff_not_full(attributes, seen, (k - 1) as nat);
        assert(seen[k - 1] == (last_value(attributes, HeroField::at((k - 1) as nat)) is Some));
    }
}

/// The error that names `card` and says what is wrong with its attributes.
fn failure(card: &UCard, kind: ValidationErrorKind) -> (error: ValidationError)
    ensures
        error@ == (Failure { card_id: card@.id, card_name: card@.name, fault: kind@ }),
{
    ValidationError { card_id: card.id.clone(), card_name: card.name.clone(), kind }
}

impl HeroCard {
    /// Rebuilds a card as a hero record.
    ///
    /// The attributes are read in order. One whose name the shape does not
    /// know, or whose value does not convert to its field, ends the
    /// rebuilding with that fault. A name that comes twice overwrites. When
    /// all attributes are read, the fields that none of them supplied are
    /// given back as missing, and if there is none the record is returned.
    /// The card type of the record is `Hero` whatever the "Type" attribute
    /// says. An error names the card by id and name.
    pub fn from_ucard(card: &UCard) -> (outcome: Result<HeroCard, ValidationError>)
        ensures
            outcome_view(outcome) == reconstructed(card@),
    {
        let mut hero = HeroCard::default();
        let mut seen = PositionSet::new(HERO_FIELDS);
        let ghost attributes = card@.attributes;
        let mut i: usize = 0;
        while i < card.properties.len()
            invariant
                i <= card.properties.len(),
                attributes == card@.attributes,
                first_fault(attributes.take(i as int)) is None,
                seen@.len() == HERO_FIELDS,
                forall|k: int|
                    0 <= k < HERO_FIELDS ==> seen@[k] == (last_value(
                        attributes.take(i as int),
                        HeroField::at(k as nat),
                    ) is Some),
                hero@ == record_of(attributes.take(i as int)),
            decreases card.properties.len() - i,
        {
            let property = &card.properties[i];
            assert(attributes.take(i + 1).drop_last() =~= attributes.take(i as int));
            let value = property.value.as_str();
            match HeroField::from_name(property.name.as_str()) {
                None => {
                    proof {
                        lemma_first_fault_decides(attributes, i + 1);
                    }
                    return Err(
                        failure(
                            card,
                            ValidationErrorKind::UnknownField { name: property.name.clone() },
                        ),
                    );
                },
                Some(field) => {
                    let mut fits = true;
                    match field {
                        HeroField::CardNumber => match parse_u8(value) {
                            Some(number) => hero.card_number = number,
                            None => fits = false,
                        },
                        HeroField::Quantity => match parse_u8(value) {
                            Some(number) => hero.quantity = number,
                            None => fits = false,
                        },
                        HeroField::Type => hero.card_type = CardType::Hero,
                        HeroField::Traits => hero.traits = parse_traits(value),
                        HeroField::Cost => match parse_u8(value) {
                            Some(number) => hero.cost = number,
                            None => fits = false,
                        },
                        HeroField::Willpower => match parse_u8(value) {
                            Some(number) => hero.willpower = number,
                            None => fits = false,
                        },
                        HeroField::Attack => match parse_u8(value) {
                            Some(number) => hero.attack = number,
                            None => fits = false,
                        },
                        HeroField::Defense => match parse_u8(value) {
                            Some(number) => hero.defense = number,
                            None => fits = false,
                        },
                        HeroField::Health => match parse_u8(value) {
                            Some(number) => hero.health = number,
                            None => fits = false,
                        },
                        HeroField::Sphere => match Sphere::from_str(value) {
                            Ok(sphere) => hero.sphere = sphere,
                            Err(_) => fits = false,
                        },
                        HeroField::Text => hero.text = property.value.clone(),
                    }
                    if !fits {
                        proof {
                            lemma_first_fault_decides(attributes, i + 1);
                        }
                        return Err(
                            failure(
                                card,
                                ValidationErrorKind::InvalidValue {
                                    field,
                                    value: property.value.clone(),
                                },
                            ),
                        );
                    }
                    seen.insert(field.index());
                },
            }
            i += 1;
        }
        assert(attributes.take(i as int) =~= attributes);
        proof {
            lemma_missing_iff_not_full(attributes, seen@, HERO_FIELDS as nat);
        }
        if seen.is_full() {
            Ok(hero)
        } else {
            Err(
                failure(
                    card,
                    ValidationErrorKind::MissingFields {
                        fields: fields_not_seen(&seen, Ghost(attributes)),
                    },
                ),
            )
        }
    }
}

/// Each trait with the full stop that closes it in card data.
pub open spec fn dotted(traits: Seq<Seq<char>>) -> Seq<Seq<char>> {
    traits.map_values(|word: Seq<char>| word.push('.'))
}

/// The attribute that supplies `field` with `value`.
pub open spec fn attribute(field: HeroField, value: Seq<char>) -> Attribute {
    Attribute { name: field.label(), value }
}

/// The attributes that write a hero record down, one per field.
pub open spec fn attributes_of(hero: HeroRecord) -> Seq<Attribute> {
    seq![
        attribute(HeroField::CardNumber, decimal_text(hero.card_number as nat)),
        attribute(HeroField::Quantity, decimal_text(hero.quantity as nat)),
        attribute(HeroField::Type, CardType::Hero.label()),
        attribute(HeroField::Sphere, hero.sphere.label()),
        attribute(HeroField::Traits, joined(dotted(hero.traits), ' ')),
        attribute(HeroField::Cost, decimal_text(hero.cost as nat)),
        attribute(HeroField::Willpower, decimal_text(hero.willpower as nat)),
        attribute(HeroField::Attack, decimal_text(hero.attack as nat)),
        attribute(HeroField::Defense, decimal_text(hero.defense as nat)),
        attribute(HeroField::Health, decimal_text(hero.health as nat)),
        attribute(HeroField::Text, hero.text),
    ]
}

/// The traits written as card data writes them: each closed by a full stop,
/// with single spaces between them.
pub fn write_traits(traits: &Vec<String>) -> (line: String)
    ensures
        line@ == joined(dotted(texts(traits@)), ' '),
{
    let ghost words = dotted(texts(traits@));
    let mut line = String::new();
    let mut i: usize = 0;
    while i < traits.len()
        invariant
            i <= traits.len(),
            words == dotted(texts(traits@)),
            line@ == joined(words.take(i as int), ' '),
        decreases traits.len() - i,
    {
        if i > 0 {
            line.push(' ');
        }
        line.append(traits[i].as_str());
        line.push('.');
        assert(words.take(i + 1).drop_last() =~= words.take(i as int));
        i += 1;
    }
    assert(words.take(i as int) =~= words);
    line
}

/// One attribute.
fn property(field: HeroField, value: String) -> (property: UProperty)
    ensures
        property@ == attribute(field, value@),
{
    UProperty { name: field.as_str().to_owned(), value }
}

impl HeroCard {
    /// Writes the record down as a card with the given id and name: one
    /// attribute per field, numbers in decimal, the sphere by its name, the
    /// type as "Hero". The card type and the set of the record are not
    /// written.
    pub fn to_ucard(&self, id: &str, name: &str) -> (card: UCard)
        ensures
            card@.id == id@,
            card@.name == name@,
            card@.attributes == attributes_of(self@),
    {
        let mut properties: Vec<UProperty> = Vec::new();
        properties.push(property(HeroField::CardNumber, format_u8(self.card_number)));
        properties.push(property(HeroField::Quantity, format_u8(self.quantity)));
        properties.push(property(HeroField::Type, CardType::Hero.as_str().to_owned()));
        properties.push(property(HeroField::Sphere, self.sphere.as_str().to_owned()));
        properties.push(property(HeroField::Traits, write_traits(&self.traits)));
        properties.push(property(HeroField::Cost, format_u8(self.cost)));
        properties.push(property(HeroField::Willpower, format_u8(self.willpower)));
        properties.push(property(HeroField::Attack, format_u8(self.attack)));
        properties.push(property(HeroField::Defense, format_u8(self.defense)));
        properties.push(property(HeroField::Health, format_u8(self.health)));
        properties.push(property(HeroField::Text, self.text.clone()));
        let card = UCard { id: id.to_owned(), name: name.to_owned(), properties };
        card
    }
}

/// Every field is found again by its own attribute name.
pub proof fn lemma_field_names_differ(field: HeroField)
    ensures
        HeroField::named(field.label()) == Some(field),
{
    reveal_strlit("Card Number");
    reveal_strlit("Quantity");
    reveal_strlit("Type");
    reveal_strlit("Traits");
    reveal_strlit("Cost");
    reveal_strlit("Willpower");
    reveal_strlit("Attack");
    reveal_strlit("Defense");
    reveal_strlit("Health");
    reveal_strlit("Sphere");
    reveal_strlit("Text");
    // Names of one length differ in their first or second letter.
    assert("Card Number"@.len() == 11);
    assert("Quantity"@.len() == 8);
    assert("Willpower"@.len() == 9);
    assert("Defense"@.len() == 7);
    assert("Type"@.len() == 4 && "Type"@[0] == 'T' && "Type"@[1] == 'y');
    assert("Cost"@.len() == 4 && "Cost"@[0] == 'C');
    assert("Text"@.len() == 4 && "Text"@[0] == 'T' && "Text"@[1] == 'e');
    assert("Traits"@.len() == 6 && "Traits"@[0] == 'T');
    assert("Attack"@.len() == 6 && "Attack"@[0] == 'A');
    assert("Health"@.len() == 6 && "Health"@[0] == 'H');
    assert("Sphere"@.len() == 6 && "Sphere"@[0] == 'S');
}

/// Every sphere is found again by its own name.
pub proof fn lemma_sphere_names_differ(sphere: Sphere)
    ensures
        Sphere::named(sphere.label()) == Some(sphere),
{
    reveal_strlit("Spirit");
    reveal_strlit("Lore");
    reveal_strlit("Leadership");
    reveal_strlit("Tactics");
    assert("Spirit"@.len() == 6);
    assert("Lore"@.len() == 4);
    assert("Leadership"@.len() == 10);
    assert("Tactics"@.len() == 7);
}

/// Whether some attribute supplies `field`.
pub open spec fn supplies(attributes: Seq<Attribute>, field: HeroField) -> bool {
    exists|i: int|
        0 <= i < attributes.len() && HeroField::named(#[trigger] attributes[i].name) == Some(field)
}

/// There is a first fault exactly when some attribute has a fault.
pub proof fn lemma_first_fault_iff(attributes: Seq<Attribute>)
    ensures
        first_fault(attributes) is None <==> (forall|i: int|
            0 <= i < attributes.len() ==> fault_of(#[trigger] attributes[i]) is None),
    decreases attributes.len(),
{
    if attributes.len() > 0 {
        let init = attributes.drop_last();
        lemma_first_fault_iff(init);
        if first_fault(attributes) is None {
            assert forall|i: int| 0 <= i < attributes.len() implies fault_of(
                #[trigger] attributes[i],
            ) is None by {
                if i < init.len() {
                    assert(init[i] == attributes[i]);
                }
            }
        }
    }
}

/// A field has a value exactly when some attribute supplies it.
pub proof fn lemma_last_value_iff(attributes: Seq<Attribute>, field: HeroField)
    ensures
        last_value(attributes, field) is Some <==> supplies(attributes, field),
    decreases attributes.len(),
{
    if attributes.len() > 0 {
        let init = attributes.drop_last();
        let last = attributes.len() - 1;
        lemma_last_value_iff(init, field);
        if supplies(attributes, field) && HeroField::named(attributes[last].name) != Some(field) {
            let i = choose|i: int|
                0 <= i < attributes.len() && HeroField::named(#[trigger] attributes[i].name)
                    == Some(field);
            assert(init[i] == attributes[i]);
        }
    }
}

/// No field is missing exactly when every field has a value.
pub proof fn lemma_missing_iff(attributes: Seq<Attribute>, k: nat)
    ensures
        missing_below(attributes, k).len() == 0 <==> (forall|j: nat|
            j < k ==> last_value(attributes, #[trigger] HeroField::at(j)) is Some),
    decreases k,
{
    if k > 0 {
        lemma_missing_iff(attributes, (k - 1) as nat);
    }
}

/// Where only one attribute supplies a field, its value is the field's last
/// value.
pub proof fn lemma_only_value(attributes: Seq<Attribute>, field: HeroField, at: int)
    requires
        0 <= at < attributes.len(),
        forall|i: int|
            0 <= i < attributes.len() ==> (HeroField::named(#[trigger] attributes[i].name) == Some(
                field,
            ) <==> i == at),
    ensures
        last_value(attributes, field) == Some(attributes[at].value),
    decreases attributes.len(),
{
    if at != attributes.len() - 1 {
        lemma_only_value(attributes.drop_last(), field, at);
    }
}

/// Reading back the traits line of a list of traits gives the list, when the
/// list is not empty and no trait holds a space.
pub proof fn lemma_traits_round_trip(traits: Seq<Seq<char>>)
    requires
        traits.len() >= 1,
        forall|i: int| 0 <= i < traits.len() ==> !(#[trigger] traits[i]).contains(' '),
    ensures
        traits_in(joined(dotted(traits), ' ')) == traits,
{
    let words = dotted(traits);
    lemma_split_of_joined(words, ' ');
    assert forall|i: int| 0 <= i < traits.len() implies without_last(words[i]) == traits[i] by {
        assert(traits[i].push('.').drop_last() =~= traits[i]);
    }
}

/// Rebuilding the card that a hero record was written down as gives the
/// record back. This holds for the records that a card can express: the
/// type is `Hero`, the set is empty, there is at least one trait, and no
/// trait holds a space.
pub proof fn lemma_round_trip(hero: HeroRecord, id: Seq<char>, name: Seq<char>)
    requires
        hero.card_type == CardType::Hero,
        hero.set.len() == 0,
        hero.traits.len() >= 1,
        forall|i: int| 0 <= i < hero.traits.len() ==> !(#[trigger] hero.traits[i]).contains(' '),
    ensures
        reconstructed(CardView { id, name, attributes: attributes_of(hero) }) == Ok::<
            HeroRecord,
            Failure,
        >(hero),
{
    let attributes = attributes_of(hero);
    lemma_field_names_differ(HeroField::CardNumber);
    lemma_field_names_differ(HeroField::Quantity);
    lemma_field_names_differ(HeroField::Type);
    lemma_field_names_differ(HeroField::Traits);
    lemma_field_names_differ(HeroField::Cost);
    lemma_field_names_differ(HeroField::Willpower);
    lemma_field_names_differ(HeroField::Attack);
    lemma_field_names_differ(HeroField::Defense);
    lemma_field_names_differ(HeroField::Health);
    lemma_field_names_differ(HeroField::Sphere);
    lemma_field_names_differ(HeroField::Text);
    lemma_sphere_names_differ(hero.sphere);
    lemma_parse_decimal_text(hero.card_number);
    lemma_parse_decimal_text(hero.quantity);
    lemma_parse_decimal_text(hero.cost);
    lemma_parse_decimal_text(hero.willpower);
    lemma_parse_decimal_text(hero.attack);
    lemma_parse_decimal_text(hero.defense);
    lemma_parse_decimal_text(hero.health);
    lemma_traits_round_trip(hero.traits);
    lemma_first_fault_iff(attributes);
    lemma_only_value(attributes, HeroField::CardNumber, 0);
    lemma_only_value(attributes, HeroField::Quantity, 1);
    lemma_only_value(attributes, HeroField::Type, 2);
    lemma_only_value(attributes, HeroField::Sphere, 3);
    lemma_only_value(attributes, HeroField::Traits, 4);
    lemma_only_value(attributes, HeroField::Cost, 5);
    lemma_only_value(attributes, HeroField::Willpower, 6);
    lemma_only_value(attributes, HeroField::Attack, 7);
    lemma_only_value(attributes, HeroField::Defense, 8);
    lemma_only_value(attributes, HeroField::Health, 9);
    lemma_only_value(attributes, HeroField::Text, 10);
    lemma_missing_iff(attributes, HERO_FIELDS as nat);
    assert(record_of(attributes).set =~= hero.set);
}

/// Rebuilding succeeds exactly when every attribute belongs to the shape
/// and converts to its field, and every field of the shape is supplied.
pub proof fn lemma_succeeds_iff_complete(card: CardView)
    ensures
        reconstructed(card) is Ok <==> (forall|i: int|
            0 <= i < card.attributes.len() ==> fault_of(#[trigger] card.attributes[i]) is None)
            && (forall|field: HeroField| supplies(card.attributes, field)),
{
    let attributes = card.attributes;
    lemma_first_fault_iff(attributes);
    lemma_missing_iff(attributes, HERO_FIELDS as nat);
    assert forall|field: HeroField| last_value(attributes, field) is Some <==> supplies(
        attributes,
        field,
    ) by {
        lemma_last_value_iff(attributes, field);
    }
    if reconstructed(card) is Ok {
        assert forall|field: HeroField| supplies(attributes, field) by {
            assert(HeroField::at(field.ordinal()) == field);
        }
    }
    if forall|field: HeroField| supplies(attributes, field) {
        assert forall|j: nat| j < HERO_FIELDS implies last_value(
            attributes,
            #[trigger] HeroField::at(j),
        ) is Some by {
            assert(supplies(attributes, HeroField::at(j)));
        }
    }
}

} // verus!
