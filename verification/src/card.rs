//! The untyped model of a card set: attributes, cards, the ordered
//! collection of a set's cards, and the closed vocabularies of card types
//! and spheres.

use crate::text::str_eq;
use vstd::prelude::*;
use vstd::string::*;

verus! {

/// One name/value fact about a card, as mathematics sees it.
pub struct Attribute {
    pub name: Seq<char>,
    pub value: Seq<char>,
}

/// One name/value fact about a card. A card may carry the same name more
/// than once.
#[derive(Clone, Debug)]
pub struct UProperty {
    pub name: String,
    pub value: String,
}

impl View for UProperty {
    type V = Attribute;

    open spec fn view(&self) -> Attribute {
        Attribute { name: self.name@, value: self.value@ }
    }
}

/// A card as mathematics sees it: its id, its display name and its
/// attributes in document order.
pub struct CardView {
    pub id: Seq<char>,
    pub name: Seq<char>,
    pub attributes: Seq<Attribute>,
}

/// A card of a set: an id, a display name and an open-ended list of
/// attributes.
#[derive(Clone, Debug)]
pub struct UCard {
    pub id: String,
    pub name: String,
    pub properties: Vec<UProperty>,
}

impl View for UCard {
    type V = CardView;

    open spec fn view(&self) -> CardView {
        CardView {
            id: self.id@,
            name: self.name@,
            attributes: self.properties@.map_values(|p: UProperty| p@),
        }
    }
}

/// The cards of a set, in insertion order. A card's position in this order
/// is the key by which every index refers to it.
#[derive(Debug)]
pub struct UCards {
    pub card: Vec<UCard>,
}

impl View for UCards {
    type V = Seq<CardView>;

    open spec fn view(&self) -> Seq<CardView> {
        self.card@.map_values(|c: UCard| c@)
    }
}

impl UCards {
    /// A collection without cards.
    pub fn empty() -> (cards: UCards)
        ensures
            cards@ == Seq::<CardView>::empty(),
    {
        UCards { card: Vec::new() }
    }

    /// The number of cards.
    pub fn len(&self) -> (len: usize)
        ensures
            len == self@.len(),
    {
        self.card.len()
    }

    /// Moves every card of `other` to the end of `self`, in order, and
    /// leaves `other` empty. Nothing is merged or dropped. Indexes built
    /// before the call do not cover the new cards.
    pub fn append(&mut self, other: &mut UCards)
        ensures
            final(self)@ == old(self)@ + old(other)@,
            final(self)@.len() == old(self)@.len() + old(other)@.len(),
            final(self)@.take(old(self)@.len() as int) == old(self)@,
            final(self)@.skip(old(self)@.len() as int) == old(other)@,
            final(other)@ == Seq::<CardView>::empty(),
    {
        self.card.append(&mut other.card);
    }
}

/// A set as mathematics sees it.
pub struct SetView {
    pub version: Seq<char>,
    pub game_version: Seq<char>,
    pub game_id: Seq<char>,
    pub id: Seq<char>,
    pub name: Seq<char>,
    pub cards: Seq<CardView>,
}

/// A card set: its metadata and its cards.
#[derive(Debug)]
pub struct USet {
    pub version: String,
    pub game_version: String,
    pub game_id: String,
    pub id: String,
    pub name: String,
    pub cards: UCards,
}

impl View for USet {
    type V = SetView;

    open spec fn view(&self) -> SetView {
        SetView {
            version: self.version@,
            game_version: self.game_version@,
            game_id: self.game_id@,
            id: self.id@,
            name: self.name@,
            cards: self.cards@,
        }
    }
}

/// The role of a card in the game.
#[derive(Copy, Clone, Debug, Eq, Hash, PartialEq, Ord, PartialOrd, Structural)]
pub enum CardType {
    Attachment,
    Hero,
    SideQuest,
    Event,
    Ally,
    Objective,
    Enemy,
    Location,
    Treachery,
    Quest,
    Rules,
    Nightmare,
    Treasure,
    Campaign,
    ObjectiveAlly,
    ShipEnemy,
    Contract,
}

impl Default for CardType {
    fn default() -> (card_type: CardType)
        ensures
            card_type == CardType::Attachment,
    {
        CardType::Attachment
    }
}

/// The number of card types.
pub const CARD_TYPES: usize = 17;

impl CardType {
    /// The text by which card data names this type.
    pub open spec fn label(self) -> Seq<char> {
        match self {
            CardType::Attachment => "Attachment"@,
            CardType::Hero => "Hero"@,
            CardType::SideQuest => "Side Quest"@,
            CardType::Event => "Event"@,
            CardType::Ally => "Ally"@,
            CardType::Objective => "Objective"@,
            CardType::Enemy => "Enemy"@,
            CardType::Location => "Location"@,
            CardType::Treachery => "Treachery"@,
            CardType::Quest => "Quest"@,
            CardType::Rules => "Rules"@,
            CardType::Nightmare => "Nightmare"@,
            CardType::Treasure => "Treasure"@,
            CardType::Campaign => "Campaign"@,
            CardType::ObjectiveAlly => "Objective Ally"@,
            CardType::ShipEnemy => "Ship-Enemy"@,
            CardType::Contract => "Contract"@,
        }
    }

    /// The card type that `text` names, if any.
    pub open spec fn named(text: Seq<char>) -> Option<CardType> {
        if text == CardType::Attachment.label() {
            Some(CardType::Attachment)
        } else if text == CardType::Hero.label() {
            Some(CardType::Hero)
        } else if text == CardType::SideQuest.label() {
            Some(CardType::SideQuest)
        } else if text == CardType::Event.label() {
            Some(CardType::Event)
        } else if text == CardType::Ally.label() {
            Some(CardType::Ally)
        } else if text == CardType::Objective.label() {
            Some(CardType::Objective)
        } else if text == CardType::Enemy.label() {
            Some(CardType::Enemy)
        } else if text == CardType::Location.label() {
            Some(CardType::Location)
        } else if text == CardType::Treachery.label() {
            Some(CardType::Treachery)
        } else if text == CardType::Quest.label() {
            Some(CardType::Quest)
        } else if text == CardType::Rules.label() {
            Some(CardType::Rules)
        } else if text == CardType::Nightmare.label() {
            Some(CardType::Nightmare)
        } else if text == CardType::Treasure.label() {
            Some(CardType::Treasure)
        } else if text == CardType::Campaign.label() {
            Some(CardType::Campaign)
        } else if text == CardType::ObjectiveAlly.label() {
            Some(CardType::ObjectiveAlly)
        } else if text == CardType::ShipEnemy.label() {
            Some(CardType::ShipEnemy)
        } else if text == CardType::Contract.label() {
            Some(CardType::Contract)
        } else {
            None
        }
    }

    /// The place of this type in the declaration order, from 0.
    pub open spec fn ordinal(self) -> nat {
        match self {
            CardType::Attachment => 0,
            CardType::Hero => 1,
            CardType::SideQuest => 2,
            CardType::Event => 3,
            CardType::Ally => 4,
            CardType::Objective => 5,
            CardType::Enemy => 6,
            CardType::Location => 7,
            CardType::Treachery => 8,
            CardType::Quest => 9,
            CardType::Rules => 10,
            CardType::Nightmare => 11,
            CardType::Treasure => 12,
            CardType::Campaign => 13,
            CardType::ObjectiveAlly => 14,
            CardType::ShipEnemy => 15,
            CardType::Contract => 16,
        }
    }

    /// The text by which card data names this type.
    pub fn as_str(self) -> (label: &'static str)
        ensures
            label@ == self.label(),
    {
        match self {
            CardType::Attachment => "Attachment",
            CardType::Hero => "Hero",
            CardType::SideQuest => "Side Quest",
            CardType::Event => "Event",
            CardType::Ally => "Ally",
            CardType::Objective => "Objective",
            CardType::Enemy => "Enemy",
            CardType::Location => "Location",
            CardType::Treachery => "Treachery",
            CardType::Quest => "Quest",
            CardType::Rules => "Rules",
            CardType::Nightmare => "Nightmare",
            CardType::Treasure => "Treasure",
            CardType::Campaign => "Campaign",
            CardType::ObjectiveAlly => "Objective Ally",
            CardType::ShipEnemy => "Ship-Enemy",
            CardType::Contract => "Contract",
        }
    }

    /// The place of this type in the declaration order, from 0.
    pub fn index(self) -> (index: usize)
        ensures
            index == self.ordinal(),
            index < CARD_TYPES,
    {
        match self {
            CardType::Attachment => 0,
            CardType::Hero => 1,
            CardType::SideQuest => 2,
            CardType::Event => 3,
            CardType::Ally => 4,
            CardType::Objective => 5,
            CardType::Enemy => 6,
            CardType::Location => 7,
            CardType::Treachery => 8,
            CardType::Quest => 9,
            CardType::Rules => 10,
            CardType::Nightmare => 11,
            CardType::Treasure => 12,
            CardType::Campaign => 13,
            CardType::ObjectiveAlly => 14,
            CardType::ShipEnemy => 15,
            CardType::Contract => 16,
        }
    }

    /// Looks `text` up in the closed vocabulary of card types. A text that
    /// names no type gives `None`.
    pub fn from_label(text: &str) -> (found: Option<CardType>)
        ensures
            found == CardType::named(text@),
    {
        if str_eq(text, "Attachment") {
            Some(CardType::Attachment)
        } else if str_eq(text, "Hero") {
            Some(CardType::Hero)
        } else if str_eq(text, "Side Quest") {
            Some(CardType::SideQuest)
        } else if str_eq(text, "Event") {
            Some(CardType::Event)
        } else if str_eq(text, "Ally") {
            Some(CardType::Ally)
        } else if str_eq(text, "Objective") {
            Some(CardType::Objective)
        } else if str_eq(text, "Enemy") {
            Some(CardType::Enemy)
        } else if str_eq(text, "Location") {
            Some(CardType::Location)
        } else if str_eq(text, "Treachery") {
            Some(CardType::Treachery)
        } else if str_eq(text, "Quest") {
            Some(CardType::Quest)
        } else if str_eq(text, "Rules") {
            Some(CardType::Rules)
        } else if str_eq(text, "Nightmare") {
            Some(CardType::Nightmare)
        } else if str_eq(text, "Treasure") {
            Some(CardType::Treasure)
        } else if str_eq(text, "Campaign") {
            Some(CardType::Campaign)
        } else if str_eq(text, "Objective Ally") {
            Some(CardType::ObjectiveAlly)
        } else if str_eq(text, "Ship-Enemy") {
            Some(CardType::ShipEnemy)
        } else if str_eq(text, "Contract") {
            Some(CardType::Contract)
        } else {
            None
        }
    }
}

/// One of the four spheres of influence.
#[derive(Copy, Clone, Debug, Eq, Hash, PartialEq, Ord, PartialOrd, Structural)]
pub enum Sphere {
    Spirit,
    Lore,
    Leadership,
    Tactics,
}

impl Default for Sphere {
    fn default() -> (sphere: Sphere)
        ensures
            sphere == Sphere::Spirit,
    {
        Sphere::Spirit
    }
}

impl std::str::FromStr for Sphere {
    type Err = String;

    /// Reads a sphere from its name, as the inherent `Sphere::from_str`
    /// does; this is what `str::parse` calls.
    fn from_str(s: &str) -> (sphere: Result<Sphere, String>)
        ensures
            match sphere {
                Ok(found) => Sphere::named(s@) == Some(found),
                Err(message) => Sphere::named(s@) is None && message@ == Sphere::complaint(s@),
            },
    {
        Sphere::from_str(s)
    }
}

impl Sphere {
    /// The text by which card data names this sphere.
    pub open spec fn label(self) -> Seq<char> {
        match self {
            Sphere::Spirit => "Spirit"@,
            Sphere::Lore => "Lore"@,
            Sphere::Leadership => "Leadership"@,
            Sphere::Tactics => "Tactics"@,
        }
    }

    /// The sphere that `text` names, if any.
    pub open spec fn named(text: Seq<char>) -> Option<Sphere> {
        if text == Sphere::Spirit.label() {
            Some(Sphere::Spirit)
        } else if text == Sphere::Lore.label() {
            Some(Sphere::Lore)
        } else if text == Sphere::Leadership.label() {
            Some(Sphere::Leadership)
        } else if text == Sphere::Tactics.label() {
            Some(Sphere::Tactics)
        } else {
            None
        }
    }

    /// What `from_str` says of a text that names no sphere.
    pub open spec fn complaint(text: Seq<char>) -> Seq<char> {
        text + " is not a shpere"@
    }

    /// The text by which card data names this sphere.
    pub fn as_str(self) -> (label: &'static str)
        ensures
            label@ == self.label(),
    {
        match self {
            Sphere::Spirit => "Spirit",
            Sphere::Lore => "Lore",
            Sphere::Leadership => "Leadership",
            Sphere::Tactics => "Tactics",
        }
    }

    /// Reads a sphere from its name. Any other text is answered with a
    /// message that quotes it.
    pub fn from_str(s: &str) -> (sphere: Result<Sphere, String>)
        ensures
            match sphere {
                Ok(found) => Sphere::named(s@) == Some(found),
                Err(message) => Sphere::named(s@) is None && message@ == Sphere::complaint(s@),
            },
    {
        if str_eq(s, "Spirit") {
            Ok(Sphere::Spirit)
        } else if str_eq(s, "Lore") {
            Ok(Sphere::Lore)
        } else if str_eq(s, "Leadership") {
            Ok(Sphere::Leadership)
        } else if str_eq(s, "Tactics") {
            Ok(Sphere::Tactics)
        } else {
            let mut message = s.to_owned();
            message.append(" is not a shpere");
            Err(message)
        }
    }
}

} // verus!
