//! Lookup indexes over a card collection: from a fragment of a name to the
//! cards whose name has a word that starts with it, and from a card type to
//! the cards of that type. An index holds one bit per card of the collection
//! it was built from; it is not kept up to date when the collection grows.

use crate::bits::{PositionSet, MAX_POSITIONS};
use crate::card::{Attribute, CardType, CardView, UCards, CARD_TYPES};
use crate::normalize::{normalize, normalized};
use crate::text::{chars_of, split, split_on, str_eq, string_of, texts};
use vstd::hash_map::StringHashMap;
use vstd::prelude::*;

verus! {

/// A bit-set over `width` positions with no position in it.
pub open spec fn no_positions(width: nat) -> Seq<bool> {
    Seq::new(width, |n: int| false)
}

/// Whether `fragment` is a beginning of `word` and not empty.
pub open spec fn begins(word: Seq<char>, fragment: Seq<char>) -> bool {
    0 < fragment.len() <= word.len() && word.take(fragment.len() as int) =~= fragment
}

/// The canonical form of the `j`-th word of `name`, where words are what
/// single spaces separate.
pub open spec fn word_key(name: Seq<char>, j: int) -> Seq<char> {
    normalized(split_on(name, ' ')[j])
}

/// Whether one of the first `words` words of `name` begins, in canonical
/// form, with `fragment`.
pub open spec fn selects_within(name: Seq<char>, fragment: Seq<char>, words: int) -> bool {
    exists|j: int|
        0 <= j < words && j < split_on(name, ' ').len() && begins(
            #[trigger] word_key(name, j),
            fragment,
        )
}

/// Whether a word of `name` begins, in canonical form, with `fragment`.
pub open spec fn selects(name: Seq<char>, fragment: Seq<char>) -> bool {
    selects_within(name, fragment, split_on(name, ' ').len() as int)
}

/// Whether the card at `position` exists and `fragment` selects it.
pub open spec fn selected(cards: Seq<CardView>, position: int, fragment: Seq<char>) -> bool {
    0 <= position < cards.len() && selects(cards[position].name, fragment)
}

/// The name index of a collection: every non-empty beginning of every word
/// of every name is a key, and the bit of a card is raised under a key when
/// one of the words of its name begins with the key.
pub open spec fn name_index_of(cards: Seq<CardView>) -> Map<Seq<char>, Seq<bool>> {
    Map::new(
        |fragment: Seq<char>| exists|n: int| #[trigger] selected(cards, n, fragment),
        |fragment: Seq<char>| Seq::new(cards.len(), |n: int| selected(cards, n, fragment)),
    )
}

/// The name index when the cards before `position` have been read, and
/// the first `words` words of the card at `position`.
spec fn name_index_upto(cards: Seq<CardView>, position: int, words: int) -> Map<
    Seq<char>,
    Seq<bool>,
> {
    Map::new(
        |fragment: Seq<char>|
            (exists|n: int| n < position && #[trigger] selected(cards, n, fragment)) || (position
                < cards.len() && selects_within(cards[position].name, fragment, words)),
        |fragment: Seq<char>|
            Seq::new(
                cards.len(),
                |n: int|
                    (n < position && selected(cards, n, fragment)) || (n == position
                        && selects_within(cards[position].name, fragment, words)),
            ),
    )
}

/// `index` after the card at `position` has been marked under every
/// beginning of `word` that is longer than `longer_than`.
pub open spec fn with_beginnings(
    index: Map<Seq<char>, Seq<bool>>,
    word: Seq<char>,
    position: int,
    width: nat,
    longer_than: int,
) -> Map<Seq<char>, Seq<bool>> {
    Map::new(
        |fragment: Seq<char>|
            index.contains_key(fragment) || (begins(word, fragment) && fragment.len()
                > longer_than),
        |fragment: Seq<char>|
            if begins(word, fragment) && fragment.len() > longer_than {
                (if index.contains_key(fragment) {
                    index[fragment]
                } else {
                    no_positions(width)
                }).update(position, true)
            } else {
                index[fragment]
            },
    )
}

/// From name fragments to the positions of the cards that they select.
///
/// Its view is the mapping itself: each key with the bits of its position
/// set, one bit per card.
pub struct NameIndex {
    slots: StringHashMap<usize>,
    sets: Vec<PositionSet>,
    width: usize,
}

impl View for NameIndex {
    type V = Map<Seq<char>, Seq<bool>>;

    closed spec fn view(&self) -> Map<Seq<char>, Seq<bool>> {
        Map::new(
            |fragment: Seq<char>| self.slots@.contains_key(fragment),
            |fragment: Seq<char>| self.sets@[self.slots@[fragment] as int]@,
        )
    }
}

impl NameIndex {
    #[verifier::type_invariant]
    spec fn well_formed(self) -> bool {
        &&& self.width <= MAX_POSITIONS
        &&& forall|i: int|
            0 <= i < self.sets.len() ==> (#[trigger] self.sets[i])@.len() == self.width
        &&& forall|key: Seq<char>| #[trigger]
            self.slots@.contains_key(key) ==> self.slots@[key] < self.sets.len()
        &&& forall|a: Seq<char>, b: Seq<char>|
            self.slots@.contains_key(a) && self.slots@.contains_key(b) && self.slots@[a]
                == self.slots@[b] ==> a == b
    }

    /// The number of cards of the collection that the index was built from.
    pub closed spec fn spec_width(&self) -> usize {
        self.width
    }

    /// An index without keys over a collection of `width` cards.
    pub fn new(width: usize) -> (index: NameIndex)
        requires
            width <= MAX_POSITIONS,
        ensures
            index@ == Map::<Seq<char>, Seq<bool>>::empty(),
            index.spec_width() == width,
    {
        NameIndex { slots: StringHashMap::new(), sets: Vec::new(), width }
    }

    /// The number of cards of the collection that the index was built from.
    #[verifier::when_used_as_spec(spec_width)]
    pub fn width(&self) -> (width: usize)
        ensures
            width == self.spec_width(),
    {
        self.width
    }

    /// The cards that `fragment` selects, if it is a key of the index.
    pub fn get(&self, fragment: &str) -> (found: Option<&PositionSet>)
        ensures
            match found {
                Some(set) => self@.contains_key(fragment@) && set@ == self@[fragment@],
                None => !self@.contains_key(fragment@),
            },
    {
        proof {
            use_type_invariant(self);
        }
        match self.slots.get(fragment) {
            Some(slot) => Some(&self.sets[*slot]),
            None => None,
        }
    }

    /// The index with `position` added to the cards that `fragment` selects.
    /// A new key starts from the empty set.
    pub fn mark(self, fragment: String, position: usize) -> (marked: NameIndex)
        requires
            position < self.spec_width(),
        ensures
            marked.spec_width() == self.spec_width(),
            marked@ == self@.insert(
                fragment@,
                (if self@.contains_key(fragment@) {
                    self@[fragment@]
                } else {
                    no_positions(self.spec_width() as nat)
                }).update(position as int, true),
            ),
    {
        proof {
            use_type_invariant(&self);
        }
        let NameIndex { mut slots, mut sets, width } = self;
        let found = match slots.get(fragment.as_str()) {
            Some(slot) => Some(*slot),
            None => None,
        };
        match found {
            Some(slot) => {
                sets[slot].insert(position);
            },
            None => {
                let mut set = PositionSet::new(width);
                set.insert(position);
                assert(set@ =~= no_positions(width as nat).update(position as int, true));
                let slot = sets.len();
                sets.push(set);
                slots.insert(fragment, slot);
            },
        }
        NameIndex { slots, sets, width }
    }

    /// The index with `position` added to the cards that each non-empty
    /// beginning of `word` selects: the whole word first, then the word
    /// without its last character, down to its first character.
    pub fn mark_beginnings(self, word: &str, position: usize) -> (marked: NameIndex)
        requires
            position < self.spec_width(),
        ensures
            marked.spec_width() == self.spec_width(),
            marked@ == with_beginnings(
                self@,
                word@,
                position as int,
                self.spec_width() as nat,
                0,
            ),
    {
        let ghost before = self@;
        let ghost width = self.spec_width() as nat;
        let chars = chars_of(word);
        let mut marked = self;
        let mut length: usize = chars.len();
        while length > 0
            invariant
                length <= chars.len(),
                chars@ == word@,
                position < width == marked.spec_width(),
                marked@ == with_beginnings(before, word@, position as int, width, length as int),
            decreases length,
        {
            let fragment = string_of(&chars, 0, length);
            marked = marked.mark(fragment, position);
            length -= 1;
        }
        marked
    }
}

/// Builds the name index of a collection.
///
/// The name of each card is split at single spaces. Each word is brought to
/// canonical form, and the card's position is added under each non-empty
/// beginning of it. The position sets are as long as the collection.
pub fn build_name_index(cards: &UCards) -> (index: NameIndex)
    requires
        cards@.len() <= MAX_POSITIONS,
    ensures
        index@ == name_index_of(cards@),
        index.spec_width() == cards@.len(),
{
    let total = cards.card.len();
    let mut index = NameIndex::new(total);
    let mut n: usize = 0;
    while n < total
        invariant
            n <= total == cards.card.len(),
            total == cards@.len(),
            index.spec_width() == total,
            index@ == name_index_upto(cards@, n as int, 0),
        decreases total - n,
    {
        let words = split(cards.card[n].name.as_str(), ' ');
        let ghost name = cards@[n as int].name;
        let mut j: usize = 0;
        while j < words.len()
            invariant
                j <= words.len(),
                n < total == cards@.len(),
                name == cards@[n as int].name,
                texts(words@) == split_on(name, ' '),
                index.spec_width() == total,
                index@ == name_index_upto(cards@, n as int, j as int),
            decreases words.len() - j,
        {
            let key = normalize(words[j].as_str());
            index = index.mark_beginnings(key.as_str(), n);
            proof {
                lemma_next_word(cards@, n as int, j as int);
            }
            j += 1;
        }
        proof {
            lemma_next_card(cards@, n as int);
        }
        n += 1;
    }
    proof {
        lemma_all_cards(cards@);
    }
    index
}

/// Reading one more word of a card marks the card under the beginnings of
/// that word.
proof fn lemma_next_word(cards: Seq<CardView>, n: int, j: int)
    requires
        0 <= n < cards.len(),
        0 <= j < split_on(cards[n].name, ' ').len(),
    ensures
        with_beginnings(
            name_index_upto(cards, n, j),
            word_key(cards[n].name, j),
            n,
            cards.len(),
            0,
        ) == name_index_upto(cards, n, j + 1),
{
    let word = word_key(cards[n].name, j);
    let marked = with_beginnings(name_index_upto(cards, n, j), word, n, cards.len(), 0);
    let after = name_index_upto(cards, n, j + 1);
    assert forall|f: Seq<char>| marked.contains_key(f) implies marked[f] =~= after[f] by {}
}

/// When all words of a card have been read, the card has been read.
proof fn lemma_next_card(cards: Seq<CardView>, n: int)
    requires
        0 <= n < cards.len(),
    ensures
        name_index_upto(cards, n, split_on(cards[n].name, ' ').len() as int) == name_index_upto(
            cards,
            n + 1,
            0,
        ),
{
    let words = split_on(cards[n].name, ' ').len() as int;
    let done = name_index_upto(cards, n, words);
    let next = name_index_upto(cards, n + 1, 0);
    assert forall|f: Seq<char>| done.contains_key(f) <==> next.contains_key(f) by {
        if selects_within(cards[n].name, f, words) {
            assert(selected(cards, n, f));
        }
    }
    assert forall|f: Seq<char>| done.contains_key(f) implies done[f] =~= next[f] by {}
}

/// When all cards have been read, the index is the index of the
/// collection.
proof fn lemma_all_cards(cards: Seq<CardView>)
    ensures
        name_index_upto(cards, cards.len() as int, 0) == name_index_of(cards),
{
    let done = name_index_upto(cards, cards.len() as int, 0);
    let whole = name_index_of(cards);
    assert forall|f: Seq<char>| done.contains_key(f) implies done[f] =~= whole[f] by {}
}

/// Every non-empty beginning of every word of a card's name is a key of the
/// name index, and the card's bit is raised under it.
pub proof fn lemma_beginnings_are_indexed(cards: Seq<CardView>, n: int, j: int, length: int)
    requires
        0 <= n < cards.len(),
        0 <= j < split_on(cards[n].name, ' ').len(),
        0 < length <= word_key(cards[n].name, j).len(),
    ensures
        name_index_of(cards).contains_key(word_key(cards[n].name, j).take(length)),
        name_index_of(cards)[word_key(cards[n].name, j).take(length)].len() == cards.len(),
        name_index_of(cards)[word_key(cards[n].name, j).take(length)][n],
{
    assert(selected(cards, n, word_key(cards[n].name, j).take(length)));
}

/// Every word of a card's name that is not empty in canonical form is
/// itself a key of the name index, and the card's bit is raised under it.
pub proof fn lemma_whole_word_is_indexed(cards: Seq<CardView>, n: int, j: int)
    requires
        0 <= n < cards.len(),
        0 <= j < split_on(cards[n].name, ' ').len(),
        word_key(cards[n].name, j).len() > 0,
    ensures
        name_index_of(cards).contains_key(word_key(cards[n].name, j)),
        name_index_of(cards)[word_key(cards[n].name, j)][n],
{
    let word = word_key(cards[n].name, j);
    assert(word.take(word.len() as int) =~= word);
    lemma_beginnings_are_indexed(cards, n, j, word.len() as int);
}

/// No key of the name index is empty, and every position set is as long as
/// the collection.
pub proof fn lemma_name_index_shape(cards: Seq<CardView>, fragment: Seq<char>)
    requires
        name_index_of(cards).contains_key(fragment),
    ensures
        fragment.len() > 0,
        name_index_of(cards)[fragment].len() == cards.len(),
{
    assert(exists|n: int| #[trigger] selected(cards, n, fragment));
}

/// Whether the attribute gives its card a type: it is named "Type" and its
/// value is not the marker "Internal".
pub open spec fn is_type_claim(attribute: Attribute) -> bool {
    attribute.name == "Type"@ && attribute.value != "Internal"@
}

/// Whether one of the first `read` attributes of the card gives it the type
/// `card_type`.
pub open spec fn has_type_within(card: CardView, card_type: CardType, read: int) -> bool {
    exists|k: int|
        0 <= k < read && k < card.attributes.len() && is_type_claim(#[trigger] card.attributes[k])
            && CardType::named(card.attributes[k].value) == Some(card_type)
}

/// Whether an attribute of the card gives it the type `card_type`.
pub open spec fn has_type(card: CardView, card_type: CardType) -> bool {
    has_type_within(card, card_type, card.attributes.len() as int)
}

/// Whether the card at `position` exists and has the type `card_type`.
pub open spec fn typed(cards: Seq<CardView>, position: int, card_type: CardType) -> bool {
    0 <= position < cards.len() && has_type(cards[position], card_type)
}

/// A type that the closed vocabulary of card types does not hold, and the
/// position of the card that claims it, as mathematics sees them.
pub struct UnknownType {
    pub position: nat,
    pub value: Seq<char>,
}

/// The value of the first attribute that claims a type outside the
/// vocabulary.
pub open spec fn first_unknown_claim(attributes: Seq<Attribute>) -> Option<Seq<char>>
    decreases attributes.len(),
{
    if attributes.len() == 0 {
        None
    } else {
        match first_unknown_claim(attributes.drop_last()) {
            Some(value) => Some(value),
            None => if is_type_claim(attributes.last()) && CardType::named(
                attributes.last().value,
            ) is None {
                Some(attributes.last().value)
            } else {
                None
            },
        }
    }
}

/// The first claim of a type outside the vocabulary, in the order of the
/// cards and, within a card, of its attributes.
pub open spec fn first_unknown_type(cards: Seq<CardView>) -> Option<UnknownType>
    decreases cards.len(),
{
    if cards.len() == 0 {
        None
    } else {
        match first_unknown_type(cards.drop_last()) {
            Some(unknown) => Some(unknown),
            None => match first_unknown_claim(cards.last().attributes) {
                Some(value) => Some(UnknownType { position: (cards.len() - 1) as nat, value }),
                None => None,
            },
        }
    }
}

/// The mapping from card types to position sets: a type is a key when some
/// card has it, and the bit of a card is raised under each of its types.
pub open spec fn type_map_of(cards: Seq<CardView>) -> Map<CardType, Seq<bool>> {
    Map::new(
        |card_type: CardType| exists|n: int| #[trigger] typed(cards, n, card_type),
        |card_type: CardType| Seq::new(cards.len(), |n: int| typed(cards, n, card_type)),
    )
}

/// What building the type index of a collection gives: the first claim of
/// a type outside the vocabulary if there is one, else the mapping.
pub open spec fn type_index_of(cards: Seq<CardView>) -> Result<
    Map<CardType, Seq<bool>>,
    UnknownType,
> {
    match first_unknown_type(cards) {
        Some(unknown) => Err(unknown),
        None => Ok(type_map_of(cards)),
    }
}

/// The type mapping when the cards before `position` have been read, and
/// the first `read` attributes of the card at `position`.
spec fn type_map_upto(cards: Seq<CardView>, position: int, read: int) -> Map<
    CardType,
    Seq<bool>,
> {
    Map::new(
        |card_type: CardType|
            (exists|n: int| n < position && #[trigger] typed(cards, n, card_type)) || (position
                < cards.len() && has_type_within(cards[position], card_type, read)),
        |card_type: CardType|
            Seq::new(
                cards.len(),
                |n: int|
                    (n < position && typed(cards, n, card_type)) || (n == position
                        && has_type_within(cards[position], card_type, read)),
            ),
    )
}

/// A card claims a type that the closed vocabulary of card types does not
/// hold. The table of types has to be extended before the collection can be
/// indexed.
#[derive(Debug)]
pub struct UnknownCardType {
    /// The position of the card in its collection.
    pub position: usize,
    /// The value of its "Type" attribute.
    pub value: String,
}

impl View for UnknownCardType {
    type V = UnknownType;

    open spec fn view(&self) -> UnknownType {
        UnknownType { position: self.position as nat, value: self.value@ }
    }
}

/// From card types to the positions of the cards of that type.
///
/// Its view is the mapping itself: each type that some card has, with the
/// bits of its position set, one bit per card.
pub struct TypeIndex {
    sets: Vec<Option<PositionSet>>,
    width: usize,
}

impl View for TypeIndex {
    type V = Map<CardType, Seq<bool>>;

    closed spec fn view(&self) -> Map<CardType, Seq<bool>> {
        Map::new(
            |card_type: CardType| self.sets@[card_type.ordinal() as int] is Some,
            |card_type: CardType| self.sets@[card_type.ordinal() as int]->0@,
        )
    }
}

impl TypeIndex {
    #[verifier::type_invariant]
    spec fn well_formed(self) -> bool {
        &&& self.width <= MAX_POSITIONS
        &&& self.sets.len() == CARD_TYPES
        &&& forall|i: int|
            0 <= i < self.sets.len() && (#[trigger] self.sets[i]) is Some ==> self.sets[i]->0@.len()
                == self.width
    }

    /// The number of cards of the collection that the index was built from.
    pub closed spec fn spec_width(&self) -> usize {
        self.width
    }

    /// An index without keys over a collection of `width` cards.
    pub fn new(width: usize) -> (index: TypeIndex)
        requires
            width <= MAX_POSITIONS,
        ensures
            index@ == Map::<CardType, Seq<bool>>::empty(),
            index.spec_width() == width,
    {
        let mut sets: Vec<Option<PositionSet>> = Vec::new();
        let mut i: usize = 0;
        while i < CARD_TYPES
            invariant
                i <= CARD_TYPES,
                sets.len() == i,
                forall|k: int| 0 <= k < i ==> sets[k] is None,
            decreases CARD_TYPES - i,
        {
            sets.push(None);
            i += 1;
        }
        TypeIndex { sets, width }
    }

    /// The number of cards of the collection that the index was built from.
    #[verifier::when_used_as_spec(spec_width)]
    pub fn width(&self) -> (width: usize)
        ensures
            width == self.spec_width(),
    {
        self.width
    }

    /// The cards of type `card_type`, if any card has that type.
    pub fn get(&self, card_type: CardType) -> (found: Option<&PositionSet>)
        ensures
            match found {
                Some(set) => self@.contains_key(card_type) && set@ == self@[card_type],
                None => !self@.contains_key(card_type),
            },
    {
        proof {
            use_type_invariant(self);
        }
        self.sets[card_type.index()].as_ref()
    }

    /// The index with `position` added to the cards of type `card_type`. A
    /// new key starts from the empty set.
    pub fn mark(self, card_type: CardType, position: usize) -> (marked: TypeIndex)
        requires
            position < self.spec_width(),
        ensures
            marked.spec_width() == self.spec_width(),
            marked@ == self@.insert(
                card_type,
                (if self@.contains_key(card_type) {
                    self@[card_type]
                } else {
                    no_positions(self.spec_width() as nat)
                }).update(position as int, true),
            ),
    {
        proof {
            use_type_invariant(&self);
        }
        let TypeIndex { mut sets, width } = self;
        let slot = card_type.index();
        match &mut sets[slot] {
            Some(set) => {
                set.insert(position);
            },
            None => {},
        }
        if sets[slot].is_none() {
            let mut set = PositionSet::new(width);
            set.insert(position);
            assert(set@ =~= no_positions(width as nat).update(position as int, true));
            sets[slot] = Some(set);
        }
        TypeIndex { sets, width }
    }
}

/// An earlier unknown claim stays the first when more attributes follow.
proof fn lemma_unknown_claim_decides(attributes: Seq<Attribute>, k: int)
    requires
        0 <= k <= attributes.len(),
        first_unknown_claim(attributes.take(k)) is Some,
    ensures
        first_unknown_claim(attributes) == first_unknown_claim(attributes.take(k)),
    decreases attributes.len() - k,
{
    if k == attributes.len() {
        assert(attributes.take(k) =~= attributes);
    } else {
        assert(attributes.take(k + 1).drop_last() =~= attributes.take(k));
        lemma_unknown_claim_decides(attributes, k + 1);
    }
}

/// An earlier unknown type stays the first when more cards follow.
proof fn lemma_unknown_type_decides(cards: Seq<CardView>, n: int)
    requires
        0 <= n <= cards.len(),
        first_unknown_type(cards.take(n)) is Some,
    ensures
        first_unknown_type(cards) == first_unknown_type(cards.take(n)),
    decreases cards.len() - n,
{
    if n == cards.len() {
        assert(cards.take(n) =~= cards);
    } else {
        assert(cards.take(n + 1).drop_last() =~= cards.take(n));
        lemma_unknown_type_decides(cards, n + 1);
    }
}

/// Reading one more attribute that gives a type marks the card under it.
proof fn lemma_next_claim(cards: Seq<CardView>, n: int, k: int, card_type: CardType)
    requires
        0 <= n < cards.len(),
        0 <= k < cards[n].attributes.len(),
        is_type_claim(cards[n].attributes[k]),
        CardType::named(cards[n].attributes[k].value) == Some(card_type),
    ensures
        type_map_upto(cards, n, k).insert(
            card_type,
            (if type_map_upto(cards, n, k).contains_key(card_type) {
                type_map_upto(cards, n, k)[card_type]
            } else {
                no_positions(cards.len())
            }).update(n, true),
        ) == type_map_upto(cards, n, k + 1),
{
    let before = type_map_upto(cards, n, k);
    let base = if before.contains_key(card_type) {
        before[card_type]
    } else {
        no_positions(cards.len())
    };
    let marked = before.insert(card_type, base.update(n, true));
    let after = type_map_upto(cards, n, k + 1);
    assert forall|t: CardType| marked.contains_key(t) implies marked[t] =~= after[t] by {}
}

/// Reading one more attribute that gives no type changes nothing.
proof fn lemma_next_silent(cards: Seq<CardView>, n: int, k: int)
    requires
        0 <= n < cards.len(),
        0 <= k < cards[n].attributes.len(),
        !is_type_claim(cards[n].attributes[k]),
    ensures
        type_map_upto(cards, n, k) == type_map_upto(cards, n, k + 1),
{
    assert(type_map_upto(cards, n, k) =~= type_map_upto(cards, n, k + 1));
}

/// When all attributes of a card have been read, the card has been read.
proof fn lemma_next_typed_card(cards: Seq<CardView>, n: int)
    requires
        0 <= n < cards.len(),
    ensures
        type_map_upto(cards, n, cards[n].attributes.len() as int) == type_map_upto(
            cards,
            n + 1,
            0,
        ),
{
    let read = cards[n].attributes.len() as int;
    let done = type_map_upto(cards, n, read);
    let next = type_map_upto(cards, n + 1, 0);
    assert forall|t: CardType| done.contains_key(t) <==> next.contains_key(t) by {
        if has_type_within(cards[n], t, read) {
            assert(typed(cards, n, t));
        }
    }
    assert forall|t: CardType| done.contains_key(t) implies done[t] =~= next[t] by {}
}

/// When all cards have been read, the mapping is that of the collection.
proof fn lemma_all_typed_cards(cards: Seq<CardView>)
    ensures
        type_map_upto(cards, cards.len() as int, 0) == type_map_of(cards),
{
    let done = type_map_upto(cards, cards.len() as int, 0);
    let whole = type_map_of(cards);
    assert forall|t: CardType| done.contains_key(t) implies done[t] =~= whole[t] by {}
}

/// Builds the type index of a collection.
///
/// Of each card, each attribute named "Type" is read. The value "Internal"
/// is a marker and is passed over. Any other value is looked up in the
/// closed vocabulary of card types, and the card's position is added under
/// the type it names. A value that names no type ends the building with the
/// position of the card and the value: no claim is dropped in silence.
pub fn build_type_index(cards: &UCards) -> (outcome: Result<TypeIndex, UnknownCardType>)
    requires
        cards@.len() <= MAX_POSITIONS,
    ensures
        match outcome {
            Ok(index) => type_index_of(cards@) == Ok::<Map<CardType, Seq<bool>>, UnknownType>(
                index@,
            ) && index.spec_width() == cards@.len(),
            Err(unknown) => type_index_of(cards@) == Err::<Map<CardType, Seq<bool>>, UnknownType>(
                unknown@,
            ),
        },
{
    let total = cards.card.len();
    let mut index = TypeIndex::new(total);
    let mut n: usize = 0;
    while n < total
        invariant
            n <= total == cards.card.len(),
            total == cards@.len(),
            index.spec_width() == total,
            first_unknown_type(cards@.take(n as int)) is None,
            index@ == type_map_upto(cards@, n as int, 0),
        decreases total - n,
    {
        let card = &cards.card[n];
        let ghost attributes = cards@[n as int].attributes;
        let mut k: usize = 0;
        while k < card.properties.len()
            invariant
                k <= card.properties.len(),
                n < total == cards@.len(),
                attributes == cards@[n as int].attributes,
                attributes == card@.attributes,
                index.spec_width() == total,
                first_unknown_type(cards@.take(n as int)) is None,
                cards@.take(n + 1).drop_last() == cards@.take(n as int),
                cards@.take(n + 1).last() == cards@[n as int],
                first_unknown_claim(attributes.take(k as int)) is None,
                index@ == type_map_upto(cards@, n as int, k as int),
            decreases card.properties.len() - k,
        {
            let property = &card.properties[k];
            assert(attributes.take(k + 1).drop_last() =~= attributes.take(k as int));
            if str_eq(property.name.as_str(), "Type") && !str_eq(
                property.value.as_str(),
                "Internal",
            ) {
                match CardType::from_label(property.value.as_str()) {
                    Some(card_type) => {
                        index = index.mark(card_type, n);
                        proof {
                            lemma_next_claim(cards@, n as int, k as int, card_type);
                        }
                    },
                    None => {
                        proof {
                            lemma_unknown_claim_decides(attributes, k + 1);
                            lemma_unknown_type_decides(cards@, n + 1);
                        }
                        return Err(
                            UnknownCardType { position: n, value: property.value.clone() },
                        );
                    },
                }
            } else {
                proof {
                    lemma_next_silent(cards@, n as int, k as int);
                }
            }
            k += 1;
        }
        proof {
            assert(attributes.take(k as int) =~= attributes);
            lemma_next_typed_card(cards@, n as int);
        }
        n += 1;
    }
    proof {
        assert(cards@.take(n as int) =~= cards@);
        lemma_all_typed_cards(cards@);
    }
    Ok(index)
}

/// A card type is a key of the type mapping exactly when some card has it,
/// and every position set is as long as the collection.
pub proof fn lemma_type_index_shape(cards: Seq<CardView>, card_type: CardType)
    ensures
        type_map_of(cards).contains_key(card_type) <==> exists|n: int|
            0 <= n < cards.len() && has_type(#[trigger] cards[n], card_type),
        type_map_of(cards).contains_key(card_type) ==> type_map_of(cards)[card_type].len()
            == cards.len(),
{
    if type_map_of(cards).contains_key(card_type) {
        let n = choose|n: int| #[trigger] typed(cards, n, card_type);
        assert(has_type(cards[n], card_type));
    }
    if exists|n: int| 0 <= n < cards.len() && has_type(#[trigger] cards[n], card_type) {
        let n = choose|n: int| 0 <= n < cards.len() && has_type(#[trigger] cards[n], card_type);
        assert(typed(cards, n, card_type));
    }
}

/// A card whose "Type" attributes all say "Internal" has no type: its bit
/// is raised under no key of the type mapping.
pub proof fn lemma_internal_card_is_untyped(cards: Seq<CardView>, n: int, card_type: CardType)
    requires
        0 <= n < cards.len(),
        forall|k: int|
            0 <= k < cards[n].attributes.len() && (#[trigger] cards[n].attributes[k]).name
                == "Type"@ ==> cards[n].attributes[k].value == "Internal"@,
    ensures
        !has_type(cards[n], card_type),
        type_map_of(cards).contains_key(card_type) ==> !type_map_of(cards)[card_type][n],
{
}

} // verus!
