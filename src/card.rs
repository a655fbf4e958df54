//! The card catalog: every card's name, cost and type tags.

use vstd::prelude::*;

verus! {

/// A card, identified by its name.
#[derive(Clone, Copy, Debug, PartialEq, Eq, Hash, Structural)]
pub enum Card {
    Copper,
    Silver,
    Gold,
    Estate,
    Duchy,
    Province,
    Curse,
    Cellar,
    Chapel,
    Moat,
    Chancellor,
    Village,
    Woodcutter,
    Workshop,
    Militia,
    Moneylender,
    Remodel,
    Smithy,
    CouncilRoom,
    Festival,
    Laboratory,
    Market,
    Witch,
    Feast,
    Mine,
    Adventurer,
    Library,
    Bureaucrat,
    Spy,
    Thief,
    ThroneRoom,
    Gardens,
}

/// A type tag of a card, with the data it contributes.
#[derive(Clone, Copy, Debug, PartialEq, Eq, Structural)]
pub enum CardType {
    /// A treasure worth this much buying power.
    Money(u64),
    /// A victory card worth this many points.
    Victory(i64),
    /// A victory card worth one point per this many cards its owner has.
    VictoryPerCards(u64),
    /// An action card; its effect is dispatched on the card itself.
    Action,
    /// A curse worth this (negative) number of points.
    Curse(i64),
}

/// The definition of a card: its cost and its type tags.
#[derive(Clone, Debug)]
pub struct CardDef {
    pub card: Card,
    pub cost: u64,
    pub types: Vec<CardType>,
}

/// The number of distinct cards in the catalog.
pub const NUM_CARDS: usize = 32;

pub open spec fn spec_index(c: Card) -> nat {
    match c {
        Card::Copper => 0,
        Card::Silver => 1,
        Card::Gold => 2,
        Card::Estate => 3,
        Card::Duchy => 4,
        Card::Province => 5,
        Card::Curse => 6,
        Card::Cellar => 7,
        Card::Chapel => 8,
        Card::Moat => 9,
        Card::Chancellor => 10,
        Card::Village => 11,
        Card::Woodcutter => 12,
        Card::Workshop => 13,
        Card::Militia => 14,
        Card::Moneylender => 15,
        Card::Remodel => 16,
        Card::Smithy => 17,
        Card::CouncilRoom => 18,
        Card::Festival => 19,
        Card::Laboratory => 20,
        Card::Market => 21,
        Card::Witch => 22,
        Card::Feast => 23,
        Card::Mine => 24,
        Card::Adventurer => 25,
        Card::Library => 26,
        Card::Bureaucrat => 27,
        Card::Spy => 28,
        Card::Thief => 29,
        Card::ThroneRoom => 30,
        Card::Gardens => 31,
    }
}

pub open spec fn spec_cost(c: Card) -> u64 {
    match c {
        Card::Copper => 0,
        Card::Silver => 3,
        Card::Gold => 6,
        Card::Estate => 2,
        Card::Duchy => 5,
        Card::Province => 8,
        Card::Curse => 0,
        Card::Cellar => 2,
        Card::Chapel => 2,
        Card::Moat => 2,
        Card::Chancellor => 3,
        Card::Village => 3,
        Card::Woodcutter => 3,
        Card::Workshop => 3,
        Card::Militia => 4,
        Card::Moneylender => 4,
        Card::Remodel => 4,
        Card::Smithy => 4,
        Card::CouncilRoom => 5,
        Card::Festival => 5,
        Card::Laboratory => 5,
        Card::Market => 5,
        Card::Witch => 5,
        Card::Feast => 4,
        Card::Mine => 5,
        Card::Adventurer => 6,
        Card::Library => 5,
        Card::Bureaucrat => 4,
        Card::Spy => 4,
        Card::Thief => 4,
        Card::ThroneRoom => 4,
        Card::Gardens => 4,
    }
}

pub open spec fn spec_types(c: Card) -> Seq<CardType> {
    match c {
        Card::Copper => seq![CardType::Money(1)],
        Card::Silver => seq![CardType::Money(2)],
        Card::Gold => seq![CardType::Money(3)],
        Card::Estate => seq![CardType::Victory(1)],
        Card::Duchy => seq![CardType::Victory(3)],
        Card::Province => seq![CardType::Victory(6)],
        Card::Curse => seq![CardType::Curse(-1i64)],
        Card::Gardens => seq![CardType::VictoryPerCards(10)],
        _ => seq![CardType::Action],
    }
}

pub open spec fn spec_name(c: Card) -> Seq<char> {
    match c {
        Card::Copper => "Copper"@,
        Card::Silver => "Silver"@,
        Card::Gold => "Gold"@,
        Card::Estate => "Estate"@,
        Card::Duchy => "Duchy"@,
        Card::Province => "Province"@,
        Card::Curse => "Curse"@,
        Card::Cellar => "Cellar"@,
        Card::Chapel => "Chapel"@,
        Card::Moat => "Moat"@,
        Card::Chancellor => "Chancellor"@,
        Card::Village => "Village"@,
        Card::Woodcutter => "Woodcutter"@,
        Card::Workshop => "Workshop"@,
        Card::Militia => "Militia"@,
        Card::Moneylender => "Moneylender"@,
        Card::Remodel => "Remodel"@,
        Card::Smithy => "Smithy"@,
        Card::CouncilRoom => "Council Room"@,
        Card::Festival => "Festival"@,
        Card::Laboratory => "Laboratory"@,
        Card::Market => "Market"@,
        Card::Witch => "Witch"@,
        Card::Feast => "Feast"@,
        Card::Mine => "Mine"@,
        Card::Adventurer => "Adventurer"@,
        Card::Library => "Library"@,
        Card::Bureaucrat => "Bureaucrat"@,
        Card::Spy => "Spy"@,
        Card::Thief => "Thief"@,
        Card::ThroneRoom => "Throne Room"@,
        Card::Gardens => "Gardens"@,
    }
}

/// The treasure value of the first Money tag, if any.
pub open spec fn first_money(ts: Seq<CardType>) -> Option<u64>
    decreases ts.len(),
{
    if ts.len() == 0 {
        None
    } else {
        match ts[0] {
            CardType::Money(v) => Some(v),
            _ => first_money(ts.drop_first()),
        }
    }
}

/// The points of the first Victory or Curse tag, if any.
pub open spec fn first_points(ts: Seq<CardType>) -> Option<i64>
    decreases ts.len(),
{
    if ts.len() == 0 {
        None
    } else {
        match ts[0] {
            CardType::Victory(v) => Some(v),
            CardType::Curse(v) => Some(v),
            _ => first_points(ts.drop_first()),
        }
    }
}

pub open spec fn has_action(ts: Seq<CardType>) -> bool {
    exists|i: int| 0 <= i < ts.len() && ts[i] is Action
}

pub open spec fn has_victory(ts: Seq<CardType>) -> bool {
    exists|i: int| 0 <= i < ts.len() && (ts[i] is Victory || ts[i] is VictoryPerCards)
}

pub open spec fn has_curse(ts: Seq<CardType>) -> bool {
    exists|i: int| 0 <= i < ts.len() && ts[i] is Curse
}

pub open spec fn is_money(c: Card) -> bool {
    first_money(spec_types(c)) is Some
}

pub open spec fn is_action(c: Card) -> bool {
    has_action(spec_types(c))
}

pub open spec fn is_victory(c: Card) -> bool {
    has_victory(spec_types(c))
}

pub open spec fn is_curse(c: Card) -> bool {
    has_curse(spec_types(c))
}

/// Treasure value of a Money card (0 for any other card).
pub open spec fn money_value(c: Card) -> u64 {
    match first_money(spec_types(c)) {
        Some(v) => v,
        None => 0,
    }
}

/// Points of a Victory or Curse card (0 for any other card).
pub open spec fn points(c: Card) -> i64 {
    match first_points(spec_types(c)) {
        Some(v) => v,
        None => 0,
    }
}

/// Facts on each card's single type tag: the range of its points and treasure
/// value, and that these are zero for a card of another kind.
pub proof fn lemma_card_facts(c: Card)
    ensures
        -1 <= points(c) <= 6,
        money_value(c) <= 3,
        !(is_victory(c) || is_curse(c)) ==> points(c) == 0,
        !is_money(c) ==> money_value(c) == 0,
{
    let ts = spec_types(c);
    assert(ts.len() == 1);
    assert(ts.drop_first() =~= Seq::<CardType>::empty());
    assert(first_points(ts.drop_first()) is None);
    assert(first_money(ts.drop_first()) is None);
    assert(ts[0] is Victory ==> has_victory(ts));
    assert(ts[0] is Curse ==> has_curse(ts));
}

proof fn lemma_first_money_step(ts: Seq<CardType>, i: int)
    requires
        0 <= i < ts.len(),
    ensures
        first_money(ts.subrange(i, ts.len() as int)) == match ts[i] {
            CardType::Money(v) => Some(v),
            _ => first_money(ts.subrange(i + 1, ts.len() as int)),
        },
{
    assert(ts.subrange(i, ts.len() as int).drop_first() =~= ts.subrange(i + 1, ts.len() as int));
}

proof fn lemma_first_points_step(ts: Seq<CardType>, i: int)
    requires
        0 <= i < ts.len(),
    ensures
        first_points(ts.subrange(i, ts.len() as int)) == match ts[i] {
            CardType::Victory(v) => Some(v),
            CardType::Curse(v) => Some(v),
            _ => first_points(ts.subrange(i + 1, ts.len() as int)),
        },
{
    assert(ts.subrange(i, ts.len() as int).drop_first() =~= ts.subrange(i + 1, ts.len() as int));
}

impl Card {
    /// The card's position in the catalog, used to index per-card tables.
    pub fn index(self) -> (r: usize)
        ensures
            r as nat == spec_index(self),
            r < NUM_CARDS,
    {
        match self {
            Card::Copper => 0,
            Card::Silver => 1,
            Card::Gold => 2,
            Card::Estate => 3,
            Card::Duchy => 4,
            Card::Province => 5,
            Card::Curse => 6,
            Card::Cellar => 7,
            Card::Chapel => 8,
            Card::Moat => 9,
            Card::Chancellor => 10,
            Card::Village => 11,
            Card::Woodcutter => 12,
            Card::Workshop => 13,
            Card::Militia => 14,
            Card::Moneylender => 15,
            Card::Remodel => 16,
            Card::Smithy => 17,
            Card::CouncilRoom => 18,
            Card::Festival => 19,
            Card::Laboratory => 20,
            Card::Market => 21,
            Card::Witch => 22,
            Card::Feast => 23,
            Card::Mine => 24,
            Card::Adventurer => 25,
            Card::Library => 26,
            Card::Bureaucrat => 27,
            Card::Spy => 28,
            Card::Thief => 29,
            Card::ThroneRoom => 30,
            Card::Gardens => 31,
        }
    }

    pub fn name(self) -> (r: &'static str)
        ensures
            r@ == spec_name(self),
    {
        match self {
            Card::Copper => "Copper",
            Card::Silver => "Silver",
            Card::Gold => "Gold",
            Card::Estate => "Estate",
            Card::Duchy => "Duchy",
            Card::Province => "Province",
            Card::Curse => "Curse",
            Card::Cellar => "Cellar",
            Card::Chapel => "Chapel",
            Card::Moat => "Moat",
            Card::Chancellor => "Chancellor",
            Card::Village => "Village",
            Card::Woodcutter => "Woodcutter",
            Card::Workshop => "Workshop",
            Card::Militia => "Militia",
            Card::Moneylender => "Moneylender",
            Card::Remodel => "Remodel",
            Card::Smithy => "Smithy",
            Card::CouncilRoom => "Council Room",
            Card::Festival => "Festival",
            Card::Laboratory => "Laboratory",
            Card::Market => "Market",
            Card::Witch => "Witch",
            Card::Feast => "Feast",
            Card::Mine => "Mine",
            Card::Adventurer => "Adventurer",
            Card::Library => "Library",
            Card::Bureaucrat => "Bureaucrat",
            Card::Spy => "Spy",
            Card::Thief => "Thief",
            Card::ThroneRoom => "Throne Room",
            Card::Gardens => "Gardens",
        }
    }

    pub fn cost(self) -> (r: u64)
        ensures
            r == spec_cost(self),
    {
        match self {
            Card::Copper => 0,
            Card::Silver => 3,
            Card::Gold => 6,
            Card::Estate => 2,
            Card::Duchy => 5,
            Card::Province => 8,
            Card::Curse => 0,
            Card::Cellar => 2,
            Card::Chapel => 2,
            Card::Moat => 2,
            Card::Chancellor => 3,
            Card::Village => 3,
            Card::Woodcutter => 3,
            Card::Workshop => 3,
            Card::Militia => 4,
            Card::Moneylender => 4,
            Card::Remodel => 4,
            Card::Smithy => 4,
            Card::CouncilRoom => 5,
            Card::Festival => 5,
            Card::Laboratory => 5,
            Card::Market => 5,
            Card::Witch => 5,
            Card::Feast => 4,
            Card::Mine => 5,
            Card::Adventurer => 6,
            Card::Library => 5,
            Card::Bureaucrat => 4,
            Card::Spy => 4,
            Card::Thief => 4,
            Card::ThroneRoom => 4,
            Card::Gardens => 4,
        }
    }

    /// The card's full definition.
    pub fn def(self) -> (r: CardDef)
        ensures
            r.card == self,
            r.cost == spec_cost(self),
            r.types@ == spec_types(self),
    {
        let types = match self {
            Card::Copper => vec![CardType::Money(1)],
            Card::Silver => vec![CardType::Money(2)],
            Card::Gold => vec![CardType::Money(3)],
            Card::Estate => vec![CardType::Victory(1)],
            Card::Duchy => vec![CardType::Victory(3)],
            Card::Province => vec![CardType::Victory(6)],
            Card::Curse => vec![CardType::Curse(-1)],
            Card::Gardens => vec![CardType::VictoryPerCards(10)],
            _ => vec![CardType::Action],
        };
        assert(types@ =~= spec_types(self));
        CardDef { card: self, cost: self.cost(), types }
    }

    pub fn is_money(self) -> (r: bool)
        ensures
            r == is_money(self),
    {
        self.def().is_money()
    }

    pub fn is_action(self) -> (r: bool)
        ensures
            r == is_action(self),
    {
        self.def().is_action()
    }

    pub fn is_victory(self) -> (r: bool)
        ensures
            r == is_victory(self),
    {
        self.def().is_victory()
    }

    pub fn is_curse(self) -> (r: bool)
        ensures
            r == is_curse(self),
    {
        self.def().is_curse()
    }

    pub fn treasure_value(self) -> (r: u64)
        requires
            is_money(self),
        ensures
            r == money_value(self),
    {
        self.def().treasure_value()
    }

    pub fn victory_points(self) -> (r: i64)
        requires
            is_victory(self) || is_curse(self),
        ensures
            r == points(self),
    {
        self.def().victory_points()
    }
}

impl CardDef {
    /// `n` copies of this card.
    pub fn create_copies(&self, n: usize) -> (r: Vec<Card>)
        ensures
            r@ =~= Seq::new(n as nat, |i: int| self.card),
    {
        let mut cards: Vec<Card> = Vec::new();
        let mut i: usize = 0;
        while i < n
            invariant
                i <= n,
                cards@ =~= Seq::new(i as nat, |j: int| self.card),
            decreases n - i,
        {
            cards.push(self.card);
            i = i + 1;
        }
        cards
    }

    pub fn is_money(&self) -> (r: bool)
        ensures
            r == (first_money(self.types@) is Some),
    {
        let n = self.types.len();
        assert(self.types@.subrange(0, n as int) =~= self.types@);
        let mut i: usize = 0;
        while i < n
            invariant
                i <= n,
                n == self.types@.len(),
                first_money(self.types@) == first_money(self.types@.subrange(i as int, n as int)),
            decreases n - i,
        {
            proof {
                lemma_first_money_step(self.types@, i as int);
            }
            if let CardType::Money(_) = self.types[i] {
                return true;
            }
            i = i + 1;
        }
        assert(self.types@.subrange(n as int, n as int).len() == 0);
        false
    }

    pub fn is_action(&self) -> (r: bool)
        ensures
            r == has_action(self.types@),
    {
        let n = self.types.len();
        assert(self.types@.subrange(0, n as int) =~= self.types@);
        let mut i: usize = 0;
        while i < n
            invariant
                i <= n,
                n == self.types@.len(),
                forall|j: int| 0 <= j < i ==> !(self.types@[j] is Action),
            decreases n - i,
        {
            if let CardType::Action = self.types[i] {
                return true;
            }
            i = i + 1;
        }
        false
    }

    pub fn is_victory(&self) -> (r: bool)
        ensures
            r == has_victory(self.types@),
    {
        let n = self.types.len();
        assert(self.types@.subrange(0, n as int) =~= self.types@);
        let mut i: usize = 0;
        while i < n
            invariant
                i <= n,
                n == self.types@.len(),
                forall|j: int| 0 <= j < i ==> !(self.types@[j] is Victory || self.types@[j] is VictoryPerCards),
            decreases n - i,
        {
            match self.types[i] {
                CardType::Victory(_) | CardType::VictoryPerCards(_) => {
                    return true;
                },
                _ => {},
            }
            i = i + 1;
        }
        false
    }

    pub fn is_curse(&self) -> (r: bool)
        ensures
            r == has_curse(self.types@),
    {
        let n = self.types.len();
        assert(self.types@.subrange(0, n as int) =~= self.types@);
        let mut i: usize = 0;
        while i < n
            invariant
                i <= n,
                n == self.types@.len(),
                forall|j: int| 0 <= j < i ==> !(self.types@[j] is Curse),
            decreases n - i,
        {
            if let CardType::Curse(_) = self.types[i] {
                return true;
            }
            i = i + 1;
        }
        false
    }

    /// The value of the card's first Money tag.
    pub fn treasure_value(&self) -> (r: u64)
        requires
            first_money(self.types@) is Some,
        ensures
            Some(r) == first_money(self.types@),
    {
        let n = self.types.len();
        assert(self.types@.subrange(0, n as int) =~= self.types@);
        let mut i: usize = 0;
        while i < n
            invariant
                i <= n,
                n == self.types@.len(),
                first_money(self.types@) == first_money(self.types@.subrange(i as int, n as int)),
            decreases n - i,
        {
            proof {
                lemma_first_money_step(self.types@, i as int);
            }
            if let CardType::Money(v) = self.types[i] {
                return v;
            }
            i = i + 1;
        }
        assert(self.types@.subrange(n as int, n as int).len() == 0);
        0
    }

    /// The points of the card's first Victory or Curse tag with a fixed
    /// value; 0 when it has none.
    pub fn victory_points(&self) -> (r: i64)
        ensures
            r == match first_points(self.types@) {
                Some(v) => v,
                None => 0,
            },
    {
        let n = self.types.len();
        assert(self.types@.subrange(0, n as int) =~= self.types@);
        let mut i: usize = 0;
        while i < n
            invariant
                i <= n,
                n == self.types@.len(),
                first_points(self.types@) == first_points(self.types@.subrange(i as int, n as int)),
            decreases n - i,
        {
            proof {
                lemma_first_points_step(self.types@, i as int);
            }
            match self.types[i] {
                CardType::Victory(v) => {
                    return v;
                },
                CardType::Curse(v) => {
                    return v;
                },
                _ => {},
            }
            i = i + 1;
        }
        assert(self.types@.subrange(n as int, n as int).len() == 0);
        0
    }
}

/// The kingdom cards, those that can be chosen for a game's kingdom.
pub open spec fn is_kingdom(c: Card) -> bool {
    spec_index(c) >= 7
}

/// Every card of the catalog, in index order.
pub fn all_cards() -> (r: Vec<Card>)
    ensures
        r@.len() == NUM_CARDS,
        forall|c: Card| #[trigger] r@[spec_index(c) as int] == c,
        forall|i: int| 0 <= i < r@.len() ==> spec_index(#[trigger] r@[i]) == i,
{
    let r = vec![
        Card::Copper,
        Card::Silver,
        Card::Gold,
        Card::Estate,
        Card::Duchy,
        Card::Province,
        Card::Curse,
        Card::Cellar,
        Card::Chapel,
        Card::Moat,
        Card::Chancellor,
        Card::Village,
        Card::Woodcutter,
        Card::Workshop,
        Card::Militia,
        Card::Moneylender,
        Card::Remodel,
        Card::Smithy,
        Card::CouncilRoom,
        Card::Festival,
        Card::Laboratory,
        Card::Market,
        Card::Witch,
        Card::Feast,
        Card::Mine,
        Card::Adventurer,
        Card::Library,
        Card::Bureaucrat,
        Card::Spy,
        Card::Thief,
        Card::ThroneRoom,
        Card::Gardens,
    ];
    r
}

/// The kingdom cards of the catalog, in index order.
pub fn dominion_set() -> (r: Vec<Card>)
    ensures
        forall|c: Card| is_kingdom(c) <==> #[trigger] r@.contains(c),
        forall|i: int, j: int| 0 <= i < j < r@.len() ==> r@[i] != r@[j],
{
    let all = all_cards();
    let mut r: Vec<Card> = Vec::new();
    let mut i: usize = 7;
    while i < NUM_CARDS
        invariant
            7 <= i <= NUM_CARDS,
            all@.len() == NUM_CARDS,
            forall|c: Card| #[trigger] all@[spec_index(c) as int] == c,
            forall|k: int| 0 <= k < all@.len() ==> spec_index(#[trigger] all@[k]) == k,
            r@.len() == i - 7,
            forall|k: int| 0 <= k < r@.len() ==> spec_index(#[trigger] r@[k]) == k + 7,
        decreases NUM_CARDS - i,
    {
        r.push(all[i]);
        i = i + 1;
    }
    assert forall|c: Card| is_kingdom(c) <==> #[trigger] r@.contains(c) by {
        if is_kingdom(c) {
            assert(r@[spec_index(c) - 7] == c);
        }
    }
    r
}

/// The card named `name`, if there is one.
pub fn for_name(name: &str) -> (r: Option<Card>)
    ensures
        r matches Some(c) ==> spec_name(c) == name@,
        r is None ==> forall|c: Card| spec_name(c) != name@,
{
    let all = all_cards();
    let wanted = name.to_owned();
    let mut i: usize = 0;
    while i < all.len()
        invariant
            i <= all@.len(),
            all@.len() == NUM_CARDS,
            wanted@ == name@,
            forall|c: Card| #[trigger] all@[spec_index(c) as int] == c,
            forall|k: int| 0 <= k < i ==> spec_name(#[trigger] all@[k]) != name@,
        decreases all@.len() - i,
    {
        let c = all[i];
        let candidate = c.name().to_owned();
        if candidate == wanted {
            return Some(c);
        }
        i = i + 1;
    }
    assert forall|c: Card| spec_name(c) != name@ by {
        assert(all@[spec_index(c) as int] == c);
    }
    None
}

} // verus!
