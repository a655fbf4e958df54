//! Buy decisions of the built-in strategies. Each takes what the player
//! knows after playing its money and returns the card to buy, if any.

use crate::card::Card;
use vstd::prelude::*;

verus! {

/// Big Money: with 8 or more buy a Province, with 6 or 7 a Gold, with 5 a
/// Duchy once five or fewer Provinces are left (else a Silver), with 3 or 4
/// a Silver, and nothing with less.
pub open spec fn big_money_choice(buying_power: u64, provinces_left: u64) -> Option<Card> {
    if buying_power >= 8 {
        Some(Card::Province)
    } else if buying_power >= 6 {
        Some(Card::Gold)
    } else if buying_power == 5 {
        if provinces_left <= 5 {
            Some(Card::Duchy)
        } else {
            Some(Card::Silver)
        }
    } else if buying_power >= 3 {
        Some(Card::Silver)
    } else {
        None
    }
}

/// Big Money with one Smithy: as Big Money, except that with exactly 4 it
/// buys a Smithy while the player owns none.
pub open spec fn big_money_smithy_choice(buying_power: u64, provinces_left: u64, has_smithy: bool) -> Option<Card> {
    if buying_power == 4 && !has_smithy {
        Some(Card::Smithy)
    } else {
        big_money_choice(buying_power, provinces_left)
    }
}

/// Big Money with one Witch: as Big Money, except that with exactly 5 it
/// buys a Witch while the player owns none.
pub open spec fn big_money_witch_choice(buying_power: u64, provinces_left: u64, has_witch: bool) -> Option<Card> {
    if buying_power == 5 && !has_witch {
        Some(Card::Witch)
    } else {
        big_money_choice(buying_power, provinces_left)
    }
}

/// The card that Big Money buys.
pub fn big_money(buying_power: u64, provinces_left: u64) -> (r: Option<Card>)
    ensures
        r == big_money_choice(buying_power, provinces_left),
{
    if buying_power >= 8 {
        Some(Card::Province)
    } else if buying_power >= 6 {
        Some(Card::Gold)
    } else if buying_power == 5 {
        if provinces_left <= 5 {
            Some(Card::Duchy)
        } else {
            Some(Card::Silver)
        }
    } else if buying_power >= 3 {
        Some(Card::Silver)
    } else {
        None
    }
}

/// The card that Big Money with one Smithy buys.
pub fn big_money_smithy(buying_power: u64, provinces_left: u64, has_smithy: bool) -> (r: Option<Card>)
    ensures
        r == big_money_smithy_choice(buying_power, provinces_left, has_smithy),
{
    if buying_power == 4 && !has_smithy {
        Some(Card::Smithy)
    } else {
        big_money(buying_power, provinces_left)
    }
}

/// The card that Big Money with one Witch buys.
pub fn big_money_witch(buying_power: u64, provinces_left: u64, has_witch: bool) -> (r: Option<Card>)
    ensures
        r == big_money_witch_choice(buying_power, provinces_left, has_witch),
{
    if buying_power == 5 && !has_witch {
        Some(Card::Witch)
    } else {
        big_money(buying_power, provinces_left)
    }
}

} // verus!
