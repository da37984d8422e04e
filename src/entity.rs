use vstd::prelude::*;

use crate::identity::Identity;

verus! {

/// An item listed for auction.
#[derive(Clone, Debug)]
pub struct Item {
    pub id: u64,
    pub owner: Identity,
    pub name: String,
    pub description: String,
    pub current_highest_bid: u64,
    pub highest_bidder: Option<Identity>,
    pub active: bool,
    pub new_owner: Option<Identity>,
}

/// A bid of one party on one item.
#[derive(Clone, Debug)]
pub struct Bid {
    pub bidder: Identity,
    pub amount: u64,
}

/// The mathematical value of an `Item`.
pub ghost struct ItemView {
    pub id: u64,
    pub owner: Seq<u8>,
    pub name: Seq<char>,
    pub description: Seq<char>,
    pub current_highest_bid: u64,
    pub highest_bidder: Option<Seq<u8>>,
    pub active: bool,
    pub new_owner: Option<Seq<u8>>,
}

/// The mathematical value of a `Bid`.
pub ghost struct BidView {
    pub bidder: Seq<u8>,
    pub amount: u64,
}

pub open spec fn identity_opt_view(o: Option<Identity>) -> Option<Seq<u8>> {
    match o {
        Some(p) => Some(p@),
        None => None,
    }
}

/// A copy of an optional identity.
pub fn duplicate_opt(o: &Option<Identity>) -> (r: Option<Identity>)
    ensures
        identity_opt_view(r) == identity_opt_view(*o),
{
    match o {
        Some(p) => Some(p.duplicate()),
        None => None,
    }
}

/// Whether two optional identities are equal.
pub fn same_opt(a: &Option<Identity>, b: &Option<Identity>) -> (r: bool)
    ensures
        r == (identity_opt_view(*a) == identity_opt_view(*b)),
{
    match (a, b) {
        (Some(x), Some(y)) => x.same_as(y),
        (None, None) => true,
        _ => false,
    }
}

impl View for Item {
    type V = ItemView;

    open spec fn view(&self) -> ItemView {
        ItemView {
            id: self.id,
            owner: self.owner@,
            name: self.name@,
            description: self.description@,
            current_highest_bid: self.current_highest_bid,
            highest_bidder: identity_opt_view(self.highest_bidder),
            active: self.active,
            new_owner: identity_opt_view(self.new_owner),
        }
    }
}

impl View for Bid {
    type V = BidView;

    open spec fn view(&self) -> BidView {
        BidView { bidder: self.bidder@, amount: self.amount }
    }
}

impl Item {
    /// A copy of this item.
    pub fn duplicate(&self) -> (r: Item)
        ensures
            r@ == self@,
    {
        Item {
            id: self.id,
            owner: self.owner.duplicate(),
            name: self.name.clone(),
            description: self.description.clone(),
            current_highest_bid: self.current_highest_bid,
            highest_bidder: duplicate_opt(&self.highest_bidder),
            active: self.active,
            new_owner: duplicate_opt(&self.new_owner),
        }
    }
}

impl Bid {
    /// A copy of this bid.
    pub fn duplicate(&self) -> (r: Bid)
        ensures
            r@ == self@,
    {
        Bid { bidder: self.bidder.duplicate(), amount: self.amount }
    }
}

} // verus!
