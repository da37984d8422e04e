use vstd::prelude::*;

use crate::entity::{duplicate_opt, same_opt, Bid, BidView, Item, ItemView};
use crate::error::AuctionError;
use crate::identity::Identity;
use crate::snapshot::{ledger_views, Snapshot};

verus! {

pub const BID_PLACED: &'static str = "Bid placed successfully.";

pub const LISTING_UPDATED: &'static str = "Listing updated successfully.";

pub const LISTING_STOPPED: &'static str = "Listing stopped successfully. Highest bidder is now the owner.";

/// The mathematical value of the whole aggregate: the items in id order,
/// the bid ledger of each item (same index), and the id counter.
pub ghost struct StoreView {
    pub items: Seq<ItemView>,
    pub bids: Seq<Seq<BidView>>,
    pub next_item_id: nat,
}

/// No two entries of a ledger belong to the same bidder.
pub open spec fn bidders_unique(l: Seq<BidView>) -> bool {
    forall|j: int, k: int|
        0 <= j < l.len() && 0 <= k < l.len() && #[trigger] l[j].bidder == #[trigger] l[k].bidder
            ==> j == k
}

/// Whether some entry of the ledger belongs to `b`.
pub open spec fn has_bidder(l: Seq<BidView>, b: Seq<u8>) -> bool {
    exists|j: int| 0 <= j < l.len() && #[trigger] l[j].bidder == b
}

/// The ledger after `b` was recorded: it replaces the entry of the same
/// bidder, or is appended when the bidder has none.
pub open spec fn upsert_bid(l: Seq<BidView>, b: BidView) -> Seq<BidView> {
    if has_bidder(l, b.bidder) {
        let j = choose|j: int| 0 <= j < l.len() && #[trigger] l[j].bidder == b.bidder;
        l.update(j, b)
    } else {
        l.push(b)
    }
}

/// The rules that tie an item to its ledger: the owner never bid on it, no
/// entry exceeds the current highest bid, the highest bidder's entry holds
/// that bid (and with no highest bidder there are no bids), and the new
/// owner is unset while active and equals the highest bidder once stopped.
pub open spec fn item_consistent(it: ItemView, l: Seq<BidView>) -> bool {
    &&& forall|j: int|
        0 <= j < l.len() ==> (#[trigger] l[j]).bidder != it.owner && l[j].amount <= it.current_highest_bid
    &&& match it.highest_bidder {
        Some(h) => l.contains(BidView { bidder: h, amount: it.current_highest_bid }),
        None => l.len() == 0 && it.current_highest_bid == 0,
    }
    &&& if it.active {
        it.new_owner is None
    } else {
        it.new_owner == it.highest_bidder
    }
}

/// Each entry of a ledger after recording `b` is `b` or was there before,
/// and `b` is there.
pub proof fn lemma_upsert_contents(l: Seq<BidView>, b: BidView)
    ensures
        upsert_bid(l, b).contains(b),
        forall|j: int|
            0 <= j < upsert_bid(l, b).len() ==> #[trigger] upsert_bid(l, b)[j] == b || l.contains(
                upsert_bid(l, b)[j],
            ),
{
    let u = upsert_bid(l, b);
    if has_bidder(l, b.bidder) {
        let i = choose|j: int| 0 <= j < l.len() && #[trigger] l[j].bidder == b.bidder;
        assert(u[i] == b);
        assert forall|j: int| 0 <= j < u.len() implies #[trigger] u[j] == b || l.contains(u[j]) by {
            if j != i {
                assert(u[j] == l[j]);
            }
        }
    } else {
        assert(u[l.len() as int] == b);
        assert forall|j: int| 0 <= j < u.len() implies #[trigger] u[j] == b || l.contains(u[j]) by {
            if j < l.len() {
                assert(u[j] == l[j]);
            }
        }
    }
}

/// Recording a bid keeps one entry per bidder.
pub proof fn lemma_upsert_keeps_unique(l: Seq<BidView>, b: BidView)
    requires
        bidders_unique(l),
    ensures
        bidders_unique(upsert_bid(l, b)),
{
    let u = upsert_bid(l, b);
    if has_bidder(l, b.bidder) {
        let i = choose|j: int| 0 <= j < l.len() && #[trigger] l[j].bidder == b.bidder;
        assert forall|j: int, k: int|
            0 <= j < u.len() && 0 <= k < u.len() && #[trigger] u[j].bidder == #[trigger] u[k].bidder
            implies j == k by {
            assert(u[j].bidder == l[j].bidder);
            assert(u[k].bidder == l[k].bidder);
        }
    } else {
        assert forall|j: int, k: int|
            0 <= j < u.len() && 0 <= k < u.len() && #[trigger] u[j].bidder == #[trigger] u[k].bidder
            implies j == k by {
            if j < l.len() && k == l.len() {
                assert(l[j].bidder == b.bidder);
            }
            if k < l.len() && j == l.len() {
                assert(l[k].bidder == b.bidder);
            }
        }
    }
}

/// A listing keeps the aggregate consistent.
pub proof fn lemma_listed_keeps_wf(v: StoreView, caller: Seq<u8>, name: Seq<char>, description: Seq<char>)
    requires
        v.wf(),
        v.next_item_id < u64::MAX,
    ensures
        v.listed(caller, name, description).wf(),
{
    let w = v.listed(caller, name, description);
    assert forall|k: int| 0 <= k < w.items.len() implies (#[trigger] w.items[k]).id == k && bidders_unique(
        w.bids[k],
    ) && item_consistent(w.items[k], w.bids[k]) by {
        if k < v.items.len() {
            assert(w.items[k] == v.items[k]);
            assert(w.bids[k] == v.bids[k]);
        }
    }
}

/// An accepted bid keeps the aggregate consistent.
pub proof fn lemma_bid_keeps_wf(v: StoreView, caller: Seq<u8>, item_id: u64, amount: u64)
    requires
        v.wf(),
        v.bid_refusal(caller, item_id, amount) is None,
    ensures
        v.bid_placed(caller, item_id, amount).wf(),
{
    let w = v.bid_placed(caller, item_id, amount);
    let i = item_id as int;
    let b = BidView { bidder: caller, amount };
    lemma_upsert_keeps_unique(v.bids[i], b);
    lemma_upsert_contents(v.bids[i], b);
    let l = v.bids[i];
    let u = w.bids[i];
    assert(item_consistent(v.items[i], l));
    assert forall|j: int| 0 <= j < u.len() implies (#[trigger] u[j]).bidder != w.items[i].owner
        && u[j].amount <= w.items[i].current_highest_bid by {
        if u[j] != b {
            let t = choose|t: int| 0 <= t < l.len() && l[t] == u[j];
            assert(l[t].bidder != v.items[i].owner);
        }
    }
    assert forall|k: int| 0 <= k < w.items.len() implies (#[trigger] w.items[k]).id == k && bidders_unique(
        w.bids[k],
    ) && item_consistent(w.items[k], w.bids[k]) by {
        if k != i {
            assert(w.items[k] == v.items[k]);
            assert(w.bids[k] == v.bids[k]);
        }
    }
}

/// Changing an item's text keeps the aggregate consistent.
pub proof fn lemma_updated_keeps_wf(
    v: StoreView,
    item_id: u64,
    new_name: Option<Seq<char>>,
    new_description: Option<Seq<char>>,
)
    requires
        v.wf(),
        item_id < v.items.len(),
    ensures
        v.updated(item_id, new_name, new_description).wf(),
{
    let w = v.updated(item_id, new_name, new_description);
    assert forall|k: int| 0 <= k < w.items.len() implies (#[trigger] w.items[k]).id == k && bidders_unique(
        w.bids[k],
    ) && item_consistent(w.items[k], w.bids[k]) by {
        assert(item_consistent(v.items[k], v.bids[k]));
        if k != item_id as int {
            assert(w.items[k] == v.items[k]);
        }
    }
}

/// Stopping an active listing keeps the aggregate consistent.
pub proof fn lemma_stopped_keeps_wf(v: StoreView, item_id: u64)
    requires
        v.wf(),
        item_id < v.items.len(),
        v.items[item_id as int].active,
    ensures
        v.stopped(item_id).wf(),
{
    let w = v.stopped(item_id);
    assert forall|k: int| 0 <= k < w.items.len() implies (#[trigger] w.items[k]).id == k && bidders_unique(
        w.bids[k],
    ) && item_consistent(w.items[k], w.bids[k]) by {
        assert(item_consistent(v.items[k], v.bids[k]));
        if k != item_id as int {
            assert(w.items[k] == v.items[k]);
        }
    }
}

impl StoreView {
    /// Ids equal positions, the counter equals the number of items, each
    /// item has one ledger, and each ledger holds one entry per bidder.
    pub open spec fn wf(self) -> bool {
        &&& self.items.len() == self.next_item_id
        &&& self.bids.len() == self.items.len()
        &&& forall|i: int| 0 <= i < self.items.len() ==> (#[trigger] self.items[i]).id == i
        &&& forall|i: int| 0 <= i < self.bids.len() ==> bidders_unique(#[trigger] self.bids[i])
        &&& forall|i: int| 0 <= i < self.items.len() ==> item_consistent(#[trigger] self.items[i], self.bids[i])
    }

    pub open spec fn empty() -> StoreView {
        StoreView { items: Seq::empty(), bids: Seq::empty(), next_item_id: 0 }
    }

    /// The aggregate after `caller` listed a new item.
    pub open spec fn listed(self, caller: Seq<u8>, name: Seq<char>, description: Seq<char>) -> StoreView {
        StoreView {
            items: self.items.push(
                ItemView {
                    id: self.next_item_id as u64,
                    owner: caller,
                    name,
                    description,
                    current_highest_bid: 0,
                    highest_bidder: None,
                    active: true,
                    new_owner: None,
                },
            ),
            bids: self.bids.push(Seq::empty()),
            next_item_id: self.next_item_id + 1,
        }
    }

    /// The first precondition of a bid that fails, in the order they are checked.
    pub open spec fn bid_refusal(self, caller: Seq<u8>, item_id: u64, amount: u64) -> Option<AuctionError> {
        if item_id >= self.items.len() {
            Some(AuctionError::NotFound)
        } else if !self.items[item_id as int].active {
            Some(AuctionError::InactiveAuction)
        } else if self.items[item_id as int].owner == caller {
            Some(AuctionError::SelfBid)
        } else if amount <= self.items[item_id as int].current_highest_bid {
            Some(AuctionError::BidTooLow)
        } else {
            None
        }
    }

    /// The aggregate after an accepted bid.
    pub open spec fn bid_placed(self, caller: Seq<u8>, item_id: u64, amount: u64) -> StoreView {
        let it = self.items[item_id as int];
        StoreView {
            items: self.items.update(
                item_id as int,
                ItemView { current_highest_bid: amount, highest_bidder: Some(caller), ..it },
            ),
            bids: self.bids.update(
                item_id as int,
                upsert_bid(self.bids[item_id as int], BidView { bidder: caller, amount }),
            ),
            next_item_id: self.next_item_id,
        }
    }

    /// The first precondition of an owner-only change that fails; `stopped`
    /// is the error for an item that is no longer active.
    pub open spec fn owner_refusal(self, caller: Seq<u8>, item_id: u64, stopped: AuctionError) -> Option<AuctionError> {
        if item_id >= self.items.len() {
            Some(AuctionError::NotFound)
        } else if self.items[item_id as int].owner != caller {
            Some(AuctionError::NotOwner)
        } else if !self.items[item_id as int].active {
            Some(stopped)
        } else {
            None
        }
    }

    /// The aggregate after the owner replaced the given text fields.
    pub open spec fn updated(
        self,
        item_id: u64,
        new_name: Option<Seq<char>>,
        new_description: Option<Seq<char>>,
    ) -> StoreView {
        let it = self.items[item_id as int];
        let name = match new_name {
            Some(n) => n,
            None => it.name,
        };
        let description = match new_description {
            Some(d) => d,
            None => it.description,
        };
        StoreView { items: self.items.update(item_id as int, ItemView { name, description, ..it }), ..self }
    }

    /// What restoring a snapshot of this value gives: the value itself when
    /// it is a consistent aggregate, a decode failure otherwise.
    pub open spec fn restored(self) -> Result<StoreView, AuctionError> {
        if self.wf() {
            Ok(self)
        } else {
            Err(AuctionError::PersistenceDecodeFailure)
        }
    }

    /// The aggregate after the owner stopped the listing: the highest bidder
    /// at this instant becomes the new owner.
    pub open spec fn stopped(self, item_id: u64) -> StoreView {
        let it = self.items[item_id as int];
        StoreView {
            items: self.items.update(
                item_id as int,
                ItemView { active: false, new_owner: it.highest_bidder, ..it },
            ),
            ..self
        }
    }
}

/// A stopped item that went to a new owner.
pub open spec fn sold(it: ItemView) -> bool {
    !it.active && it.new_owner is Some
}

/// Item `i` is sold, none sold fetched more, and none before it as much.
pub open spec fn is_top_sold(items: Seq<ItemView>, i: int) -> bool {
    &&& 0 <= i < items.len()
    &&& sold(items[i])
    &&& forall|j: int|
        0 <= j < items.len() && sold(#[trigger] items[j]) ==> items[j].current_highest_bid
            <= items[i].current_highest_bid
    &&& forall|j: int|
        0 <= j < i && sold(#[trigger] items[j]) ==> items[j].current_highest_bid
            < items[i].current_highest_bid
}

/// Ledger `i` is not empty, no ledger is longer, and none before it as long.
pub open spec fn is_most_bid(bids: Seq<Seq<BidView>>, i: int) -> bool {
    &&& 0 <= i < bids.len()
    &&& bids[i].len() > 0
    &&& forall|j: int| 0 <= j < bids.len() ==> (#[trigger] bids[j]).len() <= bids[i].len()
    &&& forall|j: int| 0 <= j < i ==> (#[trigger] bids[j]).len() < bids[i].len()
}

/// The single aggregate: all items, one bid ledger per item, and the id counter.
pub struct AuctionStore {
    items: Vec<Item>,
    item_bids: Vec<Vec<Bid>>,
    next_item_id: u64,
}

pub open spec fn item_views(v: Seq<Item>) -> Seq<ItemView> {
    v.map_values(|it: Item| it@)
}

pub open spec fn ledger_view(l: Vec<Bid>) -> Seq<BidView> {
    l@.map_values(|b: Bid| b@)
}

pub open spec fn text_opt_view(o: Option<String>) -> Option<Seq<char>> {
    match o {
        Some(t) => Some(t@),
        None => None,
    }
}

/// Whether each bidder has at most one entry in the ledger.
fn unique_bidders(l: &Vec<Bid>) -> (r: bool)
    ensures
        r == bidders_unique(ledger_view(*l)),
{
    let ghost v = ledger_view(*l);
    let mut j: usize = 0;
    while j < l.len()
        invariant
            v == ledger_view(*l),
            0 <= j <= l@.len(),
            forall|a: int, b: int|
                0 <= a < j && 0 <= b < l@.len() && #[trigger] v[a].bidder == #[trigger] v[b].bidder
                    ==> a == b,
        decreases l@.len() - j,
    {
        let mut k: usize = 0;
        while k < l.len()
            invariant
                v == ledger_view(*l),
                0 <= j < l@.len(),
                0 <= k <= l@.len(),
                forall|a: int, b: int|
                    0 <= a < j && 0 <= b < l@.len() && #[trigger] v[a].bidder == #[trigger] v[b].bidder
                        ==> a == b,
                forall|b: int| 0 <= b < k && #[trigger] v[b].bidder == v[j as int].bidder ==> b == j,
            decreases l@.len() - k,
        {
            assert(v[k as int] == l@[k as int]@);
            assert(v[j as int] == l@[j as int]@);
            if k != j && l[k].bidder.same_as(&l[j].bidder) {
                assert(v[k as int].bidder == v[j as int].bidder);
                return false;
            }
            k = k + 1;
        }
        j = j + 1;
    }
    true
}

/// Whether an item and its ledger keep the rules of `item_consistent`.
fn item_is_consistent(it: &Item, l: &Vec<Bid>) -> (r: bool)
    requires
        bidders_unique(ledger_view(*l)),
    ensures
        r == item_consistent(it@, ledger_view(*l)),
{
    let ghost lv = ledger_view(*l);
    let mut j: usize = 0;
    while j < l.len()
        invariant
            lv == ledger_view(*l),
            0 <= j <= l@.len(),
            forall|k: int|
                0 <= k < j ==> (#[trigger] lv[k]).bidder != it@.owner && lv[k].amount
                    <= it.current_highest_bid,
        decreases l@.len() - j,
    {
        assert(lv[j as int] == l@[j as int]@);
        if l[j].bidder.same_as(&it.owner) || l[j].amount > it.current_highest_bid {
            return false;
        }
        j = j + 1;
    }
    let top_ok = match &it.highest_bidder {
        Some(h) => match find_bid(l, h) {
            Some(k) => {
                let ok = l[k].amount == it.current_highest_bid;
                let ghost want = BidView { bidder: h@, amount: it.current_highest_bid };
                assert(lv[k as int] == l@[k as int]@);
                if ok {
                    assert(lv[k as int] == want);
                } else {
                    assert forall|t: int| 0 <= t < lv.len() implies lv[t] != want by {
                        if lv[t] == want {
                            assert(lv[t].bidder == lv[k as int].bidder);
                        }
                    }
                }
                ok
            },
            None => {
                let ghost want = BidView { bidder: h@, amount: it.current_highest_bid };
                assert forall|t: int| 0 <= t < lv.len() implies lv[t] != want by {
                    if lv[t] == want {
                        assert(lv[t].bidder == h@);
                    }
                }
                false
            },
        },
        None => l.len() == 0 && it.current_highest_bid == 0,
    };
    if !top_ok {
        return false;
    }
    if it.active {
        it.new_owner.is_none()
    } else {
        same_opt(&it.new_owner, &it.highest_bidder)
    }
}

/// The position of `bidder`'s entry in a ledger, if it has one.
fn find_bid(l: &Vec<Bid>, bidder: &Identity) -> (r: Option<usize>)
    ensures
        match r {
            Some(j) => j < l@.len() && l@[j as int].bidder@ == bidder@,
            None => !has_bidder(ledger_view(*l), bidder@),
        },
{
    let mut j: usize = 0;
    while j < l.len()
        invariant
            0 <= j <= l@.len(),
            forall|k: int| 0 <= k < j ==> l@[k].bidder@ != bidder@,
        decreases l@.len() - j,
    {
        if l[j].bidder.same_as(bidder) {
            return Some(j);
        }
        j = j + 1;
    }
    assert forall|k: int| 0 <= k < l@.len() implies #[trigger] ledger_view(*l)[k].bidder != bidder@ by {
        assert(ledger_view(*l)[k] == l@[k]@);
    }
    None
}

impl View for AuctionStore {
    type V = StoreView;

    closed spec fn view(&self) -> StoreView {
        StoreView {
            items: item_views(self.items@),
            bids: self.item_bids@.map_values(|l: Vec<Bid>| ledger_view(l)),
            next_item_id: self.next_item_id as nat,
        }
    }
}

impl AuctionStore {
    /// A store with no items and the counter at zero.
    pub fn new() -> (r: AuctionStore)
        ensures
            r@ == StoreView::empty(),
    {
        let r = AuctionStore { items: Vec::new(), item_bids: Vec::new(), next_item_id: 0 };
        assert(r@.items =~= Seq::empty());
        assert(r@.bids =~= Seq::empty());
        r
    }

    /// The id that the next listing will receive.
    pub fn next_item_id(&self) -> (r: u64)
        ensures
            r == self@.next_item_id,
    {
        self.next_item_id
    }

    /// Lists a new item owned by `caller` and returns its id.
    pub fn list_item(&mut self, caller: Identity, name: String, description: String) -> (r: u64)
        requires
            old(self)@.wf(),
            old(self)@.next_item_id < u64::MAX,
        ensures
            r == old(self)@.next_item_id,
            final(self)@ == old(self)@.listed(caller@, name@, description@),
            final(self)@.wf(),
    {
        let item_id = self.next_item_id;
        let item = Item {
            id: item_id,
            owner: caller,
            name,
            description,
            current_highest_bid: 0,
            highest_bidder: None,
            active: true,
            new_owner: None,
        };
        let ledger: Vec<Bid> = Vec::new();
        assert(ledger_view(ledger) =~= Seq::empty());
        self.items.push(item);
        self.item_bids.push(ledger);
        self.next_item_id = item_id + 1;
        let ghost want = old(self)@.listed(caller@, name@, description@);
        assert(self@.items =~= want.items);
        assert(self@.bids =~= want.bids);
        proof {
            lemma_listed_keeps_wf(old(self)@, caller@, name@, description@);
        }
        item_id
    }

    /// Records a bid of `caller` on an item, after checking in order that the
    /// item exists, is active, is not the caller's own, and that the amount
    /// exceeds the current highest bid. A refused bid changes nothing.
    pub fn bid_for_item(&mut self, caller: Identity, item_id: u64, amount: u64) -> (r: Result<String, AuctionError>)
        requires
            old(self)@.wf(),
        ensures
            final(self)@.wf(),
            match old(self)@.bid_refusal(caller@, item_id, amount) {
                Some(e) => r == Err::<String, AuctionError>(e) && final(self)@ == old(self)@,
                None => r is Ok && r->Ok_0@ == BID_PLACED@ && final(self)@ == old(self)@.bid_placed(
                    caller@,
                    item_id,
                    amount,
                ),
            },
    {
        if item_id >= self.next_item_id {
            return Err(AuctionError::NotFound);
        }
        let len = self.items.len();
        assert(self@.items.len() == len);
        assert(item_id < len);
        let i = item_id as usize;
        assert(self.items@[i as int]@ == self@.items[item_id as int]);
        if !self.items[i].active {
            return Err(AuctionError::InactiveAuction);
        }
        if self.items[i].owner.same_as(&caller) {
            return Err(AuctionError::SelfBid);
        }
        if amount <= self.items[i].current_highest_bid {
            return Err(AuctionError::BidTooLow);
        }
        let ghost old_ledger = self@.bids[i as int];
        assert(ledger_view(self.item_bids@[i as int]) == old_ledger);
        let pos = find_bid(&self.item_bids[i], &caller);
        let bid = Bid { bidder: caller.duplicate(), amount };
        let ghost bv = bid@;
        match pos {
            Some(j) => {
                assert(old_ledger[j as int].bidder == bv.bidder);
                self.item_bids[i][j] = bid;
                proof {
                    let k = choose|k: int| 0 <= k < old_ledger.len() && #[trigger] old_ledger[k].bidder == bv.bidder;
                    assert(old_ledger[j as int].bidder == bv.bidder);
                    assert(k == j);
                }
                assert(ledger_view(self.item_bids@[i as int]) =~= upsert_bid(old_ledger, bv));
            },
            None => {
                self.item_bids[i].push(bid);
                assert(ledger_view(self.item_bids@[i as int]) =~= upsert_bid(old_ledger, bv));
            },
        }
        self.items[i].current_highest_bid = amount;
        self.items[i].highest_bidder = Some(caller);
        let ghost want = old(self)@.bid_placed(caller@, item_id, amount);
        assert(self@.items =~= want.items);
        assert(self@.bids =~= want.bids);
        proof {
            lemma_bid_keeps_wf(old(self)@, caller@, item_id, amount);
        }
        Ok(BID_PLACED.to_owned())
    }

    /// The index of an existing item.
    fn position(&self, item_id: u64) -> (r: Option<usize>)
        requires
            self@.wf(),
        ensures
            match r {
                Some(i) => i == item_id && i < self.items@.len() && i < self.item_bids@.len()
                    && self.items@[i as int]@ == self@.items[i as int]
                    && ledger_view(self.item_bids@[i as int]) == self@.bids[i as int],
                None => item_id >= self@.items.len(),
            },
    {
        let len = self.items.len();
        assert(self@.items.len() == len);
        assert(self@.bids.len() == self.item_bids@.len());
        if item_id >= self.next_item_id {
            return None;
        }
        assert(item_id < len);
        Some(item_id as usize)
    }

    /// Replaces the name and/or description of an active item; only its
    /// owner may do so. Fields given as `None` keep their value.
    pub fn update_listing(
        &mut self,
        caller: Identity,
        item_id: u64,
        new_name: Option<String>,
        new_description: Option<String>,
    ) -> (r: Result<String, AuctionError>)
        requires
            old(self)@.wf(),
        ensures
            final(self)@.wf(),
            match old(self)@.owner_refusal(caller@, item_id, AuctionError::InactiveAuction) {
                Some(e) => r == Err::<String, AuctionError>(e) && final(self)@ == old(self)@,
                None => r is Ok && r->Ok_0@ == LISTING_UPDATED@ && final(self)@ == old(self)@.updated(
                    item_id,
                    text_opt_view(new_name),
                    text_opt_view(new_description),
                ),
            },
    {
        let i = match self.position(item_id) {
            Some(i) => i,
            None => {
                return Err(AuctionError::NotFound);
            },
        };
        if !self.items[i].owner.same_as(&caller) {
            return Err(AuctionError::NotOwner);
        }
        if !self.items[i].active {
            return Err(AuctionError::InactiveAuction);
        }
        let ghost want = old(self)@.updated(item_id, text_opt_view(new_name), text_opt_view(new_description));
        match new_name {
            Some(n) => {
                self.items[i].name = n;
            },
            None => {},
        }
        match new_description {
            Some(d) => {
                self.items[i].description = d;
            },
            None => {},
        }
        assert(self@.items =~= want.items);
        assert(self@.bids =~= want.bids);
        proof {
            lemma_updated_keeps_wf(old(self)@, item_id, text_opt_view(new_name), text_opt_view(new_description));
        }
        Ok(LISTING_UPDATED.to_owned())
    }

    /// Closes the auction of an active item; only its owner may do so. The
    /// highest bidder at this instant, if any, becomes the new owner.
    pub fn stop_listing(&mut self, caller: Identity, item_id: u64) -> (r: Result<String, AuctionError>)
        requires
            old(self)@.wf(),
        ensures
            final(self)@.wf(),
            match old(self)@.owner_refusal(caller@, item_id, AuctionError::AlreadyStopped) {
                Some(e) => r == Err::<String, AuctionError>(e) && final(self)@ == old(self)@,
                None => r is Ok && r->Ok_0@ == LISTING_STOPPED@ && final(self)@ == old(self)@.stopped(
                    item_id,
                ),
            },
    {
        let i = match self.position(item_id) {
            Some(i) => i,
            None => {
                return Err(AuctionError::NotFound);
            },
        };
        if !self.items[i].owner.same_as(&caller) {
            return Err(AuctionError::NotOwner);
        }
        if !self.items[i].active {
            return Err(AuctionError::AlreadyStopped);
        }
        let new_owner = duplicate_opt(&self.items[i].highest_bidder);
        self.items[i].active = false;
        self.items[i].new_owner = new_owner;
        let ghost want = old(self)@.stopped(item_id);
        assert(self@.items =~= want.items);
        assert(self@.bids =~= want.bids);
        proof {
            lemma_stopped_keeps_wf(old(self)@, item_id);
        }
        Ok(LISTING_STOPPED.to_owned())
    }

    /// A copy of the item with the given id, if it exists.
    pub fn get_item(&self, item_id: u64) -> (r: Option<Item>)
        requires
            self@.wf(),
        ensures
            match r {
                Some(it) => item_id < self@.items.len() && it@ == self@.items[item_id as int],
                None => item_id >= self@.items.len(),
            },
    {
        match self.position(item_id) {
            Some(i) => Some(self.items[i].duplicate()),
            None => None,
        }
    }

    /// Copies of all items, in id order.
    pub fn list_all_items(&self) -> (r: Vec<Item>)
        requires
            self@.wf(),
        ensures
            item_views(r@) == self@.items,
    {
        let mut r: Vec<Item> = Vec::new();
        let mut i: usize = 0;
        while i < self.items.len()
            invariant
                0 <= i <= self.items@.len(),
                item_views(r@) =~= self@.items.subrange(0, i as int),
            decreases self.items@.len() - i,
        {
            assert(self@.items[i as int] == self.items@[i as int]@);
            let ghost prev = r@;
            let it = self.items[i].duplicate();
            r.push(it);
            assert(r@ == prev.push(it));
            assert(item_views(r@) =~= item_views(prev).push(it@));
            i = i + 1;
            assert(item_views(r@) =~= self@.items.subrange(0, i as int));
        }
        assert(self@.items.subrange(0, i as int) =~= self@.items);
        r
    }

    /// The number of items ever listed.
    pub fn get_listed_items_count(&self) -> (r: u64)
        requires
            self@.wf(),
        ensures
            r == self@.items.len(),
    {
        self.next_item_id
    }

    /// Among the stopped items that went to a new owner, the one with the
    /// highest closing bid; the first such item in id order on a tie.
    pub fn get_most_expensive_sold_item(&self) -> (r: Option<Item>)
        requires
            self@.wf(),
        ensures
            match r {
                Some(it) => exists|i: int| is_top_sold(self@.items, i) && it@ == self@.items[i],
                None => forall|i: int| 0 <= i < self@.items.len() ==> !sold(#[trigger] self@.items[i]),
            },
    {
        let ghost v = self@.items;
        let mut best: Option<usize> = None;
        let mut j: usize = 0;
        while j < self.items.len()
            invariant
                0 <= j <= self.items@.len(),
                v == self@.items,
                v.len() == self.items@.len(),
                forall|k: int| 0 <= k < v.len() ==> #[trigger] v[k] == self.items@[k]@,
                match best {
                    Some(b) => b < j && sold(v[b as int]) && (forall|k: int|
                        0 <= k < j && sold(#[trigger] v[k]) ==> v[k].current_highest_bid
                            <= v[b as int].current_highest_bid) && (forall|k: int|
                        0 <= k < b && sold(#[trigger] v[k]) ==> v[k].current_highest_bid
                            < v[b as int].current_highest_bid),
                    None => forall|k: int| 0 <= k < j ==> !sold(#[trigger] v[k]),
                },
            decreases self.items@.len() - j,
        {
            assert(v[j as int] == self.items@[j as int]@);
            if !self.items[j].active && self.items[j].new_owner.is_some() {
                match best {
                    Some(b) => {
                        assert(v[b as int] == self.items@[b as int]@);
                        if self.items[j].current_highest_bid > self.items[b].current_highest_bid {
                            best = Some(j);
                        }
                    },
                    None => {
                        best = Some(j);
                    },
                }
            }
            j = j + 1;
        }
        match best {
            Some(b) => {
                assert(is_top_sold(v, b as int));
                Some(self.items[b].duplicate())
            },
            None => None,
        }
    }

    /// The item whose ledger holds the most entries; the first such item in
    /// id order on a tie. No item is returned when no item has a bid.
    pub fn get_item_with_most_bids(&self) -> (r: Option<Item>)
        requires
            self@.wf(),
        ensures
            match r {
                Some(it) => exists|i: int| is_most_bid(self@.bids, i) && it@ == self@.items[i],
                None => forall|i: int| 0 <= i < self@.bids.len() ==> (#[trigger] self@.bids[i]).len() == 0,
            },
    {
        let ghost b = self@.bids;
        let mut best: Option<usize> = None;
        let mut max_bids: usize = 0;
        let mut j: usize = 0;
        assert(b.len() == self.items@.len());
        while j < self.items.len()
            invariant
                0 <= j <= self.items@.len(),
                b == self@.bids,
                self@.wf(),
                b.len() == self.items@.len(),
                b.len() == self.item_bids@.len(),
                forall|k: int| 0 <= k < b.len() ==> #[trigger] b[k] == ledger_view(self.item_bids@[k]),
                match best {
                    Some(m) => m < j && max_bids == b[m as int].len() && max_bids > 0 && (forall|k: int|
                        0 <= k < j ==> (#[trigger] b[k]).len() <= max_bids) && (forall|k: int|
                        0 <= k < m ==> (#[trigger] b[k]).len() < max_bids),
                    None => max_bids == 0 && forall|k: int| 0 <= k < j ==> (#[trigger] b[k]).len() == 0,
                },
            decreases self.items@.len() - j,
        {
            assert(b[j as int] == ledger_view(self.item_bids@[j as int]));
            let count = self.item_bids[j].len();
            if count > max_bids {
                max_bids = count;
                best = Some(j);
            }
            j = j + 1;
        }
        match best {
            Some(m) => {
                assert(is_most_bid(b, m as int));
                assert(self.items@[m as int]@ == self@.items[m as int]);
                Some(self.items[m].duplicate())
            },
            None => None,
        }
    }

    /// Copies of the entries of an item's ledger, in ledger order; empty
    /// when the item does not exist.
    pub fn get_bids_for_item(&self, item_id: u64) -> (r: Vec<Bid>)
        requires
            self@.wf(),
        ensures
            item_id < self@.items.len() ==> ledger_view(r) == self@.bids[item_id as int],
            item_id >= self@.items.len() ==> r@.len() == 0,
    {
        let mut r: Vec<Bid> = Vec::new();
        let i = match self.position(item_id) {
            Some(i) => i,
            None => {
                return r;
            },
        };
        let l = &self.item_bids[i];
        let mut k: usize = 0;
        while k < l.len()
            invariant
                0 <= k <= l@.len(),
                ledger_view(r) =~= ledger_view(*l).subrange(0, k as int),
            decreases l@.len() - k,
        {
            assert(ledger_view(*l)[k as int] == l@[k as int]@);
            let ghost prev = r;
            let b = l[k].duplicate();
            r.push(b);
            assert(ledger_view(r) =~= ledger_view(prev).push(b@));
            k = k + 1;
            assert(ledger_view(r) =~= ledger_view(*l).subrange(0, k as int));
        }
        assert(ledger_view(*l).subrange(0, k as int) =~= ledger_view(*l));
        r
    }

    /// The ledger entry of the item's current highest bidder: present exactly
    /// when the item exists and has one, and it holds the current highest bid.
    pub fn get_highest_bid_for_item(&self, item_id: u64) -> (r: Option<Bid>)
        requires
            self@.wf(),
        ensures
            match r {
                Some(bid) => item_id < self@.items.len() && self@.items[item_id as int].highest_bidder
                    == Some(bid@.bidder) && bid@.amount == self@.items[item_id as int].current_highest_bid
                    && self@.bids[item_id as int].contains(bid@),
                None => item_id >= self@.items.len() || self@.items[item_id as int].highest_bidder is None,
            },
    {
        let i = match self.position(item_id) {
            Some(i) => i,
            None => {
                return None;
            },
        };
        let ghost lv = self@.bids[i as int];
        let ghost it = self@.items[i as int];
        assert(item_consistent(it, lv));
        match &self.items[i].highest_bidder {
            Some(h) => match find_bid(&self.item_bids[i], h) {
                Some(j) => {
                    let bid = self.item_bids[i][j].duplicate();
                    assert(lv[j as int] == bid@);
                    proof {
                        let t = choose|t: int|
                            0 <= t < lv.len() && lv[t] == BidView { bidder: h@, amount: it.current_highest_bid };
                        assert(lv[t].bidder == lv[j as int].bidder);
                    }
                    Some(bid)
                },
                None => {
                    proof {
                        let t = choose|t: int|
                            0 <= t < lv.len() && lv[t] == BidView { bidder: h@, amount: it.current_highest_bid };
                        assert(lv[t].bidder == h@);
                    }
                    None
                },
            },
            None => None,
        }
    }

    /// The whole aggregate as plain values, to be written before shutdown.
    pub fn save(&self) -> (r: Snapshot)
        requires
            self@.wf(),
        ensures
            r@ == self@,
    {
        let items = self.list_all_items();
        let mut item_bids: Vec<Vec<Bid>> = Vec::new();
        let mut i: usize = 0;
        assert(self@.bids.len() == self.item_bids@.len());
        while i < self.item_bids.len()
            invariant
                0 <= i <= self.item_bids@.len(),
                self@.wf(),
                self@.bids.len() == self.item_bids@.len(),
                ledger_views(item_bids@) =~= self@.bids.subrange(0, i as int),
            decreases self.item_bids@.len() - i,
        {
            let ghost prev = item_bids@;
            let l = self.get_bids_for_item(i as u64);
            item_bids.push(l);
            assert(ledger_views(item_bids@) =~= ledger_views(prev).push(ledger_view(l)));
            i = i + 1;
        }
        assert(self@.bids.subrange(0, i as int) =~= self@.bids);
        Snapshot { items, item_bids, next_item_id: self.next_item_id }
    }

    /// The store that a snapshot describes, if it is consistent: ids equal
    /// positions, the counter equals the number of items, each item has one
    /// ledger, and each ledger holds one entry per bidder.
    pub fn restore(snap: Snapshot) -> (r: Result<AuctionStore, AuctionError>)
        ensures
            match r {
                Ok(s) => snap@.restored() == Ok::<StoreView, AuctionError>(s@),
                Err(e) => snap@.restored() == Err::<StoreView, AuctionError>(e),
            },
    {
        let n = snap.items.len();
        if n as u64 != snap.next_item_id || snap.item_bids.len() != n {
            return Err(AuctionError::PersistenceDecodeFailure);
        }
        let mut i: usize = 0;
        while i < n
            invariant
                n == snap.items@.len(),
                n == snap.item_bids@.len(),
                0 <= i <= n,
                forall|k: int| 0 <= k < i ==> (#[trigger] snap@.items[k]).id == k,
                forall|k: int| 0 <= k < i ==> bidders_unique(#[trigger] snap@.bids[k]),
                forall|k: int| 0 <= k < i ==> item_consistent(#[trigger] snap@.items[k], snap@.bids[k]),
            decreases n - i,
        {
            assert(snap@.items[i as int] == snap.items@[i as int]@);
            assert(snap@.bids[i as int] == ledger_view(snap.item_bids@[i as int]));
            if snap.items[i].id != i as u64 || !unique_bidders(&snap.item_bids[i]) || !item_is_consistent(
                &snap.items[i],
                &snap.item_bids[i],
            ) {
                return Err(AuctionError::PersistenceDecodeFailure);
            }
            i = i + 1;
        }
        let s = AuctionStore { items: snap.items, item_bids: snap.item_bids, next_item_id: snap.next_item_id };
        Ok(s)
    }
}

} // verus!
