use vstd::prelude::*;

use crate::error::AuctionError;
use crate::store::{
    lemma_bid_keeps_wf, lemma_listed_keeps_wf, lemma_stopped_keeps_wf, lemma_updated_keeps_wf, StoreView,
};

verus! {

/// One operation on the aggregate, with the caller's identity where the
/// operation takes one.
pub ghost enum Action {
    List { caller: Seq<u8>, name: Seq<char>, description: Seq<char> },
    Bid { caller: Seq<u8>, item_id: u64, amount: u64 },
    Update {
        caller: Seq<u8>,
        item_id: u64,
        new_name: Option<Seq<char>>,
        new_description: Option<Seq<char>>,
    },
    Stop { caller: Seq<u8>, item_id: u64 },
    /// A snapshot is saved and restored across a restart.
    SaveRestore,
}

/// The aggregate after one action, as the operations' contracts give it: a
/// refused operation leaves it unchanged, and no listing is made once the
/// counter has reached its largest value.
pub open spec fn step(v: StoreView, a: Action) -> StoreView {
    match a {
        Action::List { caller, name, description } => if v.next_item_id < u64::MAX {
            v.listed(caller, name, description)
        } else {
            v
        },
        Action::Bid { caller, item_id, amount } => if v.bid_refusal(caller, item_id, amount) is None {
            v.bid_placed(caller, item_id, amount)
        } else {
            v
        },
        Action::Update { caller, item_id, new_name, new_description } => if v.owner_refusal(
            caller,
            item_id,
            AuctionError::InactiveAuction,
        ) is None {
            v.updated(item_id, new_name, new_description)
        } else {
            v
        },
        Action::Stop { caller, item_id } => if v.owner_refusal(
            caller,
            item_id,
            AuctionError::AlreadyStopped,
        ) is None {
            v.stopped(item_id)
        } else {
            v
        },
        Action::SaveRestore => match v.restored() {
            Ok(w) => w,
            Err(_) => v,
        },
    }
}

/// The aggregate after a sequence of actions.
pub open spec fn run(v: StoreView, acts: Seq<Action>) -> StoreView
    decreases acts.len(),
{
    if acts.len() == 0 {
        v
    } else {
        step(run(v, acts.drop_last()), acts.last())
    }
}

/// The amounts of the bids that were accepted, in order.
pub open spec fn accepted_amounts(v: StoreView, acts: Seq<Action>) -> Seq<u64>
    decreases acts.len(),
{
    if acts.len() == 0 {
        Seq::empty()
    } else {
        let before = accepted_amounts(v, acts.drop_last());
        let w = run(v, acts.drop_last());
        match acts.last() {
            Action::Bid { caller, item_id, amount } => if w.bid_refusal(caller, item_id, amount) is None {
                before.push(amount)
            } else {
                before
            },
            _ => before,
        }
    }
}

/// Every action keeps the aggregate consistent.
pub proof fn lemma_step_keeps_wf(v: StoreView, a: Action)
    requires
        v.wf(),
    ensures
        step(v, a).wf(),
{
    match a {
        Action::List { caller, name, description } => {
            if v.next_item_id < u64::MAX {
                lemma_listed_keeps_wf(v, caller, name, description);
            }
        },
        Action::Bid { caller, item_id, amount } => {
            if v.bid_refusal(caller, item_id, amount) is None {
                lemma_bid_keeps_wf(v, caller, item_id, amount);
            }
        },
        Action::Update { caller, item_id, new_name, new_description } => {
            if v.owner_refusal(caller, item_id, AuctionError::InactiveAuction) is None {
                lemma_updated_keeps_wf(v, item_id, new_name, new_description);
            }
        },
        Action::Stop { caller, item_id } => {
            if v.owner_refusal(caller, item_id, AuctionError::AlreadyStopped) is None {
                lemma_stopped_keeps_wf(v, item_id);
            }
        },
        Action::SaveRestore => {},
    }
}

/// Every aggregate reached from a consistent one is consistent.
pub proof fn lemma_run_keeps_wf(v: StoreView, acts: Seq<Action>)
    requires
        v.wf(),
    ensures
        run(v, acts).wf(),
    decreases acts.len(),
{
    if acts.len() > 0 {
        lemma_run_keeps_wf(v, acts.drop_last());
        lemma_step_keeps_wf(run(v, acts.drop_last()), acts.last());
    }
}

/// Restoring the snapshot of any aggregate reachable from an empty store
/// gives back that same aggregate: all items, all ledgers and the counter.
pub proof fn lemma_restore_of_save(acts: Seq<Action>)
    ensures
        run(StoreView::empty(), acts).restored() == Ok::<StoreView, AuctionError>(
            run(StoreView::empty(), acts),
        ),
{
    lemma_run_keeps_wf(StoreView::empty(), acts);
}

/// An owner's bid on their own item is never accepted, whatever state the
/// item is in; while the item is active it is refused as a self-bid.
pub proof fn lemma_self_bid_refused(v: StoreView, item_id: u64, amount: u64)
    requires
        item_id < v.items.len(),
    ensures
        v.bid_refusal(v.items[item_id as int].owner, item_id, amount) is Some,
        v.items[item_id as int].active ==> v.bid_refusal(v.items[item_id as int].owner, item_id, amount)
            == Some(AuctionError::SelfBid),
{
}

/// Once the owner has stopped a listing, stopping it again is refused as
/// already stopped and changes nothing: the item stays inactive with the
/// new owner fixed by the first stop.
pub proof fn lemma_second_stop_refused(v: StoreView, caller: Seq<u8>, item_id: u64)
    requires
        v.owner_refusal(caller, item_id, AuctionError::AlreadyStopped) is None,
    ensures
        v.stopped(item_id).owner_refusal(caller, item_id, AuctionError::AlreadyStopped) == Some(
            AuctionError::AlreadyStopped,
        ),
        step(
            step(v, Action::Stop { caller, item_id }),
            Action::Stop { caller, item_id },
        ) == step(v, Action::Stop { caller, item_id }),
        !step(v, Action::Stop { caller, item_id }).items[item_id as int].active,
        step(v, Action::Stop { caller, item_id }).items[item_id as int].new_owner
            == v.items[item_id as int].highest_bidder,
{
}

pub open spec fn is_bid_on(a: Action, item_id: u64) -> bool {
    a matches Action::Bid { item_id: id, .. } && id == item_id
}

pub open spec fn top_bid(v: StoreView, item_id: u64) -> u64 {
    v.items[item_id as int].current_highest_bid
}

/// Bids on one item: the item count stays, and the highest bid is the last
/// accepted amount (the starting one while none was accepted) and at least
/// every accepted amount.
pub proof fn lemma_bids_on_item(v: StoreView, item_id: u64, acts: Seq<Action>)
    requires
        item_id < v.items.len(),
        forall|k: int| 0 <= k < acts.len() ==> is_bid_on(#[trigger] acts[k], item_id),
    ensures
        run(v, acts).items.len() == v.items.len(),
        top_bid(v, item_id) <= top_bid(run(v, acts), item_id),
        forall|k: int| 0 <= k < accepted_amounts(v, acts).len() ==> #[trigger] accepted_amounts(v, acts)[k]
            <= top_bid(run(v, acts), item_id),
        accepted_amounts(v, acts).len() > 0 ==> top_bid(run(v, acts), item_id) == accepted_amounts(
            v,
            acts,
        ).last(),
        accepted_amounts(v, acts).len() == 0 ==> top_bid(run(v, acts), item_id) == top_bid(v, item_id),
    decreases acts.len(),
{
    if acts.len() > 0 {
        let front = acts.drop_last();
        assert forall|k: int| 0 <= k < front.len() implies is_bid_on(#[trigger] front[k], item_id) by {
            assert(front[k] == acts[k]);
        }
        lemma_bids_on_item(v, item_id, front);
        assert(is_bid_on(acts[acts.len() - 1], item_id));
    }
}

/// Along bids on one item the highest bid never decreases.
pub proof fn lemma_top_bid_monotone(v: StoreView, item_id: u64, acts: Seq<Action>, i: int, j: int)
    requires
        item_id < v.items.len(),
        forall|k: int| 0 <= k < acts.len() ==> is_bid_on(#[trigger] acts[k], item_id),
        0 <= i <= j <= acts.len(),
    ensures
        top_bid(run(v, acts.take(i)), item_id) <= top_bid(run(v, acts.take(j)), item_id),
    decreases j - i,
{
    if i < j {
        lemma_top_bid_monotone(v, item_id, acts, i, j - 1);
        let pre = acts.take(j - 1);
        assert(acts.take(j).drop_last() =~= pre);
        assert forall|k: int| 0 <= k < pre.len() implies is_bid_on(#[trigger] pre[k], item_id) by {
            assert(pre[k] == acts[k]);
        }
        lemma_bids_on_item(v, item_id, pre);
        assert(is_bid_on(acts[j - 1], item_id));
    }
}

/// For any sequence of bids on one item, its highest bid never decreases,
/// and once a bid was accepted it equals the largest accepted amount.
pub proof fn lemma_highest_bid_is_max_accepted(v: StoreView, item_id: u64, acts: Seq<Action>)
    requires
        item_id < v.items.len(),
        forall|k: int| 0 <= k < acts.len() ==> is_bid_on(#[trigger] acts[k], item_id),
    ensures
        forall|i: int, j: int|
            0 <= i <= j <= acts.len() ==> top_bid(run(v, #[trigger] acts.take(i)), item_id) <= top_bid(
                run(v, #[trigger] acts.take(j)),
                item_id,
            ),
        accepted_amounts(v, acts).len() > 0 ==> accepted_amounts(v, acts).contains(
            top_bid(run(v, acts), item_id),
        ),
        forall|k: int| 0 <= k < accepted_amounts(v, acts).len() ==> #[trigger] accepted_amounts(v, acts)[k]
            <= top_bid(run(v, acts), item_id),
{
    assert forall|i: int, j: int| 0 <= i <= j <= acts.len() implies top_bid(
        run(v, #[trigger] acts.take(i)),
        item_id,
    ) <= top_bid(run(v, #[trigger] acts.take(j)), item_id) by {
        lemma_top_bid_monotone(v, item_id, acts, i, j);
    }
    lemma_bids_on_item(v, item_id, acts);
    let acc = accepted_amounts(v, acts);
    if acc.len() > 0 {
        assert(acc[acc.len() - 1] == acc.last());
    }
}

/// No action lowers the id counter, and a listing raises it by one.
pub proof fn lemma_counter_monotone(v: StoreView, acts: Seq<Action>, i: int, j: int)
    requires
        0 <= i <= j <= acts.len(),
    ensures
        run(v, acts.take(i)).next_item_id <= run(v, acts.take(j)).next_item_id,
        i < j && acts[i] is List && run(v, acts.take(i)).next_item_id < u64::MAX ==> run(
            v,
            acts.take(i),
        ).next_item_id < run(v, acts.take(j)).next_item_id,
    decreases j - i,
{
    if i < j {
        lemma_counter_monotone(v, acts, i, j - 1);
        assert(acts.take(j).drop_last() =~= acts.take(j - 1));
        if i == j - 1 {
            assert(acts.take(j).last() == acts[i]);
        }
    }
}

/// Listings never hand out an id twice: the id of a listing is the counter
/// just before it, and a later listing sees a larger counter, whatever
/// actions, saves and restores come between.
pub proof fn lemma_ids_never_repeat(v: StoreView, acts: Seq<Action>, i: int, j: int)
    requires
        0 <= i < j < acts.len(),
        acts[i] is List,
        acts[j] is List,
        run(v, acts.take(i)).next_item_id < u64::MAX,
    ensures
        run(v, acts.take(i)).next_item_id != run(v, acts.take(j)).next_item_id,
{
    lemma_counter_monotone(v, acts, i, j);
}

} // verus!
