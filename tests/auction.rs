use auction_contract_backend::entity::{Bid, Item};
use auction_contract_backend::error::AuctionError;
use auction_contract_backend::identity::Identity;
use auction_contract_backend::snapshot::{contains_text, resume, Snapshot};
use auction_contract_backend::store::{AuctionStore, BID_PLACED, LISTING_STOPPED, LISTING_UPDATED};

fn who(b: u8) -> Identity {
    Identity::from_bytes(vec![b, 7, b])
}

fn o1() -> Identity {
    who(1)
}

fn b1() -> Identity {
    who(11)
}

fn b2() -> Identity {
    who(12)
}

fn list(s: &mut AuctionStore, owner: Identity, name: &str) -> u64 {
    s.list_item(owner, name.to_string(), format!("a {}", name))
}

fn bytes(p: &Option<Identity>) -> Option<Vec<u8>> {
    p.as_ref().map(|i| i.bytes.clone())
}

#[test]
fn scenario_vase_bids() {
    let mut s = AuctionStore::new();
    assert_eq!(list(&mut s, o1(), "Vase"), 0);
    assert_eq!(s.bid_for_item(b1(), 0, 10), Ok(BID_PLACED.to_string()));
    assert_eq!(s.bid_for_item(b1(), 0, 10), Err(AuctionError::BidTooLow));
    assert_eq!(s.bid_for_item(b2(), 0, 15), Ok(BID_PLACED.to_string()));
    let it = s.get_item(0).unwrap();
    assert_eq!(it.current_highest_bid, 15);
    assert_eq!(bytes(&it.highest_bidder), Some(b2().bytes));
}

#[test]
fn scenario_self_bid() {
    let mut s = AuctionStore::new();
    assert_eq!(list(&mut s, o1(), "Lamp"), 0);
    assert_eq!(s.bid_for_item(o1(), 0, 50), Err(AuctionError::SelfBid));
    assert_eq!(s.get_item(0).unwrap().current_highest_bid, 0);
    assert!(s.get_bids_for_item(0).is_empty());
}

#[test]
fn scenario_stop_transfers_to_highest_bidder() {
    let mut s = AuctionStore::new();
    list(&mut s, o1(), "Clock");
    assert!(s.bid_for_item(b1(), 0, 10).is_ok());
    assert!(s.bid_for_item(b2(), 0, 15).is_ok());
    assert_eq!(s.stop_listing(o1(), 0), Ok(LISTING_STOPPED.to_string()));
    let it = s.get_item(0).unwrap();
    assert!(!it.active);
    assert_eq!(bytes(&it.new_owner), Some(b2().bytes));
    assert_eq!(s.bid_for_item(b1(), 0, 100), Err(AuctionError::InactiveAuction));
}

#[test]
fn scenario_restore_without_snapshot() {
    let s = resume(Err("stable memory is empty".to_string())).unwrap();
    assert_eq!(s.get_listed_items_count(), 0);
    assert_eq!(s.next_item_id(), 0);
    let s = resume(Err("Deserialize error: empty_stream at byte 0".to_string())).unwrap();
    assert_eq!(s.get_listed_items_count(), 0);
}

#[test]
fn restore_fails_on_other_decode_error() {
    let r = resume(Err("wrong magic number".to_string()));
    assert_eq!(r.err(), Some(AuctionError::PersistenceDecodeFailure));
}

#[test]
fn restore_rejects_inconsistent_snapshot() {
    let mut s = AuctionStore::new();
    list(&mut s, o1(), "Bowl");
    let mut snap = s.save();
    snap.next_item_id = 5;
    assert_eq!(AuctionStore::restore(snap).err(), Some(AuctionError::PersistenceDecodeFailure));
    let mut snap = s.save();
    snap.items[0].id = 3;
    assert_eq!(AuctionStore::restore(snap).err(), Some(AuctionError::PersistenceDecodeFailure));
    let mut snap = s.save();
    snap.item_bids[0].push(Bid { bidder: b1(), amount: 4 });
    snap.item_bids[0].push(Bid { bidder: b1(), amount: 5 });
    assert_eq!(resume(Ok(snap)).err(), Some(AuctionError::PersistenceDecodeFailure));
}

#[test]
fn restore_rejects_owner_bid_in_ledger() {
    let mut s = AuctionStore::new();
    list(&mut s, o1(), "Bowl");
    let mut snap = s.save();
    snap.items[0].current_highest_bid = 4;
    snap.items[0].highest_bidder = Some(o1());
    snap.item_bids[0].push(Bid { bidder: o1(), amount: 4 });
    assert_eq!(AuctionStore::restore(snap).err(), Some(AuctionError::PersistenceDecodeFailure));
}

#[test]
fn restore_rejects_highest_bidder_without_entry() {
    let mut s = AuctionStore::new();
    list(&mut s, o1(), "Bowl");
    s.bid_for_item(b1(), 0, 6).unwrap();
    let mut snap = s.save();
    snap.items[0].highest_bidder = Some(b2());
    assert_eq!(AuctionStore::restore(snap).err(), Some(AuctionError::PersistenceDecodeFailure));
    let mut snap = s.save();
    snap.items[0].current_highest_bid = 9;
    assert_eq!(AuctionStore::restore(snap).err(), Some(AuctionError::PersistenceDecodeFailure));
    let mut snap = s.save();
    snap.items[0].active = false;
    assert_eq!(AuctionStore::restore(snap).err(), Some(AuctionError::PersistenceDecodeFailure));
    assert!(AuctionStore::restore(s.save()).is_ok());
}

#[test]
fn save_restore_round_trip() {
    let mut s = AuctionStore::new();
    list(&mut s, o1(), "Vase");
    list(&mut s, b1(), "Rug");
    s.bid_for_item(b1(), 0, 3).unwrap();
    s.bid_for_item(b2(), 0, 8).unwrap();
    s.bid_for_item(o1(), 1, 2).unwrap();
    s.stop_listing(o1(), 0).unwrap();
    let snap = s.save();
    let r = resume(Ok(snap.clone())).unwrap();
    assert_eq!(r.next_item_id(), 2);
    let a = s.list_all_items();
    let b = r.list_all_items();
    assert_eq!(a.len(), b.len());
    for (x, y) in a.iter().zip(b.iter()) {
        assert_eq!(x.id, y.id);
        assert_eq!(x.owner.bytes, y.owner.bytes);
        assert_eq!(x.name, y.name);
        assert_eq!(x.description, y.description);
        assert_eq!(x.current_highest_bid, y.current_highest_bid);
        assert_eq!(bytes(&x.highest_bidder), bytes(&y.highest_bidder));
        assert_eq!(x.active, y.active);
        assert_eq!(bytes(&x.new_owner), bytes(&y.new_owner));
    }
    for id in 0..2u64 {
        let p: Vec<(Vec<u8>, u64)> = s.get_bids_for_item(id).iter().map(|b| (b.bidder.bytes.clone(), b.amount)).collect();
        let q: Vec<(Vec<u8>, u64)> = r.get_bids_for_item(id).iter().map(|b| (b.bidder.bytes.clone(), b.amount)).collect();
        assert_eq!(p, q);
    }
}

#[test]
fn ids_are_not_reused_after_restore() {
    let mut s = AuctionStore::new();
    assert_eq!(list(&mut s, o1(), "A"), 0);
    assert_eq!(list(&mut s, o1(), "B"), 1);
    let mut r = AuctionStore::restore(s.save()).unwrap();
    assert_eq!(list(&mut r, b1(), "C"), 2);
    assert_eq!(r.get_listed_items_count(), 3);
}

#[test]
fn highest_bid_never_decreases() {
    let mut s = AuctionStore::new();
    list(&mut s, o1(), "Vase");
    let mut last = 0;
    for (who_b, amount) in [(11u8, 5u64), (12, 4), (13, 9), (11, 9), (12, 20), (13, 1)] {
        let r = s.bid_for_item(who(who_b), 0, amount);
        let top = s.get_item(0).unwrap().current_highest_bid;
        assert!(top >= last);
        if r.is_ok() {
            assert_eq!(top, amount);
        }
        last = top;
    }
    assert_eq!(last, 20);
}

#[test]
fn self_bid_refused_on_stopped_item_too() {
    let mut s = AuctionStore::new();
    list(&mut s, o1(), "Vase");
    s.stop_listing(o1(), 0).unwrap();
    assert!(s.bid_for_item(o1(), 0, 5).is_err());
}

#[test]
fn second_stop_is_refused() {
    let mut s = AuctionStore::new();
    list(&mut s, o1(), "Vase");
    s.bid_for_item(b1(), 0, 7).unwrap();
    s.stop_listing(o1(), 0).unwrap();
    assert_eq!(s.stop_listing(o1(), 0), Err(AuctionError::AlreadyStopped));
    let it = s.get_item(0).unwrap();
    assert!(!it.active);
    assert_eq!(bytes(&it.new_owner), Some(b1().bytes));
}

#[test]
fn stop_without_bids_leaves_no_new_owner() {
    let mut s = AuctionStore::new();
    list(&mut s, o1(), "Vase");
    s.stop_listing(o1(), 0).unwrap();
    assert_eq!(bytes(&s.get_item(0).unwrap().new_owner), None);
    assert!(s.get_most_expensive_sold_item().is_none());
}

#[test]
fn errors_for_missing_and_foreign_items() {
    let mut s = AuctionStore::new();
    assert_eq!(s.bid_for_item(b1(), 0, 1), Err(AuctionError::NotFound));
    assert_eq!(s.stop_listing(o1(), 0), Err(AuctionError::NotFound));
    assert_eq!(s.update_listing(o1(), 0, None, None), Err(AuctionError::NotFound));
    list(&mut s, o1(), "Vase");
    assert_eq!(s.stop_listing(b1(), 0), Err(AuctionError::NotOwner));
    assert_eq!(s.update_listing(b1(), 0, Some("x".to_string()), None), Err(AuctionError::NotOwner));
    assert!(s.get_item(1).is_none());
    assert!(s.get_bids_for_item(4).is_empty());
    assert!(s.get_highest_bid_for_item(9).is_none());
}

#[test]
fn update_changes_only_given_fields() {
    let mut s = AuctionStore::new();
    list(&mut s, o1(), "Vase");
    assert_eq!(s.update_listing(o1(), 0, Some("Urn".to_string()), None), Ok(LISTING_UPDATED.to_string()));
    let it = s.get_item(0).unwrap();
    assert_eq!(it.name, "Urn");
    assert_eq!(it.description, "a Vase");
    s.update_listing(o1(), 0, None, Some("old urn".to_string())).unwrap();
    let it: Item = s.get_item(0).unwrap();
    assert_eq!(it.name, "Urn");
    assert_eq!(it.description, "old urn");
    s.stop_listing(o1(), 0).unwrap();
    assert_eq!(s.update_listing(o1(), 0, Some("Jar".to_string()), None), Err(AuctionError::InactiveAuction));
    assert_eq!(s.get_item(0).unwrap().name, "Urn");
}

#[test]
fn ledger_keeps_latest_bid_per_bidder() {
    let mut s = AuctionStore::new();
    list(&mut s, o1(), "Vase");
    s.bid_for_item(b1(), 0, 10).unwrap();
    s.bid_for_item(b2(), 0, 15).unwrap();
    s.bid_for_item(b1(), 0, 30).unwrap();
    let bids = s.get_bids_for_item(0);
    assert_eq!(bids.len(), 2);
    assert_eq!(bids[0].bidder.bytes, b1().bytes);
    assert_eq!(bids[0].amount, 30);
    assert_eq!(bids[1].amount, 15);
    let top = s.get_highest_bid_for_item(0).unwrap();
    assert_eq!(top.bidder.bytes, b1().bytes);
    assert_eq!(top.amount, 30);
}

#[test]
fn most_expensive_sold_item_first_on_tie() {
    let mut s = AuctionStore::new();
    for n in ["A", "B", "C", "D"] {
        list(&mut s, o1(), n);
    }
    s.bid_for_item(b1(), 0, 5).unwrap();
    s.bid_for_item(b1(), 1, 9).unwrap();
    s.bid_for_item(b2(), 2, 9).unwrap();
    s.bid_for_item(b2(), 3, 50).unwrap();
    assert!(s.get_most_expensive_sold_item().is_none());
    s.stop_listing(o1(), 0).unwrap();
    s.stop_listing(o1(), 2).unwrap();
    s.stop_listing(o1(), 1).unwrap();
    assert_eq!(s.get_most_expensive_sold_item().unwrap().id, 1);
}

#[test]
fn item_with_most_bids() {
    let mut s = AuctionStore::new();
    list(&mut s, o1(), "A");
    list(&mut s, o1(), "B");
    list(&mut s, o1(), "C");
    assert!(s.get_item_with_most_bids().is_none());
    s.bid_for_item(b1(), 1, 1).unwrap();
    s.bid_for_item(b2(), 1, 2).unwrap();
    s.bid_for_item(b1(), 2, 1).unwrap();
    s.bid_for_item(b2(), 2, 2).unwrap();
    s.bid_for_item(b1(), 0, 1).unwrap();
    assert_eq!(s.get_item_with_most_bids().unwrap().id, 1);
    s.bid_for_item(who(40), 2, 3).unwrap();
    assert_eq!(s.get_item_with_most_bids().unwrap().id, 2);
}

#[test]
fn list_all_in_id_order_and_count() {
    let mut s = AuctionStore::new();
    assert!(s.list_all_items().is_empty());
    list(&mut s, o1(), "A");
    list(&mut s, b1(), "B");
    let all = s.list_all_items();
    assert_eq!(all.iter().map(|i| i.id).collect::<Vec<u64>>(), vec![0, 1]);
    assert_eq!(all[1].owner.bytes, b1().bytes);
    assert_eq!(s.get_listed_items_count(), 2);
}

#[test]
fn text_search() {
    assert!(contains_text("x stable memory is empty", "stable memory is empty"));
    assert!(contains_text("abc", ""));
    assert!(!contains_text("ab", "abc"));
    assert!(!contains_text("empty stream", "empty_stream"));
}

#[test]
fn identity_comparison() {
    assert!(who(3).same_as(&who(3)));
    assert!(!who(3).same_as(&who(4)));
    assert!(!Identity::from_bytes(vec![1]).same_as(&Identity::from_bytes(vec![1, 0])));
    let snap = Snapshot { items: Vec::new(), item_bids: Vec::new(), next_item_id: 0 };
    assert!(AuctionStore::restore(snap).is_ok());
}
