use vstd::prelude::*;
use vstd::string::StringSliceAdditionalSpecFns;
use vstd::utf8::encode_utf8;

use crate::entity::{Bid, Item};
use crate::error::AuctionError;
use crate::store::{item_views, ledger_view, AuctionStore, StoreView};

verus! {

/// What a failed decode reports when the durable storage holds nothing.
pub const EMPTY_MEMORY_MARKER: &'static str = "stable memory is empty";

/// What a failed decode reports when the snapshot stream is empty.
pub const EMPTY_STREAM_MARKER: &'static str = "empty_stream";

/// The whole aggregate as plain values, in the shape that is written to
/// durable storage before shutdown and read back after a restart.
#[derive(Clone, Debug)]
pub struct Snapshot {
    pub items: Vec<Item>,
    pub item_bids: Vec<Vec<Bid>>,
    pub next_item_id: u64,
}

pub open spec fn ledger_views(v: Seq<Vec<Bid>>) -> Seq<Seq<crate::entity::BidView>> {
    v.map_values(|l: Vec<Bid>| ledger_view(l))
}

impl View for Snapshot {
    type V = StoreView;

    open spec fn view(&self) -> StoreView {
        StoreView {
            items: item_views(self.items@),
            bids: ledger_views(self.item_bids@),
            next_item_id: self.next_item_id as nat,
        }
    }
}

/// `p` occurs in `s` starting at `i`.
pub open spec fn occurs_at(s: Seq<u8>, p: Seq<u8>, i: int) -> bool {
    0 <= i && i + p.len() <= s.len() && s.subrange(i, i + p.len()) == p
}

pub open spec fn contains_bytes(s: Seq<u8>, p: Seq<u8>) -> bool {
    exists|i: int| occurs_at(s, p, i)
}

/// Whether the bytes of `p` occur in those of `s`.
pub fn contains_text(s: &str, p: &str) -> (r: bool)
    ensures
        r == contains_bytes(s.spec_bytes(), p.spec_bytes()),
{
    let sb = s.as_bytes();
    let pb = p.as_bytes();
    let n = sb.len();
    let m = pb.len();
    if m > n {
        assert forall|i: int| !occurs_at(sb@, pb@, i) by {}
        return false;
    }
    let mut i: usize = 0;
    while i <= n - m
        invariant
            sb@ == s.spec_bytes(),
            pb@ == p.spec_bytes(),
            n == sb@.len(),
            m == pb@.len(),
            m <= n,
            0 <= i <= n - m + 1,
            forall|k: int| 0 <= k < i ==> !occurs_at(sb@, pb@, k),
        decreases n - m + 1 - i,
    {
        let mut j: usize = 0;
        let mut same = true;
        while j < m
            invariant
                n == sb@.len(),
                m == pb@.len(),
                i + m <= n,
                0 <= j <= m,
                same == (forall|t: int| 0 <= t < j ==> sb@[i + t] == pb@[t]),
            decreases m - j,
        {
            if sb[i + j] != pb[j] {
                same = false;
            }
            j = j + 1;
        }
        if same {
            assert(sb@.subrange(i as int, i + m) =~= pb@);
            assert(occurs_at(sb@, pb@, i as int));
            return true;
        }
        assert(!occurs_at(sb@, pb@, i as int)) by {
            if occurs_at(sb@, pb@, i as int) {
                assert forall|t: int| 0 <= t < m implies sb@[i + t] == pb@[t] by {
                    assert(sb@.subrange(i as int, i + m)[t] == sb@[i + t]);
                }
            }
        }
        i = i + 1;
    }
    false
}

/// A decode failure that only says that no snapshot was ever written.
pub open spec fn is_empty_marker(msg: Seq<char>) -> bool {
    contains_bytes(encode_utf8(msg), EMPTY_MEMORY_MARKER.spec_bytes()) || contains_bytes(
        encode_utf8(msg),
        EMPTY_STREAM_MARKER.spec_bytes(),
    )
}

/// The store after a restart, from what decoding the durable snapshot gave.
/// A decoded snapshot is restored whole; a failure that says that storage
/// is empty gives a fresh store; any other failure, or a snapshot that is
/// not a consistent aggregate, is a `PersistenceDecodeFailure`.
pub fn resume(decoded: Result<Snapshot, String>) -> (r: Result<AuctionStore, AuctionError>)
    ensures
        match decoded {
            Ok(snap) => match r {
                Ok(s) => snap@.restored() == Ok::<StoreView, AuctionError>(s@),
                Err(e) => snap@.restored() == Err::<StoreView, AuctionError>(e),
            },
            Err(msg) => if is_empty_marker(msg@) {
                r matches Ok(s) && s@ == StoreView::empty()
            } else {
                r == Err::<AuctionStore, AuctionError>(AuctionError::PersistenceDecodeFailure)
            },
        },
{
    match decoded {
        Ok(snap) => AuctionStore::restore(snap),
        Err(msg) => {
            if contains_text(msg.as_str(), EMPTY_MEMORY_MARKER) || contains_text(
                msg.as_str(),
                EMPTY_STREAM_MARKER,
            ) {
                Ok(AuctionStore::new())
            } else {
                Err(AuctionError::PersistenceDecodeFailure)
            }
        },
    }
}

} // verus!
