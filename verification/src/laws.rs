//! The laws of the state machine, stated over the same spec-level
//! transitions that the executable operations are proved against.

use vstd::prelude::*;

use crate::error::ContractError;
use crate::msg::{TransferInfoV, info_of};
use crate::state::{EntryV, StoreV, TransferStatus, TransferV, after_start, cut_idx,
    lemma_complete_at_props, lemma_cut_at_key, lemma_cut_idx_bounds, lemma_insert_sorted_props,
    lemma_page_of_sorted, page_of, sorted_keys, value_of};
use crate::contract::{spec_complete, spec_get_config, spec_get_transfer, spec_initiate,
    spec_instantiate, spec_list_transfers, spec_toggle, transfer_id_of};
use crate::order::lemma_lex_transitive;

verus! {

/// Initialization followed immediately by a configuration read returns the
/// initializer as owner and the supplied flag, whatever the store held.
pub proof fn lemma_instantiate_then_get_config(s: StoreV, sender: Seq<char>, enabled: bool)
    ensures
        ({
            let (s1, attrs) = spec_instantiate(s, sender, enabled);
            spec_get_config(s1) matches Ok(c) && c.owner == sender && c.enabled == enabled
        }),
{
}

/// While the bridge is disabled, initiation fails with `BridgeDisabled` and
/// the store is left unchanged.
pub proof fn lemma_initiate_disabled(
    s: StoreV,
    sender: Seq<char>,
    to: Seq<char>,
    amount: u128,
    time: u64,
)
    requires
        s.config matches Some(c) && !c.enabled,
    ensures
        spec_initiate(s, sender, to, amount, time) == (s, Err::<
            crate::msg::AttrsV,
            ContractError,
        >(ContractError::BridgeDisabled)),
{
}

/// A zero amount is rejected with `InvalidAmount` and the store is left
/// unchanged.
pub proof fn lemma_initiate_zero_amount(s: StoreV, sender: Seq<char>, to: Seq<char>, time: u64)
    requires
        s.config matches Some(c) && c.enabled,
    ensures
        spec_initiate(s, sender, to, 0, time) == (s, Err::<
            crate::msg::AttrsV,
            ContractError,
        >(ContractError::InvalidAmount)),
{
}

/// A caller other than the owner can neither complete a transfer nor
/// toggle the bridge: both fail with `Unauthorized` and change nothing.
pub proof fn lemma_non_owner_rejected(s: StoreV, sender: Seq<char>, id: Seq<char>, enabled: bool)
    requires
        s.config matches Some(c) && c.owner != sender,
    ensures
        spec_complete(s, sender, id) == (s, Err::<crate::msg::AttrsV, ContractError>(
            ContractError::Unauthorized,
        )),
        spec_toggle(s, sender, enabled) == (s, Err::<crate::msg::AttrsV, ContractError>(
            ContractError::Unauthorized,
        )),
{
}

/// A successful initiation stores the record exactly as supplied — the
/// amount round-trips for every nonzero 128-bit value — and a read of the
/// minted identifier reports it `Pending`; every other record is untouched.
pub proof fn lemma_initiate_then_get_transfer(
    s: StoreV,
    sender: Seq<char>,
    to: Seq<char>,
    amount: u128,
    time: u64,
)
    requires
        sorted_keys(s.transfers),
    ensures
        ({
            let (s1, r) = spec_initiate(s, sender, to, amount, time);
            r is Ok ==> {
                &&& spec_get_transfer(s1, transfer_id_of(s.next_seq)) == Ok::<
                    TransferInfoV,
                    ContractError,
                >(
                    TransferInfoV {
                        id: transfer_id_of(s.next_seq),
                        from: sender,
                        to: to,
                        amount: amount,
                        status: "Pending"@,
                        timestamp: time,
                    },
                )
                &&& forall|id2: Seq<char>|
                    id2 != transfer_id_of(s.next_seq) ==> spec_get_transfer(s1, id2)
                        == spec_get_transfer(s, id2)
            }
        }),
{
    let (s1, r) = spec_initiate(s, sender, to, amount, time);
    if r is Ok {
        let id = transfer_id_of(s.next_seq);
        let t = TransferV {
            from: sender,
            to: to,
            amount: amount,
            status: TransferStatus::Pending,
            timestamp: time,
        };
        lemma_insert_sorted_props(s.transfers, id, t);
    }
}

/// A successful completion flips exactly one record to `Completed`: a read
/// of that identifier reports the new status with every other field as
/// before, and every other record is untouched.
pub proof fn lemma_complete_then_get_transfer(s: StoreV, sender: Seq<char>, id: Seq<char>)
    requires
        sorted_keys(s.transfers),
    ensures
        ({
            let (s1, r) = spec_complete(s, sender, id);
            r is Ok ==> {
                &&& spec_get_transfer(s1, id) == Ok::<TransferInfoV, ContractError>(
                    info_of(
                        id,
                        (TransferV {
                            status: TransferStatus::Completed,
                            ..value_of(s.transfers, id)
                        }),
                    ),
                )
                &&& forall|id2: Seq<char>|
                    id2 != id ==> spec_get_transfer(s1, id2) == spec_get_transfer(s, id2)
            }
        }),
{
    let (s1, r) = spec_complete(s, sender, id);
    if r is Ok {
        lemma_complete_at_props(s.transfers, id);
    }
}

/// Toggling is idempotent: repeating a successful toggle with the same
/// value succeeds again and leaves the store exactly as after the first.
pub proof fn lemma_toggle_idempotent(s: StoreV, sender: Seq<char>, enabled: bool)
    ensures
        ({
            let (s1, r1) = spec_toggle(s, sender, enabled);
            let (s2, r2) = spec_toggle(s1, sender, enabled);
            r1 is Ok ==> s2 == s1 && r2 == r1
        }),
{
}

/// Every page is ascending and lies strictly after the cursor.
pub proof fn lemma_page_ordered(ts: Seq<EntryV>, start: Option<Seq<char>>, k: nat)
    requires
        sorted_keys(ts),
    ensures
        sorted_keys(page_of(ts, start, k)),
        forall|i: int|
            0 <= i < page_of(ts, start, k).len() ==> after_start(
                #[trigger] page_of(ts, start, k)[i].0,
                start,
            ),
{
    lemma_page_of_sorted(ts, start, k);
    lemma_cut_idx_bounds(ts, start);
    let c = cut_idx(ts, start) as int;
    let p = page_of(ts, start, k);
    assert forall|i: int| 0 <= i < p.len() implies after_start(#[trigger] p[i].0, start) by {
        assert(p[i] == ts[c + i]);
        if i > 0 {
            match start {
                None => {},
                Some(st) => {
                    lemma_lex_transitive(st, ts[c].0, ts[c + i].0);
                },
            }
        }
    }
}

/// Paging forward with the last returned identifier as the next cursor
/// neither overlaps nor skips: a full page of `k` records followed by the
/// next page of `k2` is exactly the single page of `k + k2` records.
pub proof fn lemma_pagination_chain(ts: Seq<EntryV>, start: Option<Seq<char>>, k: nat, k2: nat)
    requires
        sorted_keys(ts),
        k > 0,
        page_of(ts, start, k).len() == k,
    ensures
        page_of(ts, start, k) + page_of(ts, Some(page_of(ts, start, k).last().0), k2) == page_of(
            ts,
            start,
            k + k2,
        ),
{
    lemma_page_of_sorted(ts, start, k);
    lemma_cut_idx_bounds(ts, start);
    let c = cut_idx(ts, start) as int;
    let p1 = page_of(ts, start, k);
    assert(p1 == ts.subrange(c, c + k));
    assert(p1.last() == ts[c + k - 1]);
    lemma_cut_at_key(ts, c + k - 1);
    let start2 = Some(ts[c + k - 1].0);
    lemma_page_of_sorted(ts, start2, k2);
    let m2 = if k2 <= ts.len() - (c + k) {
        k2 as int
    } else {
        ts.len() - (c + k)
    };
    assert(page_of(ts, start2, k2) == ts.subrange(c + k, c + k + m2));
    lemma_page_of_sorted(ts, start, k + k2);
    let m = if k + k2 <= ts.len() - c {
        (k + k2) as int
    } else {
        ts.len() - c
    };
    assert(page_of(ts, start, k + k2) == ts.subrange(c, c + m));
    assert(ts.subrange(c, c + k) + ts.subrange(c + k, c + k + m2) =~= ts.subrange(c, c + m));
}

/// The pagination law at the level of the listing query itself: a full
/// listing of `k` records, followed by the listing that starts after the
/// last returned identifier, is exactly the single listing of `k + k2`
/// records — no overlap, no gap.
pub proof fn lemma_list_pages_chain(s: StoreV, start: Option<Seq<char>>, k: u32, k2: u32)
    requires
        sorted_keys(s.transfers),
        k > 0,
        k + k2 <= u32::MAX,
        spec_list_transfers(s, start, Some(k)).len() == k,
    ensures
        spec_list_transfers(s, start, Some(k)) + spec_list_transfers(
            s,
            Some(spec_list_transfers(s, start, Some(k)).last().id),
            Some(k2),
        ) == spec_list_transfers(s, start, Some((k + k2) as u32)),
{
    let ts = s.transfers;
    let p1 = page_of(ts, start, k as nat);
    assert(p1.len() == k);
    lemma_pagination_chain(ts, start, k as nat, k2 as nat);
    let start2 = Some(p1.last().0);
    let p2 = page_of(ts, start2, k2 as nat);
    assert(spec_list_transfers(s, start, Some(k)).last().id == p1.last().0);
    assert(spec_list_transfers(s, start, Some(k)) + spec_list_transfers(s, start2, Some(k2))
        =~= (p1 + p2).map(|i: int, e: EntryV| info_of(e.0, e.1)));
    assert(spec_list_transfers(s, start, Some((k + k2) as u32)) == page_of(
        ts,
        start,
        (k + k2) as nat,
    ).map(|i: int, e: EntryV| info_of(e.0, e.1)));
}

/// A short page means the listing is exhausted: continuing from its last
/// identifier returns the empty page.
pub proof fn lemma_pagination_exhausted(ts: Seq<EntryV>, start: Option<Seq<char>>, k: nat, k2: nat)
    requires
        sorted_keys(ts),
        0 < page_of(ts, start, k).len() < k,
    ensures
        page_of(ts, Some(page_of(ts, start, k).last().0), k2) == Seq::<EntryV>::empty(),
{
    lemma_page_of_sorted(ts, start, k);
    lemma_cut_idx_bounds(ts, start);
    let c = cut_idx(ts, start) as int;
    let p1 = page_of(ts, start, k);
    assert(p1.len() == ts.len() - c);
    assert(p1.last() == ts[ts.len() - 1]);
    lemma_cut_at_key(ts, ts.len() - 1);
    let start2 = Some(ts[ts.len() - 1].0);
    lemma_page_of_sorted(ts, start2, k2);
    assert(page_of(ts, start2, k2) =~= Seq::<EntryV>::empty());
}

} // verus!
