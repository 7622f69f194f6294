//! Persistent state of the ledger: the singleton configuration and the
//! ordered map of transfer records, held in an explicit store value.

use vstd::prelude::*;

use crate::error::ContractError;
use crate::order::{lex_lt, str_lex_lt, lemma_lex_irreflexive, lemma_lex_trichotomy,
    lemma_lex_transitive};

verus! {

/// Status of a transfer record.  `Failed` is part of the model but no
/// operation currently transitions into it; it is an extension point.
#[derive(Clone, Copy, Debug, PartialEq, Eq, Structural)]
pub enum TransferStatus {
    Pending,
    Completed,
    Failed,
}

/// The singleton configuration record.
#[derive(Debug, PartialEq)]
pub struct Config {
    /// The sole identity authorized to complete transfers and toggle the
    /// bridge.
    pub owner: String,
    /// Gate on new transfer initiations.
    pub enabled: bool,
}

/// Mathematical model of a [`Config`].
pub ghost struct ConfigV {
    pub owner: Seq<char>,
    pub enabled: bool,
}

impl View for Config {
    type V = ConfigV;

    open spec fn view(&self) -> ConfigV {
        ConfigV { owner: self.owner@, enabled: self.enabled }
    }
}

/// One transfer record.  All fields but `status` are immutable after
/// creation.
#[derive(Debug, PartialEq)]
pub struct Transfer {
    /// The initiating party, taken from the caller identity.
    pub from: String,
    /// Destination identifier, an opaque caller-supplied string.
    pub to: String,
    /// Transferred quantity; always nonzero.
    pub amount: u128,
    pub status: TransferStatus,
    /// Seconds since epoch at creation time.
    pub timestamp: u64,
}

/// Mathematical model of a [`Transfer`].
pub ghost struct TransferV {
    pub from: Seq<char>,
    pub to: Seq<char>,
    pub amount: u128,
    pub status: TransferStatus,
    pub timestamp: u64,
}

impl View for Transfer {
    type V = TransferV;

    open spec fn view(&self) -> TransferV {
        TransferV {
            from: self.from@,
            to: self.to@,
            amount: self.amount,
            status: self.status,
            timestamp: self.timestamp,
        }
    }
}

impl Transfer {
    /// An exact copy of the record.
    pub fn duplicate(&self) -> (r: Transfer)
        ensures
            r == *self,
    {
        Transfer {
            from: self.from.clone(),
            to: self.to.clone(),
            amount: self.amount,
            status: self.status,
            timestamp: self.timestamp,
        }
    }
}

/// One modelled store entry: a transfer record under its identifier.
pub type EntryV = (Seq<char>, TransferV);

/// Mathematical model of the whole store.
pub ghost struct StoreV {
    /// The configuration, absent until initialization.
    pub config: Option<ConfigV>,
    /// Source of fresh transfer identifiers; strictly increases with every
    /// successful initiation.
    pub next_seq: u64,
    /// The transfer records, sorted by identifier in ascending
    /// lexicographic order.
    pub transfers: Seq<EntryV>,
}

/// Identifiers appear in strictly ascending lexicographic order.
pub open spec fn sorted_keys(ts: Seq<EntryV>) -> bool {
    forall|i: int, j: int| 0 <= i < j < ts.len() ==> lex_lt(ts[i].0, ts[j].0)
}

/// Some record is stored under identifier `k`.
pub open spec fn has_key(ts: Seq<EntryV>, k: Seq<char>) -> bool {
    exists|i: int| 0 <= i < ts.len() && ts[i].0 == k
}

/// The index of the record stored under `k` (meaningful when `has_key`).
pub open spec fn key_index(ts: Seq<EntryV>, k: Seq<char>) -> int {
    choose|i: int| 0 <= i < ts.len() && ts[i].0 == k
}

/// The record stored under `k` (meaningful when `has_key`).
pub open spec fn value_of(ts: Seq<EntryV>, k: Seq<char>) -> TransferV {
    ts[key_index(ts, k)].1
}

/// The entries with a record `v` inserted under `k` at its sorted position.
pub open spec fn insert_sorted(ts: Seq<EntryV>, k: Seq<char>, v: TransferV) -> Seq<EntryV>
    decreases ts.len(),
{
    if ts.len() == 0 {
        seq![(k, v)]
    } else if lex_lt(k, ts[0].0) {
        seq![(k, v)] + ts
    } else {
        seq![ts[0]] + insert_sorted(ts.drop_first(), k, v)
    }
}

/// The entries with the record under `k` (if any) marked `Completed`; all
/// other fields and all other records are untouched.
pub open spec fn complete_at(ts: Seq<EntryV>, k: Seq<char>) -> Seq<EntryV> {
    ts.map(|i: int, e: EntryV| if e.0 == k {
        (e.0, TransferV { status: TransferStatus::Completed, ..e.1 })
    } else {
        e
    })
}

/// Whether `key` lies strictly after the pagination cursor.
pub open spec fn after_start(key: Seq<char>, start: Option<Seq<char>>) -> bool {
    match start {
        None => true,
        Some(s) => lex_lt(s, key),
    }
}

/// The first `k` entries (in order) whose identifier lies strictly after
/// the cursor `start`.
pub open spec fn page_of(ts: Seq<EntryV>, start: Option<Seq<char>>, k: nat) -> Seq<EntryV>
    decreases ts.len(),
{
    if ts.len() == 0 || k == 0 {
        Seq::empty()
    } else if after_start(ts[0].0, start) {
        seq![ts[0]] + page_of(ts.drop_first(), start, (k - 1) as nat)
    } else {
        page_of(ts.drop_first(), start, k)
    }
}

/// Distinct positions in a sorted store hold distinct identifiers.
pub proof fn lemma_sorted_keys_unique(ts: Seq<EntryV>, i: int, j: int)
    requires
        sorted_keys(ts),
        0 <= i < ts.len(),
        0 <= j < ts.len(),
        i != j,
    ensures
        ts[i].0 != ts[j].0,
{
    if i < j {
        lemma_lex_irreflexive(ts[i].0);
    } else {
        lemma_lex_irreflexive(ts[j].0);
    }
}

/// `insert_sorted` splits the entries at the first index `i` whose key lies
/// beyond `k` and puts the new entry there.
proof fn lemma_insert_sorted_at(ts: Seq<EntryV>, k: Seq<char>, v: TransferV, i: int)
    requires
        0 <= i <= ts.len(),
        forall|j: int| 0 <= j < i ==> lex_lt(ts[j].0, k),
        i < ts.len() ==> lex_lt(k, ts[i].0),
    ensures
        insert_sorted(ts, k, v) == ts.take(i) + seq![(k, v)] + ts.skip(i),
    decreases i,
{
    if i == 0 {
        if ts.len() == 0 {
            assert(insert_sorted(ts, k, v) =~= ts.take(0) + seq![(k, v)] + ts.skip(0));
        } else {
            assert(seq![(k, v)] + ts =~= ts.take(0) + seq![(k, v)] + ts.skip(0));
        }
    } else {
        lemma_lex_trichotomy(k, ts[0].0);
        let d = ts.drop_first();
        assert(forall|j: int| 0 <= j < i - 1 ==> lex_lt(d[j].0, k));
        lemma_insert_sorted_at(d, k, v, i - 1);
        assert(seq![ts[0]] + (d.take(i - 1) + seq![(k, v)] + d.skip(i - 1)) =~= ts.take(i) + seq![
            (k, v),
        ] + ts.skip(i));
    }
}

/// Inserting at the split position keeps the keys strictly sorted.
proof fn lemma_insert_preserves_sorted(ts: Seq<EntryV>, k: Seq<char>, v: TransferV, i: int)
    requires
        sorted_keys(ts),
        0 <= i <= ts.len(),
        forall|j: int| 0 <= j < i ==> lex_lt(ts[j].0, k),
        i < ts.len() ==> lex_lt(k, ts[i].0),
    ensures
        sorted_keys(ts.take(i) + seq![(k, v)] + ts.skip(i)),
{
    let r = ts.take(i) + seq![(k, v)] + ts.skip(i);
    assert forall|a: int, b: int| 0 <= a < b < r.len() implies lex_lt(r[a].0, r[b].0) by {
        assert(forall|j: int| 0 <= j < i ==> r[j] == ts[j]);
        assert(r[i] == (k, v));
        assert(forall|j: int| i < j < r.len() ==> r[j] == ts[j - 1]);
        if a == i && b > i + 1 {
            lemma_lex_transitive(k, ts[i].0, ts[b - 1].0);
        }
    }
}

/// Appending one entry extends the page exactly when the page is not yet
/// full and the entry lies after the cursor.
proof fn lemma_page_push(ts: Seq<EntryV>, e: EntryV, start: Option<Seq<char>>, k: nat)
    ensures
        page_of(ts, start, k).len() < k && after_start(e.0, start) ==> page_of(
            ts.push(e),
            start,
            k,
        ) == page_of(ts, start, k).push(e),
        !(page_of(ts, start, k).len() < k && after_start(e.0, start)) ==> page_of(
            ts.push(e),
            start,
            k,
        ) == page_of(ts, start, k),
    decreases ts.len(),
{
    if k == 0 {
        assert(page_of(ts.push(e), start, k) =~= page_of(ts, start, k));
    } else if ts.len() == 0 {
        assert(ts.push(e)[0] == e);
        assert(ts.push(e).drop_first() =~= Seq::<EntryV>::empty());
        assert(page_of(Seq::<EntryV>::empty(), start, (k - 1) as nat) == Seq::<EntryV>::empty());
        assert(page_of(Seq::<EntryV>::empty(), start, k) == Seq::<EntryV>::empty());
        if after_start(e.0, start) {
            assert(page_of(ts.push(e), start, k) =~= page_of(ts, start, k).push(e));
        } else {
            assert(page_of(ts.push(e), start, k) =~= page_of(ts, start, k));
        }
    } else {
        assert(ts.push(e)[0] == ts[0]);
        assert(ts.push(e).drop_first() =~= ts.drop_first().push(e));
        lemma_page_push(ts.drop_first(), e, start, (k - 1) as nat);
        lemma_page_push(ts.drop_first(), e, start, k);
        if after_start(ts[0].0, start) {
            let p = page_of(ts.drop_first(), start, (k - 1) as nat);
            if p.len() < k - 1 && after_start(e.0, start) {
                assert(seq![ts[0]] + p.push(e) =~= (seq![ts[0]] + p).push(e));
            }
        }
    }
}

/// The first index whose key does not lie strictly before `k`.
spec fn lower_idx(ts: Seq<EntryV>, k: Seq<char>) -> nat
    decreases ts.len(),
{
    if ts.len() == 0 {
        0
    } else if lex_lt(ts[0].0, k) {
        1 + lower_idx(ts.drop_first(), k)
    } else {
        0
    }
}

proof fn lemma_lower_idx(ts: Seq<EntryV>, k: Seq<char>)
    ensures
        lower_idx(ts, k) <= ts.len(),
        forall|j: int| 0 <= j < lower_idx(ts, k) ==> lex_lt(ts[j].0, k),
        lower_idx(ts, k) < ts.len() ==> !lex_lt(ts[lower_idx(ts, k) as int].0, k),
    decreases ts.len(),
{
    if ts.len() > 0 && lex_lt(ts[0].0, k) {
        lemma_lower_idx(ts.drop_first(), k);
        assert forall|j: int| 0 <= j < lower_idx(ts, k) implies lex_lt(ts[j].0, k) by {
            if j > 0 {
                assert(ts[j] == ts.drop_first()[j - 1]);
            }
        }
        if lower_idx(ts, k) < ts.len() {
            assert(ts[lower_idx(ts, k) as int] == ts.drop_first()[lower_idx(ts.drop_first(), k) as int]);
        }
    }
}

/// What a fresh insertion does to lookups: the new key is present with the
/// new record, and every other key is exactly as before.
pub proof fn lemma_insert_sorted_props(ts: Seq<EntryV>, k: Seq<char>, v: TransferV)
    requires
        sorted_keys(ts),
        !has_key(ts, k),
    ensures
        sorted_keys(insert_sorted(ts, k, v)),
        insert_sorted(ts, k, v).len() == ts.len() + 1,
        has_key(insert_sorted(ts, k, v), k),
        value_of(insert_sorted(ts, k, v), k) == v,
        forall|k2: Seq<char>| k2 != k ==> has_key(insert_sorted(ts, k, v), k2) == has_key(ts, k2),
        forall|k2: Seq<char>|
            k2 != k && has_key(ts, k2) ==> value_of(insert_sorted(ts, k, v), k2) == value_of(
                ts,
                k2,
            ),
{
    lemma_lower_idx(ts, k);
    let i = lower_idx(ts, k) as int;
    if i < ts.len() {
        assert(ts[i].0 != k);
        lemma_lex_trichotomy(k, ts[i].0);
    }
    lemma_insert_sorted_at(ts, k, v, i);
    lemma_insert_preserves_sorted(ts, k, v, i);
    let r = insert_sorted(ts, k, v);
    assert(forall|j: int| 0 <= j < i ==> r[j] == ts[j]);
    assert(r[i] == (k, v));
    assert(forall|j: int| i < j < r.len() ==> r[j] == ts[j - 1]);
    assert(has_key(r, k));
    let ki = key_index(r, k);
    assert(0 <= ki < r.len() && r[ki].0 == k);
    if ki != i {
        lemma_sorted_keys_unique(r, ki, i);
    }
    assert(value_of(r, k) == v);
    assert forall|k2: Seq<char>| k2 != k implies has_key(r, k2) == has_key(ts, k2) by {
        if has_key(ts, k2) {
            let j = choose|j: int| 0 <= j < ts.len() && ts[j].0 == k2;
            if j < i {
                assert(r[j].0 == k2);
            } else {
                assert(r[j + 1].0 == k2);
            }
            assert(has_key(r, k2));
        }
        if has_key(r, k2) {
            let j = choose|j: int| 0 <= j < r.len() && r[j].0 == k2;
            if j < i {
                assert(ts[j].0 == k2);
            } else {
                assert(j != i);
                assert(ts[j - 1].0 == k2);
            }
            assert(has_key(ts, k2));
        }
    }
    assert forall|k2: Seq<char>| k2 != k && has_key(ts, k2) implies value_of(r, k2) == value_of(
        ts,
        k2,
    ) by {
        let j = key_index(ts, k2);
        assert(0 <= j < ts.len() && ts[j].0 == k2);
        assert(has_key(r, k2));
        let j2 = key_index(r, k2);
        assert(0 <= j2 < r.len() && r[j2].0 == k2);
        let jr: int = if j < i {
            j
        } else {
            j + 1
        };
        assert(r[jr].0 == k2 && r[jr].1 == ts[j].1);
        if j2 != jr {
            lemma_sorted_keys_unique(r, j2, jr);
        }
    }
}

/// What marking one record completed does to lookups: the key set is
/// unchanged, the record under `k` only changes status, and every other
/// record is exactly as before.
pub proof fn lemma_complete_at_props(ts: Seq<EntryV>, k: Seq<char>)
    requires
        sorted_keys(ts),
    ensures
        sorted_keys(complete_at(ts, k)),
        complete_at(ts, k).len() == ts.len(),
        forall|k2: Seq<char>| has_key(complete_at(ts, k), k2) == has_key(ts, k2),
        has_key(ts, k) ==> value_of(complete_at(ts, k), k) == (TransferV {
            status: TransferStatus::Completed,
            ..value_of(ts, k)
        }),
        forall|k2: Seq<char>|
            k2 != k && has_key(ts, k2) ==> value_of(complete_at(ts, k), k2) == value_of(ts, k2),
{
    let r = complete_at(ts, k);
    assert(forall|j: int| 0 <= j < ts.len() ==> r[j].0 == ts[j].0);
    assert forall|k2: Seq<char>| has_key(r, k2) == has_key(ts, k2) by {
        if has_key(ts, k2) {
            let j = choose|j: int| 0 <= j < ts.len() && ts[j].0 == k2;
            assert(r[j].0 == k2);
            assert(has_key(r, k2));
        }
        if has_key(r, k2) {
            let j = choose|j: int| 0 <= j < r.len() && r[j].0 == k2;
            assert(ts[j].0 == k2);
            assert(has_key(ts, k2));
        }
    }
    if has_key(ts, k) {
        let j = key_index(ts, k);
        assert(0 <= j < ts.len() && ts[j].0 == k);
        let j2 = key_index(r, k);
        assert(0 <= j2 < r.len() && r[j2].0 == k);
        if j2 != j {
            lemma_sorted_keys_unique(ts, j, j2);
        }
        assert(r[j].1 == (TransferV { status: TransferStatus::Completed, ..ts[j].1 }));
    }
    assert forall|k2: Seq<char>| k2 != k && has_key(ts, k2) implies value_of(r, k2) == value_of(
        ts,
        k2,
    ) by {
        let j = key_index(ts, k2);
        assert(0 <= j < ts.len() && ts[j].0 == k2);
        assert(has_key(r, k2));
        let j2 = key_index(r, k2);
        assert(0 <= j2 < r.len() && r[j2].0 == k2);
        if j2 != j {
            lemma_sorted_keys_unique(ts, j, j2);
        }
        assert(r[j].1 == ts[j].1);
    }
}

/// The first index whose key lies strictly after the cursor.
pub open spec fn cut_idx(ts: Seq<EntryV>, start: Option<Seq<char>>) -> nat
    decreases ts.len(),
{
    if ts.len() == 0 {
        0
    } else if after_start(ts[0].0, start) {
        0
    } else {
        1 + cut_idx(ts.drop_first(), start)
    }
}

pub proof fn lemma_cut_idx_bounds(ts: Seq<EntryV>, start: Option<Seq<char>>)
    ensures
        cut_idx(ts, start) <= ts.len(),
        forall|j: int| 0 <= j < cut_idx(ts, start) ==> !after_start(ts[j].0, start),
        cut_idx(ts, start) < ts.len() ==> after_start(ts[cut_idx(ts, start) as int].0, start),
    decreases ts.len(),
{
    if ts.len() > 0 && !after_start(ts[0].0, start) {
        lemma_cut_idx_bounds(ts.drop_first(), start);
        assert forall|j: int| 0 <= j < cut_idx(ts, start) implies !after_start(ts[j].0, start) by {
            if j > 0 {
                assert(ts[j] == ts.drop_first()[j - 1]);
            }
        }
        if cut_idx(ts, start) < ts.len() {
            assert(ts[cut_idx(ts, start) as int] == ts.drop_first()[cut_idx(
                ts.drop_first(),
                start,
            ) as int]);
        }
    }
}

/// On a sorted store, a page is a contiguous slice: the records from the
/// cursor's cut to its end or the `k`-th entry, whichever comes first.
pub proof fn lemma_page_of_sorted(ts: Seq<EntryV>, start: Option<Seq<char>>, k: nat)
    requires
        sorted_keys(ts),
    ensures
        ({
            let c = cut_idx(ts, start) as int;
            let m = if k <= ts.len() - c {
                k as int
            } else {
                ts.len() - c
            };
            page_of(ts, start, k) == ts.subrange(c, c + m)
        }),
    decreases ts.len(),
{
    let c = cut_idx(ts, start) as int;
    lemma_cut_idx_bounds(ts, start);
    if ts.len() == 0 {
        assert(page_of(ts, start, k) =~= ts.subrange(0, 0));
    } else if k == 0 {
        assert(page_of(ts, start, k) =~= ts.subrange(c, c));
    } else {
        let d = ts.drop_first();
        assert(sorted_keys(d)) by {
            assert forall|a: int, b: int| 0 <= a < b < d.len() implies lex_lt(d[a].0, d[b].0) by {
                assert(d[a] == ts[a + 1]);
                assert(d[b] == ts[b + 1]);
            }
        }
        if after_start(ts[0].0, start) {
            assert(c == 0);
            if d.len() > 0 {
                assert(after_start(d[0].0, start)) by {
                    match start {
                        None => {},
                        Some(st) => {
                            assert(d[0] == ts[1]);
                            lemma_lex_transitive(st, ts[0].0, ts[1].0);
                        },
                    }
                }
            }
            assert(cut_idx(d, start) == 0);
            lemma_page_of_sorted(d, start, (k - 1) as nat);
            let m1 = if k - 1 <= d.len() {
                k - 1
            } else {
                d.len() as int
            };
            assert(page_of(ts, start, k) == seq![ts[0]] + d.subrange(0, m1));
            let m = if k <= ts.len() {
                k as int
            } else {
                ts.len() as int
            };
            assert(seq![ts[0]] + d.subrange(0, m1) =~= ts.subrange(0, m));
        } else {
            lemma_page_of_sorted(d, start, k);
            let cd = cut_idx(d, start) as int;
            assert(c == cd + 1);
            let md = if k <= d.len() - cd {
                k as int
            } else {
                d.len() - cd
            };
            assert(page_of(ts, start, k) == d.subrange(cd, cd + md));
            let m = if k <= ts.len() - c {
                k as int
            } else {
                ts.len() - c
            };
            assert(m == md);
            assert(d.subrange(cd, cd + md) =~= ts.subrange(c, c + m));
        }
    }
}

/// On a sorted store, the first identifier strictly after the one at
/// position `i` sits at position `i + 1`.
pub proof fn lemma_cut_at_key(ts: Seq<EntryV>, i: int)
    requires
        sorted_keys(ts),
        0 <= i < ts.len(),
    ensures
        cut_idx(ts, Some(ts[i].0)) == i + 1,
    decreases ts.len(),
{
    let start = Some(ts[i].0);
    assert(!after_start(ts[0].0, start)) by {
        if i == 0 {
            lemma_lex_irreflexive(ts[0].0);
        } else {
            lemma_lex_trichotomy(ts[i].0, ts[0].0);
        }
    }
    let d = ts.drop_first();
    assert(sorted_keys(d)) by {
        assert forall|a: int, b: int| 0 <= a < b < d.len() implies lex_lt(d[a].0, d[b].0) by {
            assert(d[a] == ts[a + 1]);
            assert(d[b] == ts[b + 1]);
        }
    }
    if i == 0 {
        if d.len() > 0 {
            assert(d[0] == ts[1]);
            assert(after_start(d[0].0, start));
            assert(cut_idx(d, start) == 0);
        }
    } else {
        assert(d[i - 1] == ts[i]);
        lemma_cut_at_key(d, i - 1);
        assert(cut_idx(d, Some(d[i - 1].0)) == i);
    }
}

/// The durable key-value store, modelled as an explicit value.  The host
/// passes one store to every operation and commits or rolls it back
/// atomically per call.
pub struct LedgerStore {
    config: Option<Config>,
    next_seq: u64,
    transfers: Vec<(String, Transfer)>,
}

/// The model of a vector of keyed transfer records.
pub open spec fn entries_view(v: Seq<(String, Transfer)>) -> Seq<EntryV> {
    Seq::new(v.len(), |i: int| (v[i].0@, v[i].1@))
}

impl View for LedgerStore {
    type V = StoreV;

    closed spec fn view(&self) -> StoreV {
        StoreV {
            config: match self.config {
                Some(c) => Some(c@),
                None => None,
            },
            next_seq: self.next_seq,
            transfers: entries_view(self.transfers@),
        }
    }
}

impl LedgerStore {
    /// The store keeps its records sorted by identifier.
    pub open spec fn wf(&self) -> bool {
        sorted_keys(self@.transfers)
    }

    /// An empty store: no configuration, no transfers.
    pub fn new() -> (s: Self)
        ensures
            s@.config is None,
            s@.next_seq == 0,
            s@.transfers == Seq::<EntryV>::empty(),
            s.wf(),
    {
        let s = LedgerStore { config: None, next_seq: 0, transfers: Vec::new() };
        proof {
            assert(s@.transfers =~= Seq::<EntryV>::empty());
        }
        s
    }

    /// The value the next fresh transfer identifier will be minted from.
    pub fn next_seq(&self) -> (r: u64)
        ensures
            r == self@.next_seq,
    {
        self.next_seq
    }

    /// Advances the identifier source past a freshly minted identifier.
    pub fn bump_seq(&mut self)
        requires
            old(self)@.next_seq < u64::MAX,
        ensures
            final(self)@ == (StoreV { next_seq: (old(self)@.next_seq + 1) as u64, ..old(self)@ }),
    {
        self.next_seq = self.next_seq + 1;
    }

    /// Restores the identifier source when the host rebuilds a persisted
    /// snapshot.
    pub fn set_next_seq(&mut self, n: u64)
        ensures
            final(self)@ == (StoreV { next_seq: n, ..old(self)@ }),
    {
        self.next_seq = n;
    }

    /// Saves the singleton configuration, overwriting any previous one.
    pub fn save_config(&mut self, config: Config)
        ensures
            final(self)@ == (StoreV { config: Some(config@), ..old(self)@ }),
    {
        self.config = Some(config);
    }

    /// Loads the singleton configuration; fails with `NotFound` if the
    /// store was never initialized.
    pub fn load_config(&self) -> (r: Result<Config, ContractError>)
        ensures
            match r {
                Ok(c) => self@.config == Some(c@),
                Err(e) => e == ContractError::NotFound && self@.config is None,
            },
    {
        match &self.config {
            Some(c) => Ok(Config { owner: c.owner.clone(), enabled: c.enabled }),
            None => Err(ContractError::NotFound),
        }
    }

    /// The position of the record stored under `id`, if any.
    fn find_at(v: &Vec<(String, Transfer)>, id: &String) -> (r: Option<usize>)
        ensures
            match r {
                Some(i) => i < v@.len() && entries_view(v@)[i as int].0 == id@,
                None => !has_key(entries_view(v@), id@),
            },
    {
        let n = v.len();
        let mut i: usize = 0;
        while i < n
            invariant
                i <= n,
                n == v@.len(),
                forall|j: int| 0 <= j < i ==> entries_view(v@)[j].0 != id@,
            decreases n - i,
        {
            if v[i].0 == *id {
                return Some(i);
            }
            i += 1;
        }
        None
    }

    /// The first position whose identifier does not lie before `id`; all
    /// earlier identifiers lie strictly before it.
    fn lower_pos(v: &Vec<(String, Transfer)>, id: &String) -> (i: usize)
        ensures
            i <= v@.len(),
            forall|j: int| 0 <= j < i ==> lex_lt(entries_view(v@)[j].0, id@),
            i < v@.len() ==> !lex_lt(entries_view(v@)[i as int].0, id@),
    {
        let n = v.len();
        let mut i: usize = 0;
        loop
            invariant
                i <= n,
                n == v@.len(),
                forall|j: int| 0 <= j < i ==> lex_lt(entries_view(v@)[j].0, id@),
            ensures
                i <= n,
                forall|j: int| 0 <= j < i ==> lex_lt(entries_view(v@)[j].0, id@),
                i < n ==> !lex_lt(entries_view(v@)[i as int].0, id@),
            decreases n - i,
        {
            if i == n {
                break;
            }
            if !str_lex_lt(v[i].0.as_str(), id.as_str()) {
                break;
            }
            i += 1;
        }
        i
    }

    /// Creates the record `t` under identifier `id`.  The store refuses to
    /// overwrite: if a record already exists under `id`, it fails with
    /// `TransferExists` and changes nothing.
    pub fn save_transfer(&mut self, id: &String, t: Transfer) -> (r: Result<(), ContractError>)
        requires
            old(self).wf(),
        ensures
            final(self).wf(),
            match r {
                Ok(()) => !has_key(old(self)@.transfers, id@) && final(self)@ == (StoreV {
                    transfers: insert_sorted(old(self)@.transfers, id@, t@),
                    ..old(self)@
                }),
                Err(e) => e == ContractError::TransferExists && has_key(old(self)@.transfers, id@)
                    && final(self)@ == old(self)@,
            },
    {
        let ghost ts = self@.transfers;
        let n = self.transfers.len();
        let i = Self::lower_pos(&self.transfers, id);
        if i < n && self.transfers[i].0 == *id {
            return Err(ContractError::TransferExists);
        }
        proof {
            if i < ts.len() {
                lemma_lex_trichotomy(id@, ts[i as int].0);
            }
            assert forall|j: int| 0 <= j < ts.len() implies ts[j].0 != id@ by {
                if j < i {
                    lemma_lex_irreflexive(id@);
                } else if j == i {
                } else {
                    lemma_lex_transitive(id@, ts[i as int].0, ts[j].0);
                    lemma_lex_irreflexive(id@);
                }
            }
            lemma_insert_sorted_at(ts, id@, t@, i as int);
            lemma_insert_preserves_sorted(ts, id@, t@, i as int);
        }
        self.transfers.insert(i, (id.clone(), t));
        proof {
            assert(self@.transfers =~= ts.take(i as int) + seq![(id@, t@)] + ts.skip(i as int));
        }
        Ok(())
    }

    /// Loads the record stored under `id`, failing with `NotFound` if there
    /// is none.
    pub fn load_transfer(&self, id: &String) -> (r: Result<Transfer, ContractError>)
        requires
            self.wf(),
        ensures
            match r {
                Ok(t) => has_key(self@.transfers, id@) && t@ == value_of(self@.transfers, id@),
                Err(e) => e == ContractError::NotFound && !has_key(self@.transfers, id@),
            },
    {
        match Self::find_at(&self.transfers, id) {
            Some(i) => {
                let t = self.transfers[i].1.duplicate();
                proof {
                    let ts = self@.transfers;
                    assert(ts[i as int].0 == id@);
                    let j = key_index(ts, id@);
                    assert(0 <= j < ts.len() && ts[j].0 == id@);
                    if j != i {
                        lemma_sorted_keys_unique(ts, i as int, j);
                    }
                }
                Ok(t)
            },
            None => Err(ContractError::NotFound),
        }
    }

    /// Marks the record stored under `id` as `Completed`, leaving all other
    /// fields and records untouched; fails with `NotFound` if there is none.
    pub fn mark_completed(&mut self, id: &String) -> (r: Result<(), ContractError>)
        requires
            old(self).wf(),
        ensures
            final(self).wf(),
            match r {
                Ok(()) => has_key(old(self)@.transfers, id@) && final(self)@ == (StoreV {
                    transfers: complete_at(old(self)@.transfers, id@),
                    ..old(self)@
                }),
                Err(e) => e == ContractError::NotFound && !has_key(old(self)@.transfers, id@)
                    && final(self)@ == old(self)@,
            },
    {
        let ghost ts = self@.transfers;
        match Self::find_at(&self.transfers, id) {
            Some(i) => {
                let (key, tr) = self.transfers.remove(i);
                let done = Transfer {
                    from: tr.from,
                    to: tr.to,
                    amount: tr.amount,
                    status: TransferStatus::Completed,
                    timestamp: tr.timestamp,
                };
                self.transfers.insert(i, (key, done));
                proof {
                    assert forall|j: int| 0 <= j < ts.len() && j != i implies ts[j].0 != id@ by {
                        lemma_sorted_keys_unique(ts, i as int, j);
                    }
                    assert(self@.transfers =~= complete_at(ts, id@));
                    assert forall|a: int, b: int|
                        0 <= a < b < self@.transfers.len() implies lex_lt(
                        self@.transfers[a].0,
                        self@.transfers[b].0,
                    ) by {
                        assert(self@.transfers[a].0 == ts[a].0);
                        assert(self@.transfers[b].0 == ts[b].0);
                    }
                }
                Ok(())
            },
            None => Err(ContractError::NotFound),
        }
    }

    /// Returns up to `limit` records in ascending identifier order, starting
    /// strictly after the cursor `start_after` if one is given.
    pub fn page(&self, start_after: Option<&String>, limit: usize) -> (r: Vec<(String, Transfer)>)
        ensures
            entries_view(r@) == page_of(self@.transfers, cursor_view(start_after), limit as nat),
    {
        let ghost ts = self@.transfers;
        let ghost cur = cursor_view(start_after);
        let n = self.transfers.len();
        let mut out: Vec<(String, Transfer)> = Vec::new();
        let mut i: usize = 0;
        proof {
            assert(entries_view(out@) =~= page_of(ts.take(0), cur, limit as nat));
        }
        while i < n
            invariant
                i <= n,
                n == ts.len(),
                ts == self@.transfers,
                cur == cursor_view(start_after),
                out@.len() <= limit,
                entries_view(out@) == page_of(ts.take(i as int), cur, limit as nat),
            decreases n - i,
        {
            let is_after = match start_after {
                None => true,
                Some(s) => str_lex_lt(s.as_str(), self.transfers[i].0.as_str()),
            };
            proof {
                lemma_page_push(ts.take(i as int), ts[i as int], cur, limit as nat);
                assert(ts.take(i as int + 1) =~= ts.take(i as int).push(ts[i as int]));
            }
            if is_after && out.len() < limit {
                let entry = (self.transfers[i].0.clone(), self.transfers[i].1.duplicate());
                out.push(entry);
                proof {
                    assert(entries_view(out@) =~= page_of(ts.take(i as int + 1), cur, limit as nat));
                }
            }
            i += 1;
        }
        proof {
            assert(ts.take(n as int) =~= ts);
        }
        out
    }
}

/// The pagination cursor as an optional character sequence.
pub open spec fn cursor_view(start: Option<&String>) -> Option<Seq<char>> {
    match start {
        None => None,
        Some(s) => Some(s@),
    }
}

} // verus!
