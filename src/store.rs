//! The address store: one record per (identity, address) pair, refreshed on
//! each registration and filtered by its time-to-live on every read.
use vstd::prelude::*;
use crate::codec::{records_sized, ADDRESS_LEN, SIGNATURE_LEN};

verus! {

/// Seconds that a successful registration stays valid.
pub const DEFAULT_TTL: u64 = 86400;
/// Seconds handed back when a write did not complete, so that the client
/// registers again soon.
pub const DEGRADED_TTL: u64 = 300;
/// The TTL that a resolve response gives every address, whatever is stored.
pub const RESOLVE_TTL: u64 = 30;
/// The port assumed for a stored record that lacks one.
pub const DEFAULT_PORT: u16 = 5050;

/// One address as a resolve response reports it.
pub struct Addr {
    pub ip: Vec<u8>,
    pub signature: Vec<u8>,
    pub port: u16,
    pub priority: u8,
    pub client: u32,
    pub ttl: u64,
}

/// The content of an `Addr`.
pub struct AddrView {
    pub ip: Seq<u8>,
    pub signature: Seq<u8>,
    pub port: u16,
    pub priority: u8,
    pub client: u32,
    pub ttl: u64,
}

impl View for Addr {
    type V = AddrView;

    open spec fn view(&self) -> AddrView {
        AddrView {
            ip: self.ip@,
            signature: self.signature@,
            port: self.port,
            priority: self.priority,
            client: self.client,
            ttl: self.ttl,
        }
    }
}

/// One stored registration.
pub struct Record {
    pub identity: Vec<u8>,
    pub ip: Vec<u8>,
    pub signature: Vec<u8>,
    pub port: u16,
    pub priority: u8,
    pub client: u32,
    pub registered_at: u64,
    pub ttl: u64,
}

/// A record is live at `now` while `now <= registered_at + ttl`.
pub open spec fn is_live(registered_at: u64, ttl: u64, now: u64) -> bool {
    now <= registered_at + ttl
}

/// What a resolve reports of a stored record.
pub open spec fn reported(r: Record) -> AddrView {
    AddrView {
        ip: r.ip@,
        signature: r.signature@,
        port: r.port,
        priority: r.priority,
        client: r.client,
        ttl: RESOLVE_TTL,
    }
}

/// The TTL reported for a write: the full TTL when the write completed.
pub open spec fn write_ttl_spec(completed: bool) -> u64 {
    if completed { DEFAULT_TTL } else { DEGRADED_TTL }
}

pub fn write_ttl(completed: bool) -> (r: u64)
    ensures
        r == write_ttl_spec(completed),
{
    if completed { DEFAULT_TTL } else { DEGRADED_TTL }
}

/// How a registration reaches storage.
#[derive(Clone, Copy, Debug, PartialEq, Eq, Structural)]
pub enum WriteKind {
    /// The pair has no row yet: add one.
    Insert,
    /// The pair has a row: refresh its port, priority, time and TTL.
    Update,
}

/// Chooses between adding and refreshing a row, given whether the pair of
/// the registration is already stored.
pub fn write_kind(pair_saved: bool) -> (r: WriteKind)
    ensures
        r == (if pair_saved { WriteKind::Update } else { WriteKind::Insert }),
{
    if pair_saved { WriteKind::Update } else { WriteKind::Insert }
}

/// Tests liveness without overflow.
pub fn live_at(registered_at: u64, ttl: u64, now: u64) -> (r: bool)
    ensures
        r == is_live(registered_at, ttl, now),
{
    now <= registered_at || now - registered_at <= ttl
}

fn copy_bytes(b: &[u8]) -> (r: Vec<u8>)
    ensures
        r@ == b@,
{
    let mut r: Vec<u8> = Vec::new();
    let mut i: usize = 0;
    while i < b.len()
        invariant
            i <= b@.len(),
            r@ == b@.subrange(0, i as int),
        decreases b@.len() - i,
    {
        r.push(b[i]);
        i = i + 1;
        assert(r@ =~= b@.subrange(0, i as int));
    }
    assert(b@.subrange(0, b@.len() as int) =~= b@);
    r
}

fn same_bytes(a: &Vec<u8>, b: &[u8]) -> (r: bool)
    ensures
        r == (a@ == b@),
{
    if a.len() != b.len() {
        return false;
    }
    let mut i: usize = 0;
    while i < a.len()
        invariant
            a@.len() == b@.len(),
            i <= a@.len(),
            forall|k: int| 0 <= k < i ==> a@[k] == b@[k],
        decreases a@.len() - i,
    {
        if a[i] != b[i] {
            return false;
        }
        i = i + 1;
    }
    assert(a@ =~= b@);
    true
}

/// The address that a resolve at `now` reports for a row read back from
/// storage, or `None` where the row has expired.
pub fn live_addr(
    ip: Vec<u8>,
    signature: Vec<u8>,
    port: u16,
    priority: u8,
    client: u32,
    registered_at: u64,
    ttl: u64,
    now: u64,
) -> (r: Option<Addr>)
    ensures
        match r {
            Some(a) => is_live(registered_at, ttl, now) && a@ == (AddrView {
                ip: ip@,
                signature: signature@,
                port,
                priority,
                client,
                ttl: RESOLVE_TTL,
            }),
            None => !is_live(registered_at, ttl, now),
        },
{
    if live_at(registered_at, ttl, now) {
        Some(Addr { ip, signature, port, priority, client, ttl: RESOLVE_TTL })
    } else {
        None
    }
}

/// `rows[i]` is the record of the pair (`identity`, `ip`).
pub open spec fn has_key(rows: Seq<Record>, i: int, identity: Seq<u8>, ip: Seq<u8>) -> bool {
    0 <= i < rows.len() && rows[i].identity@ == identity && rows[i].ip@ == ip
}

/// No two rows share a pair.
pub open spec fn keys_unique(rows: Seq<Record>) -> bool {
    forall|i: int, j: int|
        0 <= i < j < rows.len() ==> !(rows[i].identity@ == rows[j].identity@ && rows[i].ip@
            == rows[j].ip@)
}

/// What a resolve of `identity` at `now` reports, in row order.
pub open spec fn live_view(rows: Seq<Record>, identity: Seq<u8>, now: u64) -> Seq<AddrView>
    decreases rows.len(),
{
    if rows.len() == 0 {
        Seq::empty()
    } else {
        let prev = live_view(rows.drop_last(), identity, now);
        let last = rows.last();
        if last.identity@ == identity && is_live(last.registered_at, last.ttl, now) {
            prev.push(reported(last))
        } else {
            prev
        }
    }
}

/// `new` is `old` after a registration of (`identity`, `ip`) at `now`: the
/// pair's row gets the new port and priority and a fresh full TTL, keeping its
/// signature and client tag; a pair without a row gets a new last row.
pub open spec fn saved(
    old: Seq<Record>,
    new: Seq<Record>,
    identity: Seq<u8>,
    ip: Seq<u8>,
    signature: Seq<u8>,
    port: u16,
    priority: u8,
    client: u32,
    now: u64,
) -> bool {
    if exists|i: int| has_key(old, i, identity, ip) {
        exists|i: int|
            {
                &&& #[trigger] has_key(old, i, identity, ip)
                &&& new.len() == old.len()
                &&& forall|j: int| 0 <= j < old.len() && j != i ==> new[j] == old[j]
                &&& new[i].identity@ == identity
                &&& new[i].ip@ == ip
                &&& new[i].signature@ == old[i].signature@
                &&& new[i].client == old[i].client
                &&& new[i].port == port
                &&& new[i].priority == priority
                &&& new[i].registered_at == now
                &&& new[i].ttl == DEFAULT_TTL
            }
    } else {
        &&& new.len() == old.len() + 1
        &&& forall|j: int| 0 <= j < old.len() ==> new[j] == old[j]
        &&& new.last().identity@ == identity
        &&& new.last().ip@ == ip
        &&& new.last().signature@ == signature
        &&& new.last().client == client
        &&& new.last().port == port
        &&& new.last().priority == priority
        &&& new.last().registered_at == now
        &&& new.last().ttl == DEFAULT_TTL
    }
}

/// Every row holds an address and a signature of the wire sizes.
pub open spec fn rows_sized(rows: Seq<Record>) -> bool {
    forall|i: int|
        0 <= i < rows.len() ==> (#[trigger] rows[i]).ip@.len() == ADDRESS_LEN
            && rows[i].signature@.len() == SIGNATURE_LEN
}

/// An address store held in memory.
pub struct AddressTable {
    rows: Vec<Record>,
}

impl AddressTable {
    pub closed spec fn rows(&self) -> Seq<Record> {
        self.rows@
    }

    pub open spec fn wf(&self) -> bool {
        &&& keys_unique(self.rows())
        &&& rows_sized(self.rows())
    }

    pub fn new() -> (r: AddressTable)
        ensures
            r.wf(),
            r.rows() == Seq::<Record>::empty(),
    {
        AddressTable { rows: Vec::new() }
    }

    /// The index of the row of (`identity`, `ip`), if there is one.
    pub fn find(&self, identity: &[u8], ip: &[u8]) -> (r: Option<usize>)
        ensures
            match r {
                Some(i) => has_key(self.rows(), i as int, identity@, ip@),
                None => forall|i: int|
                    #![trigger has_key(self.rows(), i, identity@, ip@)]
                    !has_key(self.rows(), i, identity@, ip@),
            },
    {
        let mut i: usize = 0;
        while i < self.rows.len()
            invariant
                i <= self.rows@.len(),
                forall|k: int| 0 <= k < i ==> !has_key(self.rows@, k, identity@, ip@),
            decreases self.rows@.len() - i,
        {
            if same_bytes(&self.rows[i].identity, identity) && same_bytes(&self.rows[i].ip, ip) {
                return Some(i);
            }
            i = i + 1;
        }
        None
    }

    /// Stores a registration made at `now` and returns the TTL granted.
    pub fn save_address(
        &mut self,
        identity: &[u8],
        ip: &[u8],
        signature: &[u8],
        port: u16,
        priority: u8,
        client: u32,
        now: u64,
    ) -> (r: u64)
        requires
            ip@.len() == ADDRESS_LEN,
            signature@.len() == SIGNATURE_LEN,
        ensures
            old(self).wf() ==> final(self).wf(),
            r == DEFAULT_TTL,
            saved(
                old(self).rows(),
                final(self).rows(),
                identity@,
                ip@,
                signature@,
                port,
                priority,
                client,
                now,
            ),
    {
        match self.find(identity, ip) {
            Some(i) => {
                let ghost before = self.rows@;
                let mut row = self.rows.remove(i);
                row.port = port;
                row.priority = priority;
                row.registered_at = now;
                row.ttl = DEFAULT_TTL;
                self.rows.insert(i, row);
                assert(has_key(before, i as int, identity@, ip@));
                assert forall|j: int| 0 <= j < before.len() && j != i implies self.rows@[j]
                    == before[j] by {};
                assert(has_key(self.rows@, i as int, identity@, ip@));
                assert forall|j: int| 0 <= j < before.len() implies self.rows@[j].identity@
                    == before[j].identity@ && self.rows@[j].ip@ == before[j].ip@
                    && self.rows@[j].signature@ == before[j].signature@ by {};
            },
            None => {
                let row = Record {
                    identity: copy_bytes(identity),
                    ip: copy_bytes(ip),
                    signature: copy_bytes(signature),
                    port,
                    priority,
                    client,
                    registered_at: now,
                    ttl: DEFAULT_TTL,
                };
                let ghost before = self.rows();
                self.rows.push(row);
                assert forall|j: int| 0 <= j < before.len() implies !has_key(
                    before,
                    j,
                    identity@,
                    ip@,
                ) && self.rows@[j] == before[j] by {
                    assert(!has_key(before, j, identity@, ip@));
                };
            },
        }
        write_ttl(true)
    }

    /// The live addresses of `identity` at `now`, each with the resolve TTL.
    pub fn get_addresses(&self, identity: &[u8], now: u64) -> (r: Vec<Addr>)
        ensures
            r@.map_values(|a: Addr| a@) == live_view(self.rows(), identity@, now),
            self.wf() ==> records_sized(r@.map_values(|a: Addr| a@)),
    {
        let mut r: Vec<Addr> = Vec::new();
        let mut i: usize = 0;
        while i < self.rows.len()
            invariant
                i <= self.rows@.len(),
                r@.map_values(|a: Addr| a@) == live_view(self.rows@.subrange(0, i as int), identity@, now),
            decreases self.rows@.len() - i,
        {
            let row = &self.rows[i];
            assert(self.rows@.subrange(0, i + 1).drop_last() =~= self.rows@.subrange(0, i as int));
            if same_bytes(&row.identity, identity) {
                if let Some(a) = live_addr(
                    copy_bytes(row.ip.as_slice()),
                    copy_bytes(row.signature.as_slice()),
                    row.port,
                    row.priority,
                    row.client,
                    row.registered_at,
                    row.ttl,
                    now,
                ) {
                    r.push(a);
                }
            }
            i = i + 1;
            assert(r@.map_values(|a: Addr| a@) =~= live_view(self.rows@.subrange(0, i as int), identity@, now));
        }
        assert(self.rows@.subrange(0, self.rows@.len() as int) =~= self.rows@);
        proof {
            if self.wf() {
                lemma_live_view_sized(self.rows(), identity@, now);
            }
        }
        r
    }
}

/// Seconds since the Unix epoch, by the system clock.
///
/// Relies on std's `SystemTime::now` and `duration_since`; a clock set before
/// the epoch reads as zero.
#[verifier::external_body]
pub fn get_utc_time() -> u64 {
    match std::time::SystemTime::now().duration_since(std::time::UNIX_EPOCH) {
        Ok(elapsed) => elapsed.as_secs(),
        Err(_) => 0,
    }
}

/// A place where registrations are kept.
pub trait Storage {
    /// Saves a new address, or refreshes a known one, for `identity` at time
    /// `now`, and returns the TTL granted in seconds.
    fn save_address(
        &mut self,
        identity: &[u8],
        ip: &[u8],
        signature: &[u8],
        port: u16,
        priority: u8,
        client: u32,
        now: u64,
    ) -> u64
        requires
            ip@.len() == ADDRESS_LEN,
            signature@.len() == SIGNATURE_LEN,
    ;

    /// The addresses of `identity` that are live at `now`.
    fn get_addresses(&self, identity: &[u8], now: u64) -> Vec<Addr>;
}

impl Storage for AddressTable {
    fn save_address(
        &mut self,
        identity: &[u8],
        ip: &[u8],
        signature: &[u8],
        port: u16,
        priority: u8,
        client: u32,
        now: u64,
    ) -> u64 {
        AddressTable::save_address(self, identity, ip, signature, port, priority, client, now)
    }

    fn get_addresses(&self, identity: &[u8], now: u64) -> Vec<Addr> {
        AddressTable::get_addresses(self, identity, now)
    }
}

proof fn lemma_live_view_contains(rows: Seq<Record>, identity: Seq<u8>, now: u64, j: int)
    requires
        0 <= j < rows.len(),
        rows[j].identity@ == identity,
        is_live(rows[j].registered_at, rows[j].ttl, now),
    ensures
        exists|k: int|
            0 <= k < live_view(rows, identity, now).len() && live_view(rows, identity, now)[k]
                == reported(rows[j]),
    decreases rows.len(),
{
    let prev = live_view(rows.drop_last(), identity, now);
    if j == rows.len() - 1 {
        assert(live_view(rows, identity, now)[prev.len() as int] == reported(rows[j]));
    } else {
        lemma_live_view_contains(rows.drop_last(), identity, now, j);
        let k = choose|k: int| 0 <= k < prev.len() && prev[k] == reported(rows.drop_last()[j]);
        assert(live_view(rows, identity, now)[k] == reported(rows[j]));
    }
}

/// The rows that an entry of `live_view(rows, identity, now)` may come from.
pub open spec fn reports_row(rows: Seq<Record>, identity: Seq<u8>, now: u64, a: AddrView, i: int) -> bool {
    &&& 0 <= i < rows.len()
    &&& rows[i].identity@ == identity
    &&& is_live(rows[i].registered_at, rows[i].ttl, now)
    &&& a == reported(rows[i])
}

/// `a` is what a resolve reports of some row of `identity` live at `now`.
pub open spec fn from_live_row(rows: Seq<Record>, identity: Seq<u8>, now: u64, a: AddrView) -> bool {
    exists|i: int| reports_row(rows, identity, now, a, i)
}

/// A resolve reports only rows of the identity asked for that are live at the
/// time of the resolve: an expired record never appears.
pub proof fn lemma_resolve_reports_only_live(rows: Seq<Record>, identity: Seq<u8>, now: u64)
    ensures
        forall|k: int|
            #![trigger live_view(rows, identity, now)[k]]
            0 <= k < live_view(rows, identity, now).len() ==> from_live_row(
                rows,
                identity,
                now,
                live_view(rows, identity, now)[k],
            ),
    decreases rows.len(),
{
    if rows.len() > 0 {
        let view = live_view(rows, identity, now);
        let prev = live_view(rows.drop_last(), identity, now);
        lemma_resolve_reports_only_live(rows.drop_last(), identity, now);
        assert forall|k: int| #![trigger view[k]] 0 <= k < view.len() implies from_live_row(
            rows,
            identity,
            now,
            view[k],
        ) by {
            if k < prev.len() {
                assert(from_live_row(rows.drop_last(), identity, now, prev[k]));
                let i = choose|i: int| reports_row(rows.drop_last(), identity, now, prev[k], i);
                assert(reports_row(rows, identity, now, view[k], i));
            } else {
                assert(reports_row(rows, identity, now, view[k], rows.len() - 1));
            }
        };
    }
}

/// A registration at `now`, new or repeated, is reported by a resolve of its
/// identity at the same time.
pub proof fn lemma_saved_is_resolved(
    old: Seq<Record>,
    new: Seq<Record>,
    identity: Seq<u8>,
    ip: Seq<u8>,
    signature: Seq<u8>,
    port: u16,
    priority: u8,
    client: u32,
    now: u64,
)
    requires
        saved(old, new, identity, ip, signature, port, priority, client, now),
    ensures
        exists|k: int|
            0 <= k < live_view(new, identity, now).len() && (#[trigger] live_view(
                new,
                identity,
                now,
            )[k]).ip == ip && live_view(new, identity, now)[k].port == port && live_view(
                new,
                identity,
                now,
            )[k].priority == priority,
{
    let j = if exists|i: int| has_key(old, i, identity, ip) {
        choose|i: int|
            has_key(old, i, identity, ip) && new.len() == old.len() && new[i].identity@ == identity
                && new[i].ip@ == ip && new[i].registered_at == now && new[i].ttl == DEFAULT_TTL
                && new[i].port == port && new[i].priority == priority
    } else {
        new.len() - 1
    };
    lemma_live_view_contains(new, identity, now, j);
    let k = choose|k: int| 0 <= k < live_view(new, identity, now).len() && live_view(new, identity, now)[k] == reported(new[j]);
    assert(live_view(new, identity, now)[k].ip == ip);
}

/// What a resolve reports of rows of the wire sizes has the wire sizes.
proof fn lemma_live_view_sized(rows: Seq<Record>, identity: Seq<u8>, now: u64)
    requires
        rows_sized(rows),
    ensures
        records_sized(live_view(rows, identity, now)),
{
    let view = live_view(rows, identity, now);
    lemma_resolve_reports_only_live(rows, identity, now);
    assert forall|k: int| 0 <= k < view.len() implies (#[trigger] view[k]).ip.len() == ADDRESS_LEN
        && view[k].signature.len() == SIGNATURE_LEN by {
        assert(from_live_row(rows, identity, now, view[k]));
        let i = choose|i: int| reports_row(rows, identity, now, view[k], i);
        assert(rows_sized(rows) ==> rows[i].ip@.len() == ADDRESS_LEN);
    };
}

proof fn lemma_saved_keeps_keys_unique(
    old: Seq<Record>,
    new: Seq<Record>,
    identity: Seq<u8>,
    ip: Seq<u8>,
    signature: Seq<u8>,
    port: u16,
    priority: u8,
    client: u32,
    now: u64,
)
    requires
        keys_unique(old),
        saved(old, new, identity, ip, signature, port, priority, client, now),
    ensures
        keys_unique(new),
{
    if exists|i: int| has_key(old, i, identity, ip) {
        let i = choose|i: int|
            {
                &&& #[trigger] has_key(old, i, identity, ip)
                &&& new.len() == old.len()
                &&& forall|j: int| 0 <= j < old.len() && j != i ==> new[j] == old[j]
                &&& new[i].identity@ == identity
                &&& new[i].ip@ == ip
            };
        assert forall|j: int| 0 <= j < new.len() implies new[j].identity@ == old[j].identity@
            && new[j].ip@ == old[j].ip@ by {};
        assert forall|a: int, b: int| 0 <= a < b < new.len() implies !(new[a].identity@
            == new[b].identity@ && new[a].ip@ == new[b].ip@) by {
            assert(!(old[a].identity@ == old[b].identity@ && old[a].ip@ == old[b].ip@));
        };
    } else {
        assert forall|a: int, b: int| 0 <= a < b < new.len() implies !(new[a].identity@
            == new[b].identity@ && new[a].ip@ == new[b].ip@) by {
            assert(new[a] == old[a]);
            if b == old.len() {
                assert(!has_key(old, a, identity, ip));
            } else {
                assert(new[b] == old[b]);
            }
        };
    }
}

proof fn lemma_live_view_distinct_ips(rows: Seq<Record>, identity: Seq<u8>, now: u64)
    requires
        keys_unique(rows),
    ensures
        forall|k1: int, k2: int|
            0 <= k1 < live_view(rows, identity, now).len() && 0 <= k2 < live_view(
                rows,
                identity,
                now,
            ).len() && (#[trigger] live_view(rows, identity, now)[k1]).ip == (#[trigger] live_view(
                rows,
                identity,
                now,
            )[k2]).ip ==> k1 == k2,
    decreases rows.len(),
{
    if rows.len() > 0 {
        let view = live_view(rows, identity, now);
        let rest = rows.drop_last();
        let prev = live_view(rest, identity, now);
        let last = rows.last();
        assert(keys_unique(rest));
        lemma_live_view_distinct_ips(rest, identity, now);
        lemma_resolve_reports_only_live(rest, identity, now);
        if last.identity@ == identity && is_live(last.registered_at, last.ttl, now) {
            assert forall|k: int| 0 <= k < prev.len() implies prev[k].ip != last.ip@ by {
                assert(from_live_row(rest, identity, now, prev[k]));
                let i = choose|i: int| reports_row(rest, identity, now, prev[k], i);
                assert(rows[i] == rest[i]);
            };
            assert forall|k1: int, k2: int|
                0 <= k1 < view.len() && 0 <= k2 < view.len() && (#[trigger] view[k1]).ip == (
                #[trigger] view[k2]).ip implies k1 == k2 by {
                if k1 < prev.len() && k2 < prev.len() {
                    assert(view[k1] == prev[k1] && view[k2] == prev[k2]);
                } else if k1 < prev.len() {
                    assert(view[k2].ip == last.ip@);
                    assert(view[k1] == prev[k1]);
                } else if k2 < prev.len() {
                    assert(view[k1].ip == last.ip@);
                    assert(view[k2] == prev[k2]);
                }
            };
        }
    }
}

/// Registering a pair again does not duplicate it: a resolve at the time of
/// the registration reports exactly one entry for the address, with the new
/// port and priority.
pub proof fn lemma_reregistration_updates_in_place(
    old: Seq<Record>,
    new: Seq<Record>,
    identity: Seq<u8>,
    ip: Seq<u8>,
    signature: Seq<u8>,
    port: u16,
    priority: u8,
    client: u32,
    now: u64,
)
    requires
        keys_unique(old),
        saved(old, new, identity, ip, signature, port, priority, client, now),
    ensures
        exists|k: int|
            0 <= k < live_view(new, identity, now).len() && (#[trigger] live_view(
                new,
                identity,
                now,
            )[k]).ip == ip && live_view(new, identity, now)[k].port == port && live_view(
                new,
                identity,
                now,
            )[k].priority == priority,
        forall|k1: int, k2: int|
            0 <= k1 < live_view(new, identity, now).len() && 0 <= k2 < live_view(
                new,
                identity,
                now,
            ).len() && (#[trigger] live_view(new, identity, now)[k1]).ip == ip && (
            #[trigger] live_view(new, identity, now)[k2]).ip == ip ==> k1 == k2,
{
    lemma_saved_is_resolved(old, new, identity, ip, signature, port, priority, client, now);
    lemma_saved_keeps_keys_unique(old, new, identity, ip, signature, port, priority, client, now);
    lemma_live_view_distinct_ips(new, identity, now);
}

} // verus!
