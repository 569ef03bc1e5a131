//! The table of authentication sessions in progress.
//!
//! Each session lives in a slot of a growing vector; released slots are kept
//! on a free list threaded through their `id` fields. Session ids handed to
//! clients encode the slot index, scrambled with a per-table random mask.

use vstd::prelude::*;
use vstd::wrapping::u32_specs;
use std::time::Duration;
use std::time::Instant;
use crate::addr::RemoteAddr;

verus! {

#[verifier::external_type_specification]
#[verifier::external_body]
pub struct ExInstant(Instant);

/// Calls `std::time::Instant::now`. Nothing is claimed of the reading.
#[verifier::external_body]
fn instant_now() -> Instant {
    Instant::now()
}

/// Calls `std::time::Instant::elapsed`. Nothing is claimed: the result
/// depends on the clock.
#[verifier::external_body]
fn instant_elapsed(start: &Instant) -> Duration {
    start.elapsed()
}

/// Calls `std::time::Duration::as_nanos`. Nothing is claimed of the value.
#[verifier::external_body]
fn duration_as_nanos(duration: &Duration) -> u128 {
    duration.as_nanos()
}

/// Calls `rand::random::<u32>()`, a value from the thread-local generator.
/// Nothing is claimed of it.
#[verifier::external_body]
pub(crate) fn random_u32() -> u32 {
    rand::random::<u32>()
}

/// The session id that encodes slot `index`, given the table's mask, its
/// capacity `m` and a random number: the random number is rounded down to a
/// multiple of `m`, and the slot index, shifted by an amount that depends on
/// the mask and the interval, is added to it; the sum is masked.
pub open spec fn encode_spec(mask: u32, m: u32, index: u32, random: u32) -> u32 {
    let start = (random - random % m) as u32;
    let shift = u32_specs::wrapping_add(mask, start / m) % m;
    let encoded = ((shift + index % m) % (m as int)) as u32;
    u32_specs::wrapping_add(start, encoded) ^ mask
}

/// The slot index a session id stands for: the inverse of `encode_spec`.
pub open spec fn decode_spec(mask: u32, m: u32, session_id: u32) -> u32 {
    let s = session_id ^ mask;
    let e = s % m;
    let start = (s - e) as u32;
    let shift = u32_specs::wrapping_add(mask, start / m) % m;
    ((m - shift + e) % (m as int)) as u32
}

/// A remainder is never larger than the number divided.
proof fn lemma_mod_le(x: u32, m: u32)
    requires
        0 < m,
    ensures
        x % m <= x,
{
    vstd::arithmetic::div_mod::lemma_fundamental_div_mod(x as int, m as int);
    vstd::arithmetic::mul::lemma_mul_nonnegative(m as int, (x / m) as int);
}

/// Decoding an encoded session id gives back the slot index, for any mask and
/// random number whose interval does not run past the end of the `u32` range
/// (always so when `m` divides 2^32).
pub proof fn lemma_decode_encode(mask: u32, m: u32, index: u32, random: u32)
    requires
        0 < m,
        index < m,
        (random - random % m) + m <= 0x1_0000_0000,
    ensures
        decode_spec(mask, m, encode_spec(mask, m, index, random)) == index,
{
    let start = (random - random % m) as u32;
    vstd::arithmetic::div_mod::lemma_fundamental_div_mod(random as int, m as int);
    let q = random / m;
    vstd::arithmetic::mul::lemma_mul_is_commutative(m as int, q as int);
    assert(start == q * m);
    let shift = u32_specs::wrapping_add(mask, start / m) % m;
    let encoded = ((shift + index % m) % (m as int)) as u32;
    assert(index % m == index) by {
        vstd::arithmetic::div_mod::lemma_fundamental_div_mod_converse(index as int, m as int, 0, index as int);
    }
    assert(encoded < m);
    let x = u32_specs::wrapping_add(start, encoded);
    assert(x == start + encoded);
    let id = x ^ mask;
    assert((x ^ mask) ^ mask == x) by (bit_vector);
    let s = id ^ mask;
    assert(s == x);
    vstd::arithmetic::div_mod::lemma_fundamental_div_mod_converse(s as int, m as int, q as int, encoded as int);
    assert(s % m == encoded);
    assert((s - s % m) as u32 == start);
    vstd::arithmetic::div_mod::lemma_fundamental_div_mod_converse(start as int, m as int, q as int, 0);
    assert(start / m == q);
    if shift + index < m {
        assert((shift + index) % (m as int) == shift + index) by {
            vstd::arithmetic::div_mod::lemma_fundamental_div_mod_converse((shift + index) as int, m as int, 0, (shift + index) as int);
        }
        assert((m - shift + encoded) % (m as int) == index) by {
            vstd::arithmetic::div_mod::lemma_fundamental_div_mod_converse((m - shift + encoded) as int, m as int, 1, index as int);
        }
    } else {
        assert((shift + index) % (m as int) == shift + index - m) by {
            vstd::arithmetic::div_mod::lemma_fundamental_div_mod_converse((shift + index) as int, m as int, 1, (shift + index - m) as int);
        }
        assert((m - shift + encoded) % (m as int) == index) by {
            vstd::arithmetic::div_mod::lemma_fundamental_div_mod_converse((m - shift + encoded) as int, m as int, 0, index as int);
        }
    }
}

} // verus!

verus! {

/// What a session holds while the exchange goes on. `V` is the server side of
/// the password check, kept between the ephemeral and proof messages.
#[derive(Debug)]
pub struct Data<V> {
    pub user_id: usize,
    pub client_session_id: u32,
    pub client_public_key: Vec<u8>,
    pub server_public_key: Vec<u8>,
    pub verifier: Option<V>,
}

impl<V> Default for Data<V> {
    fn default() -> (d: Self)
        ensures
            d.user_id == 0,
            d.client_session_id == 0,
            d.client_public_key@ == Seq::<u8>::empty(),
            d.server_public_key@ == Seq::<u8>::empty(),
            d.verifier is None,
    {
        Data {
            user_id: 0,
            client_session_id: 0,
            client_public_key: Vec::new(),
            server_public_key: Vec::new(),
            verifier: None,
        }
    }
}

/// One slot of the table. A released slot keeps the index of the next free
/// slot in `id` (negative at the end of the free list); `last_updated` is in
/// nanoseconds since the table was made.
pub struct Session<V> {
    pub id: i16,
    pub data: Option<Data<V>>,
    pub last_updated: u128,
    pub owner: Option<RemoteAddr>,
}

/// The slots, the head of the free list and the count of sessions in use:
/// what the table's operations change.
pub type TableState<V> = (Seq<Session<V>>, i16, i16);

/// Whether a slot last touched at `last_updated` has outlived `lifetime`
/// seconds at time `now` (both in nanoseconds): whole elapsed seconds, never
/// negative, compared with the lifetime read as an unsigned number.
pub open spec fn session_expired<V>(s: Session<V>, lifetime: i16, now: u128) -> bool {
    let elapsed: int = if now >= s.last_updated {
        (now - s.last_updated) / 1_000_000_000
    } else {
        0
    };
    elapsed >= (lifetime as u64)
}

/// The slot a session id designates, when that slot exists, has not expired at
/// `now`, and belongs to `remote`.
pub open spec fn find_index<V>(
    entries: Seq<Session<V>>,
    mask: u32,
    max_entries: i16,
    lifetime: i16,
    remote: RemoteAddr,
    session_id: u32,
    now: u128,
) -> Option<int> {
    let i = decode_spec(mask, max_entries as u32, session_id) as int;
    if i < entries.len() && !session_expired(entries[i], lifetime, now) && entries[i].owner == Some(
        remote,
    ) {
        Some(i)
    } else {
        None
    }
}

/// The slot a new session takes: the head of the free list, or a new slot at
/// the end when the list is empty.
pub open spec fn alloc_index<V>(t: TableState<V>) -> int {
    if t.1 >= 0 {
        t.1 as int
    } else {
        t.0.len() as int
    }
}

/// The table after a session for `owner` is created at `now`. A reused slot
/// keeps its data; its `id` becomes the new head of the free list.
pub open spec fn create_state<V>(t: TableState<V>, owner: RemoteAddr, now: u128) -> TableState<V> {
    let (entries, next_free, used) = t;
    if next_free >= 0 {
        let i = next_free as int;
        (
            entries.update(
                i,
                Session { id: entries[i].id, data: entries[i].data, last_updated: now, owner: Some(owner) },
            ),
            entries[i].id,
            (used + 1) as i16,
        )
    } else {
        (
            entries.push(Session { id: 0, data: None, last_updated: now, owner: Some(owner) }),
            next_free,
            (used + 1) as i16,
        )
    }
}

/// The table after slot `session_id` is released, when it holds a live
/// session: the slot loses its owner, goes on the free list, and the count in
/// use drops by one. A free slot or an index out of range changes nothing.
pub open spec fn destroy_state<V>(t: TableState<V>, session_id: u32) -> TableState<V> {
    let (entries, next_free, used) = t;
    let i = session_id as int;
    if i < entries.len() && entries[i].owner is Some {
        (
            entries.update(
                i,
                Session {
                    id: next_free,
                    data: entries[i].data,
                    last_updated: entries[i].last_updated,
                    owner: None,
                },
            ),
            session_id as i16,
            (used - 1) as i16,
        )
    } else {
        t
    }
}

/// The table after the first `k` slots are visited in order and each live one
/// expired at `now` is released.
pub open spec fn clean_state<V>(t: TableState<V>, lifetime: i16, now: u128, k: nat) -> TableState<V>
    decreases k,
{
    if k == 0 {
        t
    } else {
        let before = clean_state(t, lifetime, now, (k - 1) as nat);
        if (k - 1) < t.0.len() && t.0[k - 1].owner is Some && session_expired(t.0[k - 1], lifetime, now) {
            destroy_state(before, (k - 1) as u32)
        } else {
            before
        }
    }
}

/// Whether slot `s` holds a live session (one created and not yet released).
pub open spec fn is_live<V>(s: Session<V>) -> bool {
    s.owner is Some
}

/// The number of live sessions among `entries`.
pub open spec fn live_count<V>(entries: Seq<Session<V>>) -> nat
    decreases entries.len(),
{
    if entries.len() == 0 {
        0
    } else {
        live_count(entries.drop_last()) + if is_live(entries.last()) {
            1nat
        } else {
            0nat
        }
    }
}

/// Appending a slot adds one to the count when the slot is live.
pub proof fn lemma_live_count_push<V>(entries: Seq<Session<V>>, x: Session<V>)
    ensures
        live_count(entries.push(x)) == live_count(entries) + if is_live(x) {
            1int
        } else {
            0int
        },
{
    assert(entries.push(x).drop_last() =~= entries);
}

/// Replacing slot `i` changes the count by the change in its liveness.
pub proof fn lemma_live_count_update<V>(entries: Seq<Session<V>>, i: int, x: Session<V>)
    requires
        0 <= i < entries.len(),
    ensures
        live_count(entries.update(i, x)) == live_count(entries) - (if is_live(entries[i]) {
            1int
        } else {
            0int
        }) + (if is_live(x) {
            1int
        } else {
            0int
        }),
    decreases entries.len(),
{
    let u = entries.update(i, x);
    if i == entries.len() - 1 {
        assert(u.drop_last() =~= entries.drop_last());
    } else {
        assert(u.drop_last() =~= entries.drop_last().update(i, x));
        lemma_live_count_update(entries.drop_last(), i, x);
    }
}

/// When every slot is live, the count is the number of slots.
pub proof fn lemma_live_count_all<V>(entries: Seq<Session<V>>)
    requires
        forall|i: int| 0 <= i < entries.len() ==> is_live(#[trigger] entries[i]),
    ensures
        live_count(entries) == entries.len(),
    decreases entries.len(),
{
    if entries.len() > 0 {
        lemma_live_count_all(entries.drop_last());
    }
}

/// Two tables whose slots are live at the same places have the same count.
proof fn lemma_live_count_same<V>(a: Seq<Session<V>>, b: Seq<Session<V>>)
    requires
        a.len() == b.len(),
        forall|i: int| 0 <= i < a.len() ==> is_live(#[trigger] a[i]) == is_live(b[i]),
    ensures
        live_count(a) == live_count(b),
    decreases a.len(),
{
    if a.len() > 0 {
        lemma_live_count_same(a.drop_last(), b.drop_last());
    }
}

/// `free` lists, in order, exactly the slots that hold no live session, each
/// once, starting at `next_free` and linked through the slots' `id` fields; the
/// last link is negative.
pub open spec fn free_list_ok<V>(entries: Seq<Session<V>>, next_free: i16, free: Seq<int>) -> bool {
    &&& free.no_duplicates()
    &&& forall|k: int|
        0 <= k < free.len() ==> 0 <= #[trigger] free[k] < entries.len() && !is_live(entries[free[k]])
    &&& forall|i: int| 0 <= i < entries.len() && !is_live(#[trigger] entries[i]) ==> free.contains(i)
    &&& if free.len() == 0 {
        next_free < 0
    } else {
        next_free == free[0]
    }
    &&& forall|k: int| 0 <= k < free.len() - 1 ==> entries[#[trigger] free[k]].id == free[k + 1]
    &&& free.len() > 0 ==> entries[free.last()].id < 0
}

/// The free list does not look at the slots' data or times.
proof fn lemma_free_list_frame<V>(a: Seq<Session<V>>, b: Seq<Session<V>>, next_free: i16, free: Seq<int>)
    requires
        free_list_ok(a, next_free, free),
        a.len() == b.len(),
        forall|i: int| 0 <= i < a.len() ==> (#[trigger] a[i]).id == b[i].id && a[i].owner == b[i].owner,
    ensures
        free_list_ok(b, next_free, free),
{
    assert forall|k: int| 0 <= k < free.len() - 1 implies b[#[trigger] free[k]].id == free[k + 1] by {
        assert(a[free[k]].id == free[k + 1]);
    }
    assert forall|k: int| 0 <= k < free.len() implies 0 <= #[trigger] free[k] < b.len() && !is_live(b[free[k]]) by {
        assert(!is_live(a[free[k]]));
    }
    assert forall|i: int| 0 <= i < b.len() && !is_live(#[trigger] b[i]) implies free.contains(i) by {
        assert(!is_live(a[i]));
    }
    if free.len() > 0 {
        assert(b[free.last()].id == a[free.last()].id);
    }
}

/// Taking the head of the free list for a live session leaves a well-formed
/// free list that starts at the head's link.
proof fn lemma_free_list_pop<V>(entries: Seq<Session<V>>, next_free: i16, free: Seq<int>, x: Session<V>)
    requires
        free_list_ok(entries, next_free, free),
        free.len() > 0,
        is_live(x),
    ensures
        free_list_ok(entries.update(free[0], x), entries[free[0]].id, free.drop_first()),
{
    let i = free[0];
    let e = entries.update(i, x);
    let f = free.drop_first();
    assert(free.contains(i));
    assert forall|k: int| 0 <= k < f.len() implies 0 <= #[trigger] f[k] < e.len() && !is_live(e[f[k]]) by {
        assert(f[k] == free[k + 1]);
        assert(free[k + 1] != free[0]);
    }
    assert forall|j: int| 0 <= j < e.len() && !is_live(#[trigger] e[j]) implies f.contains(j) by {
        assert(j != i);
        assert(!is_live(entries[j]));
        assert(free.contains(j));
        let k = choose|k: int| 0 <= k < free.len() && free[k] == j;
        assert(k != 0);
        assert(f[k - 1] == j);
    }
    assert forall|k: int| 0 <= k < f.len() - 1 implies e[#[trigger] f[k]].id == f[k + 1] by {
        assert(f[k] == free[k + 1]);
        assert(free[k + 1] != free[0]);
        assert(entries[free[k + 1]].id == free[k + 2]);
    }
    if f.len() > 0 {
        assert(f.last() == free.last());
        assert(free.last() != free[0]) by {
            assert(free[free.len() - 1] != free[0]);
        }
        assert(entries[free[0]].id == free[1]);
    }
    assert(f.no_duplicates()) by {
        assert forall|a: int, b: int| 0 <= a < f.len() && 0 <= b < f.len() && a != b implies f[a] != f[b] by {
            assert(f[a] == free[a + 1] && f[b] == free[b + 1]);
        }
    }
}

/// Appending a live slot keeps an empty free list well formed.
proof fn lemma_free_list_append<V>(entries: Seq<Session<V>>, next_free: i16, x: Session<V>)
    requires
        free_list_ok(entries, next_free, Seq::<int>::empty()),
        is_live(x),
    ensures
        free_list_ok(entries.push(x), next_free, Seq::<int>::empty()),
{
    let e = entries.push(x);
    assert forall|j: int| 0 <= j < e.len() && !is_live(#[trigger] e[j]) implies Seq::<int>::empty().contains(j) by {
        assert(j < entries.len());
        assert(e[j] == entries[j]);
    }
}

/// Releasing live slot `i` puts it at the head of the free list.
proof fn lemma_free_list_release<V>(entries: Seq<Session<V>>, next_free: i16, free: Seq<int>, i: int)
    requires
        free_list_ok(entries, next_free, free),
        0 <= i < entries.len(),
        i < 0x8000,
        is_live(entries[i]),
    ensures
        ({
            let x = Session {
                id: next_free,
                data: entries[i].data,
                last_updated: entries[i].last_updated,
                owner: None,
            };
            free_list_ok(entries.update(i, x), i as i16, seq![i] + free)
        }),
{
    let x = Session { id: next_free, data: entries[i].data, last_updated: entries[i].last_updated, owner: None };
    let e = entries.update(i, x);
    let f = seq![i] + free;
    assert(!free.contains(i)) by {
        if free.contains(i) {
            let k = choose|k: int| 0 <= k < free.len() && free[k] == i;
            assert(!is_live(entries[free[k]]));
        }
    }
    assert forall|k: int| 0 <= k < f.len() implies 0 <= #[trigger] f[k] < e.len() && !is_live(e[f[k]]) by {
        if k > 0 {
            assert(f[k] == free[k - 1]);
            assert(free[k - 1] != i) by {
                assert(free.contains(free[k - 1]));
            }
        }
    }
    assert forall|j: int| 0 <= j < e.len() && !is_live(#[trigger] e[j]) implies f.contains(j) by {
        if j == i {
            assert(f[0] == i);
        } else {
            assert(!is_live(entries[j]));
            assert(free.contains(j));
            let k = choose|k: int| 0 <= k < free.len() && free[k] == j;
            assert(f[k + 1] == j);
        }
    }
    assert forall|k: int| 0 <= k < f.len() - 1 implies e[#[trigger] f[k]].id == f[k + 1] by {
        if k == 0 {
            assert(f[1] == free[0]);
        } else {
            assert(f[k] == free[k - 1]);
            assert(free[k - 1] != i) by {
                assert(free.contains(free[k - 1]));
            }
            assert(entries[free[k - 1]].id == free[k]);
        }
    }
    if free.len() > 0 {
        assert(f.last() == free.last());
        assert(free.last() != i) by {
            assert(free.contains(free[free.len() - 1]));
        }
    } else {
        assert(f.last() == i);
    }
    assert(f.no_duplicates()) by {
        assert forall|a: int, b: int| 0 <= a < f.len() && 0 <= b < f.len() && a != b implies f[a] != f[b] by {
            if a > 0 && b > 0 {
                assert(f[a] == free[a - 1] && f[b] == free[b - 1]);
            } else if a == 0 {
                assert(free.contains(f[b]));
            } else {
                assert(free.contains(f[a]));
            }
        }
    }
    assert((i as i16) as int == i);
}

/// Slot `i` with its data replaced by `data`.
pub open spec fn with_data<V>(s: Session<V>, data: Option<Data<V>>) -> Session<V> {
    Session { id: s.id, data, last_updated: s.last_updated, owner: s.owner }
}

/// Slot `i` with its data replaced by `data` and its time set to `now`.
pub open spec fn with_data_at<V>(s: Session<V>, data: Option<Data<V>>, now: u128) -> Session<V> {
    Session { id: s.id, data, last_updated: now, owner: s.owner }
}

/// A fixed-capacity table of sessions, each owned by the address that created
/// it and valid for `session_lifetime` seconds after its last update.
pub struct SessionList<V> {
    entries: Vec<Session<V>>,
    max_entries: i16,
    used_entries: i16,
    next_free_entry: i16,
    session_lifetime: i16,
    session_mask: u32,
    epoch: Instant,
    free: Ghost<Seq<int>>,
    readings: Ghost<Seq<u128>>,
}

impl<V> SessionList<V> {
    /// The table is well formed: a positive capacity that bounds the number of
    /// slots, a count in use equal to the number of live sessions, and a free
    /// list that holds every other slot exactly once.
    pub closed spec fn wf(&self) -> bool {
        &&& 0 < self.max_entries
        &&& self.entries@.len() <= self.max_entries
        &&& self.used_entries == live_count(self.entries@)
        &&& free_list_ok(self.entries@, self.next_free_entry, self.free@)
    }

    pub closed spec fn entries_spec(&self) -> Seq<Session<V>> {
        self.entries@
    }

    pub closed spec fn max_spec(&self) -> i16 {
        self.max_entries
    }

    pub closed spec fn used_spec(&self) -> i16 {
        self.used_entries
    }

    pub closed spec fn next_free_spec(&self) -> i16 {
        self.next_free_entry
    }

    pub closed spec fn lifetime_spec(&self) -> i16 {
        self.session_lifetime
    }

    pub closed spec fn mask_spec(&self) -> u32 {
        self.session_mask
    }

    pub closed spec fn epoch_spec(&self) -> Instant {
        self.epoch
    }

    /// The clock readings the table has taken, oldest first (each in
    /// nanoseconds since the table was made).
    pub closed spec fn readings(&self) -> Seq<u128> {
        self.readings@
    }

    /// The latest clock reading.
    pub open spec fn latest(&self) -> u128 {
        self.readings().last()
    }

    /// `self` has taken exactly one clock reading more than `before`.
    pub open spec fn one_reading_after(&self, before: &Self) -> bool {
        &&& self.readings().len() == before.readings().len() + 1
        &&& self.readings().drop_last() == before.readings()
    }

    /// Slots, free-list head and count in use.
    pub open spec fn state(&self) -> TableState<V> {
        (self.entries_spec(), self.next_free_spec(), self.used_spec())
    }

    /// Capacity, lifetime, mask and clock origin: what no operation changes.
    pub open spec fn same_config(&self, other: &Self) -> bool {
        &&& self.max_spec() == other.max_spec()
        &&& self.lifetime_spec() == other.lifetime_spec()
        &&& self.mask_spec() == other.mask_spec()
        &&& self.epoch_spec() == other.epoch_spec()
    }

    /// The slot a session id designates for `remote` at time `now`, if any.
    pub open spec fn find_spec(&self, remote: RemoteAddr, session_id: u32, now: u128) -> Option<int> {
        find_index(
            self.entries_spec(),
            self.mask_spec(),
            self.max_spec(),
            self.lifetime_spec(),
            remote,
            session_id,
            now,
        )
    }

    /// Taking the data of session `session_id` for `remote` at `now`: from
    /// `before` to `after`, returning `r`.
    pub open spec fn take_data_post(
        before: Self,
        after: Self,
        remote: RemoteAddr,
        session_id: u32,
        now: u128,
        r: Option<Data<V>>,
    ) -> bool {
        &&& after.same_config(&before)
        &&& match before.find_spec(remote, session_id, now) {
            Some(i) => {
                &&& r == before.entries_spec()[i].data
                &&& after.state() == (
                    before.entries_spec().update(i, with_data(before.entries_spec()[i], None)),
                    before.next_free_spec(),
                    before.used_spec(),
                )
            },
            None => r is None && after.state() == before.state(),
        }
    }

    /// Storing `data` in session `session_id` for `remote` at `now`: from
    /// `before` to `after`, returning `r`.
    pub open spec fn set_data_post(
        before: Self,
        after: Self,
        remote: RemoteAddr,
        session_id: u32,
        data: Data<V>,
        now: u128,
        r: bool,
    ) -> bool {
        &&& after.same_config(&before)
        &&& match before.find_spec(remote, session_id, now) {
            Some(i) => {
                &&& r
                &&& after.state() == (
                    before.entries_spec().update(
                        i,
                        with_data_at(before.entries_spec()[i], Some(data), now),
                    ),
                    before.next_free_spec(),
                    before.used_spec(),
                )
            },
            None => !r && after.state() == before.state(),
        }
    }

    /// Creating a session for `owner` at `now` with random number `random`:
    /// from `before` to `after`, returning `r`.
    pub open spec fn create_post(
        before: Self,
        after: Self,
        owner: RemoteAddr,
        now: u128,
        random: u32,
        r: Option<u32>,
    ) -> bool {
        &&& after.same_config(&before)
        &&& if before.used_spec() < before.max_spec() {
            &&& r == Some(
                encode_spec(
                    before.mask_spec(),
                    before.max_spec() as u32,
                    alloc_index(before.state()) as u32,
                    random,
                ),
            )
            &&& after.state() == create_state(before.state(), owner, now)
        } else {
            r is None && after.state() == before.state()
        }
    }

    /// A table for at most `max_entries` sessions at once, each expiring
    /// `session_lifetime` seconds after its last update, with a fresh random
    /// mask for session ids.
    pub fn new(max_entries: i16, session_lifetime: i16) -> (r: Self)
        requires
            0 < max_entries,
        ensures
            r.entries_spec() == Seq::<Session<V>>::empty(),
            r.max_spec() == max_entries,
            r.used_spec() == 0,
            r.next_free_spec() == -1,
            r.lifetime_spec() == session_lifetime,
            r.readings() == Seq::<u128>::empty(),
            r.wf(),
    {
        Self {
            entries: Vec::with_capacity(4),
            max_entries,
            used_entries: 0,
            next_free_entry: -1,
            session_lifetime,
            session_mask: random_u32(),
            epoch: instant_now(),
            free: Ghost(Seq::empty()),
            readings: Ghost(Seq::empty()),
        }
    }

    /// Reads the clock: nanoseconds since the table was made. The reading is
    /// recorded as the table's latest; nothing else changes.
    pub fn now(&mut self) -> (r: u128)
        ensures
            final(self).one_reading_after(&*old(self)),
            final(self).latest() == r,
            final(self).state() == old(self).state(),
            final(self).same_config(&*old(self)),
            final(self).wf() == old(self).wf(),
    {
        let elapsed = instant_elapsed(&self.epoch);
        let r = duration_as_nanos(&elapsed);
        self.readings = Ghost(self.readings@.push(r));
        assert(self.readings@.drop_last() =~= old(self).readings@);
        r
    }

    /// Number of slots ever allocated.
    pub fn reserved_entries(&self) -> (r: usize)
        ensures
            r == self.entries_spec().len(),
    {
        self.entries.len()
    }

    /// Number of sessions counted as in use.
    pub fn used_entries(&self) -> (r: i16)
        ensures
            r == self.used_spec(),
    {
        self.used_entries
    }

    /// The session id for slot `index`, from a fresh random number.
    pub fn encode_session_id(&self, index: usize) -> (r: u32)
        requires
            0 < self.max_spec(),
        ensures
            exists|random: u32|
                r == #[trigger] encode_spec(self.mask_spec(), self.max_spec() as u32, index as u32, random),
    {
        let random_number = random_u32();
        self.encode_session_id_with(index, random_number)
    }

    /// The session id for slot `index`, from the given random number.
    pub fn encode_session_id_with(&self, index: usize, random_number: u32) -> (r: u32)
        requires
            0 < self.max_spec(),
        ensures
            r == encode_spec(self.mask_spec(), self.max_spec() as u32, index as u32, random_number),
    {
        let m = self.max_entries as u32;
        // Bring the random number to the start of the interval that the random
        // number is in.
        proof {
            lemma_mod_le(random_number, m);
        }
        let start_of_interval = random_number - random_number % m;
        let mask = self.session_mask.wrapping_add(start_of_interval / m);
        let shift_amount = mask % m;
        let encoded_index = (shift_amount + (index as u32) % m) % m;
        start_of_interval.wrapping_add(encoded_index) ^ self.session_mask
    }

    /// The slot index a session id stands for.
    pub fn decode_session_id(&self, session_id: u32) -> (r: usize)
        requires
            0 < self.max_spec(),
        ensures
            r == decode_spec(self.mask_spec(), self.max_spec() as u32, session_id),
    {
        let m = self.max_entries as u32;
        let session_id = session_id ^ self.session_mask;
        let encoded_index = session_id % m;
        proof {
            lemma_mod_le(session_id, m);
        }
        let start_of_interval = session_id - encoded_index;
        let mask = self.session_mask.wrapping_add(start_of_interval / m);
        let shift = mask % m;
        let index = (m - shift + encoded_index) % m;
        index as usize
    }

    /// Takes the head of the free list, or appends a new slot. The slot is
    /// left without an owner, for the caller to fill in.
    fn alloc_session(&mut self) -> (r: usize)
        requires
            old(self).wf(),
            old(self).used_spec() < old(self).max_spec(),
        ensures
            r == alloc_index(old(self).state()),
            r < final(self).entries_spec().len(),
            final(self).same_config(&*old(self)),
            final(self).readings() == old(self).readings(),
            final(self).used_spec() == old(self).used_spec(),
            old(self).next_free_spec() >= 0 ==> {
                &&& final(self).entries_spec() == old(self).entries_spec()
                &&& final(self).next_free_spec() == old(self).entries_spec()[r as int].id
                &&& old(self).free@.len() > 0 && old(self).free@[0] == r
                &&& final(self).free@ == old(self).free@.drop_first()
            },
            old(self).next_free_spec() < 0 ==> {
                &&& final(self).entries_spec() == old(self).entries_spec().push(
                    Session { id: 0, data: None, last_updated: 0, owner: None },
                )
                &&& final(self).next_free_spec() == old(self).next_free_spec()
                &&& old(self).entries_spec().len() < old(self).max_spec()
                &&& old(self).free@.len() == 0
                &&& final(self).free@ == old(self).free@
            },
    {
        // Use a previously allocated session object from the free list.
        if self.next_free_entry >= 0 {
            let index = self.next_free_entry as usize;
            self.next_free_entry = self.entries[index].id;
            self.free = Ghost(self.free@.drop_first());
            index
        } else {
            proof {
                assert forall|i: int| 0 <= i < self.entries@.len() implies is_live(#[trigger] self.entries@[i]) by {
                    if !is_live(self.entries@[i]) {
                        assert(self.free@.contains(i));
                    }
                }
                lemma_live_count_all(self.entries@);
            }
            let index = self.entries.len();
            self.entries.push(Session { id: 0, data: None, last_updated: 0, owner: None });
            index
        }
    }

    /// Creates a session for `owner` at time `now`, its id drawn with
    /// `random`: it fails when the table is full.
    pub fn create_session_at(&mut self, owner: RemoteAddr, now: u128, random: u32) -> (r: Option<u32>)
        requires
            old(self).wf(),
        ensures
            final(self).wf(),
            Self::create_post(*old(self), *final(self), owner, now, random, r),
            final(self).readings() == old(self).readings(),
    {
        if self.used_entries < self.max_entries {
            let ghost e0 = self.entries@;
            let ghost nf0 = self.next_free_entry;
            let ghost f0 = self.free@;
            let session_index = self.alloc_session();
            let session_id = self.encode_session_id_with(session_index, random);
            self.entries[session_index].last_updated = now;
            self.entries[session_index].owner = Some(owner);
            self.used_entries = self.used_entries + 1;
            assert(self.entries@ =~= create_state(old(self).state(), owner, now).0);
            proof {
                let x = self.entries@[session_index as int];
                if nf0 >= 0 {
                    assert(self.entries@ =~= e0.update(session_index as int, x));
                    lemma_free_list_pop(e0, nf0, f0, x);
                    lemma_live_count_update(e0, session_index as int, x);
                } else {
                    assert(self.entries@ =~= e0.push(x));
                    lemma_free_list_append(e0, nf0, x);
                    lemma_live_count_push(e0, x);
                }
            }
            Some(session_id)
        } else {
            None
        }
    }

    /// Creates a session for `owner`, reading the clock and a fresh random
    /// number: it fails when the table is full.
    pub fn create_session(&mut self, owner: RemoteAddr) -> (r: Option<u32>)
        requires
            old(self).wf(),
        ensures
            final(self).wf(),
            final(self).one_reading_after(&*old(self)),
            exists|random: u32|
                #[trigger] Self::create_post(*old(self), *final(self), owner, final(self).latest(), random, r),
    {
        let now = self.now();
        let random = random_u32();
        let r = self.create_session_at(owner, now, random);
        assert(self.latest() == now);
        assert(Self::create_post(*old(self), *self, owner, self.latest(), random, r));
        r
    }

    /// Whether the session in slot `index` has expired at time `now`.
    pub fn is_expired_session_at(&self, index: usize, now: u128) -> (r: bool)
        requires
            index < self.entries_spec().len(),
        ensures
            r == session_expired(self.entries_spec()[index as int], self.lifetime_spec(), now),
    {
        let last_updated = self.entries[index].last_updated;
        let elapsed: u128 = if now >= last_updated {
            (now - last_updated) / 1_000_000_000
        } else {
            0
        };
        elapsed >= (self.session_lifetime as u64) as u128
    }

    /// Whether the session in slot `index` has expired, by the clock.
    pub fn is_expired_session(&mut self, index: usize) -> (r: bool)
        requires
            index < old(self).entries_spec().len(),
        ensures
            final(self).one_reading_after(&*old(self)),
            final(self).state() == old(self).state(),
            final(self).same_config(&*old(self)),
            final(self).wf() == old(self).wf(),
            r == session_expired(old(self).entries_spec()[index as int], old(self).lifetime_spec(), final(self).latest()),
    {
        let now = self.now();
        self.is_expired_session_at(index, now)
    }

    /// Whether the session in slot `session` was created by `remote_addr`.
    fn is_session_owned_by(&self, session: usize, remote_addr: RemoteAddr) -> (r: bool)
        requires
            session < self.entries_spec().len(),
        ensures
            r == (self.entries_spec()[session as int].owner == Some(remote_addr)),
    {
        match self.entries[session].owner {
            Some(owner) => owner == remote_addr,
            None => false,
        }
    }

    /// The slot of session `session_id` for `remote_addr` at time `now`.
    fn get_session(&self, remote_addr: RemoteAddr, session_id: u32, now: u128) -> (r: Option<usize>)
        requires
            self.wf(),
        ensures
            match self.find_spec(remote_addr, session_id, now) {
                Some(i) => r == Some(i as usize) && i < self.entries_spec().len(),
                None => r is None,
            },
    {
        let session = self.decode_session_id(session_id);
        if session < self.entries.len() && !self.is_expired_session_at(session, now)
            && self.is_session_owned_by(session, remote_addr) {
            return Some(session);
        }
        None
    }

    /// Takes the data of session `session_id` when it exists for `remote_addr`
    /// and has not expired at `now`; the data is left empty.
    pub fn get_session_data_at(&mut self, remote_addr: RemoteAddr, id: u32, now: u128) -> (r: Option<Data<V>>)
        requires
            old(self).wf(),
        ensures
            final(self).wf(),
            Self::take_data_post(*old(self), *final(self), remote_addr, id, now, r),
            final(self).readings() == old(self).readings(),
    {
        if let Some(session) = self.get_session(remote_addr, id, now) {
            let ghost e0 = self.entries@;
            let r = self.entries[session].data.take();
            proof {
                lemma_free_list_frame(e0, self.entries@, self.next_free_entry, self.free@);
                lemma_live_count_same(e0, self.entries@);
            }
            return r;
        }
        None
    }

    /// Takes the data of session `id` for `remote_addr`, by the clock.
    pub fn get_session_data(&mut self, remote_addr: RemoteAddr, id: u32) -> (r: Option<Data<V>>)
        requires
            old(self).wf(),
        ensures
            final(self).wf(),
            final(self).one_reading_after(&*old(self)),
            Self::take_data_post(*old(self), *final(self), remote_addr, id, final(self).latest(), r),
    {
        let now = self.now();
        self.get_session_data_at(remote_addr, id, now)
    }

    /// Stores `data` in session `id` when it exists for `remote_addr` and has
    /// not expired at `now`, and renews it; reports whether it did.
    pub fn set_session_data_at(&mut self, remote_addr: RemoteAddr, id: u32, data: Data<V>, now: u128) -> (r: bool)
        requires
            old(self).wf(),
        ensures
            final(self).wf(),
            Self::set_data_post(*old(self), *final(self), remote_addr, id, data, now, r),
            final(self).readings() == old(self).readings(),
    {
        if let Some(session) = self.get_session(remote_addr, id, now) {
            let ghost e0 = self.entries@;
            self.entries[session].data = Some(data);
            self.entries[session].last_updated = now;
            proof {
                lemma_free_list_frame(e0, self.entries@, self.next_free_entry, self.free@);
                lemma_live_count_same(e0, self.entries@);
            }
            assert(self.entries@ =~= old(self).entries@.update(
                session as int,
                with_data_at(old(self).entries@[session as int], Some(data), now),
            ));
            return true;
        }
        false
    }

    /// Stores `data` in session `id` for `remote_addr`, by the clock.
    pub fn set_session_data(&mut self, remote_addr: RemoteAddr, id: u32, data: Data<V>) -> (r: bool)
        requires
            old(self).wf(),
        ensures
            final(self).wf(),
            final(self).one_reading_after(&*old(self)),
            Self::set_data_post(*old(self), *final(self), remote_addr, id, data, final(self).latest(), r),
    {
        let now = self.now();
        self.set_session_data_at(remote_addr, id, data, now)
    }

    /// Releases slot `session_id` (a slot index) when it holds a live session:
    /// the slot loses its owner, goes on the free list, and the count in use
    /// drops by one. A free slot or an index out of range is left alone.
    pub fn destroy(&mut self, session_id: u32)
        requires
            old(self).wf(),
        ensures
            final(self).wf(),
            final(self).state() == destroy_state(old(self).state(), session_id),
            final(self).same_config(&*old(self)),
            final(self).readings() == old(self).readings(),
    {
        if (session_id as usize) < self.entries.len() && self.entries[session_id as usize].owner.is_some() {
            let index = session_id as usize;
            let ghost e0 = self.entries@;
            let ghost nf0 = self.next_free_entry;
            let ghost f0 = self.free@;
            self.entries[index].id = self.next_free_entry;
            self.entries[index].owner = None;
            self.next_free_entry = session_id as i16;
            proof {
                let x = Session { id: nf0, data: e0[index as int].data, last_updated: e0[index as int].last_updated, owner: None };
                assert(self.entries@ =~= e0.update(index as int, x));
                lemma_free_list_release(e0, nf0, f0, index as int);
                lemma_live_count_update(e0, index as int, x);
            }
            self.used_entries = self.used_entries - 1;
            self.free = Ghost(seq![index as int] + self.free@);
        }
    }

    /// Releases every live slot expired at time `now`, visiting them in order.
    /// Each slot keeps its data and time; a released one loses its owner.
    pub fn clean_at(&mut self, now: u128)
        requires
            old(self).wf(),
        ensures
            final(self).wf(),
            final(self).state() == clean_state(
                old(self).state(),
                old(self).lifetime_spec(),
                now,
                old(self).entries_spec().len(),
            ),
            final(self).same_config(&*old(self)),
            final(self).readings() == old(self).readings(),
            final(self).entries_spec().len() == old(self).entries_spec().len(),
            forall|i: int|
                0 <= i < old(self).entries_spec().len() ==> {
                    let s = old(self).entries_spec()[i];
                    &&& (#[trigger] final(self).entries_spec()[i]).owner == if is_live(s)
                        && session_expired(s, old(self).lifetime_spec(), now) {
                        None
                    } else {
                        s.owner
                    }
                    &&& final(self).entries_spec()[i].data == s.data
                    &&& final(self).entries_spec()[i].last_updated == s.last_updated
                },
    {
        let len = self.entries.len();
        let mut entry: usize = 0;
        while entry < len
            invariant
                self.wf(),
                entry <= len,
                len == old(self).entries_spec().len(),
                self.entries_spec().len() == len,
                self.same_config(&*old(self)),
                self.readings() == old(self).readings(),
                self.state() == clean_state(old(self).state(), old(self).lifetime_spec(), now, entry as nat),
                forall|i: int|
                    entry <= i < len ==> (#[trigger] self.entries_spec()[i]) == old(self).entries_spec()[i],
                forall|i: int|
                    0 <= i < entry ==> {
                        let s = old(self).entries_spec()[i];
                        &&& (#[trigger] self.entries_spec()[i]).owner == if is_live(s)
                            && session_expired(s, old(self).lifetime_spec(), now) {
                            None
                        } else {
                            s.owner
                        }
                        &&& self.entries_spec()[i].data == s.data
                        &&& self.entries_spec()[i].last_updated == s.last_updated
                    },
            decreases len - entry,
        {
            let expired = self.is_expired_session_at(entry, now);
            assert(self.entries_spec()[entry as int] == old(self).entries_spec()[entry as int]);
            if expired && self.entries[entry].owner.is_some() {
                self.destroy(entry as u32);
            }
            entry = entry + 1;
        }
    }

    /// Releases every live expired slot, by the clock.
    pub fn clean(&mut self)
        requires
            old(self).wf(),
        ensures
            final(self).wf(),
            final(self).one_reading_after(&*old(self)),
            final(self).state() == clean_state(
                old(self).state(),
                old(self).lifetime_spec(),
                final(self).latest(),
                old(self).entries_spec().len(),
            ),
            final(self).same_config(&*old(self)),
            final(self).entries_spec().len() == old(self).entries_spec().len(),
            forall|i: int|
                0 <= i < old(self).entries_spec().len() ==> {
                    let s = old(self).entries_spec()[i];
                    &&& (#[trigger] final(self).entries_spec()[i]).owner == if is_live(s)
                        && session_expired(s, old(self).lifetime_spec(), final(self).latest()) {
                        None
                    } else {
                        s.owner
                    }
                    &&& final(self).entries_spec()[i].data == s.data
                    &&& final(self).entries_spec()[i].last_updated == s.last_updated
                },
    {
        let now = self.now();
        self.clean_at(now);
    }
}

} // verus!

verus! {

/// What a well-formed table guarantees: its count in use is the number of live
/// sessions and never exceeds the capacity; the head of the free list is a
/// free slot, and when the list is empty every slot is live.
pub proof fn lemma_wf_facts<V>(list: SessionList<V>)
    requires
        list.wf(),
    ensures
        list.used_spec() == live_count(list.entries_spec()),
        0 <= list.used_spec() <= list.entries_spec().len() <= list.max_spec(),
        list.next_free_spec() >= 0 ==> list.next_free_spec() < list.entries_spec().len()
            && !is_live(list.entries_spec()[list.next_free_spec() as int]),
        list.next_free_spec() < 0 ==> forall|i: int|
            0 <= i < list.entries_spec().len() ==> is_live(#[trigger] list.entries_spec()[i]),
{
    lemma_live_count_le(list.entries_spec());
    if list.next_free_spec() >= 0 {
        assert(list.free@[0] == list.next_free_spec());
    } else {
        assert forall|i: int| 0 <= i < list.entries_spec().len() implies is_live(#[trigger] list.entries_spec()[i]) by {
            if !is_live(list.entries_spec()[i]) {
                assert(list.free@.contains(i));
            }
        }
    }
}

/// The number of live sessions never exceeds the number of slots.
pub proof fn lemma_live_count_le<V>(entries: Seq<Session<V>>)
    ensures
        live_count(entries) <= entries.len(),
    decreases entries.len(),
{
    if entries.len() > 0 {
        lemma_live_count_le(entries.drop_last());
    }
}

/// Creating a session in a well-formed table that is not full takes a slot no
/// live session holds: a new slot, or a free one. The new id designates that
/// slot, now owned by `owner` and updated at `now`; every other slot is as it
/// was, and there is one more live session.
pub proof fn lemma_create_fresh_slot<V>(list: SessionList<V>, owner: RemoteAddr, now: u128, random: u32)
    requires
        list.wf(),
        list.used_spec() < list.max_spec(),
        (random - random % (list.max_spec() as u32)) + (list.max_spec() as u32) <= 0x1_0000_0000,
    ensures
        ({
            let t = list.state();
            let i = alloc_index(t);
            let after = create_state(t, owner, now);
            let id = encode_spec(list.mask_spec(), list.max_spec() as u32, i as u32, random);
            &&& i == t.0.len() || (0 <= i < t.0.len() && !is_live(t.0[i]))
            &&& i < list.max_spec()
            &&& decode_spec(list.mask_spec(), list.max_spec() as u32, id) == i
            &&& after.0.len() == (if i == t.0.len() { t.0.len() + 1 } else { t.0.len() + 0 })
            &&& after.0[i].owner == Some(owner) && after.0[i].last_updated == now
            &&& forall|j: int| 0 <= j < t.0.len() && j != i ==> after.0[j] == t.0[j]
            &&& live_count(after.0) == live_count(t.0) + 1
        }),
{
    lemma_wf_facts(list);
    let t = list.state();
    let i = alloc_index(t);
    let after = create_state(t, owner, now);
    if t.1 < 0 {
        lemma_live_count_all(t.0);
        lemma_live_count_push(t.0, after.0[i]);
        assert(after.0 =~= t.0.push(after.0[i]));
    } else {
        lemma_live_count_update(t.0, i, after.0[i]);
        assert(after.0 =~= t.0.update(i, after.0[i]));
    }
    lemma_decode_encode(list.mask_spec(), list.max_spec() as u32, i as u32, random);
}

/// A session created for `owner` at `now` is found again by its id, for
/// `owner`, at any time before it expires, and never for another address.
/// (It needs the new slot's index to be below the capacity, and the random
/// number's interval not to run past the end of the `u32` range.)
pub proof fn lemma_create_then_find<V>(
    t: TableState<V>,
    mask: u32,
    max_entries: i16,
    lifetime: i16,
    owner: RemoteAddr,
    other: RemoteAddr,
    now: u128,
    later: u128,
    random: u32,
)
    requires
        0 < max_entries,
        t.1 < 0 || t.1 < t.0.len(),
        t.2 < max_entries,
        alloc_index(t) < max_entries,
        (random - random % (max_entries as u32)) + (max_entries as u32) <= 0x1_0000_0000,
        now <= later,
        (later - now) / 1_000_000_000 < (lifetime as u64),
        other != owner,
    ensures
        ({
            let after = create_state(t, owner, now);
            let id = encode_spec(mask, max_entries as u32, alloc_index(t) as u32, random);
            &&& find_index(after.0, mask, max_entries, lifetime, owner, id, later) == Some(
                alloc_index(t),
            )
            &&& find_index(after.0, mask, max_entries, lifetime, other, id, later) is None
        }),
{
    let i = alloc_index(t);
    lemma_decode_encode(mask, max_entries as u32, i as u32, random);
    let after = create_state(t, owner, now);
    assert(after.0[i].last_updated == now);
    assert(after.0[i].owner == Some(owner));
}

/// After data is stored in a session at `now`, the session is found again at
/// any time before it expires, and holds that data: a read after a write gives
/// back what was written.
pub proof fn lemma_set_then_take<V>(
    entries: Seq<Session<V>>,
    mask: u32,
    max_entries: i16,
    lifetime: i16,
    remote: RemoteAddr,
    session_id: u32,
    data: Data<V>,
    now: u128,
    later: u128,
)
    requires
        find_index(entries, mask, max_entries, lifetime, remote, session_id, now) is Some,
        now <= later,
        (later - now) / 1_000_000_000 < (lifetime as u64),
    ensures
        ({
            let i = find_index(entries, mask, max_entries, lifetime, remote, session_id, now)->0;
            let after = entries.update(i, with_data_at(entries[i], Some(data), now));
            &&& find_index(after, mask, max_entries, lifetime, remote, session_id, later) == Some(i)
            &&& after[i].data == Some(data)
        }),
{
}

/// Once a session's data has been taken, taking it again gives nothing.
pub proof fn lemma_take_twice<V>(
    entries: Seq<Session<V>>,
    mask: u32,
    max_entries: i16,
    lifetime: i16,
    remote: RemoteAddr,
    session_id: u32,
    now: u128,
    later: u128,
)
    requires
        find_index(entries, mask, max_entries, lifetime, remote, session_id, now) is Some,
    ensures
        ({
            let i = find_index(entries, mask, max_entries, lifetime, remote, session_id, now)->0;
            let after = entries.update(i, with_data(entries[i], None));
            match find_index(after, mask, max_entries, lifetime, remote, session_id, later) {
                Some(j) => after[j].data is None,
                None => true,
            }
        }),
{
}

/// Nanoseconds from `last_updated` to `now`, none when `now` is earlier.
pub open spec fn elapsed_nanos(last_updated: u128, now: u128) -> int {
    if now >= last_updated {
        now - last_updated
    } else {
        0
    }
}

/// For a non-negative lifetime, a slot has expired exactly when at least
/// `lifetime` seconds' worth of nanoseconds have passed since its last update.
pub proof fn lemma_expired_in_nanos<V>(s: Session<V>, lifetime: i16, now: u128)
    requires
        0 <= lifetime,
    ensures
        session_expired(s, lifetime, now) <==> elapsed_nanos(s.last_updated, now) >= lifetime * 1_000_000_000,
{
    let e = elapsed_nanos(s.last_updated, now);
    let l = lifetime as int;
    assert((lifetime as u64) == l);
    vstd::arithmetic::div_mod::lemma_fundamental_div_mod(e, 1_000_000_000);
    if e / 1_000_000_000 >= l {
        assert(e >= l * 1_000_000_000) by (nonlinear_arith)
            requires e / 1_000_000_000 >= l, e == 1_000_000_000 * (e / 1_000_000_000) + e % 1_000_000_000,
                e % 1_000_000_000 >= 0, l >= 0;
    } else {
        assert(e < l * 1_000_000_000) by (nonlinear_arith)
            requires e / 1_000_000_000 < l, e == 1_000_000_000 * (e / 1_000_000_000) + e % 1_000_000_000,
                e % 1_000_000_000 < 1_000_000_000;
    }
}

/// Cleaning visits the slots in order: after the first `k` visits, each of
/// them that was live and expired has lost its owner, every visited slot keeps
/// its data and time, and the slots not yet visited are untouched.
proof fn lemma_clean_state_slots<V>(t: TableState<V>, lifetime: i16, now: u128, k: nat)
    requires
        k <= t.0.len() < 0x8000,
    ensures
        clean_state(t, lifetime, now, k).0.len() == t.0.len(),
        forall|i: int|
            0 <= i < k ==> {
                let s = t.0[i];
                &&& (#[trigger] clean_state(t, lifetime, now, k).0[i]).owner == if is_live(s)
                    && session_expired(s, lifetime, now) {
                    None
                } else {
                    s.owner
                }
                &&& clean_state(t, lifetime, now, k).0[i].data == s.data
                &&& clean_state(t, lifetime, now, k).0[i].last_updated == s.last_updated
            },
        forall|i: int| k <= i < t.0.len() ==> #[trigger] clean_state(t, lifetime, now, k).0[i] == t.0[i],
    decreases k,
{
    if k > 0 {
        lemma_clean_state_slots(t, lifetime, now, (k - 1) as nat);
        let before = clean_state(t, lifetime, now, (k - 1) as nat);
        assert(before.0[k - 1] == t.0[k - 1]);
        assert(((k - 1) as u32) as int == k - 1);
    }
}

/// Cleaning at clock reading `now` with a non-negative lifetime releases
/// exactly the live sessions whose last update is at least `lifetime` seconds
/// (in nanoseconds) before `now`: they lose their owner, every other slot
/// keeps its owner, and all slots keep their data and time. The count in use
/// is the number of live sessions left.
pub proof fn law_clean_releases_expired<V>(before: SessionList<V>, after: SessionList<V>, now: u128)
    requires
        before.wf(),
        after.wf(),
        0 <= before.lifetime_spec(),
        after.state() == clean_state(before.state(), before.lifetime_spec(), now, before.entries_spec().len()),
    ensures
        after.entries_spec().len() == before.entries_spec().len(),
        forall|i: int|
            0 <= i < before.entries_spec().len() ==> {
                let s = before.entries_spec()[i];
                &&& (#[trigger] after.entries_spec()[i]).owner == if s.owner is Some && elapsed_nanos(
                    s.last_updated,
                    now,
                ) >= before.lifetime_spec() * 1_000_000_000 {
                    None
                } else {
                    s.owner
                }
                &&& after.entries_spec()[i].data == s.data
                &&& after.entries_spec()[i].last_updated == s.last_updated
            },
        after.used_spec() == live_count(after.entries_spec()),
{
    lemma_wf_facts(before);
    lemma_wf_facts(after);
    lemma_clean_state_slots(before.state(), before.lifetime_spec(), now, before.entries_spec().len());
    assert forall|i: int| 0 <= i < before.entries_spec().len() implies {
        let s = before.entries_spec()[i];
        &&& (#[trigger] after.entries_spec()[i]).owner == if s.owner is Some && elapsed_nanos(
            s.last_updated,
            now,
        ) >= before.lifetime_spec() * 1_000_000_000 {
            None
        } else {
            s.owner
        }
        &&& after.entries_spec()[i].data == s.data
        &&& after.entries_spec()[i].last_updated == s.last_updated
    } by {
        lemma_expired_in_nanos(before.entries_spec()[i], before.lifetime_spec(), now);
        assert(after.entries_spec()[i] == clean_state(before.state(), before.lifetime_spec(), now, before.entries_spec().len()).0[i]);
    }
}

/// Session data is handed out only for a live slot owned by the asker whose
/// last update is less than `lifetime` seconds (in nanoseconds) before the time
/// of the lookup: a session that old is not found.
pub proof fn law_take_needs_fresh_session<V>(
    before: SessionList<V>,
    after: SessionList<V>,
    remote: RemoteAddr,
    session_id: u32,
    now: u128,
    r: Option<Data<V>>,
)
    requires
        0 <= before.lifetime_spec(),
        SessionList::take_data_post(before, after, remote, session_id, now, r),
        r is Some,
    ensures
        ({
            let i = decode_spec(before.mask_spec(), before.max_spec() as u32, session_id) as int;
            &&& i < before.entries_spec().len()
            &&& before.entries_spec()[i].owner == Some(remote)
            &&& elapsed_nanos(before.entries_spec()[i].last_updated, now) < before.lifetime_spec()
                * 1_000_000_000
        }),
{
    let i = decode_spec(before.mask_spec(), before.max_spec() as u32, session_id) as int;
    assert(before.find_spec(remote, session_id, now) == Some(i));
    lemma_expired_in_nanos(before.entries_spec()[i], before.lifetime_spec(), now);
}

} // verus!
