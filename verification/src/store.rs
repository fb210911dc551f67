//! The key-value store: texts under text keys, each with an optional time
//! after which it counts as gone.
//!
//! Time is a number of nanoseconds on the store's own clock, which starts
//! when the store is made. An entry is evicted when a lookup finds it expired.

use crate::resp::value::{Value, ValueView};
use vstd::hash_map::StringHashMap;
use vstd::prelude::*;

verus! {

/// Nanoseconds in a millisecond.
pub const NANOS_PER_MILLI: u128 = 1_000_000;

/// A stored text and the time after which it is expired, if it ever is.
pub struct Entry {
    pub value: String,
    pub expires_at: Option<u128>,
}

/// The mathematical content of an [`Entry`].
pub struct EntryView {
    pub value: Seq<char>,
    pub expires_at: Option<u128>,
}

impl View for Entry {
    type V = EntryView;

    open spec fn view(&self) -> EntryView {
        EntryView { value: self.value@, expires_at: self.expires_at }
    }
}

/// The mathematical content of a [`Store`]: its entries by key.
pub type StoreView = Map<Seq<char>, EntryView>;

/// The time at which an entry set at `now` with `ttl` milliseconds to live
/// expires: `now` plus `ttl` milliseconds, and never where that time lies
/// beyond what the clock can show.
pub open spec fn deadline(now: u128, ttl: u64) -> Option<u128> {
    if now + ttl * NANOS_PER_MILLI <= u128::MAX {
        Some((now + ttl * NANOS_PER_MILLI) as u128)
    } else {
        None
    }
}

/// True when the entry's time to live has passed at `now`.
pub open spec fn expired(entry: EntryView, now: u128) -> bool {
    entry.expires_at matches Some(t) && t < now
}

/// The store after `value` is set under `key`, to expire at `expires_at`.
pub open spec fn stored(
    m: StoreView,
    key: Seq<char>,
    value: Seq<char>,
    expires_at: Option<u128>,
) -> StoreView {
    m.insert(key, EntryView { value, expires_at })
}

/// What a lookup of `key` at time `now` answers, and the store it leaves:
/// null for a key that is absent; null for one that is expired, which is
/// evicted; else the stored text.
pub open spec fn lookup(m: StoreView, key: Seq<char>, now: u128) -> (ValueView, StoreView) {
    if !m.contains_key(key) {
        (ValueView::Null, m)
    } else if expired(m[key], now) {
        (ValueView::Null, m.remove(key))
    } else {
        (ValueView::BulkString(m[key].value), m)
    }
}

/// `tokio::time::Instant`, a moment on the clock, held without looking inside.
#[verifier::external_type_specification]
#[verifier::external_body]
pub struct ExInstant(tokio::time::Instant);

/// `tokio::time::Instant::now`: the present moment. Nothing is claimed of it.
#[verifier::external_body]
fn clock_start() -> tokio::time::Instant {
    tokio::time::Instant::now()
}

/// `tokio::time::Instant::elapsed`, in nanoseconds: the time that has
/// passed since `start`. Nothing is claimed of it.
#[verifier::external_body]
fn clock_read(start: &tokio::time::Instant) -> u128 {
    start.elapsed().as_nanos()
}

/// A mapping from key to entry, with a clock of its own.
pub struct Store {
    data: StringHashMap<Entry>,
    started: tokio::time::Instant,
}

impl View for Store {
    type V = StoreView;

    closed spec fn view(&self) -> StoreView {
        self.data@.map_values(|entry: Entry| entry@)
    }
}

impl Store {
    /// An empty store, whose clock starts now.
    pub fn new() -> (store: Self)
        ensures
            store@ == Map::<Seq<char>, EntryView>::empty(),
    {
        let store = Store { data: StringHashMap::new(), started: clock_start() };
        assert(store@ =~= Map::<Seq<char>, EntryView>::empty());
        store
    }

    /// The time on the store's clock.
    pub fn now(&self) -> u128 {
        clock_read(&self.started)
    }

    /// Puts `entry` under `key`, in place of any entry there.
    fn put(&mut self, key: String, entry: Entry)
        ensures
            final(self)@ == old(self)@.insert(key@, entry@),
    {
        self.data.insert(key, entry);
        assert(self@ =~= old(self)@.insert(key@, entry@));
    }

    /// Sets `value` under `key`, never to expire. An entry already under
    /// `key` is replaced, its expiry with it.
    pub fn set(&mut self, key: String, value: String)
        ensures
            final(self)@ == stored(old(self)@, key@, value@, None),
    {
        self.put(key, Entry { value, expires_at: None });
    }

    /// Sets `value` under `key`, to expire `px` milliseconds after `now`.
    pub fn set_px_at(&mut self, key: String, value: String, px: u64, now: u128)
        ensures
            final(self)@ == stored(old(self)@, key@, value@, deadline(now, px)),
    {
        let expires_at: Option<u128> = now.checked_add(px as u128 * NANOS_PER_MILLI);
        self.put(key, Entry { value, expires_at });
    }

    /// Sets `value` under `key`, to expire `px` milliseconds from now.
    pub fn set_px(&mut self, key: String, value: String, px: u64)
        ensures
            exists|now: u128| final(self)@ == stored(old(self)@, key@, value@, deadline(now, px)),
    {
        let now: u128 = self.now();
        self.set_px_at(key, value, px, now);
    }

    /// Looks `key` up at time `now`. An entry found expired is evicted.
    pub fn get_at(&mut self, key: &str, now: u128) -> (r: Value)
        ensures
            (r@, final(self)@) == lookup(old(self)@, key@, now),
    {
        let found: Option<String> = match self.data.get(key) {
            None => {
                return Value::Null;
            },
            Some(entry) => {
                let live: bool = match entry.expires_at {
                    Some(t) => t >= now,
                    None => true,
                };
                if live {
                    Some(entry.value.clone())
                } else {
                    None
                }
            },
        };
        match found {
            Some(value) => Value::BulkString(value),
            None => {
                self.data.remove(key);
                assert(self@ =~= old(self)@.remove(key@));
                Value::Null
            },
        }
    }

    /// Looks `key` up now. An entry found expired is evicted.
    pub fn get(&mut self, key: &str) -> (r: Value)
        ensures
            exists|now: u128| (r@, final(self)@) == lookup(old(self)@, key@, now),
    {
        let now: u128 = self.now();
        self.get_at(key, now)
    }
}

/// Last write wins: after two plain sets of a key, a lookup at any time
/// answers the second value and leaves the store as it is.
pub proof fn law_overwrite(
    m: StoreView,
    key: Seq<char>,
    first: Seq<char>,
    second: Seq<char>,
    now: u128,
)
    ensures
        ({
            let twice = stored(stored(m, key, first, None), key, second, None);
            lookup(twice, key, now) == (ValueView::BulkString(second), twice)
        }),
{
}

/// A plain set clears the expiry: after a set with a time to live and then
/// a plain set of the same key, a lookup at any time, however late, answers
/// the second value.
pub proof fn law_set_clears_expiry(
    m: StoreView,
    key: Seq<char>,
    first: Seq<char>,
    ttl: u64,
    set_at: u128,
    second: Seq<char>,
    now: u128,
)
    ensures
        ({
            let twice = stored(stored(m, key, first, deadline(set_at, ttl)), key, second, None);
            lookup(twice, key, now) == (ValueView::BulkString(second), twice)
        }),
{
}

/// Until its time to live has passed, an entry is found.
pub proof fn law_live_until_deadline(
    m: StoreView,
    key: Seq<char>,
    value: Seq<char>,
    ttl: u64,
    set_at: u128,
    now: u128,
)
    requires
        now <= set_at + ttl * NANOS_PER_MILLI,
    ensures
        ({
            let set = stored(m, key, value, deadline(set_at, ttl));
            lookup(set, key, now) == (ValueView::BulkString(value), set)
        }),
{
}

/// Lazy expiry: once its time to live has passed, a lookup of the key
/// answers null and evicts the entry, so that the key is absent afterwards
/// and every later lookup answers null too.
pub proof fn law_lazy_expiry(
    m: StoreView,
    key: Seq<char>,
    value: Seq<char>,
    ttl: u64,
    set_at: u128,
    now: u128,
    later: u128,
)
    requires
        set_at + ttl * NANOS_PER_MILLI < now,
    ensures
        ({
            let set = stored(m, key, value, deadline(set_at, ttl));
            let (answer, left) = lookup(set, key, now);
            &&& answer == ValueView::Null
            &&& left == m.remove(key)
            &&& !left.contains_key(key)
            &&& lookup(left, key, later) == (ValueView::Null, left)
        }),
{
    let set = stored(m, key, value, deadline(set_at, ttl));
    assert(set.remove(key) =~= m.remove(key));
}

/// Keys are independent: setting or looking up one key changes neither the
/// entry under another key nor what a lookup of that other key answers.
pub proof fn law_keys_are_independent(
    m: StoreView,
    key: Seq<char>,
    value: Seq<char>,
    expires_at: Option<u128>,
    other: Seq<char>,
    now: u128,
    then: u128,
)
    requires
        other != key,
    ensures
        ({
            let set = stored(m, key, value, expires_at);
            let looked = lookup(m, key, now).1;
            &&& set.contains_key(other) == m.contains_key(other)
            &&& looked.contains_key(other) == m.contains_key(other)
            &&& m.contains_key(other) ==> set[other] == m[other] && looked[other] == m[other]
            &&& lookup(set, other, then).0 == lookup(m, other, then).0
            &&& lookup(looked, other, then).0 == lookup(m, other, then).0
        }),
{
}

} // verus!
