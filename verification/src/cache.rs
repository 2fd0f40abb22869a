//! Caches: the driver interface, an in-memory driver, the prefixing facade, and the
//! formats of the file and Redis drivers.
use vstd::prelude::*;
use crate::text;
use crate::clock;

verus! {

/// A store of cached values. Writing methods take `&mut self`.
pub trait CacheDriver {
    /// Whether `increment(key, amount)` stays within `i64`; a driver whose count
    /// lives outside the process states no limit.
    open spec fn increment_ok(&self, key: Seq<char>, amount: i64) -> bool {
        true
    }

    /// Whether the driver keeps its entries as `entry_of` describes them; a driver
    /// whose entries live outside the process claims nothing.
    open spec fn keeps_entries(&self) -> bool {
        false
    }

    /// The entry the driver holds for `key`, where it keeps its entries.
    open spec fn entry_of(&self, key: Seq<char>) -> Option<EntryView> {
        None
    }

    fn name(&self) -> &str;

    /// The value of `key`, read at some time.
    fn get(&self, key: &str) -> (r: Option<String>)
        ensures
            self.keeps_entries() ==> exists|t: u64| #[trigger] fresh_value(self.entry_of(key@), t) == read_view(r),
    ;

    /// Writes `value` for `key`, without expiry where no time to live is given.
    fn set(&mut self, key: &str, value: &str, ttl_seconds: Option<u64>)
        ensures
            old(self).keeps_entries() ==> final(self).keeps_entries(),
            old(self).keeps_entries() ==> (final(self).entry_of(key@) matches Some(e) && e.value
                == value@ && exists|now: u64| e.expires_at == #[trigger] capped_expiry(ttl_seconds, now)),
            old(self).keeps_entries() ==> forall|k: Seq<char>|
                k != key@ ==> final(self).entry_of(k) == old(self).entry_of(k),
    ;

    fn delete(&mut self, key: &str)
        ensures
            old(self).keeps_entries() ==> final(self).keeps_entries(),
            old(self).keeps_entries() ==> final(self).entry_of(key@) is None,
            old(self).keeps_entries() ==> forall|k: Seq<char>|
                k != key@ ==> final(self).entry_of(k) == old(self).entry_of(k),
    ;

    fn clear(&mut self)
        ensures
            old(self).keeps_entries() ==> final(self).keeps_entries() && forall|k: Seq<char>|
                final(self).entry_of(k) is None,
    ;

    fn has(&self, key: &str) -> (r: bool)
        ensures
            self.keeps_entries() ==> exists|t: u64| (#[trigger] fresh_value(self.entry_of(key@), t) is Some) == r,
    {
        let v = self.get(key);
        proof {
            if self.keeps_entries() {
                let t = choose|t: u64| #[trigger] fresh_value(self.entry_of(key@), t) == read_view(v);
                assert(fresh_value(self.entry_of(key@), t) is Some == v.is_some());
            }
        }
        v.is_some()
    }

    /// Raises the number `key` holds (0 where missing, stale or not a number) by
    /// `amount` and writes it back without expiry.
    fn increment(&mut self, key: &str, amount: i64) -> (r: i64)
        requires
            old(self).increment_ok(key@, amount),
        ensures
            old(self).keeps_entries() ==> exists|t: u64|
                r == counted(#[trigger] fresh_value(old(self).entry_of(key@), t)) + amount,
            old(self).keeps_entries() ==> final(self).keeps_entries(),
            old(self).keeps_entries() ==> final(self).entry_of(key@) == Some(
                EntryView { value: text::signed_decimal(r as int), expires_at: 0 },
            ),
            old(self).keeps_entries() ==> forall|k: Seq<char>|
                k != key@ ==> final(self).entry_of(k) == old(self).entry_of(k),
    ;

    fn decrement(&mut self, key: &str, amount: i64) -> (r: i64)
        requires
            amount != i64::MIN,
            old(self).increment_ok(key@, -amount as i64),
        ensures
            old(self).keeps_entries() ==> exists|t: u64|
                r == counted(#[trigger] fresh_value(old(self).entry_of(key@), t)) + (-amount as i64),
            old(self).keeps_entries() ==> final(self).keeps_entries(),
            old(self).keeps_entries() ==> final(self).entry_of(key@) == Some(
                EntryView { value: text::signed_decimal(r as int), expires_at: 0 },
            ),
            old(self).keeps_entries() ==> forall|k: Seq<char>|
                k != key@ ==> final(self).entry_of(k) == old(self).entry_of(k),
    {
        self.increment(key, -amount)
    }
}

/// The expiry of a write at time `now`: `now + ttl`, held at the largest time, or 0
/// without a time to live.
pub open spec fn capped_expiry(ttl: Option<u64>, now: u64) -> u64 {
    match ttl {
        Some(t) => if t > u64::MAX - now {
            u64::MAX
        } else {
            (now + t) as u64
        },
        None => 0,
    }
}

/// What a read gives, as text.
pub open spec fn read_view(r: Option<String>) -> Option<Seq<char>> {
    match r {
        Some(v) => Some(v@),
        None => None,
    }
}

// ───────────────────────── the in-memory driver ─────────────────────────

/// A cached value and the second after which it is stale (0: never).
pub ghost struct EntryView {
    pub value: Seq<char>,
    pub expires_at: u64,
}

/// The entry the last write of `key` left, if any.
pub open spec fn last_entry(s: Seq<(Seq<char>, Seq<char>, u64)>, key: Seq<char>) -> Option<EntryView>
    decreases s.len(),
{
    if s.len() == 0 {
        None
    } else if s.last().0 == key {
        Some(EntryView { value: s.last().1, expires_at: s.last().2 })
    } else {
        last_entry(s.drop_last(), key)
    }
}

/// The value of an entry that is fresh at time `now`.
pub open spec fn fresh_value(e: Option<EntryView>, now: u64) -> Option<Seq<char>> {
    match e {
        Some(x) => if x.expires_at > 0 && now > x.expires_at {
            None
        } else {
            Some(x.value)
        },
        None => None,
    }
}

/// What is written is read back while it is fresh: a value written at `now` with
/// a time to live `ttl` reads back at any time up to `now + ttl`, and a value
/// written without one reads back at any time.
pub proof fn lemma_written_value_reads_back(value: Seq<char>, ttl: Option<u64>, now: u64, t: u64)
    requires
        ttl matches Some(x) ==> now + x <= u64::MAX && t <= now + x,
    ensures
        fresh_value(Some(EntryView { value, expires_at: expiry(ttl, now) }), t) == Some(value),
{
}

/// A key without an entry (never written, or removed) reads nothing.
pub proof fn lemma_missing_reads_nothing(t: u64)
    ensures
        fresh_value(None, t) is None,
{
}

/// The expiry of a write at time `now`: `now + ttl`, or 0 without a time to live.
pub open spec fn expiry(ttl: Option<u64>, now: u64) -> u64 {
    match ttl {
        Some(t) => (now + t) as u64,
        None => 0,
    }
}

/// The number a cached value counts for: the value parsed, or 0.
pub open spec fn counted(v: Option<Seq<char>>) -> int {
    match v {
        Some(s) => match text::parse_i64_spec(s) {
            Some(n) => n,
            None => 0,
        },
        None => 0,
    }
}

pub open spec fn entry_views(v: Seq<(String, String, u64)>) -> Seq<(Seq<char>, Seq<char>, u64)> {
    v.map_values(|e: (String, String, u64)| (e.0@, e.1@, e.2))
}

/// Values kept in memory, each with an optional expiry.
pub struct MemoryCache {
    entries: Vec<(String, String, u64)>,
}

impl MemoryCache {
    pub closed spec fn writes(&self) -> Seq<(Seq<char>, Seq<char>, u64)> {
        entry_views(self.entries@)
    }

    /// The current entry of `key`.
    pub open spec fn entry(&self, key: Seq<char>) -> Option<EntryView> {
        last_entry(self.writes(), key)
    }

    pub fn new() -> (r: MemoryCache)
        ensures
            forall|k: Seq<char>| r.entry(k) is None,
    {
        let r = MemoryCache { entries: Vec::new() };
        proof {
            assert(r.writes() =~= Seq::<(Seq<char>, Seq<char>, u64)>::empty());
        }
        r
    }

    fn find(&self, key: &str) -> (r: Option<(String, u64)>)
        ensures
            match r {
                Some(p) => self.entry(key@) == Some(EntryView { value: p.0@, expires_at: p.1 }),
                None => self.entry(key@) is None,
            },
    {
        let ghost w = self.writes();
        let mut i: usize = self.entries.len();
        proof {
            assert(w.take(w.len() as int) =~= w);
        }
        while i > 0
            invariant
                i <= self.entries@.len(),
                w == self.writes(),
                last_entry(w, key@) == last_entry(w.take(i as int), key@),
            decreases i,
        {
            proof {
                assert(w.take(i as int).drop_last() =~= w.take(i - 1));
            }
            if text::str_eq(self.entries[i - 1].0.as_str(), key) {
                return Some((text::owned(self.entries[i - 1].1.as_str()), self.entries[i - 1].2));
            }
            i -= 1;
        }
        proof {
            assert(w.take(0) =~= Seq::<(Seq<char>, Seq<char>, u64)>::empty());
        }
        None
    }

    /// The value of `key` if it is fresh at time `now`.
    pub fn get_at(&self, key: &str, now: u64) -> (r: Option<String>)
        ensures
            match r {
                Some(v) => fresh_value(self.entry(key@), now) == Some(v@),
                None => fresh_value(self.entry(key@), now) is None,
            },
    {
        match self.find(key) {
            Some((v, exp)) => {
                if exp > 0 && now > exp {
                    None
                } else {
                    Some(v)
                }
            },
            None => None,
        }
    }

    /// Writes `value` for `key` at time `now`, to expire `ttl` seconds later if given.
    pub fn set_at(&mut self, key: &str, value: &str, ttl: Option<u64>, now: u64)
        requires
            ttl matches Some(t) ==> now + t <= u64::MAX,
        ensures
            final(self).entry(key@) == Some(EntryView { value: value@, expires_at: expiry(ttl, now) }),
            forall|k: Seq<char>| k != key@ ==> final(self).entry(k) == old(self).entry(k),
    {
        let exp: u64 = match ttl {
            Some(t) => now + t,
            None => 0,
        };
        let e = (text::owned(key), text::owned(value), exp);
        proof {
            assert(entry_views(self.entries@.push(e))
                =~= self.writes().push((key@, value@, exp)));
            assert(self.writes().push((key@, value@, exp)).drop_last() =~= self.writes());
        }
        self.entries.push(e);
    }

    /// Removes `key`.
    pub fn remove(&mut self, key: &str)
        ensures
            final(self).entry(key@) is None,
            forall|k: Seq<char>| k != key@ ==> final(self).entry(k) == old(self).entry(k),
    {
        let ghost before = self.writes();
        let mut kept: Vec<(String, String, u64)> = Vec::new();
        let mut i: usize = 0;
        proof {
            assert(before.take(0) =~= Seq::<(Seq<char>, Seq<char>, u64)>::empty());
        }
        while i < self.entries.len()
            invariant
                i <= self.entries@.len(),
                before == self.writes(),
                last_entry(entry_views(kept@), key@) is None,
                forall|k: Seq<char>|
                    k != key@ ==> last_entry(
                        entry_views(kept@),
                        k,
                    ) == last_entry(before.take(i as int), k),
            decreases self.entries@.len() - i,
        {
            let ghost kv = entry_views(kept@);
            proof {
                assert(before.take(i + 1).drop_last() =~= before.take(i as int));
                assert(before.take(i + 1).last() == before[i as int]);
                assert(before[i as int] == (
                    self.entries@[i as int].0@,
                    self.entries@[i as int].1@,
                    self.entries@[i as int].2,
                ));
            }
            if !text::str_eq(self.entries[i].0.as_str(), key) {
                let e = (
                    text::owned(self.entries[i].0.as_str()),
                    text::owned(self.entries[i].1.as_str()),
                    self.entries[i].2,
                );
                proof {
                    assert(entry_views(kept@.push(e))
                        =~= kv.push((e.0@, e.1@, e.2)));
                    assert(kv.push((e.0@, e.1@, e.2)).drop_last() =~= kv);
                }
                kept.push(e);
                proof {
                    assert forall|k: Seq<char>| k != key@ implies last_entry(entry_views(kept@), k)
                        == last_entry(before.take(i + 1), k) by {
                        assert(entry_views(kept@).drop_last() =~= kv);
                        assert(entry_views(kept@).last() == before[i as int]);
                        assert(before.take(i + 1).last() == before[i as int]);
                        assert(before.take(i + 1).drop_last() =~= before.take(i as int));
                        assert(last_entry(kv, k) == last_entry(before.take(i as int), k));
                    }
                }
            }
            i += 1;
        }
        proof {
            assert(before.take(i as int) =~= before);
        }
        self.entries = kept;
    }

    /// The value of `key` counted at time `now`, raised by `amount` and written back
    /// without expiry.
    pub fn increment_at(&mut self, key: &str, amount: i64, now: u64) -> (r: i64)
        requires
            i64::MIN <= counted(fresh_value(old(self).entry(key@), now)) + amount <= i64::MAX,
        ensures
            r == counted(fresh_value(old(self).entry(key@), now)) + amount,
            final(self).entry(key@) == Some(
                EntryView { value: text::signed_decimal(r as int), expires_at: 0 },
            ),
            forall|k: Seq<char>| k != key@ ==> final(self).entry(k) == old(self).entry(k),
    {
        let current: i64 = match self.get_at(key, now) {
            Some(v) => {
                let cs = text::chars_of(v.as_str());
                match text::parse_i64(cs.as_slice()) {
                    Some(n) => n,
                    None => 0,
                }
            },
            None => 0,
        };
        let val = current + amount;
        let s = text::i64_to_string(val);
        self.set_at(key, s.as_str(), None, now);
        val
    }
}

/// Whether raising what `key` holds by `amount` stays within `i64`, however the
/// entry's freshness turns out.
pub open spec fn increment_fits(e: Option<EntryView>, amount: i64) -> bool {
    &&& i64::MIN <= amount <= i64::MAX
    &&& e matches Some(x) ==> i64::MIN <= counted(Some(x.value)) + amount <= i64::MAX
}

impl CacheDriver for MemoryCache {
    open spec fn increment_ok(&self, key: Seq<char>, amount: i64) -> bool {
        increment_fits(self.entry(key), amount)
    }

    open spec fn keeps_entries(&self) -> bool {
        true
    }

    open spec fn entry_of(&self, key: Seq<char>) -> Option<EntryView> {
        self.entry(key)
    }

    fn name(&self) -> (r: &str)
        ensures
            r@ == "memory"@,
    {
        "memory"
    }

    /// The value of `key` if it is fresh by the clock.
    fn get(&self, key: &str) -> (r: Option<String>) {
        let now = clock::unix_now();
        let r = self.get_at(key, now);
        proof {
            assert(fresh_value(self.entry_of(key@), now) == read_view(r));
        }
        r
    }

    /// Writes with an expiry counted from the clock (saturating at the largest time).
    fn set(&mut self, key: &str, value: &str, ttl_seconds: Option<u64>) {
        let now = clock::unix_now();
        let ttl = match ttl_seconds {
            Some(t) => Some(if t > u64::MAX - now {
                u64::MAX - now
            } else {
                t
            }),
            None => None,
        };
        self.set_at(key, value, ttl, now);
        proof {
            assert(expiry(ttl, now) == capped_expiry(ttl_seconds, now));
        }
    }

    fn delete(&mut self, key: &str) {
        self.remove(key);
    }

    fn clear(&mut self) {
        self.entries = Vec::new();
        proof {
            assert(self.writes() =~= Seq::<(Seq<char>, Seq<char>, u64)>::empty());
        }
    }

    fn has(&self, key: &str) -> (r: bool) {
        let v = self.get(key);
        proof {
            let t = choose|t: u64| #[trigger] fresh_value(self.entry_of(key@), t) == read_view(v);
            assert((fresh_value(self.entry_of(key@), t) is Some) == v.is_some());
        }
        v.is_some()
    }

    /// Raises the value of `key` (0 where missing, stale or not a number) by `amount`
    /// and writes it back without expiry.
    fn increment(&mut self, key: &str, amount: i64) -> (r: i64) {
        let now = clock::unix_now();
        let ghost before = self.entry(key@);
        proof {
            assert(i64::MIN <= counted(fresh_value(before, now)) + amount <= i64::MAX);
        }
        let ghost old_self = *self;
        let r = self.increment_at(key, amount, now);
        proof {
            assert(r == counted(fresh_value(old_self.entry_of(key@), now)) + amount);
        }
        r
    }
}

/// A cache that keeps nothing.
#[derive(Debug)]
pub struct NullCache;

impl CacheDriver for NullCache {
    open spec fn increment_ok(&self, key: Seq<char>, amount: i64) -> bool {
        true
    }

    fn name(&self) -> (r: &str)
        ensures
            r@ == "null"@,
    {
        "null"
    }

    fn get(&self, key: &str) -> (r: Option<String>)
        ensures
            r is None,
    {
        None
    }

    fn set(&mut self, key: &str, value: &str, ttl_seconds: Option<u64>) {
    }

    fn delete(&mut self, key: &str) {
    }

    fn clear(&mut self) {
    }

    fn has(&self, key: &str) -> (r: bool)
        ensures
            !r,
    {
        false
    }

    fn increment(&mut self, key: &str, amount: i64) -> (r: i64)
        ensures
            r == amount,
    {
        amount
    }

    fn decrement(&mut self, key: &str, amount: i64) -> (r: i64)
        ensures
            r == amount,
    {
        amount
    }
}

impl CacheDriver for Box<dyn CacheDriver> {
    open spec fn increment_ok(&self, key: Seq<char>, amount: i64) -> bool {
        (**self).increment_ok(key, amount)
    }

    open spec fn keeps_entries(&self) -> bool {
        (**self).keeps_entries()
    }

    open spec fn entry_of(&self, key: Seq<char>) -> Option<EntryView> {
        (**self).entry_of(key)
    }

    fn name(&self) -> &str {
        (**self).name()
    }

    fn get(&self, key: &str) -> (r: Option<String>) {
        let r = (**self).get(key);
        proof {
            if self.keeps_entries() {
                let t = choose|t: u64| #[trigger] fresh_value((**self).entry_of(key@), t) == read_view(r);
                assert(fresh_value(self.entry_of(key@), t) == read_view(r));
            }
        }
        r
    }

    fn set(&mut self, key: &str, value: &str, ttl_seconds: Option<u64>) {
        (**self).set(key, value, ttl_seconds);
    }

    fn delete(&mut self, key: &str) {
        (**self).delete(key);
    }

    fn clear(&mut self) {
        (**self).clear();
    }

    fn has(&self, key: &str) -> (r: bool) {
        let r = (**self).has(key);
        proof {
            if self.keeps_entries() {
                let t = choose|t: u64| (#[trigger] fresh_value((**self).entry_of(key@), t) is Some) == r;
                assert((fresh_value(self.entry_of(key@), t) is Some) == r);
            }
        }
        r
    }

    fn increment(&mut self, key: &str, amount: i64) -> (r: i64) {
        let ghost old_self = *self;
        let r = (**self).increment(key, amount);
        proof {
            if old_self.keeps_entries() {
                let t = choose|t: u64|
                    r == counted(#[trigger] fresh_value((*old_self).entry_of(key@), t)) + amount;
                assert(r == counted(fresh_value(old_self.entry_of(key@), t)) + amount);
            }
        }
        r
    }

    fn decrement(&mut self, key: &str, amount: i64) -> (r: i64) {
        let ghost old_self = *self;
        let r = (**self).decrement(key, amount);
        proof {
            if old_self.keeps_entries() {
                let t = choose|t: u64|
                    r == counted(#[trigger] fresh_value((*old_self).entry_of(key@), t)) + (-amount as i64);
                assert(r == counted(fresh_value(old_self.entry_of(key@), t)) + (-amount as i64));
            }
        }
        r
    }
}

// ───────────────────────── the facade ─────────────────────────

/// The key a prefixed cache uses: `prefix:key`, or the key alone without a prefix.
pub open spec fn prefixed(prefix: Seq<char>, key: Seq<char>) -> Seq<char> {
    if prefix.len() == 0 {
        key
    } else {
        prefix + seq![':'] + key
    }
}

/// A cache over a driver, with an optional prefix for its keys.
pub struct Cache<D: CacheDriver = Box<dyn CacheDriver>> {
    driver: D,
    prefix: String,
}

impl<D: CacheDriver> Cache<D> {
    pub closed spec fn prefix_view(&self) -> Seq<char> {
        self.prefix@
    }

    pub closed spec fn driver_view(&self) -> D {
        self.driver
    }

    pub fn with_driver(d: D) -> (r: Cache<D>)
        ensures
            r.prefix_view().len() == 0,
            r.driver_view() == d,
    {
        Cache { driver: d, prefix: String::new() }
    }

    pub fn with_prefix(self, p: &str) -> (r: Cache<D>)
        ensures
            r.prefix_view() == p@,
            r.driver_view() == self.driver_view(),
    {
        Cache { driver: self.driver, prefix: text::owned(p) }
    }

    /// The driver's key for `k`.
    pub fn p(&self, k: &str) -> (r: String)
        ensures
            r@ == prefixed(self.prefix_view(), k@),
    {
        let empty = text::str_eq(self.prefix.as_str(), "");
        proof {
            reveal_strlit("");
            if self.prefix@.len() == 0 {
                assert(self.prefix@ =~= ""@);
            }
        }
        if empty {
            text::owned(k)
        } else {
            let a = text::cat3(self.prefix.as_str(), ":", k);
            proof {
                reveal_strlit(":");
            }
            a
        }
    }

    /// The driver's entry for `key` under the prefix.
    pub open spec fn entry(&self, key: Seq<char>) -> Option<EntryView> {
        self.driver_view().entry_of(prefixed(self.prefix_view(), key))
    }

    /// Whether the driver keeps its entries as `entry_of` describes them.
    pub open spec fn keeps(&self) -> bool {
        self.driver_view().keeps_entries()
    }

    /// The entry of `key` holds `value`, to expire `ttl` seconds after some time.
    pub open spec fn holds_written(&self, key: Seq<char>, value: Seq<char>, ttl: Option<u64>) -> bool {
        &&& self.entry(key) matches Some(e)
        &&& self.entry(key)->0.value == value
        &&& exists|now: u64| self.entry(key)->0.expires_at == #[trigger] capped_expiry(ttl, now)
    }

    /// Every driver key other than `key`'s under the prefix holds what it held.
    pub open spec fn others_kept(&self, before: &Self, key: Seq<char>) -> bool {
        forall|k: Seq<char>|
            k != prefixed(before.prefix_view(), key) ==> self.driver_view().entry_of(k)
                == before.driver_view().entry_of(k)
    }

    /// The value of `key`, read at some time.
    pub fn get(&self, key: &str) -> (r: Option<String>)
        ensures
            self.keeps() ==> exists|t: u64| #[trigger] fresh_value(self.entry(key@), t) == read_view(r),
    {
        let k = self.p(key);
        let r = self.driver.get(k.as_str());
        proof {
            if self.keeps() {
                let t = choose|t: u64|
                    #[trigger] fresh_value(self.driver.entry_of(k@), t) == read_view(r);
                assert(fresh_value(self.entry(key@), t) == read_view(r));
            }
        }
        r
    }

    /// Writes `value` for `key`, to expire `ttl` seconds later if given.
    pub fn set(&mut self, key: &str, value: &str, ttl: Option<u64>)
        ensures
            final(self).prefix_view() == old(self).prefix_view(),
            old(self).keeps() ==> final(self).keeps(),
            old(self).keeps() ==> final(self).holds_written(key@, value@, ttl),
            old(self).keeps() ==> final(self).others_kept(old(self), key@),
    {
        let k = self.p(key);
        self.driver.set(k.as_str(), value, ttl);
    }

    /// Removes `key`.
    pub fn delete(&mut self, key: &str)
        ensures
            final(self).prefix_view() == old(self).prefix_view(),
            old(self).keeps() ==> final(self).keeps(),
            old(self).keeps() ==> final(self).entry(key@) is None,
            old(self).keeps() ==> final(self).others_kept(old(self), key@),
    {
        let k = self.p(key);
        self.driver.delete(k.as_str());
    }

    /// Whether `key` has a value, read at some time.
    pub fn has(&self, key: &str) -> (r: bool)
        ensures
            self.keeps() ==> exists|t: u64| (#[trigger] fresh_value(self.entry(key@), t) is Some) == r,
    {
        let v = self.get(key);
        proof {
            if self.keeps() {
                let t = choose|t: u64| #[trigger] fresh_value(self.entry(key@), t) == read_view(v);
                assert((fresh_value(self.entry(key@), t) is Some) == v.is_some());
            }
        }
        v.is_some()
    }

    /// Removes every entry of the driver.
    pub fn clear(&mut self)
        ensures
            final(self).prefix_view() == old(self).prefix_view(),
            old(self).keeps() ==> final(self).keeps(),
            old(self).keeps() ==> forall|k: Seq<char>| final(self).driver_view().entry_of(k) is None,
    {
        self.driver.clear();
    }

    /// The cached value of `key`, or else `f`'s value, cached for `ttl` seconds.
    pub fn remember<F: FnOnce() -> String>(&mut self, key: &str, ttl: u64, f: F) -> (r: String)
        requires
            f.requires(()),
        ensures
            final(self).prefix_view() == old(self).prefix_view(),
            old(self).keeps() ==> final(self).keeps(),
            old(self).keeps() ==> exists|t: u64|
                match #[trigger] fresh_value(old(self).entry(key@), t) {
                    Some(v) => r@ == v && final(self).driver_view() == old(self).driver_view(),
                    None => f.ensures((), r) && final(self).holds_written(key@, r@, Some(ttl))
                        && final(self).others_kept(old(self), key@),
                },
    {
        let k = self.p(key);
        let ghost old_self = *self;
        let got = self.driver.get(k.as_str());
        let ghost t: u64 = if old_self.keeps() {
            choose|t: u64| #[trigger] fresh_value(old_self.driver.entry_of(k@), t) == read_view(got)
        } else {
            0
        };
        match got {
            Some(v) => {
                proof {
                    if old_self.keeps() {
                        assert(fresh_value(old_self.entry(key@), t) == Some(v@));
                    }
                }
                v
            },
            None => {
                let v = f();
                self.driver.set(k.as_str(), v.as_str(), Some(ttl));
                proof {
                    if old_self.keeps() {
                        assert(fresh_value(old_self.entry(key@), t) is None);
                    }
                }
                v
            },
        }
    }

    /// The value of `key`, read at some time, which is then removed.
    pub fn pull(&mut self, key: &str) -> (r: Option<String>)
        ensures
            final(self).prefix_view() == old(self).prefix_view(),
            old(self).keeps() ==> exists|t: u64| #[trigger] fresh_value(old(self).entry(key@), t) == read_view(r),
            old(self).keeps() ==> final(self).keeps(),
            old(self).keeps() && r is Some ==> final(self).entry(key@) is None && final(self).others_kept(
                old(self),
                key@,
            ),
            r is None ==> final(self).driver_view() == old(self).driver_view(),
    {
        let v = self.get(key);
        if v.is_some() {
            self.delete(key);
        }
        v
    }

    /// Raises the number `key` holds (0 where missing, stale or not a number) by
    /// `amount` and writes it back without expiry.
    pub fn increment(&mut self, key: &str, amount: i64) -> (r: i64)
        requires
            old(self).driver_view().increment_ok(prefixed(old(self).prefix_view(), key@), amount),
        ensures
            final(self).prefix_view() == old(self).prefix_view(),
            old(self).keeps() ==> exists|t: u64|
                r == counted(#[trigger] fresh_value(old(self).entry(key@), t)) + amount,
            old(self).keeps() ==> final(self).keeps(),
            old(self).keeps() ==> final(self).entry(key@) == Some(
                EntryView { value: text::signed_decimal(r as int), expires_at: 0 },
            ),
            old(self).keeps() ==> final(self).others_kept(old(self), key@),
    {
        let k = self.p(key);
        let ghost old_self = *self;
        let r = self.driver.increment(k.as_str(), amount);
        proof {
            if old_self.keeps() {
                let t = choose|t: u64|
                    r == counted(#[trigger] fresh_value(old_self.driver.entry_of(k@), t)) + amount;
                assert(r == counted(fresh_value(old_self.entry(key@), t)) + amount);
            }
        }
        r
    }
}


// ───────────────────────── the file driver's format ─────────────────────────

/// Whether `char::is_alphanumeric` holds of a character (Unicode's alphabetic and
/// numeric classes, not spelled out here).
pub uninterp spec fn unicode_alphanumeric(c: char) -> bool;

/// `char::is_alphanumeric`.
#[verifier::external_body]
fn is_alphanumeric(c: char) -> (r: bool)
    ensures
        r == unicode_alphanumeric(c),
{
    c.is_alphanumeric()
}

/// A key made safe for a file name: every character that is not alphanumeric, `-` or
/// `_` becomes `_`.
pub open spec fn safe_key(key: Seq<char>) -> Seq<char> {
    key.map_values(
        |c: char|
            if unicode_alphanumeric(c) || c == '-' || c == '_' {
                c
            } else {
                '_'
            },
    )
}

/// The name of the file that holds `key`: the safe key and `.cache`.
pub fn cache_file_name(key: &str) -> (r: String)
    ensures
        r@ == safe_key(key@) + ".cache"@,
{
    let cs = text::chars_of(key);
    let mut out: Vec<char> = Vec::new();
    let mut i: usize = 0;
    while i < cs.len()
        invariant
            i <= cs@.len(),
            cs@ == key@,
            out@ == safe_key(key@).take(i as int),
        decreases cs@.len() - i,
    {
        let c = cs[i];
        let k = if is_alphanumeric(c) || c == '-' || c == '_' {
            c
        } else {
            '_'
        };
        proof {
            assert(safe_key(key@).take(i + 1) =~= safe_key(key@).take(i as int).push(k));
        }
        out.push(k);
        i += 1;
    }
    proof {
        assert(safe_key(key@).take(i as int) =~= safe_key(key@));
    }
    let name = text::string_of(out.as_slice());
    text::cat(name.as_str(), ".cache")
}

/// A cache file's text: the expiry on the first line, the value on the second.
pub fn file_entry(expires_at: u64, value: &str) -> (r: String)
    ensures
        r@ == text::decimal(expires_at as nat) + seq!['\n'] + value@,
{
    let e = text::u64_to_string(expires_at);
    proof {
        reveal_strlit("\n");
    }
    text::cat3(e.as_str(), "\n", value)
}

/// The expiry a cache file states: its first line, trimmed, as a number.
pub open spec fn file_expiry(content: Seq<char>) -> Option<nat> {
    let ls = text::lines(content);
    if ls.len() == 0 {
        None
    } else {
        text::parse_u64_spec(text::trim(ls[0]))
    }
}

/// The value a cache file holds: its second line.
pub open spec fn file_value(content: Seq<char>) -> Option<Seq<char>> {
    let ls = text::lines(content);
    if ls.len() < 2 {
        None
    } else {
        Some(ls[1])
    }
}

/// The expiry a cache file states.
pub fn read_file_expiry(content: &str) -> (r: Option<u64>)
    ensures
        match r {
            Some(e) => file_expiry(content@) == Some(e as nat),
            None => file_expiry(content@) is None,
        },
{
    let cs = text::chars_of(content);
    let ls = text::lines_exec(cs.as_slice());
    if ls.len() == 0 {
        return None;
    }
    let t = text::trim_exec(ls[0].as_slice());
    text::parse_u64(t.as_slice())
}

/// The value a cache file holds.
pub fn read_file_value(content: &str) -> (r: Option<String>)
    ensures
        match r {
            Some(v) => file_value(content@) == Some(v@),
            None => file_value(content@) is None,
        },
{
    let cs = text::chars_of(content);
    let ls = text::lines_exec(cs.as_slice());
    if ls.len() < 2 {
        return None;
    }
    proof {
        assert(text::views(ls@)[1] == ls@[1]@);
    }
    Some(text::string_of(ls[1].as_slice()))
}

/// Whether a cache file has expired at time `now`: it states an expiry and `now` is
/// past it (an entry written without a time to live states 0).
pub fn file_expired_at(content: &str, now: u64) -> (r: bool)
    ensures
        r == match file_expiry(content@) {
            Some(e) => now > e,
            None => false,
        },
{
    match read_file_expiry(content) {
        Some(e) => now > e,
        None => false,
    }
}

} // verus!
