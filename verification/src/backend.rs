//! In-memory model of the remote key-value backend.
//!
//! The cache store talks to a remote backend whose wire contract is a handful
//! of commands: store a byte string under a key with an expiry, add a member
//! to a key's member set, set a key's expiry, fetch a key's value, and the
//! atomic purge procedure that the invalidation script runs server-side.
//! `Backend` implements exactly those commands over an association list, and
//! every command is specified against the mathematical view of the state: a
//! map from keys to what they hold.

use crate::text::dec_digits;
use crate::text::dec_string;
use crate::text::str_eq;
use vstd::prelude::*;

verus! {

/// What one backend key holds: a byte string with an expiry (a cache entry),
/// or a member set with an optional expiry (a tag's bookkeeping record).
pub enum Stored {
    Value { bytes: Vec<u8>, expiry_secs: usize },
    Members { members: Vec<String>, expiry_secs: Option<usize> },
}

/// One key together with what it holds.
pub struct Slot {
    pub key: String,
    pub stored: Stored,
}

/// The backend state: a set of keys, each holding one `Stored`.
pub struct Backend {
    slots: Vec<Slot>,
}

/// Mathematical content of one key: the view of a `Stored`.
#[verifier::ext_equal]
pub enum StoredView {
    Value { bytes: Seq<u8>, expiry_secs: nat },
    Members { members: Set<Seq<char>>, expiry_secs: Option<nat> },
}

/// Whether some element of `ms` reads as `m`.
pub open spec fn has_str(ms: Seq<String>, m: Seq<char>) -> bool {
    exists|i: int| 0 <= i < ms.len() && (#[trigger] ms[i])@ == m
}

/// The member strings of `ms`, as a set of character sequences.
pub open spec fn members_set(ms: Seq<String>) -> Set<Seq<char>> {
    Set::new(|m: Seq<char>| has_str(ms, m))
}

/// The view of one stored value.
pub open spec fn stored_view(st: Stored) -> StoredView {
    match st {
        Stored::Value { bytes, expiry_secs } => StoredView::Value {
            bytes: bytes@,
            expiry_secs: expiry_secs as nat,
        },
        Stored::Members { members, expiry_secs } => StoredView::Members {
            members: members_set(members@),
            expiry_secs: match expiry_secs {
                Some(e) => Some(e as nat),
                None => None,
            },
        },
    }
}

/// Whether some slot of `s` carries key `k`.
pub open spec fn slot_has(s: Seq<Slot>, k: Seq<char>) -> bool {
    exists|i: int| 0 <= i < s.len() && (#[trigger] s[i]).key@ == k
}

/// The index of the slot of `s` carrying key `k`.
pub open spec fn slot_at(s: Seq<Slot>, k: Seq<char>) -> int {
    choose|i: int| 0 <= i < s.len() && (#[trigger] s[i]).key@ == k
}

/// The map from keys to stored views that a slot sequence denotes.
pub open spec fn slots_map(s: Seq<Slot>) -> Map<Seq<char>, StoredView> {
    Map::new(|k: Seq<char>| slot_has(s, k), |k: Seq<char>| stored_view(s[slot_at(s, k)].stored))
}

/// No two slots carry the same key.
pub open spec fn keys_unique(s: Seq<Slot>) -> bool {
    forall|i: int, j: int| 0 <= i < j < s.len() ==> (#[trigger] s[i]).key@ != (#[trigger] s[j]).key@
}

impl View for Backend {
    type V = Map<Seq<char>, StoredView>;

    closed spec fn view(&self) -> Map<Seq<char>, StoredView> {
        slots_map(self.slots@)
    }
}

impl Backend {
    /// Well-formedness: each key occurs at most once.
    pub closed spec fn wf(&self) -> bool {
        keys_unique(self.slots@)
    }
}

/// Whether `k` holds a byte-string value in `v` (the keys a `SADD` refuses).
pub open spec fn is_value_key(v: Map<Seq<char>, StoredView>, k: Seq<char>) -> bool {
    v.contains_key(k) && v[k] is Value
}

/// The member set of `k` in `v`; empty when `k` is absent or holds a value.
pub open spec fn tag_members(v: Map<Seq<char>, StoredView>, k: Seq<char>) -> Set<Seq<char>> {
    if v.contains_key(k) {
        match v[k] {
            StoredView::Members { members, .. } => members,
            StoredView::Value { .. } => Set::empty(),
        }
    } else {
        Set::empty()
    }
}

/// The expiry of `k`'s member set in `v`, if `k` holds one.
pub open spec fn tag_expiry(v: Map<Seq<char>, StoredView>, k: Seq<char>) -> Option<nat> {
    if v.contains_key(k) {
        match v[k] {
            StoredView::Members { expiry_secs, .. } => expiry_secs,
            StoredView::Value { .. } => None,
        }
    } else {
        None
    }
}

/// `sv` with its expiry replaced by `e` (what `EXPIRE` does to a key).
pub open spec fn with_expiry(sv: StoredView, e: nat) -> StoredView {
    match sv {
        StoredView::Value { bytes, .. } => StoredView::Value { bytes, expiry_secs: e },
        StoredView::Members { members, .. } => StoredView::Members {
            members,
            expiry_secs: Some(e),
        },
    }
}

/// The concrete storage key an invalidation run derives from a member mask:
/// `{prefix}:{shard}:c:{key_mask}`, the four-segment cache-entry namespace.
pub open spec fn derived_key(prefix: Seq<char>, shard: u8, key_mask: Seq<char>) -> Seq<char> {
    prefix + ":"@ + dec_digits(shard as nat) + ":c:"@ + key_mask
}

/// Builds the concrete storage key for one member mask, exactly as
/// `derived_key` specifies.
pub fn derive_cache_key(prefix: &str, shard: u8, key_mask: &str) -> (r: String)
    ensures
        r@ == derived_key(prefix@, shard, key_mask@),
{
    let mut s = prefix.to_owned();
    s.append(":");
    let shard_s = dec_string(shard as u64);
    s.append(shard_s.as_str());
    s.append(":c:");
    s.append(key_mask);
    proof {
        assert(s@ =~= derived_key(prefix@, shard, key_mask@));
    }
    s
}

/// The derived keys of the first `upto` members of `ms`.
pub open spec fn derived_set(ms: Seq<String>, prefix: Seq<char>, shard: u8, upto: int) -> Set<
    Seq<char>,
> {
    Set::new(
        |k: Seq<char>|
            exists|l: int|
                0 <= l < upto && l < ms.len() && k == derived_key(
                    prefix,
                    shard,
                    (#[trigger] ms[l])@,
                ),
    )
}

/// The keys an invalidation run against `tag` deletes besides `tag` itself:
/// one derived key per registered member mask.
pub open spec fn purge_victims(
    v: Map<Seq<char>, StoredView>,
    prefix: Seq<char>,
    shard: u8,
    tag: Seq<char>,
) -> Set<Seq<char>> {
    Set::new(
        |k: Seq<char>|
            exists|m: Seq<char>|
                tag_members(v, tag).contains(m) && k == #[trigger] derived_key(prefix, shard, m),
    )
}

/// The state after an invalidation run: every derived key of `tag`'s members
/// is deleted, and so is `tag`'s own record.
pub open spec fn spec_purge(
    v: Map<Seq<char>, StoredView>,
    prefix: Seq<char>,
    shard: u8,
    tag: Seq<char>,
) -> Map<Seq<char>, StoredView> {
    v.remove_keys(purge_victims(v, prefix, shard, tag)).remove(tag)
}

/// A reply to a fetch: the stored bytes, an absent key, or a reply of some
/// other shape (the key holds a member set, not a byte string).
pub enum Reply {
    Data(Vec<u8>),
    Nil,
    Other,
}

// ---------------------------------------------------------------------------
// Association-list lemmas
// ---------------------------------------------------------------------------

proof fn lemma_at_unique(s: Seq<Slot>, i: int)
    requires
        keys_unique(s),
        0 <= i < s.len(),
    ensures
        slot_has(s, s[i].key@),
        slot_at(s, s[i].key@) == i,
        slots_map(s).contains_key(s[i].key@),
        slots_map(s)[s[i].key@] == stored_view(s[i].stored),
{
    assert(slot_has(s, s[i].key@));
    let j = slot_at(s, s[i].key@);
    assert(0 <= j < s.len() && s[j].key@ == s[i].key@);
    assert(j == i);
}

proof fn lemma_remove_at(s: Seq<Slot>, i: int)
    requires
        keys_unique(s),
        0 <= i < s.len(),
    ensures
        keys_unique(s.remove(i)),
        !slot_has(s.remove(i), s[i].key@),
        slots_map(s.remove(i)) == slots_map(s).remove(s[i].key@),
{
    let t = s.remove(i);
    assert(t.len() == s.len() - 1);
    assert forall|j: int| 0 <= j < t.len() implies #[trigger] t[j] == (if j < i {
        s[j]
    } else {
        s[j + 1]
    }) by {}
    assert forall|a: int, b: int| 0 <= a < b < t.len() implies (#[trigger] t[a]).key@ != (
    #[trigger] t[b]).key@ by {
        let a2 = if a < i {
            a
        } else {
            a + 1
        };
        let b2 = if b < i {
            b
        } else {
            b + 1
        };
        assert(s[a2].key@ != s[b2].key@);
    }
    assert forall|j: int| 0 <= j < t.len() implies (#[trigger] t[j]).key@ != s[i].key@ by {
        let j2 = if j < i {
            j
        } else {
            j + 1
        };
        assert(t[j] == s[j2]);
        if j2 < i {
            assert(s[j2].key@ != s[i].key@);
        } else {
            assert(s[i].key@ != s[j2].key@);
        }
    }
    assert(slots_map(t) =~= slots_map(s).remove(s[i].key@)) by {
        assert forall|k: Seq<char>| #![auto] slots_map(t).contains_key(k) implies slots_map(
            s,
        ).remove(s[i].key@).contains_key(k) && slots_map(t)[k] == slots_map(s)[k] by {
            let j = slot_at(t, k);
            assert(0 <= j < t.len() && t[j].key@ == k);
            let j2 = if j < i {
                j
            } else {
                j + 1
            };
            assert(s[j2].key@ == k);
            lemma_at_unique(s, j2);
            lemma_at_unique(t, j);
            assert(k != s[i].key@);
        }
        assert forall|k: Seq<char>| #![auto]
            slots_map(s).remove(s[i].key@).contains_key(k) implies slots_map(t).contains_key(
            k,
        ) by {
            let j2 = slot_at(s, k);
            assert(0 <= j2 < s.len() && s[j2].key@ == k);
            assert(j2 != i);
            let j = if j2 < i {
                j2
            } else {
                j2 - 1
            };
            assert(t[j] == s[j2]);
            assert(slot_has(t, k));
        }
    }
}

proof fn lemma_push_fresh(s: Seq<Slot>, slot: Slot)
    requires
        keys_unique(s),
        !slot_has(s, slot.key@),
    ensures
        keys_unique(s.push(slot)),
        slots_map(s.push(slot)) == slots_map(s).insert(slot.key@, stored_view(slot.stored)),
{
    let t = s.push(slot);
    assert forall|a: int, b: int| 0 <= a < b < t.len() implies (#[trigger] t[a]).key@ != (
    #[trigger] t[b]).key@ by {
        if b == s.len() {
            assert(t[a] == s[a]);
            if t[a].key@ == slot.key@ {
                assert(slot_has(s, slot.key@));
            }
        } else {
            assert(t[a] == s[a] && t[b] == s[b]);
        }
    }
    assert(slots_map(t) =~= slots_map(s).insert(slot.key@, stored_view(slot.stored))) by {
        lemma_at_unique(t, s.len() as int);
        assert forall|k: Seq<char>| #![auto]
            slots_map(t).contains_key(k) && k != slot.key@ implies slots_map(s).contains_key(k)
            && slots_map(t)[k] == slots_map(s)[k] by {
            let j = slot_at(t, k);
            assert(0 <= j < t.len() && t[j].key@ == k);
            assert(j != s.len());
            assert(s[j].key@ == k);
            lemma_at_unique(s, j);
            lemma_at_unique(t, j);
        }
        assert forall|k: Seq<char>| #![auto]
            slots_map(s).contains_key(k) implies slots_map(t).contains_key(k) by {
            let j = slot_at(s, k);
            assert(t[j].key@ == k);
            assert(slot_has(t, k));
        }
    }
}

proof fn lemma_members_push(ms: Seq<String>, m: String)
    ensures
        members_set(ms.push(m)) == members_set(ms).insert(m@),
{
    let t = ms.push(m);
    assert(members_set(t) =~= members_set(ms).insert(m@)) by {
        assert forall|x: Seq<char>| #![auto] has_str(t, x) implies members_set(ms).insert(
            m@,
        ).contains(x) by {
            let i = choose|i: int| 0 <= i < t.len() && (#[trigger] t[i])@ == x;
            if i < ms.len() {
                assert(ms[i]@ == x);
                assert(has_str(ms, x));
            } else {
                assert(t[i] == m);
            }
        }
        assert forall|x: Seq<char>| #![auto] members_set(ms).insert(m@).contains(
            x,
        ) implies has_str(t, x) by {
            if x == m@ {
                assert(t[ms.len() as int]@ == x);
            } else {
                let i = choose|i: int| 0 <= i < ms.len() && (#[trigger] ms[i])@ == x;
                assert(t[i]@ == x);
            }
        }
    }
}

// ---------------------------------------------------------------------------
// Small verified copies
// ---------------------------------------------------------------------------

fn copy_bytes(v: &Vec<u8>) -> (r: Vec<u8>)
    ensures
        r@ == v@,
{
    let mut r: Vec<u8> = Vec::new();
    let mut i: usize = 0;
    while i < v.len()
        invariant
            i <= v.len(),
            r@ == v@.take(i as int),
        decreases v.len() - i,
    {
        r.push(v[i]);
        proof {
            assert(r@ =~= v@.take(i + 1));
        }
        i += 1;
    }
    proof {
        assert(v@.take(v@.len() as int) =~= v@);
    }
    r
}

fn copy_strings(v: &Vec<String>) -> (r: Vec<String>)
    ensures
        r@.len() == v@.len(),
        forall|i: int| 0 <= i < v@.len() ==> (#[trigger] r@[i])@ == v@[i]@,
{
    let mut r: Vec<String> = Vec::new();
    let mut i: usize = 0;
    while i < v.len()
        invariant
            i <= v.len(),
            r@.len() == i,
            forall|j: int| 0 <= j < i ==> (#[trigger] r@[j])@ == v@[j]@,
        decreases v.len() - i,
    {
        r.push(v[i].clone());
        i += 1;
    }
    r
}

// ---------------------------------------------------------------------------
// The commands
// ---------------------------------------------------------------------------

impl Backend {
    /// An empty backend: no keys.
    pub fn new() -> (b: Backend)
        ensures
            b.wf(),
            b@ == Map::<Seq<char>, StoredView>::empty(),
    {
        let b = Backend { slots: Vec::new() };
        proof {
            assert(b@ =~= Map::<Seq<char>, StoredView>::empty());
        }
        b
    }

    /// Index of the slot carrying `key`, if any.
    fn find(&self, key: &str) -> (r: Option<usize>)
        ensures
            match r {
                Some(i) => i < self.slots@.len() && self.slots@[i as int].key@ == key@,
                None => !slot_has(self.slots@, key@),
            },
    {
        let n = self.slots.len();
        let mut i: usize = 0;
        while i < n
            invariant
                i <= n,
                n == self.slots@.len(),
                forall|j: int| 0 <= j < i ==> (#[trigger] self.slots@[j]).key@ != key@,
            decreases n - i,
        {
            if str_eq(self.slots[i].key.as_str(), key) {
                return Some(i);
            }
            i += 1;
        }
        None
    }

    /// Deletes `key` outright, whatever it holds: the `DEL` command.
    pub fn del(&mut self, key: &str)
        requires
            old(self).wf(),
        ensures
            final(self).wf(),
            final(self)@ == old(self)@.remove(key@),
    {
        match self.find(key) {
            Some(i) => {
                proof {
                    lemma_remove_at(self.slots@, i as int);
                }
                let _ = self.slots.remove(i);
            },
            None => {
                proof {
                    assert(self@ =~= self@.remove(key@));
                }
            },
        }
    }

    /// Stores `bytes` under `key` with expiry `ttl`, replacing whatever the
    /// key held: the `SETEX` command.
    pub fn setex(&mut self, key: &str, bytes: Vec<u8>, ttl: usize)
        requires
            old(self).wf(),
        ensures
            final(self).wf(),
            final(self)@ == old(self)@.insert(
                key@,
                StoredView::Value { bytes: bytes@, expiry_secs: ttl as nat },
            ),
    {
        self.del(key);
        let slot = Slot { key: key.to_owned(), stored: Stored::Value { bytes, expiry_secs: ttl } };
        proof {
            assert(!self@.contains_key(key@));
            assert(!slot_has(self.slots@, key@));
            lemma_push_fresh(self.slots@, slot);
        }
        self.slots.push(slot);
        proof {
            assert(final(self)@ =~= old(self)@.insert(
                key@,
                StoredView::Value { bytes: bytes@, expiry_secs: ttl as nat },
            ));
        }
    }

    /// Adds `member` to `key`'s member set, creating the set (with no expiry)
    /// when the key is absent: the `SADD` command. Refused — state untouched —
    /// when the key holds a byte string.
    pub fn sadd(&mut self, key: &str, member: &str) -> (ok: bool)
        requires
            old(self).wf(),
        ensures
            final(self).wf(),
            ok == !is_value_key(old(self)@, key@),
            ok ==> final(self)@ == old(self)@.insert(
                key@,
                StoredView::Members {
                    members: tag_members(old(self)@, key@).insert(member@),
                    expiry_secs: tag_expiry(old(self)@, key@),
                },
            ),
            !ok ==> *final(self) == *old(self),
    {
        match self.find(key) {
            None => {
                let m0 = member.to_owned();
                let ghost gm0 = m0;
                let mut members: Vec<String> = Vec::new();
                let ghost ms0 = members@;
                members.push(m0);
                proof {
                    lemma_members_push(ms0, gm0);
                    assert(members_set(ms0) =~= Set::<Seq<char>>::empty());
                    assert(tag_members(old(self)@, key@) =~= Set::<Seq<char>>::empty());
                }
                let slot = Slot {
                    key: key.to_owned(),
                    stored: Stored::Members { members, expiry_secs: None },
                };
                proof {
                    lemma_push_fresh(self.slots@, slot);
                }
                self.slots.push(slot);
                proof {
                    assert(final(self)@ =~= old(self)@.insert(
                        key@,
                        StoredView::Members {
                            members: tag_members(old(self)@, key@).insert(member@),
                            expiry_secs: tag_expiry(old(self)@, key@),
                        },
                    ));
                }
                true
            },
            Some(i) => {
                let is_value = match &self.slots[i].stored {
                    Stored::Value { .. } => true,
                    Stored::Members { .. } => false,
                };
                proof {
                    lemma_at_unique(self.slots@, i as int);
                }
                if is_value {
                    return false;
                }
                proof {
                    lemma_remove_at(self.slots@, i as int);
                }
                let slot = self.slots.remove(i);
                match slot.stored {
                    Stored::Members { mut members, expiry_secs } => {
                        let ghost ms0 = members@;
                        let m0 = member.to_owned();
                        let ghost gm0 = m0;
                        members.push(m0);
                        proof {
                            lemma_members_push(ms0, gm0);
                        }
                        let fresh = Slot {
                            key: slot.key,
                            stored: Stored::Members { members, expiry_secs },
                        };
                        proof {
                            lemma_push_fresh(self.slots@, fresh);
                        }
                        self.slots.push(fresh);
                        proof {
                            assert(final(self)@ =~= old(self)@.insert(
                                key@,
                                StoredView::Members {
                                    members: tag_members(old(self)@, key@).insert(member@),
                                    expiry_secs: tag_expiry(old(self)@, key@),
                                },
                            ));
                        }
                        true
                    },
                    Stored::Value { .. } => {
                        proof {
                            assert(false);
                        }
                        false
                    },
                }
            },
        }
    }

    /// Sets `key`'s expiry to `ttl` when the key exists: the `EXPIRE` command.
    pub fn expire(&mut self, key: &str, ttl: usize) -> (ok: bool)
        requires
            old(self).wf(),
        ensures
            final(self).wf(),
            ok == old(self)@.contains_key(key@),
            ok ==> final(self)@ == old(self)@.insert(
                key@,
                with_expiry(old(self)@[key@], ttl as nat),
            ),
            !ok ==> *final(self) == *old(self),
    {
        match self.find(key) {
            None => false,
            Some(i) => {
                proof {
                    lemma_at_unique(self.slots@, i as int);
                    lemma_remove_at(self.slots@, i as int);
                }
                let slot = self.slots.remove(i);
                let stored = match slot.stored {
                    Stored::Value { bytes, .. } => Stored::Value { bytes, expiry_secs: ttl },
                    Stored::Members { members, .. } => Stored::Members {
                        members,
                        expiry_secs: Some(ttl),
                    },
                };
                let fresh = Slot { key: slot.key, stored };
                proof {
                    lemma_push_fresh(self.slots@, fresh);
                }
                self.slots.push(fresh);
                proof {
                    assert(final(self)@ =~= old(self)@.insert(
                        key@,
                        with_expiry(old(self)@[key@], ttl as nat),
                    ));
                }
                true
            },
        }
    }

    /// Fetches `key`: the `GET` command. Bytes for a stored value, `Nil` for
    /// an absent key, a reply of another shape for a member set.
    pub fn get_reply(&self, key: &str) -> (r: Reply)
        requires
            self.wf(),
        ensures
            if self@.contains_key(key@) {
                match self@[key@] {
                    StoredView::Value { bytes, .. } => r matches Reply::Data(b) && b@ == bytes,
                    StoredView::Members { .. } => r is Other,
                }
            } else {
                r is Nil
            },
    {
        match self.find(key) {
            None => Reply::Nil,
            Some(i) => {
                proof {
                    lemma_at_unique(self.slots@, i as int);
                }
                match &self.slots[i].stored {
                    Stored::Value { bytes, .. } => Reply::Data(copy_bytes(bytes)),
                    Stored::Members { .. } => Reply::Other,
                }
            },
        }
    }

    /// Whether `key` currently holds a byte string (the keys a `SADD` would
    /// be refused on).
    pub fn holds_value(&self, key: &str) -> (b: bool)
        requires
            self.wf(),
        ensures
            b == is_value_key(self@, key@),
    {
        match self.find(key) {
            None => {
                proof {
                    assert(!self@.contains_key(key@));
                }
                false
            },
            Some(i) => {
                proof {
                    lemma_at_unique(self.slots@, i as int);
                }
                match &self.slots[i].stored {
                    Stored::Value { .. } => true,
                    Stored::Members { .. } => false,
                }
            },
        }
    }

    /// Runs the invalidation procedure for `tag` atomically: reads the member
    /// set, derives one storage key per member, and deletes every derived key
    /// plus the tag record itself in one indivisible step — the semantics of
    /// the server-side script. Refused — state untouched — when `tag` holds a
    /// byte string, since the member read fails on such a key.
    pub fn run_purge(&mut self, prefix: &str, shard: u8, tag: &str) -> (ok: bool)
        requires
            old(self).wf(),
        ensures
            final(self).wf(),
            ok == !is_value_key(old(self)@, tag@),
            ok ==> final(self)@ == spec_purge(old(self)@, prefix@, shard, tag@),
            !ok ==> *final(self) == *old(self),
    {
        match self.find(tag) {
            None => {
                proof {
                    assert(!self@.contains_key(tag@));
                    assert(purge_victims(self@, prefix@, shard, tag@)
                        =~= Set::<Seq<char>>::empty()) by {
                        assert(tag_members(self@, tag@) =~= Set::<Seq<char>>::empty());
                    }
                    assert(self@ =~= spec_purge(self@, prefix@, shard, tag@));
                }
                true
            },
            Some(i) => {
                let is_value = match &self.slots[i].stored {
                    Stored::Value { .. } => true,
                    Stored::Members { .. } => false,
                };
                proof {
                    lemma_at_unique(self.slots@, i as int);
                }
                if is_value {
                    return false;
                }
                let ms = match &self.slots[i].stored {
                    Stored::Members { members, .. } => copy_strings(members),
                    Stored::Value { .. } => {
                        proof {
                            assert(false);
                        }
                        Vec::new()
                    },
                };
                let ghost v0 = self@;
                proof {
                    assert(tag_members(v0, tag@) =~= members_set(ms@)) by {
                        assert forall|m: Seq<char>| #![auto]
                            tag_members(v0, tag@).contains(m) implies has_str(ms@, m) by {
                            let orig = self.slots@[i as int].stored->Members_members;
                            let l = choose|l: int| 0 <= l < orig@.len() && (#[trigger] orig@[l])@
                                == m;
                            assert(ms@[l]@ == m);
                        }
                        assert forall|m: Seq<char>| #![auto] has_str(ms@, m) implies tag_members(
                            v0,
                            tag@,
                        ).contains(m) by {
                            let orig = self.slots@[i as int].stored->Members_members;
                            let l = choose|l: int| 0 <= l < ms@.len() && (#[trigger] ms@[l])@ == m;
                            assert(orig@[l]@ == m);
                            assert(has_str(orig@, m));
                        }
                    }
                }
                proof {
                    assert(derived_set(ms@, prefix@, shard, 0) =~= Set::<Seq<char>>::empty());
                    assert(v0.remove_keys(derived_set(ms@, prefix@, shard, 0)) =~= v0);
                }
                let n = ms.len();
                let mut j: usize = 0;
                while j < n
                    invariant
                        self.wf(),
                        n == ms@.len(),
                        j <= n,
                        self@ == v0.remove_keys(derived_set(ms@, prefix@, shard, j as int)),
                    decreases n - j,
                {
                    let dk = derive_cache_key(prefix, shard, ms[j].as_str());
                    let ghost before = self@;
                    self.del(dk.as_str());
                    proof {
                        assert(before.remove(dk@) =~= v0.remove_keys(
                            derived_set(ms@, prefix@, shard, j + 1),
                        )) by {
                            assert forall|k: Seq<char>| #![auto]
                                derived_set(ms@, prefix@, shard, j + 1).contains(k) implies (
                            derived_set(ms@, prefix@, shard, j as int).contains(k) || k
                                == dk@) by {
                                let l = choose|l: int|
                                    0 <= l < j + 1 && l < ms@.len() && k == derived_key(
                                        prefix@,
                                        shard,
                                        (#[trigger] ms@[l])@,
                                    );
                                if l < j {
                                    assert(derived_set(ms@, prefix@, shard, j as int).contains(k));
                                }
                            }
                            assert forall|k: Seq<char>| #![auto]
                                derived_set(ms@, prefix@, shard, j as int).contains(k) || k
                                == dk@ implies derived_set(ms@, prefix@, shard, j + 1).contains(
                                k,
                            ) by {
                                if derived_set(ms@, prefix@, shard, j as int).contains(k) {
                                    let l = choose|l: int|
                                        0 <= l < j && l < ms@.len() && k == derived_key(
                                            prefix@,
                                            shard,
                                            (#[trigger] ms@[l])@,
                                        );
                                    assert(0 <= l < j + 1 && k == derived_key(
                                        prefix@,
                                        shard,
                                        ms@[l]@,
                                    ));
                                } else {
                                    assert(k == derived_key(prefix@, shard, ms@[j as int]@));
                                }
                            }
                        }
                    }
                    j += 1;
                }
                proof {
                    assert(derived_set(ms@, prefix@, shard, n as int) =~= purge_victims(
                        v0,
                        prefix@,
                        shard,
                        tag@,
                    )) by {
                        assert forall|k: Seq<char>| #![auto]
                            derived_set(ms@, prefix@, shard, n as int).contains(
                            k,
                        ) implies purge_victims(v0, prefix@, shard, tag@).contains(k) by {
                            let l = choose|l: int|
                                0 <= l < n && l < ms@.len() && k == derived_key(
                                    prefix@,
                                    shard,
                                    (#[trigger] ms@[l])@,
                                );
                            assert(has_str(ms@, ms@[l]@));
                            assert(tag_members(v0, tag@).contains(ms@[l]@));
                        }
                        assert forall|k: Seq<char>| #![auto]
                            purge_victims(v0, prefix@, shard, tag@).contains(
                            k,
                        ) implies derived_set(ms@, prefix@, shard, n as int).contains(k) by {
                            let m = choose|m: Seq<char>|
                                tag_members(v0, tag@).contains(m) && k == #[trigger] derived_key(
                                    prefix@,
                                    shard,
                                    m,
                                );
                            assert(has_str(ms@, m));
                            let l = choose|l: int| 0 <= l < ms@.len() && (#[trigger] ms@[l])@ == m;
                            assert(k == derived_key(prefix@, shard, ms@[l]@));
                        }
                    }
                }
                self.del(tag);
                proof {
                    assert(final(self)@ =~= spec_purge(v0, prefix@, shard, tag@));
                }
                true
            },
        }
    }

    /// Remaining expiry of `key`: the `TTL` command. `None` for an absent key
    /// or one stored without an expiry.
    pub fn ttl_secs(&self, key: &str) -> (r: Option<usize>)
        requires
            self.wf(),
        ensures
            if self@.contains_key(key@) {
                match self@[key@] {
                    StoredView::Value { expiry_secs, .. } => r matches Some(t) && t as nat
                        == expiry_secs,
                    StoredView::Members { expiry_secs, .. } => match expiry_secs {
                        Some(e) => r matches Some(t) && t as nat == e,
                        None => r is None,
                    },
                }
            } else {
                r is None
            },
    {
        match self.find(key) {
            None => None,
            Some(i) => {
                proof {
                    lemma_at_unique(self.slots@, i as int);
                }
                match &self.slots[i].stored {
                    Stored::Value { expiry_secs, .. } => Some(*expiry_secs),
                    Stored::Members { expiry_secs, .. } => match expiry_secs {
                        Some(e) => Some(*e),
                        None => None,
                    },
                }
            },
        }
    }
}

} // verus!
