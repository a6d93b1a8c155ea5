//! The cache store: get / set / purge-by-tag over the backend, with the write
//! policy (size cap, TTL cap), the pipelined write batch, and the tag-based
//! invalidation dispatch.

use crate::backend::is_value_key;
use crate::backend::spec_purge;
use crate::backend::tag_expiry;
use crate::backend::tag_members;
use crate::backend::with_expiry;
use crate::backend::Backend;
use crate::backend::Reply;
use crate::backend::StoredView;
use crate::config::ConfigRedis;
use crate::min_nat;
use crate::text::dec_digits;
use crate::text::str_eq;
use vstd::prelude::*;
use vstd::string::StringSliceAdditionalSpecFns;
use vstd::utf8::decode_utf8;
use vstd::utf8::encode_utf8;
use vstd::utf8::valid_utf8;

verus! {

/// Fixed first segment of every derived storage key.
pub const ROUTE_PREFIX: &'static str = "bloom";

/// The server-side invalidation procedure: enumerate the masks registered
/// under the tag, derive each mask's concrete storage key, and delete the
/// derived keys together with the tag record in one bulk call. Its semantics
/// are `Backend::run_purge`.
pub const PURGE_SCRIPT: &'static str = r#"
                    local targets = {}

                    for _, tag in pairs(redis.call('SMEMBERS', ARGV[3])) do
                        table.insert(targets, ARGV[1] .. ":" .. ARGV[2] .. ":c:" .. tag)
                    end

                    table.insert(targets, ARGV[3])

                    redis.call('DEL', unpack(targets))
                "#;

pub struct CacheStoreBuilder;

/// The cache store: the backend connection URL and the write policy, owned
/// immutably for the life of the process.
pub struct CacheStore {
    pub url: String,
    pub max_key_size: usize,
    pub max_key_expiration: usize,
}

/// Everything a store operation can fail with.
#[derive(Clone, Copy, Debug, PartialEq, Eq, Structural)]
pub enum CacheStoreError {
    /// No pooled connection could be obtained.
    Disconnected,
    /// The backend was reachable but the command or script failed.
    Failed,
    /// The backend returned a value of an unexpected shape.
    Invalid,
    /// The stored bytes do not decode as text.
    Corrupted,
    /// The write exceeds the size policy.
    TooLarge,
}

/// Selects which invalidation behavior a purge runs. All variants currently
/// share one script.
#[derive(Clone, Copy, Debug)]
pub enum CachePurgeVariant {
    Bucket,
    Auth,
}

pub type CacheResult = Result<Option<String>, CacheStoreError>;

impl CachePurgeVariant {
    /// The script this variant runs against the backend.
    pub fn get_script(&self) -> (r: &'static str)
        ensures
            r@ == PURGE_SCRIPT@,
    {
        match *self {
            CachePurgeVariant::Bucket | CachePurgeVariant::Auth => PURGE_SCRIPT,
        }
    }
}

/// One command of the pipelined write batch.
pub enum Command {
    SetEx { key: String, value: Vec<u8>, ttl: usize },
    SAdd { key: String, member: String },
    Expire { key: String, ttl: usize },
}

/// Whether the backend accepts one command in state `v`: a member
/// registration is refused on a key that holds a byte string, everything
/// else goes through.
pub open spec fn cmd_ok(v: Map<Seq<char>, StoredView>, c: Command) -> bool {
    match c {
        Command::SAdd { key, .. } => !is_value_key(v, key@),
        Command::SetEx { .. } => true,
        Command::Expire { .. } => true,
    }
}

/// What one accepted command does to the backend state, per the wire
/// contract: `SETEX` stores bytes under the given expiry, `SADD` adds the
/// member to the key's set, `EXPIRE` refreshes an existing key's expiry.
pub open spec fn cmd_step(v: Map<Seq<char>, StoredView>, c: Command) -> Map<Seq<char>, StoredView> {
    match c {
        Command::SetEx { key, value, ttl } => v.insert(
            key@,
            StoredView::Value { bytes: value@, expiry_secs: ttl as nat },
        ),
        Command::SAdd { key, member } => v.insert(
            key@,
            StoredView::Members {
                members: tag_members(v, key@).insert(member@),
                expiry_secs: tag_expiry(v, key@),
            },
        ),
        Command::Expire { key, ttl } => if v.contains_key(key@) {
            v.insert(key@, with_expiry(v[key@], ttl as nat))
        } else {
            v
        },
    }
}

/// Whether the backend accepts a whole batch, command by command in order.
pub open spec fn batch_ok(v: Map<Seq<char>, StoredView>, cmds: Seq<Command>) -> bool
    decreases cmds.len(),
{
    cmds.len() == 0 || (cmd_ok(v, cmds[0]) && batch_ok(cmd_step(v, cmds[0]), cmds.drop_first()))
}

/// The state after a batch runs in order.
pub open spec fn batch_step(v: Map<Seq<char>, StoredView>, cmds: Seq<Command>) -> Map<
    Seq<char>,
    StoredView,
>
    decreases cmds.len(),
{
    if cmds.len() == 0 {
        v
    } else {
        batch_step(cmd_step(v, cmds[0]), cmds.drop_first())
    }
}

/// The view of an optional password.
pub open spec fn opt_view(p: Option<String>) -> Option<Seq<char>> {
    match p {
        Some(s) => Some(s@),
        None => None,
    }
}

/// The backend connection URL: `redis://[:password@]host:port/database`.
pub open spec fn redis_url(
    host: Seq<char>,
    port: u16,
    password: Option<Seq<char>>,
    database: u32,
) -> Seq<char> {
    "redis://"@ + (match password {
        Some(p) => ":"@ + p + "@"@,
        None => Seq::<char>::empty(),
    }) + host + ":"@ + dec_digits(port as nat) + "/"@ + dec_digits(database as nat)
}

impl CacheStoreBuilder {
    /// Builds the store from its configuration: the policy is copied and the
    /// connection URL is assembled exactly as `redis_url` specifies.
    pub fn new(conf: &ConfigRedis) -> (store: CacheStore)
        ensures
            store.url@ == redis_url(conf.host@, conf.port, opt_view(conf.password), conf.database),
            store.max_key_size == conf.max_key_size,
            store.max_key_expiration == conf.max_key_expiration,
    {
        let mut url = "redis://".to_owned();
        match &conf.password {
            Some(p) => {
                url.append(":");
                url.append(p.as_str());
                url.append("@");
            },
            None => {},
        }
        url.append(conf.host.as_str());
        url.append(":");
        let ports = dec_string_u16(conf.port);
        url.append(ports.as_str());
        url.append("/");
        let dbs = dec_string_u32(conf.database);
        url.append(dbs.as_str());
        proof {
            assert(url@ =~= redis_url(
                conf.host@,
                conf.port,
                opt_view(conf.password),
                conf.database,
            ));
        }
        CacheStore {
            url,
            max_key_size: conf.max_key_size,
            max_key_expiration: conf.max_key_expiration,
        }
    }
}

fn dec_string_u16(n: u16) -> (s: String)
    ensures
        s@ == dec_digits(n as nat),
{
    crate::text::dec_string(n as u64)
}

fn dec_string_u32(n: u32) -> (s: String)
    ensures
        s@ == dec_digits(n as nat),
{
    crate::text::dec_string(n as u64)
}

/// Relies on String::from_utf8: it succeeds exactly on valid UTF-8 input,
/// yielding the text those bytes encode.
#[verifier::external_body]
fn decode_text(bytes: Vec<u8>) -> (r: Option<String>)
    ensures
        r is Some <==> valid_utf8(bytes@),
        r matches Some(s) ==> s@ == decode_utf8(bytes@),
{
    String::from_utf8(bytes).ok()
}

/// Turns a fetch reply into the store's result: stored bytes are decoded as
/// text (`Corrupted` when they are not valid text), an absent key is a miss
/// and not an error, and a reply of any other shape is `Invalid`.
pub fn interpret_get_reply(reply: Reply) -> (r: CacheResult)
    ensures
        match reply {
            Reply::Data(bytes) => if valid_utf8(bytes@) {
                r matches Ok(Some(s)) && s@ == decode_utf8(bytes@)
            } else {
                r == Err::<Option<String>, CacheStoreError>(CacheStoreError::Corrupted)
            },
            Reply::Nil => r == Ok::<Option<String>, CacheStoreError>(None),
            Reply::Other => r == Err::<Option<String>, CacheStoreError>(CacheStoreError::Invalid),
        },
{
    match reply {
        Reply::Data(bytes) => match decode_text(bytes) {
            Some(s) => Ok(Some(s)),
            None => Err(CacheStoreError::Corrupted),
        },
        Reply::Nil => Ok(None),
        Reply::Other => Err(CacheStoreError::Invalid),
    }
}

// ---------------------------------------------------------------------------
// The write transition
// ---------------------------------------------------------------------------

/// One tag registration: the mask joins the tag's member set and the tag
/// record's expiry becomes the configured maximum.
pub open spec fn tag_step(
    v: Map<Seq<char>, StoredView>,
    tag: Seq<char>,
    mask: Seq<char>,
    exp: nat,
) -> Map<Seq<char>, StoredView> {
    v.insert(
        tag,
        StoredView::Members {
            members: tag_members(v, tag).insert(mask),
            expiry_secs: Some(exp),
        },
    )
}

/// All tag registrations of one write, in order.
pub open spec fn apply_tags(
    v: Map<Seq<char>, StoredView>,
    tags: Seq<Seq<char>>,
    mask: Seq<char>,
    exp: nat,
) -> Map<Seq<char>, StoredView>
    decreases tags.len(),
{
    if tags.len() == 0 {
        v
    } else {
        tag_step(apply_tags(v, tags.drop_last(), mask, exp), tags.last(), mask, exp)
    }
}

/// Whether the backend refuses the write batch: some tag key collides with a
/// byte-string key (the entry being written included), so its registration
/// command fails and the batch as a whole is refused.
pub open spec fn set_conflict(
    v: Map<Seq<char>, StoredView>,
    key: Seq<char>,
    tags: Seq<Seq<char>>,
) -> bool {
    exists|i: int|
        0 <= i < tags.len() && ((#[trigger] tags[i]) == key || is_value_key(v, tags[i]))
}

/// The state a successful write leaves: the entry stored under its capped
/// TTL, and every tag updated.
pub open spec fn spec_set_state(
    v: Map<Seq<char>, StoredView>,
    key: Seq<char>,
    mask: Seq<char>,
    value: Seq<char>,
    ttl: nat,
    max_exp: nat,
    tags: Seq<Seq<char>>,
) -> Map<Seq<char>, StoredView> {
    apply_tags(
        v.insert(
            key,
            StoredView::Value { bytes: encode_utf8(value), expiry_secs: min_nat(ttl, max_exp) },
        ),
        tags,
        mask,
        max_exp,
    )
}

/// How one key fares under the tag registrations: a key not among the tags
/// keeps its binding; a key among them ends as a member set that contains the
/// mask and carries the refreshed expiry.
pub proof fn lemma_apply_tags(
    v: Map<Seq<char>, StoredView>,
    tags: Seq<Seq<char>>,
    mask: Seq<char>,
    exp: nat,
    k: Seq<char>,
)
    ensures
        !tags.contains(k) ==> (apply_tags(v, tags, mask, exp).contains_key(k) == v.contains_key(
            k,
        )) && (v.contains_key(k) ==> apply_tags(v, tags, mask, exp)[k] == v[k]),
        tags.contains(k) ==> apply_tags(v, tags, mask, exp).contains_key(k) && (apply_tags(
            v,
            tags,
            mask,
            exp,
        )[k] matches StoredView::Members { members, expiry_secs } && members.contains(mask)
            && expiry_secs == Some(exp)),
    decreases tags.len(),
{
    if tags.len() == 0 {
    } else {
        let ts = tags.drop_last();
        let t = tags.last();
        lemma_apply_tags(v, ts, mask, exp, k);
        assert(tags.contains(k) == (ts.contains(k) || t == k)) by {
            if tags.contains(k) {
                let i = choose|i: int| 0 <= i < tags.len() && tags[i] == k;
                if i < tags.len() - 1 {
                    assert(ts[i] == k);
                    assert(ts.contains(k));
                }
            }
            if ts.contains(k) {
                let i = choose|i: int| 0 <= i < ts.len() && ts[i] == k;
                assert(tags[i] == k);
                assert(tags.contains(k));
            }
            if t == k {
                assert(tags[tags.len() - 1] == k);
                assert(tags.contains(k));
            }
        }
    }
}

// ---------------------------------------------------------------------------
// The operations
// ---------------------------------------------------------------------------

impl CacheStore {
    /// Fetches the value cached under `key`. A present value decodes to
    /// `Some(text)`, an absent key is `None` (a miss, not an error), a key of
    /// another shape is `Invalid`, and undecodable bytes are `Corrupted`.
    /// No side effects.
    pub fn get(&self, backend: &Backend, key: &str) -> (r: CacheResult)
        requires
            backend.wf(),
        ensures
            ({
                let v = backend@;
                if v.contains_key(key@) {
                    match v[key@] {
                        StoredView::Value { bytes, .. } => if valid_utf8(bytes) {
                            r matches Ok(Some(s)) && s@ == decode_utf8(bytes)
                        } else {
                            r == Err::<Option<String>, CacheStoreError>(CacheStoreError::Corrupted)
                        },
                        StoredView::Members { .. } => r == Err::<
                            Option<String>,
                            CacheStoreError,
                        >(CacheStoreError::Invalid),
                    }
                } else {
                    r == Ok::<Option<String>, CacheStoreError>(None)
                }
            }),
    {
        interpret_get_reply(backend.get_reply(key))
    }

    /// Stores `value` under `key` and registers `key_mask` under every tag of
    /// `key_tags`, as one atomic batch. A value over the size cap is refused
    /// with `TooLarge` and nothing is written; the requested TTL is silently
    /// capped at the configured maximum; a tag key that collides with a
    /// byte-string key makes the whole batch fail with `Failed`, nothing
    /// written. On success the backend moves to exactly `spec_set_state`.
    pub fn set(
        &self,
        backend: &mut Backend,
        key: &str,
        key_mask: &str,
        value: &str,
        ttl: usize,
        key_tags: Vec<String>,
    ) -> (r: CacheResult)
        requires
            old(backend).wf(),
        ensures
            final(backend).wf(),
            encode_utf8(value@).len() > self.max_key_size ==> r == Err::<
                Option<String>,
                CacheStoreError,
            >(CacheStoreError::TooLarge) && *final(backend) == *old(backend),
            encode_utf8(value@).len() <= self.max_key_size && set_conflict(
                old(backend)@,
                key@,
                key_tags.deep_view(),
            ) ==> r == Err::<Option<String>, CacheStoreError>(CacheStoreError::Failed)
                && *final(backend) == *old(backend),
            encode_utf8(value@).len() <= self.max_key_size && !set_conflict(
                old(backend)@,
                key@,
                key_tags.deep_view(),
            ) ==> r == Ok::<Option<String>, CacheStoreError>(None) && final(backend)@
                == spec_set_state(
                old(backend)@,
                key@,
                key_mask@,
                value@,
                ttl as nat,
                self.max_key_expiration as nat,
                key_tags.deep_view(),
            ),
    {
        broadcast use vstd::slice::axiom_spec_len;

        let ghost tags = key_tags.deep_view();
        proof {
            assert(value.spec_bytes() == encode_utf8(value@));
        }
        if value.as_bytes().len() > self.max_key_size {
            return Err(CacheStoreError::TooLarge);
        }
        let n = key_tags.len();
        let mut i: usize = 0;
        while i < n
            invariant
                i <= n,
                n == key_tags@.len(),
                tags == key_tags.deep_view(),
                encode_utf8(value@).len() <= self.max_key_size,
                *backend == *old(backend),
                backend.wf(),
                forall|j: int|
                    0 <= j < i ==> !((#[trigger] tags[j]) == key@ || is_value_key(
                        backend@,
                        tags[j],
                    )),
            decreases n - i,
        {
            let tag = &key_tags[i];
            proof {
                assert(tags[i as int] == key_tags@[i as int]@);
            }
            if str_eq(tag.as_str(), key) || backend.holds_value(tag.as_str()) {
                proof {
                    assert(set_conflict(old(backend)@, key@, tags));
                }
                return Err(CacheStoreError::Failed);
            }
            i += 1;
        }
        proof {
            assert(!set_conflict(old(backend)@, key@, tags)) by {
                if set_conflict(old(backend)@, key@, tags) {
                    let j = choose|j: int|
                        0 <= j < tags.len() && ((#[trigger] tags[j]) == key@ || is_value_key(
                            old(backend)@,
                            tags[j],
                        ));
                    assert(!(tags[j] == key@ || is_value_key(old(backend)@, tags[j])));
                }
            }
        }
        let ttl_cap = if ttl < self.max_key_expiration {
            ttl
        } else {
            self.max_key_expiration
        };
        backend.setex(key, value.as_bytes_vec(), ttl_cap);
        let ghost v1 = backend@;
        let ghost exp = self.max_key_expiration as nat;
        proof {
            assert(v1 == old(backend)@.insert(
                key@,
                StoredView::Value {
                    bytes: encode_utf8(value@),
                    expiry_secs: min_nat(ttl as nat, exp),
                },
            ));
        }
        let mut i: usize = 0;
        while i < n
            invariant
                i <= n,
                n == key_tags@.len(),
                tags == key_tags.deep_view(),
                encode_utf8(value@).len() <= self.max_key_size,
                backend.wf(),
                exp == self.max_key_expiration as nat,
                backend@ == apply_tags(v1, tags.take(i as int), key_mask@, exp),
                v1 == old(backend)@.insert(
                    key@,
                    StoredView::Value {
                        bytes: encode_utf8(value@),
                        expiry_secs: min_nat(ttl as nat, exp),
                    },
                ),
                forall|j: int|
                    0 <= j < n ==> !((#[trigger] tags[j]) == key@ || is_value_key(
                        old(backend)@,
                        tags[j],
                    )),
            decreases n - i,
        {
            let tag = &key_tags[i];
            let ghost cur = backend@;
            proof {
                assert(tags[i as int] == key_tags@[i as int]@);
                lemma_apply_tags(v1, tags.take(i as int), key_mask@, exp, tags[i as int]);
                if tags.take(i as int).contains(tags[i as int]) {
                    assert(!(cur[tags[i as int]] is Value));
                } else {
                    assert(!is_value_key(v1, tags[i as int]));
                }
                assert(!is_value_key(cur, tags[i as int]));
            }
            let ok = backend.sadd(tag.as_str(), key_mask);
            proof {
                assert(ok);
            }
            let ok2 = backend.expire(tag.as_str(), self.max_key_expiration);
            proof {
                assert(ok2);
                assert(backend@ =~= tag_step(cur, tags[i as int], key_mask@, exp));
                assert(tags.take(i + 1).drop_last() =~= tags.take(i as int));
                assert(tags.take(i + 1).last() == tags[i as int]);
                assert(backend@ == apply_tags(v1, tags.take(i + 1), key_mask@, exp));
            }
            i += 1;
        }
        proof {
            assert(tags.take(n as int) =~= tags);
        }
        Ok(None)
    }

    /// Deletes every entry registered under `key_tag` plus the tag record
    /// itself, by running the invalidation script atomically server-side. A
    /// tag with no members is a safe no-op, not an error; a script failure is
    /// `Failed`. On success the backend moves to exactly `spec_purge`.
    pub fn purge_tag(
        &self,
        backend: &mut Backend,
        variant: &CachePurgeVariant,
        shard: u8,
        key_tag: &str,
    ) -> (r: CacheResult)
        requires
            old(backend).wf(),
        ensures
            final(backend).wf(),
            is_value_key(old(backend)@, key_tag@) ==> r == Err::<
                Option<String>,
                CacheStoreError,
            >(CacheStoreError::Failed) && *final(backend) == *old(backend),
            !is_value_key(old(backend)@, key_tag@) ==> r == Ok::<
                Option<String>,
                CacheStoreError,
            >(None) && final(backend)@ == spec_purge(old(backend)@, ROUTE_PREFIX@, shard, key_tag@),
    {
        // The script text this variant dispatches; the backend executes its
        // semantics atomically.
        let _script = variant.get_script();
        if backend.run_purge(ROUTE_PREFIX, shard, key_tag) {
            Ok(None)
        } else {
            Err(CacheStoreError::Failed)
        }
    }

    /// The exact pipelined batch a write sends over the wire: the entry store
    /// under its capped TTL, then, for every tag, the mask registration and
    /// the tag record's expiry refresh. `None` when the value breaks the size
    /// policy, in which case nothing is to be sent.
    pub fn set_commands(
        &self,
        key: &str,
        key_mask: &str,
        value: &str,
        ttl: usize,
        key_tags: &Vec<String>,
    ) -> (r: Option<Vec<Command>>)
        ensures
            r is Some <==> encode_utf8(value@).len() <= self.max_key_size,
            r matches Some(cmds) ==> ({
                let tags = key_tags.deep_view();
                &&& cmds@.len() == 1 + 2 * tags.len()
                &&& (cmds@[0] matches Command::SetEx { key: k, value: v, ttl: t } && k@ == key@
                    && v@ == encode_utf8(value@) && t as nat == min_nat(
                    ttl as nat,
                    self.max_key_expiration as nat,
                ))
                &&& forall|i: int|
                    0 <= i < tags.len() ==> (#[trigger] cmds@[1 + 2 * i] matches Command::SAdd {
                        key: k,
                        member: m,
                    } && k@ == tags[i] && m@ == key_mask@)
                &&& forall|i: int|
                    0 <= i < tags.len() ==> (#[trigger] cmds@[2 + 2 * i] matches Command::Expire {
                        key: k,
                        ttl: t,
                    } && k@ == tags[i] && t == self.max_key_expiration)
            }),
    {
        broadcast use vstd::slice::axiom_spec_len;

        proof {
            assert(value.spec_bytes() == encode_utf8(value@));
        }
        if value.as_bytes().len() > self.max_key_size {
            return None;
        }
        let ttl_cap = if ttl < self.max_key_expiration {
            ttl
        } else {
            self.max_key_expiration
        };
        let mut cmds: Vec<Command> = Vec::new();
        cmds.push(
            Command::SetEx { key: key.to_owned(), value: value.as_bytes_vec(), ttl: ttl_cap },
        );
        let n = key_tags.len();
        let mut i: usize = 0;
        while i < n
            invariant
                i <= n,
                n == key_tags@.len(),
                cmds@.len() == 1 + 2 * i,
                (cmds@[0] matches Command::SetEx { key: k, value: v, ttl: t } && k@ == key@ && v@
                    == encode_utf8(value@) && t as nat == min_nat(
                    ttl as nat,
                    self.max_key_expiration as nat,
                )),
                forall|j: int|
                    0 <= j < i ==> (#[trigger] cmds@[1 + 2 * j] matches Command::SAdd {
                        key: k,
                        member: m,
                    } && k@ == key_tags.deep_view()[j] && m@ == key_mask@),
                forall|j: int|
                    0 <= j < i ==> (#[trigger] cmds@[2 + 2 * j] matches Command::Expire {
                        key: k,
                        ttl: t,
                    } && k@ == key_tags.deep_view()[j] && t == self.max_key_expiration),
            decreases n - i,
        {
            cmds.push(Command::SAdd { key: key_tags[i].clone(), member: key_mask.to_owned() });
            cmds.push(Command::Expire { key: key_tags[i].clone(), ttl: self.max_key_expiration });
            i += 1;
        }
        Some(cmds)
    }
}

} // verus!
