//! Laws of the store: properties relating several operations, stated over
//! the spec functions that the operations' own contracts use and proved once
//! for every state and input.

use crate::backend::derived_key;
use crate::backend::is_value_key;
use crate::backend::purge_victims;
use crate::backend::spec_purge;
use crate::backend::tag_members;
use crate::backend::StoredView;
use crate::min_nat;
use crate::store::apply_tags;
use crate::store::batch_ok;
use crate::store::batch_step;
use crate::store::cmd_step;
use crate::store::lemma_apply_tags;
use crate::store::set_conflict;
use crate::store::spec_set_state;
use crate::store::tag_step;
use crate::store::Command;
use vstd::prelude::*;
use vstd::utf8::decode_utf8;
use vstd::utf8::encode_utf8;
use vstd::utf8::encode_utf8_decode_utf8;
use vstd::utf8::encode_utf8_valid_utf8;
use vstd::utf8::valid_utf8;

verus! {

/// Two distinct member masks always derive two distinct storage keys: the
/// derived-key namespace keeps the mask intact after a fixed prefix.
pub proof fn lemma_derived_key_injective(
    prefix: Seq<char>,
    shard: u8,
    m1: Seq<char>,
    m2: Seq<char>,
)
    requires
        derived_key(prefix, shard, m1) == derived_key(prefix, shard, m2),
    ensures
        m1 == m2,
{
    let p = prefix + ":"@ + crate::text::dec_digits(shard as nat) + ":c:"@;
    let d1 = derived_key(prefix, shard, m1);
    let d2 = derived_key(prefix, shard, m2);
    assert(d1.len() == p.len() + m1.len());
    assert(d2.len() == p.len() + m2.len());
    assert(m1 =~= m2) by {
        assert forall|i: int| 0 <= i < m1.len() implies m1[i] == m2[i] by {
            assert(d1[p.len() + i] == m1[i]);
            assert(d2[p.len() + i] == m2[i]);
        }
    }
}

/// Round trip: a write that the policy accepts stores, under its key, the
/// byte encoding of the written value with the capped expiry; those bytes
/// are valid text and decode back to exactly the value, so the fetch that
/// follows the write returns `Some` of it.
pub proof fn lemma_set_round_trip(
    v: Map<Seq<char>, StoredView>,
    key: Seq<char>,
    mask: Seq<char>,
    value: Seq<char>,
    ttl: nat,
    max_exp: nat,
    tags: Seq<Seq<char>>,
)
    requires
        !set_conflict(v, key, tags),
    ensures
        ({
            let v2 = spec_set_state(v, key, mask, value, ttl, max_exp, tags);
            &&& v2.contains_key(key)
            &&& v2[key] == StoredView::Value {
                bytes: encode_utf8(value),
                expiry_secs: min_nat(ttl, max_exp),
            }
            &&& valid_utf8(encode_utf8(value))
            &&& decode_utf8(encode_utf8(value)) == value
        }),
{
    broadcast use encode_utf8_valid_utf8, encode_utf8_decode_utf8;

    if tags.contains(key) {
        let i = choose|i: int| 0 <= i < tags.len() && tags[i] == key;
        assert(tags[i] == key || is_value_key(v, tags[i]));
        assert(set_conflict(v, key, tags));
    }
    let v1 = v.insert(
        key,
        StoredView::Value { bytes: encode_utf8(value), expiry_secs: min_nat(ttl, max_exp) },
    );
    lemma_apply_tags(v1, tags, mask, max_exp, key);
}

/// Tag-scoped purge: purging a tag deletes exactly the entries whose masks
/// are registered under it. Entries of masks registered under the purged tag
/// are gone afterwards; an entry whose mask is not registered there — one
/// tagged only with some other tag — keeps its binding untouched.
pub proof fn lemma_tag_scoped_purge(
    v: Map<Seq<char>, StoredView>,
    prefix: Seq<char>,
    shard: u8,
    tag_t: Seq<char>,
    mask_a: Seq<char>,
    mask_b: Seq<char>,
    mask_c: Seq<char>,
)
    requires
        tag_members(v, tag_t).contains(mask_a),
        tag_members(v, tag_t).contains(mask_b),
        !tag_members(v, tag_t).contains(mask_c),
        derived_key(prefix, shard, mask_c) != tag_t,
    ensures
        ({
            let v2 = spec_purge(v, prefix, shard, tag_t);
            let kc = derived_key(prefix, shard, mask_c);
            &&& !v2.contains_key(derived_key(prefix, shard, mask_a))
            &&& !v2.contains_key(derived_key(prefix, shard, mask_b))
            &&& v2.contains_key(kc) == v.contains_key(kc)
            &&& v.contains_key(kc) ==> v2[kc] == v[kc]
        }),
{
    assert(derived_key(prefix, shard, mask_a) == derived_key(prefix, shard, mask_a));
    assert(purge_victims(v, prefix, shard, tag_t).contains(derived_key(prefix, shard, mask_a)));
    assert(derived_key(prefix, shard, mask_b) == derived_key(prefix, shard, mask_b));
    assert(purge_victims(v, prefix, shard, tag_t).contains(derived_key(prefix, shard, mask_b)));
    let kc = derived_key(prefix, shard, mask_c);
    if purge_victims(v, prefix, shard, tag_t).contains(kc) {
        let m = choose|m: Seq<char>|
            tag_members(v, tag_t).contains(m) && kc == #[trigger] derived_key(prefix, shard, m);
        lemma_derived_key_injective(prefix, shard, mask_c, m);
    }
}

/// Idempotent purge: purging a tag with no registered members only drops the
/// tag record and touches nothing else; and a second purge of the same tag,
/// right after a first, cannot be refused and changes nothing — the state
/// after two purges in a row is the state after one.
pub proof fn lemma_purge_idempotent(
    v: Map<Seq<char>, StoredView>,
    prefix: Seq<char>,
    shard: u8,
    tag: Seq<char>,
)
    ensures
        tag_members(v, tag) == Set::<Seq<char>>::empty() ==> spec_purge(v, prefix, shard, tag)
            == v.remove(tag),
        !is_value_key(spec_purge(v, prefix, shard, tag), tag),
        spec_purge(spec_purge(v, prefix, shard, tag), prefix, shard, tag) == spec_purge(
            v,
            prefix,
            shard,
            tag,
        ),
{
    if tag_members(v, tag) == Set::<Seq<char>>::empty() {
        assert(purge_victims(v, prefix, shard, tag) =~= Set::<Seq<char>>::empty()) by {
            assert forall|k: Seq<char>| #![auto]
                !purge_victims(v, prefix, shard, tag).contains(k) by {
                if purge_victims(v, prefix, shard, tag).contains(k) {
                    let m = choose|m: Seq<char>|
                        tag_members(v, tag).contains(m) && k == #[trigger] derived_key(
                            prefix,
                            shard,
                            m,
                        );
                }
            }
        }
        assert(spec_purge(v, prefix, shard, tag) =~= v.remove(tag));
    }
    let v1 = spec_purge(v, prefix, shard, tag);
    assert(!v1.contains_key(tag));
    assert(tag_members(v1, tag) =~= Set::<Seq<char>>::empty());
    assert(purge_victims(v1, prefix, shard, tag) =~= Set::<Seq<char>>::empty()) by {
        assert forall|k: Seq<char>| #![auto]
            !purge_victims(v1, prefix, shard, tag).contains(k) by {
            if purge_victims(v1, prefix, shard, tag).contains(k) {
                let m = choose|m: Seq<char>|
                    tag_members(v1, tag).contains(m) && k == #[trigger] derived_key(
                        prefix,
                        shard,
                        m,
                    );
            }
        }
    }
    assert(spec_purge(v1, prefix, shard, tag) =~= v1);
}

proof fn lemma_apply_tags_front(
    v: Map<Seq<char>, StoredView>,
    tags: Seq<Seq<char>>,
    mask: Seq<char>,
    exp: nat,
)
    requires
        tags.len() > 0,
    ensures
        apply_tags(v, tags, mask, exp) == apply_tags(
            tag_step(v, tags[0], mask, exp),
            tags.drop_first(),
            mask,
            exp,
        ),
    decreases tags.len(),
{
    if tags.len() == 1 {
        assert(tags.drop_last() =~= Seq::<Seq<char>>::empty());
        assert(tags.drop_first() =~= Seq::<Seq<char>>::empty());
        assert(tags.last() == tags[0]);
        assert(apply_tags(v, tags.drop_last(), mask, exp) == v);
        assert(apply_tags(v, tags, mask, exp) == tag_step(v, tags[0], mask, exp));
        assert(apply_tags(tag_step(v, tags[0], mask, exp), tags.drop_first(), mask, exp)
            == tag_step(v, tags[0], mask, exp));
    } else {
        let ts = tags.drop_last();
        let w = tag_step(v, tags[0], mask, exp);
        lemma_apply_tags_front(v, ts, mask, exp);
        assert(ts[0] == tags[0]);
        assert(tags.drop_first().drop_last() =~= ts.drop_first());
        assert(tags.drop_first().last() == tags.last());
        assert(apply_tags(v, tags, mask, exp) == tag_step(
            apply_tags(v, ts, mask, exp),
            tags.last(),
            mask,
            exp,
        ));
        assert(apply_tags(v, ts, mask, exp) == apply_tags(w, ts.drop_first(), mask, exp));
        assert(apply_tags(w, tags.drop_first(), mask, exp) == tag_step(
            apply_tags(w, tags.drop_first().drop_last(), mask, exp),
            tags.drop_first().last(),
            mask,
            exp,
        ));
    }
}

proof fn lemma_tag_cmds(
    v: Map<Seq<char>, StoredView>,
    cmds: Seq<Command>,
    mask: Seq<char>,
    exp: nat,
    tags: Seq<Seq<char>>,
)
    requires
        cmds.len() == 2 * tags.len(),
        forall|i: int|
            0 <= i < tags.len() ==> (#[trigger] cmds[2 * i] matches Command::SAdd {
                key: k,
                member: m,
            } && k@ == tags[i] && m@ == mask),
        forall|i: int|
            0 <= i < tags.len() ==> (#[trigger] cmds[2 * i + 1] matches Command::Expire {
                key: k,
                ttl: t,
            } && k@ == tags[i] && t as nat == exp),
    ensures
        batch_ok(v, cmds) == (forall|i: int|
            0 <= i < tags.len() ==> !is_value_key(v, #[trigger] tags[i])),
        batch_ok(v, cmds) ==> batch_step(v, cmds) == apply_tags(v, tags, mask, exp),
    decreases tags.len(),
{
    if tags.len() == 0 {
    } else {
        let t0 = tags[0];
        let c0 = cmds[0];
        let c1 = cmds[1];
        let i0: int = 0;
        assert(cmds[2 * i0] matches Command::SAdd { key: k, member: m } && k@ == tags[i0] && m@
            == mask);
        assert(cmds[2 * i0 + 1] matches Command::Expire { key: k, ttl: t } && k@ == tags[i0] && t
            as nat == exp);
        assert(c0 == cmds[2 * i0] && c1 == cmds[2 * i0 + 1]);
        assert(c0 matches Command::SAdd { key: k, member: m } && k@ == t0 && m@ == mask);
        assert(c1 matches Command::Expire { key: k, ttl: t } && k@ == t0 && t as nat == exp);
        if is_value_key(v, t0) {
            assert(!batch_ok(v, cmds));
            assert(is_value_key(v, tags[0]));
        } else {
            let va = cmd_step(v, c0);
            assert(cmds.drop_first()[0] == c1);
            let vstep = cmd_step(va, c1);
            assert(vstep =~= tag_step(v, t0, mask, exp));
            let rest = cmds.drop_first().drop_first();
            let tail = tags.drop_first();
            assert(rest.len() == 2 * tail.len());
            assert forall|i: int|
                0 <= i < tail.len() implies (#[trigger] rest[2 * i] matches Command::SAdd {
                key: k,
                member: m,
            } && k@ == tail[i] && m@ == mask) by {
                assert(rest[2 * i] == cmds[2 * (i + 1)]);
                assert(tail[i] == tags[i + 1]);
            }
            assert forall|i: int|
                0 <= i < tail.len() implies (#[trigger] rest[2 * i + 1] matches Command::Expire {
                key: k,
                ttl: t,
            } && k@ == tail[i] && t as nat == exp) by {
                assert(rest[2 * i + 1] == cmds[2 * (i + 1) + 1]);
                assert(tail[i] == tags[i + 1]);
            }
            lemma_tag_cmds(vstep, rest, mask, exp, tail);
            // a tag registration never creates a byte-string key
            assert forall|k: Seq<char>| #![auto]
                is_value_key(vstep, k) == (is_value_key(v, k) && k != t0) by {}
            assert(batch_ok(v, cmds) == batch_ok(va, cmds.drop_first()));
            assert(batch_ok(va, cmds.drop_first()) == batch_ok(vstep, rest));
            assert((forall|i: int|
                0 <= i < tail.len() ==> !is_value_key(vstep, #[trigger] tail[i])) == (forall|
                i: int,
            |
                0 <= i < tags.len() ==> !is_value_key(v, #[trigger] tags[i]))) by {
                if forall|i: int| 0 <= i < tail.len() ==> !is_value_key(vstep, #[trigger] tail[i]) {
                    assert forall|i: int| 0 <= i < tags.len() implies !is_value_key(
                        v,
                        #[trigger] tags[i],
                    ) by {
                        if i > 0 {
                            assert(tail[i - 1] == tags[i]);
                            assert(!is_value_key(vstep, tail[i - 1]));
                        }
                    }
                }
                if forall|i: int| 0 <= i < tags.len() ==> !is_value_key(v, #[trigger] tags[i]) {
                    assert forall|i: int| 0 <= i < tail.len() implies !is_value_key(
                        vstep,
                        #[trigger] tail[i],
                    ) by {
                        assert(tail[i] == tags[i + 1]);
                        assert(!is_value_key(v, tags[i + 1]));
                    }
                }
            }
            if batch_ok(v, cmds) {
                assert(batch_step(v, cmds) == batch_step(va, cmds.drop_first()));
                assert(batch_step(va, cmds.drop_first()) == batch_step(vstep, rest));
                lemma_apply_tags_front(v, tags, mask, exp);
            }
        }
    }
}

/// The pipelined batch `set_commands` builds, run command by command under
/// the wire contract, is accepted exactly when the write it encodes has no
/// tag conflict, and it then moves the backend to exactly the state `set`
/// itself is specified to reach: the wire batch agrees with the store's own
/// transition.
pub proof fn lemma_batch_agrees_with_set(
    v: Map<Seq<char>, StoredView>,
    cmds: Seq<Command>,
    key: Seq<char>,
    mask: Seq<char>,
    value: Seq<char>,
    ttl: nat,
    max_exp: nat,
    tags: Seq<Seq<char>>,
)
    requires
        cmds.len() == 1 + 2 * tags.len(),
        cmds[0] matches Command::SetEx { key: k, value: vl, ttl: t } && k@ == key && vl@
            == encode_utf8(value) && t as nat == min_nat(ttl, max_exp),
        forall|i: int|
            0 <= i < tags.len() ==> (#[trigger] cmds[1 + 2 * i] matches Command::SAdd {
                key: k,
                member: m,
            } && k@ == tags[i] && m@ == mask),
        forall|i: int|
            0 <= i < tags.len() ==> (#[trigger] cmds[2 + 2 * i] matches Command::Expire {
                key: k,
                ttl: t,
            } && k@ == tags[i] && t as nat == max_exp),
    ensures
        batch_ok(v, cmds) == !set_conflict(v, key, tags),
        !set_conflict(v, key, tags) ==> batch_step(v, cmds) == spec_set_state(
            v,
            key,
            mask,
            value,
            ttl,
            max_exp,
            tags,
        ),
{
    let v1 = cmd_step(v, cmds[0]);
    let tail = cmds.drop_first();
    assert(tail.len() == 2 * tags.len());
    assert forall|i: int|
        0 <= i < tags.len() implies (#[trigger] tail[2 * i] matches Command::SAdd {
        key: k,
        member: m,
    } && k@ == tags[i] && m@ == mask) by {
        assert(tail[2 * i] == cmds[1 + 2 * i]);
    }
    assert forall|i: int|
        0 <= i < tags.len() implies (#[trigger] tail[2 * i + 1] matches Command::Expire {
        key: k,
        ttl: t,
    } && k@ == tags[i] && t as nat == max_exp) by {
        assert(tail[2 * i + 1] == cmds[2 + 2 * i]);
    }
    lemma_tag_cmds(v1, tail, mask, max_exp, tags);
    assert(v1 == v.insert(
        key,
        StoredView::Value { bytes: encode_utf8(value), expiry_secs: min_nat(ttl, max_exp) },
    ));
    assert forall|k: Seq<char>| #![auto]
        is_value_key(v1, k) == (k == key || is_value_key(v, k)) by {}
    assert((forall|i: int| 0 <= i < tags.len() ==> !is_value_key(v1, #[trigger] tags[i]))
        == !set_conflict(v, key, tags)) by {
        if set_conflict(v, key, tags) {
            let i = choose|i: int|
                0 <= i < tags.len() && ((#[trigger] tags[i]) == key || is_value_key(v, tags[i]));
            assert(is_value_key(v1, tags[i]));
        }
        if !set_conflict(v, key, tags) {
            assert forall|i: int| 0 <= i < tags.len() implies !is_value_key(
                v1,
                #[trigger] tags[i],
            ) by {
                if is_value_key(v1, tags[i]) {
                    assert(tags[i] == key || is_value_key(v, tags[i]));
                    assert(set_conflict(v, key, tags));
                }
            }
        }
    }
    assert(batch_ok(v, cmds) == batch_ok(v1, tail));
    if !set_conflict(v, key, tags) {
        assert(batch_step(v, cmds) == batch_step(v1, tail));
    }
}

/// A write that completes before a purge of one of its tags begins is seen
/// by that purge: the freshly registered mask is enumerated, so the entry's
/// derived key is deleted. The purge cannot be refused, since the tag record
/// holds a member set right after the write.
pub proof fn lemma_set_then_purge(
    v: Map<Seq<char>, StoredView>,
    prefix: Seq<char>,
    shard: u8,
    tag: Seq<char>,
    key: Seq<char>,
    mask: Seq<char>,
    value: Seq<char>,
    ttl: nat,
    max_exp: nat,
    tags: Seq<Seq<char>>,
)
    requires
        !set_conflict(v, key, tags),
        tags.contains(tag),
        key == derived_key(prefix, shard, mask),
    ensures
        ({
            let v2 = spec_set_state(v, key, mask, value, ttl, max_exp, tags);
            &&& !is_value_key(v2, tag)
            &&& !spec_purge(v2, prefix, shard, tag).contains_key(key)
        }),
{
    let v1 = v.insert(
        key,
        StoredView::Value { bytes: encode_utf8(value), expiry_secs: min_nat(ttl, max_exp) },
    );
    let v2 = spec_set_state(v, key, mask, value, ttl, max_exp, tags);
    lemma_apply_tags(v1, tags, mask, max_exp, tag);
    assert(tag_members(v2, tag).contains(mask));
    assert(purge_victims(v2, prefix, shard, tag).contains(derived_key(prefix, shard, mask)));
}

/// A write that begins only after a purge completed is not affected by it:
/// the purged state accepts the write, and the entry stands afterwards with
/// its full value and capped expiry.
pub proof fn lemma_purge_then_set(
    v: Map<Seq<char>, StoredView>,
    prefix: Seq<char>,
    shard: u8,
    tag: Seq<char>,
    key: Seq<char>,
    mask: Seq<char>,
    value: Seq<char>,
    ttl: nat,
    max_exp: nat,
    tags: Seq<Seq<char>>,
)
    requires
        !set_conflict(spec_purge(v, prefix, shard, tag), key, tags),
    ensures
        ({
            let v2 = spec_set_state(
                spec_purge(v, prefix, shard, tag),
                key,
                mask,
                value,
                ttl,
                max_exp,
                tags,
            );
            &&& v2.contains_key(key)
            &&& v2[key] == StoredView::Value {
                bytes: encode_utf8(value),
                expiry_secs: min_nat(ttl, max_exp),
            }
        }),
{
    lemma_set_round_trip(spec_purge(v, prefix, shard, tag), key, mask, value, ttl, max_exp, tags);
}

} // verus!
