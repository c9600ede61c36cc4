//! Cross-cutting laws of the cache and stream machines, proved once here so
//! callers need not re-derive them from the operation contracts.

use crate::api::{names_contain, SpecAnyPayload, SpecDiscoveryRequest};
use crate::cache::{named_items_payload, response_payload, spec_hash_id, SnapshotCache};
use crate::decimal::{dec_string_of, digit_char, digit_str};
use crate::delta::{spec_delta_resources, sub_filtered, wild_filtered};
use crate::digest::sha256_hex;
use crate::snapshot::{build_step, spec_version, version_map_complete, Resource, Snapshot};
use crate::stream_handle::name_views_set;
use crate::watches::{prefix_watch_ids, Watch, Watches};
use vstd::prelude::*;

verus! {

/// A digit renders to the one-character sequence of its character.
proof fn lemma_digit_str_char(d: nat)
    ensures
        digit_str(d) == seq![digit_char(d)],
{
    reveal_strlit("0");
    reveal_strlit("1");
    reveal_strlit("2");
    reveal_strlit("3");
    reveal_strlit("4");
    reveal_strlit("5");
    reveal_strlit("6");
    reveal_strlit("7");
    reveal_strlit("8");
    reveal_strlit("9");
    assert(digit_str(d) =~= seq![digit_char(d)]);
}

/// Decimal digits render to ten distinct single characters.
proof fn lemma_digits_distinct()
    ensures
        forall|a: nat, b: nat| a < b < 10 ==> digit_str(a) != digit_str(b),
        forall|a: nat| a < 10 ==> (#[trigger] digit_str(a)).len() == 1,
{
    assert forall|a: nat, b: nat| a < b < 10 implies digit_str(a) != digit_str(b) by {
        lemma_digit_str_char(a);
        lemma_digit_str_char(b);
        assert(digit_char(a) != digit_char(b));
        assert(digit_str(a)[0] != digit_str(b)[0]);
    }
    assert forall|a: nat| a < 10 implies (#[trigger] digit_str(a)).len() == 1 by {
        lemma_digit_str_char(a);
    }
}

/// A decimal rendering has one character per digit.
proof fn lemma_dec_string_len(n: nat)
    ensures
        n < 10 ==> dec_string_of(n).len() == 1,
        n >= 10 ==> dec_string_of(n).len() >= 2,
    decreases n,
{
    lemma_digits_distinct();
    if n >= 10 {
        lemma_dec_string_len(n / 10);
    }
}

/// Nonce monotonicity, string side: distinct nonces render to distinct
/// nonce strings, so no two responses a stream forwards carry the same
/// nonce (the stream nonce itself rises by one per response, by the
/// contract of `handle_watch_response`).
pub proof fn lemma_dec_string_injective(a: nat, b: nat)
    requires
        a != b,
    ensures
        dec_string_of(a) != dec_string_of(b),
    decreases a + b,
{
    lemma_digits_distinct();
    lemma_dec_string_len(a);
    lemma_dec_string_len(b);
    if a < 10 && b < 10 {
    } else if a < 10 || b < 10 {
    } else {
        let sa = dec_string_of(a / 10);
        let sb = dec_string_of(b / 10);
        assert(dec_string_of(a) == sa + digit_str(a % 10));
        assert(dec_string_of(b) == sb + digit_str(b % 10));
        if a % 10 != b % 10 {
            assert(dec_string_of(a)[dec_string_of(a).len() - 1] == digit_str(a % 10)[0]);
            assert(dec_string_of(b)[dec_string_of(b).len() - 1] == digit_str(b % 10)[0]);
            if dec_string_of(a) == dec_string_of(b) {
                assert(digit_str(a % 10)[0] == digit_str(b % 10)[0]);
                if a % 10 < b % 10 {
                    assert(digit_str((a % 10) as nat) != digit_str((b % 10) as nat));
                    lemma_single_char_neq((a % 10) as nat, (b % 10) as nat);
                } else {
                    lemma_single_char_neq((b % 10) as nat, (a % 10) as nat);
                }
            }
        } else {
            lemma_dec_string_injective(a / 10, b / 10);
            if dec_string_of(a) == dec_string_of(b) {
                assert(sa =~= (sa + digit_str(a % 10)).take((sa + digit_str(a % 10)).len() - 1));
                assert(sb =~= (sb + digit_str(b % 10)).take((sb + digit_str(b % 10)).len() - 1));
            }
        }
    }
}

/// Nonce monotonicity, base case: a fresh stream's first forwarded
/// response is stamped with exactly "1" (its nonce rises from zero to one).
pub proof fn lemma_first_nonce_is_one()
    ensures
        dec_string_of(1) == seq!['1'],
{
    lemma_digit_str_char(1);
}

/// Two distinct digits differ in their single character.
proof fn lemma_single_char_neq(a: nat, b: nat)
    requires
        a < b < 10,
    ensures
        digit_str(a)[0] != digit_str(b)[0],
{
    lemma_digits_distinct();
    assert(digit_str(a) != digit_str(b));
    if digit_str(a)[0] == digit_str(b)[0] {
        assert(digit_str(a) =~= digit_str(b));
    }
}

/// At most one active watch per type per stream: the registry is keyed by
/// type URL, so its backing entries carry pairwise distinct types.
pub proof fn lemma_at_most_one_watch_per_type(w: &Watches)
    requires
        w.active.wf(),
    ensures
        forall|i: int, j: int|
            0 <= i < j < w.active.kv_seq().len() ==> (#[trigger] w.active.kv_seq()[i]).0@ != (
            #[trigger] w.active.kv_seq()[j]).0@,
{
    w.active.lemma_kv();
}

/// At most one response per watch: the fired list of a `set_snapshot` call
/// carries strictly increasing watch indices, so no index repeats.
pub proof fn lemma_at_most_one_response_per_watch(fired: Seq<crate::cache::FiredWatch>)
    requires
        forall|i: int, j: int| 0 <= i < j < fired.len() ==> fired[i].index < fired[j].index,
    ensures
        forall|i: int, j: int|
            0 <= i < fired.len() && 0 <= j < fired.len() && i != j ==> (
            #[trigger] fired[i]).index != (#[trigger] fired[j]).index,
{
}

/// Every payload of a filtered response is the wire form of a bundle item
/// whose name the request asked for.
pub proof fn lemma_named_payload_within_request(
    names: Seq<Seq<char>>,
    items: Map<Seq<char>, Resource>,
    i: int,
)
    requires
        0 <= i < named_items_payload(names, items).len(),
    ensures
        exists|k: Seq<char>|
            #![auto]
            items.contains_key(k) && names_contain(names, k) && named_items_payload(names, items)[i]
                == items[k].spec_into_any(),
    decreases names.len(),
{
    if names.len() > 0 {
        let rest = named_items_payload(names.drop_last(), items);
        if i < rest.len() {
            lemma_named_payload_within_request(names.drop_last(), items, i);
            let k = choose|k: Seq<char>|
                #![auto]
                items.contains_key(k) && names_contain(names.drop_last(), k) && rest[i]
                    == items[k].spec_into_any();
            let j = choose|j: int|
                0 <= j < names.drop_last().len() && names.drop_last()[j] == k;
            assert(names[j] == k);
            assert(items.contains_key(k) && names_contain(names, k) && named_items_payload(
                names,
                items,
            )[i] == items[k].spec_into_any());
        } else {
            assert(items.contains_key(names.last()));
            assert(names[names.len() - 1] == names.last());
            assert(names_contain(names, names.last()));
            assert(named_items_payload(names, items)[i] == items[names.last()].spec_into_any());
        }
    }
}

/// ADS consistency: when a request names resources, a response built for it
/// never carries a resource the request did not name.
pub proof fn lemma_ads_consistency(
    req: SpecDiscoveryRequest,
    snap: Snapshot,
    type_url: Seq<char>,
    i: int,
)
    requires
        req.resource_names.len() > 0,
        0 <= i < response_payload(req.resource_names, snap, type_url).len(),
    ensures
        exists|k: Seq<char>|
            #![auto]
            names_contain(req.resource_names, k) && snap.resources@.contains_key(type_url)
                && snap.resources@[type_url].items@.contains_key(k) && response_payload(
                req.resource_names,
                snap,
                type_url,
            )[i] == snap.resources@[type_url].items@[k].spec_into_any(),
{
    lemma_named_payload_within_request(
        req.resource_names,
        snap.resources@[type_url].items@,
        i,
    );
}

/// Every entry of a wildcard delta selection is a current bundle item.
proof fn lemma_wild_filtered_from_items(
    items: Seq<(String, Resource)>,
    versions: Map<Seq<char>, Seq<char>>,
    i: int,
)
    requires
        0 <= i < wild_filtered(items, versions).len(),
    ensures
        exists|j: int|
            #![auto]
            0 <= j < items.len() && wild_filtered(items, versions)[i] == (
            items[j].0@,
            items[j].1.spec_into_any(),
            ),
    decreases items.len(),
{
    if items.len() > 0 {
        let rest = wild_filtered(items.drop_last(), versions);
        if i < rest.len() {
            lemma_wild_filtered_from_items(items.drop_last(), versions, i);
            let j = choose|j: int|
                #![auto]
                0 <= j < items.drop_last().len() && rest[i] == (
                items.drop_last()[j].0@,
                items.drop_last()[j].1.spec_into_any(),
                );
            assert(items[j] == items.drop_last()[j]);
        } else {
            assert(wild_filtered(items, versions)[i] == (
                items[items.len() - 1].0@,
                items[items.len() - 1].1.spec_into_any(),
            ));
        }
    }
}

/// Every entry of a non-wildcard delta selection is a current bundle item.
proof fn lemma_sub_filtered_from_items(
    names: Seq<String>,
    items: Map<Seq<char>, Resource>,
    versions: Map<Seq<char>, Seq<char>>,
    i: int,
)
    requires
        0 <= i < sub_filtered(names, items, versions).len(),
    ensures
        exists|k: Seq<char>|
            #![auto]
            items.contains_key(k) && sub_filtered(names, items, versions)[i] == (
            k,
            items[k].spec_into_any(),
            ),
    decreases names.len(),
{
    if names.len() > 0 {
        let rest = sub_filtered(names.drop_last(), items, versions);
        if i < rest.len() {
            lemma_sub_filtered_from_items(names.drop_last(), items, versions, i);
        } else {
            assert(items.contains_key(names.last()@));
        }
    }
}

/// Delta version map correctness: every resource of a delta selection is
/// packaged with the content hash of its serialized bytes, and, for a
/// selection drawn from a bundle, those are the bytes the current snapshot
/// holds for that name.
pub proof fn lemma_delta_versions_are_content_hashes(
    f: Seq<(Seq<char>, SpecAnyPayload)>,
    i: int,
)
    requires
        0 <= i < spec_delta_resources(f).len(),
    ensures
        spec_delta_resources(f)[i].version == sha256_hex(spec_delta_resources(f)[i].resource.value),
{
}

/// Delta version map correctness for the wildcard branch: the emitted
/// version of every entry is the hash of a current item's serialized form.
pub proof fn lemma_wild_delta_versions(
    items: Seq<(String, Resource)>,
    versions: Map<Seq<char>, Seq<char>>,
    i: int,
)
    requires
        0 <= i < spec_delta_resources(wild_filtered(items, versions)).len(),
    ensures
        exists|j: int|
            #![auto]
            0 <= j < items.len() && spec_delta_resources(wild_filtered(items, versions))[i].version
                == sha256_hex(items[j].1.serialized_bytes()) && spec_delta_resources(
                wild_filtered(items, versions),
            )[i].name == items[j].0@,
{
    lemma_wild_filtered_from_items(items, versions, i);
    let j = choose|j: int|
        #![auto]
        0 <= j < items.len() && wild_filtered(items, versions)[i] == (
        items[j].0@,
        items[j].1.spec_into_any(),
        );
    assert(spec_delta_resources(wild_filtered(items, versions))[i].version == sha256_hex(
        items[j].1.serialized_bytes(),
    ));
}

/// Delta version map correctness for the non-wildcard branch.
pub proof fn lemma_sub_delta_versions(
    names: Seq<String>,
    items: Map<Seq<char>, Resource>,
    versions: Map<Seq<char>, Seq<char>>,
    i: int,
)
    requires
        0 <= i < spec_delta_resources(sub_filtered(names, items, versions)).len(),
    ensures
        exists|k: Seq<char>|
            #![auto]
            items.contains_key(k) && spec_delta_resources(
                sub_filtered(names, items, versions),
            )[i].version == sha256_hex(items[k].serialized_bytes()) && spec_delta_resources(
                sub_filtered(names, items, versions),
            )[i].name == k,
{
    lemma_sub_filtered_from_items(names, items, versions, i);
    let k = choose|k: Seq<char>|
        #![auto]
        items.contains_key(k) && sub_filtered(names, items, versions)[i] == (
        k,
        items[k].spec_into_any(),
        );
    assert(spec_delta_resources(sub_filtered(names, items, versions))[i].version == sha256_hex(
        items[k].serialized_bytes(),
    ));
}

/// Known-names tracking: after an ack folds a response's names into the
/// known set, every one of those names is known.
pub proof fn lemma_known_names_after_ack(
    known: Set<Seq<char>>,
    acked_names: Seq<Seq<char>>,
    i: int,
)
    requires
        0 <= i < acked_names.len(),
    ensures
        known.union(name_views_set(acked_names)).contains(acked_names[i]),
{
    assert(names_contain(acked_names, acked_names[i]));
}

/// Teardown cancellation: after `cancel_all` removes a registry's ids from
/// the cache, none of the registered watches is still pending.
pub proof fn lemma_cancelled_not_pending(
    kv: Seq<(String, Watch)>,
    pending: Map<int, crate::watch::Watch>,
    x: int,
)
    requires
        0 <= x < kv.len(),
    ensures
        !pending.remove_keys(
            prefix_watch_ids(kv, kv.len() as int, kv[x].1.id.node_id@),
        ).dom().contains(kv[x].1.id.index as int),
{
    assert(prefix_watch_ids(kv, kv.len() as int, kv[x].1.id.node_id@).contains(
        kv[x].1.id.index as int,
    ));
}

/// Version map idempotence: a second build step from an already built
/// snapshot changes nothing, so building twice yields the same map.
pub proof fn lemma_build_version_map_idempotent(s0: Snapshot, s1: Snapshot, s2: Snapshot)
    requires
        s0.version_map is None || version_map_complete(s0),
        build_step(s0, s1),
        build_step(s1, s2),
    ensures
        s2 == s1,
        version_map_complete(s1),
{
    if s0.version_map is None {
        assert(version_map_complete(s1));
        assert(s1.version_map is Some);
    }
}

/// Fetch after set: once a snapshot is installed for a node, a request that
/// carries the snapshot's version for the fetched type is already up to
/// date, which `fetch` answers with `VersionUpToDate`.
pub proof fn lemma_fetch_after_set_snapshot(
    post: SnapshotCache,
    node: Seq<char>,
    snapshot: Snapshot,
    req: SpecDiscoveryRequest,
    type_url: Seq<char>,
)
    requires
        post.snapshots@.contains_key(node),
        post.snapshots@[node].resources == snapshot.resources,
        spec_hash_id(req.node) == node,
        req.version_info == spec_version(snapshot, type_url),
    ensures
        post.snapshots@.contains_key(spec_hash_id(req.node)),
        req.version_info == spec_version(post.snapshots@[spec_hash_id(req.node)], type_url),
{
}

} // verus!
