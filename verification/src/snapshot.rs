//! Per-node snapshots: typed resource bundles at a version, plus the lazily
//! built per-resource content-hash version map.

use crate::api::{AnyPayload, SpecAnyPayload};
use crate::digest::{sha256_hex, sha256_hex_of};
use crate::strmap::StrMap;
use vstd::prelude::*;

verus! {

/// A configuration resource: an opaque, deterministically serialized payload
/// of one of the supported categories.
pub enum Resource {
    Cluster(Vec<u8>),
    Endpoint(Vec<u8>),
    Route(Vec<u8>),
    Listener(Vec<u8>),
    Secret(Vec<u8>),
    Runtime(Vec<u8>),
    ScopedRoute(Vec<u8>),
    ExtensionConfig(Vec<u8>),
}

impl Resource {
    /// The deterministic byte form: input of the content hash and the wire
    /// payload.
    pub open spec fn serialized_bytes(self) -> Seq<u8> {
        match self {
            Resource::Cluster(b) => b@,
            Resource::Endpoint(b) => b@,
            Resource::Route(b) => b@,
            Resource::Listener(b) => b@,
            Resource::Secret(b) => b@,
            Resource::Runtime(b) => b@,
            Resource::ScopedRoute(b) => b@,
            Resource::ExtensionConfig(b) => b@,
        }
    }

    /// The type URL this resource carries on the wire.
    pub open spec fn wire_type_url(self) -> Seq<char> {
        match self {
            Resource::Cluster(_) => crate::type_url::CLUSTER@,
            Resource::Endpoint(_) => crate::type_url::ENDPOINT@,
            Resource::Route(_) => crate::type_url::ROUTE@,
            Resource::Listener(_) => crate::type_url::LISTENER@,
            Resource::Secret(_) => crate::type_url::SECRET@,
            Resource::Runtime(_) => crate::type_url::RUNTIME@,
            Resource::ScopedRoute(_) => crate::type_url::SCOPED_ROUTE@,
            Resource::ExtensionConfig(_) => crate::type_url::EXTENSION_CONFIG@,
        }
    }

    /// The wire form of this resource, as a spec value.
    pub open spec fn spec_into_any(self) -> SpecAnyPayload {
        SpecAnyPayload { type_url: self.wire_type_url(), value: self.serialized_bytes() }
    }

    pub fn serialized(&self) -> (r: &Vec<u8>)
        ensures
            r@ == self.serialized_bytes(),
    {
        match self {
            Resource::Cluster(b) => b,
            Resource::Endpoint(b) => b,
            Resource::Route(b) => b,
            Resource::Listener(b) => b,
            Resource::Secret(b) => b,
            Resource::Runtime(b) => b,
            Resource::ScopedRoute(b) => b,
            Resource::ExtensionConfig(b) => b,
        }
    }

    /// The typed opaque payload for transport.
    pub fn into_any(&self) -> (r: AnyPayload)
        ensures
            r@ == self.spec_into_any(),
    {
        let type_url = match self {
            Resource::Cluster(_) => crate::type_url::CLUSTER,
            Resource::Endpoint(_) => crate::type_url::ENDPOINT,
            Resource::Route(_) => crate::type_url::ROUTE,
            Resource::Listener(_) => crate::type_url::LISTENER,
            Resource::Secret(_) => crate::type_url::SECRET,
            Resource::Runtime(_) => crate::type_url::RUNTIME,
            Resource::ScopedRoute(_) => crate::type_url::SCOPED_ROUTE,
            Resource::ExtensionConfig(_) => crate::type_url::EXTENSION_CONFIG,
        };
        let value = clone_bytes(self.serialized());
        AnyPayload { type_url: type_url.to_owned(), value }
    }

    /// A copy carrying the same category and bytes.
    pub fn duplicate(&self) -> (r: Self)
        ensures
            r.serialized_bytes() == self.serialized_bytes(),
            r.wire_type_url() == self.wire_type_url(),
    {
        match self {
            Resource::Cluster(b) => Resource::Cluster(clone_bytes(b)),
            Resource::Endpoint(b) => Resource::Endpoint(clone_bytes(b)),
            Resource::Route(b) => Resource::Route(clone_bytes(b)),
            Resource::Listener(b) => Resource::Listener(clone_bytes(b)),
            Resource::Secret(b) => Resource::Secret(clone_bytes(b)),
            Resource::Runtime(b) => Resource::Runtime(clone_bytes(b)),
            Resource::ScopedRoute(b) => Resource::ScopedRoute(clone_bytes(b)),
            Resource::ExtensionConfig(b) => Resource::ExtensionConfig(clone_bytes(b)),
        }
    }
}

/// A copy of a byte vector with the same view.
fn clone_bytes(v: &Vec<u8>) -> (r: Vec<u8>)
    ensures
        r@ == v@,
{
    let r = v.clone();
    proof {
        assert(r@ =~= v@);
    }
    r
}

/// The content-hash version of a resource: the lowercase hex SHA-256 of its
/// serialized form.
pub fn hash_resource(resource: &Resource) -> (r: String)
    ensures
        r@ == sha256_hex(resource.serialized_bytes()),
        r@.len() == 64,
{
    sha256_hex_of(resource.serialized())
}

/// A bundle of resources of one type for one node, at a version label.
pub struct Resources {
    pub version: String,
    pub items: StrMap<Resource>,
}

impl Resources {
    pub fn new(version: String) -> (r: Self)
        ensures
            r.version@ == version@,
            r.items@ == Map::<Seq<char>, Resource>::empty(),
    {
        Resources { version, items: StrMap::new() }
    }
}

/// A snapshot: per-type resource bundles plus a lazily built version map.
pub struct Snapshot {
    pub resources: StrMap<Resources>,
    pub version_map: Option<StrMap<StrMap<String>>>,
}

/// The version label a snapshot carries for a type URL: the bundle's
/// version, or empty if the type is absent.
pub open spec fn spec_version(snap: Snapshot, type_url: Seq<char>) -> Seq<char> {
    if snap.resources@.contains_key(type_url) {
        snap.resources@[type_url].version@
    } else {
        Seq::<char>::empty()
    }
}

/// The built version map agrees with the bundles: one inner map per type
/// URL, carrying the content hash of every item.
pub open spec fn version_map_complete(snap: Snapshot) -> bool {
    match snap.version_map {
        None => false,
        Some(vm) => vm@.dom() == snap.resources@.dom() && forall|t: Seq<char>|
            snap.resources@.contains_key(t) ==> (#[trigger] vm@[t])@.dom()
                == snap.resources@[t].items@.dom() && forall|n: Seq<char>|
                snap.resources@[t].items@.contains_key(n) ==> (#[trigger] vm@[t]@[n])@
                    == sha256_hex(snap.resources@[t].items@[n].serialized_bytes()),
    }
}

/// What one `build_version_map` call does: resources kept; a missing map is
/// built complete; a present map makes the call a no-op.
pub open spec fn build_step(pre: Snapshot, post: Snapshot) -> bool {
    post.resources == pre.resources && (pre.version_map is None ==> version_map_complete(post)) && (
    pre.version_map is Some ==> post == pre)
}

impl Snapshot {
    pub fn new() -> (r: Self)
        ensures
            r.resources@ == Map::<Seq<char>, Resources>::empty(),
            r.version_map is None,
    {
        Snapshot { resources: StrMap::new(), version_map: None }
    }

    /// Overwrites the bundle for `type_url`.
    pub fn insert(&mut self, type_url: String, resources: Resources)
        ensures
            final(self).resources@ == old(self).resources@.insert(type_url@, resources),
            final(self).version_map == old(self).version_map,
    {
        self.resources.insert(type_url, resources);
    }

    /// The bundle's version for `type_url`, or the empty string if absent.
    pub fn version(&self, type_url: &String) -> (r: String)
        ensures
            r@ == spec_version(*self, type_url@),
    {
        match self.resources.get(type_url) {
            Some(bundle) => bundle.version.clone(),
            None => String::new(),
        }
    }

    /// The bundle for `type_url`, or absence.
    pub fn resources(&self, type_url: &String) -> (r: Option<&Resources>)
        ensures
            match r {
                Some(bundle) => self.resources@.contains_key(type_url@) && *bundle
                    == self.resources@[type_url@],
                None => !self.resources@.contains_key(type_url@),
            },
    {
        self.resources.get(type_url)
    }

    /// Computes the version map if absent: for every type URL and item, the
    /// content hash of the item. Idempotent; must run before any delta
    /// request is served against this snapshot.
    pub fn build_version_map(&mut self)
        ensures
            final(self).resources == old(self).resources,
            old(self).version_map is None ==> version_map_complete(*final(self)),
            old(self).version_map is Some ==> *final(self) == *old(self),
            build_step(*old(self), *final(self)),
    {
        if self.version_map.is_some() {
            return;
        }
        let mut vm: StrMap<StrMap<String>> = StrMap::new();
        let entries = self.resources.entries();
        let n = entries.len();
        proof {
            use_type_invariant(&self.resources);
            self.resources.lemma_kv();
        }
        for i in 0..n
            invariant
                n == entries@.len(),
                entries@ == self.resources.kv_seq(),
                crate::strmap::distinct_keys(entries@),
                forall|j: int|
                    0 <= j < entries@.len() ==> self.resources@.contains_key(
                        #[trigger] entries@[j].0@,
                    ) && self.resources@[entries@[j].0@] == entries@[j].1,
                forall|t: Seq<char>|
                    vm@.contains_key(t) <==> exists|j: int| 0 <= j < i && entries@[j].0@ == t,
                forall|j: int|
                    0 <= j < i ==> bundle_hashes_ok(
                        (#[trigger] entries@[j]).1,
                        vm@[entries@[j].0@],
                    ),
        {
            let bundle = &entries[i].1;
            let inner = build_bundle_hashes(bundle);
            let ghost pre = vm@;
            vm.insert(entries[i].0.clone(), inner);
            proof {
                assert forall|t: Seq<char>| vm@.contains_key(t) implies exists|j: int|
                    0 <= j < i + 1 && entries@[j].0@ == t by {
                    if t == entries@[i as int].0@ {
                        assert(entries@[i as int].0@ == t);
                    } else {
                        let j = choose|j: int| 0 <= j < i && entries@[j].0@ == t;
                        assert(entries@[j].0@ == t);
                    }
                }
                assert forall|j: int| 0 <= j < i + 1 implies bundle_hashes_ok(
                    (#[trigger] entries@[j]).1,
                    vm@[entries@[j].0@],
                ) by {
                    if j < i {
                        assert(entries@[j].0@ != entries@[i as int].0@);
                        assert(vm@[entries@[j].0@] == pre[entries@[j].0@]);
                    }
                }
            }
        }
        proof {
            assert forall|t: Seq<char>| vm@.dom().contains(t) implies self.resources@.dom().contains(
                t,
            ) by {
                let j = choose|j: int| 0 <= j < entries@.len() && entries@[j].0@ == t;
            }
            assert forall|t: Seq<char>| self.resources@.dom().contains(t) implies vm@.dom().contains(
                t,
            ) by {
                let j = choose|j: int|
                    0 <= j < self.resources.kv_seq().len() && self.resources.kv_seq()[j].0@ == t;
            }
            assert(vm@.dom() =~= self.resources@.dom());
            assert forall|t: Seq<char>| self.resources@.contains_key(t) implies (
            #[trigger] vm@[t])@.dom() == self.resources@[t].items@.dom() && forall|n: Seq<char>|
                self.resources@[t].items@.contains_key(n) ==> (#[trigger] vm@[t]@[n])@
                    == sha256_hex(self.resources@[t].items@[n].serialized_bytes()) by {
                let j = choose|j: int| 0 <= j < entries@.len() && entries@[j].0@ == t;
                assert(bundle_hashes_ok(entries@[j].1, vm@[t]));
            }
        }
        self.version_map = Some(vm);
    }
}

/// The inner map carries exactly the items' content hashes.
pub open spec fn bundle_hashes_ok(bundle: Resources, inner: StrMap<String>) -> bool {
    inner@.dom() == bundle.items@.dom() && forall|n: Seq<char>|
        bundle.items@.contains_key(n) ==> (#[trigger] inner@[n])@ == sha256_hex(
            bundle.items@[n].serialized_bytes(),
        )
}

/// Builds the content-hash map for one bundle.
fn build_bundle_hashes(bundle: &Resources) -> (r: StrMap<String>)
    ensures
        bundle_hashes_ok(*bundle, r),
{
    let mut inner: StrMap<String> = StrMap::new();
    let items = bundle.items.entries();
    let n = items.len();
    proof {
        use_type_invariant(&bundle.items);
        bundle.items.lemma_kv();
    }
    for i in 0..n
        invariant
            n == items@.len(),
            items@ == bundle.items.kv_seq(),
            crate::strmap::distinct_keys(items@),
            forall|j: int|
                0 <= j < items@.len() ==> bundle.items@.contains_key(#[trigger] items@[j].0@)
                    && bundle.items@[items@[j].0@] == items@[j].1,
            forall|m: Seq<char>|
                inner@.contains_key(m) <==> exists|j: int| 0 <= j < i && items@[j].0@ == m,
            forall|j: int|
                0 <= j < i ==> (#[trigger] inner@[items@[j].0@])@ == sha256_hex(
                    items@[j].1.serialized_bytes(),
                ),
    {
        let h = sha256_hex_of(items[i].1.serialized());
        let ghost pre = inner@;
        inner.insert(items[i].0.clone(), h);
        proof {
            assert forall|m: Seq<char>| inner@.contains_key(m) implies exists|j: int|
                0 <= j < i + 1 && items@[j].0@ == m by {
                if m == items@[i as int].0@ {
                    assert(items@[i as int].0@ == m);
                } else {
                    let j = choose|j: int| 0 <= j < i && items@[j].0@ == m;
                    assert(items@[j].0@ == m);
                }
            }
            assert forall|j: int| 0 <= j < i + 1 implies (#[trigger] inner@[items@[j].0@])@
                == sha256_hex(items@[j].1.serialized_bytes()) by {
                if j < i {
                    assert(items@[j].0@ != items@[i as int].0@);
                    assert(inner@[items@[j].0@] == pre[items@[j].0@]);
                }
            }
        }
    }
    proof {
        assert forall|m: Seq<char>| inner@.dom().contains(m) implies bundle.items@.dom().contains(
            m,
        ) by {
            let j = choose|j: int| 0 <= j < items@.len() && items@[j].0@ == m;
        }
        assert forall|m: Seq<char>| bundle.items@.dom().contains(m) implies inner@.dom().contains(
            m,
        ) by {
            let j = choose|j: int|
                0 <= j < bundle.items.kv_seq().len() && bundle.items.kv_seq()[j].0@ == m;
        }
        assert(inner@.dom() =~= bundle.items@.dom());
        assert forall|m: Seq<char>| bundle.items@.contains_key(m) implies (
        #[trigger] inner@[m])@ == sha256_hex(bundle.items@[m].serialized_bytes()) by {
            let j = choose|j: int| 0 <= j < items@.len() && items@[j].0@ == m;
            assert(inner@[items@[j].0@]@ == sha256_hex(items@[j].1.serialized_bytes()));
        }
    }
    inner
}

} // verus!
