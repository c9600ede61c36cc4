//! The delta response builder: the pure computation of what a delta request
//! should be sent and told to remove, given the current snapshot and the
//! peer's subscription state.

use crate::api::{DeltaDiscoveryRequest, DeltaDiscoveryResponse, DeltaResponseResource, SpecAnyPayload, SpecDeltaResponseResource};
use crate::digest::sha256_hex;
use crate::snapshot::{hash_resource, version_map_complete, Resource, Snapshot};
use crate::stream_handle::DeltaStreamHandle;
use crate::strmap::StrMap;
use vstd::prelude::*;

verus! {

/// A resource selected for a delta response: its name and the resource.
pub struct DeltaResource {
    pub name: String,
    pub resource: Resource,
}

impl View for DeltaResource {
    type V = (Seq<char>, SpecAnyPayload);

    open spec fn view(&self) -> (Seq<char>, SpecAnyPayload) {
        (self.name@, self.resource.spec_into_any())
    }
}

impl DeepView for DeltaResource {
    type V = (Seq<char>, SpecAnyPayload);

    open spec fn deep_view(&self) -> (Seq<char>, SpecAnyPayload) {
        self.view()
    }
}

/// The content hash of an item.
pub open spec fn item_hash(item: (String, Resource)) -> Seq<char> {
    sha256_hex(item.1.serialized_bytes())
}

/// Wildcard branch: the next version map records the hash of every item, in
/// bundle order.
pub open spec fn wild_nvm(items: Seq<(String, Resource)>) -> Seq<(Seq<char>, Seq<char>)> {
    Seq::new(items.len(), |i: int| (items[i].0@, item_hash(items[i])))
}

/// Wildcard branch: an item is sent unless the client already holds exactly
/// its current hash.
pub open spec fn wild_filtered(
    items: Seq<(String, Resource)>,
    versions: Map<Seq<char>, Seq<char>>,
) -> Seq<(Seq<char>, SpecAnyPayload)>
    decreases items.len(),
{
    if items.len() == 0 {
        Seq::empty()
    } else {
        let rest = wild_filtered(items.drop_last(), versions);
        let name = items.last().0@;
        if versions.contains_key(name) && versions[name] == item_hash(items.last()) {
            rest
        } else {
            rest.push((name, items.last().1.spec_into_any()))
        }
    }
}

/// Wildcard branch: every name the client holds a version for that the
/// snapshot no longer carries is removed, in the client's recorded order.
pub open spec fn wild_removed(
    versions_kv: Seq<(String, String)>,
    items: Map<Seq<char>, Resource>,
) -> Seq<Seq<char>>
    decreases versions_kv.len(),
{
    if versions_kv.len() == 0 {
        Seq::empty()
    } else {
        let rest = wild_removed(versions_kv.drop_last(), items);
        let name = versions_kv.last().0@;
        if items.contains_key(name) {
            rest
        } else {
            rest.push(name)
        }
    }
}

/// Non-wildcard branch: the next version map records the hash of every
/// subscribed name present in the snapshot, in subscription order.
pub open spec fn sub_nvm(
    names: Seq<String>,
    items: Map<Seq<char>, Resource>,
) -> Seq<(Seq<char>, Seq<char>)>
    decreases names.len(),
{
    if names.len() == 0 {
        Seq::empty()
    } else {
        let rest = sub_nvm(names.drop_last(), items);
        let name = names.last()@;
        if items.contains_key(name) {
            rest.push((name, sha256_hex(items[name].serialized_bytes())))
        } else {
            rest
        }
    }
}

/// Non-wildcard branch: a subscribed name present in the snapshot is sent
/// when the client's recorded version differs from the current hash, or,
/// for a name the client holds no version for, when the hash is non-empty.
pub open spec fn sub_filtered(
    names: Seq<String>,
    items: Map<Seq<char>, Resource>,
    versions: Map<Seq<char>, Seq<char>>,
) -> Seq<(Seq<char>, SpecAnyPayload)>
    decreases names.len(),
{
    if names.len() == 0 {
        Seq::empty()
    } else {
        let rest = sub_filtered(names.drop_last(), items, versions);
        let name = names.last()@;
        if items.contains_key(name) {
            let hash = sha256_hex(items[name].serialized_bytes());
            let send = if versions.contains_key(name) {
                versions[name] != hash
            } else {
                hash.len() != 0
            };
            if send {
                rest.push((name, items[name].spec_into_any()))
            } else {
                rest
            }
        } else {
            rest
        }
    }
}

/// Non-wildcard branch: a subscribed name the client holds a version for
/// that is absent from the snapshot is removed.
pub open spec fn sub_removed(
    names: Seq<String>,
    items: Map<Seq<char>, Resource>,
    versions: Map<Seq<char>, Seq<char>>,
) -> Seq<Seq<char>>
    decreases names.len(),
{
    if names.len() == 0 {
        Seq::empty()
    } else {
        let rest = sub_removed(names.drop_last(), items, versions);
        let name = names.last()@;
        if versions.contains_key(name) && !items.contains_key(name) {
            rest.push(name)
        } else {
            rest
        }
    }
}

/// Two delta handles with the same state and the same backing orders: what
/// a stored copy of a client's handle preserves.
pub open spec fn handle_like(a: DeltaStreamHandle, b: DeltaStreamHandle) -> bool {
    a@ == b@ && a.subscribed_resource_names.elem_seq().len()
        == b.subscribed_resource_names.elem_seq().len() && (forall|i: int|
        0 <= i < b.subscribed_resource_names.elem_seq().len() ==> (
        #[trigger] a.subscribed_resource_names.elem_seq()[i])@
            == b.subscribed_resource_names.elem_seq()[i]@) && a.resource_versions.kv_seq().len()
        == b.resource_versions.kv_seq().len() && (forall|i: int|
        0 <= i < b.resource_versions.kv_seq().len() ==> (
        #[trigger] a.resource_versions.kv_seq()[i]).0@ == b.resource_versions.kv_seq()[i].0@
            && a.resource_versions.kv_seq()[i].1@ == b.resource_versions.kv_seq()[i].1@)
}

/// A next-version-map value matches a spec sequence of name/hash pairs.
pub open spec fn nvm_matches(m: StrMap<String>, s: Seq<(Seq<char>, Seq<char>)>) -> bool {
    m.kv_seq().len() == s.len() && forall|i: int|
        0 <= i < s.len() ==> (#[trigger] m.kv_seq()[i]).0@ == s[i].0 && m.kv_seq()[i].1@ == s[i].1
}

/// What a delta response must hold for one bundle and one client state.
pub open spec fn delta_response_ok(
    r: DeltaResponse,
    items: StrMap<Resource>,
    stream: DeltaStreamHandle,
) -> bool {
    if stream@.wildcard {
        nvm_matches(r.next_version_map, wild_nvm(items.kv_seq())) && r.filtered.deep_view()
            == wild_filtered(items.kv_seq(), stream@.versions) && r.to_remove.deep_view()
            == wild_removed(stream.resource_versions.kv_seq(), items@)
    } else {
        nvm_matches(
            r.next_version_map,
            sub_nvm(stream.subscribed_resource_names.elem_seq(), items@),
        ) && r.filtered.deep_view() == sub_filtered(
            stream.subscribed_resource_names.elem_seq(),
            items@,
            stream@.versions,
        ) && r.to_remove.deep_view() == sub_removed(
            stream.subscribed_resource_names.elem_seq(),
            items@,
            stream@.versions,
        )
    }
}

/// Whether a delta response is sent at all: something to send, something to
/// remove, or a wildcard subscription still on its first exchange.
pub open spec fn delta_sends(stream: DeltaStreamHandle, items: StrMap<Resource>) -> bool {
    if stream@.wildcard {
        wild_filtered(items.kv_seq(), stream@.versions).len() > 0 || wild_removed(
            stream.resource_versions.kv_seq(),
            items@,
        ).len() > 0 || stream@.first
    } else {
        sub_filtered(
            stream.subscribed_resource_names.elem_seq(),
            items@,
            stream@.versions,
        ).len() > 0 || sub_removed(
            stream.subscribed_resource_names.elem_seq(),
            items@,
            stream@.versions,
        ).len() > 0
    }
}

/// The wire entries a filtered selection packages to: name, content hash,
/// and payload, in selection order.
pub open spec fn spec_delta_resources(
    f: Seq<(Seq<char>, SpecAnyPayload)>,
) -> Seq<SpecDeltaResponseResource> {
    Seq::new(
        f.len(),
        |i: int|
            SpecDeltaResponseResource {
                name: f[i].0,
                version: sha256_hex(f[i].1.value),
                resource: f[i].1,
            },
    )
}

/// What a delivered delta response and its next version map must hold, for
/// one bundle and the client state the watch was set with.
pub open spec fn delta_delivery_ok(
    rep: DeltaDiscoveryResponse,
    nvm: StrMap<String>,
    type_url: Seq<char>,
    items: StrMap<Resource>,
    stream: DeltaStreamHandle,
) -> bool {
    rep@.type_url == type_url && rep@.nonce == Seq::<char>::empty() && if stream@.wildcard {
        rep@.resources == spec_delta_resources(wild_filtered(items.kv_seq(), stream@.versions))
            && rep@.removed_resources == wild_removed(stream.resource_versions.kv_seq(), items@)
            && nvm_matches(nvm, wild_nvm(items.kv_seq()))
    } else {
        rep@.resources == spec_delta_resources(
            sub_filtered(stream.subscribed_resource_names.elem_seq(), items@, stream@.versions),
        ) && rep@.removed_resources == sub_removed(
            stream.subscribed_resource_names.elem_seq(),
            items@,
            stream@.versions,
        ) && nvm_matches(nvm, sub_nvm(stream.subscribed_resource_names.elem_seq(), items@))
    }
}

/// The resources to send and remove for one delta request.
pub struct DeltaResponse {
    pub next_version_map: StrMap<String>,
    pub filtered: Vec<DeltaResource>,
    pub to_remove: Vec<String>,
}

impl DeltaResponse {
    /// Computes the delta for `req` against `snapshot` and the client state
    /// `stream`, building the snapshot's version map first if needed.
    pub fn new(
        req: &DeltaDiscoveryRequest,
        stream: &DeltaStreamHandle,
        snapshot: &mut Snapshot,
    ) -> (r: Self)
        requires
            old(snapshot).resources@.contains_key(req@.type_url),
            old(snapshot).version_map is None || version_map_complete(*old(snapshot)),
        ensures
            final(snapshot).resources == old(snapshot).resources,
            version_map_complete(*final(snapshot)),
            old(snapshot).version_map is Some ==> *final(snapshot) == *old(snapshot),
            delta_response_ok(r, old(snapshot).resources@[req@.type_url].items, *stream),
    {
        snapshot.build_version_map();
        let bundle = match snapshot.resources.get(&req.type_url) {
            Some(b) => b,
            None => unreached(),
        };
        let vm_outer = match &snapshot.version_map {
            Some(vm) => vm,
            None => unreached(),
        };
        let version_map = match vm_outer.get(&req.type_url) {
            Some(m) => m,
            None => unreached(),
        };
        let ghost items_view = bundle.items@;
        proof {
            use_type_invariant(&bundle.items);
            bundle.items.lemma_kv();
            use_type_invariant(version_map);
            version_map.lemma_kv();
        }
        let mut next_version_map: StrMap<String> = StrMap::new();
        let mut filtered: Vec<DeltaResource> = Vec::new();
        let mut to_remove: Vec<String> = Vec::new();
        if stream.is_wildcard() {
            let items = bundle.items.entries();
            let n = items.len();
            for i in 0..n
                invariant
                    n == items@.len(),
                    items@ == bundle.items.kv_seq(),
                    crate::strmap::distinct_keys(items@),
                    bundle.items@ == items_view,
                    forall|j: int|
                        0 <= j < items@.len() ==> items_view.contains_key(
                            #[trigger] items@[j].0@,
                        ) && items_view[items@[j].0@] == items@[j].1,
                    version_map@.dom() == items_view.dom(),
                    forall|m: Seq<char>|
                        items_view.contains_key(m) ==> (#[trigger] version_map@[m])@
                            == sha256_hex(items_view[m].serialized_bytes()),
                    nvm_matches(next_version_map, wild_nvm(items@.take(i as int))),
                    filtered.deep_view() == wild_filtered(items@.take(i as int), stream@.versions),
                    to_remove@.len() == 0,
            {
                let name = &items[i].0;
                let item = &items[i].1;
                let version = match version_map.get(name) {
                    Some(v) => v,
                    None => unreached(),
                };
                let ghost pre_nvm = next_version_map;
                proof {
                    use_type_invariant(&next_version_map);
                    next_version_map.lemma_kv();
                    assert forall|k: Seq<char>|
                        next_version_map@.contains_key(k) implies exists|j: int|
                        0 <= j < i && (#[trigger] items@[j]).0@ == k by {
                        let j = choose|j: int|
                            0 <= j < next_version_map.kv_seq().len()
                                && next_version_map.kv_seq()[j].0@ == k;
                        assert(wild_nvm(items@.take(i as int))[j].0 == k);
                        assert(items@[j].0@ == k);
                    }
                    assert(!next_version_map@.contains_key(name@));
                }
                next_version_map.insert(name.clone(), version.clone());
                proof {
                    assert(items@.take(i + 1).drop_last() =~= items@.take(i as int));
                    assert(wild_nvm(items@.take(i + 1)) =~= wild_nvm(items@.take(i as int)).push(
                        (items@[i as int].0@, item_hash(items@[i as int])),
                    ));
                }
                let send = match stream.resource_versions.get(name) {
                    Some(prev_version) => !(*prev_version == *version),
                    None => true,
                };
                proof {
                    assert(stream@.versions.dom() =~= stream.resource_versions@.dom());
                    if stream@.versions.contains_key(name@) {
                        assert(stream@.versions[name@] == stream.resource_versions@[name@]@);
                    }
                }
                if send {
                    filtered.push(DeltaResource { name: name.clone(), resource: item.duplicate() });
                }
                proof {
                    assert(filtered.deep_view() =~= wild_filtered(
                        items@.take(i + 1),
                        stream@.versions,
                    ));
                }
            }
            proof {
                assert(items@.take(n as int) =~= items@);
            }
            let versions_kv = stream.resource_versions.entries();
            let vn = versions_kv.len();
            for i in 0..vn
                invariant
                    vn == versions_kv@.len(),
                    versions_kv@ == stream.resource_versions.kv_seq(),
                    bundle.items@ == items_view,
                    to_remove.deep_view() == wild_removed(versions_kv@.take(i as int), items_view),
            {
                let name = &versions_kv[i].0;
                proof {
                    assert(versions_kv@.take(i + 1).drop_last() =~= versions_kv@.take(i as int));
                }
                if bundle.items.get(name).is_none() {
                    to_remove.push(name.clone());
                }
                proof {
                    assert(to_remove.deep_view() =~= wild_removed(
                        versions_kv@.take(i + 1),
                        items_view,
                    ));
                }
            }
            proof {
                assert(versions_kv@.take(vn as int) =~= versions_kv@);
            }
        } else {
            let names = stream.subscribed_resource_names.elems();
            let n = names.len();
            proof {
                use_type_invariant(&stream.subscribed_resource_names);
                stream.subscribed_resource_names.lemma_elems();
            }
            for i in 0..n
                invariant
                    n == names@.len(),
                    names@ == stream.subscribed_resource_names.elem_seq(),
                    crate::strmap::distinct_strings(names@),
                    bundle.items@ == items_view,
                    version_map@.dom() == items_view.dom(),
                    forall|m: Seq<char>|
                        items_view.contains_key(m) ==> (#[trigger] version_map@[m])@
                            == sha256_hex(items_view[m].serialized_bytes()),
                    nvm_matches(next_version_map, sub_nvm(names@.take(i as int), items_view)),
                    filtered.deep_view() == sub_filtered(
                        names@.take(i as int),
                        items_view,
                        stream@.versions,
                    ),
                    to_remove.deep_view() == sub_removed(
                        names@.take(i as int),
                        items_view,
                        stream@.versions,
                    ),
            {
                let name = &names[i];
                proof {
                    assert(names@.take(i + 1).drop_last() =~= names@.take(i as int));
                    assert(stream@.versions.dom() =~= stream.resource_versions@.dom());
                    if stream@.versions.contains_key(name@) {
                        assert(stream@.versions[name@] == stream.resource_versions@[name@]@);
                    }
                }
                let prev = stream.resource_versions.get(name);
                let item = bundle.items.get(name);
                match (prev, item) {
                    (Some(prev_version), Some(resource)) => {
                        let version = match version_map.get(name) {
                            Some(v) => v,
                            None => unreached(),
                        };
                        if !(*prev_version == *version) {
                            filtered.push(
                                DeltaResource { name: name.clone(), resource: resource.duplicate() },
                            );
                        }
                        proof {
                            use_type_invariant(&next_version_map);
                            lemma_sub_nvm_fresh(next_version_map, names@, i as int, items_view);
                        }
                        next_version_map.insert(name.clone(), version.clone());
                    },
                    (Some(_), None) => {
                        to_remove.push(name.clone());
                    },
                    (None, Some(resource)) => {
                        let version = match version_map.get(name) {
                            Some(v) => v,
                            None => unreached(),
                        };
                        if !version.as_str().is_empty() {
                            filtered.push(
                                DeltaResource { name: name.clone(), resource: resource.duplicate() },
                            );
                        }
                        proof {
                            use_type_invariant(&next_version_map);
                            lemma_sub_nvm_fresh(next_version_map, names@, i as int, items_view);
                        }
                        next_version_map.insert(name.clone(), version.clone());
                    },
                    (None, None) => {},
                }
                proof {
                    assert(nvm_matches(next_version_map, sub_nvm(names@.take(i + 1), items_view)));
                    assert(filtered.deep_view() =~= sub_filtered(
                        names@.take(i + 1),
                        items_view,
                        stream@.versions,
                    ));
                    assert(to_remove.deep_view() =~= sub_removed(
                        names@.take(i + 1),
                        items_view,
                        stream@.versions,
                    ));
                }
            }
            proof {
                assert(names@.take(n as int) =~= names@);
            }
        }
        DeltaResponse { next_version_map, filtered, to_remove }
    }

    /// Packages the delta for transport; the nonce stays empty for the
    /// stream to fill in.
    pub fn to_discovery(&self, type_url: &String) -> (rep: DeltaDiscoveryResponse)
        ensures
            rep@.type_url == type_url@,
            rep@.nonce == Seq::<char>::empty(),
            rep@.removed_resources == self.to_remove.deep_view(),
            rep@.resources.len() == self.filtered.deep_view().len(),
            forall|i: int|
                0 <= i < self.filtered.deep_view().len() ==> (#[trigger] rep@.resources[i])
                    == (SpecDeltaResponseResource {
                    name: self.filtered.deep_view()[i].0,
                    version: sha256_hex(self.filtered.deep_view()[i].1.value),
                    resource: self.filtered.deep_view()[i].1,
                }),
    {
        let n = self.filtered.len();
        let mut resources: Vec<DeltaResponseResource> = Vec::new();
        for i in 0..n
            invariant
                n == self.filtered@.len(),
                resources@.len() == i,
                forall|j: int|
                    0 <= j < i ==> (#[trigger] resources.deep_view()[j])
                        == (SpecDeltaResponseResource {
                        name: self.filtered.deep_view()[j].0,
                        version: sha256_hex(self.filtered.deep_view()[j].1.value),
                        resource: self.filtered.deep_view()[j].1,
                    }),
        {
            let entry = &self.filtered[i];
            let version = hash_resource(&entry.resource);
            let rr = DeltaResponseResource {
                name: entry.name.clone(),
                version,
                resource: entry.resource.into_any(),
            };
            proof {
                assert(self.filtered.deep_view()[i as int] == self.filtered@[i as int].deep_view());
                assert(rr.deep_view() == (SpecDeltaResponseResource {
                    name: self.filtered.deep_view()[i as int].0,
                    version: sha256_hex(self.filtered.deep_view()[i as int].1.value),
                    resource: self.filtered.deep_view()[i as int].1,
                }));
            }
            let ghost pre_res = resources;
            resources.push(rr);
            proof {
                assert forall|j: int| 0 <= j < i + 1 implies (#[trigger] resources.deep_view()[j])
                    == (SpecDeltaResponseResource {
                    name: self.filtered.deep_view()[j].0,
                    version: sha256_hex(self.filtered.deep_view()[j].1.value),
                    resource: self.filtered.deep_view()[j].1,
                }) by {
                    assert(resources.deep_view()[j] == resources@[j].deep_view());
                    if j < i {
                        assert(resources@[j] == pre_res@[j]);
                        assert(pre_res.deep_view()[j] == pre_res@[j].deep_view());
                    } else {
                        assert(resources@[j] == rr);
                    }
                }
            }
        }
        let rep = DeltaDiscoveryResponse {
            type_url: type_url.clone(),
            nonce: String::new(),
            resources,
            removed_resources: crate::api::clone_strings(&self.to_remove),
        };
        rep
    }
}

/// The keys a partially built non-wildcard next version map holds are views
/// of already processed names, so the next name is fresh.
proof fn lemma_sub_nvm_fresh(
    m: StrMap<String>,
    names: Seq<String>,
    i: int,
    items: Map<Seq<char>, Resource>,
)
    requires
        0 <= i < names.len(),
        crate::strmap::distinct_strings(names),
        nvm_matches(m, sub_nvm(names.take(i), items)),
        m.wf(),
    ensures
        !m@.contains_key(names[i]@),
{
    m.lemma_kv();
    if m@.contains_key(names[i]@) {
        let j = choose|j: int| 0 <= j < m.kv_seq().len() && m.kv_seq()[j].0@ == names[i]@;
        lemma_sub_nvm_keys(names.take(i), items, j);
        let l = choose|l: int|
            0 <= l < names.take(i).len() && (#[trigger] names.take(i)[l])@ == sub_nvm(
                names.take(i),
                items,
            )[j].0;
        assert(names[l]@ == names[i]@);
    }
}

/// Every key of `sub_nvm(names, items)` is the view of one of `names`.
proof fn lemma_sub_nvm_keys(names: Seq<String>, items: Map<Seq<char>, Resource>, j: int)
    requires
        0 <= j < sub_nvm(names, items).len(),
    ensures
        exists|l: int|
            0 <= l < names.len() && (#[trigger] names[l])@ == sub_nvm(names, items)[j].0,
    decreases names.len(),
{
    if names.len() > 0 {
        let rest = sub_nvm(names.drop_last(), items);
        if j < rest.len() {
            lemma_sub_nvm_keys(names.drop_last(), items, j);
            let l = choose|l: int|
                0 <= l < names.drop_last().len() && (#[trigger] names.drop_last()[l])@ == sub_nvm(
                    names.drop_last(),
                    items,
                )[j].0;
            assert(names[l]@ == sub_nvm(names, items)[j].0);
        } else {
            assert(names[names.len() - 1]@ == sub_nvm(names, items)[j].0);
        }
    }
}

} // verus!
