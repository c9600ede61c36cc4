//! Per-stream subscription state shared with the cache.
//!
//! `StreamHandle` tracks, per type URL, the resource names a state-of-the-
//! world client has acknowledged. `DeltaStreamHandle` tracks a delta
//! client's wildcard flag, explicit subscriptions, and per-resource
//! versions.

use crate::api::DeltaDiscoveryRequest;
use crate::strmap::{StrMap, StrSet};
use vstd::prelude::*;

verus! {

/// Per-type sets of resource names a SotW client has acknowledged.
pub struct StreamHandle {
    pub known_resource_names: StrMap<StrSet>,
}

/// The set of names a handle knows for a type URL (empty if none recorded).
pub open spec fn spec_known(handle: StreamHandle, type_url: Seq<char>) -> Set<Seq<char>> {
    if handle.known_resource_names@.contains_key(type_url) {
        handle.known_resource_names@[type_url]@
    } else {
        Set::<Seq<char>>::empty()
    }
}

/// The set of views of a sequence of string views.
pub open spec fn name_views_set(names: Seq<Seq<char>>) -> Set<Seq<char>> {
    Set::new(|k: Seq<char>| crate::api::names_contain(names, k))
}

proof fn lemma_name_views_take_step(names: Seq<Seq<char>>, i: int)
    requires
        0 <= i < names.len(),
    ensures
        name_views_set(names.take(i + 1)) == name_views_set(names.take(i)).insert(names[i]),
{
    assert forall|k: Seq<char>| name_views_set(names.take(i + 1)).contains(k) implies
        name_views_set(names.take(i)).insert(names[i]).contains(k) by {
        let j = choose|j: int| 0 <= j < names.take(i + 1).len() && (#[trigger] names.take(i + 1)[j]) == k;
        if j < i {
            assert(names.take(i)[j] == k);
        } else {
            assert(names[i] == k);
        }
    }
    assert forall|k: Seq<char>| name_views_set(names.take(i)).insert(names[i]).contains(
        k,
    ) implies name_views_set(names.take(i + 1)).contains(k) by {
        if k == names[i] {
            assert(names.take(i + 1)[i] == k);
        } else {
            let j = choose|j: int| 0 <= j < names.take(i).len() && (#[trigger] names.take(i)[j]) == k;
            assert(names.take(i + 1)[j] == k);
        }
    }
    assert(name_views_set(names.take(i + 1)) =~= name_views_set(names.take(i)).insert(names[i]));
}

impl StreamHandle {
    pub fn new() -> (r: Self)
        ensures
            r.known_resource_names@ == Map::<Seq<char>, StrSet>::empty(),
    {
        StreamHandle { known_resource_names: StrMap::new() }
    }

    /// The names acknowledged for `type_url`, or absence if none were.
    pub fn known_resource_names(&self, type_url: &String) -> (r: Option<&StrSet>)
        ensures
            match r {
                Some(s) => self.known_resource_names@.contains_key(type_url@) && *s
                    == self.known_resource_names@[type_url@],
                None => !self.known_resource_names@.contains_key(type_url@),
            },
    {
        self.known_resource_names.get(type_url)
    }

    /// Adds every name to the set acknowledged for `type_url`.
    pub fn add_known_resource_names(&mut self, type_url: &String, names: &Vec<String>)
        ensures
            spec_known(*final(self), type_url@) == spec_known(*old(self), type_url@).union(
                name_views_set(names.deep_view()),
            ),
            forall|t: Seq<char>|
                t != type_url@ ==> spec_known(*final(self), t) == spec_known(*old(self), t),
    {
        let mut set = match self.known_resource_names.remove(type_url) {
            Some(s) => s,
            None => StrSet::new(),
        };
        let ghost base = set@;
        let n = names.len();
        for i in 0..n
            invariant
                n == names@.len(),
                set@ == base.union(name_views_set(names.deep_view().take(i as int))),
        {
            let ghost pre = set@;
            set.insert(names[i].clone());
            proof {
                assert(names.deep_view()[i as int] == names@[i as int]@);
                lemma_name_views_take_step(names.deep_view(), i as int);
                assert(set@ =~= base.union(name_views_set(names.deep_view().take(i + 1))));
            }
        }
        proof {
            assert(names.deep_view().take(n as int) =~= names.deep_view());
        }
        self.known_resource_names.insert(type_url.clone(), set);
        proof {
            assert forall|t: Seq<char>| t != type_url@ implies spec_known(*self, t) == spec_known(
                *old(self),
                t,
            ) by {
                assert(self.known_resource_names@.dom() =~= old(
                    self,
                ).known_resource_names@.dom().insert(type_url@));
            }
        }
    }
}

/// A delta client's subscription state for one type URL, as a spec value.
pub struct SpecDeltaHandle {
    pub wildcard: bool,
    pub subscribed: Set<Seq<char>>,
    pub versions: Map<Seq<char>, Seq<char>>,
    pub first: bool,
}

/// Per-type subscription state of a delta stream.
pub struct DeltaStreamHandle {
    pub wildcard: bool,
    pub subscribed_resource_names: StrSet,
    pub resource_versions: StrMap<String>,
    pub first: bool,
}

impl View for DeltaStreamHandle {
    type V = SpecDeltaHandle;

    open spec fn view(&self) -> SpecDeltaHandle {
        SpecDeltaHandle {
            wildcard: self.wildcard,
            subscribed: self.subscribed_resource_names@,
            versions: self.resource_versions@.map_values(|v: String| v@),
            first: self.first,
        }
    }
}

/// One subscribe step: `*` turns the wildcard on, any other name joins the
/// explicit subscription set.
pub open spec fn spec_subscribe_step(h: SpecDeltaHandle, name: Seq<char>) -> SpecDeltaHandle {
    if name == "*"@ {
        SpecDeltaHandle { wildcard: true, ..h }
    } else {
        SpecDeltaHandle { subscribed: h.subscribed.insert(name), ..h }
    }
}

/// Subscribe steps applied left to right.
pub open spec fn spec_subscribe(h: SpecDeltaHandle, names: Seq<Seq<char>>) -> SpecDeltaHandle
    decreases names.len(),
{
    if names.len() == 0 {
        h
    } else {
        spec_subscribe_step(spec_subscribe(h, names.drop_last()), names.last())
    }
}

/// One unsubscribe step: `*` turns the wildcard off; any other name leaves
/// the explicit set, and, when it was subscribed while the wildcard is on,
/// its recorded version is cleared so a later explicit re-subscription under
/// the wildcard forces a re-send.
pub open spec fn spec_unsubscribe_step(h: SpecDeltaHandle, name: Seq<char>) -> SpecDeltaHandle {
    if name == "*"@ {
        SpecDeltaHandle { wildcard: false, ..h }
    } else {
        let versions = if h.subscribed.contains(name) && h.wildcard {
            h.versions.insert(name, Seq::<char>::empty())
        } else {
            h.versions
        };
        SpecDeltaHandle { subscribed: h.subscribed.remove(name), versions, ..h }
    }
}

/// Unsubscribe steps applied left to right.
pub open spec fn spec_unsubscribe(h: SpecDeltaHandle, names: Seq<Seq<char>>) -> SpecDeltaHandle
    decreases names.len(),
{
    if names.len() == 0 {
        h
    } else {
        spec_unsubscribe_step(spec_unsubscribe(h, names.drop_last()), names.last())
    }
}

impl DeltaStreamHandle {
    /// The state for a type URL first seen in `req`: wildcard when the
    /// request subscribes and unsubscribes nothing, versions taken from the
    /// request's initial resource versions.
    pub fn new(req: &DeltaDiscoveryRequest) -> (r: Self)
        ensures
            r@.wildcard == (req@.resource_names_subscribe.len() == 0
                && req@.resource_names_unsubscribe.len() == 0),
            r@.subscribed == Set::<Seq<char>>::empty(),
            r@.versions == req@.initial_resource_versions,
            r@.first,
            r.resource_versions.kv_seq().len() == req.initial_resource_versions.kv_seq().len(),
    {
        let r = DeltaStreamHandle {
            wildcard: req.resource_names_subscribe.is_empty()
                && req.resource_names_unsubscribe.is_empty(),
            subscribed_resource_names: StrSet::new(),
            resource_versions: req.initial_resource_versions.duplicate(),
            first: true,
        };
        proof {
            assert(r@.versions =~= req@.initial_resource_versions);
        }
        r
    }

    /// Ends the first exchange and applies the request's subscribe and
    /// unsubscribe lists, in that order.
    pub fn apply_subscriptions(&mut self, req: &DeltaDiscoveryRequest)
        ensures
            final(self)@ == spec_unsubscribe(
                spec_subscribe(
                    SpecDeltaHandle { first: false, ..old(self)@ },
                    req@.resource_names_subscribe,
                ),
                req@.resource_names_unsubscribe,
            ),
    {
        self.first = false;
        self.subscribe(&req.resource_names_subscribe);
        self.unsubscribe(&req.resource_names_unsubscribe);
    }

    /// Applies subscribe steps for each name, left to right.
    pub fn subscribe(&mut self, resources: &Vec<String>)
        ensures
            final(self)@ == spec_subscribe(old(self)@, resources.deep_view()),
    {
        let star: String = "*".to_owned();
        let n = resources.len();
        for i in 0..n
            invariant
                n == resources@.len(),
                star@ == "*"@,
                self@ == spec_subscribe(old(self)@, resources.deep_view().take(i as int)),
        {
            let ghost pre = self@;
            proof {
                assert(resources.deep_view().take(i + 1).drop_last() =~= resources.deep_view().take(
                    i as int,
                ));
                assert(resources.deep_view()[i as int] == resources@[i as int]@);
            }
            if resources[i] == star {
                self.wildcard = true;
            } else {
                self.subscribed_resource_names.insert(resources[i].clone());
                proof {
                    assert(self@ =~= spec_subscribe_step(pre, resources.deep_view()[i as int]));
                }
            }
        }
        proof {
            assert(resources.deep_view().take(n as int) =~= resources.deep_view());
        }
    }

    /// Applies unsubscribe steps for each name, left to right.
    pub fn unsubscribe(&mut self, resources: &Vec<String>)
        ensures
            final(self)@ == spec_unsubscribe(old(self)@, resources.deep_view()),
    {
        let star: String = "*".to_owned();
        let n = resources.len();
        for i in 0..n
            invariant
                n == resources@.len(),
                star@ == "*"@,
                self@ == spec_unsubscribe(old(self)@, resources.deep_view().take(i as int)),
        {
            let ghost pre = self@;
            proof {
                assert(resources.deep_view().take(i + 1).drop_last() =~= resources.deep_view().take(
                    i as int,
                ));
                assert(resources.deep_view()[i as int] == resources@[i as int]@);
            }
            if resources[i] == star {
                self.wildcard = false;
            } else {
                if self.subscribed_resource_names.contains(&resources[i]) && self.wildcard {
                    self.resource_versions.insert(resources[i].clone(), String::new());
                    proof {
                        assert(self.resource_versions@.map_values(|v: String| v@)
                            =~= pre.versions.insert(
                            resources.deep_view()[i as int],
                            Seq::<char>::empty(),
                        ));
                    }
                }
                self.subscribed_resource_names.remove(&resources[i]);
                proof {
                    assert(self@ =~= spec_unsubscribe_step(pre, resources.deep_view()[i as int]));
                }
            }
        }
        proof {
            assert(resources.deep_view().take(n as int) =~= resources.deep_view());
        }
    }

    pub fn is_wildcard(&self) -> (r: bool)
        ensures
            r == self@.wildcard,
    {
        self.wildcard
    }

    pub fn is_first(&self) -> (r: bool)
        ensures
            r == self@.first,
    {
        self.first
    }

    pub fn resource_versions(&self) -> (r: &StrMap<String>)
        ensures
            *r == self.resource_versions,
    {
        &self.resource_versions
    }

    pub fn subscribed_resource_names(&self) -> (r: &StrSet)
        ensures
            *r == self.subscribed_resource_names,
    {
        &self.subscribed_resource_names
    }

    /// Replaces the per-resource versions, as the stream does after it
    /// forwards a delta response.
    pub fn set_resource_versions(&mut self, versions: StrMap<String>)
        ensures
            *final(self) == (DeltaStreamHandle { resource_versions: versions, ..*old(self) }),
    {
        self.resource_versions = versions;
    }

    /// A copy with the same state and backing orders.
    pub fn duplicate(&self) -> (r: Self)
        ensures
            r@ == self@,
            r.subscribed_resource_names.elem_seq().len()
                == self.subscribed_resource_names.elem_seq().len(),
            forall|i: int|
                0 <= i < self.subscribed_resource_names.elem_seq().len() ==> (
                #[trigger] r.subscribed_resource_names.elem_seq()[i])@
                    == self.subscribed_resource_names.elem_seq()[i]@,
            r.resource_versions.kv_seq().len() == self.resource_versions.kv_seq().len(),
            forall|i: int|
                0 <= i < self.resource_versions.kv_seq().len() ==> (
                #[trigger] r.resource_versions.kv_seq()[i]).0@
                    == self.resource_versions.kv_seq()[i].0@ && r.resource_versions.kv_seq()[i].1@
                    == self.resource_versions.kv_seq()[i].1@,
    {
        let r = DeltaStreamHandle {
            wildcard: self.wildcard,
            subscribed_resource_names: self.subscribed_resource_names.duplicate(),
            resource_versions: self.resource_versions.duplicate(),
            first: self.first,
        };
        proof {
            assert(r@.versions =~= self@.versions);
        }
        r
    }
}

} // verus!
