//! The discovery requests and responses exchanged with peers, as plain
//! values, with mathematical views for contracts.

use crate::strmap::StrMap;
use vstd::prelude::*;

verus! {

/// The node identity carried by a request: what the cache keys on.
pub struct Node {
    pub id: String,
}

impl View for Node {
    type V = Seq<char>;

    open spec fn view(&self) -> Seq<char> {
        self.id@
    }
}

impl Node {
    pub fn duplicate(&self) -> (r: Self)
        ensures
            r@ == self@,
    {
        Node { id: self.id.clone() }
    }
}

/// A typed opaque payload on the wire: a type URL and serialized bytes.
pub struct AnyPayload {
    pub type_url: String,
    pub value: Vec<u8>,
}

pub struct SpecAnyPayload {
    pub type_url: Seq<char>,
    pub value: Seq<u8>,
}

impl View for AnyPayload {
    type V = SpecAnyPayload;

    open spec fn view(&self) -> SpecAnyPayload {
        SpecAnyPayload { type_url: self.type_url@, value: self.value@ }
    }
}

impl DeepView for AnyPayload {
    type V = SpecAnyPayload;

    open spec fn deep_view(&self) -> SpecAnyPayload {
        self.view()
    }
}

/// A state-of-the-world discovery request.
pub struct DiscoveryRequest {
    pub node: Option<Node>,
    pub type_url: String,
    pub version_info: String,
    pub resource_names: Vec<String>,
    pub response_nonce: String,
    pub error_detail: Option<String>,
}

pub struct SpecDiscoveryRequest {
    pub node: Option<Seq<char>>,
    pub type_url: Seq<char>,
    pub version_info: Seq<char>,
    pub resource_names: Seq<Seq<char>>,
    pub response_nonce: Seq<char>,
    pub error_detail: Option<Seq<char>>,
}

impl View for DiscoveryRequest {
    type V = SpecDiscoveryRequest;

    open spec fn view(&self) -> SpecDiscoveryRequest {
        SpecDiscoveryRequest {
            node: match self.node {
                Some(n) => Some(n@),
                None => None,
            },
            type_url: self.type_url@,
            version_info: self.version_info@,
            resource_names: self.resource_names.deep_view(),
            response_nonce: self.response_nonce@,
            error_detail: match self.error_detail {
                Some(e) => Some(e@),
                None => None,
            },
        }
    }
}

impl DiscoveryRequest {
    pub fn duplicate(&self) -> (r: Self)
        ensures
            r@ == self@,
    {
        let node = match &self.node {
            Some(n) => Some(n.duplicate()),
            None => None,
        };
        let error_detail = match &self.error_detail {
            Some(e) => Some(e.clone()),
            None => None,
        };
        let r = DiscoveryRequest {
            node,
            type_url: self.type_url.clone(),
            version_info: self.version_info.clone(),
            resource_names: clone_strings(&self.resource_names),
            response_nonce: self.response_nonce.clone(),
            error_detail,
        };
        r
    }
}

/// A state-of-the-world discovery response.
pub struct DiscoveryResponse {
    pub type_url: String,
    pub version_info: String,
    pub nonce: String,
    pub resources: Vec<AnyPayload>,
    pub control_plane: Option<String>,
    pub canary: bool,
}

pub struct SpecDiscoveryResponse {
    pub type_url: Seq<char>,
    pub version_info: Seq<char>,
    pub nonce: Seq<char>,
    pub resources: Seq<SpecAnyPayload>,
    pub control_plane: Option<Seq<char>>,
    pub canary: bool,
}

impl View for DiscoveryResponse {
    type V = SpecDiscoveryResponse;

    open spec fn view(&self) -> SpecDiscoveryResponse {
        SpecDiscoveryResponse {
            type_url: self.type_url@,
            version_info: self.version_info@,
            nonce: self.nonce@,
            resources: self.resources.deep_view(),
            control_plane: match self.control_plane {
                Some(c) => Some(c@),
                None => None,
            },
            canary: self.canary,
        }
    }
}

/// A delta (incremental) discovery request.
pub struct DeltaDiscoveryRequest {
    pub node: Option<Node>,
    pub type_url: String,
    pub resource_names_subscribe: Vec<String>,
    pub resource_names_unsubscribe: Vec<String>,
    pub initial_resource_versions: StrMap<String>,
    pub response_nonce: String,
    pub error_detail: Option<String>,
}

pub struct SpecDeltaDiscoveryRequest {
    pub node: Option<Seq<char>>,
    pub type_url: Seq<char>,
    pub resource_names_subscribe: Seq<Seq<char>>,
    pub resource_names_unsubscribe: Seq<Seq<char>>,
    pub initial_resource_versions: Map<Seq<char>, Seq<char>>,
    pub response_nonce: Seq<char>,
    pub error_detail: Option<Seq<char>>,
}

impl View for DeltaDiscoveryRequest {
    type V = SpecDeltaDiscoveryRequest;

    open spec fn view(&self) -> SpecDeltaDiscoveryRequest {
        SpecDeltaDiscoveryRequest {
            node: match self.node {
                Some(n) => Some(n@),
                None => None,
            },
            type_url: self.type_url@,
            resource_names_subscribe: self.resource_names_subscribe.deep_view(),
            resource_names_unsubscribe: self.resource_names_unsubscribe.deep_view(),
            initial_resource_versions: self.initial_resource_versions@.map_values(
                |v: String| v@,
            ),
            response_nonce: self.response_nonce@,
            error_detail: match self.error_detail {
                Some(e) => Some(e@),
                None => None,
            },
        }
    }
}

impl DeltaDiscoveryRequest {
    pub fn duplicate(&self) -> (r: Self)
        ensures
            r@ == self@,
    {
        let node = match &self.node {
            Some(n) => Some(n.duplicate()),
            None => None,
        };
        let error_detail = match &self.error_detail {
            Some(e) => Some(e.clone()),
            None => None,
        };
        let r = DeltaDiscoveryRequest {
            node,
            type_url: self.type_url.clone(),
            resource_names_subscribe: clone_strings(&self.resource_names_subscribe),
            resource_names_unsubscribe: clone_strings(&self.resource_names_unsubscribe),
            initial_resource_versions: self.initial_resource_versions.duplicate(),
            response_nonce: self.response_nonce.clone(),
            error_detail,
        };
        proof {
            assert(r@.initial_resource_versions =~= self@.initial_resource_versions);
        }
        r
    }
}

/// One resource entry of a delta response: name, content-hash version, and
/// the wire payload.
pub struct DeltaResponseResource {
    pub name: String,
    pub version: String,
    pub resource: AnyPayload,
}

pub struct SpecDeltaResponseResource {
    pub name: Seq<char>,
    pub version: Seq<char>,
    pub resource: SpecAnyPayload,
}

impl View for DeltaResponseResource {
    type V = SpecDeltaResponseResource;

    open spec fn view(&self) -> SpecDeltaResponseResource {
        SpecDeltaResponseResource {
            name: self.name@,
            version: self.version@,
            resource: self.resource@,
        }
    }
}

impl DeepView for DeltaResponseResource {
    type V = SpecDeltaResponseResource;

    open spec fn deep_view(&self) -> SpecDeltaResponseResource {
        self.view()
    }
}

/// A delta (incremental) discovery response.
pub struct DeltaDiscoveryResponse {
    pub type_url: String,
    pub nonce: String,
    pub resources: Vec<DeltaResponseResource>,
    pub removed_resources: Vec<String>,
}

pub struct SpecDeltaDiscoveryResponse {
    pub type_url: Seq<char>,
    pub nonce: Seq<char>,
    pub resources: Seq<SpecDeltaResponseResource>,
    pub removed_resources: Seq<Seq<char>>,
}

impl View for DeltaDiscoveryResponse {
    type V = SpecDeltaDiscoveryResponse;

    open spec fn view(&self) -> SpecDeltaDiscoveryResponse {
        SpecDeltaDiscoveryResponse {
            type_url: self.type_url@,
            nonce: self.nonce@,
            resources: self.resources.deep_view(),
            removed_resources: self.removed_resources.deep_view(),
        }
    }
}

/// Whether a sequence of string views contains `k`.
pub open spec fn names_contain(names: Seq<Seq<char>>, k: Seq<char>) -> bool {
    exists|i: int| 0 <= i < names.len() && names[i] == k
}

/// A copy of a string vector with the same deep view.
pub fn clone_strings(v: &Vec<String>) -> (r: Vec<String>)
    ensures
        r.deep_view() == v.deep_view(),
        r@.len() == v@.len(),
{
    let n = v.len();
    let mut r: Vec<String> = Vec::new();
    for i in 0..n
        invariant
            n == v@.len(),
            r@.len() == i,
            forall|j: int| 0 <= j < i ==> #[trigger] r@[j] == v@[j],
    {
        r.push(v[i].clone());
    }
    proof {
        assert(r@ =~= v@);
        assert(r.deep_view() =~= v.deep_view());
    }
    r
}

/// Whether a string vector contains a string with view `k`.
pub fn names_contain_exec(names: &Vec<String>, k: &String) -> (r: bool)
    ensures
        r == names_contain(names.deep_view(), k@),
{
    let n = names.len();
    for i in 0..n
        invariant
            n == names@.len(),
            forall|j: int| 0 <= j < i ==> names.deep_view()[j] != k@,
    {
        if names[i] == *k {
            proof {
                assert(names.deep_view()[i as int] == k@);
            }
            return true;
        }
        proof {
            assert(names.deep_view()[i as int] == names@[i as int]@);
        }
    }
    false
}

} // verus!
