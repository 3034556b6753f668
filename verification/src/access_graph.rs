//! The access graph: a typed, heterogeneous directed graph of users,
//! groups, assets, policies, tags and default policies, together with the
//! node-merge protocol that reconciles duplicate entities arriving from
//! several connectors.

pub mod graph;
pub mod resolve;
pub mod serialize;

use vstd::prelude::*;
use crate::connectors::{AssetType, UserIdentifier};
use crate::errors::MergeConflict;
use crate::jetty::ConnectorNamespace;
use vstd::std_specs::cmp::PartialEqSpec;
use crate::util::{assoc_get, assoc_has, assoc_unique, seq_contains_str, strs_unique};

verus! {

/// Typed edges of the access graph. Every edge kind has a symmetric
/// counterpart; an edge is only ever inserted together with its inverse.
#[derive(Clone, Copy, Debug, PartialEq, Eq, Structural, Hash)]
pub enum EdgeType {
    /// group/user -> group it belongs to
    MemberOf,
    /// group -> its members
    Includes,
    /// asset -> its parent asset
    ChildOf,
    /// asset -> its child assets
    ParentOf,
    /// asset -> assets it is derived from (lineage)
    DerivedFrom,
    /// asset -> assets derived from it (lineage)
    DerivedTo,
    /// asset -> policy governing it
    GovernedBy,
    /// policy -> asset it governs
    Governs,
    /// policy agent -> policy it belongs to
    AppliesTo,
    /// policy -> its agent
    GrantedTo,
    /// asset -> tag on it
    TaggedAs,
    /// tag -> asset it is applied to
    AppliedTo,
    /// tag -> asset it is explicitly removed from
    RemovedFrom,
    /// asset -> tag explicitly removed from it
    UntaggedAs,
}

impl EdgeType {
    /// The symmetric counterpart of an edge kind.
    pub fn reverse(&self) -> (r: EdgeType)
        ensures
            r == self.rev(),
    {
        match self {
            EdgeType::MemberOf => EdgeType::Includes,
            EdgeType::Includes => EdgeType::MemberOf,
            EdgeType::ChildOf => EdgeType::ParentOf,
            EdgeType::ParentOf => EdgeType::ChildOf,
            EdgeType::DerivedFrom => EdgeType::DerivedTo,
            EdgeType::DerivedTo => EdgeType::DerivedFrom,
            EdgeType::GovernedBy => EdgeType::Governs,
            EdgeType::Governs => EdgeType::GovernedBy,
            EdgeType::AppliesTo => EdgeType::GrantedTo,
            EdgeType::GrantedTo => EdgeType::AppliesTo,
            EdgeType::TaggedAs => EdgeType::AppliedTo,
            EdgeType::AppliedTo => EdgeType::TaggedAs,
            EdgeType::RemovedFrom => EdgeType::UntaggedAs,
            EdgeType::UntaggedAs => EdgeType::RemovedFrom,
        }
    }

    /// Spec-level counterpart of `reverse`.
    pub open spec fn rev(self) -> EdgeType {
        match self {
            EdgeType::MemberOf => EdgeType::Includes,
            EdgeType::Includes => EdgeType::MemberOf,
            EdgeType::ChildOf => EdgeType::ParentOf,
            EdgeType::ParentOf => EdgeType::ChildOf,
            EdgeType::DerivedFrom => EdgeType::DerivedTo,
            EdgeType::DerivedTo => EdgeType::DerivedFrom,
            EdgeType::GovernedBy => EdgeType::Governs,
            EdgeType::Governs => EdgeType::GovernedBy,
            EdgeType::AppliesTo => EdgeType::GrantedTo,
            EdgeType::GrantedTo => EdgeType::AppliesTo,
            EdgeType::TaggedAs => EdgeType::AppliedTo,
            EdgeType::AppliedTo => EdgeType::TaggedAs,
            EdgeType::RemovedFrom => EdgeType::UntaggedAs,
            EdgeType::UntaggedAs => EdgeType::RemovedFrom,
        }
    }
}

/// Reversal is an involution: reversing twice gives the edge kind back.
pub broadcast proof fn lemma_rev_involutive(e: EdgeType)
    ensures
        #[trigger] e.rev().rev() == e,
{
}

/// The globally unique, structural identifier of a node.
#[derive(Clone, Debug)]
pub enum NodeName {
    /// A user, identified by the best available identifier (usually email).
    User(String),
    /// A group; `origin` keeps same-named groups of different connectors
    /// apart.
    Group {
        /// the group name
        name: String,
        /// the connector namespace the group came from
        origin: ConnectorNamespace,
    },
    /// An asset, identified by connector kind, type and container path.
    Asset {
        /// the connector namespace that owns the asset
        connector: ConnectorNamespace,
        /// the asset's type
        asset_type: AssetType,
        /// the container hierarchy, outermost first
        path: Vec<String>,
    },
    /// A policy, identified by name and origin namespace.
    Policy {
        /// the policy name
        name: String,
        /// the connector namespace the policy came from
        origin: ConnectorNamespace,
    },
    /// A default (wildcard) policy, identified by its anchor, wildcard path
    /// and target types.
    DefaultPolicy {
        /// the connector namespace the policy came from
        origin: ConnectorNamespace,
        /// the container path of the anchor asset
        root_path: Vec<String>,
        /// the wildcard path below the anchor
        wildcard_path: String,
        /// the targeted asset types, in declaration order
        target_types: Vec<AssetType>,
    },
    /// A tag, identified by name.
    Tag(String),
    /// A synthetic policy agent, one per unique grantee set of a policy.
    PolicyAgent(String),
}

/// The mathematical value of a `NodeName`: the same shape over sequences,
/// so that two names compare by content.
pub enum NodeKey {
    /// key of a user node
    User(Seq<char>),
    /// key of a group node
    Group { name: Seq<char>, origin: Seq<char> },
    /// key of an asset node
    Asset { connector: Seq<char>, asset_type: AssetType, path: Seq<Seq<char>> },
    /// key of a policy node
    Policy { name: Seq<char>, origin: Seq<char> },
    /// key of a default-policy node
    DefaultPolicy {
        origin: Seq<char>,
        root_path: Seq<Seq<char>>,
        wildcard_path: Seq<char>,
        target_types: Seq<AssetType>,
    },
    /// key of a tag node
    Tag(Seq<char>),
    /// key of a policy-agent node
    PolicyAgent(Seq<char>),
}

impl NodeName {
    /// The content of this name.
    pub open spec fn key(self) -> NodeKey {
        match self {
            NodeName::User(s) => NodeKey::User(s@),
            NodeName::Group { name, origin } => NodeKey::Group { name: name@, origin: origin.0@ },
            NodeName::Asset { connector, asset_type, path } => NodeKey::Asset {
                connector: connector.0@,
                asset_type,
                path: path.deep_view(),
            },
            NodeName::Policy { name, origin } => NodeKey::Policy {
                name: name@,
                origin: origin.0@,
            },
            NodeName::DefaultPolicy { origin, root_path, wildcard_path, target_types } =>
                NodeKey::DefaultPolicy {
                origin: origin.0@,
                root_path: root_path.deep_view(),
                wildcard_path: wildcard_path@,
                target_types: target_types@,
            },
            NodeName::Tag(s) => NodeKey::Tag(s@),
            NodeName::PolicyAgent(s) => NodeKey::PolicyAgent(s@),
        }
    }
}

impl PartialEq for NodeName {
    fn eq(&self, other: &NodeName) -> (r: bool) {
        match (self, other) {
            (NodeName::User(a), NodeName::User(b)) => *a == *b,
            (
                NodeName::Group { name: an, origin: ao },
                NodeName::Group { name: bn, origin: bo },
            ) => *an == *bn && ao.0 == bo.0,
            (
                NodeName::Asset { connector: ac, asset_type: at, path: ap },
                NodeName::Asset { connector: bc, asset_type: bt, path: bp },
            ) => ac.0 == bc.0 && *at == *bt && crate::util::string_vec_eq(ap, bp),
            (
                NodeName::Policy { name: an, origin: ao },
                NodeName::Policy { name: bn, origin: bo },
            ) => *an == *bn && ao.0 == bo.0,
            (
                NodeName::DefaultPolicy {
                    origin: ao,
                    root_path: ar,
                    wildcard_path: aw,
                    target_types: at,
                },
                NodeName::DefaultPolicy {
                    origin: bo,
                    root_path: br,
                    wildcard_path: bw,
                    target_types: bt,
                },
            ) => ao.0 == bo.0 && crate::util::string_vec_eq(ar, br) && *aw == *bw
                && asset_types_eq(at, bt),
            (NodeName::Tag(a), NodeName::Tag(b)) => *a == *b,
            (NodeName::PolicyAgent(a), NodeName::PolicyAgent(b)) => *a == *b,
            _ => false,
        }
    }
}

impl vstd::std_specs::cmp::PartialEqSpecImpl for NodeName {
    open spec fn obeys_eq_spec() -> bool {
        true
    }

    open spec fn eq_spec(&self, other: &NodeName) -> bool {
        self.key() == other.key()
    }
}

impl Eq for NodeName {}

impl NodeName {
    /// The namespace of the connector that owns the named entity; empty
    /// for entities that no single connector owns.
    pub open spec fn owner_text(self) -> Seq<char> {
        match self {
            NodeName::User(_) => Seq::empty(),
            NodeName::Group { origin, .. } => origin.0@,
            NodeName::Asset { connector, .. } => connector.0@,
            NodeName::Policy { origin, .. } => origin.0@,
            NodeName::DefaultPolicy { origin, .. } => origin.0@,
            NodeName::Tag(_) => Seq::empty(),
            NodeName::PolicyAgent(_) => Seq::empty(),
        }
    }

    /// The namespace of the connector that owns the named entity.
    pub fn owning_connector(&self) -> (r: ConnectorNamespace)
        ensures
            r.0@ == self.owner_text(),
    {
        match self {
            NodeName::User(_) => ConnectorNamespace(String::new()),
            NodeName::Group { origin, .. } => origin.duplicate(),
            NodeName::Asset { connector, .. } => connector.duplicate(),
            NodeName::Policy { origin, .. } => origin.duplicate(),
            NodeName::DefaultPolicy { origin, .. } => origin.duplicate(),
            NodeName::Tag(_) => ConnectorNamespace(String::new()),
            NodeName::PolicyAgent(_) => ConnectorNamespace(String::new()),
        }
    }

    /// A short printable form of the name, for error reports.
    pub fn display_text(&self) -> (r: String) {
        match self {
            NodeName::User(s) => s.clone(),
            NodeName::Group { name, .. } => name.clone(),
            NodeName::Asset { path, .. } => {
                if path.len() > 0 {
                    path[path.len() - 1].clone()
                } else {
                    String::new()
                }
            },
            NodeName::Policy { name, .. } => name.clone(),
            NodeName::DefaultPolicy { wildcard_path, .. } => wildcard_path.clone(),
            NodeName::Tag(s) => s.clone(),
            NodeName::PolicyAgent(s) => s.clone(),
        }
    }

    /// A copy with the same key.
    pub fn duplicate(&self) -> (r: NodeName)
        ensures
            r.key() == self.key(),
    {
        match self {
            NodeName::User(s) => NodeName::User(s.clone()),
            NodeName::Group { name, origin } => NodeName::Group {
                name: name.clone(),
                origin: origin.duplicate(),
            },
            NodeName::Asset { connector, asset_type, path } => NodeName::Asset {
                connector: connector.duplicate(),
                asset_type: *asset_type,
                path: copy_string_vec(path),
            },
            NodeName::Policy { name, origin } => NodeName::Policy {
                name: name.clone(),
                origin: origin.duplicate(),
            },
            NodeName::DefaultPolicy { origin, root_path, wildcard_path, target_types } =>
                NodeName::DefaultPolicy {
                origin: origin.duplicate(),
                root_path: copy_string_vec(root_path),
                wildcard_path: wildcard_path.clone(),
                target_types: copy_types(target_types),
            },
            NodeName::Tag(s) => NodeName::Tag(s.clone()),
            NodeName::PolicyAgent(s) => NodeName::PolicyAgent(s.clone()),
        }
    }
}

/// An element-wise copy of a string vector; the copy holds the same
/// strings.
pub fn copy_string_vec(a: &Vec<String>) -> (r: Vec<String>)
    ensures
        r@ == a@,
{
    crate::util::copy_strings(a)
}

/// An element-wise copy of an asset-type vector.
pub fn copy_types(a: &Vec<AssetType>) -> (r: Vec<AssetType>)
    ensures
        r@ == a@,
{
    let mut r: Vec<AssetType> = Vec::new();
    for i in 0..a.len()
        invariant
            r@ =~= a@.take(i as int),
    {
        r.push(a[i]);
        proof {
            assert(r@ =~= a@.take(i + 1));
        }
    }
    proof {
        assert(a@.take(a.len() as int) =~= a@);
        assert(r@ =~= a@);
    }
    r
}

/// Exact equality of two asset-type vectors.
pub fn asset_types_eq(a: &Vec<AssetType>, b: &Vec<AssetType>) -> (r: bool)
    ensures
        r <==> a@ == b@,
{
    if a.len() != b.len() {
        assert(a@.len() != b@.len());
        return false;
    }
    for i in 0..a.len()
        invariant
            a.len() == b.len(),
            forall|j: int| 0 <= j < i ==> a@[j] == b@[j],
    {
        if a[i] != b[i] {
            return false;
        }
    }
    proof {
        assert(a@ =~= b@);
    }
    true
}

/// Does a sequence of user identifiers contain one with `x`'s content?
pub open spec fn seq_contains_id(s: Seq<UserIdentifier>, x: UserIdentifier) -> bool {
    exists|i: int| 0 <= i < s.len() && s[i].same_as(x)
}

/// No two identifiers in the sequence have the same content.
pub open spec fn ids_unique(s: Seq<UserIdentifier>) -> bool {
    forall|i: int, j: int| 0 <= i < j < s.len() ==> !s[i].same_as(s[j])
}

/// Does the vector hold an identifier with `x`'s content?
pub fn contains_id(v: &Vec<UserIdentifier>, x: &UserIdentifier) -> (r: bool)
    ensures
        r == seq_contains_id(v@, *x),
{
    for i in 0..v.len()
        invariant
            forall|j: int| 0 <= j < i ==> !v@[j].same_as(*x),
    {
        if v[i].same(x) {
            assert(v@[i as int].same_as(*x));
            return true;
        }
    }
    false
}

impl UserIdentifier {
    /// A copy with the same content.
    pub fn duplicate(&self) -> (r: UserIdentifier)
        ensures
            r == *self,
    {
        match self {
            UserIdentifier::FirstName(a) => UserIdentifier::FirstName(a.clone()),
            UserIdentifier::LastName(a) => UserIdentifier::LastName(a.clone()),
            UserIdentifier::FullName(a) => UserIdentifier::FullName(a.clone()),
            UserIdentifier::Email(a) => UserIdentifier::Email(a.clone()),
            UserIdentifier::PlatformID(a) => UserIdentifier::PlatformID(a.clone()),
        }
    }
}

/// An element-wise copy of an identifier vector.
pub fn copy_ids(a: &Vec<UserIdentifier>) -> (r: Vec<UserIdentifier>)
    ensures
        r@ == a@,
{
    let mut r: Vec<UserIdentifier> = Vec::new();
    for i in 0..a.len()
        invariant
            r@ =~= a@.take(i as int),
    {
        r.push(a[i].duplicate());
        proof {
            assert(r@ =~= a@.take(i + 1));
        }
    }
    proof {
        assert(a@.take(a.len() as int) =~= a@);
        assert(r@ =~= a@);
    }
    r
}

/// The union of two identifier sets, first operand's order first.
pub fn union_ids(a: &Vec<UserIdentifier>, b: &Vec<UserIdentifier>) -> (r: Vec<UserIdentifier>)
    requires
        ids_unique(a@),
    ensures
        ids_unique(r@),
        forall|x: UserIdentifier|
            #[trigger] seq_contains_id(r@, x) <==> (seq_contains_id(a@, x) || seq_contains_id(
                b@,
                x,
            )),
{
    let mut r = copy_ids(a);
    for i in 0..b.len()
        invariant
            ids_unique(r@),
            forall|x: UserIdentifier|
                #[trigger] seq_contains_id(r@, x) <==> (seq_contains_id(a@, x)
                    || seq_contains_id(b@.take(i as int), x)),
    {
        let ghost pre = r@;
        if !contains_id(&r, &b[i]) {
            r.push(b[i].duplicate());
        }
        proof {
            assert(b@.take(i + 1) =~= b@.take(i as int).push(b@[i as int]));
            lemma_contains_id_push(b@.take(i as int), b@[i as int]);
            if !seq_contains_id(pre, b@[i as int]) {
                lemma_contains_id_push(pre, b@[i as int]);
                assert(ids_unique(r@)) by {
                    assert(forall|j: int| 0 <= j < pre.len() ==> r@[j] == pre[j]);
                    assert(r@[pre.len() as int] == b@[i as int]);
                }
            } else {
                assert(r@ == pre);
            }
            assert forall|x: UserIdentifier|
                #[trigger] seq_contains_id(r@, x) <==> (seq_contains_id(a@, x)
                    || seq_contains_id(b@.take(i + 1), x)) by {
                lemma_id_same_as_equiv(b@[i as int], x);
            }
        }
    }
    proof {
        assert(b@.take(b.len() as int) =~= b@);
    }
    r
}

/// What appending one identifier does to content-containment.
pub proof fn lemma_contains_id_push(s: Seq<UserIdentifier>, x: UserIdentifier)
    ensures
        forall|t: UserIdentifier|
            #[trigger] seq_contains_id(s.push(x), t) <==> (seq_contains_id(s, t)
                || x.same_as(t)),
{
    assert forall|t: UserIdentifier|
        #[trigger] seq_contains_id(s.push(x), t) <==> (seq_contains_id(s, t) || x.same_as(
            t,
        )) by {
        if seq_contains_id(s.push(x), t) {
            let j = choose|j: int| 0 <= j < s.push(x).len() && s.push(x)[j].same_as(t);
            if j < s.len() {
                assert(s[j].same_as(t));
            }
        }
        if seq_contains_id(s, t) {
            let j = choose|j: int| 0 <= j < s.len() && s[j].same_as(t);
            assert(s.push(x)[j].same_as(t));
        }
        if x.same_as(t) {
            assert(s.push(x)[s.len() as int].same_as(t));
        }
    }
}

/// Content equality of identifiers is symmetric and transitive through a
/// shared witness.
pub proof fn lemma_id_same_as_equiv(a: UserIdentifier, b: UserIdentifier)
    ensures
        a.same_as(b) == b.same_as(a),
{
}

/// Point-wise content equality of two identifier sequences.
pub open spec fn ids_pointwise(a: Seq<UserIdentifier>, b: Seq<UserIdentifier>) -> bool {
    a.len() == b.len() && forall|i: int| 0 <= i < a.len() ==> (#[trigger] a[i]).same_as(b[i])
}

/// Exact equality of two identifier vectors, in order.
pub fn ids_eq(a: &Vec<UserIdentifier>, b: &Vec<UserIdentifier>) -> (r: bool)
    ensures
        r == ids_pointwise(a@, b@),
{
    if a.len() != b.len() {
        return false;
    }
    for i in 0..a.len()
        invariant
            a.len() == b.len(),
            forall|j: int| 0 <= j < i ==> (#[trigger] a@[j]).same_as(b@[j]),
    {
        if !(a[i].same(&b[i])) {
            return false;
        }
    }
    true
}

impl PartialEq for UserAttributes {
    fn eq(&self, other: &UserAttributes) -> (r: bool) {
        self.name == other.name && ids_eq(&self.identifiers, &other.identifiers)
            && crate::util::string_vec_eq(&self.other_identifiers, &other.other_identifiers)
            && crate::util::string_pairs_eq(&self.metadata, &other.metadata)
            && crate::util::string_vec_eq(&self.connectors, &other.connectors)
    }
}

impl vstd::std_specs::cmp::PartialEqSpecImpl for UserAttributes {
    open spec fn obeys_eq_spec() -> bool {
        true
    }

    open spec fn eq_spec(&self, other: &UserAttributes) -> bool {
        &&& self.name@ == other.name@
        &&& ids_pointwise(self.identifiers@, other.identifiers@)
        &&& self.other_identifiers.deep_view() == other.other_identifiers.deep_view()
        &&& self.metadata@.map_values(|p: (String, String)| (p.0@, p.1@))
            == other.metadata@.map_values(|p: (String, String)| (p.0@, p.1@))
        &&& self.connectors.deep_view() == other.connectors.deep_view()
    }
}

impl Eq for UserAttributes {}

impl PartialEq for GroupAttributes {
    fn eq(&self, other: &GroupAttributes) -> (r: bool) {
        self.name == other.name && self.origin.0 == other.origin.0
            && crate::util::string_pairs_eq(&self.metadata, &other.metadata)
            && crate::util::string_vec_eq(&self.connectors, &other.connectors)
    }
}

impl vstd::std_specs::cmp::PartialEqSpecImpl for GroupAttributes {
    open spec fn obeys_eq_spec() -> bool {
        true
    }

    open spec fn eq_spec(&self, other: &GroupAttributes) -> bool {
        &&& self.name@ == other.name@
        &&& self.origin.0@ == other.origin.0@
        &&& self.metadata@.map_values(|p: (String, String)| (p.0@, p.1@))
            == other.metadata@.map_values(|p: (String, String)| (p.0@, p.1@))
        &&& self.connectors.deep_view() == other.connectors.deep_view()
    }
}

impl Eq for GroupAttributes {}

impl PartialEq for AssetAttributes {
    fn eq(&self, other: &AssetAttributes) -> (r: bool) {
        self.cual.same(&other.cual) && self.connector.0 == other.connector.0 && self.asset_type
            == other.asset_type && crate::util::string_vec_eq(&self.path, &other.path)
            && crate::util::string_pairs_eq(&self.metadata, &other.metadata)
            && crate::util::string_vec_eq(&self.connectors, &other.connectors)
    }
}

impl vstd::std_specs::cmp::PartialEqSpecImpl for AssetAttributes {
    open spec fn obeys_eq_spec() -> bool {
        true
    }

    open spec fn eq_spec(&self, other: &AssetAttributes) -> bool {
        &&& self.cual.text() == other.cual.text()
        &&& self.connector.0@ == other.connector.0@
        &&& self.asset_type == other.asset_type
        &&& self.path.deep_view() == other.path.deep_view()
        &&& self.metadata@.map_values(|p: (String, String)| (p.0@, p.1@))
            == other.metadata@.map_values(|p: (String, String)| (p.0@, p.1@))
        &&& self.connectors.deep_view() == other.connectors.deep_view()
    }
}

impl Eq for AssetAttributes {}

impl PartialEq for PolicyAttributes {
    fn eq(&self, other: &PolicyAttributes) -> (r: bool) {
        self.name == other.name && self.origin.0 == other.origin.0
            && crate::util::string_vec_eq(&self.privileges, &other.privileges)
            && self.connector_managed == other.connector_managed
            && self.pass_through_hierarchy == other.pass_through_hierarchy
            && self.pass_through_lineage == other.pass_through_lineage
            && crate::util::string_pairs_eq(&self.metadata, &other.metadata)
            && crate::util::string_vec_eq(&self.connectors, &other.connectors)
    }
}

impl vstd::std_specs::cmp::PartialEqSpecImpl for PolicyAttributes {
    open spec fn obeys_eq_spec() -> bool {
        true
    }

    open spec fn eq_spec(&self, other: &PolicyAttributes) -> bool {
        &&& self.name@ == other.name@
        &&& self.origin.0@ == other.origin.0@
        &&& self.privileges.deep_view() == other.privileges.deep_view()
        &&& self.connector_managed == other.connector_managed
        &&& self.pass_through_hierarchy == other.pass_through_hierarchy
        &&& self.pass_through_lineage == other.pass_through_lineage
        &&& self.metadata@.map_values(|p: (String, String)| (p.0@, p.1@))
            == other.metadata@.map_values(|p: (String, String)| (p.0@, p.1@))
        &&& self.connectors.deep_view() == other.connectors.deep_view()
    }
}

impl Eq for PolicyAttributes {}

impl PartialEq for DefaultPolicyAttributes {
    fn eq(&self, other: &DefaultPolicyAttributes) -> (r: bool) {
        self.origin.0 == other.origin.0 && crate::util::string_vec_eq(
            &self.root_path,
            &other.root_path,
        ) && self.wildcard_path == other.wildcard_path && asset_types_eq(
            &self.target_types,
            &other.target_types,
        ) && crate::util::string_vec_eq(&self.privileges, &other.privileges)
            && self.connector_managed == other.connector_managed
            && crate::util::string_pairs_eq(&self.metadata, &other.metadata)
            && crate::util::string_vec_eq(&self.connectors, &other.connectors)
    }
}

impl vstd::std_specs::cmp::PartialEqSpecImpl for DefaultPolicyAttributes {
    open spec fn obeys_eq_spec() -> bool {
        true
    }

    open spec fn eq_spec(&self, other: &DefaultPolicyAttributes) -> bool {
        &&& self.origin.0@ == other.origin.0@
        &&& self.root_path.deep_view() == other.root_path.deep_view()
        &&& self.wildcard_path@ == other.wildcard_path@
        &&& self.target_types@ == other.target_types@
        &&& self.privileges.deep_view() == other.privileges.deep_view()
        &&& self.connector_managed == other.connector_managed
        &&& self.metadata@.map_values(|p: (String, String)| (p.0@, p.1@))
            == other.metadata@.map_values(|p: (String, String)| (p.0@, p.1@))
        &&& self.connectors.deep_view() == other.connectors.deep_view()
    }
}

impl Eq for DefaultPolicyAttributes {}

impl PartialEq for TagAttributes {
    fn eq(&self, other: &TagAttributes) -> (r: bool) {
        self.name == other.name && self.description == other.description
            && self.pass_through_hierarchy == other.pass_through_hierarchy
            && self.pass_through_lineage == other.pass_through_lineage
            && crate::util::string_vec_eq(&self.connectors, &other.connectors)
    }
}

impl vstd::std_specs::cmp::PartialEqSpecImpl for TagAttributes {
    open spec fn obeys_eq_spec() -> bool {
        true
    }

    open spec fn eq_spec(&self, other: &TagAttributes) -> bool {
        &&& self.name@ == other.name@
        &&& self.description@ == other.description@
        &&& self.pass_through_hierarchy == other.pass_through_hierarchy
        &&& self.pass_through_lineage == other.pass_through_lineage
        &&& self.connectors.deep_view() == other.connectors.deep_view()
    }
}

impl Eq for TagAttributes {}

impl PartialEq for PolicyAgentAttributes {
    fn eq(&self, other: &PolicyAgentAttributes) -> (r: bool) {
        self.name == other.name && crate::util::string_vec_eq(
            &self.connectors,
            &other.connectors,
        )
    }
}

impl vstd::std_specs::cmp::PartialEqSpecImpl for PolicyAgentAttributes {
    open spec fn obeys_eq_spec() -> bool {
        true
    }

    open spec fn eq_spec(&self, other: &PolicyAgentAttributes) -> bool {
        self.name@ == other.name@ && self.connectors.deep_view()
            == other.connectors.deep_view()
    }
}

impl Eq for PolicyAgentAttributes {}

impl PartialEq for JettyNode {
    fn eq(&self, other: &JettyNode) -> (r: bool) {
        match (self, other) {
            (JettyNode::Group(a), JettyNode::Group(b)) => *a == *b,
            (JettyNode::User(a), JettyNode::User(b)) => *a == *b,
            (JettyNode::Asset(a), JettyNode::Asset(b)) => *a == *b,
            (JettyNode::Policy(a), JettyNode::Policy(b)) => *a == *b,
            (JettyNode::DefaultPolicy(a), JettyNode::DefaultPolicy(b)) => *a == *b,
            (JettyNode::Tag(a), JettyNode::Tag(b)) => *a == *b,
            (JettyNode::PolicyAgent(a), JettyNode::PolicyAgent(b)) => *a == *b,
            _ => false,
        }
    }
}

impl vstd::std_specs::cmp::PartialEqSpecImpl for JettyNode {
    open spec fn obeys_eq_spec() -> bool {
        true
    }

    open spec fn eq_spec(&self, other: &JettyNode) -> bool {
        match (*self, *other) {
            (JettyNode::Group(a), JettyNode::Group(b)) => vstd::std_specs::cmp::PartialEqSpec::eq_spec(&a, &b),
            (JettyNode::User(a), JettyNode::User(b)) => vstd::std_specs::cmp::PartialEqSpec::eq_spec(&a, &b),
            (JettyNode::Asset(a), JettyNode::Asset(b)) => vstd::std_specs::cmp::PartialEqSpec::eq_spec(&a, &b),
            (JettyNode::Policy(a), JettyNode::Policy(b)) => vstd::std_specs::cmp::PartialEqSpec::eq_spec(&a, &b),
            (JettyNode::DefaultPolicy(a), JettyNode::DefaultPolicy(b)) => vstd::std_specs::cmp::PartialEqSpec::eq_spec(&a, &b),
            (JettyNode::Tag(a), JettyNode::Tag(b)) => vstd::std_specs::cmp::PartialEqSpec::eq_spec(&a, &b),
            (JettyNode::PolicyAgent(a), JettyNode::PolicyAgent(b)) => vstd::std_specs::cmp::PartialEqSpec::eq_spec(&a, &b),
            _ => false,
        }
    }
}

impl Eq for JettyNode {}

/// Merge two metadata maps key-wise: equal values merge, a missing key is
/// taken from the other side, and conflicting values refuse to merge.
pub fn merge_metadata(a: &Vec<(String, String)>, b: &Vec<(String, String)>) -> (r: Result<
    Vec<(String, String)>,
    MergeConflict,
>)
    requires
        assoc_unique(a@),
        assoc_unique(b@),
    ensures
        match r {
            Ok(m) => crate::util::metadata_merged(a@, b@, m@) && crate::util::metadata_compatible(
                a@,
                b@,
            ),
            Err(_) => !crate::util::metadata_compatible(a@, b@),
        },
{
    let mut m = crate::util::copy_pairs(a);
    for i in 0..b.len()
        invariant
            assoc_unique(a@),
            assoc_unique(b@),
            assoc_unique(m@),
            forall|k: Seq<char>|
                #[trigger] assoc_has(m@, k) <==> (assoc_has(a@, k) || assoc_has(
                    b@.take(i as int),
                    k,
                )),
            forall|k: Seq<char>|
                assoc_has(a@, k) ==> #[trigger] assoc_get(m@, k) == assoc_get(a@, k),
            forall|k: Seq<char>|
                !assoc_has(a@, k) && assoc_has(b@.take(i as int), k) ==> #[trigger] assoc_get(
                    m@,
                    k,
                ) == assoc_get(b@, k),
            forall|k: Seq<char>|
                assoc_has(a@, k) && assoc_has(b@.take(i as int), k) ==> #[trigger] assoc_get(
                    a@,
                    k,
                ) == assoc_get(b@, k),
    {
        let ghost bt = b@.take(i as int);
        proof {
            assert(b@.take(i + 1) =~= bt.push(b@[i as int]));
            crate::util::lemma_assoc_push(bt, b@[i as int]);
            assert(forall|j: int| 0 <= j < i ==> bt[j] == b@[j]);
            assert(!assoc_has(bt, b@[i as int].0@)) by {
                if assoc_has(bt, b@[i as int].0@) {
                    let j = choose|j: int| 0 <= j < bt.len() && bt[j].0@ == b@[i as int].0@;
                    assert(b@[j].0@ == b@[i as int].0@);
                }
            }
            crate::util::lemma_assoc_get_first(b@, b@[i as int].0@, i as int);
        }
        match crate::util::assoc_lookup(a, &b[i].0) {
            Some(v) => {
                if !(v == b[i].1) {
                    return Err(
                        MergeConflict {
                            detail: b[i].0.clone(),
                        },
                    );
                }
            },
            None => {
                let ghost pre = m@;
                m.push((b[i].0.clone(), b[i].1.clone()));
                proof {
                    assert(m@ =~= pre.push((b@[i as int].0, b@[i as int].1)));
                    assert(m@.last() == b@[i as int]);
                    assert(m@ =~= pre.push(b@[i as int]));
                    crate::util::lemma_assoc_push(pre, b@[i as int]);
                    crate::util::lemma_assoc_push_unique(pre, b@[i as int]);
                }
            },
        }
    }
    proof {
        assert(b@.take(b.len() as int) =~= b@);
    }
    Ok(m)
}

/// `m` is the content-union of identifier sets `a` and `b`.
pub open spec fn idset_merged(
    a: Seq<UserIdentifier>,
    b: Seq<UserIdentifier>,
    m: Seq<UserIdentifier>,
) -> bool {
    &&& ids_unique(m)
    &&& forall|x: UserIdentifier|
        #[trigger] seq_contains_id(m, x) <==> (seq_contains_id(a, x) || seq_contains_id(b, x))
}

/// Attributes associated with a user node.
#[derive(Clone, Debug)]
pub struct UserAttributes {
    /// The unifying user name.
    pub name: String,
    /// Typed identifiers observed for this user.
    pub identifiers: Vec<UserIdentifier>,
    /// Other names the user is known by.
    pub other_identifiers: Vec<String>,
    /// Metadata, one entry per key.
    pub metadata: Vec<(String, String)>,
    /// The connector namespaces the user was seen in.
    pub connectors: Vec<String>,
}

/// Attributes associated with a group node.
#[derive(Clone, Debug)]
pub struct GroupAttributes {
    /// The group name.
    pub name: String,
    /// The connector namespace the group belongs to.
    pub origin: ConnectorNamespace,
    /// Metadata, one entry per key.
    pub metadata: Vec<(String, String)>,
    /// The connector namespaces the group was seen in.
    pub connectors: Vec<String>,
}

/// Attributes associated with an asset node.
#[derive(Clone, Debug)]
pub struct AssetAttributes {
    /// The canonical locator.
    pub cual: crate::cual::Cual,
    /// The connector namespace that owns the asset.
    pub connector: ConnectorNamespace,
    /// The asset type.
    pub asset_type: AssetType,
    /// The container hierarchy, outermost first.
    pub path: Vec<String>,
    /// Metadata, one entry per key.
    pub metadata: Vec<(String, String)>,
    /// The connector namespaces the asset was seen in.
    pub connectors: Vec<String>,
}

/// Attributes associated with a policy node.
#[derive(Clone, Debug)]
pub struct PolicyAttributes {
    /// The policy name.
    pub name: String,
    /// The connector namespace the policy came from.
    pub origin: ConnectorNamespace,
    /// The privileges the policy grants.
    pub privileges: Vec<String>,
    /// Whether the apply path may write this policy.
    pub connector_managed: bool,
    /// Whether the policy passes through the asset hierarchy.
    pub pass_through_hierarchy: bool,
    /// Whether the policy passes through lineage.
    pub pass_through_lineage: bool,
    /// Metadata, one entry per key.
    pub metadata: Vec<(String, String)>,
    /// The connector namespaces the policy was seen in.
    pub connectors: Vec<String>,
}

/// Attributes associated with a default-policy node.
#[derive(Clone, Debug)]
pub struct DefaultPolicyAttributes {
    /// The connector namespace the policy came from.
    pub origin: ConnectorNamespace,
    /// The container path of the anchor asset.
    pub root_path: Vec<String>,
    /// The wildcard path below the anchor.
    pub wildcard_path: String,
    /// The asset types the policy targets.
    pub target_types: Vec<AssetType>,
    /// The privileges the policy grants.
    pub privileges: Vec<String>,
    /// Whether the apply path may write this policy.
    pub connector_managed: bool,
    /// Metadata, one entry per key.
    pub metadata: Vec<(String, String)>,
    /// The connector namespaces the policy was seen in.
    pub connectors: Vec<String>,
}

/// Attributes associated with a tag node.
#[derive(Clone, Debug)]
pub struct TagAttributes {
    /// The tag name.
    pub name: String,
    /// Free-text description.
    pub description: String,
    /// Whether the tag passes through the asset hierarchy.
    pub pass_through_hierarchy: bool,
    /// Whether the tag passes through lineage.
    pub pass_through_lineage: bool,
    /// The connector namespaces the tag was seen in.
    pub connectors: Vec<String>,
}

/// Attributes associated with a synthetic policy-agent node.
#[derive(Clone, Debug)]
pub struct PolicyAgentAttributes {
    /// The synthesized agent name.
    pub name: String,
    /// The connector namespaces the agent's policy was seen in.
    pub connectors: Vec<String>,
}

/// Enum of node types.
#[derive(Clone, Debug)]
pub enum JettyNode {
    /// A group node.
    Group(GroupAttributes),
    /// A user node.
    User(UserAttributes),
    /// An asset node.
    Asset(AssetAttributes),
    /// A policy node.
    Policy(PolicyAttributes),
    /// A default-policy node.
    DefaultPolicy(DefaultPolicyAttributes),
    /// A tag node.
    Tag(TagAttributes),
    /// A policy-agent node.
    PolicyAgent(PolicyAgentAttributes),
}

impl JettyNode {
    /// Set- and map-typed fields hold no duplicates.
    pub open spec fn wf(self) -> bool {
        match self {
            JettyNode::Group(a) => assoc_unique(a.metadata@) && strs_unique(
                a.connectors.deep_view(),
            ),
            JettyNode::User(a) => ids_unique(a.identifiers@) && strs_unique(
                a.other_identifiers.deep_view(),
            ) && assoc_unique(a.metadata@) && strs_unique(a.connectors.deep_view()),
            JettyNode::Asset(a) => assoc_unique(a.metadata@) && strs_unique(
                a.connectors.deep_view(),
            ),
            JettyNode::Policy(a) => strs_unique(a.privileges.deep_view()) && assoc_unique(
                a.metadata@,
            ) && strs_unique(a.connectors.deep_view()),
            JettyNode::DefaultPolicy(a) => strs_unique(a.privileges.deep_view()) && assoc_unique(
                a.metadata@,
            ) && strs_unique(a.connectors.deep_view()),
            JettyNode::Tag(a) => strs_unique(a.connectors.deep_view()),
            JettyNode::PolicyAgent(a) => strs_unique(a.connectors.deep_view()),
        }
    }

    /// The key of the name `get_name` returns.
    pub open spec fn name_key(self) -> NodeKey {
        match self {
            JettyNode::Group(a) => NodeKey::Group { name: a.name@, origin: a.origin.0@ },
            JettyNode::User(a) => NodeKey::User(a.name@),
            JettyNode::Asset(a) => NodeKey::Asset {
                connector: a.connector.0@,
                asset_type: a.asset_type,
                path: a.path.deep_view(),
            },
            JettyNode::Policy(a) => NodeKey::Policy { name: a.name@, origin: a.origin.0@ },
            JettyNode::DefaultPolicy(a) => NodeKey::DefaultPolicy {
                origin: a.origin.0@,
                root_path: a.root_path.deep_view(),
                wildcard_path: a.wildcard_path@,
                target_types: a.target_types@,
            },
            JettyNode::Tag(a) => NodeKey::Tag(a.name@),
            JettyNode::PolicyAgent(a) => NodeKey::PolicyAgent(a.name@),
        }
    }

    /// Get the name of the node.
    pub fn get_name(&self) -> (r: NodeName)
        ensures
            r.key() == self.name_key(),
    {
        match self {
            JettyNode::Group(a) => NodeName::Group {
                name: a.name.clone(),
                origin: a.origin.duplicate(),
            },
            JettyNode::User(a) => NodeName::User(a.name.clone()),
            JettyNode::Asset(a) => NodeName::Asset {
                connector: a.connector.duplicate(),
                asset_type: a.asset_type,
                path: copy_string_vec(&a.path),
            },
            JettyNode::Policy(a) => NodeName::Policy {
                name: a.name.clone(),
                origin: a.origin.duplicate(),
            },
            JettyNode::DefaultPolicy(a) => NodeName::DefaultPolicy {
                origin: a.origin.duplicate(),
                root_path: copy_string_vec(&a.root_path),
                wildcard_path: a.wildcard_path.clone(),
                target_types: copy_types(&a.target_types),
            },
            JettyNode::Tag(a) => NodeName::Tag(a.name.clone()),
            JettyNode::PolicyAgent(a) => NodeName::PolicyAgent(a.name.clone()),
        }
    }

    /// Whether two nodes may merge: the variant and every
    /// invariant-preserving scalar agree, and the metadata maps do not
    /// conflict.
    pub open spec fn merge_ok(self, o: JettyNode) -> bool {
        match (self, o) {
            (JettyNode::Group(a), JettyNode::Group(b)) => a.name@ == b.name@ && a.origin.0@
                == b.origin.0@ && crate::util::metadata_compatible(a.metadata@, b.metadata@),
            (JettyNode::User(a), JettyNode::User(b)) => a.name@ == b.name@
                && crate::util::metadata_compatible(a.metadata@, b.metadata@),
            (JettyNode::Asset(a), JettyNode::Asset(b)) => a.cual.text() == b.cual.text()
                && a.connector.0@ == b.connector.0@ && a.asset_type == b.asset_type
                && a.path.deep_view() == b.path.deep_view() && crate::util::metadata_compatible(
                a.metadata@,
                b.metadata@,
            ),
            (JettyNode::Policy(a), JettyNode::Policy(b)) => a.name@ == b.name@ && a.origin.0@
                == b.origin.0@ && a.connector_managed == b.connector_managed
                && a.pass_through_hierarchy == b.pass_through_hierarchy
                && a.pass_through_lineage == b.pass_through_lineage
                && crate::util::metadata_compatible(a.metadata@, b.metadata@),
            (JettyNode::DefaultPolicy(a), JettyNode::DefaultPolicy(b)) => a.origin.0@
                == b.origin.0@ && a.root_path.deep_view() == b.root_path.deep_view()
                && a.wildcard_path@ == b.wildcard_path@ && a.target_types@ == b.target_types@
                && a.connector_managed == b.connector_managed
                && crate::util::metadata_compatible(a.metadata@, b.metadata@),
            (JettyNode::Tag(a), JettyNode::Tag(b)) => a.name@ == b.name@ && a.description@
                == b.description@ && a.pass_through_hierarchy == b.pass_through_hierarchy
                && a.pass_through_lineage == b.pass_through_lineage,
            (JettyNode::PolicyAgent(a), JettyNode::PolicyAgent(b)) => a.name@ == b.name@,
            _ => false,
        }
    }

    /// `m` is the merge of `self` and `o`: scalars are kept, set-typed
    /// fields are unioned, metadata is merged key-wise.
    pub open spec fn is_merge(self, o: JettyNode, m: JettyNode) -> bool {
        match (self, o) {
            (JettyNode::Group(a), JettyNode::Group(b)) => m matches JettyNode::Group(g)
                && g.name@ == a.name@ && g.origin.0@ == a.origin.0@
                && crate::util::metadata_merged(a.metadata@, b.metadata@, g.metadata@)
                && crate::util::strset_merged(
                a.connectors.deep_view(),
                b.connectors.deep_view(),
                g.connectors.deep_view(),
            ),
            (JettyNode::User(a), JettyNode::User(b)) => m matches JettyNode::User(u) && u.name@
                == a.name@ && idset_merged(a.identifiers@, b.identifiers@, u.identifiers@)
                && crate::util::strset_merged(
                a.other_identifiers.deep_view(),
                b.other_identifiers.deep_view(),
                u.other_identifiers.deep_view(),
            ) && crate::util::metadata_merged(a.metadata@, b.metadata@, u.metadata@)
                && crate::util::strset_merged(
                a.connectors.deep_view(),
                b.connectors.deep_view(),
                u.connectors.deep_view(),
            ),
            (JettyNode::Asset(a), JettyNode::Asset(b)) => m matches JettyNode::Asset(x)
                && x.cual.text() == a.cual.text() && x.connector.0@ == a.connector.0@
                && x.asset_type == a.asset_type && x.path.deep_view() == a.path.deep_view()
                && crate::util::metadata_merged(a.metadata@, b.metadata@, x.metadata@)
                && crate::util::strset_merged(
                a.connectors.deep_view(),
                b.connectors.deep_view(),
                x.connectors.deep_view(),
            ),
            (JettyNode::Policy(a), JettyNode::Policy(b)) => m matches JettyNode::Policy(p)
                && p.name@ == a.name@ && p.origin.0@ == a.origin.0@ && p.connector_managed
                == a.connector_managed && p.pass_through_hierarchy == a.pass_through_hierarchy
                && p.pass_through_lineage == a.pass_through_lineage
                && crate::util::strset_merged(
                a.privileges.deep_view(),
                b.privileges.deep_view(),
                p.privileges.deep_view(),
            ) && crate::util::metadata_merged(a.metadata@, b.metadata@, p.metadata@)
                && crate::util::strset_merged(
                a.connectors.deep_view(),
                b.connectors.deep_view(),
                p.connectors.deep_view(),
            ),
            (JettyNode::DefaultPolicy(a), JettyNode::DefaultPolicy(b)) => m matches
                JettyNode::DefaultPolicy(p) && p.origin.0@ == a.origin.0@
                && p.root_path.deep_view() == a.root_path.deep_view() && p.wildcard_path@
                == a.wildcard_path@ && p.target_types@ == a.target_types@ && p.connector_managed
                == a.connector_managed && crate::util::strset_merged(
                a.privileges.deep_view(),
                b.privileges.deep_view(),
                p.privileges.deep_view(),
            ) && crate::util::metadata_merged(a.metadata@, b.metadata@, p.metadata@)
                && crate::util::strset_merged(
                a.connectors.deep_view(),
                b.connectors.deep_view(),
                p.connectors.deep_view(),
            ),
            (JettyNode::Tag(a), JettyNode::Tag(b)) => m matches JettyNode::Tag(t) && t.name@
                == a.name@ && t.description@ == a.description@ && t.pass_through_hierarchy
                == a.pass_through_hierarchy && t.pass_through_lineage == a.pass_through_lineage
                && crate::util::strset_merged(
                a.connectors.deep_view(),
                b.connectors.deep_view(),
                t.connectors.deep_view(),
            ),
            (JettyNode::PolicyAgent(a), JettyNode::PolicyAgent(b)) => m matches
                JettyNode::PolicyAgent(p) && p.name@ == a.name@ && crate::util::strset_merged(
                a.connectors.deep_view(),
                b.connectors.deep_view(),
                p.connectors.deep_view(),
            ),
            _ => false,
        }
    }

    /// Merge another node's attributes into this node's. Set-typed fields
    /// union, metadata merges key-wise, and any disagreement on a scalar
    /// or a metadata value refuses to merge; so does a variant mismatch.
    pub fn merge_nodes(&self, new: &JettyNode) -> (r: Result<JettyNode, MergeConflict>)
        requires
            self.wf(),
            new.wf(),
        ensures
            match r {
                Ok(m) => self.merge_ok(*new) && self.is_merge(*new, m) && m.wf()
                    && m.name_key() == self.name_key(),
                Err(_) => !self.merge_ok(*new),
            },
    {
        match (self, new) {
            (JettyNode::Group(a), JettyNode::Group(b)) => {
                if !(a.name == b.name && a.origin.0 == b.origin.0) {
                    return Err(MergeConflict { detail: a.name.clone() });
                }
                let metadata = match merge_metadata(&a.metadata, &b.metadata) {
                    Ok(m) => m,
                    Err(e) => {
                        return Err(e);
                    },
                };
                Ok(
                    JettyNode::Group(
                        GroupAttributes {
                            name: a.name.clone(),
                            origin: a.origin.duplicate(),
                            metadata,
                            connectors: crate::util::union_unique(&a.connectors, &b.connectors),
                        },
                    ),
                )
            },
            (JettyNode::User(a), JettyNode::User(b)) => {
                if !(a.name == b.name) {
                    return Err(MergeConflict { detail: a.name.clone() });
                }
                let metadata = match merge_metadata(&a.metadata, &b.metadata) {
                    Ok(m) => m,
                    Err(e) => {
                        return Err(e);
                    },
                };
                Ok(
                    JettyNode::User(
                        UserAttributes {
                            name: a.name.clone(),
                            identifiers: union_ids(&a.identifiers, &b.identifiers),
                            other_identifiers: crate::util::union_unique(
                                &a.other_identifiers,
                                &b.other_identifiers,
                            ),
                            metadata,
                            connectors: crate::util::union_unique(&a.connectors, &b.connectors),
                        },
                    ),
                )
            },
            (JettyNode::Asset(a), JettyNode::Asset(b)) => {
                if !(a.cual.same(&b.cual) && a.connector.0 == b.connector.0 && a.asset_type
                    == b.asset_type && crate::util::string_vec_eq(&a.path, &b.path)) {
                    return Err(MergeConflict { detail: a.cual.uri() });
                }
                let metadata = match merge_metadata(&a.metadata, &b.metadata) {
                    Ok(m) => m,
                    Err(e) => {
                        return Err(e);
                    },
                };
                Ok(
                    JettyNode::Asset(
                        AssetAttributes {
                            cual: a.cual.duplicate(),
                            connector: a.connector.duplicate(),
                            asset_type: a.asset_type,
                            path: copy_string_vec(&a.path),
                            metadata,
                            connectors: crate::util::union_unique(&a.connectors, &b.connectors),
                        },
                    ),
                )
            },
            (JettyNode::Policy(a), JettyNode::Policy(b)) => {
                if !(a.name == b.name && a.origin.0 == b.origin.0 && a.connector_managed
                    == b.connector_managed && a.pass_through_hierarchy == b.pass_through_hierarchy
                    && a.pass_through_lineage == b.pass_through_lineage) {
                    return Err(MergeConflict { detail: a.name.clone() });
                }
                let metadata = match merge_metadata(&a.metadata, &b.metadata) {
                    Ok(m) => m,
                    Err(e) => {
                        return Err(e);
                    },
                };
                Ok(
                    JettyNode::Policy(
                        PolicyAttributes {
                            name: a.name.clone(),
                            origin: a.origin.duplicate(),
                            privileges: crate::util::union_unique(&a.privileges, &b.privileges),
                            connector_managed: a.connector_managed,
                            pass_through_hierarchy: a.pass_through_hierarchy,
                            pass_through_lineage: a.pass_through_lineage,
                            metadata,
                            connectors: crate::util::union_unique(&a.connectors, &b.connectors),
                        },
                    ),
                )
            },
            (JettyNode::DefaultPolicy(a), JettyNode::DefaultPolicy(b)) => {
                if !(a.origin.0 == b.origin.0 && crate::util::string_vec_eq(
                    &a.root_path,
                    &b.root_path,
                ) && a.wildcard_path == b.wildcard_path && asset_types_eq(
                    &a.target_types,
                    &b.target_types,
                ) && a.connector_managed == b.connector_managed) {
                    return Err(MergeConflict { detail: a.wildcard_path.clone() });
                }
                let metadata = match merge_metadata(&a.metadata, &b.metadata) {
                    Ok(m) => m,
                    Err(e) => {
                        return Err(e);
                    },
                };
                Ok(
                    JettyNode::DefaultPolicy(
                        DefaultPolicyAttributes {
                            origin: a.origin.duplicate(),
                            root_path: copy_string_vec(&a.root_path),
                            wildcard_path: a.wildcard_path.clone(),
                            target_types: copy_types(&a.target_types),
                            privileges: crate::util::union_unique(&a.privileges, &b.privileges),
                            connector_managed: a.connector_managed,
                            metadata,
                            connectors: crate::util::union_unique(&a.connectors, &b.connectors),
                        },
                    ),
                )
            },
            (JettyNode::Tag(a), JettyNode::Tag(b)) => {
                if !(a.name == b.name && a.description == b.description
                    && a.pass_through_hierarchy == b.pass_through_hierarchy
                    && a.pass_through_lineage == b.pass_through_lineage) {
                    return Err(MergeConflict { detail: a.name.clone() });
                }
                Ok(
                    JettyNode::Tag(
                        TagAttributes {
                            name: a.name.clone(),
                            description: a.description.clone(),
                            pass_through_hierarchy: a.pass_through_hierarchy,
                            pass_through_lineage: a.pass_through_lineage,
                            connectors: crate::util::union_unique(&a.connectors, &b.connectors),
                        },
                    ),
                )
            },
            (JettyNode::PolicyAgent(a), JettyNode::PolicyAgent(b)) => {
                if !(a.name == b.name) {
                    return Err(MergeConflict { detail: a.name.clone() });
                }
                Ok(
                    JettyNode::PolicyAgent(
                        PolicyAgentAttributes {
                            name: a.name.clone(),
                            connectors: crate::util::union_unique(&a.connectors, &b.connectors),
                        },
                    ),
                )
            },
            _ => {
                Err(MergeConflict { detail: String::new() })
            },
        }
    }
}

/// The published access graph: the store, and the translator built
/// alongside it. Once built it is only read.
#[derive(Clone, Debug)]
pub struct AccessGraph {
    /// The graph store.
    pub graph: graph::Graph,
    /// Local-to-global name maps, one per connector.
    pub translator: crate::translate::Translator,
}

impl AccessGraph {
    /// The structural invariants: a well-formed store in which every
    /// edge has its symmetric inverse, and a well-formed translator.
    pub open spec fn wf(self) -> bool {
        &&& self.graph.wf()
        &&& self.graph.symmetric()
        &&& self.translator.wf()
    }

    /// An empty graph.
    pub fn new() -> (r: AccessGraph)
        ensures
            r.wf(),
            r.graph.nodes@.len() == 0,
            r.graph.edges@.len() == 0,
            r.translator.maps@.len() == 0,
    {
        AccessGraph {
            graph: graph::Graph::new(),
            translator: crate::translate::Translator::new(),
        }
    }

    /// Build the graph from what the connectors returned, in input
    /// order: first every node, then every edge, each edge together with
    /// its inverse. The build refuses to merge nodes that disagree, and
    /// refuses an edge whose endpoint no connector produced.
    ///
    /// On success the result keeps the two graph invariants (one node
    /// per name, and an inverse for every edge), holds a node for every
    /// entity any connector reported, holds the membership, grant and
    /// governance edges the data derives, and the translator records
    /// every connector-local name under that connector's map.
    pub fn new_from_connector_data(
        data: Vec<(crate::connectors::nodes::ConnectorData, ConnectorNamespace)>,
    ) -> (r: Result<AccessGraph, crate::errors::BuildError>)
        requires
            forall|i: int, j: int|
                0 <= i < j < data@.len() ==> (#[trigger] data@[i]).1.0@ != (
                #[trigger] data@[j]).1.0@,
        ensures
            match r {
                Ok(ag) => {
                    &&& ag.wf()
                    &&& forall|ci: int|
                        0 <= ci < data@.len() ==> nodes_present(
                            ag.graph,
                            (#[trigger] data@[ci]).0,
                            data@[ci].1.0@,
                        )
                    &&& forall|ci: int|
                        0 <= ci < data@.len() ==> translator_covers(
                            ag.translator,
                            (#[trigger] data@[ci]).0,
                            data@[ci].1.0@,
                        )
                    &&& forall|ci: int|
                        0 <= ci < data@.len() ==> edges_present(
                            ag.graph,
                            (#[trigger] data@[ci]).0,
                            data@[ci].1.0@,
                        )
                },
                Err(_) => true,
            },
    {
        let mut ag = AccessGraph::new();
        // first pass: nodes, and the translator map of each connector
        for ci in 0..data.len()
            invariant
                ag.wf(),
                forall|i: int, j: int|
                    0 <= i < j < data@.len() ==> (#[trigger] data@[i]).1.0@ != (
                    #[trigger] data@[j]).1.0@,
                ag.translator.maps@.len() == ci,
                forall|mi: int|
                    0 <= mi < ci ==> (#[trigger] ag.translator.maps@[mi]).connector.0@
                        == data@[mi].1.0@,
                forall|cj: int|
                    0 <= cj < ci ==> nodes_present(
                        ag.graph,
                        (#[trigger] data@[cj]).0,
                        data@[cj].1.0@,
                    ),
                forall|cj: int|
                    0 <= cj < ci ==> translator_covers(
                        ag.translator,
                        (#[trigger] data@[cj]).0,
                        data@[cj].1.0@,
                    ),
        {
            proof {
                assert forall|mi: int|
                    0 <= mi < ag.translator.maps@.len() implies (
                #[trigger] ag.translator.maps@[mi]).connector.0@ != data@[ci as int].1.0@ by {
                    assert(ag.translator.maps@[mi].connector.0@ == data@[mi].1.0@);
                }
            }
            let ghost pre = ag;
            match add_connector_nodes(&mut ag, &data[ci].0, &data[ci].1) {
                Err(e) => {
                    return Err(e);
                },
                Ok(_) => {},
            }
            proof {
                assert forall|cj: int| 0 <= cj < ci implies nodes_present(
                    ag.graph,
                    (#[trigger] data@[cj]).0,
                    data@[cj].1.0@,
                ) by {
                    assert(nodes_present(pre.graph, data@[cj].0, data@[cj].1.0@));
                }
                assert forall|cj: int| 0 <= cj < ci implies translator_covers(
                    ag.translator,
                    (#[trigger] data@[cj]).0,
                    data@[cj].1.0@,
                ) by {
                    assert(translator_covers(pre.translator, data@[cj].0, data@[cj].1.0@));
                    let mi = choose|mi: int|
                        {
                            &&& 0 <= mi < pre.translator.maps@.len()
                            &&& (#[trigger] pre.translator.maps@[mi]).connector.0@
                                == data@[cj].1.0@
                            &&& map_covers(pre.translator.maps@[mi], data@[cj].0)
                        };
                    assert(ag.translator.maps@[mi] == pre.translator.maps@[mi]);
                }
                assert(translator_covers(ag.translator, data@[ci as int].0, data@[ci as int].1.0@)) by {
                    let mi = ag.translator.maps@.len() - 1;
                    assert(ag.translator.maps@[mi] == ag.translator.maps@.last());
                }
            }
        }
        // second pass: edges, each added with its inverse
        for ci in 0..data.len()
            invariant
                ag.wf(),
                forall|cj: int|
                    0 <= cj < data@.len() ==> nodes_present(
                        ag.graph,
                        (#[trigger] data@[cj]).0,
                        data@[cj].1.0@,
                    ),
                forall|cj: int|
                    0 <= cj < data@.len() ==> translator_covers(
                        ag.translator,
                        (#[trigger] data@[cj]).0,
                        data@[cj].1.0@,
                    ),
                forall|cj: int|
                    0 <= cj < ci ==> edges_present(
                        ag.graph,
                        (#[trigger] data@[cj]).0,
                        data@[cj].1.0@,
                    ),
        {
            let ghost pre = ag;
            match add_connector_edges(&mut ag, &data[ci].0, &data[ci].1) {
                Err(e) => {
                    return Err(e);
                },
                Ok(_) => {},
            }
            proof {
                graph::lemma_has_edge_mono(pre.graph, ag.graph);
                assert forall|cj: int| 0 <= cj < data@.len() implies nodes_present(
                    ag.graph,
                    (#[trigger] data@[cj]).0,
                    data@[cj].1.0@,
                ) by {
                    assert(nodes_present(pre.graph, data@[cj].0, data@[cj].1.0@));
                }
                assert forall|cj: int| 0 <= cj < ci implies edges_present(
                    ag.graph,
                    (#[trigger] data@[cj]).0,
                    data@[cj].1.0@,
                ) by {
                    assert(edges_present(pre.graph, data@[cj].0, data@[cj].1.0@));
                    lemma_governs_preserved(
                        pre.graph,
                        ag.graph,
                        data@[cj].0,
                        data@[cj].1.0@,
                        data@[cj].0.policies@.len() as int,
                    );
                }
            }
        }
        Ok(ag)
    }
}

/// Every entity one connector reported has its node in the graph, under
/// the key the build derives for it.
pub open spec fn nodes_present(
    g: graph::Graph,
    cd: crate::connectors::nodes::ConnectorData,
    ns: Seq<char>,
) -> bool {
    &&& forall|i: int|
        0 <= i < cd.groups@.len() ==> g.has_key(
            NodeKey::Group { name: (#[trigger] cd.groups@[i]).name@, origin: ns },
        )
    &&& forall|i: int|
        0 <= i < cd.users@.len() ==> g.has_key(NodeKey::User((#[trigger] cd.users@[i]).name@))
    &&& forall|i: int|
        0 <= i < cd.assets@.len() ==> g.has_key(
            NodeKey::Asset {
                connector: ns,
                asset_type: (#[trigger] cd.assets@[i]).asset_type,
                path: seq![cd.assets@[i].name@],
            },
        )
    &&& forall|i: int|
        0 <= i < cd.policies@.len() ==> g.has_key(
            NodeKey::Policy { name: (#[trigger] cd.policies@[i]).name@, origin: ns },
        ) && g.has_key(NodeKey::PolicyAgent(cd.policies@[i].name@))
    &&& forall|i: int|
        0 <= i < cd.tags@.len() ==> g.has_key(NodeKey::Tag((#[trigger] cd.tags@[i]).name@))
}

/// One translator map records every local name of the connector's data:
/// its group names, user names, and asset locators.
pub open spec fn map_covers(
    m: crate::translate::ConnectorMap,
    cd: crate::connectors::nodes::ConnectorData,
) -> bool {
    &&& forall|i: int|
        0 <= i < cd.groups@.len() ==> crate::translate::tl_has_local(
            m.entries@,
            (#[trigger] cd.groups@[i]).name@,
        )
    &&& forall|i: int|
        0 <= i < cd.users@.len() ==> crate::translate::tl_has_local(
            m.entries@,
            (#[trigger] cd.users@[i]).name@,
        )
    &&& forall|i: int|
        0 <= i < cd.assets@.len() ==> crate::translate::tl_has_local(
            m.entries@,
            (#[trigger] cd.assets@[i]).name@,
        )
}

/// The translator holds a map for the connector that records each of its
/// local names.
pub open spec fn translator_covers(
    t: crate::translate::Translator,
    cd: crate::connectors::nodes::ConnectorData,
    ns: Seq<char>,
) -> bool {
    exists|mi: int|
        {
            &&& 0 <= mi < t.maps@.len()
            &&& (#[trigger] t.maps@[mi]).connector.0@ == ns
            &&& map_covers(t.maps@[mi], cd)
        }
}

/// The membership, grant and governance edges one connector's data
/// derives are all present in the graph.
pub open spec fn edges_present(
    g: graph::Graph,
    cd: crate::connectors::nodes::ConnectorData,
    ns: Seq<char>,
) -> bool {
    &&& forall|i: int, j: int|
        0 <= i < cd.groups@.len() && 0 <= j < (#[trigger] cd.groups@[i]).member_of@.len()
            ==> g.has_edge(
            NodeKey::Group { name: cd.groups@[i].name@, origin: ns },
            NodeKey::Group { name: (#[trigger] cd.groups@[i].member_of@[j])@, origin: ns },
            EdgeType::MemberOf,
        )
    &&& forall|i: int, j: int|
        0 <= i < cd.groups@.len() && 0 <= j < (#[trigger] cd.groups@[i]).includes_users@.len()
            ==> g.has_edge(
            NodeKey::Group { name: cd.groups@[i].name@, origin: ns },
            NodeKey::User((#[trigger] cd.groups@[i].includes_users@[j])@),
            EdgeType::Includes,
        )
    &&& forall|i: int, j: int|
        0 <= i < cd.users@.len() && 0 <= j < (#[trigger] cd.users@[i]).member_of@.len()
            ==> g.has_edge(
            NodeKey::User(cd.users@[i].name@),
            NodeKey::Group { name: (#[trigger] cd.users@[i].member_of@[j])@, origin: ns },
            EdgeType::MemberOf,
        )
    &&& forall|i: int|
        0 <= i < cd.policies@.len() ==> g.has_edge(
            NodeKey::Policy { name: (#[trigger] cd.policies@[i]).name@, origin: ns },
            NodeKey::PolicyAgent(cd.policies@[i].name@),
            EdgeType::GrantedTo,
        )
    &&& forall|i: int, j: int|
        0 <= i < cd.policies@.len() && 0 <= j < (
        #[trigger] cd.policies@[i]).granted_to_groups@.len() ==> g.has_edge(
            NodeKey::PolicyAgent(cd.policies@[i].name@),
            NodeKey::Group {
                name: (#[trigger] cd.policies@[i].granted_to_groups@[j])@,
                origin: ns,
            },
            EdgeType::Includes,
        )
    &&& forall|i: int, j: int|
        0 <= i < cd.policies@.len() && 0 <= j < (
        #[trigger] cd.policies@[i]).granted_to_users@.len() ==> g.has_edge(
            NodeKey::PolicyAgent(cd.policies@[i].name@),
            NodeKey::User((#[trigger] cd.policies@[i].granted_to_users@[j])@),
            EdgeType::Includes,
        )
    &&& forall|i: int, j: int|
        #![trigger cd.policies@[i].governs_assets@[j]]
        0 <= i < cd.policies@.len() && 0 <= j < cd.policies@[i].governs_assets@.len()
            ==> governs_edge(g, cd, ns, i, j)
}

/// Some asset node with the given locator, of whatever type, is governed
/// by the policy: the governance edge derived from one `governs_assets`
/// entry is present.
pub open spec fn governs_edge(
    g: graph::Graph,
    cd: crate::connectors::nodes::ConnectorData,
    ns: Seq<char>,
    i: int,
    j: int,
) -> bool {
    exists|t: AssetType|
        g.has_edge(
            NodeKey::Asset {
                connector: ns,
                asset_type: t,
                path: seq![cd.policies@[i].governs_assets@[j]@],
            },
            NodeKey::Policy { name: cd.policies@[i].name@, origin: ns },
            EdgeType::GovernedBy,
        )
}

/// The governance edges recorded for a prefix of the policies survive a
/// growth of the edge list.
proof fn lemma_governs_preserved(
    g1: graph::Graph,
    g2: graph::Graph,
    cd: crate::connectors::nodes::ConnectorData,
    ns: Seq<char>,
    hi: int,
)
    requires
        g1.wf(),
        g2.wf(),
        g2.nodes@ == g1.nodes@,
        forall|y: (usize, usize, EdgeType)|
            #[trigger] g1.edges@.contains(y) ==> g2.edges@.contains(y),
        0 <= hi <= cd.policies@.len(),
        forall|a: int, b: int|
            #![trigger cd.policies@[a].governs_assets@[b]]
            0 <= a < hi && 0 <= b < cd.policies@[a].governs_assets@.len() ==> governs_edge(
                g1,
                cd,
                ns,
                a,
                b,
            ),
    ensures
        forall|a: int, b: int|
            #![trigger cd.policies@[a].governs_assets@[b]]
            0 <= a < hi && 0 <= b < cd.policies@[a].governs_assets@.len() ==> governs_edge(
                g2,
                cd,
                ns,
                a,
                b,
            ),
{
    graph::lemma_has_edge_mono(g1, g2);
    assert forall|a: int, b: int|
        #![trigger cd.policies@[a].governs_assets@[b]]
        0 <= a < hi && 0 <= b < cd.policies@[a].governs_assets@.len() implies governs_edge(
        g2,
        cd,
        ns,
        a,
        b,
    ) by {
        assert(governs_edge(g1, cd, ns, a, b));
        let t0 = choose|t: AssetType|
            g1.has_edge(
                NodeKey::Asset {
                    connector: ns,
                    asset_type: t,
                    path: seq![cd.policies@[a].governs_assets@[b]@],
                },
                NodeKey::Policy { name: cd.policies@[a].name@, origin: ns },
                EdgeType::GovernedBy,
            );
        assert(g2.has_edge(
            NodeKey::Asset {
                connector: ns,
                asset_type: t0,
                path: seq![cd.policies@[a].governs_assets@[b]@],
            },
            NodeKey::Policy { name: cd.policies@[a].name@, origin: ns },
            EdgeType::GovernedBy,
        ));
    }
}

/// The governance edges recorded for a prefix of one policy's governed
/// assets survive a growth of the edge list.
proof fn lemma_governs_prefix_preserved(
    g1: graph::Graph,
    g2: graph::Graph,
    cd: crate::connectors::nodes::ConnectorData,
    ns: Seq<char>,
    pi: int,
    hj: int,
)
    requires
        g1.wf(),
        g2.wf(),
        g2.nodes@ == g1.nodes@,
        forall|y: (usize, usize, EdgeType)|
            #[trigger] g1.edges@.contains(y) ==> g2.edges@.contains(y),
        0 <= pi < cd.policies@.len(),
        0 <= hj <= cd.policies@[pi].governs_assets@.len(),
        forall|b: int| 0 <= b < hj ==> #[trigger] governs_edge(g1, cd, ns, pi, b),
    ensures
        forall|b: int| 0 <= b < hj ==> #[trigger] governs_edge(g2, cd, ns, pi, b),
{
    graph::lemma_has_edge_mono(g1, g2);
    assert forall|b: int| 0 <= b < hj implies #[trigger] governs_edge(g2, cd, ns, pi, b) by {
        assert(governs_edge(g1, cd, ns, pi, b));
        let t0 = choose|t: AssetType|
            g1.has_edge(
                NodeKey::Asset {
                    connector: ns,
                    asset_type: t,
                    path: seq![cd.policies@[pi].governs_assets@[b]@],
                },
                NodeKey::Policy { name: cd.policies@[pi].name@, origin: ns },
                EdgeType::GovernedBy,
            );
        assert(g2.has_edge(
            NodeKey::Asset {
                connector: ns,
                asset_type: t0,
                path: seq![cd.policies@[pi].governs_assets@[b]@],
            },
            NodeKey::Policy { name: cd.policies@[pi].name@, origin: ns },
            EdgeType::GovernedBy,
        ));
    }
}

/// First build pass for one connector: a node for every reported entity,
/// and a fresh translator map recording the connector's local names.
fn add_connector_nodes(
    ag: &mut AccessGraph,
    cd: &crate::connectors::nodes::ConnectorData,
    namespace: &ConnectorNamespace,
) -> (r: Result<(), crate::errors::BuildError>)
    requires
        old(ag).wf(),
        forall|mi: int|
            0 <= mi < old(ag).translator.maps@.len() ==> (#[trigger] old(
                ag,
            ).translator.maps@[mi]).connector.0@ != namespace.0@,
    ensures
        final(ag).wf(),
        r is Ok ==> {
            &&& forall|k: NodeKey|
                old(ag).graph.has_key(k) ==> #[trigger] final(ag).graph.has_key(k)
            &&& nodes_present(final(ag).graph, *cd, namespace.0@)
            &&& final(ag).translator.maps@.len() == old(ag).translator.maps@.len() + 1
            &&& forall|mi: int|
                0 <= mi < old(ag).translator.maps@.len() ==> (#[trigger] final(ag).translator.maps@[mi]) == old(ag).translator.maps@[mi]
            &&& final(ag).translator.maps@.last().connector.0@ == namespace.0@
            &&& map_covers(final(ag).translator.maps@.last(), *cd)
        },
{
    for i in 0..cd.groups.len()
        invariant
            ag.wf(),
            ag.translator == old(ag).translator,
            forall|k: NodeKey| old(ag).graph.has_key(k) ==> #[trigger] ag.graph.has_key(k),
            forall|j: int|
                0 <= j < i ==> ag.graph.has_key(
                    NodeKey::Group { name: (#[trigger] cd.groups@[j]).name@, origin: namespace.0@ },
                ),
    {
        let gnode = JettyNode::Group(
            GroupAttributes {
                name: cd.groups[i].name.clone(),
                origin: namespace.duplicate(),
                metadata: dedup_pairs(&cd.groups[i].metadata),
                connectors: single_connector(namespace),
            },
        );
        proof {
            assert(gnode.name_key() == NodeKey::Group {
                name: cd.groups@[i as int].name@,
                origin: namespace.0@,
            });
        }
        if let Err(e) = ag.graph.add_node(gnode) {
            return Err(crate::errors::BuildError::Conflict(e));
        }
    }
    for i in 0..cd.users.len()
        invariant
            ag.wf(),
            ag.translator == old(ag).translator,
            forall|k: NodeKey| old(ag).graph.has_key(k) ==> #[trigger] ag.graph.has_key(k),
            forall|j: int|
                0 <= j < cd.groups@.len() ==> ag.graph.has_key(
                    NodeKey::Group { name: (#[trigger] cd.groups@[j]).name@, origin: namespace.0@ },
                ),
            forall|j: int|
                0 <= j < i ==> ag.graph.has_key(NodeKey::User((#[trigger] cd.users@[j]).name@)),
    {
        let unode = JettyNode::User(
            UserAttributes {
                name: cd.users[i].name.clone(),
                identifiers: dedup_ids(&cd.users[i].identifiers),
                other_identifiers: dedup_strings(&cd.users[i].other_identifiers),
                metadata: dedup_pairs(&cd.users[i].metadata),
                connectors: single_connector(namespace),
            },
        );
        proof {
            assert(unode.name_key() == NodeKey::User(cd.users@[i as int].name@));
        }
        if let Err(e) = ag.graph.add_node(unode) {
            return Err(crate::errors::BuildError::Conflict(e));
        }
    }
    for i in 0..cd.assets.len()
        invariant
            ag.wf(),
            ag.translator == old(ag).translator,
            forall|k: NodeKey| old(ag).graph.has_key(k) ==> #[trigger] ag.graph.has_key(k),
            forall|j: int|
                0 <= j < cd.groups@.len() ==> ag.graph.has_key(
                    NodeKey::Group { name: (#[trigger] cd.groups@[j]).name@, origin: namespace.0@ },
                ),
            forall|j: int|
                0 <= j < cd.users@.len() ==> ag.graph.has_key(
                    NodeKey::User((#[trigger] cd.users@[j]).name@),
                ),
            forall|j: int|
                0 <= j < i ==> ag.graph.has_key(
                    NodeKey::Asset {
                        connector: namespace.0@,
                        asset_type: (#[trigger] cd.assets@[j]).asset_type,
                        path: seq![cd.assets@[j].name@],
                    },
                ),
    {
        let path = single_string(&cd.assets[i].name);
        proof {
            assert(path.deep_view() =~= seq![cd.assets@[i as int].name@]);
        }
        let anode = JettyNode::Asset(
            AssetAttributes {
                cual: cd.assets[i].cual.duplicate(),
                connector: namespace.duplicate(),
                asset_type: cd.assets[i].asset_type,
                path,
                metadata: dedup_pairs(&cd.assets[i].metadata),
                connectors: single_connector(namespace),
            },
        );
        proof {
            assert(anode.name_key() == NodeKey::Asset {
                connector: namespace.0@,
                asset_type: cd.assets@[i as int].asset_type,
                path: seq![cd.assets@[i as int].name@],
            });
        }
        if let Err(e) = ag.graph.add_node(anode) {
            return Err(crate::errors::BuildError::Conflict(e));
        }
    }
    for i in 0..cd.policies.len()
        invariant
            ag.wf(),
            ag.translator == old(ag).translator,
            forall|k: NodeKey| old(ag).graph.has_key(k) ==> #[trigger] ag.graph.has_key(k),
            forall|j: int|
                0 <= j < cd.groups@.len() ==> ag.graph.has_key(
                    NodeKey::Group { name: (#[trigger] cd.groups@[j]).name@, origin: namespace.0@ },
                ),
            forall|j: int|
                0 <= j < cd.users@.len() ==> ag.graph.has_key(
                    NodeKey::User((#[trigger] cd.users@[j]).name@),
                ),
            forall|j: int|
                0 <= j < cd.assets@.len() ==> ag.graph.has_key(
                    NodeKey::Asset {
                        connector: namespace.0@,
                        asset_type: (#[trigger] cd.assets@[j]).asset_type,
                        path: seq![cd.assets@[j].name@],
                    },
                ),
            forall|j: int|
                0 <= j < i ==> ag.graph.has_key(
                    NodeKey::Policy { name: (#[trigger] cd.policies@[j]).name@, origin: namespace.0@ },
                ) && ag.graph.has_key(NodeKey::PolicyAgent(cd.policies@[j].name@)),
    {
        let pnode = JettyNode::Policy(
            PolicyAttributes {
                name: cd.policies[i].name.clone(),
                origin: namespace.duplicate(),
                privileges: dedup_strings(&cd.policies[i].privileges),
                connector_managed: false,
                pass_through_hierarchy: cd.policies[i].pass_through_hierarchy,
                pass_through_lineage: cd.policies[i].pass_through_lineage,
                metadata: Vec::new(),
                connectors: single_connector(namespace),
            },
        );
        proof {
            assert(pnode.name_key() == NodeKey::Policy {
                name: cd.policies@[i as int].name@,
                origin: namespace.0@,
            });
        }
        if let Err(e) = ag.graph.add_node(pnode) {
            return Err(crate::errors::BuildError::Conflict(e));
        }
        let agent = JettyNode::PolicyAgent(
            PolicyAgentAttributes {
                name: cd.policies[i].name.clone(),
                connectors: single_connector(namespace),
            },
        );
        proof {
            assert(agent.name_key() == NodeKey::PolicyAgent(cd.policies@[i as int].name@));
        }
        if let Err(e) = ag.graph.add_node(agent) {
            return Err(crate::errors::BuildError::Conflict(e));
        }
    }
    for i in 0..cd.tags.len()
        invariant
            ag.wf(),
            ag.translator == old(ag).translator,
            forall|k: NodeKey| old(ag).graph.has_key(k) ==> #[trigger] ag.graph.has_key(k),
            forall|j: int|
                0 <= j < cd.groups@.len() ==> ag.graph.has_key(
                    NodeKey::Group { name: (#[trigger] cd.groups@[j]).name@, origin: namespace.0@ },
                ),
            forall|j: int|
                0 <= j < cd.users@.len() ==> ag.graph.has_key(
                    NodeKey::User((#[trigger] cd.users@[j]).name@),
                ),
            forall|j: int|
                0 <= j < cd.assets@.len() ==> ag.graph.has_key(
                    NodeKey::Asset {
                        connector: namespace.0@,
                        asset_type: (#[trigger] cd.assets@[j]).asset_type,
                        path: seq![cd.assets@[j].name@],
                    },
                ),
            forall|j: int|
                0 <= j < cd.policies@.len() ==> ag.graph.has_key(
                    NodeKey::Policy { name: (#[trigger] cd.policies@[j]).name@, origin: namespace.0@ },
                ) && ag.graph.has_key(NodeKey::PolicyAgent(cd.policies@[j].name@)),
            forall|j: int|
                0 <= j < i ==> ag.graph.has_key(NodeKey::Tag((#[trigger] cd.tags@[j]).name@)),
    {
        let tnode = JettyNode::Tag(
            TagAttributes {
                name: cd.tags[i].name.clone(),
                description: cd.tags[i].description.clone(),
                pass_through_hierarchy: cd.tags[i].pass_through_hierarchy,
                pass_through_lineage: cd.tags[i].pass_through_lineage,
                connectors: single_connector(namespace),
            },
        );
        proof {
            assert(tnode.name_key() == NodeKey::Tag(cd.tags@[i as int].name@));
        }
        if let Err(e) = ag.graph.add_node(tnode) {
            return Err(crate::errors::BuildError::Conflict(e));
        }
    }
    // record the connector's local names for later translation
    let mut cmap = crate::translate::ConnectorMap::new(namespace.duplicate());
    for i in 0..cd.groups.len()
        invariant
            crate::translate::tl_wf(cmap.entries@),
            crate::translate::tl_canonical(cmap.entries@),
            cmap.connector.0@ == namespace.0@,
            forall|j: int|
                0 <= j < i ==> crate::translate::tl_has_local(
                    cmap.entries@,
                    (#[trigger] cd.groups@[j]).name@,
                ),
    {
        let local = cd.groups[i].name.clone();
        let gname = NodeName::Group {
            name: cd.groups[i].name.clone(),
            origin: namespace.duplicate(),
        };
        let ghost entry = (local, gname);
        let ghost pre = cmap.entries@;
        let added = cmap.add(local, gname);
        proof {
            assert(crate::translate::canon_local_of_key(entry.1.key()) == entry.0@);
            if added {
                assert(cmap.entries@ == pre.push(entry));
                crate::translate::lemma_tl_push(pre, entry);
                crate::translate::lemma_tl_canonical_push(pre, entry);
            } else if !crate::translate::tl_has_local(pre, entry.0@) {
                crate::translate::lemma_tl_canonical_global(pre, entry.1.key());
            }
            assert(crate::translate::tl_has_local(cmap.entries@, cd.groups@[i as int].name@));
        }
    }
    for i in 0..cd.users.len()
        invariant
            crate::translate::tl_wf(cmap.entries@),
            crate::translate::tl_canonical(cmap.entries@),
            cmap.connector.0@ == namespace.0@,
            forall|j: int|
                0 <= j < cd.groups@.len() ==> crate::translate::tl_has_local(
                    cmap.entries@,
                    (#[trigger] cd.groups@[j]).name@,
                ),
            forall|j: int|
                0 <= j < i ==> crate::translate::tl_has_local(
                    cmap.entries@,
                    (#[trigger] cd.users@[j]).name@,
                ),
    {
        let local = cd.users[i].name.clone();
        let uname = NodeName::User(cd.users[i].name.clone());
        let ghost entry = (local, uname);
        let ghost pre = cmap.entries@;
        let added = cmap.add(local, uname);
        proof {
            assert(crate::translate::canon_local_of_key(entry.1.key()) == entry.0@);
            if added {
                assert(cmap.entries@ == pre.push(entry));
                crate::translate::lemma_tl_push(pre, entry);
                crate::translate::lemma_tl_canonical_push(pre, entry);
            } else if !crate::translate::tl_has_local(pre, entry.0@) {
                crate::translate::lemma_tl_canonical_global(pre, entry.1.key());
            }
            assert(crate::translate::tl_has_local(cmap.entries@, cd.users@[i as int].name@));
        }
    }
    for i in 0..cd.assets.len()
        invariant
            crate::translate::tl_wf(cmap.entries@),
            crate::translate::tl_canonical(cmap.entries@),
            cmap.connector.0@ == namespace.0@,
            forall|j: int|
                0 <= j < cd.groups@.len() ==> crate::translate::tl_has_local(
                    cmap.entries@,
                    (#[trigger] cd.groups@[j]).name@,
                ),
            forall|j: int|
                0 <= j < cd.users@.len() ==> crate::translate::tl_has_local(
                    cmap.entries@,
                    (#[trigger] cd.users@[j]).name@,
                ),
            forall|j: int|
                0 <= j < i ==> crate::translate::tl_has_local(
                    cmap.entries@,
                    (#[trigger] cd.assets@[j]).name@,
                ),
    {
        let local = cd.assets[i].name.clone();
        let path = single_string(&cd.assets[i].name);
        proof {
            assert(path.deep_view() =~= seq![cd.assets@[i as int].name@]);
        }
        let aname = NodeName::Asset {
            connector: namespace.duplicate(),
            asset_type: cd.assets[i].asset_type,
            path,
        };
        let ghost entry = (local, aname);
        let ghost pre = cmap.entries@;
        let added = cmap.add(local, aname);
        proof {
            assert(crate::translate::canon_local_of_key(entry.1.key()) == entry.0@);
            if added {
                assert(cmap.entries@ == pre.push(entry));
                crate::translate::lemma_tl_push(pre, entry);
                crate::translate::lemma_tl_canonical_push(pre, entry);
            } else if !crate::translate::tl_has_local(pre, entry.0@) {
                crate::translate::lemma_tl_canonical_global(pre, entry.1.key());
            }
            assert(crate::translate::tl_has_local(cmap.entries@, cd.assets@[i as int].name@));
        }
    }
    let ghost centries = cmap.entries@;
    let ghost premaps = ag.translator.maps@;
    ag.translator.maps.push(cmap);
    proof {
        assert(ag.translator.maps@ =~= premaps.push(ag.translator.maps@.last()));
        assert(forall|i: int| 0 <= i < premaps.len() ==> ag.translator.maps@[i] == premaps[i]);
        assert(ag.translator.maps@.last().entries@ == centries);
        assert forall|i: int, j: int|
            0 <= i < j < ag.translator.maps@.len() implies ag.translator.maps@[i].connector.0@
            != ag.translator.maps@[j].connector.0@ by {
            if j == premaps.len() as int {
                assert(premaps[i].connector.0@ != namespace.0@);
            }
        }
    }
    Ok(())
}

/// Second build pass for one connector: the membership, grant and
/// governance edges its data derives, each with its inverse. Existing
/// edges are never removed.
#[verifier::rlimit(100)]
fn add_connector_edges(
    ag: &mut AccessGraph,
    cd: &crate::connectors::nodes::ConnectorData,
    namespace: &ConnectorNamespace,
) -> (r: Result<(), crate::errors::BuildError>)
    requires
        old(ag).wf(),
    ensures
        final(ag).wf(),
        final(ag).graph.nodes@ == old(ag).graph.nodes@,
        final(ag).translator == old(ag).translator,
        forall|y: (usize, usize, EdgeType)|
            #[trigger] old(ag).graph.edges@.contains(y) ==> final(ag).graph.edges@.contains(y),
        r is Ok ==> edges_present(final(ag).graph, *cd, namespace.0@),
{
    for i in 0..cd.groups.len()
        invariant
            ag.wf(),
            ag.graph.nodes@ == old(ag).graph.nodes@,
            ag.translator == old(ag).translator,
            forall|y: (usize, usize, EdgeType)|
                #[trigger] old(ag).graph.edges@.contains(y) ==> ag.graph.edges@.contains(y),
            forall|a: int, b: int|
                0 <= a < i && 0 <= b < (#[trigger] cd.groups@[a]).member_of@.len()
                    ==> ag.graph.has_edge(
                    NodeKey::Group { name: cd.groups@[a].name@, origin: namespace.0@ },
                    NodeKey::Group {
                        name: (#[trigger] cd.groups@[a].member_of@[b])@,
                        origin: namespace.0@,
                    },
                    EdgeType::MemberOf,
                ),
            forall|a: int, b: int|
                0 <= a < i && 0 <= b < (#[trigger] cd.groups@[a]).includes_users@.len()
                    ==> ag.graph.has_edge(
                    NodeKey::Group { name: cd.groups@[a].name@, origin: namespace.0@ },
                    NodeKey::User((#[trigger] cd.groups@[a].includes_users@[b])@),
                    EdgeType::Includes,
                ),
    {
        let grp = &cd.groups[i];
        for j in 0..grp.member_of.len()
            invariant
                ag.wf(),
                ag.graph.nodes@ == old(ag).graph.nodes@,
                ag.translator == old(ag).translator,
                i < cd.groups@.len(),
                *grp == cd.groups@[i as int],
                forall|y: (usize, usize, EdgeType)|
                    #[trigger] old(ag).graph.edges@.contains(y) ==> ag.graph.edges@.contains(y),
                forall|a: int, b: int|
                    0 <= a < i && 0 <= b < (#[trigger] cd.groups@[a]).member_of@.len()
                        ==> ag.graph.has_edge(
                        NodeKey::Group { name: cd.groups@[a].name@, origin: namespace.0@ },
                        NodeKey::Group {
                            name: (#[trigger] cd.groups@[a].member_of@[b])@,
                            origin: namespace.0@,
                        },
                        EdgeType::MemberOf,
                    ),
                forall|a: int, b: int|
                    0 <= a < i && 0 <= b < (#[trigger] cd.groups@[a]).includes_users@.len()
                        ==> ag.graph.has_edge(
                        NodeKey::Group { name: cd.groups@[a].name@, origin: namespace.0@ },
                        NodeKey::User((#[trigger] cd.groups@[a].includes_users@[b])@),
                        EdgeType::Includes,
                    ),
                forall|b: int|
                    0 <= b < j ==> ag.graph.has_edge(
                        NodeKey::Group { name: cd.groups@[i as int].name@, origin: namespace.0@ },
                        NodeKey::Group {
                            name: (#[trigger] cd.groups@[i as int].member_of@[b])@,
                            origin: namespace.0@,
                        },
                        EdgeType::MemberOf,
                    ),
        {
            let edge = graph::JettyEdge {
                from: NodeName::Group { name: grp.name.clone(), origin: namespace.duplicate() },
                to: NodeName::Group {
                    name: grp.member_of[j].clone(),
                    origin: namespace.duplicate(),
                },
                edge_type: EdgeType::MemberOf,
            };
            let ghost ekf = edge.from.key();
            let ghost ekt = edge.to.key();
            let ghost preg = ag.graph;
            if let Err(e) = ag.graph.add_edge_symmetric(edge) {
                return Err(e);
            }
            proof {
                graph::lemma_has_edge_mono(preg, ag.graph);
                assert(ag.graph.has_edge(ekf, ekt, EdgeType::MemberOf));
                assert(ekf == NodeKey::Group {
                    name: cd.groups@[i as int].name@,
                    origin: namespace.0@,
                });
                assert(ekt == NodeKey::Group {
                    name: (cd.groups@[i as int].member_of@[j as int])@,
                    origin: namespace.0@,
                });
            }
        }
        for j in 0..grp.includes_users.len()
            invariant
                ag.wf(),
                ag.graph.nodes@ == old(ag).graph.nodes@,
                ag.translator == old(ag).translator,
                i < cd.groups@.len(),
                *grp == cd.groups@[i as int],
                forall|y: (usize, usize, EdgeType)|
                    #[trigger] old(ag).graph.edges@.contains(y) ==> ag.graph.edges@.contains(y),
                forall|a: int, b: int|
                    0 <= a < i + 1 && 0 <= b < (#[trigger] cd.groups@[a]).member_of@.len()
                        ==> ag.graph.has_edge(
                        NodeKey::Group { name: cd.groups@[a].name@, origin: namespace.0@ },
                        NodeKey::Group {
                            name: (#[trigger] cd.groups@[a].member_of@[b])@,
                            origin: namespace.0@,
                        },
                        EdgeType::MemberOf,
                    ),
                forall|a: int, b: int|
                    0 <= a < i && 0 <= b < (#[trigger] cd.groups@[a]).includes_users@.len()
                        ==> ag.graph.has_edge(
                        NodeKey::Group { name: cd.groups@[a].name@, origin: namespace.0@ },
                        NodeKey::User((#[trigger] cd.groups@[a].includes_users@[b])@),
                        EdgeType::Includes,
                    ),
                forall|b: int|
                    0 <= b < j ==> ag.graph.has_edge(
                        NodeKey::Group { name: cd.groups@[i as int].name@, origin: namespace.0@ },
                        NodeKey::User((#[trigger] cd.groups@[i as int].includes_users@[b])@),
                        EdgeType::Includes,
                    ),
        {
            let edge = graph::JettyEdge {
                from: NodeName::Group { name: grp.name.clone(), origin: namespace.duplicate() },
                to: NodeName::User(grp.includes_users[j].clone()),
                edge_type: EdgeType::Includes,
            };
            let ghost ekf = edge.from.key();
            let ghost ekt = edge.to.key();
            let ghost preg = ag.graph;
            if let Err(e) = ag.graph.add_edge_symmetric(edge) {
                return Err(e);
            }
            proof {
                graph::lemma_has_edge_mono(preg, ag.graph);
                assert(ag.graph.has_edge(ekf, ekt, EdgeType::Includes));
                assert(ekf == NodeKey::Group {
                    name: cd.groups@[i as int].name@,
                    origin: namespace.0@,
                });
                assert(ekt == NodeKey::User((cd.groups@[i as int].includes_users@[j as int])@));
            }
        }
    }
    for i in 0..cd.users.len()
        invariant
            ag.wf(),
            ag.graph.nodes@ == old(ag).graph.nodes@,
            ag.translator == old(ag).translator,
            forall|y: (usize, usize, EdgeType)|
                #[trigger] old(ag).graph.edges@.contains(y) ==> ag.graph.edges@.contains(y),
            forall|a: int, b: int|
                0 <= a < cd.groups@.len() && 0 <= b < (#[trigger] cd.groups@[a]).member_of@.len()
                    ==> ag.graph.has_edge(
                    NodeKey::Group { name: cd.groups@[a].name@, origin: namespace.0@ },
                    NodeKey::Group {
                        name: (#[trigger] cd.groups@[a].member_of@[b])@,
                        origin: namespace.0@,
                    },
                    EdgeType::MemberOf,
                ),
            forall|a: int, b: int|
                0 <= a < cd.groups@.len() && 0 <= b < (
                #[trigger] cd.groups@[a]).includes_users@.len() ==> ag.graph.has_edge(
                    NodeKey::Group { name: cd.groups@[a].name@, origin: namespace.0@ },
                    NodeKey::User((#[trigger] cd.groups@[a].includes_users@[b])@),
                    EdgeType::Includes,
                ),
            forall|a: int, b: int|
                0 <= a < i && 0 <= b < (#[trigger] cd.users@[a]).member_of@.len()
                    ==> ag.graph.has_edge(
                    NodeKey::User(cd.users@[a].name@),
                    NodeKey::Group {
                        name: (#[trigger] cd.users@[a].member_of@[b])@,
                        origin: namespace.0@,
                    },
                    EdgeType::MemberOf,
                ),
    {
        let usr = &cd.users[i];
        for j in 0..usr.member_of.len()
            invariant
                ag.wf(),
                ag.graph.nodes@ == old(ag).graph.nodes@,
                ag.translator == old(ag).translator,
                i < cd.users@.len(),
                *usr == cd.users@[i as int],
                forall|y: (usize, usize, EdgeType)|
                    #[trigger] old(ag).graph.edges@.contains(y) ==> ag.graph.edges@.contains(y),
                forall|a: int, b: int|
                    0 <= a < cd.groups@.len() && 0 <= b < (
                    #[trigger] cd.groups@[a]).member_of@.len() ==> ag.graph.has_edge(
                        NodeKey::Group { name: cd.groups@[a].name@, origin: namespace.0@ },
                        NodeKey::Group {
                            name: (#[trigger] cd.groups@[a].member_of@[b])@,
                            origin: namespace.0@,
                        },
                        EdgeType::MemberOf,
                    ),
                forall|a: int, b: int|
                    0 <= a < cd.groups@.len() && 0 <= b < (
                    #[trigger] cd.groups@[a]).includes_users@.len() ==> ag.graph.has_edge(
                        NodeKey::Group { name: cd.groups@[a].name@, origin: namespace.0@ },
                        NodeKey::User((#[trigger] cd.groups@[a].includes_users@[b])@),
                        EdgeType::Includes,
                    ),
                forall|a: int, b: int|
                    0 <= a < i && 0 <= b < (#[trigger] cd.users@[a]).member_of@.len()
                        ==> ag.graph.has_edge(
                        NodeKey::User(cd.users@[a].name@),
                        NodeKey::Group {
                            name: (#[trigger] cd.users@[a].member_of@[b])@,
                            origin: namespace.0@,
                        },
                        EdgeType::MemberOf,
                    ),
                forall|b: int|
                    0 <= b < j ==> ag.graph.has_edge(
                        NodeKey::User(cd.users@[i as int].name@),
                        NodeKey::Group {
                            name: (#[trigger] cd.users@[i as int].member_of@[b])@,
                            origin: namespace.0@,
                        },
                        EdgeType::MemberOf,
                    ),
        {
            let edge = graph::JettyEdge {
                from: NodeName::User(usr.name.clone()),
                to: NodeName::Group {
                    name: usr.member_of[j].clone(),
                    origin: namespace.duplicate(),
                },
                edge_type: EdgeType::MemberOf,
            };
            let ghost ekf = edge.from.key();
            let ghost ekt = edge.to.key();
            let ghost preg = ag.graph;
            if let Err(e) = ag.graph.add_edge_symmetric(edge) {
                return Err(e);
            }
            proof {
                graph::lemma_has_edge_mono(preg, ag.graph);
                assert(ag.graph.has_edge(ekf, ekt, EdgeType::MemberOf));
                assert(ekf == NodeKey::User(cd.users@[i as int].name@));
                assert(ekt == NodeKey::Group {
                    name: (cd.users@[i as int].member_of@[j as int])@,
                    origin: namespace.0@,
                });
            }
        }
    }
    for i in 0..cd.policies.len()
        invariant
            ag.wf(),
            ag.graph.nodes@ == old(ag).graph.nodes@,
            ag.translator == old(ag).translator,
            forall|y: (usize, usize, EdgeType)|
                #[trigger] old(ag).graph.edges@.contains(y) ==> ag.graph.edges@.contains(y),
            forall|a: int, b: int|
                0 <= a < cd.groups@.len() && 0 <= b < (#[trigger] cd.groups@[a]).member_of@.len()
                    ==> ag.graph.has_edge(
                    NodeKey::Group { name: cd.groups@[a].name@, origin: namespace.0@ },
                    NodeKey::Group {
                        name: (#[trigger] cd.groups@[a].member_of@[b])@,
                        origin: namespace.0@,
                    },
                    EdgeType::MemberOf,
                ),
            forall|a: int, b: int|
                0 <= a < cd.groups@.len() && 0 <= b < (
                #[trigger] cd.groups@[a]).includes_users@.len() ==> ag.graph.has_edge(
                    NodeKey::Group { name: cd.groups@[a].name@, origin: namespace.0@ },
                    NodeKey::User((#[trigger] cd.groups@[a].includes_users@[b])@),
                    EdgeType::Includes,
                ),
            forall|a: int, b: int|
                0 <= a < cd.users@.len() && 0 <= b < (#[trigger] cd.users@[a]).member_of@.len()
                    ==> ag.graph.has_edge(
                    NodeKey::User(cd.users@[a].name@),
                    NodeKey::Group {
                        name: (#[trigger] cd.users@[a].member_of@[b])@,
                        origin: namespace.0@,
                    },
                    EdgeType::MemberOf,
                ),
            forall|a: int|
                0 <= a < i ==> ag.graph.has_edge(
                    NodeKey::Policy { name: (#[trigger] cd.policies@[a]).name@, origin: namespace.0@ },
                    NodeKey::PolicyAgent(cd.policies@[a].name@),
                    EdgeType::GrantedTo,
                ),
            forall|a: int, b: int|
                0 <= a < i && 0 <= b < (#[trigger] cd.policies@[a]).granted_to_groups@.len()
                    ==> ag.graph.has_edge(
                    NodeKey::PolicyAgent(cd.policies@[a].name@),
                    NodeKey::Group {
                        name: (#[trigger] cd.policies@[a].granted_to_groups@[b])@,
                        origin: namespace.0@,
                    },
                    EdgeType::Includes,
                ),
            forall|a: int, b: int|
                0 <= a < i && 0 <= b < (#[trigger] cd.policies@[a]).granted_to_users@.len()
                    ==> ag.graph.has_edge(
                    NodeKey::PolicyAgent(cd.policies@[a].name@),
                    NodeKey::User((#[trigger] cd.policies@[a].granted_to_users@[b])@),
                    EdgeType::Includes,
                ),
            forall|a: int, b: int|
                #![trigger cd.policies@[a].governs_assets@[b]]
                0 <= a < i && 0 <= b < cd.policies@[a].governs_assets@.len()
                    ==> governs_edge(ag.graph, *cd, namespace.0@, a, b),
    {
        let pol = &cd.policies[i];
        let pname = NodeName::Policy { name: pol.name.clone(), origin: namespace.duplicate() };
        let aname = NodeName::PolicyAgent(pol.name.clone());
        let edge = graph::JettyEdge {
            from: pname.duplicate(),
            to: aname.duplicate(),
            edge_type: EdgeType::GrantedTo,
        };
        let ghost ekf = edge.from.key();
        let ghost ekt = edge.to.key();
        let ghost preg = ag.graph;
        if let Err(e) = ag.graph.add_edge_symmetric(edge) {
            return Err(e);
        }
        proof {
            graph::lemma_has_edge_mono(preg, ag.graph);
            lemma_governs_preserved(preg, ag.graph, *cd, namespace.0@, i as int);
            assert(ag.graph.has_edge(ekf, ekt, EdgeType::GrantedTo));
            assert(ekf == NodeKey::Policy {
                name: cd.policies@[i as int].name@,
                origin: namespace.0@,
            });
            assert(ekt == NodeKey::PolicyAgent(cd.policies@[i as int].name@));
        }
        for j in 0..pol.granted_to_groups.len()
            invariant
                ag.wf(),
                ag.graph.nodes@ == old(ag).graph.nodes@,
                ag.translator == old(ag).translator,
                i < cd.policies@.len(),
                *pol == cd.policies@[i as int],
                forall|y: (usize, usize, EdgeType)|
                    #[trigger] old(ag).graph.edges@.contains(y) ==> ag.graph.edges@.contains(y),
                forall|a: int, b: int|
                    0 <= a < cd.groups@.len() && 0 <= b < (
                    #[trigger] cd.groups@[a]).member_of@.len() ==> ag.graph.has_edge(
                        NodeKey::Group { name: cd.groups@[a].name@, origin: namespace.0@ },
                        NodeKey::Group {
                            name: (#[trigger] cd.groups@[a].member_of@[b])@,
                            origin: namespace.0@,
                        },
                        EdgeType::MemberOf,
                    ),
                forall|a: int, b: int|
                    0 <= a < cd.groups@.len() && 0 <= b < (
                    #[trigger] cd.groups@[a]).includes_users@.len() ==> ag.graph.has_edge(
                        NodeKey::Group { name: cd.groups@[a].name@, origin: namespace.0@ },
                        NodeKey::User((#[trigger] cd.groups@[a].includes_users@[b])@),
                        EdgeType::Includes,
                    ),
                forall|a: int, b: int|
                    0 <= a < cd.users@.len() && 0 <= b < (
                    #[trigger] cd.users@[a]).member_of@.len() ==> ag.graph.has_edge(
                        NodeKey::User(cd.users@[a].name@),
                        NodeKey::Group {
                            name: (#[trigger] cd.users@[a].member_of@[b])@,
                            origin: namespace.0@,
                        },
                        EdgeType::MemberOf,
                    ),
                forall|a: int|
                    0 <= a < i + 1 ==> ag.graph.has_edge(
                        NodeKey::Policy { name: (#[trigger] cd.policies@[a]).name@, origin: namespace.0@ },
                        NodeKey::PolicyAgent(cd.policies@[a].name@),
                        EdgeType::GrantedTo,
                    ),
                forall|a: int, b: int|
                    0 <= a < i && 0 <= b < (#[trigger] cd.policies@[a]).granted_to_groups@.len()
                        ==> ag.graph.has_edge(
                        NodeKey::PolicyAgent(cd.policies@[a].name@),
                        NodeKey::Group {
                            name: (#[trigger] cd.policies@[a].granted_to_groups@[b])@,
                            origin: namespace.0@,
                        },
                        EdgeType::Includes,
                    ),
                forall|a: int, b: int|
                    0 <= a < i && 0 <= b < (#[trigger] cd.policies@[a]).granted_to_users@.len()
                        ==> ag.graph.has_edge(
                        NodeKey::PolicyAgent(cd.policies@[a].name@),
                        NodeKey::User((#[trigger] cd.policies@[a].granted_to_users@[b])@),
                        EdgeType::Includes,
                    ),
                forall|a: int, b: int|
                    #![trigger cd.policies@[a].governs_assets@[b]]
                    0 <= a < i && 0 <= b < cd.policies@[a].governs_assets@.len()
                        ==> governs_edge(ag.graph, *cd, namespace.0@, a, b),
                forall|b: int|
                    0 <= b < j ==> ag.graph.has_edge(
                        NodeKey::PolicyAgent(cd.policies@[i as int].name@),
                        NodeKey::Group {
                            name: (#[trigger] cd.policies@[i as int].granted_to_groups@[b])@,
                            origin: namespace.0@,
                        },
                        EdgeType::Includes,
                    ),
        {
            let edge = graph::JettyEdge {
                from: NodeName::PolicyAgent(pol.name.clone()),
                to: NodeName::Group {
                    name: pol.granted_to_groups[j].clone(),
                    origin: namespace.duplicate(),
                },
                edge_type: EdgeType::Includes,
            };
            let ghost ekf = edge.from.key();
            let ghost ekt = edge.to.key();
            let ghost preg = ag.graph;
            if let Err(e) = ag.graph.add_edge_symmetric(edge) {
                return Err(e);
            }
            proof {
                graph::lemma_has_edge_mono(preg, ag.graph);
                lemma_governs_preserved(preg, ag.graph, *cd, namespace.0@, i as int);
                assert(ag.graph.has_edge(ekf, ekt, EdgeType::Includes));
                assert(ekf == NodeKey::PolicyAgent(cd.policies@[i as int].name@));
                assert(ekt == NodeKey::Group {
                    name: (cd.policies@[i as int].granted_to_groups@[j as int])@,
                    origin: namespace.0@,
                });
            }
        }
        for j in 0..pol.granted_to_users.len()
            invariant
                ag.wf(),
                ag.graph.nodes@ == old(ag).graph.nodes@,
                ag.translator == old(ag).translator,
                i < cd.policies@.len(),
                *pol == cd.policies@[i as int],
                forall|y: (usize, usize, EdgeType)|
                    #[trigger] old(ag).graph.edges@.contains(y) ==> ag.graph.edges@.contains(y),
                forall|a: int, b: int|
                    0 <= a < cd.groups@.len() && 0 <= b < (
                    #[trigger] cd.groups@[a]).member_of@.len() ==> ag.graph.has_edge(
                        NodeKey::Group { name: cd.groups@[a].name@, origin: namespace.0@ },
                        NodeKey::Group {
                            name: (#[trigger] cd.groups@[a].member_of@[b])@,
                            origin: namespace.0@,
                        },
                        EdgeType::MemberOf,
                    ),
                forall|a: int, b: int|
                    0 <= a < cd.groups@.len() && 0 <= b < (
                    #[trigger] cd.groups@[a]).includes_users@.len() ==> ag.graph.has_edge(
                        NodeKey::Group { name: cd.groups@[a].name@, origin: namespace.0@ },
                        NodeKey::User((#[trigger] cd.groups@[a].includes_users@[b])@),
                        EdgeType::Includes,
                    ),
                forall|a: int, b: int|
                    0 <= a < cd.users@.len() && 0 <= b < (
                    #[trigger] cd.users@[a]).member_of@.len() ==> ag.graph.has_edge(
                        NodeKey::User(cd.users@[a].name@),
                        NodeKey::Group {
                            name: (#[trigger] cd.users@[a].member_of@[b])@,
                            origin: namespace.0@,
                        },
                        EdgeType::MemberOf,
                    ),
                forall|a: int|
                    0 <= a < i + 1 ==> ag.graph.has_edge(
                        NodeKey::Policy { name: (#[trigger] cd.policies@[a]).name@, origin: namespace.0@ },
                        NodeKey::PolicyAgent(cd.policies@[a].name@),
                        EdgeType::GrantedTo,
                    ),
                forall|a: int, b: int|
                    0 <= a < i + 1 && 0 <= b < (
                    #[trigger] cd.policies@[a]).granted_to_groups@.len() ==> ag.graph.has_edge(
                        NodeKey::PolicyAgent(cd.policies@[a].name@),
                        NodeKey::Group {
                            name: (#[trigger] cd.policies@[a].granted_to_groups@[b])@,
                            origin: namespace.0@,
                        },
                        EdgeType::Includes,
                    ),
                forall|a: int, b: int|
                    0 <= a < i && 0 <= b < (#[trigger] cd.policies@[a]).granted_to_users@.len()
                        ==> ag.graph.has_edge(
                        NodeKey::PolicyAgent(cd.policies@[a].name@),
                        NodeKey::User((#[trigger] cd.policies@[a].granted_to_users@[b])@),
                        EdgeType::Includes,
                    ),
                forall|a: int, b: int|
                    #![trigger cd.policies@[a].governs_assets@[b]]
                    0 <= a < i && 0 <= b < cd.policies@[a].governs_assets@.len()
                        ==> governs_edge(ag.graph, *cd, namespace.0@, a, b),
                forall|b: int|
                    0 <= b < j ==> ag.graph.has_edge(
                        NodeKey::PolicyAgent(cd.policies@[i as int].name@),
                        NodeKey::User((#[trigger] cd.policies@[i as int].granted_to_users@[b])@),
                        EdgeType::Includes,
                    ),
        {
            let edge = graph::JettyEdge {
                from: NodeName::PolicyAgent(pol.name.clone()),
                to: NodeName::User(pol.granted_to_users[j].clone()),
                edge_type: EdgeType::Includes,
            };
            let ghost ekf = edge.from.key();
            let ghost ekt = edge.to.key();
            let ghost preg = ag.graph;
            if let Err(e) = ag.graph.add_edge_symmetric(edge) {
                return Err(e);
            }
            proof {
                graph::lemma_has_edge_mono(preg, ag.graph);
                lemma_governs_preserved(preg, ag.graph, *cd, namespace.0@, i as int);
                assert(ag.graph.has_edge(ekf, ekt, EdgeType::Includes));
                assert(ekf == NodeKey::PolicyAgent(cd.policies@[i as int].name@));
                assert(ekt == NodeKey::User(
                    (cd.policies@[i as int].granted_to_users@[j as int])@,
                ));
            }
        }
        for j in 0..pol.governs_assets.len()
            invariant
                ag.wf(),
                ag.graph.nodes@ == old(ag).graph.nodes@,
                ag.translator == old(ag).translator,
                i < cd.policies@.len(),
                *pol == cd.policies@[i as int],
                forall|y: (usize, usize, EdgeType)|
                    #[trigger] old(ag).graph.edges@.contains(y) ==> ag.graph.edges@.contains(y),
                forall|a: int, b: int|
                    0 <= a < cd.groups@.len() && 0 <= b < (
                    #[trigger] cd.groups@[a]).member_of@.len() ==> ag.graph.has_edge(
                        NodeKey::Group { name: cd.groups@[a].name@, origin: namespace.0@ },
                        NodeKey::Group {
                            name: (#[trigger] cd.groups@[a].member_of@[b])@,
                            origin: namespace.0@,
                        },
                        EdgeType::MemberOf,
                    ),
                forall|a: int, b: int|
                    0 <= a < cd.groups@.len() && 0 <= b < (
                    #[trigger] cd.groups@[a]).includes_users@.len() ==> ag.graph.has_edge(
                        NodeKey::Group { name: cd.groups@[a].name@, origin: namespace.0@ },
                        NodeKey::User((#[trigger] cd.groups@[a].includes_users@[b])@),
                        EdgeType::Includes,
                    ),
                forall|a: int, b: int|
                    0 <= a < cd.users@.len() && 0 <= b < (
                    #[trigger] cd.users@[a]).member_of@.len() ==> ag.graph.has_edge(
                        NodeKey::User(cd.users@[a].name@),
                        NodeKey::Group {
                            name: (#[trigger] cd.users@[a].member_of@[b])@,
                            origin: namespace.0@,
                        },
                        EdgeType::MemberOf,
                    ),
                forall|a: int|
                    0 <= a < i + 1 ==> ag.graph.has_edge(
                        NodeKey::Policy { name: (#[trigger] cd.policies@[a]).name@, origin: namespace.0@ },
                        NodeKey::PolicyAgent(cd.policies@[a].name@),
                        EdgeType::GrantedTo,
                    ),
                forall|a: int, b: int|
                    0 <= a < i + 1 && 0 <= b < (
                    #[trigger] cd.policies@[a]).granted_to_groups@.len() ==> ag.graph.has_edge(
                        NodeKey::PolicyAgent(cd.policies@[a].name@),
                        NodeKey::Group {
                            name: (#[trigger] cd.policies@[a].granted_to_groups@[b])@,
                            origin: namespace.0@,
                        },
                        EdgeType::Includes,
                    ),
                forall|a: int, b: int|
                    0 <= a < i + 1 && 0 <= b < (
                    #[trigger] cd.policies@[a]).granted_to_users@.len() ==> ag.graph.has_edge(
                        NodeKey::PolicyAgent(cd.policies@[a].name@),
                        NodeKey::User((#[trigger] cd.policies@[a].granted_to_users@[b])@),
                        EdgeType::Includes,
                    ),
                forall|a: int, b: int|
                    #![trigger cd.policies@[a].governs_assets@[b]]
                    0 <= a < i && 0 <= b < cd.policies@[a].governs_assets@.len()
                        ==> governs_edge(ag.graph, *cd, namespace.0@, a, b),
                forall|b: int|
                    0 <= b < j ==> #[trigger] governs_edge(
                        ag.graph,
                        *cd,
                        namespace.0@,
                        i as int,
                        b,
                    ),
        {
            match find_asset_name(&ag.graph, namespace, &pol.governs_assets[j]) {
                Some(aname2) => {
                    let ghost ak = aname2.key();
                    let edge = graph::JettyEdge {
                        from: aname2,
                        to: NodeName::Policy {
                            name: pol.name.clone(),
                            origin: namespace.duplicate(),
                        },
                        edge_type: EdgeType::GovernedBy,
                    };
                    let ghost ekt = edge.to.key();
                    let ghost preg = ag.graph;
                    if let Err(e) = ag.graph.add_edge_symmetric(edge) {
                        return Err(e);
                    }
                    proof {
                        graph::lemma_has_edge_mono(preg, ag.graph);
                        lemma_governs_preserved(preg, ag.graph, *cd, namespace.0@, i as int);
                        lemma_governs_prefix_preserved(
                            preg,
                            ag.graph,
                            *cd,
                            namespace.0@,
                            i as int,
                            j as int,
                        );
                        assert(ag.graph.has_edge(ak, ekt, EdgeType::GovernedBy));
                        assert(ekt == NodeKey::Policy {
                            name: cd.policies@[i as int].name@,
                            origin: namespace.0@,
                        });
                        let t = choose|t: AssetType|
                            ak == NodeKey::Asset {
                                connector: namespace.0@,
                                asset_type: t,
                                path: seq![(cd.policies@[i as int].governs_assets@[j as int])@],
                            };
                        assert(ag.graph.has_edge(
                            NodeKey::Asset {
                                connector: namespace.0@,
                                asset_type: t,
                                path: seq![(cd.policies@[i as int].governs_assets@[j as int])@],
                            },
                            ekt,
                            EdgeType::GovernedBy,
                        ));
                        assert(governs_edge(ag.graph, *cd, namespace.0@, i as int, j as int));
                    }
                },
                None => {
                    return Err(
                        crate::errors::BuildError::MissingNode(pol.governs_assets[j].clone()),
                    );
                },
            }
        }
    }
    Ok(())
}

/// Find the name of the asset a connector refers to by its local
/// locator, regardless of asset type.
fn find_asset_name(g: &graph::Graph, namespace: &ConnectorNamespace, locator: &String) -> (r:
    Option<NodeName>)
    ensures
        match r {
            Some(n) => g.has_key(n.key()) && exists|t: AssetType|
                n.key() == NodeKey::Asset {
                    connector: namespace.0@,
                    asset_type: t,
                    path: seq![locator@],
                },
            None => true,
        },
{
    for i in 0..g.nodes.len() {
        match &g.nodes[i] {
            JettyNode::Asset(a) => {
                if a.connector.0 == namespace.0 && a.path.len() == 1 {
                    if a.path[0] == *locator {
                        let n = g.nodes[i].get_name();
                        proof {
                            assert(a.path.deep_view() =~= seq![locator@]);
                            assert(n.key() == NodeKey::Asset {
                                connector: namespace.0@,
                                asset_type: a.asset_type,
                                path: seq![locator@],
                            });
                            assert(g.has_key(n.key())) by {
                                assert(g.nodes@[i as int].name_key() == n.key());
                            }
                        }
                        return Some(n);
                    }
                }
            },
            _ => {},
        }
    }
    None
}

/// The one-element connector set for a fresh node.
fn single_connector(namespace: &ConnectorNamespace) -> (r: Vec<String>)
    ensures
        strs_unique(r.deep_view()),
        r.deep_view().len() == 1,
        r.deep_view()[0] == namespace.0@,
{
    let mut v: Vec<String> = Vec::new();
    v.push(namespace.as_string());
    proof {
        assert(v.deep_view() =~= seq![namespace.0@]);
    }
    v
}

/// The one-element path for an asset named by a single segment.
fn single_string(s: &String) -> (r: Vec<String>)
    ensures
        r.deep_view().len() == 1,
        r.deep_view()[0] == s@,
{
    let mut v: Vec<String> = Vec::new();
    v.push(s.clone());
    proof {
        assert(v.deep_view() =~= seq![s@]);
    }
    v
}

/// Keep the first occurrence of each string.
fn dedup_strings(v: &Vec<String>) -> (r: Vec<String>)
    ensures
        strs_unique(r.deep_view()),
        forall|s: Seq<char>|
            #[trigger] seq_contains_str(r.deep_view(), s) == seq_contains_str(
                v.deep_view(),
                s,
            ),
{
    let empty: Vec<String> = Vec::new();
    let r = crate::util::union_unique(&empty, v);
    proof {
        assert(empty.deep_view() =~= Seq::<Seq<char>>::empty());
    }
    r
}

/// Keep the first occurrence of each metadata key.
fn dedup_pairs(v: &Vec<(String, String)>) -> (r: Vec<(String, String)>)
    ensures
        assoc_unique(r@),
{
    let mut r: Vec<(String, String)> = Vec::new();
    for i in 0..v.len()
        invariant
            assoc_unique(r@),
    {
        if crate::util::assoc_lookup(&r, &v[i].0).is_none() {
            let ghost pre = r@;
            r.push((v[i].0.clone(), v[i].1.clone()));
            proof {
                assert(r@ =~= pre.push((v@[i as int].0, v@[i as int].1)));
                crate::util::lemma_assoc_push_unique(pre, (v@[i as int].0, v@[i as int].1));
            }
        }
    }
    r
}

/// Keep the first occurrence of each identifier.
fn dedup_ids(v: &Vec<UserIdentifier>) -> (r: Vec<UserIdentifier>)
    ensures
        ids_unique(r@),
{
    let empty: Vec<UserIdentifier> = Vec::new();
    union_ids(&empty, v)
}

} // verus!
