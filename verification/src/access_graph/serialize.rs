//! Persistence: the graph as a schema-versioned token stream, written and
//! read deterministically. The stream is a flat sequence of 64-bit words;
//! turning words into bytes is the caller's framing concern.

use vstd::prelude::*;
use crate::access_graph::graph::Graph;
use crate::access_graph::{
    AssetAttributes, DefaultPolicyAttributes, EdgeType, GroupAttributes, JettyNode,
    PolicyAgentAttributes, PolicyAttributes, TagAttributes, UserAttributes,
};
use crate::connectors::{AssetType, UserIdentifier};
use crate::cual::Cual;
use crate::errors::IntegrityError;
use crate::jetty::ConnectorNamespace;

verus! {

/// The schema version this library writes.
pub const SCHEMA_VERSION: u64 = 1;

/// Relies on `String::push`: appends one character at the end.
pub assume_specification[ String::push ](s: &mut String, c: char)
    ensures
        final(s)@ == old(s)@.push(c),
;

/// Relies on `char::from_u32`: `Some` exactly for unicode scalar values,
/// and the returned character has the given code point.
pub assume_specification[ char::from_u32 ](v: u32) -> (r: Option<char>)
    ensures
        r.is_some() == (v < 0xD800 || (0xE000 <= v && v <= 0x10FFFF)),
        r.is_some() ==> r.unwrap() as u32 == v,
        r.is_some() ==> r.unwrap() as u64 == v as u64,
;

/// The encoding of one string: its length, then its characters.
pub open spec fn ser_string(s: Seq<char>) -> Seq<u64> {
    seq![s.len() as u64] + s.map_values(|c: char| c as u64)
}

/// The encoding of a list of strings.
pub open spec fn ser_strings_body(v: Seq<Seq<char>>) -> Seq<u64>
    decreases v.len(),
{
    if v.len() == 0 {
        Seq::empty()
    } else {
        ser_string(v[0]) + ser_strings_body(v.drop_first())
    }
}

/// The encoding of a string vector: its length, then its strings.
pub open spec fn ser_strings(v: Seq<Seq<char>>) -> Seq<u64> {
    seq![v.len() as u64] + ser_strings_body(v)
}

/// The encoding of a metadata map.
pub open spec fn ser_pairs_body(v: Seq<(Seq<char>, Seq<char>)>) -> Seq<u64>
    decreases v.len(),
{
    if v.len() == 0 {
        Seq::empty()
    } else {
        ser_string(v[0].0) + ser_string(v[0].1) + ser_pairs_body(v.drop_first())
    }
}

/// The encoding of a metadata map: its length, then its entries.
pub open spec fn ser_pairs(v: Seq<(Seq<char>, Seq<char>)>) -> Seq<u64> {
    seq![v.len() as u64] + ser_pairs_body(v)
}

/// The encoding of a boolean.
pub open spec fn ser_bool(b: bool) -> Seq<u64> {
    if b {
        seq![1u64]
    } else {
        seq![0u64]
    }
}

/// The numeric tag of an asset type.
pub open spec fn atype_tag(t: AssetType) -> u64 {
    match t {
        AssetType::DBTable => 0,
        AssetType::DBView => 1,
        AssetType::DBSchema => 2,
        AssetType::DBDB => 3,
        AssetType::DBWarehouse => 4,
        AssetType::Other => 5,
    }
}

/// The encoding of a list of asset types.
pub open spec fn ser_types_body(v: Seq<AssetType>) -> Seq<u64>
    decreases v.len(),
{
    if v.len() == 0 {
        Seq::empty()
    } else {
        seq![atype_tag(v[0])] + ser_types_body(v.drop_first())
    }
}

/// The encoding of an asset-type vector: its length, then its tags.
pub open spec fn ser_types(v: Seq<AssetType>) -> Seq<u64> {
    seq![v.len() as u64] + ser_types_body(v)
}

/// The numeric tag and the carried text of a user identifier.
pub open spec fn id_tag(i: UserIdentifier) -> u64 {
    match i {
        UserIdentifier::FirstName(_) => 0,
        UserIdentifier::LastName(_) => 1,
        UserIdentifier::FullName(_) => 2,
        UserIdentifier::Email(_) => 3,
        UserIdentifier::PlatformID(_) => 4,
    }
}

/// The text carried by a user identifier.
pub open spec fn id_text(i: UserIdentifier) -> Seq<char> {
    match i {
        UserIdentifier::FirstName(s) => s@,
        UserIdentifier::LastName(s) => s@,
        UserIdentifier::FullName(s) => s@,
        UserIdentifier::Email(s) => s@,
        UserIdentifier::PlatformID(s) => s@,
    }
}

/// The encoding of a list of user identifiers.
pub open spec fn ser_ids_body(v: Seq<UserIdentifier>) -> Seq<u64>
    decreases v.len(),
{
    if v.len() == 0 {
        Seq::empty()
    } else {
        seq![id_tag(v[0])] + ser_string(id_text(v[0])) + ser_ids_body(v.drop_first())
    }
}

/// The encoding of an identifier vector: its length, then its entries.
pub open spec fn ser_ids(v: Seq<UserIdentifier>) -> Seq<u64> {
    seq![v.len() as u64] + ser_ids_body(v)
}

/// The numeric tag of an edge kind.
pub open spec fn edge_tag(e: EdgeType) -> u64 {
    match e {
        EdgeType::MemberOf => 0,
        EdgeType::Includes => 1,
        EdgeType::ChildOf => 2,
        EdgeType::ParentOf => 3,
        EdgeType::DerivedFrom => 4,
        EdgeType::DerivedTo => 5,
        EdgeType::GovernedBy => 6,
        EdgeType::Governs => 7,
        EdgeType::AppliesTo => 8,
        EdgeType::GrantedTo => 9,
        EdgeType::TaggedAs => 10,
        EdgeType::AppliedTo => 11,
        EdgeType::RemovedFrom => 12,
        EdgeType::UntaggedAs => 13,
    }
}

/// The metadata views of an association list.
pub open spec fn pairs_views(v: Seq<(String, String)>) -> Seq<(Seq<char>, Seq<char>)> {
    v.map_values(|p: (String, String)| (p.0@, p.1@))
}

/// The encoding of one node: its variant tag, then its fields.
pub open spec fn ser_node(n: JettyNode) -> Seq<u64> {
    match n {
        JettyNode::Group(a) => seq![0u64] + ser_string(a.name@) + ser_string(a.origin.0@)
            + ser_pairs(pairs_views(a.metadata@)) + ser_strings(a.connectors.deep_view()),
        JettyNode::User(a) => seq![1u64] + ser_string(a.name@) + ser_ids(a.identifiers@)
            + ser_strings(a.other_identifiers.deep_view()) + ser_pairs(pairs_views(a.metadata@))
            + ser_strings(a.connectors.deep_view()),
        JettyNode::Asset(a) => seq![2u64] + ser_string(a.cual.text()) + ser_string(
            a.connector.0@,
        ) + seq![atype_tag(a.asset_type)] + ser_strings(a.path.deep_view()) + ser_pairs(
            pairs_views(a.metadata@),
        ) + ser_strings(a.connectors.deep_view()),
        JettyNode::Policy(a) => seq![3u64] + ser_string(a.name@) + ser_string(a.origin.0@)
            + ser_strings(a.privileges.deep_view()) + ser_bool(a.connector_managed) + ser_bool(
            a.pass_through_hierarchy,
        ) + ser_bool(a.pass_through_lineage) + ser_pairs(pairs_views(a.metadata@)) + ser_strings(
            a.connectors.deep_view(),
        ),
        JettyNode::DefaultPolicy(a) => seq![4u64] + ser_string(a.origin.0@) + ser_strings(
            a.root_path.deep_view(),
        ) + ser_string(a.wildcard_path@) + ser_types(a.target_types@) + ser_strings(
            a.privileges.deep_view(),
        ) + ser_bool(a.connector_managed) + ser_pairs(pairs_views(a.metadata@)) + ser_strings(
            a.connectors.deep_view(),
        ),
        JettyNode::Tag(a) => seq![5u64] + ser_string(a.name@) + ser_string(a.description@)
            + ser_bool(a.pass_through_hierarchy) + ser_bool(a.pass_through_lineage) + ser_strings(
            a.connectors.deep_view(),
        ),
        JettyNode::PolicyAgent(a) => seq![6u64] + ser_string(a.name@) + ser_strings(
            a.connectors.deep_view(),
        ),
    }
}

/// The encoding of the node list.
pub open spec fn ser_nodes_body(v: Seq<JettyNode>) -> Seq<u64>
    decreases v.len(),
{
    if v.len() == 0 {
        Seq::empty()
    } else {
        ser_node(v[0]) + ser_nodes_body(v.drop_first())
    }
}

/// The encoding of the edge list.
pub open spec fn ser_edges_body(v: Seq<(usize, usize, EdgeType)>) -> Seq<u64>
    decreases v.len(),
{
    if v.len() == 0 {
        Seq::empty()
    } else {
        seq![v[0].0 as u64, v[0].1 as u64, edge_tag(v[0].2)] + ser_edges_body(v.drop_first())
    }
}

/// The encoding of the whole graph: the schema version, the nodes, the
/// edges. Insertion order is preserved, so equal graphs serialize to
/// equal streams.
pub open spec fn ser_graph(g: Graph) -> Seq<u64> {
    seq![SCHEMA_VERSION, g.nodes@.len() as u64] + ser_nodes_body(g.nodes@) + seq![
        g.edges@.len() as u64,
    ] + ser_edges_body(g.edges@)
}

/// Append one string's encoding.
fn push_string(buf: &mut Vec<u64>, s: &String)
    ensures
        final(buf)@ == old(buf)@ + ser_string(s@),
{
    let n = s.as_str().unicode_len();
    buf.push(n as u64);
    let ghost mid = buf@;
    for i in 0..n
        invariant
            n == s@.len(),
            buf@ =~= mid + s@.map_values(|c: char| c as u64).take(i as int),
    {
        let c = s.as_str().get_char(i);
        buf.push(c as u64);
        proof {
            assert(buf@ =~= mid + s@.map_values(|c: char| c as u64).take(i + 1));
        }
    }
    proof {
        assert(s@.map_values(|c: char| c as u64).take(s@.len() as int) =~= s@.map_values(
            |c: char| c as u64,
        ));
        assert(final(buf)@ =~= old(buf)@ + ser_string(s@));
    }
}

/// Append a string vector's encoding.
fn push_strings(buf: &mut Vec<u64>, v: &Vec<String>)
    ensures
        final(buf)@ == old(buf)@ + ser_strings(v.deep_view()),
{
    buf.push(v.len() as u64);
    let ghost mid = buf@;
    for i in 0..v.len()
        invariant
            v.deep_view().len() == v.len(),
            buf@ =~= mid + ser_strings_body(v.deep_view().take(i as int)),
    {
        push_string(buf, &v[i]);
        proof {
            lemma_ser_strings_body_push(v.deep_view().take(i as int), v.deep_view()[i as int]);
            assert(v.deep_view().take(i + 1) =~= v.deep_view().take(i as int).push(
                v.deep_view()[i as int],
            ));
            assert(v.deep_view()[i as int] == v@[i as int]@);
            assert(buf@ =~= mid + ser_strings_body(v.deep_view().take(i + 1)));
        }
    }
    proof {
        assert(v.deep_view().take(v.len() as int) =~= v.deep_view());
        assert(final(buf)@ =~= old(buf)@ + ser_strings(v.deep_view()));
    }
}

/// Appending one string to a list appends its encoding to the body.
pub proof fn lemma_ser_strings_body_push(v: Seq<Seq<char>>, x: Seq<char>)
    ensures
        ser_strings_body(v.push(x)) == ser_strings_body(v) + ser_string(x),
    decreases v.len(),
{
    if v.len() == 0 {
        assert(v.push(x)[0] == x);
        assert(v.push(x).drop_first() =~= Seq::<Seq<char>>::empty());
        assert(ser_strings_body(v.push(x).drop_first()) =~= Seq::<u64>::empty());
        assert(ser_strings_body(v.push(x)) =~= ser_string(x));
        assert(ser_strings_body(v) + ser_string(x) =~= ser_string(x));
    } else {
        assert(v.push(x)[0] == v[0]);
        assert(v.push(x).drop_first() =~= v.drop_first().push(x));
        lemma_ser_strings_body_push(v.drop_first(), x);
        assert(ser_strings_body(v.push(x)) =~= ser_strings_body(v) + ser_string(x));
    }
}

/// Append a metadata map's encoding.
fn push_pairs(buf: &mut Vec<u64>, v: &Vec<(String, String)>)
    ensures
        final(buf)@ == old(buf)@ + ser_pairs(pairs_views(v@)),
{
    buf.push(v.len() as u64);
    let ghost mid = buf@;
    for i in 0..v.len()
        invariant
            pairs_views(v@).len() == v.len(),
            buf@ =~= mid + ser_pairs_body(pairs_views(v@).take(i as int)),
    {
        push_string(buf, &v[i].0);
        push_string(buf, &v[i].1);
        proof {
            lemma_ser_pairs_body_push(pairs_views(v@).take(i as int), pairs_views(v@)[i as int]);
            assert(pairs_views(v@).take(i + 1) =~= pairs_views(v@).take(i as int).push(
                pairs_views(v@)[i as int],
            ));
            assert(pairs_views(v@)[i as int] == (v@[i as int].0@, v@[i as int].1@));
            assert(buf@ =~= mid + ser_pairs_body(pairs_views(v@).take(i + 1)));
        }
    }
    proof {
        assert(pairs_views(v@).take(v.len() as int) =~= pairs_views(v@));
        assert(final(buf)@ =~= old(buf)@ + ser_pairs(pairs_views(v@)));
    }
}

/// Appending one entry to a map appends its encoding to the body.
pub proof fn lemma_ser_pairs_body_push(v: Seq<(Seq<char>, Seq<char>)>, x: (Seq<char>, Seq<char>))
    ensures
        ser_pairs_body(v.push(x)) == ser_pairs_body(v) + ser_string(x.0) + ser_string(x.1),
    decreases v.len(),
{
    if v.len() == 0 {
        assert(v.push(x)[0] == x);
        assert(v.push(x).drop_first() =~= Seq::<(Seq<char>, Seq<char>)>::empty());
        assert(ser_pairs_body(v.push(x).drop_first()) =~= Seq::<u64>::empty());
        assert(ser_pairs_body(v.push(x)) =~= ser_string(x.0) + ser_string(x.1));
        assert(ser_pairs_body(v) + ser_string(x.0) + ser_string(x.1) =~= ser_string(x.0)
            + ser_string(x.1));
    } else {
        assert(v.push(x)[0] == v[0]);
        assert(v.push(x).drop_first() =~= v.drop_first().push(x));
        lemma_ser_pairs_body_push(v.drop_first(), x);
        assert(ser_pairs_body(v.push(x)) =~= ser_pairs_body(v) + ser_string(x.0) + ser_string(
            x.1,
        ));
    }
}

/// Append a boolean's encoding.
fn push_bool(buf: &mut Vec<u64>, b: bool)
    ensures
        final(buf)@ == old(buf)@ + ser_bool(b),
{
    if b {
        buf.push(1u64);
    } else {
        buf.push(0u64);
    }
    proof {
        assert(final(buf)@ =~= old(buf)@ + ser_bool(b));
    }
}

/// Append an asset-type vector's encoding.
fn push_types(buf: &mut Vec<u64>, v: &Vec<AssetType>)
    ensures
        final(buf)@ == old(buf)@ + ser_types(v@),
{
    buf.push(v.len() as u64);
    let ghost mid = buf@;
    for i in 0..v.len()
        invariant
            buf@ =~= mid + ser_types_body(v@.take(i as int)),
    {
        let t = v[i];
        let tag: u64 = match t {
            AssetType::DBTable => 0,
            AssetType::DBView => 1,
            AssetType::DBSchema => 2,
            AssetType::DBDB => 3,
            AssetType::DBWarehouse => 4,
            AssetType::Other => 5,
        };
        buf.push(tag);
        proof {
            lemma_ser_types_body_push(v@.take(i as int), v@[i as int]);
            assert(v@.take(i + 1) =~= v@.take(i as int).push(v@[i as int]));
            assert(buf@ =~= mid + ser_types_body(v@.take(i + 1)));
        }
    }
    proof {
        assert(v@.take(v.len() as int) =~= v@);
        assert(final(buf)@ =~= old(buf)@ + ser_types(v@));
    }
}

/// Appending one asset type appends its tag to the body.
pub proof fn lemma_ser_types_body_push(v: Seq<AssetType>, x: AssetType)
    ensures
        ser_types_body(v.push(x)) == ser_types_body(v) + seq![atype_tag(x)],
    decreases v.len(),
{
    if v.len() == 0 {
        assert(v.push(x)[0] == x);
        assert(v.push(x).drop_first() =~= Seq::<AssetType>::empty());
        assert(ser_types_body(v.push(x).drop_first()) =~= Seq::<u64>::empty());
        assert(ser_types_body(v.push(x)) =~= seq![atype_tag(x)]);
        assert(ser_types_body(v) + seq![atype_tag(x)] =~= seq![atype_tag(x)]);
    } else {
        assert(v.push(x)[0] == v[0]);
        assert(v.push(x).drop_first() =~= v.drop_first().push(x));
        lemma_ser_types_body_push(v.drop_first(), x);
        assert(ser_types_body(v.push(x)) =~= ser_types_body(v) + seq![atype_tag(x)]);
    }
}

/// Append an identifier vector's encoding.
fn push_ids(buf: &mut Vec<u64>, v: &Vec<UserIdentifier>)
    ensures
        final(buf)@ == old(buf)@ + ser_ids(v@),
{
    buf.push(v.len() as u64);
    let ghost mid = buf@;
    for i in 0..v.len()
        invariant
            buf@ =~= mid + ser_ids_body(v@.take(i as int)),
    {
        match &v[i] {
            UserIdentifier::FirstName(s) => {
                buf.push(0u64);
                push_string(buf, s);
            },
            UserIdentifier::LastName(s) => {
                buf.push(1u64);
                push_string(buf, s);
            },
            UserIdentifier::FullName(s) => {
                buf.push(2u64);
                push_string(buf, s);
            },
            UserIdentifier::Email(s) => {
                buf.push(3u64);
                push_string(buf, s);
            },
            UserIdentifier::PlatformID(s) => {
                buf.push(4u64);
                push_string(buf, s);
            },
        }
        proof {
            lemma_ser_ids_body_push(v@.take(i as int), v@[i as int]);
            assert(v@.take(i + 1) =~= v@.take(i as int).push(v@[i as int]));
            assert(buf@ =~= mid + ser_ids_body(v@.take(i + 1)));
        }
    }
    proof {
        assert(v@.take(v.len() as int) =~= v@);
        assert(final(buf)@ =~= old(buf)@ + ser_ids(v@));
    }
}

/// Appending one identifier appends its encoding to the body.
pub proof fn lemma_ser_ids_body_push(v: Seq<UserIdentifier>, x: UserIdentifier)
    ensures
        ser_ids_body(v.push(x)) == ser_ids_body(v) + seq![id_tag(x)] + ser_string(id_text(x)),
    decreases v.len(),
{
    if v.len() == 0 {
        assert(v.push(x)[0] == x);
        assert(v.push(x).drop_first() =~= Seq::<UserIdentifier>::empty());
        assert(ser_ids_body(v.push(x).drop_first()) =~= Seq::<u64>::empty());
        assert(ser_ids_body(v.push(x)) =~= seq![id_tag(x)] + ser_string(id_text(x)));
        assert(ser_ids_body(v) + seq![id_tag(x)] + ser_string(id_text(x)) =~= seq![id_tag(x)]
            + ser_string(id_text(x)));
    } else {
        assert(v.push(x)[0] == v[0]);
        assert(v.push(x).drop_first() =~= v.drop_first().push(x));
        lemma_ser_ids_body_push(v.drop_first(), x);
        assert(ser_ids_body(v.push(x)) =~= ser_ids_body(v) + seq![id_tag(x)] + ser_string(
            id_text(x),
        ));
    }
}

/// Append one node's encoding.
#[verifier::rlimit(100)]
fn push_node(buf: &mut Vec<u64>, n: &JettyNode)
    ensures
        final(buf)@ == old(buf)@ + ser_node(*n),
{
    match n {
        JettyNode::Group(a) => {
            buf.push(0u64);
            push_string(buf, &a.name);
            push_string(buf, &a.origin.0);
            push_pairs(buf, &a.metadata);
            push_strings(buf, &a.connectors);
            proof {
                assert(buf@ =~= old(buf)@ + ser_node(*n));
            }
        },
        JettyNode::User(a) => {
            buf.push(1u64);
            push_string(buf, &a.name);
            push_ids(buf, &a.identifiers);
            push_strings(buf, &a.other_identifiers);
            push_pairs(buf, &a.metadata);
            push_strings(buf, &a.connectors);
            proof {
                assert(buf@ =~= old(buf)@ + ser_node(*n));
            }
        },
        JettyNode::Asset(a) => {
            buf.push(2u64);
            let uri = a.cual.uri();
            push_string(buf, &uri);
            push_string(buf, &a.connector.0);
            let tag: u64 = match a.asset_type {
                AssetType::DBTable => 0,
                AssetType::DBView => 1,
                AssetType::DBSchema => 2,
                AssetType::DBDB => 3,
                AssetType::DBWarehouse => 4,
                AssetType::Other => 5,
            };
            buf.push(tag);
            push_strings(buf, &a.path);
            push_pairs(buf, &a.metadata);
            push_strings(buf, &a.connectors);
            proof {
                assert(buf@ =~= old(buf)@ + ser_node(*n));
            }
        },
        JettyNode::Policy(a) => {
            buf.push(3u64);
            push_string(buf, &a.name);
            push_string(buf, &a.origin.0);
            push_strings(buf, &a.privileges);
            push_bool(buf, a.connector_managed);
            push_bool(buf, a.pass_through_hierarchy);
            push_bool(buf, a.pass_through_lineage);
            push_pairs(buf, &a.metadata);
            push_strings(buf, &a.connectors);
            proof {
                assert(buf@ =~= old(buf)@ + ser_node(*n));
            }
        },
        JettyNode::DefaultPolicy(a) => {
            buf.push(4u64);
            push_string(buf, &a.origin.0);
            push_strings(buf, &a.root_path);
            push_string(buf, &a.wildcard_path);
            push_types(buf, &a.target_types);
            push_strings(buf, &a.privileges);
            push_bool(buf, a.connector_managed);
            push_pairs(buf, &a.metadata);
            push_strings(buf, &a.connectors);
            proof {
                assert(buf@ =~= old(buf)@ + ser_node(*n));
            }
        },
        JettyNode::Tag(a) => {
            buf.push(5u64);
            push_string(buf, &a.name);
            push_string(buf, &a.description);
            push_bool(buf, a.pass_through_hierarchy);
            push_bool(buf, a.pass_through_lineage);
            push_strings(buf, &a.connectors);
            proof {
                assert(buf@ =~= old(buf)@ + ser_node(*n));
            }
        },
        JettyNode::PolicyAgent(a) => {
            buf.push(6u64);
            push_string(buf, &a.name);
            push_strings(buf, &a.connectors);
            proof {
                assert(buf@ =~= old(buf)@ + ser_node(*n));
            }
        },
    }
}

/// Appending one node appends its encoding to the body.
pub proof fn lemma_ser_nodes_body_push(v: Seq<JettyNode>, x: JettyNode)
    ensures
        ser_nodes_body(v.push(x)) == ser_nodes_body(v) + ser_node(x),
    decreases v.len(),
{
    if v.len() == 0 {
        assert(v.push(x)[0] == x);
        assert(v.push(x).drop_first() =~= Seq::<JettyNode>::empty());
        assert(ser_nodes_body(v.push(x).drop_first()) =~= Seq::<u64>::empty());
        assert(ser_nodes_body(v.push(x)) =~= ser_node(x));
        assert(ser_nodes_body(v) + ser_node(x) =~= ser_node(x));
    } else {
        assert(v.push(x)[0] == v[0]);
        assert(v.push(x).drop_first() =~= v.drop_first().push(x));
        lemma_ser_nodes_body_push(v.drop_first(), x);
        assert(ser_nodes_body(v.push(x)) =~= ser_nodes_body(v) + ser_node(x));
    }
}

/// Appending one edge appends its encoding to the body.
pub proof fn lemma_ser_edges_body_push(v: Seq<(usize, usize, EdgeType)>, x: (usize, usize, EdgeType))
    ensures
        ser_edges_body(v.push(x)) == ser_edges_body(v) + seq![
            x.0 as u64,
            x.1 as u64,
            edge_tag(x.2),
        ],
    decreases v.len(),
{
    if v.len() == 0 {
        assert(v.push(x)[0] == x);
        assert(v.push(x).drop_first() =~= Seq::<(usize, usize, EdgeType)>::empty());
        assert(ser_edges_body(v.push(x).drop_first()) =~= Seq::<u64>::empty());
        assert(ser_edges_body(v.push(x)) =~= seq![x.0 as u64, x.1 as u64, edge_tag(x.2)]);
        assert(ser_edges_body(v) + seq![x.0 as u64, x.1 as u64, edge_tag(x.2)] =~= seq![
            x.0 as u64,
            x.1 as u64,
            edge_tag(x.2),
        ]);
    } else {
        assert(v.push(x)[0] == v[0]);
        assert(v.push(x).drop_first() =~= v.drop_first().push(x));
        lemma_ser_edges_body_push(v.drop_first(), x);
        assert(ser_edges_body(v.push(x)) =~= ser_edges_body(v) + seq![
            x.0 as u64,
            x.1 as u64,
            edge_tag(x.2),
        ]);
    }
}

/// Serialize the graph to its token stream. The stream is a pure function
/// of the graph's content: equal graphs give equal streams, which is what
/// makes builds reproducible byte for byte.
pub fn serialize_graph(g: &Graph) -> (r: Vec<u64>)
    ensures
        r@ == ser_graph(*g),
{
    let mut buf: Vec<u64> = Vec::new();
    buf.push(SCHEMA_VERSION);
    buf.push(g.nodes.len() as u64);
    let ghost mid = buf@;
    for i in 0..g.nodes.len()
        invariant
            buf@ =~= mid + ser_nodes_body(g.nodes@.take(i as int)),
    {
        push_node(&mut buf, &g.nodes[i]);
        proof {
            lemma_ser_nodes_body_push(g.nodes@.take(i as int), g.nodes@[i as int]);
            assert(g.nodes@.take(i + 1) =~= g.nodes@.take(i as int).push(g.nodes@[i as int]));
            assert(buf@ =~= mid + ser_nodes_body(g.nodes@.take(i + 1)));
        }
    }
    proof {
        assert(g.nodes@.take(g.nodes@.len() as int) =~= g.nodes@);
    }
    buf.push(g.edges.len() as u64);
    let ghost mid2 = buf@;
    for i in 0..g.edges.len()
        invariant
            buf@ =~= mid2 + ser_edges_body(g.edges@.take(i as int)),
    {
        let e = g.edges[i];
        buf.push(e.0 as u64);
        buf.push(e.1 as u64);
        let tag: u64 = match e.2 {
            EdgeType::MemberOf => 0,
            EdgeType::Includes => 1,
            EdgeType::ChildOf => 2,
            EdgeType::ParentOf => 3,
            EdgeType::DerivedFrom => 4,
            EdgeType::DerivedTo => 5,
            EdgeType::GovernedBy => 6,
            EdgeType::Governs => 7,
            EdgeType::AppliesTo => 8,
            EdgeType::GrantedTo => 9,
            EdgeType::TaggedAs => 10,
            EdgeType::AppliedTo => 11,
            EdgeType::RemovedFrom => 12,
            EdgeType::UntaggedAs => 13,
        };
        buf.push(tag);
        proof {
            lemma_ser_edges_body_push(g.edges@.take(i as int), g.edges@[i as int]);
            assert(g.edges@.take(i + 1) =~= g.edges@.take(i as int).push(g.edges@[i as int]));
            assert(buf@ =~= mid2 + ser_edges_body(g.edges@.take(i + 1)));
        }
    }
    proof {
        assert(g.edges@.take(g.edges@.len() as int) =~= g.edges@);
        assert(buf@ =~= ser_graph(*g));
    }
    buf
}

/// Build is deterministic: two graphs with the same content serialize to
/// the same stream, because the stream is a function of the content
/// alone.
pub proof fn lemma_serialize_deterministic(g1: Graph, g2: Graph)
    requires
        g1 == g2,
    ensures
        ser_graph(g1) == ser_graph(g2),
{
}


/// Read one word.
fn read_word(buf: &Vec<u64>, pos: &mut usize) -> (r: Result<u64, IntegrityError>)
    ensures
        match r {
            Ok(w) => *old(pos) < buf@.len() && *final(pos) == *old(pos) + 1 && w == buf@[
                *old(pos) as int
            ],
            Err(_) => *final(pos) == *old(pos),
        },
{
    if *pos < buf.len() {
        let w = buf[*pos];
        *pos = *pos + 1;
        Ok(w)
    } else {
        Err(IntegrityError::Corrupt)
    }
}

/// Read one string; on success the words consumed are exactly the
/// string's encoding.
fn de_string(buf: &Vec<u64>, pos: &mut usize) -> (r: Result<String, IntegrityError>)
    ensures
        match r {
            Ok(s) => *old(pos) <= *final(pos) <= buf@.len() && buf@.subrange(
                *old(pos) as int,
                *final(pos) as int,
            ) == ser_string(s@),
            Err(_) => true,
        },
{
    let ghost start = *pos;
    let n64 = match read_word(buf, pos) {
        Ok(w) => w,
        Err(e) => {
            return Err(e);
        },
    };
    if n64 > (buf.len() - *pos) as u64 {
        return Err(IntegrityError::Corrupt);
    }
    let n = n64 as usize;
    let mut s = String::new();
    let ghost cstart = *pos;
    for i in 0..n
        invariant
            cstart == start + 1,
            *pos == cstart + i,
            cstart + n <= buf@.len(),
            s@.len() == i,
            buf@.subrange(cstart as int, *pos as int) =~= s@.map_values(|c: char| c as u64),
            buf@[start as int] == n64,
            n64 == n as u64,
    {
        let w = match read_word(buf, pos) {
            Ok(w) => w,
            Err(e) => {
                return Err(e);
            },
        };
        if w > 0x10FFFF {
            return Err(IntegrityError::Corrupt);
        }
        let c = match char::from_u32(w as u32) {
            Some(c) => c,
            None => {
                return Err(IntegrityError::Corrupt);
            },
        };
        let ghost olds = s@;
        s.push(c);
        proof {
            assert((w as u32) as u64 == w);
            assert(c as u64 == (w as u32) as u64);
            assert(c as u64 == w);
            assert(s@ =~= olds.push(c));
            assert(s@.map_values(|c: char| c as u64) =~= olds.map_values(|c: char| c as u64)
                .push(w));
            assert(buf@.subrange(cstart as int, *pos as int) =~= buf@.subrange(
                cstart as int,
                (*pos - 1) as int,
            ).push(w));
        }
    }
    proof {
        assert(s@.len() as u64 == n64);
        assert(buf@.subrange(start as int, *pos as int) =~= ser_string(s@));
    }
    Ok(s)
}

/// Read a string vector; on success the words consumed are exactly its
/// encoding.
fn de_strings(buf: &Vec<u64>, pos: &mut usize) -> (r: Result<Vec<String>, IntegrityError>)
    ensures
        match r {
            Ok(v) => *old(pos) <= *final(pos) <= buf@.len() && buf@.subrange(
                *old(pos) as int,
                *final(pos) as int,
            ) == ser_strings(v.deep_view()),
            Err(_) => true,
        },
{
    let ghost start = *pos;
    let n64 = match read_word(buf, pos) {
        Ok(w) => w,
        Err(e) => {
            return Err(e);
        },
    };
    if n64 > (buf.len() - *pos) as u64 {
        return Err(IntegrityError::Corrupt);
    }
    let n = n64 as usize;
    let mut v: Vec<String> = Vec::new();
    let ghost cstart = *pos;
    for i in 0..n
        invariant
            cstart == start + 1,
            cstart <= *pos <= buf@.len(),
            v@.len() == i,
            v.deep_view().len() == i,
            buf@.subrange(cstart as int, *pos as int) =~= ser_strings_body(v.deep_view()),
            buf@[start as int] == n64,
            n64 == n as u64,
    {
        let s = match de_string(buf, pos) {
            Ok(s) => s,
            Err(e) => {
                return Err(e);
            },
        };
        let ghost prev = v.deep_view();
        let ghost p0 = *pos;
        v.push(s);
        proof {
            assert(v.deep_view() =~= prev.push(s@));
            lemma_ser_strings_body_push(prev, s@);
            assert(buf@.subrange(cstart as int, *pos as int) =~= ser_strings_body(
                v.deep_view(),
            ));
        }
    }
    proof {
        assert(v.deep_view().len() as u64 == n64);
        assert(buf@.subrange(start as int, *pos as int) =~= ser_strings(v.deep_view()));
    }
    Ok(v)
}

/// Read a metadata map; on success the words consumed are exactly its
/// encoding.
fn de_pairs(buf: &Vec<u64>, pos: &mut usize) -> (r: Result<Vec<(String, String)>, IntegrityError>)
    ensures
        match r {
            Ok(v) => *old(pos) <= *final(pos) <= buf@.len() && buf@.subrange(
                *old(pos) as int,
                *final(pos) as int,
            ) == ser_pairs(pairs_views(v@)),
            Err(_) => true,
        },
{
    let ghost start = *pos;
    let n64 = match read_word(buf, pos) {
        Ok(w) => w,
        Err(e) => {
            return Err(e);
        },
    };
    if n64 > (buf.len() - *pos) as u64 {
        return Err(IntegrityError::Corrupt);
    }
    let n = n64 as usize;
    let mut v: Vec<(String, String)> = Vec::new();
    let ghost cstart = *pos;
    for i in 0..n
        invariant
            cstart == start + 1,
            cstart <= *pos <= buf@.len(),
            v@.len() == i,
            buf@.subrange(cstart as int, *pos as int) =~= ser_pairs_body(pairs_views(v@)),
            buf@[start as int] == n64,
            n64 == n as u64,
    {
        let k = match de_string(buf, pos) {
            Ok(s) => s,
            Err(e) => {
                return Err(e);
            },
        };
        let val = match de_string(buf, pos) {
            Ok(s) => s,
            Err(e) => {
                return Err(e);
            },
        };
        let ghost prev = pairs_views(v@);
        v.push((k, val));
        proof {
            assert(pairs_views(v@) =~= prev.push((v@.last().0@, v@.last().1@)));
            lemma_ser_pairs_body_push(prev, (v@.last().0@, v@.last().1@));
            assert(buf@.subrange(cstart as int, *pos as int) =~= ser_pairs_body(
                pairs_views(v@),
            ));
        }
    }
    proof {
        assert(pairs_views(v@).len() as u64 == n64);
        assert(buf@.subrange(start as int, *pos as int) =~= ser_pairs(pairs_views(v@)));
    }
    Ok(v)
}

/// Read a boolean; on success the word consumed is exactly its encoding.
fn de_bool(buf: &Vec<u64>, pos: &mut usize) -> (r: Result<bool, IntegrityError>)
    ensures
        match r {
            Ok(b) => *old(pos) <= *final(pos) <= buf@.len() && buf@.subrange(
                *old(pos) as int,
                *final(pos) as int,
            ) == ser_bool(b),
            Err(_) => true,
        },
{
    let w = match read_word(buf, pos) {
        Ok(w) => w,
        Err(e) => {
            return Err(e);
        },
    };
    if w == 1 {
        proof {
            assert(buf@.subrange((*pos - 1) as int, *pos as int) =~= ser_bool(true));
        }
        Ok(true)
    } else if w == 0 {
        proof {
            assert(buf@.subrange((*pos - 1) as int, *pos as int) =~= ser_bool(false));
        }
        Ok(false)
    } else {
        Err(IntegrityError::Corrupt)
    }
}

/// Read an asset-type vector; on success the words consumed are exactly
/// its encoding.
fn de_types(buf: &Vec<u64>, pos: &mut usize) -> (r: Result<Vec<AssetType>, IntegrityError>)
    ensures
        match r {
            Ok(v) => *old(pos) <= *final(pos) <= buf@.len() && buf@.subrange(
                *old(pos) as int,
                *final(pos) as int,
            ) == ser_types(v@),
            Err(_) => true,
        },
{
    let ghost start = *pos;
    let n64 = match read_word(buf, pos) {
        Ok(w) => w,
        Err(e) => {
            return Err(e);
        },
    };
    if n64 > (buf.len() - *pos) as u64 {
        return Err(IntegrityError::Corrupt);
    }
    let n = n64 as usize;
    let mut v: Vec<AssetType> = Vec::new();
    let ghost cstart = *pos;
    for i in 0..n
        invariant
            cstart == start + 1,
            cstart <= *pos <= buf@.len(),
            v@.len() == i,
            buf@.subrange(cstart as int, *pos as int) =~= ser_types_body(v@),
            buf@[start as int] == n64,
            n64 == n as u64,
    {
        let w = match read_word(buf, pos) {
            Ok(w) => w,
            Err(e) => {
                return Err(e);
            },
        };
        let t = match w {
            0 => AssetType::DBTable,
            1 => AssetType::DBView,
            2 => AssetType::DBSchema,
            3 => AssetType::DBDB,
            4 => AssetType::DBWarehouse,
            5 => AssetType::Other,
            _ => {
                return Err(IntegrityError::Corrupt);
            },
        };
        let ghost prev = v@;
        v.push(t);
        proof {
            lemma_ser_types_body_push(prev, t);
            assert(v@ =~= prev.push(t));
            assert(buf@.subrange(cstart as int, *pos as int) =~= ser_types_body(v@));
        }
    }
    proof {
        assert(v@.len() as u64 == n64);
        assert(buf@.subrange(start as int, *pos as int) =~= ser_types(v@));
    }
    Ok(v)
}

/// Read an identifier vector; on success the words consumed are exactly
/// its encoding.
fn de_ids(buf: &Vec<u64>, pos: &mut usize) -> (r: Result<Vec<UserIdentifier>, IntegrityError>)
    ensures
        match r {
            Ok(v) => *old(pos) <= *final(pos) <= buf@.len() && buf@.subrange(
                *old(pos) as int,
                *final(pos) as int,
            ) == ser_ids(v@),
            Err(_) => true,
        },
{
    let ghost start = *pos;
    let n64 = match read_word(buf, pos) {
        Ok(w) => w,
        Err(e) => {
            return Err(e);
        },
    };
    if n64 > (buf.len() - *pos) as u64 {
        return Err(IntegrityError::Corrupt);
    }
    let n = n64 as usize;
    let mut v: Vec<UserIdentifier> = Vec::new();
    let ghost cstart = *pos;
    for i in 0..n
        invariant
            cstart == start + 1,
            cstart <= *pos <= buf@.len(),
            v@.len() == i,
            buf@.subrange(cstart as int, *pos as int) =~= ser_ids_body(v@),
            buf@[start as int] == n64,
            n64 == n as u64,
    {
        let w = match read_word(buf, pos) {
            Ok(w) => w,
            Err(e) => {
                return Err(e);
            },
        };
        if w > 4 {
            return Err(IntegrityError::Corrupt);
        }
        let s = match de_string(buf, pos) {
            Ok(s) => s,
            Err(e) => {
                return Err(e);
            },
        };
        let id = match w {
            0 => UserIdentifier::FirstName(s),
            1 => UserIdentifier::LastName(s),
            2 => UserIdentifier::FullName(s),
            3 => UserIdentifier::Email(s),
            _ => UserIdentifier::PlatformID(s),
        };
        let ghost prev = v@;
        v.push(id);
        proof {
            lemma_ser_ids_body_push(prev, id);
            assert(v@ =~= prev.push(id));
            assert(buf@.subrange(cstart as int, *pos as int) =~= ser_ids_body(v@));
        }
    }
    proof {
        assert(v@.len() as u64 == n64);
        assert(buf@.subrange(start as int, *pos as int) =~= ser_ids(v@));
    }
    Ok(v)
}

/// Read one node; on success the words consumed are exactly its encoding.
#[verifier::rlimit(100)]
fn de_node(buf: &Vec<u64>, pos: &mut usize) -> (r: Result<JettyNode, IntegrityError>)
    ensures
        match r {
            Ok(n) => *old(pos) <= *final(pos) <= buf@.len() && buf@.subrange(
                *old(pos) as int,
                *final(pos) as int,
            ) == ser_node(n),
            Err(_) => true,
        },
{
    let ghost start = *pos;
    let tag = match read_word(buf, pos) {
        Ok(w) => w,
        Err(e) => {
            return Err(e);
        },
    };
    if tag == 0 {
        let name = de_string(buf, pos)?;
        let origin = de_string(buf, pos)?;
        let metadata = de_pairs(buf, pos)?;
        let connectors = de_strings(buf, pos)?;
        let n = JettyNode::Group(
            GroupAttributes { name, origin: ConnectorNamespace(origin), metadata, connectors },
        );
        proof {
            assert(buf@.subrange(start as int, *pos as int) =~= ser_node(n));
        }
        Ok(n)
    } else if tag == 1 {
        let name = de_string(buf, pos)?;
        let identifiers = de_ids(buf, pos)?;
        let other_identifiers = de_strings(buf, pos)?;
        let metadata = de_pairs(buf, pos)?;
        let connectors = de_strings(buf, pos)?;
        let n = JettyNode::User(
            UserAttributes { name, identifiers, other_identifiers, metadata, connectors },
        );
        proof {
            assert(buf@.subrange(start as int, *pos as int) =~= ser_node(n));
        }
        Ok(n)
    } else if tag == 2 {
        let uri = de_string(buf, pos)?;
        let connector = de_string(buf, pos)?;
        let tw = match read_word(buf, pos) {
            Ok(w) => w,
            Err(e) => {
                return Err(e);
            },
        };
        let asset_type = match tw {
            0 => AssetType::DBTable,
            1 => AssetType::DBView,
            2 => AssetType::DBSchema,
            3 => AssetType::DBDB,
            4 => AssetType::DBWarehouse,
            5 => AssetType::Other,
            _ => {
                return Err(IntegrityError::Corrupt);
            },
        };
        let path = de_strings(buf, pos)?;
        let metadata = de_pairs(buf, pos)?;
        let connectors = de_strings(buf, pos)?;
        let n = JettyNode::Asset(
            AssetAttributes {
                cual: Cual::new(uri),
                connector: ConnectorNamespace(connector),
                asset_type,
                path,
                metadata,
                connectors,
            },
        );
        proof {
            assert(buf@.subrange(start as int, *pos as int) =~= ser_node(n));
        }
        Ok(n)
    } else if tag == 3 {
        let name = de_string(buf, pos)?;
        let origin = de_string(buf, pos)?;
        let privileges = de_strings(buf, pos)?;
        let connector_managed = de_bool(buf, pos)?;
        let pass_through_hierarchy = de_bool(buf, pos)?;
        let pass_through_lineage = de_bool(buf, pos)?;
        let metadata = de_pairs(buf, pos)?;
        let connectors = de_strings(buf, pos)?;
        let n = JettyNode::Policy(
            PolicyAttributes {
                name,
                origin: ConnectorNamespace(origin),
                privileges,
                connector_managed,
                pass_through_hierarchy,
                pass_through_lineage,
                metadata,
                connectors,
            },
        );
        proof {
            assert(buf@.subrange(start as int, *pos as int) =~= ser_node(n));
        }
        Ok(n)
    } else if tag == 4 {
        let origin = de_string(buf, pos)?;
        let root_path = de_strings(buf, pos)?;
        let wildcard_path = de_string(buf, pos)?;
        let target_types = de_types(buf, pos)?;
        let privileges = de_strings(buf, pos)?;
        let connector_managed = de_bool(buf, pos)?;
        let metadata = de_pairs(buf, pos)?;
        let connectors = de_strings(buf, pos)?;
        let n = JettyNode::DefaultPolicy(
            DefaultPolicyAttributes {
                origin: ConnectorNamespace(origin),
                root_path,
                wildcard_path,
                target_types,
                privileges,
                connector_managed,
                metadata,
                connectors,
            },
        );
        proof {
            assert(buf@.subrange(start as int, *pos as int) =~= ser_node(n));
        }
        Ok(n)
    } else if tag == 5 {
        let name = de_string(buf, pos)?;
        let description = de_string(buf, pos)?;
        let pass_through_hierarchy = de_bool(buf, pos)?;
        let pass_through_lineage = de_bool(buf, pos)?;
        let connectors = de_strings(buf, pos)?;
        let n = JettyNode::Tag(
            TagAttributes {
                name,
                description,
                pass_through_hierarchy,
                pass_through_lineage,
                connectors,
            },
        );
        proof {
            assert(buf@.subrange(start as int, *pos as int) =~= ser_node(n));
        }
        Ok(n)
    } else if tag == 6 {
        let name = de_string(buf, pos)?;
        let connectors = de_strings(buf, pos)?;
        let n = JettyNode::PolicyAgent(PolicyAgentAttributes { name, connectors });
        proof {
            assert(buf@.subrange(start as int, *pos as int) =~= ser_node(n));
        }
        Ok(n)
    } else {
        Err(IntegrityError::Corrupt)
    }
}

/// Read the graph back from its token stream. The loader refuses a
/// stream written under another schema version, and any stream that does
/// not decode to a well-formed, symmetric graph consuming every word.
/// On success the whole stream is exactly the returned graph's encoding:
/// loading inverts saving, up to the encoding.
pub fn deserialize_graph(buf: &Vec<u64>) -> (r: Result<Graph, IntegrityError>)
    ensures
        match r {
            Ok(g) => buf@ == ser_graph(g) && g.wf() && g.symmetric(),
            Err(_) => true,
        },
{
    let mut pos: usize = 0;
    let version = match read_word(buf, &mut pos) {
        Ok(w) => w,
        Err(e) => {
            return Err(e);
        },
    };
    if version != SCHEMA_VERSION {
        return Err(IntegrityError::VersionMismatch);
    }
    let n64 = match read_word(buf, &mut pos) {
        Ok(w) => w,
        Err(e) => {
            return Err(e);
        },
    };
    if n64 > buf.len() as u64 {
        return Err(IntegrityError::Corrupt);
    }
    let n = n64 as usize;
    let mut nodes: Vec<JettyNode> = Vec::new();
    let ghost cstart = pos;
    for i in 0..n
        invariant
            cstart == 2,
            cstart <= pos <= buf@.len(),
            nodes@.len() == i,
            buf@.subrange(cstart as int, pos as int) =~= ser_nodes_body(nodes@),
            buf@[0] == SCHEMA_VERSION,
            buf@[1] == n64,
            n64 == n as u64,
    {
        let nd = match de_node(buf, &mut pos) {
            Ok(nd) => nd,
            Err(e) => {
                return Err(e);
            },
        };
        let ghost prev = nodes@;
        nodes.push(nd);
        proof {
            lemma_ser_nodes_body_push(prev, nd);
            assert(nodes@ =~= prev.push(nd));
            assert(buf@.subrange(cstart as int, pos as int) =~= ser_nodes_body(nodes@));
        }
    }
    let ghost estart0 = pos;
    let e64 = match read_word(buf, &mut pos) {
        Ok(w) => w,
        Err(e) => {
            return Err(e);
        },
    };
    if e64 > buf.len() as u64 {
        return Err(IntegrityError::Corrupt);
    }
    let ecount = e64 as usize;
    let mut edges: Vec<(usize, usize, EdgeType)> = Vec::new();
    let ghost estart = pos;
    for i in 0..ecount
        invariant
            estart == estart0 + 1,
            estart <= pos <= buf@.len(),
            edges@.len() == i,
            buf@.subrange(estart as int, pos as int) =~= ser_edges_body(edges@),
            buf@[estart0 as int] == e64,
            e64 == ecount as u64,
            forall|j: int|
                0 <= j < edges@.len() ==> (#[trigger] edges@[j]).0 < nodes@.len()
                    && edges@[j].1 < nodes@.len(),
    {
        let fw = match read_word(buf, &mut pos) {
            Ok(w) => w,
            Err(e) => {
                return Err(e);
            },
        };
        let tw2 = match read_word(buf, &mut pos) {
            Ok(w) => w,
            Err(e) => {
                return Err(e);
            },
        };
        let k64 = match read_word(buf, &mut pos) {
            Ok(w) => w,
            Err(e) => {
                return Err(e);
            },
        };
        if fw >= nodes.len() as u64 || tw2 >= nodes.len() as u64 {
            return Err(IntegrityError::Corrupt);
        }
        let from = fw as usize;
        let to = tw2 as usize;
        let kind = match k64 {
            0 => EdgeType::MemberOf,
            1 => EdgeType::Includes,
            2 => EdgeType::ChildOf,
            3 => EdgeType::ParentOf,
            4 => EdgeType::DerivedFrom,
            5 => EdgeType::DerivedTo,
            6 => EdgeType::GovernedBy,
            7 => EdgeType::Governs,
            8 => EdgeType::AppliesTo,
            9 => EdgeType::GrantedTo,
            10 => EdgeType::TaggedAs,
            11 => EdgeType::AppliedTo,
            12 => EdgeType::RemovedFrom,
            13 => EdgeType::UntaggedAs,
            _ => {
                return Err(IntegrityError::Corrupt);
            },
        };
        let ghost prev = edges@;
        edges.push((from, to, kind));
        proof {
            lemma_ser_edges_body_push(prev, (from, to, kind));
            assert(edges@ =~= prev.push((from, to, kind)));
            assert(buf@.subrange(estart as int, pos as int) =~= ser_edges_body(edges@));
        }
    }
    if pos != buf.len() {
        return Err(IntegrityError::Corrupt);
    }
    let g = Graph { nodes, edges };
    if !check_graph(&g) {
        return Err(IntegrityError::Corrupt);
    }
    proof {
        assert(buf@ =~= ser_graph(g));
    }
    Ok(g)
}

/// Check the structural invariants: well-formed nodes, unique names,
/// edge endpoints in range, and an inverse for every edge.
fn check_graph(g: &Graph) -> (r: bool)
    ensures
        r ==> g.wf() && g.symmetric(),
{
    for i in 0..g.nodes.len()
        invariant
            forall|j: int| 0 <= j < i ==> (#[trigger] g.nodes@[j]).wf(),
    {
        if !check_node(&g.nodes[i]) {
            return false;
        }
    }
    for i in 0..g.nodes.len()
        invariant
            forall|a: int, b: int|
                0 <= a < b < g.nodes@.len() && b < i ==> (#[trigger] g.nodes@[a]).name_key()
                    != (#[trigger] g.nodes@[b]).name_key(),
    {
        let name = g.nodes[i].get_name();
        for j in 0..i
            invariant
                i < g.nodes@.len(),
                name.key() == g.nodes@[i as int].name_key(),
                forall|a: int, b: int|
                    0 <= a < b < g.nodes@.len() && b < i ==> (
                    #[trigger] g.nodes@[a]).name_key() != (#[trigger] g.nodes@[b]).name_key(),
                forall|a: int|
                    0 <= a < j ==> (#[trigger] g.nodes@[a]).name_key()
                        != g.nodes@[i as int].name_key(),
        {
            let other = g.nodes[j].get_name();
            if other == name {
                return false;
            }
        }
    }
    for i in 0..g.edges.len()
        invariant
            forall|j: int|
                0 <= j < i ==> (#[trigger] g.edges@[j]).0 < g.nodes@.len() && g.edges@[j].1
                    < g.nodes@.len(),
    {
        if !(g.edges[i].0 < g.nodes.len() && g.edges[i].1 < g.nodes.len()) {
            return false;
        }
    }
    for i in 0..g.edges.len()
        invariant
            forall|j: int|
                0 <= j < i ==> g.edges@.contains(
                    ((#[trigger] g.edges@[j]).1, g.edges@[j].0, g.edges@[j].2.rev()),
                ),
    {
        let e = g.edges[i];
        let rkind = e.2.reverse();
        let mut found = false;
        for j in 0..g.edges.len()
            invariant
                rkind == e.2.rev(),
                e == g.edges@[i as int],
                found ==> g.edges@.contains((e.1, e.0, e.2.rev())),
                !found ==> forall|a: int|
                    0 <= a < j ==> g.edges@[a] != (e.1, e.0, e.2.rev()),
        {
            let c = g.edges[j];
            if c.0 == e.1 && c.1 == e.0 && c.2 == rkind {
                found = true;
                proof {
                    assert(g.edges@[j as int] == (e.1, e.0, e.2.rev()));
                }
                break ;
            }
        }
        if !found {
            return false;
        }
    }
    proof {
        assert forall|e: (usize, usize, EdgeType)| g.edges@.contains(e) implies e.0
            < g.nodes@.len() && e.1 < g.nodes@.len() by {
            let i = choose|i: int| 0 <= i < g.edges@.len() && g.edges@[i] == e;
        }
        assert forall|e: (usize, usize, EdgeType)| g.edges@.contains(e) implies g.edges@
            .contains((e.1, e.0, e.2.rev())) by {
            let i = choose|i: int| 0 <= i < g.edges@.len() && g.edges@[i] == e;
        }
        assert forall|a: int, b: int|
            0 <= a < b < g.nodes@.len() implies (#[trigger] g.nodes@[a]).name_key() != (
        #[trigger] g.nodes@[b]).name_key() by {}
    }
    true
}

/// Check one node's internal uniqueness constraints.
fn check_node(n: &JettyNode) -> (r: bool)
    ensures
        r ==> n.wf(),
{
    match n {
        JettyNode::Group(a) => check_pairs(&a.metadata) && check_strings(&a.connectors),
        JettyNode::User(a) => check_ids(&a.identifiers) && check_strings(&a.other_identifiers)
            && check_pairs(&a.metadata) && check_strings(&a.connectors),
        JettyNode::Asset(a) => check_pairs(&a.metadata) && check_strings(&a.connectors),
        JettyNode::Policy(a) => check_strings(&a.privileges) && check_pairs(&a.metadata)
            && check_strings(&a.connectors),
        JettyNode::DefaultPolicy(a) => check_strings(&a.privileges) && check_pairs(&a.metadata)
            && check_strings(&a.connectors),
        JettyNode::Tag(a) => check_strings(&a.connectors),
        JettyNode::PolicyAgent(a) => check_strings(&a.connectors),
    }
}

/// Check pairwise distinctness of a string vector.
fn check_strings(v: &Vec<String>) -> (r: bool)
    ensures
        r ==> crate::util::strs_unique(v.deep_view()),
{
    for i in 0..v.len()
        invariant
            v.deep_view().len() == v.len(),
            forall|a: int, b: int|
                0 <= a < b < i ==> v.deep_view()[a] != v.deep_view()[b],
    {
        for j in 0..i
            invariant
                i < v@.len(),
                v.deep_view().len() == v.len(),
                forall|a: int, b: int|
                    0 <= a < b < i ==> v.deep_view()[a] != v.deep_view()[b],
                forall|a: int| 0 <= a < j ==> v.deep_view()[a] != v.deep_view()[i as int],
        {
            if v[j] == v[i] {
                return false;
            }
        }
    }
    true
}

/// Check key uniqueness of a metadata map.
fn check_pairs(v: &Vec<(String, String)>) -> (r: bool)
    ensures
        r ==> crate::util::assoc_unique(v@),
{
    for i in 0..v.len()
        invariant
            forall|a: int, b: int| 0 <= a < b < i ==> v@[a].0@ != v@[b].0@,
    {
        for j in 0..i
            invariant
                i < v@.len(),
                forall|a: int, b: int| 0 <= a < b < i ==> v@[a].0@ != v@[b].0@,
                forall|a: int| 0 <= a < j ==> v@[a].0@ != v@[i as int].0@,
        {
            if v[j].0 == v[i].0 {
                return false;
            }
        }
    }
    true
}

/// Check content uniqueness of an identifier vector.
fn check_ids(v: &Vec<UserIdentifier>) -> (r: bool)
    ensures
        r ==> crate::access_graph::ids_unique(v@),
{
    for i in 0..v.len()
        invariant
            forall|a: int, b: int| 0 <= a < b < i ==> !(#[trigger] v@[a]).same_as(#[trigger] v@[b]),
    {
        for j in 0..i
            invariant
                i < v@.len(),
                forall|a: int, b: int| 0 <= a < b < i ==> !(#[trigger] v@[a]).same_as(#[trigger] v@[b]),
                forall|a: int| 0 <= a < j ==> !(#[trigger] v@[a]).same_as(v@[i as int]),
        {
            if v[j].same(&v[i]) {
                return false;
            }
        }
    }
    true
}

} // verus!
