//! Tests of the graph store: upsert by name, the merge protocol, and the
//! structural invariants of a built graph.

use jetty_core::access_graph::graph::{Graph, JettyEdge};
use jetty_core::access_graph::{
    AccessGraph, EdgeType, GroupAttributes, JettyNode, NodeName,
};
use jetty_core::connectors::nodes::{ConnectorData, Group as RawGroup, Policy as RawPolicy, User as RawUser};
use jetty_core::jetty::ConnectorNamespace;

fn ns(s: &str) -> ConnectorNamespace {
    ConnectorNamespace(s.to_owned())
}

fn group_node(name: &str, metadata: Vec<(String, String)>, connectors: Vec<String>) -> JettyNode {
    JettyNode::Group(GroupAttributes {
        name: name.to_owned(),
        origin: ns("test"),
        metadata,
        connectors,
    })
}

#[test]
fn group_node_same_name_no_conflict() {
    let mut g = Graph::new();

    let original_node = group_node("Group 1", vec![], vec!["test1".to_owned()]);

    // the new node introduces a new connector value
    let new_node = group_node("Group 1", vec![], vec!["test2".to_owned()]);

    // desired output
    let combined_node = group_node(
        "Group 1",
        vec![],
        vec!["test1".to_owned(), "test2".to_owned()],
    );

    g.add_node(original_node.clone()).unwrap();

    let idx = g
        .get_node(&original_node.get_name())
        .expect("looking the node up by name");

    let merged_node = g.merge_nodes(idx, &new_node).expect("merging nodes");

    assert_eq!(combined_node, merged_node);
}

#[test]
fn group_node_name_conflict() {
    let mut g = Graph::new();

    let original_node = group_node("Group 1", vec![], vec![]);

    // the new node carries a different name
    let new_node = group_node("Group 2", vec![], vec![]);

    g.add_node(original_node.clone()).unwrap();

    let idx = g
        .get_node(&original_node.get_name())
        .expect("looking the node up by name");

    let merged_node = g.merge_nodes(idx, &new_node);

    assert!(merged_node.is_err());
}

#[test]
fn group_node_hashmap_conflict() {
    let mut g = Graph::new();

    let original_node = group_node(
        "Group 1",
        vec![("test1".to_owned(), "value2".to_owned())],
        vec![],
    );

    // the new node introduces a conflicting metadata value
    let new_node = group_node(
        "Group 1",
        vec![("test1".to_owned(), "other_value".to_owned())],
        vec![],
    );

    g.add_node(original_node.clone()).unwrap();

    let idx = g
        .get_node(&original_node.get_name())
        .expect("looking the node up by name");

    let merged_node = g.merge_nodes(idx, &new_node);

    assert!(merged_node.is_err());
}

#[test]
fn group_node_hashmap_expand() {
    let mut g = Graph::new();

    let original_node = group_node(
        "Group 1",
        vec![("test1".to_owned(), "value2".to_owned())],
        vec![],
    );

    // the new node introduces a new metadata key
    let new_node = group_node(
        "Group 1",
        vec![("test2".to_owned(), "value 3".to_owned())],
        vec![],
    );

    // when merged, the result should hold both keys
    let combined_node = group_node(
        "Group 1",
        vec![
            ("test1".to_owned(), "value2".to_owned()),
            ("test2".to_owned(), "value 3".to_owned()),
        ],
        vec![],
    );

    g.add_node(original_node.clone()).unwrap();

    let idx = g
        .get_node(&original_node.get_name())
        .expect("looking the node up by name");

    let merged_node = g.merge_nodes(idx, &new_node).expect("merging nodes");

    assert_eq!(merged_node, combined_node);
}

#[test]
fn add_edge_requires_both_endpoints() {
    let mut g = Graph::new();
    g.add_node(group_node("a", vec![], vec![])).unwrap();
    let edge = JettyEdge {
        from: NodeName::Group {
            name: "a".to_owned(),
            origin: ns("test"),
        },
        to: NodeName::Group {
            name: "missing".to_owned(),
            origin: ns("test"),
        },
        edge_type: EdgeType::MemberOf,
    };
    assert!(g.add_edge(edge).is_err());
    assert_eq!(g.edges.len(), 0);
}

fn one_connector_input() -> Vec<(ConnectorData, ConnectorNamespace)> {
    let groups = vec![
        RawGroup::new(
            "engineering".to_owned(),
            vec![],
            vec![],
            vec![],
            vec![],
            vec![],
        ),
        RawGroup::new(
            "data".to_owned(),
            vec![],
            vec!["engineering".to_owned()],
            vec![],
            vec![],
            vec![],
        ),
    ];
    let users = vec![RawUser::new(
        "alice".to_owned(),
        vec![],
        vec![],
        vec![],
        vec!["data".to_owned()],
        vec![],
    )];
    let mut data = ConnectorData::empty();
    data.groups = groups;
    data.users = users;
    vec![(data, ns("snow"))]
}

#[test]
fn every_edge_has_its_inverse() {
    let ag = AccessGraph::new_from_connector_data(one_connector_input()).unwrap();
    // every edge must come with its symmetric counterpart
    for e in ag.graph.edges.iter() {
        let inverse = (e.1, e.0, e.2.reverse());
        assert!(ag
            .graph
            .edges
            .iter()
            .any(|c| c.0 == inverse.0 && c.1 == inverse.1 && c.2 == inverse.2));
    }
    assert!(ag.graph.edges.len() >= 4);
}

#[test]
fn duplicate_names_make_one_node() {
    // the same group arrives twice; exactly one node may exist for it
    let mut data = ConnectorData::empty();
    data.groups = vec![
        RawGroup::new("dup".to_owned(), vec![], vec![], vec![], vec![], vec![]),
        RawGroup::new("dup".to_owned(), vec![], vec![], vec![], vec![], vec![]),
    ];
    let ag = AccessGraph::new_from_connector_data(vec![(data, ns("snow"))]).unwrap();
    let matching = ag
        .graph
        .nodes
        .iter()
        .filter(|n| match n {
            JettyNode::Group(a) => a.name == "dup",
            _ => false,
        })
        .count();
    assert_eq!(matching, 1);
}

#[test]
fn transitive_membership_grants_privilege() {
    // alice is in data, data is in engineering, and a policy grants
    // SELECT on an asset to engineering
    let mut input = one_connector_input();
    input[0].0.assets = vec![jetty_core::connectors::nodes::Asset::new(
        jetty_core::cual::Cual::new("snowflake://acct/db/tbl".to_owned()),
        "tbl".to_owned(),
        jetty_core::connectors::AssetType::DBTable,
        vec![],
        vec![],
        vec![],
        vec![],
        vec![],
        vec![],
        vec![],
    )];
    input[0].0.policies = vec![RawPolicy::new(
        "p1".to_owned(),
        vec!["SELECT".to_owned()],
        vec!["tbl".to_owned()],
        vec![],
        vec!["engineering".to_owned()],
        vec![],
        false,
        false,
    )];
    let ag = AccessGraph::new_from_connector_data(input).unwrap();
    let user = ag
        .graph
        .get_node(&NodeName::User("alice".to_owned()))
        .expect("finding alice");
    let asset_idx = ag
        .graph
        .nodes
        .iter()
        .position(|n| matches!(n, JettyNode::Asset(_)))
        .expect("finding the asset");
    let privs =
        jetty_core::access_graph::resolve::effective_privileges(&ag.graph, user, asset_idx);
    assert!(privs.iter().any(|p| p == "SELECT"));
}

#[test]
fn duplicate_edges_merge_idempotently() {
    let mut g = Graph::new();
    g.add_node(group_node("a", vec![], vec![])).unwrap();
    g.add_node(group_node("b", vec![], vec![])).unwrap();
    let edge = || JettyEdge {
        from: NodeName::Group {
            name: "a".to_owned(),
            origin: ns("test"),
        },
        to: NodeName::Group {
            name: "b".to_owned(),
            origin: ns("test"),
        },
        edge_type: EdgeType::MemberOf,
    };
    g.add_edge_symmetric(edge()).unwrap();
    assert_eq!(g.edges.len(), 2);
    // inserting a structurally equal edge changes nothing
    g.add_edge_symmetric(edge()).unwrap();
    assert_eq!(g.edges.len(), 2);
    g.add_edge(edge()).unwrap();
    assert_eq!(g.edges.len(), 2);
}
