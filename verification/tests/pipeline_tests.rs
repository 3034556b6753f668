//! Tests of the desired-state pipeline: configuration validation, the
//! diff engine, translation to local diffs, and persistence.

use jetty_core::access_graph::serialize::{deserialize_graph, serialize_graph};
use jetty_core::access_graph::{AccessGraph, NodeName};
use jetty_core::config::{
    parse_default_policies, parse_policies, PolicyDoc,
    get_group_name, path_is_legal, privileges_are_legal, ConfigGroups, DefaultPolicyState,
    PolicyState, UpdateConfig, UserYaml,
};
use jetty_core::connectors::nodes::{ConnectorData, Group as RawGroup, User as RawUser};
use jetty_core::connectors::AssetType;
use jetty_core::diff::{
    apply_policy_diffs, diff_policies, ConnectorManagementDiff, DefaultPolicyDiff,
    DefaultPolicyDiffDetails, DiffDetails,
};
use jetty_core::errors::{ConfigError, IntegrityError};
use jetty_core::jetty::{ConnectorConfig, ConnectorNamespace, JettyConfig};
use jetty_core::translate::{translate_diff_details, ConnectorMap};

fn ns(s: &str) -> ConnectorNamespace {
    ConnectorNamespace(s.to_owned())
}

fn user(n: &str) -> NodeName {
    NodeName::User(n.to_owned())
}

fn group(n: &str) -> NodeName {
    NodeName::Group {
        name: n.to_owned(),
        origin: ns("snow"),
    }
}

fn state(privs: &[&str]) -> PolicyState {
    PolicyState {
        privileges: privs.iter().map(|p| p.to_string()).collect(),
        metadata: vec![],
    }
}

#[test]
fn jetty_config_naming_works() {
    let mut c = JettyConfig::new();
    assert_eq!(c.get_name(), "");
    assert_eq!(c.get_version(), "0.0.1");
    assert!(c.allow_anonymous_usage_statistics);
    assert_eq!(c.project_id, "");
    c.set_name("my project".to_owned());
    assert_eq!(c.get_name(), "my project");
}

#[test]
fn connector_config_keeps_its_fields() {
    let c = ConnectorConfig::new(
        "snowflake".to_owned(),
        vec![("account".to_owned(), "acct".to_owned())],
    );
    assert_eq!(c.connector_type, "snowflake");
    assert_eq!(c.config.len(), 1);
}

#[test]
fn wildcard_paths_are_validated() {
    let legal = vec!["".to_owned(), "*".to_owned(), "**".to_owned()];
    assert!(path_is_legal(&legal).is_ok());

    let star_only = vec!["*".to_owned(), "*".to_owned()];
    assert!(path_is_legal(&star_only).is_ok());

    let double_star_inside = vec!["**".to_owned(), "*".to_owned()];
    match path_is_legal(&double_star_inside) {
        Err(ConfigError::IllegalWildcardPath(s)) => assert_eq!(s, "**"),
        _ => panic!("a mid-path ** must be refused"),
    }

    let named_segment = vec!["db".to_owned()];
    assert!(path_is_legal(&named_segment).is_err());
}

#[test]
fn group_lookup_uses_connector_identity() {
    let cfg = ConfigGroups {
        entries: vec![(
            "admins".to_owned(),
            vec![("snow".to_owned(), group("ADMINS_SF"))],
        )],
    };
    let n = get_group_name(&"admins".to_owned(), &ns("snow"), &cfg).unwrap();
    assert_eq!(n, group("ADMINS_SF"));
    assert!(get_group_name(&"admins".to_owned(), &ns("tab"), &cfg).is_err());
    match get_group_name(&"acme".to_owned(), &ns("snow"), &cfg) {
        Err(ConfigError::UnknownGroup(g)) => assert_eq!(g, "acme"),
        _ => panic!("an undeclared group must be refused"),
    }
}

#[test]
fn privileges_are_checked_against_the_allow_list() {
    let allowed = vec!["SELECT".to_owned(), "USAGE".to_owned()];
    assert!(privileges_are_legal(&vec!["SELECT".to_owned()], &allowed).is_ok());
    match privileges_are_legal(&vec!["DROP".to_owned()], &allowed) {
        Err(ConfigError::UnsupportedPrivilege(p)) => assert_eq!(p, "DROP"),
        _ => panic!("an unknown privilege must be refused"),
    }
}

#[test]
fn user_yaml_updates_names_and_groups() {
    let mut u = UserYaml {
        name: "alice".to_owned(),
        identifiers: vec![("snow".to_owned(), "ALICE".to_owned())],
        groups: vec!["data".to_owned(), "eng".to_owned()],
    };
    assert!(!u.update_user_name(&"bob".to_owned(), &"robert".to_owned()));
    assert!(u.update_user_name(&"alice".to_owned(), &"alicia".to_owned()));
    assert_eq!(u.name, "alicia");
    assert!(u.update_group_name(&"eng".to_owned(), &"engineering".to_owned()));
    assert_eq!(u.groups, vec!["data".to_owned(), "engineering".to_owned()]);
    assert!(u.remove_group_name(&"data".to_owned()));
    assert_eq!(u.groups, vec!["engineering".to_owned()]);
    assert!(!u.remove_group_name(&"data".to_owned()));
    assert!(u.remove_user_name(&"alicia".to_owned()));
}

#[test]
fn diff_emits_add_remove_and_modify() {
    let observed = vec![
        ((user("alice"), group("a")), state(&["SELECT"])),
        ((user("bob"), group("a")), state(&["SELECT", "USAGE"])),
    ];
    let desired = vec![
        ((user("bob"), group("a")), state(&["SELECT", "INSERT"])),
        ((user("carol"), group("a")), state(&["USAGE"])),
    ];
    let ds = diff_policies(&observed, &desired);
    assert_eq!(ds.len(), 3);
    for e in ds.iter() {
        match (&e.asset, &e.details) {
            (NodeName::User(n), DiffDetails::RemoveAgent) => assert_eq!(n, "alice"),
            (NodeName::User(n), DiffDetails::ModifyAgent { add, remove }) => {
                assert_eq!(n, "bob");
                assert_eq!(add.privileges, vec!["INSERT".to_owned()]);
                assert_eq!(remove.privileges, vec!["USAGE".to_owned()]);
            }
            (NodeName::User(n), DiffDetails::AddAgent { add }) => {
                assert_eq!(n, "carol");
                assert_eq!(add.privileges, vec!["USAGE".to_owned()]);
            }
            _ => panic!("unexpected diff entry"),
        }
    }
}

#[test]
fn applying_a_diff_and_rediffing_is_empty() {
    let observed = vec![
        ((user("alice"), group("a")), state(&["SELECT"])),
        ((user("bob"), group("a")), state(&["SELECT", "USAGE"])),
    ];
    let desired = vec![
        ((user("bob"), group("a")), state(&["SELECT", "INSERT"])),
        ((user("carol"), group("a")), state(&["USAGE"])),
    ];
    let ds = diff_policies(&observed, &desired);
    let applied = apply_policy_diffs(&observed, &ds);
    let rediff = diff_policies(&applied, &desired);
    assert_eq!(rediff.len(), 0);
}

#[test]
fn translating_drops_unmanaged_additions() {
    // S4-style gating: an addition of an entity that is not
    // connector-managed translates to nothing
    let unmanaged = DefaultPolicyState {
        privileges: vec!["USAGE".to_owned()],
        groups: vec![],
        users: vec![],
        connector_managed: false,
        metadata: vec![],
    };
    assert!(translate_diff_details(&DefaultPolicyDiffDetails::AddDefaultPolicy {
        add: unmanaged.clone()
    })
    .is_none());

    let managed = DefaultPolicyState {
        connector_managed: true,
        ..unmanaged.clone()
    };
    match translate_diff_details(&DefaultPolicyDiffDetails::AddDefaultPolicy { add: managed }) {
        Some(DiffDetails::AddAgent { add }) => {
            assert_eq!(add.privileges, vec!["USAGE".to_owned()])
        }
        _ => panic!("a managed addition must survive"),
    }

    let modify = DefaultPolicyDiffDetails::ModifyDefaultPolicy {
        add: unmanaged.clone(),
        remove: unmanaged,
        connector_managed: ConnectorManagementDiff::Unchanged(false),
    };
    assert!(translate_diff_details(&modify).is_none());
}

#[test]
fn default_policy_diff_translates_to_local_names() {
    let mut map = ConnectorMap::new(ns("snow"));
    assert!(map.add("DB".to_owned(), asset_name()));
    assert!(map.add("ROLE_X".to_owned(), group("role_x")));

    let managed = DefaultPolicyState {
        privileges: vec!["SELECT".to_owned()],
        groups: vec![],
        users: vec![],
        connector_managed: true,
        metadata: vec![],
    };
    let diff = DefaultPolicyDiff {
        asset: asset_name(),
        path: "/*".to_owned(),
        asset_type: AssetType::DBTable,
        users: vec![],
        groups: vec![(
            group("role_x"),
            DefaultPolicyDiffDetails::AddDefaultPolicy { add: managed },
        )],
        connector: ns("snow"),
    };
    let local = map.translate_default_policy_diff_to_local(&diff).unwrap();
    assert_eq!(local.asset, "DB");
    assert_eq!(local.path, "/*");
    assert_eq!(local.asset_type, "table");
    assert_eq!(local.groups.len(), 1);
    assert_eq!(local.groups[0].0, "ROLE_X");

    // a diff that references an entity the connector has never seen
    // must fail to translate
    let unknown = DefaultPolicyDiff {
        asset: group("acme"),
        path: "/*".to_owned(),
        asset_type: AssetType::DBTable,
        users: vec![],
        groups: vec![],
        connector: ns("snow"),
    };
    assert!(map.translate_default_policy_diff_to_local(&unknown).is_err());
}

fn asset_name() -> NodeName {
    NodeName::Asset {
        connector: ns("snow"),
        asset_type: AssetType::DBDB,
        path: vec!["DB".to_owned()],
    }
}

#[test]
fn local_to_global_round_trips() {
    let mut map = ConnectorMap::new(ns("snow"));
    assert!(map.add("123".to_owned(), group("admins")));
    let global = map.local_to_global(&"123".to_owned()).unwrap();
    let back = map.global_to_local(&global).unwrap();
    assert_eq!(back, "123");
    // and the other way round
    let local = map.global_to_local(&group("admins")).unwrap();
    let there = map.local_to_global(&local).unwrap();
    assert_eq!(there, group("admins"));
    // one side already mapped: the pair is refused
    assert!(!map.add("123".to_owned(), group("other")));
}

fn built_graph() -> AccessGraph {
    let mut data = ConnectorData::empty();
    data.groups = vec![RawGroup::new(
        "engineering".to_owned(),
        vec![("owner".to_owned(), "dara".to_owned())],
        vec![],
        vec![],
        vec![],
        vec![],
    )];
    data.users = vec![RawUser::new(
        "alice".to_owned(),
        vec![],
        vec![],
        vec![],
        vec!["engineering".to_owned()],
        vec![],
    )];
    AccessGraph::new_from_connector_data(vec![(data, ns("snow"))]).unwrap()
}

#[test]
fn serialization_round_trips() {
    let ag = built_graph();
    let stream = serialize_graph(&ag.graph);
    let g2 = deserialize_graph(&stream).unwrap();
    let stream2 = serialize_graph(&g2);
    assert_eq!(stream, stream2);
    assert_eq!(g2.nodes.len(), ag.graph.nodes.len());
    assert_eq!(g2.edges.len(), ag.graph.edges.len());
    assert_eq!(g2.nodes, ag.graph.nodes);
    assert_eq!(g2.edges, ag.graph.edges);
}

#[test]
fn serialization_is_deterministic() {
    // building twice from the same input gives the same stream, word
    // for word
    let s1 = serialize_graph(&built_graph().graph);
    let s2 = serialize_graph(&built_graph().graph);
    assert_eq!(s1, s2);
}

#[test]
fn loader_refuses_other_versions() {
    let ag = built_graph();
    let mut stream = serialize_graph(&ag.graph);
    stream[0] = stream[0] + 1;
    match deserialize_graph(&stream) {
        Err(IntegrityError::VersionMismatch) => {}
        _ => panic!("a stream of another schema version must be refused"),
    }
    // truncation is refused too
    let short = serialize_graph(&ag.graph)[..3].to_vec();
    assert!(deserialize_graph(&short).is_err());
}

#[test]
fn build_records_local_names_for_translation() {
    let ag = built_graph();
    let at = ag
        .translator
        .find_map(&ns("snow"))
        .expect("the build records a map per connector");
    let map = &ag.translator.maps[at];
    let global = map
        .local_to_global(&"engineering".to_owned())
        .expect("the group was recorded");
    assert_eq!(
        global,
        NodeName::Group {
            name: "engineering".to_owned(),
            origin: ns("snow"),
        }
    );
    let back = map.global_to_local(&global).unwrap();
    assert_eq!(back, "engineering");
}

fn cg_with(group: &str, conn: &str, node: NodeName) -> ConfigGroups {
    ConfigGroups {
        entries: vec![(group.to_owned(), vec![(conn.to_owned(), node)])],
    }
}

fn pdoc(privs: &[&str], groups: &[&str], users: &[&str]) -> PolicyDoc {
    PolicyDoc {
        privileges: privs.iter().map(|p| p.to_string()).collect(),
        groups: groups.iter().map(|p| p.to_string()).collect(),
        users: users.iter().map(|p| p.to_string()).collect(),
        path: None,
        types: None,
        metadata: vec![],
    }
}

#[test]
fn parse_policies_resolves_grantees() {
    let asset = NodeName::Asset {
        connector: ns("snow"),
        asset_type: AssetType::DBTable,
        path: vec!["db.t".to_owned()],
    };
    let cg = cg_with("analysts", "snow", group("analysts_snow"));
    let docs = vec![pdoc(&["SELECT"], &["analysts"], &["alice@example.com"])];
    let out = parse_policies(
        &asset,
        &docs,
        &ns("snow"),
        &cg,
        &vec!["alice@example.com".to_owned()],
        &vec!["SELECT".to_owned(), "USAGE".to_owned()],
    )
    .unwrap();
    assert_eq!(out.len(), 2);
    assert!(matches!(&out[0].0 .1, NodeName::Group { name, .. } if name == "analysts_snow"));
    assert!(matches!(&out[1].0 .1, NodeName::User(u) if u == "alice@example.com"));
    assert_eq!(out[0].1.privileges, vec!["SELECT".to_owned()]);
}

#[test]
fn parse_policies_rejects_undeclared_group() {
    let asset = NodeName::Asset {
        connector: ns("snow"),
        asset_type: AssetType::DBTable,
        path: vec!["db.t".to_owned()],
    };
    let cg = cg_with("analysts", "tab", group("analysts_tab"));
    let docs = vec![pdoc(&["SELECT"], &["analysts"], &[])];
    let r = parse_policies(&asset, &docs, &ns("snow"), &cg, &vec![], &vec!["SELECT".to_owned()]);
    assert!(matches!(r, Err(ConfigError::UnknownGroup(g)) if g == "analysts"));
}

#[test]
fn parse_policies_rejects_illegal_privilege() {
    let asset = NodeName::Asset {
        connector: ns("snow"),
        asset_type: AssetType::DBTable,
        path: vec!["db.t".to_owned()],
    };
    let cg = cg_with("analysts", "snow", group("analysts_snow"));
    let docs = vec![pdoc(&["DROP"], &["analysts"], &[])];
    let r = parse_policies(&asset, &docs, &ns("snow"), &cg, &vec![], &vec!["SELECT".to_owned()]);
    assert!(matches!(r, Err(ConfigError::UnsupportedPrivilege(p)) if p == "DROP"));
}

#[test]
fn parse_default_policies_requires_types() {
    let asset = NodeName::Asset {
        connector: ns("snow"),
        asset_type: AssetType::DBDB,
        path: vec!["db".to_owned()],
    };
    let cg = cg_with("readers", "snow", group("readers_snow"));
    let mut doc = pdoc(&["SELECT"], &["readers"], &[]);
    doc.path = Some(vec!["*".to_owned()]);
    let r = parse_default_policies(
        &asset,
        &vec![doc],
        &ns("snow"),
        &cg,
        &vec![],
        &vec!["SELECT".to_owned()],
        &vec![AssetType::DBTable],
    );
    assert!(matches!(r, Err(ConfigError::MissingTypes)));
}

#[test]
fn parse_default_policies_builds_keyed_state() {
    let asset = NodeName::Asset {
        connector: ns("snow"),
        asset_type: AssetType::DBDB,
        path: vec!["db".to_owned()],
    };
    let cg = cg_with("readers", "snow", group("readers_snow"));
    let mut doc = pdoc(&["SELECT"], &["readers"], &["bob@example.com"]);
    doc.path = Some(vec!["*".to_owned()]);
    doc.types = Some(vec![AssetType::DBTable]);
    let out = parse_default_policies(
        &asset,
        &vec![doc.clone(), doc],
        &ns("snow"),
        &cg,
        &vec!["bob@example.com".to_owned()],
        &vec!["SELECT".to_owned()],
        &vec![AssetType::DBTable],
    )
    .unwrap();
    // the two identical blocks share one key: exactly one entry
    assert_eq!(out.len(), 1);
    assert_eq!(out[0].0 .1, vec!["*".to_owned()]);
    assert_eq!(out[0].0 .2, vec![AssetType::DBTable]);
    assert_eq!(out[0].1.privileges, vec!["SELECT".to_owned()]);
    assert!(out[0].1.connector_managed);
    assert!(matches!(&out[0].1.groups[0], NodeName::Group { name, .. } if name == "readers_snow"));
    assert!(matches!(&out[0].1.users[0], NodeName::User(u) if u == "bob@example.com"));
}

#[test]
fn parse_default_policies_rejects_illegal_wildcard() {
    let asset = NodeName::Asset {
        connector: ns("snow"),
        asset_type: AssetType::DBDB,
        path: vec!["db".to_owned()],
    };
    let cg = cg_with("readers", "snow", group("readers_snow"));
    let mut doc = pdoc(&["SELECT"], &[], &[]);
    doc.path = Some(vec!["**".to_owned(), "*".to_owned()]);
    doc.types = Some(vec![AssetType::DBTable]);
    let r = parse_default_policies(
        &asset,
        &vec![doc],
        &ns("snow"),
        &cg,
        &vec![],
        &vec!["SELECT".to_owned()],
        &vec![AssetType::DBTable],
    );
    assert!(matches!(r, Err(ConfigError::IllegalWildcardPath(_))));
}
