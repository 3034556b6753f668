//! Tests of the connector-side modules: dbt, Tableau and Snowflake.

use jetty_core::connectors::nodes;
use jetty_core::connectors::{AssetType, Connector};
use jetty_core::cual::Cual;
use jetty_core::dbt::{DbtConnector, DbtProjectManifest};
use jetty_core::errors::ConnectorError;
use jetty_core::snowflake::entry::View;
use jetty_core::snowflake::{
    Coordinator, Database, FutureGrant, Role, SnowflakeEnvironment, SnowflakeUser,
};
use jetty_core::tableau::{get_tableau_cual, Group, Project, TableauAssetType};

struct MockDbtProjectManifest {
    assets: Vec<nodes::Asset>,
}

impl MockDbtProjectManifest {
    fn new() -> Self {
        MockDbtProjectManifest { assets: vec![] }
    }
}

impl DbtProjectManifest for MockDbtProjectManifest {
    fn init(&mut self, _file_list: &Option<Vec<String>>) -> Result<(), ConnectorError> {
        Ok(())
    }

    fn get_assets(&self) -> Result<Vec<nodes::Asset>, ConnectorError> {
        Ok(self.assets.clone())
    }
}

#[test]
fn creating_connector_works() {
    let manifest_mock = MockDbtProjectManifest::new();
    DbtConnector::new_with_manifest(manifest_mock);
}

#[test]
fn check_with_no_manifest_fails() {
    // a connector around an empty manifest still reports itself healthy:
    // dbt needs no credentials beyond the project files
    let manifest_mock = MockDbtProjectManifest::new();
    let connector = DbtConnector::new_with_manifest(manifest_mock);
    assert!(connector.check());
}

#[test]
fn dbt_data_is_assets_only() {
    let manifest_mock = MockDbtProjectManifest::new();
    let mut connector = DbtConnector::new_with_manifest(manifest_mock);
    let data = connector.get_data().unwrap();
    assert!(data.groups.is_empty());
    assert!(data.users.is_empty());
    assert!(data.policies.is_empty());
    assert!(data.assets.is_empty());
}

#[test]
fn test_jetty_group_from_group_works() {
    let g = Group::new("id".to_owned(), "name".to_owned(), vec!["me".to_owned()]);
    nodes::Group::from(g);
}

#[test]
fn test_group_into_jetty_group_works() {
    let g = Group::new("id".to_owned(), "name".to_owned(), vec!["me".to_owned()]);
    let a: nodes::Group = g.into();
    assert_eq!(a.name, "name");
    assert_eq!(a.includes_users, vec!["me".to_owned()]);
    assert_eq!(a.metadata, vec![("tableau::id".to_owned(), "id".to_owned())]);
}

#[test]
fn test_asset_from_project_works() {
    let wb = Project::new(
        Cual::new("".to_owned()),
        "id".to_owned(),
        "name".to_owned(),
        "owner_id".to_owned(),
        Some("parent_project_id".to_owned()),
        Some("cp_project_id".to_owned()),
        vec![],
    );
    nodes::Asset::from(wb);
}

#[test]
fn test_project_into_asset_works() {
    let wb = Project::new(
        Cual::new("".to_owned()),
        "id".to_owned(),
        "name".to_owned(),
        "owner_id".to_owned(),
        Some("parent_project_id".to_owned()),
        Some("cp_project_id".to_owned()),
        vec![],
    );
    let a: nodes::Asset = wb.into();
    assert_eq!(a.name, "name");
    assert_eq!(a.asset_type, AssetType::Other);
    assert_eq!(a.child_of, vec!["parent_project_id".to_owned()]);
}

#[test]
fn tableau_cual_has_type_and_id() {
    let prefix = "tableau://10ax.online.tableau.com/jettydev".to_owned();
    let c = get_tableau_cual(&prefix, TableauAssetType::Project, &"abc".to_owned());
    assert_eq!(
        c.uri(),
        "tableau://10ax.online.tableau.com/jettydev/project/abc"
    );
}

#[test]
fn future_schema_grant_becomes_one_level_wildcard() {
    let fg = FutureGrant {
        name: "MY_DB.<SCHEMA>".to_owned(),
        privilege: "USAGE".to_owned(),
        grant_on: "SCHEMA".to_owned(),
        grantee_name: "my_role".to_owned(),
    };
    let dp = fg.into_default_policy(vec!["USAGE".to_owned()]);
    assert_eq!(dp.wildcard_path, "/*");
    assert_eq!(dp.root_asset.uri(), "snowflake://MY_DB");
    assert_eq!(dp.target_types, vec!["SCHEMA".to_owned()]);
    match dp.grantee {
        nodes::RawPolicyGrantee::Group(g) => assert_eq!(g, "my_role"),
        _ => panic!("grantee must be the role"),
    }
    assert_eq!(dp.privileges, vec!["USAGE".to_owned()]);
}

#[test]
fn future_table_grant_at_database_descends_two_levels() {
    let fg = FutureGrant {
        name: "MY_DB.<TABLE>".to_owned(),
        privilege: "SELECT".to_owned(),
        grant_on: "TABLE".to_owned(),
        grantee_name: "my_role".to_owned(),
    };
    let dp = fg.into_default_policy(vec!["SELECT".to_owned()]);
    assert_eq!(dp.wildcard_path, "/*/**");
}

#[test]
fn future_grant_getters_expose_fields() {
    let fg = FutureGrant {
        name: "DB.SCHEMA.<TABLE>".to_owned(),
        privilege: "SELECT".to_owned(),
        grant_on: "TABLE".to_owned(),
        grantee_name: "my_role".to_owned(),
    };
    assert_eq!(fg.grant_on(), "TABLE");
    assert_eq!(fg.granted_on_name(), "DB.SCHEMA.<TABLE>");
    assert_eq!(fg.role_name(), "my_role");
    assert_eq!(fg.privilege(), "SELECT");
}

#[test]
fn role_grants_collect_by_grantee() {
    let grants = vec![
        jetty_core::snowflake::GrantOf {
            role: "r1".to_owned(),
            granted_to: "USER".to_owned(),
            grantee_name: "alice".to_owned(),
        },
        jetty_core::snowflake::GrantOf {
            role: "r2".to_owned(),
            granted_to: "USER".to_owned(),
            grantee_name: "alice".to_owned(),
        },
        jetty_core::snowflake::GrantOf {
            role: "r1".to_owned(),
            granted_to: "ROLE".to_owned(),
            grantee_name: "r3".to_owned(),
        },
    ];
    let by_grantee = jetty_core::snowflake::build_role_grants(&grants);
    assert_eq!(by_grantee.len(), 2);
    assert_eq!(
        by_grantee[0],
        (
            ("USER".to_owned(), "alice".to_owned()),
            vec!["r1".to_owned(), "r2".to_owned()]
        )
    );
}

fn small_env() -> SnowflakeEnvironment {
    SnowflakeEnvironment {
        databases: vec![Database {
            name: "MY_DB".to_owned(),
        }],
        views: vec![View {
            name: "V".to_owned(),
            schema_name: "S".to_owned(),
            database_name: "MY_DB".to_owned(),
        }],
        users: vec![SnowflakeUser {
            name: "ALICE".to_owned(),
            email: "alice@example.com".to_owned(),
            first_name: "Alice".to_owned(),
            last_name: "A".to_owned(),
            display_name: "Alice A".to_owned(),
            login_name: "alice".to_owned(),
        }],
        roles: vec![Role {
            name: "ANALYST".to_owned(),
        }],
        future_grants: vec![],
        role_grants: vec![jetty_core::snowflake::GrantOf {
            role: "ANALYST".to_owned(),
            granted_to: "USER".to_owned(),
            grantee_name: "ALICE".to_owned(),
        }],
    }
}

#[test]
fn coordinator_shapes_the_environment() {
    let coord = Coordinator::new(small_env());
    let groups = coord.get_jetty_groups();
    assert_eq!(groups.len(), 1);
    assert_eq!(groups[0].name, "ANALYST");

    let users = coord.get_jetty_users();
    assert_eq!(users.len(), 1);
    assert_eq!(users[0].name, "ALICE");
    assert_eq!(users[0].member_of, vec!["ANALYST".to_owned()]);

    let assets = coord.get_jetty_assets();
    assert_eq!(assets.len(), 2);
    assert_eq!(assets[0].cual.uri(), "snowflake://MY_DB/S/V");
    assert_eq!(assets[0].child_of, vec!["snowflake://MY_DB/S".to_owned()]);
    assert_eq!(assets[1].cual.uri(), "snowflake://MY_DB");

    assert!(coord.get_jetty_tags().is_empty());
    assert_eq!(coord.get_jetty_default_policies().len(), 0);
}
