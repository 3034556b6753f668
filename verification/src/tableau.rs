//! The Tableau connector's data model: the site's groups, projects and
//! lenses as the platform reports them, and their conversion into the
//! unified connector value types.

use vstd::prelude::*;
use crate::connectors::nodes;
use crate::connectors::AssetType;
use crate::cual::Cual;

verus! {

/// The asset kinds a Tableau site serves.
#[derive(Clone, Copy, Debug, PartialEq, Eq, Structural, Hash)]
pub enum TableauAssetType {
    /// A project folder.
    Project,
    /// A published data source.
    Datasource,
    /// A prep flow.
    Flow,
    /// A workbook.
    Workbook,
    /// An ask-data lens.
    Lens,
    /// A metric.
    Metric,
    /// A view of a workbook.
    View,
}

impl TableauAssetType {
    /// Used for locator construction: the textual form of the asset type
    /// helps identify the asset within Tableau.
    pub fn as_str(&self) -> (r: &'static str)
        ensures
            r@ == self.type_text(),
    {
        proof {
            reveal_strlit("project");
            reveal_strlit("datasource");
            reveal_strlit("flow");
            reveal_strlit("workbook");
            reveal_strlit("lens");
            reveal_strlit("metric");
            reveal_strlit("view");
        }
        match self {
            TableauAssetType::Project => "project",
            TableauAssetType::Datasource => "datasource",
            TableauAssetType::Flow => "flow",
            TableauAssetType::Workbook => "workbook",
            TableauAssetType::Lens => "lens",
            TableauAssetType::Metric => "metric",
            TableauAssetType::View => "view",
        }
    }

    /// The text `as_str` returns for each variant.
    pub open spec fn type_text(self) -> Seq<char> {
        match self {
            TableauAssetType::Project => "project"@,
            TableauAssetType::Datasource => "datasource"@,
            TableauAssetType::Flow => "flow"@,
            TableauAssetType::Workbook => "workbook"@,
            TableauAssetType::Lens => "lens"@,
            TableauAssetType::Metric => "metric"@,
            TableauAssetType::View => "view"@,
        }
    }
}

/// Build the canonical locator of a Tableau asset below a site prefix:
/// the prefix, the asset type, and the site-local id, slash-separated.
pub fn get_tableau_cual(prefix: &String, asset_type: TableauAssetType, id: &String) -> (r: Cual)
    ensures
        r.text() == prefix@ + seq!['/'] + asset_type.type_text() + seq!['/'] + id@,
{
    proof {
        reveal_strlit("/");
    }
    let mut uri = prefix.clone();
    uri.append("/");
    uri.append(asset_type.as_str());
    uri.append("/");
    uri.append(id.as_str());
    proof {
        assert("/"@ =~= seq!['/']);
    }
    Cual::new(uri)
}

/// One permission rule of a Tableau asset: a grantee and its
/// capabilities.
#[derive(Clone, Debug)]
pub struct Permission {
    /// The grantee's site-local id.
    pub grantee: String,
    /// Capability names with their allow or deny mode.
    pub capabilities: Vec<(String, String)>,
}

/// A Tableau group.
#[derive(Clone, Debug)]
pub struct Group {
    /// The site-local group id.
    pub id: String,
    /// The group name.
    pub name: String,
    /// Site-local ids of the users the group includes.
    pub includes: Vec<String>,
}

impl Group {
    /// Plain constructor.
    pub fn new(id: String, name: String, includes: Vec<String>) -> (r: Group)
        ensures
            r.id == id,
            r.name == name,
            r.includes == includes,
    {
        Group { id, name, includes }
    }

    /// The unified form of this group: its name, its id kept as
    /// metadata, and its members.
    pub fn to_jetty(&self) -> (r: nodes::Group)
        ensures
            r.name@ == self.name@,
            r.includes_users.deep_view() == self.includes.deep_view(),
            r.metadata@.len() == 1,
            r.metadata@[0].0@ == "tableau::id"@,
            r.metadata@[0].1@ == self.id@,
            r.member_of@.len() == 0,
            r.includes_groups@.len() == 0,
            r.granted_by@.len() == 0,
    {
        let mut metadata: Vec<(String, String)> = Vec::new();
        metadata.push(("tableau::id".to_owned(), self.id.clone()));
        nodes::Group::new(
            self.name.clone(),
            metadata,
            Vec::new(),
            crate::util::copy_strings(&self.includes),
            Vec::new(),
            Vec::new(),
        )
    }
}

impl From<Group> for nodes::Group {
    fn from(val: Group) -> (r: nodes::Group) {
        val.to_jetty()
    }
}

impl vstd::std_specs::convert::FromSpecImpl<Group> for nodes::Group {
    open spec fn obeys_from_spec() -> bool {
        false
    }

    open spec fn from_spec(t: Group) -> nodes::Group {
        arbitrary()
    }
}

/// A Tableau project.
#[derive(Clone, Debug)]
pub struct Project {
    /// The canonical locator.
    pub cual: Cual,
    /// The site-local project id.
    pub id: String,
    /// The project name.
    pub name: String,
    /// The owner's site-local id.
    pub owner_id: String,
    /// The parent project, where nested.
    pub parent_project_id: Option<String>,
    /// The project whose permissions control this one, where set.
    pub controlling_permissions_project_id: Option<String>,
    /// The project's permission rules.
    pub permissions: Vec<Permission>,
}

impl Project {
    /// Plain constructor.
    pub fn new(
        cual: Cual,
        id: String,
        name: String,
        owner_id: String,
        parent_project_id: Option<String>,
        controlling_permissions_project_id: Option<String>,
        permissions: Vec<Permission>,
    ) -> (r: Project)
        ensures
            r.cual == cual,
            r.id == id,
            r.name == name,
            r.owner_id == owner_id,
            r.parent_project_id == parent_project_id,
            r.controlling_permissions_project_id == controlling_permissions_project_id,
            r.permissions == permissions,
    {
        Project {
            cual,
            id,
            name,
            owner_id,
            parent_project_id,
            controlling_permissions_project_id,
            permissions,
        }
    }

    /// The unified form of this project: an asset that is the child of
    /// its parent project, where one exists.
    pub fn to_jetty(&self) -> (r: nodes::Asset)
        ensures
            r.cual.text() == self.cual.text(),
            r.name@ == self.name@,
            r.asset_type == AssetType::Other,
            self.parent_project_id.is_some() ==> r.child_of.deep_view() == seq![
                self.parent_project_id.unwrap()@,
            ],
            self.parent_project_id.is_none() ==> r.child_of.deep_view() == Seq::<
                Seq<char>,
            >::empty(),
            r.metadata@.len() == 0,
            r.governed_by@.len() == 0,
            r.parent_of@.len() == 0,
            r.derived_from@.len() == 0,
            r.derived_to@.len() == 0,
            r.tagged_as@.len() == 0,
    {
        let mut child_of: Vec<String> = Vec::new();
        match &self.parent_project_id {
            Some(p) => {
                child_of.push(p.clone());
                proof {
                    assert(child_of.deep_view() =~= seq![self.parent_project_id.unwrap()@]);
                }
            },
            None => {
                proof {
                    assert(child_of.deep_view() =~= Seq::<Seq<char>>::empty());
                }
            },
        }
        nodes::Asset::new(
            self.cual.duplicate(),
            self.name.clone(),
            AssetType::Other,
            Vec::new(),
            Vec::new(),
            child_of,
            Vec::new(),
            Vec::new(),
            Vec::new(),
            Vec::new(),
        )
    }
}

impl From<Project> for nodes::Asset {
    fn from(val: Project) -> (r: nodes::Asset) {
        val.to_jetty()
    }
}

impl vstd::std_specs::convert::FromSpecImpl<Project> for nodes::Asset {
    open spec fn obeys_from_spec() -> bool {
        false
    }

    open spec fn from_spec(t: Project) -> nodes::Asset {
        arbitrary()
    }
}

/// A Tableau ask-data lens.
#[derive(Clone, Debug)]
pub struct Lens {
    /// The canonical locator.
    pub cual: Cual,
    /// The site-local lens id.
    pub id: String,
    /// The lens name.
    pub name: String,
    /// The data source the lens reads.
    pub datasource_id: String,
    /// The project the lens lives in.
    pub project_id: String,
    /// The owner's site-local id.
    pub owner_id: String,
    /// The lens's permission rules.
    pub permissions: Vec<Permission>,
}

impl Lens {
    /// Plain constructor.
    pub fn new(
        cual: Cual,
        id: String,
        name: String,
        datasource_id: String,
        project_id: String,
        owner_id: String,
        permissions: Vec<Permission>,
    ) -> (r: Lens)
        ensures
            r.cual == cual,
            r.id == id,
            r.name == name,
            r.datasource_id == datasource_id,
            r.project_id == project_id,
            r.owner_id == owner_id,
            r.permissions == permissions,
    {
        Lens { cual, id, name, datasource_id, project_id, owner_id, permissions }
    }

    /// The unified form of this lens: an asset below its data source,
    /// derived from it.
    pub fn to_jetty(&self, prefix: &String) -> (r: nodes::Asset)
        ensures
            r.cual.text() == self.cual.text(),
            r.name@ == self.name@,
            r.asset_type == AssetType::Other,
            r.child_of.deep_view() == seq![
                prefix@ + seq!['/'] + TableauAssetType::Datasource.type_text() + seq!['/']
                    + self.datasource_id@,
            ],
            r.derived_from.deep_view() == r.child_of.deep_view(),
            r.metadata@.len() == 0,
            r.governed_by@.len() == 0,
            r.parent_of@.len() == 0,
            r.derived_to@.len() == 0,
            r.tagged_as@.len() == 0,
    {
        let parent = get_tableau_cual(prefix, TableauAssetType::Datasource, &self.datasource_id);
        let mut child_of: Vec<String> = Vec::new();
        child_of.push(parent.uri());
        let mut derived_from: Vec<String> = Vec::new();
        derived_from.push(parent.uri());
        proof {
            assert(child_of.deep_view() =~= seq![parent.text()]);
            assert(derived_from.deep_view() =~= seq![parent.text()]);
        }
        nodes::Asset::new(
            self.cual.duplicate(),
            self.name.clone(),
            AssetType::Other,
            Vec::new(),
            Vec::new(),
            child_of,
            Vec::new(),
            derived_from,
            Vec::new(),
            Vec::new(),
        )
    }
}

/// The whole site as fetched: groups, projects and lenses by id.
#[derive(Clone, Debug)]
pub struct TableauEnvironment {
    /// Groups by site-local id.
    pub groups: Vec<Group>,
    /// Projects by site-local id.
    pub projects: Vec<Project>,
    /// Lenses by site-local id.
    pub lenses: Vec<Lens>,
}

/// Top-level connector struct.
pub struct TableauConnector {
    /// The site prefix every locator starts with.
    pub cual_prefix: String,
    /// The fetched environment.
    pub env: TableauEnvironment,
}

impl TableauConnector {
    /// The environment, transformed into unified objects: groups, users,
    /// assets, tags and policies.
    pub fn env_to_jetty_all(&self) -> (r: (Vec<nodes::Group>, Vec<nodes::Asset>))
        ensures
            r.0@.len() == self.env.groups@.len(),
            r.1@.len() == self.env.projects@.len() + self.env.lenses@.len(),
    {
        let mut groups: Vec<nodes::Group> = Vec::new();
        for i in 0..self.env.groups.len()
            invariant
                groups@.len() == i,
        {
            groups.push(self.env.groups[i].to_jetty());
        }
        let mut assets: Vec<nodes::Asset> = Vec::new();
        for i in 0..self.env.projects.len()
            invariant
                assets@.len() == i,
        {
            assets.push(self.env.projects[i].to_jetty());
        }
        for i in 0..self.env.lenses.len()
            invariant
                assets@.len() == self.env.projects@.len() + i,
        {
            assets.push(self.env.lenses[i].to_jetty(&self.cual_prefix));
        }
        (groups, assets)
    }
}

} // verus!
