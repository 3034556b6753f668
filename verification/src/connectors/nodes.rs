//! The value types a connector returns from a fetch: raw groups, users,
//! assets, policies, default policies and tags, before the builder unifies
//! them into the access graph.

use vstd::prelude::*;
use crate::connectors::{AssetType, UserIdentifier};
use crate::cual::Cual;

verus! {

/// A raw group as one connector reports it.
#[derive(Clone, Debug)]
pub struct Group {
    /// The group name, local to the connector.
    pub name: String,
    /// Connector-specific metadata, one entry per key.
    pub metadata: Vec<(String, String)>,
    /// Names of groups this group is a member of.
    pub member_of: Vec<String>,
    /// Local ids of users this group includes.
    pub includes_users: Vec<String>,
    /// Names of groups this group includes.
    pub includes_groups: Vec<String>,
    /// Names of policies granted to this group.
    pub granted_by: Vec<String>,
}

impl Group {
    /// Plain constructor.
    pub fn new(
        name: String,
        metadata: Vec<(String, String)>,
        member_of: Vec<String>,
        includes_users: Vec<String>,
        includes_groups: Vec<String>,
        granted_by: Vec<String>,
    ) -> (r: Group)
        ensures
            r.name == name,
            r.metadata == metadata,
            r.member_of == member_of,
            r.includes_users == includes_users,
            r.includes_groups == includes_groups,
            r.granted_by == granted_by,
    {
        Group { name, metadata, member_of, includes_users, includes_groups, granted_by }
    }
}

/// A raw user as one connector reports it.
#[derive(Clone, Debug)]
pub struct User {
    /// The user name, local to the connector.
    pub name: String,
    /// Strongly typed identifiers used to coalesce users across connectors.
    pub identifiers: Vec<UserIdentifier>,
    /// Other names the user is known by.
    pub other_identifiers: Vec<String>,
    /// Connector-specific metadata.
    pub metadata: Vec<(String, String)>,
    /// Names of groups the user is a member of.
    pub member_of: Vec<String>,
    /// Names of policies granted to this user.
    pub granted_by: Vec<String>,
}

impl User {
    /// Plain constructor.
    pub fn new(
        name: String,
        identifiers: Vec<UserIdentifier>,
        other_identifiers: Vec<String>,
        metadata: Vec<(String, String)>,
        member_of: Vec<String>,
        granted_by: Vec<String>,
    ) -> (r: User)
        ensures
            r.name == name,
            r.identifiers == identifiers,
            r.other_identifiers == other_identifiers,
            r.metadata == metadata,
            r.member_of == member_of,
            r.granted_by == granted_by,
    {
        User { name, identifiers, other_identifiers, metadata, member_of, granted_by }
    }
}

/// A raw asset as one connector reports it.
#[derive(Clone, Debug)]
pub struct Asset {
    /// The canonical asset locator.
    pub cual: Cual,
    /// The asset name, local to the connector.
    pub name: String,
    /// The asset type.
    pub asset_type: AssetType,
    /// Connector-specific metadata.
    pub metadata: Vec<(String, String)>,
    /// Names of policies that govern this asset.
    pub governed_by: Vec<String>,
    /// Locators of assets this asset is a child of.
    pub child_of: Vec<String>,
    /// Locators of assets this asset is a parent of.
    pub parent_of: Vec<String>,
    /// Locators of assets this asset is derived from (lineage).
    pub derived_from: Vec<String>,
    /// Locators of assets derived from this asset (lineage).
    pub derived_to: Vec<String>,
    /// Names of tags applied to this asset.
    pub tagged_as: Vec<String>,
}

impl Asset {
    /// Plain constructor.
    pub fn new(
        cual: Cual,
        name: String,
        asset_type: AssetType,
        metadata: Vec<(String, String)>,
        governed_by: Vec<String>,
        child_of: Vec<String>,
        parent_of: Vec<String>,
        derived_from: Vec<String>,
        derived_to: Vec<String>,
        tagged_as: Vec<String>,
    ) -> (r: Asset)
        ensures
            r.cual == cual,
            r.name == name,
            r.asset_type == asset_type,
            r.metadata == metadata,
            r.governed_by == governed_by,
            r.child_of == child_of,
            r.parent_of == parent_of,
            r.derived_from == derived_from,
            r.derived_to == derived_to,
            r.tagged_as == tagged_as,
    {
        Asset {
            cual,
            name,
            asset_type,
            metadata,
            governed_by,
            child_of,
            parent_of,
            derived_from,
            derived_to,
            tagged_as,
        }
    }
}

/// A raw policy as one connector reports it.
#[derive(Clone, Debug)]
pub struct Policy {
    /// The policy name, local to the connector.
    pub name: String,
    /// The privileges the policy grants.
    pub privileges: Vec<String>,
    /// Locators of assets the policy governs.
    pub governs_assets: Vec<String>,
    /// Names of tags the policy governs.
    pub governs_tags: Vec<String>,
    /// Names of groups the policy is granted to.
    pub granted_to_groups: Vec<String>,
    /// Names of users the policy is granted to.
    pub granted_to_users: Vec<String>,
    /// Whether the policy passes through the asset hierarchy.
    pub pass_through_hierarchy: bool,
    /// Whether the policy passes through lineage.
    pub pass_through_lineage: bool,
}

impl Policy {
    /// Plain constructor.
    pub fn new(
        name: String,
        privileges: Vec<String>,
        governs_assets: Vec<String>,
        governs_tags: Vec<String>,
        granted_to_groups: Vec<String>,
        granted_to_users: Vec<String>,
        pass_through_hierarchy: bool,
        pass_through_lineage: bool,
    ) -> (r: Policy)
        ensures
            r.name == name,
            r.privileges == privileges,
            r.governs_assets == governs_assets,
            r.governs_tags == governs_tags,
            r.granted_to_groups == granted_to_groups,
            r.granted_to_users == granted_to_users,
            r.pass_through_hierarchy == pass_through_hierarchy,
            r.pass_through_lineage == pass_through_lineage,
    {
        Policy {
            name,
            privileges,
            governs_assets,
            governs_tags,
            granted_to_groups,
            granted_to_users,
            pass_through_hierarchy,
            pass_through_lineage,
        }
    }
}

/// The grantee of a raw default policy.
#[derive(Clone, Debug)]
pub enum RawPolicyGrantee {
    /// Granted to a group, by local group name.
    Group(String),
    /// Granted to a user, by local user id.
    User(String),
}

/// A raw default (wildcard) policy: anchored at a root asset, it applies to
/// descendants matching `wildcard_path` whose type is in `target_types`.
#[derive(Clone, Debug)]
pub struct RawDefaultPolicy {
    /// The privileges the policy will grant.
    pub privileges: Vec<String>,
    /// The anchor asset.
    pub root_asset: Cual,
    /// The wildcard path, e.g. `/*` or `/*/**`.
    pub wildcard_path: String,
    /// The asset types the policy targets, in the connector's own words.
    pub target_types: Vec<String>,
    /// Who the policy is granted to.
    pub grantee: RawPolicyGrantee,
    /// Connector-specific metadata.
    pub metadata: Vec<(String, String)>,
}

/// A raw tag as one connector reports it.
#[derive(Clone, Debug)]
pub struct Tag {
    /// The tag name.
    pub name: String,
    /// Free-text description.
    pub description: String,
    /// Whether the tag passes through the asset hierarchy.
    pub pass_through_hierarchy: bool,
    /// Whether the tag passes through lineage.
    pub pass_through_lineage: bool,
    /// Locators of assets the tag is applied to.
    pub applied_to: Vec<String>,
    /// Locators of assets the tag is explicitly removed from.
    pub removed_from: Vec<String>,
}

/// One entry of a connector-reported effective permission: user, asset
/// locator, and the granted privileges with their reasons.
#[derive(Clone, Debug)]
pub struct EffectivePermission {
    /// The privilege granted.
    pub privilege: String,
    /// Why it is granted, one line per contributing rule.
    pub reasons: Vec<String>,
}

/// Everything one connector hands the builder after a fetch.
#[derive(Clone, Debug)]
pub struct ConnectorData {
    /// Raw groups.
    pub groups: Vec<Group>,
    /// Raw users.
    pub users: Vec<User>,
    /// Raw assets.
    pub assets: Vec<Asset>,
    /// Raw policies.
    pub policies: Vec<Policy>,
    /// Raw default policies.
    pub default_policies: Vec<RawDefaultPolicy>,
    /// Raw tags.
    pub tags: Vec<Tag>,
    /// Connector-computed effective permissions, keyed by user then asset
    /// locator.
    pub effective_permissions: Vec<((String, String), Vec<EffectivePermission>)>,
}

impl ConnectorData {
    /// A connector that reports nothing.
    pub fn empty() -> (r: ConnectorData)
        ensures
            r.groups@ =~= Seq::<Group>::empty(),
            r.users@ =~= Seq::<User>::empty(),
            r.assets@ =~= Seq::<Asset>::empty(),
            r.policies@ =~= Seq::<Policy>::empty(),
            r.default_policies@ =~= Seq::<RawDefaultPolicy>::empty(),
            r.tags@ =~= Seq::<Tag>::empty(),
            r.effective_permissions@.len() == 0,
    {
        ConnectorData {
            groups: Vec::new(),
            users: Vec::new(),
            assets: Vec::new(),
            policies: Vec::new(),
            default_policies: Vec::new(),
            tags: Vec::new(),
            effective_permissions: Vec::new(),
        }
    }

    /// Gather the parts into one value.
    pub fn new(
        groups: Vec<Group>,
        users: Vec<User>,
        assets: Vec<Asset>,
        policies: Vec<Policy>,
        default_policies: Vec<RawDefaultPolicy>,
        tags: Vec<Tag>,
        effective_permissions: Vec<((String, String), Vec<EffectivePermission>)>,
    ) -> (r: ConnectorData)
        ensures
            r.groups == groups,
            r.users == users,
            r.assets == assets,
            r.policies == policies,
            r.default_policies == default_policies,
            r.tags == tags,
            r.effective_permissions == effective_permissions,
    {
        ConnectorData { groups, users, assets, policies, default_policies, tags, effective_permissions }
    }
}

} // verus!
