//! The Snowflake connector's data model: entries as the platform reports
//! them, and the logic that shapes grants into unified policies.

pub mod entry;

use vstd::prelude::*;
use crate::connectors::nodes::{RawDefaultPolicy, RawPolicyGrantee};
use crate::cual::Cual;

verus! {

/// A Snowflake database entry.
#[derive(Clone, Debug)]
pub struct Database {
    /// The database name in Snowflake.
    pub name: String,
}

/// A Snowflake entry for a grant of a role to a user or another role.
#[derive(Clone, Debug)]
pub struct GrantOf {
    /// The role name in Snowflake.
    pub role: String,
    /// What the role was granted to: a role or a user.
    pub granted_to: String,
    /// The grantee's name.
    pub grantee_name: String,
}

/// A Snowflake future grant entry.
///
/// Future grants differ from regular grant objects in that they apply to
/// the parents of currently unnamed assets, ones that will be created
/// later.
#[derive(Clone, Debug)]
pub struct FutureGrant {
    /// The future grant name in Snowflake: the anchor's qualified name
    /// followed by a bracketed placeholder for the future objects.
    pub name: String,
    /// The granted privilege.
    pub privilege: String,
    /// What the grant applies to: SCHEMA, TABLE, VIEW and so on.
    pub grant_on: String,
    /// The role the future grant will apply to.
    pub grantee_name: String,
}

impl FutureGrant {
    /// Get the asset type that the grant is applied to.
    pub fn grant_on(&self) -> (r: String)
        ensures
            r@ == self.grant_on@,
    {
        self.grant_on.clone()
    }

    /// Get the asset the grant is set on.
    pub fn granted_on_name(&self) -> (r: String)
        ensures
            r@ == self.name@,
    {
        self.name.clone()
    }

    /// The role that this privilege will be granted to when new objects
    /// within scope are created.
    pub fn role_name(&self) -> (r: String)
        ensures
            r@ == self.grantee_name@,
    {
        self.grantee_name.clone()
    }

    /// The granted privilege.
    pub fn privilege(&self) -> (r: String)
        ensures
            r@ == self.privilege@,
    {
        self.privilege.clone()
    }

    /// Shape this future grant into a raw default policy: the anchor is
    /// the part of the name before the placeholder, the wildcard covers
    /// one level for schema grants and descends one or two levels
    /// otherwise, and the grantee is the role. The given privileges are
    /// carried over unchanged.
    pub fn into_default_policy(&self, all_privileges: Vec<String>) -> (r: RawDefaultPolicy)
        ensures
            r.privileges == all_privileges,
            r.wildcard_path@ == "/*"@ || r.wildcard_path@ == "/*/**"@,
            self.grant_on@ == "SCHEMA"@ ==> r.wildcard_path@ == "/*"@,
            r.grantee matches RawPolicyGrantee::Group(g) && g@ == self.grantee_name@,
            r.target_types.deep_view() == seq![self.grant_on@],
            r.metadata@.len() == 0,
    {
        proof {
            reveal_strlit("SCHEMA");
            reveal_strlit("/*");
            reveal_strlit("/*/**");
            reveal_strlit("snowflake://");
        }
        let stripped = strip_placeholder(&self.name);
        let mut uri = "snowflake://".to_owned();
        uri.append(stripped.as_str());
        let cual = Cual::new(uri);
        let is_schema = self.grant_on == "SCHEMA".to_owned();
        let dots = count_dots(&stripped);
        let wildcard_path = if is_schema {
            "/*".to_owned()
        } else if dots == 0 {
            "/*/**".to_owned()
        } else {
            "/*".to_owned()
        };
        let mut target_types: Vec<String> = Vec::new();
        target_types.push(self.grant_on.clone());
        proof {
            assert(target_types.deep_view() =~= seq![self.grant_on@]);
        }
        RawDefaultPolicy {
            privileges: all_privileges,
            root_asset: cual,
            wildcard_path,
            target_types,
            grantee: RawPolicyGrantee::Group(self.grantee_name.clone()),
            metadata: Vec::new(),
        }
    }
}

/// The part of a future grant name before the bracketed placeholder,
/// with a trailing dot removed.
fn strip_placeholder(name: &String) -> (r: String) {
    let n = name.as_str().unicode_len();
    let mut cut = n;
    let mut i: usize = 0;
    while i < n
        invariant
            n == name@.len(),
            cut <= n,
            i <= n,
        decreases n - i,
    {
        let c = name.as_str().get_char(i);
        if c == '<' {
            cut = i;
            break ;
        }
        i = i + 1;
    }
    let mut out = String::new();
    let mut j: usize = 0;
    while j < cut
        invariant
            cut <= n,
            n == name@.len(),
            j <= cut,
        decreases cut - j,
    {
        let c = name.as_str().get_char(j);
        out.push(c);
        j = j + 1;
    }
    // drop one trailing separator dot, if present
    let m = out.as_str().unicode_len();
    if m > 0 {
        if out.as_str().get_char(m - 1) == '.' {
            let mut trimmed = String::new();
            let mut k: usize = 0;
            while k < m - 1
                invariant
                    m == out@.len(),
                    m > 0,
                    k <= m - 1,
                decreases m - 1 - k,
            {
                trimmed.push(out.as_str().get_char(k));
                k = k + 1;
            }
            return trimmed;
        }
    }
    out
}

/// How many dots a qualified name holds.
fn count_dots(name: &String) -> (r: usize) {
    let n = name.as_str().unicode_len();
    let mut count: usize = 0;
    let mut i: usize = 0;
    while i < n
        invariant
            n == name@.len(),
            count <= i,
            i <= n,
        decreases n - i,
    {
        if name.as_str().get_char(i) == '.' {
            count = count + 1;
        }
        i = i + 1;
    }
    count
}

/// Shape the role-to-grantee entries into a per-grantee list of the
/// roles it holds, in first-seen order; `granted_to` distinguishes
/// user grantees from role grantees.
pub fn build_role_grants(role_grants: &Vec<GrantOf>) -> (r: Vec<((String, String), Vec<String>)>)
{
    let mut out: Vec<((String, String), Vec<String>)> = Vec::new();
    for i in 0..role_grants.len() {
        let key = (role_grants[i].granted_to.clone(), role_grants[i].grantee_name.clone());
        let mut found = false;
        let mut at: usize = 0;
        for j in 0..out.len()
            invariant
                at <= out@.len(),
                found ==> at < out@.len(),
        {
            if !found && out[j].0.0 == key.0 && out[j].0.1 == key.1 {
                found = true;
                at = j;
            }
        }
        if found {
            let mut roles = crate::util::copy_strings(&out[at].1);
            roles.push(role_grants[i].role.clone());
            let key2 = (out[at].0.0.clone(), out[at].0.1.clone());
            out.set(at, (key2, roles));
        } else {
            let mut roles: Vec<String> = Vec::new();
            roles.push(role_grants[i].role.clone());
            out.push((key, roles));
        }
    }
    out
}


/// A Snowflake role entry.
#[derive(Clone, Debug)]
pub struct Role {
    /// The role name in Snowflake.
    pub name: String,
}

/// A Snowflake user entry.
#[derive(Clone, Debug)]
pub struct SnowflakeUser {
    /// The login user name.
    pub name: String,
    /// The user's email address.
    pub email: String,
    /// The user's first name.
    pub first_name: String,
    /// The user's last name.
    pub last_name: String,
    /// The display name.
    pub display_name: String,
    /// The login name.
    pub login_name: String,
}

/// Everything pulled out of Snowflake in one fetch, before it is shaped
/// into unified objects.
#[derive(Clone, Debug)]
pub struct SnowflakeEnvironment {
    /// All databases.
    pub databases: Vec<Database>,
    /// All views.
    pub views: Vec<entry::View>,
    /// All users.
    pub users: Vec<SnowflakeUser>,
    /// All roles.
    pub roles: Vec<Role>,
    /// All future grants.
    pub future_grants: Vec<FutureGrant>,
    /// All grants of roles to users and roles.
    pub role_grants: Vec<GrantOf>,
}

/// Shapes a fetched environment into the unified connector values. The
/// fetch itself is the caller's concern; everything here is a pure
/// function of the environment.
pub struct Coordinator {
    /// The fetched environment.
    pub env: SnowflakeEnvironment,
    /// Role grants, collected per (granted_to, grantee_name).
    pub role_grants: Vec<((String, String), Vec<String>)>,
}

impl Coordinator {
    /// Collect the role grants of the environment by grantee.
    pub fn new(env: SnowflakeEnvironment) -> (r: Coordinator)
        ensures
            r.env == env,
    {
        let role_grants = build_role_grants(&env.role_grants);
        Coordinator { env, role_grants }
    }

    /// The roles held by one grantee; empty when the grantee holds none.
    pub fn get_role_grants(&self, granted_to: &String, grantee_name: &String) -> (r: Vec<
        String,
    >) {
        for i in 0..self.role_grants.len() {
            if self.role_grants[i].0.0 == *granted_to && self.role_grants[i].0.1
                == *grantee_name {
                return crate::util::copy_strings(&self.role_grants[i].1);
            }
        }
        Vec::new()
    }

    /// Roles as unified groups, one per role, under the role's name.
    pub fn get_jetty_groups(&self) -> (r: Vec<crate::connectors::nodes::Group>)
        ensures
            r@.len() == self.env.roles@.len(),
            forall|i: int|
                0 <= i < r@.len() ==> (#[trigger] r@[i]).name@ == self.env.roles@[i].name@,
    {
        let role_word = "ROLE".to_owned();
        let mut out: Vec<crate::connectors::nodes::Group> = Vec::new();
        for i in 0..self.env.roles.len()
            invariant
                out@.len() == i,
                forall|j: int|
                    0 <= j < i ==> (#[trigger] out@[j]).name@ == self.env.roles@[j].name@,
        {
            let member_of = self.get_role_grants(&role_word, &self.env.roles[i].name);
            out.push(
                crate::connectors::nodes::Group::new(
                    self.env.roles[i].name.clone(),
                    Vec::new(),
                    member_of,
                    Vec::new(),
                    Vec::new(),
                    Vec::new(),
                ),
            );
        }
        out
    }

    /// Users as unified users, one per user, carrying the typed
    /// identifiers Snowflake reports.
    pub fn get_jetty_users(&self) -> (r: Vec<crate::connectors::nodes::User>)
        ensures
            r@.len() == self.env.users@.len(),
            forall|i: int|
                0 <= i < r@.len() ==> (#[trigger] r@[i]).name@ == self.env.users@[i].name@,
    {
        let user_word = "USER".to_owned();
        let mut out: Vec<crate::connectors::nodes::User> = Vec::new();
        for i in 0..self.env.users.len()
            invariant
                out@.len() == i,
                forall|j: int|
                    0 <= j < i ==> (#[trigger] out@[j]).name@ == self.env.users@[j].name@,
        {
            let u = &self.env.users[i];
            let mut identifiers: Vec<crate::connectors::UserIdentifier> = Vec::new();
            identifiers.push(crate::connectors::UserIdentifier::Email(u.email.clone()));
            identifiers.push(
                crate::connectors::UserIdentifier::FirstName(u.first_name.clone()),
            );
            identifiers.push(crate::connectors::UserIdentifier::LastName(u.last_name.clone()));
            let mut other_identifiers: Vec<String> = Vec::new();
            other_identifiers.push(u.display_name.clone());
            other_identifiers.push(u.login_name.clone());
            let member_of = self.get_role_grants(&user_word, &u.name);
            out.push(
                crate::connectors::nodes::User::new(
                    u.name.clone(),
                    identifiers,
                    other_identifiers,
                    Vec::new(),
                    member_of,
                    Vec::new(),
                ),
            );
        }
        out
    }

    /// Views and databases as unified assets: a view below its database
    /// and schema, a database at the root.
    pub fn get_jetty_assets(&self) -> (r: Vec<crate::connectors::nodes::Asset>)
        ensures
            r@.len() == self.env.views@.len() + self.env.databases@.len(),
    {
        proof {
            reveal_strlit("snowflake://");
            reveal_strlit("/");
        }
        let mut out: Vec<crate::connectors::nodes::Asset> = Vec::new();
        for i in 0..self.env.views.len()
            invariant
                out@.len() == i,
        {
            let v = &self.env.views[i];
            let mut uri = "snowflake://".to_owned();
            uri.append(v.database_name.as_str());
            uri.append("/");
            uri.append(v.schema_name.as_str());
            uri.append("/");
            uri.append(v.name.as_str());
            let mut child_of: Vec<String> = Vec::new();
            let mut parent = "snowflake://".to_owned();
            parent.append(v.database_name.as_str());
            parent.append("/");
            parent.append(v.schema_name.as_str());
            child_of.push(parent);
            out.push(
                crate::connectors::nodes::Asset::new(
                    Cual::new(uri),
                    v.name.clone(),
                    crate::connectors::AssetType::DBView,
                    Vec::new(),
                    Vec::new(),
                    child_of,
                    Vec::new(),
                    Vec::new(),
                    Vec::new(),
                    Vec::new(),
                ),
            );
        }
        for i in 0..self.env.databases.len()
            invariant
                out@.len() == self.env.views@.len() + i,
        {
            let d = &self.env.databases[i];
            let mut uri = "snowflake://".to_owned();
            uri.append(d.name.as_str());
            out.push(
                crate::connectors::nodes::Asset::new(
                    Cual::new(uri),
                    d.name.clone(),
                    crate::connectors::AssetType::DBDB,
                    Vec::new(),
                    Vec::new(),
                    Vec::new(),
                    Vec::new(),
                    Vec::new(),
                    Vec::new(),
                    Vec::new(),
                ),
            );
        }
        out
    }

    /// Tags: not served by this connector edition; always empty.
    pub fn get_jetty_tags(&self) -> (r: Vec<crate::connectors::nodes::Tag>)
        ensures
            r@.len() == 0,
    {
        Vec::new()
    }

    /// Future grants as raw default policies, one per future grant, each
    /// carrying its own privilege.
    pub fn get_jetty_default_policies(&self) -> (r: Vec<RawDefaultPolicy>)
        ensures
            r@.len() == self.env.future_grants@.len(),
    {
        let mut out: Vec<RawDefaultPolicy> = Vec::new();
        for i in 0..self.env.future_grants.len()
            invariant
                out@.len() == i,
        {
            let mut privileges: Vec<String> = Vec::new();
            privileges.push(self.env.future_grants[i].privilege.clone());
            out.push(self.env.future_grants[i].into_default_policy(privileges));
        }
        out
    }
}

} // verus!
