//! Normalized desired-state configuration: the policy states parsed out of
//! the per-asset and per-user configuration files, before diffing.

use vstd::prelude::*;
use crate::access_graph::NodeName;
use crate::connectors::AssetType;
use crate::errors::ConfigError;

verus! {

/// The desired state of one (asset, agent) policy: its privileges and
/// free-form metadata.
#[derive(Clone, Debug)]
pub struct PolicyState {
    /// Privileges the policy grants.
    pub privileges: Vec<String>,
    /// Policy metadata, one entry per key.
    pub metadata: Vec<(String, String)>,
}

impl PolicyState {
    /// Content equality of two policy states.
    pub open spec fn same_as(self, other: PolicyState) -> bool {
        self.privileges.deep_view() == other.privileges.deep_view()
            && self.metadata@.map_values(|p: (String, String)| (p.0@, p.1@))
            == other.metadata@.map_values(|p: (String, String)| (p.0@, p.1@))
    }

    /// Exact content-equality test.
    pub fn same(&self, other: &PolicyState) -> (r: bool)
        ensures
            r == self.same_as(*other),
    {
        crate::util::string_vec_eq(&self.privileges, &other.privileges)
            && crate::util::string_pairs_eq(&self.metadata, &other.metadata)
    }
}

/// The desired state of one default (wildcard) policy.
#[derive(Clone, Debug)]
pub struct DefaultPolicyState {
    /// Privileges the policy grants.
    pub privileges: Vec<String>,
    /// Group grantees, as graph names.
    pub groups: Vec<NodeName>,
    /// User grantees, as graph names.
    pub users: Vec<NodeName>,
    /// Whether the entity may be written by the apply path.
    pub connector_managed: bool,
    /// Policy metadata.
    pub metadata: Vec<(String, String)>,
}

/// The combined desired state of a project: ordinary policies keyed by
/// (asset, agent), and default policies keyed by (asset, wildcard path,
/// target types).
#[derive(Clone, Debug)]
pub struct CombinedPolicyState {
    /// Ordinary policies.
    pub policies: Vec<((NodeName, NodeName), PolicyState)>,
    /// Default policies.
    pub default_policies: Vec<((NodeName, Vec<String>, Vec<AssetType>), DefaultPolicyState)>,
}

/// Is one wildcard segment legal: empty (skipped), `*`, or `**`?
pub open spec fn wc_seg_ok(s: Seq<char>) -> bool {
    s == Seq::<char>::empty() || s == "*"@ || s == "**"@
}

/// Validate that the wildcard path given by its segments is allowed:
/// every segment is `*` or `**` (empty segments are skipped), and `**`
/// only stands at the end.
pub fn path_is_legal(segments: &Vec<String>) -> (r: Result<(), ConfigError>)
    ensures
        r.is_ok() <==> (forall|i: int|
            0 <= i < segments.deep_view().len() ==> (wc_seg_ok(
                #[trigger] segments.deep_view()[i],
            ) && (segments.deep_view()[i] == "**"@ ==> i == segments.deep_view().len() - 1))),
{
    proof {
        reveal_strlit("*");
        reveal_strlit("**");
    }
    let star: String = "*".to_owned();
    let starstar: String = "**".to_owned();
    let empty: String = String::new();
    for i in 0..segments.len()
        invariant
            star@ == "*"@,
            starstar@ == "**"@,
            empty@ == Seq::<char>::empty(),
            segments.deep_view().len() == segments@.len(),
            forall|j: int|
                0 <= j < i ==> (wc_seg_ok(#[trigger] segments.deep_view()[j]) && (
                segments.deep_view()[j] == "**"@ ==> j == segments.deep_view().len() - 1)),
    {
        proof {
            reveal_strlit("*");
            reveal_strlit("**");
            assert(segments.deep_view()[i as int] == segments@[i as int]@);
        }
        if !(segments[i] == empty) {
            if !(segments[i] == star || segments[i] == starstar) {
                proof {
                    assert(!wc_seg_ok(segments.deep_view()[i as int]));
                }
                return Err(ConfigError::IllegalWildcardPath(segments[i].clone()));
            }
            if segments[i] == starstar && i + 1 != segments.len() {
                proof {
                    assert(segments.deep_view()[i as int] == "**"@);
                }
                return Err(ConfigError::IllegalWildcardPath(segments[i].clone()));
            }
        }
    }
    Ok(())
}

/// The declared groups of the configuration: for each group name, its
/// per-connector graph names.
#[derive(Clone, Debug)]
pub struct ConfigGroups {
    /// Group name, then (connector namespace text, graph name) pairs.
    pub entries: Vec<(String, Vec<(String, NodeName)>)>,
}

/// Does the group configuration declare `group` with an identity on
/// `connector`?
pub open spec fn cg_declares(
    entries: Seq<(String, Vec<(String, NodeName)>)>,
    group: Seq<char>,
    connector: Seq<char>,
) -> bool {
    exists|i: int, j: int|
        {
            &&& 0 <= i < entries.len()
            &&& (#[trigger] entries[i]).0@ == group
            &&& 0 <= j < entries[i].1@.len()
            &&& (#[trigger] entries[i].1@[j]).0@ == connector
        }
}

/// Get the graph name for a configured group on one connector. Succeeds
/// exactly when the group is declared with an identity for the connector;
/// an unknown group name, or a group with no identity on the connector,
/// is a configuration error.
pub fn get_group_name(
    group: &String,
    connector: &crate::jetty::ConnectorNamespace,
    config_groups: &ConfigGroups,
) -> (r: Result<NodeName, ConfigError>)
    ensures
        r.is_ok() <==> cg_declares(config_groups.entries@, group@, connector.0@),
        match r {
            Ok(n) => exists|i: int, j: int|
                {
                    &&& 0 <= i < config_groups.entries@.len()
                    &&& (#[trigger] config_groups.entries@[i]).0@ == group@
                    &&& 0 <= j < config_groups.entries@[i].1@.len()
                    &&& (#[trigger] config_groups.entries@[i].1@[j]).0@ == connector.0@
                    &&& n.key() == config_groups.entries@[i].1@[j].1.key()
                },
            Err(e) => e matches ConfigError::UnknownGroup(g) && g@ == group@,
        },
{
    for i in 0..config_groups.entries.len()
        invariant
            forall|a: int, b: int|
                0 <= a < i && 0 <= b < (#[trigger] config_groups.entries@[a]).1@.len() ==> !(
                config_groups.entries@[a].0@ == group@ && (
                #[trigger] config_groups.entries@[a].1@[b]).0@ == connector.0@),
    {
        if config_groups.entries[i].0 == *group {
            let inner = &config_groups.entries[i].1;
            for j in 0..inner.len()
                invariant
                    i < config_groups.entries@.len(),
                    inner == &config_groups.entries@[i as int].1,
                    config_groups.entries@[i as int].0@ == group@,
                    forall|b: int|
                        0 <= b < j ==> (#[trigger] config_groups.entries@[i as int].1@[b]).0@
                            != connector.0@,
            {
                if inner[j].0 == connector.0 {
                    let n = inner[j].1.duplicate();
                    proof {
                        assert((config_groups.entries@[i as int].1@[j as int]).0@
                            == connector.0@);
                    }
                    return Ok(n);
                }
            }
        }
    }
    proof {
        assert(!cg_declares(config_groups.entries@, group@, connector.0@));
    }
    Err(ConfigError::UnknownGroup(group.clone()))
}

/// Determine whether a set of privileges is legal for a policy: each one
/// must appear in the connector's allow-list for the asset type.
pub fn privileges_are_legal(privileges: &Vec<String>, allowed: &Vec<String>) -> (r: Result<
    (),
    ConfigError,
>)
    ensures
        r.is_ok() <==> (forall|i: int|
            0 <= i < privileges.deep_view().len() ==> crate::util::seq_contains_str(
                allowed.deep_view(),
                #[trigger] privileges.deep_view()[i],
            )),
{
    for i in 0..privileges.len()
        invariant
            privileges.deep_view().len() == privileges@.len(),
            forall|j: int|
                0 <= j < i ==> crate::util::seq_contains_str(
                    allowed.deep_view(),
                    #[trigger] privileges.deep_view()[j],
                ),
    {
        if !crate::util::contains_string(allowed, &privileges[i]) {
            proof {
                assert(!crate::util::seq_contains_str(
                    allowed.deep_view(),
                    privileges.deep_view()[i as int],
                ));
            }
            return Err(ConfigError::UnsupportedPrivilege(privileges[i].clone()));
        }
    }
    Ok(())
}

/// One policy block of a per-asset configuration file, as plain values:
/// the privileges it grants, the grantees it names, and — for a default
/// policy — the wildcard path (as segments) and the target asset types.
#[derive(Clone, Debug)]
pub struct PolicyDoc {
    /// Privileges granted; empty when the block grants none.
    pub privileges: Vec<String>,
    /// Group grantees, by configured group name.
    pub groups: Vec<String>,
    /// User grantees, by unified user name.
    pub users: Vec<String>,
    /// The wildcard path below the asset, as segments; only default
    /// policies carry one.
    pub path: Option<Vec<String>>,
    /// The asset types targeted; only default policies carry them.
    pub types: Option<Vec<AssetType>>,
    /// Free-form metadata.
    pub metadata: Vec<(String, String)>,
}

/// An ordinary policy block is acceptable: every group it names is
/// declared with an identity for the connector, every user it names is
/// known, and every privilege is in the connector's allow-list.
pub open spec fn pdoc_ok(
    p: PolicyDoc,
    entries: Seq<(String, Vec<(String, NodeName)>)>,
    conn: Seq<char>,
    known_users: Seq<Seq<char>>,
    allowed: Seq<Seq<char>>,
) -> bool {
    &&& forall|j: int|
        0 <= j < p.groups@.len() ==> cg_declares(entries, (#[trigger] p.groups@[j])@, conn)
    &&& forall|j: int|
        0 <= j < p.users@.len() ==> crate::util::seq_contains_str(
            known_users,
            (#[trigger] p.users@[j])@,
        )
    &&& forall|j: int|
        0 <= j < p.privileges@.len() ==> crate::util::seq_contains_str(
            allowed,
            (#[trigger] p.privileges@[j])@,
        )
}

/// The node key `n` is a declared identity of configured group `group`
/// on connector `conn`.
pub open spec fn agent_declared(
    entries: Seq<(String, Vec<(String, NodeName)>)>,
    group: Seq<char>,
    conn: Seq<char>,
    n: crate::access_graph::NodeKey,
) -> bool {
    exists|a: int, b: int|
        {
            &&& 0 <= a < entries.len()
            &&& (#[trigger] entries[a]).0@ == group
            &&& 0 <= b < entries[a].1@.len()
            &&& (#[trigger] entries[a].1@[b]).0@ == conn
            &&& entries[a].1@[b].1.key() == n
        }
}

/// Record one (asset, agent) policy entry, keeping keys unique: a key
/// already present keeps its first state, a fresh key is appended with
/// the given privileges, duplicates removed.
fn put_policy(
    out: &mut Vec<((NodeName, NodeName), PolicyState)>,
    asset: &NodeName,
    agent: NodeName,
    privileges: &Vec<String>,
)
    requires
        crate::diff::pd_wf(old(out)@),
    ensures
        crate::diff::pd_wf(final(out)@),
        final(out)@.len() >= old(out)@.len(),
        forall|ei: int| 0 <= ei < old(out)@.len() ==> final(out)@[ei] == old(out)@[ei],
        forall|k: (crate::access_graph::NodeKey, crate::access_graph::NodeKey)|
            #[trigger] crate::diff::pd_has(final(out)@, k) <==> (crate::diff::pd_has(
                old(out)@,
                k,
            ) || k == (asset.key(), agent.key())),
        final(out)@.len() > old(out)@.len() ==> {
            &&& final(out)@.len() == old(out)@.len() + 1
            &&& final(out)@.last().0.0.key() == asset.key()
            &&& final(out)@.last().0.1.key() == agent.key()
            &&& crate::diff::privset_eq(
                final(out)@.last().1.privileges.deep_view(),
                privileges.deep_view(),
            )
        },
{
    let ghost pre = out@;
    match crate::diff::pol_find(out, asset, &agent) {
        Some(_) => {
            proof {
                assert forall|k: (crate::access_graph::NodeKey, crate::access_graph::NodeKey)|
                    #[trigger] crate::diff::pd_has(out@, k) <==> (crate::diff::pd_has(pre, k)
                        || k == (asset.key(), agent.key())) by {
                }
            }
        },
        None => {
            let empty: Vec<String> = Vec::new();
            let deduped = crate::util::union_unique(&empty, privileges);
            proof {
                assert(empty.deep_view() =~= Seq::<Seq<char>>::empty());
            }
            let entry = (
                (asset.duplicate(), agent),
                PolicyState { privileges: deduped, metadata: Vec::new() },
            );
            proof {
                crate::diff::lemma_pd_push(pre, entry);
            }
            out.push(entry);
            proof {
                assert(out@ =~= pre.push(entry));
                assert(out@.last() == entry);
            }
        },
    }
}

/// Some declared identity of the configured group on the connector has a
/// policy entry recorded for the asset.
pub open spec fn grantee_recorded(
    out: Seq<((NodeName, NodeName), PolicyState)>,
    entries: Seq<(String, Vec<(String, NodeName)>)>,
    group: Seq<char>,
    conn: Seq<char>,
    asset: crate::access_graph::NodeKey,
) -> bool {
    exists|n: crate::access_graph::NodeKey|
        agent_declared(entries, group, conn, n) && crate::diff::pd_has(out, (asset, n))
}

/// Recorded grantees stay recorded when entries are only added.
proof fn lemma_grantee_recorded_mono(
    o1: Seq<((NodeName, NodeName), PolicyState)>,
    o2: Seq<((NodeName, NodeName), PolicyState)>,
    entries: Seq<(String, Vec<(String, NodeName)>)>,
    conn: Seq<char>,
    asset: crate::access_graph::NodeKey,
)
    requires
        forall|k: (crate::access_graph::NodeKey, crate::access_graph::NodeKey)|
            crate::diff::pd_has(o1, k) ==> #[trigger] crate::diff::pd_has(o2, k),
    ensures
        forall|group: Seq<char>|
            #[trigger] grantee_recorded(o1, entries, group, conn, asset) ==> grantee_recorded(
                o2,
                entries,
                group,
                conn,
                asset,
            ),
{
    assert forall|group: Seq<char>|
        #[trigger] grantee_recorded(o1, entries, group, conn, asset) implies grantee_recorded(
        o2,
        entries,
        group,
        conn,
        asset,
    ) by {
        let n0 = choose|n: crate::access_graph::NodeKey|
            agent_declared(entries, group, conn, n) && crate::diff::pd_has(o1, (asset, n));
        assert(crate::diff::pd_has(o2, (asset, n0)));
    }
}

/// Fold the policy blocks of one asset's configuration into the desired
/// (asset, agent) policy states. Succeeds exactly when every block is
/// acceptable: every named group declared for the connector, every named
/// user known, every privilege in the allow-list. Each grantee of each
/// block gets an entry under this asset; when two blocks name the same
/// grantee the first block's privileges stand.
pub fn parse_policies(
    asset_name: &NodeName,
    policies: &Vec<PolicyDoc>,
    connector: &crate::jetty::ConnectorNamespace,
    config_groups: &ConfigGroups,
    known_users: &Vec<String>,
    allowed_privileges: &Vec<String>,
) -> (r: Result<Vec<((NodeName, NodeName), PolicyState)>, ConfigError>)
    ensures
        r.is_ok() <==> (forall|i: int|
            0 <= i < policies@.len() ==> pdoc_ok(
                #[trigger] policies@[i],
                config_groups.entries@,
                connector.0@,
                known_users.deep_view(),
                allowed_privileges.deep_view(),
            )),
        match r {
            Ok(out) => {
                &&& crate::diff::pd_wf(out@)
                &&& forall|ei: int|
                    0 <= ei < out@.len() ==> (#[trigger] out@[ei]).0.0.key()
                        == asset_name.key()
                &&& forall|i: int, j: int|
                    #![trigger policies@[i].groups@[j]]
                    0 <= i < policies@.len() && 0 <= j < policies@[i].groups@.len()
                        ==> grantee_recorded(
                        out@,
                        config_groups.entries@,
                        policies@[i].groups@[j]@,
                        connector.0@,
                        asset_name.key(),
                    )
                &&& forall|i: int, j: int|
                    #![trigger policies@[i].users@[j]]
                    0 <= i < policies@.len() && 0 <= j < policies@[i].users@.len()
                        ==> crate::diff::pd_has(
                        out@,
                        (
                            asset_name.key(),
                            crate::access_graph::NodeKey::User(policies@[i].users@[j]@),
                        ),
                    )
            },
            Err(_) => true,
        },
{
    let mut out: Vec<((NodeName, NodeName), PolicyState)> = Vec::new();
    for i in 0..policies.len()
        invariant
            crate::diff::pd_wf(out@),
            forall|ei: int|
                0 <= ei < out@.len() ==> (#[trigger] out@[ei]).0.0.key() == asset_name.key(),
            forall|a: int|
                0 <= a < i ==> pdoc_ok(
                    #[trigger] policies@[a],
                    config_groups.entries@,
                    connector.0@,
                    known_users.deep_view(),
                    allowed_privileges.deep_view(),
                ),
            forall|a: int, b: int|
                #![trigger policies@[a].groups@[b]]
                0 <= a < i && 0 <= b < policies@[a].groups@.len() ==> grantee_recorded(
                    out@,
                    config_groups.entries@,
                    policies@[a].groups@[b]@,
                    connector.0@,
                    asset_name.key(),
                ),
            forall|a: int, b: int|
                #![trigger policies@[a].users@[b]]
                0 <= a < i && 0 <= b < policies@[a].users@.len() ==> crate::diff::pd_has(
                    out@,
                    (
                        asset_name.key(),
                        crate::access_graph::NodeKey::User(policies@[a].users@[b]@),
                    ),
                ),
    {
        let doc = &policies[i];
        for j in 0..doc.groups.len()
            invariant
                *doc == policies@[i as int],
                i < policies@.len(),
                crate::diff::pd_wf(out@),
                forall|ei: int|
                    0 <= ei < out@.len() ==> (#[trigger] out@[ei]).0.0.key() == asset_name.key(),
                forall|a: int|
                    0 <= a < i ==> pdoc_ok(
                        #[trigger] policies@[a],
                        config_groups.entries@,
                        connector.0@,
                        known_users.deep_view(),
                        allowed_privileges.deep_view(),
                    ),
                forall|a: int, b: int|
                    #![trigger policies@[a].groups@[b]]
                    0 <= a < i && 0 <= b < policies@[a].groups@.len() ==> grantee_recorded(
                        out@,
                        config_groups.entries@,
                        policies@[a].groups@[b]@,
                        connector.0@,
                        asset_name.key(),
                    ),
                forall|a: int, b: int|
                    #![trigger policies@[a].users@[b]]
                    0 <= a < i && 0 <= b < policies@[a].users@.len() ==> crate::diff::pd_has(
                        out@,
                        (
                            asset_name.key(),
                            crate::access_graph::NodeKey::User(policies@[a].users@[b]@),
                        ),
                    ),
                forall|b: int|
                    0 <= b < j ==> cg_declares(
                        config_groups.entries@,
                        (#[trigger] policies@[i as int].groups@[b])@,
                        connector.0@,
                    ),
                forall|b: int|
                    0 <= b < j ==> grantee_recorded(
                        out@,
                        config_groups.entries@,
                        (#[trigger] policies@[i as int].groups@[b])@,
                        connector.0@,
                        asset_name.key(),
                    ),
        {
            let group_name = match get_group_name(&doc.groups[j], connector, config_groups) {
                Ok(n) => n,
                Err(e) => {
                    proof {
                        assert(!pdoc_ok(
                            policies@[i as int],
                            config_groups.entries@,
                            connector.0@,
                            known_users.deep_view(),
                            allowed_privileges.deep_view(),
                        ));
                    }
                    return Err(e);
                },
            };
            let ghost nk = group_name.key();
            let ghost preout = out@;
            put_policy(&mut out, asset_name, group_name, &doc.privileges);
            proof {
                lemma_grantee_recorded_mono(
                    preout,
                    out@,
                    config_groups.entries@,
                    connector.0@,
                    asset_name.key(),
                );
                assert(agent_declared(
                    config_groups.entries@,
                    (policies@[i as int].groups@[j as int])@,
                    connector.0@,
                    nk,
                ));
                assert(crate::diff::pd_has(out@, (asset_name.key(), nk)));
                assert(grantee_recorded(
                    out@,
                    config_groups.entries@,
                    (policies@[i as int].groups@[j as int])@,
                    connector.0@,
                    asset_name.key(),
                ));
            }
        }
        for j in 0..doc.users.len()
            invariant
                *doc == policies@[i as int],
                i < policies@.len(),
                crate::diff::pd_wf(out@),
                forall|ei: int|
                    0 <= ei < out@.len() ==> (#[trigger] out@[ei]).0.0.key() == asset_name.key(),
                forall|a: int|
                    0 <= a < i ==> pdoc_ok(
                        #[trigger] policies@[a],
                        config_groups.entries@,
                        connector.0@,
                        known_users.deep_view(),
                        allowed_privileges.deep_view(),
                    ),
                forall|a: int, b: int|
                    #![trigger policies@[a].groups@[b]]
                    0 <= a < i && 0 <= b < policies@[a].groups@.len() ==> grantee_recorded(
                        out@,
                        config_groups.entries@,
                        policies@[a].groups@[b]@,
                        connector.0@,
                        asset_name.key(),
                    ),
                forall|a: int, b: int|
                    #![trigger policies@[a].users@[b]]
                    0 <= a < i && 0 <= b < policies@[a].users@.len() ==> crate::diff::pd_has(
                        out@,
                        (
                            asset_name.key(),
                            crate::access_graph::NodeKey::User(policies@[a].users@[b]@),
                        ),
                    ),
                forall|b: int|
                    0 <= b < policies@[i as int].groups@.len() ==> cg_declares(
                        config_groups.entries@,
                        (#[trigger] policies@[i as int].groups@[b])@,
                        connector.0@,
                    ),
                forall|b: int|
                    0 <= b < policies@[i as int].groups@.len() ==> grantee_recorded(
                        out@,
                        config_groups.entries@,
                        (#[trigger] policies@[i as int].groups@[b])@,
                        connector.0@,
                        asset_name.key(),
                    ),
                forall|b: int|
                    0 <= b < j ==> crate::util::seq_contains_str(
                        known_users.deep_view(),
                        (#[trigger] policies@[i as int].users@[b])@,
                    ),
                forall|b: int|
                    0 <= b < j ==> crate::diff::pd_has(
                        out@,
                        (
                            asset_name.key(),
                            crate::access_graph::NodeKey::User(
                                (#[trigger] policies@[i as int].users@[b])@,
                            ),
                        ),
                    ),
        {
            if !crate::util::contains_string(known_users, &doc.users[j]) {
                proof {
                    assert(!crate::util::seq_contains_str(
                        known_users.deep_view(),
                        (policies@[i as int].users@[j as int])@,
                    ));
                    assert(!pdoc_ok(
                        policies@[i as int],
                        config_groups.entries@,
                        connector.0@,
                        known_users.deep_view(),
                        allowed_privileges.deep_view(),
                    ));
                }
                return Err(ConfigError::UnknownUser(doc.users[j].clone()));
            }
            let ghost preout = out@;
            put_policy(
                &mut out,
                asset_name,
                NodeName::User(doc.users[j].clone()),
                &doc.privileges,
            );
            proof {
                lemma_grantee_recorded_mono(
                    preout,
                    out@,
                    config_groups.entries@,
                    connector.0@,
                    asset_name.key(),
                );
                assert(crate::diff::pd_has(
                    out@,
                    (
                        asset_name.key(),
                        crate::access_graph::NodeKey::User(
                            (policies@[i as int].users@[j as int])@,
                        ),
                    ),
                ));
            }
        }
        if let Err(e) = privileges_are_legal(&doc.privileges, allowed_privileges) {
            proof {
                let pv = policies@[i as int].privileges;
                assert(!(forall|b: int|
                    0 <= b < pv.deep_view().len() ==> crate::util::seq_contains_str(
                        allowed_privileges.deep_view(),
                        #[trigger] pv.deep_view()[b],
                    )));
                let b0 = choose|b: int|
                    0 <= b < pv.deep_view().len() && !crate::util::seq_contains_str(
                        allowed_privileges.deep_view(),
                        #[trigger] pv.deep_view()[b],
                    );
                assert(pv.deep_view()[b0] == pv@[b0]@);
                assert(!pdoc_ok(
                    policies@[i as int],
                    config_groups.entries@,
                    connector.0@,
                    known_users.deep_view(),
                    allowed_privileges.deep_view(),
                ));
            }
            return Err(e);
        }
        proof {
            let pv = policies@[i as int].privileges;
            assert forall|b: int| 0 <= b < pv@.len() implies crate::util::seq_contains_str(
                allowed_privileges.deep_view(),
                (#[trigger] pv@[b])@,
            ) by {
                assert(pv.deep_view()[b] == pv@[b]@);
                assert(crate::util::seq_contains_str(
                    allowed_privileges.deep_view(),
                    pv.deep_view()[b],
                ));
            }
            assert(pdoc_ok(
                policies@[i as int],
                config_groups.entries@,
                connector.0@,
                known_users.deep_view(),
                allowed_privileges.deep_view(),
            ));
        }
    }
    Ok(out)
}

/// Every segment is a legal wildcard segment and `**` stands only at the
/// end.
pub open spec fn wc_path_ok(s: Seq<Seq<char>>) -> bool {
    forall|i: int|
        0 <= i < s.len() ==> (wc_seg_ok(#[trigger] s[i]) && (s[i] == "**"@ ==> i == s.len()
            - 1))
}

/// A default-policy block is acceptable: its grantees and privileges are
/// acceptable as for an ordinary block, its target types are given and
/// allowed for the connector, and its wildcard path is given and legal.
pub open spec fn dpdoc_ok(
    p: PolicyDoc,
    entries: Seq<(String, Vec<(String, NodeName)>)>,
    conn: Seq<char>,
    known_users: Seq<Seq<char>>,
    allowed: Seq<Seq<char>>,
    allowed_types: Seq<AssetType>,
) -> bool {
    &&& pdoc_ok(p, entries, conn, known_users, allowed)
    &&& p.types matches Some(ts) && ts@.len() > 0 && (forall|j: int|
        0 <= j < ts@.len() ==> allowed_types.contains(#[trigger] ts@[j]))
    &&& p.path matches Some(segs) && wc_path_ok(segs.deep_view())
}

/// One parsed default-policy entry stems from one block: the key carries
/// the block's path and types, the privileges are the block's, each group
/// grantee is a declared identity of a named group, each user grantee is
/// a named user, and the policy is connector-managed.
pub open spec fn dp_entry_of(
    e: ((NodeName, Vec<String>, Vec<AssetType>), DefaultPolicyState),
    p: PolicyDoc,
    entries: Seq<(String, Vec<(String, NodeName)>)>,
    conn: Seq<char>,
    asset: crate::access_graph::NodeKey,
) -> bool {
    &&& e.0.0.key() == asset
    &&& p.path matches Some(segs) && e.0.1.deep_view() == segs.deep_view()
    &&& p.types matches Some(ts) && e.0.2@ == ts@
    &&& crate::diff::privset_eq(e.1.privileges.deep_view(), p.privileges.deep_view())
    &&& e.1.groups@.len() == p.groups@.len()
    &&& forall|j: int|
        0 <= j < p.groups@.len() ==> agent_declared(
            entries,
            p.groups@[j]@,
            conn,
            (#[trigger] e.1.groups@[j]).key(),
        )
    &&& e.1.users@.len() == p.users@.len()
    &&& forall|j: int|
        0 <= j < p.users@.len() ==> (#[trigger] e.1.users@[j]).key()
            == crate::access_graph::NodeKey::User(p.users@[j]@)
    &&& e.1.connector_managed
}

/// Does the default-policy state hold an entry keyed by this path and
/// these types?
pub open spec fn dp_has_key(
    s: Seq<((NodeName, Vec<String>, Vec<AssetType>), DefaultPolicyState)>,
    path: Seq<Seq<char>>,
    types: Seq<AssetType>,
) -> bool {
    exists|ei: int|
        0 <= ei < s.len() && (#[trigger] s[ei]).0.1.deep_view() == path && s[ei].0.2@ == types
}

/// Every parsed default-policy entry stems from one of the given blocks.
pub open spec fn dp_sound(
    out: Seq<((NodeName, Vec<String>, Vec<AssetType>), DefaultPolicyState)>,
    dps: Seq<PolicyDoc>,
    entries: Seq<(String, Vec<(String, NodeName)>)>,
    conn: Seq<char>,
    asset: crate::access_graph::NodeKey,
) -> bool {
    forall|ei: int|
        0 <= ei < out.len() ==> exists|a: int|
            #![trigger dps[a]]
            0 <= a < dps.len() && dp_entry_of(#[trigger] out[ei], dps[a], entries, conn, asset)
}

/// Fold the default-policy blocks of one asset's configuration into the
/// desired default-policy states, keyed by (asset, wildcard path, target
/// types). Succeeds exactly when every block is acceptable; when two
/// blocks share a key the first block's state stands.
pub fn parse_default_policies(
    asset_name: &NodeName,
    default_policies: &Vec<PolicyDoc>,
    connector: &crate::jetty::ConnectorNamespace,
    config_groups: &ConfigGroups,
    known_users: &Vec<String>,
    allowed_privileges: &Vec<String>,
    allowed_types: &Vec<AssetType>,
) -> (r: Result<
    Vec<((NodeName, Vec<String>, Vec<AssetType>), DefaultPolicyState)>,
    ConfigError,
>)
    ensures
        r.is_ok() <==> (forall|i: int|
            0 <= i < default_policies@.len() ==> dpdoc_ok(
                #[trigger] default_policies@[i],
                config_groups.entries@,
                connector.0@,
                known_users.deep_view(),
                allowed_privileges.deep_view(),
                allowed_types@,
            )),
        match r {
            Ok(out) => {
                &&& forall|a: int, b: int|
                    0 <= a < b < out@.len() ==> !((#[trigger] out@[a]).0.1.deep_view() == (
                    #[trigger] out@[b]).0.1.deep_view() && out@[a].0.2@ == out@[b].0.2@)
                &&& dp_sound(
                    out@,
                    default_policies@,
                    config_groups.entries@,
                    connector.0@,
                    asset_name.key(),
                )
                &&& forall|i: int|
                    0 <= i < default_policies@.len() ==> dp_has_key(
                        out@,
                        (#[trigger] default_policies@[i]).path.unwrap().deep_view(),
                        default_policies@[i].types.unwrap()@,
                    )
            },
            Err(_) => true,
        },
{
    let mut out: Vec<((NodeName, Vec<String>, Vec<AssetType>), DefaultPolicyState)> =
        Vec::new();
    for i in 0..default_policies.len()
        invariant
            forall|a: int, b: int|
                0 <= a < b < out@.len() ==> !((#[trigger] out@[a]).0.1.deep_view() == (
                #[trigger] out@[b]).0.1.deep_view() && out@[a].0.2@ == out@[b].0.2@),
            dp_sound(
                out@,
                default_policies@,
                config_groups.entries@,
                connector.0@,
                asset_name.key(),
            ),
            forall|a: int|
                0 <= a < i ==> dpdoc_ok(
                    #[trigger] default_policies@[a],
                    config_groups.entries@,
                    connector.0@,
                    known_users.deep_view(),
                    allowed_privileges.deep_view(),
                    allowed_types@,
                ),
            forall|a: int|
                0 <= a < i ==> dp_has_key(
                    out@,
                    (#[trigger] default_policies@[a]).path.unwrap().deep_view(),
                    default_policies@[a].types.unwrap()@,
                ),
    {
        let doc = &default_policies[i];
        let ghost out0 = out@;
        // resolve the group grantees
        let mut groups: Vec<NodeName> = Vec::new();
        for j in 0..doc.groups.len()
            invariant
                *doc == default_policies@[i as int],
                i < default_policies@.len(),
                groups@.len() == j,
                forall|b: int|
                    0 <= b < j ==> cg_declares(
                        config_groups.entries@,
                        (#[trigger] default_policies@[i as int].groups@[b])@,
                        connector.0@,
                    ),
                forall|b: int|
                    0 <= b < j ==> agent_declared(
                        config_groups.entries@,
                        default_policies@[i as int].groups@[b]@,
                        connector.0@,
                        (#[trigger] groups@[b]).key(),
                    ),
        {
            let group_name = match get_group_name(&doc.groups[j], connector, config_groups) {
                Ok(n) => n,
                Err(e) => {
                    proof {
                        assert(!pdoc_ok(
                            default_policies@[i as int],
                            config_groups.entries@,
                            connector.0@,
                            known_users.deep_view(),
                            allowed_privileges.deep_view(),
                        ));
                    }
                    return Err(e);
                },
            };
            groups.push(group_name);
        }
        // resolve the user grantees
        let mut users: Vec<NodeName> = Vec::new();
        for j in 0..doc.users.len()
            invariant
                *doc == default_policies@[i as int],
                i < default_policies@.len(),
                users@.len() == j,
                forall|b: int|
                    0 <= b < j ==> crate::util::seq_contains_str(
                        known_users.deep_view(),
                        (#[trigger] default_policies@[i as int].users@[b])@,
                    ),
                forall|b: int|
                    0 <= b < j ==> (#[trigger] users@[b]).key()
                        == crate::access_graph::NodeKey::User(
                        default_policies@[i as int].users@[b]@,
                    ),
        {
            if !crate::util::contains_string(known_users, &doc.users[j]) {
                proof {
                    assert(!crate::util::seq_contains_str(
                        known_users.deep_view(),
                        (default_policies@[i as int].users@[j as int])@,
                    ));
                    assert(!pdoc_ok(
                        default_policies@[i as int],
                        config_groups.entries@,
                        connector.0@,
                        known_users.deep_view(),
                        allowed_privileges.deep_view(),
                    ));
                }
                return Err(ConfigError::UnknownUser(doc.users[j].clone()));
            }
            users.push(NodeName::User(doc.users[j].clone()));
        }
        // target types must be given, non-empty, and allowed
        let types = match &doc.types {
            None => {
                return Err(ConfigError::MissingTypes);
            },
            Some(ts) => {
                if ts.len() == 0 {
                    return Err(ConfigError::MissingTypes);
                }
                for j in 0..ts.len()
                    invariant
                        i < default_policies@.len(),
                        *doc == default_policies@[i as int],
                        doc.types matches Some(t2) && t2 == ts,
                        forall|b: int| 0 <= b < j ==> allowed_types@.contains(#[trigger] ts@[b]),
                {
                    let mut found = false;
                    for k in 0..allowed_types.len()
                        invariant
                            j < ts@.len(),
                            found ==> allowed_types@.contains(ts@[j as int]),
                            !found ==> forall|b: int|
                                0 <= b < k ==> allowed_types@[b] != ts@[j as int],
                    {
                        if allowed_types[k] == ts[j] {
                            found = true;
                            proof {
                                assert(allowed_types@[k as int] == ts@[j as int]);
                            }
                        }
                    }
                    if !found {
                        proof {
                            assert(!allowed_types@.contains(ts@[j as int]));
                            assert(default_policies@[i as int].types.unwrap() == *ts);
                            assert(!dpdoc_ok(
                                default_policies@[i as int],
                                config_groups.entries@,
                                connector.0@,
                                known_users.deep_view(),
                                allowed_privileges.deep_view(),
                                allowed_types@,
                            ));
                            assert(exists|i2: int|
                                0 <= i2 < default_policies@.len() && !dpdoc_ok(
                                    #[trigger] default_policies@[i2],
                                    config_groups.entries@,
                                    connector.0@,
                                    known_users.deep_view(),
                                    allowed_privileges.deep_view(),
                                    allowed_types@,
                                )) by {
                                assert(!dpdoc_ok(
                                    default_policies@[i as int],
                                    config_groups.entries@,
                                    connector.0@,
                                    known_users.deep_view(),
                                    allowed_privileges.deep_view(),
                                    allowed_types@,
                                ));
                            }
                        }
                        return Err(ConfigError::UnsupportedAssetType(ts[j].as_str().to_owned()));
                    }
                }
                crate::access_graph::copy_types(ts)
            },
        };
        // privileges must all be in the allow-list
        if let Err(e) = privileges_are_legal(&doc.privileges, allowed_privileges) {
            proof {
                let pv = default_policies@[i as int].privileges;
                let b0 = choose|b: int|
                    0 <= b < pv.deep_view().len() && !crate::util::seq_contains_str(
                        allowed_privileges.deep_view(),
                        #[trigger] pv.deep_view()[b],
                    );
                assert(pv.deep_view()[b0] == pv@[b0]@);
                assert(!pdoc_ok(
                    default_policies@[i as int],
                    config_groups.entries@,
                    connector.0@,
                    known_users.deep_view(),
                    allowed_privileges.deep_view(),
                ));
            }
            return Err(e);
        }
        // the wildcard path must be given and legal
        let path = match &doc.path {
            None => {
                return Err(ConfigError::IllegalWildcardPath(String::new()));
            },
            Some(segs) => {
                if let Err(e) = path_is_legal(segs) {
                    return Err(e);
                }
                let c = crate::access_graph::copy_string_vec(segs);
                proof {
                    assert(c.deep_view() =~= segs.deep_view());
                }
                c
            },
        };
        proof {
            let pv = default_policies@[i as int].privileges;
            assert forall|b: int| 0 <= b < pv@.len() implies crate::util::seq_contains_str(
                allowed_privileges.deep_view(),
                (#[trigger] pv@[b])@,
            ) by {
                assert(pv.deep_view()[b] == pv@[b]@);
                assert(crate::util::seq_contains_str(
                    allowed_privileges.deep_view(),
                    pv.deep_view()[b],
                ));
            }
            assert(dpdoc_ok(
                default_policies@[i as int],
                config_groups.entries@,
                connector.0@,
                known_users.deep_view(),
                allowed_privileges.deep_view(),
                allowed_types@,
            ));
        }
        // first block with a given key wins
        let mut present = false;
        for ei in 0..out.len()
            invariant
                path.deep_view() == default_policies@[i as int].path.unwrap().deep_view(),
                types@ == default_policies@[i as int].types.unwrap()@,
                present ==> dp_has_key(
                    out@,
                    default_policies@[i as int].path.unwrap().deep_view(),
                    default_policies@[i as int].types.unwrap()@,
                ),
                !present ==> forall|b: int|
                    0 <= b < ei ==> !((#[trigger] out@[b]).0.1.deep_view() == path.deep_view()
                        && out@[b].0.2@ == types@),
        {
            if crate::util::string_vec_eq(&out[ei].0.1, &path) && crate::access_graph::asset_types_eq(
                &out[ei].0.2,
                &types,
            ) {
                present = true;
                proof {
                    assert(out@[ei as int].0.1.deep_view() =~= path.deep_view());
                }
            }
        }
        proof {
            if !present {
                assert(!dp_has_key(
                    out@,
                    default_policies@[i as int].path.unwrap().deep_view(),
                    default_policies@[i as int].types.unwrap()@,
                ));
            }
        }
        if !present {
            let empty: Vec<String> = Vec::new();
            let deduped = crate::util::union_unique(&empty, &doc.privileges);
            proof {
                assert(empty.deep_view() =~= Seq::<Seq<char>>::empty());
            }
            let entry = (
                (asset_name.duplicate(), path, types),
                DefaultPolicyState {
                    privileges: deduped,
                    groups,
                    users,
                    connector_managed: true,
                    metadata: crate::util::copy_pairs(&doc.metadata),
                },
            );
            proof {
                assert(dp_entry_of(
                    entry,
                    default_policies@[i as int],
                    config_groups.entries@,
                    connector.0@,
                    asset_name.key(),
                ));
            }
            let ghost pre = out@;
            out.push(entry);
            proof {
                assert(out@ =~= pre.push(entry));
                assert(out@.last() == entry);
                assert(forall|ei: int| 0 <= ei < pre.len() ==> out@[ei] == pre[ei]);
                assert forall|ei: int| 0 <= ei < out@.len() implies exists|a: int|
                    #![trigger default_policies@[a]]
                    0 <= a < default_policies@.len() && dp_entry_of(
                        #[trigger] out@[ei],
                        default_policies@[a],
                        config_groups.entries@,
                        connector.0@,
                        asset_name.key(),
                    ) by {
                    assert(dp_sound(
                        pre,
                        default_policies@,
                        config_groups.entries@,
                        connector.0@,
                        asset_name.key(),
                    ));
                    if ei < pre.len() {
                        assert(out@[ei] == pre[ei]);
                        let a0 = choose|a: int|
                            #![trigger default_policies@[a]]
                            0 <= a < default_policies@.len() && dp_entry_of(
                                pre[ei],
                                default_policies@[a],
                                config_groups.entries@,
                                connector.0@,
                                asset_name.key(),
                            );
                        assert(dp_entry_of(
                            out@[ei],
                            default_policies@[a0],
                            config_groups.entries@,
                            connector.0@,
                            asset_name.key(),
                        ));
                    } else {
                        assert(out@[ei] == entry);
                        assert(dp_entry_of(
                            out@[ei],
                            default_policies@[i as int],
                            config_groups.entries@,
                            connector.0@,
                            asset_name.key(),
                        ));
                    }
                }
                assert(dp_sound(
                    out@,
                    default_policies@,
                    config_groups.entries@,
                    connector.0@,
                    asset_name.key(),
                ));
                assert(dp_has_key(
                    out@,
                    default_policies@[i as int].path.unwrap().deep_view(),
                    default_policies@[i as int].types.unwrap()@,
                ));
                assert forall|a: int, b: int|
                    0 <= a < b < out@.len() implies !((#[trigger] out@[a]).0.1.deep_view() == (
                #[trigger] out@[b]).0.1.deep_view() && out@[a].0.2@ == out@[b].0.2@) by {
                    if b == pre.len() as int {
                        assert(!dp_has_key(
                            pre,
                            default_policies@[i as int].path.unwrap().deep_view(),
                            default_policies@[i as int].types.unwrap()@,
                        ));
                        if out@[a].0.1.deep_view() == out@[b].0.1.deep_view() && out@[a].0.2@
                            == out@[b].0.2@ {
                            assert(pre[a].0.1.deep_view()
                                == default_policies@[i as int].path.unwrap().deep_view()
                                && pre[a].0.2@ == default_policies@[i as int].types.unwrap()@);
                        }
                    }
                }
            }
        }
        proof {
            assert(forall|ei: int| 0 <= ei < out0.len() ==> out@[ei] == out0[ei]);
            assert forall|a: int| 0 <= a < i + 1 implies dp_has_key(
                out@,
                (#[trigger] default_policies@[a]).path.unwrap().deep_view(),
                default_policies@[a].types.unwrap()@,
            ) by {
                if a < i {
                    let ei = choose|ei: int|
                        0 <= ei < out0.len() && (#[trigger] out0[ei]).0.1.deep_view()
                            == default_policies@[a].path.unwrap().deep_view() && out0[ei].0.2@
                            == default_policies@[a].types.unwrap()@;
                    assert(out@[ei] == out0[ei]);
                }
            }
        }
    }
    Ok(out)
}

/// Renames that ripple through configuration files.
pub trait UpdateConfig {
    /// Replace the user's name where it matches; reports whether the
    /// file changed.
    fn update_user_name(&mut self, from_name: &String, to_name: &String) -> bool;

    /// Whether this file is about the named user (the caller then
    /// removes the file).
    fn remove_user_name(&mut self, name: &String) -> bool;

    /// Replace a group name where present; reports whether the file
    /// changed.
    fn update_group_name(&mut self, from_name: &String, to_name: &String) -> bool;

    /// Drop a group where present; reports whether the file changed.
    fn remove_group_name(&mut self, name: &String) -> bool;
}

/// One user configuration file, in memory.
#[derive(Clone, Debug)]
pub struct UserYaml {
    /// The unified user name.
    pub name: String,
    /// Per-connector identifiers: (connector namespace text, local id).
    pub identifiers: Vec<(String, String)>,
    /// The groups the user belongs to.
    pub groups: Vec<String>,
}

impl UpdateConfig for UserYaml {
    /// Replace the user's name when it is the old one.
    fn update_user_name(&mut self, from_name: &String, to_name: &String) -> (r: bool)
        ensures
            r == (old(self).name@ == from_name@),
            r ==> final(self).name@ == to_name@,
            !r ==> final(self).name@ == old(self).name@,
            final(self).identifiers@ == old(self).identifiers@,
            final(self).groups@ == old(self).groups@,
    {
        if self.name == *from_name {
            self.name = to_name.clone();
            true
        } else {
            false
        }
    }

    /// A user file matches for removal when its name is the given one.
    fn remove_user_name(&mut self, name: &String) -> (r: bool)
        ensures
            r == (old(self).name@ == name@),
            *final(self) == *old(self),
    {
        self.name == *name
    }

    /// Swap one group name for another wherever it occurs.
    fn update_group_name(&mut self, from_name: &String, to_name: &String) -> (r: bool)
        ensures
            final(self).name@ == old(self).name@,
            final(self).identifiers@ == old(self).identifiers@,
            final(self).groups@.len() == old(self).groups@.len(),
            r == (exists|i: int|
                0 <= i < old(self).groups@.len() && (#[trigger] old(
                    self,
                ).groups@[i])@ == from_name@),
            forall|i: int|
                0 <= i < old(self).groups@.len() ==> (#[trigger] final(self).groups@[i])@ == (
                if old(self).groups@[i]@ == from_name@ {
                    to_name@
                } else {
                    old(self).groups@[i]@
                }),
    {
        let mut changed = false;
        let n = self.groups.len();
        for i in 0..n
            invariant
                n == self.groups@.len(),
                self.groups@.len() == old(self).groups@.len(),
                self.name@ == old(self).name@,
                self.identifiers@ == old(self).identifiers@,
                changed == (exists|j: int|
                    0 <= j < i && (#[trigger] old(self).groups@[j])@ == from_name@),
                forall|j: int|
                    i <= j < n ==> (#[trigger] self.groups@[j])@ == old(self).groups@[j]@,
                forall|j: int|
                    0 <= j < i ==> (#[trigger] self.groups@[j])@ == (
                    if old(self).groups@[j]@ == from_name@ {
                        to_name@
                    } else {
                        old(self).groups@[j]@
                    }),
        {
            if self.groups[i] == *from_name {
                self.groups.set(i, to_name.clone());
                changed = true;
                proof {
                    assert((old(self).groups@[i as int])@ == from_name@);
                }
            }
        }
        changed
    }

    /// Drop every occurrence of a group name.
    fn remove_group_name(&mut self, name: &String) -> (r: bool)
        ensures
            final(self).name@ == old(self).name@,
            final(self).identifiers@ == old(self).identifiers@,
            r == (exists|i: int|
                0 <= i < old(self).groups@.len() && (#[trigger] old(
                    self,
                ).groups@[i])@ == name@),
            forall|s: Seq<char>|
                crate::util::seq_contains_str(final(self).groups.deep_view(), s) == (
                crate::util::seq_contains_str(old(self).groups.deep_view(), s) && s != name@),
    {
        let mut kept: Vec<String> = Vec::new();
        let mut removed = false;
        let n = self.groups.len();
        for i in 0..n
            invariant
                n == self.groups@.len(),
                self.groups@ == old(self).groups@,
                self.name@ == old(self).name@,
                self.identifiers@ == old(self).identifiers@,
                removed == (exists|j: int|
                    0 <= j < i && (#[trigger] self.groups@[j])@ == name@),
                forall|s: Seq<char>|
                    #[trigger] crate::util::seq_contains_str(kept.deep_view(), s) == (
                    crate::util::seq_contains_str(self.groups.deep_view().take(i as int), s)
                        && s != name@),
        {
            proof {
                assert(self.groups.deep_view().take(i + 1) =~= self.groups.deep_view().take(
                    i as int,
                ).push(self.groups.deep_view()[i as int]));
                crate::util::lemma_contains_push(
                    self.groups.deep_view().take(i as int),
                    self.groups.deep_view()[i as int],
                );
            }
            if self.groups[i] == *name {
                removed = true;
                proof {
                    assert((self.groups@[i as int])@ == name@);
                }
            } else {
                let ghost pre = kept.deep_view();
                kept.push(self.groups[i].clone());
                proof {
                    assert(kept.deep_view() =~= pre.push(self.groups.deep_view()[i as int]));
                    crate::util::lemma_contains_push(pre, self.groups.deep_view()[i as int]);
                }
            }
        }
        proof {
            assert(self.groups.deep_view().take(n as int) =~= self.groups.deep_view());
        }
        self.groups = kept;
        removed
    }
}

} // verus!
