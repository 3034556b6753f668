//! The diff engine's value types: what has to change, per policy agent and
//! per default policy, to move the observed state to the desired state.

use vstd::prelude::*;
use crate::access_graph::NodeName;
use crate::config::{DefaultPolicyState, PolicyState};
use crate::connectors::AssetType;
use crate::jetty::ConnectorNamespace;

verus! {

/// The change required for one agent of one asset's policy.
#[derive(Clone, Debug)]
pub enum DiffDetails {
    /// The agent is missing and must be added with this state.
    AddAgent {
        /// the state to create
        add: PolicyState,
    },
    /// The agent must be removed.
    RemoveAgent,
    /// The agent exists; privileges must be added and removed as given.
    ModifyAgent {
        /// the state to add
        add: PolicyState,
        /// the state to remove
        remove: PolicyState,
    },
}

/// A global diff of one (asset, agent) policy, scoped to a connector.
#[derive(Clone, Debug)]
pub struct PolicyDiff {
    /// The asset whose policy changes.
    pub asset: NodeName,
    /// The agent (user or group) whose grant changes.
    pub agent: NodeName,
    /// What changes.
    pub details: DiffDetails,
    /// The connector that owns the asset.
    pub connector: ConnectorNamespace,
}

/// Whether the connector-managed flag changes with a default-policy
/// modification.
#[derive(Clone, Debug)]
pub enum ConnectorManagementDiff {
    /// The flag changes to the given value.
    Changed(bool),
    /// The flag keeps the given value.
    Unchanged(bool),
}

/// The change required for one default policy.
#[derive(Clone, Debug)]
pub enum DefaultPolicyDiffDetails {
    /// The default policy is missing and must be added.
    AddDefaultPolicy {
        /// the state to create
        add: DefaultPolicyState,
    },
    /// The default policy must be removed.
    RemoveDefaultPolicy,
    /// The default policy exists and changes.
    ModifyDefaultPolicy {
        /// the state to add
        add: DefaultPolicyState,
        /// the state to remove
        remove: DefaultPolicyState,
        /// what happens to the connector-managed flag
        connector_managed: ConnectorManagementDiff,
    },
}

/// A global diff of one default policy, scoped to a connector.
#[derive(Clone, Debug)]
pub struct DefaultPolicyDiff {
    /// The anchor asset.
    pub asset: NodeName,
    /// The wildcard path of the default policy.
    pub path: String,
    /// The asset type the policy targets.
    pub asset_type: AssetType,
    /// Per-user changes.
    pub users: Vec<(NodeName, DefaultPolicyDiffDetails)>,
    /// Per-group changes.
    pub groups: Vec<(NodeName, DefaultPolicyDiffDetails)>,
    /// The connector that owns the anchor asset.
    pub connector: ConnectorNamespace,
}

/// The change required for one group's membership.
#[derive(Clone, Debug)]
pub struct MembershipDiff {
    /// The group whose membership changes.
    pub group: NodeName,
    /// Users to add.
    pub add_users: Vec<NodeName>,
    /// Users to remove.
    pub remove_users: Vec<NodeName>,
    /// Groups to add.
    pub add_groups: Vec<NodeName>,
    /// Groups to remove.
    pub remove_groups: Vec<NodeName>,
    /// The connector that owns the group.
    pub connector: ConnectorNamespace,
}

/// All global diffs of one plan.
#[derive(Clone, Debug)]
pub struct GlobalDiffs {
    /// Ordinary policy diffs.
    pub policies: Vec<PolicyDiff>,
    /// Default-policy diffs.
    pub default_policies: Vec<DefaultPolicyDiff>,
    /// Group-membership diffs.
    pub memberships: Vec<MembershipDiff>,
}

/// The key of one policy entry: the asset and the agent, by content.
pub open spec fn pd_key(p: (NodeName, NodeName)) -> (crate::access_graph::NodeKey, crate::access_graph::NodeKey) {
    (p.0.key(), p.1.key())
}

/// Does the policy state hold an entry for key `k`?
pub open spec fn pd_has(
    s: Seq<((NodeName, NodeName), PolicyState)>,
    k: (crate::access_graph::NodeKey, crate::access_graph::NodeKey),
) -> bool {
    exists|i: int| 0 <= i < s.len() && pd_key(s[i].0) == k
}

/// The privileges recorded for key `k` (first match).
pub open spec fn pd_privs(
    s: Seq<((NodeName, NodeName), PolicyState)>,
    k: (crate::access_graph::NodeKey, crate::access_graph::NodeKey),
) -> Seq<Seq<char>>
    decreases s.len(),
{
    if s.len() == 0 {
        Seq::empty()
    } else if pd_key(s[0].0) == k {
        s[0].1.privileges.deep_view()
    } else {
        pd_privs(s.drop_first(), k)
    }
}

/// Keys are unique and every privilege list is duplicate-free.
pub open spec fn pd_wf(s: Seq<((NodeName, NodeName), PolicyState)>) -> bool {
    &&& forall|i: int, j: int| 0 <= i < j < s.len() ==> pd_key(s[i].0) != pd_key(s[j].0)
    &&& forall|i: int|
        0 <= i < s.len() ==> crate::util::strs_unique(
            (#[trigger] s[i]).1.privileges.deep_view(),
        )
}

/// Two privilege lists name the same set of privileges.
pub open spec fn privset_eq(a: Seq<Seq<char>>, b: Seq<Seq<char>>) -> bool {
    forall|t: Seq<char>|
        #[trigger] crate::util::seq_contains_str(a, t) == crate::util::seq_contains_str(b, t)
}

/// At key `k` the two states agree: both absent, or both present with the
/// same privilege set.
pub open spec fn pd_agree(
    o: Seq<((NodeName, NodeName), PolicyState)>,
    d: Seq<((NodeName, NodeName), PolicyState)>,
    k: (crate::access_graph::NodeKey, crate::access_graph::NodeKey),
) -> bool {
    if pd_has(o, k) && pd_has(d, k) {
        privset_eq(pd_privs(o, k), pd_privs(d, k))
    } else {
        !pd_has(o, k) && !pd_has(d, k)
    }
}

/// The privileges recorded at entry `i` are the privileges of its key,
/// when keys are unique.
pub proof fn lemma_pd_privs_at(s: Seq<((NodeName, NodeName), PolicyState)>, i: int)
    requires
        forall|a: int, b: int| 0 <= a < b < s.len() ==> pd_key(s[a].0) != pd_key(s[b].0),
        0 <= i < s.len(),
    ensures
        pd_has(s, pd_key(s[i].0)),
        pd_privs(s, pd_key(s[i].0)) == s[i].1.privileges.deep_view(),
    decreases s.len(),
{
    if i == 0 {
    } else {
        assert(s.drop_first()[i - 1] == s[i]);
        assert(forall|j: int| 0 <= j < s.drop_first().len() ==> s.drop_first()[j] == s[j + 1]);
        lemma_pd_privs_at(s.drop_first(), i - 1);
        assert(pd_key(s[0].0) != pd_key(s[i].0));
    }
}

/// One diff entry `e` correctly describes the change needed at its key.
pub open spec fn entry_matches(
    o: Seq<((NodeName, NodeName), PolicyState)>,
    d: Seq<((NodeName, NodeName), PolicyState)>,
    e: PolicyDiff,
) -> bool {
    let k = (e.asset.key(), e.agent.key());
    &&& e.connector.0@ == e.asset.owner_text()
    &&& match e.details {
        DiffDetails::AddAgent { add } => {
            &&& !pd_has(o, k)
            &&& pd_has(d, k)
            &&& crate::util::strs_unique(add.privileges.deep_view())
            &&& privset_eq(add.privileges.deep_view(), pd_privs(d, k))
        },
        DiffDetails::RemoveAgent => pd_has(o, k) && !pd_has(d, k),
        DiffDetails::ModifyAgent { add, remove } => {
            &&& pd_has(o, k)
            &&& pd_has(d, k)
            &&& !privset_eq(pd_privs(o, k), pd_privs(d, k))
            &&& crate::util::strs_unique(add.privileges.deep_view())
            &&& crate::util::strs_unique(remove.privileges.deep_view())
            &&& forall|t: Seq<char>|
                #[trigger] crate::util::seq_contains_str(add.privileges.deep_view(), t) == (
                crate::util::seq_contains_str(pd_privs(d, k), t)
                    && !crate::util::seq_contains_str(pd_privs(o, k), t))
            &&& forall|t: Seq<char>|
                #[trigger] crate::util::seq_contains_str(remove.privileges.deep_view(), t) == (
                crate::util::seq_contains_str(pd_privs(o, k), t)
                    && !crate::util::seq_contains_str(pd_privs(d, k), t))
        },
    }
}

/// The key a diff entry speaks of.
pub open spec fn pdiff_key(e: PolicyDiff) -> (crate::access_graph::NodeKey, crate::access_graph::NodeKey) {
    (e.asset.key(), e.agent.key())
}

/// `r` is the policy diff of desired state `d` against observed state
/// `o`: every entry describes a real difference at its key, no key
/// appears twice, and every key at which the states disagree is covered.
pub open spec fn is_policy_diff_of(
    o: Seq<((NodeName, NodeName), PolicyState)>,
    d: Seq<((NodeName, NodeName), PolicyState)>,
    r: Seq<PolicyDiff>,
) -> bool {
    &&& forall|i: int, j: int|
        0 <= i < j < r.len() ==> pdiff_key(#[trigger] r[i]) != pdiff_key(#[trigger] r[j])
    &&& forall|i: int| 0 <= i < r.len() ==> entry_matches(o, d, #[trigger] r[i])
    &&& forall|k: (crate::access_graph::NodeKey, crate::access_graph::NodeKey)|
        !#[trigger] pd_agree(o, d, k) ==> exists|i: int|
            0 <= i < r.len() && pdiff_key(#[trigger] r[i]) == k
}

/// Find the entry for (asset, agent) in a policy state, if any.
pub fn pol_find(
    s: &Vec<((NodeName, NodeName), PolicyState)>,
    asset: &NodeName,
    agent: &NodeName,
) -> (r: Option<usize>)
    ensures
        match r {
            Some(i) => i < s@.len() && pd_key(s@[i as int].0) == (asset.key(), agent.key()),
            None => !pd_has(s@, (asset.key(), agent.key())),
        },
{
    for i in 0..s.len()
        invariant
            forall|j: int| 0 <= j < i ==> pd_key((#[trigger] s@[j]).0) != (asset.key(), agent.key()),
    {
        if s[i].0.0 == *asset && s[i].0.1 == *agent {
            return Some(i);
        }
    }
    None
}

/// The strings of `a` that are not in `b`, in `a`'s order.
pub fn diff_strings(a: &Vec<String>, b: &Vec<String>) -> (r: Vec<String>)
    requires
        crate::util::strs_unique(a.deep_view()),
    ensures
        crate::util::strs_unique(r.deep_view()),
        forall|t: Seq<char>|
            #[trigger] crate::util::seq_contains_str(r.deep_view(), t) == (
            crate::util::seq_contains_str(a.deep_view(), t) && !crate::util::seq_contains_str(
                b.deep_view(),
                t,
            )),
{
    let mut r: Vec<String> = Vec::new();
    for i in 0..a.len()
        invariant
            a.deep_view().len() == a.len(),
            crate::util::strs_unique(r.deep_view()),
            forall|t: Seq<char>|
                #[trigger] crate::util::seq_contains_str(r.deep_view(), t) == (
                crate::util::seq_contains_str(a.deep_view().take(i as int), t)
                    && !crate::util::seq_contains_str(b.deep_view(), t)),
    {
        proof {
            assert(a.deep_view()[i as int] == a@[i as int]@);
        }
        if !crate::util::contains_string(b, &a[i]) {
            crate::util::insert_unique(&mut r, a[i].clone());
        }
        proof {
            assert(a.deep_view().take(i + 1) =~= a.deep_view().take(i as int).push(
                a.deep_view()[i as int],
            ));
            crate::util::lemma_contains_push(a.deep_view().take(i as int), a.deep_view()[i as int]);
        }
    }
    proof {
        assert(a.deep_view().take(a.len() as int) =~= a.deep_view());
    }
    r
}

/// Do two privilege lists name the same set?
pub fn strset_equal(a: &Vec<String>, b: &Vec<String>) -> (r: bool)
    ensures
        r == privset_eq(a.deep_view(), b.deep_view()),
{
    for i in 0..a.len()
        invariant
            a.deep_view().len() == a.len(),
            forall|j: int|
                0 <= j < i ==> crate::util::seq_contains_str(
                    b.deep_view(),
                    #[trigger] a.deep_view()[j],
                ),
    {
        if !crate::util::contains_string(b, &a[i]) {
            proof {
                assert(crate::util::seq_contains_str(a.deep_view(), a.deep_view()[i as int]));
            }
            return false;
        }
    }
    for i in 0..b.len()
        invariant
            b.deep_view().len() == b.len(),
            a.deep_view().len() == a.len(),
            forall|j: int|
                0 <= j < a.deep_view().len() ==> crate::util::seq_contains_str(
                    b.deep_view(),
                    #[trigger] a.deep_view()[j],
                ),
            forall|j: int|
                0 <= j < i ==> crate::util::seq_contains_str(
                    a.deep_view(),
                    #[trigger] b.deep_view()[j],
                ),
    {
        if !crate::util::contains_string(a, &b[i]) {
            proof {
                assert(crate::util::seq_contains_str(b.deep_view(), b.deep_view()[i as int]));
            }
            return false;
        }
    }
    proof {
        assert forall|t: Seq<char>|
            #[trigger] crate::util::seq_contains_str(a.deep_view(), t)
                == crate::util::seq_contains_str(b.deep_view(), t) by {
            if crate::util::seq_contains_str(a.deep_view(), t) {
                let j = choose|j: int| 0 <= j < a.deep_view().len() && a.deep_view()[j] == t;
                assert(crate::util::seq_contains_str(b.deep_view(), a.deep_view()[j]));
            }
            if crate::util::seq_contains_str(b.deep_view(), t) {
                let j = choose|j: int| 0 <= j < b.deep_view().len() && b.deep_view()[j] == t;
                assert(crate::util::seq_contains_str(a.deep_view(), b.deep_view()[j]));
            }
        }
    }
    true
}

/// Compute the policy diff: what must change, per (asset, agent), to move
/// the observed state to the desired state. Privileges are compared as
/// sets; metadata is not compared.
pub fn diff_policies(
    observed: &Vec<((NodeName, NodeName), PolicyState)>,
    desired: &Vec<((NodeName, NodeName), PolicyState)>,
) -> (r: Vec<PolicyDiff>)
    requires
        pd_wf(observed@),
        pd_wf(desired@),
    ensures
        is_policy_diff_of(observed@, desired@, r@),
{
    let ghost o = observed@;
    let ghost d = desired@;
    let mut out: Vec<PolicyDiff> = Vec::new();
    let ghost mut srcs: Seq<int> = Seq::empty();
    for i in 0..desired.len()
        invariant
            pd_wf(o),
            pd_wf(d),
            o == observed@,
            d == desired@,
            srcs.len() == out@.len(),
            forall|a: int| 0 <= a < srcs.len() ==> 0 <= #[trigger] srcs[a] < i,
            forall|a: int, b: int| 0 <= a < b < srcs.len() ==> srcs[a] < srcs[b],
            forall|a: int|
                0 <= a < out@.len() ==> pdiff_key(#[trigger] out@[a]) == pd_key(
                    d[srcs[a]].0,
                ),
            forall|a: int| 0 <= a < out@.len() ==> entry_matches(o, d, #[trigger] out@[a]),
            forall|j: int|
                0 <= j < i ==> pd_agree(o, d, pd_key((#[trigger] d[j]).0))
                    || crate::util::seq_contains_int(srcs, j),
    {
        proof {
            lemma_pd_privs_at(d, i as int);
        }
        let asset = &desired[i].0.0;
        let agent = &desired[i].0.1;
        let ghost kd = pd_key(d[i as int].0);
        let mut pushed: Option<PolicyDiff> = None;
        match pol_find(observed, asset, agent) {
            None => {
                pushed = Some(
                    PolicyDiff {
                        asset: asset.duplicate(),
                        agent: agent.duplicate(),
                        details: DiffDetails::AddAgent {
                            add: PolicyState {
                                privileges: crate::util::copy_strings(&desired[i].1.privileges),
                                metadata: crate::util::copy_pairs(&desired[i].1.metadata),
                            },
                        },
                        connector: asset.owning_connector(),
                    },
                );
            },
            Some(oi) => {
                proof {
                    lemma_pd_privs_at(o, oi as int);
                }
                if !strset_equal(&observed[oi].1.privileges, &desired[i].1.privileges) {
                    pushed = Some(
                        PolicyDiff {
                            asset: asset.duplicate(),
                            agent: agent.duplicate(),
                            details: DiffDetails::ModifyAgent {
                                add: PolicyState {
                                    privileges: diff_strings(
                                        &desired[i].1.privileges,
                                        &observed[oi].1.privileges,
                                    ),
                                    metadata: Vec::new(),
                                },
                                remove: PolicyState {
                                    privileges: diff_strings(
                                        &observed[oi].1.privileges,
                                        &desired[i].1.privileges,
                                    ),
                                    metadata: Vec::new(),
                                },
                            },
                            connector: asset.owning_connector(),
                        },
                    );
                } else {
                    proof {
                        assert(pd_agree(o, d, kd));
                    }
                }
            },
        }
        let ghost pre = out@;
        match pushed {
            Some(entry) => {
                proof {
                    assert(entry_matches(o, d, entry));
                    assert(pdiff_key(entry) == kd);
                }
                out.push(entry);
                proof {
                    crate::util::lemma_int_contains_push(srcs, i as int);
                    srcs = srcs.push(i as int);
                    assert(out@ =~= pre.push(entry));
                    assert(forall|a: int| 0 <= a < pre.len() ==> out@[a] == pre[a]);
                }
            },
            None => {
                proof {
                    assert(pd_agree(o, d, kd));
                    crate::util::lemma_int_contains_push(srcs, i as int);
                }
            },
        }
    }
    let ghost base = out@.len() as int;
    let ghost pass1 = out@;
    proof {
        assert forall|a: int| 0 <= a < base implies pd_has(
            d,
            pdiff_key(#[trigger] out@[a]),
        ) by {
            assert(pd_key(d[srcs[a]].0) == pdiff_key(out@[a]));
        }
        assert forall|a: int, b: int| 0 <= a < b < base implies pdiff_key(#[trigger] out@[a])
            != pdiff_key(#[trigger] out@[b]) by {
            assert(srcs[a] < srcs[b]);
            assert(pd_key(d[srcs[a]].0) != pd_key(d[srcs[b]].0));
        }
        assert forall|j: int| 0 <= j < d.len() implies pd_agree(
            o,
            d,
            pd_key((#[trigger] d[j]).0),
        ) || exists|a: int|
            0 <= a < out@.len() && pdiff_key(#[trigger] out@[a]) == pd_key(d[j].0) by {
            if !pd_agree(o, d, pd_key(d[j].0)) {
                let a = choose|a: int| 0 <= a < srcs.len() && srcs[a] == j;
                assert(pdiff_key(out@[a]) == pd_key(d[j].0));
            }
        }
    }
    let ghost mut srcs2: Seq<int> = Seq::empty();
    for i in 0..observed.len()
        invariant
            pd_wf(o),
            pd_wf(d),
            o == observed@,
            d == desired@,
            0 <= base <= out@.len(),
            out@.len() == base + srcs2.len(),
            forall|a: int| 0 <= a < base ==> out@[a] == pass1[a],
            forall|a: int| 0 <= a < base ==> pd_has(d, pdiff_key(#[trigger] out@[a])),
            forall|a: int, b: int|
                0 <= a < b < base ==> pdiff_key(#[trigger] out@[a]) != pdiff_key(
                    #[trigger] out@[b],
                ),
            forall|a: int| 0 <= a < srcs2.len() ==> 0 <= #[trigger] srcs2[a] < i,
            forall|a: int, b: int| 0 <= a < b < srcs2.len() ==> srcs2[a] < srcs2[b],
            forall|a: int|
                0 <= a < srcs2.len() ==> pdiff_key(#[trigger] out@[base + a]) == pd_key(
                    o[srcs2[a]].0,
                ),
            forall|a: int|
                0 <= a < srcs2.len() ==> !pd_has(d, pdiff_key(#[trigger] out@[base + a])),
            forall|a: int| 0 <= a < out@.len() ==> entry_matches(o, d, #[trigger] out@[a]),
            forall|j: int|
                0 <= j < d.len() ==> pd_agree(o, d, pd_key((#[trigger] d[j]).0)) || exists|a:
                    int| 0 <= a < base && pdiff_key(#[trigger] out@[a]) == pd_key(d[j].0),
            forall|j: int|
                0 <= j < i ==> pd_agree(o, d, pd_key((#[trigger] o[j]).0))
                    || crate::util::seq_contains_int(srcs2, j) || pd_has(
                    d,
                    pd_key(o[j].0),
                ),
    {
        proof {
            lemma_pd_privs_at(o, i as int);
        }
        let asset = &observed[i].0.0;
        let agent = &observed[i].0.1;
        let ghost ko = pd_key(o[i as int].0);
        if pol_find(desired, asset, agent).is_none() {
            let entry = PolicyDiff {
                asset: asset.duplicate(),
                agent: agent.duplicate(),
                details: DiffDetails::RemoveAgent,
                connector: asset.owning_connector(),
            };
            proof {
                assert(entry_matches(o, d, entry));
                assert(pdiff_key(entry) == ko);
            }
            let ghost pre = out@;
            out.push(entry);
            proof {
                crate::util::lemma_int_contains_push(srcs2, i as int);
                srcs2 = srcs2.push(i as int);
                assert(out@ =~= pre.push(entry));
                assert(forall|a: int| 0 <= a < pre.len() ==> out@[a] == pre[a]);
                assert forall|j: int| 0 <= j < d.len() implies pd_agree(
                    o,
                    d,
                    pd_key((#[trigger] d[j]).0),
                ) || exists|a: int|
                    0 <= a < base && pdiff_key(#[trigger] out@[a]) == pd_key(d[j].0) by {
                    if !pd_agree(o, d, pd_key(d[j].0)) {
                        let a = choose|a: int|
                            0 <= a < base && pdiff_key(pre[a]) == pd_key(d[j].0);
                        assert(out@[a] == pre[a]);
                        assert(pdiff_key(out@[a]) == pd_key(d[j].0));
                    }
                }
            }
        } else {
            proof {
                assert(pd_has(d, ko));
            }
        }
    }
    proof {
        assert forall|a: int, b: int|
            0 <= a < b < out@.len() implies pdiff_key(#[trigger] out@[a]) != pdiff_key(
            #[trigger] out@[b],
        ) by {
            if a < base && b < base {
                assert(out@[a] == pass1[a]);
                assert(out@[b] == pass1[b]);
                assert(pdiff_key(pass1[a]) != pdiff_key(pass1[b]));
            } else if a < base && b >= base {
                assert(base + (b - base) == b);
                assert(pdiff_key(out@[b]) == pd_key(o[srcs2[b - base]].0));
                assert(!pd_has(d, pdiff_key(out@[b])));
                assert(pd_has(d, pdiff_key(out@[a])));
            } else {
                assert(base + (a - base) == a);
                assert(base + (b - base) == b);
                assert(pdiff_key(out@[a]) == pd_key(o[srcs2[a - base]].0));
                assert(pdiff_key(out@[b]) == pd_key(o[srcs2[b - base]].0));
                assert(srcs2[a - base] < srcs2[b - base]);
                assert(pd_key(o[srcs2[a - base]].0) != pd_key(o[srcs2[b - base]].0));
            }
        }
        assert forall|k: (crate::access_graph::NodeKey, crate::access_graph::NodeKey)|
            !#[trigger] pd_agree(o, d, k) implies exists|a: int|
            0 <= a < out@.len() && pdiff_key(#[trigger] out@[a]) == k by {
            if pd_has(d, k) {
                let j = choose|j: int| 0 <= j < d.len() && pd_key(d[j].0) == k;
                assert(pd_agree(o, d, pd_key(d[j].0)) || exists|a: int|
                    0 <= a < base && pdiff_key(#[trigger] out@[a]) == pd_key(d[j].0));
                let a = choose|a: int|
                    0 <= a < base && pdiff_key(#[trigger] out@[a]) == pd_key(d[j].0);
                assert(0 <= a < out@.len() && pdiff_key(out@[a]) == k);
            } else if pd_has(o, k) {
                let j = choose|j: int| 0 <= j < o.len() && pd_key(o[j].0) == k;
                assert(!pd_has(d, pd_key(o[j].0)));
                assert(pd_agree(o, d, pd_key(o[j].0)) || crate::util::seq_contains_int(
                    srcs2,
                    j,
                ) || pd_has(d, pd_key(o[j].0)));
                let a = choose|a: int| 0 <= a < srcs2.len() && srcs2[a] == j;
                assert(pdiff_key(out@[base + a]) == pd_key(o[j].0));
                assert(0 <= base + a < out@.len() && pdiff_key(out@[base + a]) == k);
            }
        }
    }
    out
}


/// How `pd_has` and `pd_privs` behave when an entry is appended: keys
/// already present keep their privileges; a fresh key gets the new entry's
/// privileges.
pub proof fn lemma_pd_push(
    s: Seq<((NodeName, NodeName), PolicyState)>,
    p: ((NodeName, NodeName), PolicyState),
)
    ensures
        forall|k: (crate::access_graph::NodeKey, crate::access_graph::NodeKey)|
            #[trigger] pd_has(s.push(p), k) <==> (pd_has(s, k) || pd_key(p.0) == k),
        forall|k: (crate::access_graph::NodeKey, crate::access_graph::NodeKey)|
            pd_has(s, k) ==> #[trigger] pd_privs(s.push(p), k) == pd_privs(s, k),
        !pd_has(s, pd_key(p.0)) ==> pd_privs(s.push(p), pd_key(p.0))
            == p.1.privileges.deep_view(),
    decreases s.len(),
{
    assert forall|k: (crate::access_graph::NodeKey, crate::access_graph::NodeKey)|
        #[trigger] pd_has(s.push(p), k) <==> (pd_has(s, k) || pd_key(p.0) == k) by {
        if pd_has(s.push(p), k) {
            let i = choose|i: int| 0 <= i < s.push(p).len() && pd_key(s.push(p)[i].0) == k;
            if i < s.len() {
                assert(pd_key(s[i].0) == k);
            } else {
                assert(s.push(p)[i] == p);
            }
        }
        if pd_has(s, k) {
            let i = choose|i: int| 0 <= i < s.len() && pd_key(s[i].0) == k;
            assert(pd_key(s.push(p)[i].0) == k);
        }
        if pd_key(p.0) == k {
            assert(pd_key(s.push(p)[s.len() as int].0) == k);
        }
    }
    if s.len() == 0 {
        assert(s.push(p).drop_first() =~= Seq::<((NodeName, NodeName), PolicyState)>::empty());
    } else {
        assert(s.push(p).drop_first() =~= s.drop_first().push(p));
        assert(s.push(p)[0] == s[0]);
        lemma_pd_push(s.drop_first(), p);
        assert forall|k: (crate::access_graph::NodeKey, crate::access_graph::NodeKey)|
            pd_has(s, k) implies #[trigger] pd_privs(s.push(p), k) == pd_privs(s, k) by {
            if pd_key(s[0].0) == k {
                assert(pd_privs(s.push(p), k) == s[0].1.privileges.deep_view());
                assert(pd_privs(s, k) == s[0].1.privileges.deep_view());
            } else {
                let i = choose|i: int| 0 <= i < s.len() && pd_key(s[i].0) == k;
                assert(pd_key(s.drop_first()[i - 1].0) == k);
                assert(pd_has(s.drop_first(), k));
                assert(pd_privs(s.drop_first().push(p), k) == pd_privs(s.drop_first(), k));
                assert(pd_privs(s.push(p), k) == pd_privs(s.push(p).drop_first(), k));
                assert(pd_privs(s, k) == pd_privs(s.drop_first(), k));
            }
        }
        if !pd_has(s, pd_key(p.0)) {
            assert(pd_key(s[0].0) != pd_key(p.0));
            assert(!pd_has(s.drop_first(), pd_key(p.0))) by {
                if pd_has(s.drop_first(), pd_key(p.0)) {
                    let i = choose|i: int|
                        0 <= i < s.drop_first().len() && pd_key(s.drop_first()[i].0) == pd_key(
                            p.0,
                        );
                    assert(pd_key(s[i + 1].0) == pd_key(p.0));
                }
            }
        }
    }
}

/// The first diff entry for key `k`, if any.
pub open spec fn pdiff_find(
    ds: Seq<PolicyDiff>,
    k: (crate::access_graph::NodeKey, crate::access_graph::NodeKey),
) -> Option<PolicyDiff>
    decreases ds.len(),
{
    if ds.len() == 0 {
        None
    } else if pdiff_key(ds[0]) == k {
        Some(ds[0])
    } else {
        pdiff_find(ds.drop_first(), k)
    }
}

/// `pdiff_find` finds the matching entry, when the entries before it do
/// not match.
pub proof fn lemma_pdiff_find_first(ds: Seq<PolicyDiff>, i: int)
    requires
        0 <= i < ds.len(),
        forall|j: int| 0 <= j < i ==> pdiff_key(#[trigger] ds[j]) != pdiff_key(ds[i]),
    ensures
        pdiff_find(ds, pdiff_key(ds[i])) == Some(ds[i]),
    decreases ds.len(),
{
    if i == 0 {
    } else {
        assert(ds.drop_first()[i - 1] == ds[i]);
        assert(forall|j: int| 0 <= j < ds.drop_first().len() ==> ds.drop_first()[j] == ds[j + 1]);
        lemma_pdiff_find_first(ds.drop_first(), i - 1);
    }
}

/// A key that no entry speaks of is not found.
pub proof fn lemma_pdiff_find_none(
    ds: Seq<PolicyDiff>,
    k: (crate::access_graph::NodeKey, crate::access_graph::NodeKey),
)
    requires
        forall|j: int| 0 <= j < ds.len() ==> pdiff_key(#[trigger] ds[j]) != k,
    ensures
        pdiff_find(ds, k) == None::<PolicyDiff>,
    decreases ds.len(),
{
    if ds.len() == 0 {
    } else {
        assert(forall|j: int| 0 <= j < ds.drop_first().len() ==> ds.drop_first()[j] == ds[j + 1]);
        lemma_pdiff_find_none(ds.drop_first(), k);
    }
}

/// The diff entries have unique keys and duplicate-free privilege lists.
pub open spec fn pdiffs_wf(ds: Seq<PolicyDiff>) -> bool {
    &&& forall|i: int, j: int|
        0 <= i < j < ds.len() ==> pdiff_key(#[trigger] ds[i]) != pdiff_key(#[trigger] ds[j])
    &&& forall|i: int|
        0 <= i < ds.len() ==> match (#[trigger] ds[i]).details {
            DiffDetails::AddAgent { add } => crate::util::strs_unique(
                add.privileges.deep_view(),
            ),
            DiffDetails::RemoveAgent => true,
            DiffDetails::ModifyAgent { add, remove } => crate::util::strs_unique(
                add.privileges.deep_view(),
            ) && crate::util::strs_unique(remove.privileges.deep_view()),
        }
}

/// After an untouched key: the entry is exactly as observed.
pub open spec fn applied_none(
    o: Seq<((NodeName, NodeName), PolicyState)>,
    r: Seq<((NodeName, NodeName), PolicyState)>,
    k: (crate::access_graph::NodeKey, crate::access_graph::NodeKey),
) -> bool {
    &&& pd_has(r, k) == pd_has(o, k)
    &&& pd_has(o, k) ==> privset_eq(pd_privs(r, k), pd_privs(o, k))
}

/// After a modification: observed privileges minus the removed set, plus
/// the added set.
pub open spec fn applied_modify(
    o: Seq<((NodeName, NodeName), PolicyState)>,
    r: Seq<((NodeName, NodeName), PolicyState)>,
    k: (crate::access_graph::NodeKey, crate::access_graph::NodeKey),
    add: Seq<Seq<char>>,
    remove: Seq<Seq<char>>,
) -> bool {
    &&& pd_has(r, k) == pd_has(o, k)
    &&& pd_has(o, k) ==> modify_formula(pd_privs(o, k), pd_privs(r, k), add, remove)
}

/// The modified privilege set: what was there and was not removed, plus
/// what is added.
pub open spec fn modify_formula(
    before: Seq<Seq<char>>,
    after: Seq<Seq<char>>,
    add: Seq<Seq<char>>,
    remove: Seq<Seq<char>>,
) -> bool {
    forall|t: Seq<char>|
        #[trigger] crate::util::seq_contains_str(after, t) == ((crate::util::seq_contains_str(
            before,
            t,
        ) && !crate::util::seq_contains_str(remove, t)) || crate::util::seq_contains_str(
            add,
            t,
        ))
}

/// What holds of the state `r` at key `k` after applying `ds` to `o`.
pub open spec fn applied_at(
    o: Seq<((NodeName, NodeName), PolicyState)>,
    ds: Seq<PolicyDiff>,
    r: Seq<((NodeName, NodeName), PolicyState)>,
    k: (crate::access_graph::NodeKey, crate::access_graph::NodeKey),
) -> bool {
    match pdiff_find(ds, k) {
        None => applied_none(o, r, k),
        Some(e) => match e.details {
            DiffDetails::AddAgent { add } => pd_has(r, k) && privset_eq(
                pd_privs(r, k),
                add.privileges.deep_view(),
            ),
            DiffDetails::RemoveAgent => !pd_has(r, k),
            DiffDetails::ModifyAgent { add, remove } => applied_modify(
                o,
                r,
                k,
                add.privileges.deep_view(),
                remove.privileges.deep_view(),
            ),
        },
    }
}

/// `r` is the result of applying the diff `ds` to the observed state `o`.
pub open spec fn is_applied(
    o: Seq<((NodeName, NodeName), PolicyState)>,
    ds: Seq<PolicyDiff>,
    r: Seq<((NodeName, NodeName), PolicyState)>,
) -> bool {
    &&& pd_wf(r)
    &&& forall|k: (crate::access_graph::NodeKey, crate::access_graph::NodeKey)|
        #[trigger] applied_at(o, ds, r, k)
}

/// Find the first diff entry for (asset, agent), if any.
pub fn pdiff_lookup(ds: &Vec<PolicyDiff>, asset: &NodeName, agent: &NodeName) -> (r: Option<
    usize,
>)
    ensures
        match r {
            Some(i) => i < ds@.len() && pdiff_key(ds@[i as int]) == (asset.key(), agent.key())
                && pdiff_find(ds@, (asset.key(), agent.key())) == Some(ds@[i as int]),
            None => pdiff_find(ds@, (asset.key(), agent.key())) == None::<PolicyDiff>,
        },
{
    for i in 0..ds.len()
        invariant
            forall|j: int| 0 <= j < i ==> pdiff_key(#[trigger] ds@[j]) != (asset.key(), agent.key()),
    {
        if ds[i].asset == *asset && ds[i].agent == *agent {
            proof {
                lemma_pdiff_find_first(ds@, i as int);
            }
            return Some(i);
        }
    }
    proof {
        lemma_pdiff_find_none(ds@, (asset.key(), agent.key()));
    }
    None
}


/// A found entry is one of the entries.
pub proof fn lemma_pdiff_find_some(
    ds: Seq<PolicyDiff>,
    k: (crate::access_graph::NodeKey, crate::access_graph::NodeKey),
)
    requires
        pdiff_find(ds, k).is_some(),
    ensures
        exists|j: int|
            0 <= j < ds.len() && ds[j] == pdiff_find(ds, k).unwrap() && pdiff_key(
                #[trigger] ds[j],
            ) == k,
    decreases ds.len(),
{
    if ds.len() == 0 {
    } else if pdiff_key(ds[0]) == k {
        assert(ds[0] == pdiff_find(ds, k).unwrap());
    } else {
        lemma_pdiff_find_some(ds.drop_first(), k);
        let j = choose|j: int|
            0 <= j < ds.drop_first().len() && ds.drop_first()[j] == pdiff_find(
                ds.drop_first(),
                k,
            ).unwrap() && pdiff_key(#[trigger] ds.drop_first()[j]) == k;
        assert(ds[j + 1] == pdiff_find(ds, k).unwrap());
        assert(pdiff_key(ds[j + 1]) == k);
    }
}

/// Apply a policy diff to the observed state: untouched entries carry
/// over, removed agents disappear, modified agents lose the removed and
/// gain the added privileges, and added agents appear with their new
/// state.
pub fn apply_policy_diffs(
    observed: &Vec<((NodeName, NodeName), PolicyState)>,
    diffs: &Vec<PolicyDiff>,
) -> (r: Vec<((NodeName, NodeName), PolicyState)>)
    requires
        pd_wf(observed@),
        pdiffs_wf(diffs@),
    ensures
        is_applied(observed@, diffs@, r@),
{
    let ghost o = observed@;
    let ghost ds = diffs@;
    let mut out: Vec<((NodeName, NodeName), PolicyState)> = Vec::new();
    let ghost mut srcs: Seq<int> = Seq::empty();
    for i in 0..observed.len()
        invariant
            pd_wf(o),
            pdiffs_wf(ds),
            o == observed@,
            ds == diffs@,
            srcs.len() == out@.len(),
            forall|a: int| 0 <= a < srcs.len() ==> 0 <= #[trigger] srcs[a] < i,
            forall|a: int, b: int| 0 <= a < b < srcs.len() ==> srcs[a] < srcs[b],
            forall|a: int|
                0 <= a < out@.len() ==> pd_key((#[trigger] out@[a]).0) == pd_key(
                    o[srcs[a]].0,
                ),
            forall|a: int|
                0 <= a < out@.len() ==> crate::util::strs_unique(
                    (#[trigger] out@[a]).1.privileges.deep_view(),
                ),
            forall|j: int| 0 <= j < i ==> applied_at(o, ds, out@, pd_key((#[trigger] o[j]).0)),
    {
        proof {
            lemma_pd_privs_at(o, i as int);
        }
        let asset = &observed[i].0.0;
        let agent = &observed[i].0.1;
        let ghost ki = pd_key(o[i as int].0);
        proof {
            assert(!pd_has(out@, ki)) by {
                if pd_has(out@, ki) {
                    let a = choose|a: int| 0 <= a < out@.len() && pd_key(out@[a].0) == ki;
                    assert(pd_key(o[srcs[a]].0) == ki);
                    assert(srcs[a] < i);
                }
            }
        }
        let mut pushed: Option<((NodeName, NodeName), PolicyState)> = None;
        match pdiff_lookup(diffs, asset, agent) {
            None => {
                pushed = Some(
                    (
                        (asset.duplicate(), agent.duplicate()),
                        PolicyState {
                            privileges: crate::util::copy_strings(&observed[i].1.privileges),
                            metadata: crate::util::copy_pairs(&observed[i].1.metadata),
                        },
                    ),
                );
            },
            Some(di) => {
                match &diffs[di].details {
                    DiffDetails::AddAgent { add } => {
                        pushed = Some(
                            (
                                (asset.duplicate(), agent.duplicate()),
                                PolicyState {
                                    privileges: crate::util::copy_strings(&add.privileges),
                                    metadata: crate::util::copy_pairs(&add.metadata),
                                },
                            ),
                        );
                    },
                    DiffDetails::RemoveAgent => {},
                    DiffDetails::ModifyAgent { add, remove } => {
                        let base_privs = diff_strings(
                            &observed[i].1.privileges,
                            &remove.privileges,
                        );
                        let privs = crate::util::union_unique(&base_privs, &add.privileges);
                        pushed = Some(
                            (
                                (asset.duplicate(), agent.duplicate()),
                                PolicyState {
                                    privileges: privs,
                                    metadata: crate::util::copy_pairs(&observed[i].1.metadata),
                                },
                            ),
                        );
                    },
                }
            },
        }
        let ghost pre = out@;
        match pushed {
            Some(entry) => {
                proof {
                    assert(pd_key(entry.0) == ki);
                }
                out.push(entry);
                proof {
                    lemma_pd_push(pre, entry);
                    srcs = srcs.push(i as int);
                    assert(out@ =~= pre.push(entry));
                    assert(forall|a: int| 0 <= a < pre.len() ==> out@[a] == pre[a]);
                    assert(pd_privs(out@, ki) == entry.1.privileges.deep_view());
                    assert(applied_at(o, ds, out@, ki));
                    assert forall|j: int|
                        0 <= j < i + 1 implies applied_at(
                        o,
                        ds,
                        out@,
                        pd_key((#[trigger] o[j]).0),
                    ) by {
                        if j < i {
                            assert(pd_key(o[j].0) != ki);
                            assert(applied_at(o, ds, pre, pd_key(o[j].0)));
                            assert(pd_has(out@, pd_key(o[j].0)) == pd_has(
                                pre,
                                pd_key(o[j].0),
                            ));
                        }
                    }
                }
            },
            None => {
                proof {
                    assert(applied_at(o, ds, out@, ki));
                }
            },
        }
    }
    let ghost base = out@.len() as int;
    let ghost pass1 = out@;
    let ghost mut srcs2: Seq<int> = Seq::empty();
    proof {
        assert forall|a: int| 0 <= a < base implies pd_has(
            o,
            pd_key((#[trigger] out@[a]).0),
        ) by {
            assert(pd_key(o[srcs[a]].0) == pd_key(out@[a].0));
        }
    }
    for i in 0..diffs.len()
        invariant
            pd_wf(o),
            pdiffs_wf(ds),
            o == observed@,
            ds == diffs@,
            0 <= base <= out@.len(),
            out@.len() == base + srcs2.len(),
            forall|a: int| 0 <= a < base ==> out@[a] == pass1[a],
            forall|a: int| 0 <= a < base ==> pd_has(o, pd_key((#[trigger] out@[a]).0)),
            forall|a: int, b: int|
                0 <= a < b < base ==> pd_key((#[trigger] out@[a]).0) != pd_key(
                    (#[trigger] out@[b]).0,
                ),
            forall|a: int| 0 <= a < srcs2.len() ==> 0 <= #[trigger] srcs2[a] < i,
            forall|a: int, b: int| 0 <= a < b < srcs2.len() ==> srcs2[a] < srcs2[b],
            forall|a: int|
                0 <= a < srcs2.len() ==> pd_key((#[trigger] out@[base + a]).0) == pdiff_key(
                    ds[srcs2[a]],
                ),
            forall|a: int|
                0 <= a < srcs2.len() ==> !pd_has(o, pd_key((#[trigger] out@[base + a]).0)),
            forall|a: int|
                0 <= a < out@.len() ==> crate::util::strs_unique(
                    (#[trigger] out@[a]).1.privileges.deep_view(),
                ),
            forall|j: int|
                0 <= j < o.len() ==> applied_at(o, ds, out@, pd_key((#[trigger] o[j]).0)),
            forall|j: int|
                0 <= j < i ==> applied_at(o, ds, out@, pdiff_key(#[trigger] ds[j])),
    {
        let ghost ki = pdiff_key(ds[i as int]);
        proof {
            lemma_pdiff_find_first(ds, i as int);
        }
        let mut pushed: Option<((NodeName, NodeName), PolicyState)> = None;
        let mut key_in_observed: Option<usize> = None;
        match &diffs[i].details {
            DiffDetails::AddAgent { add } => {
                match pol_find(observed, &diffs[i].asset, &diffs[i].agent) {
                    None => {
                        pushed = Some(
                            (
                                (diffs[i].asset.duplicate(), diffs[i].agent.duplicate()),
                                PolicyState {
                                    privileges: crate::util::copy_strings(&add.privileges),
                                    metadata: crate::util::copy_pairs(&add.metadata),
                                },
                            ),
                        );
                    },
                    Some(oi) => {
                        key_in_observed = Some(oi);
                    },
                }
            },
            DiffDetails::RemoveAgent => {},
            DiffDetails::ModifyAgent { .. } => {},
        }
        let ghost pre = out@;
        match pushed {
            Some(entry) => {
                proof {
                    assert(pd_key(entry.0) == ki);
                    assert(!pd_has(o, ki));
                    lemma_pdiff_find_first(ds, i as int);
                    assert(!pd_has(pre, ki)) by {
                        if pd_has(pre, ki) {
                            let a = choose|a: int|
                                0 <= a < pre.len() && pd_key(pre[a].0) == ki;
                            if a < base {
                                assert(pd_has(o, pd_key(pre[a].0)));
                            } else {
                                assert(base + (a - base) == a);
                                assert(pd_key(pre[base + (a - base)].0) == pdiff_key(
                                    ds[srcs2[a - base]],
                                ));
                                assert(pdiff_key(ds[srcs2[a - base]]) == ki);
                                assert(srcs2[a - base] < i);
                            }
                        }
                    }
                }
                out.push(entry);
                proof {
                    lemma_pd_push(pre, entry);
                    srcs2 = srcs2.push(i as int);
                    assert(out@ =~= pre.push(entry));
                    assert(forall|a: int| 0 <= a < pre.len() ==> out@[a] == pre[a]);
                    assert(pd_privs(out@, ki) == entry.1.privileges.deep_view());
                    assert(applied_at(o, ds, out@, ki));
                    assert forall|j: int|
                        0 <= j < o.len() implies applied_at(
                        o,
                        ds,
                        out@,
                        pd_key((#[trigger] o[j]).0),
                    ) by {
                        lemma_pd_privs_at(o, j);
                        assert(pd_key(o[j].0) != ki);
                        assert(applied_at(o, ds, pre, pd_key(o[j].0)));
                    }
                    assert forall|j: int|
                        0 <= j < i + 1 implies applied_at(
                        o,
                        ds,
                        out@,
                        pdiff_key(#[trigger] ds[j]),
                    ) by {
                        if j < i {
                            assert(pdiff_key(ds[j]) != ki);
                            assert(applied_at(o, ds, pre, pdiff_key(ds[j])));
                        }
                    }
                }
            },
            None => {
                proof {
                    if pd_has(o, ki) {
                        let j = choose|j: int| 0 <= j < o.len() && pd_key(o[j].0) == ki;
                        assert(applied_at(o, ds, out@, pd_key(o[j].0)));
                    } else {
                        assert(!pd_has(out@, ki)) by {
                            if pd_has(out@, ki) {
                                let a = choose|a: int|
                                    0 <= a < out@.len() && pd_key(out@[a].0) == ki;
                                if a < base {
                                    assert(pd_has(o, pd_key(out@[a].0)));
                                } else {
                                    assert(base + (a - base) == a);
                                    assert(pd_key(out@[base + (a - base)].0) == pdiff_key(
                                        ds[srcs2[a - base]],
                                    ));
                                    assert(pdiff_key(ds[srcs2[a - base]]) == ki);
                                    assert(srcs2[a - base] < i);
                                }
                            }
                        }
                        assert(applied_at(o, ds, out@, ki));
                    }
                }
            },
        }
    }
    proof {
        assert forall|a: int, b: int|
            0 <= a < b < out@.len() implies pd_key((#[trigger] out@[a]).0) != pd_key(
            (#[trigger] out@[b]).0,
        ) by {
            if a < base && b < base {
            } else if a < base && b >= base {
                assert(base + (b - base) == b);
                assert(pd_key(out@[b].0) == pdiff_key(ds[srcs2[b - base]]));
                assert(!pd_has(o, pd_key(out@[b].0)));
                assert(pd_has(o, pd_key(out@[a].0)));
            } else {
                assert(base + (a - base) == a);
                assert(base + (b - base) == b);
                assert(pd_key(out@[a].0) == pdiff_key(ds[srcs2[a - base]]));
                assert(pd_key(out@[b].0) == pdiff_key(ds[srcs2[b - base]]));
                assert(srcs2[a - base] < srcs2[b - base]);
            }
        }
        assert forall|k: (crate::access_graph::NodeKey, crate::access_graph::NodeKey)|
            #[trigger] applied_at(o, ds, out@, k) by {
            if pdiff_find(ds, k).is_some() {
                lemma_pdiff_find_some(ds, k);
                let j = choose|j: int|
                    0 <= j < ds.len() && ds[j] == pdiff_find(ds, k).unwrap() && pdiff_key(
                        #[trigger] ds[j],
                    ) == k;
                assert(applied_at(o, ds, out@, pdiff_key(ds[j])));
            } else if pd_has(o, k) {
                let j = choose|j: int| 0 <= j < o.len() && pd_key(o[j].0) == k;
                assert(applied_at(o, ds, out@, pd_key(o[j].0)));
            } else {
                assert(!pd_has(out@, k)) by {
                    if pd_has(out@, k) {
                        let a = choose|a: int|
                            0 <= a < out@.len() && pd_key(out@[a].0) == k;
                        if a < base {
                            assert(pd_has(o, pd_key(out@[a].0)));
                        } else {
                            assert(base + (a - base) == a);
                            assert(pd_key(out@[base + (a - base)].0) == pdiff_key(
                                ds[srcs2[a - base]],
                            ));
                            lemma_pdiff_find_first(ds, srcs2[a - base]);
                        }
                    }
                }
            }
        }
    }
    out
}


/// When some entry speaks of `k`, lookup finds one.
pub proof fn lemma_pdiff_find_has(
    ds: Seq<PolicyDiff>,
    k: (crate::access_graph::NodeKey, crate::access_graph::NodeKey),
)
    requires
        exists|j: int| 0 <= j < ds.len() && pdiff_key(#[trigger] ds[j]) == k,
    ensures
        pdiff_find(ds, k).is_some(),
    decreases ds.len(),
{
    if pdiff_key(ds[0]) == k {
    } else {
        let j = choose|j: int| 0 <= j < ds.len() && pdiff_key(#[trigger] ds[j]) == k;
        assert(ds.drop_first()[j - 1] == ds[j]);
        lemma_pdiff_find_has(ds.drop_first(), k);
    }
}

/// Applying the diff of the desired state against the observed state
/// yields a state that agrees with the desired state at every key.
pub proof fn lemma_apply_reaches_desired(
    o: Seq<((NodeName, NodeName), PolicyState)>,
    d: Seq<((NodeName, NodeName), PolicyState)>,
    ds: Seq<PolicyDiff>,
    r: Seq<((NodeName, NodeName), PolicyState)>,
)
    requires
        pd_wf(o),
        pd_wf(d),
        is_policy_diff_of(o, d, ds),
        is_applied(o, ds, r),
    ensures
        forall|k: (crate::access_graph::NodeKey, crate::access_graph::NodeKey)|
            #[trigger] pd_agree(r, d, k),
{
    assert forall|k: (crate::access_graph::NodeKey, crate::access_graph::NodeKey)|
        #[trigger] pd_agree(r, d, k) by {
        assert(applied_at(o, ds, r, k));
        if pdiff_find(ds, k).is_some() {
            lemma_pdiff_find_some(ds, k);
            let j = choose|j: int|
                0 <= j < ds.len() && ds[j] == pdiff_find(ds, k).unwrap() && pdiff_key(
                    #[trigger] ds[j],
                ) == k;
            let e = ds[j];
            assert(entry_matches(o, d, e));
            match e.details {
                DiffDetails::AddAgent { add } => {
                    assert(pd_has(r, k) && pd_has(d, k));
                    assert(privset_eq(pd_privs(r, k), pd_privs(d, k)));
                },
                DiffDetails::RemoveAgent => {
                    assert(!pd_has(r, k) && !pd_has(d, k));
                },
                DiffDetails::ModifyAgent { add, remove } => {
                    assert(pd_has(r, k) && pd_has(d, k));
                    assert(privset_eq(pd_privs(r, k), pd_privs(d, k))) by {
                        assert forall|t: Seq<char>|
                            #[trigger] crate::util::seq_contains_str(pd_privs(r, k), t)
                                == crate::util::seq_contains_str(pd_privs(d, k), t) by {
                            assert(crate::util::seq_contains_str(pd_privs(r, k), t) == ((
                            crate::util::seq_contains_str(pd_privs(o, k), t)
                                && !crate::util::seq_contains_str(
                                remove.privileges.deep_view(),
                                t,
                            )) || crate::util::seq_contains_str(
                                add.privileges.deep_view(),
                                t,
                            )));
                        }
                    }
                },
            }
        } else {
            assert(pd_agree(o, d, k)) by {
                if !pd_agree(o, d, k) {
                    let j = choose|j: int|
                        0 <= j < ds.len() && pdiff_key(#[trigger] ds[j]) == k;
                    lemma_pdiff_find_has(ds, k);
                }
            }
            assert(applied_none(o, r, k));
        }
    }
}

/// Diff idempotence: applying the policy diff of the desired state
/// against the observed state, and diffing again, yields the empty diff.
pub proof fn lemma_diff_idempotence(
    o: Seq<((NodeName, NodeName), PolicyState)>,
    d: Seq<((NodeName, NodeName), PolicyState)>,
    ds: Seq<PolicyDiff>,
    applied: Seq<((NodeName, NodeName), PolicyState)>,
    rds: Seq<PolicyDiff>,
)
    requires
        pd_wf(o),
        pd_wf(d),
        is_policy_diff_of(o, d, ds),
        is_applied(o, ds, applied),
        is_policy_diff_of(applied, d, rds),
    ensures
        rds.len() == 0,
{
    lemma_apply_reaches_desired(o, d, ds, applied);
    if rds.len() > 0 {
        let e = rds[0];
        assert(entry_matches(applied, d, e));
        let k = (e.asset.key(), e.agent.key());
        assert(pd_agree(applied, d, k));
        match e.details {
            DiffDetails::AddAgent { add } => {
                assert(!pd_has(applied, k) && pd_has(d, k));
            },
            DiffDetails::RemoveAgent => {
                assert(pd_has(applied, k) && !pd_has(d, k));
            },
            DiffDetails::ModifyAgent { add, remove } => {
                assert(!privset_eq(pd_privs(applied, k), pd_privs(d, k)));
            },
        }
    }
}

} // verus!
