//! The Translator: the bridge between globally unique graph names and the
//! local identifiers each connector uses, and the conversion of global
//! diffs into per-connector local diffs.

use vstd::prelude::*;
use crate::access_graph::{NodeKey, NodeName};
use crate::config::{DefaultPolicyState, PolicyState};
use crate::diff::{ConnectorManagementDiff, DefaultPolicyDiff, DefaultPolicyDiffDetails, DiffDetails};
use crate::errors::TranslationError;
use crate::jetty::ConnectorNamespace;

verus! {

/// A connector-local diff of one default policy.
///
/// The agent maps reuse the ordinary policy diff shape: at the local level
/// nothing more than add/remove/modify per agent is needed.
#[derive(Clone, Debug)]
pub struct LocalDiff {
    /// The asset being diffed, as the connector names it.
    pub asset: String,
    /// The wildcard path that the default policy matches.
    pub path: String,
    /// The type of asset that the policy applies to.
    pub asset_type: String,
    /// Per-user changes, keyed by local user id.
    pub users: Vec<(String, DiffDetails)>,
    /// Per-group changes, keyed by local group name.
    pub groups: Vec<(String, DiffDetails)>,
}

/// A connector-local diff of one ordinary policy.
#[derive(Clone, Debug)]
pub struct LocalPolicyDiff {
    /// The asset being diffed, as the connector names it.
    pub asset: String,
    /// Per-user changes, keyed by local user id.
    pub users: Vec<(String, DiffDetails)>,
    /// Per-group changes, keyed by local group name.
    pub groups: Vec<(String, DiffDetails)>,
}

/// A connector-local diff of one group's membership.
#[derive(Clone, Debug)]
pub struct LocalMembershipDiff {
    /// The group, as the connector names it.
    pub group: String,
    /// Local user ids to add.
    pub add_users: Vec<String>,
    /// Local user ids to remove.
    pub remove_users: Vec<String>,
    /// Local group names to add.
    pub add_groups: Vec<String>,
    /// Local group names to remove.
    pub remove_groups: Vec<String>,
}

/// Everything one connector is asked to apply.
#[derive(Clone, Debug)]
pub struct LocalDiffBundle {
    /// Ordinary policy changes.
    pub policies: Vec<LocalPolicyDiff>,
    /// Default-policy changes.
    pub default_policies: Vec<LocalDiff>,
    /// Membership changes.
    pub memberships: Vec<LocalMembershipDiff>,
}

/// One connector's share of the translator: pairs of (local id, global
/// name), unique in both components.
#[derive(Clone, Debug)]
pub struct ConnectorMap {
    /// The connector this map belongs to.
    pub connector: ConnectorNamespace,
    /// The (local id, global name) pairs, in insertion order.
    pub entries: Vec<(String, NodeName)>,
}

/// Does the map hold local id `l`?
pub open spec fn tl_has_local(s: Seq<(String, NodeName)>, l: Seq<char>) -> bool {
    exists|i: int| 0 <= i < s.len() && s[i].0@ == l
}

/// Does the map hold global name `k`?
pub open spec fn tl_has_global(s: Seq<(String, NodeName)>, k: NodeKey) -> bool {
    exists|i: int| 0 <= i < s.len() && s[i].1.key() == k
}

/// The global name mapped to local id `l` (the first match).
pub open spec fn tl_global_of(s: Seq<(String, NodeName)>, l: Seq<char>) -> NodeKey
    decreases s.len(),
{
    if s.len() == 0 {
        arbitrary()
    } else if s[0].0@ == l {
        s[0].1.key()
    } else {
        tl_global_of(s.drop_first(), l)
    }
}

/// The local id mapped to global name `k` (the first match).
pub open spec fn tl_local_of(s: Seq<(String, NodeName)>, k: NodeKey) -> Seq<char>
    decreases s.len(),
{
    if s.len() == 0 {
        arbitrary()
    } else if s[0].1.key() == k {
        s[0].0@
    } else {
        tl_local_of(s.drop_first(), k)
    }
}

/// Local ids are unique and global names are unique: the map is a
/// bijection between the two sides it holds.
pub open spec fn tl_wf(s: Seq<(String, NodeName)>) -> bool {
    &&& forall|i: int, j: int| 0 <= i < j < s.len() ==> s[i].0@ != s[j].0@
    &&& forall|i: int, j: int| 0 <= i < j < s.len() ==> s[i].1.key() != s[j].1.key()
}

/// The connector-local id that the build records for a graph name: the
/// group or user name, or an asset's single path segment.
pub open spec fn canon_local_of_key(k: NodeKey) -> Seq<char> {
    match k {
        NodeKey::Group { name, .. } => name,
        NodeKey::User(name) => name,
        NodeKey::Asset { path, .. } => if path.len() == 1 {
            path[0]
        } else {
            Seq::empty()
        },
        _ => Seq::empty(),
    }
}

/// Every entry's local id is the one the build derives from its global
/// name.
pub open spec fn tl_canonical(s: Seq<(String, NodeName)>) -> bool {
    forall|i: int| 0 <= i < s.len() ==> (#[trigger] s[i]).0@ == canon_local_of_key(s[i].1.key())
}

/// In a canonical map, a recorded global name has its derived local id
/// recorded with it.
pub proof fn lemma_tl_canonical_global(s: Seq<(String, NodeName)>, k: NodeKey)
    requires
        tl_canonical(s),
        tl_has_global(s, k),
    ensures
        tl_has_local(s, canon_local_of_key(k)),
{
    let i = choose|i: int| 0 <= i < s.len() && s[i].1.key() == k;
    assert(s[i].0@ == canon_local_of_key(k));
}

/// Appending a canonical entry keeps the map canonical.
pub proof fn lemma_tl_canonical_push(s: Seq<(String, NodeName)>, e: (String, NodeName))
    requires
        tl_canonical(s),
        e.0@ == canon_local_of_key(e.1.key()),
    ensures
        tl_canonical(s.push(e)),
{
    assert forall|i: int| 0 <= i < s.push(e).len() implies (#[trigger] s.push(e)[i]).0@
        == canon_local_of_key(s.push(e)[i].1.key()) by {
        if i < s.len() {
            assert(s.push(e)[i] == s[i]);
        } else {
            assert(s.push(e)[i] == e);
        }
    }
}

/// Appending an entry keeps every recorded local id and global name, and
/// records the new entry's sides.
pub proof fn lemma_tl_push(s: Seq<(String, NodeName)>, e: (String, NodeName))
    ensures
        forall|l: Seq<char>| tl_has_local(s, l) ==> #[trigger] tl_has_local(s.push(e), l),
        tl_has_local(s.push(e), e.0@),
        forall|k: NodeKey| tl_has_global(s, k) ==> #[trigger] tl_has_global(s.push(e), k),
        tl_has_global(s.push(e), e.1.key()),
{
    assert forall|l: Seq<char>| tl_has_local(s, l) implies #[trigger] tl_has_local(
        s.push(e),
        l,
    ) by {
        let i = choose|i: int| 0 <= i < s.len() && s[i].0@ == l;
        assert(s.push(e)[i].0@ == l);
    }
    assert(s.push(e)[s.len() as int].0@ == e.0@);
    assert forall|k: NodeKey| tl_has_global(s, k) implies #[trigger] tl_has_global(
        s.push(e),
        k,
    ) by {
        let i = choose|i: int| 0 <= i < s.len() && s[i].1.key() == k;
        assert(s.push(e)[i].1.key() == k);
    }
    assert(s.push(e)[s.len() as int].1.key() == e.1.key());
}

/// The value `tl_global_of` takes at a matching entry, when the entries
/// before it do not match.
pub proof fn lemma_tl_global_first(s: Seq<(String, NodeName)>, l: Seq<char>, i: int)
    requires
        0 <= i < s.len(),
        s[i].0@ == l,
        forall|j: int| 0 <= j < i ==> s[j].0@ != l,
    ensures
        tl_global_of(s, l) == s[i].1.key(),
        tl_has_local(s, l),
    decreases s.len(),
{
    if i == 0 {
    } else {
        assert(s.drop_first()[i - 1] == s[i]);
        assert(forall|j: int| 0 <= j < i - 1 ==> s.drop_first()[j] == s[j + 1]);
        lemma_tl_global_first(s.drop_first(), l, i - 1);
    }
}

/// The value `tl_local_of` takes at a matching entry, when the entries
/// before it do not match.
pub proof fn lemma_tl_local_first(s: Seq<(String, NodeName)>, k: NodeKey, i: int)
    requires
        0 <= i < s.len(),
        s[i].1.key() == k,
        forall|j: int| 0 <= j < i ==> s[j].1.key() != k,
    ensures
        tl_local_of(s, k) == s[i].0@,
        tl_has_global(s, k),
    decreases s.len(),
{
    if i == 0 {
    } else {
        assert(s.drop_first()[i - 1] == s[i]);
        assert(forall|j: int| 0 <= j < i - 1 ==> s.drop_first()[j] == s[j + 1]);
        lemma_tl_local_first(s.drop_first(), k, i - 1);
    }
}

/// Translator inverse, one way: a local id that was recorded in a build
/// comes back unchanged from translating it to its global name and back.
pub proof fn lemma_translate_roundtrip_local(s: Seq<(String, NodeName)>, l: Seq<char>)
    requires
        tl_wf(s),
        tl_has_local(s, l),
    ensures
        tl_has_global(s, tl_global_of(s, l)),
        tl_local_of(s, tl_global_of(s, l)) == l,
    decreases s.len(),
{
    if s.len() == 0 {
    } else if s[0].0@ == l {
        assert(s[0].1.key() == tl_global_of(s, l));
        assert(tl_has_global(s, tl_global_of(s, l)));
    } else {
        let tail = s.drop_first();
        assert(forall|j: int| 0 <= j < tail.len() ==> tail[j] == s[j + 1]);
        assert(tl_wf(tail));
        assert(tl_has_local(tail, l)) by {
            let i = choose|i: int| 0 <= i < s.len() && s[i].0@ == l;
            assert(tail[i - 1].0@ == l);
        }
        lemma_translate_roundtrip_local(tail, l);
        let k = tl_global_of(tail, l);
        assert(tl_global_of(s, l) == k);
        let i = choose|i: int| 0 <= i < tail.len() && tail[i].1.key() == k;
        assert(s[i + 1].1.key() == k);
        assert(s[0].1.key() != k);
        assert(tl_has_global(s, k));
        assert(tl_local_of(s, k) == tl_local_of(tail, k));
    }
}

/// Translator inverse, the other way: a global name that the connector
/// knows comes back unchanged from translating it to the local id and
/// back.
pub proof fn lemma_translate_roundtrip_global(s: Seq<(String, NodeName)>, k: NodeKey)
    requires
        tl_wf(s),
        tl_has_global(s, k),
    ensures
        tl_has_local(s, tl_local_of(s, k)),
        tl_global_of(s, tl_local_of(s, k)) == k,
    decreases s.len(),
{
    if s.len() == 0 {
    } else if s[0].1.key() == k {
        assert(s[0].0@ == tl_local_of(s, k));
        assert(tl_has_local(s, tl_local_of(s, k)));
    } else {
        let tail = s.drop_first();
        assert(forall|j: int| 0 <= j < tail.len() ==> tail[j] == s[j + 1]);
        assert(tl_wf(tail));
        assert(tl_has_global(tail, k)) by {
            let i = choose|i: int| 0 <= i < s.len() && s[i].1.key() == k;
            assert(tail[i - 1].1.key() == k);
        }
        lemma_translate_roundtrip_global(tail, k);
        let l = tl_local_of(tail, k);
        assert(tl_local_of(s, k) == l);
        let i = choose|i: int| 0 <= i < tail.len() && tail[i].0@ == l;
        assert(s[i + 1].0@ == l);
        assert(s[0].0@ != l);
        assert(tl_has_local(s, l));
        assert(tl_global_of(s, l) == tl_global_of(tail, l));
    }
}

impl ConnectorMap {
    /// An empty map for one connector.
    pub fn new(connector: ConnectorNamespace) -> (r: ConnectorMap)
        ensures
            r.connector == connector,
            r.entries@.len() == 0,
            tl_wf(r.entries@),
    {
        ConnectorMap { connector, entries: Vec::new() }
    }

    /// Record one (local id, global name) pair. Returns false, and records
    /// nothing, when either side is already mapped.
    pub fn add(&mut self, local: String, name: NodeName) -> (r: bool)
        requires
            tl_wf(old(self).entries@),
        ensures
            tl_wf(final(self).entries@),
            final(self).connector == old(self).connector,
            r ==> final(self).entries@ == old(self).entries@.push((local, name)),
            r ==> !tl_has_local(old(self).entries@, local@) && !tl_has_global(
                old(self).entries@,
                name.key(),
            ),
            !r ==> final(self).entries@ == old(self).entries@ && (tl_has_local(
                old(self).entries@,
                local@,
            ) || tl_has_global(old(self).entries@, name.key())),
    {
        if self.find_local(&local).is_some() {
            return false;
        }
        if self.find_global(&name).is_some() {
            return false;
        }
        let ghost pre = self.entries@;
        self.entries.push((local, name));
        proof {
            assert forall|i: int, j: int|
                0 <= i < j < self.entries@.len() implies self.entries@[i].0@
                != self.entries@[j].0@ by {
                if j < pre.len() {
                } else {
                    assert(self.entries@[i] == pre[i]);
                }
            }
            assert forall|i: int, j: int|
                0 <= i < j < self.entries@.len() implies self.entries@[i].1.key()
                != self.entries@[j].1.key() by {
                if j < pre.len() {
                } else {
                    assert(self.entries@[i] == pre[i]);
                }
            }
        }
        true
    }

    /// The position of a local id in the map, if it is mapped.
    pub fn find_local(&self, local: &String) -> (r: Option<usize>)
        ensures
            match r {
                Some(i) => i < self.entries@.len() && self.entries@[i as int].0@ == local@
                    && (forall|j: int| 0 <= j < i ==> self.entries@[j].0@ != local@),
                None => !tl_has_local(self.entries@, local@),
            },
    {
        for i in 0..self.entries.len()
            invariant
                forall|j: int| 0 <= j < i ==> self.entries@[j].0@ != local@,
        {
            if self.entries[i].0 == *local {
                return Some(i);
            }
        }
        None
    }

    /// The position of a global name in the map, if it is mapped.
    pub fn find_global(&self, name: &NodeName) -> (r: Option<usize>)
        ensures
            match r {
                Some(i) => i < self.entries@.len() && self.entries@[i as int].1.key()
                    == name.key() && (forall|j: int|
                    0 <= j < i ==> self.entries@[j].1.key() != name.key()),
                None => !tl_has_global(self.entries@, name.key()),
            },
    {
        for i in 0..self.entries.len()
            invariant
                forall|j: int| 0 <= j < i ==> self.entries@[j].1.key() != name.key(),
        {
            if self.entries[i].1 == *name {
                return Some(i);
            }
        }
        None
    }

    /// Local to global: the graph name recorded for a connector-local id.
    pub fn local_to_global(&self, local: &String) -> (r: Option<NodeName>)
        ensures
            match r {
                Some(n) => tl_has_local(self.entries@, local@) && n.key() == tl_global_of(
                    self.entries@,
                    local@,
                ),
                None => !tl_has_local(self.entries@, local@),
            },
    {
        match self.find_local(local) {
            Some(i) => {
                proof {
                    lemma_tl_global_first(self.entries@, local@, i as int);
                }
                Some(self.entries[i].1.duplicate())
            },
            None => None,
        }
    }

    /// Global to local: the connector-local id for a graph name. Fails
    /// with the untranslatable name when this connector has never seen
    /// the entity.
    pub fn global_to_local(&self, name: &NodeName) -> (r: Result<String, TranslationError>)
        ensures
            match r {
                Ok(l) => tl_has_global(self.entries@, name.key()) && l@ == tl_local_of(
                    self.entries@,
                    name.key(),
                ),
                Err(_) => !tl_has_global(self.entries@, name.key()),
            },
    {
        match self.find_global(name) {
            Some(i) => {
                proof {
                    lemma_tl_local_first(self.entries@, name.key(), i as int);
                }
                Ok(self.entries[i].0.clone())
            },
            None => Err(TranslationError { name: name.display_text() }),
        }
    }
}

/// `t` holds the same privileges and metadata as the default-policy
/// state `d`.
pub open spec fn ps_of_default(t: PolicyState, d: DefaultPolicyState) -> bool {
    &&& t.privileges.deep_view() == d.privileges.deep_view()
    &&& t.metadata@.map_values(|p: (String, String)| (p.0@, p.1@)) == d.metadata@.map_values(
        |p: (String, String)| (p.0@, p.1@),
    )
}

/// The value of the connector-managed flag after a modification.
pub open spec fn cm_value(c: ConnectorManagementDiff) -> bool {
    match c {
        ConnectorManagementDiff::Changed(v) => v,
        ConnectorManagementDiff::Unchanged(v) => v,
    }
}

/// Whether a default-policy change survives translation to a local diff:
/// additions and modifications of entities that are not connector-managed
/// are dropped, removals always survive.
pub open spec fn dd_keeps(d: DefaultPolicyDiffDetails) -> bool {
    match d {
        DefaultPolicyDiffDetails::AddDefaultPolicy { add } => add.connector_managed,
        DefaultPolicyDiffDetails::RemoveDefaultPolicy => true,
        DefaultPolicyDiffDetails::ModifyDefaultPolicy { add, remove, connector_managed } =>
            cm_value(connector_managed),
    }
}

/// The local change `o` says the same as the global default-policy change
/// `d`.
pub open spec fn dd_matches(d: DefaultPolicyDiffDetails, o: DiffDetails) -> bool {
    match d {
        DefaultPolicyDiffDetails::AddDefaultPolicy { add } => o matches DiffDetails::AddAgent {
            add: t,
        } && ps_of_default(t, add),
        DefaultPolicyDiffDetails::RemoveDefaultPolicy => o matches DiffDetails::RemoveAgent,
        DefaultPolicyDiffDetails::ModifyDefaultPolicy { add, remove, connector_managed } => o
            matches DiffDetails::ModifyAgent { add: ta, remove: tr } && ps_of_default(ta, add)
            && ps_of_default(tr, remove),
    }
}

/// `out` is the translation of the agent changes `inp` under map `mp`:
/// surviving changes appear in order under the agent's local id, dropped
/// changes leave no trace.
pub open spec fn pairs_translated(
    mp: Seq<(String, NodeName)>,
    inp: Seq<(NodeName, DefaultPolicyDiffDetails)>,
    out: Seq<(String, DiffDetails)>,
) -> bool
    decreases inp.len(),
{
    if inp.len() == 0 {
        out.len() == 0
    } else if dd_keeps(inp[0].1) {
        &&& out.len() > 0
        &&& tl_has_global(mp, inp[0].0.key())
        &&& out[0].0@ == tl_local_of(mp, inp[0].0.key())
        &&& dd_matches(inp[0].1, out[0].1)
        &&& pairs_translated(mp, inp.drop_first(), out.drop_first())
    } else {
        pairs_translated(mp, inp.drop_first(), out)
    }
}

/// Appending a surviving change extends the translated list by its local
/// entry.
pub proof fn lemma_pairs_translated_keep(
    mp: Seq<(String, NodeName)>,
    inp: Seq<(NodeName, DefaultPolicyDiffDetails)>,
    out: Seq<(String, DiffDetails)>,
    p: (NodeName, DefaultPolicyDiffDetails),
    q: (String, DiffDetails),
)
    requires
        pairs_translated(mp, inp, out),
        dd_keeps(p.1),
        tl_has_global(mp, p.0.key()),
        q.0@ == tl_local_of(mp, p.0.key()),
        dd_matches(p.1, q.1),
    ensures
        pairs_translated(mp, inp.push(p), out.push(q)),
    decreases inp.len(),
{
    if inp.len() == 0 {
        assert(out.len() == 0);
        assert(inp.push(p)[0] == p);
        assert(out.push(q)[0] == q);
        assert(inp.push(p).drop_first() =~= Seq::<(NodeName, DefaultPolicyDiffDetails)>::empty());
        assert(out.push(q).drop_first() =~= Seq::<(String, DiffDetails)>::empty());
        assert(pairs_translated(mp, inp.push(p).drop_first(), out.push(q).drop_first()));
        assert(pairs_translated(mp, inp.push(p), out.push(q)));
    } else {
        assert(inp.push(p)[0] == inp[0]);
        assert(inp.push(p).drop_first() =~= inp.drop_first().push(p));
        if dd_keeps(inp[0].1) {
            assert(out.push(q)[0] == out[0]);
            assert(out.push(q).drop_first() =~= out.drop_first().push(q));
            lemma_pairs_translated_keep(mp, inp.drop_first(), out.drop_first(), p, q);
            assert(pairs_translated(mp, inp.push(p).drop_first(), out.push(q).drop_first()));
            assert(pairs_translated(mp, inp.push(p), out.push(q)));
        } else {
            lemma_pairs_translated_keep(mp, inp.drop_first(), out, p, q);
            assert(pairs_translated(mp, inp.push(p).drop_first(), out.push(q)));
            assert(pairs_translated(mp, inp.push(p), out.push(q)));
        }
    }
}

/// Appending a dropped change leaves the translated list unchanged.
pub proof fn lemma_pairs_translated_skip(
    mp: Seq<(String, NodeName)>,
    inp: Seq<(NodeName, DefaultPolicyDiffDetails)>,
    out: Seq<(String, DiffDetails)>,
    p: (NodeName, DefaultPolicyDiffDetails),
)
    requires
        pairs_translated(mp, inp, out),
        !dd_keeps(p.1),
    ensures
        pairs_translated(mp, inp.push(p), out),
    decreases inp.len(),
{
    if inp.len() == 0 {
        assert(inp.push(p)[0] == p);
        assert(inp.push(p).drop_first() =~= Seq::<(NodeName, DefaultPolicyDiffDetails)>::empty());
        assert(pairs_translated(mp, inp.push(p).drop_first(), out));
        assert(pairs_translated(mp, inp.push(p), out));
    } else {
        assert(inp.push(p)[0] == inp[0]);
        assert(inp.push(p).drop_first() =~= inp.drop_first().push(p));
        if dd_keeps(inp[0].1) {
            lemma_pairs_translated_skip(mp, inp.drop_first(), out.drop_first(), p);
            assert(pairs_translated(mp, inp.push(p).drop_first(), out.drop_first()));
            assert(pairs_translated(mp, inp.push(p), out));
        } else {
            lemma_pairs_translated_skip(mp, inp.drop_first(), out, p);
            assert(pairs_translated(mp, inp.push(p).drop_first(), out));
            assert(pairs_translated(mp, inp.push(p), out));
        }
    }
}

/// Reshape a default-policy state into an ordinary policy state: the
/// privileges and metadata carry over unchanged.
pub fn translate_policy_state(default_policy_state: &DefaultPolicyState) -> (r: PolicyState)
    ensures
        ps_of_default(r, *default_policy_state),
{
    PolicyState {
        privileges: crate::util::copy_strings(&default_policy_state.privileges),
        metadata: crate::util::copy_pairs(&default_policy_state.metadata),
    }
}

/// Translate one agent's default-policy change into the shape a connector
/// applies. Additions and modifications of entities that are not
/// connector-managed become nothing: the apply path may not write them.
pub fn translate_diff_details(default_policy_details: &DefaultPolicyDiffDetails) -> (r: Option<
    DiffDetails,
>)
    ensures
        match r {
            Some(d) => dd_keeps(*default_policy_details) && dd_matches(
                *default_policy_details,
                d,
            ),
            None => !dd_keeps(*default_policy_details),
        },
{
    match default_policy_details {
        DefaultPolicyDiffDetails::AddDefaultPolicy { add } => {
            if !add.connector_managed {
                return None;
            }
            Some(DiffDetails::AddAgent { add: translate_policy_state(add) })
        },
        DefaultPolicyDiffDetails::RemoveDefaultPolicy => Some(DiffDetails::RemoveAgent),
        DefaultPolicyDiffDetails::ModifyDefaultPolicy { add, remove, connector_managed } => {
            let managed = match connector_managed {
                ConnectorManagementDiff::Changed(v) => *v,
                ConnectorManagementDiff::Unchanged(v) => *v,
            };
            if !managed {
                return None;
            }
            Some(
                DiffDetails::ModifyAgent {
                    add: translate_policy_state(add),
                    remove: translate_policy_state(remove),
                },
            )
        },
    }
}

impl ConnectorMap {
    /// Translate the agent list of one default-policy diff.
    fn translate_agents(&self, agents: &Vec<(NodeName, DefaultPolicyDiffDetails)>) -> (r:
        Result<Vec<(String, DiffDetails)>, TranslationError>)
        ensures
            match r {
                Ok(out) => pairs_translated(self.entries@, agents@, out@),
                Err(_) => exists|i: int|
                    0 <= i < agents@.len() && dd_keeps((#[trigger] agents@[i]).1)
                        && !tl_has_global(self.entries@, agents@[i].0.key()),
            },
    {
        let mut out: Vec<(String, DiffDetails)> = Vec::new();
        for i in 0..agents.len()
            invariant
                pairs_translated(self.entries@, agents@.take(i as int), out@),
        {
            proof {
                assert(agents@.take(i + 1) =~= agents@.take(i as int).push(agents@[i as int]));
            }
            match translate_diff_details(&agents[i].1) {
                Some(details) => {
                    match self.global_to_local(&agents[i].0) {
                        Ok(local) => {
                            let ghost pre = out@;
                            out.push((local, details));
                            proof {
                                lemma_pairs_translated_keep(
                                    self.entries@,
                                    agents@.take(i as int),
                                    pre,
                                    agents@[i as int],
                                    out@.last(),
                                );
                                assert(out@ =~= pre.push(out@.last()));
                            }
                        },
                        Err(e) => {
                            return Err(e);
                        },
                    }
                },
                None => {
                    proof {
                        lemma_pairs_translated_skip(
                            self.entries@,
                            agents@.take(i as int),
                            out@,
                            agents@[i as int],
                        );
                    }
                },
            }
        }
        proof {
            assert(agents@.take(agents@.len() as int) =~= agents@);
        }
        Ok(out)
    }

    /// Translate one global default-policy diff into the local diff its
    /// connector applies. Fails with the untranslatable name when the
    /// diff references an entity this connector has never seen.
    pub fn translate_default_policy_diff_to_local(&self, global_diff: &DefaultPolicyDiff) -> (r:
        Result<LocalDiff, TranslationError>)
        ensures
            match r {
                Ok(ld) => {
                    &&& tl_has_global(self.entries@, global_diff.asset.key())
                    &&& ld.asset@ == tl_local_of(self.entries@, global_diff.asset.key())
                    &&& ld.path@ == global_diff.path@
                    &&& ld.asset_type@ == global_diff.asset_type.type_text()
                    &&& pairs_translated(self.entries@, global_diff.users@, ld.users@)
                    &&& pairs_translated(self.entries@, global_diff.groups@, ld.groups@)
                },
                Err(_) => {
                    ||| !tl_has_global(self.entries@, global_diff.asset.key())
                    ||| exists|i: int|
                        0 <= i < global_diff.users@.len() && dd_keeps(
                            (#[trigger] global_diff.users@[i]).1,
                        ) && !tl_has_global(self.entries@, global_diff.users@[i].0.key())
                    ||| exists|i: int|
                        0 <= i < global_diff.groups@.len() && dd_keeps(
                            (#[trigger] global_diff.groups@[i]).1,
                        ) && !tl_has_global(self.entries@, global_diff.groups@[i].0.key())
                },
            },
    {
        let asset = match self.global_to_local(&global_diff.asset) {
            Ok(l) => l,
            Err(e) => {
                return Err(e);
            },
        };
        let users = match self.translate_agents(&global_diff.users) {
            Ok(u) => u,
            Err(e) => {
                return Err(e);
            },
        };
        let groups = match self.translate_agents(&global_diff.groups) {
            Ok(g) => g,
            Err(e) => {
                return Err(e);
            },
        };
        Ok(
            LocalDiff {
                asset,
                path: global_diff.path.clone(),
                asset_type: global_diff.asset_type.as_str().to_owned(),
                users,
                groups,
            },
        )
    }
}

/// The translator: one map per connector, built during a graph build and
/// stateless afterwards.
#[derive(Clone, Debug)]
pub struct Translator {
    /// Per-connector maps, one entry per connector namespace.
    pub maps: Vec<ConnectorMap>,
}

impl Translator {
    /// Every per-connector map is a bijection, and no connector appears
    /// twice.
    pub open spec fn wf(self) -> bool {
        &&& forall|i: int|
            0 <= i < self.maps@.len() ==> tl_wf((#[trigger] self.maps@[i]).entries@)
        &&& forall|i: int, j: int|
            0 <= i < j < self.maps@.len() ==> self.maps@[i].connector.0@
                != self.maps@[j].connector.0@
    }

    /// An empty translator.
    pub fn new() -> (r: Translator)
        ensures
            r.wf(),
            r.maps@.len() == 0,
    {
        Translator { maps: Vec::new() }
    }

    /// Translate one global default-policy diff into the local diff of
    /// the connector it is scoped to. Fails exactly when the translator
    /// has no map for that connector, or when the diff references an
    /// entity (the anchor asset, or an agent of a surviving change) that
    /// the connector has never seen.
    pub fn translate_default_policy_diff_to_local(&self, global_diff: &DefaultPolicyDiff) -> (r:
        Result<LocalDiff, TranslationError>)
        ensures
            match r {
                Ok(ld) => exists|i: int|
                    {
                        &&& 0 <= i < self.maps@.len()
                        &&& (#[trigger] self.maps@[i]).connector.0@ == global_diff.connector.0@
                        &&& tl_has_global(self.maps@[i].entries@, global_diff.asset.key())
                        &&& ld.asset@ == tl_local_of(
                            self.maps@[i].entries@,
                            global_diff.asset.key(),
                        )
                        &&& ld.path@ == global_diff.path@
                        &&& ld.asset_type@ == global_diff.asset_type.type_text()
                        &&& pairs_translated(
                            self.maps@[i].entries@,
                            global_diff.users@,
                            ld.users@,
                        )
                        &&& pairs_translated(
                            self.maps@[i].entries@,
                            global_diff.groups@,
                            ld.groups@,
                        )
                    },
                Err(_) => {
                    ||| (forall|i: int|
                        0 <= i < self.maps@.len() ==> (#[trigger] self.maps@[i]).connector.0@
                            != global_diff.connector.0@)
                    ||| exists|i: int|
                        {
                            &&& 0 <= i < self.maps@.len()
                            &&& (#[trigger] self.maps@[i]).connector.0@
                                == global_diff.connector.0@
                            &&& {
                                ||| !tl_has_global(
                                    self.maps@[i].entries@,
                                    global_diff.asset.key(),
                                )
                                ||| exists|j: int|
                                    0 <= j < global_diff.users@.len() && dd_keeps(
                                        (#[trigger] global_diff.users@[j]).1,
                                    ) && !tl_has_global(
                                        self.maps@[i].entries@,
                                        global_diff.users@[j].0.key(),
                                    )
                                ||| exists|j: int|
                                    0 <= j < global_diff.groups@.len() && dd_keeps(
                                        (#[trigger] global_diff.groups@[j]).1,
                                    ) && !tl_has_global(
                                        self.maps@[i].entries@,
                                        global_diff.groups@[j].0.key(),
                                    )
                            }
                        }
                },
            },
    {
        match self.find_map(&global_diff.connector) {
            Some(i) => {
                let ghost mi = i as int;
                match self.maps[i].translate_default_policy_diff_to_local(global_diff) {
                    Ok(ld) => {
                        proof {
                            assert(0 <= mi < self.maps@.len() && self.maps@[
                                mi
                            ].connector.0@ == global_diff.connector.0@ && tl_has_global(
                                self.maps@[mi].entries@,
                                global_diff.asset.key(),
                            ) && ld.asset@ == tl_local_of(
                                self.maps@[mi].entries@,
                                global_diff.asset.key(),
                            ) && ld.path@ == global_diff.path@ && ld.asset_type@
                                == global_diff.asset_type.type_text() && pairs_translated(
                                self.maps@[mi].entries@,
                                global_diff.users@,
                                ld.users@,
                            ) && pairs_translated(
                                self.maps@[mi].entries@,
                                global_diff.groups@,
                                ld.groups@,
                            ));
                        }
                        Ok(ld)
                    },
                    Err(e) => {
                        proof {
                            assert(0 <= mi < self.maps@.len() && self.maps@[mi].connector.0@
                                == global_diff.connector.0@);
                        }
                        Err(e)
                    },
                }
            },
            None => Err(TranslationError { name: global_diff.connector.as_string() }),
        }
    }

    /// The position of one connector's map.
    pub fn find_map(&self, connector: &ConnectorNamespace) -> (r: Option<usize>)
        ensures
            match r {
                Some(i) => i < self.maps@.len() && self.maps@[i as int].connector.0@
                    == connector.0@,
                None => forall|i: int|
                    0 <= i < self.maps@.len() ==> (#[trigger] self.maps@[i]).connector.0@
                        != connector.0@,
            },
    {
        for i in 0..self.maps.len()
            invariant
                forall|j: int|
                    0 <= j < i ==> (#[trigger] self.maps@[j]).connector.0@ != connector.0@,
        {
            if self.maps[i].connector.0 == connector.0 {
                return Some(i);
            }
        }
        None
    }
}

} // verus!
