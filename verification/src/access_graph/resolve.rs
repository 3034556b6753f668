//! The effective-permission resolver: walks group membership to decide
//! which privileges a user holds on an asset, and why.

use vstd::prelude::*;
use crate::access_graph::graph::Graph;
use crate::access_graph::{EdgeType, JettyNode};

verus! {

/// A membership walk of at most `fuel` hops from `from` to `to`, along
/// `MemberOf` edges.
pub open spec fn mem_reach_n(
    edges: Seq<(usize, usize, EdgeType)>,
    from: usize,
    to: usize,
    fuel: nat,
) -> bool
    decreases fuel,
{
    if from == to {
        true
    } else if fuel == 0 {
        false
    } else {
        exists|mid: usize|
            edges.contains((from, mid, EdgeType::MemberOf)) && mem_reach_n(
                edges,
                mid,
                to,
                (fuel - 1) as nat,
            )
    }
}

/// `to` lies in the membership transitive closure of `from`.
pub open spec fn mem_reach(edges: Seq<(usize, usize, EdgeType)>, from: usize, to: usize) -> bool {
    exists|fuel: nat| mem_reach_n(edges, from, to, fuel)
}

/// Membership reachability is monotone in the edge set: an edge that is
/// added never breaks an existing walk.
pub proof fn lemma_mem_reach_monotone_n(
    e1: Seq<(usize, usize, EdgeType)>,
    e2: Seq<(usize, usize, EdgeType)>,
    from: usize,
    to: usize,
    fuel: nat,
)
    requires
        forall|e: (usize, usize, EdgeType)| e1.contains(e) ==> e2.contains(e),
        mem_reach_n(e1, from, to, fuel),
    ensures
        mem_reach_n(e2, from, to, fuel),
    decreases fuel,
{
    if from == to {
    } else {
        let mid = choose|mid: usize|
            e1.contains((from, mid, EdgeType::MemberOf)) && mem_reach_n(
                e1,
                mid,
                to,
                (fuel - 1) as nat,
            );
        lemma_mem_reach_monotone_n(e1, e2, mid, to, (fuel - 1) as nat);
        assert(e2.contains((from, mid, EdgeType::MemberOf)));
    }
}

/// Does the user at `u` hold privilege `p` on the asset at `a`? A policy
/// node must govern the asset, be granted to an agent, and the user must
/// reach that agent through the membership closure.
pub open spec fn eff_priv(g: Graph, u: usize, a: usize, p: Seq<char>) -> bool {
    exists|pi: usize, ai: usize|
        {
            &&& #[trigger] g.edges@.contains((a, pi, EdgeType::GovernedBy))
            &&& #[trigger] g.edges@.contains((pi, ai, EdgeType::GrantedTo))
            &&& pi < g.nodes@.len()
            &&& g.nodes@[pi as int] is Policy
            &&& crate::util::seq_contains_str(policy_privs(g.nodes@[pi as int]), p)
            &&& mem_reach(g.edges@, u, ai)
        }
}

/// The privileges a policy node grants; empty for other node kinds.
pub open spec fn policy_privs(n: JettyNode) -> Seq<Seq<char>> {
    match n {
        JettyNode::Policy(a) => a.privileges.deep_view(),
        _ => Seq::empty(),
    }
}

/// Resolver monotonicity: adding a group-membership edge (or any edge)
/// never removes a privilege from any (user, asset) pair. Whatever a
/// user could do before a membership change, they can still do after
/// edges were only added.
pub proof fn lemma_resolver_monotone(g1: Graph, g2: Graph, u: usize, a: usize, p: Seq<char>)
    requires
        g1.nodes@ == g2.nodes@,
        forall|e: (usize, usize, EdgeType)| g1.edges@.contains(e) ==> g2.edges@.contains(e),
        eff_priv(g1, u, a, p),
    ensures
        eff_priv(g2, u, a, p),
{
    let (pi, ai) = choose|pi: usize, ai: usize|
        {
            &&& #[trigger] g1.edges@.contains((a, pi, EdgeType::GovernedBy))
            &&& #[trigger] g1.edges@.contains((pi, ai, EdgeType::GrantedTo))
            &&& pi < g1.nodes@.len()
            &&& g1.nodes@[pi as int] is Policy
            &&& crate::util::seq_contains_str(policy_privs(g1.nodes@[pi as int]), p)
            &&& mem_reach(g1.edges@, u, ai)
        };
    let fuel = choose|fuel: nat| mem_reach_n(g1.edges@, u, ai, fuel);
    lemma_mem_reach_monotone_n(g1.edges@, g2.edges@, u, ai, fuel);
    assert(mem_reach_n(g2.edges@, u, ai, fuel));
    assert(g2.edges@.contains((a, pi, EdgeType::GovernedBy)));
    assert(g2.edges@.contains((pi, ai, EdgeType::GrantedTo)));
}

/// A set closed under membership edges that contains `from` contains the
/// whole membership closure of `from`.
pub proof fn lemma_closed_contains_reach(
    edges: Seq<(usize, usize, EdgeType)>,
    seen: Seq<usize>,
    from: usize,
    to: usize,
    fuel: nat,
)
    requires
        seen.contains(from),
        forall|x: usize, y: usize|
            seen.contains(x) && #[trigger] edges.contains((x, y, EdgeType::MemberOf))
                ==> seen.contains(y),
        mem_reach_n(edges, from, to, fuel),
    ensures
        seen.contains(to),
    decreases fuel,
{
    if from == to {
    } else {
        let mid = choose|mid: usize|
            edges.contains((from, mid, EdgeType::MemberOf)) && mem_reach_n(
                edges,
                mid,
                to,
                (fuel - 1) as nat,
            );
        assert(seen.contains(mid));
        lemma_closed_contains_reach(edges, seen, mid, to, (fuel - 1) as nat);
    }
}

/// Everything reachable in the membership closure of `start`: exactly
/// the nodes `mem_reach` admits, each listed once.
pub fn member_closure(g: &Graph, start: usize) -> (r: Vec<usize>)
    requires
        g.wf(),
        start < g.nodes@.len(),
    ensures
        forall|i: int, j: int| 0 <= i < j < r@.len() ==> r@[i] != r@[j],
        forall|i: int| 0 <= i < r@.len() ==> mem_reach(g.edges@, start, #[trigger] r@[i]),
        forall|y: usize| mem_reach(g.edges@, start, y) ==> r@.contains(y),
        forall|i: int| 0 <= i < r@.len() ==> #[trigger] r@[i] < g.nodes@.len(),
{
    let mut seen: Vec<usize> = Vec::new();
    seen.push(start);
    proof {
        assert(mem_reach_n(g.edges@, start, start, 0));
        assert(seen@ =~= seq![start]);
        assert(seen@[0] == start);
    }
    let mut w: usize = 0;
    while w < seen.len()
        invariant
            g.wf(),
            start < g.nodes@.len(),
            w <= seen@.len(),
            seen@.contains(start),
            forall|i: int, j: int| 0 <= i < j < seen@.len() ==> seen@[i] != seen@[j],
            forall|i: int|
                0 <= i < seen@.len() ==> mem_reach(g.edges@, start, #[trigger] seen@[i]),
            forall|i: int| 0 <= i < seen@.len() ==> #[trigger] seen@[i] < g.nodes@.len(),
            forall|k: int, y: usize|
                0 <= k < w && #[trigger] g.edges@.contains(
                    (seen@[k], y, EdgeType::MemberOf),
                ) ==> seen@.contains(y),
        decreases g.nodes@.len() - w,
    {
        proof {
            if !(seen@.len() <= g.nodes@.len()) {
                crate::access_graph::resolve::lemma_distinct_bounded(seen@, g.nodes@.len() as int);
            }
        }
        let x = seen[w];
        for ei in 0..g.edges.len()
            invariant
                g.wf(),
                start < g.nodes@.len(),
                w < seen@.len(),
                x == seen@[w as int],
                seen@.contains(start),
                forall|i: int, j: int| 0 <= i < j < seen@.len() ==> seen@[i] != seen@[j],
                forall|i: int|
                    0 <= i < seen@.len() ==> mem_reach(g.edges@, start, #[trigger] seen@[i]),
                forall|i: int| 0 <= i < seen@.len() ==> #[trigger] seen@[i] < g.nodes@.len(),
                forall|k: int, y: usize|
                    0 <= k < w && #[trigger] g.edges@.contains(
                        (seen@[k], y, EdgeType::MemberOf),
                    ) ==> seen@.contains(y),
                forall|j: int|
                    0 <= j < ei && (#[trigger] g.edges@[j]).0 == x && g.edges@[j].2
                        == EdgeType::MemberOf ==> seen@.contains(g.edges@[j].1),
        {
            let e = g.edges[ei];
            if e.0 == x && matches!(e.2, EdgeType::MemberOf) {
                let y = e.1;
                let mut found = false;
                for si in 0..seen.len()
                    invariant
                        found ==> seen@.contains(y),
                        !found ==> forall|i: int| 0 <= i < si ==> seen@[i] != y,
                {
                    if seen[si] == y {
                        found = true;
                        proof {
                            assert(seen@[si as int] == y);
                        }
                    }
                }
                if !found {
                    proof {
                        assert(g.edges@[ei as int] == e);
                        assert(g.edges@.contains((x, y, EdgeType::MemberOf)));
                        assert(y < g.nodes@.len());
                        let fx = choose|fx: nat| mem_reach_n(g.edges@, start, x, fx);
                        assert(mem_reach_n(g.edges@, start, y, fx + 1)) by {
                            lemma_reach_extend(g.edges@, start, x, y, fx);
                        }
                    }
                    let ghost pre = seen@;
                    seen.push(y);
                    proof {
                        assert(seen@ =~= pre.push(y));
                        assert(forall|i: int| 0 <= i < pre.len() ==> seen@[i] == pre[i]);
                        assert(forall|ii: int| 0 <= ii < pre.len() ==> pre[ii] != y);
                        assert forall|i: int, j: int|
                            0 <= i < j < seen@.len() implies seen@[i] != seen@[j] by {
                            if j == pre.len() as int {
                                assert(seen@[i] == pre[i]);
                                assert(seen@[j] == y);
                            }
                        }
                        assert forall|k: int, yy: usize|
                            0 <= k < w && #[trigger] g.edges@.contains(
                                (seen@[k], yy, EdgeType::MemberOf),
                            ) implies seen@.contains(yy) by {
                            assert(seen@[k] == pre[k]);
                            assert(pre.contains(yy));
                            let ii = choose|ii: int| 0 <= ii < pre.len() && pre[ii] == yy;
                            assert(seen@[ii] == yy);
                        }
                        assert forall|j: int|
                            0 <= j < ei + 1 && (#[trigger] g.edges@[j]).0 == x && g.edges@[j].2
                                == EdgeType::MemberOf implies seen@.contains(
                            g.edges@[j].1,
                        ) by {
                            if j < ei {
                                assert(pre.contains(g.edges@[j].1));
                                let ii = choose|ii: int|
                                    0 <= ii < pre.len() && pre[ii] == g.edges@[j].1;
                                assert(seen@[ii] == g.edges@[j].1);
                            } else {
                                assert(seen@[pre.len() as int] == y);
                            }
                        }
                    }
                }
            }
        }
        proof {
            assert forall|k: int, y: usize|
                0 <= k < w + 1 && #[trigger] g.edges@.contains(
                    (seen@[k], y, EdgeType::MemberOf),
                ) implies seen@.contains(y) by {
                if k == w as int {
                    let j = choose|j: int|
                        0 <= j < g.edges@.len() && g.edges@[j] == (
                        seen@[k],
                        y,
                        EdgeType::MemberOf,
                    );
                }
            }
        }
        w = w + 1;
    }
    proof {
        assert forall|y: usize| mem_reach(g.edges@, start, y) implies seen@.contains(y) by {
            let fuel = choose|fuel: nat| mem_reach_n(g.edges@, start, y, fuel);
            lemma_closed_contains_reach(g.edges@, seen@, start, y, fuel);
        }
    }
    seen
}

/// One more membership hop extends a walk.
pub proof fn lemma_reach_extend(
    edges: Seq<(usize, usize, EdgeType)>,
    start: usize,
    x: usize,
    y: usize,
    fuel: nat,
)
    requires
        mem_reach_n(edges, start, x, fuel),
        edges.contains((x, y, EdgeType::MemberOf)),
    ensures
        mem_reach_n(edges, start, y, fuel + 1),
    decreases fuel,
{
    if start == x {
        assert(mem_reach_n(edges, y, y, (fuel + 1 - 1) as nat));
    } else if fuel == 0 {
    } else {
        let mid = choose|mid: usize|
            edges.contains((start, mid, EdgeType::MemberOf)) && mem_reach_n(
                edges,
                mid,
                x,
                (fuel - 1) as nat,
            );
        lemma_reach_extend(edges, mid, x, y, (fuel - 1) as nat);
    }
}

/// A sequence of distinct indices below a bound has at most that many
/// entries.
pub proof fn lemma_distinct_bounded(s: Seq<usize>, bound: int)
    requires
        forall|i: int, j: int| 0 <= i < j < s.len() ==> s[i] != s[j],
        forall|i: int| 0 <= i < s.len() ==> #[trigger] s[i] < bound,
        bound >= 0,
    ensures
        s.len() <= bound,
{
    let t = s.map_values(|x: usize| x as int);
    assert(t.no_duplicates()) by {
        assert forall|i: int, j: int|
            0 <= i < t.len() && 0 <= j < t.len() && i != j implies t[i] != t[j] by {
            if i < j {
                assert(s[i] != s[j]);
            } else {
                assert(s[j] != s[i]);
            }
        }
    }
    t.unique_seq_to_set();
    vstd::set_lib::lemma_int_range(0, bound);
    assert(t.to_set().subset_of(vstd::set_lib::set_int_range(0, bound))) by {
        assert forall|x: int| t.to_set().contains(x) implies vstd::set_lib::set_int_range(
            0,
            bound,
        ).contains(x) by {
            let i = choose|i: int| 0 <= i < t.len() && t[i] == x;
            assert(s[i] < bound);
        }
    }
    vstd::set_lib::lemma_len_subset(t.to_set(), vstd::set_lib::set_int_range(0, bound));
}


/// The prefix of the edge list up to `n` justifies privilege `p` for
/// `(u, a)` through the governance edge at index `j1`.
pub open spec fn gov_grants(
    g: Graph,
    u: usize,
    a: usize,
    j1: int,
    ai: usize,
    p: Seq<char>,
) -> bool {
    &&& g.edges@[j1].0 == a
    &&& g.edges@[j1].2 == EdgeType::GovernedBy
    &&& g.edges@[j1].1 < g.nodes@.len()
    &&& g.nodes@[g.edges@[j1].1 as int] is Policy
    &&& g.edges@.contains((g.edges@[j1].1, ai, EdgeType::GrantedTo))
    &&& crate::util::seq_contains_str(policy_privs(g.nodes@[g.edges@[j1].1 as int]), p)
    &&& mem_reach(g.edges@, u, ai)
}

/// The privileges the user at `u` holds on the asset at `a` through
/// policies granted to agents the user reaches by membership: every
/// returned privilege is justified by such a chain, and every privilege
/// justified by such a chain is returned.
pub fn effective_privileges(g: &Graph, u: usize, a: usize) -> (r: Vec<String>)
    requires
        g.wf(),
        u < g.nodes@.len(),
        a < g.nodes@.len(),
    ensures
        forall|i: int|
            0 <= i < r@.len() ==> eff_priv(*g, u, a, #[trigger] r.deep_view()[i]),
        forall|p: Seq<char>|
            #[trigger] eff_priv(*g, u, a, p) ==> crate::util::seq_contains_str(
                r.deep_view(),
                p,
            ),
{
    let closure = member_closure(g, u);
    let mut out: Vec<String> = Vec::new();
    for e1i in 0..g.edges.len()
        invariant
            g.wf(),
            u < g.nodes@.len(),
            a < g.nodes@.len(),
            forall|i: int, j: int| 0 <= i < j < closure@.len() ==> closure@[i] != closure@[j],
            forall|i: int|
                0 <= i < closure@.len() ==> mem_reach(g.edges@, u, #[trigger] closure@[i]),
            forall|y: usize| mem_reach(g.edges@, u, y) ==> closure@.contains(y),
            out.deep_view().len() == out@.len(),
            forall|i: int|
                0 <= i < out@.len() ==> eff_priv(*g, u, a, #[trigger] out.deep_view()[i]),
            forall|j1: int, ai: usize, p: Seq<char>|
                0 <= j1 < e1i && #[trigger] gov_grants(*g, u, a, j1, ai, p)
                    ==> crate::util::seq_contains_str(out.deep_view(), p),
    {
        let e1 = g.edges[e1i];
        if e1.0 == a && matches!(e1.2, EdgeType::GovernedBy) {
            let pi = e1.1;
            proof {
                assert(g.edges@.contains((a, pi, EdgeType::GovernedBy)));
            }
            let is_policy = matches!(&g.nodes[pi], JettyNode::Policy(_));
            if is_policy {
                for e2i in 0..g.edges.len()
                    invariant
                        g.wf(),
                        u < g.nodes@.len(),
                        a < g.nodes@.len(),
                        pi < g.nodes@.len(),
                        pi == g.edges@[e1i as int].1,
                        e1i < g.edges@.len(),
                        g.edges@[e1i as int].0 == a,
                        g.edges@[e1i as int].2 == EdgeType::GovernedBy,
                        g.nodes@[pi as int] is Policy,
                        g.edges@.contains((a, pi, EdgeType::GovernedBy)),
                        forall|i: int, j: int|
                            0 <= i < j < closure@.len() ==> closure@[i] != closure@[j],
                        forall|i: int|
                            0 <= i < closure@.len() ==> mem_reach(
                                g.edges@,
                                u,
                                #[trigger] closure@[i],
                            ),
                        forall|y: usize| mem_reach(g.edges@, u, y) ==> closure@.contains(y),
                        out.deep_view().len() == out@.len(),
                        forall|i: int|
                            0 <= i < out@.len() ==> eff_priv(
                                *g,
                                u,
                                a,
                                #[trigger] out.deep_view()[i],
                            ),
                        forall|j1: int, ai: usize, p: Seq<char>|
                            0 <= j1 < e1i && #[trigger] gov_grants(*g, u, a, j1, ai, p)
                                ==> crate::util::seq_contains_str(out.deep_view(), p),
                        forall|j2: int, p: Seq<char>|
                            0 <= j2 < e2i && (#[trigger] g.edges@[j2]).0 == pi && g.edges@[j2].2
                                == EdgeType::GrantedTo && mem_reach(
                                g.edges@,
                                u,
                                g.edges@[j2].1,
                            ) && #[trigger] crate::util::seq_contains_str(
                                policy_privs(g.nodes@[pi as int]),
                                p,
                            ) ==> crate::util::seq_contains_str(out.deep_view(), p),
                {
                    let e2 = g.edges[e2i];
                    let ghost pre2 = out.deep_view();
                    if e2.0 == pi && matches!(e2.2, EdgeType::GrantedTo) {
                        let ai = e2.1;
                        proof {
                            assert(g.edges@.contains((pi, ai, EdgeType::GrantedTo)));
                        }
                        let mut in_closure = false;
                        for ci in 0..closure.len()
                            invariant
                                in_closure ==> closure@.contains(ai),
                                !in_closure ==> forall|k: int|
                                    0 <= k < ci ==> closure@[k] != ai,
                        {
                            if closure[ci] == ai {
                                in_closure = true;
                                proof {
                                    assert(closure@[ci as int] == ai);
                                }
                            }
                        }
                        if in_closure {
                            proof {
                                let ci = choose|ci: int|
                                    0 <= ci < closure@.len() && closure@[ci] == ai;
                                assert(mem_reach(g.edges@, u, ai));
                            }
                            match &g.nodes[pi] {
                                JettyNode::Policy(pa) => {
                                    for vi in 0..pa.privileges.len()
                                        invariant
                                            g.wf(),
                                            pi < g.nodes@.len(),
                                            g.nodes@[pi as int] is Policy,
                                            g.nodes@[pi as int] == JettyNode::Policy(*pa),
                                            g.edges@.contains((a, pi, EdgeType::GovernedBy)),
                                            g.edges@.contains((pi, ai, EdgeType::GrantedTo)),
                                            mem_reach(g.edges@, u, ai),
                                            pa.privileges.deep_view().len()
                                                == pa.privileges@.len(),
                                            out.deep_view().len() == out@.len(),
                                            forall|i: int|
                                                0 <= i < out@.len() ==> eff_priv(
                                                    *g,
                                                    u,
                                                    a,
                                                    #[trigger] out.deep_view()[i],
                                                ),
                                            forall|p: Seq<char>|
                                                crate::util::seq_contains_str(pre2, p)
                                                    ==> #[trigger] crate::util::seq_contains_str(
                                                    out.deep_view(),
                                                    p,
                                                ),
                                            forall|t: int|
                                                0 <= t < vi
                                                    ==> crate::util::seq_contains_str(
                                                    out.deep_view(),
                                                    #[trigger] pa.privileges.deep_view()[t],
                                                ),
                                    {
                                        let ghost pre = out.deep_view();
                                        out.push(pa.privileges[vi].clone());
                                        proof {
                                            assert(out.deep_view() =~= pre.push(
                                                pa.privileges.deep_view()[vi as int],
                                            ));
                                            crate::util::lemma_contains_push(
                                                pre,
                                                pa.privileges.deep_view()[vi as int],
                                            );
                                            assert(crate::util::seq_contains_str(
                                                policy_privs(g.nodes@[pi as int]),
                                                pa.privileges.deep_view()[vi as int],
                                            ));
                                            assert(eff_priv(
                                                *g,
                                                u,
                                                a,
                                                pa.privileges.deep_view()[vi as int],
                                            ));
                                        }
                                    }
                                    proof {
                                        assert forall|j2: int, p: Seq<char>|
                                            0 <= j2 < e2i + 1 && (
                                            #[trigger] g.edges@[j2]).0 == pi && g.edges@[j2].2
                                            == EdgeType::GrantedTo && mem_reach(
                                            g.edges@,
                                            u,
                                            g.edges@[j2].1,
                                        ) && #[trigger] crate::util::seq_contains_str(
                                            policy_privs(g.nodes@[pi as int]),
                                            p,
                                        ) implies crate::util::seq_contains_str(
                                            out.deep_view(),
                                            p,
                                        ) by {
                                            let t = choose|t: int|
                                                0 <= t < pa.privileges.deep_view().len()
                                                    && pa.privileges.deep_view()[t] == p;
                                            assert(crate::util::seq_contains_str(
                                                out.deep_view(),
                                                pa.privileges.deep_view()[t],
                                            ));
                                        }
                                        assert forall|j1: int, ai2: usize, p: Seq<char>|
                                            0 <= j1 < e1i && #[trigger] gov_grants(
                                            *g,
                                            u,
                                            a,
                                            j1,
                                            ai2,
                                            p,
                                        ) implies crate::util::seq_contains_str(
                                            out.deep_view(),
                                            p,
                                        ) by {
                                            assert(crate::util::seq_contains_str(pre2, p));
                                        }
                                    }
                                },
                                _ => {},
                            }
                        } else {
                            proof {
                                assert(!closure@.contains(ai));
                                assert(!mem_reach(g.edges@, u, ai));
                            }
                        }
                    }
                }
                proof {
                    assert forall|j1: int, ai: usize, p: Seq<char>|
                        0 <= j1 < e1i + 1 && #[trigger] gov_grants(
                        *g,
                        u,
                        a,
                        j1,
                        ai,
                        p,
                    ) implies crate::util::seq_contains_str(out.deep_view(), p) by {
                        if j1 == e1i as int {
                            let j2 = choose|j2: int|
                                0 <= j2 < g.edges@.len() && g.edges@[j2] == (
                                pi,
                                ai,
                                EdgeType::GrantedTo,
                            );
                        }
                    }
                }
            } else {
                proof {
                    assert forall|j1: int, ai: usize, p: Seq<char>|
                        0 <= j1 < e1i + 1 && #[trigger] gov_grants(
                        *g,
                        u,
                        a,
                        j1,
                        ai,
                        p,
                    ) implies crate::util::seq_contains_str(out.deep_view(), p) by {}
                }
            }
        } else {
            proof {
                assert forall|j1: int, ai: usize, p: Seq<char>|
                    0 <= j1 < e1i + 1 && #[trigger] gov_grants(
                    *g,
                    u,
                    a,
                    j1,
                    ai,
                    p,
                ) implies crate::util::seq_contains_str(out.deep_view(), p) by {}
            }
        }
    }
    proof {
        assert forall|p: Seq<char>| #[trigger] eff_priv(*g, u, a, p) implies
            crate::util::seq_contains_str(out.deep_view(), p) by {
            let (pi, ai) = choose|pi: usize, ai: usize|
                {
                    &&& #[trigger] g.edges@.contains((a, pi, EdgeType::GovernedBy))
                    &&& #[trigger] g.edges@.contains((pi, ai, EdgeType::GrantedTo))
                    &&& pi < g.nodes@.len()
                    &&& g.nodes@[pi as int] is Policy
                    &&& crate::util::seq_contains_str(policy_privs(g.nodes@[pi as int]), p)
                    &&& mem_reach(g.edges@, u, ai)
                };
            let j1 = choose|j1: int|
                0 <= j1 < g.edges@.len() && g.edges@[j1] == (a, pi, EdgeType::GovernedBy);
            assert(gov_grants(*g, u, a, j1, ai, p));
        }
    }
    out
}

} // verus!
