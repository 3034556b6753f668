//! Small verified helpers over vectors of strings and association lists,
//! shared by the graph model, the merge protocol and the diff engine.

use vstd::prelude::*;

verus! {

/// Does a sequence of strings contain `x`?
pub open spec fn seq_contains_str(s: Seq<Seq<char>>, x: Seq<char>) -> bool {
    exists|i: int| 0 <= i < s.len() && s[i] == x
}

/// What appending one string does to containment.
pub proof fn lemma_contains_push(s: Seq<Seq<char>>, x: Seq<char>)
    ensures
        forall|t: Seq<char>|
            #[trigger] seq_contains_str(s.push(x), t) <==> (seq_contains_str(s, t) || t
                == x),
{
    assert forall|t: Seq<char>|
        #[trigger] seq_contains_str(s.push(x), t) <==> (seq_contains_str(s, t) || t
            == x) by {
        if seq_contains_str(s.push(x), t) {
            let j = choose|j: int| 0 <= j < s.push(x).len() && s.push(x)[j] == t;
            if j < s.len() {
                assert(s[j] == t);
            }
        }
        if seq_contains_str(s, t) {
            let j = choose|j: int| 0 <= j < s.len() && s[j] == t;
            assert(s.push(x)[j] == t);
        }
        if t == x {
            assert(s.push(x)[s.len() as int] == t);
        }
    }
}

/// Does an association list hold key `k`?
pub open spec fn assoc_has(s: Seq<(String, String)>, k: Seq<char>) -> bool {
    exists|i: int| 0 <= i < s.len() && s[i].0@ == k
}

/// The value the association list holds for `k` (the first match).
pub open spec fn assoc_get(s: Seq<(String, String)>, k: Seq<char>) -> Seq<char>
    decreases s.len(),
{
    if s.len() == 0 {
        Seq::empty()
    } else if s[0].0@ == k {
        s[0].1@
    } else {
        assoc_get(s.drop_first(), k)
    }
}

/// Keys of an association list are pairwise distinct.
pub open spec fn assoc_unique(s: Seq<(String, String)>) -> bool {
    forall|i: int, j: int| 0 <= i < j < s.len() ==> s[i].0@ != s[j].0@
}

/// Strings in a sequence are pairwise distinct.
pub open spec fn strs_unique(s: Seq<Seq<char>>) -> bool {
    forall|i: int, j: int| 0 <= i < j < s.len() ==> s[i] != s[j]
}

/// `assoc_get` returns the value of the first matching entry.
pub proof fn lemma_assoc_get_first(s: Seq<(String, String)>, k: Seq<char>, i: int)
    requires
        0 <= i < s.len(),
        s[i].0@ == k,
        forall|j: int| 0 <= j < i ==> s[j].0@ != k,
    ensures
        assoc_get(s, k) == s[i].1@,
        assoc_has(s, k),
    decreases s.len(),
{
    if i == 0 {
    } else {
        assert(s.drop_first()[i - 1] == s[i]);
        assert(forall|j: int| 0 <= j < i - 1 ==> s.drop_first()[j] == s[j + 1]);
        lemma_assoc_get_first(s.drop_first(), k, i - 1);
    }
}

/// How `assoc_has` and `assoc_get` behave when an entry is appended: keys
/// already present keep their value; a fresh key gets the new value.
pub proof fn lemma_assoc_push(s: Seq<(String, String)>, p: (String, String))
    ensures
        forall|k: Seq<char>|
            #[trigger] assoc_has(s.push(p), k) <==> (assoc_has(s, k) || p.0@ == k),
        forall|k: Seq<char>|
            assoc_has(s, k) ==> #[trigger] assoc_get(s.push(p), k) == assoc_get(s, k),
        !assoc_has(s, p.0@) ==> assoc_get(s.push(p), p.0@) == p.1@,
    decreases s.len(),
{
    assert forall|k: Seq<char>|
        #[trigger] assoc_has(s.push(p), k) <==> (assoc_has(s, k) || p.0@ == k) by {
        if assoc_has(s.push(p), k) {
            let i = choose|i: int| 0 <= i < s.push(p).len() && s.push(p)[i].0@ == k;
            if i < s.len() {
                assert(s[i].0@ == k);
            } else {
                assert(s.push(p)[i] == p);
            }
        }
        if assoc_has(s, k) {
            let i = choose|i: int| 0 <= i < s.len() && s[i].0@ == k;
            assert(s.push(p)[i].0@ == k);
        }
        if p.0@ == k {
            assert(s.push(p)[s.len() as int].0@ == k);
        }
    }
    if s.len() == 0 {
        assert(s.push(p).drop_first() =~= Seq::empty());
    } else {
        assert(s.push(p).drop_first() =~= s.drop_first().push(p));
        assert(s.push(p)[0] == s[0]);
        lemma_assoc_push(s.drop_first(), p);
        assert forall|k: Seq<char>| assoc_has(s, k) implies #[trigger] assoc_get(s.push(p), k)
            == assoc_get(s, k) by {
            if s[0].0@ == k {
                assert(assoc_get(s.push(p), k) == s[0].1@);
                assert(assoc_get(s, k) == s[0].1@);
            } else {
                let i = choose|i: int| 0 <= i < s.len() && s[i].0@ == k;
                assert(s.drop_first()[i - 1].0@ == k);
                assert(assoc_has(s.drop_first(), k));
                assert(assoc_get(s.drop_first().push(p), k) == assoc_get(s.drop_first(), k));
                assert(assoc_get(s.push(p), k) == assoc_get(s.push(p).drop_first(), k));
                assert(assoc_get(s, k) == assoc_get(s.drop_first(), k));
            }
        }
        if !assoc_has(s, p.0@) {
            assert(s[0].0@ != p.0@);
            assert(!assoc_has(s.drop_first(), p.0@)) by {
                if assoc_has(s.drop_first(), p.0@) {
                    let i = choose|i: int|
                        0 <= i < s.drop_first().len() && s.drop_first()[i].0@ == p.0@;
                    assert(s[i + 1].0@ == p.0@);
                }
            }
        }
    }
}

/// Look a key up in an association list; returns the first match.
pub fn assoc_lookup(v: &Vec<(String, String)>, k: &String) -> (r: Option<String>)
    ensures
        match r {
            Some(val) => assoc_has(v@, k@) && val@ == assoc_get(v@, k@),
            None => !assoc_has(v@, k@),
        },
{
    for i in 0..v.len()
        invariant
            forall|j: int| 0 <= j < i ==> v@[j].0@ != k@,
    {
        if v[i].0 == *k {
            proof {
                lemma_assoc_get_first(v@, k@, i as int);
            }
            return Some(v[i].1.clone());
        }
    }
    None
}

/// The union of two string sets, first operand's order first.
pub fn union_unique(a: &Vec<String>, b: &Vec<String>) -> (r: Vec<String>)
    requires
        strs_unique(a.deep_view()),
    ensures
        strs_unique(r.deep_view()),
        forall|s: Seq<char>|
            seq_contains_str(r.deep_view(), s) <==> (seq_contains_str(a.deep_view(), s)
                || seq_contains_str(b.deep_view(), s)),
{
    let mut r = copy_strings(a);
    for i in 0..b.len()
        invariant
            strs_unique(r.deep_view()),
            b.deep_view().len() == b.len(),
            forall|s: Seq<char>|
                seq_contains_str(r.deep_view(), s) <==> (seq_contains_str(a.deep_view(), s)
                    || seq_contains_str(b.deep_view().take(i as int), s)),
    {
        insert_unique(&mut r, b[i].clone());
        proof {
            assert(b.deep_view().take(i + 1) =~= b.deep_view().take(i as int).push(
                b.deep_view()[i as int],
            ));
            lemma_contains_push(b.deep_view().take(i as int), b.deep_view()[i as int]);
        }
    }
    proof {
        assert(b.deep_view().take(b.len() as int) =~= b.deep_view());
    }
    r
}

/// Does a sequence of integers contain `x`?
pub open spec fn seq_contains_int(s: Seq<int>, x: int) -> bool {
    exists|i: int| 0 <= i < s.len() && s[i] == x
}

/// What appending one integer does to containment.
pub proof fn lemma_int_contains_push(s: Seq<int>, x: int)
    ensures
        forall|t: int|
            #[trigger] seq_contains_int(s.push(x), t) <==> (seq_contains_int(s, t) || t == x),
{
    assert forall|t: int|
        #[trigger] seq_contains_int(s.push(x), t) <==> (seq_contains_int(s, t) || t == x) by {
        if seq_contains_int(s.push(x), t) {
            let j = choose|j: int| 0 <= j < s.push(x).len() && s.push(x)[j] == t;
            if j < s.len() {
                assert(s[j] == t);
            }
        }
        if seq_contains_int(s, t) {
            let j = choose|j: int| 0 <= j < s.len() && s[j] == t;
            assert(s.push(x)[j] == t);
        }
        if t == x {
            assert(s.push(x)[s.len() as int] == t);
        }
    }
}

/// Two metadata maps agree on every key they share.
pub open spec fn metadata_compatible(a: Seq<(String, String)>, b: Seq<(String, String)>) -> bool {
    forall|k: Seq<char>|
        assoc_has(a, k) && assoc_has(b, k) ==> #[trigger] assoc_get(a, k) == assoc_get(b, k)
}

/// `m` is the key-wise merge of `a` and `b`: it has exactly the keys of
/// both, `a`'s value where `a` has the key, `b`'s value otherwise.
pub open spec fn metadata_merged(
    a: Seq<(String, String)>,
    b: Seq<(String, String)>,
    m: Seq<(String, String)>,
) -> bool {
    &&& assoc_unique(m)
    &&& forall|k: Seq<char>| #[trigger] assoc_has(m, k) <==> (assoc_has(a, k) || assoc_has(b, k))
    &&& forall|k: Seq<char>| assoc_has(a, k) ==> #[trigger] assoc_get(m, k) == assoc_get(a, k)
    &&& forall|k: Seq<char>|
        !assoc_has(a, k) && assoc_has(b, k) ==> #[trigger] assoc_get(m, k) == assoc_get(b, k)
}

/// `m` is the set union of `a` and `b`, without duplicates.
pub open spec fn strset_merged(a: Seq<Seq<char>>, b: Seq<Seq<char>>, m: Seq<Seq<char>>) -> bool {
    &&& strs_unique(m)
    &&& forall|s: Seq<char>|
        #[trigger] seq_contains_str(m, s) <==> (seq_contains_str(a, s) || seq_contains_str(b, s))
}

/// Appending an entry with a fresh key keeps the keys unique.
pub proof fn lemma_assoc_push_unique(s: Seq<(String, String)>, p: (String, String))
    requires
        assoc_unique(s),
        !assoc_has(s, p.0@),
    ensures
        assoc_unique(s.push(p)),
{
    assert forall|i: int, j: int| 0 <= i < j < s.push(p).len() implies s.push(p)[i].0@
        != s.push(p)[j].0@ by {
        if j < s.len() {
        } else {
            assert(s.push(p)[i] == s[i]);
            assert(!(s[i].0@ == p.0@));
        }
    }
}

/// An element-wise copy of an association list; the copy is the same value.
pub fn copy_pairs(a: &Vec<(String, String)>) -> (r: Vec<(String, String)>)
    ensures
        r@ == a@,
{
    let mut r: Vec<(String, String)> = Vec::new();
    for i in 0..a.len()
        invariant
            r@ =~= a@.take(i as int),
    {
        r.push((a[i].0.clone(), a[i].1.clone()));
        proof {
            assert(r@ =~= a@.take(i + 1));
        }
    }
    proof {
        assert(a@.take(a.len() as int) =~= a@);
    }
    r
}

/// An element-wise copy of a string vector; the copy has the same view.
pub fn copy_strings(a: &Vec<String>) -> (r: Vec<String>)
    ensures
        r@ == a@,
{
    let mut r: Vec<String> = Vec::new();
    for i in 0..a.len()
        invariant
            r@ =~= a@.take(i as int),
    {
        r.push(a[i].clone());
        proof {
            assert(r@ =~= a@.take(i + 1));
        }
    }
    proof {
        assert(a@.take(a.len() as int) =~= a@);
    }
    r
}

/// Exact string-vector equality test.
pub fn string_vec_eq(a: &Vec<String>, b: &Vec<String>) -> (r: bool)
    ensures
        r <==> a.deep_view() == b.deep_view(),
{
    if a.len() != b.len() {
        assert(a.deep_view().len() != b.deep_view().len());
        return false;
    }
    for i in 0..a.len()
        invariant
            a.len() == b.len(),
            a.deep_view().len() == a.len(),
            b.deep_view().len() == b.len(),
            forall|j: int| 0 <= j < i ==> a.deep_view()[j] == b.deep_view()[j],
    {
        if a[i] != b[i] {
            assert(a.deep_view()[i as int] != b.deep_view()[i as int]);
            return false;
        }
    }
    proof {
        assert(a.deep_view() =~= b.deep_view());
    }
    true
}

/// Exact equality test for association lists, entry by entry.
pub fn string_pairs_eq(a: &Vec<(String, String)>, b: &Vec<(String, String)>) -> (r: bool)
    ensures
        r <==> (a@.map_values(|p: (String, String)| (p.0@, p.1@)) == b@.map_values(
            |p: (String, String)| (p.0@, p.1@),
        )),
{
    let ghost av = a@.map_values(|p: (String, String)| (p.0@, p.1@));
    let ghost bv = b@.map_values(|p: (String, String)| (p.0@, p.1@));
    if a.len() != b.len() {
        assert(av.len() != bv.len());
        return false;
    }
    for i in 0..a.len()
        invariant
            a.len() == b.len(),
            av == a@.map_values(|p: (String, String)| (p.0@, p.1@)),
            bv == b@.map_values(|p: (String, String)| (p.0@, p.1@)),
            av.len() == a.len(),
            bv.len() == b.len(),
            forall|j: int| 0 <= j < i ==> av[j] == bv[j],
    {
        if !(a[i].0 == b[i].0 && a[i].1 == b[i].1) {
            assert(av[i as int] != bv[i as int]);
            return false;
        }
        assert(av[i as int] == bv[i as int]);
    }
    proof {
        assert(av =~= bv);
    }
    true
}

/// Does the vector hold `x`?
pub fn contains_string(v: &Vec<String>, x: &String) -> (r: bool)
    ensures
        r == seq_contains_str(v.deep_view(), x@),
{
    for i in 0..v.len()
        invariant
            v.deep_view().len() == v.len(),
            forall|j: int| 0 <= j < i ==> v.deep_view()[j] != x@,
    {
        if v[i] == *x {
            assert(v.deep_view()[i as int] == x@);
            return true;
        }
    }
    false
}

/// Append `x` unless an equal string is already present. Keeps uniqueness
/// and order; the contents afterwards are the old contents plus `x`.
pub fn insert_unique(v: &mut Vec<String>, x: String)
    requires
        strs_unique(old(v).deep_view()),
    ensures
        strs_unique(final(v).deep_view()),
        forall|s: Seq<char>|
            seq_contains_str(final(v).deep_view(), s) <==> (seq_contains_str(
                old(v).deep_view(),
                s,
            ) || s == x@),
        old(v).deep_view().is_prefix_of(final(v).deep_view()),
{
    if !contains_string(v, &x) {
        let ghost oldv = v.deep_view();
        v.push(x);
        proof {
            assert(v.deep_view() =~= oldv.push(x@));
            assert forall|s: Seq<char>|
                seq_contains_str(v.deep_view(), s) <==> (seq_contains_str(oldv, s) || s
                    == x@) by {
                if seq_contains_str(oldv, s) {
                    let i = choose|i: int| 0 <= i < oldv.len() && oldv[i] == s;
                    assert(v.deep_view()[i] == s);
                }
                if s == x@ {
                    assert(v.deep_view()[oldv.len() as int] == s);
                }
            }
        }
    } else {
        proof {
            assert(seq_contains_str(v.deep_view(), x@));
        }
    }
}

} // verus!
