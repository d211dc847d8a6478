//! Which nodes lie below a node, by the lists of children.

use vstd::prelude::*;

verus! {

/// Whether `b` is listed as a child of `a`.
pub open spec fn edge(g: Map<u64, Seq<u64>>, a: u64, b: u64) -> bool {
    g.contains_key(a) && g[a].contains(b)
}

/// Whether `x` lies `n` levels below `a`.
pub open spec fn reaches_in(g: Map<u64, Seq<u64>>, a: u64, x: u64, n: nat) -> bool
    decreases n,
{
    if n == 0 {
        a == x
    } else {
        exists|b: u64| #[trigger] edge(g, a, b) && reaches_in(g, b, x, (n - 1) as nat)
    }
}

/// Whether `x` is `a` or lies below it.
pub open spec fn reaches(g: Map<u64, Seq<u64>>, a: u64, x: u64) -> bool {
    exists|n: nat| reaches_in(g, a, x, n)
}

/// The nodes in `roots` and all that lie below them.
pub open spec fn below(g: Map<u64, Seq<u64>>, roots: Set<u64>) -> Set<u64> {
    Set::new(|x: u64| exists|a: u64| #[trigger] roots.contains(a) && reaches(g, a, x))
}

/// Whether every child of a member is a member.
pub open spec fn closed_under(g: Map<u64, Seq<u64>>, s: Set<u64>) -> bool {
    forall|a: u64, b: u64| s.contains(a) && #[trigger] edge(g, a, b) ==> s.contains(b)
}

/// A node lies below itself.
pub proof fn lemma_reaches_self(g: Map<u64, Seq<u64>>, a: u64)
    ensures
        reaches(g, a, a),
{
    assert(reaches_in(g, a, a, 0));
}

/// What lies below a child of `b` lies below whatever `b` lies below.
pub proof fn lemma_reaches_step(g: Map<u64, Seq<u64>>, a: u64, b: u64, c: u64)
    requires
        reaches(g, a, b),
        edge(g, b, c),
    ensures
        reaches(g, a, c),
{
    let n = choose|n: nat| reaches_in(g, a, b, n);
    lemma_step_in(g, a, b, c, n);
    assert(reaches_in(g, a, c, n + 1));
}

proof fn lemma_step_in(g: Map<u64, Seq<u64>>, a: u64, b: u64, c: u64, n: nat)
    requires
        reaches_in(g, a, b, n),
        edge(g, b, c),
    ensures
        reaches_in(g, a, c, n + 1),
    decreases n,
{
    if n == 0 {
        assert(reaches_in(g, c, c, 0));
        assert(edge(g, a, c) && reaches_in(g, c, c, 0));
        assert(reaches_in(g, a, c, 1));
    } else {
        let d = choose|d: u64| #[trigger] edge(g, a, d) && reaches_in(g, d, b, (n - 1) as nat);
        lemma_step_in(g, d, b, c, (n - 1) as nat);
        assert(edge(g, a, d) && reaches_in(g, d, c, n));
        assert(reaches_in(g, a, c, n + 1));
    }
}

/// A set that holds the roots and every child of a member holds all that lies below the roots.
pub proof fn lemma_below_least(g: Map<u64, Seq<u64>>, roots: Set<u64>, s: Set<u64>)
    requires
        roots.subset_of(s),
        closed_under(g, s),
    ensures
        below(g, roots).subset_of(s),
{
    assert forall|x: u64| below(g, roots).contains(x) implies s.contains(x) by {
        let a = choose|a: u64| #[trigger] roots.contains(a) && reaches(g, a, x);
        let n = choose|n: nat| reaches_in(g, a, x, n);
        lemma_closed_reach(g, s, a, x, n);
    }
}

proof fn lemma_closed_reach(g: Map<u64, Seq<u64>>, s: Set<u64>, a: u64, x: u64, n: nat)
    requires
        s.contains(a),
        closed_under(g, s),
        reaches_in(g, a, x, n),
    ensures
        s.contains(x),
    decreases n,
{
    if n > 0 {
        let b = choose|b: u64| #[trigger] edge(g, a, b) && reaches_in(g, b, x, (n - 1) as nat);
        lemma_closed_reach(g, s, b, x, (n - 1) as nat);
    }
}

/// Where every child has a higher number than its parent, so has all that lies below a node.
pub proof fn lemma_reaches_ascends(g: Map<u64, Seq<u64>>, a: u64, x: u64)
    requires
        forall|p: u64, c: u64| #[trigger] edge(g, p, c) ==> p < c,
        reaches(g, a, x),
    ensures
        a <= x,
{
    let n = choose|n: nat| reaches_in(g, a, x, n);
    lemma_ascends_in(g, a, x, n);
}

proof fn lemma_ascends_in(g: Map<u64, Seq<u64>>, a: u64, x: u64, n: nat)
    requires
        forall|p: u64, c: u64| #[trigger] edge(g, p, c) ==> p < c,
        reaches_in(g, a, x, n),
    ensures
        a <= x,
    decreases n,
{
    if n > 0 {
        let b = choose|b: u64| #[trigger] edge(g, a, b) && reaches_in(g, b, x, (n - 1) as nat);
        lemma_ascends_in(g, b, x, (n - 1) as nat);
    }
}

/// What lies below `a` is `a`, or a child of something that does.
pub proof fn lemma_reaches_last(g: Map<u64, Seq<u64>>, a: u64, x: u64)
    requires
        reaches(g, a, x),
    ensures
        a == x || exists|p: u64| reaches(g, a, p) && #[trigger] edge(g, p, x),
{
    let n = choose|n: nat| reaches_in(g, a, x, n);
    lemma_last_in(g, a, x, n);
}

proof fn lemma_last_in(g: Map<u64, Seq<u64>>, a: u64, x: u64, n: nat)
    requires
        reaches_in(g, a, x, n),
    ensures
        a == x || exists|p: u64| reaches(g, a, p) && #[trigger] edge(g, p, x),
    decreases n,
{
    if n > 0 {
        let b = choose|b: u64| #[trigger] edge(g, a, b) && reaches_in(g, b, x, (n - 1) as nat);
        lemma_last_in(g, b, x, (n - 1) as nat);
        lemma_reaches_self(g, a);
        if b == x {
            assert(reaches(g, a, a) && edge(g, a, x));
        } else {
            let p = choose|p: u64| reaches(g, b, p) && #[trigger] edge(g, p, x);
            let m = choose|m: nat| reaches_in(g, b, p, m);
            assert(edge(g, a, b) && reaches_in(g, b, p, m));
            assert(reaches_in(g, a, p, m + 1));
            assert(reaches(g, a, p) && edge(g, p, x));
        }
    }
}

} // verus!
