//! Block indices in ascending order, each once.

use vstd::prelude::*;

verus! {

/// A list of block indices.
pub struct BlockSet {
    items: Vec<u64>,
}

/// Whether the items ascend, so that each occurs once.
pub open spec fn ascending(items: Seq<u64>) -> bool {
    forall|i: int, j: int| 0 <= i < j < items.len() ==> items[i] < items[j]
}

/// Whether `after` is `before` with `x` added in its place.
pub open spec fn with_index(before: Seq<u64>, x: u64, after: Seq<u64>) -> bool {
    ascending(after) && after.to_set() == before.to_set().insert(x)
}

/// Whether `after` is `before` without `x`.
pub open spec fn without_index(before: Seq<u64>, x: u64, after: Seq<u64>) -> bool {
    ascending(after) && after.to_set() == before.to_set().remove(x)
}

impl View for BlockSet {
    type V = Seq<u64>;

    closed spec fn view(&self) -> Seq<u64> {
        self.items@
    }
}

/// Two ascending lists with the same members are the same list.
pub proof fn lemma_ascending_unique(a: Seq<u64>, b: Seq<u64>)
    requires
        ascending(a),
        ascending(b),
        a.to_set() == b.to_set(),
    ensures
        a == b,
    decreases a.len(),
{
    if a.len() == 0 {
        if b.len() > 0 {
            assert(b.contains(b[0]));
            assert(a.to_set().contains(b[0]));
        }
        assert(a =~= b);
    } else {
        assert(a.contains(a.last()));
        assert(b.to_set().contains(a.last()));
        let j = choose|j: int| 0 <= j < b.len() && b[j] == a.last();
        assert(b.contains(b.last()));
        assert(a.to_set().contains(b.last()));
        let i = choose|i: int| 0 <= i < a.len() && a[i] == b.last();
        assert(a.last() == b.last());
        let x = a.last();
        let a1 = a.drop_last();
        let b1 = b.drop_last();
        assert forall|y: u64| a1.contains(y) == (a.contains(y) && y != x) by {
            lemma_drop_last_members(a, y);
        }
        assert forall|y: u64| b1.contains(y) == (b.contains(y) && y != x) by {
            lemma_drop_last_members(b, y);
        }
        assert forall|y: u64| a.contains(y) == b.contains(y) by {
            assert(a.to_set().contains(y) == a.contains(y));
            assert(b.to_set().contains(y) == b.contains(y));
        }
        assert(a1.to_set() =~= b1.to_set());
        lemma_ascending_unique(a1, b1);
        assert(a =~= a1.push(x));
        assert(b =~= b1.push(x));
    }
}

proof fn lemma_drop_last_members(a: Seq<u64>, y: u64)
    requires
        ascending(a),
        a.len() > 0,
    ensures
        a.drop_last().contains(y) == (a.contains(y) && y != a.last()),
{
    let a1 = a.drop_last();
    if a1.contains(y) {
        let k = choose|k: int| 0 <= k < a1.len() && a1[k] == y;
        assert(a[k] == y);
    }
    if a.contains(y) && y != a.last() {
        let k = choose|k: int| 0 <= k < a.len() && a[k] == y;
        assert(a1[k] == y);
    }
}

proof fn lemma_ascending_floor(items: Seq<u64>, i: int)
    requires
        ascending(items),
        0 <= i < items.len(),
    ensures
        items[i] >= i,
    decreases i,
{
    if i > 0 {
        lemma_ascending_floor(items, i - 1);
    }
}

/// Indices below `limit` are at most `limit` many.
pub proof fn lemma_len_bound(items: Seq<u64>, limit: u64)
    requires
        ascending(items),
        forall|i: int| 0 <= i < items.len() ==> items[i] < limit,
    ensures
        items.len() <= limit,
{
    if items.len() > 0 {
        lemma_ascending_floor(items, items.len() - 1);
    }
}

impl BlockSet {
    /// The empty list.
    pub fn new() -> (r: Self)
        ensures
            r@ == Seq::<u64>::empty(),
    {
        BlockSet { items: Vec::new() }
    }

    /// Number of indices.
    pub fn len(&self) -> (r: usize)
        ensures
            r == self@.len(),
    {
        self.items.len()
    }

    /// Number of indices below `x`.
    fn rank(&self, x: u64) -> (r: usize)
        requires
            ascending(self@),
        ensures
            r <= self@.len(),
            forall|j: int| 0 <= j < r ==> self@[j] < x,
            forall|j: int| r <= j < self@.len() ==> self@[j] >= x,
    {
        let mut i: usize = 0;
        while i < self.items.len() && self.items[i] < x
            invariant
                ascending(self@),
                i <= self@.len(),
                forall|j: int| 0 <= j < i ==> self@[j] < x,
            decreases self@.len() - i,
        {
            i = i + 1;
        }
        i
    }

    /// Whether `x` is there.
    pub fn contains(&self, x: u64) -> (r: bool)
        requires
            ascending(self@),
        ensures
            r == self@.contains(x),
    {
        let i: usize = self.rank(x);
        if i < self.items.len() && self.items[i] == x {
            assert(self@[i as int] == x);
            true
        } else {
            assert forall|j: int| 0 <= j < self@.len() implies self@[j] != x by {
                if i <= j && i < self@.len() {
                    assert(self@[i as int] <= self@[j]);
                }
            }
            false
        }
    }

    /// Adds `x` in its place.
    pub fn insert(&mut self, x: u64)
        requires
            ascending(old(self)@),
        ensures
            with_index(old(self)@, x, final(self)@),
    {
        let i: usize = self.rank(x);
        let ghost before = self@;
        if i < self.items.len() && self.items[i] == x {
            assert(before.contains(x)) by {
                assert(before[i as int] == x);
            }
            assert(before.to_set().insert(x) =~= before.to_set());
        } else {
            assert forall|j: int| i <= j < before.len() implies before[j] > x by {
                assert(before[i as int] <= before[j]);
            }
            self.items.insert(i, x);
            proof {
                let after = self@;
                assert(after =~= before.insert(i as int, x));
                assert forall|y: u64| after.contains(y) == (before.contains(y) || y == x) by {
                    if before.contains(y) {
                        let j = choose|j: int| 0 <= j < before.len() && before[j] == y;
                        assert(after[if j < i { j } else { j + 1 }] == y);
                    }
                    if after.contains(y) && y != x {
                        let j = choose|j: int| 0 <= j < after.len() && after[j] == y;
                        assert(before[if j < i { j } else { j - 1 }] == y);
                    }
                    if y == x {
                        assert(after[i as int] == x);
                    }
                }
                assert(after.to_set() =~= before.to_set().insert(x));
            }
        }
    }

    /// Takes `x` out.
    pub fn remove(&mut self, x: u64)
        requires
            ascending(old(self)@),
        ensures
            without_index(old(self)@, x, final(self)@),
    {
        let i: usize = self.rank(x);
        let ghost before = self@;
        if i < self.items.len() && self.items[i] == x {
            self.items.remove(i);
            proof {
                let after = self@;
                assert(after =~= before.remove(i as int));
                assert forall|y: u64| after.contains(y) == (before.contains(y) && y != x) by {
                    if before.contains(y) && y != x {
                        let j = choose|j: int| 0 <= j < before.len() && before[j] == y;
                        assert(after[if j < i { j } else { j - 1 }] == y);
                    }
                    if after.contains(y) {
                        let j = choose|j: int| 0 <= j < after.len() && after[j] == y;
                        assert(before[if j < i { j } else { j + 1 }] == y);
                    }
                }
                assert(after.to_set() =~= before.to_set().remove(x));
            }
        } else {
            assert forall|j: int| 0 <= j < before.len() implies before[j] != x by {
                if i <= j && i < before.len() {
                    assert(before[i as int] <= before[j]);
                }
            }
            assert(before.to_set().remove(x) =~= before.to_set());
        }
    }

    /// The greatest index.
    pub fn greatest(&self) -> (r: Option<u64>)
        ensures
            match r {
                Some(m) => self@.len() > 0 && m == self@.last(),
                None => self@.len() == 0,
            },
    {
        let n: usize = self.items.len();
        if n == 0 {
            None
        } else {
            Some(self.items[n - 1])
        }
    }

    /// The indices in ascending order.
    pub fn to_vec(&self) -> (r: Vec<u64>)
        ensures
            r@ == self@,
    {
        self.items.clone()
    }

    /// The members of `items` in ascending order.
    pub fn from_vec(items: &Vec<u64>) -> (r: Self)
        ensures
            ascending(r@),
            r@.to_set() == items@.to_set(),
    {
        let mut out = BlockSet::new();
        let mut i: usize = 0;
        assert(items@.subrange(0, 0).to_set() =~= out@.to_set());
        while i < items.len()
            invariant
                i <= items@.len(),
                ascending(out@),
                out@.to_set() == items@.subrange(0, i as int).to_set(),
            decreases items@.len() - i,
        {
            out.insert(items[i]);
            proof {
                let a = items@.subrange(0, i as int);
                let b = items@.subrange(0, i + 1);
                assert(b =~= a.push(items@[i as int]));
                assert forall|y: u64| b.contains(y) == (a.contains(y) || y == items@[i as int]) by {
                    if a.contains(y) {
                        let j = choose|j: int| 0 <= j < a.len() && a[j] == y;
                        assert(b[j] == y);
                    }
                    if y == items@[i as int] {
                        assert(b[i as int] == y);
                    }
                }
                assert(out@.to_set() =~= b.to_set());
            }
            i = i + 1;
        }
        assert(items@.subrange(0, items@.len() as int) =~= items@);
        out
    }
}

} // verus!
