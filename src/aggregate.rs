//! Reduction of the entries that a subtree walk produced into one byte total,
//! under the degrade-to-zero policy.
use vstd::prelude::*;

verus! {

/// What a walked entry is, as the walk saw it without following links.
#[derive(PartialEq, Eq, Structural, Clone, Copy, Debug)]
pub enum EntryKind {
    File,
    Dir,
    Symlink,
    Other,
}

/// One entry that the walk produced: its kind, and its real on-disk size when
/// the size probe succeeded.
#[derive(PartialEq, Eq, Structural, Clone, Copy, Debug)]
pub struct WalkedEntry {
    pub kind: EntryKind,
    pub real_size: Option<u64>,
}

/// What one walk item adds to the total: a regular file its real size, and
/// everything else nothing. A failed walk step (`None`) and a failed size probe
/// both degrade to zero.
pub open spec fn contribution_spec(item: Option<WalkedEntry>) -> nat {
    match item {
        Some(e) => match (e.kind, e.real_size) {
            (EntryKind::File, Some(n)) => n as nat,
            _ => 0,
        },
        None => 0,
    }
}

/// The exact sum of the contributions of the walk items.
pub open spec fn total_spec(items: Seq<Option<WalkedEntry>>) -> nat
    decreases items.len(),
{
    if items.len() == 0 {
        0
    } else {
        total_spec(items.drop_last()) + contribution_spec(items.last())
    }
}

/// A byte count held in a `u64`: a sum beyond `u64::MAX` stays at `u64::MAX`.
pub open spec fn saturate(n: nat) -> u64 {
    if n <= u64::MAX {
        n as u64
    } else {
        u64::MAX
    }
}

/// The degrade-to-zero policy for one walk item.
pub fn degrade_to_zero(item: &Option<WalkedEntry>) -> (r: u64)
    ensures
        r as nat == contribution_spec(*item),
{
    match item {
        Some(e) => match (e.kind, e.real_size) {
            (EntryKind::File, Some(n)) => n,
            _ => 0,
        },
        None => 0,
    }
}

/// A running byte total over walk items, fed one item at a time in whatever
/// order the walk yields them.
pub struct SizeTotal {
    total: u64,
    seen: Ghost<Seq<Option<WalkedEntry>>>,
}

impl SizeTotal {
    /// The items fed so far, in the order they came.
    pub closed spec fn seen(&self) -> Seq<Option<WalkedEntry>> {
        self.seen@
    }

    pub closed spec fn wf(&self) -> bool {
        self.total == saturate(total_spec(self.seen@))
    }

    pub fn new() -> (r: SizeTotal)
        ensures
            r.wf(),
            r.seen() == Seq::<Option<WalkedEntry>>::empty(),
    {
        SizeTotal { total: 0, seen: Ghost(Seq::empty()) }
    }

    /// Adds one walk item.
    pub fn add(&mut self, item: Option<WalkedEntry>)
        requires
            old(self).wf(),
        ensures
            final(self).wf(),
            final(self).seen() == old(self).seen().push(item),
    {
        let c = degrade_to_zero(&item);
        let ghost prev = self.seen@;
        proof {
            assert(prev.push(item).drop_last() =~= prev);
        }
        self.total = self.total.saturating_add(c);
        self.seen = Ghost(prev.push(item));
    }

    /// The total of the items fed so far.
    pub fn total(&self) -> (r: u64)
        requires
            self.wf(),
        ensures
            r == saturate(total_spec(self.seen())),
    {
        self.total
    }
}

/// The byte total of the items of one walk.
pub fn sum_walk(items: &Vec<Option<WalkedEntry>>) -> (r: u64)
    ensures
        r == saturate(total_spec(items@)),
{
    let mut acc = SizeTotal::new();
    let mut i: usize = 0;
    while i < items.len()
        invariant
            i <= items@.len(),
            acc.wf(),
            acc.seen() == items@.subrange(0, i as int),
        decreases items@.len() - i,
    {
        proof {
            assert(items@.subrange(0, i as int).push(items@[i as int]) =~= items@.subrange(
                0,
                i as int + 1,
            ));
        }
        acc.add(items[i]);
        i = i + 1;
    }
    proof {
        assert(items@.subrange(0, items@.len() as int) =~= items@);
    }
    acc.total()
}

/// Taking one item out of a walk lowers its total by that item's contribution.
pub proof fn lemma_total_remove(items: Seq<Option<WalkedEntry>>, j: int)
    requires
        0 <= j < items.len(),
    ensures
        total_spec(items) == total_spec(items.remove(j)) + contribution_spec(items[j]),
    decreases items.len(),
{
    if j == items.len() - 1 {
        assert(items.remove(j) =~= items.drop_last());
    } else {
        let init = items.drop_last();
        lemma_total_remove(init, j);
        assert(items.remove(j).drop_last() =~= init.remove(j));
        assert(items.remove(j).last() == items.last());
    }
}

/// The total does not depend on the order in which the walk produced its
/// items: two walks that yield the same items, in any order and from any
/// number of workers, have the same total.
pub proof fn lemma_total_order_independent(a: Seq<Option<WalkedEntry>>, b: Seq<Option<WalkedEntry>>)
    requires
        a.to_multiset() == b.to_multiset(),
    ensures
        total_spec(a) == total_spec(b),
    decreases a.len(),
{
    a.to_multiset_ensures();
    b.to_multiset_ensures();
    if a.len() == 0 {
        assert(b.len() == 0);
    } else {
        let x = a.last();
        let init = a.drop_last();
        assert(init.push(x) =~= a);
        init.to_multiset_ensures();
        assert(a.to_multiset().count(x) > 0);
        assert(b.contains(x));
        let j = choose|j: int| 0 <= j < b.len() && b[j] == x;
        let rest = b.remove(j);
        assert(rest.to_multiset() =~= init.to_multiset());
        lemma_total_order_independent(init, rest);
        lemma_total_remove(b, j);
    }
}

} // verus!
