//! Which immediate children of the scan root are skipped, by exact name or path.
use vstd::prelude::*;

verus! {

/// One immediate child of the scan root: its bare name and its full path.
pub struct RootEntry {
    pub name: String,
    pub path: String,
}

/// The set of exclusion strings holds the text `t` exactly.
pub open spec fn lists(set: Seq<String>, t: Seq<char>) -> bool {
    exists|i: int| 0 <= i < set.len() && set[i]@ == t
}

/// An entry is skipped when the set is not empty and holds its bare name or
/// its full path, compared as exact texts.
pub open spec fn excluded_spec(e: RootEntry, set: Seq<String>) -> bool {
    set.len() > 0 && (lists(set, e.name@) || lists(set, e.path@))
}

/// The entries that are scanned, in listing order.
pub open spec fn scanned_spec(entries: Seq<RootEntry>, set: Seq<String>) -> Seq<RootEntry> {
    entries.filter(|e: RootEntry| !excluded_spec(e, set))
}

/// The entries that are skipped, in listing order.
pub open spec fn skipped_spec(entries: Seq<RootEntry>, set: Seq<String>) -> Seq<RootEntry> {
    entries.filter(|e: RootEntry| excluded_spec(e, set))
}

impl RootEntry {
    pub fn new(name: String, path: String) -> (r: RootEntry)
        ensures
            r.name == name,
            r.path == path,
    {
        RootEntry { name, path }
    }

    /// An equal copy of the entry.
    pub fn duplicate(&self) -> (r: RootEntry)
        ensures
            r == *self,
    {
        RootEntry { name: self.name.clone(), path: self.path.clone() }
    }
}

fn contains_text(set: &Vec<String>, t: &String) -> (r: bool)
    ensures
        r == lists(set@, t@),
{
    let mut i: usize = 0;
    while i < set.len()
        invariant
            i <= set@.len(),
            forall|j: int| 0 <= j < i ==> set@[j]@ != t@,
        decreases set@.len() - i,
    {
        if set[i] == *t {
            return true;
        }
        i = i + 1;
    }
    false
}

/// Decides whether a root entry is skipped.
pub fn should_exclude(entry: &RootEntry, exclusions: &Vec<String>) -> (r: bool)
    ensures
        r == excluded_spec(*entry, exclusions@),
{
    if exclusions.len() == 0 {
        return false;
    }
    contains_text(exclusions, &entry.name) || contains_text(exclusions, &entry.path)
}

/// The root entries split into those to scan and those to skip.
pub struct ScanPlan {
    pub scan: Vec<RootEntry>,
    pub skipped: Vec<RootEntry>,
}

/// Splits the listed root entries by the exclusion set, keeping listing order
/// on both sides.
pub fn plan_scan(entries: &Vec<RootEntry>, exclusions: &Vec<String>) -> (r: ScanPlan)
    ensures
        r.scan@ == scanned_spec(entries@, exclusions@),
        r.skipped@ == skipped_spec(entries@, exclusions@),
{
    let mut scan: Vec<RootEntry> = Vec::new();
    let mut skipped: Vec<RootEntry> = Vec::new();
    let mut i: usize = 0;
    while i < entries.len()
        invariant
            i <= entries@.len(),
            scan@ == scanned_spec(entries@.subrange(0, i as int), exclusions@),
            skipped@ == skipped_spec(entries@.subrange(0, i as int), exclusions@),
        decreases entries@.len() - i,
    {
        let e = entries[i].duplicate();
        let ghost prefix = entries@.subrange(0, i as int);
        let ghost next = entries@.subrange(0, i as int + 1);
        proof {
            assert(next.drop_last() =~= prefix);
            assert(next.last() == e);
            reveal_with_fuel(Seq::filter, 1);
        }
        if should_exclude(&e, exclusions) {
            skipped.push(e);
        } else {
            scan.push(e);
        }
        i = i + 1;
    }
    proof {
        assert(entries@.subrange(0, entries@.len() as int) =~= entries@);
    }
    ScanPlan { scan, skipped }
}

/// No excluded entry is among those scanned, and each occurrence of an
/// excluded entry in the listing is skipped exactly once.
pub proof fn lemma_excluded_entries_skipped(entries: Seq<RootEntry>, set: Seq<String>, e: RootEntry)
    requires
        excluded_spec(e, set),
    ensures
        !scanned_spec(entries, set).contains(e),
        skipped_spec(entries, set).to_multiset().count(e) == entries.to_multiset().count(e),
    decreases entries.len(),
{
    reveal_with_fuel(Seq::filter, 1);
    if entries.len() > 0 {
        let init = entries.drop_last();
        let x = entries.last();
        lemma_excluded_entries_skipped(init, set, e);
        assert(init.push(x) =~= entries);
        init.to_multiset_ensures();
        skipped_spec(init, set).to_multiset_ensures();
        if !excluded_spec(x, set) {
            let s = scanned_spec(init, set);
            assert(scanned_spec(entries, set) == s.push(x));
            assert forall|j: int| 0 <= j < s.push(x).len() implies s.push(x)[j] != e by {
                if j < s.len() {
                    assert(s.contains(s[j]));
                }
            }
        }
    }
}

} // verus!
