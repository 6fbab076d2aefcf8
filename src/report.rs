//! Per-root scan results, their total order, and the sorted report.
use vstd::prelude::*;
use vstd::multiset::Multiset;

use crate::aggregate::{
    lemma_total_order_independent,
    saturate,
    sum_walk,
    total_spec,
    WalkedEntry,
};
use crate::size_class::{classify, classify_spec, SizeClass};
use crate::text_order::{
    lemma_text_le_antisymmetric,
    lemma_text_le_reflexive,
    lemma_text_le_total,
    lemma_text_le_transitive,
    text_le,
    text_le_exec,
};

verus! {

/// The human-readable text that the binary size formatter gives a byte count.
pub uninterp spec fn binary_size_text(bytes: u64) -> Seq<char>;

/// Relies on humansize::format_size with the BINARY options: its text is a
/// function of the byte count alone.
#[verifier::external_body]
fn format_size_binary(bytes: u64) -> (r: String)
    ensures
        r@ == binary_size_text(bytes),
{
    humansize::format_size(bytes, humansize::BINARY)
}

/// The outcome of scanning one root entry.
pub struct ScanResult {
    pub path: String,
    pub total_bytes: u64,
    pub size_class: SizeClass,
    pub formatted_size: String,
}

/// A scan result as values: size class, path, byte total, formatted size.
pub type ResultView = (SizeClass, Seq<char>, u64, Seq<char>);

impl View for ScanResult {
    type V = ResultView;

    open spec fn view(&self) -> ResultView {
        (self.size_class, self.path@, self.total_bytes, self.formatted_size@)
    }
}

impl ScanResult {
    /// A result whose size class is the one of its byte total.
    pub open spec fn wf(&self) -> bool {
        self.size_class == classify_spec(self.total_bytes)
    }

    /// Builds a result from a path, its byte total and the formatted size.
    pub fn new(path: String, total_bytes: u64, formatted_size: String) -> (r: ScanResult)
        ensures
            r.wf(),
            r@ == (classify_spec(total_bytes), path@, total_bytes, formatted_size@),
    {
        let size_class = classify(total_bytes);
        ScanResult { path, total_bytes, size_class, formatted_size }
    }
}

/// The result for a root entry whose walk came to `total_bytes`, with the
/// size formatted in binary units.
pub fn scan_result(path: String, total_bytes: u64) -> (r: ScanResult)
    ensures
        r.wf(),
        r@ == (classify_spec(total_bytes), path@, total_bytes, binary_size_text(total_bytes)),
{
    let formatted = format_size_binary(total_bytes);
    ScanResult::new(path, total_bytes, formatted)
}

/// Aggregates the items of one walk of the root entry at `path` into its result.
pub fn aggregate(path: String, items: &Vec<Option<WalkedEntry>>) -> (r: ScanResult)
    ensures
        r.wf(),
        r@ == aggregate_spec(path@, items@),
{
    let total = sum_walk(items);
    scan_result(path, total)
}

/// The result that `aggregate` gives a root whose walk yielded `items`.
pub open spec fn aggregate_spec(path: Seq<char>, items: Seq<Option<WalkedEntry>>) -> ResultView {
    let total = saturate(total_spec(items));
    (classify_spec(total), path, total, binary_size_text(total))
}

/// Scanning an unchanged root twice gives the same result, even when the two
/// walks yield its entries in different orders.
pub proof fn lemma_rescan_same_result(
    path: Seq<char>,
    first: Seq<Option<WalkedEntry>>,
    second: Seq<Option<WalkedEntry>>,
)
    requires
        first.to_multiset() == second.to_multiset(),
    ensures
        aggregate_spec(path, first) == aggregate_spec(path, second),
{
    lemma_total_order_independent(first, second);
}

/// The report order: by size class, then path, then byte total, then the
/// formatted size. The last two only part results that share class and path,
/// so that the order is total on results.
pub open spec fn view_le(x: ResultView, y: ResultView) -> bool {
    x.0.rank_spec() < y.0.rank_spec() || (x.0 == y.0 && ((text_le(x.1, y.1) && x.1 != y.1) || (
    x.1 == y.1 && (x.2 < y.2 || (x.2 == y.2 && text_le(x.3, y.3))))))
}

/// The views of a sequence of results.
pub open spec fn views(s: Seq<ScanResult>) -> Seq<ResultView> {
    s.map_values(|r: ScanResult| r@)
}

/// Ascending in the report order.
pub open spec fn sorted(s: Seq<ResultView>) -> bool {
    forall|i: int, j: int| 0 <= i < j < s.len() ==> view_le(s[i], s[j])
}

/// Any two results are comparable in the report order.
pub proof fn lemma_view_le_total(x: ResultView, y: ResultView)
    ensures
        view_le(x, y) || view_le(y, x),
{
    lemma_text_le_total(x.1, y.1);
    lemma_text_le_total(x.3, y.3);
}

/// Results that are each at most the other are the same result.
pub proof fn lemma_view_le_antisymmetric(x: ResultView, y: ResultView)
    requires
        view_le(x, y),
        view_le(y, x),
    ensures
        x == y,
{
    if x.0 == y.0 && x.1 == y.1 && x.2 == y.2 {
        lemma_text_le_antisymmetric(x.3, y.3);
    } else if x.0 == y.0 && x.1 != y.1 {
        lemma_text_le_antisymmetric(x.1, y.1);
    }
}

/// The report order is transitive.
pub proof fn lemma_view_le_transitive(x: ResultView, y: ResultView, z: ResultView)
    requires
        view_le(x, y),
        view_le(y, z),
    ensures
        view_le(x, z),
{
    if x.0 == y.0 && y.0 == z.0 {
        if x.1 == y.1 && y.1 == z.1 {
            if x.2 == y.2 && y.2 == z.2 {
                lemma_text_le_transitive(x.3, y.3, z.3);
            }
        } else if x.1 != y.1 && y.1 != z.1 {
            lemma_text_le_transitive(x.1, y.1, z.1);
            if x.1 == z.1 {
                lemma_text_le_antisymmetric(y.1, z.1);
            }
        }
    }
}

/// Compares two results in the report order.
pub fn result_le(x: &ScanResult, y: &ScanResult) -> (r: bool)
    ensures
        r == view_le(x@, y@),
{
    let rx = x.size_class.rank();
    let ry = y.size_class.rank();
    if rx != ry {
        return rx < ry;
    }
    proof {
        assert(x.size_class == y.size_class);
    }
    if x.path != y.path {
        return text_le_exec(&x.path, &y.path);
    }
    if x.total_bytes != y.total_bytes {
        return x.total_bytes < y.total_bytes;
    }
    text_le_exec(&x.formatted_size, &y.formatted_size)
}

proof fn lemma_multiset_of_empty(s: Seq<ResultView>)
    requires
        s.len() == 0,
    ensures
        s.to_multiset() == Multiset::<ResultView>::empty(),
{
    s.to_multiset_ensures();
    assert forall|v: ResultView| s.to_multiset().count(v) == 0 by {
        assert(!s.contains(v));
    }
    assert(s.to_multiset() =~= Multiset::<ResultView>::empty());
}

proof fn lemma_multiset_insert_at(s: Seq<ResultView>, p: int, v: ResultView)
    requires
        0 <= p <= s.len(),
    ensures
        s.insert(p, v).to_multiset() == s.to_multiset().insert(v),
{
    let t = s.insert(p, v);
    assert(t.remove(p) =~= s);
    t.to_multiset_ensures();
    assert(t[p] == v);
    assert(t.contains(v));
    assert(t.to_multiset() =~= s.to_multiset().insert(v));
}

/// Sorts results into the report order. The output holds the same results,
/// and since the order is total, it is the one ascending arrangement of them.
pub fn sort_report(results: Vec<ScanResult>) -> (r: Vec<ScanResult>)
    ensures
        sorted(views(r@)),
        views(r@).to_multiset() == views(results@).to_multiset(),
{
    let ghost whole = views(results@).to_multiset();
    let mut rest = results;
    let mut out: Vec<ScanResult> = Vec::new();
    proof {
        lemma_multiset_of_empty(views(out@));
        assert(views(out@).to_multiset().add(views(rest@).to_multiset()) =~= whole);
    }
    while rest.len() > 0
        invariant
            sorted(views(out@)),
            views(out@).to_multiset().add(views(rest@).to_multiset()) == whole,
        decreases rest@.len(),
    {
        let ghost before = rest@;
        let x = rest.pop().unwrap();
        proof {
            assert(views(before) =~= views(rest@).push(x@));
            views(rest@).to_multiset_ensures();
        }
        let mut p: usize = 0;
        while p < out.len() && result_le(&out[p], &x)
            invariant
                p <= out@.len(),
                forall|k: int| 0 <= k < p ==> view_le(out@[k]@, x@),
            decreases out@.len() - p,
        {
            p = p + 1;
        }
        let ghost vo = views(out@);
        proof {
            if p < out@.len() {
                lemma_view_le_total(out@[p as int]@, x@);
                assert forall|k: int| p <= k < vo.len() implies view_le(x@, vo[k]) by {
                    if k > p {
                        lemma_view_le_transitive(x@, vo[p as int], vo[k]);
                    }
                }
            }
        }
        out.insert(p, x);
        proof {
            let vn = views(out@);
            assert(vn =~= vo.insert(p as int, x@));
            assert forall|i: int, j: int| 0 <= i < j < vn.len() implies view_le(vn[i], vn[j]) by {
                if j < p {
                } else if i < p && j == p {
                } else if i < p {
                    lemma_view_le_transitive(vn[i], x@, vn[j]);
                } else if i == p {
                } else {
                }
            }
            lemma_multiset_insert_at(vo, p as int, x@);
            assert(vn.to_multiset().add(views(rest@).to_multiset()) =~= whole);
        }
    }
    proof {
        lemma_multiset_of_empty(views(rest@));
        assert(views(out@).to_multiset() =~= whole);
    }
    out
}

/// A sorted report is determined by the results it holds: whatever order the
/// results arrived in, sorting them gives the same rows, in the same order.
pub proof fn lemma_sorted_report_unique(a: Seq<ResultView>, b: Seq<ResultView>)
    requires
        sorted(a),
        sorted(b),
        a.to_multiset() == b.to_multiset(),
    ensures
        a == b,
    decreases a.len(),
{
    a.to_multiset_ensures();
    b.to_multiset_ensures();
    if a.len() == 0 {
        assert(b.len() == 0);
        assert(a =~= b);
    } else {
        assert(b.len() > 0);
        assert(a.to_multiset().count(a[0]) > 0);
        assert(b.contains(a[0]));
        assert(a.to_multiset().count(b[0]) > 0);
        assert(a.contains(b[0]));
        let ka = choose|k: int| 0 <= k < b.len() && b[k] == a[0];
        let kb = choose|k: int| 0 <= k < a.len() && a[k] == b[0];
        if ka > 0 {
            assert(view_le(b[0], b[ka]));
        }
        if kb > 0 {
            assert(view_le(a[0], a[kb]));
        }
        if ka > 0 && kb > 0 {
            lemma_view_le_antisymmetric(a[0], b[0]);
        }
        assert(a[0] == b[0]);
        let ra = a.remove(0);
        let rb = b.remove(0);
        assert(ra.to_multiset() =~= rb.to_multiset());
        lemma_sorted_report_unique(ra, rb);
        assert forall|i: int| 0 <= i < a.len() implies a[i] == b[i] by {
            if i > 0 {
                assert(a[i] == ra[i - 1]);
                assert(b[i] == rb[i - 1]);
            }
        }
        assert(a =~= b);
    }
}

/// Sorting results that arrived in two different orders gives the same report.
pub proof fn lemma_sort_report_deterministic(
    x: Seq<ScanResult>,
    y: Seq<ScanResult>,
    rx: Seq<ScanResult>,
    ry: Seq<ScanResult>,
)
    requires
        views(x).to_multiset() == views(y).to_multiset(),
        sorted(views(rx)),
        views(rx).to_multiset() == views(x).to_multiset(),
        sorted(views(ry)),
        views(ry).to_multiset() == views(y).to_multiset(),
    ensures
        views(rx) == views(ry),
{
    lemma_sorted_report_unique(views(rx), views(ry));
}

} // verus!
