//! Facts about the grouping algorithm that hold of every input: how many
//! records it yields and with which keys, what happens when one parent's rows
//! are not adjacent, how a run of rows folds, and how the single-relation lazy
//! query relates to the eager one.
use vstd::prelude::*;
use crate::grouping::{
    RowView, RecordView, SlotView, LazySlotView, Shape, grouped_eager, grouped_lazy, rows_fit,
    start_record, merge_record, merge_slot, absent_slot, init_lazy, apply_value,
};

verus! {

/// The primary keys of `rows`, in order.
pub open spec fn keys_of<B, V>(rows: Seq<RowView<B, V>>) -> Seq<i64> {
    rows.map(|i: int, r: RowView<B, V>| r.key)
}

/// The number of maximal runs of equal adjacent keys.
pub open spec fn run_count(keys: Seq<i64>) -> nat
    decreases keys.len(),
{
    if keys.len() == 0 {
        0
    } else if keys.len() > 1 && keys[keys.len() - 1] == keys[keys.len() - 2] {
        run_count(keys.drop_last())
    } else {
        run_count(keys.drop_last()) + 1
    }
}

/// The position of the run that row `i` belongs to.
pub open spec fn run_index<B, V>(rows: Seq<RowView<B, V>>, i: int) -> int {
    run_count(keys_of(rows).take(i + 1)) - 1
}

proof fn lemma_run_count_step(keys: Seq<i64>, p: int)
    requires
        0 <= p < keys.len(),
    ensures
        run_count(keys.take(p + 1)) == run_count(keys.take(p)) + (if p == 0 || keys[p] != keys[p - 1] {
            1int
        } else {
            0int
        }),
{
    assert(keys.take(p + 1).drop_last() =~= keys.take(p));
}

proof fn lemma_run_count_mono(keys: Seq<i64>, a: int, b: int)
    requires
        0 <= a <= b <= keys.len(),
    ensures
        run_count(keys.take(a)) <= run_count(keys.take(b)),
    decreases b - a,
{
    if a < b {
        lemma_run_count_mono(keys, a, b - 1);
        lemma_run_count_step(keys, b - 1);
    }
}

proof fn lemma_same_count_same_key(keys: Seq<i64>, i: int, m: int)
    requires
        0 <= i <= m < keys.len(),
        run_count(keys.take(i + 1)) == run_count(keys.take(m + 1)),
    ensures
        keys[m] == keys[i],
    decreases m - i,
{
    if i < m {
        lemma_run_count_mono(keys, i + 1, m);
        lemma_run_count_step(keys, m);
        lemma_same_count_same_key(keys, i, m - 1);
    }
}

/// Grouping yields one record per run of equal adjacent keys, and row `i`
/// lands in the record at `run_index(rows, i)`, which carries its key.
pub proof fn lemma_grouped_runs<B, V>(shapes: Seq<Shape>, rows: Seq<RowView<B, V>>)
    ensures
        grouped_eager(shapes, rows).len() == run_count(keys_of(rows)),
        forall|i: int|
            0 <= i < rows.len() ==> 0 <= #[trigger] run_index(rows, i) < grouped_eager(shapes, rows).len()
                && grouped_eager(shapes, rows)[run_index(rows, i)].key == rows[i].key,
    decreases rows.len(),
{
    let g = grouped_eager(shapes, rows);
    let n = rows.len() as int;
    if n > 0 {
        let rs = rows.drop_last();
        lemma_grouped_runs(shapes, rs);
        let keys = keys_of(rows);
        assert(keys_of(rs) =~= keys.drop_last());
        assert(keys.take(n) =~= keys);
        if n > 1 {
            assert(keys_of(rs).take(n - 1) =~= keys_of(rs));
            assert(run_index(rs, n - 2) == run_count(keys_of(rs)) - 1);
        }
        assert forall|i: int| 0 <= i < n implies 0 <= #[trigger] run_index(rows, i) < g.len()
            && g[run_index(rows, i)].key == rows[i].key by {
            if i < n - 1 {
                assert(keys_of(rs).take(i + 1) =~= keys.take(i + 1));
                assert(run_index(rows, i) == run_index(rs, i));
            }
        }
    }
}

/// When two rows of one parent are separated by a row of another parent, the
/// parent is split over two distinct records.
pub proof fn lemma_separated_rows_fragment<B, V>(shapes: Seq<Shape>, rows: Seq<RowView<B, V>>, i: int, m: int, j: int)
    requires
        0 <= i < m < j < rows.len(),
        rows[i].key == rows[j].key,
        rows[m].key != rows[i].key,
    ensures
        0 <= run_index(rows, i) < run_index(rows, j) < grouped_eager(shapes, rows).len(),
        grouped_eager(shapes, rows)[run_index(rows, i)].key == rows[i].key,
        grouped_eager(shapes, rows)[run_index(rows, j)].key == rows[i].key,
{
    let keys = keys_of(rows);
    lemma_grouped_runs(shapes, rows);
    assert(run_index(rows, i) < grouped_eager(shapes, rows).len());
    assert(run_index(rows, j) < grouped_eager(shapes, rows).len());
    lemma_run_count_mono(keys, i + 1, m + 1);
    lemma_run_count_mono(keys, m + 1, j + 1);
    if run_count(keys.take(i + 1)) == run_count(keys.take(m + 1)) {
        lemma_same_count_same_key(keys, i, m);
    }
}

/// The values present for relation `j` across `rows`, in row order.
pub open spec fn present_values<B, V>(rows: Seq<RowView<B, V>>, j: int) -> Seq<V>
    decreases rows.len(),
{
    if rows.len() == 0 {
        Seq::empty()
    } else {
        let prev = present_values(rows.drop_last(), j);
        match rows.last().values[j] {
            Some(x) => prev.push(x),
            None => prev,
        }
    }
}

/// Every row of `rows` has the same key.
pub open spec fn one_run<B, V>(rows: Seq<RowView<B, V>>) -> bool {
    rows.len() > 0 && forall|i: int| 0 <= i < rows.len() ==> (#[trigger] rows[i]).key == rows[0].key
}

/// The record one run of rows folds into: the first row's base and scalar
/// values, and for each list relation the present values in row order.
pub open spec fn run_record<B, V>(shapes: Seq<Shape>, rows: Seq<RowView<B, V>>) -> RecordView<B, V> {
    RecordView {
        key: rows[0].key,
        base: rows[0].base,
        slots: Seq::new(
            shapes.len(),
            |j: int|
                match shapes[j] {
                    Shape::One => SlotView::One(rows[0].values[j]),
                    Shape::Many => SlotView::Many(present_values(rows, j)),
                },
        ),
    }
}

proof fn lemma_present_concat<B, V>(a: Seq<RowView<B, V>>, b: Seq<RowView<B, V>>, j: int)
    ensures
        present_values(a + b, j) == present_values(a, j) + present_values(b, j),
    decreases b.len(),
{
    if b.len() == 0 {
        assert(a + b =~= a);
        assert(present_values(a, j) + present_values(b, j) =~= present_values(a, j));
    } else {
        lemma_present_concat(a, b.drop_last(), j);
        assert((a + b).drop_last() =~= a + b.drop_last());
        assert((a + b).last() == b.last());
        match b.last().values[j] {
            Some(x) => {
                assert(present_values(a, j) + present_values(b, j) =~= (present_values(a, j) + present_values(
                    b.drop_last(),
                    j,
                )).push(x));
            },
            None => {},
        }
    }
}

/// A run of rows sharing one key folds into a single record whose list
/// relations hold the run's present values in input order.
pub proof fn lemma_single_run<B, V>(shapes: Seq<Shape>, rows: Seq<RowView<B, V>>)
    requires
        one_run(rows),
        rows_fit(shapes, rows),
    ensures
        grouped_eager(shapes, rows) == seq![run_record(shapes, rows)],
    decreases rows.len(),
{
    let n = rows.len() as int;
    let rs = rows.drop_last();
    if n == 1 {
        assert(rs.len() == 0);
        assert(grouped_eager(shapes, rs) =~= Seq::<RecordView<B, V>>::empty());
        assert forall|j: int| 0 <= j < shapes.len() implies #[trigger] start_record(shapes, rows.last()).slots[j]
            == run_record(shapes, rows).slots[j] by {
            assert(present_values(rs, j) =~= Seq::<V>::empty());
            assert(rows.last() == rows[0]);
            if rows[0].values[j] is Some {
                assert(present_values(rows, j) =~= seq![rows[0].values[j]->Some_0]);
            }
        }
        assert(start_record(shapes, rows.last()).slots =~= run_record(shapes, rows).slots);
        assert(grouped_eager(shapes, rows) =~= seq![run_record(shapes, rows)]);
    } else {
        assert(rs[0] == rows[0]);
        assert(one_run(rs));
        lemma_single_run(shapes, rs);
        let prev = run_record(shapes, rs);
        assert(rows[n - 1].key == rows[0].key);
        assert(merge_record(prev, rows.last()).slots =~= run_record(shapes, rows).slots);
        assert(grouped_eager(shapes, rows) =~= seq![run_record(shapes, rows)]);
    }
}

/// The rows `a`, then `x` and `y`, then `b`.
pub open spec fn around<B, V>(a: Seq<RowView<B, V>>, x: RowView<B, V>, y: RowView<B, V>, b: Seq<RowView<B, V>>) -> Seq<RowView<B, V>> {
    a + seq![x, y] + b
}

/// Exchanging two adjacent rows of one run keeps a single record for the run
/// whose list relations hold the same values, only in the exchanged order.
pub proof fn lemma_swap_within_run<B, V>(
    shapes: Seq<Shape>,
    a: Seq<RowView<B, V>>,
    x: RowView<B, V>,
    y: RowView<B, V>,
    b: Seq<RowView<B, V>>,
)
    requires
        one_run(around(a, x, y, b)),
        rows_fit(shapes, around(a, x, y, b)),
    ensures
        grouped_eager(shapes, around(a, x, y, b)).len() == 1,
        grouped_eager(shapes, around(a, y, x, b)).len() == 1,
        forall|j: int|
            0 <= j < shapes.len() && shapes[j] == Shape::Many ==> {
                &&& grouped_eager(shapes, around(a, x, y, b))[0].slots[j] == SlotView::Many(
                    present_values(around(a, x, y, b), j),
                )
                &&& grouped_eager(shapes, around(a, y, x, b))[0].slots[j] == SlotView::Many(
                    present_values(around(a, y, x, b), j),
                )
                &&& (#[trigger] present_values(around(a, x, y, b), j)).to_multiset() == present_values(
                    around(a, y, x, b),
                    j,
                ).to_multiset()
            },
{
    let r1 = around(a, x, y, b);
    let r2 = around(a, y, x, b);
    let n = a.len() as int;
    assert(r1[n] == x && r1[n + 1] == y);
    assert(r2[n] == y && r2[n + 1] == x);
    assert forall|i: int| 0 <= i < r2.len() implies (#[trigger] r2[i]).key == r2[0].key
        && r2[i].values.len() == shapes.len() by {
        if i == n {
            assert(r1[n + 1] == r2[i]);
        } else if i == n + 1 {
            assert(r1[n] == r2[i]);
        } else {
            assert(r1[i] == r2[i]);
        }
        if n == 0 {
            assert(r2[0] == r1[1]);
        } else {
            assert(r2[0] == r1[0]);
        }
        assert(r1[i].key == r1[0].key);
    }
    lemma_single_run(shapes, r1);
    lemma_single_run(shapes, r2);
    assert forall|j: int| 0 <= j < shapes.len() && shapes[j] == Shape::Many implies (#[trigger] present_values(
        around(a, x, y, b),
        j,
    )).to_multiset() == present_values(r2, j).to_multiset() by {
        let xy: Seq<RowView<B, V>> = seq![x, y];
        let yx: Seq<RowView<B, V>> = seq![y, x];
        let sx: Seq<RowView<B, V>> = seq![x];
        let sy: Seq<RowView<B, V>> = seq![y];
        assert(xy =~= sx + sy);
        assert(yx =~= sy + sx);
        lemma_present_concat(a + xy, b, j);
        lemma_present_concat(a + yx, b, j);
        lemma_present_concat(a, xy, j);
        lemma_present_concat(a, yx, j);
        lemma_present_concat(sx, sy, j);
        lemma_present_concat(sy, sx, j);
        let pa = present_values(a, j);
        let pb = present_values(b, j);
        let px = present_values(sx, j);
        let py = present_values(sy, j);
        vstd::seq_lib::lemma_multiset_commutative(px, py);
        vstd::seq_lib::lemma_multiset_commutative(py, px);
        vstd::seq_lib::lemma_multiset_commutative(pa, px + py);
        vstd::seq_lib::lemma_multiset_commutative(pa, py + px);
        vstd::seq_lib::lemma_multiset_commutative(pa + (px + py), pb);
        vstd::seq_lib::lemma_multiset_commutative(pa + (py + px), pb);
        assert((px + py).to_multiset() =~= (py + px).to_multiset());
        assert(pa + (px + py) + pb == present_values(r1, j));
        assert(pa + (py + px) + pb == present_values(r2, j));
    }
}

/// All rows of a run carry the same base row and the same scalar relation
/// values, as a join against the run's parent gives them.
pub open spec fn shares_scalars<B, V>(shapes: Seq<Shape>, run: Seq<RowView<B, V>>) -> bool {
    forall|i: int|
        0 <= i < run.len() ==> (#[trigger] run[i]).base == run[0].base && forall|j: int|
            0 <= j < shapes.len() && shapes[j] == Shape::One ==> run[i].values[j] == run[0].values[j]
}

/// Re-ordering within one group, anywhere in the input: exchanging two adjacent
/// rows of a run bounded by other keys leaves every other record as it was;
/// the run's record keeps its key, base row and scalar relations, and each of
/// its list relations holds the same values. Any re-ordering within groups is
/// a sequence of such exchanges.
pub proof fn lemma_swap_in_context<B, V>(
    shapes: Seq<Shape>,
    pre: Seq<RowView<B, V>>,
    a: Seq<RowView<B, V>>,
    x: RowView<B, V>,
    y: RowView<B, V>,
    b: Seq<RowView<B, V>>,
    post: Seq<RowView<B, V>>,
)
    requires
        one_run(around(a, x, y, b)),
        shares_scalars(shapes, around(a, x, y, b)),
        rows_fit(shapes, pre + around(a, x, y, b) + post),
        pre.len() > 0 ==> pre.last().key != x.key,
        post.len() > 0 ==> post[0].key != x.key,
    ensures
        ({
            let g1 = grouped_eager(shapes, pre + around(a, x, y, b) + post);
            let g2 = grouped_eager(shapes, pre + around(a, y, x, b) + post);
            let m = grouped_eager(shapes, pre).len() as int;
            &&& g1.len() == g2.len()
            &&& m < g1.len()
            &&& forall|h: int| 0 <= h < g1.len() && h != m ==> #[trigger] g1[h] == g2[h]
            &&& g1[m].key == g2[m].key
            &&& g1[m].base == g2[m].base
            &&& g1[m].slots.len() == g2[m].slots.len()
            &&& forall|j: int|
                0 <= j < shapes.len() ==> (shapes[j] == Shape::One ==> #[trigger] g1[m].slots[j] == g2[m].slots[j])
                    && (shapes[j] == Shape::Many ==> g1[m].slots[j] == SlotView::Many(present_values(around(a, x, y, b), j))
                    && g2[m].slots[j] == SlotView::Many(present_values(around(a, y, x, b), j))
                    && present_values(around(a, x, y, b), j).to_multiset() == present_values(around(a, y, x, b), j).to_multiset())
        }),
{
    let r1 = around(a, x, y, b);
    let r2 = around(a, y, x, b);
    let n = a.len() as int;
    let all1 = pre + r1 + post;
    let all2 = pre + r2 + post;
    assert(r1[n] == x && r1[n + 1] == y);
    assert(r2[n] == y && r2[n + 1] == x);
    assert(r1.len() == r2.len());
    assert forall|i: int| 0 <= i < all2.len() implies (#[trigger] all2[i]).values.len() == shapes.len() by {
        let p = pre.len() as int;
        if p <= i < p + r1.len() {
            let k = i - p;
            assert(all2[i] == r2[k]);
            if k == n {
                assert(all1[p + n + 1] == y);
            } else if k == n + 1 {
                assert(all1[p + n] == x);
            } else {
                assert(r1[k] == r2[k]);
                assert(all1[i] == r1[k]);
            }
        } else {
            assert(all1[i] == all2[i]);
        }
    }
    assert forall|i: int| 0 <= i < r2.len() implies (#[trigger] r2[i]).key == r2[0].key by {
        if i == n {
            assert(r1[n + 1] == r2[i]);
        } else if i == n + 1 {
            assert(r1[n] == r2[i]);
        } else {
            assert(r1[i] == r2[i]);
        }
        if n == 0 {
            assert(r2[0] == r1[1]);
        } else {
            assert(r2[0] == r1[0]);
        }
        assert(r1[i].key == r1[0].key);
    }
    assert(r1[0].key == x.key);
    assert(r2[0].key == x.key) by {
        if n == 0 {
            assert(r2[0] == y);
        } else {
            assert(r2[0] == r1[0]);
        }
    }
    assert forall|i: int| 0 <= i < r1.len() implies (#[trigger] r1[i]).values.len() == shapes.len() by {
        assert(all1[pre.len() + i] == r1[i]);
    }
    lemma_run_in_context(shapes, pre, r1, post);
    lemma_run_in_context(shapes, pre, r2, post);
    lemma_swap_within_run(shapes, a, x, y, b);
    let gp = grouped_eager(shapes, pre);
    let gq = grouped_eager(shapes, post);
    let g1 = grouped_eager(shapes, all1);
    let g2 = grouped_eager(shapes, all2);
    let m = gp.len() as int;
    assert(g1[m] == run_record(shapes, r1));
    assert(g2[m] == run_record(shapes, r2));
    assert(r2[0].base == r1[0].base && forall|j: int|
        0 <= j < shapes.len() && shapes[j] == Shape::One ==> r2[0].values[j] == r1[0].values[j]) by {
        if n == 0 {
            assert(r2[0] == r1[1]);
        } else {
            assert(r2[0] == r1[0]);
        }
    }
    assert forall|h: int| 0 <= h < g1.len() && h != m implies #[trigger] g1[h] == g2[h] by {
        if h < m {
            assert(g1[h] == gp[h]);
        } else {
            assert(g1[h] == gq[h - m - 1]);
        }
    }
}

/// Rows already grouped into runs fold run by run: when `a` ends with a key
/// other than the one `b` starts with, grouping `a + b` is grouping `a`, then `b`.
pub proof fn lemma_grouped_concat<B, V>(shapes: Seq<Shape>, a: Seq<RowView<B, V>>, b: Seq<RowView<B, V>>)
    requires
        a.len() > 0,
        b.len() > 0,
        a.last().key != b[0].key,
    ensures
        grouped_eager(shapes, a + b) == grouped_eager(shapes, a) + grouped_eager(shapes, b),
    decreases b.len(),
{
    let ga = grouped_eager(shapes, a);
    lemma_grouped_runs(shapes, a);
    assert(keys_of(a).take(a.len() as int) =~= keys_of(a));
    assert(run_index(a, a.len() - 1) == ga.len() - 1);
    assert(ga.last().key == a.last().key);
    let bs = b.drop_last();
    assert((a + b).drop_last() =~= a + bs);
    assert((a + b).last() == b.last());
    if b.len() == 1 {
        assert(a + bs =~= a);
        assert(grouped_eager(shapes, b) =~= seq![start_record(shapes, b.last())]);
        assert(grouped_eager(shapes, a + b) =~= ga + grouped_eager(shapes, b));
    } else {
        assert(bs[0] == b[0]);
        lemma_grouped_concat(shapes, a, bs);
        let gb = grouped_eager(shapes, bs);
        lemma_grouped_runs(shapes, bs);
        assert(run_index(bs, 0) < gb.len());
        assert((ga + gb).last() == gb.last());
        assert(grouped_eager(shapes, a + b) =~= ga + grouped_eager(shapes, b));
    }
}

/// Every record carries the key of some row.
pub proof fn lemma_grouped_keys<B, V>(shapes: Seq<Shape>, rows: Seq<RowView<B, V>>)
    ensures
        forall|g: int|
            0 <= g < grouped_eager(shapes, rows).len() ==> exists|i: int|
                0 <= i < rows.len() && rows[i].key == (#[trigger] grouped_eager(shapes, rows)[g]).key,
    decreases rows.len(),
{
    if rows.len() > 0 {
        let rs = rows.drop_last();
        lemma_grouped_keys(shapes, rs);
        let pe = grouped_eager(shapes, rs);
        let ge = grouped_eager(shapes, rows);
        assert forall|g: int| 0 <= g < ge.len() implies exists|i: int|
            0 <= i < rows.len() && rows[i].key == (#[trigger] ge[g]).key by {
            if g < pe.len() {
                assert(ge[g].key == pe[g].key);
                let i = choose|i: int| 0 <= i < rs.len() && rs[i].key == pe[g].key;
                assert(rows[i] == rs[i]);
            } else {
                assert(rows[rows.len() - 1].key == ge[g].key);
            }
        }
    }
}

/// The single-relation query yields one lazy record per run of equal
/// adjacent keys, and row `i` lands in the record at `run_index(rows, i)`,
/// which carries its key.
pub proof fn lemma_lazy_runs<B, V>(shapes: Seq<Shape>, j: int, rows: Seq<RowView<B, V>>)
    ensures
        grouped_lazy(shapes, j, rows).len() == run_count(keys_of(rows)),
        forall|i: int|
            0 <= i < rows.len() ==> 0 <= #[trigger] run_index(rows, i) < grouped_lazy(shapes, j, rows).len()
                && grouped_lazy(shapes, j, rows)[run_index(rows, i)].key == rows[i].key,
    decreases rows.len(),
{
    let g = grouped_lazy(shapes, j, rows);
    let n = rows.len() as int;
    if n > 0 {
        let rs = rows.drop_last();
        lemma_lazy_runs(shapes, j, rs);
        let keys = keys_of(rows);
        assert(keys_of(rs) =~= keys.drop_last());
        assert(keys.take(n) =~= keys);
        if n > 1 {
            assert(keys_of(rs).take(n - 1) =~= keys_of(rs));
            assert(run_index(rs, n - 2) == run_count(keys_of(rs)) - 1);
        }
        assert forall|i: int| 0 <= i < n implies 0 <= #[trigger] run_index(rows, i) < g.len()
            && g[run_index(rows, i)].key == rows[i].key by {
            if i < n - 1 {
                assert(keys_of(rs).take(i + 1) =~= keys.take(i + 1));
                assert(run_index(rows, i) == run_index(rs, i));
            }
        }
    }
}

/// The single-relation query splits a parent the same way: two rows of one
/// parent separated by a row of another parent land in two distinct lazy
/// records.
pub proof fn lemma_separated_rows_fragment_lazy<B, V>(
    shapes: Seq<Shape>,
    j: int,
    rows: Seq<RowView<B, V>>,
    i: int,
    m: int,
    k: int,
)
    requires
        0 <= i < m < k < rows.len(),
        rows[i].key == rows[k].key,
        rows[m].key != rows[i].key,
    ensures
        0 <= run_index(rows, i) < run_index(rows, k) < grouped_lazy(shapes, j, rows).len(),
        grouped_lazy(shapes, j, rows)[run_index(rows, i)].key == rows[i].key,
        grouped_lazy(shapes, j, rows)[run_index(rows, k)].key == rows[i].key,
{
    let keys = keys_of(rows);
    lemma_lazy_runs(shapes, j, rows);
    assert(run_index(rows, i) < grouped_lazy(shapes, j, rows).len());
    assert(run_index(rows, k) < grouped_lazy(shapes, j, rows).len());
    lemma_run_count_mono(keys, i + 1, m + 1);
    lemma_run_count_mono(keys, m + 1, k + 1);
    if run_count(keys.take(i + 1)) == run_count(keys.take(m + 1)) {
        lemma_same_count_same_key(keys, i, m);
    }
}

/// A run of rows bounded by other keys folds into one record of its own,
/// whatever surrounds it: grouping `pre + run + post` is grouping `pre`, the
/// run's record (list relations holding the run's present values in input
/// order), then grouping `post`.
pub proof fn lemma_run_in_context<B, V>(
    shapes: Seq<Shape>,
    pre: Seq<RowView<B, V>>,
    run: Seq<RowView<B, V>>,
    post: Seq<RowView<B, V>>,
)
    requires
        one_run(run),
        rows_fit(shapes, pre + run + post),
        pre.len() > 0 ==> pre.last().key != run[0].key,
        post.len() > 0 ==> post[0].key != run[0].key,
    ensures
        grouped_eager(shapes, pre + run + post) == grouped_eager(shapes, pre) + seq![run_record(shapes, run)]
            + grouped_eager(shapes, post),
{
    let all = pre + run + post;
    assert forall|i: int| 0 <= i < run.len() implies (#[trigger] run[i]).values.len() == shapes.len() by {
        assert(all[pre.len() + i] == run[i]);
    }
    lemma_single_run(shapes, run);
    let gr = grouped_eager(shapes, run);
    if pre.len() > 0 {
        lemma_grouped_concat(shapes, pre, run);
    } else {
        assert(pre + run =~= run);
        assert(grouped_eager(shapes, pre) =~= Seq::<RecordView<B, V>>::empty());
        assert(grouped_eager(shapes, pre) + gr =~= gr);
    }
    assert(grouped_eager(shapes, pre + run) == grouped_eager(shapes, pre) + gr);
    if post.len() > 0 {
        assert((pre + run).last() == run.last());
        assert(run.last().key == run[0].key);
        lemma_grouped_concat(shapes, pre + run, post);
        assert(all =~= (pre + run) + post);
    } else {
        assert(all =~= pre + run);
        assert(grouped_eager(shapes, post) =~= Seq::<RecordView<B, V>>::empty());
        assert(grouped_eager(shapes, pre + run) + grouped_eager(shapes, post) =~= grouped_eager(shapes, pre + run));
    }
}

/// An entity with one list relation, among other parents: when parent `P`'s
/// `k` rows are adjacent and no other row has `P`'s key, exactly one record
/// has that key, and its list holds the `k` children in encounter order.
pub proof fn lemma_round_trip_among_parents<B, V>(
    pre: Seq<RowView<B, V>>,
    run: Seq<RowView<B, V>>,
    post: Seq<RowView<B, V>>,
)
    requires
        one_run(run),
        forall|i: int| 0 <= i < run.len() ==> (#[trigger] run[i]).values.len() == 1 && run[i].values[0] is Some,
        forall|i: int| 0 <= i < pre.len() ==> (#[trigger] pre[i]).values.len() == 1 && pre[i].key != run[0].key,
        forall|i: int| 0 <= i < post.len() ==> (#[trigger] post[i]).values.len() == 1 && post[i].key != run[0].key,
    ensures
        ({
            let g = grouped_eager(seq![Shape::Many], pre + run + post);
            let m = grouped_eager(seq![Shape::Many], pre).len() as int;
            &&& m < g.len()
            &&& g[m].key == run[0].key
            &&& g[m].slots[0] == SlotView::Many(run.map(|i: int, r: RowView<B, V>| r.values[0]->Some_0))
            &&& run.map(|i: int, r: RowView<B, V>| r.values[0]->Some_0).len() == run.len()
            &&& forall|h: int| 0 <= h < g.len() && h != m ==> (#[trigger] g[h]).key != run[0].key
        }),
{
    let shapes = seq![Shape::Many];
    let all = pre + run + post;
    assert forall|i: int| 0 <= i < all.len() implies (#[trigger] all[i]).values.len() == shapes.len() by {
        if i < pre.len() {
            assert(all[i] == pre[i]);
        } else if i < pre.len() + run.len() {
            assert(all[i] == run[i - pre.len()]);
        } else {
            assert(all[i] == post[i - pre.len() - run.len()]);
        }
    }
    if pre.len() > 0 {
        assert(pre.last() == pre[pre.len() - 1]);
    }
    lemma_run_in_context(shapes, pre, run, post);
    lemma_present_all(run);
    let gp = grouped_eager(shapes, pre);
    let gq = grouped_eager(shapes, post);
    let g = grouped_eager(shapes, all);
    lemma_grouped_keys(shapes, pre);
    lemma_grouped_keys(shapes, post);
    let m = gp.len() as int;
    assert forall|h: int| 0 <= h < g.len() && h != m implies (#[trigger] g[h]).key != run[0].key by {
        if h < m {
            assert(g[h] == gp[h]);
            let i = choose|i: int| 0 <= i < pre.len() && pre[i].key == gp[h].key;
        } else {
            assert(g[h] == gq[h - m - 1]);
            let i = choose|i: int| 0 <= i < post.len() && post[i].key == gq[h - m - 1].key;
        }
    }
}

/// An entity with one list relation: `k` rows of one parent, each carrying a
/// child, give one record whose list holds the `k` children in encounter order.
pub proof fn lemma_one_to_many_round_trip<B, V>(rows: Seq<RowView<B, V>>)
    requires
        one_run(rows),
        forall|i: int| 0 <= i < rows.len() ==> (#[trigger] rows[i]).values.len() == 1 && rows[i].values[0] is Some,
    ensures
        grouped_eager(seq![Shape::Many], rows).len() == 1,
        grouped_eager(seq![Shape::Many], rows)[0].slots[0] == SlotView::Many(
            rows.map(|i: int, r: RowView<B, V>| r.values[0]->Some_0),
        ),
        rows.map(|i: int, r: RowView<B, V>| r.values[0]->Some_0).len() == rows.len(),
{
    let shapes = seq![Shape::Many];
    lemma_single_run(shapes, rows);
    lemma_present_all(rows);
}

proof fn lemma_present_all<B, V>(rows: Seq<RowView<B, V>>)
    requires
        forall|i: int| 0 <= i < rows.len() ==> (#[trigger] rows[i]).values.len() == 1 && rows[i].values[0] is Some,
    ensures
        present_values(rows, 0) == rows.map(|i: int, r: RowView<B, V>| r.values[0]->Some_0),
    decreases rows.len(),
{
    if rows.len() > 0 {
        let rs = rows.drop_last();
        lemma_present_all(rs);
        assert(rows.map(|i: int, r: RowView<B, V>| r.values[0]->Some_0) =~= rs.map(
            |i: int, r: RowView<B, V>| r.values[0]->Some_0,
        ).push(rows.last().values[0]->Some_0));
    } else {
        assert(rows.map(|i: int, r: RowView<B, V>| r.values[0]->Some_0) =~= Seq::<V>::empty());
    }
}

/// The rows of the query that joins relation `j` alone, taken from the rows of
/// the query that joins every relation.
pub open spec fn project<B, V>(rows: Seq<RowView<B, V>>, j: int) -> Seq<RowView<B, V>> {
    rows.map(|i: int, r: RowView<B, V>| RowView { key: r.key, base: r.base, values: seq![r.values[j]] })
}

/// How an eager slot reads as a lazy slot: an empty list is an absent one.
pub open spec fn as_lazy<V>(s: SlotView<V>) -> LazySlotView<V> {
    match s {
        SlotView::One(x) => LazySlotView::One(x),
        SlotView::Many(l) => LazySlotView::Many(if l.len() == 0 { None } else { Some(l) }),
    }
}

/// Relation `j` carries one value throughout each run of equal keys, as a
/// many-to-one join gives it.
pub open spec fn constant_in_runs<B, V>(rows: Seq<RowView<B, V>>, j: int) -> bool {
    forall|i: int|
        0 < i < rows.len() && (#[trigger] rows[i]).key == rows[i - 1].key ==> rows[i].values[j] == rows[i
            - 1].values[j]
}

/// The single-relation lazy query and the eager query, run over the same
/// rows, agree record by record on keys, base rows and relation `j`; the lazy
/// records leave every other relation absent. A scalar relation is asked to be
/// constant within each run, since the eager record keeps the run's first
/// value and the lazy one its last.
pub proof fn lemma_lazy_matches_eager<B, V>(shapes: Seq<Shape>, j: int, rows: Seq<RowView<B, V>>)
    requires
        0 <= j < shapes.len(),
        rows_fit(shapes, rows),
        shapes[j] == Shape::One ==> constant_in_runs(rows, j),
    ensures
        grouped_lazy(shapes, j, project(rows, j)).len() == grouped_eager(shapes, rows).len(),
        forall|g: int|
            0 <= g < grouped_eager(shapes, rows).len() ==> {
                let l = #[trigger] grouped_lazy(shapes, j, project(rows, j))[g];
                let e = grouped_eager(shapes, rows)[g];
                &&& l.key == e.key
                &&& l.base == e.base
                &&& l.slots.len() == shapes.len()
                &&& l.slots[j] == as_lazy(e.slots[j])
                &&& forall|k: int| 0 <= k < shapes.len() && k != j ==> l.slots[k] == absent_slot::<V>(shapes[k])
            },
        rows.len() > 0 && shapes[j] == Shape::One ==> grouped_eager(shapes, rows).last().slots[j] == SlotView::One(
            rows.last().values[j],
        ),
    decreases rows.len(),
{
    let p = project(rows, j);
    let ge = grouped_eager(shapes, rows);
    let gl = grouped_lazy(shapes, j, p);
    if rows.len() > 0 {
        let rs = rows.drop_last();
        assert(project(rs, j) =~= p.drop_last());
        lemma_lazy_matches_eager(shapes, j, rs);
        let pe = grouped_eager(shapes, rs);
        let pl = grouped_lazy(shapes, j, project(rs, j));
        let r = rows.last();
        let v = r.values[j];
        assert(p.last().values[0] == v);
        assert(p.last().key == r.key);
        if pe.len() > 0 && pe.last().key == r.key {
            let e = merge_record(pe.last(), r);
            let l = apply_value(pl.last(), j, v);
            assert(pe.last().slots.len() == shapes.len()) by {
                lemma_grouped_slots(shapes, rs);
            }
            if shapes[j] == Shape::One {
                lemma_grouped_runs(shapes, rs);
                assert(keys_of(rs).take(rs.len() as int) =~= keys_of(rs));
                assert(rows[rows.len() - 1].key == rows[rows.len() - 2].key);
            }
            let g0 = pe.len() - 1;
            assert(pl[g0].slots[j] == as_lazy(pe[g0].slots[j]));
            lemma_grouped_slots(shapes, rs);
            assert(pe[g0].slots.len() == shapes.len());
            assert(pe[g0].slots[j] is One <==> shapes[j] == Shape::One);
            assert(e.slots[j] == merge_slot(pe[g0].slots[j], v));
            match pe[g0].slots[j] {
                SlotView::One(x0) => {
                    assert(run_index(rs, rs.len() - 1) == g0);
                    assert(rs.last() == rows[rows.len() - 2]);
                    assert(x0 == rs.last().values[j]);
                    assert(v == x0);
                },
                SlotView::Many(l0) => {
                    if let Some(x) = v {
                        if l0.len() == 0 {
                            assert(l0.push(x) =~= seq![x]);
                        }
                    }
                },
            }
            assert(l.slots[j] == as_lazy(e.slots[j]));
            assert(ge =~= pe.update(pe.len() - 1, e));
            assert(gl =~= pl.update(pl.len() - 1, l));
        } else {
            let e = start_record(shapes, r);
            let l = apply_value(init_lazy::<B, V>(shapes, r.key, r.base), j, v);
            assert(l.slots[j] == as_lazy(e.slots[j]));
            assert(ge =~= pe.push(e));
            assert(gl =~= pl.push(l));
        }
    }
}

/// Every record that grouping yields has one slot per relation, of the
/// relation's shape.
pub proof fn lemma_grouped_slots<B, V>(shapes: Seq<Shape>, rows: Seq<RowView<B, V>>)
    ensures
        forall|g: int|
            0 <= g < grouped_eager(shapes, rows).len() ==> {
                let e = #[trigger] grouped_eager(shapes, rows)[g];
                &&& e.slots.len() == shapes.len()
                &&& forall|k: int| 0 <= k < shapes.len() ==> (e.slots[k] is One <==> shapes[k] == Shape::One)
            },
    decreases rows.len(),
{
    if rows.len() > 0 {
        let rs = rows.drop_last();
        lemma_grouped_slots(shapes, rs);
        let pe = grouped_eager(shapes, rs);
        let r = rows.last();
        let ge = grouped_eager(shapes, rows);
        if pe.len() > 0 && pe.last().key == r.key {
            let e = merge_record(pe.last(), r);
            assert(pe[pe.len() - 1].slots.len() == shapes.len());
            assert(ge =~= pe.update(pe.len() - 1, e));
        } else {
            assert(ge =~= pe.push(start_record(shapes, r)));
        }
    }
}

/// A lazy record after push-or-set calls, each naming a relation and a value.
pub open spec fn after_pushes<B, V>(rec: crate::grouping::LazyView<B, V>, pushes: Seq<(int, V)>) -> crate::grouping::LazyView<B, V>
    decreases pushes.len(),
{
    if pushes.len() == 0 {
        rec
    } else {
        let p = pushes.last();
        apply_value(after_pushes(rec, pushes.drop_last()), p.0, Some(p.1))
    }
}

/// A relation of a lazy record that no push-or-set call named stays absent:
/// `None` for a scalar relation, not an empty list for a list relation.
pub proof fn lemma_untouched_slot_absent<B, V>(shapes: Seq<Shape>, key: i64, base: B, pushes: Seq<(int, V)>, j: int)
    requires
        0 <= j < shapes.len(),
        forall|i: int| 0 <= i < pushes.len() ==> 0 <= (#[trigger] pushes[i]).0 < shapes.len() && pushes[i].0 != j,
    ensures
        after_pushes(init_lazy::<B, V>(shapes, key, base), pushes).slots[j] == absent_slot::<V>(shapes[j]),
        after_pushes(init_lazy::<B, V>(shapes, key, base), pushes).slots.len() == shapes.len(),
    decreases pushes.len(),
{
    if pushes.len() > 0 {
        lemma_untouched_slot_absent(shapes, key, base, pushes.drop_last(), j);
    }
}

} // verus!
