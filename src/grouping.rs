//! The grouping algorithm that the generated query functions run: a flat,
//! joined result set is folded into one record per contiguous run of rows that
//! share a primary key. Eager records hold every relation; lazy records start
//! empty and are filled one relation value at a time.
use vstd::prelude::*;

verus! {

/// Whether a relation yields one related value or a list of them.
#[derive(Clone, Copy, Debug, PartialEq, Eq, Structural)]
pub enum Shape {
    One,
    Many,
}

/// One row of a joined query: the base row's primary key, the base row, and
/// one (possibly absent, when left-joined) value per joined relation.
pub struct JoinedRow<B, V> {
    pub key: i64,
    pub base: B,
    pub values: Vec<Option<V>>,
}

/// A row of a query that joins exactly one relation.
pub struct SingleRow<B, V> {
    pub key: i64,
    pub base: B,
    pub value: Option<V>,
}

/// The relation slot of an eager record.
pub enum Slot<V> {
    One(Option<V>),
    Many(Vec<V>),
}

/// The relation slot of a lazy record: absent until a value is pushed or set.
pub enum LazySlot<V> {
    One(Option<V>),
    Many(Option<Vec<V>>),
}

/// An eager aggregate: a base row with every relation fully loaded.
pub struct EagerRecord<B, V> {
    pub key: i64,
    pub base: B,
    pub slots: Vec<Slot<V>>,
}

/// A lazy aggregate: a base row whose relation slots are filled incrementally.
pub struct LazyRecord<B, V> {
    pub key: i64,
    pub base: B,
    pub slots: Vec<LazySlot<V>>,
}

pub struct RowView<B, V> {
    pub key: i64,
    pub base: B,
    pub values: Seq<Option<V>>,
}

pub enum SlotView<V> {
    One(Option<V>),
    Many(Seq<V>),
}

pub enum LazySlotView<V> {
    One(Option<V>),
    Many(Option<Seq<V>>),
}

pub struct RecordView<B, V> {
    pub key: i64,
    pub base: B,
    pub slots: Seq<SlotView<V>>,
}

pub struct LazyView<B, V> {
    pub key: i64,
    pub base: B,
    pub slots: Seq<LazySlotView<V>>,
}

impl<B, V> View for JoinedRow<B, V> {
    type V = RowView<B, V>;

    open spec fn view(&self) -> RowView<B, V> {
        RowView { key: self.key, base: self.base, values: self.values@ }
    }
}

impl<V> View for Slot<V> {
    type V = SlotView<V>;

    open spec fn view(&self) -> SlotView<V> {
        match self {
            Slot::One(x) => SlotView::One(*x),
            Slot::Many(l) => SlotView::Many(l@),
        }
    }
}

impl<V> View for LazySlot<V> {
    type V = LazySlotView<V>;

    open spec fn view(&self) -> LazySlotView<V> {
        match self {
            LazySlot::One(x) => LazySlotView::One(*x),
            LazySlot::Many(None) => LazySlotView::Many(None),
            LazySlot::Many(Some(l)) => LazySlotView::Many(Some(l@)),
        }
    }
}

impl<B, V> View for EagerRecord<B, V> {
    type V = RecordView<B, V>;

    open spec fn view(&self) -> RecordView<B, V> {
        RecordView { key: self.key, base: self.base, slots: self.slots@.map(|i: int, s: Slot<V>| s@) }
    }
}

impl<B, V> View for LazyRecord<B, V> {
    type V = LazyView<B, V>;

    open spec fn view(&self) -> LazyView<B, V> {
        LazyView {
            key: self.key,
            base: self.base,
            slots: self.slots@.map(|i: int, s: LazySlot<V>| s@),
        }
    }
}

pub open spec fn rows_view<B, V>(rows: Seq<JoinedRow<B, V>>) -> Seq<RowView<B, V>> {
    rows.map(|i: int, r: JoinedRow<B, V>| r@)
}

pub open spec fn single_rows_view<B, V>(rows: Seq<SingleRow<B, V>>) -> Seq<RowView<B, V>> {
    rows.map(|i: int, r: SingleRow<B, V>| RowView { key: r.key, base: r.base, values: seq![r.value] })
}

pub open spec fn records_view<B, V>(rs: Seq<EagerRecord<B, V>>) -> Seq<RecordView<B, V>> {
    rs.map(|i: int, r: EagerRecord<B, V>| r@)
}

pub open spec fn lazies_view<B, V>(rs: Seq<LazyRecord<B, V>>) -> Seq<LazyView<B, V>> {
    rs.map(|i: int, r: LazyRecord<B, V>| r@)
}

/// Every row carries exactly one value per relation.
pub open spec fn rows_fit<B, V>(shapes: Seq<Shape>, rows: Seq<RowView<B, V>>) -> bool {
    forall|i: int| 0 <= i < rows.len() ==> (#[trigger] rows[i]).values.len() == shapes.len()
}

/// The slot a new group starts with: a scalar relation takes the value as it
/// is, a list relation a one-element list, or an empty one when absent.
pub open spec fn start_slot<V>(shape: Shape, v: Option<V>) -> SlotView<V> {
    match shape {
        Shape::One => SlotView::One(v),
        Shape::Many => SlotView::Many(
            match v {
                Some(x) => seq![x],
                None => Seq::empty(),
            },
        ),
    }
}

/// A continuation row appends its value to list relations and leaves scalar
/// relations as the first row of the group set them.
pub open spec fn merge_slot<V>(s: SlotView<V>, v: Option<V>) -> SlotView<V> {
    match s {
        SlotView::One(x) => SlotView::One(x),
        SlotView::Many(l) => SlotView::Many(
            match v {
                Some(x) => l.push(x),
                None => l,
            },
        ),
    }
}

pub open spec fn start_record<B, V>(shapes: Seq<Shape>, r: RowView<B, V>) -> RecordView<B, V> {
    RecordView {
        key: r.key,
        base: r.base,
        slots: Seq::new(shapes.len(), |j: int| start_slot(shapes[j], r.values[j])),
    }
}

pub open spec fn merge_record<B, V>(a: RecordView<B, V>, r: RowView<B, V>) -> RecordView<B, V> {
    RecordView {
        key: a.key,
        base: a.base,
        slots: Seq::new(a.slots.len(), |j: int| merge_slot(a.slots[j], r.values[j])),
    }
}

/// The eager records that grouping `rows` yields: a row whose key equals the
/// key of the record built last is merged into it, any other row starts a new
/// record.
pub open spec fn grouped_eager<B, V>(shapes: Seq<Shape>, rows: Seq<RowView<B, V>>) -> Seq<RecordView<B, V>>
    decreases rows.len(),
{
    if rows.len() == 0 {
        Seq::empty()
    } else {
        let prev = grouped_eager(shapes, rows.drop_last());
        let r = rows.last();
        if prev.len() > 0 && prev.last().key == r.key {
            prev.update(prev.len() - 1, merge_record(prev.last(), r))
        } else {
            prev.push(start_record(shapes, r))
        }
    }
}

/// The empty slot a lazy record starts with.
pub open spec fn absent_slot<V>(shape: Shape) -> LazySlotView<V> {
    match shape {
        Shape::One => LazySlotView::One(None),
        Shape::Many => LazySlotView::Many(None),
    }
}

/// Push-or-set: a list slot gets the value appended (a one-element list when
/// absent); a scalar slot is overwritten.
pub open spec fn push_or_set_slot<V>(s: LazySlotView<V>, v: V) -> LazySlotView<V> {
    match s {
        LazySlotView::One(_) => LazySlotView::One(Some(v)),
        LazySlotView::Many(None) => LazySlotView::Many(Some(seq![v])),
        LazySlotView::Many(Some(l)) => LazySlotView::Many(Some(l.push(v))),
    }
}

pub open spec fn init_lazy<B, V>(shapes: Seq<Shape>, key: i64, base: B) -> LazyView<B, V> {
    LazyView { key, base, slots: Seq::new(shapes.len(), |j: int| absent_slot(shapes[j])) }
}

/// Relation `j` of `a` after a row with value `v`: pushed when present,
/// untouched when absent.
pub open spec fn apply_value<B, V>(a: LazyView<B, V>, j: int, v: Option<V>) -> LazyView<B, V> {
    match v {
        Some(x) => LazyView { slots: a.slots.update(j, push_or_set_slot(a.slots[j], x)), ..a },
        None => a,
    }
}

/// The lazy records that grouping single-relation `rows` into relation `j` yields.
pub open spec fn grouped_lazy<B, V>(shapes: Seq<Shape>, j: int, rows: Seq<RowView<B, V>>) -> Seq<LazyView<B, V>>
    decreases rows.len(),
{
    if rows.len() == 0 {
        Seq::empty()
    } else {
        let prev = grouped_lazy(shapes, j, rows.drop_last());
        let r = rows.last();
        if prev.len() > 0 && prev.last().key == r.key {
            prev.update(prev.len() - 1, apply_value(prev.last(), j, r.values[0]))
        } else {
            prev.push(apply_value(init_lazy(shapes, r.key, r.base), j, r.values[0]))
        }
    }
}

impl<B, V> EagerRecord<B, V> {
    /// Starts a group from its first row.
    pub fn new_builder(row: JoinedRow<B, V>, shapes: &Vec<Shape>) -> (r: Self)
        requires
            row.values.len() == shapes.len(),
        ensures
            r@ == start_record(shapes@, row@),
            r.slots.len() == shapes.len(),
    {
        let JoinedRow { key, base, values } = row;
        let ghost vs = values@;
        let mut slots: Vec<Slot<V>> = Vec::new();
        let mut j: usize = 0;
        for v in it: values
            invariant
                vs.len() == shapes.len(),
                it.seq() == vs,
                slots.len() == it.index(),
                forall|k: int| 0 <= k < slots.len() ==> (#[trigger] slots@[k])@ == start_slot(shapes@[k], vs[k]),
        {
            let idx = slots.len();
            assert(v == vs[idx as int]);
            let s = match shapes[idx] {
                Shape::One => Slot::One(v),
                Shape::Many => match v {
                    Some(x) => {
                        let l = vec![x];
                        assert(l@ =~= seq![x]);
                        Slot::Many(l)
                    },
                    None => Slot::Many(Vec::new()),
                },
            };
            assert(s@ == start_slot(shapes@[idx as int], vs[idx as int]));
            slots.push(s);
        }
        let r = EagerRecord { key, base, slots };
        assert(r@.slots =~= start_record(shapes@, row@).slots);
        r
    }

    /// Merges a continuation row of the group: list relations get its value
    /// appended when present; the base row and scalar relations stay.
    pub fn insert_data(&mut self, row: JoinedRow<B, V>)
        requires
            old(self).slots.len() == row.values.len(),
        ensures
            final(self)@ == merge_record(old(self)@, row@),
            final(self).slots.len() == old(self).slots.len(),
    {
        let ghost vs = row.values@;
        let ghost s0 = self@;
        let mut j: usize = 0;
        for v in it: row.values
            invariant
                it.seq() == vs,
                j == it.index(),
                self.slots.len() == vs.len(),
                s0.slots.len() == vs.len(),
                self.key == s0.key,
                self.base == s0.base,
                forall|k: int| 0 <= k < j ==> (#[trigger] self.slots@[k])@ == merge_slot(s0.slots[k], vs[k]),
                forall|k: int| j <= k < vs.len() ==> (#[trigger] self.slots@[k])@ == s0.slots[k],
        {
            assert(v == vs[j as int]);
            if let Some(x) = v {
                if let Slot::Many(l) = &mut self.slots[j] {
                    l.push(x);
                }
            }
            j = j + 1;
        }
        assert(self@.slots =~= merge_record(s0, row@).slots);
    }
}

impl<B, V> LazyRecord<B, V> {
    /// A lazy record holding only its base row: every relation slot is absent.
    pub fn init(key: i64, base: B, shapes: &Vec<Shape>) -> (r: Self)
        ensures
            r@ == init_lazy::<B, V>(shapes@, key, base),
            r.slots.len() == shapes.len(),
    {
        let mut slots: Vec<LazySlot<V>> = Vec::new();
        for j in 0..shapes.len()
            invariant
                slots.len() == j,
                forall|k: int| 0 <= k < j ==> (#[trigger] slots@[k])@ == absent_slot::<V>(shapes@[k]),
        {
            let s = match shapes[j] {
                Shape::One => LazySlot::One(None),
                Shape::Many => LazySlot::Many(None),
            };
            slots.push(s);
        }
        let r = LazyRecord { key, base, slots };
        assert(r@.slots =~= init_lazy::<B, V>(shapes@, key, base).slots);
        r
    }

    /// Push-or-set on relation `j`: appends to a list relation, creating a
    /// one-element list when absent, or overwrites a scalar relation.
    pub fn push_or_set(&mut self, j: usize, val: V)
        requires
            j < old(self).slots.len(),
        ensures
            final(self)@ == apply_value(old(self)@, j as int, Some(val)),
            final(self).slots.len() == old(self).slots.len(),
    {
        let ghost s0 = self@;
        match &mut self.slots[j] {
            LazySlot::One(x) => {
                *x = Some(val);
            },
            LazySlot::Many(Some(l)) => {
                l.push(val);
            },
            LazySlot::Many(o) => {
                let l = vec![val];
                assert(l@ =~= seq![val]);
                *o = Some(l);
            },
        }
        assert(self@.slots =~= apply_value(s0, j as int, Some(val)).slots);
    }
}

/// Folds a flat joined result set into eager records, one per contiguous run
/// of rows sharing a primary key, in arrival order. Rows of one parent that are
/// not adjacent give that parent several records: the caller orders the rows
/// by primary key when it wants one record per parent.
pub fn group_eager<B, V>(rows: Vec<JoinedRow<B, V>>, shapes: &Vec<Shape>) -> (r: Vec<EagerRecord<B, V>>)
    requires
        rows_fit(shapes@, rows_view(rows@)),
    ensures
        records_view(r@) == grouped_eager(shapes@, rows_view(rows@)),
{
    let ghost rv = rows_view(rows@);
    let mut out: Vec<EagerRecord<B, V>> = Vec::new();
    for row in it: rows
        invariant
            it.seq() == rows@,
            rv == rows_view(rows@),
            rows_fit(shapes@, rv),
            records_view(out@) == grouped_eager(shapes@, rv.take(it.index() as int)),
            forall|k: int| 0 <= k < out.len() ==> (#[trigger] out@[k]).slots.len() == shapes.len(),
    {
        let ghost i = it.index() as int;
        assert(row@ == rv[i]);
        assert(rv.take(i + 1).drop_last() =~= rv.take(i));
        assert(rv.take(i + 1).last() == rv[i]);
        let n = out.len();
        if n > 0 && out[n - 1].key == row.key {
            out[n - 1].insert_data(row);
        } else {
            out.push(EagerRecord::new_builder(row, shapes));
        }
        assert(records_view(out@) =~= grouped_eager(shapes@, rv.take(i + 1)));
    }
    assert(rv.take(rv.len() as int) =~= rv);
    out
}

/// Folds the rows of a query that joins relation `j` alone into lazy records,
/// one per contiguous run of rows sharing a primary key. A row whose relation
/// value is present has it pushed or set; an absent (left-joined) value
/// leaves the record as it is.
pub fn group_lazy<B, V>(rows: Vec<SingleRow<B, V>>, shapes: &Vec<Shape>, j: usize) -> (r: Vec<LazyRecord<B, V>>)
    requires
        j < shapes.len(),
    ensures
        lazies_view(r@) == grouped_lazy(shapes@, j as int, single_rows_view(rows@)),
{
    let ghost rv = single_rows_view(rows@);
    let mut out: Vec<LazyRecord<B, V>> = Vec::new();
    for row in it: rows
        invariant
            it.seq() == rows@,
            rv == single_rows_view(rows@),
            j < shapes.len(),
            lazies_view(out@) == grouped_lazy(shapes@, j as int, rv.take(it.index() as int)),
            forall|k: int| 0 <= k < out.len() ==> (#[trigger] out@[k]).slots.len() == shapes.len(),
    {
        let ghost i = it.index() as int;
        assert(rv.take(i + 1).drop_last() =~= rv.take(i));
        assert(rv.take(i + 1).last() == rv[i]);
        let SingleRow { key, base, value } = row;
        let n = out.len();
        if n > 0 && out[n - 1].key == key {
            if let Some(x) = value {
                out[n - 1].push_or_set(j, x);
            }
        } else {
            let mut rec = LazyRecord::init(key, base, shapes);
            if let Some(x) = value {
                rec.push_or_set(j, x);
            }
            out.push(rec);
        }
        assert(lazies_view(out@) =~= grouped_lazy(shapes@, j as int, rv.take(i + 1)));
    }
    assert(rv.take(rv.len() as int) =~= rv);
    out
}

} // verus!
