use joinable::grouping::{group_eager, group_lazy, EagerRecord, JoinedRow, LazyRecord, LazySlot, Shape, SingleRow, Slot};

#[derive(Debug, Clone, PartialEq)]
enum Related {
    Customer(char),
    Item(i64),
}

#[derive(Debug, Clone, PartialEq)]
struct Order {
    id: i64,
}

fn row(id: i64, values: Vec<Option<Related>>) -> JoinedRow<Order, Related> {
    JoinedRow { key: id, base: Order { id }, values }
}

fn many(slot: &Slot<Related>) -> Vec<Related> {
    match slot {
        Slot::Many(l) => l.clone(),
        Slot::One(_) => panic!("expected a list slot"),
    }
}

fn one(slot: &Slot<Related>) -> Option<Related> {
    match slot {
        Slot::One(v) => v.clone(),
        Slot::Many(_) => panic!("expected a scalar slot"),
    }
}

#[test]
fn order_customer_items_scenario() {
    let shapes = vec![Shape::One, Shape::Many];
    let rows = vec![
        row(1, vec![Some(Related::Customer('A')), Some(Related::Item(10))]),
        row(1, vec![Some(Related::Customer('A')), Some(Related::Item(11))]),
        row(2, vec![Some(Related::Customer('B')), Some(Related::Item(20))]),
    ];
    let out: Vec<EagerRecord<Order, Related>> = group_eager(rows, &shapes);
    assert_eq!(out.len(), 2);
    assert_eq!(out[0].key, 1);
    assert_eq!(out[0].base, Order { id: 1 });
    assert_eq!(one(&out[0].slots[0]), Some(Related::Customer('A')));
    assert_eq!(many(&out[0].slots[1]), vec![Related::Item(10), Related::Item(11)]);
    assert_eq!(out[1].key, 2);
    assert_eq!(one(&out[1].slots[0]), Some(Related::Customer('B')));
    assert_eq!(many(&out[1].slots[1]), vec![Related::Item(20)]);
}

#[test]
fn one_to_many_round_trip_keeps_count_and_order() {
    let shapes = vec![Shape::Many];
    let children = [7, 3, 9, 1];
    let rows: Vec<_> = children.iter().map(|c| row(5, vec![Some(Related::Item(*c))])).collect();
    let out = group_eager(rows, &shapes);
    assert_eq!(out.len(), 1);
    let items = many(&out[0].slots[0]);
    assert_eq!(items.len(), 4);
    assert_eq!(items, children.iter().map(|c| Related::Item(*c)).collect::<Vec<_>>());
}

#[test]
fn separated_rows_of_one_parent_fragment() {
    let shapes = vec![Shape::Many];
    let rows = vec![
        row(1, vec![Some(Related::Item(10))]),
        row(2, vec![Some(Related::Item(20))]),
        row(1, vec![Some(Related::Item(11))]),
    ];
    let out = group_eager(rows, &shapes);
    let keys: Vec<i64> = out.iter().map(|r| r.key).collect();
    assert_eq!(keys, vec![1, 2, 1]);
    assert_eq!(many(&out[0].slots[0]), vec![Related::Item(10)]);
    assert_eq!(many(&out[2].slots[0]), vec![Related::Item(11)]);
}

#[test]
fn within_group_order_is_input_order() {
    let shapes = vec![Shape::Many];
    let a = vec![row(1, vec![Some(Related::Item(1))]), row(1, vec![Some(Related::Item(2))])];
    let b = vec![row(1, vec![Some(Related::Item(2))]), row(1, vec![Some(Related::Item(1))])];
    let ga = group_eager(a, &shapes);
    let gb = group_eager(b, &shapes);
    assert_eq!(many(&ga[0].slots[0]), vec![Related::Item(1), Related::Item(2)]);
    assert_eq!(many(&gb[0].slots[0]), vec![Related::Item(2), Related::Item(1)]);
}

#[test]
fn first_row_with_key_zero_starts_a_group() {
    let shapes = vec![Shape::Many];
    let rows = vec![row(0, vec![Some(Related::Item(4))]), row(0, vec![None])];
    let out = group_eager(rows, &shapes);
    assert_eq!(out.len(), 1);
    assert_eq!(many(&out[0].slots[0]), vec![Related::Item(4)]);
}

#[test]
fn absent_left_joined_values_give_empty_lists() {
    let shapes = vec![Shape::One, Shape::Many];
    let rows = vec![row(3, vec![None, None])];
    let out = group_eager(rows, &shapes);
    assert_eq!(one(&out[0].slots[0]), None);
    assert_eq!(many(&out[0].slots[1]), Vec::<Related>::new());
}

#[test]
fn empty_result_set_gives_no_records() {
    let out = group_eager(Vec::<JoinedRow<Order, Related>>::new(), &vec![Shape::Many]);
    assert!(out.is_empty());
}

#[test]
fn insert_data_appends_to_lists_only() {
    let shapes = vec![Shape::One, Shape::Many];
    let mut rec = EagerRecord::new_builder(row(1, vec![Some(Related::Customer('A')), None]), &shapes);
    rec.insert_data(row(1, vec![Some(Related::Customer('Z')), Some(Related::Item(8))]));
    assert_eq!(one(&rec.slots[0]), Some(Related::Customer('A')));
    assert_eq!(many(&rec.slots[1]), vec![Related::Item(8)]);
}

#[test]
fn untouched_optional_relation_stays_absent() {
    let shapes = vec![Shape::One, Shape::Many];
    let mut rec: LazyRecord<Order, Related> = LazyRecord::init(1, Order { id: 1 }, &shapes);
    rec.push_or_set(1, Related::Item(3));
    assert!(matches!(rec.slots[0], LazySlot::One(None)));
    match &rec.slots[1] {
        LazySlot::Many(Some(l)) => assert_eq!(l, &vec![Related::Item(3)]),
        _ => panic!("expected a filled list"),
    }
}

#[test]
fn push_or_set_overwrites_scalars_and_appends_lists() {
    let shapes = vec![Shape::One, Shape::Many];
    let mut rec: LazyRecord<Order, Related> = LazyRecord::init(1, Order { id: 1 }, &shapes);
    assert!(matches!(rec.slots[1], LazySlot::Many(None)));
    rec.push_or_set(0, Related::Customer('A'));
    rec.push_or_set(0, Related::Customer('B'));
    rec.push_or_set(1, Related::Item(1));
    rec.push_or_set(1, Related::Item(2));
    assert!(matches!(rec.slots[0], LazySlot::One(Some(Related::Customer('B')))));
    match &rec.slots[1] {
        LazySlot::Many(Some(l)) => assert_eq!(l, &vec![Related::Item(1), Related::Item(2)]),
        _ => panic!("expected a filled list"),
    }
}

#[test]
fn single_relation_query_matches_eager_slice() {
    let shapes = vec![Shape::One, Shape::Many];
    let flat = vec![
        (1, Some(Related::Customer('A')), Some(Related::Item(10))),
        (1, Some(Related::Customer('A')), Some(Related::Item(11))),
        (2, Some(Related::Customer('B')), None),
        (3, None, Some(Related::Item(30))),
    ];
    let eager = group_eager(flat.iter().map(|(k, c, i)| row(*k, vec![c.clone(), i.clone()])).collect(), &shapes);
    for j in 0..2usize {
        let single: Vec<SingleRow<Order, Related>> = flat
            .iter()
            .map(|(k, c, i)| SingleRow { key: *k, base: Order { id: *k }, value: if j == 0 { c.clone() } else { i.clone() } })
            .collect();
        let lazy = group_lazy(single, &shapes, j);
        assert_eq!(lazy.len(), eager.len());
        for (l, e) in lazy.iter().zip(eager.iter()) {
            assert_eq!(l.key, e.key);
            match (&l.slots[j], &e.slots[j]) {
                (LazySlot::One(a), Slot::One(b)) => assert_eq!(a, b),
                (LazySlot::Many(None), Slot::Many(b)) => assert!(b.is_empty()),
                (LazySlot::Many(Some(a)), Slot::Many(b)) => assert_eq!(a, b),
                _ => panic!("shapes differ"),
            }
        }
    }
}

#[test]
fn single_relation_query_fragments_separated_parent() {
    let shapes = vec![Shape::Many];
    let rows: Vec<SingleRow<Order, Related>> = [(1, 10), (2, 20), (1, 11)]
        .iter()
        .map(|(k, c)| SingleRow { key: *k, base: Order { id: *k }, value: Some(Related::Item(*c)) })
        .collect();
    let out = group_lazy(rows, &shapes, 0);
    let keys: Vec<i64> = out.iter().map(|r| r.key).collect();
    assert_eq!(keys, vec![1, 2, 1]);
}
