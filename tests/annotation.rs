use joinable::annotation::{parse_diesel_args, parse_relation_entries, parse_type_annotation};
use joinable::entity_implementation::DieselArg;

fn toks(s: &str) -> Vec<String> {
    s.split_whitespace().map(|t| t.to_string()).collect()
}

#[test]
fn reads_one_to_many_entries() {
    let es = parse_relation_entries(&toks("items = OrderItem , notes = Note"), false).expect("well formed");
    assert_eq!(es.len(), 2);
    assert_eq!(es[0].field, "items");
    assert_eq!(es[0].target.text(), "OrderItem");
    assert!(es[0].join.is_none());
    assert_eq!(es[1].field, "notes");
}

#[test]
fn reads_many_to_many_with_and_without_join() {
    let es = parse_relation_entries(&toks("tags = Tag by PostToTag , cats = crate : : m : : Category ,"), true)
        .expect("well formed");
    assert_eq!(es.len(), 2);
    assert_eq!(es[0].join.as_ref().map(|t| t.text()), Some("PostToTag".to_string()));
    assert_eq!(es[1].target.text(), "crate::m::Category");
    assert!(es[1].join.is_none());
}

#[test]
fn join_clause_refused_where_not_allowed() {
    assert!(parse_relation_entries(&toks("tags = Tag by PostToTag"), false).is_none());
}

#[test]
fn malformed_entries_refused() {
    assert!(parse_relation_entries(&toks("items OrderItem"), false).is_none());
    assert!(parse_relation_entries(&toks("items = , x = Y"), false).is_none());
    assert!(parse_relation_entries(&toks("items = Option < Item"), false).is_none());
    assert!(parse_relation_entries(&toks("items = Item Other"), false).is_none());
}

#[test]
fn empty_entry_list_reads_as_empty() {
    assert_eq!(parse_relation_entries(&Vec::new(), true).map(|v| v.len()), Some(0));
}

#[test]
fn reads_many_to_one_types() {
    let t = parse_type_annotation(&toks("Option < Customer >")).expect("well formed");
    assert_eq!(t.wrappers, vec!["Option".to_string()]);
    assert_eq!(t.path, "Customer");
    assert_eq!(parse_type_annotation(&toks("Customer")).map(|t| t.text()), Some("Customer".to_string()));
    assert!(parse_type_annotation(&toks("Customer >")).is_none());
    assert!(parse_type_annotation(&Vec::new()).is_none());
}

#[test]
fn reads_turbofish_and_qualified_generics() {
    let t = parse_type_annotation(&toks("Option : : < Customer >")).expect("well formed");
    assert_eq!(t.wrappers, vec!["Option".to_string()]);
    assert_eq!(t.path, "Customer");
    let q = parse_type_annotation(&toks("std : : option : : Option < crate : : m : : Customer >")).expect("well formed");
    assert_eq!(q.wrappers, vec!["std::option::Option".to_string()]);
    assert_eq!(q.path, "crate::m::Customer");
    assert!(!joinable::types::type_is_option(&q));
    assert!(parse_type_annotation(&toks("Option : < Customer >")).is_none());
}

#[test]
fn reads_diesel_arguments() {
    let args = parse_diesel_args(&toks("table_name = crate : : schema : : orders , check_for_backend ( diesel : : mysql : : Mysql , x ) , primary_key ( order_id , line , )"))
        .expect("well formed");
    assert_eq!(args.len(), 2);
    match &args[0] {
        DieselArg::TableName(t) => assert_eq!(t, "crate::schema::orders"),
        _ => panic!("expected the table name"),
    }
    match &args[1] {
        DieselArg::PrimaryKey(ks) => assert_eq!(ks, &vec!["order_id".to_string(), "line".to_string()]),
        _ => panic!("expected the primary key"),
    }
    assert_eq!(parse_diesel_args(&toks("treat_none_as_null = true")).map(|a| a.len()), Some(0));
    assert!(parse_diesel_args(&toks("table_name orders")).is_none());
    assert!(parse_diesel_args(&toks("primary_key ( a b )")).is_none());
}
