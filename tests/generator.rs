use joinable::eager_entity::EagerEntityAST;
use joinable::entity::{with_join, DefinitionError, EntityAttr, EntityDesc, FieldDesc};
use joinable::entity_implementation::{DieselArg, EntityImplAST, JoinKind, RelationKind};
use joinable::grouping::Shape;
use joinable::lazy_entity::LazyEntityAST;
use joinable::naming::{default_join_entity, format_ident, format_ident_snake, is_join_entity_name, relation_ident};
use joinable::text::{contains_text, replace_text};
use joinable::types::{extract_type_from_option, make_type_option, type_is_option, TypeRef};

fn ty(path: &str) -> TypeRef {
    TypeRef { path: path.to_string(), wrappers: Vec::new() }
}

fn opt(path: &str) -> TypeRef {
    TypeRef { path: path.to_string(), wrappers: vec!["Option".to_string()] }
}

fn field(name: &str, t: TypeRef, m2o: Option<TypeRef>) -> FieldDesc {
    FieldDesc { name: name.to_string(), ty: t, many_to_one: m2o }
}

fn table(name: &str) -> EntityAttr {
    EntityAttr::Diesel(DieselArg::TableName(name.to_string()))
}

#[test]
fn replace_matches_str_replace() {
    for (s, p, r) in [("customer_id", "_id", ""), ("a_id_b_id", "_id", "X"), ("aaa", "aa", "b"), ("", "x", "y"), ("{}Lazy", "{}", "Post"), ("abc", "", "X"), ("", "", "X"), ("ab", "", "")] {
        assert_eq!(replace_text(s, p, r), s.replace(p, r));
    }
}

#[test]
fn contains_finds_substrings() {
    assert!(contains_text("PostToTag", "To"));
    assert!(!contains_text("Post", "To"));
    assert!(contains_text("abc", ""));
}

#[test]
fn identifier_formats() {
    assert_eq!(format_ident("{}WithAll", "Order"), "OrderWithAll");
    assert_eq!(format_ident("get_for_{}", "tag_id"), "get_for_tag_id");
    assert_eq!(format_ident_snake("find_{}", "OrderItem"), "find_order_item");
    assert_eq!(relation_ident("customer_id"), "customer");
    assert_eq!(relation_ident("owner"), "owner");
    assert_eq!(relation_ident("a_idb_id"), "a_idb");
    assert_eq!(relation_ident("id_card"), "id_card");
    assert_eq!(relation_ident("_id"), "");
}

#[test]
fn join_entity_names() {
    assert_eq!(default_join_entity("Post", &ty("Tag")), "PostToTag");
    assert_eq!(default_join_entity("Post", &ty("PostCategory")), "PostToCategory");
    assert_eq!(default_join_entity("", &ty("Tag")), "ToTag");
    assert!(is_join_entity_name("PostToTag"));
    assert!(!is_join_entity_name("Post"));
}

#[test]
fn option_type_utilities() {
    let o = opt("Customer");
    assert!(type_is_option(&o));
    assert!(!type_is_option(&ty("Customer")));
    let inner = extract_type_from_option(&o);
    assert_eq!(inner.text(), "Customer");
    assert_eq!(extract_type_from_option(&ty("Tag")).text(), "Tag");
    assert_eq!(make_type_option(&ty("Tag")).text(), "Option<Tag>");
    let nested = TypeRef { path: "Tag".to_string(), wrappers: vec!["Option".to_string(), "Vec".to_string()] };
    assert_eq!(nested.text(), "Option<Vec<Tag>>");
    assert_eq!(extract_type_from_option(&nested).text(), "Vec<Tag>");
}

#[test]
fn eager_builder_fields() {
    let mut b = EagerEntityAST::new("Order");
    b.push_many_to_one("customer_id", ty("Customer"));
    b.push_one_to_many("items", ty("OrderItem"));
    b.push_many_to_many("tags", ty("Tag"), &ty("OrderToTag"));
    b.prepare();
    let plan = b.build().expect("relations were registered");
    assert_eq!(plan.name, "OrderWithAll");
    assert_eq!(plan.base_type, "Order");
    let names: Vec<&str> = plan.fields.iter().map(|f| f.name.as_str()).collect();
    assert_eq!(names, vec!["customer", "items", "tags"]);
    assert_eq!(plan.fields[0].shape, Shape::One);
    assert_eq!(plan.fields[1].shape, Shape::Many);
    assert_eq!(plan.fields[2].ty.text(), "Tag");
}

#[test]
fn eager_builder_without_relations_builds_nothing() {
    assert!(EagerEntityAST::new("Order").build().is_none());
    assert!(LazyEntityAST::new("Order").build().is_none());
}

#[test]
fn lazy_builder_slots_and_setters() {
    let mut b = LazyEntityAST::new("Post");
    b.push_many_to_one("author_id", &opt("User"));
    b.push_one_to_many("links", &ty("PostToTag"));
    b.push_one_to_many("comments", &ty("Comment"));
    b.push_many_to_many("tags", &ty("Tag"));
    let plan = b.build().expect("relations were registered");
    assert_eq!(plan.name, "PostLazy");
    assert_eq!(plan.fields[0].name, "author");
    assert_eq!(plan.fields[0].element.text(), "User");
    assert_eq!(plan.fields[0].shape, Shape::One);
    assert_eq!(plan.fields[0].setter, "push_or_set_author");
    assert_eq!(plan.fields[1].element.text(), "i64");
    assert_eq!(plan.fields[2].element.text(), "Comment");
    assert_eq!(plan.fields[3].setter, "push_or_set_tags");
}

#[test]
fn implementation_builder_plan() {
    let mut b = EntityImplAST::new("Order");
    assert!(b.build().is_none());
    b.parse_diesel_attr(&DieselArg::TableName("orders".to_string()));
    b.push_many_to_one("customer_id", &ty("Customer"));
    b.push_many_to_one("coupon_id", &opt("Coupon"));
    b.push_one_to_many("items", &ty("OrderItem"));
    b.push_many_to_many("tags", &ty("Tag"), &ty("OrderToTag"));
    b.search_pk_type("id", &ty("i64"));
    let plan = b.build().expect("a table was named");
    assert_eq!(plan.table, "orders");
    assert_eq!(plan.insert_type, "NewOrder");
    assert_eq!(plan.eager_type.as_deref(), Some("OrderWithAll"));
    assert!(plan.grouped_finders);
    assert_eq!(plan.find_params.len(), 1);
    assert_eq!(plan.find_params[0].name, "uid");
    assert_eq!(plan.find_filters[0].column, "id");
    assert_eq!(plan.find_filters[0].param, "uid");
    let r = &plan.relations;
    assert_eq!(r[0].kind, RelationKind::ManyToOne);
    assert_eq!(r[0].join, JoinKind::Inner);
    assert_eq!(r[0].getter, "get_customer");
    assert_eq!(r[0].select.text(), "Customer");
    assert_eq!(r[1].join, JoinKind::Left);
    assert_eq!(r[1].target.text(), "Coupon");
    assert_eq!(r[1].select.text(), "Option<Coupon>");
    assert_eq!(r[2].join, JoinKind::Left);
    assert_eq!(r[2].select.text(), "Option<OrderItem>");
    assert_eq!(r[2].finder, "find_all_with_items");
    assert_eq!(r[3].join_entity.as_ref().map(|t| t.text()), Some("OrderToTag".to_string()));
    assert!(!r[2].ids_only);
    b.push_one_to_many("links", &ty("OrderToTag"));
    assert!(b.build().expect("a table was named").relations[4].ids_only);
}

#[test]
fn composite_primary_key_disables_grouped_queries() {
    let mut b = EntityImplAST::new("OrderLine");
    b.set_table_name("order_lines");
    b.parse_diesel_attr(&DieselArg::PrimaryKey(vec!["order_id".to_string(), "line".to_string()]));
    b.push_one_to_many("notes", &ty("Note"));
    b.search_pk_type("order_id", &ty("i64"));
    b.search_pk_type("line", &ty("i32"));
    b.search_pk_type("other", &ty("i32"));
    let plan = b.build().expect("a table was named");
    assert!(plan.eager_type.is_none());
    assert!(!plan.grouped_finders);
    let params: Vec<(String, String)> = plan.find_params.iter().map(|p| (p.name.clone(), p.ty.text())).collect();
    assert_eq!(params, vec![("order_id".to_string(), "i64".to_string()), ("line".to_string(), "i32".to_string())]);
    let cols: Vec<&str> = plan.find_filters.iter().map(|f| f.column.as_str()).collect();
    assert_eq!(cols, vec!["order_id", "line"]);
}

fn order_desc() -> EntityDesc {
    EntityDesc {
        name: "Order".to_string(),
        attrs: vec![
            EntityAttr::OneToMany { field: "items".to_string(), target: ty("OrderItem") },
            EntityAttr::ManyToMany { field: "tags".to_string(), target: ty("Tag"), join: None },
            table("orders"),
        ],
        fields: vec![
            field("id", ty("i64"), None),
            field("customer_id", ty("i64"), Some(ty("Customer"))),
            field("note", ty("String"), None),
        ],
    }
}

#[test]
fn driver_generates_all_artifacts() {
    let plan = with_join(&order_desc()).expect("a valid definition");
    let eager = plan.eager.expect("relations exist");
    let names: Vec<&str> = eager.fields.iter().map(|f| f.name.as_str()).collect();
    assert_eq!(names, vec!["items", "tags", "customer"]);
    let lazy = plan.lazy.expect("relations exist");
    assert_eq!(lazy.fields.len(), 3);
    let rels = &plan.implementation.relations;
    assert_eq!(rels[1].join_entity.as_ref().map(|t| t.text()), Some("OrderToTag".to_string()));
    assert_eq!(plan.insertable.name, "NewOrder");
    assert_eq!(plan.insertable.table, "orders");
    assert_eq!(plan.insertable.fields, vec!["customer_id".to_string(), "note".to_string()]);
    assert!(plan.join_accessors.is_empty());
}

#[test]
fn driver_join_entity_accessors() {
    let desc = EntityDesc {
        name: "PostToTag".to_string(),
        attrs: vec![table("post_tags")],
        fields: vec![field("id", ty("i64"), None), field("post_id", ty("i64"), None), field("tag_id", ty("i64"), None)],
    };
    let plan = with_join(&desc).expect("a valid definition");
    assert!(plan.eager.is_none());
    assert!(plan.lazy.is_none());
    assert_eq!(plan.join_accessors.len(), 2);
    assert_eq!(plan.join_accessors[0].getter, "get_for_post_id");
    assert_eq!(plan.join_accessors[0].field, "tag_id");
    assert_eq!(plan.join_accessors[1].getter, "get_for_tag_id");
    assert_eq!(plan.join_accessors[1].field, "post_id");
}

#[test]
fn driver_refuses_duplicate_relation_names() {
    let mut desc = order_desc();
    desc.fields.push(field("items_id", ty("i64"), Some(ty("Item"))));
    match with_join(&desc) {
        Err(DefinitionError::DuplicateRelation(n)) => assert_eq!(n, "items"),
        _ => panic!("expected a duplicate relation"),
    }
}

#[test]
fn driver_refuses_missing_table() {
    let mut desc = order_desc();
    desc.attrs.pop();
    assert!(matches!(with_join(&desc), Err(DefinitionError::MissingTableName)));
}

#[test]
fn driver_refuses_join_entity_without_two_keys() {
    let desc = EntityDesc {
        name: "PostToTag".to_string(),
        attrs: vec![table("post_tags")],
        fields: vec![field("id", ty("i64"), None), field("post_id", ty("i64"), None)],
    };
    assert!(matches!(with_join(&desc), Err(DefinitionError::JoinEntityFields)));
}

#[test]
fn driver_refuses_unknown_primary_key() {
    let mut desc = order_desc();
    desc.attrs.push(EntityAttr::Diesel(DieselArg::PrimaryKey(vec!["id".to_string(), "line".to_string()])));
    match with_join(&desc) {
        Err(DefinitionError::UnknownPrimaryKey(k)) => assert_eq!(k, "line"),
        _ => panic!("expected an unknown primary key"),
    }
}

#[test]
fn driver_accepts_declared_primary_key_fields() {
    let mut desc = order_desc();
    desc.attrs.push(EntityAttr::Diesel(DieselArg::PrimaryKey(vec!["id".to_string(), "note".to_string()])));
    let plan = with_join(&desc).expect("every key is a field");
    assert!(plan.implementation.eager_type.is_none());
    let params: Vec<&str> = plan.implementation.find_params.iter().map(|p| p.name.as_str()).collect();
    assert_eq!(params, vec!["id", "note"]);
}

#[test]
fn later_primary_key_type_replaces_earlier() {
    let mut b = EntityImplAST::new("Line");
    b.set_table_name("lines");
    b.parse_diesel_attr(&DieselArg::PrimaryKey(vec!["a".to_string(), "b".to_string()]));
    b.search_pk_type("a", &ty("i32"));
    b.search_pk_type("b", &ty("i32"));
    b.search_pk_type("a", &ty("i64"));
    let plan = b.build().expect("a table was named");
    let params: Vec<(String, String)> = plan.find_params.iter().map(|p| (p.name.clone(), p.ty.text())).collect();
    assert_eq!(params, vec![("a".to_string(), "i64".to_string()), ("b".to_string(), "i32".to_string())]);
}
