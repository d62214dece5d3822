//! The driver: one entity definition in, the three coherent artifacts and
//! the insertable projection out.
use vstd::prelude::*;
use crate::eager_entity::{EagerEntityAST, EagerPlan, EagerFieldView, fields_view, with_all_name};
use crate::entity_implementation::{
    impl_plan_of, record_pk_type, DieselArg, EntityImplAST, ImplPlan, ImplState, PkFieldView, RelationPlanView, insert_name, many_to_many_plan, many_to_one_plan,
    one_to_many_plan, strings_view,
};
use crate::grouping::Shape;
use crate::lazy_entity::{LazyEntityAST, LazyFieldView, LazyPlan, lazy_fields_view, lazy_name, one_to_many_element, setter_name};
use crate::naming::{join_entity_name, relation_name, names_join_entity, relation_ident, default_join_entity, is_join_entity_name};
use crate::text::{joined, same_text};
use crate::types::{TypeRef, TypeView, strip_option, type_text};

verus! {

/// A field of the entity: its name, its type, and the related type when it is
/// annotated `many_to_one(Type)`.
pub struct FieldDesc {
    pub name: String,
    pub ty: TypeRef,
    pub many_to_one: Option<TypeRef>,
}

/// An entity-level annotation.
pub enum EntityAttr {
    /// One entry `field = Type` of `one_to_many(...)`.
    OneToMany { field: String, target: TypeRef },
    /// One entry `field = Type [by JoinType]` of `many_to_many(...)`.
    ManyToMany { field: String, target: TypeRef, join: Option<TypeRef> },
    /// One argument of `diesel(...)`.
    Diesel(DieselArg),
}

/// An annotated entity definition.
pub struct EntityDesc {
    pub name: String,
    pub attrs: Vec<EntityAttr>,
    pub fields: Vec<FieldDesc>,
}

/// A definition the generator refuses.
#[derive(Debug)]
pub enum DefinitionError {
    /// Two relations of the entity would get this generated name.
    DuplicateRelation(String),
    /// No `diesel(table_name = ...)` names the backing table.
    MissingTableName,
    /// A declared primary-key field that the entity does not have.
    UnknownPrimaryKey(String),
    /// The entity is named like a join entity but has fewer than two fields
    /// besides `id` to expose as foreign keys.
    JoinEntityFields,
}

/// The insertable projection `New<Entity>`: every field but `id`.
pub struct InsertPlan {
    pub name: String,
    pub table: String,
    pub fields: Vec<String>,
}

/// A join entity's accessor `getter`, which returns the field `field`: each
/// side's accessor exposes the other side's foreign key.
pub struct JoinAccessor {
    pub getter: String,
    pub field: String,
}

/// Everything generated for one entity.
pub struct EntityPlan {
    pub eager: Option<EagerPlan>,
    pub lazy: Option<LazyPlan>,
    pub implementation: ImplPlan,
    pub insertable: InsertPlan,
    pub join_accessors: Vec<JoinAccessor>,
}

/// A relation declaration, with a many-to-many join entity resolved.
pub enum RelDecl {
    ManyToOne(Seq<char>, TypeView),
    OneToMany(Seq<char>, TypeView),
    ManyToMany(Seq<char>, TypeView, TypeView),
}

/// The relation declarations of the entity-level annotations, in order.
pub open spec fn attr_decls(entity: Seq<char>, attrs: Seq<EntityAttr>) -> Seq<RelDecl>
    decreases attrs.len(),
{
    if attrs.len() == 0 {
        Seq::empty()
    } else {
        let prev = attr_decls(entity, attrs.drop_last());
        match attrs.last() {
            EntityAttr::OneToMany { field, target } => prev.push(RelDecl::OneToMany(field@, target@)),
            EntityAttr::ManyToMany { field, target, join } => prev.push(
                RelDecl::ManyToMany(
                    field@,
                    target@,
                    match join {
                        Some(j) => j@,
                        None => TypeView { path: join_entity_name(entity, type_text(target@)), wrappers: Seq::empty() },
                    },
                ),
            ),
            EntityAttr::Diesel(_) => prev,
        }
    }
}

/// The many-to-one declarations of the fields, in order.
pub open spec fn field_decls(fields: Seq<FieldDesc>) -> Seq<RelDecl>
    decreases fields.len(),
{
    if fields.len() == 0 {
        Seq::empty()
    } else {
        let prev = field_decls(fields.drop_last());
        match fields.last().many_to_one {
            Some(t) => prev.push(RelDecl::ManyToOne(fields.last().name@, t@)),
            None => prev,
        }
    }
}

/// Every relation of the entity: entity-level annotations first, then fields.
pub open spec fn decls_of(d: EntityDesc) -> Seq<RelDecl> {
    attr_decls(d.name@, d.attrs@) + field_decls(d.fields@)
}

pub open spec fn decl_name(d: RelDecl) -> Seq<char> {
    match d {
        RelDecl::ManyToOne(f, _) => relation_name(f),
        RelDecl::OneToMany(f, _) => f,
        RelDecl::ManyToMany(f, _, _) => f,
    }
}

pub open spec fn names_unique(ds: Seq<RelDecl>) -> bool {
    forall|i: int, j: int| 0 <= i < j < ds.len() ==> decl_name(#[trigger] ds[i]) != decl_name(#[trigger] ds[j])
}

pub open spec fn eager_field_of(d: RelDecl) -> EagerFieldView {
    match d {
        RelDecl::ManyToOne(f, t) => EagerFieldView { name: relation_name(f), ty: t, shape: Shape::One },
        RelDecl::OneToMany(f, t) => EagerFieldView { name: f, ty: t, shape: Shape::Many },
        RelDecl::ManyToMany(f, t, _) => EagerFieldView { name: f, ty: t, shape: Shape::Many },
    }
}

pub open spec fn lazy_field_of(d: RelDecl) -> LazyFieldView {
    match d {
        RelDecl::ManyToOne(f, t) => LazyFieldView {
            name: relation_name(f),
            element: strip_option(t),
            shape: Shape::One,
            setter: setter_name(relation_name(f)),
        },
        RelDecl::OneToMany(f, t) => LazyFieldView {
            name: f,
            element: one_to_many_element(t),
            shape: Shape::Many,
            setter: setter_name(f),
        },
        RelDecl::ManyToMany(f, t, _) => LazyFieldView { name: f, element: t, shape: Shape::Many, setter: setter_name(f) },
    }
}

pub open spec fn relation_plan_of(d: RelDecl) -> RelationPlanView {
    match d {
        RelDecl::ManyToOne(f, t) => many_to_one_plan(f, t),
        RelDecl::OneToMany(f, t) => one_to_many_plan(f, t),
        RelDecl::ManyToMany(f, t, j) => many_to_many_plan(f, t, j),
    }
}

pub open spec fn eager_fields_of(ds: Seq<RelDecl>) -> Seq<EagerFieldView> {
    ds.map(|i: int, d: RelDecl| eager_field_of(d))
}

pub open spec fn lazy_fields_of(ds: Seq<RelDecl>) -> Seq<LazyFieldView> {
    ds.map(|i: int, d: RelDecl| lazy_field_of(d))
}

pub open spec fn relation_plans_of(ds: Seq<RelDecl>) -> Seq<RelationPlanView> {
    ds.map(|i: int, d: RelDecl| relation_plan_of(d))
}

/// The table the last `table_name` argument names.
pub open spec fn table_of(attrs: Seq<EntityAttr>) -> Option<Seq<char>>
    decreases attrs.len(),
{
    if attrs.len() == 0 {
        None
    } else {
        match attrs.last() {
            EntityAttr::Diesel(DieselArg::TableName(t)) => Some(t@),
            _ => table_of(attrs.drop_last()),
        }
    }
}

/// The primary-key fields that `primary_key` arguments declare, in order.
pub open spec fn pk_of(attrs: Seq<EntityAttr>) -> Seq<Seq<char>>
    decreases attrs.len(),
{
    if attrs.len() == 0 {
        Seq::empty()
    } else {
        match attrs.last() {
            EntityAttr::Diesel(DieselArg::PrimaryKey(keys)) => pk_of(attrs.drop_last()) + strings_view(keys@),
            _ => pk_of(attrs.drop_last()),
        }
    }
}

/// The declared primary-key fields with their types, in field order; a field
/// named twice keeps its first position and takes its last type.
pub open spec fn pk_types_of(pk: Seq<Seq<char>>, fields: Seq<FieldDesc>) -> Seq<PkFieldView>
    decreases fields.len(),
{
    if fields.len() == 0 {
        Seq::empty()
    } else {
        let prev = pk_types_of(pk, fields.drop_last());
        let f = fields.last();
        if pk.contains(f.name@) {
            record_pk_type(prev, f.name@, f.ty@)
        } else {
            prev
        }
    }
}

pub open spec fn id_name() -> Seq<char> {
    seq!['i', 'd']
}

/// The fields of the insertable projection: all but `id`.
pub open spec fn insert_fields_of(fields: Seq<FieldDesc>) -> Seq<Seq<char>>
    decreases fields.len(),
{
    if fields.len() == 0 {
        Seq::empty()
    } else {
        let prev = insert_fields_of(fields.drop_last());
        if fields.last().name@ == id_name() {
            prev
        } else {
            prev.push(fields.last().name@)
        }
    }
}

/// The state the implementation builder reaches on the entity.
pub open spec fn impl_state_of(d: EntityDesc) -> ImplState {
    ImplState {
        entity: d.name@,
        table: table_of(d.attrs@),
        pk: pk_of(d.attrs@),
        pk_types: pk_types_of(pk_of(d.attrs@), d.fields@),
        relations: relation_plans_of(decls_of(d)),
    }
}

pub open spec fn get_for_name(field: Seq<char>) -> Seq<char> {
    seq!['g', 'e', 't', '_', 'f', 'o', 'r', '_'] + field
}

pub open spec fn names_of(ds: Seq<RelDecl>) -> Seq<Seq<char>> {
    ds.map(|i: int, d: RelDecl| decl_name(d))
}

/// What the plan generated for entity `d` holds.
pub open spec fn entity_plan_of(d: EntityDesc, p: EntityPlan) -> bool {
    let ds = decls_of(d);
    let ins = insert_fields_of(d.fields@);
    &&& (p.eager is None <==> ds.len() == 0)
    &&& (p.eager matches Some(e) ==> e.name@ == with_all_name(d.name@) && e.base_type@ == d.name@
        && fields_view(e.fields@) == eager_fields_of(ds))
    &&& (p.lazy is None <==> ds.len() == 0)
    &&& (p.lazy matches Some(l) ==> l.name@ == lazy_name(d.name@) && l.base_type@ == d.name@
        && lazy_fields_view(l.fields@) == lazy_fields_of(ds))
    &&& impl_plan_of(p.implementation, impl_state_of(d))
    &&& p.insertable.name@ == insert_name(d.name@)
    &&& table_of(d.attrs@) == Some(p.insertable.table@)
    &&& strings_view(p.insertable.fields@) == ins
    &&& (names_join_entity(d.name@) ==> p.join_accessors.len() == 2
        && p.join_accessors[0].getter@ == get_for_name(ins[0]) && p.join_accessors[0].field@ == ins[1]
        && p.join_accessors[1].getter@ == get_for_name(ins[1]) && p.join_accessors[1].field@ == ins[0])
    &&& (!names_join_entity(d.name@) ==> p.join_accessors.len() == 0)
}

/// The position of the first name that repeats an earlier one.
fn first_duplicate(names: &Vec<String>) -> (r: Option<usize>)
    ensures
        r is None <==> forall|a: int, b: int| 0 <= a < b < names.len() ==> names@[a]@ != names@[b]@,
        r matches Some(k) ==> k < names.len() && exists|a: int| 0 <= a < k && names@[a]@ == names@[k as int]@,
{
    for b in 0..names.len()
        invariant
            forall|x: int, y: int| 0 <= x < y < b ==> names@[x]@ != names@[y]@,
    {
        for a in 0..b
            invariant
                b < names.len(),
                forall|x: int| 0 <= x < a ==> names@[x]@ != names@[b as int]@,
        {
            if same_text(names[a].as_str(), names[b].as_str()) {
                return Some(b);
            }
        }
    }
    None
}

fn get_for(field: &str) -> (r: String)
    ensures
        r@ == get_for_name(field@),
{
    proof {
        reveal_strlit("get_for_");
        assert("get_for_"@ =~= seq!['g', 'e', 't', '_', 'f', 'o', 'r', '_']);
    }
    joined("get_for_", field)
}

/// Whether the entity has a field named `k`.
pub open spec fn has_field(fields: Seq<FieldDesc>, k: Seq<char>) -> bool {
    exists|f: int| 0 <= f < fields.len() && #[trigger] fields[f].name@ == k
}

/// Every declared primary-key field is a field of the entity.
pub open spec fn keys_matched(pk: Seq<Seq<char>>, fields: Seq<FieldDesc>) -> bool {
    forall|i: int| 0 <= i < pk.len() ==> has_field(fields, #[trigger] pk[i])
}

/// The position of the first key that names no field.
fn unmatched_key(keys: &Vec<String>, fields: &Vec<FieldDesc>) -> (r: Option<usize>)
    ensures
        r is None <==> keys_matched(strings_view(keys@), fields@),
        r matches Some(k) ==> k < keys.len() && !has_field(fields@, keys@[k as int]@),
{
    for k in 0..keys.len()
        invariant
            forall|i: int| 0 <= i < k ==> has_field(fields@, #[trigger] strings_view(keys@)[i]),
    {
        let mut found = false;
        for f in 0..fields.len()
            invariant
                k < keys.len(),
                found ==> has_field(fields@, keys@[k as int]@),
                !found ==> forall|g: int| 0 <= g < f ==> #[trigger] fields@[g].name@ != keys@[k as int]@,
        {
            if same_text(fields[f].name.as_str(), keys[k].as_str()) {
                found = true;
            }
        }
        if !found {
            assert(strings_view(keys@)[k as int] == keys@[k as int]@);
            assert(!has_field(fields@, keys@[k as int]@));
            return Some(k);
        }
        assert(has_field(fields@, strings_view(keys@)[k as int]));
    }
    None
}

/// Generates everything for one entity: the relations of the entity-level
/// annotations and of the fields are fed, in that order, to the eager, lazy
/// and implementation builders alike. Refused: two relations with one
/// generated name, a missing backing table, a declared primary-key field the
/// entity does not have, and a join entity without two foreign-key fields.
pub fn with_join(desc: &EntityDesc) -> (r: Result<EntityPlan, DefinitionError>)
    ensures
        !names_unique(decls_of(*desc)) <==> r matches Err(DefinitionError::DuplicateRelation(_)),
        r matches Err(DefinitionError::DuplicateRelation(n)) ==> names_of(decls_of(*desc)).contains(n@),
        r matches Err(DefinitionError::MissingTableName) <==> names_unique(decls_of(*desc)) && table_of(
            desc.attrs@,
        ) is None,
        r matches Err(DefinitionError::UnknownPrimaryKey(_)) <==> names_unique(decls_of(*desc)) && table_of(
            desc.attrs@,
        ) is Some && !keys_matched(pk_of(desc.attrs@), desc.fields@),
        r matches Err(DefinitionError::UnknownPrimaryKey(k)) ==> pk_of(desc.attrs@).contains(k@) && !has_field(
            desc.fields@,
            k@,
        ),
        r matches Err(DefinitionError::JoinEntityFields) <==> names_unique(decls_of(*desc)) && table_of(
            desc.attrs@,
        ) is Some && keys_matched(pk_of(desc.attrs@), desc.fields@) && names_join_entity(desc.name@) && insert_fields_of(desc.fields@).len() < 2,
        r matches Ok(p) ==> entity_plan_of(*desc, p),
{
    let name = desc.name.as_str();
    let mut eager = EagerEntityAST::new(name);
    let mut lazy = LazyEntityAST::new(name);
    let mut imp = EntityImplAST::new(name);
    let mut names: Vec<String> = Vec::new();
    let ghost attrs = desc.attrs@;
    assert(attrs.take(0) =~= Seq::<EntityAttr>::empty());
    assert(eager_fields_of(attr_decls(name@, attrs.take(0))) =~= Seq::<EagerFieldView>::empty());
    assert(lazy_fields_of(attr_decls(name@, attrs.take(0))) =~= Seq::<LazyFieldView>::empty());
    assert(relation_plans_of(attr_decls(name@, attrs.take(0))) =~= Seq::<RelationPlanView>::empty());
    assert(names_of(attr_decls(name@, attrs.take(0))) =~= Seq::<Seq<char>>::empty());
    assert(strings_view(names@) =~= Seq::<Seq<char>>::empty());
    assert(pk_of(attrs.take(0)) =~= Seq::<Seq<char>>::empty());
    assert(imp@.pk =~= Seq::<Seq<char>>::empty());
    assert(imp@.pk_types =~= Seq::<PkFieldView>::empty());
    assert(imp@.relations =~= Seq::<RelationPlanView>::empty());
    for i in 0..desc.attrs.len()
        invariant
            attrs == desc.attrs@,
            name@ == desc.name@,
            eager@.entity == name@,
            eager@.fields == eager_fields_of(attr_decls(name@, attrs.take(i as int))),
            lazy@.entity == name@,
            lazy@.fields == lazy_fields_of(attr_decls(name@, attrs.take(i as int))),
            imp@ == (ImplState {
                entity: name@,
                table: table_of(attrs.take(i as int)),
                pk: pk_of(attrs.take(i as int)),
                pk_types: Seq::empty(),
                relations: relation_plans_of(attr_decls(name@, attrs.take(i as int))),
            }),
            strings_view(names@) == names_of(attr_decls(name@, attrs.take(i as int))),
    {
        let ghost prev = attr_decls(name@, attrs.take(i as int));
        assert(attrs.take(i + 1).drop_last() =~= attrs.take(i as int));
        assert(attrs.take(i + 1).last() == attrs[i as int]);
        let ghost names0 = names@;
        match &desc.attrs[i] {
            EntityAttr::OneToMany { field, target } => {
                eager.push_one_to_many(field.as_str(), target.duplicate());
                lazy.push_one_to_many(field.as_str(), target);
                imp.push_one_to_many(field.as_str(), target);
                names.push(field.clone());
            },
            EntityAttr::ManyToMany { field, target, join } => {
                let join_type = match join {
                    Some(j) => j.duplicate(),
                    None => {
                        let n = default_join_entity(name, target);
                        TypeRef::plain(n.as_str())
                    },
                };
                lazy.push_many_to_many(field.as_str(), target);
                imp.push_many_to_many(field.as_str(), target, &join_type);
                eager.push_many_to_many(field.as_str(), target.duplicate(), &join_type);
                names.push(field.clone());
            },
            EntityAttr::Diesel(arg) => {
                imp.parse_diesel_attr(arg);
            },
        }
        let ghost now = attr_decls(name@, attrs.take(i + 1));
        assert(imp@.table == table_of(attrs.take(i + 1)));
        assert(imp@.pk == pk_of(attrs.take(i + 1)));
        assert(imp@.pk_types == Seq::<PkFieldView>::empty());
        assert(eager_fields_of(now) =~= if now.len() == prev.len() { eager_fields_of(prev) } else { eager_fields_of(prev).push(eager_field_of(now.last())) });
        assert(lazy_fields_of(now) =~= if now.len() == prev.len() { lazy_fields_of(prev) } else { lazy_fields_of(prev).push(lazy_field_of(now.last())) });
        assert(relation_plans_of(now) =~= if now.len() == prev.len() { relation_plans_of(prev) } else { relation_plans_of(prev).push(relation_plan_of(now.last())) });
        assert(names_of(now) =~= if now.len() == prev.len() { names_of(prev) } else { names_of(prev).push(decl_name(now.last())) });
        assert(strings_view(names@) =~= if now.len() == prev.len() { strings_view(names0) } else { strings_view(names0).push(names@.last()@) });
    }
    assert(attrs.take(attrs.len() as int) =~= attrs);
    let ghost ad = attr_decls(name@, attrs);
    let ghost fields = desc.fields@;
    let ghost pk = pk_of(attrs);
    let mut insert_fields: Vec<String> = Vec::new();
    assert(fields.take(0) =~= Seq::<FieldDesc>::empty());
    assert(ad + field_decls(fields.take(0)) =~= ad);
    assert(strings_view(insert_fields@) =~= Seq::<Seq<char>>::empty());
    for i in 0..desc.fields.len()
        invariant
            fields == desc.fields@,
            name@ == desc.name@,
            ad == attr_decls(name@, desc.attrs@),
            pk == pk_of(desc.attrs@),
            eager@.entity == name@,
            eager@.fields == eager_fields_of(ad + field_decls(fields.take(i as int))),
            lazy@.entity == name@,
            lazy@.fields == lazy_fields_of(ad + field_decls(fields.take(i as int))),
            imp@ == (ImplState {
                entity: name@,
                table: table_of(desc.attrs@),
                pk,
                pk_types: pk_types_of(pk, fields.take(i as int)),
                relations: relation_plans_of(ad + field_decls(fields.take(i as int))),
            }),
            strings_view(names@) == names_of(ad + field_decls(fields.take(i as int))),
            strings_view(insert_fields@) == insert_fields_of(fields.take(i as int)),
    {
        let ghost prev = ad + field_decls(fields.take(i as int));
        assert(fields.take(i + 1).drop_last() =~= fields.take(i as int));
        assert(fields.take(i + 1).last() == fields[i as int]);
        let ghost names0 = names@;
        let ghost ins0 = insert_fields@;
        let f = &desc.fields[i];
        if let Some(t) = &f.many_to_one {
            eager.push_many_to_one(f.name.as_str(), t.duplicate());
            lazy.push_many_to_one(f.name.as_str(), t);
            imp.push_many_to_one(f.name.as_str(), t);
            names.push(relation_ident(f.name.as_str()));
        }
        imp.search_pk_type(f.name.as_str(), &f.ty);
        proof {
            reveal_strlit("id");
            assert("id"@ =~= id_name());
        }
        if !same_text(f.name.as_str(), "id") {
            insert_fields.push(f.name.clone());
        }
        let ghost now = ad + field_decls(fields.take(i + 1));
        assert(eager_fields_of(now) =~= if now.len() == prev.len() { eager_fields_of(prev) } else { eager_fields_of(prev).push(eager_field_of(now.last())) });
        assert(lazy_fields_of(now) =~= if now.len() == prev.len() { lazy_fields_of(prev) } else { lazy_fields_of(prev).push(lazy_field_of(now.last())) });
        assert(relation_plans_of(now) =~= if now.len() == prev.len() { relation_plans_of(prev) } else { relation_plans_of(prev).push(relation_plan_of(now.last())) });
        assert(names_of(now) =~= if now.len() == prev.len() { names_of(prev) } else { names_of(prev).push(decl_name(now.last())) });
        assert(strings_view(names@) =~= if now.len() == prev.len() { strings_view(names0) } else { strings_view(names0).push(names@.last()@) });
        assert(strings_view(insert_fields@) =~= if insert_fields@.len() == ins0.len() { strings_view(ins0) } else { strings_view(ins0).push(f.name@) });
    }
    assert(fields.take(fields.len() as int) =~= fields);
    let ghost ds = decls_of(*desc);
    assert(ds == ad + field_decls(fields));
    if let Some(k) = first_duplicate(&names) {
        assert(names_of(ds)[k as int] == names@[k as int]@);
        assert(!names_unique(ds)) by {
            let a = choose|a: int| 0 <= a < k && names@[a]@ == names@[k as int]@;
            assert(names_of(ds)[a] == names@[a]@);
        }
        return Err(DefinitionError::DuplicateRelation(names[k].clone()));
    }
    assert(names_unique(ds)) by {
        assert forall|a: int, b: int| 0 <= a < b < ds.len() implies decl_name(#[trigger] ds[a]) != decl_name(#[trigger] ds[b]) by {
            assert(names_of(ds)[a] == names@[a]@);
            assert(names_of(ds)[b] == names@[b]@);
        }
    }
    let table = match imp.table_name() {
        Some(t) => t,
        None => return Err(DefinitionError::MissingTableName),
    };
    let keys = imp.primary_key();
    if let Some(k) = unmatched_key(&keys, &desc.fields) {
        assert(strings_view(keys@)[k as int] == keys@[k as int]@);
        return Err(DefinitionError::UnknownPrimaryKey(keys[k].clone()));
    }
    let join_named = is_join_entity_name(name);
    let mut join_accessors: Vec<JoinAccessor> = Vec::new();
    if join_named {
        if insert_fields.len() < 2 {
            return Err(DefinitionError::JoinEntityFields);
        }
        let first = &insert_fields[0];
        let second = &insert_fields[1];
        assert(first@ == insert_fields_of(fields)[0]);
        assert(second@ == insert_fields_of(fields)[1]);
        join_accessors.push(JoinAccessor { getter: get_for(first.as_str()), field: second.clone() });
        join_accessors.push(JoinAccessor { getter: get_for(second.as_str()), field: first.clone() });
    }
    let implementation = match imp.build() {
        Some(p) => p,
        None => return Err(DefinitionError::MissingTableName),
    };
    let insert_name_s = joined("New", name);
    proof {
        reveal_strlit("New");
        assert("New"@ =~= seq!['N', 'e', 'w']);
    }
    let plan = EntityPlan {
        eager: eager.build(),
        lazy: lazy.build(),
        implementation,
        insertable: InsertPlan { name: insert_name_s, table, fields: insert_fields },
        join_accessors,
    };
    Ok(plan)
}

} // verus!
