//! The implementation block of an entity: its table handle, key lookup, full
//! scan, insert, the eager and single-relation grouped queries, and one
//! accessor per relation.
use vstd::prelude::*;
use vstd::pervasive::VecAdditionalExecFns;
use crate::naming::{relation_name, relation_ident, names_join_entity, is_join_entity_name};
use crate::text::{joined, same_text};
use crate::types::{TypeRef, TypeView, type_text, is_option, strip_option, wrap_option, extract_type_from_option, make_type_option, type_is_option};
use crate::eager_entity::with_all_name;

verus! {

#[derive(Clone, Copy, Debug, PartialEq, Eq, Structural)]
pub enum RelationKind {
    ManyToOne,
    OneToMany,
    ManyToMany,
}

/// How the related table enters the joined query.
#[derive(Clone, Copy, Debug, PartialEq, Eq, Structural)]
pub enum JoinKind {
    /// Every base row has the related row: a required many-to-one relation.
    Inner,
    /// The related row may be missing.
    Left,
}

/// Everything the generated code does for one relation.
pub struct RelationPlan {
    pub kind: RelationKind,
    /// The relation's generated identifier.
    pub name: String,
    /// The field of the entity the relation was declared on.
    pub key_field: String,
    /// The type as annotated.
    pub declared: TypeRef,
    /// The related entity's type.
    pub target: TypeRef,
    /// The join entity a many-to-many relation goes through.
    pub join_entity: Option<TypeRef>,
    pub join: JoinKind,
    /// What a joined row carries for the relation.
    pub select: TypeRef,
    /// The accessor that loads the relation for one instance.
    pub getter: String,
    /// The query that loads every instance with this relation alone.
    pub finder: String,
    /// The lazy slot keeps only the identifiers of the selected rows: a
    /// one-to-many relation to a type named like a join entity.
    pub ids_only: bool,
}

pub struct RelationPlanView {
    pub kind: RelationKind,
    pub name: Seq<char>,
    pub key_field: Seq<char>,
    pub declared: TypeView,
    pub target: TypeView,
    pub join_entity: Option<TypeView>,
    pub join: JoinKind,
    pub select: TypeView,
    pub getter: Seq<char>,
    pub finder: Seq<char>,
    pub ids_only: bool,
}

impl View for RelationPlan {
    type V = RelationPlanView;

    open spec fn view(&self) -> RelationPlanView {
        RelationPlanView {
            kind: self.kind,
            name: self.name@,
            key_field: self.key_field@,
            declared: self.declared@,
            target: self.target@,
            join_entity: match self.join_entity {
                Some(t) => Some(t@),
                None => None,
            },
            join: self.join,
            select: self.select@,
            getter: self.getter@,
            finder: self.finder@,
            ids_only: self.ids_only,
        }
    }
}

/// A primary-key field and its type.
pub struct PkField {
    pub name: String,
    pub ty: TypeRef,
}

pub struct PkFieldView {
    pub name: Seq<char>,
    pub ty: TypeView,
}

impl View for PkField {
    type V = PkFieldView;

    open spec fn view(&self) -> PkFieldView {
        PkFieldView { name: self.name@, ty: self.ty@ }
    }
}

/// One equality filter of the key lookup: `column == param`.
pub struct KeyFilter {
    pub column: String,
    pub param: String,
}

pub struct KeyFilterView {
    pub column: Seq<char>,
    pub param: Seq<char>,
}

impl View for KeyFilter {
    type V = KeyFilterView;

    open spec fn view(&self) -> KeyFilterView {
        KeyFilterView { column: self.column@, param: self.param@ }
    }
}

pub open spec fn filters_view(s: Seq<KeyFilter>) -> Seq<KeyFilterView> {
    s.map(|i: int, x: KeyFilter| x@)
}

/// An argument of the `diesel` attribute the generator reads.
pub enum DieselArg {
    /// `table_name = <path>`
    TableName(String),
    /// `primary_key(<field>, ...)`
    PrimaryKey(Vec<String>),
}

pub enum DieselView {
    TableName(Seq<char>),
    PrimaryKey(Seq<Seq<char>>),
}

impl View for DieselArg {
    type V = DieselView;

    open spec fn view(&self) -> DieselView {
        match self {
            DieselArg::TableName(t) => DieselView::TableName(t@),
            DieselArg::PrimaryKey(ks) => DieselView::PrimaryKey(strings_view(ks@)),
        }
    }
}

/// What the implementation block holds.
pub struct ImplPlan {
    pub entity: String,
    pub table: String,
    /// The insertable projection `insert` takes and returns.
    pub insert_type: String,
    pub find_params: Vec<PkField>,
    pub find_filters: Vec<KeyFilter>,
    /// The eager aggregate `find_all_eager` returns, when it is emitted.
    pub eager_type: Option<String>,
    /// Whether a `find_all_with_<relation>` query is emitted per relation.
    pub grouped_finders: bool,
    pub relations: Vec<RelationPlan>,
}

pub struct EntityImplAST {
    entity_type: String,
    table_name: Option<String>,
    model_pk: Vec<String>,
    model_pk_t: Vec<PkField>,
    relations: Vec<RelationPlan>,
}

#[verifier::ext_equal]
pub struct ImplState {
    pub entity: Seq<char>,
    pub table: Option<Seq<char>>,
    pub pk: Seq<Seq<char>>,
    pub pk_types: Seq<PkFieldView>,
    pub relations: Seq<RelationPlanView>,
}

impl View for EntityImplAST {
    type V = ImplState;

    closed spec fn view(&self) -> ImplState {
        ImplState {
            entity: self.entity_type@,
            table: match self.table_name {
                Some(t) => Some(t@),
                None => None,
            },
            pk: strings_view(self.model_pk@),
            pk_types: pk_fields_view(self.model_pk_t@),
            relations: relations_view(self.relations@),
        }
    }
}

pub open spec fn strings_view(s: Seq<String>) -> Seq<Seq<char>> {
    s.map(|i: int, x: String| x@)
}

pub open spec fn pk_fields_view(s: Seq<PkField>) -> Seq<PkFieldView> {
    s.map(|i: int, x: PkField| x@)
}

pub open spec fn relations_view(s: Seq<RelationPlan>) -> Seq<RelationPlanView> {
    s.map(|i: int, x: RelationPlan| x@)
}

pub open spec fn getter_name(name: Seq<char>) -> Seq<char> {
    seq!['g', 'e', 't', '_'] + name
}

pub open spec fn finder_name(name: Seq<char>) -> Seq<char> {
    seq!['f', 'i', 'n', 'd', '_', 'a', 'l', 'l', '_', 'w', 'i', 't', 'h', '_'] + name
}

pub open spec fn insert_name(entity: Seq<char>) -> Seq<char> {
    seq!['N', 'e', 'w'] + entity
}

/// A many-to-one relation: looked up by its key, inner-joined when the key is
/// required and left-joined when it is optional.
pub open spec fn many_to_one_plan(field: Seq<char>, ty: TypeView) -> RelationPlanView {
    let name = relation_name(field);
    RelationPlanView {
        kind: RelationKind::ManyToOne,
        name,
        key_field: field,
        declared: ty,
        target: strip_option(ty),
        join_entity: None,
        join: if is_option(ty) { JoinKind::Left } else { JoinKind::Inner },
        select: if is_option(ty) { wrap_option(strip_option(ty)) } else { ty },
        getter: getter_name(name),
        finder: finder_name(name),
        ids_only: false,
    }
}

/// A one-to-many relation: the children that belong to the instance,
/// left-joined.
pub open spec fn one_to_many_plan(field: Seq<char>, ty: TypeView) -> RelationPlanView {
    RelationPlanView {
        kind: RelationKind::OneToMany,
        name: field,
        key_field: field,
        declared: ty,
        target: ty,
        join_entity: None,
        join: JoinKind::Left,
        select: wrap_option(ty),
        getter: getter_name(field),
        finder: finder_name(field),
        ids_only: names_join_entity(type_text(ty)),
    }
}

/// A many-to-many relation: reached through the join entity, left-joined.
pub open spec fn many_to_many_plan(field: Seq<char>, ty: TypeView, join: TypeView) -> RelationPlanView {
    RelationPlanView {
        kind: RelationKind::ManyToMany,
        name: field,
        key_field: field,
        declared: ty,
        target: ty,
        join_entity: Some(join),
        join: JoinKind::Left,
        select: wrap_option(ty),
        getter: getter_name(field),
        finder: finder_name(field),
        ids_only: false,
    }
}

pub open spec fn id_type_view() -> TypeView {
    TypeView { path: seq!['i', '6', '4'], wrappers: Seq::empty() }
}

/// The parameters of the key lookup: the declared primary-key fields whose
/// types were found, or else one `uid: i64`.
pub open spec fn find_params_of(s: ImplState) -> Seq<PkFieldView> {
    if s.pk_types.len() > 0 {
        s.pk_types
    } else {
        seq![PkFieldView { name: uid_param(), ty: id_type_view() }]
    }
}

/// The filters of the key lookup, ANDed: each declared primary-key column
/// equals the parameter of its name, or else `id == uid`.
pub open spec fn find_filters_of(s: ImplState) -> Seq<KeyFilterView> {
    if s.pk_types.len() > 0 {
        s.pk.map(|i: int, c: Seq<char>| KeyFilterView { column: c, param: c })
    } else {
        seq![KeyFilterView { column: id_column(), param: uid_param() }]
    }
}

/// Grouped queries need the single `id` key: an explicit primary key, which
/// may be composite, turns them off.
pub open spec fn grouping_supported(s: ImplState) -> bool {
    s.pk.len() == 0
}

/// The position of the first entry named `name`, or -1.
pub open spec fn first_named(s: Seq<PkFieldView>, name: Seq<char>) -> int
    decreases s.len(),
{
    if s.len() == 0 {
        -1
    } else {
        let p = first_named(s.drop_last(), name);
        if p >= 0 {
            p
        } else if s.last().name == name {
            s.len() - 1
        } else {
            -1
        }
    }
}

/// The key-type table after recording `name: ty`: the new type replaces the
/// one recorded for `name`, or is appended when there is none.
pub open spec fn record_pk_type(s: Seq<PkFieldView>, name: Seq<char>, ty: TypeView) -> Seq<PkFieldView> {
    let k = first_named(s, name);
    if k >= 0 {
        s.update(k, PkFieldView { name, ty })
    } else {
        s.push(PkFieldView { name, ty })
    }
}

pub proof fn lemma_first_named(s: Seq<PkFieldView>, name: Seq<char>)
    ensures
        first_named(s, name) == -1 <==> forall|k: int| 0 <= k < s.len() ==> #[trigger] s[k].name != name,
        first_named(s, name) >= 0 ==> {
            let p = first_named(s, name);
            &&& p < s.len()
            &&& s[p].name == name
            &&& forall|k: int| 0 <= k < p ==> #[trigger] s[k].name != name
        },
        first_named(s, name) >= -1,
    decreases s.len(),
{
    if s.len() > 0 {
        let t = s.drop_last();
        lemma_first_named(t, name);
        assert forall|k: int| 0 <= k < t.len() implies #[trigger] t[k] == s[k] by {}
        let p = first_named(t, name);
        if p >= 0 {
            assert(t[p] == s[p]);
            assert forall|k: int| 0 <= k < p implies #[trigger] s[k].name != name by {
                assert(t[k] == s[k]);
            }
        } else if s.last().name == name {
            assert forall|k: int| 0 <= k < s.len() - 1 implies #[trigger] s[k].name != name by {
                assert(t[k] == s[k]);
            }
        }
        if first_named(t, name) == -1 && s.last().name != name {
            assert forall|k: int| 0 <= k < s.len() implies #[trigger] s[k].name != name by {
                if k < t.len() {
                    assert(t[k] == s[k]);
                }
            }
        }
    }
}

/// What the implementation block built from builder state `s` holds.
pub open spec fn impl_plan_of(p: ImplPlan, s: ImplState) -> bool {
    &&& s.table == Some(p.table@)
    &&& p.entity@ == s.entity
    &&& p.insert_type@ == insert_name(s.entity)
    &&& pk_fields_view(p.find_params@) == find_params_of(s)
    &&& filters_view(p.find_filters@) == find_filters_of(s)
    &&& (p.eager_type is Some <==> s.relations.len() > 0 && grouping_supported(s))
    &&& (p.eager_type matches Some(t) ==> t@ == with_all_name(s.entity))
    &&& p.grouped_finders == grouping_supported(s)
    &&& relations_view(p.relations@) == s.relations
}

pub open spec fn id_column() -> Seq<char> {
    seq!['i', 'd']
}

pub open spec fn uid_param() -> Seq<char> {
    seq!['u', 'i', 'd']
}

fn getter_for(name: &str) -> (r: String)
    ensures
        r@ == getter_name(name@),
{
    proof {
        reveal_strlit("get_");
        assert("get_"@ =~= seq!['g', 'e', 't', '_']);
    }
    joined("get_", name)
}

fn finder_for(name: &str) -> (r: String)
    ensures
        r@ == finder_name(name@),
{
    proof {
        reveal_strlit("find_all_with_");
        assert("find_all_with_"@ =~= seq!['f', 'i', 'n', 'd', '_', 'a', 'l', 'l', '_', 'w', 'i', 't', 'h', '_']);
    }
    joined("find_all_with_", name)
}

impl PkField {
    pub fn duplicate(&self) -> (r: PkField)
        ensures
            r@ == self@,
    {
        PkField { name: self.name.clone(), ty: self.ty.duplicate() }
    }
}

impl RelationPlan {
    pub fn duplicate(&self) -> (r: RelationPlan)
        ensures
            r@ == self@,
    {
        let join_entity = match &self.join_entity {
            Some(t) => Some(t.duplicate()),
            None => None,
        };
        RelationPlan {
            kind: self.kind,
            name: self.name.clone(),
            key_field: self.key_field.clone(),
            declared: self.declared.duplicate(),
            target: self.target.duplicate(),
            join_entity,
            join: self.join,
            select: self.select.duplicate(),
            getter: self.getter.clone(),
            finder: self.finder.clone(),
            ids_only: self.ids_only,
        }
    }
}

impl EntityImplAST {
    pub fn new(entity_type: &str) -> (r: Self)
        ensures
            r@.entity == entity_type@,
            r@.table is None,
            r@.pk.len() == 0,
            r@.pk_types.len() == 0,
            r@.relations.len() == 0,
    {
        let r = EntityImplAST {
            entity_type: entity_type.to_string(),
            table_name: None,
            model_pk: Vec::new(),
            model_pk_t: Vec::new(),
            relations: Vec::new(),
        };
        assert(r@.pk =~= Seq::<Seq<char>>::empty());
        assert(r@.pk_types =~= Seq::<PkFieldView>::empty());
        assert(r@.relations =~= Seq::<RelationPlanView>::empty());
        r
    }

    /// The backing table, when one was named.
    pub fn table_name(&self) -> (r: Option<String>)
        ensures
            r matches Some(t) ==> self@.table == Some(t@),
            r is None ==> self@.table is None,
    {
        match &self.table_name {
            Some(t) => Some(t.clone()),
            None => None,
        }
    }

    /// The declared primary-key fields, in order.
    pub fn primary_key(&self) -> (r: Vec<String>)
        ensures
            strings_view(r@) == self@.pk,
    {
        let mut out: Vec<String> = Vec::new();
        for i in 0..self.model_pk.len()
            invariant
                out.len() == i,
                i <= self.model_pk.len(),
                forall|k: int| 0 <= k < i ==> (#[trigger] out@[k])@ == self.model_pk@[k]@,
        {
            out.push(self.model_pk[i].clone());
        }
        assert(strings_view(out@) =~= self@.pk);
        out
    }

    pub fn set_table_name(&mut self, table_name: &str)
        ensures
            final(self)@ == (ImplState { table: Some(table_name@), ..old(self)@ }),
    {
        self.table_name = Some(table_name.to_string());
    }

    /// Reads one argument of the `diesel` attribute: the table name, or the
    /// primary-key fields, which are appended in order.
    pub fn parse_diesel_attr(&mut self, arg: &DieselArg)
        ensures
            arg matches DieselArg::TableName(t) ==> final(self)@ == (ImplState { table: Some(t@), ..old(self)@ }),
            arg matches DieselArg::PrimaryKey(keys) ==> final(self)@ == (ImplState {
                pk: old(self)@.pk + strings_view(keys@),
                ..old(self)@
            }),
    {
        match arg {
            DieselArg::TableName(t) => {
                self.set_table_name(t.as_str());
            },
            DieselArg::PrimaryKey(keys) => {
                let ghost s0 = self@;
                for i in 0..keys.len()
                    invariant
                        i <= keys.len(),
                        self@ == (ImplState { pk: s0.pk + strings_view(keys@.take(i as int)), ..s0 }),
                {
                    let ghost before = self.model_pk@;
                    self.model_pk.push(keys[i].clone());
                    assert(self.model_pk@ == before.push(keys@[i as int]));
                    assert(strings_view(keys@.take(i + 1)) =~= strings_view(keys@.take(i as int)).push(keys@[i as int]@));
                    assert(strings_view(self.model_pk@) =~= strings_view(before).push(keys@[i as int]@));
                    assert(strings_view(before) == s0.pk + strings_view(keys@.take(i as int)));
                    assert(self@.pk =~= s0.pk + strings_view(keys@.take(i + 1)));
                }
                assert(keys@.take(keys.len() as int) =~= keys@);
            },
        }
    }

    /// Records the type of `field_name` when it is a declared primary-key
    /// field; a type recorded for it before is replaced.
    pub fn search_pk_type(&mut self, field_name: &str, ty: &TypeRef)
        ensures
            old(self)@.pk.contains(field_name@) ==> final(self)@ == (ImplState {
                pk_types: record_pk_type(old(self)@.pk_types, field_name@, ty@),
                ..old(self)@
            }),
            !old(self)@.pk.contains(field_name@) ==> final(self)@ == old(self)@,
    {
        let ghost s0 = self@;
        let mut declared = false;
        for i in 0..self.model_pk.len()
            invariant
                self@ == s0,
                declared == (exists|k: int| 0 <= k < i && #[trigger] s0.pk[k] == field_name@),
        {
            assert(s0.pk[i as int] == self.model_pk@[i as int]@);
            if same_text(self.model_pk[i].as_str(), field_name) {
                declared = true;
            }
        }
        if !declared {
            assert(!s0.pk.contains(field_name@));
            return;
        }
        assert(s0.pk.contains(field_name@));
        proof {
            lemma_first_named(s0.pk_types, field_name@);
        }
        let n = self.model_pk_t.len();
        for i in 0..n
            invariant
                self@ == s0,
                n == self.model_pk_t.len(),
                n == s0.pk_types.len(),
                s0 == old(self)@,
                s0.pk.contains(field_name@),
                forall|k: int| 0 <= k < i ==> #[trigger] s0.pk_types[k].name != field_name@,
        {
            assert(s0.pk_types[i as int] == self.model_pk_t@[i as int]@);
            if same_text(self.model_pk_t[i].name.as_str(), field_name) {
                assert(s0.pk_types[i as int].name == field_name@);
                proof {
                    lemma_first_named(s0.pk_types, field_name@);
                }
                let ghost entry = PkFieldView { name: field_name@, ty: ty@ };
                assert(first_named(s0.pk_types, field_name@) == i as int);
                let item = PkField { name: field_name.to_string(), ty: ty.duplicate() };
                assert(item@ == entry);
                let ghost before = self.model_pk_t@;
                self.model_pk_t.set(i, item);
                assert(self.model_pk_t@ == before.update(i as int, item));
                assert(self@.pk_types =~= s0.pk_types.update(i as int, entry));
                assert(self@ =~= (ImplState { pk_types: record_pk_type(s0.pk_types, field_name@, ty@), ..s0 }));
                return;
            }
        }
        assert(first_named(s0.pk_types, field_name@) == -1);
        self.model_pk_t.push(PkField { name: field_name.to_string(), ty: ty.duplicate() });
        assert(self@.pk_types =~= s0.pk_types.push(PkFieldView { name: field_name@, ty: ty@ }));
    }

    /// The key lookup's parameters and filters over the declared primary key.
    fn make_find_fn(&self) -> (r: (Vec<PkField>, Vec<KeyFilter>))
        ensures
            pk_fields_view(r.0@) == find_params_of(self@),
            filters_view(r.1@) == find_filters_of(self@),
    {
        if self.model_pk_t.len() == 0 {
            return Self::default_find_fn();
        }
        let mut params: Vec<PkField> = Vec::new();
        for i in 0..self.model_pk_t.len()
            invariant
                params.len() == i,
                i <= self.model_pk_t.len(),
                forall|k: int| 0 <= k < i ==> (#[trigger] params@[k])@ == self.model_pk_t@[k]@,
        {
            params.push(self.model_pk_t[i].duplicate());
        }
        let mut filters: Vec<KeyFilter> = Vec::new();
        for i in 0..self.model_pk.len()
            invariant
                filters.len() == i,
                i <= self.model_pk.len(),
                forall|k: int|
                    0 <= k < i ==> (#[trigger] filters@[k])@ == (KeyFilterView {
                        column: self.model_pk@[k]@,
                        param: self.model_pk@[k]@,
                    }),
        {
            filters.push(KeyFilter { column: self.model_pk[i].clone(), param: self.model_pk[i].clone() });
        }
        assert(pk_fields_view(params@) =~= find_params_of(self@));
        assert(filters_view(filters@) =~= find_filters_of(self@));
        (params, filters)
    }

    /// The key lookup of an entity keyed by `id`: one `uid: i64` parameter.
    fn default_find_fn() -> (r: (Vec<PkField>, Vec<KeyFilter>))
        ensures
            pk_fields_view(r.0@) == seq![PkFieldView { name: uid_param(), ty: id_type_view() }],
            filters_view(r.1@) == seq![KeyFilterView { column: id_column(), param: uid_param() }],
    {
        let ty = TypeRef::plain("i64");
        let params = vec![PkField { name: String::from_str("uid"), ty }];
        let filters = vec![KeyFilter { column: String::from_str("id"), param: String::from_str("uid") }];
        proof {
            reveal_strlit("i64");
            reveal_strlit("uid");
            reveal_strlit("id");
            assert(params@[0]@.ty.path =~= id_type_view().path);
            assert(params@[0]@.ty.wrappers =~= id_type_view().wrappers);
            assert(params@[0]@.name =~= uid_param());
            assert(filters@[0]@.column =~= id_column());
            assert(filters@[0]@.param =~= uid_param());
            assert(pk_fields_view(params@) =~= seq![PkFieldView { name: uid_param(), ty: id_type_view() }]);
            assert(filters_view(filters@) =~= seq![KeyFilterView { column: id_column(), param: uid_param() }]);
        }
        (params, filters)
    }

    /// The eager aggregate `find_all_eager` returns, when the query is emitted:
    /// some relation is registered and no explicit primary key was declared.
    fn make_find_all_eager_fn(&self) -> (r: Option<String>)
        ensures
            r is Some <==> self@.relations.len() > 0 && grouping_supported(self@),
            r matches Some(t) ==> t@ == with_all_name(self@.entity),
    {
        if self.relations.len() > 0 && self.model_pk.len() == 0 {
            let t = joined(self.entity_type.as_str(), "WithAll");
            proof {
                reveal_strlit("WithAll");
                assert("WithAll"@ =~= seq!['W', 'i', 't', 'h', 'A', 'l', 'l']);
            }
            Some(t)
        } else {
            None
        }
    }

    /// Whether the single-relation grouped queries are emitted.
    fn make_find_all_with(&self) -> (r: bool)
        ensures
            r == grouping_supported(self@),
    {
        self.model_pk.len() == 0
    }

    /// The implementation block, or nothing when no backing table was named.
    pub fn build(&self) -> (r: Option<ImplPlan>)
        ensures
            r is None <==> self@.table is None,
            r matches Some(p) ==> impl_plan_of(p, self@),
    {
        let table = match self.table_name() {
            Some(t) => t,
            None => return None,
        };
        let (find_params, find_filters) = self.make_find_fn();
        let eager_type = self.make_find_all_eager_fn();
        let grouped_finders = self.make_find_all_with();
        let mut relations: Vec<RelationPlan> = Vec::new();
        for i in 0..self.relations.len()
            invariant
                relations.len() == i,
                i <= self.relations.len(),
                forall|k: int| 0 <= k < i ==> (#[trigger] relations@[k])@ == self.relations@[k]@,
        {
            relations.push(self.relations[i].duplicate());
        }
        assert(relations_view(relations@) =~= self@.relations);
        let insert_type = joined("New", self.entity_type.as_str());
        proof {
            reveal_strlit("New");
            assert("New"@ =~= seq!['N', 'e', 'w']);
        }
        Some(ImplPlan {
            entity: self.entity_type.clone(),
            table,
            insert_type,
            find_params,
            find_filters,
            eager_type,
            grouped_finders,
            relations,
        })
    }

    fn push_relation(&mut self, r: RelationPlan)
        ensures
            final(self)@ == (ImplState { relations: old(self)@.relations.push(r@), ..old(self)@ }),
    {
        self.relations.push(r);
        assert(self@.relations =~= old(self)@.relations.push(r@));
    }

    pub fn push_many_to_one(&mut self, field_name: &str, ty: &TypeRef)
        ensures
            final(self)@ == (ImplState {
                relations: old(self)@.relations.push(many_to_one_plan(field_name@, ty@)),
                ..old(self)@
            }),
    {
        let name = relation_ident(field_name);
        let target = extract_type_from_option(ty);
        let optional = type_is_option(ty);
        let select = if optional {
            make_type_option(&target)
        } else {
            ty.duplicate()
        };
        let getter = getter_for(name.as_str());
        let finder = finder_for(name.as_str());
        let plan = RelationPlan {
            kind: RelationKind::ManyToOne,
            name,
            key_field: field_name.to_string(),
            declared: ty.duplicate(),
            target,
            join_entity: None,
            join: if optional { JoinKind::Left } else { JoinKind::Inner },
            select,
            getter,
            finder,
            ids_only: false,
        };
        self.push_relation(plan);
    }

    pub fn push_one_to_many(&mut self, field_name: &str, ty: &TypeRef)
        ensures
            final(self)@ == (ImplState {
                relations: old(self)@.relations.push(one_to_many_plan(field_name@, ty@)),
                ..old(self)@
            }),
    {
        let plan = RelationPlan {
            kind: RelationKind::OneToMany,
            name: field_name.to_string(),
            key_field: field_name.to_string(),
            declared: ty.duplicate(),
            target: ty.duplicate(),
            join_entity: None,
            join: JoinKind::Left,
            select: make_type_option(ty),
            getter: getter_for(field_name),
            finder: finder_for(field_name),
            ids_only: is_join_entity_name(ty.text().as_str()),
        };
        self.push_relation(plan);
    }

    pub fn push_many_to_many(&mut self, field_name: &str, ty: &TypeRef, join_type: &TypeRef)
        ensures
            final(self)@ == (ImplState {
                relations: old(self)@.relations.push(many_to_many_plan(field_name@, ty@, join_type@)),
                ..old(self)@
            }),
    {
        let plan = RelationPlan {
            kind: RelationKind::ManyToMany,
            name: field_name.to_string(),
            key_field: field_name.to_string(),
            declared: ty.duplicate(),
            target: ty.duplicate(),
            join_entity: Some(join_type.duplicate()),
            join: JoinKind::Left,
            select: make_type_option(ty),
            getter: getter_for(field_name),
            finder: finder_for(field_name),
            ids_only: false,
        };
        self.push_relation(plan);
    }
}

} // verus!
