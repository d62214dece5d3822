//! The eager aggregate: a type holding the base row and every relation fully
//! loaded, built in one shot from a joined row and extended by later rows of
//! the same parent.
use vstd::prelude::*;
use crate::grouping::Shape;
use crate::naming::{relation_name, relation_ident};
use crate::text::joined;
use crate::types::{TypeRef, TypeView};

verus! {

/// A relation field of the eager aggregate: a scalar of type `ty`
/// (`Shape::One`), or a `Vec<ty>` (`Shape::Many`) whose constructor parameter
/// is an `Option<ty>`.
pub struct EagerField {
    pub name: String,
    pub ty: TypeRef,
    pub shape: Shape,
}

pub struct EagerFieldView {
    pub name: Seq<char>,
    pub ty: TypeView,
    pub shape: Shape,
}

impl View for EagerField {
    type V = EagerFieldView;

    open spec fn view(&self) -> EagerFieldView {
        EagerFieldView { name: self.name@, ty: self.ty@, shape: self.shape }
    }
}

/// What the eager aggregate's definition holds: its name, the base row's
/// type, and the relation fields in the order they were registered.
pub struct EagerPlan {
    pub name: String,
    pub base_type: String,
    pub fields: Vec<EagerField>,
}

pub struct EagerEntityAST {
    entity_type: String,
    fields: Vec<EagerField>,
}

pub struct EagerState {
    pub entity: Seq<char>,
    pub fields: Seq<EagerFieldView>,
}

impl View for EagerEntityAST {
    type V = EagerState;

    closed spec fn view(&self) -> EagerState {
        EagerState { entity: self.entity_type@, fields: self.fields@.map(|i: int, f: EagerField| f@) }
    }
}

pub open spec fn fields_view(fs: Seq<EagerField>) -> Seq<EagerFieldView> {
    fs.map(|i: int, f: EagerField| f@)
}

/// The name of the eager aggregate of `entity`.
pub open spec fn with_all_name(entity: Seq<char>) -> Seq<char> {
    entity + seq!['W', 'i', 't', 'h', 'A', 'l', 'l']
}

impl EagerEntityAST {
    pub fn new(entity_type: &str) -> (r: Self)
        ensures
            r@.entity == entity_type@,
            r@.fields.len() == 0,
    {
        let r = EagerEntityAST { entity_type: entity_type.to_string(), fields: Vec::new() };
        assert(r@.fields =~= Seq::<EagerFieldView>::empty());
        r
    }

    fn push_field(&mut self, field: EagerField)
        ensures
            final(self)@.entity == old(self)@.entity,
            final(self)@.fields == old(self)@.fields.push(field@),
    {
        self.fields.push(field);
        assert(self@.fields =~= old(self)@.fields.push(field@));
    }

    /// A many-to-one relation on key field `field_name`: a scalar field named
    /// after the key with `_id` taken out, of the annotated type.
    pub fn push_many_to_one(&mut self, field_name: &str, ty: TypeRef)
        ensures
            final(self)@.entity == old(self)@.entity,
            final(self)@.fields == old(self)@.fields.push(
                EagerFieldView { name: relation_name(field_name@), ty: ty@, shape: Shape::One },
            ),
    {
        let name = relation_ident(field_name);
        self.push_field(EagerField { name, ty, shape: Shape::One });
    }

    /// A one-to-many relation: a list field of the related type.
    pub fn push_one_to_many(&mut self, field_name: &str, ty: TypeRef)
        ensures
            final(self)@.entity == old(self)@.entity,
            final(self)@.fields == old(self)@.fields.push(
                EagerFieldView { name: field_name@, ty: ty@, shape: Shape::Many },
            ),
    {
        self.push_field(EagerField { name: field_name.to_string(), ty, shape: Shape::Many });
    }

    /// A many-to-many relation: a list field of the related type, as for
    /// one-to-many; the join entity plays no part in the aggregate.
    pub fn push_many_to_many(&mut self, field_name: &str, ty: TypeRef, join_type: &TypeRef)
        ensures
            final(self)@.entity == old(self)@.entity,
            final(self)@.fields == old(self)@.fields.push(
                EagerFieldView { name: field_name@, ty: ty@, shape: Shape::Many },
            ),
    {
        self.push_one_to_many(field_name, ty);
    }

    /// Readies the builder for `build`; fields keep their registration order.
    pub fn prepare(&mut self)
        ensures
            final(self)@ == old(self)@,
    {
    }

    /// The aggregate's definition, or nothing when no relation was registered.
    pub fn build(self) -> (r: Option<EagerPlan>)
        ensures
            r is None <==> self@.fields.len() == 0,
            r matches Some(p) ==> p.name@ == with_all_name(self@.entity) && p.base_type@
                == self@.entity && fields_view(p.fields@) == self@.fields,
    {
        if self.fields.len() == 0 {
            return None;
        }
        let EagerEntityAST { entity_type, fields } = self;
        let name = joined(entity_type.as_str(), "WithAll");
        proof {
            reveal_strlit("WithAll");
            assert("WithAll"@ =~= seq!['W', 'i', 't', 'h', 'A', 'l', 'l']);
        }
        Some(EagerPlan { name, base_type: entity_type, fields })
    }
}

} // verus!
