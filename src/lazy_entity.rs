//! The lazy type: the base row with one absent-until-filled slot per
//! relation, and a push-or-set mutator per relation.
use vstd::prelude::*;
use crate::grouping::Shape;
use crate::naming::{relation_name, relation_ident, names_join_entity, is_join_entity_name};
use crate::text::joined;
use crate::types::{TypeRef, TypeView, type_text, strip_option, extract_type_from_option};

verus! {

/// A relation slot of the lazy type: `Option<element>` (`Shape::One`) or
/// `Option<Vec<element>>` (`Shape::Many`), filled by the mutator `setter`,
/// which takes an `element`.
pub struct LazyField {
    pub name: String,
    pub element: TypeRef,
    pub shape: Shape,
    pub setter: String,
}

pub struct LazyFieldView {
    pub name: Seq<char>,
    pub element: TypeView,
    pub shape: Shape,
    pub setter: Seq<char>,
}

impl View for LazyField {
    type V = LazyFieldView;

    open spec fn view(&self) -> LazyFieldView {
        LazyFieldView { name: self.name@, element: self.element@, shape: self.shape, setter: self.setter@ }
    }
}

/// What the lazy type's definition holds.
pub struct LazyPlan {
    pub name: String,
    pub base_type: String,
    pub fields: Vec<LazyField>,
}

pub struct LazyEntityAST {
    entity_type: String,
    fields: Vec<LazyField>,
}

pub struct LazyState {
    pub entity: Seq<char>,
    pub fields: Seq<LazyFieldView>,
}

impl View for LazyEntityAST {
    type V = LazyState;

    closed spec fn view(&self) -> LazyState {
        LazyState { entity: self.entity_type@, fields: self.fields@.map(|i: int, f: LazyField| f@) }
    }
}

pub open spec fn lazy_fields_view(fs: Seq<LazyField>) -> Seq<LazyFieldView> {
    fs.map(|i: int, f: LazyField| f@)
}

pub open spec fn lazy_name(entity: Seq<char>) -> Seq<char> {
    entity + seq!['L', 'a', 'z', 'y']
}

/// The mutator that fills relation `name`.
pub open spec fn setter_name(name: Seq<char>) -> Seq<char> {
    seq!['p', 'u', 's', 'h', '_', 'o', 'r', '_', 's', 'e', 't', '_'] + name
}

pub open spec fn id_type() -> TypeView {
    TypeView { path: seq!['i', '6', '4'], wrappers: Seq::empty() }
}

/// The element a one-to-many slot stores: the bare identifier type when the
/// related type is named like a join entity (only keys pass through a pure
/// join table), the related type otherwise.
pub open spec fn one_to_many_element(ty: TypeView) -> TypeView {
    if names_join_entity(type_text(ty)) {
        id_type()
    } else {
        ty
    }
}

fn setter_for(name: &str) -> (r: String)
    ensures
        r@ == setter_name(name@),
{
    proof {
        reveal_strlit("push_or_set_");
        assert("push_or_set_"@ =~= seq!['p', 'u', 's', 'h', '_', 'o', 'r', '_', 's', 'e', 't', '_']);
    }
    joined("push_or_set_", name)
}

impl LazyEntityAST {
    pub fn new(entity_type: &str) -> (r: Self)
        ensures
            r@.entity == entity_type@,
            r@.fields.len() == 0,
    {
        let r = LazyEntityAST { entity_type: entity_type.to_string(), fields: Vec::new() };
        assert(r@.fields =~= Seq::<LazyFieldView>::empty());
        r
    }

    fn push_field(&mut self, name: String, element: TypeRef, shape: Shape)
        ensures
            final(self)@.entity == old(self)@.entity,
            final(self)@.fields == old(self)@.fields.push(
                LazyFieldView { name: name@, element: element@, shape, setter: setter_name(name@) },
            ),
    {
        let setter = setter_for(name.as_str());
        self.fields.push(LazyField { name, element, shape, setter });
        assert(self@.fields =~= old(self)@.fields.push(
            LazyFieldView { name: name@, element: element@, shape, setter: setter_name(name@) },
        ));
    }

    /// A many-to-one relation on key field `field_name`: an optional scalar
    /// slot named after the key with `_id` taken out, holding the related
    /// type (with `Option` taken off when the key is optional).
    pub fn push_many_to_one(&mut self, field_name: &str, ty: &TypeRef)
        ensures
            final(self)@.entity == old(self)@.entity,
            final(self)@.fields == old(self)@.fields.push(
                LazyFieldView {
                    name: relation_name(field_name@),
                    element: strip_option(ty@),
                    shape: Shape::One,
                    setter: setter_name(relation_name(field_name@)),
                },
            ),
    {
        let name = relation_ident(field_name);
        let element = extract_type_from_option(ty);
        self.push_field(name, element, Shape::One);
    }

    /// A one-to-many relation: an optional list slot.
    pub fn push_one_to_many(&mut self, field_name: &str, ty: &TypeRef)
        ensures
            final(self)@.entity == old(self)@.entity,
            final(self)@.fields == old(self)@.fields.push(
                LazyFieldView {
                    name: field_name@,
                    element: one_to_many_element(ty@),
                    shape: Shape::Many,
                    setter: setter_name(field_name@),
                },
            ),
    {
        let text = ty.text();
        let element = if is_join_entity_name(text.as_str()) {
            let e = TypeRef::plain("i64");
            proof {
                reveal_strlit("i64");
                assert(e@.path =~= id_type().path);
                assert(e@.wrappers =~= id_type().wrappers);
            }
            e
        } else {
            ty.duplicate()
        };
        self.push_field(field_name.to_string(), element, Shape::Many);
    }

    /// A many-to-many relation: an optional list slot of the related type.
    pub fn push_many_to_many(&mut self, field_name: &str, ty: &TypeRef)
        ensures
            final(self)@.entity == old(self)@.entity,
            final(self)@.fields == old(self)@.fields.push(
                LazyFieldView { name: field_name@, element: ty@, shape: Shape::Many, setter: setter_name(field_name@) },
            ),
    {
        let element = ty.duplicate();
        self.push_field(field_name.to_string(), element, Shape::Many);
    }

    /// The lazy type's definition, or nothing when no relation was registered.
    pub fn build(self) -> (r: Option<LazyPlan>)
        ensures
            r is None <==> self@.fields.len() == 0,
            r matches Some(p) ==> p.name@ == lazy_name(self@.entity) && p.base_type@ == self@.entity
                && lazy_fields_view(p.fields@) == self@.fields,
    {
        if self.fields.len() == 0 {
            return None;
        }
        let LazyEntityAST { entity_type, fields } = self;
        let name = joined(entity_type.as_str(), "Lazy");
        proof {
            reveal_strlit("Lazy");
            assert("Lazy"@ =~= seq!['L', 'a', 'z', 'y']);
        }
        Some(LazyPlan { name, base_type: entity_type, fields })
    }
}

} // verus!
