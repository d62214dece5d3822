//! How generated identifiers are derived from the names in an entity's
//! definition.
use vstd::prelude::*;
use convert_case::{Case, Casing};
use crate::text::{replaced, contains, replace_text, contains_text, matches_at};
use crate::types::{TypeRef, type_text};

verus! {

/// The snake-case form of a name, as convert_case computes it.
pub uninterp spec fn snake_of(s: Seq<char>) -> Seq<char>;

/// Relies on convert_case's `Casing::to_case` with `Case::Snake`: the result
/// depends on the text alone.
#[verifier::external_body]
fn snake_case(s: &str) -> (r: String)
    ensures
        r@ == snake_of(s@),
{
    s.to_case(Case::Snake)
}

pub open spec fn placeholder() -> Seq<char> {
    seq!['{', '}']
}

pub open spec fn id_suffix() -> Seq<char> {
    seq!['_', 'i', 'd']
}

pub open spec fn join_marker() -> Seq<char> {
    seq!['T', 'o']
}

/// The name of the relation a many-to-one key field stands for: the field name
/// without a trailing `_id` (`customer_id` names `customer`); a field name
/// that does not end in `_id` names the relation itself.
pub open spec fn relation_name(field: Seq<char>) -> Seq<char> {
    if field.len() >= 3 && field.subrange(field.len() - 3, field.len() as int) == id_suffix() {
        field.subrange(0, field.len() - 3)
    } else {
        field
    }
}

/// The join entity a many-to-many relation goes through when none is named:
/// `<Entity>To<Related>`, with the entity's name taken out of the related type.
pub open spec fn join_entity_name(entity: Seq<char>, related: Seq<char>) -> Seq<char> {
    entity + join_marker() + replaced(related, entity, Seq::empty())
}

/// Whether a name follows the join-entity naming convention.
pub open spec fn names_join_entity(name: Seq<char>) -> bool {
    contains(name, join_marker())
}

/// The format with each `{}` replaced by the identifier.
pub fn format_ident(format: &str, ident: &str) -> (r: String)
    ensures
        r@ == replaced(format@, placeholder(), ident@),
{
    proof {
        reveal_strlit("{}");
        assert("{}"@ =~= placeholder());
    }
    replace_text(format, "{}", ident)
}

/// The format with each `{}` replaced by the identifier in snake case.
pub fn format_ident_snake(format: &str, ident: &str) -> (r: String)
    ensures
        r@ == replaced(format@, placeholder(), snake_of(ident@)),
{
    let snake = snake_case(ident);
    format_ident(format, snake.as_str())
}

/// The generated relation name for a many-to-one key field.
pub fn relation_ident(field: &str) -> (r: String)
    ensures
        r@ == relation_name(field@),
{
    proof {
        reveal_strlit("_id");
        assert("_id"@ =~= id_suffix());
    }
    let n = field.unicode_len();
    if n >= 3 && matches_at(field, "_id", n - 3, n, 3) {
        field.substring_char(0, n - 3).to_string()
    } else {
        field.to_string()
    }
}

/// The default join entity of a many-to-many relation from `entity` to `related`.
pub fn default_join_entity(entity: &str, related: &TypeRef) -> (r: String)
    ensures
        r@ == join_entity_name(entity@, type_text(related@)),
{
    let related_text = related.text();
    let rest = replace_text(related_text.as_str(), entity, "");
    let mut out = String::from_str(entity);
    out.append("To");
    out.append(rest.as_str());
    proof {
        reveal_strlit("To");
        reveal_strlit("");
        assert("To"@ =~= join_marker());
        assert(""@ =~= Seq::<char>::empty());
    }
    out
}

/// Whether the name follows the join-entity naming convention (holds `To`).
pub fn is_join_entity_name(name: &str) -> (r: bool)
    ensures
        r == names_join_entity(name@),
{
    proof {
        reveal_strlit("To");
        assert("To"@ =~= join_marker());
    }
    contains_text(name, "To")
}

} // verus!
