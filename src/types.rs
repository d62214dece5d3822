//! Type references as the generator sees them: a base path wrapped in a chain
//! of single-argument generic types (`Option<Vec<Tag>>` is the base `Tag`
//! inside the wrappers `Option` and `Vec`). Anything else is kept as the text
//! of its base path.
use vstd::prelude::*;
use crate::text::same_text;

verus! {

pub struct TypeRef {
    /// The innermost type, as written (`Customer`, `crate::models::Tag`, `i64`).
    pub path: String,
    /// The generic wrappers around it, outermost first.
    pub wrappers: Vec<String>,
}

pub struct TypeView {
    pub path: Seq<char>,
    pub wrappers: Seq<Seq<char>>,
}

impl View for TypeRef {
    type V = TypeView;

    open spec fn view(&self) -> TypeView {
        TypeView { path: self.path@, wrappers: self.wrappers@.map(|i: int, w: String| w@) }
    }
}

pub open spec fn option_name() -> Seq<char> {
    seq!['O', 'p', 't', 'i', 'o', 'n']
}

/// Whether the type is written `Option<T>`.
pub open spec fn is_option(t: TypeView) -> bool {
    t.wrappers.len() > 0 && t.wrappers[0] == option_name()
}

/// `T` for `Option<T>`; any other type as it is.
pub open spec fn strip_option(t: TypeView) -> TypeView {
    if is_option(t) {
        TypeView { path: t.path, wrappers: t.wrappers.skip(1) }
    } else {
        t
    }
}

/// `Option<T>` for `T`.
pub open spec fn wrap_option(t: TypeView) -> TypeView {
    TypeView { path: t.path, wrappers: seq![option_name()] + t.wrappers }
}

/// The opening part of the written type: each wrapper's name and `<`.
pub open spec fn opening(ws: Seq<Seq<char>>) -> Seq<char>
    decreases ws.len(),
{
    if ws.len() == 0 {
        Seq::empty()
    } else {
        opening(ws.drop_last()) + ws.last() + seq!['<']
    }
}

/// The type as written: `Option<Vec<Tag>>`.
pub open spec fn type_text(t: TypeView) -> Seq<char> {
    opening(t.wrappers) + t.path + Seq::new(t.wrappers.len(), |i: int| '>')
}

impl TypeRef {
    /// A type written as a bare path.
    pub fn plain(path: &str) -> (r: TypeRef)
        ensures
            r@ == (TypeView { path: path@, wrappers: Seq::empty() }),
    {
        let r = TypeRef { path: path.to_string(), wrappers: Vec::new() };
        assert(r@.wrappers =~= Seq::<Seq<char>>::empty());
        r
    }

    /// A copy of the type.
    pub fn duplicate(&self) -> (r: TypeRef)
        ensures
            r@ == self@,
    {
        let mut ws: Vec<String> = Vec::new();
        for i in 0..self.wrappers.len()
            invariant
                ws.len() == i,
                i <= self.wrappers.len(),
                forall|k: int| 0 <= k < i ==> (#[trigger] ws@[k])@ == self.wrappers@[k]@,
        {
            ws.push(self.wrappers[i].clone());
        }
        let r = TypeRef { path: self.path.clone(), wrappers: ws };
        assert(r@.wrappers =~= self@.wrappers);
        r
    }

    /// The type as written.
    pub fn text(&self) -> (r: String)
        ensures
            r@ == type_text(self@),
    {
        let ghost ws = self@.wrappers;
        let mut out = String::new();
        let n = self.wrappers.len();
        for i in 0..n
            invariant
                n == ws.len(),
                ws == self@.wrappers,
                out@ == opening(ws.take(i as int)),
        {
            assert(ws.take(i + 1).drop_last() =~= ws.take(i as int));
            out.append(self.wrappers[i].as_str());
            out.append("<");
            proof {
                reveal_strlit("<");
            }
            assert(out@ =~= opening(ws.take(i + 1)));
        }
        assert(ws.take(n as int) =~= ws);
        out.append(self.path.as_str());
        let mut closers = String::new();
        for i in 0..n
            invariant
                closers@ =~= Seq::new(i as nat, |k: int| '>'),
        {
            closers.append(">");
            proof {
                reveal_strlit(">");
            }
        }
        out.append(closers.as_str());
        out
    }
}

/// Whether the type is written `Option<T>`.
pub fn type_is_option(ty: &TypeRef) -> (r: bool)
    ensures
        r == is_option(ty@),
{
    if ty.wrappers.len() == 0 {
        return false;
    }
    let r = same_text(ty.wrappers[0].as_str(), "Option");
    proof {
        reveal_strlit("Option");
        assert("Option"@ =~= option_name());
    }
    r
}

/// `T` for `Option<T>`, any other type unchanged.
pub fn extract_type_from_option(ty: &TypeRef) -> (r: TypeRef)
    ensures
        r@ == strip_option(ty@),
{
    if type_is_option(ty) {
        let mut ws: Vec<String> = Vec::new();
        for i in 1..ty.wrappers.len()
            invariant
                1 <= i <= ty.wrappers.len(),
                ws.len() == i - 1,
                forall|k: int| 0 <= k < ws.len() ==> (#[trigger] ws@[k])@ == ty.wrappers@[k + 1]@,
        {
            ws.push(ty.wrappers[i].clone());
        }
        let r = TypeRef { path: ty.path.clone(), wrappers: ws };
        assert(r@.wrappers =~= strip_option(ty@).wrappers);
        r
    } else {
        ty.duplicate()
    }
}

/// `Option<T>` for `T`.
pub fn make_type_option(ty: &TypeRef) -> (r: TypeRef)
    ensures
        r@ == wrap_option(ty@),
{
    let mut ws: Vec<String> = Vec::new();
    ws.push(String::from_str("Option"));
    for i in 0..ty.wrappers.len()
        invariant
            ws.len() == i + 1,
            i <= ty.wrappers.len(),
            ws@[0]@ == "Option"@,
            forall|k: int| 1 <= k < ws.len() ==> (#[trigger] ws@[k])@ == ty.wrappers@[k - 1]@,
    {
        ws.push(ty.wrappers[i].clone());
    }
    proof {
        reveal_strlit("Option");
        assert("Option"@ =~= option_name());
    }
    let r = TypeRef { path: ty.path.clone(), wrappers: ws };
    assert(r@.wrappers =~= wrap_option(ty@).wrappers);
    r
}

} // verus!
