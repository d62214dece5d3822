//! The annotation grammar, read from the tokens of an attribute's argument
//! list (identifiers and single punctuation characters, in order):
//!
//! ```text
//! entries := [ entry { "," entry } ]
//! entry   := IDENT "=" type [ "by" type ]
//! type    := path [ [ ":" ":" ] "<" type ">" ]
//! path    := IDENT { ":" ":" IDENT }
//! ```
//!
//! and, for the `diesel(...)` attribute, whose other arguments are passed over
//! (brackets are their own tokens):
//!
//! ```text
//! args := [ arg { "," arg } ]
//! arg  := "table_name" "=" path | "primary_key" "(" [ IDENT { "," IDENT } [ "," ] ] ")" | other
//! ```
use vstd::prelude::*;
use crate::entity_implementation::{strings_view, DieselArg, DieselView};
use crate::text::same_text;
use crate::types::{TypeRef, TypeView};

verus! {

/// One `field = Type [by JoinType]` entry.
pub struct RelationEntry {
    pub field: String,
    pub target: TypeRef,
    pub join: Option<TypeRef>,
}

pub struct EntryView {
    pub field: Seq<char>,
    pub target: TypeView,
    pub join: Option<TypeView>,
}

impl View for RelationEntry {
    type V = EntryView;

    open spec fn view(&self) -> EntryView {
        EntryView {
            field: self.field@,
            target: self.target@,
            join: match self.join {
                Some(j) => Some(j@),
                None => None,
            },
        }
    }
}

pub open spec fn entries_view(es: Seq<RelationEntry>) -> Seq<EntryView> {
    es.map(|i: int, e: RelationEntry| e@)
}

pub open spec fn ident_char(c: char) -> bool {
    ('a' <= c && c <= 'z') || ('A' <= c && c <= 'Z') || ('0' <= c && c <= '9') || c == '_'
}

pub open spec fn is_ident(t: Seq<char>) -> bool {
    t.len() > 0 && forall|k: int| 0 <= k < t.len() ==> ident_char(#[trigger] t[k])
}

/// The tokens one after the other.
pub open spec fn concat(ts: Seq<Seq<char>>) -> Seq<char>
    decreases ts.len(),
{
    if ts.len() == 0 {
        Seq::empty()
    } else {
        concat(ts.drop_last()) + ts.last()
    }
}

/// Where the path that starts with the identifier at `i` ends.
pub open spec fn path_end(ts: Seq<Seq<char>>, i: int) -> int
    decreases ts.len() - i,
{
    if 0 <= i && i + 3 < ts.len() && ts[i + 1] == seq![':'] && ts[i + 2] == seq![':'] && is_ident(ts[i + 3]) {
        path_end(ts, i + 3)
    } else {
        i + 1
    }
}

/// Where the generic argument after the path ending at `e` starts (after `<`
/// or `::<`), or -1 when none follows.
pub open spec fn generic_start(ts: Seq<Seq<char>>, e: int) -> int {
    if 0 <= e < ts.len() && ts[e] == seq!['<'] {
        e + 1
    } else if 0 <= e && e + 2 < ts.len() && ts[e] == seq![':'] && ts[e + 1] == seq![':'] && ts[e + 2] == seq!['<'] {
        e + 3
    } else {
        -1
    }
}

/// The type that starts at `i`, and where it ends.
pub open spec fn parse_type(ts: Seq<Seq<char>>, i: int) -> Option<(TypeView, int)>
    decreases ts.len() - i,
{
    if 0 <= i < ts.len() && is_ident(ts[i]) {
        let e = path_end(ts, i);
        let name = concat(ts.subrange(i, e));
        let g = generic_start(ts, e);
        if g > i {
            match parse_type(ts, g) {
                Some((t, j)) => if 0 <= j < ts.len() && ts[j] == seq!['>'] {
                    Some((TypeView { path: t.path, wrappers: seq![name] + t.wrappers }, j + 1))
                } else {
                    None
                },
                None => None,
            }
        } else {
            Some((TypeView { path: name, wrappers: Seq::empty() }, e))
        }
    } else {
        None
    }
}

/// The entry that starts at `i`, and where it ends; `by JoinType` is read
/// only where `joins` allows it.
pub open spec fn parse_entry(ts: Seq<Seq<char>>, i: int, joins: bool) -> Option<(EntryView, int)> {
    if 0 <= i && i + 1 < ts.len() && is_ident(ts[i]) && ts[i + 1] == seq!['='] {
        match parse_type(ts, i + 2) {
            Some((t, j)) => if joins && j < ts.len() && ts[j] == seq!['b', 'y'] {
                match parse_type(ts, j + 1) {
                    Some((jt, k)) => Some((EntryView { field: ts[i], target: t, join: Some(jt) }, k)),
                    None => None,
                }
            } else {
                Some((EntryView { field: ts[i], target: t, join: None }, j))
            },
            None => None,
        }
    } else {
        None
    }
}

/// The comma-separated entries from `i` to the end.
pub open spec fn parse_entries_from(ts: Seq<Seq<char>>, i: int, joins: bool) -> Option<Seq<EntryView>>
    decreases ts.len() - i,
{
    if i >= ts.len() {
        Some(Seq::empty())
    } else {
        match parse_entry(ts, i, joins) {
            Some((e, j)) => if j >= ts.len() {
                Some(seq![e])
            } else if ts[j] == seq![','] && j >= i {
                match parse_entries_from(ts, j + 1, joins) {
                    Some(rest) => Some(seq![e] + rest),
                    None => None,
                }
            } else {
                None
            },
            None => None,
        }
    }
}

pub open spec fn opens(t: Seq<char>) -> bool {
    t == seq!['('] || t == seq!['['] || t == seq!['{']
}

pub open spec fn closes(t: Seq<char>) -> bool {
    t == seq![')'] || t == seq![']'] || t == seq!['}']
}

/// Where the argument that `i` is inside ends: the next `,` outside any
/// bracket, or the end.
pub open spec fn arg_end(ts: Seq<Seq<char>>, i: int, depth: nat) -> int
    decreases ts.len() - i,
{
    if i < 0 || i >= ts.len() {
        ts.len() as int
    } else if ts[i] == seq![','] && depth == 0 {
        i
    } else if opens(ts[i]) {
        arg_end(ts, i + 1, depth + 1)
    } else if closes(ts[i]) {
        arg_end(ts, i + 1, if depth > 0 { (depth - 1) as nat } else { 0 })
    } else {
        arg_end(ts, i + 1, depth)
    }
}

/// The primary-key fields from `i` up to the closing `)`, and the position
/// after it.
pub open spec fn key_list(ts: Seq<Seq<char>>, i: int) -> Option<(Seq<Seq<char>>, int)>
    decreases ts.len() - i,
{
    if 0 <= i < ts.len() && ts[i] == seq![')'] {
        Some((Seq::empty(), i + 1))
    } else if 0 <= i && i + 1 < ts.len() && is_ident(ts[i]) {
        if ts[i + 1] == seq![')'] {
            Some((seq![ts[i]], i + 2))
        } else if ts[i + 1] == seq![','] {
            match key_list(ts, i + 2) {
                Some((ks, e)) => Some((seq![ts[i]] + ks, e)),
                None => None,
            }
        } else {
            None
        }
    } else {
        None
    }
}

pub open spec fn table_name_word() -> Seq<char> {
    seq!['t', 'a', 'b', 'l', 'e', '_', 'n', 'a', 'm', 'e']
}

pub open spec fn primary_key_word() -> Seq<char> {
    seq!['p', 'r', 'i', 'm', 'a', 'r', 'y', '_', 'k', 'e', 'y']
}

/// The argument that starts at `i` (nothing for one passed over), and where
/// it ends.
pub open spec fn diesel_arg(ts: Seq<Seq<char>>, i: int) -> Option<(Seq<DieselView>, int)> {
    if 0 <= i < ts.len() && ts[i] == table_name_word() {
        if i + 2 < ts.len() && ts[i + 1] == seq!['='] && is_ident(ts[i + 2]) {
            let e = path_end(ts, i + 2);
            Some((seq![DieselView::TableName(concat(ts.subrange(i + 2, e)))], e))
        } else {
            None
        }
    } else if 0 <= i < ts.len() && ts[i] == primary_key_word() {
        if i + 1 < ts.len() && ts[i + 1] == seq!['('] {
            match key_list(ts, i + 2) {
                Some((ks, e)) => Some((seq![DieselView::PrimaryKey(ks)], e)),
                None => None,
            }
        } else {
            None
        }
    } else {
        Some((Seq::empty(), arg_end(ts, i, 0)))
    }
}

/// The `diesel` arguments from `i` to the end.
pub open spec fn diesel_from(ts: Seq<Seq<char>>, i: int) -> Option<Seq<DieselView>>
    decreases ts.len() - i,
{
    if i < 0 || i >= ts.len() {
        Some(Seq::empty())
    } else {
        match diesel_arg(ts, i) {
            Some((a, e)) => if e >= ts.len() {
                Some(a)
            } else if ts[e] == seq![','] && e >= i {
                prepend(a, diesel_from(ts, e + 1))
            } else {
                None
            },
            None => None,
        }
    }
}

pub open spec fn diesel_view(args: Seq<DieselArg>) -> Seq<DieselView> {
    args.map(|i: int, a: DieselArg| a@)
}

/// The whole token list read as one type.
pub open spec fn parse_whole_type(ts: Seq<Seq<char>>) -> Option<TypeView> {
    match parse_type(ts, 0) {
        Some((t, e)) => if e == ts.len() { Some(t) } else { None },
        None => None,
    }
}

fn punct_at(toks: &Vec<String>, i: usize, c: char) -> (r: bool)
    ensures
        r == (i < toks.len() && toks@[i as int]@ == seq![c]),
{
    if i >= toks.len() {
        return false;
    }
    let t = toks[i].as_str();
    if t.unicode_len() != 1 {
        return false;
    }
    let r = t.get_char(0) == c;
    assert(r ==> t@ =~= seq![c]);
    r
}

fn by_at(toks: &Vec<String>, i: usize) -> (r: bool)
    ensures
        r == (i < toks.len() && toks@[i as int]@ == seq!['b', 'y']),
{
    if i >= toks.len() {
        return false;
    }
    proof {
        reveal_strlit("by");
        assert("by"@ =~= seq!['b', 'y']);
    }
    same_text(toks[i].as_str(), "by")
}

fn ident_at(toks: &Vec<String>, i: usize) -> (r: bool)
    ensures
        r == (i < toks.len() && is_ident(toks@[i as int]@)),
{
    if i >= toks.len() {
        return false;
    }
    let t = toks[i].as_str();
    let n = t.unicode_len();
    if n == 0 {
        return false;
    }
    let mut k: usize = 0;
    while k < n
        invariant
            n == t@.len(),
            t@ == toks@[i as int]@,
            forall|m: int| 0 <= m < k ==> ident_char(#[trigger] t@[m]),
        decreases n - k,
    {
        let c = t.get_char(k);
        if !(('a' <= c && c <= 'z') || ('A' <= c && c <= 'Z') || ('0' <= c && c <= '9') || c == '_') {
            return false;
        }
        k = k + 1;
    }
    true
}

fn path_end_at(toks: &Vec<String>, i: usize) -> (e: usize)
    requires
        i < toks.len(),
    ensures
        e as int == path_end(strings_view(toks@), i as int),
        i < e <= toks.len(),
{
    let ghost ts = strings_view(toks@);
    let mut k = i;
    while toks.len() > 3 && k < toks.len() - 3 && punct_at(toks, k + 1, ':') && punct_at(toks, k + 2, ':')
        && ident_at(toks, k + 3)
        invariant
            ts == strings_view(toks@),
            i <= k < toks.len(),
            path_end(ts, i as int) == path_end(ts, k as int),
        decreases toks.len() - k,
    {
        k = k + 3;
    }
    k + 1
}

fn concat_range(toks: &Vec<String>, i: usize, e: usize) -> (r: String)
    requires
        i <= e <= toks.len(),
    ensures
        r@ == concat(strings_view(toks@).subrange(i as int, e as int)),
{
    let ghost ts = strings_view(toks@);
    let mut out = String::new();
    let mut k = i;
    assert(ts.subrange(i as int, i as int) =~= Seq::<Seq<char>>::empty());
    while k < e
        invariant
            ts == strings_view(toks@),
            i <= k <= e <= toks.len(),
            out@ == concat(ts.subrange(i as int, k as int)),
        decreases e - k,
    {
        assert(ts.subrange(i as int, k + 1).drop_last() =~= ts.subrange(i as int, k as int));
        out.append(toks[k].as_str());
        k = k + 1;
    }
    out
}

/// The type that starts at token `i`, and the position after it.
fn parse_type_at(toks: &Vec<String>, i: usize) -> (r: Option<(TypeRef, usize)>)
    ensures
        r matches Some((t, j)) ==> parse_type(strings_view(toks@), i as int) == Some((t@, j as int)) && i < j
            <= toks.len(),
        r is None ==> parse_type(strings_view(toks@), i as int) is None,
    decreases toks.len() - i,
{
    let ghost ts = strings_view(toks@);
    if !ident_at(toks, i) {
        return None;
    }
    let e = path_end_at(toks, i);
    let name = concat_range(toks, i, e);
    let g: usize = if punct_at(toks, e, '<') {
        e + 1
    } else if punct_at(toks, e, ':') && punct_at(toks, e + 1, ':') && punct_at(toks, e + 2, '<') {
        e + 3
    } else {
        0
    };
    assert(g > 0 ==> g as int == generic_start(ts, e as int));
    assert(g == 0 ==> generic_start(ts, e as int) == -1);
    if g > 0 {
        match parse_type_at(toks, g) {
            Some((t, j)) => {
                if punct_at(toks, j, '>') {
                    let ghost tv = t@;
                    let TypeRef { path, wrappers } = t;
                    let mut rest = wrappers;
                    let mut ws: Vec<String> = Vec::new();
                    let ghost nv = name@;
                    ws.push(name);
                    ws.append(&mut rest);
                    let r = TypeRef { path, wrappers: ws };
                    assert(r@.wrappers =~= seq![nv] + tv.wrappers);
                    Some((r, j + 1))
                } else {
                    None
                }
            },
            None => None,
        }
    } else {
        let r = TypeRef { path: name, wrappers: Vec::new() };
        assert(r@.wrappers =~= Seq::<Seq<char>>::empty());
        Some((r, e))
    }
}

/// The entry that starts at token `i`, and the position after it.
fn parse_entry_at(toks: &Vec<String>, i: usize, joins: bool) -> (r: Option<(RelationEntry, usize)>)
    ensures
        r matches Some((en, j)) ==> parse_entry(strings_view(toks@), i as int, joins) == Some((en@, j as int)) && i
            < j <= toks.len(),
        r is None ==> parse_entry(strings_view(toks@), i as int, joins) is None,
{
    if !(ident_at(toks, i) && punct_at(toks, i + 1, '=')) {
        return None;
    }
    let (target, j) = match parse_type_at(toks, i + 2) {
        Some(p) => p,
        None => return None,
    };
    if joins && by_at(toks, j) {
        match parse_type_at(toks, j + 1) {
            Some((join, k)) => Some((RelationEntry { field: toks[i].clone(), target, join: Some(join) }, k)),
            None => None,
        }
    } else {
        Some((RelationEntry { field: toks[i].clone(), target, join: None }, j))
    }
}

pub open spec fn prepend<T>(p: Seq<T>, o: Option<Seq<T>>) -> Option<Seq<T>> {
    match o {
        Some(r) => Some(p + r),
        None => None,
    }
}

/// Reads the entries of a `one_to_many(...)` (`joins` false) or
/// `many_to_many(...)` (`joins` true) annotation; nothing when the tokens do
/// not follow the grammar.
pub fn parse_relation_entries(toks: &Vec<String>, joins: bool) -> (r: Option<Vec<RelationEntry>>)
    ensures
        r matches Some(es) ==> parse_entries_from(strings_view(toks@), 0, joins) == Some(entries_view(es@)),
        r is None ==> parse_entries_from(strings_view(toks@), 0, joins) is None,
{
    let ghost ts = strings_view(toks@);
    let mut out: Vec<RelationEntry> = Vec::new();
    let mut i: usize = 0;
    assert(prepend(entries_view(out@), parse_entries_from(ts, 0, joins)) == parse_entries_from(ts, 0, joins)) by {
        if let Some(x) = parse_entries_from(ts, 0, joins) {
            assert(entries_view(out@) + x =~= x);
        }
    }
    while i < toks.len()
        invariant
            ts == strings_view(toks@),
            i <= toks.len(),
            parse_entries_from(ts, 0, joins) == prepend(entries_view(out@), parse_entries_from(ts, i as int, joins)),
        decreases toks.len() - i,
    {
        let ghost before = entries_view(out@);
        match parse_entry_at(toks, i, joins) {
            None => return None,
            Some((e, j)) => {
                let ghost ev = e@;
                out.push(e);
                assert(entries_view(out@) =~= before.push(ev));
                if j >= toks.len() {
                    assert(before + seq![ev] =~= before.push(ev));
                    return Some(out);
                }
                if !punct_at(toks, j, ',') {
                    return None;
                }
                proof {
                    if let Some(rest) = parse_entries_from(ts, j + 1, joins) {
                        assert(before + (seq![ev] + rest) =~= before.push(ev) + rest);
                    }
                }
                i = j + 1;
            },
        }
    }
    assert(entries_view(out@) + Seq::<EntryView>::empty() =~= entries_view(out@));
    Some(out)
}

fn word_at(toks: &Vec<String>, i: usize, w: &str) -> (r: bool)
    ensures
        r == (i < toks.len() && toks@[i as int]@ == w@),
{
    if i >= toks.len() {
        return false;
    }
    same_text(toks[i].as_str(), w)
}

fn arg_end_at(toks: &Vec<String>, i: usize) -> (e: usize)
    ensures
        e as int == arg_end(strings_view(toks@), i as int, 0),
        e <= toks.len(),
        i < toks.len() ==> i <= e,
{
    let ghost ts = strings_view(toks@);
    if i >= toks.len() {
        return toks.len();
    }
    let mut k = i;
    let mut depth: usize = 0;
    while k < toks.len()
        invariant
            ts == strings_view(toks@),
            i <= k <= toks.len(),
            depth <= k,
            arg_end(ts, i as int, 0) == arg_end(ts, k as int, depth as nat),
        decreases toks.len() - k,
    {
        if punct_at(toks, k, ',') && depth == 0 {
            return k;
        }
        if punct_at(toks, k, '(') || punct_at(toks, k, '[') || punct_at(toks, k, '{') {
            depth = depth + 1;
        } else if punct_at(toks, k, ')') || punct_at(toks, k, ']') || punct_at(toks, k, '}') {
            if depth > 0 {
                depth = depth - 1;
            }
        }
        k = k + 1;
    }
    k
}

fn key_list_at(toks: &Vec<String>, i: usize) -> (r: Option<(Vec<String>, usize)>)
    ensures
        r matches Some((ks, e)) ==> key_list(strings_view(toks@), i as int) == Some((strings_view(ks@), e as int)) && i
            < e <= toks.len(),
        r is None ==> key_list(strings_view(toks@), i as int) is None,
    decreases toks.len() - i,
{
    if punct_at(toks, i, ')') {
        let ks: Vec<String> = Vec::new();
        assert(strings_view(ks@) =~= Seq::<Seq<char>>::empty());
        return Some((ks, i + 1));
    }
    if !(ident_at(toks, i) && i + 1 < toks.len()) {
        return None;
    }
    if punct_at(toks, i + 1, ')') {
        let ks = vec![toks[i].clone()];
        assert(strings_view(ks@) =~= seq![toks@[i as int]@]);
        Some((ks, i + 2))
    } else if punct_at(toks, i + 1, ',') {
        match key_list_at(toks, i + 2) {
            Some((rest, e)) => {
                let ghost rv = strings_view(rest@);
                let mut rest = rest;
                let mut ks = vec![toks[i].clone()];
                ks.append(&mut rest);
                assert(strings_view(ks@) =~= seq![toks@[i as int]@] + rv);
                Some((ks, e))
            },
            None => None,
        }
    } else {
        None
    }
}

fn diesel_arg_at(toks: &Vec<String>, i: usize) -> (r: Option<(Vec<DieselArg>, usize)>)
    requires
        i < toks.len(),
    ensures
        r matches Some((a, e)) ==> diesel_arg(strings_view(toks@), i as int) == Some((diesel_view(a@), e as int)) && i
            <= e <= toks.len(),
        r is None ==> diesel_arg(strings_view(toks@), i as int) is None,
{
    proof {
        reveal_strlit("table_name");
        reveal_strlit("primary_key");
        assert("table_name"@ =~= table_name_word());
        assert("primary_key"@ =~= primary_key_word());
    }
    if word_at(toks, i, "table_name") {
        if toks.len() >= 2 && i < toks.len() - 2 && punct_at(toks, i + 1, '=') && ident_at(toks, i + 2) {
            let e = path_end_at(toks, i + 2);
            let a = vec![DieselArg::TableName(concat_range(toks, i + 2, e))];
            assert(diesel_view(a@) =~= seq![a@[0]@]);
            Some((a, e))
        } else {
            None
        }
    } else if word_at(toks, i, "primary_key") {
        if punct_at(toks, i + 1, '(') {
            match key_list_at(toks, i + 2) {
                Some((ks, e)) => {
                    let a = vec![DieselArg::PrimaryKey(ks)];
                    assert(diesel_view(a@) =~= seq![a@[0]@]);
                    Some((a, e))
                },
                None => None,
            }
        } else {
            None
        }
    } else {
        let a: Vec<DieselArg> = Vec::new();
        assert(diesel_view(a@) =~= Seq::<DieselView>::empty());
        Some((a, arg_end_at(toks, i)))
    }
}

/// Reads the arguments of a `diesel(...)` attribute: the table name and the
/// primary-key fields, in order; nothing when either is malformed.
pub fn parse_diesel_args(toks: &Vec<String>) -> (r: Option<Vec<DieselArg>>)
    ensures
        r matches Some(args) ==> diesel_from(strings_view(toks@), 0) == Some(diesel_view(args@)),
        r is None ==> diesel_from(strings_view(toks@), 0) is None,
{
    let ghost ts = strings_view(toks@);
    let mut out: Vec<DieselArg> = Vec::new();
    let mut i: usize = 0;
    assert(prepend(diesel_view(out@), diesel_from(ts, 0)) == diesel_from(ts, 0)) by {
        if let Some(x) = diesel_from(ts, 0) {
            assert(diesel_view(out@) + x =~= x);
        }
    }
    while i < toks.len()
        invariant
            ts == strings_view(toks@),
            i <= toks.len(),
            diesel_from(ts, 0) == prepend(diesel_view(out@), diesel_from(ts, i as int)),
        decreases toks.len() - i,
    {
        let ghost before = diesel_view(out@);
        match diesel_arg_at(toks, i) {
            None => return None,
            Some((a, e)) => {
                let ghost av = diesel_view(a@);
                let mut a = a;
                out.append(&mut a);
                assert(diesel_view(out@) =~= before + av);
                if e >= toks.len() {
                    return Some(out);
                }
                if !punct_at(toks, e, ',') {
                    return None;
                }
                proof {
                    if let Some(rest) = diesel_from(ts, e + 1) {
                        assert(before + (av + rest) =~= before + av + rest);
                    }
                }
                i = e + 1;
            },
        }
    }
    assert(diesel_view(out@) + Seq::<DieselView>::empty() =~= diesel_view(out@));
    Some(out)
}

/// Reads the argument of a `many_to_one(...)` annotation: one type.
pub fn parse_type_annotation(toks: &Vec<String>) -> (r: Option<TypeRef>)
    ensures
        r matches Some(t) ==> parse_whole_type(strings_view(toks@)) == Some(t@),
        r is None ==> parse_whole_type(strings_view(toks@)) is None,
{
    match parse_type_at(toks, 0) {
        Some((t, e)) => if e == toks.len() {
            Some(t)
        } else {
            None
        },
        None => None,
    }
}

} // verus!
