//! Type expressions of the interface text: the tree that stands for one, the
//! text that a tree is written as, and the tree that a text is read as.

use crate::text::{
    chars_of, ends_with, has_prefix, has_suffix, is_str, lemma_leading_space,
    lemma_trailing_space, slice, starts_with, string_of, trim, trim_start, trimmed, append,
    append_str,
};
use vstd::prelude::*;

verus! {

/// The types that the interface text has a word for.
#[derive(Clone, Copy, Debug, PartialEq, Eq, Structural)]
pub enum Primitive {
    S32,
    U32,
    S64,
    U64,
    F32,
    F64,
    Text,
    Boolean,
    Unit,
    Address,
}

/// A type expression. A `Named` type refers to a record or variant by its
/// hyphenated name; what it refers to is looked up, never held here.
#[derive(Debug, PartialEq, Eq)]
pub enum TypeExpr {
    Primitive(Primitive),
    List(Box<TypeExpr>),
    Option(Box<TypeExpr>),
    Tuple(Vec<TypeExpr>),
    Result(Box<TypeExpr>, Box<TypeExpr>),
    Named(String),
}

/// What a `TypeExpr` stands for in contracts.
pub enum TypeModel {
    Primitive(Primitive),
    List(Box<TypeModel>),
    Option(Box<TypeModel>),
    Tuple(Seq<TypeModel>),
    Result(Box<TypeModel>, Box<TypeModel>),
    Named(Seq<char>),
}

impl TypeExpr {
    /// The tree of `self`, with sequences for vectors and strings.
    pub open spec fn model(self) -> TypeModel
        decreases self,
    {
        match self {
            TypeExpr::Primitive(p) => TypeModel::Primitive(p),
            TypeExpr::List(inner) => TypeModel::List(Box::new(inner.model())),
            TypeExpr::Option(inner) => TypeModel::Option(Box::new(inner.model())),
            TypeExpr::Tuple(items) => TypeModel::Tuple(
                Seq::new(
                    items@.len(),
                    |i: int|
                        if 0 <= i < items@.len() {
                            items@[i].model()
                        } else {
                            TypeModel::Primitive(Primitive::Unit)
                        },
                ),
            ),
            TypeExpr::Result(ok, err) => TypeModel::Result(
                Box::new(ok.model()),
                Box::new(err.model()),
            ),
            TypeExpr::Named(name) => TypeModel::Named(name@),
        }
    }
}

impl View for TypeExpr {
    type V = TypeModel;

    open spec fn view(&self) -> TypeModel {
        self.model()
    }
}

/// The trees of the expressions of `v`, in order.
pub open spec fn models(v: Seq<TypeExpr>) -> Seq<TypeModel> {
    Seq::new(v.len(), |i: int| v[i]@)
}

/// The tree of a tuple is the tuple of its items' trees.
pub proof fn lemma_tuple_model(t: TypeExpr)
    requires
        t is Tuple,
    ensures
        t@ == TypeModel::Tuple(models(t->Tuple_0@)),
{
    assert(t@->Tuple_0 =~= models(t->Tuple_0@));
}

/// `c` may stand in a name: a small letter of the Latin alphabet or a
/// hyphen.
pub open spec fn is_name_char(c: char) -> bool {
    'a' <= c <= 'z' || c == '-'
}

/// `s` is a name in the form that the interface text asks for: small
/// letters and hyphens, the first of them a letter.
pub open spec fn is_identifier(s: Seq<char>) -> bool {
    s.len() > 0 && s[0] != '-' && forall|i: int|
        0 <= i < s.len() ==> is_name_char(#[trigger] s[i])
}

/// Every named type in `t` is named by an identifier that is not the word
/// of a primitive type.
pub open spec fn well_formed(t: TypeModel) -> bool
    decreases t,
{
    match t {
        TypeModel::Primitive(_) => true,
        TypeModel::List(inner) => well_formed(*inner),
        TypeModel::Option(inner) => well_formed(*inner),
        TypeModel::Tuple(items) => forall|i: int|
            0 <= i < items.len() ==> well_formed(#[trigger] items[i]),
        TypeModel::Result(ok, err) => well_formed(*ok) && well_formed(*err),
        TypeModel::Named(name) => is_identifier(name) && primitive_named(name) is None,
    }
}

/// The word of the interface text for `p`.
pub open spec fn primitive_name(p: Primitive) -> Seq<char> {
    match p {
        Primitive::S32 => "s32"@,
        Primitive::U32 => "u32"@,
        Primitive::S64 => "s64"@,
        Primitive::U64 => "u64"@,
        Primitive::F32 => "f32"@,
        Primitive::F64 => "f64"@,
        Primitive::Text => "string"@,
        Primitive::Boolean => "bool"@,
        Primitive::Unit => "unit"@,
        Primitive::Address => "address"@,
    }
}

/// The primitive type that the word `s` names, if it names one.
pub open spec fn primitive_named(s: Seq<char>) -> Option<Primitive> {
    if s == "s32"@ {
        Some(Primitive::S32)
    } else if s == "u32"@ {
        Some(Primitive::U32)
    } else if s == "s64"@ {
        Some(Primitive::S64)
    } else if s == "u64"@ {
        Some(Primitive::U64)
    } else if s == "f32"@ {
        Some(Primitive::F32)
    } else if s == "f64"@ {
        Some(Primitive::F64)
    } else if s == "string"@ {
        Some(Primitive::Text)
    } else if s == "bool"@ {
        Some(Primitive::Boolean)
    } else if s == "unit"@ {
        Some(Primitive::Unit)
    } else if s == "address"@ {
        Some(Primitive::Address)
    } else {
        None
    }
}

/// The text of the type expression `t`.
pub open spec fn idl_text(t: TypeModel) -> Seq<char>
    decreases t,
{
    match t {
        TypeModel::Primitive(p) => primitive_name(p),
        TypeModel::List(inner) => "list<"@ + idl_text(*inner) + ">"@,
        TypeModel::Option(inner) => "option<"@ + idl_text(*inner) + ">"@,
        TypeModel::Tuple(items) => "tuple<"@ + idl_list(items) + ">"@,
        TypeModel::Result(ok, err) => "result<"@ + idl_text(*ok) + ", "@ + idl_text(*err) + ">"@,
        TypeModel::Named(name) => name,
    }
}

/// The texts of `items`, with a comma and a space between each two.
pub open spec fn idl_list(items: Seq<TypeModel>) -> Seq<char>
    decreases items,
{
    if items.len() == 0 {
        Seq::<char>::empty()
    } else if items.len() == 1 {
        idl_text(items[0])
    } else {
        idl_list(items.drop_last()) + ", "@ + idl_text(items.last())
    }
}

/// `s` is `open`, then anything, then `close`.
pub open spec fn wrapped(s: Seq<char>, open: Seq<char>, close: Seq<char>) -> bool {
    open.len() + close.len() <= s.len() && starts_with(s, open) && ends_with(s, close)
}

/// What stands in `s` between `open` and `close`.
pub open spec fn inner(s: Seq<char>, open: Seq<char>, close: Seq<char>) -> Seq<char> {
    s.subrange(open.len() as int, s.len() - close.len())
}

/// By how much `c` changes the number of open brackets.
pub open spec fn nesting(c: char) -> int {
    if c == '<' || c == '(' {
        1
    } else if c == '>' || c == ')' {
        -1
    } else {
        0
    }
}

/// The first position at or after `from` that holds a comma outside every
/// bracket, where `depth` brackets are open at `from`.
pub open spec fn top_comma(s: Seq<char>, from: int, depth: int) -> Option<int>
    decreases s.len() - from,
{
    if from < 0 || from >= s.len() {
        None
    } else if s[from] == ',' && depth == 0 {
        Some(from)
    } else {
        top_comma(s, from + 1, depth + nesting(s[from]))
    }
}

/// What `top_comma` finds is a position of `s`, not before `from`, that
/// holds a comma.
pub proof fn lemma_top_comma(s: Seq<char>, from: int, depth: int)
    ensures
        top_comma(s, from, depth) matches Some(k) ==> from <= k < s.len() && s[k] == ',',
    decreases s.len() - from,
{
    if from < 0 || from >= s.len() {
    } else if s[from] == ',' && depth == 0 {
    } else {
        lemma_top_comma(s, from + 1, depth + nesting(s[from]));
    }
}

/// `trim` never lengthens.
pub proof fn lemma_trim_len(s: Seq<char>)
    ensures
        trim(s).len() <= s.len(),
{
    lemma_leading_space(s);
    lemma_trailing_space(trim_start(s));
}

/// The type expression that the text `s` is read as. White space around an
/// expression is passed over. A text that is no primitive's word and has
/// none of the four bracketed forms is the name of a record or variant.
pub open spec fn parse_type(s: Seq<char>) -> TypeModel
    decreases s.len(), 0nat,
{
    let t = trim(s);
    if primitive_named(t) is Some {
        TypeModel::Primitive(primitive_named(t).unwrap())
    } else if wrapped(t, "list<"@, ">"@) {
        proof {
            lemma_inner_len(s, "list<"@);
        }
        TypeModel::List(Box::new(parse_type(inner(t, "list<"@, ">"@))))
    } else if wrapped(t, "option<"@, ">"@) {
        proof {
            lemma_inner_len(s, "option<"@);
        }
        TypeModel::Option(Box::new(parse_type(inner(t, "option<"@, ">"@))))
    } else if wrapped(t, "tuple<"@, ">"@) {
        proof {
            lemma_inner_len(s, "tuple<"@);
        }
        TypeModel::Tuple(parse_types(inner(t, "tuple<"@, ">"@)))
    } else if wrapped(t, "result<"@, ">"@) && ({
        proof {
            lemma_inner_len(s, "result<"@);
        }
        parse_types(inner(t, "result<"@, ">"@)).len() == 2
    }) {
        let parts = parse_types(inner(t, "result<"@, ">"@));
        TypeModel::Result(Box::new(parts[0]), Box::new(parts[1]))
    } else {
        TypeModel::Named(t)
    }
}

/// The type expressions that the text `s` lists: those between its commas
/// outside every bracket. A text of white space alone lists none.
pub open spec fn parse_types(s: Seq<char>) -> Seq<TypeModel>
    decreases s.len(), 1nat,
{
    if trim(s).len() == 0 {
        Seq::<TypeModel>::empty()
    } else {
        match top_comma(s, 0, 0) {
            None => seq![parse_type(s)],
            Some(k) => {
                proof {
                    lemma_top_comma(s, 0, 0);
                }
                seq![parse_type(s.take(k))] + parse_types(s.skip(k + 1))
            },
        }
    }
}

/// What stands between `open` and a closing `>` in the trimmed `s` is
/// shorter than `s`.
pub proof fn lemma_inner_len(s: Seq<char>, open: Seq<char>)
    requires
        wrapped(trim(s), open, ">"@),
    ensures
        inner(trim(s), open, ">"@).len() < s.len(),
{
    reveal_strlit(">");
    lemma_trim_len(s);
}

/// The primitive type that the word `s` names, if it names one.
pub fn parse_primitive(s: &Vec<char>) -> (r: Option<Primitive>)
    ensures
        r == primitive_named(s@),
{
    if is_str(s, "s32") {
        Some(Primitive::S32)
    } else if is_str(s, "u32") {
        Some(Primitive::U32)
    } else if is_str(s, "s64") {
        Some(Primitive::S64)
    } else if is_str(s, "u64") {
        Some(Primitive::U64)
    } else if is_str(s, "f32") {
        Some(Primitive::F32)
    } else if is_str(s, "f64") {
        Some(Primitive::F64)
    } else if is_str(s, "string") {
        Some(Primitive::Text)
    } else if is_str(s, "bool") {
        Some(Primitive::Boolean)
    } else if is_str(s, "unit") {
        Some(Primitive::Unit)
    } else if is_str(s, "address") {
        Some(Primitive::Address)
    } else {
        None
    }
}

/// What stands in `s` between the strings `open` and `close`, if `s` begins
/// with the one and ends with the other.
pub fn unwrap_text(s: &Vec<char>, open: &str, close: &str) -> (r: Option<Vec<char>>)
    ensures
        r is Some == wrapped(s@, open@, close@),
        r matches Some(v) ==> v@ == inner(s@, open@, close@),
{
    let o = chars_of(open);
    let c = chars_of(close);
    if o.len() > s.len() || c.len() > s.len() - o.len() {
        return None;
    }
    if has_prefix(s, open) && has_suffix(s, close) {
        Some(slice(s, o.len(), s.len() - c.len()))
    } else {
        None
    }
}

/// The first position of `s` that holds a comma outside every bracket.
pub fn find_top_comma(s: &Vec<char>) -> (r: Option<usize>)
    ensures
        match r {
            Some(k) => top_comma(s@, 0, 0) == Some(k as int),
            None => top_comma(s@, 0, 0) is None,
        },
{
    let mut depth: i128 = 0;
    let mut i: usize = 0;
    while i < s.len()
        invariant
            i <= s.len(),
            -i <= depth <= i,
            top_comma(s@, 0, 0) == top_comma(s@, i as int, depth as int),
        decreases s.len() - i,
    {
        let c = s[i];
        if c == ',' && depth == 0 {
            return Some(i);
        }
        if c == '<' || c == '(' {
            depth = depth + 1;
        } else if c == '>' || c == ')' {
            depth = depth - 1;
        }
        i = i + 1;
    }
    None
}

/// Reads the text `s` as a type expression.
pub fn parse_type_expr(s: &Vec<char>) -> (r: TypeExpr)
    ensures
        r@ == parse_type(s@),
    decreases s.len(), 0nat,
{
    let t = trimmed(s);
    match parse_primitive(&t) {
        Some(p) => {
            return TypeExpr::Primitive(p);
        },
        None => {},
    }
    match unwrap_text(&t, "list<", ">") {
        Some(body) => {
            proof {
                lemma_inner_len(s@, "list<"@);
            }
            return TypeExpr::List(Box::new(parse_type_expr(&body)));
        },
        None => {},
    }
    match unwrap_text(&t, "option<", ">") {
        Some(body) => {
            proof {
                lemma_inner_len(s@, "option<"@);
            }
            return TypeExpr::Option(Box::new(parse_type_expr(&body)));
        },
        None => {},
    }
    match unwrap_text(&t, "tuple<", ">") {
        Some(body) => {
            proof {
                lemma_inner_len(s@, "tuple<"@);
            }
            let items = parse_type_list(&body);
            let r = TypeExpr::Tuple(items);
            proof {
                lemma_tuple_model(r);
            }
            return r;
        },
        None => {},
    }
    match unwrap_text(&t, "result<", ">") {
        Some(body) => {
            proof {
                lemma_inner_len(s@, "result<"@);
            }
            let mut items = parse_type_list(&body);
            if items.len() == 2 {
                let ghost before = items@;
                let err = items.pop().unwrap();
                let ok = items.pop().unwrap();
                assert(ok == before[0] && err == before[1]);
                return TypeExpr::Result(Box::new(ok), Box::new(err));
            }
        },
        None => {},
    }
    TypeExpr::Named(string_of(&t))
}

/// Reads the text `s` as a list of type expressions.
pub fn parse_type_list(s: &Vec<char>) -> (r: Vec<TypeExpr>)
    ensures
        models(r@) == parse_types(s@),
    decreases s.len(), 1nat,
{
    let mut out: Vec<TypeExpr> = Vec::new();
    let t = trimmed(s);
    if t.len() == 0 {
        assert(models(out@) =~= parse_types(s@));
        return out;
    }
    match find_top_comma(s) {
        None => {
            let item = parse_type_expr(s);
            out.push(item);
            assert(models(out@) =~= parse_types(s@));
            out
        },
        Some(k) => {
            proof {
                lemma_top_comma(s@, 0, 0);
            }
            let head = slice(s, 0, k);
            let tail = slice(s, k + 1, s.len());
            assert(head@ == s@.take(k as int));
            assert(tail@ == s@.skip(k + 1));
            let item = parse_type_expr(&head);
            let mut rest = parse_type_list(&tail);
            out.push(item);
            let ghost rest_seq = rest@;
            out.append(&mut rest);
            assert(models(out@) =~= seq![item@] + models(rest_seq));
            out
        },
    }
}

/// Whether `s` is a name in the form that the interface text asks for.
pub fn check_identifier(s: &Vec<char>) -> (r: bool)
    ensures
        r == is_identifier(s@),
{
    if s.len() == 0 || s[0] == '-' {
        return false;
    }
    let mut i: usize = 0;
    while i < s.len()
        invariant
            i <= s.len(),
            forall|k: int| 0 <= k < i ==> is_name_char(#[trigger] s@[k]),
        decreases s.len() - i,
    {
        let c = s[i];
        if !(('a' <= c && c <= 'z') || c == '-') {
            return false;
        }
        i = i + 1;
    }
    true
}

/// Whether every named type in `t` is named by an identifier that is not
/// the word of a primitive type.
pub fn is_well_formed(t: &TypeExpr) -> (r: bool)
    ensures
        r == well_formed(t@),
    decreases t,
{
    match t {
        TypeExpr::Primitive(_) => true,
        TypeExpr::List(inner) => is_well_formed(inner),
        TypeExpr::Option(inner) => is_well_formed(inner),
        TypeExpr::Tuple(items) => {
            proof {
                lemma_tuple_model(*t);
            }
            let mut i: usize = 0;
            while i < items.len()
                invariant
                    i <= items.len(),
                    t is Tuple && t->Tuple_0 == items,
                    t@ == TypeModel::Tuple(models(items@)),
                    forall|k: int| 0 <= k < i ==> well_formed(#[trigger] models(items@)[k]),
                decreases items.len() - i,
            {
                assert(models(items@)[i as int] == items@[i as int]@);
                if !is_well_formed(&items[i]) {
                    assert(t@->Tuple_0[i as int] == items@[i as int]@);
                    return false;
                }
                i = i + 1;
            }
            assert(t@->Tuple_0 == models(items@));
            true
        },
        TypeExpr::Result(ok, err) => is_well_formed(ok) && is_well_formed(err),
        TypeExpr::Named(name) => {
            let chars = chars_of(name.as_str());
            check_identifier(&chars) && parse_primitive(&chars).is_none()
        },
    }
}

/// Appends the text of the type expression `t` to `out`.
pub fn write_idl_type(t: &TypeExpr, out: &mut Vec<char>)
    ensures
        final(out)@ == old(out)@ + idl_text(t@),
    decreases t,
{
    match t {
        TypeExpr::Primitive(p) => {
            let word = match p {
                Primitive::S32 => "s32",
                Primitive::U32 => "u32",
                Primitive::S64 => "s64",
                Primitive::U64 => "u64",
                Primitive::F32 => "f32",
                Primitive::F64 => "f64",
                Primitive::Text => "string",
                Primitive::Boolean => "bool",
                Primitive::Unit => "unit",
                Primitive::Address => "address",
            };
            append_str(out, word);
        },
        TypeExpr::List(inner) => {
            append_str(out, "list<");
            write_idl_type(inner, out);
            append_str(out, ">");
            assert(out@ =~= old(out)@ + idl_text(t@));
        },
        TypeExpr::Option(inner) => {
            append_str(out, "option<");
            write_idl_type(inner, out);
            append_str(out, ">");
            assert(out@ =~= old(out)@ + idl_text(t@));
        },
        TypeExpr::Tuple(items) => {
            proof {
                lemma_tuple_model(*t);
            }
            append_str(out, "tuple<");
            let mut i: usize = 0;
            while i < items.len()
                invariant
                    i <= items.len(),
                    t is Tuple && t->Tuple_0 == items,
                    out@ == old(out)@ + "tuple<"@ + idl_list(models(items@).take(i as int)),
                decreases items.len() - i,
            {
                proof {
                    let next = models(items@).take(i + 1);
                    assert(next.drop_last() == models(items@).take(i as int));
                    assert(next.last() == items@[i as int]@);
                }
                if i > 0 {
                    append_str(out, ", ");
                }
                write_idl_type(&items[i], out);
                i = i + 1;
                assert(out@ =~= old(out)@ + "tuple<"@ + idl_list(models(items@).take(i as int)));
            }
            assert(models(items@).take(items.len() as int) == models(items@));
            append_str(out, ">");
            assert(out@ =~= old(out)@ + idl_text(t@));
        },
        TypeExpr::Result(ok, err) => {
            append_str(out, "result<");
            write_idl_type(ok, out);
            append_str(out, ", ");
            write_idl_type(err, out);
            append_str(out, ">");
            assert(out@ =~= old(out)@ + idl_text(t@));
        },
        TypeExpr::Named(name) => {
            append_str(out, name.as_str());
        },
    }
}

/// The text of the type expression `t`.
pub fn idl_type(t: &TypeExpr) -> (r: Vec<char>)
    ensures
        r@ == idl_text(t@),
{
    let mut out: Vec<char> = Vec::new();
    write_idl_type(t, &mut out);
    out
}

} // verus!
