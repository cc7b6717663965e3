//! The host language's side of the type mapping: the type that a type
//! expression is written as in generated code, and the literal that a
//! generated routine returns where it has nothing better to return.

use crate::naming::{pascal_case, pascal_chars};
use crate::text::{
    append, append_str, chars_of, has_prefix, is_str, slice, starts_with, string_of, trim,
    trimmed,
};
use crate::types::{
    inner, lemma_top_comma, lemma_trim_len, lemma_tuple_model, models, parse_type,
    parse_type_expr, top_comma, unwrap_text, wrapped, find_top_comma, Primitive, TypeExpr,
    TypeModel,
};
use vstd::prelude::*;

verus! {

/// The host type that stands for the primitive `p`.
pub open spec fn host_primitive(p: Primitive) -> Seq<char> {
    match p {
        Primitive::S32 => "i32"@,
        Primitive::U32 => "u32"@,
        Primitive::S64 => "i64"@,
        Primitive::U64 => "u64"@,
        Primitive::F32 => "f32"@,
        Primitive::F64 => "f64"@,
        Primitive::Text => "String"@,
        Primitive::Boolean => "bool"@,
        Primitive::Unit => "()"@,
        Primitive::Address => "WitAddress"@,
    }
}

/// The host type that stands for the type expression `t`. A named type is
/// written in its capitalised form.
pub open spec fn host_text(t: TypeModel) -> Seq<char>
    decreases t,
{
    match t {
        TypeModel::Primitive(p) => host_primitive(p),
        TypeModel::List(inner) => "Vec<"@ + host_text(*inner) + ">"@,
        TypeModel::Option(inner) => "Option<"@ + host_text(*inner) + ">"@,
        TypeModel::Tuple(items) => "("@ + host_list(items) + ")"@,
        TypeModel::Result(ok, err) => "Result<"@ + host_text(*ok) + ", "@ + host_text(*err)
            + ">"@,
        TypeModel::Named(name) => pascal_case(name),
    }
}

/// The host types of `items`, with a comma and a space between each two.
pub open spec fn host_list(items: Seq<TypeModel>) -> Seq<char>
    decreases items,
{
    if items.len() == 0 {
        Seq::<char>::empty()
    } else if items.len() == 1 {
        host_text(items[0])
    } else {
        host_list(items.drop_last()) + ", "@ + host_text(items.last())
    }
}

/// The literal that stands for a value of the primitive `p`.
pub open spec fn default_primitive(p: Primitive) -> Seq<char> {
    match p {
        Primitive::S32 | Primitive::U32 | Primitive::S64 | Primitive::U64 => "0"@,
        Primitive::F32 | Primitive::F64 => "0.0"@,
        Primitive::Text => "String::new()"@,
        Primitive::Boolean => "false"@,
        Primitive::Unit => "()"@,
        Primitive::Address => "WitAddress::default()"@,
    }
}

/// The literal that stands for a value of the type expression `t`: zero,
/// the empty or absent container, the tuple of its items' literals, the
/// success that holds the literal of its first type, or what a named type's
/// own `default` yields.
pub open spec fn default_literal(t: TypeModel) -> Seq<char>
    decreases t,
{
    match t {
        TypeModel::Primitive(p) => default_primitive(p),
        TypeModel::List(_) => "Vec::new()"@,
        TypeModel::Option(_) => "None"@,
        TypeModel::Tuple(items) => "("@ + default_list(items) + ")"@,
        TypeModel::Result(ok, _) => "Ok("@ + default_literal(*ok) + ")"@,
        TypeModel::Named(name) => pascal_case(name) + "::default()"@,
    }
}

/// The literals of `items`, with a comma and a space between each two.
pub open spec fn default_list(items: Seq<TypeModel>) -> Seq<char>
    decreases items,
{
    if items.len() == 0 {
        Seq::<char>::empty()
    } else if items.len() == 1 {
        default_literal(items[0])
    } else {
        default_list(items.drop_last()) + ", "@ + default_literal(items.last())
    }
}

/// The literal that stands for a value of the host type written `s`. White
/// space around a type is passed over. A text that is none of the types
/// known here is taken for a type with a `default` of its own.
pub open spec fn host_default(s: Seq<char>) -> Seq<char>
    decreases s.len(), 0nat,
{
    let t = trim(s);
    if t == "i32"@ || t == "u32"@ || t == "i64"@ || t == "u64"@ {
        "0"@
    } else if t == "f32"@ || t == "f64"@ {
        "0.0"@
    } else if t == "String"@ {
        "String::new()"@
    } else if t == "bool"@ {
        "false"@
    } else if t == "()"@ {
        "()"@
    } else if starts_with(t, "Vec<"@) {
        "Vec::new()"@
    } else if starts_with(t, "Option<"@) {
        "None"@
    } else if wrapped(t, "Result<"@, ">"@) && top_comma(inner(t, "Result<"@, ">"@), 0, 0) is Some {
        let body = inner(t, "Result<"@, ">"@);
        let k = top_comma(body, 0, 0).unwrap();
        proof {
            reveal_strlit(">");
            lemma_trim_len(s);
            lemma_top_comma(body, 0, 0);
        }
        "Ok("@ + host_default(body.take(k)) + ")"@
    } else if wrapped(t, "("@, ")"@) {
        proof {
            reveal_strlit(")");
            lemma_trim_len(s);
        }
        "("@ + host_defaults(inner(t, "("@, ")"@)) + ")"@
    } else {
        t + "::default()"@
    }
}

/// The literals for the host types that `s` lists between its commas outside
/// every bracket, with a comma and a space between each two.
pub open spec fn host_defaults(s: Seq<char>) -> Seq<char>
    decreases s.len(), 1nat,
{
    match top_comma(s, 0, 0) {
        None => host_default(s),
        Some(k) => {
            proof {
                lemma_top_comma(s, 0, 0);
            }
            host_default(s.take(k)) + ", "@ + host_defaults(s.skip(k + 1))
        },
    }
}

/// Appends to `out` the host type that stands for `t`.
pub fn write_host_type(t: &TypeExpr, out: &mut Vec<char>)
    ensures
        final(out)@ == old(out)@ + host_text(t@),
    decreases t,
{
    match t {
        TypeExpr::Primitive(p) => {
            let word = match p {
                Primitive::S32 => "i32",
                Primitive::U32 => "u32",
                Primitive::S64 => "i64",
                Primitive::U64 => "u64",
                Primitive::F32 => "f32",
                Primitive::F64 => "f64",
                Primitive::Text => "String",
                Primitive::Boolean => "bool",
                Primitive::Unit => "()",
                Primitive::Address => "WitAddress",
            };
            append_str(out, word);
        },
        TypeExpr::List(inner) => {
            append_str(out, "Vec<");
            write_host_type(inner, out);
            append_str(out, ">");
            assert(out@ =~= old(out)@ + host_text(t@));
        },
        TypeExpr::Option(inner) => {
            append_str(out, "Option<");
            write_host_type(inner, out);
            append_str(out, ">");
            assert(out@ =~= old(out)@ + host_text(t@));
        },
        TypeExpr::Tuple(items) => {
            proof {
                lemma_tuple_model(*t);
            }
            append_str(out, "(");
            let mut i: usize = 0;
            while i < items.len()
                invariant
                    i <= items.len(),
                    t is Tuple && t->Tuple_0 == items,
                    out@ == old(out)@ + "("@ + host_list(models(items@).take(i as int)),
                decreases items.len() - i,
            {
                proof {
                    let next = models(items@).take(i + 1);
                    assert(next.drop_last() == models(items@).take(i as int));
                    assert(next.last() == items@[i as int]@);
                }
                if i > 0 {
                    append_str(out, ", ");
                }
                write_host_type(&items[i], out);
                i = i + 1;
                assert(out@ =~= old(out)@ + "("@ + host_list(models(items@).take(i as int)));
            }
            assert(models(items@).take(items.len() as int) == models(items@));
            append_str(out, ")");
            assert(out@ =~= old(out)@ + host_text(t@));
        },
        TypeExpr::Result(ok, err) => {
            append_str(out, "Result<");
            write_host_type(ok, out);
            append_str(out, ", ");
            write_host_type(err, out);
            append_str(out, ">");
            assert(out@ =~= old(out)@ + host_text(t@));
        },
        TypeExpr::Named(name) => {
            let chars = chars_of(name.as_str());
            let pascal = pascal_chars(&chars);
            append(out, &pascal);
        },
    }
}

/// The host type that stands for `t`.
pub fn host_type(t: &TypeExpr) -> (r: Vec<char>)
    ensures
        r@ == host_text(t@),
{
    let mut out: Vec<char> = Vec::new();
    write_host_type(t, &mut out);
    out
}

/// Appends to `out` the literal that stands for a value of `t`.
pub fn write_default(t: &TypeExpr, out: &mut Vec<char>)
    ensures
        final(out)@ == old(out)@ + default_literal(t@),
    decreases t,
{
    match t {
        TypeExpr::Primitive(p) => {
            let word = match p {
                Primitive::S32 | Primitive::U32 | Primitive::S64 | Primitive::U64 => "0",
                Primitive::F32 | Primitive::F64 => "0.0",
                Primitive::Text => "String::new()",
                Primitive::Boolean => "false",
                Primitive::Unit => "()",
                Primitive::Address => "WitAddress::default()",
            };
            append_str(out, word);
        },
        TypeExpr::List(_) => {
            append_str(out, "Vec::new()");
        },
        TypeExpr::Option(_) => {
            append_str(out, "None");
        },
        TypeExpr::Tuple(items) => {
            proof {
                lemma_tuple_model(*t);
            }
            append_str(out, "(");
            let mut i: usize = 0;
            while i < items.len()
                invariant
                    i <= items.len(),
                    t is Tuple && t->Tuple_0 == items,
                    out@ == old(out)@ + "("@ + default_list(models(items@).take(i as int)),
                decreases items.len() - i,
            {
                proof {
                    let next = models(items@).take(i + 1);
                    assert(next.drop_last() == models(items@).take(i as int));
                    assert(next.last() == items@[i as int]@);
                }
                if i > 0 {
                    append_str(out, ", ");
                }
                write_default(&items[i], out);
                i = i + 1;
                assert(out@ =~= old(out)@ + "("@ + default_list(models(items@).take(i as int)));
            }
            assert(models(items@).take(items.len() as int) == models(items@));
            append_str(out, ")");
            assert(out@ =~= old(out)@ + default_literal(t@));
        },
        TypeExpr::Result(ok, _) => {
            append_str(out, "Ok(");
            write_default(ok, out);
            append_str(out, ")");
            assert(out@ =~= old(out)@ + default_literal(t@));
        },
        TypeExpr::Named(name) => {
            let chars = chars_of(name.as_str());
            let pascal = pascal_chars(&chars);
            append(out, &pascal);
            append_str(out, "::default()");
            assert(out@ =~= old(out)@ + default_literal(t@));
        },
    }
}

/// The literal that stands for a value of `t`.
pub fn default_value(t: &TypeExpr) -> (r: Vec<char>)
    ensures
        r@ == default_literal(t@),
{
    let mut out: Vec<char> = Vec::new();
    write_default(t, &mut out);
    out
}

/// The literal that stands for a value of the host type written `s`.
pub fn default_for_host(s: &Vec<char>) -> (r: Vec<char>)
    ensures
        r@ == host_default(s@),
    decreases s.len(), 0nat,
{
    let t = trimmed(s);
    if is_str(&t, "i32") || is_str(&t, "u32") || is_str(&t, "i64") || is_str(&t, "u64") {
        return chars_of("0");
    }
    if is_str(&t, "f32") || is_str(&t, "f64") {
        return chars_of("0.0");
    }
    if is_str(&t, "String") {
        return chars_of("String::new()");
    }
    if is_str(&t, "bool") {
        return chars_of("false");
    }
    if is_str(&t, "()") {
        return chars_of("()");
    }
    if has_prefix(&t, "Vec<") {
        return chars_of("Vec::new()");
    }
    if has_prefix(&t, "Option<") {
        return chars_of("None");
    }
    match unwrap_text(&t, "Result<", ">") {
        Some(body) => {
            match find_top_comma(&body) {
                Some(k) => {
                    proof {
                        reveal_strlit(">");
                        lemma_trim_len(s@);
                        lemma_top_comma(body@, 0, 0);
                    }
                    let first = slice(&body, 0, k);
                    assert(first@ == body@.take(k as int));
                    let value = default_for_host(&first);
                    let mut out = chars_of("Ok(");
                    append(&mut out, &value);
                    append_str(&mut out, ")");
                    return out;
                },
                None => {},
            }
        },
        None => {},
    }
    match unwrap_text(&t, "(", ")") {
        Some(body) => {
            proof {
                reveal_strlit(")");
                lemma_trim_len(s@);
            }
            let values = defaults_for_host(&body);
            let mut out = chars_of("(");
            append(&mut out, &values);
            append_str(&mut out, ")");
            return out;
        },
        None => {},
    }
    let mut out = t;
    append_str(&mut out, "::default()");
    out
}

/// The literals for the host types that `s` lists.
pub fn defaults_for_host(s: &Vec<char>) -> (r: Vec<char>)
    ensures
        r@ == host_defaults(s@),
    decreases s.len(), 1nat,
{
    match find_top_comma(s) {
        None => default_for_host(s),
        Some(k) => {
            proof {
                lemma_top_comma(s@, 0, 0);
            }
            let head = slice(s, 0, k);
            let tail = slice(s, k + 1, s.len());
            assert(head@ == s@.take(k as int));
            assert(tail@ == s@.skip(k + 1));
            let mut out = default_for_host(&head);
            append_str(&mut out, ", ");
            let rest = defaults_for_host(&tail);
            append(&mut out, &rest);
            out
        },
    }
}

/// The host type that stands for the type expression written `wit_type` in
/// the interface text.
pub fn wit_type_to_rust(wit_type: &str) -> (r: String)
    ensures
        r@ == host_text(parse_type(wit_type@)),
{
    let chars = chars_of(wit_type);
    let t = parse_type_expr(&chars);
    let out = host_type(&t);
    string_of(&out)
}

/// The literal that a generated routine returns for the host type written
/// `rust_type`.
pub fn generate_default_value(rust_type: &str) -> (r: String)
    ensures
        r@ == host_default(rust_type@),
{
    let chars = chars_of(rust_type);
    let out = default_for_host(&chars);
    string_of(&out)
}

} // verus!
