//! The two ways to the literal of a type agree: the literal found from the
//! host type as it is written is the literal of the type expression.

use crate::host::{
    default_list, default_literal, default_primitive, host_default, host_defaults, host_list,
    host_primitive, host_text,
};
use crate::laws::literals::{
    balanced, bracketless, depth, is_letter, lemma_balanced_bracketless, lemma_balanced_call,
    lemma_balanced_concat, lemma_depth_concat, lemma_depth_one, lemma_host_list,
    lemma_host_type_is_valid, lemma_pascal_letters, lemma_pascal_not_empty,
    lemma_separator_balanced, lemma_split_first, lemma_split_name,
};
use crate::laws::type_text::{lemma_occurs_index, lemma_scan_one, lemma_trim_tight};
use crate::naming::{capital, capitalized, capitalized_all, pascal_case};
use crate::text::{is_whitespace, occurs_at, split, starts_with, trim};
use crate::types::{inner, is_identifier, nesting, top_comma, well_formed, Primitive, TypeModel};
use vstd::prelude::*;

verus! {

/// Every comma of `a` stands within a bracket of `a`.
pub open spec fn guarded(a: Seq<char>) -> bool {
    forall|i: int| 0 <= i < a.len() && a[i] == ',' ==> depth(#[trigger] a.take(i)) >= 1
}

/// `a` is balanced, and every comma of `a` stands within a bracket of `a`.
pub open spec fn enclosed(a: Seq<char>) -> bool {
    balanced(a) && guarded(a)
}

/// The search for a comma outside every bracket goes through an enclosed
/// text without finding one.
pub proof fn lemma_scan_enclosed(s: Seq<char>, a: Seq<char>, from: int, d: int, i: int)
    requires
        enclosed(a),
        d >= 0,
        occurs_at(s, a, from),
        0 <= i <= a.len(),
    ensures
        top_comma(s, from, d) == top_comma(s, from + i, d + depth(a.take(i))),
    decreases i,
{
    if i == 0 {
        assert(a.take(0) =~= Seq::<char>::empty());
    } else {
        lemma_scan_enclosed(s, a, from, d, i - 1);
        let before = a.take(i - 1);
        let now = a.take(i);
        assert(now.drop_last() =~= before);
        assert(now.last() == a[i - 1]);
        assert(depth(before) >= 0);
        lemma_occurs_index(s, a, from, i - 1);
        lemma_scan_one(s, from + i - 1, d + depth(before));
    }
}

/// The search for a comma outside every bracket passes over an enclosed
/// text.
pub proof fn lemma_skip_enclosed(s: Seq<char>, a: Seq<char>, from: int, d: int)
    requires
        enclosed(a),
        d >= 0,
        occurs_at(s, a, from),
    ensures
        top_comma(s, from, d) == top_comma(s, from + a.len(), d),
{
    lemma_scan_enclosed(s, a, from, d, a.len() as int);
    assert(a.take(a.len() as int) =~= a);
}

/// `s` holds no comma.
pub open spec fn commaless(s: Seq<char>) -> bool {
    forall|i: int| 0 <= i < s.len() ==> #[trigger] s[i] != ','
}

/// A text without brackets and commas is enclosed.
pub proof fn lemma_word_enclosed(word: Seq<char>)
    requires
        bracketless(word),
        commaless(word),
    ensures
        enclosed(word),
{
    lemma_balanced_bracketless(word);
}

/// A word without brackets and commas, an opening bracket, a balanced text
/// and a closing bracket are enclosed.
pub proof fn lemma_bracketed_enclosed(word: Seq<char>, opening: char, x: Seq<char>, closing: char)
    requires
        bracketless(word),
        commaless(word),
        nesting(opening) == 1,
        nesting(closing) == -1,
        balanced(x),
    ensures
        enclosed(word + seq![opening] + x + seq![closing]),
{
    lemma_balanced_call(word, opening, x, closing);
    let whole = word + seq![opening] + x + seq![closing];
    let head = word + seq![opening];
    lemma_balanced_bracketless(word);
    lemma_depth_one(opening);
    lemma_depth_concat(word, seq![opening]);
    assert forall|i: int| 0 <= i < whole.len() && whole[i] == ',' implies depth(
        #[trigger] whole.take(i),
    ) >= 1 by {
        if i < word.len() {
            assert(whole[i] == word[i]);
        } else if i == word.len() {
        } else if i < head.len() + x.len() {
            assert(whole.take(i) =~= head + x.take(i - head.len()));
            lemma_depth_concat(head, x.take(i - head.len()));
        } else {
        }
    }
}

/// The first character of the capitalised form of an identifier is a
/// capital letter.
pub proof fn lemma_pascal_capital(name: Seq<char>)
    requires
        is_identifier(name),
    ensures
        pascal_case(name).len() > 0,
        'A' <= pascal_case(name)[0] <= 'Z',
{
    lemma_pascal_not_empty(name);
    lemma_split_first(name, '-');
    lemma_split_name(name);
    lemma_capitalized_first(split(name, '-'));
}

/// Words, each capitalised, begin with the capital of the first character
/// of the first word, where that word is not empty.
pub proof fn lemma_capitalized_first(words: Seq<Seq<char>>)
    requires
        words.len() > 0,
        words[0].len() > 0,
    ensures
        capitalized_all(words).len() > 0,
        capitalized_all(words)[0] == capital(words[0][0]),
    decreases words.len(),
{
    let init = words.drop_last();
    if words.len() == 1 {
        assert(capitalized_all(init).len() == 0);
        assert(capitalized_all(words) =~= capitalized(words[0]));
    } else {
        assert(init[0] == words[0]);
        lemma_capitalized_first(init);
    }
}

/// Every named type in `t` is named by an identifier whose capitalised form
/// is not the host's word for a string.
pub open spec fn no_name_is_string(t: TypeModel) -> bool
    decreases t,
{
    match t {
        TypeModel::Primitive(_) => true,
        TypeModel::List(inner) => no_name_is_string(*inner),
        TypeModel::Option(inner) => no_name_is_string(*inner),
        TypeModel::Tuple(items) => forall|i: int|
            0 <= i < items.len() ==> no_name_is_string(#[trigger] items[i]),
        TypeModel::Result(ok, err) => no_name_is_string(*ok) && no_name_is_string(*err),
        TypeModel::Named(name) => pascal_case(name) != "String"@,
    }
}

/// The host type of a well-formed type is enclosed, and has no white space
/// at either end.
pub proof fn lemma_host_enclosed(t: TypeModel)
    requires
        well_formed(t),
    ensures
        enclosed(host_text(t)),
        host_text(t).len() > 0,
        !is_whitespace(host_text(t)[0]),
        !is_whitespace(host_text(t).last()),
{
    reveal_strlit("i32");
    reveal_strlit("u32");
    reveal_strlit("i64");
    reveal_strlit("u64");
    reveal_strlit("f32");
    reveal_strlit("f64");
    reveal_strlit("String");
    reveal_strlit("bool");
    reveal_strlit("()");
    reveal_strlit("WitAddress");
    reveal_strlit("Vec<");
    reveal_strlit("Option<");
    reveal_strlit("Result<");
    reveal_strlit("(");
    reveal_strlit(")");
    reveal_strlit(">");
    reveal_strlit(", ");
    let empty = Seq::<char>::empty();
    lemma_balanced_bracketless(empty);
    match t {
        TypeModel::Primitive(p) => {
            if p == Primitive::Unit {
                lemma_bracketed_enclosed(empty, '(', empty, ')');
                assert("()"@ =~= empty + seq!['('] + empty + seq![')']);
            } else {
                lemma_word_enclosed(host_primitive(p));
            }
        },
        TypeModel::List(inner) => {
            lemma_host_type_is_valid(*inner);
            let word = seq!['V', 'e', 'c'];
            lemma_bracketed_enclosed(word, '<', host_text(*inner), '>');
            assert(host_text(t) =~= word + seq!['<'] + host_text(*inner) + seq!['>']);
        },
        TypeModel::Option(inner) => {
            lemma_host_type_is_valid(*inner);
            let word = seq!['O', 'p', 't', 'i', 'o', 'n'];
            lemma_bracketed_enclosed(word, '<', host_text(*inner), '>');
            assert(host_text(t) =~= word + seq!['<'] + host_text(*inner) + seq!['>']);
        },
        TypeModel::Tuple(items) => {
            lemma_host_list(items);
            lemma_bracketed_enclosed(empty, '(', host_list(items), ')');
            assert(host_text(t) =~= empty + seq!['('] + host_list(items) + seq![')']);
        },
        TypeModel::Result(ok, err) => {
            lemma_host_type_is_valid(*ok);
            lemma_host_type_is_valid(*err);
            lemma_separator_balanced();
            lemma_balanced_concat(host_text(*ok), ", "@);
            lemma_balanced_concat(host_text(*ok) + ", "@, host_text(*err));
            let word = seq!['R', 'e', 's', 'u', 'l', 't'];
            let both = host_text(*ok) + ", "@ + host_text(*err);
            lemma_bracketed_enclosed(word, '<', both, '>');
            assert(host_text(t) =~= word + seq!['<'] + both + seq!['>']);
        },
        TypeModel::Named(name) => {
            lemma_pascal_letters(name);
            lemma_pascal_not_empty(name);
            let p = pascal_case(name);
            assert forall|i: int| 0 <= i < p.len() implies nesting(#[trigger] p[i]) == 0 && p[i]
                != ',' by {
                assert(is_letter(p[i]));
            }
            lemma_word_enclosed(p);
            assert(is_letter(p[0]));
            assert(is_letter(p[p.len() - 1]));
        },
    }
}

/// The literal found for a host type depends on the trimmed form of its
/// text alone.
pub proof fn lemma_default_trimmed(a: Seq<char>, b: Seq<char>)
    requires
        trim(a) == trim(b),
    ensures
        host_default(a) == host_default(b),
{
}

/// The host types of a list of two types or more are the host type of the
/// first, a comma and a space, and the host types of the others; and so
/// for the literals.
pub proof fn lemma_lists_unfold(items: Seq<TypeModel>)
    requires
        items.len() >= 2,
    ensures
        host_list(items) == host_text(items[0]) + ", "@ + host_list(items.skip(1)),
        default_list(items) == default_literal(items[0]) + ", "@ + default_list(items.skip(1)),
    decreases items.len(),
{
    let init = items.drop_last();
    let rest = items.skip(1);
    if items.len() == 2 {
        assert(init.len() == 1 && init[0] == items[0]);
        assert(rest.len() == 1 && rest[0] == items.last());
        assert(host_list(init) == host_text(init[0]));
        assert(host_list(rest) == host_text(rest[0]));
        assert(default_list(init) == default_literal(init[0]));
        assert(default_list(rest) == default_literal(rest[0]));
    } else {
        lemma_lists_unfold(init);
        assert(init.skip(1) =~= rest.drop_last());
        assert(rest.last() == items.last());
        assert(init[0] == items[0]);
        assert(host_list(rest) == host_list(rest.drop_last()) + ", "@ + host_text(rest.last()));
        assert(host_list(items) =~= host_text(items[0]) + ", "@ + host_list(rest));
        assert(default_list(rest) == default_list(rest.drop_last()) + ", "@ + default_literal(
            rest.last(),
        ));
        assert(default_list(items) =~= default_literal(items[0]) + ", "@ + default_list(rest));
    }
}

/// The host types of a list of well-formed types that is not empty have no
/// white space at either end.
pub proof fn lemma_host_list_tight(items: Seq<TypeModel>)
    requires
        items.len() > 0,
        forall|i: int| 0 <= i < items.len() ==> well_formed(#[trigger] items[i]),
    ensures
        host_list(items).len() > 0,
        host_list(items)[0] == host_text(items[0])[0],
        !is_whitespace(host_list(items)[0]),
        !is_whitespace(host_list(items).last()),
    decreases items.len(),
{
    lemma_host_enclosed(items[0]);
    if items.len() > 1 {
        let init = items.drop_last();
        assert forall|i: int| 0 <= i < init.len() implies well_formed(#[trigger] init[i]) by {
            assert(init[i] == items[i]);
        }
        assert(init[0] == items[0]);
        lemma_host_list_tight(init);
        lemma_host_enclosed(items.last());
        let whole = host_list(init) + ", "@ + host_text(items.last());
        assert(whole[0] == host_list(init)[0]);
        assert(whole.last() == host_text(items.last()).last());
    }
}

/// The literals found for the host types of a list of well-formed types,
/// also behind one space, are the literals of the list, where the literal
/// found for the host type of each is the literal of that type.
pub proof fn lemma_defaults_agree(items: Seq<TypeModel>, led: bool)
    requires
        items.len() > 0,
        forall|i: int| 0 <= i < items.len() ==> well_formed(#[trigger] items[i]),
        forall|i: int|
            0 <= i < items.len() ==> host_default(host_text(#[trigger] items[i]))
                == default_literal(items[i]),
    ensures
        host_defaults(
            (if led {
                seq![' ']
            } else {
                Seq::<char>::empty()
            }) + host_list(items),
        ) == default_list(items),
    decreases items.len(),
{
    reveal_strlit(", ");
    let lead = if led {
        seq![' ']
    } else {
        Seq::<char>::empty()
    };
    let first = items[0];
    let a = host_text(first);
    let text = host_list(items);
    let s = lead + text;
    let k = (lead.len() + a.len()) as int;
    lemma_host_enclosed(first);
    lemma_trim_tight(a);
    assert(trim(lead + a) == a) by {
        if !led {
            assert(lead + a =~= a);
        }
    }
    lemma_default_trimmed(lead + a, a);
    if items.len() == 1 {
        assert(text == a);
    } else {
        lemma_lists_unfold(items);
    }
    assert(s.subrange(lead.len() as int, k) =~= a);
    if led {
        assert(s[0] == ' ');
        lemma_scan_one(s, 0, 0);
    }
    lemma_skip_enclosed(s, a, lead.len() as int, 0);
    if items.len() == 1 {
        assert(k == s.len());
        assert(top_comma(s, 0, 0) is None);
        assert(s =~= lead + a);
        assert(default_list(items) == default_literal(first));
    } else {
        let rest = items.skip(1);
        assert(s[k] == ',');
        assert(top_comma(s, 0, 0) == Some(k));
        assert(s.take(k) =~= lead + a);
        assert(s.skip(k + 1) =~= seq![' '] + host_list(rest));
        assert forall|i: int| 0 <= i < rest.len() implies well_formed(#[trigger] rest[i])
            && host_default(host_text(rest[i])) == default_literal(rest[i]) by {
            assert(rest[i] == items[i + 1]);
        }
        lemma_defaults_agree(rest, true);
    }
}

/// The words that the host language has for primitive types, and the
/// literals for them.
pub proof fn lemma_host_words(p: Primitive)
    ensures
        host_default(host_primitive(p)) == default_primitive(p),
{
    reveal_strlit("i32");
    reveal_strlit("u32");
    reveal_strlit("i64");
    reveal_strlit("u64");
    reveal_strlit("f32");
    reveal_strlit("f64");
    reveal_strlit("String");
    reveal_strlit("bool");
    reveal_strlit("()");
    reveal_strlit("WitAddress");
    reveal_strlit("Vec<");
    reveal_strlit("Option<");
    reveal_strlit("Result<");
    reveal_strlit("(");
    reveal_strlit("::default()");
    reveal_strlit("WitAddress::default()");
    let word = host_primitive(p);
    lemma_trim_tight(word);
    let a = "i32"@;
    let b = "u32"@;
    let c = "i64"@;
    let d = "u64"@;
    let e = "f32"@;
    let f = "f64"@;
    assert(a[0] != b[0] && a[1] != c[1] && a[0] != d[0] && a[0] != e[0] && a[0] != f[0]);
    assert(b[0] != c[0] && b[1] != d[1] && b[0] != e[0] && b[0] != f[0]);
    assert(c[0] != d[0] && c[0] != e[0] && c[0] != f[0]);
    assert(d[0] != e[0] && d[0] != f[0]);
    assert(e[1] != f[1]);
    if p == Primitive::Address {
        lemma_first_differs(word, "Vec<"@);
        lemma_first_differs(word, "Option<"@);
        lemma_first_differs(word, "Result<"@);
        lemma_first_differs(word, "("@);
        assert(word + "::default()"@ =~= "WitAddress::default()"@);
    }
}

/// A text does not begin with a text that begins otherwise.
pub proof fn lemma_first_differs(a: Seq<char>, opener: Seq<char>)
    requires
        a.len() > 0,
        opener.len() > 0,
        a[0] != opener[0],
    ensures
        !starts_with(a, opener),
{
    if starts_with(a, opener) {
        assert(a.subrange(0, opener.len() as int)[0] == a[0]);
    }
}

/// A text that begins with none of the first characters of the host's
/// words for primitive types is none of those words.
pub proof fn lemma_no_host_word(a: Seq<char>)
    requires
        a.len() > 0,
        a[0] != 'i' && a[0] != 'u' && a[0] != 'f' && a[0] != 'S' && a[0] != 'b' && a[0] != '(',
    ensures
        a != "i32"@ && a != "u32"@ && a != "i64"@ && a != "u64"@ && a != "f32"@ && a != "f64"@
            && a != "String"@ && a != "bool"@ && a != "()"@,
{
    reveal_strlit("i32");
    reveal_strlit("u32");
    reveal_strlit("i64");
    reveal_strlit("u64");
    reveal_strlit("f32");
    reveal_strlit("f64");
    reveal_strlit("String");
    reveal_strlit("bool");
    reveal_strlit("()");
    assert("i32"@[0] == 'i' && "u32"@[0] == 'u' && "i64"@[0] == 'i' && "u64"@[0] == 'u');
    assert("f32"@[0] == 'f' && "f64"@[0] == 'f' && "String"@[0] == 'S' && "bool"@[0] == 'b');
    assert("()"@[0] == '(');
}

/// The literal found for the host type of a well-formed type is the
/// literal of that type, where no name in the type has the host's word for
/// a string as its capitalised form.
pub proof fn lemma_default_agrees(t: TypeModel)
    requires
        well_formed(t),
        no_name_is_string(t),
    ensures
        host_default(host_text(t)) == default_literal(t),
    decreases t,
{
    reveal_strlit("Vec<");
    reveal_strlit("Option<");
    reveal_strlit("Result<");
    reveal_strlit("(");
    reveal_strlit(")");
    reveal_strlit(">");
    reveal_strlit(", ");
    reveal_strlit("()");
    let a = host_text(t);
    lemma_host_enclosed(t);
    lemma_trim_tight(a);
    match t {
        TypeModel::Primitive(p) => {
            lemma_host_words(p);
        },
        TypeModel::List(inner) => {
            lemma_no_host_word(a);
            assert(a.subrange(0, 4) =~= "Vec<"@);
        },
        TypeModel::Option(inner) => {
            lemma_no_host_word(a);
            lemma_first_differs(a, "Vec<"@);
            assert(a.subrange(0, 7) =~= "Option<"@);
        },
        TypeModel::Tuple(items) => {
            if items.len() == 0 {
                assert(host_list(items) =~= Seq::<char>::empty());
                assert(default_list(items) =~= Seq::<char>::empty());
                assert(a =~= "()"@);
                reveal_strlit("i32");
                reveal_strlit("u32");
                reveal_strlit("i64");
                reveal_strlit("u64");
                reveal_strlit("f32");
                reveal_strlit("f64");
                reveal_strlit("String");
                reveal_strlit("bool");
                assert(default_literal(t) =~= "()"@);
            } else {
                lemma_host_list_tight(items);
                let body = host_list(items);
                assert(a =~= seq!['('] + body + seq![')']);
                assert(a.len() > 2);
                lemma_no_tuple_word(a);
                lemma_first_differs(a, "Vec<"@);
                lemma_first_differs(a, "Option<"@);
                lemma_first_differs(a, "Result<"@);
                assert(a.subrange(0, 1) =~= "("@);
                assert(a.subrange(a.len() - 1, a.len() as int) =~= ")"@);
                assert(inner(a, "("@, ")"@) =~= body);
                assert forall|i: int| 0 <= i < items.len() implies host_default(
                    host_text(#[trigger] items[i]),
                ) == default_literal(items[i]) by {
                    lemma_default_agrees(items[i]);
                }
                lemma_defaults_agree(items, false);
                assert(Seq::<char>::empty() + body =~= body);
            }
        },
        TypeModel::Result(ok, err) => {
            lemma_no_host_word(a);
            lemma_first_differs(a, "Vec<"@);
            lemma_first_differs(a, "Option<"@);
            let x = host_text(*ok);
            let y = host_text(*err);
            let body = x + ", "@ + y;
            assert(a =~= "Result<"@ + body + ">"@);
            assert(a.subrange(0, 7) =~= "Result<"@);
            assert(a.subrange(a.len() - 1, a.len() as int) =~= ">"@);
            assert(inner(a, "Result<"@, ">"@) =~= body);
            lemma_host_enclosed(*ok);
            assert(body.subrange(0, x.len() as int) =~= x);
            lemma_skip_enclosed(body, x, 0, 0);
            assert(body[x.len() as int] == ',');
            assert(top_comma(body, 0, 0) == Some(x.len() as int));
            assert(body.take(x.len() as int) =~= x);
            lemma_default_agrees(*ok);
        },
        TypeModel::Named(name) => {
            lemma_pascal_capital(name);
            lemma_pascal_letters(name);
            let p = pascal_case(name);
            lemma_no_named_word(p);
            assert forall|i: int| 0 <= i < p.len() implies #[trigger] p[i] != '<' && p[i]
                != '(' by {
                assert(is_letter(p[i]));
            }
            if starts_with(p, "Vec<"@) {
                assert(p.subrange(0, 4)[3] == p[3]);
            }
            if starts_with(p, "Option<"@) {
                assert(p.subrange(0, 7)[6] == p[6]);
            }
            if starts_with(p, "Result<"@) {
                assert(p.subrange(0, 7)[6] == p[6]);
            }
            lemma_first_differs(p, "("@);
        },
    }
}

/// A text of more than two characters that begins with an opening round
/// bracket is none of the host's words for primitive types.
pub proof fn lemma_no_tuple_word(a: Seq<char>)
    requires
        a.len() > 2,
        a[0] == '(',
    ensures
        a != "i32"@ && a != "u32"@ && a != "i64"@ && a != "u64"@ && a != "f32"@ && a != "f64"@
            && a != "String"@ && a != "bool"@ && a != "()"@,
{
    reveal_strlit("i32");
    reveal_strlit("u32");
    reveal_strlit("i64");
    reveal_strlit("u64");
    reveal_strlit("f32");
    reveal_strlit("f64");
    reveal_strlit("String");
    reveal_strlit("bool");
    reveal_strlit("()");
    assert("i32"@[0] == 'i' && "u32"@[0] == 'u' && "i64"@[0] == 'i' && "u64"@[0] == 'u');
    assert("f32"@[0] == 'f' && "f64"@[0] == 'f' && "String"@[0] == 'S' && "bool"@[0] == 'b');
}

/// A text of letters that begins with a capital and is not the host's word
/// for a string is none of the host's words for primitive types.
pub proof fn lemma_no_named_word(p: Seq<char>)
    requires
        p.len() > 0,
        'A' <= p[0] <= 'Z',
        p != "String"@,
    ensures
        p != "i32"@ && p != "u32"@ && p != "i64"@ && p != "u64"@ && p != "f32"@ && p != "f64"@
            && p != "bool"@ && p != "()"@,
{
    reveal_strlit("i32");
    reveal_strlit("u32");
    reveal_strlit("i64");
    reveal_strlit("u64");
    reveal_strlit("f32");
    reveal_strlit("f64");
    reveal_strlit("bool");
    reveal_strlit("()");
    assert("i32"@[0] == 'i' && "u32"@[0] == 'u' && "i64"@[0] == 'i' && "u64"@[0] == 'u');
    assert("f32"@[0] == 'f' && "f64"@[0] == 'f' && "bool"@[0] == 'b');
    assert("()"@[0] == '(');
}

} // verus!
