//! What is written can be read: the text of a type expression reads back as
//! that expression, and the line of a routine as that routine.

use crate::text::{
    is_whitespace, lemma_leading_space_is, lemma_trailing_space_is, occurs_at, trim, trim_start,
};
use crate::types::{
    idl_list, idl_text, inner, is_name_char, nesting, parse_type, parse_types, primitive_name,
    primitive_named, top_comma, well_formed, wrapped, Primitive, TypeModel,
};
use vstd::prelude::*;

verus! {

/// `c` is neither a comma nor a bracket.
pub open spec fn plain(c: char) -> bool {
    c != ',' && nesting(c) == 0
}

/// `c` may stand in the text of a type without ending a parameter, a
/// parameter list or a line: it is a small letter, a digit, a hyphen, an
/// angle bracket, a comma or a space.
pub open spec fn is_type_char(c: char) -> bool {
    is_name_char(c) || '0' <= c <= '9' || c == '<' || c == '>' || c == ',' || c == ' '
}

/// Where `a` stands in `s` at `from`, the characters of `a` are those of
/// `s` from `from` on.
pub proof fn lemma_occurs_index(s: Seq<char>, a: Seq<char>, from: int, i: int)
    requires
        occurs_at(s, a, from),
        0 <= i < a.len(),
    ensures
        s[from + i] == a[i],
{
    assert(s.subrange(from, from + a.len())[i] == s[from + i]);
}

/// Where `a + b` stands in `s` at `from`, `a` stands there and `b` behind
/// it.
pub proof fn lemma_occurs_concat(s: Seq<char>, a: Seq<char>, b: Seq<char>, from: int)
    requires
        occurs_at(s, a + b, from),
    ensures
        occurs_at(s, a, from),
        occurs_at(s, b, from + a.len()),
{
    let whole = s.subrange(from, from + (a + b).len());
    assert(s.subrange(from, from + a.len()) =~= whole.subrange(0, a.len() as int));
    assert(whole.subrange(0, a.len() as int) =~= a);
    assert(s.subrange(from + a.len(), from + a.len() + b.len()) =~= whole.subrange(
        a.len() as int,
        (a + b).len() as int,
    ));
    assert(whole.subrange(a.len() as int, (a + b).len() as int) =~= b);
}

/// Plain characters are passed over: the search goes on behind them with as
/// many brackets open as before.
pub proof fn lemma_scan_plain(s: Seq<char>, a: Seq<char>, from: int, depth: int)
    requires
        occurs_at(s, a, from),
        forall|i: int| 0 <= i < a.len() ==> plain(#[trigger] a[i]),
    ensures
        top_comma(s, from, depth) == top_comma(s, from + a.len(), depth),
    decreases a.len(),
{
    if a.len() > 0 {
        lemma_occurs_index(s, a, from, 0);
        assert(plain(a[0]));
        let rest = a.skip(1);
        assert(a =~= seq![a[0]] + rest);
        lemma_occurs_concat(s, seq![a[0]], rest, from);
        assert forall|i: int| 0 <= i < rest.len() implies plain(#[trigger] rest[i]) by {
            assert(rest[i] == a[i + 1]);
        }
        lemma_scan_plain(s, rest, from + 1, depth);
    }
}

/// One character is passed over, unless it is a comma outside every
/// bracket: the search goes on behind it, with one bracket more or less
/// open where it is a bracket.
pub proof fn lemma_scan_one(s: Seq<char>, from: int, depth: int)
    requires
        0 <= from < s.len(),
        !(s[from] == ',' && depth == 0),
    ensures
        top_comma(s, from, depth) == top_comma(s, from + 1, depth + nesting(s[from])),
{
}

/// `c` may stand in a word: a small letter, a digit or a hyphen.
pub open spec fn is_word_char(c: char) -> bool {
    is_name_char(c) || '0' <= c <= '9'
}

/// Every character of `s` may stand in the text of a type.
pub open spec fn type_chars(s: Seq<char>) -> bool {
    forall|i: int| 0 <= i < s.len() ==> is_type_char(#[trigger] s[i])
}

/// Every character of `s` may stand in a word.
pub open spec fn word_chars(s: Seq<char>) -> bool {
    forall|i: int| 0 <= i < s.len() ==> is_word_char(#[trigger] s[i])
}

/// `s` begins with a character of a word and ends with one or with a
/// closing angle bracket.
pub open spec fn tight(s: Seq<char>) -> bool {
    s.len() > 0 && is_word_char(s[0]) && (is_word_char(s.last()) || s.last() == '>')
}

/// Two texts of type characters in a row are a text of type characters.
pub proof fn lemma_type_chars_concat(a: Seq<char>, b: Seq<char>)
    requires
        type_chars(a),
        type_chars(b),
    ensures
        type_chars(a + b),
{
    assert forall|i: int| 0 <= i < (a + b).len() implies is_type_char(#[trigger] (a + b)[i]) by {
        if i < a.len() {
            assert((a + b)[i] == a[i]);
        } else {
            assert((a + b)[i] == b[i - a.len()]);
        }
    }
}

/// The word of a primitive type is a word, and names that type.
pub proof fn lemma_primitive_name(p: Primitive)
    ensures
        primitive_name(p).len() > 0,
        word_chars(primitive_name(p)),
        primitive_named(primitive_name(p)) == Some(p),
{
    reveal_strlit("s32");
    reveal_strlit("u32");
    reveal_strlit("s64");
    reveal_strlit("u64");
    reveal_strlit("f32");
    reveal_strlit("f64");
    reveal_strlit("string");
    reveal_strlit("bool");
    reveal_strlit("unit");
    reveal_strlit("address");
    let a = "s32"@;
    let b = "u32"@;
    let c = "s64"@;
    let d = "u64"@;
    let e = "f32"@;
    let f = "f64"@;
    let g = "string"@;
    let h = "bool"@;
    let i = "unit"@;
    let j = "address"@;
    assert(a[0] != b[0] && a[1] != c[1] && a[0] != d[0] && a[0] != e[0] && a[0] != f[0]);
    assert(b[0] != c[0] && b[1] != d[1] && b[0] != e[0] && b[0] != f[0]);
    assert(c[0] != d[0] && c[0] != e[0] && c[0] != f[0]);
    assert(d[0] != e[0] && d[0] != f[0]);
    assert(e[1] != f[1]);
    assert(h[0] != i[0]);
    assert(a.len() == 3 && b.len() == 3 && c.len() == 3 && d.len() == 3 && e.len() == 3 && f.len()
        == 3 && g.len() == 6 && h.len() == 4 && i.len() == 4 && j.len() == 7);
    let name = primitive_name(p);
    assert forall|k: int| 0 <= k < name.len() implies is_word_char(#[trigger] name[k]) by {}
}

/// The words that open a bracketed type: each is a word and an opening
/// angle bracket, and no two begin alike.
pub proof fn lemma_openers()
    ensures
        "list<"@ == "list"@ + seq!['<'],
        "option<"@ == "option"@ + seq!['<'],
        "tuple<"@ == "tuple"@ + seq!['<'],
        "result<"@ == "result"@ + seq!['<'],
        word_chars("list"@) && "list"@.len() == 4 && "list"@[0] == 'l',
        word_chars("option"@) && "option"@.len() == 6 && "option"@[0] == 'o',
        word_chars("tuple"@) && "tuple"@.len() == 5 && "tuple"@[0] == 't',
        word_chars("result"@) && "result"@.len() == 6 && "result"@[0] == 'r',
        ">"@ == seq!['>'],
        ", "@ == seq![',', ' '],
{
    reveal_strlit("list<");
    reveal_strlit("option<");
    reveal_strlit("tuple<");
    reveal_strlit("result<");
    reveal_strlit("list");
    reveal_strlit("option");
    reveal_strlit("tuple");
    reveal_strlit("result");
    reveal_strlit(">");
    reveal_strlit(", ");
    assert("list<"@ =~= "list"@ + seq!['<']);
    assert("option<"@ =~= "option"@ + seq!['<']);
    assert("tuple<"@ =~= "tuple"@ + seq!['<']);
    assert("result<"@ =~= "result"@ + seq!['<']);
    assert(">"@ =~= seq!['>']);
    assert(", "@ =~= seq![',', ' ']);
}

/// A word, an opening angle bracket, a text of type characters and a
/// closing angle bracket make a text of type characters that begins and
/// ends as the text of a type does.
pub proof fn lemma_wrap_text(word: Seq<char>, x: Seq<char>)
    requires
        word_chars(word),
        word.len() > 0,
        type_chars(x),
    ensures
        type_chars(word + seq!['<'] + x + seq!['>']),
        tight(word + seq!['<'] + x + seq!['>']),
{
    let whole = word + seq!['<'] + x + seq!['>'];
    assert forall|i: int| 0 <= i < whole.len() implies is_type_char(#[trigger] whole[i]) by {
        if i < word.len() {
            assert(whole[i] == word[i]);
            assert(is_word_char(word[i]));
        } else if i == word.len() {
            assert(whole[i] == '<');
        } else if i < word.len() + 1 + x.len() {
            assert(whole[i] == x[i - word.len() - 1]);
        } else {
            assert(whole[i] == '>');
        }
    }
    assert(whole[0] == word[0]);
    assert(is_word_char(word[0]));
    assert(whole.last() == '>');
}

/// The text of a well-formed type holds type characters only, and begins
/// and ends as the text of a type does.
pub proof fn lemma_type_text(t: TypeModel)
    requires
        well_formed(t),
    ensures
        type_chars(idl_text(t)),
        tight(idl_text(t)),
    decreases t,
{
    lemma_openers();
    match t {
        TypeModel::Primitive(p) => {
            lemma_primitive_name(p);
            let a = primitive_name(p);
            assert forall|i: int| 0 <= i < a.len() implies is_type_char(#[trigger] a[i]) by {
                assert(is_word_char(a[i]));
            }
            assert(is_word_char(a[0]));
            assert(is_word_char(a[a.len() - 1]));
        },
        TypeModel::List(inner) => {
            lemma_type_text(*inner);
            lemma_wrap_text("list"@, idl_text(*inner));
        },
        TypeModel::Option(inner) => {
            lemma_type_text(*inner);
            lemma_wrap_text("option"@, idl_text(*inner));
        },
        TypeModel::Tuple(items) => {
            lemma_list_text(items);
            lemma_wrap_text("tuple"@, idl_list(items));
        },
        TypeModel::Result(ok, err) => {
            lemma_type_text(*ok);
            lemma_type_text(*err);
            let sep = seq![',', ' '];
            assert(type_chars(sep)) by {
                assert forall|i: int| 0 <= i < sep.len() implies is_type_char(
                    #[trigger] sep[i],
                ) by {}
            }
            lemma_type_chars_concat(idl_text(*ok), sep);
            lemma_type_chars_concat(idl_text(*ok) + sep, idl_text(*err));
            lemma_wrap_text("result"@, idl_text(*ok) + sep + idl_text(*err));
            assert(idl_text(t) =~= "result"@ + seq!['<'] + (idl_text(*ok) + sep + idl_text(*err))
                + seq!['>']);
        },
        TypeModel::Named(name) => {
            assert forall|i: int| 0 <= i < name.len() implies is_type_char(#[trigger] name[i]) by {
                assert(is_name_char(name[i]));
            }
            assert(is_name_char(name[0]));
            assert(is_name_char(name[name.len() - 1]));
        },
    }
}

/// The text of a list of well-formed types holds type characters only and,
/// where the list is not empty, begins and ends as the text of a type does.
pub proof fn lemma_list_text(items: Seq<TypeModel>)
    requires
        forall|i: int| 0 <= i < items.len() ==> well_formed(#[trigger] items[i]),
    ensures
        type_chars(idl_list(items)),
        items.len() > 0 ==> tight(idl_list(items)),
    decreases items,
{
    lemma_openers();
    if items.len() == 0 {
    } else if items.len() == 1 {
        lemma_type_text(items[0]);
    } else {
        let init = items.drop_last();
        assert forall|i: int| 0 <= i < init.len() implies well_formed(#[trigger] init[i]) by {
            assert(init[i] == items[i]);
        }
        lemma_list_text(init);
        lemma_type_text(items.last());
        let sep = seq![',', ' '];
        assert(type_chars(sep)) by {
            assert forall|i: int| 0 <= i < sep.len() implies is_type_char(#[trigger] sep[i]) by {
            }
        }
        lemma_type_chars_concat(idl_list(init), sep);
        lemma_type_chars_concat(idl_list(init) + sep, idl_text(items.last()));
        let whole = idl_list(init) + sep + idl_text(items.last());
        assert(whole[0] == idl_list(init)[0]);
        assert(whole.last() == idl_text(items.last()).last());
    }
}

/// A word is passed over.
pub proof fn lemma_skip_word(s: Seq<char>, word: Seq<char>, from: int, depth: int)
    requires
        occurs_at(s, word, from),
        word_chars(word),
    ensures
        top_comma(s, from, depth) == top_comma(s, from + word.len(), depth),
{
    assert forall|i: int| 0 <= i < word.len() implies plain(#[trigger] word[i]) by {
        assert(is_word_char(word[i]));
    }
    lemma_scan_plain(s, word, from, depth);
}

/// A comma and a space within brackets are passed over.
pub proof fn lemma_skip_separator(s: Seq<char>, from: int, depth: int)
    requires
        occurs_at(s, seq![',', ' '], from),
        depth >= 1,
    ensures
        top_comma(s, from, depth) == top_comma(s, from + 2, depth),
{
    lemma_occurs_index(s, seq![',', ' '], from, 0);
    lemma_occurs_index(s, seq![',', ' '], from, 1);
    lemma_scan_one(s, from, depth);
    lemma_scan_one(s, from + 1, depth);
}

/// A word, an opening angle bracket, a text that is passed over within
/// brackets, and a closing angle bracket are passed over.
pub proof fn lemma_skip_wrapped(s: Seq<char>, word: Seq<char>, x: Seq<char>, from: int, depth: int)
    requires
        occurs_at(s, word + seq!['<'] + x + seq!['>'], from),
        word_chars(word),
        top_comma(s, from + word.len() + 1, depth + 1) == top_comma(
            s,
            from + word.len() + 1 + x.len(),
            depth + 1,
        ),
    ensures
        top_comma(s, from, depth) == top_comma(
            s,
            from + (word + seq!['<'] + x + seq!['>']).len(),
            depth,
        ),
{
    let whole = word + seq!['<'] + x + seq!['>'];
    lemma_occurs_concat(s, word + seq!['<'] + x, seq!['>'], from);
    lemma_occurs_concat(s, word + seq!['<'], x, from);
    lemma_occurs_concat(s, word, seq!['<'], from);
    lemma_skip_word(s, word, from, depth);
    lemma_occurs_index(s, seq!['<'], from + word.len(), 0);
    lemma_scan_one(s, from + word.len(), depth);
    lemma_occurs_index(s, seq!['>'], from + word.len() + 1 + x.len(), 0);
    lemma_scan_one(s, from + word.len() + 1 + x.len(), depth + 1);
}

/// Where the text of a well-formed type stands, the search for a comma
/// outside every bracket passes over it: the commas it holds lie within its
/// own brackets, and behind it as many brackets are open as before it.
pub proof fn lemma_skip_type(t: TypeModel, s: Seq<char>, from: int, depth: int)
    requires
        well_formed(t),
        depth >= 0,
        occurs_at(s, idl_text(t), from),
    ensures
        top_comma(s, from, depth) == top_comma(s, from + idl_text(t).len(), depth),
    decreases t,
{
    lemma_openers();
    match t {
        TypeModel::Primitive(p) => {
            lemma_primitive_name(p);
            lemma_skip_word(s, primitive_name(p), from, depth);
        },
        TypeModel::List(inner) => {
            let x = idl_text(*inner);
            assert(idl_text(t) == "list"@ + seq!['<'] + x + seq!['>']);
            lemma_occurs_concat(s, "list"@ + seq!['<'] + x, seq!['>'], from);
            lemma_occurs_concat(s, "list"@ + seq!['<'], x, from);
            lemma_skip_type(*inner, s, from + 5, depth + 1);
            lemma_skip_wrapped(s, "list"@, x, from, depth);
        },
        TypeModel::Option(inner) => {
            let x = idl_text(*inner);
            assert(idl_text(t) == "option"@ + seq!['<'] + x + seq!['>']);
            lemma_occurs_concat(s, "option"@ + seq!['<'] + x, seq!['>'], from);
            lemma_occurs_concat(s, "option"@ + seq!['<'], x, from);
            lemma_skip_type(*inner, s, from + 7, depth + 1);
            lemma_skip_wrapped(s, "option"@, x, from, depth);
        },
        TypeModel::Tuple(items) => {
            let x = idl_list(items);
            assert(idl_text(t) == "tuple"@ + seq!['<'] + x + seq!['>']);
            lemma_occurs_concat(s, "tuple"@ + seq!['<'] + x, seq!['>'], from);
            lemma_occurs_concat(s, "tuple"@ + seq!['<'], x, from);
            lemma_skip_list(items, s, from + 6, depth + 1);
            lemma_skip_wrapped(s, "tuple"@, x, from, depth);
        },
        TypeModel::Result(ok, err) => {
            let a = idl_text(*ok);
            let b = idl_text(*err);
            let sep = seq![',', ' '];
            let x = a + sep + b;
            assert(idl_text(t) =~= "result"@ + seq!['<'] + x + seq!['>']);
            lemma_occurs_concat(s, "result"@ + seq!['<'] + x, seq!['>'], from);
            lemma_occurs_concat(s, "result"@ + seq!['<'], x, from);
            lemma_occurs_concat(s, a + sep, b, from + 7);
            lemma_occurs_concat(s, a, sep, from + 7);
            lemma_skip_type(*ok, s, from + 7, depth + 1);
            lemma_skip_separator(s, from + 7 + a.len(), depth + 1);
            lemma_skip_type(*err, s, from + 7 + a.len() + 2, depth + 1);
            lemma_skip_wrapped(s, "result"@, x, from, depth);
        },
        TypeModel::Named(name) => {
            assert forall|i: int| 0 <= i < name.len() implies is_word_char(#[trigger] name[i]) by {
                assert(is_name_char(name[i]));
            }
            lemma_skip_word(s, name, from, depth);
        },
    }
}

/// Where the text of a list of well-formed types stands within brackets,
/// the search for a comma outside every bracket passes over it.
pub proof fn lemma_skip_list(items: Seq<TypeModel>, s: Seq<char>, from: int, depth: int)
    requires
        forall|i: int| 0 <= i < items.len() ==> well_formed(#[trigger] items[i]),
        depth >= 1,
        occurs_at(s, idl_list(items), from),
    ensures
        top_comma(s, from, depth) == top_comma(s, from + idl_list(items).len(), depth),
    decreases items,
{
    lemma_openers();
    if items.len() == 0 {
    } else if items.len() == 1 {
        lemma_skip_type(items[0], s, from, depth);
    } else {
        let init = items.drop_last();
        assert forall|i: int| 0 <= i < init.len() implies well_formed(#[trigger] init[i]) by {
            assert(init[i] == items[i]);
        }
        let a = idl_list(init);
        let sep = seq![',', ' '];
        let b = idl_text(items.last());
        lemma_occurs_concat(s, a + sep, b, from);
        lemma_occurs_concat(s, a, sep, from);
        lemma_skip_list(init, s, from, depth);
        lemma_skip_separator(s, from + a.len(), depth);
        lemma_skip_type(items.last(), s, from + a.len() + 2, depth);
    }
}

/// A character of a word and a closing angle bracket are no white space.
pub proof fn lemma_no_space(c: char)
    requires
        is_word_char(c) || c == '>',
    ensures
        !is_whitespace(c),
{
}

/// A text with no white space at either end is its own trimmed form, and
/// the trimmed form of itself behind one space.
pub proof fn lemma_trim_tight(s: Seq<char>)
    requires
        s.len() > 0,
        !is_whitespace(s[0]),
        !is_whitespace(s.last()),
    ensures
        trim(s) == s,
        trim(seq![' '] + s) == s,
{
    lemma_leading_space_is(s, 0);
    assert(trim_start(s) =~= s);
    lemma_trailing_space_is(s, 0);
    assert(s.take(s.len() as int) =~= s);
    let led = seq![' '] + s;
    assert(led[0] == ' ');
    assert(led[1] == s[0]);
    lemma_leading_space_is(led, 1);
    assert(trim_start(led) =~= s);
}

/// The text of a well-formed type is its own trimmed form, also behind one
/// space.
pub proof fn lemma_trim_type(t: TypeModel)
    requires
        well_formed(t),
    ensures
        trim(idl_text(t)) == idl_text(t),
        trim(seq![' '] + idl_text(t)) == idl_text(t),
{
    lemma_type_text(t);
    let a = idl_text(t);
    lemma_no_space(a[0]);
    lemma_no_space(a.last());
    lemma_trim_tight(a);
}

/// What a text is read as depends on its trimmed form alone.
pub proof fn lemma_parse_trimmed(a: Seq<char>, b: Seq<char>)
    requires
        trim(a) == trim(b),
    ensures
        parse_type(a) == parse_type(b),
{
}

/// The text of a list of two types or more is the text of the first, a
/// comma and a space, and the text of the others.
pub proof fn lemma_list_unfold(items: Seq<TypeModel>)
    requires
        items.len() >= 2,
    ensures
        idl_list(items) == idl_text(items[0]) + ", "@ + idl_list(items.skip(1)),
    decreases items.len(),
{
    let init = items.drop_last();
    let rest = items.skip(1);
    if items.len() == 2 {
        assert(init.len() == 1 && init[0] == items[0]);
        assert(rest.len() == 1 && rest[0] == items.last());
        assert(idl_list(init) == idl_text(init[0]));
        assert(idl_list(rest) == idl_text(rest[0]));
    } else {
        lemma_list_unfold(init);
        assert(init.skip(1) =~= rest.drop_last());
        assert(rest.last() == items.last());
        assert(init[0] == items[0]);
        assert(idl_list(rest) == idl_list(rest.drop_last()) + ", "@ + idl_text(rest.last()));
        assert(idl_list(items) =~= idl_text(items[0]) + ", "@ + idl_list(rest));
    }
}

/// A text that does not end as a word does is the word of no primitive
/// type.
pub proof fn lemma_not_primitive(a: Seq<char>)
    requires
        a.len() > 0,
        !is_word_char(a.last()),
    ensures
        primitive_named(a) is None,
{
    lemma_primitive_name(Primitive::S32);
    lemma_primitive_name(Primitive::U32);
    lemma_primitive_name(Primitive::S64);
    lemma_primitive_name(Primitive::U64);
    lemma_primitive_name(Primitive::F32);
    lemma_primitive_name(Primitive::F64);
    lemma_primitive_name(Primitive::Text);
    lemma_primitive_name(Primitive::Boolean);
    lemma_primitive_name(Primitive::Unit);
    lemma_primitive_name(Primitive::Address);
    assert(is_word_char("s32"@["s32"@.len() - 1]));
    assert(is_word_char("u32"@["u32"@.len() - 1]));
    assert(is_word_char("s64"@["s64"@.len() - 1]));
    assert(is_word_char("u64"@["u64"@.len() - 1]));
    assert(is_word_char("f32"@["f32"@.len() - 1]));
    assert(is_word_char("f64"@["f64"@.len() - 1]));
    assert(is_word_char("string"@["string"@.len() - 1]));
    assert(is_word_char("bool"@["bool"@.len() - 1]));
    assert(is_word_char("unit"@["unit"@.len() - 1]));
    assert(is_word_char("address"@["address"@.len() - 1]));
}

/// A text does not begin with a word that begins otherwise.
pub proof fn lemma_other_opener(a: Seq<char>, opener: Seq<char>)
    requires
        a.len() > 0,
        opener.len() > 0,
        a[0] != opener[0],
    ensures
        !wrapped(a, opener, ">"@),
{
    if opener.len() <= a.len() {
        assert(a.subrange(0, opener.len() as int)[0] == a[0]);
    }
}

/// A text that does not end with a closing angle bracket is no bracketed
/// type.
pub proof fn lemma_not_closed(a: Seq<char>, opener: Seq<char>)
    requires
        a.len() > 0,
        a.last() != '>',
    ensures
        !wrapped(a, opener, ">"@),
{
    lemma_openers();
    assert(a.subrange(a.len() - 1, a.len() as int)[0] == a.last());
}

/// A word, an opening angle bracket, a text and a closing angle bracket:
/// the text is what stands between the opening word and the closing
/// bracket, and the whole is the word of no primitive type.
pub proof fn lemma_wrapped(word: Seq<char>, x: Seq<char>)
    requires
        word_chars(word),
        word.len() > 0,
    ensures
        wrapped(word + seq!['<'] + x + seq!['>'], word + seq!['<'], ">"@),
        inner(word + seq!['<'] + x + seq!['>'], word + seq!['<'], ">"@) == x,
        primitive_named(word + seq!['<'] + x + seq!['>']) is None,
        (word + seq!['<'] + x + seq!['>'])[0] == word[0],
{
    lemma_openers();
    let a = word + seq!['<'] + x + seq!['>'];
    let opener = word + seq!['<'];
    assert(a.subrange(0, opener.len() as int) =~= opener);
    assert(a.subrange(a.len() - 1, a.len() as int) =~= seq!['>']);
    assert(a.subrange(opener.len() as int, a.len() - 1) =~= x);
    assert(a.last() == '>');
    lemma_not_primitive(a);
}

/// The text of a well-formed type reads back as that type.
pub proof fn lemma_type_round_trip(t: TypeModel)
    requires
        well_formed(t),
    ensures
        parse_type(idl_text(t)) == t,
    decreases t,
{
    lemma_openers();
    lemma_trim_type(t);
    lemma_type_text(t);
    let a = idl_text(t);
    match t {
        TypeModel::Primitive(p) => {
            lemma_primitive_name(p);
        },
        TypeModel::List(inner) => {
            lemma_wrapped("list"@, idl_text(*inner));
            lemma_type_round_trip(*inner);
        },
        TypeModel::Option(inner) => {
            lemma_wrapped("option"@, idl_text(*inner));
            lemma_other_opener(a, "list<"@);
            lemma_type_round_trip(*inner);
        },
        TypeModel::Tuple(items) => {
            lemma_wrapped("tuple"@, idl_list(items));
            lemma_other_opener(a, "list<"@);
            lemma_other_opener(a, "option<"@);
            assert forall|i: int| 0 <= i < items.len() implies parse_type(
                idl_text(#[trigger] items[i]),
            ) == items[i] by {
                lemma_type_round_trip(items[i]);
            }
            lemma_list_round_trip(items, false);
            assert(Seq::<char>::empty() + idl_list(items) =~= idl_list(items));
        },
        TypeModel::Result(ok, err) => {
            let pair = seq![*ok, *err];
            assert(pair.drop_last() =~= seq![*ok]);
            assert(idl_list(pair.drop_last()) == idl_text(*ok));
            assert(idl_list(pair) == idl_text(*ok) + ", "@ + idl_text(*err));
            assert(a =~= "result"@ + seq!['<'] + idl_list(pair) + seq!['>']);
            lemma_wrapped("result"@, idl_list(pair));
            lemma_other_opener(a, "list<"@);
            lemma_other_opener(a, "option<"@);
            lemma_other_opener(a, "tuple<"@);
            lemma_type_round_trip(*ok);
            lemma_type_round_trip(*err);
            lemma_list_round_trip(pair, false);
            assert(Seq::<char>::empty() + idl_list(pair) =~= idl_list(pair));
        },
        TypeModel::Named(name) => {
            assert(is_name_char(name.last()));
            lemma_not_closed(name, "list<"@);
            lemma_not_closed(name, "option<"@);
            lemma_not_closed(name, "tuple<"@);
            lemma_not_closed(name, "result<"@);
        },
    }
}

/// The text of a list of well-formed types, also behind one space, reads
/// back as that list, where the text of each reads back as that type.
pub proof fn lemma_list_round_trip(items: Seq<TypeModel>, led: bool)
    requires
        forall|i: int| 0 <= i < items.len() ==> well_formed(#[trigger] items[i]),
        forall|i: int|
            0 <= i < items.len() ==> parse_type(idl_text(#[trigger] items[i])) == items[i],
        led ==> items.len() > 0,
    ensures
        parse_types(
            (if led {
                seq![' ']
            } else {
                Seq::<char>::empty()
            }) + idl_list(items),
        ) == items,
    decreases items.len(),
{
    lemma_openers();
    let lead = if led {
        seq![' ']
    } else {
        Seq::<char>::empty()
    };
    let text = idl_list(items);
    let s = lead + text;
    if items.len() == 0 {
        assert(s =~= Seq::<char>::empty());
        lemma_leading_space_is(s, 0);
        assert(trim(s).len() == 0);
        assert(parse_types(s) =~= items);
    } else {
        let first = items[0];
        let a = idl_text(first);
        lemma_type_text(first);
        lemma_trim_type(first);
        lemma_list_text(items);
        lemma_no_space(text[0]);
        lemma_no_space(text.last());
        lemma_trim_tight(text);
        assert(trim(s) == text) by {
            if !led {
                assert(s =~= text);
            }
        }
        assert(occurs_at(s, a, lead.len() as int)) by {
            if items.len() == 1 {
                assert(text == a);
            } else {
                lemma_list_unfold(items);
            }
            assert(s.subrange(lead.len() as int, (lead.len() + a.len()) as int) =~= a);
        }
        // The search passes over the space, if there is one, and the first type.
        if led {
            assert(s[0] == ' ');
            lemma_scan_one(s, 0, 0);
        }
        lemma_skip_type(first, s, lead.len() as int, 0);
        let k: int = (lead.len() + a.len()) as int;
        assert(parse_type(idl_text(items[0])) == items[0]);
        if items.len() == 1 {
            assert(k == s.len());
            assert(top_comma(s, 0, 0) is None);
            lemma_parse_trimmed(s, a);
            assert(parse_types(s) =~= items);
        } else {
            lemma_list_unfold(items);
            let rest = items.skip(1);
            assert(text == a + ", "@ + idl_list(rest));
            assert(s[k] == ',');
            assert(top_comma(s, 0, 0) == Some(k));
            assert(s.take(k) =~= lead + a);
            assert(trim(lead + a) == a) by {
                if !led {
                    assert(lead + a =~= a);
                }
            }
            lemma_parse_trimmed(s.take(k), a);
            assert(s.skip(k + 1) =~= seq![' '] + idl_list(rest));
            assert forall|i: int| 0 <= i < rest.len() implies well_formed(#[trigger] rest[i])
                && parse_type(idl_text(rest[i])) == rest[i] by {
                assert(rest[i] == items[i + 1]);
            }
            lemma_list_round_trip(rest, true);
            assert(parse_types(s) =~= seq![first] + rest);
            assert(seq![first] + rest =~= items);
        }
    }
}

} // verus!
