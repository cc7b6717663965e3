//! What is generated for a type can stand in generated code: the host type
//! and the literal of a well-formed type expression are not empty, and
//! their brackets close in the order in which they open.

use crate::host::{
    default_list, default_literal, default_primitive, host_list, host_primitive, host_text,
};
use crate::naming::{
    capital, capitalized, capitalized_all, kebab_case, kebab_piece, kebab_upto, pascal_case,
};
use crate::text::{lemma_split_len, split};
use crate::types::{is_identifier, is_name_char, nesting, well_formed, Primitive, TypeModel};
use vstd::prelude::*;

verus! {

/// The number of brackets that `s` leaves open: those it opens less those
/// it closes.
pub open spec fn depth(s: Seq<char>) -> int
    decreases s.len(),
{
    if s.len() == 0 {
        0
    } else {
        depth(s.drop_last()) + nesting(s.last())
    }
}

/// The brackets of `s` close in the order in which they open: `s` leaves
/// none open, and closes none before it is opened.
pub open spec fn balanced(s: Seq<char>) -> bool {
    depth(s) == 0 && forall|i: int| 0 <= i <= s.len() ==> depth(#[trigger] s.take(i)) >= 0
}

/// `s` holds no bracket.
pub open spec fn bracketless(s: Seq<char>) -> bool {
    forall|i: int| 0 <= i < s.len() ==> nesting(#[trigger] s[i]) == 0
}

/// `c` is a letter of the Latin alphabet.
pub open spec fn is_letter(c: char) -> bool {
    'a' <= c <= 'z' || 'A' <= c <= 'Z'
}

/// `s` holds letters of the Latin alphabet only.
pub open spec fn letters(s: Seq<char>) -> bool {
    forall|i: int| 0 <= i < s.len() ==> is_letter(#[trigger] s[i])
}

/// Two texts in a row leave open what the one and the other leave open.
pub proof fn lemma_depth_concat(a: Seq<char>, b: Seq<char>)
    ensures
        depth(a + b) == depth(a) + depth(b),
    decreases b.len(),
{
    if b.len() == 0 {
        assert(a + b =~= a);
    } else {
        assert((a + b).drop_last() =~= a + b.drop_last());
        assert((a + b).last() == b.last());
        lemma_depth_concat(a, b.drop_last());
    }
}

/// One character leaves open what it opens.
pub proof fn lemma_depth_one(c: char)
    ensures
        depth(seq![c]) == nesting(c),
{
    let one = seq![c];
    assert(one.drop_last().len() == 0);
    assert(depth(one.drop_last()) == 0);
    assert(one.last() == c);
}

/// A text without brackets leaves none open.
pub proof fn lemma_depth_bracketless(s: Seq<char>)
    requires
        bracketless(s),
    ensures
        depth(s) == 0,
    decreases s.len(),
{
    if s.len() > 0 {
        assert forall|i: int| 0 <= i < s.drop_last().len() implies nesting(
            #[trigger] s.drop_last()[i],
        ) == 0 by {
            assert(s.drop_last()[i] == s[i]);
        }
        lemma_depth_bracketless(s.drop_last());
        assert(nesting(s[s.len() - 1]) == 0);
    }
}

/// A text without brackets is balanced.
pub proof fn lemma_balanced_bracketless(s: Seq<char>)
    requires
        bracketless(s),
    ensures
        balanced(s),
{
    lemma_depth_bracketless(s);
    assert forall|i: int| 0 <= i <= s.len() implies depth(#[trigger] s.take(i)) >= 0 by {
        assert forall|k: int| 0 <= k < s.take(i).len() implies nesting(#[trigger] s.take(i)[k])
            == 0 by {
            assert(s.take(i)[k] == s[k]);
        }
        lemma_depth_bracketless(s.take(i));
    }
}

/// Two balanced texts in a row are balanced.
pub proof fn lemma_balanced_concat(a: Seq<char>, b: Seq<char>)
    requires
        balanced(a),
        balanced(b),
    ensures
        balanced(a + b),
{
    lemma_depth_concat(a, b);
    assert forall|i: int| 0 <= i <= (a + b).len() implies depth(#[trigger] (a + b).take(i))
        >= 0 by {
        if i <= a.len() {
            assert((a + b).take(i) =~= a.take(i));
        } else {
            assert((a + b).take(i) =~= a + b.take(i - a.len()));
            lemma_depth_concat(a, b.take(i - a.len()));
        }
    }
}

/// A balanced text between an opening bracket and a closing one is
/// balanced.
pub proof fn lemma_balanced_wrap(opening: char, a: Seq<char>, closing: char)
    requires
        nesting(opening) == 1,
        nesting(closing) == -1,
        balanced(a),
    ensures
        balanced(seq![opening] + a + seq![closing]),
{
    let whole = seq![opening] + a + seq![closing];
    lemma_depth_one(opening);
    lemma_depth_one(closing);
    lemma_depth_concat(seq![opening], a);
    lemma_depth_concat(seq![opening] + a, seq![closing]);
    assert forall|i: int| 0 <= i <= whole.len() implies depth(#[trigger] whole.take(i)) >= 0 by {
        if i == 0 {
            assert(whole.take(0) =~= Seq::<char>::empty());
        } else if i <= 1 + a.len() {
            assert(whole.take(i) =~= seq![opening] + a.take(i - 1));
            lemma_depth_concat(seq![opening], a.take(i - 1));
        } else {
            assert(whole.take(i) =~= whole);
        }
    }
}

/// The pieces of a text of name characters hold small letters only.
pub proof fn lemma_split_name(s: Seq<char>)
    requires
        forall|i: int| 0 <= i < s.len() ==> is_name_char(#[trigger] s[i]),
    ensures
        split(s, '-').len() >= 1,
        forall|k: int, i: int|
            0 <= k < split(s, '-').len() && 0 <= i < split(s, '-')[k].len() ==> 'a' <= (
            #[trigger] split(s, '-')[k][i]) <= 'z',
    decreases s.len(),
{
    if s.len() > 0 {
        let init = s.drop_last();
        assert forall|i: int| 0 <= i < init.len() implies is_name_char(#[trigger] init[i]) by {
            assert(init[i] == s[i]);
        }
        lemma_split_name(init);
        let before = split(init, '-');
        let now = split(s, '-');
        assert(is_name_char(s[s.len() - 1]));
        assert forall|k: int, i: int| 0 <= k < now.len() && 0 <= i < now[k].len() implies 'a' <= (
        #[trigger] now[k][i]) <= 'z' by {
            if s.last() == '-' {
                if k < before.len() {
                    assert(now[k] == before[k]);
                }
            } else {
                if k < before.len() - 1 {
                    assert(now[k] == before[k]);
                } else {
                    if i < before.last().len() {
                        assert(now[k][i] == before[k][i]);
                    }
                }
            }
        }
    }
}

/// Words of small letters, each capitalised, make a text of letters.
pub proof fn lemma_capitalized_letters(words: Seq<Seq<char>>)
    requires
        forall|k: int, i: int|
            0 <= k < words.len() && 0 <= i < words[k].len() ==> 'a' <= (#[trigger] words[k][i])
                <= 'z',
    ensures
        letters(capitalized_all(words)),
    decreases words.len(),
{
    if words.len() > 0 {
        let init = words.drop_last();
        assert forall|k: int, i: int| 0 <= k < init.len() && 0 <= i < init[k].len() implies 'a'
            <= (#[trigger] init[k][i]) <= 'z' by {
            assert(init[k] == words[k]);
        }
        lemma_capitalized_letters(init);
        let word = words.last();
        let done = capitalized(word);
        assert forall|i: int| 0 <= i < done.len() implies is_letter(#[trigger] done[i]) by {
            assert('a' <= words[words.len() - 1][i] <= 'z');
            if i > 0 {
                assert(done[i] == word[i]);
            } else {
                assert('a' <= words[words.len() - 1][0] <= 'z');
                assert(done[0] == capital(word[0]));
            }
        }
        let all = capitalized_all(words);
        assert forall|i: int| 0 <= i < all.len() implies is_letter(#[trigger] all[i]) by {
            if i < capitalized_all(init).len() {
                assert(all[i] == capitalized_all(init)[i]);
            } else {
                assert(all[i] == done[i - capitalized_all(init).len()]);
            }
        }
    }
}

/// The capitalised form of an identifier holds letters only.
pub proof fn lemma_pascal_letters(name: Seq<char>)
    requires
        is_identifier(name),
    ensures
        letters(pascal_case(name)),
{
    lemma_split_name(name);
    lemma_capitalized_letters(split(name, '-'));
}

/// The first piece of a text that does not begin with the separator is not
/// empty.
pub proof fn lemma_split_first(s: Seq<char>, sep: char)
    requires
        s.len() > 0,
        s[0] != sep,
    ensures
        split(s, sep).len() >= 1,
        split(s, sep)[0].len() > 0,
    decreases s.len(),
{
    let init = s.drop_last();
    let before = split(init, sep);
    lemma_split_len(init, sep);
    if s.len() == 1 {
        assert(init.len() == 0);
        assert(before =~= seq![Seq::<char>::empty()]);
    } else {
        assert(init[0] == s[0]);
        lemma_split_first(init, sep);
    }
}

/// Words, each capitalised, are at least as long together as the first
/// alone.
pub proof fn lemma_capitalized_len(words: Seq<Seq<char>>)
    requires
        words.len() > 0,
    ensures
        capitalized_all(words).len() >= words[0].len(),
    decreases words.len(),
{
    let init = words.drop_last();
    if words.len() == 1 {
        assert(capitalized_all(init).len() == 0);
    } else {
        assert(init[0] == words[0]);
        lemma_capitalized_len(init);
    }
}

/// The capitalised form of an identifier is not empty.
pub proof fn lemma_pascal_not_empty(name: Seq<char>)
    requires
        is_identifier(name),
    ensures
        pascal_case(name).len() > 0,
{
    lemma_split_first(name, '-');
    lemma_capitalized_len(split(name, '-'));
}

/// The capitalised form of an identifier is balanced.
pub proof fn lemma_pascal_letters_balanced(name: Seq<char>)
    requires
        is_identifier(name),
    ensures
        balanced(pascal_case(name)),
{
    lemma_pascal_letters(name);
    let p = pascal_case(name);
    assert forall|i: int| 0 <= i < p.len() implies nesting(#[trigger] p[i]) == 0 by {
        assert(is_letter(p[i]));
    }
    lemma_balanced_bracketless(p);
}

/// A text without brackets before an opening bracket, a balanced text and
/// a closing bracket is balanced.
pub proof fn lemma_balanced_call(word: Seq<char>, opening: char, a: Seq<char>, closing: char)
    requires
        bracketless(word),
        nesting(opening) == 1,
        nesting(closing) == -1,
        balanced(a),
    ensures
        balanced(word + seq![opening] + a + seq![closing]),
{
    lemma_balanced_bracketless(word);
    lemma_balanced_wrap(opening, a, closing);
    lemma_balanced_concat(word, seq![opening] + a + seq![closing]);
    assert(word + (seq![opening] + a + seq![closing]) =~= word + seq![opening] + a + seq![
        closing,
    ]);
}

/// A text that ends with a pair of round brackets and holds no other
/// bracket is balanced.
pub proof fn lemma_balanced_unit_call(text: Seq<char>)
    requires
        text.len() >= 2,
        text[text.len() - 2] == '(',
        text[text.len() - 1] == ')',
        forall|i: int| 0 <= i < text.len() - 2 ==> nesting(#[trigger] text[i]) == 0,
    ensures
        balanced(text),
{
    let word = text.take(text.len() - 2);
    let empty = Seq::<char>::empty();
    assert(bracketless(word));
    lemma_balanced_bracketless(empty);
    lemma_balanced_call(word, '(', empty, ')');
    assert(word + seq!['('] + empty + seq![')'] =~= text);
}

/// The literal of a primitive type is not empty and balanced.
pub proof fn lemma_default_primitive(p: Primitive)
    ensures
        default_primitive(p).len() > 0,
        balanced(default_primitive(p)),
{
    reveal_strlit("0");
    reveal_strlit("0.0");
    reveal_strlit("String::new()");
    reveal_strlit("false");
    reveal_strlit("()");
    reveal_strlit("WitAddress::default()");
    match p {
        Primitive::Text => {
            lemma_balanced_unit_call("String::new()"@);
        },
        Primitive::Unit => {
            lemma_balanced_unit_call("()"@);
        },
        Primitive::Address => {
            lemma_balanced_unit_call("WitAddress::default()"@);
        },
        Primitive::Boolean => {
            lemma_balanced_bracketless("false"@);
        },
        Primitive::F32 | Primitive::F64 => {
            lemma_balanced_bracketless("0.0"@);
        },
        _ => {
            lemma_balanced_bracketless("0"@);
        },
    }
}

/// The host type of a primitive type is not empty and balanced.
pub proof fn lemma_host_primitive(p: Primitive)
    ensures
        host_primitive(p).len() > 0,
        balanced(host_primitive(p)),
{
    reveal_strlit("i32");
    reveal_strlit("u32");
    reveal_strlit("i64");
    reveal_strlit("u64");
    reveal_strlit("f32");
    reveal_strlit("f64");
    reveal_strlit("String");
    reveal_strlit("bool");
    reveal_strlit("()");
    reveal_strlit("WitAddress");
    match p {
        Primitive::Unit => {
            lemma_balanced_unit_call("()"@);
        },
        _ => {
            lemma_balanced_bracketless(host_primitive(p));
        },
    }
}

/// A comma and a space are balanced.
pub proof fn lemma_separator_balanced()
    ensures
        balanced(", "@),
{
    reveal_strlit(", ");
    lemma_balanced_bracketless(", "@);
}

/// The literal that stands for a value of a well-formed type is not empty,
/// and its brackets close in the order in which they open.
pub proof fn lemma_default_is_valid(t: TypeModel)
    requires
        well_formed(t),
    ensures
        default_literal(t).len() > 0,
        balanced(default_literal(t)),
    decreases t,
{
    reveal_strlit("Vec::new()");
    reveal_strlit("None");
    reveal_strlit("(");
    reveal_strlit(")");
    reveal_strlit("Ok(");
    reveal_strlit("::default()");
    match t {
        TypeModel::Primitive(p) => {
            lemma_default_primitive(p);
        },
        TypeModel::List(_) => {
            lemma_balanced_unit_call("Vec::new()"@);
        },
        TypeModel::Option(_) => {
            lemma_balanced_bracketless("None"@);
        },
        TypeModel::Tuple(items) => {
            lemma_default_list(items);
            lemma_balanced_wrap('(', default_list(items), ')');
            assert("("@ =~= seq!['(']);
            assert(")"@ =~= seq![')']);
        },
        TypeModel::Result(ok, _) => {
            lemma_default_is_valid(*ok);
            let word = seq!['O', 'k'];
            lemma_balanced_call(word, '(', default_literal(*ok), ')');
            assert("Ok("@ =~= word + seq!['(']);
            assert(")"@ =~= seq![')']);
        },
        TypeModel::Named(name) => {
            lemma_pascal_letters_balanced(name);
            lemma_balanced_unit_call("::default()"@);
            lemma_balanced_concat(pascal_case(name), "::default()"@);
        },
    }
}

/// The literals of a list of well-formed types, with commas between them,
/// are balanced.
pub proof fn lemma_default_list(items: Seq<TypeModel>)
    requires
        forall|i: int| 0 <= i < items.len() ==> well_formed(#[trigger] items[i]),
    ensures
        balanced(default_list(items)),
    decreases items,
{
    if items.len() == 0 {
        lemma_balanced_bracketless(Seq::<char>::empty());
    } else if items.len() == 1 {
        lemma_default_is_valid(items[0]);
    } else {
        let init = items.drop_last();
        assert forall|i: int| 0 <= i < init.len() implies well_formed(#[trigger] init[i]) by {
            assert(init[i] == items[i]);
        }
        lemma_default_list(init);
        lemma_default_is_valid(items.last());
        lemma_separator_balanced();
        lemma_balanced_concat(default_list(init), ", "@);
        lemma_balanced_concat(default_list(init) + ", "@, default_literal(items.last()));
    }
}

/// The host type that stands for a well-formed type is balanced, and not
/// empty.
pub proof fn lemma_host_type_is_valid(t: TypeModel)
    requires
        well_formed(t),
    ensures
        host_text(t).len() > 0,
        balanced(host_text(t)),
    decreases t,
{
    reveal_strlit("Vec<");
    reveal_strlit("Option<");
    reveal_strlit("Result<");
    reveal_strlit("(");
    reveal_strlit(")");
    reveal_strlit(">");
    reveal_strlit(", ");
    match t {
        TypeModel::Primitive(p) => {
            lemma_host_primitive(p);
        },
        TypeModel::List(inner) => {
            lemma_host_type_is_valid(*inner);
            let word = seq!['V', 'e', 'c'];
            lemma_balanced_call(word, '<', host_text(*inner), '>');
            assert("Vec<"@ =~= word + seq!['<']);
            assert(">"@ =~= seq!['>']);
        },
        TypeModel::Option(inner) => {
            lemma_host_type_is_valid(*inner);
            let word = seq!['O', 'p', 't', 'i', 'o', 'n'];
            lemma_balanced_call(word, '<', host_text(*inner), '>');
            assert("Option<"@ =~= word + seq!['<']);
            assert(">"@ =~= seq!['>']);
        },
        TypeModel::Tuple(items) => {
            lemma_host_list(items);
            lemma_balanced_wrap('(', host_list(items), ')');
            assert("("@ =~= seq!['(']);
            assert(")"@ =~= seq![')']);
        },
        TypeModel::Result(ok, err) => {
            lemma_host_type_is_valid(*ok);
            lemma_host_type_is_valid(*err);
            lemma_separator_balanced();
            lemma_balanced_concat(host_text(*ok), ", "@);
            lemma_balanced_concat(host_text(*ok) + ", "@, host_text(*err));
            let word = seq!['R', 'e', 's', 'u', 'l', 't'];
            let both = host_text(*ok) + ", "@ + host_text(*err);
            lemma_balanced_call(word, '<', both, '>');
            assert("Result<"@ =~= word + seq!['<']);
            assert(">"@ =~= seq!['>']);
            assert(host_text(t) =~= word + seq!['<'] + both + seq!['>']);
        },
        TypeModel::Named(name) => {
            lemma_pascal_letters_balanced(name);
            lemma_pascal_not_empty(name);
        },
    }
}

/// The host types of a list of well-formed types, with commas between
/// them, are balanced.
pub proof fn lemma_host_list(items: Seq<TypeModel>)
    requires
        forall|i: int| 0 <= i < items.len() ==> well_formed(#[trigger] items[i]),
    ensures
        balanced(host_list(items)),
    decreases items,
{
    if items.len() == 0 {
        lemma_balanced_bracketless(Seq::<char>::empty());
    } else if items.len() == 1 {
        lemma_host_type_is_valid(items[0]);
    } else {
        let init = items.drop_last();
        assert forall|i: int| 0 <= i < init.len() implies well_formed(#[trigger] init[i]) by {
            assert(init[i] == items[i]);
        }
        lemma_host_list(init);
        lemma_host_type_is_valid(items.last());
        lemma_separator_balanced();
        lemma_balanced_concat(host_list(init), ", "@);
        lemma_balanced_concat(host_list(init) + ", "@, host_text(items.last()));
    }
}

/// The hyphenated form of a name of letters and underscores that begins
/// with a letter is an identifier.
pub proof fn lemma_kebab_identifier(s: Seq<char>)
    requires
        s.len() > 0,
        is_letter(s[0]),
        forall|i: int| 0 <= i < s.len() ==> is_letter(#[trigger] s[i]) || s[i] == '_',
    ensures
        is_identifier(kebab_case(s)),
{
    lemma_kebab_upto(s, s.len() as int);
}

/// The hyphenated form of the first characters of a name of letters and
/// underscores that begins with a letter is an identifier.
pub proof fn lemma_kebab_upto(s: Seq<char>, n: int)
    requires
        0 < n <= s.len(),
        is_letter(s[0]),
        forall|i: int| 0 <= i < s.len() ==> is_letter(#[trigger] s[i]) || s[i] == '_',
    ensures
        is_identifier(kebab_upto(s, n)),
    decreases n,
{
    let piece = kebab_piece(s, n - 1);
    assert(is_letter(s[n - 1]) || s[n - 1] == '_');
    assert forall|k: int| 0 <= k < piece.len() implies is_name_char(#[trigger] piece[k]) by {}
    if n == 1 {
        assert(kebab_upto(s, 0) =~= Seq::<char>::empty());
        assert(kebab_upto(s, 1) =~= piece);
        assert(piece[0] != '-');
    } else {
        lemma_kebab_upto(s, n - 1);
        let before = kebab_upto(s, n - 1);
        let now = kebab_upto(s, n);
        assert(now[0] == before[0]);
        assert forall|k: int| 0 <= k < now.len() implies is_name_char(#[trigger] now[k]) by {
            if k < before.len() {
                assert(now[k] == before[k]);
            } else {
                assert(now[k] == piece[k - before.len()]);
            }
        }
    }
}

} // verus!
