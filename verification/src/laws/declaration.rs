//! The line that is written for a routine reads back as that routine.

use crate::emit::{idl_parameter, idl_parameters, signature_line};
use crate::interface::{ParameterModel, SignatureModel, TargetForm};
use crate::laws::type_text::{
    is_type_char, is_word_char, lemma_no_space, lemma_occurs_concat, lemma_parse_trimmed,
    lemma_scan_one, lemma_scan_plain, lemma_skip_type, lemma_skip_word, lemma_trim_tight,
    lemma_trim_type, lemma_type_round_trip, lemma_type_text, plain, tight,
};
use crate::parse::{
    own_parameters, parse_parameter, parse_parameters, parse_signature, returned_type, strip_suffix,
    target_of,
};
use crate::text::{
    find, find_from, is_whitespace, lemma_leading_space, lemma_leading_space_is,
    lemma_trailing_space, occurs_at, trailing_space, trim, trim_start,
};
use crate::types::{
    idl_text, is_identifier, is_name_char, top_comma, well_formed, Primitive, TypeModel,
};
use vstd::prelude::*;

verus! {

/// The parameter `p` is named by an identifier other than `target` and has
/// a well-formed type.
pub open spec fn well_formed_parameter(p: ParameterModel) -> bool {
    is_identifier(p.name) && p.name != "target"@ && well_formed(p.ty)
}

/// The routine `sig` is named by an identifier, and so are its parameters,
/// none of them `target`; every type in it is well formed.
pub open spec fn well_formed_signature(sig: SignatureModel) -> bool {
    &&& is_identifier(sig.name)
    &&& well_formed(sig.return_type)
    &&& forall|i: int|
        0 <= i < sig.parameters.len() ==> well_formed_parameter(#[trigger] sig.parameters[i])
}

/// Where `pat` stands in `s` at `k` and nowhere before, the search for
/// `pat` finds `k`.
pub proof fn lemma_find_is(s: Seq<char>, pat: Seq<char>, from: int, k: int)
    requires
        0 <= from <= k,
        occurs_at(s, pat, k),
        forall|j: int| from <= j < k ==> !occurs_at(s, pat, j),
    ensures
        find_from(s, pat, from) == Some(k),
    decreases k - from,
{
    if from < k {
        lemma_find_is(s, pat, from + 1, k);
    }
}

/// A text does not hold `pat` where its character there is not the first
/// of `pat`.
pub proof fn lemma_no_occurrence(s: Seq<char>, pat: Seq<char>, j: int)
    requires
        pat.len() > 0,
        0 <= j < s.len() ==> s[j] != pat[0],
    ensures
        !occurs_at(s, pat, j),
{
    if 0 <= j && j + pat.len() <= s.len() {
        assert(s.subrange(j, j + pat.len())[0] == s[j]);
    }
}

/// The text of a parameter: its name, a colon, a space and its type.
pub open spec fn parameter_item(p: ParameterModel) -> Seq<char> {
    p.name + seq![':', ' '] + idl_text(p.ty)
}

/// The parameters `ps` behind a first one are that one behind a comma and a
/// space, and then the others.
pub proof fn lemma_parameters_unfold(ps: Seq<ParameterModel>)
    requires
        ps.len() > 0,
    ensures
        idl_parameters(ps) == seq![',', ' '] + parameter_item(ps[0]) + idl_parameters(ps.skip(1)),
    decreases ps.len(),
{
    reveal_strlit(", ");
    reveal_strlit(": ");
    assert(", "@ =~= seq![',', ' ']);
    assert(": "@ =~= seq![':', ' ']);
    let init = ps.drop_last();
    let rest = ps.skip(1);
    if ps.len() == 1 {
        assert(idl_parameters(init) =~= Seq::<char>::empty());
        assert(idl_parameters(rest) =~= Seq::<char>::empty());
        assert(idl_parameters(ps) =~= seq![',', ' '] + parameter_item(ps[0]) + idl_parameters(
            rest,
        ));
    } else {
        lemma_parameters_unfold(init);
        assert(init.skip(1) =~= rest.drop_last());
        assert(rest.last() == ps.last());
        assert(init[0] == ps[0]);
        assert(idl_parameters(rest) == idl_parameters(rest.drop_last()) + idl_parameter(
            rest.last(),
        ));
        assert(idl_parameters(ps) =~= seq![',', ' '] + parameter_item(ps[0]) + idl_parameters(
            rest,
        ));
    }
}

/// The text of a well-formed parameter holds its colon behind its name and
/// nowhere before, and no closing round bracket.
pub proof fn lemma_parameter_item(p: ParameterModel)
    requires
        is_identifier(p.name),
        well_formed(p.ty),
    ensures
        forall|i: int|
            0 <= i < parameter_item(p).len() ==> is_type_char(#[trigger] parameter_item(p)[i])
                || parameter_item(p)[i] == ':',
        tight(parameter_item(p)),
{
    lemma_type_text(p.ty);
    let item = parameter_item(p);
    let ty = idl_text(p.ty);
    assert forall|i: int| 0 <= i < item.len() implies is_type_char(#[trigger] item[i]) || item[i]
        == ':' by {
        if i < p.name.len() {
            assert(item[i] == p.name[i]);
            assert(is_name_char(p.name[i]));
        } else if i < p.name.len() + 2 {
        } else {
            assert(item[i] == ty[i - p.name.len() - 2]);
        }
    }
    assert(item[0] == p.name[0]);
    assert(is_name_char(p.name[0]));
    assert(item.last() == ty.last());
}

/// The text of a well-formed parameter, also behind one space, reads back
/// as that parameter.
pub proof fn lemma_parameter_round_trip(p: ParameterModel, led: bool)
    requires
        is_identifier(p.name),
        well_formed(p.ty),
    ensures
        parse_parameter(
            (if led {
                seq![' ']
            } else {
                Seq::<char>::empty()
            }) + parameter_item(p),
        ) == Some(p),
{
    reveal_strlit(":");
    assert(":"@ =~= seq![':']);
    let lead = if led {
        seq![' ']
    } else {
        Seq::<char>::empty()
    };
    let item = lead + parameter_item(p);
    let k = (lead.len() + p.name.len()) as int;
    assert(item[k] == ':');
    assert(item.subrange(k, k + 1) =~= seq![':']);
    assert forall|j: int| 0 <= j < k implies !occurs_at(item, ":"@, j) by {
        if j < lead.len() {
            assert(item[j] == ' ');
        } else {
            assert(item[j] == p.name[j - lead.len()]);
            assert(is_name_char(p.name[j - lead.len()]));
        }
        lemma_no_occurrence(item, ":"@, j);
    }
    lemma_find_is(item, ":"@, 0, k);
    // The name.
    assert(item.take(k) =~= lead + p.name);
    assert(is_name_char(p.name[0]));
    assert(is_name_char(p.name.last()));
    lemma_no_space(p.name[0]);
    lemma_no_space(p.name.last());
    lemma_trim_tight(p.name);
    assert(trim(lead + p.name) == p.name) by {
        if !led {
            assert(lead + p.name =~= p.name);
        }
    }
    // The type.
    assert(item.skip(k + 1) =~= seq![' '] + idl_text(p.ty));
    lemma_trim_type(p.ty);
    lemma_parse_trimmed(item.skip(k + 1), idl_text(p.ty));
    lemma_type_round_trip(p.ty);
}

/// Where the text of a well-formed parameter stands outside every bracket,
/// the search for a comma outside every bracket passes over it.
pub proof fn lemma_skip_parameter(p: ParameterModel, s: Seq<char>, from: int)
    requires
        is_identifier(p.name),
        well_formed(p.ty),
        occurs_at(s, parameter_item(p), from),
    ensures
        top_comma(s, from, 0) == top_comma(s, from + parameter_item(p).len(), 0),
{
    let item = parameter_item(p);
    lemma_occurs_concat(s, p.name + seq![':', ' '], idl_text(p.ty), from);
    lemma_occurs_concat(s, p.name, seq![':', ' '], from);
    assert forall|i: int| 0 <= i < p.name.len() implies is_word_char(#[trigger] p.name[i]) by {
        assert(is_name_char(p.name[i]));
    }
    lemma_skip_word(s, p.name, from, 0);
    let colon = seq![':', ' '];
    assert forall|i: int| 0 <= i < colon.len() implies plain(#[trigger] colon[i]) by {}
    lemma_scan_plain(s, colon, from + p.name.len(), 0);
    lemma_skip_type(p.ty, s, from + p.name.len() + 2, 0);
}

/// The text of a list of well-formed parameters, the first as it is and
/// each other behind a comma and a space, the whole also behind one space,
/// reads back as that list.
pub proof fn lemma_parameters_round_trip(all: Seq<ParameterModel>, led: bool)
    requires
        all.len() > 0,
        forall|i: int|
            0 <= i < all.len() ==> is_identifier((#[trigger] all[i]).name) && well_formed(
                all[i].ty,
            ),
    ensures
        parse_parameters(
            (if led {
                seq![' ']
            } else {
                Seq::<char>::empty()
            }) + parameter_item(all[0]) + idl_parameters(all.skip(1)),
        ) == Some(all),
    decreases all.len(),
{
    let lead = if led {
        seq![' ']
    } else {
        Seq::<char>::empty()
    };
    let first = all[0];
    let item = parameter_item(first);
    let others = all.skip(1);
    let behind = idl_parameters(others);
    let s = lead + item + behind;
    let k = (lead.len() + item.len()) as int;
    lemma_parameter_item(first);
    lemma_parameter_round_trip(first, led);
    // The text is not of white space alone.
    assert(s[lead.len() as int] == item[0]);
    lemma_no_space(item[0]);
    lemma_leading_space(s);
    lemma_leading_space_is(s, lead.len() as int);
    let body = trim_start(s);
    assert(body.len() > 0);
    assert(trim(s).len() > 0) by {
        lemma_trailing_space(body);
        if trailing_space(body) == body.len() {
            assert(is_whitespace(body[0]));
            assert(body[0] == s[lead.len() as int]);
        }
    }
    // The search passes over the space, if there is one, and the first parameter.
    if led {
        assert(s[0] == ' ');
        lemma_scan_one(s, 0, 0);
    }
    assert(s.subrange(lead.len() as int, k) =~= item);
    lemma_skip_parameter(first, s, lead.len() as int);
    if others.len() == 0 {
        assert(behind =~= Seq::<char>::empty());
        assert(k == s.len());
        assert(top_comma(s, 0, 0) is None);
        assert(s =~= lead + item);
        assert(seq![first] =~= all);
    } else {
        lemma_parameters_unfold(others);
        let next = others[0];
        let rest = others.skip(1);
        assert(s[k] == ',');
        assert(top_comma(s, 0, 0) == Some(k));
        assert(s.take(k) =~= lead + item);
        assert(s.skip(k + 1) =~= seq![' '] + parameter_item(next) + idl_parameters(rest));
        assert forall|i: int| 0 <= i < others.len() implies is_identifier(
            (#[trigger] others[i]).name,
        ) && well_formed(others[i].ty) by {
            assert(others[i] == all[i + 1]);
        }
        lemma_parameters_round_trip(others, true);
        assert(seq![first] + others =~= all);
    }
}

/// Among declared parameters that begin with the address in its structured
/// form and hold no other parameter named `target`, the form found is the
/// structured one and the routine's own parameters are the others.
pub proof fn lemma_target_first(ps: Seq<ParameterModel>)
    requires
        forall|i: int| 0 <= i < ps.len() ==> (#[trigger] ps[i]).name != "target"@,
    ensures
        target_of(
            seq![ParameterModel { name: "target"@, ty: TypeModel::Primitive(Primitive::Address) }]
                + ps,
        ) == Some(TargetForm::Address),
        own_parameters(
            seq![ParameterModel { name: "target"@, ty: TypeModel::Primitive(Primitive::Address) }]
                + ps,
        ) == ps,
    decreases ps.len(),
{
    let first = ParameterModel { name: "target"@, ty: TypeModel::Primitive(Primitive::Address) };
    let all = seq![first] + ps;
    if ps.len() == 0 {
        assert(all.last() == first);
        assert(all.drop_last() =~= Seq::<ParameterModel>::empty());
        assert(own_parameters(all.drop_last()) =~= Seq::<ParameterModel>::empty());
        assert(own_parameters(all) =~= ps);
    } else {
        let init = ps.drop_last();
        assert(all.last() == ps.last());
        assert(all.drop_last() =~= seq![first] + init);
        assert forall|i: int| 0 <= i < init.len() implies (#[trigger] init[i]).name
            != "target"@ by {
            assert(init[i] == ps[i]);
        }
        lemma_target_first(init);
        assert(own_parameters(all) =~= ps);
    }
}

/// The parameters behind the address hold type characters and colons only.
pub proof fn lemma_parameters_chars(ps: Seq<ParameterModel>)
    requires
        forall|i: int|
            0 <= i < ps.len() ==> is_identifier((#[trigger] ps[i]).name) && well_formed(ps[i].ty),
    ensures
        forall|i: int|
            0 <= i < idl_parameters(ps).len() ==> is_type_char(#[trigger] idl_parameters(ps)[i])
                || idl_parameters(ps)[i] == ':',
    decreases ps.len(),
{
    reveal_strlit(", ");
    reveal_strlit(": ");
    assert(", "@ =~= seq![',', ' ']);
    assert(": "@ =~= seq![':', ' ']);
    if ps.len() > 0 {
        let init = ps.drop_last();
        assert forall|i: int| 0 <= i < init.len() implies is_identifier(
            (#[trigger] init[i]).name,
        ) && well_formed(init[i].ty) by {
            assert(init[i] == ps[i]);
        }
        lemma_parameters_chars(init);
        lemma_parameter_item(ps.last());
        let a = idl_parameters(init);
        let item = parameter_item(ps.last());
        let whole = idl_parameters(ps);
        assert(whole =~= a + seq![',', ' '] + item);
        assert forall|i: int| 0 <= i < whole.len() implies is_type_char(#[trigger] whole[i])
            || whole[i] == ':' by {
            if i < a.len() {
                assert(whole[i] == a[i]);
            } else if i < a.len() + 2 {
            } else {
                assert(whole[i] == item[i - a.len() - 2]);
            }
        }
    }
}

/// In a text that is an identifier, the word that opens a parameter list
/// and more, the search for that word finds it behind the identifier.
pub proof fn lemma_find_opening(name: Seq<char>, tail: Seq<char>)
    requires
        is_identifier(name),
    ensures
        find(name + ": func("@ + tail, ": func("@) == Some(name.len() as int),
        trim((name + ": func("@ + tail).take(name.len() as int)) == name,
        (name + ": func("@ + tail).skip((name.len() + ": func("@.len()) as int) == tail,
{
    reveal_strlit(": func(");
    let opening = ": func("@;
    let line = name + opening + tail;
    let i = name.len() as int;
    assert(line.subrange(i, i + opening.len()) =~= opening);
    assert forall|j: int| 0 <= j < i implies !occurs_at(line, opening, j) by {
        assert(line[j] == name[j]);
        assert(is_name_char(name[j]));
        lemma_no_occurrence(line, opening, j);
    }
    lemma_find_is(line, opening, 0, i);
    assert(line.take(i) =~= name);
    assert(is_name_char(name[0]));
    assert(is_name_char(name.last()));
    lemma_no_space(name[0]);
    lemma_no_space(name.last());
    lemma_trim_tight(name);
    assert(line.skip(i + opening.len()) =~= tail);
}

/// In a text that is type characters and colons, a closing round bracket
/// and more, the search for that bracket finds it behind the first part.
pub proof fn lemma_find_closing(front: Seq<char>, tail: Seq<char>)
    requires
        forall|i: int|
            0 <= i < front.len() ==> is_type_char(#[trigger] front[i]) || front[i] == ':',
    ensures
        find(front + ")"@ + tail, ")"@) == Some(front.len() as int),
        (front + ")"@ + tail).take(front.len() as int) == front,
        (front + ")"@ + tail).skip((front.len() + ")"@.len()) as int) == tail,
{
    reveal_strlit(")");
    let s = front + ")"@ + tail;
    let j = front.len() as int;
    assert(s[j] == ')');
    assert(s.subrange(j, j + 1) =~= ")"@);
    assert forall|k: int| 0 <= k < j implies !occurs_at(s, ")"@, k) by {
        assert(s[k] == front[k]);
        lemma_no_occurrence(s, ")"@, k);
    }
    lemma_find_is(s, ")"@, 0, j);
    assert(s.take(j) =~= front);
    assert(s.skip(j + 1) =~= tail);
}

/// In a text that is a space, an arrow with its space and more, the search
/// for the arrow finds it behind the space.
pub proof fn lemma_find_arrow(tail: Seq<char>)
    ensures
        find(" "@ + "-> "@ + tail, "-> "@) == Some(1int),
        (" "@ + "-> "@ + tail).skip((1 + "-> "@.len()) as int) == tail,
{
    reveal_strlit(" ");
    reveal_strlit("-> ");
    let rest = " "@ + "-> "@ + tail;
    assert(rest.subrange(1, 4) =~= "-> "@);
    assert(rest[0] == ' ');
    lemma_no_occurrence(rest, "-> "@, 0);
    lemma_find_is(rest, "-> "@, 0, 1);
    assert(rest.skip(4) =~= tail);
}

/// What is written behind the arrow for a well-formed type reads back as
/// that type.
pub proof fn lemma_returned_round_trip(ret: TypeModel)
    requires
        well_formed(ret),
    ensures
        returned_type("result<"@ + idl_text(ret) + ", string>;"@) == ret,
{
    reveal_strlit(", string>;");
    reveal_strlit(";");
    reveal_strlit("string");
    reveal_strlit(", ");
    reveal_strlit(">");
    let returned = "result<"@ + idl_text(ret) + ", string>;"@;
    let wrapped = TypeModel::Result(
        Box::new(ret),
        Box::new(TypeModel::Primitive(Primitive::Text)),
    );
    let text = TypeModel::Primitive(Primitive::Text);
    assert(well_formed(text));
    assert(idl_text(text) == "string"@);
    assert(well_formed(wrapped));
    assert(idl_text(wrapped) == "result<"@ + idl_text(ret) + ", "@ + "string"@ + ">"@);
    assert(", string>;"@ =~= ", "@ + "string"@ + ">"@ + ";"@);
    assert(returned =~= idl_text(wrapped) + ";"@);
    lemma_type_text(wrapped);
    lemma_no_space(idl_text(wrapped)[0]);
    assert(returned[0] == idl_text(wrapped)[0]);
    assert(returned.last() == ';');
    lemma_trim_tight(returned);
    assert(returned.subrange(returned.len() - 1, returned.len() as int) =~= ";"@);
    assert(strip_suffix(returned, ";"@) =~= idl_text(wrapped));
    lemma_type_round_trip(wrapped);
}

/// What is written between the brackets for well-formed parameters reads
/// back as the address in its structured form and those parameters.
pub proof fn lemma_declared_round_trip(ps: Seq<ParameterModel>)
    requires
        forall|i: int| 0 <= i < ps.len() ==> well_formed_parameter(#[trigger] ps[i]),
    ensures
        parse_parameters("target: address"@ + idl_parameters(ps)) matches Some(all)
            && target_of(all) == Some(TargetForm::Address) && own_parameters(all) == ps,
        forall|i: int|
            0 <= i < ("target: address"@ + idl_parameters(ps)).len() ==> is_type_char(
                #[trigger] ("target: address"@ + idl_parameters(ps))[i],
            ) || ("target: address"@ + idl_parameters(ps))[i] == ':',
{
    reveal_strlit("target: address");
    reveal_strlit("target");
    reveal_strlit("address");
    let address = ParameterModel { name: "target"@, ty: TypeModel::Primitive(Primitive::Address) };
    let t = parameter_item(address);
    let p = idl_parameters(ps);
    assert("target: address"@ =~= t);
    let all = seq![address] + ps;
    assert(all.skip(1) =~= ps);
    assert forall|k: int| 0 <= k < all.len() implies is_identifier((#[trigger] all[k]).name)
        && well_formed(all[k].ty) by {
        if k > 0 {
            assert(all[k] == ps[k - 1]);
            assert(well_formed_parameter(ps[k - 1]));
        }
    }
    lemma_parameters_round_trip(all, false);
    assert(Seq::<char>::empty() + t + p =~= t + p);
    assert forall|k: int| 0 <= k < ps.len() implies (#[trigger] ps[k]).name != "target"@ by {
        assert(well_formed_parameter(ps[k]));
    }
    lemma_target_first(ps);
    assert forall|k: int| 0 <= k < ps.len() implies is_identifier((#[trigger] ps[k]).name)
        && well_formed(ps[k].ty) by {
        assert(well_formed_parameter(ps[k]));
    }
    lemma_parameters_chars(ps);
    lemma_parameter_item(address);
    let front = t + p;
    assert forall|i: int| 0 <= i < front.len() implies is_type_char(#[trigger] front[i])
        || front[i] == ':' by {
        if i < t.len() {
            assert(front[i] == t[i]);
        } else {
            assert(front[i] == p[i - t.len()]);
        }
    }
}

/// The line that is written for a well-formed routine reads back as that
/// routine, with the address in its structured form.
pub proof fn lemma_signature_round_trip(sig: SignatureModel)
    requires
        well_formed_signature(sig),
    ensures
        parse_signature(signature_line(sig), sig.capabilities) == Some(
            SignatureModel { target: Some(TargetForm::Address), ..sig },
        ),
{
    reveal_strlit(": func(target: address");
    reveal_strlit(": func(");
    reveal_strlit("target: address");
    reveal_strlit(") -> result<");
    reveal_strlit(")");
    reveal_strlit(" ");
    reveal_strlit("-> ");
    reveal_strlit("result<");
    let line = signature_line(sig);
    let front = "target: address"@ + idl_parameters(sig.parameters);
    let returned = "result<"@ + idl_text(sig.return_type) + ", string>;"@;
    let rest = " "@ + "-> "@ + returned;
    let after = front + ")"@ + rest;
    assert(": func(target: address"@ =~= ": func("@ + "target: address"@);
    assert(") -> result<"@ =~= ")"@ + " "@ + "-> "@ + "result<"@);
    assert(line =~= sig.name + ": func("@ + after);
    lemma_find_opening(sig.name, after);
    lemma_declared_round_trip(sig.parameters);
    lemma_find_closing(front, rest);
    lemma_find_arrow(returned);
    lemma_returned_round_trip(sig.return_type);
}

} // verus!
