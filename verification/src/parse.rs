//! Reading the interface text: the routines that an interface file declares
//! with the capabilities written above each, the names of its records and
//! variants, and what a world file says of its name and its imports.

use crate::interface::{
    parameter_models, signature_models, Capability, CapabilitySet, MethodSignature, Parameter,
    ParameterModel, SignatureModel, TargetForm,
};
use crate::text::{
    chars_of, contains, ends_with, find, has_prefix, has_suffix, is_str, is_whitespace,
    lemma_find_from, lemma_leading_space_is, occurs_at, search, slice, split, split_on, starts_with,
    string_of, trim, trim_start, trimmed, views, whitespace,
};
use crate::types::{
    find_top_comma, lemma_top_comma, parse_type, parse_type_expr, top_comma, Primitive, TypeExpr,
    TypeModel,
};
use vstd::prelude::*;

verus! {

/// The sequences that the strings of `v` hold.
pub open spec fn strings(v: Seq<String>) -> Seq<Seq<char>> {
    Seq::new(v.len(), |i: int| v[i]@)
}

/// `s` without `suffix` at its end, where it ends with it.
pub open spec fn strip_suffix(s: Seq<char>, suffix: Seq<char>) -> Seq<char> {
    if ends_with(s, suffix) {
        s.take(s.len() - suffix.len())
    } else {
        s
    }
}

/// `s` without the string `suffix` at its end, where it ends with it.
pub fn without_suffix(s: &Vec<char>, suffix: &str) -> (r: Vec<char>)
    ensures
        r@ == strip_suffix(s@, suffix@),
{
    if has_suffix(s, suffix) {
        let n = chars_of(suffix).len();
        let r = slice(s, 0, s.len() - n);
        assert(r@ == s@.take(s.len() - n));
        r
    } else {
        slice(s, 0, s.len())
    }
}

/// The capability that the comment `line` names: the word after its two
/// slashes, if it is one of the three.
pub open spec fn tag_of(line: Seq<char>) -> Option<Capability> {
    let word = trim(line.skip("//"@.len() as int));
    if !starts_with(line, "//"@) {
        None
    } else if word == "remote"@ {
        Some(Capability::Remote)
    } else if word == "local"@ {
        Some(Capability::Local)
    } else if word == "http"@ {
        Some(Capability::Http)
    } else {
        None
    }
}

/// The capability that the comment `line` names.
pub fn capability_tag(line: &Vec<char>) -> (r: Option<Capability>)
    ensures
        r == tag_of(line@),
{
    if !has_prefix(line, "//") {
        return None;
    }
    let n = chars_of("//").len();
    let rest = slice(line, n, line.len());
    let word = trimmed(&rest);
    if is_str(&word, "remote") {
        Some(Capability::Remote)
    } else if is_str(&word, "local") {
        Some(Capability::Local)
    } else if is_str(&word, "http") {
        Some(Capability::Http)
    } else {
        None
    }
}

/// The parameter that `item` declares: a name, a colon and a type.
pub open spec fn parse_parameter(item: Seq<char>) -> Option<ParameterModel> {
    match find(item, ":"@) {
        None => None,
        Some(i) => Some(
            ParameterModel {
                name: trim(item.take(i)),
                ty: parse_type(item.skip(i + ":"@.len())),
            },
        ),
    }
}

/// The parameters that `s` declares between its commas outside every
/// bracket, or `None` where one of them lacks its colon. A text of white
/// space alone declares none.
pub open spec fn parse_parameters(s: Seq<char>) -> Option<Seq<ParameterModel>>
    decreases s.len(),
{
    if trim(s).len() == 0 {
        Some(Seq::<ParameterModel>::empty())
    } else {
        match top_comma(s, 0, 0) {
            None => match parse_parameter(s) {
                None => None,
                Some(p) => Some(seq![p]),
            },
            Some(k) => {
                proof {
                    lemma_top_comma(s, 0, 0);
                }
                match (parse_parameter(s.take(k)), parse_parameters(s.skip(k + 1))) {
                    (Some(p), Some(rest)) => Some(seq![p] + rest),
                    _ => None,
                }
            },
        }
    }
}

/// How a text that gives the address the type `ty` writes it.
pub open spec fn form_of(ty: TypeModel) -> TargetForm {
    if ty == TypeModel::Primitive(Primitive::Text) {
        TargetForm::Text
    } else {
        TargetForm::Address
    }
}

/// The form of the address among the declared parameters `ps`: that of the
/// last one named `target`.
pub open spec fn target_of(ps: Seq<ParameterModel>) -> Option<TargetForm>
    decreases ps.len(),
{
    if ps.len() == 0 {
        None
    } else if ps.last().name == "target"@ {
        Some(form_of(ps.last().ty))
    } else {
        target_of(ps.drop_last())
    }
}

/// The declared parameters `ps` without those named `target`.
pub open spec fn own_parameters(ps: Seq<ParameterModel>) -> Seq<ParameterModel>
    decreases ps.len(),
{
    if ps.len() == 0 {
        ps
    } else if ps.last().name == "target"@ {
        own_parameters(ps.drop_last())
    } else {
        own_parameters(ps.drop_last()).push(ps.last())
    }
}

/// The type that a routine returns, read from what its line holds after the
/// arrow. The interface text wraps every return type in a result whose
/// error is a string: that wrapping is taken off.
pub open spec fn returned_type(text: Seq<char>) -> TypeModel {
    let t = parse_type(strip_suffix(trim(text), ";"@));
    match t {
        TypeModel::Result(ok, err) => if *err == TypeModel::Primitive(Primitive::Text) {
            *ok
        } else {
            t
        },
        _ => t,
    }
}

/// The routine that `line` declares with the capabilities `caps`, or `None`
/// where the line lacks the bracket that closes its parameters, the arrow
/// behind it, or the colon of a parameter.
pub open spec fn parse_signature(line: Seq<char>, caps: CapabilitySet) -> Option<SignatureModel> {
    match find(line, ": func("@) {
        None => None,
        Some(i) => {
            let after = line.skip(i + ": func("@.len());
            match find(after, ")"@) {
                None => None,
                Some(j) => {
                    let rest = after.skip(j + ")"@.len());
                    match find(rest, "-> "@) {
                        None => None,
                        Some(k) => match parse_parameters(after.take(j)) {
                            None => None,
                            Some(ps) => Some(
                                SignatureModel {
                                    name: trim(line.take(i)),
                                    capabilities: caps,
                                    target: target_of(ps),
                                    parameters: own_parameters(ps),
                                    return_type: returned_type(rest.skip(k + "-> "@.len())),
                                },
                            ),
                        },
                    }
                },
            }
        },
    }
}

/// `line` has the shape of a routine's declaration.
pub open spec fn signature_shaped(line: Seq<char>) -> bool {
    contains(line, ": func("@) && contains(line, "-> "@)
}

/// The name that `line` declares after `keyword`: what stands behind the
/// keyword, without a brace at its end and without white space around it.
pub open spec fn declared_name(line: Seq<char>, keyword: Seq<char>) -> Seq<char> {
    trim(strip_suffix(line.skip(keyword.len() as int), "{"@))
}

/// What has been read of an interface file: the routines and the names of
/// records and variants found so far, and the capabilities written since the
/// last line that was neither a comment nor empty.
pub struct Reading {
    pub signatures: Seq<SignatureModel>,
    pub type_names: Seq<Seq<char>>,
    pub pending: CapabilitySet,
}

/// The reading after one more line.
///
/// A comment that names a capability adds it to the pending ones; any other
/// comment and an empty line change nothing. A routine's declaration is
/// kept, with the pending capabilities, if there are any and the line can be
/// read. A line that begins with `record` or `variant` gives a type name.
/// Every line but a comment or an empty one ends with no capability
/// pending.
pub open spec fn read_line(state: Reading, raw: Seq<char>) -> Reading {
    let line = trim(raw);
    if starts_with(line, "//"@) {
        match tag_of(line) {
            Some(c) => Reading { pending: state.pending.with(c), ..state },
            None => state,
        }
    } else if line.len() == 0 {
        state
    } else if signature_shaped(line) {
        match parse_signature(line, state.pending) {
            Some(sig) => if state.pending.is_empty() {
                state
            } else {
                Reading {
                    signatures: state.signatures.push(sig),
                    pending: CapabilitySet::none(),
                    ..state
                }
            },
            None => Reading { pending: CapabilitySet::none(), ..state },
        }
    } else if starts_with(line, "record "@) {
        Reading {
            type_names: state.type_names.push(declared_name(line, "record "@)),
            pending: CapabilitySet::none(),
            ..state
        }
    } else if starts_with(line, "variant "@) {
        Reading {
            type_names: state.type_names.push(declared_name(line, "variant "@)),
            pending: CapabilitySet::none(),
            ..state
        }
    } else {
        Reading { pending: CapabilitySet::none(), ..state }
    }
}

/// The reading after the lines `lines`.
pub open spec fn read_lines(lines: Seq<Seq<char>>) -> Reading
    decreases lines.len(),
{
    if lines.len() == 0 {
        Reading {
            signatures: Seq::empty(),
            type_names: Seq::empty(),
            pending: CapabilitySet::none(),
        }
    } else {
        read_line(read_lines(lines.drop_last()), lines.last())
    }
}

/// What the interface text `content` declares, read line by line.
pub open spec fn read_interface(content: Seq<char>) -> Reading {
    read_lines(split(content, '\n'))
}

/// Every routine of a reading may be reached in one way at least, where
/// that holds of the reading before the line.
pub proof fn lemma_line_keeps_reachable(state: Reading, raw: Seq<char>)
    requires
        forall|i: int|
            0 <= i < state.signatures.len() ==> (#[trigger] state.signatures[i]).reachable(),
    ensures
        forall|i: int|
            0 <= i < read_line(state, raw).signatures.len() ==> (#[trigger] read_line(
                state,
                raw,
            ).signatures[i]).reachable(),
{
    let after = read_line(state, raw);
    assert forall|i: int| 0 <= i < after.signatures.len() implies (
    #[trigger] after.signatures[i]).reachable() by {
        if i < state.signatures.len() {
            assert(after.signatures[i] == state.signatures[i]);
        }
    }
}

/// Every routine that is read from an interface text may be reached in one
/// way at least.
pub proof fn lemma_read_reachable(lines: Seq<Seq<char>>)
    ensures
        forall|i: int|
            0 <= i < read_lines(lines).signatures.len() ==> (#[trigger] read_lines(
                lines,
            ).signatures[i]).reachable(),
    decreases lines.len(),
{
    if lines.len() > 0 {
        lemma_read_reachable(lines.drop_last());
        lemma_line_keeps_reachable(read_lines(lines.drop_last()), lines.last());
    }
}

/// The parameter that `item` declares.
pub fn parameter_of(item: &Vec<char>) -> (r: Option<Parameter>)
    ensures
        match r {
            Some(p) => parse_parameter(item@) == Some(p@),
            None => parse_parameter(item@) is None,
        },
{
    match search(item, ":") {
        None => None,
        Some(i) => {
            proof {
                lemma_find_from(item@, ":"@, 0);
                assert(find(item@, ":"@) == Some(i as int));
                assert(occurs_at(item@, ":"@, i as int));
            }
            let n = chars_of(":").len();
            assert(n == ":"@.len());
            let before = slice(item, 0, i);
            let after = slice(item, i + n, item.len());
            assert(before@ == item@.take(i as int));
            assert(after@ == item@.skip(i + ":"@.len()));
            let name = trimmed(&before);
            let ty = parse_type_expr(&after);
            Some(Parameter { name: string_of(&name), ty })
        },
    }
}

/// The parameters that `s` declares.
pub fn parameters_of(s: &Vec<char>) -> (r: Option<Vec<Parameter>>)
    ensures
        match r {
            Some(ps) => parse_parameters(s@) == Some(parameter_models(ps@)),
            None => parse_parameters(s@) is None,
        },
    decreases s.len(),
{
    let mut out: Vec<Parameter> = Vec::new();
    let t = trimmed(s);
    if t.len() == 0 {
        assert(parameter_models(out@) =~= Seq::<ParameterModel>::empty());
        return Some(out);
    }
    match find_top_comma(s) {
        None => match parameter_of(s) {
            None => None,
            Some(p) => {
                out.push(p);
                assert(parameter_models(out@) =~= seq![p@]);
                Some(out)
            },
        },
        Some(k) => {
            proof {
                lemma_top_comma(s@, 0, 0);
            }
            let head = slice(s, 0, k);
            let tail = slice(s, k + 1, s.len());
            assert(head@ == s@.take(k as int));
            assert(tail@ == s@.skip(k + 1));
            let first = parameter_of(&head);
            let others = parameters_of(&tail);
            match first {
                None => None,
                Some(p) => match others {
                    None => None,
                    Some(mut rest) => {
                        out.push(p);
                        let ghost rest_seq = rest@;
                        out.append(&mut rest);
                        assert(parameter_models(out@) =~= seq![p@] + parameter_models(rest_seq));
                        Some(out)
                    },
                },
            }
        },
    }
}

/// Parts the declared parameters `ps` into the form of the address and the
/// routine's own parameters.
pub fn part_parameters(ps: Vec<Parameter>) -> (r: (Option<TargetForm>, Vec<Parameter>))
    ensures
        r.0 == target_of(parameter_models(ps@)),
        parameter_models(r.1@) == own_parameters(parameter_models(ps@)),
{
    let ghost all = parameter_models(ps@);
    let mut target: Option<TargetForm> = None;
    let mut own: Vec<Parameter> = Vec::new();
    let mut left = ps;
    let ghost mut done: int = 0;
    assert(all.skip(0) == all);
    assert(parameter_models(own@) =~= own_parameters(all.take(0)));
    while left.len() > 0
        invariant
            0 <= done <= all.len(),
            done + left.len() == all.len(),
            parameter_models(left@) == all.skip(done),
            target == target_of(all.take(done)),
            parameter_models(own@) == own_parameters(all.take(done)),
        decreases left.len(),
    {
        let ghost before = left@;
        let p = left.remove(0);
        proof {
            assert(parameter_models(before)[0] == p@);
            assert(all[done] == p@);
            assert(left@ == before.remove(0));
            assert forall|k: int| 0 <= k < left@.len() implies parameter_models(left@)[k]
                == all.skip(done + 1)[k] by {
                assert(left@[k] == before[k + 1]);
                assert(parameter_models(before)[k + 1] == before[k + 1]@);
                assert(all.skip(done)[k + 1] == all[done + k + 1]);
            }
            assert(parameter_models(left@) =~= all.skip(done + 1));
            let next = all.take(done + 1);
            assert(next.drop_last() == all.take(done));
            assert(next.last() == p@);
        }
        if is_str(&chars_of(p.name.as_str()), "target") {
            let is_text = match &p.ty {
                TypeExpr::Primitive(Primitive::Text) => true,
                _ => false,
            };
            assert(is_text == (p.ty@ == TypeModel::Primitive(Primitive::Text)));
            if is_text {
                target = Some(TargetForm::Text);
            } else {
                target = Some(TargetForm::Address);
            }
        } else {
            let ghost own_before = own@;
            own.push(p);
            assert(parameter_models(own@) =~= parameter_models(own_before).push(p@));
        }
        proof {
            done = done + 1;
        }
    }
    assert(all.take(all.len() as int) == all);
    (target, own)
}

/// Takes the wrapping result off the type `t`, where its error is a string.
pub fn unwrap_result(t: TypeExpr) -> (r: TypeExpr)
    ensures
        r@ == (match t@ {
            TypeModel::Result(ok, err) => if *err == TypeModel::Primitive(Primitive::Text) {
                *ok
            } else {
                t@
            },
            _ => t@,
        }),
{
    match t {
        TypeExpr::Result(ok, err) => {
            let is_text = match &*err {
                TypeExpr::Primitive(Primitive::Text) => true,
                _ => false,
            };
            assert(is_text == (err.model() == TypeModel::Primitive(Primitive::Text)));
            if is_text {
                *ok
            } else {
                TypeExpr::Result(ok, err)
            }
        },
        other => other,
    }
}

/// The routine that `line` declares with the capabilities `caps`.
pub fn signature_of(line: &Vec<char>, caps: CapabilitySet) -> (r: Option<MethodSignature>)
    ensures
        match r {
            Some(sig) => parse_signature(line@, caps) == Some(sig@),
            None => parse_signature(line@, caps) is None,
        },
{
    let found = search(line, ": func(");
    if found.is_none() {
        return None;
    }
    let i: usize = found.unwrap();
    let skip_len = chars_of(": func(").len();
    assert(skip_len == ": func("@.len());
    proof {
        lemma_find_from(line@, ": func("@, 0);
        assert(find(line@, ": func("@) == Some(i as int));
        assert(occurs_at(line@, ": func("@, i as int));
    }
    assert(i + ": func("@.len() <= line@.len());
    assert(i + skip_len <= line.len());
    let after = slice(line, i + skip_len, line.len());
    assert(after@ == line@.skip(i + ": func("@.len()));
    let found = search(&after, ")");
    if found.is_none() {
        return None;
    }
    let j: usize = found.unwrap();
    let close = chars_of(")").len();
    assert(close == ")"@.len());
    proof {
        lemma_find_from(after@, ")"@, 0);
        assert(find(after@, ")"@) == Some(j as int));
        assert(occurs_at(after@, ")"@, j as int));
    }
    let rest = slice(&after, j + close, after.len());
    assert(rest@ == after@.skip(j + ")"@.len()));
    let found = search(&rest, "-> ");
    if found.is_none() {
        return None;
    }
    let k: usize = found.unwrap();
    let arrow = chars_of("-> ").len();
    assert(arrow == "-> "@.len());
    proof {
        lemma_find_from(rest@, "-> "@, 0);
        assert(find(rest@, "-> "@) == Some(k as int));
        assert(occurs_at(rest@, "-> "@, k as int));
    }
    let inside = slice(&after, 0, j);
    assert(inside@ == after@.take(j as int));
    let declared = match parameters_of(&inside) {
        None => {
            return None;
        },
        Some(ps) => ps,
    };
    let (target, parameters) = part_parameters(declared);
    let before = slice(line, 0, i);
    assert(before@ == line@.take(i as int));
    let name = trimmed(&before);
    let returned = slice(&rest, k + arrow, rest.len());
    assert(returned@ == rest@.skip(k + "-> "@.len()));
    let bare = without_suffix(&trimmed(&returned), ";");
    let return_type = unwrap_result(parse_type_expr(&bare));
    Some(
        MethodSignature {
            name: string_of(&name),
            capabilities: caps,
            target,
            parameters,
            return_type,
        },
    )
}

/// Whether `line` has the shape of a routine's declaration.
pub fn is_signature_shaped(line: &Vec<char>) -> (r: bool)
    ensures
        r == signature_shaped(line@),
{
    search(line, ": func(").is_some() && search(line, "-> ").is_some()
}

/// The name that `line` declares after the string `keyword`.
pub fn name_after(line: &Vec<char>, keyword: &str) -> (r: Vec<char>)
    requires
        starts_with(line@, keyword@),
    ensures
        r@ == declared_name(line@, keyword@),
{
    let n = chars_of(keyword).len();
    let rest = slice(line, n, line.len());
    trimmed(&without_suffix(&rest, "{"))
}

/// Reads the interface text `content`: the routines it declares with their
/// capabilities, in the order of their lines, and the names of the records
/// and variants it declares, in that order too.
pub fn parse_wit_file(content: &str) -> (r: (Vec<MethodSignature>, Vec<String>))
    ensures
        signature_models(r.0@) == read_interface(content@).signatures,
        strings(r.1@) == read_interface(content@).type_names,
{
    let chars = chars_of(content);
    let lines = split_on(&chars, '\n');
    let mut signatures: Vec<MethodSignature> = Vec::new();
    let mut type_names: Vec<String> = Vec::new();
    let mut pending = CapabilitySet::empty();
    let mut i: usize = 0;
    assert(signature_models(signatures@) =~= Seq::<SignatureModel>::empty());
    assert(strings(type_names@) =~= Seq::<Seq<char>>::empty());
    while i < lines.len()
        invariant
            i <= lines.len(),
            views(lines@) == split(content@, '\n'),
            read_lines(views(lines@).take(i as int)) == (Reading {
                signatures: signature_models(signatures@),
                type_names: strings(type_names@),
                pending,
            }),
        decreases lines.len() - i,
    {
        proof {
            let next = views(lines@).take(i + 1);
            assert(next.drop_last() == views(lines@).take(i as int));
            assert(next.last() == lines@[i as int]@);
        }
        let line = trimmed(&lines[i]);
        if has_prefix(&line, "//") {
            match capability_tag(&line) {
                Some(c) => {
                    pending.insert(c);
                },
                None => {},
            }
        } else if line.len() == 0 {
        } else if is_signature_shaped(&line) {
            match signature_of(&line, pending) {
                Some(sig) => {
                    if pending.remote || pending.local || pending.http {
                        let ghost before = signatures@;
                        signatures.push(sig);
                        assert(signature_models(signatures@) =~= signature_models(before).push(
                            sig@,
                        ));
                        pending = CapabilitySet::empty();
                    }
                },
                None => {
                    pending = CapabilitySet::empty();
                },
            }
        } else if has_prefix(&line, "record ") {
            let name = string_of(&name_after(&line, "record "));
            let ghost before = type_names@;
            type_names.push(name);
            assert(strings(type_names@) =~= strings(before).push(name@));
            pending = CapabilitySet::empty();
        } else if has_prefix(&line, "variant ") {
            let name = string_of(&name_after(&line, "variant "));
            let ghost before = type_names@;
            type_names.push(name);
            assert(strings(type_names@) =~= strings(before).push(name@));
            pending = CapabilitySet::empty();
        } else {
            pending = CapabilitySet::empty();
        }
        i = i + 1;
    }
    assert(views(lines@).take(lines.len() as int) == views(lines@));
    (signatures, type_names)
}

/// `content` is the text of a world file: it holds the word `world` and a
/// space behind it.
pub open spec fn world_text(content: Seq<char>) -> bool {
    contains(content, "world "@)
}

/// The number of characters at the start of `s` that are no white space.
pub open spec fn token_len(s: Seq<char>) -> nat
    decreases s.len(),
{
    if s.len() > 0 && !is_whitespace(s[0]) {
        1 + token_len(s.skip(1))
    } else {
        0
    }
}

/// The first word of `s`: what stands between the white space `s` begins
/// with and the next white space.
pub open spec fn first_word(s: Seq<char>) -> Seq<char> {
    trim_start(s).take(token_len(trim_start(s)) as int)
}

/// The name of the world that `line` declares: the word behind `world`.
pub open spec fn world_of_line(line: Seq<char>) -> Option<Seq<char>> {
    if starts_with(line, "world "@) {
        Some(first_word(line.skip("world "@.len() as int)))
    } else {
        None
    }
}

/// The name of the world that the first declaring line of `lines` declares.
pub open spec fn world_in_lines(lines: Seq<Seq<char>>) -> Option<Seq<char>>
    decreases lines.len(),
{
    if lines.len() == 0 {
        None
    } else if world_of_line(trim(lines[0])) is Some {
        world_of_line(trim(lines[0]))
    } else {
        world_in_lines(lines.skip(1))
    }
}

/// The name of the world that the text `content` declares.
pub open spec fn world_name(content: Seq<char>) -> Option<Seq<char>> {
    world_in_lines(split(content, '\n'))
}

/// The interface that `line` imports: what stands between `import` and the
/// semicolon, without white space around it.
pub open spec fn import_of(line: Seq<char>) -> Option<Seq<char>> {
    if "import "@.len() + ";"@.len() <= line.len() && starts_with(line, "import "@) && ends_with(
        line,
        ";"@,
    ) {
        Some(trim(line.subrange("import "@.len() as int, line.len() - ";"@.len())))
    } else {
        None
    }
}

/// The interfaces that the lines `lines` import, in order.
pub open spec fn imports_in_lines(lines: Seq<Seq<char>>) -> Seq<Seq<char>>
    decreases lines.len(),
{
    if lines.len() == 0 {
        Seq::empty()
    } else {
        let before = imports_in_lines(lines.drop_last());
        match import_of(trim(lines.last())) {
            Some(name) => before.push(name),
            None => before,
        }
    }
}

/// The interfaces that the text `content` imports, in order.
pub open spec fn imports(content: Seq<char>) -> Seq<Seq<char>> {
    imports_in_lines(split(content, '\n'))
}

/// Whether `content` is the text of a world file.
pub fn is_world_text(content: &str) -> (r: bool)
    ensures
        r == world_text(content@),
{
    let chars = chars_of(content);
    search(&chars, "world ").is_some()
}

/// The first word of `s`.
pub fn first_word_of(s: &Vec<char>) -> (r: Vec<char>)
    ensures
        r@ == first_word(s@),
{
    let mut start: usize = 0;
    while start < s.len() && whitespace(s[start])
        invariant
            start <= s.len(),
            forall|k: int| 0 <= k < start ==> is_whitespace(s@[k]),
        decreases s.len() - start,
    {
        start = start + 1;
    }
    proof {
        lemma_leading_space_is(s@, start as int);
    }
    let ghost rest = s@.skip(start as int);
    let mut end: usize = start;
    while end < s.len() && !whitespace(s[end])
        invariant
            start <= end <= s.len(),
            rest == s@.skip(start as int),
            token_len(rest) == (end - start) + token_len(s@.skip(end as int)),
        decreases s.len() - end,
    {
        assert(s@.skip(end as int).skip(1) == s@.skip(end + 1));
        end = end + 1;
    }
    slice(s, start, end)
}

/// The name of the world that the text `content` declares, if it declares
/// one.
pub fn find_world_name(content: &str) -> (r: Option<String>)
    ensures
        match r {
            Some(name) => world_name(content@) == Some(name@),
            None => world_name(content@) is None,
        },
{
    let chars = chars_of(content);
    let lines = split_on(&chars, '\n');
    let mut i: usize = 0;
    assert(views(lines@).skip(0) == views(lines@));
    while i < lines.len()
        invariant
            i <= lines.len(),
            views(lines@) == split(content@, '\n'),
            world_name(content@) == world_in_lines(views(lines@).skip(i as int)),
        decreases lines.len() - i,
    {
        let ghost rest = views(lines@).skip(i as int);
        assert(rest[0] == lines@[i as int]@);
        assert(rest.skip(1) == views(lines@).skip(i + 1));
        let line = trimmed(&lines[i]);
        if has_prefix(&line, "world ") {
            let n = chars_of("world ").len();
            let behind = slice(&line, n, line.len());
            let name = first_word_of(&behind);
            return Some(string_of(&name));
        }
        i = i + 1;
    }
    None
}

/// The interfaces that the text `content` imports, in the order of their
/// lines.
pub fn find_interfaces_in_world(content: &str) -> (r: Vec<String>)
    ensures
        strings(r@) == imports(content@),
{
    let chars = chars_of(content);
    let lines = split_on(&chars, '\n');
    let mut found: Vec<String> = Vec::new();
    let mut i: usize = 0;
    assert(strings(found@) =~= Seq::<Seq<char>>::empty());
    while i < lines.len()
        invariant
            i <= lines.len(),
            views(lines@) == split(content@, '\n'),
            strings(found@) == imports_in_lines(views(lines@).take(i as int)),
        decreases lines.len() - i,
    {
        proof {
            let next = views(lines@).take(i + 1);
            assert(next.drop_last() == views(lines@).take(i as int));
            assert(next.last() == lines@[i as int]@);
        }
        let line = trimmed(&lines[i]);
        let a = chars_of("import ").len();
        let b = chars_of(";").len();
        if b <= line.len() && a <= line.len() - b && has_prefix(&line, "import ") && has_suffix(
            &line,
            ";",
        ) {
            let name = string_of(&trimmed(&slice(&line, a, line.len() - b)));
            let ghost before = found@;
            found.push(name);
            assert(strings(found@) =~= strings(before).push(name@));
        }
        i = i + 1;
    }
    assert(views(lines@).take(lines.len() as int) == views(lines@));
    found
}

} // verus!
