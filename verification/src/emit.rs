//! Writing the interface text: the block of an interface with its records,
//! variants and routines, and the blocks of the worlds.
//!
//! What is written is stated line by line; the text is the lines in a row,
//! each ended by a line feed.

use crate::interface::{
    case_models, parameter_models, signature_models, type_def_models, Capability, CapabilitySet,
    Case, CaseModel, CompositeTypeDef, InterfaceModel, MethodSignature, Parameter,
    ParameterModel, SignatureModel, TypeDefModel, WorldModel,
};
use crate::parse::strings;
use crate::stubs::{capability_name, capability_word};
use crate::text::{append, append_str, chars_of, string_of, views};
use crate::types::{idl_text, write_idl_type};
use vstd::prelude::*;

verus! {

/// The text of `lines`: each line and a line feed behind it.
pub open spec fn lines_text(lines: Seq<Seq<char>>) -> Seq<char>
    decreases lines.len(),
{
    if lines.len() == 0 {
        Seq::<char>::empty()
    } else {
        lines_text(lines.drop_last()) + lines.last() + seq!['\n']
    }
}

/// The comment line that names the capability `c`.
pub open spec fn tag_line(c: Capability) -> Seq<char> {
    "    //"@ + capability_name(c)
}

/// The comment line for `c`, if `caps` holds it.
pub open spec fn tag_line_if(caps: CapabilitySet, c: Capability) -> Seq<Seq<char>> {
    if caps.includes(c) {
        seq![tag_line(c)]
    } else {
        Seq::empty()
    }
}

/// The comment lines for the capabilities `caps`: one for each, in the
/// order `remote`, `local`, `http`.
pub open spec fn tag_lines(caps: CapabilitySet) -> Seq<Seq<char>> {
    tag_line_if(caps, Capability::Remote) + tag_line_if(caps, Capability::Local) + tag_line_if(
        caps,
        Capability::Http,
    )
}

/// One parameter behind the address: a comma, the name, a colon, the type.
pub open spec fn idl_parameter(p: ParameterModel) -> Seq<char> {
    ", "@ + p.name + ": "@ + idl_text(p.ty)
}

/// The parameters `ps` behind the address.
pub open spec fn idl_parameters(ps: Seq<ParameterModel>) -> Seq<char>
    decreases ps.len(),
{
    if ps.len() == 0 {
        Seq::<char>::empty()
    } else {
        idl_parameters(ps.drop_last()) + idl_parameter(ps.last())
    }
}

/// The declaration of the routine `sig`. The address comes first among the
/// parameters, and what the routine returns is wrapped in a result whose
/// error is a string.
pub open spec fn signature_line(sig: SignatureModel) -> Seq<char> {
    sig.name + ": func(target: address"@ + idl_parameters(sig.parameters) + ") -> result<"@
        + idl_text(sig.return_type) + ", string>;"@
}

/// The lines for the routine `sig`: its capabilities, its declaration, and
/// an empty line.
pub open spec fn signature_lines(sig: SignatureModel) -> Seq<Seq<char>> {
    tag_lines(sig.capabilities) + seq!["    "@ + signature_line(sig), Seq::<char>::empty()]
}

/// The lines for the routines `sigs`, in order.
pub open spec fn all_signature_lines(sigs: Seq<SignatureModel>) -> Seq<Seq<char>>
    decreases sigs.len(),
{
    if sigs.len() == 0 {
        Seq::empty()
    } else {
        all_signature_lines(sigs.drop_last()) + signature_lines(sigs.last())
    }
}

/// The line of the field `f` of a record.
pub open spec fn field_line(f: ParameterModel) -> Seq<char> {
    "        "@ + f.name + ": "@ + idl_text(f.ty) + ","@
}

/// The lines of the fields `fs`.
pub open spec fn field_lines(fs: Seq<ParameterModel>) -> Seq<Seq<char>> {
    Seq::new(fs.len(), |i: int| field_line(fs[i]))
}

/// The line of the case `c` of a variant.
pub open spec fn case_line(c: CaseModel) -> Seq<char> {
    match c.payload {
        None => "        "@ + c.name + ","@,
        Some(t) => "        "@ + c.name + "("@ + idl_text(t) + "),"@,
    }
}

/// The lines of the cases `cs`.
pub open spec fn case_lines(cs: Seq<CaseModel>) -> Seq<Seq<char>> {
    Seq::new(cs.len(), |i: int| case_line(cs[i]))
}

/// The lines that the definition `def` holds between its braces.
pub open spec fn body_lines(def: TypeDefModel) -> Seq<Seq<char>> {
    match def {
        TypeDefModel::Record { fields, .. } => field_lines(fields),
        TypeDefModel::Variant { cases, .. } => case_lines(cases),
    }
}

/// What the definition `def` holds between its braces.
pub open spec fn body_text(def: TypeDefModel) -> Seq<char> {
    lines_text(body_lines(def))
}

/// The line that opens the definition `def`.
pub open spec fn type_def_head(def: TypeDefModel) -> Seq<char> {
    match def {
        TypeDefModel::Record { name, .. } => "    record "@ + name + " {"@,
        TypeDefModel::Variant { name, .. } => "    variant "@ + name + " {"@,
    }
}

/// The lines of the definition `def`: the line that opens it, what it
/// holds, the closing brace, and an empty line.
pub open spec fn type_def_lines(def: TypeDefModel) -> Seq<Seq<char>> {
    seq![type_def_head(def)] + body_lines(def) + seq!["    }"@, Seq::<char>::empty()]
}

/// The lines of the definitions `defs`, in order.
pub open spec fn all_type_def_lines(defs: Seq<TypeDefModel>) -> Seq<Seq<char>>
    decreases defs.len(),
{
    if defs.len() == 0 {
        Seq::empty()
    } else {
        all_type_def_lines(defs.drop_last()) + type_def_lines(defs.last())
    }
}

/// The lines of the block of the interface `name` with the definitions
/// `defs` and the routines `sigs`: the definitions first, then the
/// routines, each in the order given.
pub open spec fn interface_lines(
    name: Seq<char>,
    defs: Seq<TypeDefModel>,
    sigs: Seq<SignatureModel>,
) -> Seq<Seq<char>> {
    seq!["interface "@ + name + " {"@] + all_type_def_lines(defs) + all_signature_lines(sigs)
        + seq!["}"@]
}

/// The block of the interface `name` with the definitions `defs` and the
/// routines `sigs`.
pub open spec fn interface_text(
    name: Seq<char>,
    defs: Seq<TypeDefModel>,
    sigs: Seq<SignatureModel>,
) -> Seq<char> {
    lines_text(interface_lines(name, defs, sigs))
}

/// The lines of the block of the world `world` that exports the interface
/// `interface` and nothing else.
pub open spec fn export_world_lines(world: Seq<char>, interface: Seq<char>) -> Seq<Seq<char>> {
    seq!["world "@ + world + " {"@, "    export "@ + interface + ";"@, "}"@]
}

/// The lines that import the interfaces `names`.
pub open spec fn import_lines(names: Seq<Seq<char>>) -> Seq<Seq<char>> {
    Seq::new(names.len(), |i: int| "    import "@ + names[i] + ";"@)
}

/// The lines of the block of the world `name` that imports the interfaces
/// `names` and includes the world that every process has.
pub open spec fn import_world_lines(name: Seq<char>, names: Seq<Seq<char>>) -> Seq<Seq<char>> {
    seq!["world "@ + name + " {"@] + import_lines(names) + seq!["    include process-v1;"@, "}"@]
}

/// The text of `lines`.
pub fn text_of_lines(lines: &Vec<Vec<char>>) -> (r: Vec<char>)
    ensures
        r@ == lines_text(views(lines@)),
{
    let mut out: Vec<char> = Vec::new();
    let mut i: usize = 0;
    while i < lines.len()
        invariant
            i <= lines.len(),
            out@ == lines_text(views(lines@).take(i as int)),
        decreases lines.len() - i,
    {
        proof {
            let next = views(lines@).take(i + 1);
            assert(next.drop_last() == views(lines@).take(i as int));
            assert(next.last() == lines@[i as int]@);
        }
        append(&mut out, &lines[i]);
        out.push('\n');
        i = i + 1;
    }
    assert(views(lines@).take(lines.len() as int) == views(lines@));
    out
}

/// Adds the line `line` to `lines`.
fn push_line(lines: &mut Vec<Vec<char>>, line: Vec<char>)
    ensures
        views(final(lines)@) == views(old(lines)@).push(line@),
{
    lines.push(line);
    assert(views(lines@) =~= views(old(lines)@).push(line@));
}

/// Adds the lines `more` to `lines`.
fn push_lines(lines: &mut Vec<Vec<char>>, more: Vec<Vec<char>>)
    ensures
        views(final(lines)@) == views(old(lines)@) + views(more@),
{
    let mut more = more;
    let ghost added = more@;
    lines.append(&mut more);
    assert(views(lines@) =~= views(old(lines)@) + views(added));
}

/// Adds the comment line for `c` to `lines`, if `caps` holds it.
fn push_tag_line_if(caps: &CapabilitySet, c: Capability, lines: &mut Vec<Vec<char>>)
    ensures
        views(final(lines)@) == views(old(lines)@) + tag_line_if(*caps, c),
{
    if caps.contains(c) {
        let mut line = chars_of("    //");
        append_str(&mut line, capability_word(c));
        push_line(lines, line);
        assert(views(lines@) =~= views(old(lines)@) + tag_line_if(*caps, c));
    } else {
        assert(views(lines@) =~= views(old(lines)@) + tag_line_if(*caps, c));
    }
}

/// The parameters `ps` behind the address.
fn idl_parameters_chars(ps: &Vec<Parameter>) -> (r: Vec<char>)
    ensures
        r@ == idl_parameters(parameter_models(ps@)),
{
    let mut out: Vec<char> = Vec::new();
    let mut i: usize = 0;
    while i < ps.len()
        invariant
            i <= ps.len(),
            out@ == idl_parameters(parameter_models(ps@).take(i as int)),
        decreases ps.len() - i,
    {
        proof {
            let next = parameter_models(ps@).take(i + 1);
            assert(next.drop_last() == parameter_models(ps@).take(i as int));
            assert(next.last() == ps@[i as int]@);
        }
        let mut one: Vec<char> = Vec::new();
        append_str(&mut one, ", ");
        append_str(&mut one, ps[i].name.as_str());
        append_str(&mut one, ": ");
        write_idl_type(&ps[i].ty, &mut one);
        assert(one@ =~= idl_parameter(ps@[i as int]@));
        append(&mut out, &one);
        i = i + 1;
    }
    assert(parameter_models(ps@).take(ps.len() as int) == parameter_models(ps@));
    out
}

/// The declaration of the routine `sig`, as a sequence of characters.
pub fn signature_line_chars(sig: &MethodSignature) -> (r: Vec<char>)
    ensures
        r@ == signature_line(sig@),
{
    let mut out: Vec<char> = Vec::new();
    append_str(&mut out, sig.name.as_str());
    append_str(&mut out, ": func(target: address");
    let parameters = idl_parameters_chars(&sig.parameters);
    append(&mut out, &parameters);
    append_str(&mut out, ") -> result<");
    let mut ret: Vec<char> = Vec::new();
    write_idl_type(&sig.return_type, &mut ret);
    assert(ret@ =~= idl_text(sig@.return_type));
    append(&mut out, &ret);
    append_str(&mut out, ", string>;");
    assert(out@ =~= signature_line(sig@));
    out
}

/// The lines for the routine `sig`.
pub fn signature_lines_chars(sig: &MethodSignature) -> (r: Vec<Vec<char>>)
    ensures
        views(r@) == signature_lines(sig@),
{
    let mut lines: Vec<Vec<char>> = Vec::new();
    assert(views(lines@) =~= Seq::<Seq<char>>::empty());
    push_tag_line_if(&sig.capabilities, Capability::Remote, &mut lines);
    push_tag_line_if(&sig.capabilities, Capability::Local, &mut lines);
    push_tag_line_if(&sig.capabilities, Capability::Http, &mut lines);
    assert(views(lines@) =~= tag_lines(sig@.capabilities));
    let mut line = chars_of("    ");
    let declaration = signature_line_chars(sig);
    append(&mut line, &declaration);
    push_line(&mut lines, line);
    push_line(&mut lines, Vec::new());
    assert(views(lines@) =~= signature_lines(sig@));
    lines
}

/// The lines of the fields `fs`.
fn field_lines_chars(fs: &Vec<Parameter>) -> (r: Vec<Vec<char>>)
    ensures
        views(r@) == field_lines(parameter_models(fs@)),
{
    let mut lines: Vec<Vec<char>> = Vec::new();
    let mut i: usize = 0;
    while i < fs.len()
        invariant
            i <= fs.len(),
            lines@.len() == i,
            forall|k: int| 0 <= k < i ==> lines@[k]@ == field_line(#[trigger] fs@[k]@),
        decreases fs.len() - i,
    {
        let mut one: Vec<char> = Vec::new();
        append_str(&mut one, "        ");
        append_str(&mut one, fs[i].name.as_str());
        append_str(&mut one, ": ");
        write_idl_type(&fs[i].ty, &mut one);
        append_str(&mut one, ",");
        assert(one@ =~= field_line(fs@[i as int]@));
        lines.push(one);
        i = i + 1;
    }
    assert(views(lines@) =~= field_lines(parameter_models(fs@)));
    lines
}

/// The lines of the cases `cs`.
fn case_lines_chars(cs: &Vec<Case>) -> (r: Vec<Vec<char>>)
    ensures
        views(r@) == case_lines(case_models(cs@)),
{
    let mut lines: Vec<Vec<char>> = Vec::new();
    let mut i: usize = 0;
    while i < cs.len()
        invariant
            i <= cs.len(),
            lines@.len() == i,
            forall|k: int| 0 <= k < i ==> lines@[k]@ == case_line(#[trigger] cs@[k]@),
        decreases cs.len() - i,
    {
        let mut one: Vec<char> = Vec::new();
        append_str(&mut one, "        ");
        append_str(&mut one, cs[i].name.as_str());
        match &cs[i].payload {
            None => {
                append_str(&mut one, ",");
            },
            Some(t) => {
                append_str(&mut one, "(");
                write_idl_type(t, &mut one);
                append_str(&mut one, "),");
            },
        }
        assert(one@ =~= case_line(cs@[i as int]@));
        lines.push(one);
        i = i + 1;
    }
    assert(views(lines@) =~= case_lines(case_models(cs@)));
    lines
}

/// The lines that the definition `def` holds between its braces.
pub fn body_lines_chars(def: &CompositeTypeDef) -> (r: Vec<Vec<char>>)
    ensures
        views(r@) == body_lines(def@),
{
    match def {
        CompositeTypeDef::Record { name, fields } => field_lines_chars(fields),
        CompositeTypeDef::Variant { name, cases } => case_lines_chars(cases),
    }
}

/// What the definition `def` holds between its braces, as a sequence of
/// characters.
pub fn body_chars(def: &CompositeTypeDef) -> (r: Vec<char>)
    ensures
        r@ == body_text(def@),
{
    text_of_lines(&body_lines_chars(def))
}

/// The lines of the definition `def`.
pub fn type_def_lines_chars(def: &CompositeTypeDef) -> (r: Vec<Vec<char>>)
    ensures
        views(r@) == type_def_lines(def@),
{
    let mut head: Vec<char> = Vec::new();
    match def {
        CompositeTypeDef::Record { name, fields } => {
            append_str(&mut head, "    record ");
            append_str(&mut head, name.as_str());
        },
        CompositeTypeDef::Variant { name, cases } => {
            append_str(&mut head, "    variant ");
            append_str(&mut head, name.as_str());
        },
    }
    append_str(&mut head, " {");
    let mut lines: Vec<Vec<char>> = Vec::new();
    assert(views(lines@) =~= Seq::<Seq<char>>::empty());
    push_line(&mut lines, head);
    push_lines(&mut lines, body_lines_chars(def));
    push_line(&mut lines, chars_of("    }"));
    push_line(&mut lines, Vec::new());
    assert(views(lines@) =~= type_def_lines(def@));
    lines
}

/// `r` is what is written for the interface `name` with the definitions
/// `defs` and the routines `sigs`: nothing where there is no routine, and
/// else the text of its block.
pub open spec fn emitted_for(
    name: Seq<char>,
    defs: Seq<TypeDefModel>,
    sigs: Seq<SignatureModel>,
    r: Option<String>,
) -> bool {
    match r {
        None => sigs.len() == 0,
        Some(text) => sigs.len() > 0 && text@ == interface_text(name, defs, sigs),
    }
}

/// Writing twice for the same interface gives the same text.
pub proof fn lemma_emission_repeats(
    name: Seq<char>,
    defs: Seq<TypeDefModel>,
    sigs: Seq<SignatureModel>,
    first: Option<String>,
    second: Option<String>,
)
    requires
        emitted_for(name, defs, sigs, first),
        emitted_for(name, defs, sigs, second),
    ensures
        first is None <==> second is None,
        first is Some ==> first->0@ == second->0@,
{
}

/// Writes the block of `interface`, or nothing where it exposes no routine.
pub fn emit_interface(interface: &InterfaceModel) -> (r: Option<String>)
    ensures
        emitted_for(
            interface.name@,
            type_def_models(interface.types@),
            signature_models(interface.signatures@),
            r,
        ),
{
    if interface.signatures.len() == 0 {
        return None;
    }
    let mut defs: Vec<Vec<char>> = Vec::new();
    let mut i: usize = 0;
    assert(views(defs@) =~= Seq::<Seq<char>>::empty());
    while i < interface.types.len()
        invariant
            i <= interface.types.len(),
            views(defs@) == all_type_def_lines(type_def_models(interface.types@).take(i as int)),
        decreases interface.types.len() - i,
    {
        proof {
            let next = type_def_models(interface.types@).take(i + 1);
            assert(next.drop_last() == type_def_models(interface.types@).take(i as int));
            assert(next.last() == interface.types@[i as int]@);
        }
        push_lines(&mut defs, type_def_lines_chars(&interface.types[i]));
        i = i + 1;
    }
    assert(type_def_models(interface.types@).take(interface.types.len() as int)
        == type_def_models(interface.types@));
    let mut sigs: Vec<Vec<char>> = Vec::new();
    let mut j: usize = 0;
    assert(views(sigs@) =~= Seq::<Seq<char>>::empty());
    while j < interface.signatures.len()
        invariant
            j <= interface.signatures.len(),
            views(sigs@) == all_signature_lines(
                signature_models(interface.signatures@).take(j as int),
            ),
        decreases interface.signatures.len() - j,
    {
        proof {
            let next = signature_models(interface.signatures@).take(j + 1);
            assert(next.drop_last() == signature_models(interface.signatures@).take(j as int));
            assert(next.last() == interface.signatures@[j as int]@);
        }
        push_lines(&mut sigs, signature_lines_chars(&interface.signatures[j]));
        j = j + 1;
    }
    assert(signature_models(interface.signatures@).take(interface.signatures.len() as int)
        == signature_models(interface.signatures@));
    let mut head = chars_of("interface ");
    append_str(&mut head, interface.name.as_str());
    append_str(&mut head, " {");
    let mut lines: Vec<Vec<char>> = Vec::new();
    assert(views(lines@) =~= Seq::<Seq<char>>::empty());
    push_line(&mut lines, head);
    push_lines(&mut lines, defs);
    push_lines(&mut lines, sigs);
    push_line(&mut lines, chars_of("}"));
    assert(views(lines@) =~= interface_lines(
        interface.name@,
        type_def_models(interface.types@),
        signature_models(interface.signatures@),
    ));
    Some(string_of(&text_of_lines(&lines)))
}

/// Writes the block of the world `world` that exports `interface`.
pub fn emit_export_world(world: &str, interface: &str) -> (r: String)
    ensures
        r@ == lines_text(export_world_lines(world@, interface@)),
{
    let mut head = chars_of("world ");
    append_str(&mut head, world);
    append_str(&mut head, " {");
    let mut export = chars_of("    export ");
    append_str(&mut export, interface);
    append_str(&mut export, ";");
    let mut lines: Vec<Vec<char>> = Vec::new();
    assert(views(lines@) =~= Seq::<Seq<char>>::empty());
    push_line(&mut lines, head);
    push_line(&mut lines, export);
    push_line(&mut lines, chars_of("}"));
    assert(views(lines@) =~= export_world_lines(world@, interface@));
    string_of(&text_of_lines(&lines))
}

/// Writes the block of the world `world`, which imports its interfaces in
/// order.
pub fn emit_world(world: &WorldModel) -> (r: String)
    ensures
        r@ == lines_text(import_world_lines(world.name@, strings(world.imported_interfaces@))),
{
    let names = &world.imported_interfaces;
    let mut imports: Vec<Vec<char>> = Vec::new();
    let mut i: usize = 0;
    while i < names.len()
        invariant
            i <= names.len(),
            imports@.len() == i,
            forall|k: int|
                0 <= k < i ==> imports@[k]@ == "    import "@ + (#[trigger] names@[k])@ + ";"@,
        decreases names.len() - i,
    {
        let mut one = chars_of("    import ");
        append_str(&mut one, names[i].as_str());
        append_str(&mut one, ";");
        imports.push(one);
        i = i + 1;
    }
    assert(views(imports@) =~= import_lines(strings(names@)));
    let mut head = chars_of("world ");
    append_str(&mut head, world.name.as_str());
    append_str(&mut head, " {");
    let mut lines: Vec<Vec<char>> = Vec::new();
    assert(views(lines@) =~= Seq::<Seq<char>>::empty());
    push_line(&mut lines, head);
    push_lines(&mut lines, imports);
    push_line(&mut lines, chars_of("    include process-v1;"));
    push_line(&mut lines, chars_of("}"));
    assert(views(lines@) =~= import_world_lines(world.name@, strings(names@)));
    string_of(&text_of_lines(&lines))
}

} // verus!
