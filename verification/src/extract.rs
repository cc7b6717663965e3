//! From the declarations of a component to the model of its interface: the
//! routines it exposes, with their types in the form of the interface text,
//! the custom types those routines use, and every record and variant it
//! declares.

use crate::closure::{chosen, closure_order, retained_types};
use crate::interface::{
    case_models, parameter_models, signature_models, type_def_models, CapabilitySet, Case,
    CaseModel, CompositeTypeDef, InterfaceModel, MethodSignature, Parameter, ParameterModel,
    SignatureModel, TargetForm, TypeDefModel, WorldModel,
};
use crate::naming::{acceptable, is_acceptable, kebab_case, kebab_chars, DeclKind, NamingViolation};
use crate::parse::strings;
use crate::text::{chars_of, is_str, string_of};
use crate::types::{lemma_tuple_model, models, Primitive, TypeExpr, TypeModel};
use vstd::prelude::*;

verus! {

/// A type as the host language writes it.
#[derive(Debug, PartialEq, Eq)]
pub enum HostType {
    /// A type named by a path: the last name of the path, and the types
    /// between its angle brackets.
    Path { name: String, arguments: Vec<HostType> },
    /// A reference to a value of a type.
    Reference(Box<HostType>),
    /// A tuple of types.
    Tuple(Vec<HostType>),
    /// Any other form of type.
    Other,
}

/// A parameter of a routine: the name it binds, if it binds a single name
/// and nothing else, and its type.
#[derive(Debug, PartialEq, Eq)]
pub struct ParameterDecl {
    pub name: Option<String>,
    pub ty: HostType,
}

/// A routine of the entry block. The value that the routine is called on
/// is no parameter: `receiver` says whether it takes one. A routine without
/// `return_type` returns nothing.
#[derive(Debug, PartialEq, Eq)]
pub struct RoutineDecl {
    pub name: String,
    pub capabilities: CapabilitySet,
    pub receiver: bool,
    pub parameters: Vec<ParameterDecl>,
    pub return_type: Option<HostType>,
}

/// A field of a record.
#[derive(Debug, PartialEq, Eq)]
pub struct FieldDecl {
    pub name: String,
    pub ty: HostType,
}

/// A case of a variant, with the type of what it carries, if it carries
/// anything.
#[derive(Debug, PartialEq, Eq)]
pub struct CaseDecl {
    pub name: String,
    pub payload: Option<HostType>,
}

/// A record or a variant declared at the top of a module.
#[derive(Debug, PartialEq, Eq)]
pub enum TypeDecl {
    Record { name: String, fields: Vec<FieldDecl> },
    Variant { name: String, cases: Vec<CaseDecl> },
}

/// The block of routines that a module marks as its entry point, with the
/// name of the world given there, if one is given.
#[derive(Debug, PartialEq, Eq)]
pub struct EntryBlock {
    pub wit_world: Option<String>,
    pub routines: Vec<RoutineDecl>,
}

/// The declarations of a module: its entry block, if it has one, and its
/// records and variants.
#[derive(Debug, PartialEq, Eq)]
pub struct ModuleDecl {
    pub entry: Option<EntryBlock>,
    pub types: Vec<TypeDecl>,
}

/// What was found in a module: the world it names, the routines it
/// exposes in the order of their declaration, the custom types that those
/// routines use in the order of their first use, and every record and
/// variant that the module declares.
#[derive(Debug, PartialEq, Eq)]
pub struct Extracted {
    pub world: String,
    pub signatures: Vec<MethodSignature>,
    pub used: Vec<String>,
    pub table: Vec<CompositeTypeDef>,
}

/// Why nothing was found in a module.
#[derive(Debug, PartialEq, Eq)]
pub enum ExtractError {
    /// The module has no entry block, or its entry block names no world.
    MissingWorldDeclaration,
    /// A declaration has a name that may not be declared.
    Naming(NamingViolation),
}

/// An identifier that may not be declared, and what it was to name.
pub struct Violation {
    pub kind: DeclKind,
    pub identifier: Seq<char>,
}

impl View for NamingViolation {
    type V = Violation;

    open spec fn view(&self) -> Violation {
        Violation { kind: self.kind, identifier: self.identifier@ }
    }
}

/// The primitive type that the host language names `s`, if it names one.
pub open spec fn host_word(s: Seq<char>) -> Option<Primitive> {
    if s == "i32"@ {
        Some(Primitive::S32)
    } else if s == "u32"@ {
        Some(Primitive::U32)
    } else if s == "i64"@ {
        Some(Primitive::S64)
    } else if s == "u64"@ {
        Some(Primitive::U64)
    } else if s == "f32"@ {
        Some(Primitive::F32)
    } else if s == "f64"@ {
        Some(Primitive::F64)
    } else if s == "String"@ || s == "str"@ {
        Some(Primitive::Text)
    } else if s == "bool"@ {
        Some(Primitive::Boolean)
    } else if s == "Address"@ {
        Some(Primitive::Address)
    } else {
        None
    }
}

/// `t`, which stands in the place of a type that could not be translated.
pub open spec fn unknown_type() -> TypeModel {
    TypeModel::Named("unknown"@)
}

/// The type expression for the host type `h`.
///
/// A reference stands for what it refers to. A tuple without items is the
/// unit type. A path without arguments that names a primitive type is that
/// type; `Vec` and `Option` of one type are a list and an option, `Result`
/// of two a result. Any other path is a custom type, named by the
/// hyphenated form of its name. Any other form of type is unknown.
pub open spec fn translate(h: HostType) -> TypeModel
    decreases h,
{
    match h {
        HostType::Reference(inner) => translate(*inner),
        HostType::Tuple(items) => if items@.len() == 0 {
            TypeModel::Primitive(Primitive::Unit)
        } else {
            TypeModel::Tuple(
                Seq::new(
                    items@.len(),
                    |i: int|
                        if 0 <= i < items@.len() {
                            translate(items@[i])
                        } else {
                            unknown_type()
                        },
                ),
            )
        },
        HostType::Path { name, arguments } => if arguments@.len() == 0 && host_word(name@)
            is Some {
            TypeModel::Primitive(host_word(name@)->0)
        } else if arguments@.len() == 1 && name@ == "Vec"@ {
            TypeModel::List(Box::new(translate(arguments@[0])))
        } else if arguments@.len() == 1 && name@ == "Option"@ {
            TypeModel::Option(Box::new(translate(arguments@[0])))
        } else if arguments@.len() == 2 && name@ == "Result"@ {
            TypeModel::Result(
                Box::new(translate(arguments@[0])),
                Box::new(translate(arguments@[1])),
            )
        } else {
            TypeModel::Named(kebab_case(name@))
        },
        HostType::Other => unknown_type(),
    }
}

/// The names `used` with `name`, at the end if it is new.
pub open spec fn with_name(used: Seq<Seq<char>>, name: Seq<char>) -> Seq<Seq<char>> {
    if used.contains(name) {
        used
    } else {
        used.push(name)
    }
}

/// The names `used` with the names of the custom types in `h`, each at the
/// end if it is new, in the order in which `h` holds them.
pub open spec fn note_used(used: Seq<Seq<char>>, h: HostType) -> Seq<Seq<char>>
    decreases h,
        (if h is Tuple {
            h->Tuple_0@.len() + 1
        } else {
            0nat
        }),
{
    match h {
        HostType::Reference(inner) => note_used(used, *inner),
        HostType::Tuple(items) => note_first(used, h, items@.len()),
        HostType::Path { name, arguments } => if arguments@.len() == 0 && host_word(name@)
            is Some {
            used
        } else if arguments@.len() == 1 && (name@ == "Vec"@ || name@ == "Option"@) {
            note_used(used, arguments@[0])
        } else if arguments@.len() == 2 && name@ == "Result"@ {
            note_used(note_used(used, arguments@[0]), arguments@[1])
        } else {
            with_name(used, kebab_case(name@))
        },
        HostType::Other => used,
    }
}

/// The names `used` with the names of the custom types in the first `n`
/// items of the tuple `h`.
pub open spec fn note_first(used: Seq<Seq<char>>, h: HostType, n: nat) -> Seq<Seq<char>>
    decreases h, n,
{
    if n == 0 || !(h is Tuple) || n > h->Tuple_0@.len() {
        used
    } else {
        note_used(note_first(used, h, (n - 1) as nat), h->Tuple_0@[n - 1])
    }
}

/// What the parameters of a routine come to.
pub enum ParametersOutcome {
    /// One of them binds no single name: the routine is passed over.
    Skipped,
    /// One of them has a name that may not be declared.
    Rejected(Violation),
    /// They are kept, with these names and types, and these custom types
    /// are in use.
    Kept(Seq<ParameterModel>, Seq<Seq<char>>),
}

/// What the parameters `ps` come to, looked at in order, where the custom
/// types `used` are in use before.
pub open spec fn parameters_outcome(ps: Seq<ParameterDecl>, used: Seq<Seq<char>>)
    -> ParametersOutcome
    decreases ps.len(),
{
    if ps.len() == 0 {
        ParametersOutcome::Kept(Seq::empty(), used)
    } else {
        match parameters_outcome(ps.drop_last(), used) {
            ParametersOutcome::Kept(kept, now) => match ps.last().name {
                None => ParametersOutcome::Skipped,
                Some(name) => if acceptable(name@) {
                    ParametersOutcome::Kept(
                        kept.push(
                            ParameterModel { name: kebab_case(name@), ty: translate(ps.last().ty) },
                        ),
                        note_used(now, ps.last().ty),
                    )
                } else {
                    ParametersOutcome::Rejected(
                        Violation { kind: DeclKind::Parameter, identifier: name@ },
                    )
                },
            },
            other => other,
        }
    }
}

/// What a routine comes to.
pub enum RoutineOutcome {
    /// It is passed over: it may be reached in no way, or one of its
    /// parameters binds no single name.
    Skipped,
    /// Its name or the name of one of its parameters may not be declared.
    Rejected(Violation),
    /// It is exposed, as this routine of the interface, and these custom
    /// types are in use.
    Exposed(SignatureModel, Seq<Seq<char>>),
}

/// The type that a routine with the return type `h` returns.
pub open spec fn returned(h: Option<HostType>) -> TypeModel {
    match h {
        Some(t) => translate(t),
        None => TypeModel::Primitive(Primitive::Unit),
    }
}

/// The names `used` with those of the custom types in `h`, if there is
/// one.
pub open spec fn note_returned(used: Seq<Seq<char>>, h: Option<HostType>) -> Seq<Seq<char>> {
    match h {
        Some(t) => note_used(used, t),
        None => used,
    }
}

/// What the routine `r` comes to, where the custom types `used` are in use
/// before: its name is looked at first, then its parameters in order.
pub open spec fn routine_outcome(r: RoutineDecl, used: Seq<Seq<char>>) -> RoutineOutcome {
    if r.capabilities.is_empty() {
        RoutineOutcome::Skipped
    } else if !acceptable(r.name@) {
        RoutineOutcome::Rejected(Violation { kind: DeclKind::Function, identifier: r.name@ })
    } else {
        match parameters_outcome(r.parameters@, used) {
            ParametersOutcome::Skipped => RoutineOutcome::Skipped,
            ParametersOutcome::Rejected(v) => RoutineOutcome::Rejected(v),
            ParametersOutcome::Kept(ps, now) => RoutineOutcome::Exposed(
                SignatureModel {
                    name: kebab_case(r.name@),
                    capabilities: r.capabilities,
                    target: Some(TargetForm::Address),
                    parameters: ps,
                    return_type: returned(r.return_type),
                },
                note_returned(now, r.return_type),
            ),
        }
    }
}

/// The routines that `rs` expose, in order, and the custom types they use,
/// or the first name among them that may not be declared.
pub open spec fn routines_outcome(rs: Seq<RoutineDecl>) -> Result<
    (Seq<SignatureModel>, Seq<Seq<char>>),
    Violation,
>
    decreases rs.len(),
{
    if rs.len() == 0 {
        Ok((Seq::empty(), Seq::empty()))
    } else {
        match routines_outcome(rs.drop_last()) {
            Ok((sigs, used)) => match routine_outcome(rs.last(), used) {
                RoutineOutcome::Skipped => Ok((sigs, used)),
                RoutineOutcome::Rejected(v) => Err(v),
                RoutineOutcome::Exposed(sig, now) => Ok((sigs.push(sig), now)),
            },
            Err(v) => Err(v),
        }
    }
}

/// The fields of the interface for the fields `fs`, or the first name among
/// them that may not be declared.
pub open spec fn fields_outcome(fs: Seq<FieldDecl>) -> Result<Seq<ParameterModel>, Violation>
    decreases fs.len(),
{
    if fs.len() == 0 {
        Ok(Seq::empty())
    } else {
        match fields_outcome(fs.drop_last()) {
            Ok(kept) => if acceptable(fs.last().name@) {
                Ok(
                    kept.push(
                        ParameterModel {
                            name: kebab_case(fs.last().name@),
                            ty: translate(fs.last().ty),
                        },
                    ),
                )
            } else {
                Err(Violation { kind: DeclKind::Field, identifier: fs.last().name@ })
            },
            Err(v) => Err(v),
        }
    }
}

/// The cases of the interface for the cases `cs`, or the first name among
/// them that may not be declared.
pub open spec fn cases_outcome(cs: Seq<CaseDecl>) -> Result<Seq<CaseModel>, Violation>
    decreases cs.len(),
{
    if cs.len() == 0 {
        Ok(Seq::empty())
    } else {
        match cases_outcome(cs.drop_last()) {
            Ok(kept) => if acceptable(cs.last().name@) {
                Ok(
                    kept.push(
                        CaseModel {
                            name: kebab_case(cs.last().name@),
                            payload: match cs.last().payload {
                                Some(t) => Some(translate(t)),
                                None => None,
                            },
                        },
                    ),
                )
            } else {
                Err(Violation { kind: DeclKind::VariantCase, identifier: cs.last().name@ })
            },
            Err(v) => Err(v),
        }
    }
}

/// The definition of the interface for the declaration `d`, or the first
/// name in `d` that may not be declared: its own name is looked at first,
/// then those of its fields or cases in order.
pub open spec fn type_outcome(d: TypeDecl) -> Result<TypeDefModel, Violation> {
    match d {
        TypeDecl::Record { name, fields } => if !acceptable(name@) {
            Err(Violation { kind: DeclKind::Type, identifier: name@ })
        } else {
            match fields_outcome(fields@) {
                Ok(fs) => Ok(TypeDefModel::Record { name: kebab_case(name@), fields: fs }),
                Err(v) => Err(v),
            }
        },
        TypeDecl::Variant { name, cases } => if !acceptable(name@) {
            Err(Violation { kind: DeclKind::Type, identifier: name@ })
        } else {
            match cases_outcome(cases@) {
                Ok(cs) => Ok(TypeDefModel::Variant { name: kebab_case(name@), cases: cs }),
                Err(v) => Err(v),
            }
        },
    }
}

/// The definitions of the interface for the declarations `ds`, in order,
/// or the first name among them that may not be declared.
pub open spec fn types_outcome(ds: Seq<TypeDecl>) -> Result<Seq<TypeDefModel>, Violation>
    decreases ds.len(),
{
    if ds.len() == 0 {
        Ok(Seq::empty())
    } else {
        match types_outcome(ds.drop_last()) {
            Ok(kept) => match type_outcome(ds.last()) {
                Ok(def) => Ok(kept.push(def)),
                Err(v) => Err(v),
            },
            Err(v) => Err(v),
        }
    }
}

/// The name of the world that the module `m` declares.
pub open spec fn declared_world(m: ModuleDecl) -> Option<Seq<char>> {
    match m.entry {
        Some(entry) => match entry.wit_world {
            Some(world) => Some(world@),
            None => None,
        },
        None => None,
    }
}

/// What `extract` owes for the module `m`.
///
/// Without an entry block that names a world, nothing is found. Else the
/// routines are looked at in order, then the records and variants in
/// order, and the first name that may not be declared ends the search.
pub open spec fn extraction_is(m: ModuleDecl, r: Result<Extracted, ExtractError>) -> bool {
    match declared_world(m) {
        None => r == Err::<Extracted, ExtractError>(ExtractError::MissingWorldDeclaration),
        Some(world) => match routines_outcome(m.entry->0.routines@) {
            Err(v) => r matches Err(ExtractError::Naming(e)) && e@ == v,
            Ok((sigs, used)) => match types_outcome(m.types@) {
                Err(v) => r matches Err(ExtractError::Naming(e)) && e@ == v,
                Ok(table) => r matches Ok(found) && found.world@ == world && signature_models(
                    found.signatures@,
                ) == sigs && strings(found.used@) == used && type_def_models(found.table@)
                    == table,
            },
        },
    }
}

/// Every routine that is found in a module may be reached in one way at
/// least, and has the address in its structured form.
pub proof fn lemma_found_reachable(rs: Seq<RoutineDecl>)
    ensures
        routines_outcome(rs) matches Ok((sigs, _)) ==> forall|i: int|
            0 <= i < sigs.len() ==> (#[trigger] sigs[i]).reachable() && sigs[i].target == Some(
                TargetForm::Address,
            ),
    decreases rs.len(),
{
    if rs.len() > 0 {
        lemma_found_reachable(rs.drop_last());
        if routines_outcome(rs) is Ok {
            let sigs = routines_outcome(rs)->Ok_0.0;
            let before = routines_outcome(rs.drop_last())->Ok_0.0;
            assert forall|i: int| 0 <= i < sigs.len() implies (#[trigger] sigs[i]).reachable()
                && sigs[i].target == Some(TargetForm::Address) by {
                if i < before.len() {
                    assert(sigs[i] == before[i]);
                }
            }
        }
    }
}

/// The primitive type that the host language names `s`, if it names one.
pub fn host_primitive_of(s: &Vec<char>) -> (r: Option<Primitive>)
    ensures
        r == host_word(s@),
{
    if is_str(s, "i32") {
        Some(Primitive::S32)
    } else if is_str(s, "u32") {
        Some(Primitive::U32)
    } else if is_str(s, "i64") {
        Some(Primitive::S64)
    } else if is_str(s, "u64") {
        Some(Primitive::U64)
    } else if is_str(s, "f32") {
        Some(Primitive::F32)
    } else if is_str(s, "f64") {
        Some(Primitive::F64)
    } else if is_str(s, "String") || is_str(s, "str") {
        Some(Primitive::Text)
    } else if is_str(s, "bool") {
        Some(Primitive::Boolean)
    } else if is_str(s, "Address") {
        Some(Primitive::Address)
    } else {
        None
    }
}

/// Adds `name` to `used`, at the end, if it is new.
pub fn add_name(used: &mut Vec<String>, name: &Vec<char>)
    ensures
        strings(final(used)@) == with_name(strings(old(used)@), name@),
{
    let mut i: usize = 0;
    while i < used.len()
        invariant
            i <= used.len(),
            used@ == old(used)@,
            forall|k: int| 0 <= k < i ==> strings(used@)[k] != name@,
        decreases used.len() - i,
    {
        assert(strings(used@)[i as int] == used@[i as int]@);
        if is_str(name, used[i].as_str()) {
            assert(strings(used@).contains(name@));
            return;
        }
        i = i + 1;
    }
    assert(!strings(used@).contains(name@));
    let ghost before = used@;
    let text = string_of(name);
    used.push(text);
    assert(strings(used@) =~= strings(before).push(name@));
}

/// Translates the host type `h` to a type expression, and adds the names
/// of the custom types in it to `used`.
pub fn to_idl(h: &HostType, used: &mut Vec<String>) -> (r: TypeExpr)
    ensures
        r@ == translate(*h),
        strings(final(used)@) == note_used(strings(old(used)@), *h),
    decreases h,
{
    match h {
        HostType::Reference(inner) => to_idl(inner, used),
        HostType::Tuple(items) => {
            if items.len() == 0 {
                assert(note_first(strings(used@), *h, 0) == strings(used@));
                return TypeExpr::Primitive(Primitive::Unit);
            }
            assert(note_first(strings(used@), *h, 0) == strings(used@));
            let mut out: Vec<TypeExpr> = Vec::new();
            let mut i: usize = 0;
            while i < items.len()
                invariant
                    i <= items.len(),
                    h is Tuple && h->Tuple_0 == items,
                    out@.len() == i,
                    forall|k: int| 0 <= k < i ==> out@[k]@ == translate(items@[k]),
                    strings(used@) == note_first(strings(old(used)@), *h, i as nat),
                decreases items.len() - i,
            {
                let item = to_idl(&items[i], used);
                out.push(item);
                i = i + 1;
            }
            let r = TypeExpr::Tuple(out);
            proof {
                lemma_tuple_model(r);
                assert(models(out@) =~= translate(*h)->Tuple_0);
            }
            r
        },
        HostType::Path { name, arguments } => {
            let word = chars_of(name.as_str());
            if arguments.len() == 0 {
                match host_primitive_of(&word) {
                    Some(p) => {
                        return TypeExpr::Primitive(p);
                    },
                    None => {},
                }
            }
            if arguments.len() == 1 && is_str(&word, "Vec") {
                return TypeExpr::List(Box::new(to_idl(&arguments[0], used)));
            }
            if arguments.len() == 1 && is_str(&word, "Option") {
                return TypeExpr::Option(Box::new(to_idl(&arguments[0], used)));
            }
            if arguments.len() == 2 && is_str(&word, "Result") {
                let ok = to_idl(&arguments[0], used);
                let err = to_idl(&arguments[1], used);
                return TypeExpr::Result(Box::new(ok), Box::new(err));
            }
            let custom = kebab_chars(&word);
            add_name(used, &custom);
            TypeExpr::Named(string_of(&custom))
        },
        HostType::Other => TypeExpr::Named(string_of(&chars_of("unknown"))),
    }
}

/// Translates the host type `h` to a type expression.
pub fn translate_type(h: &HostType) -> (r: TypeExpr)
    ensures
        r@ == translate(*h),
{
    let mut unused: Vec<String> = Vec::new();
    to_idl(h, &mut unused)
}

/// Checks the name `name` of a declaration of the kind `kind`.
fn check_name(kind: DeclKind, name: &String) -> (r: Result<(), NamingViolation>)
    ensures
        match r {
            Ok(_) => acceptable(name@),
            Err(e) => !acceptable(name@) && e@ == (Violation { kind, identifier: name@ }),
        },
{
    let chars = chars_of(name.as_str());
    if is_acceptable(&chars) {
        Ok(())
    } else {
        Err(NamingViolation { kind, identifier: string_of(&chars) })
    }
}

/// The hyphenated form of `name`.
fn kebab_string(name: &String) -> (r: String)
    ensures
        r@ == kebab_case(name@),
{
    string_of(&kebab_chars(&chars_of(name.as_str())))
}

/// What the exposed routine for `r` is, if `r` is exposed; `None` where it
/// is passed over. Adds the custom types of an exposed routine to `used`,
/// and leaves `used` as it is otherwise.
pub fn extract_routine(r: &RoutineDecl, used: &mut Vec<String>) -> (out: Result<
    Option<MethodSignature>,
    NamingViolation,
>)
    ensures
        match routine_outcome(*r, strings(old(used)@)) {
            RoutineOutcome::Skipped => out matches Ok(None) && strings(final(used)@) == strings(
                old(used)@,
            ),
            RoutineOutcome::Rejected(v) => out matches Err(e) && e@ == v,
            RoutineOutcome::Exposed(sig, now) => out matches Ok(Some(found)) && found@ == sig
                && strings(final(used)@) == now,
        },
{
    if !(r.capabilities.remote || r.capabilities.local || r.capabilities.http) {
        return Ok(None);
    }
    match check_name(DeclKind::Function, &r.name) {
        Err(e) => {
            return Err(e);
        },
        Ok(_) => {},
    }
    // The names in use are set aside until the routine is known to be kept.
    let mut now: Vec<String> = Vec::new();
    let mut k: usize = 0;
    assert(strings(now@) =~= strings(used@).take(0));
    while k < used.len()
        invariant
            k <= used.len(),
            used@ == old(used)@,
            strings(now@) == strings(used@).take(k as int),
        decreases used.len() - k,
    {
        let ghost before = now@;
        let copy = string_of(&chars_of(used[k].as_str()));
        now.push(copy);
        assert(strings(now@) =~= strings(before).push(used@[k as int]@));
        assert(strings(used@).take(k + 1) =~= strings(used@).take(k as int).push(
            used@[k as int]@,
        ));
        k = k + 1;
    }
    assert(strings(used@).take(used.len() as int) == strings(used@));
    let mut parameters: Vec<Parameter> = Vec::new();
    let mut i: usize = 0;
    assert(parameter_models(parameters@) =~= Seq::<ParameterModel>::empty());
    while i < r.parameters.len()
        invariant
            i <= r.parameters.len(),
            used@ == old(used)@,
            !r.capabilities.is_empty(),
            acceptable(r.name@),
            parameters_outcome(r.parameters@.take(i as int), strings(old(used)@))
                == ParametersOutcome::Kept(parameter_models(parameters@), strings(now@)),
        decreases r.parameters.len() - i,
    {
        proof {
            let next = r.parameters@.take(i + 1);
            assert(next.drop_last() == r.parameters@.take(i as int));
            assert(next.last() == r.parameters@[i as int]);
        }
        let p = &r.parameters[i];
        match &p.name {
            None => {
                proof {
                    assert(parameters_outcome(r.parameters@.take(i + 1), strings(old(used)@))
                        is Skipped);
                    lemma_parameters_end(r.parameters@, i + 1, strings(old(used)@));
                }
                return Ok(None);
            },
            Some(name) => {
                match check_name(DeclKind::Parameter, name) {
                    Err(e) => {
                        proof {
                            assert(parameters_outcome(
                                r.parameters@.take(i + 1),
                                strings(old(used)@),
                            ) == ParametersOutcome::Rejected(e@));
                            lemma_parameters_end(r.parameters@, i + 1, strings(old(used)@));
                        }
                        return Err(e);
                    },
                    Ok(_) => {},
                }
                let ty = to_idl(&p.ty, &mut now);
                let ghost before = parameters@;
                let kept = Parameter { name: kebab_string(name), ty };
                parameters.push(kept);
                assert(parameter_models(parameters@) =~= parameter_models(before).push(kept@));
            },
        }
        i = i + 1;
    }
    assert(r.parameters@.take(r.parameters.len() as int) == r.parameters@);
    let return_type = match &r.return_type {
        Some(h) => to_idl(h, &mut now),
        None => TypeExpr::Primitive(Primitive::Unit),
    };
    *used = now;
    Ok(
        Some(
            MethodSignature {
                name: kebab_string(&r.name),
                capabilities: r.capabilities,
                target: Some(TargetForm::Address),
                parameters,
                return_type,
            },
        ),
    )
}

/// Parameters that come to nothing after the first `n` come to nothing
/// altogether.
pub proof fn lemma_parameters_end(ps: Seq<ParameterDecl>, n: int, used: Seq<Seq<char>>)
    requires
        0 <= n <= ps.len(),
        !(parameters_outcome(ps.take(n), used) is Kept),
    ensures
        parameters_outcome(ps, used) == parameters_outcome(ps.take(n), used),
    decreases ps.len() - n,
{
    if n < ps.len() {
        let next = ps.take(n + 1);
        assert(next.drop_last() == ps.take(n));
        lemma_parameters_end(ps, n + 1, used);
    } else {
        assert(ps.take(n) == ps);
    }
}

/// Routines that are rejected after the first `n` are rejected
/// altogether.
pub proof fn lemma_routines_end(rs: Seq<RoutineDecl>, n: int)
    requires
        0 <= n <= rs.len(),
        routines_outcome(rs.take(n)) is Err,
    ensures
        routines_outcome(rs) == routines_outcome(rs.take(n)),
    decreases rs.len() - n,
{
    if n < rs.len() {
        let next = rs.take(n + 1);
        assert(next.drop_last() == rs.take(n));
        lemma_routines_end(rs, n + 1);
    } else {
        assert(rs.take(n) == rs);
    }
}

/// Fields that are rejected after the first `n` are rejected altogether.
pub proof fn lemma_fields_end(fs: Seq<FieldDecl>, n: int)
    requires
        0 <= n <= fs.len(),
        fields_outcome(fs.take(n)) is Err,
    ensures
        fields_outcome(fs) == fields_outcome(fs.take(n)),
    decreases fs.len() - n,
{
    if n < fs.len() {
        let next = fs.take(n + 1);
        assert(next.drop_last() == fs.take(n));
        lemma_fields_end(fs, n + 1);
    } else {
        assert(fs.take(n) == fs);
    }
}

/// Cases that are rejected after the first `n` are rejected altogether.
pub proof fn lemma_cases_end(cs: Seq<CaseDecl>, n: int)
    requires
        0 <= n <= cs.len(),
        cases_outcome(cs.take(n)) is Err,
    ensures
        cases_outcome(cs) == cases_outcome(cs.take(n)),
    decreases cs.len() - n,
{
    if n < cs.len() {
        let next = cs.take(n + 1);
        assert(next.drop_last() == cs.take(n));
        lemma_cases_end(cs, n + 1);
    } else {
        assert(cs.take(n) == cs);
    }
}

/// Declarations that are rejected after the first `n` are rejected
/// altogether.
pub proof fn lemma_types_end(ds: Seq<TypeDecl>, n: int)
    requires
        0 <= n <= ds.len(),
        types_outcome(ds.take(n)) is Err,
    ensures
        types_outcome(ds) == types_outcome(ds.take(n)),
    decreases ds.len() - n,
{
    if n < ds.len() {
        let next = ds.take(n + 1);
        assert(next.drop_last() == ds.take(n));
        lemma_types_end(ds, n + 1);
    } else {
        assert(ds.take(n) == ds);
    }
}

/// The definition of the interface for the declaration `d`.
pub fn extract_type(d: &TypeDecl) -> (r: Result<CompositeTypeDef, NamingViolation>)
    ensures
        match type_outcome(*d) {
            Ok(def) => r matches Ok(found) && found@ == def,
            Err(v) => r matches Err(e) && e@ == v,
        },
{
    match d {
        TypeDecl::Record { name, fields } => {
            match check_name(DeclKind::Type, name) {
                Err(e) => {
                    return Err(e);
                },
                Ok(_) => {},
            }
            let mut kept: Vec<Parameter> = Vec::new();
            let mut i: usize = 0;
            assert(parameter_models(kept@) =~= Seq::<ParameterModel>::empty());
            while i < fields.len()
                invariant
                    i <= fields.len(),
                    d is Record && d->Record_name == *name && d->Record_fields == *fields,
                    acceptable(name@),
                    fields_outcome(fields@.take(i as int)) == Ok::<Seq<ParameterModel>, Violation>(
                        parameter_models(kept@),
                    ),
                decreases fields.len() - i,
            {
                proof {
                    let next = fields@.take(i + 1);
                    assert(next.drop_last() == fields@.take(i as int));
                    assert(next.last() == fields@[i as int]);
                }
                match check_name(DeclKind::Field, &fields[i].name) {
                    Err(e) => {
                        proof {
                            assert(fields_outcome(fields@.take(i + 1)) == Err::<
                                Seq<ParameterModel>,
                                Violation,
                            >(e@));
                            lemma_fields_end(fields@, i + 1);
                        }
                        return Err(e);
                    },
                    Ok(_) => {},
                }
                let ghost before = kept@;
                let field = Parameter {
                    name: kebab_string(&fields[i].name),
                    ty: translate_type(&fields[i].ty),
                };
                kept.push(field);
                assert(parameter_models(kept@) =~= parameter_models(before).push(field@));
                i = i + 1;
            }
            assert(fields@.take(fields.len() as int) == fields@);
            Ok(CompositeTypeDef::Record { name: kebab_string(name), fields: kept })
        },
        TypeDecl::Variant { name, cases } => {
            match check_name(DeclKind::Type, name) {
                Err(e) => {
                    return Err(e);
                },
                Ok(_) => {},
            }
            let mut kept: Vec<Case> = Vec::new();
            let mut i: usize = 0;
            assert(case_models(kept@) =~= Seq::<CaseModel>::empty());
            while i < cases.len()
                invariant
                    i <= cases.len(),
                    d is Variant && d->Variant_name == *name && d->Variant_cases == *cases,
                    acceptable(name@),
                    cases_outcome(cases@.take(i as int)) == Ok::<Seq<CaseModel>, Violation>(
                        case_models(kept@),
                    ),
                decreases cases.len() - i,
            {
                proof {
                    let next = cases@.take(i + 1);
                    assert(next.drop_last() == cases@.take(i as int));
                    assert(next.last() == cases@[i as int]);
                }
                match check_name(DeclKind::VariantCase, &cases[i].name) {
                    Err(e) => {
                        proof {
                            assert(cases_outcome(cases@.take(i + 1)) == Err::<
                                Seq<CaseModel>,
                                Violation,
                            >(e@));
                            lemma_cases_end(cases@, i + 1);
                        }
                        return Err(e);
                    },
                    Ok(_) => {},
                }
                let payload = match &cases[i].payload {
                    Some(h) => Some(translate_type(h)),
                    None => None,
                };
                let ghost before = kept@;
                let case = Case { name: kebab_string(&cases[i].name), payload };
                kept.push(case);
                assert(case_models(kept@) =~= case_models(before).push(case@));
                i = i + 1;
            }
            assert(cases@.take(cases.len() as int) == cases@);
            Ok(CompositeTypeDef::Variant { name: kebab_string(name), cases: kept })
        },
    }
}

/// Finds what the module `module` declares for its interface.
pub fn extract(module: &ModuleDecl) -> (r: Result<Extracted, ExtractError>)
    ensures
        extraction_is(*module, r),
{
    let entry = match &module.entry {
        Some(entry) => entry,
        None => {
            return Err(ExtractError::MissingWorldDeclaration);
        },
    };
    let world = match &entry.wit_world {
        Some(world) => string_of(&chars_of(world.as_str())),
        None => {
            return Err(ExtractError::MissingWorldDeclaration);
        },
    };
    let routines = &entry.routines;
    let mut signatures: Vec<MethodSignature> = Vec::new();
    let mut used: Vec<String> = Vec::new();
    let mut i: usize = 0;
    assert(signature_models(signatures@) =~= Seq::<SignatureModel>::empty());
    assert(strings(used@) =~= Seq::<Seq<char>>::empty());
    while i < routines.len()
        invariant
            i <= routines.len(),
            module.entry == Some(*entry),
            entry.wit_world is Some,
            *routines == entry.routines,
            routines_outcome(routines@.take(i as int)) == Ok::<
                (Seq<SignatureModel>, Seq<Seq<char>>),
                Violation,
            >((signature_models(signatures@), strings(used@))),
        decreases routines.len() - i,
    {
        proof {
            let next = routines@.take(i + 1);
            assert(next.drop_last() == routines@.take(i as int));
            assert(next.last() == routines@[i as int]);
        }
        match extract_routine(&routines[i], &mut used) {
            Err(e) => {
                proof {
                    assert(routines_outcome(routines@.take(i + 1)) == Err::<
                        (Seq<SignatureModel>, Seq<Seq<char>>),
                        Violation,
                    >(e@));
                    lemma_routines_end(routines@, i + 1);
                }
                return Err(ExtractError::Naming(e));
            },
            Ok(None) => {},
            Ok(Some(sig)) => {
                let ghost before = signatures@;
                signatures.push(sig);
                assert(signature_models(signatures@) =~= signature_models(before).push(sig@));
            },
        }
        i = i + 1;
    }
    assert(routines@.take(routines.len() as int) == routines@);
    let mut table: Vec<CompositeTypeDef> = Vec::new();
    let mut j: usize = 0;
    assert(type_def_models(table@) =~= Seq::<TypeDefModel>::empty());
    while j < module.types.len()
        invariant
            j <= module.types.len(),
            module.entry == Some(*entry),
            entry.wit_world is Some,
            *routines == entry.routines,
            routines_outcome(routines@) is Ok,
            types_outcome(module.types@.take(j as int)) == Ok::<Seq<TypeDefModel>, Violation>(
                type_def_models(table@),
            ),
        decreases module.types.len() - j,
    {
        proof {
            let next = module.types@.take(j + 1);
            assert(next.drop_last() == module.types@.take(j as int));
            assert(next.last() == module.types@[j as int]);
        }
        match extract_type(&module.types[j]) {
            Err(e) => {
                proof {
                    assert(types_outcome(module.types@.take(j + 1)) == Err::<
                        Seq<TypeDefModel>,
                        Violation,
                    >(e@));
                    lemma_types_end(module.types@, j + 1);
                }
                return Err(ExtractError::Naming(e));
            },
            Ok(def) => {
                let ghost before = table@;
                table.push(def);
                assert(type_def_models(table@) =~= type_def_models(before).push(def@));
            },
        }
        j = j + 1;
    }
    assert(module.types@.take(module.types.len() as int) == module.types@);
    Ok(Extracted { world, signatures, used, table })
}

/// The interface named `name` with the routines found in a module and,
/// of the records and variants found there, those that the routines need,
/// in the order of their finding.
pub fn interface_of(name: &str, found: Extracted) -> (r: InterfaceModel)
    ensures
        r.name@ == name@,
        r.signatures == found.signatures,
        type_def_models(r.types@) == chosen(
            type_def_models(found.table@),
            closure_order(type_def_models(found.table@), strings(found.used@)),
        ),
{
    let types = retained_types(&found.used, &found.table);
    InterfaceModel { name: string_of(&chars_of(name)), signatures: found.signatures, types }
}

/// The name of the world that imports every interface, where no module
/// names a world.
pub open spec fn default_world() -> Seq<char> {
    "async-app-template-dot-os-v0"@
}

/// The world that imports the interfaces `interfaces`: named as the first
/// of the modules found names its world, the names given in `worlds`, and
/// by the default where there is none.
pub fn aggregate_world(worlds: &Vec<String>, interfaces: Vec<String>) -> (r: WorldModel)
    ensures
        r.name@ == (if worlds@.len() > 0 {
            worlds@[0]@
        } else {
            default_world()
        }),
        r.imported_interfaces == interfaces,
{
    let name = if worlds.len() > 0 {
        string_of(&chars_of(worlds[0].as_str()))
    } else {
        string_of(&chars_of("async-app-template-dot-os-v0"))
    };
    WorldModel { name, imported_interfaces: interfaces }
}

} // verus!
