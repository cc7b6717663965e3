//! The model of an interface: the routines it exposes, the ways in which
//! each may be reached, and the records and variants it declares.

use crate::types::{TypeExpr, TypeModel};
use vstd::prelude::*;

verus! {

/// A way in which a routine may be reached.
#[derive(Clone, Copy, Debug, PartialEq, Eq, Structural)]
pub enum Capability {
    Remote,
    Local,
    Http,
}

/// The ways in which one routine may be reached.
#[derive(Clone, Copy, Debug, PartialEq, Eq, Structural)]
pub struct CapabilitySet {
    pub remote: bool,
    pub local: bool,
    pub http: bool,
}

impl CapabilitySet {
    /// Whether `c` is in the set.
    pub open spec fn includes(self, c: Capability) -> bool {
        match c {
            Capability::Remote => self.remote,
            Capability::Local => self.local,
            Capability::Http => self.http,
        }
    }

    /// Whether the set holds nothing.
    pub open spec fn is_empty(self) -> bool {
        !self.remote && !self.local && !self.http
    }

    /// The set without members.
    pub open spec fn none() -> CapabilitySet {
        CapabilitySet { remote: false, local: false, http: false }
    }

    /// The set with `c` added.
    pub open spec fn with(self, c: Capability) -> CapabilitySet {
        match c {
            Capability::Remote => CapabilitySet { remote: true, ..self },
            Capability::Local => CapabilitySet { local: true, ..self },
            Capability::Http => CapabilitySet { http: true, ..self },
        }
    }

    /// The set without members.
    pub fn empty() -> (r: CapabilitySet)
        ensures
            r == CapabilitySet::none(),
    {
        CapabilitySet { remote: false, local: false, http: false }
    }

    /// Whether `c` is in the set.
    pub fn contains(&self, c: Capability) -> (r: bool)
        ensures
            r == self.includes(c),
    {
        match c {
            Capability::Remote => self.remote,
            Capability::Local => self.local,
            Capability::Http => self.http,
        }
    }

    /// Adds `c` to the set.
    pub fn insert(&mut self, c: Capability)
        ensures
            *final(self) == old(self).with(c),
    {
        match c {
            Capability::Remote => {
                self.remote = true;
            },
            Capability::Local => {
                self.local = true;
            },
            Capability::Http => {
                self.http = true;
            },
        }
    }
}

/// How the text of a routine writes the address of the process to call.
#[derive(Clone, Copy, Debug, PartialEq, Eq, Structural)]
pub enum TargetForm {
    /// As a structured address.
    Address,
    /// As a string.
    Text,
}

/// A parameter of a routine.
#[derive(Debug, PartialEq, Eq)]
pub struct Parameter {
    pub name: String,
    pub ty: TypeExpr,
}

/// What a `Parameter` stands for in contracts.
pub struct ParameterModel {
    pub name: Seq<char>,
    pub ty: TypeModel,
}

impl View for Parameter {
    type V = ParameterModel;

    open spec fn view(&self) -> ParameterModel {
        ParameterModel { name: self.name@, ty: self.ty@ }
    }
}

/// The models of the parameters of `v`, in order.
pub open spec fn parameter_models(v: Seq<Parameter>) -> Seq<ParameterModel> {
    Seq::new(v.len(), |i: int| v[i]@)
}

/// A routine that an interface exposes. The address of the process to call
/// is no parameter of the routine: `target` says how the text wrote it, if
/// it wrote it.
#[derive(Debug, PartialEq, Eq)]
pub struct MethodSignature {
    pub name: String,
    pub capabilities: CapabilitySet,
    pub target: Option<TargetForm>,
    pub parameters: Vec<Parameter>,
    pub return_type: TypeExpr,
}

/// What a `MethodSignature` stands for in contracts.
pub struct SignatureModel {
    pub name: Seq<char>,
    pub capabilities: CapabilitySet,
    pub target: Option<TargetForm>,
    pub parameters: Seq<ParameterModel>,
    pub return_type: TypeModel,
}

impl SignatureModel {
    /// The routine may be reached in one way at least.
    pub open spec fn reachable(self) -> bool {
        !self.capabilities.is_empty()
    }
}

impl View for MethodSignature {
    type V = SignatureModel;

    open spec fn view(&self) -> SignatureModel {
        SignatureModel {
            name: self.name@,
            capabilities: self.capabilities,
            target: self.target,
            parameters: parameter_models(self.parameters@),
            return_type: self.return_type@,
        }
    }
}

/// The models of the signatures of `v`, in order.
pub open spec fn signature_models(v: Seq<MethodSignature>) -> Seq<SignatureModel> {
    Seq::new(v.len(), |i: int| v[i]@)
}

/// A case of a variant: a name and, for some, the type of what it carries.
#[derive(Debug, PartialEq, Eq)]
pub struct Case {
    pub name: String,
    pub payload: Option<TypeExpr>,
}

/// What a `Case` stands for in contracts.
pub struct CaseModel {
    pub name: Seq<char>,
    pub payload: Option<TypeModel>,
}

impl View for Case {
    type V = CaseModel;

    open spec fn view(&self) -> CaseModel {
        CaseModel {
            name: self.name@,
            payload: match self.payload {
                Some(t) => Some(t@),
                None => None,
            },
        }
    }
}

/// The models of the cases of `v`, in order.
pub open spec fn case_models(v: Seq<Case>) -> Seq<CaseModel> {
    Seq::new(v.len(), |i: int| v[i]@)
}

/// A record or a variant that an interface declares. Fields and cases keep
/// the order in which they were declared.
#[derive(Debug, PartialEq, Eq)]
pub enum CompositeTypeDef {
    Record { name: String, fields: Vec<Parameter> },
    Variant { name: String, cases: Vec<Case> },
}

/// What a `CompositeTypeDef` stands for in contracts.
pub enum TypeDefModel {
    Record { name: Seq<char>, fields: Seq<ParameterModel> },
    Variant { name: Seq<char>, cases: Seq<CaseModel> },
}

impl TypeDefModel {
    /// The name that the definition gives its type.
    pub open spec fn declared(self) -> Seq<char> {
        match self {
            TypeDefModel::Record { name, .. } => name,
            TypeDefModel::Variant { name, .. } => name,
        }
    }
}

impl View for CompositeTypeDef {
    type V = TypeDefModel;

    open spec fn view(&self) -> TypeDefModel {
        match self {
            CompositeTypeDef::Record { name, fields } => TypeDefModel::Record {
                name: name@,
                fields: parameter_models(fields@),
            },
            CompositeTypeDef::Variant { name, cases } => TypeDefModel::Variant {
                name: name@,
                cases: case_models(cases@),
            },
        }
    }
}

/// The models of the definitions of `v`, in order.
pub open spec fn type_def_models(v: Seq<CompositeTypeDef>) -> Seq<TypeDefModel> {
    Seq::new(v.len(), |i: int| v[i]@)
}

/// An interface: its name, the routines it exposes in the order of their
/// declaration, and the records and variants that those routines need.
#[derive(Debug, PartialEq, Eq)]
pub struct InterfaceModel {
    pub name: String,
    pub signatures: Vec<MethodSignature>,
    pub types: Vec<CompositeTypeDef>,
}

/// A world: a name and the interfaces it imports, in order.
#[derive(Debug, PartialEq, Eq)]
pub struct WorldModel {
    pub name: String,
    pub imported_interfaces: Vec<String>,
}

} // verus!
