//! The syntax tree of definitions that a program layout is built from.
use vstd::prelude::*;

verus! {

/// Identifies a node of the syntax tree (for error reports).
#[derive(Debug, Clone, Copy, PartialEq, Eq, Structural, PartialOrd, Ord, Hash)]
pub struct NodeId(pub u64);

/// Who may name a definition: anyone, or only items of the module that defines it.
#[derive(Debug, Clone, Copy, PartialEq, Eq, Structural, PartialOrd, Ord, Hash)]
pub enum Visibility {
    Public,
    Private,
}

/// One segment of a path: `super` or a name.
#[derive(Debug, Clone, PartialEq, Eq)]
pub enum PartKind {
    Super,
    Ident(String),
}

/// A path segment with its node.
#[derive(Debug, Clone, PartialEq, Eq)]
pub struct PathPart {
    pub id: NodeId,
    pub kind: PartKind,
}

/// A concrete type: a built-in one or a path to a class.
#[derive(Debug, Clone, PartialEq, Eq)]
pub enum TypeKind {
    Any,
    NoneType,
    Bool,
    Int,
    Float,
    Str,
    Path(Vec<PathPart>),
}

/// A concrete type with its node.
#[derive(Debug, Clone, PartialEq, Eq)]
pub struct ConcreteType {
    pub id: NodeId,
    pub kind: TypeKind,
}

/// A union of concrete types.
#[derive(Debug, Clone, PartialEq, Eq)]
pub struct PathUnion {
    pub id: NodeId,
    pub types: Vec<ConcreteType>,
}

/// A named, typed member: a class field or a function parameter.
#[derive(Debug, Clone, PartialEq, Eq)]
pub struct Field {
    pub vis: Visibility,
    pub name: String,
    pub name_id: NodeId,
    pub union: PathUnion,
}

/// A class: its fields and the definitions inside it.
#[derive(Debug)]
pub struct Class {
    pub fields: Vec<Field>,
    pub defs: Vec<Definition>,
}

/// A statement of a function body: a local statement (by its node), or a definition.
#[derive(Debug)]
pub enum Statement {
    Local(NodeId),
    Global(Definition),
}

/// A function: parameters, output type and body.
#[derive(Debug)]
pub struct Func {
    pub parameters: Vec<Field>,
    pub output: PathUnion,
    pub body: Vec<Statement>,
}

/// What a definition defines: a global value (by the node of its expression), a
/// module, a class or a function.
#[derive(Debug)]
pub enum DefKind {
    Global(NodeId),
    Module(Module),
    Class(Class),
    Func(Func),
}

/// A named definition.
#[derive(Debug)]
pub struct Definition {
    pub id: NodeId,
    pub vis: Visibility,
    pub name: String,
    pub name_id: NodeId,
    pub kind: DefKind,
}

/// A module: a list of definitions.
#[derive(Debug)]
pub struct Module {
    pub defs: Vec<Definition>,
}

/// The value of a path segment: its node and its name (`None` for `super`).
pub struct PartModel {
    pub id: NodeId,
    pub name: Option<Seq<char>>,
}

/// The value of a concrete type.
pub enum TypeModel {
    Any,
    NoneType,
    Bool,
    Int,
    Float,
    Str,
    Path(Seq<PartModel>),
}

impl View for PathPart {
    type V = PartModel;

    open spec fn view(&self) -> PartModel {
        PartModel {
            id: self.id,
            name: match &self.kind {
                PartKind::Super => None,
                PartKind::Ident(s) => Some(s@),
            },
        }
    }
}

pub open spec fn parts_view(parts: Seq<PathPart>) -> Seq<PartModel> {
    parts.map_values(|p: PathPart| p@)
}

impl View for ConcreteType {
    type V = (NodeId, TypeModel);

    open spec fn view(&self) -> (NodeId, TypeModel) {
        (
            self.id,
            match &self.kind {
                TypeKind::Any => TypeModel::Any,
                TypeKind::NoneType => TypeModel::NoneType,
                TypeKind::Bool => TypeModel::Bool,
                TypeKind::Int => TypeModel::Int,
                TypeKind::Float => TypeModel::Float,
                TypeKind::Str => TypeModel::Str,
                TypeKind::Path(p) => TypeModel::Path(parts_view(p@)),
            },
        )
    }
}

/// The value of a union: its node and its types.
pub struct UnionModel {
    pub id: NodeId,
    pub types: Seq<(NodeId, TypeModel)>,
}

impl View for PathUnion {
    type V = UnionModel;

    open spec fn view(&self) -> UnionModel {
        UnionModel { id: self.id, types: self.types@.map_values(|t: ConcreteType| t@) }
    }
}

/// Copies a path segment.
pub fn copy_part(p: &PathPart) -> (r: PathPart)
    ensures
        r@ == p@,
{
    PathPart {
        id: p.id,
        kind: match &p.kind {
            PartKind::Super => PartKind::Super,
            PartKind::Ident(s) => PartKind::Ident(s.clone()),
        },
    }
}

/// Copies a concrete type.
pub fn copy_type(t: &ConcreteType) -> (r: ConcreteType)
    ensures
        r@ == t@,
{
    let kind = match &t.kind {
        TypeKind::Any => TypeKind::Any,
        TypeKind::NoneType => TypeKind::NoneType,
        TypeKind::Bool => TypeKind::Bool,
        TypeKind::Int => TypeKind::Int,
        TypeKind::Float => TypeKind::Float,
        TypeKind::Str => TypeKind::Str,
        TypeKind::Path(parts) => {
            let mut out: Vec<PathPart> = Vec::new();
            let mut i: usize = 0;
            while i < parts.len()
                invariant
                    i <= parts.len(),
                    out.len() == i,
                    forall|j: int| 0 <= j < i ==> (#[trigger] out@[j])@ == parts@[j]@,
                decreases parts.len() - i,
            {
                out.push(copy_part(&parts[i]));
                i = i + 1;
            }
            assert(parts_view(out@) =~= parts_view(parts@));
            TypeKind::Path(out)
        },
    };
    ConcreteType { id: t.id, kind }
}

/// Copies a union.
pub fn copy_union(u: &PathUnion) -> (r: PathUnion)
    ensures
        r@ == u@,
{
    let mut out: Vec<ConcreteType> = Vec::new();
    let mut i: usize = 0;
    while i < u.types.len()
        invariant
            i <= u.types.len(),
            out.len() == i,
            forall|j: int| 0 <= j < i ==> (#[trigger] out@[j])@ == u.types@[j]@,
        decreases u.types.len() - i,
    {
        out.push(copy_type(&u.types[i]));
        i = i + 1;
    }
    let r = PathUnion { id: u.id, types: out };
    assert(r@.types =~= u@.types);
    r
}

} // verus!
