//! Name resolution over a program layout: paths to modules, classes and functions, and
//! the types of class fields and function signatures.
use vstd::prelude::*;

use crate::ast::{ConcreteType, NodeId, PartKind, PartModel, PathPart, TypeKind, TypeModel, Visibility};
use crate::indexers::{ClassIndex, FuncIndex, ScopeIndex};
use crate::ast::UnionModel;
use crate::layout::{
    class_wf, fields_view, func_wf, layout_wf, params_view, scope_wf, ClassModel, DefIndex, FuncModel, LayoutModel,
    ProgramLayout, VisData,
};
use crate::layout::ClassData as LayoutClass;
use crate::layout::FuncData as LayoutFunc;
use crate::ast::PathUnion;
use crate::name_map::{entry_value, has_entry, lemma_set_entry_map, map_entries, set_entry, NamedList};

verus! {

/// An error found while resolving names.
#[derive(Debug, Clone, Copy, PartialEq, Eq, Structural, Hash)]
pub enum ResolveError {
    /// `super` was used in the root module.
    SuperFromRoot(NodeId),
    /// `super` after a name: it is only valid at the start of a path.
    SuperInPath(NodeId),
    /// A module name that no searched scope defines.
    ModuleNotFound(NodeId),
    /// A class name that no searched scope defines.
    ClassNotFound(NodeId),
    /// A function name that no searched scope defines.
    FuncNotFound(NodeId),
    PrivateModule(NodeId),
    PrivateClass(NodeId),
    PrivateFunc(NodeId),
    PrivateField(NodeId),
    /// The path names something that is not a class.
    NotAClass(NodeId),
    /// The path names something that is not a function.
    NotAFunc(NodeId),
    /// A path with no segment.
    EmptyPath,
    /// A name defined privately in a scope that the use does not lie inside.
    PrivateIdent(NodeId),
    /// A segment before the last names something that is not a module.
    NotAModule(NodeId),
}

/// What a type resolves to.
#[derive(Debug, Clone, Copy, PartialEq, Eq, Structural, PartialOrd, Ord, Hash)]
pub enum ResolvedValue {
    Any,
    NoneValue,
    Bool,
    Int,
    Float,
    Str,
    Class(ClassIndex),
}

// ----- resolution as functions of the layout -----

/// Scope `child` is `parent` or lies inside it: `parent` is met by going up from `child`,
/// to its parent scope where it has one and else to its module's enclosing module.
pub open spec fn child_of(m: LayoutModel, parent: int, child: int) -> bool
    decreases child,
{
    if parent == child {
        true
    } else if !(0 <= child < m.scopes.len()) {
        false
    } else {
        match m.scopes[child].parent_scope {
            Some(p) => p.0 < child && child_of(m, parent, p.0 as int),
            None => match m.scopes[child].super_scope {
                Some(s) => s.0 < child && child_of(m, parent, s.0 as int),
                None => false,
            },
        }
    }
}

/// Looks `name` up from scope `scope` outwards through parent scopes (not past the
/// module), as seen from scope `source`: a private definition is visible only from
/// inside the scope that defines it. A name that no searched scope defines is
/// `ModuleNotFound`; callers looking up a class or a function report it as
/// `ClassNotFound` or `FuncNotFound` (see [`rename_missing`]).
pub open spec fn find_model(m: LayoutModel, source: int, scope: int, name: Seq<char>, id: NodeId) -> Result<DefIndex, ResolveError>
    decreases scope,
{
    let defs = m.scopes[scope].defs;
    if has_entry(defs, name) {
        let found = entry_value(defs, name);
        if found.vis == Visibility::Private && !child_of(m, scope, source) {
            Err(ResolveError::PrivateIdent(id))
        } else {
            Ok(found.data)
        }
    } else {
        match m.scopes[scope].parent_scope {
            Some(p) => if 0 <= p.0 < scope {
                find_model(m, source, p.0 as int, name, id)
            } else {
                Err(ResolveError::ModuleNotFound(id))
            },
            None => Err(ResolveError::ModuleNotFound(id)),
        }
    }
}

/// A lookup whose name was not found reports `missing` instead.
pub open spec fn rename_missing(r: Result<DefIndex, ResolveError>, missing: ResolveError) -> Result<DefIndex, ResolveError> {
    match r {
        Err(ResolveError::ModuleNotFound(_)) => Err(missing),
        _ => r,
    }
}

/// One module path segment, from scope `scope`: `super` goes to the enclosing module, and
/// is valid only while the path so far has been `super` alone (`leading`); a name must
/// name a module.
pub open spec fn module_step(m: LayoutModel, source: int, scope: int, part: PartModel, leading: bool) -> Result<int, ResolveError> {
    match part.name {
        None => if !leading {
            Err(ResolveError::SuperInPath(part.id))
        } else {
            match m.scopes[scope].super_scope {
                None => Err(ResolveError::SuperFromRoot(part.id)),
                Some(s) => Ok(s.0 as int),
            }
        },
        Some(name) => match find_model(m, source, scope, name, part.id) {
            Err(e) => Err(e),
            Ok(DefIndex::Module(s)) => Ok(s.0 as int),
            Ok(_) => Err(ResolveError::NotAModule(part.id)),
        },
    }
}

/// Follows module path segments from scope `scope`, seen from scope `source`; `leading`
/// says whether only `super` came before. The first error ends the walk.
pub open spec fn module_path_model(m: LayoutModel, source: int, scope: int, parts: Seq<PartModel>, leading: bool) -> Result<int, ResolveError>
    decreases parts.len(),
{
    if parts.len() == 0 {
        Ok(scope)
    } else {
        match module_step(m, source, scope, parts[0], leading) {
            Err(e) => Err(e),
            Ok(next) => module_path_model(
                m,
                source,
                next,
                parts.subrange(1, parts.len() as int),
                leading && parts[0].name is None,
            ),
        }
    }
}

/// Resolves the path of a class (`for_class`) or function: all segments but the last lead
/// to a module, where the last, a name, is looked up; a name not found there is
/// `ClassNotFound` or `FuncNotFound`.
pub open spec fn item_path_model(m: LayoutModel, source: int, parts: Seq<PartModel>, for_class: bool) -> Result<DefIndex, ResolveError> {
    let last = parts.last();
    match last.name {
        None => Err(ResolveError::NotAClass(last.id)),
        Some(name) => match module_path_model(m, source, source, parts.drop_last(), true) {
            Err(e) => Err(e),
            Ok(scope) => rename_missing(
                find_model(m, source, scope, name, last.id),
                if for_class {
                    ResolveError::ClassNotFound(last.id)
                } else {
                    ResolveError::FuncNotFound(last.id)
                },
            ),
        },
    }
}

/// What a type resolves to, seen from scope `source`.
pub open spec fn value_model(m: LayoutModel, source: int, t: TypeModel) -> Result<ResolvedValue, ResolveError> {
    match t {
        TypeModel::Any => Ok(ResolvedValue::Any),
        TypeModel::NoneType => Ok(ResolvedValue::NoneValue),
        TypeModel::Bool => Ok(ResolvedValue::Bool),
        TypeModel::Int => Ok(ResolvedValue::Int),
        TypeModel::Float => Ok(ResolvedValue::Float),
        TypeModel::Str => Ok(ResolvedValue::Str),
        TypeModel::Path(parts) => if parts.len() == 0 {
            Err(ResolveError::EmptyPath)
        } else {
            match item_path_model(m, source, parts, true) {
                Err(e) => Err(e),
                Ok(DefIndex::Class(c)) => Ok(ResolvedValue::Class(c)),
                Ok(_) => Err(ResolveError::NotAClass(parts.last().id)),
            }
        },
    }
}

/// What a function path resolves to, seen from scope `source`.
pub open spec fn func_model(m: LayoutModel, source: int, parts: Seq<PartModel>) -> Result<FuncIndex, ResolveError> {
    if parts.len() == 0 {
        Err(ResolveError::EmptyPath)
    } else if parts.last().name is None {
        Err(ResolveError::NotAFunc(parts.last().id))
    } else {
        match item_path_model(m, source, parts, false) {
            Err(e) => Err(e),
            Ok(DefIndex::Func(f)) => Ok(f),
            Ok(_) => Err(ResolveError::NotAFunc(parts.last().id)),
        }
    }
}

/// The value of each segment of a path.
pub open spec fn path_view(path: Seq<PathPart>) -> Seq<PartModel> {
    Seq::new(path.len(), |i: int| path[i]@)
}

/// Every scope lies inside itself.
pub proof fn lemma_child_of_self(m: LayoutModel, s: int)
    ensures
        child_of(m, s, s),
{
}

/// A name defined in a scope is found when looked up from that same scope, whatever its
/// visibility.
pub proof fn lemma_find_in_own_scope(m: LayoutModel, s: int, name: Seq<char>, id: NodeId)
    requires
        has_entry(m.scopes[s].defs, name),
    ensures
        find_model(m, s, s, name, id) == Ok::<DefIndex, ResolveError>(entry_value(m.scopes[s].defs, name).data),
{
}

/// A public name defined in a scope is found from any scope.
pub proof fn lemma_find_public(m: LayoutModel, source: int, s: int, name: Seq<char>, id: NodeId)
    requires
        has_entry(m.scopes[s].defs, name),
        entry_value(m.scopes[s].defs, name).vis == Visibility::Public,
    ensures
        find_model(m, source, s, name, id) == Ok::<DefIndex, ResolveError>(entry_value(m.scopes[s].defs, name).data),
{
}

/// Built-in types resolve to themselves, whatever the layout and the scope.
pub proof fn lemma_builtin_types(m: LayoutModel, source: int)
    ensures
        value_model(m, source, TypeModel::Any) == Ok::<ResolvedValue, ResolveError>(ResolvedValue::Any),
        value_model(m, source, TypeModel::NoneType) == Ok::<ResolvedValue, ResolveError>(ResolvedValue::NoneValue),
        value_model(m, source, TypeModel::Bool) == Ok::<ResolvedValue, ResolveError>(ResolvedValue::Bool),
        value_model(m, source, TypeModel::Int) == Ok::<ResolvedValue, ResolveError>(ResolvedValue::Int),
        value_model(m, source, TypeModel::Float) == Ok::<ResolvedValue, ResolveError>(ResolvedValue::Float),
        value_model(m, source, TypeModel::Str) == Ok::<ResolvedValue, ResolveError>(ResolvedValue::Str),
{
}

/// An empty path never resolves to a value.
pub proof fn lemma_empty_path(m: LayoutModel, source: int)
    ensures
        value_model(m, source, TypeModel::Path(Seq::empty())) == Err::<ResolvedValue, ResolveError>(ResolveError::EmptyPath),
        func_model(m, source, Seq::empty()) == Err::<FuncIndex, ResolveError>(ResolveError::EmptyPath),
{
}

/// A name that no scope of the layout defines is not found, wherever the lookup starts
/// and whoever looks.
pub proof fn lemma_find_missing(m: LayoutModel, source: int, scope: int, name: Seq<char>, id: NodeId)
    requires
        0 <= scope < m.scopes.len(),
        forall|s: int| 0 <= s < m.scopes.len() ==> !has_entry(#[trigger] m.scopes[s].defs, name),
    ensures
        find_model(m, source, scope, name, id) == Err::<DefIndex, ResolveError>(ResolveError::ModuleNotFound(id)),
    decreases scope,
{
    assert(!has_entry(m.scopes[scope].defs, name));
    match m.scopes[scope].parent_scope {
        Some(p) => if 0 <= p.0 < scope {
            lemma_find_missing(m, source, p.0 as int, name, id);
        },
        None => {},
    }
}

/// A lookup is refused as private only where some scope defines the name privately.
pub proof fn lemma_private_is_defined(m: LayoutModel, source: int, scope: int, name: Seq<char>, id: NodeId)
    requires
        0 <= scope < m.scopes.len(),
    ensures
        find_model(m, source, scope, name, id) == Err::<DefIndex, ResolveError>(ResolveError::PrivateIdent(id)) ==> exists|s: int|
            0 <= s < m.scopes.len() && has_entry(#[trigger] m.scopes[s].defs, name) && entry_value(m.scopes[s].defs, name).vis
                == Visibility::Private,
    decreases scope,
{
    if !has_entry(m.scopes[scope].defs, name) {
        match m.scopes[scope].parent_scope {
            Some(p) => if 0 <= p.0 < scope {
                lemma_private_is_defined(m, source, p.0 as int, name, id);
            },
            None => {},
        }
    }
}

/// `super` resolves only at the start of a path: in a module path that resolves, every
/// `super` segment comes before every name.
pub proof fn lemma_super_only_leading(m: LayoutModel, source: int, scope: int, parts: Seq<PartModel>, leading: bool)
    ensures
        module_path_model(m, source, scope, parts, leading) is Ok ==> forall|j: int|
            0 <= j < parts.len() && (#[trigger] parts[j]).name is None ==> leading && forall|k: int|
                0 <= k < j ==> (#[trigger] parts[k]).name is None,
    decreases parts.len(),
{
    if parts.len() > 0 {
        let rest = parts.subrange(1, parts.len() as int);
        let lead2 = leading && parts[0].name is None;
        match module_step(m, source, scope, parts[0], leading) {
            Err(_) => {},
            Ok(next) => {
                lemma_super_only_leading(m, source, next, rest, lead2);
                if module_path_model(m, source, scope, parts, leading) is Ok {
                    assert forall|j: int| 0 <= j < parts.len() && (#[trigger] parts[j]).name is None implies leading
                        && forall|k: int| 0 <= k < j ==> (#[trigger] parts[k]).name is None by {
                        if j > 0 {
                            assert(rest[j - 1] == parts[j]);
                            assert forall|k: int| 0 <= k < j implies (#[trigger] parts[k]).name is None by {
                                if k > 0 {
                                    assert(rest[k - 1] == parts[k]);
                                }
                            }
                        }
                    }
                }
            },
        }
    }
}

// ----- executable resolution -----

/// Whether scope `child` is `parent` or lies inside it (see [`child_of`]).
pub fn is_child(layout: &ProgramLayout, parent: ScopeIndex, child: ScopeIndex) -> (r: bool)
    requires
        layout.wf(),
        child.0 < layout@.scopes.len(),
    ensures
        r == child_of(layout@, parent.0 as int, child.0 as int),
{
    let ghost m = layout@;
    let mut cur = child;
    while parent.raw() != cur.raw()
        invariant
            layout.wf(),
            m == layout@,
            cur.0 < m.scopes.len(),
            child_of(m, parent.0 as int, cur.0 as int) == child_of(m, parent.0 as int, child.0 as int),
        decreases cur.0,
    {
        let data = layout.get_scope(cur).unwrap();
        proof {
            assert(scope_wf(m, cur.0 as int));
        }
        cur = match data.parent_scope {
            Some(parent_scope) => parent_scope,
            None => match data.super_scope {
                Some(super_scope) => super_scope,
                None => return false,
            },
        };
    }
    true
}

/// Looks `name` up from scope `module_scope` outwards, as seen from scope `source_scope`
/// (see [`find_model`]): a private definition out of reach is `PrivateIdent`, a name no
/// searched scope defines is `ModuleNotFound`.
pub fn find_ident(
    layout: &ProgramLayout,
    source_scope: ScopeIndex,
    module_scope: ScopeIndex,
    name: &str,
    id: NodeId,
) -> (r: Result<DefIndex, ResolveError>)
    requires
        layout.wf(),
        source_scope.0 < layout@.scopes.len(),
        module_scope.0 < layout@.scopes.len(),
    ensures
        r == find_model(layout@, source_scope.0 as int, module_scope.0 as int, name@, id),
{
    let ghost m = layout@;
    let mut scope_index = module_scope;
    loop
        invariant
            layout.wf(),
            m == layout@,
            source_scope.0 < m.scopes.len(),
            scope_index.0 < m.scopes.len(),
            find_model(m, source_scope.0 as int, scope_index.0 as int, name@, id) == find_model(
                m,
                source_scope.0 as int,
                module_scope.0 as int,
                name@,
                id,
            ),
        decreases scope_index.0,
    {
        let scope = layout.get_scope(scope_index).unwrap();
        proof {
            assert(scope_wf(m, scope_index.0 as int));
        }
        match scope.defs.get(name) {
            Some(found) => {
                proof {
                    let defs = m.scopes[scope_index.0 as int].defs;
                    let i = choose|i: int| 0 <= i < defs.len() && #[trigger] defs[i].0 == name@ && defs[i].1 == *found;
                    let j = choose|j: int| 0 <= j < defs.len() && (#[trigger] defs[j]).0 == name@;
                    assert(i == j);
                }
                let private = match found.vis {
                    Visibility::Private => true,
                    Visibility::Public => false,
                };
                if private && !is_child(layout, scope_index, source_scope) {
                    return Err(ResolveError::PrivateIdent(id));
                }
                return Ok(found.data);
            },
            None => match scope.parent_scope {
                Some(parent) => {
                    scope_index = parent;
                },
                None => {
                    return Err(ResolveError::ModuleNotFound(id));
                },
            },
        }
    }
}

/// Follows the first `n` segments of `path` from scope `source_scope`.
fn resolve_prefix(layout: &ProgramLayout, source_scope: ScopeIndex, path: &[PathPart], n: usize) -> (r: Result<ScopeIndex, ResolveError>)
    requires
        layout.wf(),
        source_scope.0 < layout@.scopes.len(),
        n <= path@.len(),
    ensures
        r is Ok ==> r.unwrap().0 < layout@.scopes.len(),
        module_path_model(layout@, source_scope.0 as int, source_scope.0 as int, path_view(path@).take(n as int), true)
            == (match r {
                Ok(s) => Ok(s.0 as int),
                Err(e) => Err(e),
            }),
{
    let ghost m = layout@;
    let ghost source = source_scope.0 as int;
    let ghost parts = path_view(path@).take(n as int);
    let mut module_scope = source_scope;
    let mut leading = true;
    let mut i: usize = 0;
    assert(parts.subrange(0, n as int) =~= parts);
    while i < n
        invariant
            layout.wf(),
            m == layout@,
            n <= path@.len(),
            parts == path_view(path@).take(n as int),
            source == source_scope.0,
            source_scope.0 < m.scopes.len(),
            module_scope.0 < m.scopes.len(),
            i <= n,
            module_path_model(m, source, module_scope.0 as int, parts.subrange(i as int, n as int), leading)
                == module_path_model(m, source, source, parts, true),
        decreases n - i,
    {
        let ghost rest = parts.subrange(i as int, n as int);
        assert(rest[0] == path@[i as int]@);
        assert(rest.subrange(1, rest.len() as int) =~= parts.subrange(i + 1, n as int));
        let part = &path[i];
        proof {
            assert(scope_wf(m, module_scope.0 as int));
        }
        match &part.kind {
            PartKind::Super => {
                if !leading {
                    return Err(ResolveError::SuperInPath(part.id));
                }
                match layout.get_scope(module_scope).unwrap().super_scope {
                    None => {
                        return Err(ResolveError::SuperFromRoot(part.id));
                    },
                    Some(super_scope) => {
                        module_scope = super_scope;
                    },
                }
            },
            PartKind::Ident(name) => match find_ident(layout, source_scope, module_scope, name.as_str(), part.id) {
                Err(e) => {
                    return Err(e);
                },
                Ok(DefIndex::Module(scope_index)) => {
                    proof {
                        lemma_find_valid(m, source, module_scope.0 as int, name@, part.id);
                    }
                    module_scope = scope_index;
                    leading = false;
                },
                Ok(_) => {
                    return Err(ResolveError::NotAModule(part.id));
                },
            },
        }
        i = i + 1;
    }
    assert(parts.subrange(n as int, n as int) =~= Seq::<PartModel>::empty());
    Ok(module_scope)
}

/// A successful lookup in a well-formed layout names an entry that exists.
proof fn lemma_find_valid(m: LayoutModel, source: int, scope: int, name: Seq<char>, id: NodeId)
    requires
        layout_wf(m),
        0 <= scope < m.scopes.len(),
    ensures
        find_model(m, source, scope, name, id) matches Ok(d) ==> crate::layout::index_valid(m, d),
    decreases scope,
{
    assert(scope_wf(m, scope));
    let defs = m.scopes[scope].defs;
    if has_entry(defs, name) {
        let i = choose|i: int| 0 <= i < defs.len() && (#[trigger] defs[i]).0 == name;
        assert(crate::layout::index_valid(m, defs[i].1.data));
    } else {
        match m.scopes[scope].parent_scope {
            Some(p) => if 0 <= p.0 < scope {
                lemma_find_valid(m, source, p.0 as int, name, id);
            },
            None => {},
        }
    }
}

/// Follows a module path from scope `source_scope` (see [`module_path_model`]).
pub fn resolve_module(layout: &ProgramLayout, source_scope: ScopeIndex, path: &[PathPart]) -> (r: Result<ScopeIndex, ResolveError>)
    requires
        layout.wf(),
        source_scope.0 < layout@.scopes.len(),
    ensures
        module_path_model(layout@, source_scope.0 as int, source_scope.0 as int, path_view(path@), true)
            == (match r {
                Ok(s) => Ok(s.0 as int),
                Err(e) => Err(e),
            }),
{
    let r = resolve_prefix(layout, source_scope, path, path.len());
    assert(path_view(path@).take(path@.len() as int) =~= path_view(path@));
    r
}

/// Resolves a path to a class or function to its definition, without checking its kind.
fn resolve_item(
    layout: &ProgramLayout,
    source_scope: ScopeIndex,
    path: &[PathPart],
    name: &str,
    id: NodeId,
    for_class: bool,
) -> (r: Result<DefIndex, ResolveError>)
    requires
        layout.wf(),
        source_scope.0 < layout@.scopes.len(),
        path@.len() > 0,
        path@.last()@.name == Some(name@),
        path@.last().id == id,
    ensures
        r == item_path_model(layout@, source_scope.0 as int, path_view(path@), for_class),
{
    let n = path.len() - 1;
    let r = resolve_prefix(layout, source_scope, path, n);
    assert(path_view(path@).take(n as int) =~= path_view(path@).drop_last());
    match r {
        Err(e) => Err(e),
        Ok(module_scope) => match find_ident(layout, source_scope, module_scope, name, id) {
            Err(ResolveError::ModuleNotFound(_)) => Err(
                if for_class {
                    ResolveError::ClassNotFound(id)
                } else {
                    ResolveError::FuncNotFound(id)
                },
            ),
            other => other,
        },
    }
}

/// What a type resolves to, seen from scope `source_scope` (see [`value_model`]).
pub fn resolve_value(layout: &ProgramLayout, source_scope: ScopeIndex, class: &ConcreteType) -> (r: Result<ResolvedValue, ResolveError>)
    requires
        layout.wf(),
        source_scope.0 < layout@.scopes.len(),
    ensures
        r == value_model(layout@, source_scope.0 as int, class@.1),
{
    match &class.kind {
        TypeKind::Any => Ok(ResolvedValue::Any),
        TypeKind::NoneType => Ok(ResolvedValue::NoneValue),
        TypeKind::Bool => Ok(ResolvedValue::Bool),
        TypeKind::Int => Ok(ResolvedValue::Int),
        TypeKind::Float => Ok(ResolvedValue::Float),
        TypeKind::Str => Ok(ResolvedValue::Str),
        TypeKind::Path(path) => {
            assert(path_view(path@) =~= crate::ast::parts_view(path@));
            if path.len() == 0 {
                return Err(ResolveError::EmptyPath);
            }
            let last = &path[path.len() - 1];
            match &last.kind {
                PartKind::Super => Err(ResolveError::NotAClass(last.id)),
                PartKind::Ident(name) => match resolve_item(layout, source_scope, path.as_slice(), name.as_str(), last.id, true) {
                    Err(e) => Err(e),
                    Ok(DefIndex::Class(class_index)) => Ok(ResolvedValue::Class(class_index)),
                    Ok(_) => Err(ResolveError::NotAClass(last.id)),
                },
            }
        },
    }
}

/// What a function path resolves to, seen from scope `source_scope` (see [`func_model`]).
pub fn resolve_func(layout: &ProgramLayout, source_scope: ScopeIndex, func_path: &[PathPart]) -> (r: Result<FuncIndex, ResolveError>)
    requires
        layout.wf(),
        source_scope.0 < layout@.scopes.len(),
    ensures
        r == func_model(layout@, source_scope.0 as int, path_view(func_path@)),
{
    if func_path.len() == 0 {
        return Err(ResolveError::EmptyPath);
    }
    let last = &func_path[func_path.len() - 1];
    match &last.kind {
        PartKind::Super => Err(ResolveError::NotAFunc(last.id)),
        PartKind::Ident(name) => match resolve_item(layout, source_scope, func_path, name.as_str(), last.id, false) {
            Err(e) => Err(e),
            Ok(DefIndex::Func(func_index)) => Ok(func_index),
            Ok(_) => Err(ResolveError::NotAFunc(last.id)),
        },
    }
}

// ----- the resolved program -----

/// A resolved class: the types of its fields, and the functions defined inside it.
pub struct ClassData {
    pub fields: NamedList<Vec<ResolvedValue>>,
    pub funcs: NamedList<VisData<FuncIndex>>,
}

/// A resolved function: the types of its parameters, and of its output with the node of
/// each.
pub struct FuncData {
    pub inputs: NamedList<Vec<ResolvedValue>>,
    pub output: Vec<(NodeId, ResolvedValue)>,
}

/// A resolved statement of a function body.
pub struct ResolvedStatement {
    _action: (),
}

/// The value of a resolved class.
pub struct ResolvedClassModel {
    pub fields: Seq<(Seq<char>, Seq<ResolvedValue>)>,
    pub funcs: Seq<(Seq<char>, VisData<FuncIndex>)>,
}

/// The value of a resolved function.
pub struct ResolvedFuncModel {
    pub inputs: Seq<(Seq<char>, Seq<ResolvedValue>)>,
    pub output: Seq<(NodeId, ResolvedValue)>,
}

/// The value of a resolved program.
pub struct ResolvedModel {
    pub errors: Seq<ResolveError>,
    pub classes: Seq<ResolvedClassModel>,
    pub funcs: Seq<ResolvedFuncModel>,
}

/// Named type lists by value.
pub open spec fn types_view(e: Seq<(Seq<char>, Vec<ResolvedValue>)>) -> Seq<(Seq<char>, Seq<ResolvedValue>)> {
    Seq::new(e.len(), |i: int| (e[i].0, e[i].1@))
}

proof fn lemma_types_view_set(e: Seq<(Seq<char>, Vec<ResolvedValue>)>, name: Seq<char>, v: Vec<ResolvedValue>)
    ensures
        types_view(set_entry(e, name, v)) == set_entry(types_view(e), name, v@),
{
    let f = |x: Vec<ResolvedValue>| x@;
    lemma_set_entry_map(e, name, v, f);
    assert(types_view(set_entry(e, name, v)) =~= map_entries(set_entry(e, name, v), f));
    assert(types_view(e) =~= map_entries(e, f));
}

impl View for ClassData {
    type V = ResolvedClassModel;

    open spec fn view(&self) -> ResolvedClassModel {
        ResolvedClassModel { fields: types_view(self.fields@), funcs: self.funcs@ }
    }
}

impl View for FuncData {
    type V = ResolvedFuncModel;

    open spec fn view(&self) -> ResolvedFuncModel {
        ResolvedFuncModel { inputs: types_view(self.inputs@), output: self.output@ }
    }
}

/// Resolves the types of a union from scope `scope`: the values that resolved, in order,
/// and the errors of those that did not.
pub open spec fn resolve_types(m: LayoutModel, scope: int, types: Seq<(NodeId, TypeModel)>) -> (Seq<ResolvedValue>, Seq<ResolveError>)
    decreases types.len(),
{
    if types.len() == 0 {
        (Seq::empty(), Seq::empty())
    } else {
        let (vs, es) = resolve_types(m, scope, types.drop_last());
        match value_model(m, scope, types.last().1) {
            Ok(v) => (vs.push(v), es),
            Err(e) => (vs, es.push(e)),
        }
    }
}

/// Like [`resolve_types`], keeping the node of each type that resolved.
pub open spec fn resolve_output(m: LayoutModel, scope: int, types: Seq<(NodeId, TypeModel)>) -> (Seq<(NodeId, ResolvedValue)>, Seq<ResolveError>)
    decreases types.len(),
{
    if types.len() == 0 {
        (Seq::empty(), Seq::empty())
    } else {
        let (vs, es) = resolve_output(m, scope, types.drop_last());
        match value_model(m, scope, types.last().1) {
            Ok(v) => (vs.push((types.last().0, v)), es),
            Err(e) => (vs, es.push(e)),
        }
    }
}

/// Resolves named unions from scope `scope`, in order: each name set to the values that
/// resolved, with all the errors.
pub open spec fn resolve_named(m: LayoutModel, scope: int, entries: Seq<(Seq<char>, UnionModel)>) -> (Seq<(Seq<char>, Seq<ResolvedValue>)>, Seq<ResolveError>)
    decreases entries.len(),
{
    if entries.len() == 0 {
        (Seq::empty(), Seq::empty())
    } else {
        let (fs, es) = resolve_named(m, scope, entries.drop_last());
        let (vs, es2) = resolve_types(m, scope, entries.last().1.types);
        (set_entry(fs, entries.last().0, vs), es + es2)
    }
}

/// The functions among the definitions of a scope, in order.
pub open spec fn scope_funcs(defs: Seq<(Seq<char>, VisData<DefIndex>)>) -> Seq<(Seq<char>, VisData<FuncIndex>)>
    decreases defs.len(),
{
    if defs.len() == 0 {
        Seq::empty()
    } else {
        let rest = scope_funcs(defs.drop_last());
        let (name, d) = defs.last();
        match d.data {
            DefIndex::Func(f) => set_entry(rest, name, VisData { vis: d.vis, id: d.id, data: f }),
            _ => rest,
        }
    }
}

/// Resolves a class: its fields from the scope it is defined in, and the functions of its
/// own scope.
pub open spec fn resolve_class(m: LayoutModel, c: ClassModel) -> (ResolvedClassModel, Seq<ResolveError>) {
    let unions = Seq::new(c.fields.len(), |i: int| (c.fields[i].0, c.fields[i].1.data));
    let (fields, es) = resolve_named(m, c.parent_scope.0 as int, unions);
    (ResolvedClassModel { fields, funcs: scope_funcs(m.scopes[c.inner_scope.0 as int].defs) }, es)
}

/// Resolves a function from the scope it is defined in: its output, then its parameters.
pub open spec fn resolve_func_data(m: LayoutModel, f: FuncModel) -> (ResolvedFuncModel, Seq<ResolveError>) {
    let (output, es1) = resolve_output(m, f.parent_scope.0 as int, f.output.types);
    let (inputs, es2) = resolve_named(m, f.parent_scope.0 as int, f.parameters);
    (ResolvedFuncModel { inputs, output }, es1 + es2)
}

/// Resolves classes in order, collecting their errors.
pub open spec fn resolve_classes(m: LayoutModel, cs: Seq<ClassModel>) -> (Seq<ResolvedClassModel>, Seq<ResolveError>)
    decreases cs.len(),
{
    if cs.len() == 0 {
        (Seq::empty(), Seq::empty())
    } else {
        let (rs, es) = resolve_classes(m, cs.drop_last());
        let (r, es2) = resolve_class(m, cs.last());
        (rs.push(r), es + es2)
    }
}

/// Resolves functions in order, collecting their errors.
pub open spec fn resolve_funcs(m: LayoutModel, fs: Seq<FuncModel>) -> (Seq<ResolvedFuncModel>, Seq<ResolveError>)
    decreases fs.len(),
{
    if fs.len() == 0 {
        (Seq::empty(), Seq::empty())
    } else {
        let (rs, es) = resolve_funcs(m, fs.drop_last());
        let (r, es2) = resolve_func_data(m, fs.last());
        (rs.push(r), es + es2)
    }
}

/// The resolved program of a layout: every class, then every function; the errors in
/// the order they were met.
pub open spec fn resolve_model(m: LayoutModel) -> ResolvedModel {
    let (classes, es1) = resolve_classes(m, m.classes);
    let (funcs, es2) = resolve_funcs(m, m.funcs);
    ResolvedModel { errors: es1 + es2, classes, funcs }
}

/// Resolution keeps the tables of a layout: one resolved class per class, one resolved
/// function per function, by the same indices.
pub proof fn lemma_resolve_counts(m: LayoutModel)
    ensures
        resolve_model(m).classes.len() == m.classes.len(),
        resolve_model(m).funcs.len() == m.funcs.len(),
{
    lemma_resolve_classes_len(m, m.classes);
    lemma_resolve_funcs_len(m, m.funcs);
}

proof fn lemma_resolve_classes_len(m: LayoutModel, cs: Seq<ClassModel>)
    ensures
        resolve_classes(m, cs).0.len() == cs.len(),
    decreases cs.len(),
{
    if cs.len() > 0 {
        lemma_resolve_classes_len(m, cs.drop_last());
    }
}

proof fn lemma_resolve_funcs_len(m: LayoutModel, fs: Seq<FuncModel>)
    ensures
        resolve_funcs(m, fs).0.len() == fs.len(),
    decreases fs.len(),
{
    if fs.len() > 0 {
        lemma_resolve_funcs_len(m, fs.drop_last());
    }
}

/// The classes and functions of a program with every type resolved, and the errors met.
pub struct ResolvedProgram {
    errors: Vec<ResolveError>,
    classes: Vec<ClassData>,
    funcs: Vec<FuncData>,
}

impl View for ResolvedProgram {
    type V = ResolvedModel;

    closed spec fn view(&self) -> ResolvedModel {
        ResolvedModel {
            errors: self.errors@,
            classes: self.classes@.map_values(|c: ClassData| c@),
            funcs: self.funcs@.map_values(|f: FuncData| f@),
        }
    }
}

/// Resolves the types of a union from scope `scope`, adding errors to `errors`.
fn resolve_union(layout: &ProgramLayout, scope: ScopeIndex, types: &Vec<ConcreteType>, errors: &mut Vec<ResolveError>) -> (r: Vec<ResolvedValue>)
    requires
        layout.wf(),
        scope.0 < layout@.scopes.len(),
    ensures
        ({
            let (vs, es) = resolve_types(layout@, scope.0 as int, types@.map_values(|t: ConcreteType| t@));
            r@ == vs && final(errors)@ == old(errors)@ + es
        }),
{
    let ghost ts = types@.map_values(|t: ConcreteType| t@);
    let mut values: Vec<ResolvedValue> = Vec::new();
    let mut i: usize = 0;
    while i < types.len()
        invariant
            layout.wf(),
            scope.0 < layout@.scopes.len(),
            ts == types@.map_values(|t: ConcreteType| t@),
            i <= types.len(),
            ({
                let (vs, es) = resolve_types(layout@, scope.0 as int, ts.subrange(0, i as int));
                values@ == vs && errors@ == old(errors)@ + es
            }),
        decreases types.len() - i,
    {
        assert(ts.subrange(0, i + 1).drop_last() =~= ts.subrange(0, i as int));
        assert(ts.subrange(0, i + 1).last() == types@[i as int]@);
        match resolve_value(layout, scope, &types[i]) {
            Ok(v) => values.push(v),
            Err(e) => {
                errors.push(e);
                proof {
                    let (vs, es) = resolve_types(layout@, scope.0 as int, ts.subrange(0, i as int));
                    assert(old(errors)@ + es.push(e) =~= (old(errors)@ + es).push(e));
                }
            },
        }
        i = i + 1;
    }
    assert(ts.subrange(0, i as int) =~= ts);
    values
}

/// Like [`resolve_union`], keeping the node of each type that resolved.
fn resolve_output_types(layout: &ProgramLayout, scope: ScopeIndex, types: &Vec<ConcreteType>, errors: &mut Vec<ResolveError>) -> (r: Vec<(NodeId, ResolvedValue)>)
    requires
        layout.wf(),
        scope.0 < layout@.scopes.len(),
    ensures
        ({
            let (vs, es) = resolve_output(layout@, scope.0 as int, types@.map_values(|t: ConcreteType| t@));
            r@ == vs && final(errors)@ == old(errors)@ + es
        }),
{
    let ghost ts = types@.map_values(|t: ConcreteType| t@);
    let mut values: Vec<(NodeId, ResolvedValue)> = Vec::new();
    let mut i: usize = 0;
    while i < types.len()
        invariant
            layout.wf(),
            scope.0 < layout@.scopes.len(),
            ts == types@.map_values(|t: ConcreteType| t@),
            i <= types.len(),
            ({
                let (vs, es) = resolve_output(layout@, scope.0 as int, ts.subrange(0, i as int));
                values@ == vs && errors@ == old(errors)@ + es
            }),
        decreases types.len() - i,
    {
        assert(ts.subrange(0, i + 1).drop_last() =~= ts.subrange(0, i as int));
        assert(ts.subrange(0, i + 1).last() == types@[i as int]@);
        match resolve_value(layout, scope, &types[i]) {
            Ok(v) => values.push((types[i].id, v)),
            Err(e) => {
                errors.push(e);
                proof {
                    let (vs, es) = resolve_output(layout@, scope.0 as int, ts.subrange(0, i as int));
                    assert(old(errors)@ + es.push(e) =~= (old(errors)@ + es).push(e));
                }
            },
        }
        i = i + 1;
    }
    assert(ts.subrange(0, i as int) =~= ts);
    values
}

/// Resolves the fields of a class from scope `scope`, adding errors to `errors`.
fn resolve_fields(
    layout: &ProgramLayout,
    scope: ScopeIndex,
    fields: &NamedList<VisData<PathUnion>>,
    errors: &mut Vec<ResolveError>,
) -> (r: NamedList<Vec<ResolvedValue>>)
    requires
        layout.wf(),
        scope.0 < layout@.scopes.len(),
        fields.wf(),
    ensures
        r.wf(),
        ({
            let fv = fields_view(fields@);
            let unions = Seq::new(fv.len(), |i: int| (fv[i].0, fv[i].1.data));
            let (fs, es) = resolve_named(layout@, scope.0 as int, unions);
            types_view(r@) == fs && final(errors)@ == old(errors)@ + es
        }),
{
    let ghost fv = fields_view(fields@);
    let ghost unions = Seq::new(fv.len(), |i: int| (fv[i].0, fv[i].1.data));
    let mut out: NamedList<Vec<ResolvedValue>> = NamedList::new();
    let n = fields.len();
    let mut i: usize = 0;
    while i < n
        invariant
            layout.wf(),
            scope.0 < layout@.scopes.len(),
            fields.wf(),
            n == fields@.len(),
            fv == fields_view(fields@),
            unions == Seq::new(fv.len(), |i: int| (fv[i].0, fv[i].1.data)),
            out.wf(),
            i <= n,
            ({
                let (fs, es) = resolve_named(layout@, scope.0 as int, unions.subrange(0, i as int));
                types_view(out@) == fs && errors@ == old(errors)@ + es
            }),
        decreases n - i,
    {
        assert(unions.subrange(0, i + 1).drop_last() =~= unions.subrange(0, i as int));
        let (name, field) = fields.get_index(i).unwrap();
        assert(unions.subrange(0, i + 1).last() == (name@, field.data@));
        let ghost before = errors@;
        let values = resolve_union(layout, scope, &field.data.types, errors);
        proof {
            let (fs, es) = resolve_named(layout@, scope.0 as int, unions.subrange(0, i as int));
            let (vs, es2) = resolve_types(layout@, scope.0 as int, field.data@.types);
            assert(old(errors)@ + (es + es2) =~= before + es2);
            lemma_types_view_set(out@, name@, values);
        }
        out.set(name, values);
        i = i + 1;
    }
    assert(unions.subrange(0, i as int) =~= unions);
    out
}

/// Resolves the parameters of a function from scope `scope`, adding errors to `errors`.
fn resolve_params(
    layout: &ProgramLayout,
    scope: ScopeIndex,
    params: &NamedList<PathUnion>,
    errors: &mut Vec<ResolveError>,
) -> (r: NamedList<Vec<ResolvedValue>>)
    requires
        layout.wf(),
        scope.0 < layout@.scopes.len(),
        params.wf(),
    ensures
        r.wf(),
        ({
            let (fs, es) = resolve_named(layout@, scope.0 as int, params_view(params@));
            types_view(r@) == fs && final(errors)@ == old(errors)@ + es
        }),
{
    let ghost pv = params_view(params@);
    let mut out: NamedList<Vec<ResolvedValue>> = NamedList::new();
    let n = params.len();
    let mut i: usize = 0;
    while i < n
        invariant
            layout.wf(),
            scope.0 < layout@.scopes.len(),
            params.wf(),
            n == params@.len(),
            pv == params_view(params@),
            out.wf(),
            i <= n,
            ({
                let (fs, es) = resolve_named(layout@, scope.0 as int, pv.subrange(0, i as int));
                types_view(out@) == fs && errors@ == old(errors)@ + es
            }),
        decreases n - i,
    {
        assert(pv.subrange(0, i + 1).drop_last() =~= pv.subrange(0, i as int));
        let (name, union) = params.get_index(i).unwrap();
        assert(pv.subrange(0, i + 1).last() == (name@, union@));
        let ghost before = errors@;
        let values = resolve_union(layout, scope, &union.types, errors);
        proof {
            let (fs, es) = resolve_named(layout@, scope.0 as int, pv.subrange(0, i as int));
            let (vs, es2) = resolve_types(layout@, scope.0 as int, union@.types);
            assert(old(errors)@ + (es + es2) =~= before + es2);
            lemma_types_view_set(out@, name@, values);
        }
        out.set(name, values);
        i = i + 1;
    }
    assert(pv.subrange(0, i as int) =~= pv);
    out
}

/// The functions defined in a scope, in order.
fn collect_funcs(defs: &NamedList<VisData<DefIndex>>) -> (r: NamedList<VisData<FuncIndex>>)
    requires
        defs.wf(),
    ensures
        r.wf(),
        r@ == scope_funcs(defs@),
{
    let mut out: NamedList<VisData<FuncIndex>> = NamedList::new();
    let n = defs.len();
    let mut i: usize = 0;
    while i < n
        invariant
            defs.wf(),
            n == defs@.len(),
            out.wf(),
            i <= n,
            out@ == scope_funcs(defs@.subrange(0, i as int)),
        decreases n - i,
    {
        assert(defs@.subrange(0, i + 1).drop_last() =~= defs@.subrange(0, i as int));
        let (name, d) = defs.get_index(i).unwrap();
        assert(defs@.subrange(0, i + 1).last() == (name@, *d));
        match d.data {
            DefIndex::Func(f) => {
                out.set(name, VisData { vis: d.vis, id: d.id, data: f });
            },
            _ => {},
        }
        i = i + 1;
    }
    assert(defs@.subrange(0, i as int) =~= defs@);
    out
}

impl ResolvedProgram {
    /// The name lists of its classes and functions are well formed.
    pub closed spec fn wf(&self) -> bool {
        &&& forall|k: int| 0 <= k < self.classes@.len() ==> (#[trigger] self.classes@[k]).fields.wf()
        &&& forall|k: int| 0 <= k < self.funcs@.len() ==> (#[trigger] self.funcs@[k]).inputs.wf()
    }

    /// Resolves every class and then every function of a layout (see [`resolve_model`]).
    pub fn resolve(layout: &ProgramLayout) -> (r: Self)
        requires
            layout.wf(),
        ensures
            r.wf(),
            r@ == resolve_model(layout@),
    {
        let ghost m = layout@;
        let mut errors: Vec<ResolveError> = Vec::new();
        let mut classes: Vec<ClassData> = Vec::new();
        let mut funcs: Vec<FuncData> = Vec::new();

        let layout_classes = layout.classes();
        let mut i: usize = 0;
        while i < layout_classes.len()
            invariant
                layout.wf(),
                m == layout@,
                layout_classes@.map_values(|c: LayoutClass| c@) == m.classes,
                forall|k: int| 0 <= k < layout_classes@.len() ==> (#[trigger] layout_classes@[k]).fields.wf(),
                forall|k: int| 0 <= k < classes@.len() ==> (#[trigger] classes@[k]).fields.wf(),
                i <= layout_classes@.len(),
                ({
                    let (rs, es) = resolve_classes(m, m.classes.subrange(0, i as int));
                    classes@.map_values(|c: ClassData| c@) == rs && errors@ == es
                }),
            decreases layout_classes@.len() - i,
        {
            let class_data = &layout_classes[i];
            proof {
                assert(m.classes[i as int] == class_data@);
                assert(m.classes.subrange(0, i + 1).drop_last() =~= m.classes.subrange(0, i as int));
                assert(class_wf(m, i as int));
                assert(scope_wf(m, class_data.inner_scope.0 as int));
            }
            let ghost before = errors@;
            let fields = resolve_fields(layout, class_data.parent_scope, &class_data.fields, &mut errors);
            let inner = layout.get_scope(class_data.inner_scope).unwrap();
            let class_funcs = collect_funcs(&inner.defs);
            let ghost before_classes = classes@;
            classes.push(ClassData { fields, funcs: class_funcs });
            proof {
                let (rs, es) = resolve_classes(m, m.classes.subrange(0, i as int));
                let (r, es2) = resolve_class(m, class_data@);
                assert(classes@.map_values(|c: ClassData| c@) =~= before_classes.map_values(|c: ClassData| c@).push(r));
                assert(errors@ =~= es + es2);
            }
            i = i + 1;
        }
        assert(m.classes.subrange(0, i as int) =~= m.classes);

        let ghost class_errors = errors@;
        let layout_funcs = layout.funcs();
        let mut j: usize = 0;
        while j < layout_funcs.len()
            invariant
                layout.wf(),
                m == layout@,
                layout_funcs@.map_values(|f: LayoutFunc| f@) == m.funcs,
                forall|k: int| 0 <= k < layout_funcs@.len() ==> (#[trigger] layout_funcs@[k]).parameters.wf(),
                forall|k: int| 0 <= k < classes@.len() ==> (#[trigger] classes@[k]).fields.wf(),
                forall|k: int| 0 <= k < funcs@.len() ==> (#[trigger] funcs@[k]).inputs.wf(),
                j <= layout_funcs@.len(),
                ({
                    let (rs, es) = resolve_funcs(m, m.funcs.subrange(0, j as int));
                    funcs@.map_values(|f: FuncData| f@) == rs && errors@ == class_errors + es
                }),
            decreases layout_funcs@.len() - j,
        {
            let func_data = &layout_funcs[j];
            proof {
                assert(m.funcs[j as int] == func_data@);
                assert(m.funcs.subrange(0, j + 1).drop_last() =~= m.funcs.subrange(0, j as int));
                assert(func_wf(m, j as int));
            }
            let ghost before = errors@;
            let output = resolve_output_types(layout, func_data.parent_scope, &func_data.output.types, &mut errors);
            let inputs = resolve_params(layout, func_data.parent_scope, &func_data.parameters, &mut errors);
            let ghost before_funcs = funcs@;
            funcs.push(FuncData { inputs, output });
            proof {
                let (rs, es) = resolve_funcs(m, m.funcs.subrange(0, j as int));
                let (r, es2) = resolve_func_data(m, func_data@);
                assert(funcs@.map_values(|f: FuncData| f@) =~= before_funcs.map_values(|f: FuncData| f@).push(r));
                assert(errors@ =~= class_errors + (es + es2));
            }
            j = j + 1;
        }
        assert(m.funcs.subrange(0, j as int) =~= m.funcs);
        let r = ResolvedProgram { errors, classes, funcs };
        proof {
            let (cs, es1) = resolve_classes(m, m.classes);
            let (fs, es2) = resolve_funcs(m, m.funcs);
            assert(r@.errors =~= es1 + es2);
            assert(r@.classes =~= cs);
            assert(r@.funcs =~= fs);
        }
        r
    }

    /// The errors met, in order.
    pub fn errors(&self) -> (r: &[ResolveError])
        ensures
            r@ == self@.errors,
    {
        self.errors.as_slice()
    }

    /// The resolved classes, by class index.
    pub fn classes(&self) -> (r: &[ClassData])
        ensures
            r@.map_values(|c: ClassData| c@) == self@.classes,
            self.wf() ==> forall|k: int| 0 <= k < r@.len() ==> (#[trigger] r@[k]).fields.wf(),
    {
        self.classes.as_slice()
    }

    /// The resolved functions, by function index.
    pub fn funcs(&self) -> (r: &[FuncData])
        ensures
            r@.map_values(|f: FuncData| f@) == self@.funcs,
            self.wf() ==> forall|k: int| 0 <= k < r@.len() ==> (#[trigger] r@[k]).inputs.wf(),
    {
        self.funcs.as_slice()
    }

    /// A resolved class, if the index is valid.
    pub fn get_class(&self, index: ClassIndex) -> (r: Option<&ClassData>)
        ensures
            index.0 < self@.classes.len() ==> r is Some && r.unwrap()@ == self@.classes[index.0 as int],
            index.0 >= self@.classes.len() ==> r is None,
    {
        if index.raw() < self.classes.len() {
            Some(&self.classes[index.raw()])
        } else {
            None
        }
    }

    /// A resolved function, if the index is valid.
    pub fn get_func(&self, index: FuncIndex) -> (r: Option<&FuncData>)
        ensures
            index.0 < self@.funcs.len() ==> r is Some && r.unwrap()@ == self@.funcs[index.0 as int],
            index.0 >= self@.funcs.len() ==> r is None,
    {
        if index.raw() < self.funcs.len() {
            Some(&self.funcs[index.raw()])
        } else {
            None
        }
    }
}


} // verus!
