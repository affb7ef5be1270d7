//! Building a program by hand: a tree of modules holding pearls (record types) whose
//! fields name other pearls by module paths, resolved when the program is built.
use vstd::prelude::*;

use crate::name_map::{entry_value, has_name, NameIndex, NamedList};
use crate::symbols::same_text;

verus! {

/// An error found while building a program.
#[derive(Debug, Clone, PartialEq, Eq)]
pub enum BuildError {
    /// A field type with no path segment.
    EmptyPath,
    /// `super` in the root module.
    SuperFromRoot,
    /// `root` anywhere but at the start of a path.
    InvalidRootKeyword,
    ModuleDoesNotExist(String),
    PearlDoesNotExist(String),
}

/// The value of a [`BuildError`].
pub enum BuildErrorModel {
    EmptyPath,
    SuperFromRoot,
    InvalidRootKeyword,
    ModuleDoesNotExist(Seq<char>),
    PearlDoesNotExist(Seq<char>),
}

impl View for BuildError {
    type V = BuildErrorModel;

    open spec fn view(&self) -> BuildErrorModel {
        match self {
            BuildError::EmptyPath => BuildErrorModel::EmptyPath,
            BuildError::SuperFromRoot => BuildErrorModel::SuperFromRoot,
            BuildError::InvalidRootKeyword => BuildErrorModel::InvalidRootKeyword,
            BuildError::ModuleDoesNotExist(s) => BuildErrorModel::ModuleDoesNotExist(s@),
            BuildError::PearlDoesNotExist(s) => BuildErrorModel::PearlDoesNotExist(s@),
        }
    }
}

/// The values of a list of errors.
pub open spec fn build_errors_view(es: Seq<BuildError>) -> Seq<BuildErrorModel> {
    Seq::new(es.len(), |i: int| es[i]@)
}

struct ModuleData {
    parent: Option<usize>,
    children: NameIndex,
    pearls: NameIndex,
}

struct PearlData {
    module: usize,
    fields: NamedList<Vec<Vec<String>>>,
}

/// The value of a module: its parent, and its child modules and pearls by name.
pub struct ModuleModel {
    pub parent: Option<usize>,
    pub children: Seq<(Seq<char>, usize)>,
    pub pearls: Seq<(Seq<char>, usize)>,
}

/// The value of a pearl: the module it is in, and its fields, each a union of paths.
pub struct PearlModel {
    pub module: usize,
    pub fields: Seq<(Seq<char>, Seq<Seq<Seq<char>>>)>,
}

/// The value of a program being built.
pub struct BuilderModel {
    pub modules: Seq<ModuleModel>,
    pub pearls: Seq<PearlModel>,
}

/// A path by value.
pub open spec fn path_view(p: Seq<String>) -> Seq<Seq<char>> {
    Seq::new(p.len(), |j: int| p[j]@)
}

/// A union of paths by value.
pub open spec fn union_view(u: Seq<Vec<String>>) -> Seq<Seq<Seq<char>>> {
    Seq::new(u.len(), |i: int| path_view(u[i]@))
}

/// Fields by value.
pub open spec fn fields_view(f: Seq<(Seq<char>, Vec<Vec<String>>)>) -> Seq<(Seq<char>, Seq<Seq<Seq<char>>>)> {
    Seq::new(f.len(), |i: int| (f[i].0, union_view(f[i].1@)))
}

/// A program being built: modules and pearls, each found by its index.
pub struct ProgramBuilder {
    modules: Vec<ModuleData>,
    pearls: Vec<PearlData>,
}

impl View for ProgramBuilder {
    type V = BuilderModel;

    closed spec fn view(&self) -> BuilderModel {
        BuilderModel {
            modules: Seq::new(
                self.modules@.len(),
                |i: int|
                    ModuleModel {
                        parent: self.modules@[i].parent,
                        children: self.modules@[i].children@,
                        pearls: self.modules@[i].pearls@,
                    },
            ),
            pearls: Seq::new(
                self.pearls@.len(),
                |i: int| PearlModel { module: self.pearls@[i].module, fields: fields_view(self.pearls@[i].fields@) },
            ),
        }
    }
}

/// Every index in `b` names a module or pearl that exists, and names are unique.
pub open spec fn builder_wf(b: BuilderModel) -> bool {
    &&& forall|m: int| 0 <= m < b.modules.len() ==> #[trigger] module_wf(b, m)
    &&& forall|p: int| 0 <= p < b.pearls.len() ==> (#[trigger] b.pearls[p]).module < b.modules.len()
}

/// Module `m` of `b` refers to modules and pearls that exist, by unique names.
pub open spec fn module_wf(b: BuilderModel, m: int) -> bool {
    let d = b.modules[m];
    &&& (d.parent matches Some(p) ==> p < b.modules.len())
    &&& forall|i: int| 0 <= i < d.children.len() ==> (#[trigger] d.children[i]).1 < b.modules.len()
    &&& forall|i: int| 0 <= i < d.pearls.len() ==> (#[trigger] d.pearls[i]).1 < b.pearls.len()
    &&& forall|i: int, j: int| 0 <= i < j < d.children.len() ==> d.children[i].0 != d.children[j].0
    &&& forall|i: int, j: int| 0 <= i < j < d.pearls.len() ==> d.pearls[i].0 != d.pearls[j].0
}

impl ProgramBuilder {
    /// The name lists are well formed.
    pub closed spec fn inv(&self) -> bool {
        &&& forall|i: int| 0 <= i < self.modules@.len() ==> (#[trigger] self.modules@[i]).children.wf()
        &&& forall|i: int| 0 <= i < self.modules@.len() ==> (#[trigger] self.modules@[i]).pearls.wf()
        &&& forall|i: int| 0 <= i < self.pearls@.len() ==> (#[trigger] self.pearls@[i]).fields.wf()
    }

    /// A well-formed builder (see [`builder_wf`]).
    pub open spec fn wf(&self) -> bool {
        self.inv() && builder_wf(self@)
    }

    /// No modules and no pearls.
    pub fn new() -> (b: Self)
        ensures
            b.wf(),
            b@.modules.len() == 0,
            b@.pearls.len() == 0,
    {
        let b = ProgramBuilder { modules: Vec::new(), pearls: Vec::new() };
        assert(b@.modules.len() == 0);
        b
    }

    /// The root module, module 0, made first if there is none.
    pub fn root_module(&mut self) -> (m: ModuleBuilder)
        requires
            old(self).wf(),
        ensures
            final(self).wf(),
            m.index == 0,
            final(self)@.modules.len() > 0,
            old(self)@.modules.len() > 0 ==> final(self)@ == old(self)@,
            old(self)@.modules.len() == 0 ==> final(self)@ == (BuilderModel {
                modules: seq![ModuleModel { parent: None, children: Seq::empty(), pearls: Seq::empty() }],
                pearls: old(self)@.pearls,
            }),
    {
        if self.modules.len() == 0 {
            self.modules.push(ModuleData { parent: None, children: NameIndex::new(), pearls: NameIndex::new() });
            proof {
                let b = self@;
                assert(b.modules =~= seq![ModuleModel { parent: None, children: Seq::empty(), pearls: Seq::empty() }]);
                assert(module_wf(b, 0));
                assert(b.pearls =~= old(self)@.pearls);
            }
        }
        ModuleBuilder { index: 0 }
    }
}

/// A module of a [`ProgramBuilder`], by index.
#[derive(Debug, Clone, Copy)]
pub struct ModuleBuilder {
    pub index: usize,
}

/// A pearl of a [`ProgramBuilder`], by index.
#[derive(Debug, Clone, Copy)]
pub struct PearlBuilder {
    pub index: usize,
}

/// A field of a pearl of a [`ProgramBuilder`], by the pearl's index and the field's
/// position.
#[derive(Debug, Clone, Copy)]
pub struct FieldBuilder {
    pub pearl: usize,
    pub field: usize,
}

/// An empty module with a parent.
pub open spec fn new_module(parent: usize) -> ModuleModel {
    ModuleModel { parent: Some(parent), children: Seq::empty(), pearls: Seq::empty() }
}

/// The entry named `name`, where there is one.
pub open spec fn lookup(e: Seq<(Seq<char>, usize)>, name: Seq<char>) -> Option<usize> {
    if has_name(e, name) {
        Some(entry_value(e, name))
    } else {
        None
    }
}

/// A lookup in a name index with unique names finds the one entry of that name.
proof fn lemma_lookup(e: Seq<(Seq<char>, usize)>, name: Seq<char>, i: int)
    requires
        0 <= i < e.len(),
        e[i].0 == name,
        forall|a: int, b: int| 0 <= a < b < e.len() ==> e[a].0 != e[b].0,
    ensures
        lookup(e, name) == Some(e[i].1),
{
    let j = choose|j: int| 0 <= j < e.len() && (#[trigger] e[j]).0 == name;
    assert(j == i);
}

impl ModuleBuilder {
    /// The module's index.
    pub fn id(&self) -> (r: usize)
        ensures
            r == self.index,
    {
        self.index
    }

    /// The module's parent, if it has one.
    pub fn parent(&self, program: &ProgramBuilder) -> (r: Option<ModuleBuilder>)
        requires
            self.index < program@.modules.len(),
        ensures
            r == (match program@.modules[self.index as int].parent {
                Some(p) => Some(ModuleBuilder { index: p }),
                None => None,
            }),
    {
        match program.modules[self.index].parent {
            Some(p) => Some(ModuleBuilder { index: p }),
            None => None,
        }
    }

    /// The child module named `name`, if there is one.
    pub fn get_module(&self, program: &ProgramBuilder, name: &str) -> (r: Option<ModuleBuilder>)
        requires
            program.wf(),
            self.index < program@.modules.len(),
        ensures
            r == (match lookup(program@.modules[self.index as int].children, name@) {
                Some(i) => Some(ModuleBuilder { index: i }),
                None => None,
            }),
    {
        proof {
            assert(module_wf(program@, self.index as int));
        }
        match program.modules[self.index].children.get(name) {
            Some(i) => {
                proof {
                    let e = program@.modules[self.index as int].children;
                    let k = choose|k: int| 0 <= k < e.len() && #[trigger] e[k] == (name@, i);
                    lemma_lookup(e, name@, k);
                }
                Some(ModuleBuilder { index: i })
            },
            None => None,
        }
    }

    /// The pearl named `name` in this module, if there is one.
    pub fn get_pearl(&self, program: &ProgramBuilder, name: &str) -> (r: Option<PearlBuilder>)
        requires
            program.wf(),
            self.index < program@.modules.len(),
        ensures
            r == (match lookup(program@.modules[self.index as int].pearls, name@) {
                Some(i) => Some(PearlBuilder { index: i }),
                None => None,
            }),
    {
        proof {
            assert(module_wf(program@, self.index as int));
        }
        match program.modules[self.index].pearls.get(name) {
            Some(i) => {
                proof {
                    let e = program@.modules[self.index as int].pearls;
                    let k = choose|k: int| 0 <= k < e.len() && #[trigger] e[k] == (name@, i);
                    lemma_lookup(e, name@, k);
                }
                Some(PearlBuilder { index: i })
            },
            None => None,
        }
    }

    /// Makes a child module named `name`, the next module, unless the name is taken.
    pub fn create_module(&self, program: &mut ProgramBuilder, name: String) -> (r: Option<ModuleBuilder>)
        requires
            old(program).wf(),
            self.index < old(program)@.modules.len(),
        ensures
            final(program).wf(),
            has_name(old(program)@.modules[self.index as int].children, name@) ==> r is None && final(program)@
                == old(program)@,
            !has_name(old(program)@.modules[self.index as int].children, name@) ==> {
                let old_m = old(program)@.modules[self.index as int];
                let n = old(program)@.modules.len();
                &&& r matches Some(mb) && mb.index == n
                &&& final(program)@ == (BuilderModel {
                    modules: old(program)@.modules.update(
                        self.index as int,
                        ModuleModel { children: old_m.children.push((name@, r.unwrap().index)), ..old_m },
                    ).push(new_module(self.index)),
                    pearls: old(program)@.pearls,
                })
            },
    {
        let next_index = program.modules.len();
        let i = self.index;
        let added = program.modules[i].children.insert_new(name, next_index);
        if !added {
            proof {
                assert(program@.modules =~= old(program)@.modules);
                assert(program@.pearls =~= old(program)@.pearls);
            }
            return None;
        }
        program.modules.push(ModuleData { parent: Some(i), children: NameIndex::new(), pearls: NameIndex::new() });
        proof {
            let b = program@;
            let old_b = old(program)@;
            let old_m = old_b.modules[i as int];
            assert(b.modules =~= old_b.modules.update(
                i as int,
                ModuleModel { children: old_m.children.push((name@, next_index)), ..old_m },
            ).push(new_module(i)));
            assert(b.pearls =~= old_b.pearls);
            assert forall|m: int| 0 <= m < b.modules.len() implies #[trigger] module_wf(b, m) by {
                if m < old_b.modules.len() {
                    assert(module_wf(old_b, m));
                }
            }
        }
        Some(ModuleBuilder { index: next_index })
    }

    /// Makes a pearl named `name` in this module, the next pearl, unless the name is taken.
    pub fn create_pearl(&self, program: &mut ProgramBuilder, name: String) -> (r: Option<PearlBuilder>)
        requires
            old(program).wf(),
            self.index < old(program)@.modules.len(),
        ensures
            final(program).wf(),
            has_name(old(program)@.modules[self.index as int].pearls, name@) ==> r is None && final(program)@
                == old(program)@,
            !has_name(old(program)@.modules[self.index as int].pearls, name@) ==> {
                let old_m = old(program)@.modules[self.index as int];
                let n = old(program)@.pearls.len();
                &&& r matches Some(pb) && pb.index == n
                &&& final(program)@ == (BuilderModel {
                    modules: old(program)@.modules.update(
                        self.index as int,
                        ModuleModel { pearls: old_m.pearls.push((name@, r.unwrap().index)), ..old_m },
                    ),
                    pearls: old(program)@.pearls.push(PearlModel { module: self.index, fields: Seq::empty() }),
                })
            },
    {
        let next_index = program.pearls.len();
        let i = self.index;
        let added = program.modules[i].pearls.insert_new(name, next_index);
        if !added {
            proof {
                assert(program@.modules =~= old(program)@.modules);
                assert(program@.pearls =~= old(program)@.pearls);
            }
            return None;
        }
        program.pearls.push(PearlData { module: i, fields: NamedList::new() });
        proof {
            let b = program@;
            let old_b = old(program)@;
            let old_m = old_b.modules[i as int];
            assert(b.modules =~= old_b.modules.update(
                i as int,
                ModuleModel { pearls: old_m.pearls.push((name@, next_index)), ..old_m },
            ));
            assert(fields_view(program.pearls@[next_index as int].fields@) =~= Seq::empty());
            assert(b.pearls =~= old_b.pearls.push(PearlModel { module: i, fields: Seq::empty() }));
            assert forall|m: int| 0 <= m < b.modules.len() implies #[trigger] module_wf(b, m) by {
                assert(module_wf(old_b, m));
            }
        }
        Some(PearlBuilder { index: next_index })
    }
}


impl PearlBuilder {
    /// The pearl's index.
    pub fn id(&self) -> (r: usize)
        ensures
            r == self.index,
    {
        self.index
    }

    /// The module the pearl is in.
    pub fn parent_module(&self, program: &ProgramBuilder) -> (m: ModuleBuilder)
        requires
            self.index < program@.pearls.len(),
        ensures
            m.index == program@.pearls[self.index as int].module,
    {
        ModuleBuilder { index: program.pearls[self.index].module }
    }

    /// The field named `name`, if there is one.
    pub fn get_field(&self, program: &ProgramBuilder, name: &str) -> (r: Option<FieldBuilder>)
        requires
            program.wf(),
            self.index < program@.pearls.len(),
        ensures
            r matches Some(f) ==> f.pearl == self.index && f.field < program@.pearls[self.index as int].fields.len()
                && program@.pearls[self.index as int].fields[f.field as int].0 == name@,
            r is None <==> forall|i: int|
                0 <= i < program@.pearls[self.index as int].fields.len() ==> #[trigger] program@.pearls[self.index as int].fields[i].0
                    != name@,
    {
        let fields = &program.pearls[self.index].fields;
        proof {
            let b = program@.pearls[self.index as int].fields;
            assert forall|k: int| 0 <= k < b.len() implies #[trigger] b[k].0 == fields@[k].0 by {}
        }
        match fields.position(name) {
            Some(i) => {
                assert(program@.pearls[self.index as int].fields[i as int].0 == name@);
                Some(FieldBuilder { pearl: self.index, field: i })
            },
            None => None,
        }
    }

    /// Makes a field named `name` with an empty union, unless the name is taken.
    pub fn create_field(&self, program: &mut ProgramBuilder, name: String) -> (r: Option<FieldBuilder>)
        requires
            old(program).wf(),
            self.index < old(program)@.pearls.len(),
        ensures
            final(program).wf(),
            ({
                let old_p = old(program)@.pearls[self.index as int];
                if exists|i: int| 0 <= i < old_p.fields.len() && (#[trigger] old_p.fields[i]).0 == name@ {
                    r is None && final(program)@ == old(program)@
                } else {
                    &&& r matches Some(fb) && fb.pearl == self.index && fb.field == old_p.fields.len()
                    &&& final(program)@ == (BuilderModel {
                        pearls: old(program)@.pearls.update(
                            self.index as int,
                            PearlModel { fields: old_p.fields.push((name@, Seq::empty())), ..old_p },
                        ),
                        ..old(program)@
                    })
                }
            }),
    {
        let i = self.index;
        let ghost old_fields = program.pearls@[i as int].fields@;
        let n = program.pearls[i].fields.len();
        let empty: Vec<Vec<String>> = Vec::new();
        assert(union_view(empty@) =~= Seq::<Seq<Seq<char>>>::empty());
        let ghost empty_view = empty@;
        let added = program.pearls[i].fields.insert_new(name, empty);
        proof {
            let b = program@;
            let old_b = old(program)@;
            assert(b.modules =~= old_b.modules);
            assert forall|m: int| 0 <= m < b.modules.len() implies #[trigger] module_wf(b, m) by {
                assert(module_wf(old_b, m));
            }
            if added {
                assert(program.pearls@[i as int].fields@ == old_fields.push((name@, program.pearls@[i as int].fields@.last().1)));
                assert(union_view(program.pearls@[i as int].fields@.last().1@) =~= Seq::<Seq<Seq<char>>>::empty());
                assert(fields_view(program.pearls@[i as int].fields@) =~= fields_view(old_fields).push(
                    (name@, Seq::<Seq<Seq<char>>>::empty()),
                ));
                assert(b.pearls =~= old_b.pearls.update(
                    i as int,
                    PearlModel { fields: old_b.pearls[i as int].fields.push((name@, Seq::empty())), ..old_b.pearls[i as int] },
                ));
            } else {
                assert(b.pearls =~= old_b.pearls);
                let k = choose|k: int| 0 <= k < old_fields.len() && #[trigger] old_fields[k].0 == name@;
                assert(old_b.pearls[i as int].fields[k].0 == name@);
            }
        }
        if added {
            Some(FieldBuilder { pearl: i, field: n })
        } else {
            proof {
                assert(forall|k: int| 0 <= k < old_fields.len() ==> old_fields[k].0 == old(program)@.pearls[i as int].fields[k].0);
            }
            None
        }
    }
}

impl FieldBuilder {
    /// Adds a path to the field's union.
    pub fn push(&self, program: &mut ProgramBuilder, path: Vec<String>)
        requires
            old(program).wf(),
            self.pearl < old(program)@.pearls.len(),
            self.field < old(program)@.pearls[self.pearl as int].fields.len(),
        ensures
            final(program).wf(),
            ({
                let old_p = old(program)@.pearls[self.pearl as int];
                let (name, union) = old_p.fields[self.field as int];
                final(program)@ == (BuilderModel {
                    pearls: old(program)@.pearls.update(
                        self.pearl as int,
                        PearlModel { fields: old_p.fields.update(self.field as int, (name, union.push(path_view(path@)))), ..old_p },
                    ),
                    ..old(program)@
                })
            }),
    {
        let p = self.pearl;
        let f = self.field;
        let ghost old_fields = program.pearls@[p as int].fields@;
        let mut union = program.pearls[p].fields.replace_at(f, Vec::new());
        let ghost old_union = union@;
        union.push(path);
        program.pearls[p].fields.replace_at(f, union);
        proof {
            let b = program@;
            let old_b = old(program)@;
            assert(b.modules =~= old_b.modules);
            assert forall|m: int| 0 <= m < b.modules.len() implies #[trigger] module_wf(b, m) by {
                assert(module_wf(old_b, m));
            }
            assert(union_view(union@) =~= union_view(old_union).push(path_view(path@)));
            let new_fields = old_fields.update(f as int, (old_fields[f as int].0, union));
            assert(fields_view(program.pearls@[p as int].fields@) =~= fields_view(old_fields).update(
                f as int,
                (old_fields[f as int].0, union_view(old_union).push(path_view(path@))),
            ));
            assert(b.pearls =~= old_b.pearls.update(
                p as int,
                PearlModel {
                    fields: old_b.pearls[p as int].fields.update(
                        f as int,
                        (old_b.pearls[p as int].fields[f as int].0, old_b.pearls[p as int].fields[f as int].1.push(path_view(path@))),
                    ),
                    ..old_b.pearls[p as int]
                },
            ));
        }
    }
}

// ----- building -----

/// The word `root`.
pub open spec fn root_word() -> Seq<char> {
    seq!['r', 'o', 'o', 't']
}

/// The word `super`.
pub open spec fn super_word() -> Seq<char> {
    seq!['s', 'u', 'p', 'e', 'r']
}

/// One segment of a module path from module `m`: `super` goes to the parent, a name to
/// the child of that name; `root` here, a missing parent or a missing child is an
/// error, and the path stays at `m`.
pub open spec fn path_step(b: BuilderModel, m: int, part: Seq<char>) -> (int, Option<BuildErrorModel>) {
    if part == root_word() {
        (m, Some(BuildErrorModel::InvalidRootKeyword))
    } else if part == super_word() {
        match b.modules[m].parent {
            Some(p) => (p as int, None),
            None => (m, Some(BuildErrorModel::SuperFromRoot)),
        }
    } else {
        match lookup(b.modules[m].children, part) {
            Some(c) => (c as int, None),
            None => (m, Some(BuildErrorModel::ModuleDoesNotExist(part))),
        }
    }
}

/// Follows module path segments from module `m`, collecting errors.
pub open spec fn path_walk(b: BuilderModel, m: int, parts: Seq<Seq<char>>) -> (int, Seq<BuildErrorModel>)
    decreases parts.len(),
{
    if parts.len() == 0 {
        (m, Seq::empty())
    } else {
        let (m1, e) = path_step(b, m, parts[0]);
        let (m2, es) = path_walk(b, m1, parts.subrange(1, parts.len() as int));
        (
            m2,
            match e {
                Some(x) => seq![x] + es,
                None => es,
            },
        )
    }
}

/// The pearl a field path names, from a pearl in module `home`: the last segment is the
/// pearl's name; the segments before it lead from `home`, or from the root module when
/// the first of them is `root`.
pub open spec fn path_target(b: BuilderModel, home: int, path: Seq<Seq<char>>) -> (Option<usize>, Seq<BuildErrorModel>) {
    if path.len() == 0 {
        (None, seq![BuildErrorModel::EmptyPath])
    } else {
        let name = path.last();
        let rest = path.drop_last();
        let (start, parts) = if rest.len() > 0 && rest[0] == root_word() {
            (0int, rest.subrange(1, rest.len() as int))
        } else {
            (home, rest)
        };
        let (m, es) = path_walk(b, start, parts);
        match lookup(b.modules[m].pearls, name) {
            Some(i) => (Some(i), es),
            None => (None, es.push(BuildErrorModel::PearlDoesNotExist(name))),
        }
    }
}

/// The pearls the paths of a union name, in order, and the errors.
pub open spec fn union_targets(b: BuilderModel, home: int, union: Seq<Seq<Seq<char>>>) -> (Seq<usize>, Seq<BuildErrorModel>)
    decreases union.len(),
{
    if union.len() == 0 {
        (Seq::empty(), Seq::empty())
    } else {
        let (ts, es) = union_targets(b, home, union.drop_last());
        let (t, es2) = path_target(b, home, union.last());
        (
            match t {
                Some(i) => ts.push(i),
                None => ts,
            },
            es + es2,
        )
    }
}

/// The pearls the fields of a pearl in module `home` name, field by field, and the
/// errors.
pub open spec fn field_targets(b: BuilderModel, home: int, fields: Seq<(Seq<char>, Seq<Seq<Seq<char>>>)>) -> (Seq<usize>, Seq<BuildErrorModel>)
    decreases fields.len(),
{
    if fields.len() == 0 {
        (Seq::empty(), Seq::empty())
    } else {
        let (ts, es) = field_targets(b, home, fields.drop_last());
        let (us, es2) = union_targets(b, home, fields.last().1);
        (ts + us, es + es2)
    }
}

/// The field targets of each pearl, and all the errors.
pub open spec fn pearl_targets(b: BuilderModel, ps: Seq<PearlModel>) -> (Seq<Seq<usize>>, Seq<BuildErrorModel>)
    decreases ps.len(),
{
    if ps.len() == 0 {
        (Seq::empty(), Seq::empty())
    } else {
        let (rs, es) = pearl_targets(b, ps.drop_last());
        let (ts, es2) = field_targets(b, ps.last().module as int, ps.last().fields);
        (rs.push(ts), es + es2)
    }
}

/// The built program, by the pearls each pearl's fields name; or every error, if any.
pub open spec fn build_model(b: BuilderModel) -> Result<Seq<Seq<usize>>, Seq<BuildErrorModel>> {
    let (rs, es) = pearl_targets(b, b.pearls);
    if es.len() == 0 {
        Ok(rs)
    } else {
        Err(es)
    }
}

/// A built pearl: the pearls its fields name.
#[derive(Debug)]
pub struct Pearl {
    pub fields: Vec<usize>,
}

/// A built program.
#[derive(Debug)]
pub struct Program {
    pearls: Vec<Pearl>,
}

impl View for Program {
    type V = Seq<Seq<usize>>;

    closed spec fn view(&self) -> Seq<Seq<usize>> {
        Seq::new(self.pearls@.len(), |i: int| self.pearls@[i].fields@)
    }
}

impl Program {
    /// The pearls, by index.
    pub fn pearls(&self) -> (r: &[Pearl])
        ensures
            r@.len() == self@.len(),
            forall|i: int| 0 <= i < r@.len() ==> (#[trigger] r@[i]).fields@ == self@[i],
    {
        self.pearls.as_slice()
    }
}

fn push_error(errors: &mut Vec<BuildError>, e: BuildError)
    ensures
        build_errors_view(final(errors)@) == build_errors_view(old(errors)@).push(e@),
{
    errors.push(e);
    assert(build_errors_view(errors@) =~= build_errors_view(old(errors)@).push(e@));
}

proof fn lemma_errors_concat(a: Seq<BuildErrorModel>, b: Seq<BuildErrorModel>, c: Seq<BuildErrorModel>)
    ensures
        (a + b) + c == a + (b + c),
{
    assert((a + b) + c =~= a + (b + c));
}

impl ProgramBuilder {
    /// The pearl `path` names from module `home` (see [`path_target`]); errors are added
    /// to `errors`.
    fn resolve_path(&self, home: usize, path: &Vec<String>, errors: &mut Vec<BuildError>) -> (r: Option<usize>)
        requires
            self.wf(),
            home < self@.modules.len(),
        ensures
            ({
                let (t, es) = path_target(self@, home as int, path_view(path@));
                r == t && build_errors_view(final(errors)@) == build_errors_view(old(errors)@) + es
            }),
    {
        let ghost b = self@;
        let ghost pv = path_view(path@);
        let n = path.len();
        if n == 0 {
            push_error(errors, BuildError::EmptyPath);
            return None;
        }
        let last = n - 1;
        let ghost rest = pv.drop_last();
        let rooted = last > 0 && same_text(path[0].as_str(), &['r', 'o', 'o', 't']);
        let mut module: usize = if rooted {
            0
        } else {
            home
        };
        let mut i: usize = if rooted {
            1
        } else {
            0
        };
        let ghost parts = if rooted {
            rest.subrange(1, rest.len() as int)
        } else {
            rest
        };
        proof {
            assert(rest.len() == last);
            if rooted {
                assert(rest[0] == path@[0]@);
                assert(module_wf(b, 0)) by {
                    assert(b.modules.len() > 0);
                }
            }
        }
        let ghost walk = path_walk(b, module as int, parts);
        let ghost base = build_errors_view(errors@);
        assert(parts == pv.subrange(i as int, last as int));
        while i < last
            invariant
                self.wf(),
                b == self@,
                pv == path_view(path@),
                n == path@.len(),
                last == n - 1,
                i <= last,
                module < b.modules.len(),
                path_walk(b, module as int, pv.subrange(i as int, last as int)).0 == walk.0,
                build_errors_view(errors@) + path_walk(b, module as int, pv.subrange(i as int, last as int)).1 == base + walk.1,
            decreases last - i,
        {
            let ghost rem = pv.subrange(i as int, last as int);
            assert(rem[0] == path@[i as int]@);
            assert(rem.subrange(1, rem.len() as int) =~= pv.subrange(i + 1, last as int));
            proof {
                assert(module_wf(b, module as int));
            }
            let part = path[i].as_str();
            let ghost before = build_errors_view(errors@);
            let ghost rest_walk = path_walk(b, path_step(b, module as int, part@).0, pv.subrange(i + 1, last as int));
            if same_text(part, &['r', 'o', 'o', 't']) {
                push_error(errors, BuildError::InvalidRootKeyword);
                proof {
                    lemma_errors_concat(before, seq![BuildErrorModel::InvalidRootKeyword], rest_walk.1);
                }
            } else if same_text(part, &['s', 'u', 'p', 'e', 'r']) {
                match self.modules[module].parent {
                    Some(p) => {
                        module = p;
                    },
                    None => {
                        push_error(errors, BuildError::SuperFromRoot);
                        proof {
                            lemma_errors_concat(before, seq![BuildErrorModel::SuperFromRoot], rest_walk.1);
                        }
                    },
                }
            } else {
                match self.modules[module].children.get(part) {
                    Some(c) => {
                        proof {
                            let e = b.modules[module as int].children;
                            let k = choose|k: int| 0 <= k < e.len() && #[trigger] e[k] == (part@, c);
                            lemma_lookup(e, part@, k);
                        }
                        module = c;
                    },
                    None => {
                        push_error(errors, BuildError::ModuleDoesNotExist(part.to_owned()));
                        proof {
                            lemma_errors_concat(before, seq![BuildErrorModel::ModuleDoesNotExist(part@)], rest_walk.1);
                        }
                    },
                }
            }
            i = i + 1;
        }
        assert(pv.subrange(i as int, last as int) =~= Seq::<Seq<char>>::empty());
        assert(build_errors_view(errors@) =~= base + walk.1);
        proof {
            assert(module_wf(b, module as int));
        }
        let name = path[last].as_str();
        assert(pv.last() == name@);
        match self.modules[module].pearls.get(name) {
            Some(index) => {
                proof {
                    let e = b.modules[module as int].pearls;
                    let k = choose|k: int| 0 <= k < e.len() && #[trigger] e[k] == (name@, index);
                    lemma_lookup(e, name@, k);
                }
                Some(index)
            },
            None => {
                push_error(errors, BuildError::PearlDoesNotExist(name.to_owned()));
                proof {
                    assert(base + walk.1.push(BuildErrorModel::PearlDoesNotExist(name@)) =~= (base + walk.1).push(
                        BuildErrorModel::PearlDoesNotExist(name@),
                    ));
                }
                None
            },
        }
    }

    /// The targets of a union's paths from module `home` (see [`union_targets`]).
    fn resolve_union(&self, home: usize, union: &Vec<Vec<String>>, targets: &mut Vec<usize>, errors: &mut Vec<BuildError>)
        requires
            self.wf(),
            home < self@.modules.len(),
        ensures
            ({
                let (ts, es) = union_targets(self@, home as int, union_view(union@));
                &&& final(targets)@ == old(targets)@ + ts
                &&& build_errors_view(final(errors)@) == build_errors_view(old(errors)@) + es
            }),
    {
        let ghost uv = union_view(union@);
        let mut j: usize = 0;
        while j < union.len()
            invariant
                self.wf(),
                home < self@.modules.len(),
                uv == union_view(union@),
                j <= union.len(),
                ({
                    let (ts, es) = union_targets(self@, home as int, uv.subrange(0, j as int));
                    &&& targets@ == old(targets)@ + ts
                    &&& build_errors_view(errors@) == build_errors_view(old(errors)@) + es
                }),
            decreases union.len() - j,
        {
            assert(uv.subrange(0, j + 1).drop_last() =~= uv.subrange(0, j as int));
            assert(uv.subrange(0, j + 1).last() == path_view(union@[j as int]@));
            let ghost t0 = targets@;
            let ghost e0 = build_errors_view(errors@);
            let r = self.resolve_path(home, &union[j], errors);
            match r {
                Some(i) => {
                    targets.push(i);
                },
                None => {},
            }
            proof {
                let (ts, es) = union_targets(self@, home as int, uv.subrange(0, j as int));
                let (t, es2) = path_target(self@, home as int, uv[j as int]);
                lemma_errors_concat(build_errors_view(old(errors)@), es, es2);
                match t {
                    Some(i) => {
                        assert(targets@ =~= old(targets)@ + ts.push(i));
                    },
                    None => {},
                }
            }
            j = j + 1;
        }
        assert(uv.subrange(0, j as int) =~= uv);
    }

    /// Builds the program (see [`build_model`]): every path of every field resolved to
    /// the pearl it names; any error makes the build fail with all of them.
    pub fn build(&self) -> (r: Result<Program, Vec<BuildError>>)
        requires
            self.wf(),
        ensures
            match r {
                Ok(p) => build_model(self@) == Ok::<Seq<Seq<usize>>, Seq<BuildErrorModel>>(p@),
                Err(es) => build_model(self@) == Err::<Seq<Seq<usize>>, Seq<BuildErrorModel>>(build_errors_view(es@)),
            },
    {
        let ghost b = self@;
        let mut errors: Vec<BuildError> = Vec::new();
        let mut pearls: Vec<Pearl> = Vec::new();
        let mut i: usize = 0;
        while i < self.pearls.len()
            invariant
                self.wf(),
                b == self@,
                i <= self.pearls@.len(),
                ({
                    let (rs, es) = pearl_targets(b, b.pearls.subrange(0, i as int));
                    &&& Seq::new(pearls@.len(), |k: int| pearls@[k].fields@) == rs
                    &&& build_errors_view(errors@) == es
                }),
            decreases self.pearls@.len() - i,
        {
            let data = &self.pearls[i];
            proof {
                assert(b.pearls.subrange(0, i + 1).drop_last() =~= b.pearls.subrange(0, i as int));
                assert(b.pearls[i as int].module < b.modules.len());
            }
            let ghost fv = fields_view(data.fields@);
            let ghost e_start = build_errors_view(errors@);
            let mut targets: Vec<usize> = Vec::new();
            let n = data.fields.len();
            let mut f: usize = 0;
            while f < n
                invariant
                    self.wf(),
                    b == self@,
                    data.fields.wf(),
                    n == data.fields@.len(),
                    fv == fields_view(data.fields@),
                    data.module < b.modules.len(),
                    f <= n,
                    ({
                        let (ts, es) = field_targets(b, data.module as int, fv.subrange(0, f as int));
                        &&& targets@ == ts
                        &&& build_errors_view(errors@) == e_start + es
                    }),
                decreases n - f,
            {
                assert(fv.subrange(0, f + 1).drop_last() =~= fv.subrange(0, f as int));
                let (_, union) = data.fields.get_index(f).unwrap();
                assert(fv.subrange(0, f + 1).last().1 == union_view(union@));
                let ghost t0 = targets@;
                self.resolve_union(data.module, union, &mut targets, &mut errors);
                proof {
                    let (ts, es) = field_targets(b, data.module as int, fv.subrange(0, f as int));
                    let (us, es2) = union_targets(b, data.module as int, union_view(union@));
                    lemma_errors_concat(e_start, es, es2);
                }
                f = f + 1;
            }
            assert(fv.subrange(0, f as int) =~= fv);
            let ghost before = pearls@;
            pearls.push(Pearl { fields: targets });
            proof {
                let (rs, es) = pearl_targets(b, b.pearls.subrange(0, i as int));
                let (ts, es2) = field_targets(b, b.pearls[i as int].module as int, b.pearls[i as int].fields);
                assert(Seq::new(pearls@.len(), |k: int| pearls@[k].fields@) =~= Seq::new(
                    before.len(),
                    |k: int| before[k].fields@,
                ).push(ts));
            }
            i = i + 1;
        }
        assert(b.pearls.subrange(0, i as int) =~= b.pearls);
        if errors.len() == 0 {
            let p = Program { pearls };
            Ok(p)
        } else {
            Err(errors)
        }
    }
}

// ----- laws of paths and building -----

/// A field path that is just a name finds the pearl of that name in the field's own
/// module, with no error.
pub proof fn lemma_local_path(b: BuilderModel, home: int, name: Seq<char>, k: int)
    requires
        builder_wf(b),
        0 <= home < b.modules.len(),
        0 <= k < b.modules[home].pearls.len(),
        b.modules[home].pearls[k].0 == name,
    ensures
        path_target(b, home, seq![name]) == (Some(b.modules[home].pearls[k].1), Seq::<BuildErrorModel>::empty()),
{
    assert(module_wf(b, home));
    lemma_lookup(b.modules[home].pearls, name, k);
    assert(seq![name].drop_last() =~= Seq::<Seq<char>>::empty());
}

/// `super::name` finds the pearl of that name in the parent of the field's module, with
/// no error.
pub proof fn lemma_super_path(b: BuilderModel, home: int, name: Seq<char>, k: int)
    requires
        builder_wf(b),
        0 <= home < b.modules.len(),
        b.modules[home].parent is Some,
        0 <= k < b.modules[b.modules[home].parent->0 as int].pearls.len(),
        b.modules[b.modules[home].parent->0 as int].pearls[k].0 == name,
    ensures
        path_target(b, home, seq![seq!['s', 'u', 'p', 'e', 'r'], name]) == (
            Some(b.modules[b.modules[home].parent->0 as int].pearls[k].1),
            Seq::<BuildErrorModel>::empty(),
        ),
{
    let p = b.modules[home].parent->0 as int;
    assert(module_wf(b, home));
    assert(module_wf(b, p));
    lemma_lookup(b.modules[p].pearls, name, k);
    let path = seq![super_word(), name];
    assert(path.drop_last() =~= seq![super_word()]);
    assert(seq![super_word()][0] != root_word());
    assert(seq![super_word()].subrange(1, 1) =~= Seq::<Seq<char>>::empty());
    assert(super_word().len() == 5 && root_word().len() == 4);
    assert(super_word() != root_word());
    assert(path_step(b, home, super_word()) == (p, None::<BuildErrorModel>));
    assert(seq![super_word()][0] == super_word());
    assert(path_walk(b, p, Seq::<Seq<char>>::empty()) == (p, Seq::<BuildErrorModel>::empty()));
    assert(path_walk(b, home, seq![super_word()]) == (p, Seq::<BuildErrorModel>::empty()));
}

/// `root::name` finds the pearl of that name in the root module, from any module, with
/// no error.
pub proof fn lemma_root_path(b: BuilderModel, home: int, name: Seq<char>, k: int)
    requires
        builder_wf(b),
        0 <= home < b.modules.len(),
        0 <= k < b.modules[0].pearls.len(),
        b.modules[0].pearls[k].0 == name,
    ensures
        path_target(b, home, seq![seq!['r', 'o', 'o', 't'], name]) == (Some(b.modules[0].pearls[k].1), Seq::<BuildErrorModel>::empty()),
{
    assert(module_wf(b, 0));
    lemma_lookup(b.modules[0].pearls, name, k);
    let path = seq![root_word(), name];
    assert(path.drop_last() =~= seq![root_word()]);
    assert(seq![root_word()].subrange(1, 1) =~= Seq::<Seq<char>>::empty());
}

/// The number of paths in a list of fields.
pub open spec fn path_count(fields: Seq<(Seq<char>, Seq<Seq<Seq<char>>>)>) -> nat
    decreases fields.len(),
{
    if fields.len() == 0 {
        0
    } else {
        path_count(fields.drop_last()) + fields.last().1.len()
    }
}

/// A path that names no pearl comes with an error.
proof fn lemma_target_or_error(b: BuilderModel, home: int, path: Seq<Seq<char>>)
    ensures
        path_target(b, home, path).0 is None ==> path_target(b, home, path).1.len() > 0,
{
}

/// Without errors, a union names one pearl per path.
proof fn lemma_union_count(b: BuilderModel, home: int, union: Seq<Seq<Seq<char>>>)
    ensures
        union_targets(b, home, union).1.len() == 0 ==> union_targets(b, home, union).0.len() == union.len(),
    decreases union.len(),
{
    if union.len() > 0 {
        lemma_union_count(b, home, union.drop_last());
        lemma_target_or_error(b, home, union.last());
    }
}

/// Without errors, fields name one pearl per path, in order.
proof fn lemma_fields_count(b: BuilderModel, home: int, fields: Seq<(Seq<char>, Seq<Seq<Seq<char>>>)>)
    ensures
        field_targets(b, home, fields).1.len() == 0 ==> field_targets(b, home, fields).0.len() == path_count(fields),
    decreases fields.len(),
{
    if fields.len() > 0 {
        lemma_fields_count(b, home, fields.drop_last());
        lemma_union_count(b, home, fields.last().1);
    }
}

/// Without errors, each pearl gets the pearls its fields name, one per path.
proof fn lemma_pearls_count(b: BuilderModel, ps: Seq<PearlModel>)
    ensures
        pearl_targets(b, ps).1.len() == 0 ==> {
            &&& pearl_targets(b, ps).0.len() == ps.len()
            &&& forall|p: int| 0 <= p < ps.len() ==> (#[trigger] pearl_targets(b, ps).0[p]).len() == path_count(ps[p].fields)
        },
    decreases ps.len(),
{
    if ps.len() > 0 {
        lemma_pearls_count(b, ps.drop_last());
        lemma_fields_count(b, ps.last().module as int, ps.last().fields);
        let (rs, es) = pearl_targets(b, ps.drop_last());
        if pearl_targets(b, ps).1.len() == 0 {
            assert forall|p: int| 0 <= p < ps.len() implies (#[trigger] pearl_targets(b, ps).0[p]).len() == path_count(ps[p].fields) by {
                if p < ps.len() - 1 {
                    assert(ps.drop_last()[p] == ps[p]);
                }
            }
        }
    }
}

/// A program that builds has one entry per pearl, in order, and each entry names one
/// pearl for each path of the pearl's fields, field by field.
pub proof fn lemma_build_counts(b: BuilderModel)
    requires
        build_model(b) is Ok,
    ensures
        build_model(b)->Ok_0.len() == b.pearls.len(),
        forall|p: int| 0 <= p < b.pearls.len() ==> (#[trigger] build_model(b)->Ok_0[p]).len() == path_count(b.pearls[p].fields),
{
    lemma_pearls_count(b, b.pearls);
}

} // verus!
