//! The symbol table: the signature of every function, under a stable handle.
//!
//! The parser registers a function as soon as it has read its header, and the
//! code generator later attaches to each entry the handle of the function that
//! it declared in the backend. Entries are never removed, so a handle stays
//! valid as long as its table lives.

use generational_arena::{Arena, Index};
use vstd::hash_map::StringHashMap;
use vstd::prelude::*;

use crate::compiler::codegen::CodegenFunctionDataRef;
use crate::compiler::parser::ast;

verus! {

/// `Arena` of `generational_arena`: a store that hands out an index for each
/// element put into it. Its inside is not looked at here.
#[verifier::external_type_specification]
#[verifier::external_body]
#[verifier::reject_recursive_types(T)]
pub struct ExArena<T>(Arena<T>);

/// `Index` of `generational_arena`: the index of an element of an arena,
/// carried as an opaque value.
#[verifier::external_type_specification]
#[verifier::external_body]
pub struct ExIndex(Index);

/// What an arena of functions holds: every live index with its element.
pub uninterp spec fn arena_entries(arena: Arena<Function>) -> Map<Index, Function>;

/// `Arena::new` of `generational_arena` makes an arena that holds nothing.
#[verifier::external_body]
fn arena_new() -> (arena: Arena<Function>)
    ensures
        arena_entries(arena).dom() == Set::<Index>::empty(),
{
    Arena::new()
}

/// `Arena::insert` of `generational_arena` stores the element under an index
/// that is not live in the arena, leaves every other element alone, and
/// returns that index.
#[verifier::external_body]
fn arena_insert(arena: &mut Arena<Function>, f: Function) -> (idx: Index)
    ensures
        !arena_entries(*old(arena)).contains_key(idx),
        arena_entries(*final(arena)) == arena_entries(*old(arena)).insert(idx, f),
{
    arena.insert(f)
}

/// `Arena::get` of `generational_arena` returns the element under a live
/// index, and `None` for any other index.
#[verifier::external_body]
fn arena_get(arena: &Arena<Function>, idx: Index) -> (r: Option<&Function>)
    ensures
        match r {
            Some(f) => arena_entries(*arena).contains_key(idx) && *f == arena_entries(*arena)[idx],
            None => !arena_entries(*arena).contains_key(idx),
        },
{
    arena.get(idx)
}

/// `Arena::get_mut` of `generational_arena` lends the element under a live
/// index for change, and returns `None` for any other index. Nothing but the
/// lent element can change.
#[verifier::external_body]
fn arena_get_mut(arena: &mut Arena<Function>, idx: Index) -> (r: Option<&mut Function>)
    ensures
        match r {
            Some(f) => arena_entries(*old(arena)).contains_key(idx) && *f == arena_entries(
                *old(arena),
            )[idx] && arena_entries(*final(arena)) == arena_entries(*old(arena)).insert(
                idx,
                *final(f),
            ),
            None => !arena_entries(*old(arena)).contains_key(idx) && arena_entries(*final(arena))
                == arena_entries(*old(arena)),
        },
{
    arena.get_mut(idx)
}

/// The signature of a function, and what the code generator attached to it.
#[derive(Debug, PartialEq, Eq)]
pub struct Function {
    pub name: String,
    pub return_ty: ast::Type,
    pub codegen_data_ref: Option<CodegenFunctionDataRef>,
}

/// The mathematical value of a [`Function`].
pub ghost struct FunctionView {
    pub name: Seq<char>,
    pub return_ty: ast::Type,
    pub codegen_data_ref: Option<CodegenFunctionDataRef>,
}

impl View for Function {
    type V = FunctionView;

    open spec fn view(&self) -> FunctionView {
        FunctionView {
            name: self.name@,
            return_ty: self.return_ty,
            codegen_data_ref: self.codegen_data_ref,
        }
    }
}

/// A second function was registered under a name that is taken.
#[derive(Debug, PartialEq, Eq)]
pub struct DuplicateDefinition {
    pub name: String,
}

/// Backend data was attached to a function that carries some already.
#[derive(Debug, PartialEq, Eq)]
pub struct AlreadyAttached {
    pub name: String,
}

impl Function {
    /// A function with nothing attached to it yet.
    pub fn new(name: String, return_ty: ast::Type) -> (f: Function)
        ensures
            f.name == name,
            f.return_ty == return_ty,
            f.codegen_data_ref.is_none(),
    {
        Function { name, return_ty, codegen_data_ref: None }
    }

    /// Attaches the backend handle of this function. This happens at most
    /// once: a second attachment is refused and changes nothing.
    pub fn attach_codegen_data(&mut self, data: CodegenFunctionDataRef) -> (r: Result<
        (),
        AlreadyAttached,
    >)
        ensures
            match r {
                Ok(_) => old(self).codegen_data_ref.is_none() && *final(self) == (Function {
                    codegen_data_ref: Some(data),
                    ..*old(self)
                }),
                Err(e) => old(self).codegen_data_ref.is_some() && *final(self) == *old(self)
                    && e.name@ == old(self).name@,
            },
    {
        if self.codegen_data_ref.is_some() {
            return Err(AlreadyAttached { name: self.name.clone() });
        }
        self.codegen_data_ref = Some(data);
        Ok(())
    }
}

/// A handle of a function in a symbol table. The only way to get one is to
/// add a function to a table.
#[derive(Copy, Clone, Debug, PartialEq, Eq)]
pub struct FunctionRef(Index);

/// Whether some entry of the table `t` has the name `name`.
pub open spec fn table_has_name(t: Map<FunctionRef, FunctionView>, name: Seq<char>) -> bool {
    exists|r: FunctionRef| t.contains_key(r) && (#[trigger] t[r]).name == name
}

/// The names of all entries of the table `t`.
pub open spec fn table_names(t: Map<FunctionRef, FunctionView>) -> Set<Seq<char>> {
    Set::new(|name: Seq<char>| table_has_name(t, name))
}

/// A new entry adds its name to the names of a table.
pub proof fn lemma_names_insert(t: Map<FunctionRef, FunctionView>, r: FunctionRef, f: FunctionView)
    requires
        !t.contains_key(r),
    ensures
        table_names(t.insert(r, f)) == table_names(t).insert(f.name),
{
    let u = t.insert(r, f);
    assert forall|name: Seq<char>| table_has_name(u, name) <==> (table_has_name(t, name) || name
        == f.name) by {
        if table_has_name(t, name) {
            let x = choose|x: FunctionRef| t.contains_key(x) && (#[trigger] t[x]).name == name;
            assert(u.contains_key(x) && u[x].name == name);
        }
        if name == f.name {
            assert(u.contains_key(r) && u[r].name == name);
        }
        if table_has_name(u, name) {
            let x = choose|x: FunctionRef| u.contains_key(x) && (#[trigger] u[x]).name == name;
            if x != r {
                assert(t.contains_key(x) && t[x].name == name);
            }
        }
    }
    assert(table_names(u) =~= table_names(t).insert(f.name));
}

/// A symbol table with the signatures of all functions.
pub struct Sym {
    functions: Arena<Function>,
    function_name_lookup: StringHashMap<Index>,
}

impl View for Sym {
    type V = Map<FunctionRef, FunctionView>;

    /// Every handle of the table with the entry that it stands for.
    closed spec fn view(&self) -> Map<FunctionRef, FunctionView> {
        Map::new(
            |r: FunctionRef| arena_entries(self.functions).contains_key(r.0),
            |r: FunctionRef| arena_entries(self.functions)[r.0]@,
        )
    }
}

impl Sym {
    /// The name index agrees with the entries: it finds every entry by its
    /// name, and nothing else.
    pub closed spec fn wf(&self) -> bool {
        &&& forall|name: Seq<char>| #[trigger]
            self.function_name_lookup@.contains_key(name) ==> {
                let idx = self.function_name_lookup@[name];
                &&& arena_entries(self.functions).contains_key(idx)
                &&& arena_entries(self.functions)[idx].name@ == name
            }
        &&& forall|idx: Index| #[trigger]
            arena_entries(self.functions).contains_key(idx) ==> {
                let name = arena_entries(self.functions)[idx].name@;
                &&& self.function_name_lookup@.contains_key(name)
                &&& self.function_name_lookup@[name] == idx
            }
    }

    /// Whether some entry has the name `name`.
    pub open spec fn has_name(&self, name: Seq<char>) -> bool {
        table_has_name(self@, name)
    }

    /// The handle of the entry with the name `name`, if there is one.
    pub open spec fn ref_of(&self, name: Seq<char>) -> Option<FunctionRef> {
        if self.has_name(name) {
            Some(choose|r: FunctionRef| self@.contains_key(r) && (#[trigger] self@[r]).name == name)
        } else {
            None
        }
    }

    /// No two entries of a table share a name.
    pub proof fn lemma_names_unique(&self, a: FunctionRef, b: FunctionRef)
        requires
            self.wf(),
            self@.contains_key(a),
            self@.contains_key(b),
            self@[a].name == self@[b].name,
        ensures
            a == b,
    {
        assert(arena_entries(self.functions).contains_key(a.0));
        assert(arena_entries(self.functions).contains_key(b.0));
    }

    /// An empty table.
    pub fn new() -> (sym: Sym)
        ensures
            sym.wf(),
            sym@ == Map::<FunctionRef, FunctionView>::empty(),
    {
        let sym = Sym { functions: arena_new(), function_name_lookup: StringHashMap::new() };
        assert(sym@ =~= Map::<FunctionRef, FunctionView>::empty());
        sym
    }

    /// Whether `fn_ref` is a handle of this table.
    pub fn contains(&self, fn_ref: FunctionRef) -> (r: bool)
        ensures
            r == self@.contains_key(fn_ref),
    {
        arena_get(&self.functions, fn_ref.0).is_some()
    }

    /// The entry that a handle of this table stands for.
    pub fn get_function(&self, fn_ref: FunctionRef) -> (f: &Function)
        requires
            self@.contains_key(fn_ref),
        ensures
            f@ == self@[fn_ref],
    {
        match arena_get(&self.functions, fn_ref.0) {
            Some(f) => f,
            None => {
                proof {
                    assert(false);
                }
                vstd::pervasive::unreached()
            },
        }
    }

    /// The handle of the function with the given name, if the table has one.
    pub fn find_function(&self, name: &str) -> (r: Option<FunctionRef>)
        requires
            self.wf(),
        ensures
            r == self.ref_of(name@),
    {
        match self.function_name_lookup.get(name) {
            Some(idx) => {
                let fn_ref = FunctionRef(*idx);
                proof {
                    assert(self@.contains_key(fn_ref) && self@[fn_ref].name == name@);
                    let other = self.ref_of(name@).unwrap();
                    self.lemma_names_unique(fn_ref, other);
                }
                Some(fn_ref)
            },
            None => {
                proof {
                    if self.has_name(name@) {
                        let r = choose|r: FunctionRef|
                            self@.contains_key(r) && (#[trigger] self@[r]).name == name@;
                        assert(arena_entries(self.functions).contains_key(r.0));
                    }
                }
                None
            },
        }
    }

    /// The function with the given name, or `None` if the table has none.
    pub fn get_function_by_name(&self, name: &str) -> (r: Option<&Function>)
        requires
            self.wf(),
        ensures
            match r {
                Some(f) => self.ref_of(name@).is_some() && f@ == self@[self.ref_of(name@).unwrap()],
                None => !self.has_name(name@),
            },
    {
        match self.find_function(name) {
            Some(fn_ref) => Some(self.get_function(fn_ref)),
            None => None,
        }
    }

    /// Adds a function to the table and returns its handle. A function whose
    /// name is taken is refused, and the table stays as it is.
    pub fn add_function(&mut self, f: Function) -> (r: Result<FunctionRef, DuplicateDefinition>)
        requires
            old(self).wf(),
        ensures
            final(self).wf(),
            match r {
                Ok(fn_ref) => {
                    &&& !old(self).has_name(f.name@)
                    &&& !old(self)@.contains_key(fn_ref)
                    &&& final(self)@ == old(self)@.insert(fn_ref, f@)
                },
                Err(e) => {
                    &&& old(self).has_name(f.name@)
                    &&& e.name@ == f.name@
                    &&& final(self)@ == old(self)@
                },
            },
    {
        if self.function_name_lookup.contains_key(f.name.as_str()) {
            proof {
                let idx = self.function_name_lookup@[f.name@];
                let r = FunctionRef(idx);
                assert(self@.contains_key(r) && self@[r].name == f.name@);
            }
            return Err(DuplicateDefinition { name: f.name });
        }
        proof {
            if self.has_name(f.name@) {
                let r = choose|r: FunctionRef|
                    self@.contains_key(r) && (#[trigger] self@[r]).name == f.name@;
                assert(arena_entries(self.functions).contains_key(r.0));
            }
        }
        let name = f.name.clone();
        let ghost fv = f@;
        let idx = arena_insert(&mut self.functions, f);
        self.function_name_lookup.insert(name, idx);
        let fn_ref = FunctionRef(idx);
        proof {
            assert(self@ =~= old(self)@.insert(fn_ref, fv));
        }
        Ok(fn_ref)
    }

    /// Attaches a backend handle to the entry of `fn_ref`. An entry takes one
    /// handle in its lifetime: a second one is refused, and the table stays
    /// as it is.
    pub fn attach_codegen_data(&mut self, fn_ref: FunctionRef, data: CodegenFunctionDataRef) -> (r:
        Result<(), AlreadyAttached>)
        requires
            old(self).wf(),
            old(self)@.contains_key(fn_ref),
        ensures
            final(self).wf(),
            match r {
                Ok(_) => {
                    &&& old(self)@[fn_ref].codegen_data_ref.is_none()
                    &&& final(self)@ == old(self)@.insert(
                        fn_ref,
                        FunctionView { codegen_data_ref: Some(data), ..old(self)@[fn_ref] },
                    )
                },
                Err(e) => {
                    &&& old(self)@[fn_ref].codegen_data_ref.is_some()
                    &&& e.name@ == old(self)@[fn_ref].name
                    &&& final(self)@ == old(self)@
                },
            },
    {
        let r = match arena_get_mut(&mut self.functions, fn_ref.0) {
            Some(f) => f.attach_codegen_data(data),
            None => Ok(()),
        };
        proof {
            match r {
                Ok(_) => {
                    assert(final(self)@ =~= old(self)@.insert(
                        fn_ref,
                        FunctionView { codegen_data_ref: Some(data), ..old(self)@[fn_ref] },
                    ));
                },
                Err(_) => {
                    assert(final(self)@ =~= old(self)@);
                },
            }
        }
        r
    }
}

} // verus!
