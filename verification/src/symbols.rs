use vstd::prelude::*;
use crate::ast::{BinOp, Decl, Expr, ExprBox, Function, Program, Stmt, StmtBox};
use crate::host::HostFnId;
use crate::ids::{
    ClassId, FunId, INT64_ID, FLOAT64_ID, STRING_ID, ARRAY_ID, BYTEARRAY_ID, DICT_ID, NIL_ID, BOOL_ID,
};
use crate::lexer::{concat_msg, ParseError, SrcPos};
use crate::insns::str_eq;

verus! {

/// How deeply functions can be nested inside one another
pub const MAX_FUN_DEPTH: u64 = 10_000;

/// Environment with multiple levels of scoping. Declarations are kept
/// in the order they were made, each with the scope it belongs to, so
/// that the innermost one of a name is the last one made
pub struct Env {
    // Name, declaration and scope level of each declaration
    decls: Vec<(String, Decl, usize)>,

    // Next local variable slot index to assign, for each scope
    next_idx: Vec<usize>,
}

/// The innermost of a list of declarations that has a given name
pub open spec fn lookup_in(ds: Seq<(Seq<char>, Decl, nat)>, name: Seq<char>) -> Option<Decl>
    decreases ds.len(),
{
    if ds.len() == 0 {
        None
    } else if ds.last().0 == name {
        Some(ds.last().1)
    } else {
        lookup_in(ds.drop_last(), name)
    }
}

/// The declarations made in scopes below a given level, in order
pub open spec fn keep_below(ds: Seq<(Seq<char>, Decl, nat)>, level: nat) -> Seq<(Seq<char>, Decl, nat)>
    decreases ds.len(),
{
    if ds.len() == 0 {
        ds
    } else if ds.last().2 < level {
        keep_below(ds.drop_last(), level).push(ds.last())
    } else {
        keep_below(ds.drop_last(), level)
    }
}

/// A declaration shadows the earlier ones of the same name, and leaves
/// what other names refer to as it was
pub proof fn law_declaration_shadows(
    ds: Seq<(Seq<char>, Decl, nat)>,
    name: Seq<char>,
    d: Decl,
    level: nat,
    other: Seq<char>,
)
    ensures
        lookup_in(ds.push((name, d, level)), name) == Some(d),
        other != name ==> lookup_in(ds.push((name, d, level)), other) == lookup_in(ds, other),
{
    assert(ds.push((name, d, level)).drop_last() =~= ds);
}

proof fn lemma_keep_below_all(ds: Seq<(Seq<char>, Decl, nat)>, level: nat)
    requires
        forall|i: int| 0 <= i < ds.len() ==> (#[trigger] ds[i]).2 < level,
    ensures
        keep_below(ds, level) == ds,
    decreases ds.len(),
{
    if ds.len() > 0 {
        lemma_keep_below_all(ds.drop_last(), level);
        assert(ds.drop_last().push(ds.last()) =~= ds);
    }
}

proof fn lemma_keep_below_extra(ds: Seq<(Seq<char>, Decl, nat)>, extra: Seq<(Seq<char>, Decl, nat)>, level: nat)
    requires
        forall|i: int| 0 <= i < extra.len() ==> (#[trigger] extra[i]).2 >= level,
    ensures
        keep_below(ds + extra, level) == keep_below(ds, level),
    decreases extra.len(),
{
    if extra.len() == 0 {
        assert(ds + extra =~= ds);
    } else {
        assert((ds + extra).drop_last() =~= ds + extra.drop_last());
        assert((ds + extra).last() == extra.last());
        lemma_keep_below_extra(ds, extra.drop_last(), level);
    }
}

/// Scopes nest: when a scope closes, the declarations made in it are
/// forgotten, and every name refers again to what it referred to before
/// the scope was opened. `ds` are the declarations of the scopes around
/// the closing one, and `extra` those made in it.
pub proof fn law_closed_scope_is_forgotten(
    ds: Seq<(Seq<char>, Decl, nat)>,
    extra: Seq<(Seq<char>, Decl, nat)>,
    level: nat,
    name: Seq<char>,
)
    requires
        forall|i: int| 0 <= i < ds.len() ==> (#[trigger] ds[i]).2 < level,
        forall|i: int| 0 <= i < extra.len() ==> (#[trigger] extra[i]).2 == level,
    ensures
        lookup_in(keep_below(ds + extra, level), name) == lookup_in(ds, name),
{
    lemma_keep_below_extra(ds, extra, level);
    lemma_keep_below_all(ds, level);
}

impl Env {
    pub closed spec fn num_scopes(self) -> nat {
        self.next_idx@.len()
    }

    /// The declarations in scope, oldest first: the name, what it refers
    /// to, and the level of the scope it was made in
    pub closed spec fn decls_view(self) -> Seq<(Seq<char>, Decl, nat)> {
        self.decls@.map_values(|d: (String, Decl, usize)| (d.0@, d.1, d.2 as nat))
    }

    /// Level of the innermost scope
    pub closed spec fn top(self) -> nat {
        (self.next_idx@.len() - 1) as nat
    }

    /// What a name refers to: its innermost declaration
    pub open spec fn spec_lookup(self, name: Seq<char>) -> Option<Decl> {
        lookup_in(self.decls_view(), name)
    }

    /// Index the next variable of the innermost scope gets
    pub closed spec fn next_local(self) -> nat {
        self.next_idx@[self.next_idx@.len() - 1] as nat
    }

    /// Whether the innermost scope declares a name
    pub open spec fn in_top(self, name: Seq<char>) -> bool {
        exists|i: int| 0 <= i < self.decls_view().len() && (#[trigger] self.decls_view()[i]).0 == name
            && self.decls_view()[i].2 == self.top()
    }

    /// Whether some scope declares a name as an entity
    pub open spec fn declares(self, name: Seq<char>, d: Decl) -> bool {
        self.spec_lookup(name) == Some(d)
    }

    pub closed spec fn wf(self) -> bool {
        &&& self.next_idx@.len() > 0
        &&& forall|i: int| 0 <= i < self.decls@.len() ==> #[trigger] self.decls@[i].2 < self.next_idx@.len()
        &&& forall|i: int| 0 <= i < self.next_idx@.len() ==> #[trigger] self.next_idx@[i] < u32::MAX
    }

    /// An environment with one scope
    pub fn new() -> (r: Env)
        ensures
            r.wf(),
            r.num_scopes() == 1,
            r.top() == 0,
            r.decls_view() == Seq::<(Seq<char>, Decl, nat)>::empty(),
    {
        let mut next_idx: Vec<usize> = Vec::new();
        next_idx.push(0);
        let r = Env { decls: Vec::new(), next_idx };
        assert(r.decls_view() =~= Seq::<(Seq<char>, Decl, nat)>::empty());
        r
    }

    /// Every declaration in scope was made at the innermost level or
    /// outside it
    pub proof fn lemma_levels(self)
        requires
            self.wf(),
        ensures
            self.top() + 1 == self.num_scopes(),
            forall|i: int| 0 <= i < self.decls_view().len() ==> #[trigger] self.decls_view()[i].2 <= self.top(),
    {
        assert forall|i: int| 0 <= i < self.decls_view().len() implies #[trigger] self.decls_view()[i].2 <= self.top() by {
            assert(self.decls@[i].2 < self.next_idx@.len());
        }
    }

    /// Open a scope, whose locals take slots after those of the scope
    /// around it
    pub fn push_scope(&mut self)
        requires
            old(self).wf(),
        ensures
            final(self).wf(),
            final(self).num_scopes() == old(self).num_scopes() + 1,
            final(self).top() == old(self).top() + 1,
            final(self).decls_view() == old(self).decls_view(),
    {
        let n = self.next_idx.len();
        let next = self.next_idx[n - 1];
        self.next_idx.push(next);
    }

    /// Close the innermost scope, forgetting its declarations
    pub fn pop_scope(&mut self)
        requires
            old(self).wf(),
            old(self).num_scopes() > 1,
        ensures
            final(self).wf(),
            final(self).num_scopes() == old(self).num_scopes() - 1,
            final(self).top() == old(self).top() - 1,
            final(self).decls_view() == keep_below(old(self).decls_view(), old(self).top()),
    {
        let top = self.next_idx.len() - 1;
        while self.decls.len() > 0 && self.decls[self.decls.len() - 1].2 >= top
            invariant
                self.wf(),
                top == self.next_idx@.len() - 1,
                top == old(self).top(),
                self.next_idx@ == old(self).next_idx@,
                keep_below(self.decls_view(), top as nat) == keep_below(old(self).decls_view(), top as nat),
            decreases self.decls@.len(),
        {
            let ghost before = self.decls_view();
            self.decls.pop();
            assert(self.decls_view() =~= before.drop_last());
        }
        // Any declaration left below belongs to an outer scope
        let mut kept: Vec<(String, Decl, usize)> = Vec::new();
        let mut i: usize = 0;
        let n = self.decls.len();
        while i < n
            invariant
                n == self.decls@.len(),
                i <= n,
                forall|j: int| 0 <= j < kept@.len() ==> #[trigger] kept@[j].2 < top,
                kept@.map_values(|d: (String, Decl, usize)| (d.0@, d.1, d.2 as nat))
                    == keep_below(self.decls_view().take(i as int), top as nat),
            decreases n - i,
        {
            let ghost view = self.decls_view();
            let ghost prev = kept@;
            proof {
                assert(view.take(i as int + 1).drop_last() =~= view.take(i as int));
                assert(view.take(i as int + 1).last() == view[i as int]);
            }
            if self.decls[i].2 < top {
                let (name, decl, level) = (self.decls[i].0.clone(), self.decls[i].1, self.decls[i].2);
                kept.push((name, decl, level));
                assert(kept@.map_values(|d: (String, Decl, usize)| (d.0@, d.1, d.2 as nat))
                    =~= prev.map_values(|d: (String, Decl, usize)| (d.0@, d.1, d.2 as nat)).push(view[i as int]));
            }
            i = i + 1;
        }
        assert(self.decls_view().take(n as int) =~= self.decls_view());
        self.decls = kept;
        self.next_idx.pop();
    }

    /// Whether the innermost scope declares a name
    fn in_top_scope(&self, name: &str) -> (r: bool)
        requires
            self.wf(),
        ensures
            r == self.in_top(name@),
    {
        let top = self.next_idx.len() - 1;
        let n = self.decls.len();
        let mut i: usize = 0;
        while i < n
            invariant
                n == self.decls@.len(),
                self.decls_view().len() == n,
                top == self.top(),
                i <= n,
                forall|j: int| 0 <= j < i ==> !((#[trigger] self.decls_view()[j]).0 == name@
                    && self.decls_view()[j].2 == self.top()),
            decreases n - i,
        {
            if self.decls[i].2 == top && str_eq(self.decls[i].0.as_str(), name) {
                assert(self.decls_view()[i as int].0 == name@);
                return true;
            }
            i = i + 1;
        }
        false
    }

    /// Define a new entity in the current scope
    pub fn define(&mut self, name: &str, decl: Decl, pos: SrcPos) -> (r: Result<Decl, ParseError>)
        requires
            old(self).wf(),
        ensures
            final(self).wf(),
            final(self).num_scopes() == old(self).num_scopes(),
            final(self).top() == old(self).top(),
            r is Err <==> old(self).in_top(name@),
            r is Err ==> *final(self) == *old(self),
            r matches Ok(d) ==> d == decl
                && final(self).decls_view() == old(self).decls_view().push((name@, decl, old(self).top())),
    {
        if self.in_top_scope(name) {
            return ParseError::with_pos(concat_msg("two declarations with name \"", name, "\"").as_str(), &pos);
        }
        let top = self.next_idx.len() - 1;
        let ghost before = self.decls_view();
        self.decls.push((name.to_owned(), decl, top));
        assert(self.decls_view() =~= before.push((name@, decl, old(self).top())));
        Ok(decl)
    }

    /// Define a new local variable in the current scope. In a unit-level
    /// function it is a global
    pub fn define_local(&mut self, name: &str, mutable: bool, fun: &mut Function, pos: SrcPos) -> (r: Result<Decl, ParseError>)
        requires
            old(self).wf(),
        ensures
            final(self).wf(),
            final(self).num_scopes() == old(self).num_scopes(),
            final(fun).id == old(fun).id,
            final(fun).is_unit == old(fun).is_unit,
            final(fun).name == old(fun).name,
            final(fun).params == old(fun).params,
            final(fun).captured == old(fun).captured,
            final(fun).escaping == old(fun).escaping,
            final(fun).class_id == old(fun).class_id,
            r matches Ok(d) ==> (old(fun).is_unit ==> (d matches Decl::Global { mutable: m, .. } && m == mutable)),
            r matches Ok(d) ==> (!old(fun).is_unit ==> (d matches Decl::Local { src_fun, mutable: m, .. }
                && src_fun == old(fun).id && m == mutable)),
            final(self).top() == old(self).top(),
            old(self).in_top(name@) ==> r is Err,
            r is Err ==> *final(self) == *old(self) && *final(fun) == *old(fun),
            r matches Ok(d) ==> final(self).decls_view() == old(self).decls_view().push((name@, d, old(self).top())),
            r is Err <==> old(self).in_top(name@) || old(self).next_local() + 1 >= u32::MAX,
            r matches Ok(d) ==> match d {
                Decl::Global { idx, .. } => idx == old(self).next_local(),
                Decl::Local { idx, .. } => idx == old(self).next_local(),
                _ => false,
            },
            r is Ok ==> final(self).next_local() == old(self).next_local() + 1
                && final(fun).num_locals == (if old(fun).num_locals > old(self).next_local() {
                    old(fun).num_locals as int
                } else {
                    (old(self).next_local() + 1) as int
                }),
    {
        if self.in_top_scope(name) {
            return ParseError::with_pos(concat_msg("two declarations with name \"", name, "\"").as_str(), &pos);
        }
        let top = self.next_idx.len() - 1;
        let idx = self.next_idx[top];
        if idx + 1 >= u32::MAX as usize {
            return ParseError::with_pos("too many variables in one function", &pos);
        }

        let decl = if fun.is_unit {
            Decl::Global { idx: idx as u32, mutable }
        } else {
            Decl::Local { idx: idx as u32, src_fun: fun.id, mutable }
        };

        self.next_idx.set(top, idx + 1);
        if idx + 1 > fun.num_locals {
            fun.num_locals = idx + 1;
        }

        let ghost before = self.decls_view();
        self.decls.push((name.to_owned(), decl, top));
        assert(self.decls_view() =~= before.push((name@, decl, old(self).top())));
        Ok(decl)
    }

    /// The innermost declaration of a name
    pub fn lookup(&self, name: &str) -> (r: Option<Decl>)
        ensures
            r == self.spec_lookup(name@),
    {
        let ghost view = self.decls_view();
        let mut i: usize = self.decls.len();
        assert(view.take(i as int) =~= view);
        while i > 0
            invariant
                i <= self.decls@.len(),
                view == self.decls_view(),
                view.len() == self.decls@.len(),
                lookup_in(view, name@) == lookup_in(view.take(i as int), name@),
            decreases i,
        {
            assert(view.take(i as int).drop_last() =~= view.take(i as int - 1));
            assert(view.take(i as int).last() == view[i as int - 1]);
            i = i - 1;
            if str_eq(self.decls[i].0.as_str(), name) {
                return Some(self.decls[i].1);
            }
        }
        None
    }
}

/// Whether a declaration is a variable of a function other than `fun`,
/// which a closure has to capture
pub open spec fn from_other_fun(decl: Decl, fun: FunId) -> bool {
    match decl {
        Decl::Arg { src_fun, .. } => src_fun != fun,
        Decl::Local { src_fun, .. } => src_fun != fun,
        _ => false,
    }
}

fn is_from_other_fun(decl: &Decl, fun: FunId) -> (r: bool)
    ensures
        r == from_other_fun(*decl, fun),
{
    match *decl {
        Decl::Arg { src_fun, .. } => src_fun != fun,
        Decl::Local { src_fun, .. } => src_fun != fun,
        _ => false,
    }
}

/// What resolution keeps of a function apart from its body and counts
pub open spec fn same_fun(a: Function, b: Function) -> bool {
    &&& a.id == b.id
    &&& a.is_unit == b.is_unit
    &&& a.name == b.name
    &&& a.params == b.params
    &&& a.class_id == b.class_id
}

/// A name looks up to nothing where no declaration in scope has it
proof fn lemma_lookup_absent(ds: Seq<(Seq<char>, Decl, nat)>, name: Seq<char>)
    requires
        forall|i: int| 0 <= i < ds.len() ==> (#[trigger] ds[i]).0 != name,
    ensures
        lookup_in(ds, name) is None,
    decreases ds.len(),
{
    if ds.len() > 0 {
        assert(ds.last() == ds[ds.len() - 1]);
        lemma_lookup_absent(ds.drop_last(), name);
    }
}

/// Scopes nest under `define`, `push_scope` and `pop_scope`. From `e0`,
/// defining `n` as `d1` gives `e1`, opening a scope gives `e2`, defining
/// `n` again as `d2` gives `e3`, and closing that scope gives `e4`. In
/// `e3` the name refers to `d2`, the innermost declaration; in `e4` it
/// refers to `d1` again; and a name no declaration in scope has refers
/// to nothing.
pub proof fn law_scopes_nest(e0: Env, e1: Env, e2: Env, e3: Env, e4: Env,
    n: Seq<char>, d1: Decl, d2: Decl, m: Seq<char>)
    requires
        e0.wf(),
        e1.wf() && e1.top() == e0.top() && e1.decls_view() == e0.decls_view().push((n, d1, e0.top())),
        e2.wf() && e2.top() == e1.top() + 1 && e2.decls_view() == e1.decls_view(),
        e3.wf() && e3.top() == e2.top() && e3.decls_view() == e2.decls_view().push((n, d2, e2.top())),
        e4.wf() && e4.decls_view() == keep_below(e3.decls_view(), e3.top()),
    ensures
        e3.spec_lookup(n) == Some(d2),
        e4.spec_lookup(n) == Some(d1),
        (forall|i: int| 0 <= i < e4.decls_view().len() ==> (#[trigger] e4.decls_view()[i]).0 != m)
            ==> e4.spec_lookup(m) is None,
{
    law_declaration_shadows(e2.decls_view(), n, d2, e2.top(), n);
    e0.lemma_levels();
    let ds = e1.decls_view();
    assert forall|i: int| 0 <= i < ds.len() implies (#[trigger] ds[i]).2 < e3.top() by {
        if i < ds.len() - 1 {
            assert(ds[i] == e0.decls_view()[i]);
        }
    }
    let extra = seq![(n, d2, e2.top())];
    assert(e3.decls_view() =~= ds + extra);
    law_closed_scope_is_forgotten(ds, extra, e3.top(), n);
    law_declaration_shadows(e0.decls_view(), n, d1, e0.top(), n);
    if forall|i: int| 0 <= i < e4.decls_view().len() ==> (#[trigger] e4.decls_view()[i]).0 != m {
        lemma_lookup_absent(e4.decls_view(), m);
    }
}

impl Program {
    /// Resolve every name of the program to what it refers to
    pub fn resolve_syms(&mut self) -> (r: Result<(), ParseError>)
        requires
            old(self).wf(),
        ensures
            final(self).wf(),
            final(self).funs@.len() == old(self).funs@.len(),
            final(self).main_fn == old(self).main_fn,
            !old(self).has_fun(old(self).main_fn) ==> r is Err,
            r is Ok ==> exists|i: int| 0 <= i < old(self).funs@.len()
                && (#[trigger] old(self).funs@[i]).id == old(self).main_fn
                && same_fun(final(self).funs@[i], old(self).funs@[i])
                && stmt_resolves_to(old(self).funs@[i].body, final(self).funs@[i].body)
                && final(self).num_globals == old(self).num_globals + final(self).funs@[i].num_locals,
    {
        let mut env = Env::new();

        // The classes of the core runtime, then those of the unit
        let p = SrcPos(0);
        env.define("Nil", Decl::Class { id: ClassId::new(NIL_ID) }, p)?;
        env.define("Bool", Decl::Class { id: ClassId::new(BOOL_ID) }, p)?;
        env.define("Int64", Decl::Class { id: ClassId::new(INT64_ID) }, p)?;
        env.define("Float64", Decl::Class { id: ClassId::new(FLOAT64_ID) }, p)?;
        env.define("String", Decl::Class { id: ClassId::new(STRING_ID) }, p)?;
        env.define("Array", Decl::Class { id: ClassId::new(ARRAY_ID) }, p)?;
        env.define("ByteArray", Decl::Class { id: ClassId::new(BYTEARRAY_ID) }, p)?;
        env.define("Dict", Decl::Class { id: ClassId::new(DICT_ID) }, p)?;

        let n = self.main_unit.classes.len();
        let mut k: usize = 0;
        while k < n
            invariant
                env.wf(),
                env.num_scopes() == 1,
                *self == *old(self),
                self.wf(),
                n == self.main_unit.classes@.len(),
                k <= n,
            decreases n - k,
        {
            let id = self.main_unit.classes[k].1;
            env.define(self.main_unit.classes[k].0.as_str(), Decl::Class { id }, p)?;
            k = k + 1;
        }

        // Process the unit function
        let i = match self.fun_idx(self.main_fn) {
            Some(i) => i,
            None => { return ParseError::with_pos("the program has no main unit", &p); }
        };
        let unit_fn = self.take_fun(i);
        let unit_fn = resolve_function(unit_fn, self, &mut env, MAX_FUN_DEPTH)?;

        // Update the number of globals
        if unit_fn.num_locals > (u32::MAX - self.num_globals) as usize {
            return ParseError::with_pos("too many global variables", &p);
        }
        self.num_globals = self.num_globals + unit_fn.num_locals as u32;

        // Move the unit function back on the program
        self.put_fun(i, unit_fn);
        assert(old(self).funs@[i as int].id == old(self).main_fn);
        Ok(())
    }
}

/// What every resolution step keeps and needs
pub open spec fn resolution_kept(p0: Program, p1: Program, e0: Env, e1: Env, f0: Function, f1: Function) -> bool {
    &&& p1.wf()
    &&& p1.funs@.len() == p0.funs@.len()
    &&& p1.main_fn == p0.main_fn
    &&& p1.last_id == p0.last_id
    &&& p1.num_globals == p0.num_globals
    &&& e1.wf()
    &&& same_fun(f1, f0)
}

/// Resolve the names used in a function
fn resolve_function(fun: Function, prog: &mut Program, env: &mut Env, depth: u64) -> (r: Result<Function, ParseError>)
    requires
        old(prog).wf(),
        old(env).wf(),
        fun.id.index() <= old(prog).last_id,
    ensures
        final(prog).wf(),
        final(prog).funs@.len() == old(prog).funs@.len(),
        final(prog).main_fn == old(prog).main_fn,
        final(prog).last_id == old(prog).last_id,
        final(prog).num_globals == old(prog).num_globals,
        final(env).wf(),
        r is Ok ==> final(env).num_scopes() == old(env).num_scopes(),
        r matches Ok(f) ==> same_fun(f, fun),
        r matches Ok(f) ==> stmt_resolves_to(fun.body, f.body),
    decreases depth, 3int, fun,
{
    let mut fun = fun;
    env.push_scope();

    // Declare the function arguments
    let n = fun.params.len();
    let mut k: usize = 0;
    while k < n
        invariant
            env.wf(),
            env.num_scopes() == old(env).num_scopes() + 1,
            n == fun.params@.len(),
            k <= n,
            *prog == *old(prog),
            prog.wf(),
        decreases n - k,
    {
        if k >= u32::MAX as usize {
            return ParseError::with_pos("too many function parameters", &fun.pos);
        }
        let decl = Decl::Arg { idx: k as u32, src_fun: fun.id };
        env.define(fun.params[k].as_str(), decl, fun.pos)?;
        k = k + 1;
    }

    let mut body = StmtBox::empty();
    std::mem::swap(&mut body, &mut fun.body);
    let new_body = resolve_stmt(&body, prog, &mut fun, env, depth)?;
    fun.body = new_body;

    env.pop_scope();

    Ok(fun)
}

/// The name a `let` statement declares
pub open spec fn declared_name(stmt: StmtBox) -> Seq<char> {
    match *stmt.stmt {
        Stmt::Let { var_name, .. } => var_name@,
        _ => Seq::empty(),
    }
}

/// The declaration a statement of a block is given before the block
/// runs: a function declared by `let` is visible to the whole block
fn predeclare(stmt: &StmtBox, fun: &mut Function, env: &mut Env) -> (r: Result<Option<Decl>, ParseError>)
    requires
        old(env).wf(),
    ensures
        final(env).wf(),
        final(env).num_scopes() == old(env).num_scopes(),
        same_fun(*final(fun), *old(fun)),
        r is Err ==> *final(env) == *old(env) && *final(fun) == *old(fun),
        r matches Ok(None) ==> *final(env) == *old(env) && *final(fun) == *old(fun),
        r matches Ok(Some(d)) ==> final(env).decls_view() == old(env).decls_view().push((declared_name(*stmt), d, old(env).top())),
        match *stmt.stmt {
            Stmt::Let { mutable, var_name, init_expr, .. } => match *init_expr.expr {
                Expr::Fun { fun_id, .. } => if old(fun).is_unit && !mutable {
                    &&& (r is Err <==> old(env).in_top(var_name@))
                    &&& (r is Ok ==> r == Ok::<Option<Decl>, ParseError>(Some(Decl::Fun { id: fun_id })))
                } else {
                    &&& (r is Err <==> old(env).in_top(var_name@) || old(env).next_local() + 1 >= u32::MAX)
                    &&& (r matches Ok(od) ==> od matches Some(d) && match d {
                        Decl::Global { idx, mutable: m } => old(fun).is_unit && idx == old(env).next_local() && m == mutable,
                        Decl::Local { idx, src_fun, mutable: m } => !old(fun).is_unit && idx == old(env).next_local()
                            && src_fun == old(fun).id && m == mutable,
                        _ => false,
                    })
                },
                _ => r matches Ok(None),
            },
            _ => r matches Ok(None),
        },
{
    match &*stmt.stmt {
        Stmt::Let { mutable, var_name, init_expr, .. } => {
            match &*init_expr.expr {
                Expr::Fun { fun_id, .. } => {
                    let new_decl = if fun.is_unit && !*mutable {
                        env.define(var_name.as_str(), Decl::Fun { id: *fun_id }, stmt.pos)?
                    } else {
                        env.define_local(var_name.as_str(), *mutable, fun, stmt.pos)?
                    };
                    Ok(Some(new_decl))
                }
                _ => Ok(None),
            }
        }
        _ => Ok(None),
    }
}

/// Resolve the names used in the statements of a block
fn resolve_block(stmts: &Vec<StmtBox>, prog: &mut Program, fun: &mut Function, env: &mut Env, depth: u64) -> (r: Result<Vec<StmtBox>, ParseError>)
    requires
        old(prog).wf(),
        old(env).wf(),
        old(fun).id.index() <= old(prog).last_id,
    ensures
        resolution_kept(*old(prog), *final(prog), *old(env), *final(env), *old(fun), *final(fun)),
        r is Ok ==> final(env).num_scopes() == old(env).num_scopes(),
        r matches Ok(v) ==> v@.len() == stmts@.len()
            && forall|i: int| 0 <= i < stmts@.len() ==> stmt_resolves_to(#[trigger] stmts@[i], v@[i]),
    decreases depth, 2int, stmts,
{
    env.push_scope();

    // Pre-declare functions before symbols are resolved, so that they can
    // refer to each other
    let n = stmts.len();
    let mut pre: Vec<Option<Decl>> = Vec::new();
    let mut k: usize = 0;
    while k < n
        invariant
            env.wf(),
            env.num_scopes() == old(env).num_scopes() + 1,
            same_fun(*fun, *old(fun)),
            n == stmts@.len(),
            k <= n,
            pre@.len() == k,
            *prog == *old(prog),
            prog.wf(),
        decreases n - k,
    {
        let d = predeclare(&stmts[k], fun, env)?;
        pre.push(d);
        k = k + 1;
    }

    let mut out: Vec<StmtBox> = Vec::new();
    let mut k: usize = 0;
    while k < n
        invariant
            resolution_kept(*old(prog), *prog, *old(env), *env, *old(fun), *fun),
            env.num_scopes() == old(env).num_scopes() + 1,
            old(fun).id.index() <= old(prog).last_id,
            n == stmts@.len(),
            pre@.len() == n,
            k <= n,
            out@.len() == k,
            forall|i: int| 0 <= i < k ==> stmt_resolves_to(#[trigger] stmts@[i], out@[i]),
        decreases n - k,
    {
        assert(decreases_to!(stmts => stmts@[k as int]));
        let stmt = resolve_stmt(&stmts[k], prog, fun, env, depth)?;

        // A pre-declared function keeps the declaration it was given
        let stmt = match pre[k] {
            Some(d) => {
                let StmtBox { stmt: inner, pos } = stmt;
                let rebuilt = match *inner {
                    Stmt::Let { mutable, var_name, init_expr, decl: _ } => {
                        Stmt::Let { mutable, var_name, init_expr, decl: Some(d) }
                    }
                    other => other,
                };
                StmtBox::new(rebuilt, pos)
            }
            None => stmt,
        };
        out.push(stmt);
        k = k + 1;
    }

    env.pop_scope();
    Ok(out)
}

/// Resolve the names used in a statement
fn resolve_stmt(s: &StmtBox, prog: &mut Program, fun: &mut Function, env: &mut Env, depth: u64) -> (r: Result<StmtBox, ParseError>)
    requires
        old(prog).wf(),
        old(env).wf(),
        old(fun).id.index() <= old(prog).last_id,
    ensures
        resolution_kept(*old(prog), *final(prog), *old(env), *final(env), *old(fun), *final(fun)),
        r is Ok ==> final(env).num_scopes() == old(env).num_scopes(),
        r matches Ok(x) ==> stmt_resolves_to(*s, x),
    decreases depth, 2int, s,
{
    let pos = s.pos;
    let new_stmt = match &*s.stmt {
        Stmt::Break => Stmt::Break,
        Stmt::Continue => Stmt::Continue,

        Stmt::Return { value: expr } => Stmt::Return { value: resolve_expr(expr, prog, fun, env, depth)? },

        Stmt::Expr { value: expr } => Stmt::Expr { value: resolve_expr(expr, prog, fun, env, depth)? },

        Stmt::Block(stmts) => Stmt::Block(resolve_block(stmts, prog, fun, env, depth)?),

        Stmt::If { test_expr, then_stmt, else_stmt } => {
            let test_expr = resolve_expr(test_expr, prog, fun, env, depth)?;
            let then_stmt = resolve_stmt(then_stmt, prog, fun, env, depth)?;
            let else_stmt = match else_stmt {
                Some(e) => Some(resolve_stmt(e, prog, fun, env, depth)?),
                None => None,
            };
            Stmt::If { test_expr, then_stmt, else_stmt }
        }

        Stmt::For { init_stmt, test_expr, incr_expr, body_stmt } => {
            // The loop variables are local to the loop
            env.push_scope();
            let init_stmt = resolve_stmt(init_stmt, prog, fun, env, depth)?;
            let test_expr = resolve_expr(test_expr, prog, fun, env, depth)?;
            let incr_expr = resolve_expr(incr_expr, prog, fun, env, depth)?;
            let body_stmt = resolve_stmt(body_stmt, prog, fun, env, depth)?;
            env.pop_scope();
            Stmt::For { init_stmt, test_expr, incr_expr, body_stmt }
        }

        Stmt::Assert { test_expr } => Stmt::Assert { test_expr: resolve_expr(test_expr, prog, fun, env, depth)? },


        // Variable declaration
        Stmt::Let { mutable, var_name, init_expr, decl } => {
            let is_fun = match &*init_expr.expr {
                Expr::Fun { .. } => true,
                _ => false,
            };
            let init_expr = resolve_expr(init_expr, prog, fun, env, depth)?;

            // Functions have already been pre-declared
            let decl = if is_fun {
                *decl
            } else {
                Some(env.define_local(var_name.as_str(), *mutable, fun, pos)?)
            };
            Stmt::Let { mutable: *mutable, var_name: var_name.clone(), init_expr, decl }
        }

        // The methods of a class see the names declared before it
        Stmt::ClassDecl { class_id } => {
            let class_id = *class_id;
            if depth == 0 {
                return ParseError::with_pos("functions are nested too deeply", &pos);
            }
            let ci = match prog.class_idx(class_id) {
                Some(ci) => ci,
                None => { return ParseError::with_pos("reference to an unknown class", &pos); }
            };

            // The functions that implement the methods
            let mut method_ids: Vec<FunId> = Vec::new();
            let m = prog.classes[ci].methods.len();
            let mut k: usize = 0;
            while k < m
                invariant
                    ci < prog.classes@.len(),
                    m == prog.classes@[ci as int].methods@.len(),
                    k <= m,
                decreases m - k,
            {
                method_ids.push(prog.classes[ci].methods[k].1);
                k = k + 1;
            }

            let mut k: usize = 0;
            while k < method_ids.len()
                invariant
                    *fun == *old(fun),
                    prog.wf(),
                    prog.funs@.len() == old(prog).funs@.len(),
                    prog.main_fn == old(prog).main_fn,
                    prog.last_id == old(prog).last_id,
                    prog.num_globals == old(prog).num_globals,
                    env.wf(),
                    env.num_scopes() == old(env).num_scopes(),
                    depth > 0,
                decreases method_ids.len() - k,
            {
                let i = match prog.fun_idx(method_ids[k]) {
                    Some(i) => i,
                    None => { return ParseError::with_pos("reference to an unknown function", &pos); }
                };
                let method = prog.take_fun(i);
                let method = resolve_function(method, prog, env, depth - 1)?;
                prog.put_fun(i, method);
                k = k + 1;
            }
            Stmt::ClassDecl { class_id }
        }
    };
    Ok(StmtBox::new(new_stmt, pos))
}

/// Whether statement `b` is `a` with its names resolved: the same
/// statements, whose expressions are resolved, and where each variable
/// declared by `let`, but for a function, has been given its declaration
pub open spec fn stmt_resolves_to(a: StmtBox, b: StmtBox) -> bool
    decreases a,
{
    &&& a.pos == b.pos
    &&& match *a.stmt {
        Stmt::Expr { value } => (*b.stmt matches Stmt::Expr { value: v2 } && resolves_to(value, v2)),
        Stmt::Return { value } => (*b.stmt matches Stmt::Return { value: v2 } && resolves_to(value, v2)),
        Stmt::Block(stmts) => (*b.stmt matches Stmt::Block(ys) && ys@.len() == stmts@.len()
            && forall|i: int| 0 <= i < stmts@.len() ==> stmt_resolves_to(#[trigger] stmts@[i], ys@[i])),
        Stmt::If { test_expr, then_stmt, else_stmt } => (*b.stmt matches Stmt::If { test_expr: t2, then_stmt: h2, else_stmt: e2 }
            && resolves_to(test_expr, t2) && stmt_resolves_to(then_stmt, h2)
            && match else_stmt {
                Some(e) => (e2 matches Some(x) && stmt_resolves_to(e, x)),
                None => e2 is None,
            }),
        Stmt::For { init_stmt, test_expr, incr_expr, body_stmt } => (*b.stmt matches Stmt::For {
                init_stmt: i2, test_expr: t2, incr_expr: c2, body_stmt: b2 }
            && stmt_resolves_to(init_stmt, i2) && resolves_to(test_expr, t2)
            && resolves_to(incr_expr, c2) && stmt_resolves_to(body_stmt, b2)),
        Stmt::Assert { test_expr } => (*b.stmt matches Stmt::Assert { test_expr: t2 } && resolves_to(test_expr, t2)),
        Stmt::Let { mutable, var_name, init_expr, .. } => (*b.stmt matches Stmt::Let {
                mutable: m2, var_name: n2, init_expr: i2, decl: d2 }
            && m2 == mutable && n2 == var_name && resolves_to(init_expr, i2)
            && (!(*init_expr.expr is Fun) ==> d2 is Some)),
        _ => *b.stmt == *a.stmt,
    }
}

/// Whether an identifier resolved to the innermost declaration of its
/// name that is visible: as it is where the declaration belongs to the
/// function being resolved or is global, else as a captured variable of
/// the same mutability
pub open spec fn binds_innermost(a: ExprBox, b: ExprBox, env: Env, fun: FunId) -> bool {
    match *a.expr {
        Expr::Ident(name) => (*b.expr matches Expr::Ref { decl, .. } && (env.spec_lookup(name@) matches Some(d)
            && if from_other_fun(d, fun) {
                decl matches Decl::Captured { mutable, .. } && mutable == d.spec_is_mutable()
            } else {
                decl == d
            })),
        _ => true,
    }
}

/// Whether an expression, if it is an assignment to a resolved variable,
/// assigns to a mutable one
pub open spec fn assigns_mutable(x: ExprBox) -> bool {
    match *x.expr {
        Expr::Binary { op: BinOp::Assign, lhs, .. } => match *lhs.expr {
            Expr::Ref { decl, .. } => decl.spec_is_mutable(),
            _ => true,
        },
        _ => true,
    }
}

/// Whether `b` is `a` with its names resolved: the same tree, where each
/// identifier has become a reference under the same name, each host
/// constant a value, and each function and type test keeps what it names
pub open spec fn resolves_to(a: ExprBox, b: ExprBox) -> bool
    decreases a,
{
    &&& a.pos == b.pos
    &&& match *a.expr {
        Expr::ByteArray(x) => (*b.expr matches Expr::ByteArray(y) && y@ == x@),
        Expr::Array { exprs } => (*b.expr matches Expr::Array { exprs: ys }
            && ys@.len() == exprs@.len()
            && forall|i: int| 0 <= i < exprs@.len() ==> resolves_to(#[trigger] exprs@[i], ys@[i])),
        Expr::Dict { pairs } => (*b.expr matches Expr::Dict { pairs: ys }
            && ys@.len() == pairs@.len()
            && forall|i: int| 0 <= i < pairs@.len() ==> (#[trigger] pairs@[i]).0 == ys@[i].0
                && resolves_to(pairs@[i].1, ys@[i].1)),
        Expr::Ident(name) => (*b.expr matches Expr::Ref { name: n2, .. } && n2 == name),
        Expr::HostConst(_) => (*b.expr is True || *b.expr is False || *b.expr is HostFn),
        Expr::Fun { fun_id, .. } => (*b.expr matches Expr::Fun { fun_id: f2, .. } && f2 == fun_id),
        Expr::Index { base, index } => (*b.expr matches Expr::Index { base: b2, index: i2 }
            && resolves_to(base, b2) && resolves_to(index, i2)),
        Expr::Member { base, field } => (*b.expr matches Expr::Member { base: b2, field: f2 }
            && resolves_to(base, b2) && f2 == field),
        Expr::InstanceOf { val, class_name, .. } => (*b.expr matches Expr::InstanceOf { val: v2, class_name: n2, .. }
            && resolves_to(val, v2) && n2 == class_name),
        Expr::Unary { op, child } => (*b.expr matches Expr::Unary { op: o2, child: c2 }
            && o2 == op && resolves_to(child, c2)),
        Expr::Binary { op, lhs, rhs } => (*b.expr matches Expr::Binary { op: o2, lhs: l2, rhs: r2 }
            && o2 == op && resolves_to(lhs, l2) && resolves_to(rhs, r2)),
        Expr::Ternary { test_expr, then_expr, else_expr } => (*b.expr matches Expr::Ternary { test_expr: t2, then_expr: h2, else_expr: e2 }
            && resolves_to(test_expr, t2) && resolves_to(then_expr, h2) && resolves_to(else_expr, e2)),
        Expr::Call { callee, args } => (*b.expr matches Expr::Call { callee: c2, args: a2 }
            && resolves_to(callee, c2) && a2@.len() == args@.len()
            && forall|i: int| 0 <= i < args@.len() ==> resolves_to(#[trigger] args@[i], a2@[i])),
        _ => *b.expr == *a.expr,
    }
}

/// Resolve the names used in a list of expressions
fn resolve_exprs(exprs: &Vec<ExprBox>, prog: &mut Program, fun: &mut Function, env: &mut Env, depth: u64) -> (r: Result<Vec<ExprBox>, ParseError>)
    requires
        old(prog).wf(),
        old(env).wf(),
        old(fun).id.index() <= old(prog).last_id,
    ensures
        resolution_kept(*old(prog), *final(prog), *old(env), *final(env), *old(fun), *final(fun)),
        r is Ok ==> final(env).num_scopes() == old(env).num_scopes(),
        r matches Ok(v) ==> v@.len() == exprs@.len(),
        r matches Ok(v) ==> forall|i: int| 0 <= i < exprs@.len() ==> resolves_to(#[trigger] exprs@[i], v@[i]),
    decreases depth, 1int, exprs,
{
    let mut out: Vec<ExprBox> = Vec::new();
    let n = exprs.len();
    let mut k: usize = 0;
    while k < n
        invariant
            resolution_kept(*old(prog), *prog, *old(env), *env, *old(fun), *fun),
            env.num_scopes() == old(env).num_scopes(),
            old(fun).id.index() <= old(prog).last_id,
            n == exprs@.len(),
            k <= n,
            out@.len() == k,
            forall|i: int| 0 <= i < k ==> resolves_to(#[trigger] exprs@[i], out@[i]),
        decreases n - k,
    {
        assert(decreases_to!(exprs => exprs@[k as int]));
        let e = resolve_expr(&exprs[k], prog, fun, env, depth)?;
        out.push(e);
        k = k + 1;
    }
    Ok(out)
}

/// Resolve the names used in a list of named expressions
fn resolve_pairs(pairs: &Vec<(String, ExprBox)>, prog: &mut Program, fun: &mut Function, env: &mut Env, depth: u64) -> (r: Result<Vec<(String, ExprBox)>, ParseError>)
    requires
        old(prog).wf(),
        old(env).wf(),
        old(fun).id.index() <= old(prog).last_id,
    ensures
        resolution_kept(*old(prog), *final(prog), *old(env), *final(env), *old(fun), *final(fun)),
        r is Ok ==> final(env).num_scopes() == old(env).num_scopes(),
        r matches Ok(v) ==> v@.len() == pairs@.len() && forall|i: int| 0 <= i < pairs@.len()
            ==> (#[trigger] pairs@[i]).0 == v@[i].0 && resolves_to(pairs@[i].1, v@[i].1),
    decreases depth, 1int, pairs,
{
    let mut out: Vec<(String, ExprBox)> = Vec::new();
    let n = pairs.len();
    let mut k: usize = 0;
    while k < n
        invariant
            resolution_kept(*old(prog), *prog, *old(env), *env, *old(fun), *fun),
            env.num_scopes() == old(env).num_scopes(),
            old(fun).id.index() <= old(prog).last_id,
            n == pairs@.len(),
            k <= n,
            out@.len() == k,
            forall|i: int| 0 <= i < k ==> (#[trigger] pairs@[i]).0 == out@[i].0 && resolves_to(pairs@[i].1, out@[i].1),
        decreases n - k,
    {
        assert(decreases_to!(pairs => pairs@[k as int]));
        let e = resolve_expr(&pairs[k].1, prog, fun, env, depth)?;
        out.push((pairs[k].0.clone(), e));
        k = k + 1;
    }
    Ok(out)
}

/// Resolve the names used in an expression
fn resolve_expr(e: &ExprBox, prog: &mut Program, fun: &mut Function, env: &mut Env, depth: u64) -> (r: Result<ExprBox, ParseError>)
    requires
        old(prog).wf(),
        old(env).wf(),
        old(fun).id.index() <= old(prog).last_id,
    ensures
        resolution_kept(*old(prog), *final(prog), *old(env), *final(env), *old(fun), *final(fun)),
        r is Ok ==> final(env).num_scopes() == old(env).num_scopes(),
        r matches Ok(x) ==> resolves_to(*e, x),
        r matches Ok(x) ==> binds_innermost(*e, x, *old(env), old(fun).id),
        r matches Ok(x) ==> assigns_mutable(x),
        (*e.expr matches Expr::Ident(name) && old(env).spec_lookup(name@) is None) ==> r is Err,
        *e.expr is Ident ==> (r is Ok <==> (old(env).spec_lookup((*e.expr)->Ident_0@) matches Some(d)
            && (from_other_fun(d, old(fun).id) ==> old(fun).captured@.len() < u32::MAX - 1))),
        (*e.expr is Nil || *e.expr is True || *e.expr is False || *e.expr is Int64 || *e.expr is Float64
            || *e.expr is String || *e.expr is HostFn || *e.expr is ByteArray || *e.expr is Ref) ==> r is Ok,
    decreases depth, 1int, e,
{
    let pos = e.pos;
    let new_expr = match &*e.expr {
        Expr::Nil => Expr::Nil,
        Expr::True => Expr::True,
        Expr::False => Expr::False,
        Expr::Int64(v) => Expr::Int64(*v),
        Expr::Float64(t) => Expr::Float64(t.clone()),
        Expr::String(t) => Expr::String(t.clone()),
        Expr::HostFn(f) => Expr::HostFn(*f),
        Expr::ByteArray(b) => Expr::ByteArray(b.clone()),

        Expr::Array { exprs } => Expr::Array { exprs: resolve_exprs(exprs, prog, fun, env, depth)? },

        Expr::Dict { pairs } => Expr::Dict { pairs: resolve_pairs(pairs, prog, fun, env, depth)? },

        Expr::Ident(name) => {
            match env.lookup(name.as_str()) {
                Some(decl) => {
                    // If this variable comes from another function,
                    // then it must be captured as a closure variable
                    let decl = if is_from_other_fun(&decl, fun.id) {
                        if fun.captured.len() >= u32::MAX as usize - 1 {
                            return ParseError::with_pos("too many captured variables", &pos);
                        }
                        // Register and get an index for the captured variable
                        let cell_idx = fun.reg_captured(&decl);

                        // Identify this as a captured closure variable
                        Decl::Captured { idx: cell_idx, mutable: decl.is_mutable() }
                    } else {
                        decl
                    };
                    Expr::Ref { name: name.clone(), decl }
                }
                None => {
                    return ParseError::with_pos(
                        concat_msg("reference to undeclared identifier \"", name.as_str(), "\"").as_str(),
                        &pos,
                    );
                }
            }
        }

        Expr::HostConst(name) => {
            // This constant is only true inside the main unit
            if str_eq(name.as_str(), "MAIN_UNIT") {
                if fun.id == prog.main_fn { Expr::True } else { Expr::False }
            } else {
                match HostFnId::from_name(name.as_str()) {
                    Some(host_fn) => Expr::HostFn(host_fn),
                    None => {
                        return ParseError::with_pos(
                            concat_msg("unknown host constant `", name.as_str(), "`").as_str(),
                            &pos,
                        );
                    }
                }
            }
        }

        Expr::Ref { name, decl } => Expr::Ref { name: name.clone(), decl: *decl },

        Expr::Index { base, index } => {
            let base = resolve_expr(base, prog, fun, env, depth)?;
            let index = resolve_expr(index, prog, fun, env, depth)?;
            Expr::Index { base, index }
        }

        Expr::Member { base, field } => {
            let base = resolve_expr(base, prog, fun, env, depth)?;
            Expr::Member { base, field: field.clone() }
        }

        Expr::InstanceOf { val, class_name, class_id: _ } => {
            let val = resolve_expr(val, prog, fun, env, depth)?;
            match env.lookup(class_name.as_str()) {
                Some(Decl::Class { id }) => Expr::InstanceOf { val, class_name: class_name.clone(), class_id: id },
                _ => {
                    return ParseError::with_pos(
                        concat_msg("unknown class \"", class_name.as_str(), "\"").as_str(),
                        &pos,
                    );
                }
            }
        }

        Expr::Unary { op, child } => Expr::Unary { op: *op, child: resolve_expr(child, prog, fun, env, depth)? },

        Expr::Binary { op, lhs, rhs } => {
            let lhs = resolve_expr(lhs, prog, fun, env, depth)?;
            let rhs = resolve_expr(rhs, prog, fun, env, depth)?;

            // If this is an assignment to a constant
            if *op == BinOp::Assign {
                let immutable = match &*lhs.expr {
                    Expr::Ref { decl, .. } => !decl.is_mutable(),
                    _ => false,
                };
                if immutable {
                    return ParseError::with_pos("assignment to immutable variable", &pos);
                }
            }
            Expr::Binary { op: *op, lhs, rhs }
        }

        Expr::Ternary { test_expr, then_expr, else_expr } => {
            let test_expr = resolve_expr(test_expr, prog, fun, env, depth)?;
            let then_expr = resolve_expr(then_expr, prog, fun, env, depth)?;
            let else_expr = resolve_expr(else_expr, prog, fun, env, depth)?;
            Expr::Ternary { test_expr, then_expr, else_expr }
        }

        Expr::Call { callee, args } => {
            let callee = resolve_expr(callee, prog, fun, env, depth)?;
            let args = resolve_exprs(args, prog, fun, env, depth)?;
            Expr::Call { callee, args }
        }

        Expr::Fun { fun_id, captured: _ } => {
            let fun_id = *fun_id;
            if depth == 0 {
                return ParseError::with_pos("functions are nested too deeply", &pos);
            }

            // Resolve symbols in the nested function
            let i = match prog.fun_idx(fun_id) {
                Some(i) => i,
                None => { return ParseError::with_pos("reference to an unknown function", &pos); }
            };
            let child_fun = prog.take_fun(i);
            let child_fun = resolve_function(child_fun, prog, env, depth - 1)?;

            // For each variable captured by the nested function
            let mut captured: Vec<Decl> = Vec::new();
            let n = child_fun.captured.len();
            let mut k: usize = 0;
            while k < n
                invariant
                    *e.expr is Fun,
                    n == child_fun.captured@.len(),
                    k <= n,
                    same_fun(*fun, *old(fun)),
                    prog.wf(),
                    prog.funs@.len() == old(prog).funs@.len(),
                    prog.main_fn == old(prog).main_fn,
                    prog.last_id == old(prog).last_id,
                    prog.num_globals == old(prog).num_globals,
                    env.wf(),
                    env.num_scopes() == old(env).num_scopes(),
                    i < prog.funs@.len(),
                    child_fun.id.index() <= prog.last_id,
                decreases n - k,
            {
                let decl = child_fun.captured[k];

                // If this variable doesn't come from this function,
                // then it must be captured as a closure variable too
                if is_from_other_fun(&decl, fun.id) {
                    if fun.captured.len() >= u32::MAX as usize - 1 {
                        return ParseError::with_pos("too many captured variables", &pos);
                    }
                    fun.reg_captured(&decl);
                } else {
                    // A mutable local of this function captured by the
                    // nested one lives in a closure cell
                    match decl {
                        Decl::Local { mutable: true, .. } => {
                            if !fun.is_escaping(&decl) {
                                fun.escaping.push(decl);
                            }
                        }
                        _ => {}
                    }
                }

                captured.push(decl);
                k = k + 1;
            }

            // Put the child function back in place
            prog.put_fun(i, child_fun);
            Expr::Fun { fun_id, captured }
        }
    };
    Ok(ExprBox::new(new_expr, pos))
}

} // verus!
