use vstd::prelude::*;
use crate::host::HostFnId;
use crate::ids::{
    ClassId, FunId, MAX_ID, LAST_RESERVED_ID, UIEVENT_ID, AUDIO_NEEDED_ID, AUDIO_DATA_ID,
};
use crate::lexer::SrcPos;

verus! {

/// Unary operator
#[derive(Copy, Clone, Debug, PartialEq, Eq, Structural)]
pub enum UnOp {
    Minus,
    Not,
}

/// Binary operator
#[derive(Copy, Clone, Debug, PartialEq, Eq, Structural)]
pub enum BinOp {
    // Bitwise
    BitAnd,
    BitOr,
    BitXor,
    LShift,
    RShift,

    // Arithmetic
    Add,
    Sub,
    Mul,
    Div,
    IntDiv,
    Mod,

    // Comparison
    Eq,
    Ne,
    Lt,
    Le,
    Gt,
    Ge,

    // Logical and, logical or
    And,
    Or,

    // Assignment, which evaluates right to left
    Assign,
}

/// What a name refers to, once symbols are resolved
#[derive(Copy, Clone, Debug, PartialEq, Eq, Structural)]
pub enum Decl {
    // Global function
    Fun { id: FunId },

    // Class declaration
    Class { id: ClassId },

    // Global variable
    Global { idx: u32, mutable: bool },

    // Function argument
    Arg { idx: u32, src_fun: FunId },

    // Local variable in a function
    Local { idx: u32, src_fun: FunId, mutable: bool },

    // Variables captured by the current closure
    Captured { idx: u32, mutable: bool },
}

impl Decl {
    pub open spec fn spec_is_mutable(self) -> bool {
        match self {
            Decl::Fun { .. } => false,
            Decl::Class { .. } => false,
            Decl::Global { mutable, .. } => mutable,
            Decl::Arg { .. } => false,
            Decl::Local { mutable, .. } => mutable,
            Decl::Captured { mutable, .. } => mutable,
        }
    }

    /// Whether the entity can be assigned to
    pub fn is_mutable(&self) -> (r: bool)
        ensures
            r == self.spec_is_mutable(),
    {
        match *self {
            Decl::Fun { .. } => false,
            Decl::Class { .. } => false,
            Decl::Global { mutable, .. } => mutable,
            Decl::Arg { .. } => false,
            Decl::Local { mutable, .. } => mutable,
            Decl::Captured { mutable, .. } => mutable,
        }
    }
}

/// Expression
#[derive(Debug)]
pub enum Expr {
    True,
    False,
    Nil,
    Int64(i64),

    // Floating-point literal, kept as the text it was written as
    Float64(String),

    String(String),

    // Host function
    HostFn(HostFnId),

    // ByteArray literal
    ByteArray(Vec<u8>),

    // Array literal
    Array { exprs: Vec<ExprBox> },

    // Dictionary literal
    Dict { pairs: Vec<(String, ExprBox)> },

    Ident(String),

    // Host constant, `$name`
    HostConst(String),

    // Resolved reference to a named entity
    Ref { name: String, decl: Decl },

    // Function/closure expression
    Fun { fun_id: FunId, captured: Vec<Decl> },

    // a[b]
    Index { base: ExprBox, index: ExprBox },

    // a.b
    Member { base: ExprBox, field: String },

    InstanceOf { val: ExprBox, class_name: String, class_id: ClassId },

    Unary { op: UnOp, child: ExprBox },

    Binary { op: BinOp, lhs: ExprBox, rhs: ExprBox },

    Ternary { test_expr: ExprBox, then_expr: ExprBox, else_expr: ExprBox },

    Call { callee: ExprBox, args: Vec<ExprBox> },
}

/// Expression box
#[derive(Debug)]
pub struct ExprBox {
    pub expr: Box<Expr>,
    pub pos: SrcPos,
}

/// Two expression trees with the same nodes, positions and contents
pub open spec fn same_tree(a: ExprBox, b: ExprBox) -> bool
    decreases a,
{
    &&& a.pos == b.pos
    &&& match *a.expr {
        Expr::True => *b.expr is True,
        Expr::False => *b.expr is False,
        Expr::Nil => *b.expr is Nil,
        Expr::Int64(v) => *b.expr == Expr::Int64(v),
        Expr::Float64(t) => *b.expr == Expr::Float64(t),
        Expr::String(t) => *b.expr == Expr::String(t),
        Expr::HostFn(f) => *b.expr == Expr::HostFn(f),
        Expr::ByteArray(x) => (*b.expr matches Expr::ByteArray(y) && y@ == x@),
        Expr::Array { exprs } => (*b.expr matches Expr::Array { exprs: ys }
            && ys@.len() == exprs@.len()
            && forall|i: int| 0 <= i < exprs@.len() ==> same_tree(#[trigger] exprs@[i], ys@[i])),
        Expr::Dict { pairs } => (*b.expr matches Expr::Dict { pairs: ys }
            && ys@.len() == pairs@.len()
            && forall|i: int| 0 <= i < pairs@.len() ==> (#[trigger] pairs@[i]).0 == ys@[i].0
                && same_tree(pairs@[i].1, ys@[i].1)),
        Expr::Ident(t) => *b.expr == Expr::Ident(t),
        Expr::HostConst(t) => *b.expr == Expr::HostConst(t),
        Expr::Ref { name, decl } => *b.expr == Expr::Ref { name, decl },
        Expr::Fun { fun_id, captured } => (*b.expr matches Expr::Fun { fun_id: f2, captured: c2 }
            && f2 == fun_id && c2@ == captured@),
        Expr::Index { base, index } => (*b.expr matches Expr::Index { base: b2, index: i2 }
            && same_tree(base, b2) && same_tree(index, i2)),
        Expr::Member { base, field } => (*b.expr matches Expr::Member { base: b2, field: f2 }
            && same_tree(base, b2) && f2 == field),
        Expr::InstanceOf { val, class_name, class_id } => (*b.expr matches Expr::InstanceOf { val: v2, class_name: n2, class_id: c2 }
            && same_tree(val, v2) && n2 == class_name && c2 == class_id),
        Expr::Unary { op, child } => (*b.expr matches Expr::Unary { op: o2, child: c2 }
            && o2 == op && same_tree(child, c2)),
        Expr::Binary { op, lhs, rhs } => (*b.expr matches Expr::Binary { op: o2, lhs: l2, rhs: r2 }
            && o2 == op && same_tree(lhs, l2) && same_tree(rhs, r2)),
        Expr::Ternary { test_expr, then_expr, else_expr } => (*b.expr matches Expr::Ternary { test_expr: t2, then_expr: h2, else_expr: e2 }
            && same_tree(test_expr, t2) && same_tree(then_expr, h2) && same_tree(else_expr, e2)),
        Expr::Call { callee, args } => (*b.expr matches Expr::Call { callee: c2, args: a2 }
            && same_tree(callee, c2) && a2@.len() == args@.len()
            && forall|i: int| 0 <= i < args@.len() ==> same_tree(#[trigger] args@[i], a2@[i])),
    }
}

impl ExprBox {
    /// A copy of an expression tree
    pub fn copy(&self) -> (r: ExprBox)
        ensures
            same_tree(*self, r),
        decreases self,
    {
        let e = match &*self.expr {
            Expr::True => Expr::True,
            Expr::False => Expr::False,
            Expr::Nil => Expr::Nil,
            Expr::Int64(v) => Expr::Int64(*v),
            Expr::Float64(t) => Expr::Float64(t.clone()),
            Expr::String(t) => Expr::String(t.clone()),
            Expr::HostFn(f) => Expr::HostFn(*f),
            Expr::ByteArray(b) => Expr::ByteArray(b.clone()),
            Expr::Array { exprs } => Expr::Array { exprs: copy_exprs(exprs) },
            Expr::Dict { pairs } => Expr::Dict { pairs: copy_pairs(pairs) },
            Expr::Ident(t) => Expr::Ident(t.clone()),
            Expr::HostConst(t) => Expr::HostConst(t.clone()),
            Expr::Ref { name, decl } => Expr::Ref { name: name.clone(), decl: *decl },
            Expr::Fun { fun_id, captured } => Expr::Fun { fun_id: *fun_id, captured: captured.clone() },
            Expr::Index { base, index } => Expr::Index { base: base.copy(), index: index.copy() },
            Expr::Member { base, field } => Expr::Member { base: base.copy(), field: field.clone() },
            Expr::InstanceOf { val, class_name, class_id } => Expr::InstanceOf {
                val: val.copy(),
                class_name: class_name.clone(),
                class_id: *class_id,
            },
            Expr::Unary { op, child } => Expr::Unary { op: *op, child: child.copy() },
            Expr::Binary { op, lhs, rhs } => Expr::Binary { op: *op, lhs: lhs.copy(), rhs: rhs.copy() },
            Expr::Ternary { test_expr, then_expr, else_expr } => Expr::Ternary {
                test_expr: test_expr.copy(),
                then_expr: then_expr.copy(),
                else_expr: else_expr.copy(),
            },
            Expr::Call { callee, args } => Expr::Call { callee: callee.copy(), args: copy_exprs(args) },
        };
        ExprBox::new(e, self.pos)
    }

    pub fn new(expr: Expr, pos: SrcPos) -> (r: Self)
        ensures
            *r.expr == expr,
            r.pos == pos,
    {
        ExprBox { expr: Box::new(expr), pos }
    }
}

/// Copies of a list of expression trees
pub fn copy_exprs(exprs: &Vec<ExprBox>) -> (r: Vec<ExprBox>)
    ensures
        r@.len() == exprs@.len(),
        forall|i: int| 0 <= i < exprs@.len() ==> same_tree(#[trigger] exprs@[i], r@[i]),
    decreases exprs,
{
    let mut out: Vec<ExprBox> = Vec::new();
    let mut i: usize = 0;
    while i < exprs.len()
        invariant
            out@.len() == i,
            i <= exprs@.len(),
            forall|k: int| 0 <= k < i ==> same_tree(#[trigger] exprs@[k], out@[k]),
        decreases exprs.len() - i,
    {
        assert(decreases_to!(exprs => exprs@[i as int]));
        out.push(exprs[i].copy());
        i = i + 1;
    }
    out
}

/// Copies of a list of named expression trees
pub fn copy_pairs(pairs: &Vec<(String, ExprBox)>) -> (r: Vec<(String, ExprBox)>)
    ensures
        r@.len() == pairs@.len(),
        forall|i: int| 0 <= i < pairs@.len() ==> (#[trigger] pairs@[i]).0 == r@[i].0
            && same_tree(pairs@[i].1, r@[i].1),
    decreases pairs,
{
    let mut out: Vec<(String, ExprBox)> = Vec::new();
    let mut i: usize = 0;
    while i < pairs.len()
        invariant
            out@.len() == i,
            i <= pairs@.len(),
            forall|k: int| 0 <= k < i ==> (#[trigger] pairs@[k]).0 == out@[k].0
                && same_tree(pairs@[k].1, out@[k].1),
        decreases pairs.len() - i,
    {
        assert(decreases_to!(pairs => pairs@[i as int]));
        out.push((pairs[i].0.clone(), pairs[i].1.copy()));
        i = i + 1;
    }
    out
}

/// Statement
#[derive(Debug)]
pub enum Stmt {
    Expr { value: ExprBox },

    Return { value: ExprBox },

    Break,
    Continue,

    Block(Vec<StmtBox>),

    If { test_expr: ExprBox, then_stmt: StmtBox, else_stmt: Option<StmtBox> },

    // Loop, which while loops and infinite loops are written as too. An
    // omitted clause is a nil expression or statement
    For { init_stmt: StmtBox, test_expr: ExprBox, incr_expr: ExprBox, body_stmt: StmtBox },

    Assert { test_expr: ExprBox },

    /// Local variable declaration
    Let { mutable: bool, var_name: String, init_expr: ExprBox, decl: Option<Decl> },

    // Class declaration
    ClassDecl { class_id: ClassId },
}

/// Statement box
#[derive(Debug)]
pub struct StmtBox {
    pub stmt: Box<Stmt>,
    pub pos: SrcPos,
}

impl StmtBox {
    pub fn new(stmt: Stmt, pos: SrcPos) -> (r: Self)
        ensures
            *r.stmt == stmt,
            r.pos == pos,
    {
        StmtBox { stmt: Box::new(stmt), pos }
    }

    /// A statement that does nothing, standing for an omitted clause
    pub fn empty() -> (r: Self)
        ensures
            *r.stmt matches Stmt::Expr { value: e } && *e.expr matches Expr::Nil,
    {
        StmtBox::new(Stmt::Expr { value: ExprBox::new(Expr::Nil, SrcPos(0)) }, SrcPos(0))
    }
}

/// Function
#[derive(Debug)]
pub struct Function {
    /// Name of the function
    pub name: String,

    /// Parameter list
    pub params: Vec<String>,

    /// Whether the last parameter collects extra arguments
    pub var_arg: bool,

    /// Body of the function
    pub body: StmtBox,

    /// Number of local variables
    pub num_locals: usize,

    /// Captured closure variables, in the order of their closure slots
    pub captured: Vec<Decl>,

    /// Mutable local variables which are captured by a nested function,
    /// and so live in a mutable closure cell
    pub escaping: Vec<Decl>,

    /// Unit-level (global) function
    pub is_unit: bool,

    // Source position
    pub pos: SrcPos,

    /// Internal unique function id
    pub id: FunId,

    /// Class id this function is associated with, zero if none
    pub class_id: ClassId,
}

impl Function {
    /// A function with a name, parameters and body, not yet registered
    pub fn new(name: String, params: Vec<String>, body: StmtBox, is_unit: bool, pos: SrcPos) -> (r: Function)
        ensures
            r.name == name,
            r.params == params,
            r.body == body,
            r.is_unit == is_unit,
            r.pos == pos,
            r.num_locals == 0,
            r.captured@.len() == 0,
            r.escaping@.len() == 0,
            r.class_id.index() == 0,
            !r.var_arg,
    {
        Function {
            name,
            params,
            var_arg: false,
            body,
            num_locals: 0,
            captured: Vec::new(),
            escaping: Vec::new(),
            is_unit,
            pos,
            id: FunId::new(0),
            class_id: ClassId::new(0),
        }
    }

    /// Register a captured closure variable and return its slot index
    pub fn reg_captured(&mut self, decl: &Decl) -> (r: u32)
        requires
            old(self).captured@.len() < u32::MAX,
        ensures
            old(self).captured@.contains(*decl) ==> final(self).captured@ == old(self).captured@,
            !old(self).captured@.contains(*decl) ==> final(self).captured@ == old(self).captured@.push(*decl),
            r < final(self).captured@.len(),
            final(self).captured@[r as int] == *decl,
            final(self).name == old(self).name,
            final(self).params == old(self).params,
            final(self).id == old(self).id,
            final(self).is_unit == old(self).is_unit,
            final(self).num_locals == old(self).num_locals,
            final(self).escaping == old(self).escaping,
            final(self).class_id == old(self).class_id,
    {
        let n = self.captured.len();
        let mut i: usize = 0;
        while i < n
            invariant
                n == self.captured@.len(),
                n < u32::MAX,
                self.captured@ == old(self).captured@,
                0 <= i <= n,
                forall|j: int| 0 <= j < i ==> self.captured@[j] != *decl,
            decreases n - i,
        {
            if self.captured[i] == *decl {
                return i as u32;
            }
            i = i + 1;
        }
        self.captured.push(*decl);
        n as u32
    }

    /// Whether a declaration is a mutable local captured by a nested
    /// function
    pub fn is_escaping(&self, decl: &Decl) -> (r: bool)
        ensures
            r == self.escaping@.contains(*decl),
    {
        let n = self.escaping.len();
        let mut i: usize = 0;
        while i < n
            invariant
                n == self.escaping@.len(),
                0 <= i <= n,
                forall|j: int| 0 <= j < i ==> self.escaping@[j] != *decl,
            decreases n - i,
        {
            if self.escaping[i] == *decl {
                return true;
            }
            i = i + 1;
        }
        false
    }

    /// Check if this function is a constructor method
    pub fn is_ctor(&self) -> (r: bool)
        ensures
            r == (self.class_id.index() != 0 && self.name@ == "init"@),
    {
        self.class_id.to_usize() != 0 && crate::insns::str_eq(self.name.as_str(), "init")
    }
}

#[derive(Clone, Debug)]
pub struct Class {
    // Class name
    pub name: String,

    // Field names, in the order of their slots
    pub fields: Vec<String>,

    // Method names and the functions that implement them
    pub methods: Vec<(String, FunId)>,

    // Source position
    pub pos: SrcPos,

    // Internal unique class id
    pub id: ClassId,
}

impl Class {
    /// A class with no fields or methods yet
    pub fn new(name: String, pos: SrcPos) -> (r: Class)
        ensures
            r.name == name,
            r.pos == pos,
            r.fields@.len() == 0,
            r.methods@.len() == 0,
            r.id.index() == 0,
    {
        Class { name, fields: Vec::new(), methods: Vec::new(), pos, id: ClassId::new(0) }
    }

    /// Slot index of a field, if the class has it
    pub fn field_slot(&self, name: &str) -> (r: Option<usize>)
        ensures
            r matches Some(i) ==> i < self.fields@.len() && self.fields@[i as int]@ == name@,
            r is None ==> forall|i: int| 0 <= i < self.fields@.len() ==> self.fields@[i]@ != name@,
    {
        let n = self.fields.len();
        let mut i: usize = 0;
        while i < n
            invariant
                n == self.fields@.len(),
                0 <= i <= n,
                forall|j: int| 0 <= j < i ==> self.fields@[j]@ != name@,
            decreases n - i,
        {
            if crate::insns::str_eq(self.fields[i].as_str(), name) {
                return Some(i);
            }
            i = i + 1;
        }
        None
    }

    /// Register a field, giving it the next slot if it is new
    pub fn reg_field(&mut self, name: &str)
        ensures
            (exists|i: int| 0 <= i < old(self).fields@.len() && old(self).fields@[i]@ == name@)
                ==> final(self).fields == old(self).fields,
            !(exists|i: int| 0 <= i < old(self).fields@.len() && old(self).fields@[i]@ == name@)
                ==> final(self).fields@.len() == old(self).fields@.len() + 1
                    && final(self).fields@.last()@ == name@
                    && final(self).fields@.drop_last() == old(self).fields@,
            final(self).name == old(self).name,
            final(self).methods == old(self).methods,
            final(self).id == old(self).id,
    {
        if self.field_slot(name).is_none() {
            self.fields.push(name.to_owned());
            assert(self.fields@.drop_last() =~= old(self).fields@);
        }
    }

    /// Function implementing a method, if the class has one by that name
    pub fn method(&self, name: &str) -> (r: Option<FunId>)
        ensures
            r matches Some(f) ==> exists|i: int| 0 <= i < self.methods@.len()
                && self.methods@[i].0@ == name@ && self.methods@[i].1 == f,
            r is None ==> forall|i: int| 0 <= i < self.methods@.len() ==> self.methods@[i].0@ != name@,
    {
        let n = self.methods.len();
        let mut i: usize = 0;
        while i < n
            invariant
                n == self.methods@.len(),
                0 <= i <= n,
                forall|j: int| 0 <= j < i ==> self.methods@[j].0@ != name@,
            decreases n - i,
        {
            if crate::insns::str_eq(self.methods[i].0.as_str(), name) {
                return Some(self.methods[i].1);
            }
            i = i + 1;
        }
        None
    }
}

/// The parsed form of one unit of source code
#[derive(Clone, Debug)]
pub struct Unit {
    // Classes declared in this unit, by name
    pub classes: Vec<(String, ClassId)>,

    // Unit-level (top level) function
    pub unit_fn: FunId,
}

/// Represents an entire program
#[derive(Debug)]
pub struct Program {
    // Last id assigned. Ids up to the reserved ones are never assigned
    pub last_id: usize,

    // Functions of the program, each under its own id
    pub funs: Vec<Function>,

    // Classes of the program, each under its own id
    pub classes: Vec<Class>,

    // Number of global variable slots
    pub num_globals: u32,

    // Top-level unit function
    pub main_fn: FunId,

    // The main unit
    pub main_unit: Unit,
}

/// A class of the core runtime: its name, its reserved id, its fields in
/// slot order and no methods
pub open spec fn is_runtime_class(c: Class, name: Seq<char>, id: nat, fields: Seq<Seq<char>>) -> bool {
    &&& c.name@ == name
    &&& c.id.index() == id
    &&& c.methods@.len() == 0
    &&& c.fields@.len() == fields.len()
    &&& forall|i: int| 0 <= i < fields.len() ==> (#[trigger] c.fields@[i])@ == fields[i]
}

impl Program {
    /// Ids are assigned in increasing order, so no two are the same
    pub open spec fn wf(self) -> bool {
        &&& LAST_RESERVED_ID <= self.last_id <= MAX_ID
        &&& forall|i: int| 0 <= i < self.funs@.len() ==> #[trigger] self.funs@[i].id.index() <= self.last_id
    }

    /// Whether the program has a function with a given id
    pub open spec fn has_fun(self, id: FunId) -> bool {
        exists|i: int| 0 <= i < self.funs@.len() && #[trigger] self.funs@[i].id == id
    }

    pub fn new() -> (r: Program)
        ensures
            r.wf(),
            r.funs@.len() == 0,
            r.last_id == LAST_RESERVED_ID,
    {
        let mut prog = Program {
            last_id: LAST_RESERVED_ID,
            funs: Vec::new(),
            classes: Vec::new(),
            num_globals: 0,
            main_fn: FunId::new(0),
            main_unit: Unit { classes: Vec::new(), unit_fn: FunId::new(0) },
        };
        prog.init_runtime();
        prog
    }

    /// Register the classes of the core runtime, whose ids are reserved
    fn init_runtime(&mut self)
        requires
            old(self).wf(),
        ensures
            final(self).wf(),
            final(self).funs == old(self).funs,
            final(self).last_id == old(self).last_id,
            final(self).num_globals == old(self).num_globals,
            final(self).main_fn == old(self).main_fn,
            final(self).main_unit == old(self).main_unit,
            final(self).classes@.len() == old(self).classes@.len() + 3,
            final(self).classes@.subrange(0, old(self).classes@.len() as int) == old(self).classes@,
            is_runtime_class(final(self).classes@[old(self).classes@.len() as int], "UIEvent"@, UIEVENT_ID as nat,
                seq!["kind"@, "window_id"@, "key"@, "button"@, "x"@, "y"@, "text"@]),
            is_runtime_class(final(self).classes@[old(self).classes@.len() as int + 1], "AudioNeeded"@, AUDIO_NEEDED_ID as nat,
                seq!["num_samples"@, "num_channels"@, "device_id"@]),
            is_runtime_class(final(self).classes@[old(self).classes@.len() as int + 2], "AudioData"@, AUDIO_DATA_ID as nat,
                seq!["device_id"@, "num_samples"@]),
    {
        proof {
            reveal_strlit("UIEvent"); reveal_strlit("AudioNeeded"); reveal_strlit("AudioData");
            reveal_strlit("kind"); reveal_strlit("window_id"); reveal_strlit("key"); reveal_strlit("button");
            reveal_strlit("x"); reveal_strlit("y"); reveal_strlit("text");
            reveal_strlit("num_samples"); reveal_strlit("num_channels"); reveal_strlit("device_id");
        }
        // UIEvent
        let mut ui_class = Class::new("UIEvent".to_owned(), SrcPos(0));
        ui_class.id = ClassId::new(UIEVENT_ID);
        ui_class.reg_field("kind");
        assert(ui_class.fields@.len() == 1 && ui_class.fields@[0]@ == "kind"@);
        assert("kind"@.len() == 4 && "window_id"@.len() == 9 && "key"@.len() == 3);
        assert("kind"@[1] != "key"@[1]);
        assert("button"@.len() == 6 && "x"@.len() == 1 && "y"@.len() == 1 && "text"@.len() == 4);
        assert("x"@[0] != "y"@[0] && "kind"@[0] != "text"@[0]);
        assert("num_samples"@.len() == 11 && "num_channels"@.len() == 12 && "device_id"@.len() == 9);
        assert(forall|i: int| 0 <= i < ui_class.fields@.len() ==> (#[trigger] ui_class.fields@[i])@ != "window_id"@);
        ui_class.reg_field("window_id");
        assert(ui_class.fields@.len() == 2 && ui_class.fields@[0]@ == "kind"@ && ui_class.fields@[1]@ == "window_id"@);
        assert(forall|i: int| 0 <= i < ui_class.fields@.len() ==> (#[trigger] ui_class.fields@[i])@ != "key"@);
        ui_class.reg_field("key");
        assert(ui_class.fields@.len() == 3 && ui_class.fields@[0]@ == "kind"@ && ui_class.fields@[1]@ == "window_id"@ && ui_class.fields@[2]@ == "key"@);
        assert(forall|i: int| 0 <= i < ui_class.fields@.len() ==> (#[trigger] ui_class.fields@[i])@ != "button"@);
        ui_class.reg_field("button");
        assert(ui_class.fields@.len() == 4 && ui_class.fields@[0]@ == "kind"@ && ui_class.fields@[1]@ == "window_id"@ && ui_class.fields@[2]@ == "key"@ && ui_class.fields@[3]@ == "button"@);
        assert(forall|i: int| 0 <= i < ui_class.fields@.len() ==> (#[trigger] ui_class.fields@[i])@ != "x"@);
        ui_class.reg_field("x");
        assert(ui_class.fields@.len() == 5 && ui_class.fields@[0]@ == "kind"@ && ui_class.fields@[1]@ == "window_id"@ && ui_class.fields@[2]@ == "key"@ && ui_class.fields@[3]@ == "button"@ && ui_class.fields@[4]@ == "x"@);
        assert(forall|i: int| 0 <= i < ui_class.fields@.len() ==> (#[trigger] ui_class.fields@[i])@ != "y"@);
        ui_class.reg_field("y");
        assert(ui_class.fields@.len() == 6 && ui_class.fields@[0]@ == "kind"@ && ui_class.fields@[1]@ == "window_id"@ && ui_class.fields@[2]@ == "key"@ && ui_class.fields@[3]@ == "button"@ && ui_class.fields@[4]@ == "x"@ && ui_class.fields@[5]@ == "y"@);
        assert(forall|i: int| 0 <= i < ui_class.fields@.len() ==> (#[trigger] ui_class.fields@[i])@ != "text"@);
        ui_class.reg_field("text");
        assert(ui_class.fields@.len() == 7 && ui_class.fields@[0]@ == "kind"@ && ui_class.fields@[1]@ == "window_id"@ && ui_class.fields@[2]@ == "key"@ && ui_class.fields@[3]@ == "button"@ && ui_class.fields@[4]@ == "x"@ && ui_class.fields@[5]@ == "y"@ && ui_class.fields@[6]@ == "text"@);
        self.classes.push(ui_class);

        // AudioNeeded
        let mut audio_needed = Class::new("AudioNeeded".to_owned(), SrcPos(0));
        audio_needed.id = ClassId::new(AUDIO_NEEDED_ID);
        audio_needed.reg_field("num_samples");
        assert(audio_needed.fields@.len() == 1 && audio_needed.fields@[0]@ == "num_samples"@);
        assert(forall|i: int| 0 <= i < audio_needed.fields@.len() ==> (#[trigger] audio_needed.fields@[i])@ != "num_channels"@);
        audio_needed.reg_field("num_channels");
        assert(audio_needed.fields@.len() == 2 && audio_needed.fields@[0]@ == "num_samples"@ && audio_needed.fields@[1]@ == "num_channels"@);
        assert(forall|i: int| 0 <= i < audio_needed.fields@.len() ==> (#[trigger] audio_needed.fields@[i])@ != "device_id"@);
        audio_needed.reg_field("device_id");
        assert(audio_needed.fields@.len() == 3 && audio_needed.fields@[0]@ == "num_samples"@ && audio_needed.fields@[1]@ == "num_channels"@ && audio_needed.fields@[2]@ == "device_id"@);
        self.classes.push(audio_needed);

        // AudioData. The field order must match the slots written by the
        // audio input callback
        let mut audio_data = Class::new("AudioData".to_owned(), SrcPos(0));
        audio_data.id = ClassId::new(AUDIO_DATA_ID);
        audio_data.reg_field("device_id");
        audio_data.reg_field("num_samples");
        self.classes.push(audio_data);
        proof {
            let n = old(self).classes@.len() as int;
            assert(self.classes@.subrange(0, n) =~= old(self).classes@);
            assert(is_runtime_class(self.classes@[n], "UIEvent"@, UIEVENT_ID as nat,
                seq!["kind"@, "window_id"@, "key"@, "button"@, "x"@, "y"@, "text"@]));
            assert(is_runtime_class(self.classes@[n + 1], "AudioNeeded"@, AUDIO_NEEDED_ID as nat,
                seq!["num_samples"@, "num_channels"@, "device_id"@]));
            assert(is_runtime_class(self.classes@[n + 2], "AudioData"@, AUDIO_DATA_ID as nat,
                seq!["device_id"@, "num_samples"@]));
        }
    }

    /// Register a function under a new id, or None once ids run out
    pub fn reg_fun(&mut self, fun: Function) -> (r: Option<FunId>)
        requires
            old(self).wf(),
        ensures
            final(self).wf(),
            final(self).classes == old(self).classes,
            r is Some <==> old(self).last_id < MAX_ID,
            r matches Some(id) ==> {
                &&& id.index() == old(self).last_id + 1
                &&& final(self).last_id == id.index()
                &&& final(self).funs@.len() == old(self).funs@.len() + 1
                &&& final(self).funs@.drop_last() == old(self).funs@
                &&& final(self).funs@.last().id == id
                &&& final(self).funs@.last().name == fun.name
                &&& final(self).funs@.last().params == fun.params
                &&& final(self).funs@.last().body == fun.body
                &&& final(self).funs@.last().is_unit == fun.is_unit
            },
            r is None ==> *final(self) == *old(self),
    {
        if self.last_id >= MAX_ID {
            return None;
        }
        self.last_id = self.last_id + 1;
        let id = FunId::new(self.last_id);
        let mut fun = fun;
        fun.id = id;
        self.funs.push(fun);
        assert(self.funs@.drop_last() =~= old(self).funs@);
        Some(id)
    }

    /// Register a class under a new id, or None once ids run out
    pub fn reg_class(&mut self, class: Class) -> (r: Option<ClassId>)
        requires
            old(self).wf(),
        ensures
            final(self).wf(),
            final(self).funs == old(self).funs,
            r is Some <==> old(self).last_id < MAX_ID,
            r matches Some(id) ==> {
                &&& id.index() == old(self).last_id + 1
                &&& final(self).last_id == id.index()
                &&& final(self).classes@.len() == old(self).classes@.len() + 1
                &&& final(self).classes@.last().id == id
                &&& final(self).classes@.last().name == class.name
                &&& final(self).classes@.last().methods == class.methods
            },
            r is None ==> *final(self) == *old(self),
    {
        if self.last_id >= MAX_ID {
            return None;
        }
        self.last_id = self.last_id + 1;
        let id = ClassId::new(self.last_id);
        let mut class = class;
        class.id = id;
        self.classes.push(class);
        Some(id)
    }

    /// Position of the function with a given id, if there is one
    pub fn fun_idx(&self, id: FunId) -> (r: Option<usize>)
        ensures
            r matches Some(i) ==> i < self.funs@.len() && self.funs@[i as int].id == id,
            r is None ==> !self.has_fun(id),
    {
        let n = self.funs.len();
        let mut i: usize = 0;
        while i < n
            invariant
                n == self.funs@.len(),
                0 <= i <= n,
                forall|j: int| 0 <= j < i ==> self.funs@[j].id != id,
            decreases n - i,
        {
            if self.funs[i].id == id {
                return Some(i);
            }
            i = i + 1;
        }
        None
    }

    /// Position of the class with a given id, if there is one
    pub fn class_idx(&self, id: ClassId) -> (r: Option<usize>)
        ensures
            r matches Some(i) ==> i < self.classes@.len() && self.classes@[i as int].id == id
                && forall|j: int| 0 <= j < i ==> self.classes@[j].id != id,
            r is None ==> forall|i: int| 0 <= i < self.classes@.len() ==> self.classes@[i].id != id,
    {
        let n = self.classes.len();
        let mut i: usize = 0;
        while i < n
            invariant
                n == self.classes@.len(),
                0 <= i <= n,
                forall|j: int| 0 <= j < i ==> self.classes@[j].id != id,
            decreases n - i,
        {
            if self.classes[i].id == id {
                return Some(i);
            }
            i = i + 1;
        }
        None
    }

    /// Take the function at a position out, leaving a placeholder
    pub fn take_fun(&mut self, i: usize) -> (r: Function)
        requires
            i < old(self).funs@.len(),
        ensures
            r == old(self).funs@[i as int],
            final(self).funs@.len() == old(self).funs@.len(),
            final(self).funs@[i as int].id == old(self).funs@[i as int].id,
            forall|j: int| 0 <= j < old(self).funs@.len() && j != i ==> final(self).funs@[j] == old(self).funs@[j],
            final(self).classes == old(self).classes,
            final(self).last_id == old(self).last_id,
            final(self).num_globals == old(self).num_globals,
            final(self).main_fn == old(self).main_fn,
    {
        let id = self.funs[i].id;
        let mut placeholder = Function::new(String::new(), Vec::new(), StmtBox::empty(), false, SrcPos(0));
        placeholder.id = id;
        let r = self.funs.remove(i);
        self.funs.insert(i, placeholder);
        r
    }

    /// Put a function back at a position
    pub fn put_fun(&mut self, i: usize, fun: Function)
        requires
            i < old(self).funs@.len(),
        ensures
            final(self).funs@ == old(self).funs@.update(i as int, fun),
            final(self).classes == old(self).classes,
            final(self).last_id == old(self).last_id,
            final(self).num_globals == old(self).num_globals,
            final(self).main_fn == old(self).main_fn,
    {
        self.funs.remove(i);
        self.funs.insert(i, fun);
        assert(self.funs@ =~= old(self).funs@.update(i as int, fun));
    }
}

} // verus!
