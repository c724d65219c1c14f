use vstd::prelude::*;

verus! {

/// A whole translation unit: the functions in source order.
#[derive(Debug, Clone, PartialEq, Eq)]
pub struct Program {
    pub functions: Vec<Function>,
}

/// A function definition.
#[derive(Debug, Clone, PartialEq, Eq)]
pub struct Function {
    pub name: String,
    pub return_type: Type,
    pub params: Vec<Parameter>,
    pub body: Vec<Statement>,
}

/// A formal parameter of a function.
#[derive(Debug, Clone, PartialEq, Eq)]
pub struct Parameter {
    pub name: String,
    pub ty: Type,
}

/// The types of the language: `int` and pointers to a type.
#[derive(Debug, PartialEq, Eq)]
pub enum Type {
    Int,
    Pointer(Box<Type>),
}

/// A structural copy of a type.
pub fn copy_type(ty: &Type) -> (r: Type)
    ensures
        r == *ty,
    decreases ty,
{
    match ty {
        Type::Int => Type::Int,
        Type::Pointer(inner) => Type::Pointer(Box::new(copy_type(inner))),
    }
}

impl Clone for Type {
    fn clone(&self) -> (r: Self)
        ensures
            r == *self,
    {
        copy_type(self)
    }
}

#[derive(Debug, PartialEq, Eq)]
pub enum Statement {
    Return(ReturnStatement),
    Declare(VarDeclareStatement),
    Assign(VarAssignStatement),
    Block(Vec<Statement>),
    If(IfStatement),
    While(WhileStatement),
    For(ForStatement),
    Break,
    Continue,
}

#[derive(Debug, Clone, PartialEq, Eq)]
pub struct ReturnStatement {
    pub expr: Expr,
}

/// `ty name = init;`
#[derive(Debug, Clone, PartialEq, Eq)]
pub struct VarDeclareStatement {
    pub name: String,
    pub ty: Type,
    pub init: Expr,
}

/// `target = expr;` when `op` is `None`, `target op= expr;` otherwise.
#[derive(Debug, Clone, PartialEq, Eq)]
pub struct VarAssignStatement {
    pub target: Expr,
    pub op: Option<BinaryOp>,
    pub expr: Expr,
}

#[derive(Debug, PartialEq, Eq)]
pub struct IfStatement {
    pub cond: Expr,
    pub then_branch: Box<Statement>,
    pub else_branch: Option<Box<Statement>>,
}

#[derive(Debug, PartialEq, Eq)]
pub struct WhileStatement {
    pub cond: Expr,
    pub body: Box<Statement>,
}

#[derive(Debug, PartialEq, Eq)]
pub struct ForStatement {
    pub init: Option<Box<Statement>>,
    pub cond: Option<Expr>,
    pub post: Option<Box<Statement>>,
    pub body: Box<Statement>,
}

#[derive(Debug, PartialEq, Eq)]
pub enum Expr {
    IntegerLiteral(IntegerLiteral),
    Variable(VariableExpr),
    Unary(UnaryExpr),
    Binary(BinaryExpr),
    Call(FunctionCallExpr),
    Conditional(ConditionalExpr),
}

#[derive(Debug, Clone, PartialEq, Eq)]
pub struct IntegerLiteral {
    pub value: i32,
}

#[derive(Debug, Clone, PartialEq, Eq)]
pub struct VariableExpr {
    pub name: String,
}

#[derive(Debug, PartialEq, Eq)]
pub struct UnaryExpr {
    pub operator: UnaryOp,
    pub expr: Box<Expr>,
}

#[derive(Debug, Clone, Copy, PartialEq, Eq, Structural)]
pub enum UnaryOp {
    Negate,
    Posate,
    LogicalNot,
    Deref,
    AddrOf,
}

#[derive(Debug, PartialEq, Eq)]
pub struct BinaryExpr {
    pub left: Box<Expr>,
    pub operator: BinaryOp,
    pub right: Box<Expr>,
}

#[derive(Debug, Clone, Copy, PartialEq, Eq, Structural)]
pub enum BinaryOp {
    Add,
    Subtract,
    Multiply,
    Divide,
    Modulo,
    Equal,
    NotEqual,
    LessThan,
    LessEqual,
    GreaterThan,
    GreaterEqual,
    LogicalAnd,
    LogicalOr,
}

#[derive(Debug, PartialEq, Eq)]
pub struct FunctionCallExpr {
    pub name: String,
    pub args: Vec<Expr>,
}

/// `condition ? then_expr : else_expr`.
#[derive(Debug, PartialEq, Eq)]
pub struct ConditionalExpr {
    pub condition: Box<Expr>,
    pub then_expr: Box<Expr>,
    pub else_expr: Box<Expr>,
}

// ---------------------------------------------------------------------------
// Mathematical model of the tree: names become character sequences and
// vectors become sequences.
// ---------------------------------------------------------------------------

pub enum ExprView {
    IntegerLiteral(i32),
    Variable(Seq<char>),
    Unary(UnaryOp, Box<ExprView>),
    Binary(Box<ExprView>, BinaryOp, Box<ExprView>),
    Call(Seq<char>, Seq<ExprView>),
    Conditional(Box<ExprView>, Box<ExprView>, Box<ExprView>),
}

pub enum StatementView {
    Return(ExprView),
    Declare(Seq<char>, Type, ExprView),
    Assign(ExprView, Option<BinaryOp>, ExprView),
    Block(Seq<StatementView>),
    If(ExprView, Box<StatementView>, Option<Box<StatementView>>),
    While(ExprView, Box<StatementView>),
    For(Option<Box<StatementView>>, Option<ExprView>, Option<Box<StatementView>>, Box<StatementView>),
    Break,
    Continue,
}

pub struct ParameterView {
    pub name: Seq<char>,
    pub ty: Type,
}

pub struct FunctionView {
    pub name: Seq<char>,
    pub return_type: Type,
    pub params: Seq<ParameterView>,
    pub body: Seq<StatementView>,
}

pub open spec fn expr_view(e: Expr) -> ExprView
    decreases e,
{
    match e {
        Expr::IntegerLiteral(lit) => ExprView::IntegerLiteral(lit.value),
        Expr::Variable(var) => ExprView::Variable(var.name@),
        Expr::Unary(u) => ExprView::Unary(u.operator, Box::new(expr_view(*u.expr))),
        Expr::Binary(b) => ExprView::Binary(
            Box::new(expr_view(*b.left)),
            b.operator,
            Box::new(expr_view(*b.right)),
        ),
        Expr::Call(c) => ExprView::Call(c.name@, exprs_view(c.args@)),
        Expr::Conditional(c) => ExprView::Conditional(
            Box::new(expr_view(*c.condition)),
            Box::new(expr_view(*c.then_expr)),
            Box::new(expr_view(*c.else_expr)),
        ),
    }
}

pub open spec fn exprs_view(s: Seq<Expr>) -> Seq<ExprView>
    decreases s,
{
    if s.len() == 0 {
        Seq::empty()
    } else {
        exprs_view(s.subrange(0, s.len() - 1)).push(expr_view(s[s.len() - 1]))
    }
}

pub open spec fn stmt_view(s: Statement) -> StatementView
    decreases s,
{
    match s {
        Statement::Return(r) => StatementView::Return(expr_view(r.expr)),
        Statement::Declare(d) => StatementView::Declare(d.name@, d.ty, expr_view(d.init)),
        Statement::Assign(a) => StatementView::Assign(expr_view(a.target), a.op, expr_view(a.expr)),
        Statement::Block(body) => StatementView::Block(stmts_view(body@)),
        Statement::If(i) => StatementView::If(
            expr_view(i.cond),
            Box::new(stmt_view(*i.then_branch)),
            match i.else_branch {
                Some(e) => Some(Box::new(stmt_view(*e))),
                None => None,
            },
        ),
        Statement::While(w) => StatementView::While(expr_view(w.cond), Box::new(stmt_view(*w.body))),
        Statement::For(f) => StatementView::For(
            match f.init {
                Some(s) => Some(Box::new(stmt_view(*s))),
                None => None,
            },
            match f.cond {
                Some(c) => Some(expr_view(c)),
                None => None,
            },
            match f.post {
                Some(s) => Some(Box::new(stmt_view(*s))),
                None => None,
            },
            Box::new(stmt_view(*f.body)),
        ),
        Statement::Break => StatementView::Break,
        Statement::Continue => StatementView::Continue,
    }
}

/// The view of an optional boxed statement.
pub open spec fn boxed_stmt_view(s: Option<Box<Statement>>) -> Option<Box<StatementView>> {
    match s {
        Some(b) => Some(Box::new(stmt_view(*b))),
        None => None,
    }
}

pub open spec fn stmts_view(s: Seq<Statement>) -> Seq<StatementView>
    decreases s,
{
    if s.len() == 0 {
        Seq::empty()
    } else {
        stmts_view(s.subrange(0, s.len() - 1)).push(stmt_view(s[s.len() - 1]))
    }
}

pub open spec fn params_view(s: Seq<Parameter>) -> Seq<ParameterView> {
    s.map_values(|p: Parameter| ParameterView { name: p.name@, ty: p.ty })
}

pub open spec fn function_view(f: Function) -> FunctionView {
    FunctionView {
        name: f.name@,
        return_type: f.return_type,
        params: params_view(f.params@),
        body: stmts_view(f.body@),
    }
}

pub open spec fn functions_view(s: Seq<Function>) -> Seq<FunctionView> {
    s.map_values(|f: Function| function_view(f))
}

impl View for Type {
    type V = Type;

    open spec fn view(&self) -> Type {
        *self
    }
}

impl View for Expr {
    type V = ExprView;

    open spec fn view(&self) -> ExprView {
        expr_view(*self)
    }
}

impl View for Statement {
    type V = StatementView;

    open spec fn view(&self) -> StatementView {
        stmt_view(*self)
    }
}

impl View for Parameter {
    type V = ParameterView;

    open spec fn view(&self) -> ParameterView {
        ParameterView { name: self.name@, ty: self.ty }
    }
}

impl View for Function {
    type V = FunctionView;

    open spec fn view(&self) -> FunctionView {
        function_view(*self)
    }
}

impl View for Program {
    type V = Seq<FunctionView>;

    open spec fn view(&self) -> Seq<FunctionView> {
        functions_view(self.functions@)
    }
}

pub proof fn lemma_exprs_view_push(s: Seq<Expr>, e: Expr)
    ensures
        exprs_view(s.push(e)) == exprs_view(s) + seq![expr_view(e)],
{
    assert(s.push(e).subrange(0, s.len() as int) =~= s);
    assert(exprs_view(s).push(expr_view(e)) =~= exprs_view(s) + seq![expr_view(e)]);
}

pub proof fn lemma_stmts_view_push(s: Seq<Statement>, st: Statement)
    ensures
        stmts_view(s.push(st)) == stmts_view(s) + seq![stmt_view(st)],
{
    assert(s.push(st).subrange(0, s.len() as int) =~= s);
    assert(stmts_view(s).push(stmt_view(st)) =~= stmts_view(s) + seq![stmt_view(st)]);
}

pub proof fn lemma_params_view_push(s: Seq<Parameter>, p: Parameter)
    ensures
        params_view(s.push(p)) == params_view(s) + seq![p@],
{
    assert(params_view(s.push(p)) =~= params_view(s) + seq![p@]);
}

pub proof fn lemma_functions_view_push(s: Seq<Function>, f: Function)
    ensures
        functions_view(s.push(f)) == functions_view(s) + seq![f@],
{
    assert(functions_view(s.push(f)) =~= functions_view(s) + seq![f@]);
}

pub proof fn lemma_exprs_view_index(s: Seq<Expr>)
    ensures
        exprs_view(s).len() == s.len(),
        forall|i: int| 0 <= i < s.len() ==> #[trigger] exprs_view(s)[i] == expr_view(s[i]),
    decreases s.len(),
{
    if s.len() > 0 {
        lemma_exprs_view_index(s.subrange(0, s.len() - 1));
    }
}

pub proof fn lemma_stmts_view_index(s: Seq<Statement>)
    ensures
        stmts_view(s).len() == s.len(),
        forall|i: int| 0 <= i < s.len() ==> #[trigger] stmts_view(s)[i] == stmt_view(s[i]),
    decreases s.len(),
{
    if s.len() > 0 {
        lemma_stmts_view_index(s.subrange(0, s.len() - 1));
    }
}

// ---------------------------------------------------------------------------
// Copies of trees
// ---------------------------------------------------------------------------

fn copy_expr(e: &Expr) -> (r: Expr)
    ensures
        r@ == e@,
    decreases e,
{
    match e {
        Expr::IntegerLiteral(lit) => Expr::IntegerLiteral(IntegerLiteral { value: lit.value }),
        Expr::Variable(v) => Expr::Variable(VariableExpr { name: v.name.clone() }),
        Expr::Unary(u) => Expr::Unary(
            UnaryExpr { operator: u.operator, expr: Box::new(copy_expr(&u.expr)) },
        ),
        Expr::Binary(b) => Expr::Binary(
            BinaryExpr {
                left: Box::new(copy_expr(&b.left)),
                operator: b.operator,
                right: Box::new(copy_expr(&b.right)),
            },
        ),
        Expr::Call(c) => Expr::Call(FunctionCallExpr { name: c.name.clone(), args: copy_exprs(&c.args) }),
        Expr::Conditional(c) => Expr::Conditional(
            ConditionalExpr {
                condition: Box::new(copy_expr(&c.condition)),
                then_expr: Box::new(copy_expr(&c.then_expr)),
                else_expr: Box::new(copy_expr(&c.else_expr)),
            },
        ),
    }
}

fn copy_exprs(es: &Vec<Expr>) -> (r: Vec<Expr>)
    ensures
        exprs_view(r@) == exprs_view(es@),
    decreases es,
{
    let mut out: Vec<Expr> = Vec::new();
    let mut i: usize = 0;
    while i < es.len()
        invariant
            i <= es.len(),
            exprs_view(out@) == exprs_view(es@.take(i as int)),
        decreases es.len() - i,
    {
        let e = copy_expr(&es[i]);
        proof {
            lemma_exprs_view_push(out@, e);
            lemma_exprs_view_push(es@.take(i as int), es@[i as int]);
            assert(es@.take(i as int).push(es@[i as int]) =~= es@.take(i + 1));
        }
        out.push(e);
        i += 1;
    }
    proof {
        assert(es@.take(i as int) =~= es@);
    }
    out
}

fn copy_boxed_statement(s: &Option<Box<Statement>>) -> (r: Option<Box<Statement>>)
    ensures
        boxed_stmt_view(r) == boxed_stmt_view(*s),
    decreases s,
{
    match s {
        Some(b) => Some(Box::new(copy_statement(b))),
        None => None,
    }
}

fn copy_statement(s: &Statement) -> (r: Statement)
    ensures
        r@ == s@,
    decreases s,
{
    match s {
        Statement::Return(ret) => Statement::Return(ReturnStatement { expr: copy_expr(&ret.expr) }),
        Statement::Declare(d) => Statement::Declare(
            VarDeclareStatement {
                name: d.name.clone(),
                ty: copy_type(&d.ty),
                init: copy_expr(&d.init),
            },
        ),
        Statement::Assign(a) => Statement::Assign(
            VarAssignStatement {
                target: copy_expr(&a.target),
                op: a.op,
                expr: copy_expr(&a.expr),
            },
        ),
        Statement::Block(items) => Statement::Block(copy_statements(items)),
        Statement::If(i) => Statement::If(
            IfStatement {
                cond: copy_expr(&i.cond),
                then_branch: Box::new(copy_statement(&i.then_branch)),
                else_branch: copy_boxed_statement(&i.else_branch),
            },
        ),
        Statement::While(w) => Statement::While(
            WhileStatement { cond: copy_expr(&w.cond), body: Box::new(copy_statement(&w.body)) },
        ),
        Statement::For(f) => Statement::For(
            ForStatement {
                init: copy_boxed_statement(&f.init),
                cond: match &f.cond {
                    Some(c) => Some(copy_expr(c)),
                    None => None,
                },
                post: copy_boxed_statement(&f.post),
                body: Box::new(copy_statement(&f.body)),
            },
        ),
        Statement::Break => Statement::Break,
        Statement::Continue => Statement::Continue,
    }
}

fn copy_statements(items: &Vec<Statement>) -> (r: Vec<Statement>)
    ensures
        stmts_view(r@) == stmts_view(items@),
    decreases items,
{
    let mut out: Vec<Statement> = Vec::new();
    let mut i: usize = 0;
    while i < items.len()
        invariant
            i <= items.len(),
            stmts_view(out@) == stmts_view(items@.take(i as int)),
        decreases items.len() - i,
    {
        let s = copy_statement(&items[i]);
        proof {
            lemma_stmts_view_push(out@, s);
            lemma_stmts_view_push(items@.take(i as int), items@[i as int]);
            assert(items@.take(i as int).push(items@[i as int]) =~= items@.take(i + 1));
        }
        out.push(s);
        i += 1;
    }
    proof {
        assert(items@.take(i as int) =~= items@);
    }
    out
}

impl Clone for Expr {
    fn clone(&self) -> (r: Self)
        ensures
            r@ == self@,
    {
        copy_expr(self)
    }
}

impl Clone for UnaryExpr {
    fn clone(&self) -> (r: Self)
        ensures
            r.operator == self.operator,
            r.expr@ == self.expr@,
    {
        UnaryExpr { operator: self.operator, expr: Box::new(copy_expr(&self.expr)) }
    }
}

impl Clone for BinaryExpr {
    fn clone(&self) -> (r: Self)
        ensures
            r.left@ == self.left@,
            r.operator == self.operator,
            r.right@ == self.right@,
    {
        BinaryExpr {
            left: Box::new(copy_expr(&self.left)),
            operator: self.operator,
            right: Box::new(copy_expr(&self.right)),
        }
    }
}

impl Clone for FunctionCallExpr {
    fn clone(&self) -> (r: Self)
        ensures
            r.name@ == self.name@,
            exprs_view(r.args@) == exprs_view(self.args@),
    {
        FunctionCallExpr { name: self.name.clone(), args: copy_exprs(&self.args) }
    }
}

impl Clone for ConditionalExpr {
    fn clone(&self) -> (r: Self)
        ensures
            r.condition@ == self.condition@,
            r.then_expr@ == self.then_expr@,
            r.else_expr@ == self.else_expr@,
    {
        ConditionalExpr {
            condition: Box::new(copy_expr(&self.condition)),
            then_expr: Box::new(copy_expr(&self.then_expr)),
            else_expr: Box::new(copy_expr(&self.else_expr)),
        }
    }
}

impl Clone for Statement {
    fn clone(&self) -> (r: Self)
        ensures
            r@ == self@,
    {
        copy_statement(self)
    }
}

impl Clone for IfStatement {
    fn clone(&self) -> (r: Self)
        ensures
            r.cond@ == self.cond@,
            r.then_branch@ == self.then_branch@,
            boxed_stmt_view(r.else_branch) == boxed_stmt_view(self.else_branch),
    {
        IfStatement {
            cond: copy_expr(&self.cond),
            then_branch: Box::new(copy_statement(&self.then_branch)),
            else_branch: copy_boxed_statement(&self.else_branch),
        }
    }
}

impl Clone for WhileStatement {
    fn clone(&self) -> (r: Self)
        ensures
            r.cond@ == self.cond@,
            r.body@ == self.body@,
    {
        WhileStatement { cond: copy_expr(&self.cond), body: Box::new(copy_statement(&self.body)) }
    }
}

impl Clone for ForStatement {
    fn clone(&self) -> (r: Self)
        ensures
            boxed_stmt_view(r.init) == boxed_stmt_view(self.init),
            r.body@ == self.body@,
            boxed_stmt_view(r.post) == boxed_stmt_view(self.post),
    {
        ForStatement {
            init: copy_boxed_statement(&self.init),
            cond: match &self.cond {
                Some(c) => Some(copy_expr(c)),
                None => None,
            },
            post: copy_boxed_statement(&self.post),
            body: Box::new(copy_statement(&self.body)),
        }
    }
}

} // verus!
