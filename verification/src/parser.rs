//! Recursive-descent parser from tokens to the syntax tree.
use vstd::prelude::*;
use crate::ast::{
    BinaryExpr, BinaryOp, ConditionalExpr, Expr, ForStatement, Function, FunctionCallExpr, IfStatement,
    IntegerLiteral, Parameter, Program, ReturnStatement, Statement, Type, UnaryExpr, UnaryOp,
    VarAssignStatement, VarDeclareStatement, VariableExpr, WhileStatement,
};
use crate::ast;
use crate::grammar;
use crate::grammar::{ParseErrorView, Parsed};
use crate::lexer::{same_token, Token, TokenView};
use crate::lexer;

verus! {

#[derive(Debug, Clone, PartialEq, Eq)]
#[allow(inconsistent_fields)]
pub enum ParseError {
    UnexpectedToken { expected: &'static str, found: Option<Token> },
    #[allow(dead_code)]
    TrailingTokens { found: Token },
    InvalidIncrementTarget,
}

pub open spec fn opt_token_view(t: Option<Token>) -> Option<TokenView> {
    match t {
        Some(t) => Some(t@),
        None => None,
    }
}

pub open spec fn opt_ref_view(t: Option<&Token>) -> Option<TokenView> {
    match t {
        Some(t) => Some(t@),
        None => None,
    }
}

impl View for ParseError {
    type V = ParseErrorView;

    open spec fn view(&self) -> ParseErrorView {
        match self {
            ParseError::UnexpectedToken { expected, found } => ParseErrorView::UnexpectedToken {
                expected: *expected,
                found: opt_token_view(*found),
            },
            ParseError::TrailingTokens { found } => ParseErrorView::TrailingTokens { found: found@ },
            ParseError::InvalidIncrementTarget => ParseErrorView::InvalidIncrementTarget,
        }
    }
}

/// The exec result `r` is the grammar's result `expected`, ending at `end`.
pub open spec fn outcome<T: View>(r: Result<T, ParseError>, expected: Parsed<T::V>, end: int) -> bool {
    match r {
        Ok(v) => expected == Ok::<(T::V, int), ParseErrorView>((v@, end)),
        Err(e) => expected == Err::<(T::V, int), ParseErrorView>(e@),
    }
}

fn clone_found(t: Option<&Token>) -> (r: Option<Token>)
    ensures
        opt_token_view(r) == opt_ref_view(t),
{
    match t {
        Some(t) => Some(t.clone()),
        None => None,
    }
}

fn unexpected_error(expected: &'static str, found: Option<&Token>) -> (r: ParseError)
    ensures
        r@ == (ParseErrorView::UnexpectedToken { expected, found: opt_ref_view(found) }),
{
    ParseError::UnexpectedToken { expected, found: clone_found(found) }
}

/// Parses a whole token sequence into a program.
pub fn parse(tokens: &[Token]) -> (r: Result<Program, ParseError>)
    ensures
        match r {
            Ok(program) => grammar::program(lexer::tokens_view(tokens@)) == Ok::<
                Seq<ast::FunctionView>,
                ParseErrorView,
            >(program@),
            Err(e) => grammar::program(lexer::tokens_view(tokens@)) == Err::<
                Seq<ast::FunctionView>,
                ParseErrorView,
            >(e@),
        },
{
    let mut parser = Parser::new(tokens);
    parser.parse_program()
}

/// A cursor over a token sequence.
pub struct Parser<'a> {
    tokens: &'a [Token],
    position: usize,
}

fn binary_op_at(k: u8, t: Option<&Token>) -> (r: Option<BinaryOp>)
    ensures
        r == grammar::binary_op_of(k as nat, opt_ref_view(t)),
{
    match t {
        Some(tok) => if k == 1 {
            match tok {
                Token::Star => Some(BinaryOp::Multiply),
                Token::Slash => Some(BinaryOp::Divide),
                Token::Percent => Some(BinaryOp::Modulo),
                _ => None,
            }
        } else if k == 2 {
            match tok {
                Token::Plus => Some(BinaryOp::Add),
                Token::Minus => Some(BinaryOp::Subtract),
                _ => None,
            }
        } else if k == 3 {
            match tok {
                Token::LessThan => Some(BinaryOp::LessThan),
                Token::LessEqual => Some(BinaryOp::LessEqual),
                Token::GreaterThan => Some(BinaryOp::GreaterThan),
                Token::GreaterEqual => Some(BinaryOp::GreaterEqual),
                _ => None,
            }
        } else if k == 4 {
            match tok {
                Token::EqualEqual => Some(BinaryOp::Equal),
                Token::NotEqual => Some(BinaryOp::NotEqual),
                _ => None,
            }
        } else if k == 5 {
            match tok {
                Token::AndAnd => Some(BinaryOp::LogicalAnd),
                _ => None,
            }
        } else if k == 6 {
            match tok {
                Token::OrOr => Some(BinaryOp::LogicalOr),
                _ => None,
            }
        } else {
            None
        },
        None => None,
    }
}

fn unary_op_at(t: Option<&Token>) -> (r: Option<UnaryOp>)
    ensures
        r == grammar::unary_op_of(opt_ref_view(t)),
{
    match t {
        Some(Token::Minus) => Some(UnaryOp::Negate),
        Some(Token::Plus) => Some(UnaryOp::Posate),
        Some(Token::Exclamation) => Some(UnaryOp::LogicalNot),
        Some(Token::Star) => Some(UnaryOp::Deref),
        Some(Token::Ampersand) => Some(UnaryOp::AddrOf),
        _ => None,
    }
}

fn assign_op_at(t: Option<&Token>) -> (r: Option<Option<BinaryOp>>)
    ensures
        r == grammar::assign_op_of(opt_ref_view(t)),
{
    match t {
        Some(Token::Equals) => Some(None),
        Some(Token::PlusEqual) => Some(Some(BinaryOp::Add)),
        Some(Token::MinusEqual) => Some(Some(BinaryOp::Subtract)),
        Some(Token::StarEqual) => Some(Some(BinaryOp::Multiply)),
        Some(Token::SlashEqual) => Some(Some(BinaryOp::Divide)),
        Some(Token::PercentEqual) => Some(Some(BinaryOp::Modulo)),
        _ => None,
    }
}

impl<'a> Parser<'a> {
    /// The tokens being parsed.
    pub closed spec fn token_views(&self) -> Seq<TokenView> {
        lexer::tokens_view(self.tokens@)
    }

    /// The index of the next token to read.
    pub closed spec fn cursor(&self) -> int {
        self.position as int
    }

    /// The cursor never passes the end of the tokens.
    pub closed spec fn wf(&self) -> bool {
        self.position <= self.tokens@.len()
    }

    pub open spec fn same_tokens(&self, other: &Self) -> bool {
        &&& self.wf()
        &&& self.token_views() == other.token_views()
    }

    pub fn new(tokens: &'a [Token]) -> (r: Self)
        ensures
            r.wf(),
            r.token_views() == lexer::tokens_view(tokens@),
            r.cursor() == 0,
    {
        Self { tokens, position: 0 }
    }

    /// Parses functions up to the end of the tokens.
    pub fn parse_program(&mut self) -> (r: Result<Program, ParseError>)
        requires
            old(self).wf(),
        ensures
            final(self).same_tokens(old(self)),
            match r {
                Ok(program) => grammar::functions(old(self).token_views(), old(self).cursor())
                    == Ok::<Seq<ast::FunctionView>, ParseErrorView>(program@),
                Err(e) => grammar::functions(old(self).token_views(), old(self).cursor()) == Err::<
                    Seq<ast::FunctionView>,
                    ParseErrorView,
                >(e@),
            },
            r is Ok ==> final(self).cursor() == final(self).token_views().len(),
    {
        let ghost ts = self.token_views();
        let ghost p0 = self.cursor();
        let mut functions: Vec<Function> = Vec::new();
        while self.peek().is_some()
            invariant
                self.same_tokens(old(self)),
                self.token_views() == ts,
                p0 == old(self).cursor(),
                grammar::functions(ts, p0) == grammar::prepend_result(
                    ast::functions_view(functions@),
                    grammar::functions(ts, self.cursor()),
                ),
            decreases ts.len() - self.cursor(),
        {
            let ghost done = ast::functions_view(functions@);
            let ghost c = self.cursor();
            proof {
                self.lemma_position_bounds();
                grammar::lemma_function_progress(ts, c);
            }
            let f = self.parse_function()?;
            proof {
                ast::lemma_functions_view_push(functions@, f);
                grammar::lemma_prepend_result(done, seq![f@], grammar::functions(ts, self.cursor()));
            }
            functions.push(f);
        }
        proof {
            self.lemma_position_bounds();
            assert(ast::functions_view(functions@) + Seq::<ast::FunctionView>::empty()
                =~= ast::functions_view(functions@));
        }
        Ok(Program { functions })
    }

    proof fn lemma_position_bounds(&self)
        requires
            self.wf(),
        ensures
            0 <= self.cursor() <= self.token_views().len(),
    {
    }

    fn parse_type(&mut self) -> (r: Result<Type, ParseError>)
        requires
            old(self).wf(),
        ensures
            final(self).same_tokens(old(self)),
            outcome(r, grammar::type_spec(old(self).token_views(), old(self).cursor()), final(self).cursor()),
    {
        let ghost ts = self.token_views();
        self.expect_keyword_int()?;
        let ghost p1 = self.cursor();
        let mut ty = Type::Int;
        while matches!(self.peek(), Some(Token::Star))
            invariant
                self.same_tokens(old(self)),
                self.token_views() == ts,
                grammar::pointer_suffix(ts, Type::Int, p1) == grammar::pointer_suffix(
                    ts,
                    ty,
                    self.cursor(),
                ),
            decreases ts.len() - self.cursor(),
        {
            self.next();
            ty = Type::Pointer(Box::new(ty));
        }
        Ok(ty)
    }

    #[verifier::loop_isolation(false)]
    pub fn parse_function(&mut self) -> (r: Result<Function, ParseError>)
        requires
            old(self).wf(),
        ensures
            final(self).same_tokens(old(self)),
            outcome(r, grammar::function(old(self).token_views(), old(self).cursor()), final(self).cursor()),
    {
        let ghost ts = self.token_views();
        let ghost p0 = self.cursor();
        let return_type = self.parse_type()?;
        let name = self.parse_identifier()?;
        self.expect_left_paren()?;
        let ghost p3 = self.cursor();
        let mut params: Vec<Parameter> = Vec::new();
        proof {
            assert(ast::params_view(params@) =~= Seq::<ast::ParameterView>::empty());
        }
        if matches!(self.peek(), Some(Token::Void)) {
            self.next();
            self.expect_right_paren()?;
        } else if matches!(self.peek(), Some(Token::RightParen)) {
            self.next();
        } else {
            loop
                invariant
                    self.same_tokens(old(self)),
                    self.token_views() == ts,
                    p3 <= self.cursor(),
                    grammar::param_list(ts, p3) == grammar::prepend_parsed(
                        ast::params_view(params@),
                        grammar::param_list(ts, self.cursor()),
                    ),
                decreases ts.len() - self.cursor(),
            {
                let ghost c = self.cursor();
                let ghost done = ast::params_view(params@);
                proof {
                    grammar::lemma_type_spec_progress(ts, c);
                }
                let ty = self.parse_type()?;
                let p_name = self.parse_identifier()?;
                let param = Parameter { name: p_name, ty };
                proof {
                    ast::lemma_params_view_push(params@, param);
                }
                params.push(param);
                match self.peek() {
                    Some(Token::Comma) => {
                        self.next();
                        proof {
                            grammar::lemma_prepend_parsed(
                                done,
                                seq![param@],
                                grammar::param_list(ts, self.cursor()),
                            );
                        }
                    },
                    Some(Token::RightParen) => {
                        self.next();
                        break;
                    },
                    other => {
                        return Err(unexpected_error("`,` or `)`", other));
                    },
                }
            }
        }
        self.expect_left_brace()?;
        let ghost p5 = self.cursor();
        let mut body: Vec<Statement> = Vec::new();
        while !matches!(self.peek(), Some(Token::RightBrace))
            invariant
                self.same_tokens(old(self)),
                self.token_views() == ts,
                p5 <= self.cursor(),
                grammar::block_items(ts, p5) == grammar::prepend_parsed(
                    ast::stmts_view(body@),
                    grammar::block_items(ts, self.cursor()),
                ),
            decreases ts.len() - self.cursor(),
        {
            let ghost done = ast::stmts_view(body@);
            let s = self.parse_statement()?;
            proof {
                ast::lemma_stmts_view_push(body@, s);
                grammar::lemma_prepend_parsed(
                    done,
                    seq![s@],
                    grammar::block_items(ts, self.cursor()),
                );
            }
            body.push(s);
        }
        proof {
            assert(ast::stmts_view(body@) + Seq::<ast::StatementView>::empty() =~= ast::stmts_view(
                body@,
            ));
        }
        self.expect_right_brace()?;
        Ok(Function { name, return_type, params, body })
    }

    pub fn parse_statement(&mut self) -> (r: Result<Statement, ParseError>)
        requires
            old(self).wf(),
        ensures
            final(self).same_tokens(old(self)),
            outcome(r, grammar::statement(old(self).token_views(), old(self).cursor()), final(self).cursor()),
            r is Ok ==> old(self).cursor() < final(self).cursor(),
        decreases old(self).token_views().len() - old(self).cursor(), 1int,
    {
        let ghost ts = self.token_views();
        let ghost p0 = self.cursor();
        proof {
            self.lemma_position_bounds();
            grammar::lemma_statement_progress(ts, p0);
        }
        match self.peek() {
            Some(Token::Return) => {
                self.next();
                let expr = self.parse_expression()?;
                self.expect_semicolon()?;
                Ok(Statement::Return(ReturnStatement { expr }))
            },
            Some(Token::Int) => {
                let ty = self.parse_type()?;
                let name = self.parse_identifier()?;
                self.expect_token(Token::Equals, "`=`")?;
                let init = self.parse_expression()?;
                self.expect_semicolon()?;
                Ok(Statement::Declare(VarDeclareStatement { name, ty, init }))
            },
            Some(Token::LeftBrace) => self.parse_block_statement(),
            Some(Token::If) => self.parse_if_statement(),
            Some(Token::While) => self.parse_while_statement(),
            Some(Token::For) => self.parse_for_statement(),
            Some(Token::Break) => {
                self.next();
                self.expect_semicolon()?;
                Ok(Statement::Break)
            },
            Some(Token::Continue) => {
                self.next();
                self.expect_semicolon()?;
                Ok(Statement::Continue)
            },
            Some(_) => {
                let statement = self.parse_assignment_statement()?;
                self.expect_semicolon()?;
                Ok(statement)
            },
            None => Err(ParseError::UnexpectedToken { expected: grammar_statement_keywords(), found: None }),
        }
    }

    /// `{ statements }`
    #[verifier::loop_isolation(false)]
    fn parse_block_statement(&mut self) -> (r: Result<Statement, ParseError>)
        requires
            old(self).wf(),
            grammar::peek(old(self).token_views(), old(self).cursor()) == Some(TokenView::LeftBrace),
        ensures
            final(self).same_tokens(old(self)),
            outcome(r, grammar::statement(old(self).token_views(), old(self).cursor()), final(self).cursor()),
        decreases old(self).token_views().len() - old(self).cursor(), 0int,
    {
        let ghost ts = self.token_views();
        let ghost p0 = self.cursor();
        self.next();
        let ghost p1 = self.cursor();
        let mut body: Vec<Statement> = Vec::new();
        while !matches!(self.peek(), Some(Token::RightBrace))
            invariant
                self.same_tokens(old(self)),
                self.token_views() == ts,
                p0 < p1 <= self.cursor(),
                grammar::block_items(ts, p1) == grammar::prepend_parsed(
                    ast::stmts_view(body@),
                    grammar::block_items(ts, self.cursor()),
                ),
            decreases ts.len() - self.cursor(),
        {
            let ghost done = ast::stmts_view(body@);
            let s = self.parse_statement()?;
            proof {
                ast::lemma_stmts_view_push(body@, s);
                grammar::lemma_prepend_parsed(done, seq![s@], grammar::block_items(ts, self.cursor()));
            }
            body.push(s);
        }
        proof {
            assert(ast::stmts_view(body@) + Seq::<ast::StatementView>::empty() =~= ast::stmts_view(
                body@,
            ));
        }
        self.expect_token(Token::RightBrace, "`}`")?;
        Ok(Statement::Block(body))
    }

    /// `if (cond) statement` with an optional `else statement`.
    fn parse_if_statement(&mut self) -> (r: Result<Statement, ParseError>)
        requires
            old(self).wf(),
            grammar::peek(old(self).token_views(), old(self).cursor()) == Some(TokenView::If),
        ensures
            final(self).same_tokens(old(self)),
            outcome(r, grammar::statement(old(self).token_views(), old(self).cursor()), final(self).cursor()),
        decreases old(self).token_views().len() - old(self).cursor(), 0int,
    {
        let ghost ts = self.token_views();
        let ghost p0 = self.cursor();
        self.next();
        self.expect_left_paren()?;
        let cond = self.parse_expression()?;
        self.expect_right_paren()?;
        let then_branch = self.parse_statement()?;
        let ghost q4 = self.cursor();
        let else_branch = if matches!(self.peek(), Some(Token::Else)) {
            self.next();
            assert(grammar::advances(ts, p0, q4 + 1));
            let e = self.parse_statement()?;
            Some(Box::new(e))
        } else {
            None
        };
        Ok(Statement::If(IfStatement { cond, then_branch: Box::new(then_branch), else_branch }))
    }

    /// `while (cond) statement`
    fn parse_while_statement(&mut self) -> (r: Result<Statement, ParseError>)
        requires
            old(self).wf(),
            grammar::peek(old(self).token_views(), old(self).cursor()) == Some(TokenView::While),
        ensures
            final(self).same_tokens(old(self)),
            outcome(r, grammar::statement(old(self).token_views(), old(self).cursor()), final(self).cursor()),
        decreases old(self).token_views().len() - old(self).cursor(), 0int,
    {
        self.next();
        self.expect_left_paren()?;
        let cond = self.parse_expression()?;
        self.expect_right_paren()?;
        let body = self.parse_statement()?;
        Ok(Statement::While(WhileStatement { cond, body: Box::new(body) }))
    }

    /// `for (init; cond; post) statement`, each of the three parts optional.
    #[verifier::rlimit(40)]
    fn parse_for_statement(&mut self) -> (r: Result<Statement, ParseError>)
        requires
            old(self).wf(),
            grammar::peek(old(self).token_views(), old(self).cursor()) == Some(TokenView::For),
        ensures
            final(self).same_tokens(old(self)),
            outcome(r, grammar::statement(old(self).token_views(), old(self).cursor()), final(self).cursor()),
        decreases old(self).token_views().len() - old(self).cursor(), 0int,
    {
        let ghost ts = self.token_views();
        let ghost p0 = self.cursor();
        self.next();
        self.expect_left_paren()?;
        let ghost q1 = self.cursor();
        proof {
            grammar::lemma_for_init(ts, q1);
        }
        let init = if matches!(self.peek(), Some(Token::Semicolon)) {
            self.next();
            None
        } else {
            let s = self.parse_statement()?;
            Some(Box::new(s))
        };
        let ghost q2 = self.cursor();
        assert(grammar::advances(ts, p0, q2));
        assert(grammar::for_init(ts, q1) == Ok::<
            (Option<Box<ast::StatementView>>, int),
            ParseErrorView,
        >((ast::boxed_stmt_view(init), q2)));
        assert(grammar::statement(ts, p0) == grammar::for_after_init(
            ts,
            p0,
            ast::boxed_stmt_view(init),
            q2,
        ));
        let cond = if matches!(self.peek(), Some(Token::Semicolon)) {
            None
        } else {
            let e = self.parse_expression()?;
            Some(e)
        };
        self.expect_semicolon()?;
        let post = if matches!(self.peek(), Some(Token::RightParen)) {
            None
        } else {
            let s = self.parse_assignment_statement()?;
            Some(Box::new(s))
        };
        self.expect_right_paren()?;
        let body = self.parse_statement()?;
        Ok(Statement::For(ForStatement { init, cond, post, body: Box::new(body) }))
    }

    /// An assignment-like statement without its trailing semicolon: a prefix or
    /// postfix increment or decrement, or a (compound) assignment.
    fn parse_assignment_statement(&mut self) -> (r: Result<Statement, ParseError>)
        requires
            old(self).wf(),
        ensures
            final(self).same_tokens(old(self)),
            outcome(
                r,
                grammar::assignment_statement(old(self).token_views(), old(self).cursor()),
                final(self).cursor(),
            ),
            r is Ok ==> old(self).cursor() < final(self).cursor(),
    {
        let ghost ts = self.token_views();
        proof {
            self.lemma_position_bounds();
            grammar::lemma_assignment_progress(ts, self.cursor());
        }
        if let Some(op) = self.peek_increment_op() {
            self.next();
            let target = self.parse_unary()?;
            let assign = Self::increment_assignment(target, op)?;
            return Ok(Statement::Assign(assign));
        }
        let target = self.parse_unary()?;
        if let Some(op) = self.peek_increment_op() {
            self.next();
            let assign = Self::increment_assignment(target, op)?;
            return Ok(Statement::Assign(assign));
        }
        let assign = self.parse_assignment(target)?;
        Ok(Statement::Assign(assign))
    }

    fn peek_increment_op(&self) -> (r: Option<BinaryOp>)
        requires
            self.wf(),
        ensures
            r == grammar::increment_op_of(grammar::peek(self.token_views(), self.cursor())),
    {
        match self.peek() {
            Some(Token::PlusPlus) => Some(BinaryOp::Add),
            Some(Token::MinusMinus) => Some(BinaryOp::Subtract),
            _ => None,
        }
    }

    /// Turns `++x` / `x++` / `--x` / `x--` into `x += 1` / `x -= 1`.
    fn increment_assignment(target: Expr, op: BinaryOp) -> (r: Result<VarAssignStatement, ParseError>)
        ensures
            match r {
                Ok(a) => grammar::increment(target@, op, 0) == Ok::<
                    (ast::StatementView, int),
                    ParseErrorView,
                >((Statement::Assign(a)@, 0)),
                Err(e) => grammar::increment(target@, op, 0) == Err::<
                    (ast::StatementView, int),
                    ParseErrorView,
                >(e@),
            },
    {
        if !matches!(target, Expr::Variable(_)) {
            return Err(ParseError::InvalidIncrementTarget);
        }
        Ok(
            VarAssignStatement {
                target,
                op: Some(op),
                expr: Expr::IntegerLiteral(IntegerLiteral { value: 1 }),
            },
        )
    }

    /// The `= expr` / `op= expr` tail of an assignment statement, given its target.
    fn parse_assignment(&mut self, target: Expr) -> (r: Result<VarAssignStatement, ParseError>)
        requires
            old(self).wf(),
        ensures
            final(self).same_tokens(old(self)),
            match r {
                Ok(a) => grammar::assignment_tail(old(self).token_views(), target@, old(self).cursor())
                    == Ok::<(ast::StatementView, int), ParseErrorView>(
                    (Statement::Assign(a)@, final(self).cursor()),
                ),
                Err(e) => grammar::assignment_tail(
                    old(self).token_views(),
                    target@,
                    old(self).cursor(),
                ) == Err::<(ast::StatementView, int), ParseErrorView>(e@),
            },
            grammar::assign_op_of(grammar::peek(old(self).token_views(), old(self).cursor()))
                is None ==> final(self).cursor() == old(self).cursor(),
    {
        let op = match assign_op_at(self.peek()) {
            Some(op) => op,
            None => {
                return Err(unexpected_error("`=`, `+=`, `-=`, `*=`, `/=`, or `%=`", self.peek()));
            },
        };
        self.next();
        let expr = self.parse_expression()?;
        Ok(VarAssignStatement { target, op, expr })
    }

    fn parse_expression(&mut self) -> (r: Result<Expr, ParseError>)
        requires
            old(self).wf(),
        ensures
            final(self).same_tokens(old(self)),
            outcome(r, grammar::expression(old(self).token_views(), old(self).cursor()), final(self).cursor()),
            r is Ok ==> old(self).cursor() < final(self).cursor(),
        decreases old(self).token_views().len() - old(self).cursor(), 9int,
    {
        self.parse_conditional()
    }

    /// `c ? a : b`, grouping to the right, or a `||` expression alone.
    fn parse_conditional(&mut self) -> (r: Result<Expr, ParseError>)
        requires
            old(self).wf(),
        ensures
            final(self).same_tokens(old(self)),
            outcome(r, grammar::conditional(old(self).token_views(), old(self).cursor()), final(self).cursor()),
            r is Ok ==> old(self).cursor() < final(self).cursor(),
        decreases old(self).token_views().len() - old(self).cursor(), 8int,
    {
        let condition = self.parse_logical_or()?;
        if !matches!(self.peek(), Some(Token::Question)) {
            return Ok(condition);
        }
        self.next();
        let then_expr = self.parse_expression()?;
        self.expect_token(Token::Colon, "`:`")?;
        let else_expr = self.parse_conditional()?;
        Ok(
            Expr::Conditional(
                ConditionalExpr {
                    condition: Box::new(condition),
                    then_expr: Box::new(then_expr),
                    else_expr: Box::new(else_expr),
                },
            ),
        )
    }

    fn parse_logical_or(&mut self) -> (r: Result<Expr, ParseError>)
        requires
            old(self).wf(),
        ensures
            final(self).same_tokens(old(self)),
            outcome(r, grammar::binary(old(self).token_views(), old(self).cursor(), 6), final(self).cursor()),
            r is Ok ==> old(self).cursor() < final(self).cursor(),
        decreases old(self).token_views().len() - old(self).cursor(), 7int,
    {
        let ghost ts = self.token_views();
        let ghost p0 = self.cursor();
        proof {
            grammar::lemma_operand(ts, p0, 6);
        }
        let mut expr = self.parse_logical_and()?;
        loop
            invariant
                self.same_tokens(old(self)),
                self.token_views() == ts,
                p0 == old(self).cursor(),
                p0 < self.cursor(),
                grammar::binary(ts, p0, 6) == grammar::binary_rest(ts, 6, expr@, self.cursor()),
            ensures
                self.same_tokens(old(self)),
                p0 < self.cursor(),
                grammar::binary(ts, p0, 6) == Ok::<(ast::ExprView, int), ParseErrorView>(
                    (expr@, self.cursor()),
                ),
            decreases ts.len() - self.cursor(),
        {
            match binary_op_at(6, self.peek()) {
                Some(operator) => {
                    self.next();
                    proof {
                        grammar::lemma_operand(ts, self.cursor(), 6);
                    }
                    let right = self.parse_logical_and()?;
                    expr = Expr::Binary(BinaryExpr { left: Box::new(expr), operator, right: Box::new(right) });
                },
                None => break,
            }
        }
        Ok(expr)
    }

    fn parse_logical_and(&mut self) -> (r: Result<Expr, ParseError>)
        requires
            old(self).wf(),
        ensures
            final(self).same_tokens(old(self)),
            outcome(r, grammar::binary(old(self).token_views(), old(self).cursor(), 5), final(self).cursor()),
            r is Ok ==> old(self).cursor() < final(self).cursor(),
        decreases old(self).token_views().len() - old(self).cursor(), 6int,
    {
        let ghost ts = self.token_views();
        let ghost p0 = self.cursor();
        proof {
            grammar::lemma_operand(ts, p0, 5);
        }
        let mut expr = self.parse_equality()?;
        loop
            invariant
                self.same_tokens(old(self)),
                self.token_views() == ts,
                p0 == old(self).cursor(),
                p0 < self.cursor(),
                grammar::binary(ts, p0, 5) == grammar::binary_rest(ts, 5, expr@, self.cursor()),
            ensures
                self.same_tokens(old(self)),
                p0 < self.cursor(),
                grammar::binary(ts, p0, 5) == Ok::<(ast::ExprView, int), ParseErrorView>(
                    (expr@, self.cursor()),
                ),
            decreases ts.len() - self.cursor(),
        {
            match binary_op_at(5, self.peek()) {
                Some(operator) => {
                    self.next();
                    proof {
                        grammar::lemma_operand(ts, self.cursor(), 5);
                    }
                    let right = self.parse_equality()?;
                    expr = Expr::Binary(BinaryExpr { left: Box::new(expr), operator, right: Box::new(right) });
                },
                None => break,
            }
        }
        Ok(expr)
    }

    fn parse_equality(&mut self) -> (r: Result<Expr, ParseError>)
        requires
            old(self).wf(),
        ensures
            final(self).same_tokens(old(self)),
            outcome(r, grammar::binary(old(self).token_views(), old(self).cursor(), 4), final(self).cursor()),
            r is Ok ==> old(self).cursor() < final(self).cursor(),
        decreases old(self).token_views().len() - old(self).cursor(), 5int,
    {
        let ghost ts = self.token_views();
        let ghost p0 = self.cursor();
        proof {
            grammar::lemma_operand(ts, p0, 4);
        }
        let mut expr = self.parse_relational()?;
        loop
            invariant
                self.same_tokens(old(self)),
                self.token_views() == ts,
                p0 == old(self).cursor(),
                p0 < self.cursor(),
                grammar::binary(ts, p0, 4) == grammar::binary_rest(ts, 4, expr@, self.cursor()),
            ensures
                self.same_tokens(old(self)),
                p0 < self.cursor(),
                grammar::binary(ts, p0, 4) == Ok::<(ast::ExprView, int), ParseErrorView>(
                    (expr@, self.cursor()),
                ),
            decreases ts.len() - self.cursor(),
        {
            match binary_op_at(4, self.peek()) {
                Some(operator) => {
                    self.next();
                    proof {
                        grammar::lemma_operand(ts, self.cursor(), 4);
                    }
                    let right = self.parse_relational()?;
                    expr = Expr::Binary(BinaryExpr { left: Box::new(expr), operator, right: Box::new(right) });
                },
                None => break,
            }
        }
        Ok(expr)
    }

    fn parse_relational(&mut self) -> (r: Result<Expr, ParseError>)
        requires
            old(self).wf(),
        ensures
            final(self).same_tokens(old(self)),
            outcome(r, grammar::binary(old(self).token_views(), old(self).cursor(), 3), final(self).cursor()),
            r is Ok ==> old(self).cursor() < final(self).cursor(),
        decreases old(self).token_views().len() - old(self).cursor(), 4int,
    {
        let ghost ts = self.token_views();
        let ghost p0 = self.cursor();
        proof {
            grammar::lemma_operand(ts, p0, 3);
        }
        let mut expr = self.parse_additive()?;
        loop
            invariant
                self.same_tokens(old(self)),
                self.token_views() == ts,
                p0 == old(self).cursor(),
                p0 < self.cursor(),
                grammar::binary(ts, p0, 3) == grammar::binary_rest(ts, 3, expr@, self.cursor()),
            ensures
                self.same_tokens(old(self)),
                p0 < self.cursor(),
                grammar::binary(ts, p0, 3) == Ok::<(ast::ExprView, int), ParseErrorView>(
                    (expr@, self.cursor()),
                ),
            decreases ts.len() - self.cursor(),
        {
            match binary_op_at(3, self.peek()) {
                Some(operator) => {
                    self.next();
                    proof {
                        grammar::lemma_operand(ts, self.cursor(), 3);
                    }
                    let right = self.parse_additive()?;
                    expr = Expr::Binary(BinaryExpr { left: Box::new(expr), operator, right: Box::new(right) });
                },
                None => break,
            }
        }
        Ok(expr)
    }

    fn parse_additive(&mut self) -> (r: Result<Expr, ParseError>)
        requires
            old(self).wf(),
        ensures
            final(self).same_tokens(old(self)),
            outcome(r, grammar::binary(old(self).token_views(), old(self).cursor(), 2), final(self).cursor()),
            r is Ok ==> old(self).cursor() < final(self).cursor(),
        decreases old(self).token_views().len() - old(self).cursor(), 3int,
    {
        let ghost ts = self.token_views();
        let ghost p0 = self.cursor();
        proof {
            grammar::lemma_operand(ts, p0, 2);
        }
        let mut expr = self.parse_multiplicative()?;
        loop
            invariant
                self.same_tokens(old(self)),
                self.token_views() == ts,
                p0 == old(self).cursor(),
                p0 < self.cursor(),
                grammar::binary(ts, p0, 2) == grammar::binary_rest(ts, 2, expr@, self.cursor()),
            ensures
                self.same_tokens(old(self)),
                p0 < self.cursor(),
                grammar::binary(ts, p0, 2) == Ok::<(ast::ExprView, int), ParseErrorView>(
                    (expr@, self.cursor()),
                ),
            decreases ts.len() - self.cursor(),
        {
            match binary_op_at(2, self.peek()) {
                Some(operator) => {
                    self.next();
                    proof {
                        grammar::lemma_operand(ts, self.cursor(), 2);
                    }
                    let right = self.parse_multiplicative()?;
                    expr = Expr::Binary(BinaryExpr { left: Box::new(expr), operator, right: Box::new(right) });
                },
                None => break,
            }
        }
        Ok(expr)
    }

    fn parse_multiplicative(&mut self) -> (r: Result<Expr, ParseError>)
        requires
            old(self).wf(),
        ensures
            final(self).same_tokens(old(self)),
            outcome(r, grammar::binary(old(self).token_views(), old(self).cursor(), 1), final(self).cursor()),
            r is Ok ==> old(self).cursor() < final(self).cursor(),
        decreases old(self).token_views().len() - old(self).cursor(), 2int,
    {
        let ghost ts = self.token_views();
        let ghost p0 = self.cursor();
        proof {
            grammar::lemma_operand(ts, p0, 1);
        }
        let mut expr = self.parse_unary()?;
        loop
            invariant
                self.same_tokens(old(self)),
                self.token_views() == ts,
                p0 == old(self).cursor(),
                p0 < self.cursor(),
                grammar::binary(ts, p0, 1) == grammar::binary_rest(ts, 1, expr@, self.cursor()),
            ensures
                self.same_tokens(old(self)),
                p0 < self.cursor(),
                grammar::binary(ts, p0, 1) == Ok::<(ast::ExprView, int), ParseErrorView>(
                    (expr@, self.cursor()),
                ),
            decreases ts.len() - self.cursor(),
        {
            match binary_op_at(1, self.peek()) {
                Some(operator) => {
                    self.next();
                    proof {
                        grammar::lemma_operand(ts, self.cursor(), 1);
                    }
                    let right = self.parse_unary()?;
                    expr = Expr::Binary(BinaryExpr { left: Box::new(expr), operator, right: Box::new(right) });
                },
                None => break,
            }
        }
        Ok(expr)
    }

    fn parse_unary(&mut self) -> (r: Result<Expr, ParseError>)
        requires
            old(self).wf(),
        ensures
            final(self).same_tokens(old(self)),
            outcome(r, grammar::unary(old(self).token_views(), old(self).cursor()), final(self).cursor()),
            r is Ok ==> old(self).cursor() < final(self).cursor(),
        decreases old(self).token_views().len() - old(self).cursor(), 1int,
    {
        match unary_op_at(self.peek()) {
            Some(operator) => {
                self.next();
                let expr = self.parse_unary()?;
                Ok(Expr::Unary(UnaryExpr { operator, expr: Box::new(expr) }))
            },
            None => self.parse_primary(),
        }
    }

    #[verifier::loop_isolation(false)]
    fn parse_primary(&mut self) -> (r: Result<Expr, ParseError>)
        requires
            old(self).wf(),
        ensures
            final(self).same_tokens(old(self)),
            outcome(r, grammar::primary(old(self).token_views(), old(self).cursor()), final(self).cursor()),
            r is Ok ==> old(self).cursor() < final(self).cursor(),
        decreases old(self).token_views().len() - old(self).cursor(), 0int,
    {
        let ghost ts = self.token_views();
        let ghost p0 = self.cursor();
        match self.peek() {
            Some(Token::Integer(_)) => self.parse_integer_literal(),
            Some(Token::Identifier(_)) => {
                let name = self.parse_identifier()?;
                if matches!(self.peek(), Some(Token::LeftParen)) {
                    self.next();
                    let mut args: Vec<Expr> = Vec::new();
                    if matches!(self.peek(), Some(Token::RightParen)) {
                        self.next();
                        proof {
                            assert(ast::exprs_view(args@) =~= Seq::<ast::ExprView>::empty());
                        }
                    } else {
                        let ghost p2 = self.cursor();
                        loop
                            invariant
                                self.same_tokens(old(self)),
                                self.token_views() == ts,
                                p0 < p2 <= self.cursor(),
                                grammar::call_args(ts, p2) == grammar::prepend_parsed(
                                    ast::exprs_view(args@),
                                    grammar::call_args(ts, self.cursor()),
                                ),
                            decreases ts.len() - self.cursor(),
                        {
                            let ghost c = self.cursor();
                            let ghost done = ast::exprs_view(args@);
                            let arg = self.parse_expression()?;
                            proof {
                                ast::lemma_exprs_view_push(args@, arg);
                            }
                            args.push(arg);
                            match self.peek() {
                                Some(Token::Comma) => {
                                    self.next();
                                    proof {
                                        grammar::lemma_prepend_parsed(
                                            done,
                                            seq![arg@],
                                            grammar::call_args(ts, self.cursor()),
                                        );
                                    }
                                },
                                Some(Token::RightParen) => {
                                    self.next();
                                    break;
                                },
                                other => {
                                    return Err(unexpected_error("`,` or `)`", other));
                                },
                            }
                        }
                    }
                    Ok(Expr::Call(FunctionCallExpr { name, args }))
                } else {
                    Ok(Expr::Variable(VariableExpr { name }))
                }
            },
            Some(Token::LeftParen) => {
                self.expect_left_paren()?;
                let expr = self.parse_expression()?;
                self.expect_right_paren()?;
                Ok(expr)
            },
            other => Err(unexpected_error("expression", other)),
        }
    }

    fn parse_integer_literal(&mut self) -> (r: Result<Expr, ParseError>)
        requires
            old(self).wf(),
        ensures
            final(self).same_tokens(old(self)),
            outcome(r, grammar::integer_literal(old(self).token_views(), old(self).cursor()), final(self).cursor()),
            r is Ok ==> old(self).cursor() < final(self).cursor(),
    {
        match self.next() {
            Some(Token::Integer(value)) => Ok(Expr::IntegerLiteral(IntegerLiteral { value: *value })),
            other => Err(unexpected_error("integer literal", other)),
        }
    }

    fn parse_identifier(&mut self) -> (r: Result<String, ParseError>)
        requires
            old(self).wf(),
        ensures
            final(self).same_tokens(old(self)),
            outcome(r, grammar::identifier(old(self).token_views(), old(self).cursor()), final(self).cursor()),
    {
        match self.next() {
            Some(Token::Identifier(name)) => Ok(name.clone()),
            other => Err(unexpected_error("identifier", other)),
        }
    }

    fn expect_keyword_int(&mut self) -> (r: Result<(), ParseError>)
        requires
            old(self).wf(),
        ensures
            final(self).same_tokens(old(self)),
            expected_token(r, old(self).token_views(), old(self).cursor(), TokenView::Int, "`int`", final(self).cursor()),
    {
        self.expect_token(Token::Int, "`int`")
    }

    fn expect_left_paren(&mut self) -> (r: Result<(), ParseError>)
        requires
            old(self).wf(),
        ensures
            final(self).same_tokens(old(self)),
            expected_token(r, old(self).token_views(), old(self).cursor(), TokenView::LeftParen, "`(`", final(self).cursor()),
    {
        self.expect_token(Token::LeftParen, "`(`")
    }

    fn expect_right_paren(&mut self) -> (r: Result<(), ParseError>)
        requires
            old(self).wf(),
        ensures
            final(self).same_tokens(old(self)),
            expected_token(r, old(self).token_views(), old(self).cursor(), TokenView::RightParen, "`)`", final(self).cursor()),
    {
        self.expect_token(Token::RightParen, "`)`")
    }

    fn expect_left_brace(&mut self) -> (r: Result<(), ParseError>)
        requires
            old(self).wf(),
        ensures
            final(self).same_tokens(old(self)),
            expected_token(r, old(self).token_views(), old(self).cursor(), TokenView::LeftBrace, "`{`", final(self).cursor()),
    {
        self.expect_token(Token::LeftBrace, "`{`")
    }

    fn expect_right_brace(&mut self) -> (r: Result<(), ParseError>)
        requires
            old(self).wf(),
        ensures
            final(self).same_tokens(old(self)),
            expected_token(r, old(self).token_views(), old(self).cursor(), TokenView::RightBrace, "`}`", final(self).cursor()),
    {
        self.expect_token(Token::RightBrace, "`}`")
    }

    fn expect_semicolon(&mut self) -> (r: Result<(), ParseError>)
        requires
            old(self).wf(),
        ensures
            final(self).same_tokens(old(self)),
            expected_token(r, old(self).token_views(), old(self).cursor(), TokenView::Semicolon, "`;`", final(self).cursor()),
    {
        self.expect_token(Token::Semicolon, "`;`")
    }

    fn expect_token(&mut self, expected: Token, label: &'static str) -> (r: Result<(), ParseError>)
        requires
            old(self).wf(),
        ensures
            final(self).same_tokens(old(self)),
            expected_token(r, old(self).token_views(), old(self).cursor(), expected@, label, final(self).cursor()),
    {
        let found = self.next();
        match found {
            Some(token) => if same_token(token, &expected) {
                Ok(())
            } else {
                Err(unexpected_error(label, found))
            },
            None => Err(unexpected_error(label, found)),
        }
    }

    fn next(&mut self) -> (r: Option<&'a Token>)
        requires
            old(self).wf(),
        ensures
            final(self).same_tokens(old(self)),
            opt_ref_view(r) == grammar::peek(old(self).token_views(), old(self).cursor()),
            final(self).cursor() == if old(self).cursor() < old(self).token_views().len() {
                old(self).cursor() + 1
            } else {
                old(self).cursor()
            },
    {
        let token = self.peek();
        if self.position < self.tokens.len() {
            self.position += 1;
        }
        token
    }

    fn peek(&self) -> (r: Option<&'a Token>)
        requires
            self.wf(),
        ensures
            opt_ref_view(r) == grammar::peek(self.token_views(), self.cursor()),
    {
        let tokens: &'a [Token] = self.tokens;
        if self.position < tokens.len() {
            Some(&tokens[self.position])
        } else {
            None
        }
    }
}

/// `r` is what consuming the token `t` at `p` gives, ending at `end`.
pub open spec fn expected_token(
    r: Result<(), ParseError>,
    ts: Seq<TokenView>,
    p: int,
    t: TokenView,
    label: &'static str,
    end: int,
) -> bool {
    match r {
        Ok(()) => grammar::expect(ts, p, t, label) == Ok::<int, ParseErrorView>(end),
        Err(e) => grammar::expect(ts, p, t, label) == Err::<int, ParseErrorView>(e@),
    }
}

fn grammar_statement_keywords() -> (r: &'static str)
    ensures
        r == grammar::statement_keywords(),
{
    "statement (return, variable declaration, assignment, block, if, while, or for)"
}

} // verus!
