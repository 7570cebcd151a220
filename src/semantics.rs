use vstd::prelude::*;
use vstd::string::StringExecFns;
use crate::ast::{Expression, Statement, AST};
use crate::chars::eq_str;
use crate::token::{kind_text, Kind, Token};

verus! {

broadcast use vstd::std_specs::vec::axiom_vec_decreases_to_view;

/// A semantic error.
#[derive(Debug, Clone, PartialEq, Eq)]
pub enum Error {
    /// There is no scope to define a symbol in.
    InvalidScope,
    UndefinedSymbol { name: String, line: usize, column: usize },
    /// An assignment to a function.
    InvalidAssignment { name: String, line: usize, column: usize },
    /// An operator that has no meaning where it stands.
    InvalidOperator { operator: String, line: usize, column: usize },
    UninitializedVariable { name: String, line: usize, column: usize },
    InvalidVariable { name: String, line: usize, column: usize },
    /// A parameter whose type is not a name.
    InvalidParameterKind { name: String, line: usize, column: usize },
    /// A name defined a second time in the same scope.
    SymbolAlreadyDefined { name: String, line: usize, column: usize },
}

/// What a symbol is.
#[derive(Debug)]
pub enum SymbolKind {
    Variable { is_initialized: bool },
    Function { return_type: Option<Token> },
}

/// A symbol as the model sees it: a variable and whether it is initialized, or a function
/// and the name of its return type.
pub enum Symbol {
    Variable(bool),
    Function(Option<Seq<char>>),
}

impl SymbolKind {
    pub open spec fn view(&self) -> Symbol {
        match self {
            SymbolKind::Variable { is_initialized } => Symbol::Variable(*is_initialized),
            SymbolKind::Function { return_type } => Symbol::Function(
                match return_type {
                    Some(t) => Some(name_of(*t)),
                    None => None,
                },
            ),
        }
    }
}

/// One lexical scope: a table from names to symbols.
#[derive(Debug)]
pub struct Scope {
    entries: Vec<(String, SymbolKind)>,
}

/// The symbol that the entries give `name`: the last one defined under it.
pub open spec fn find(e: Seq<(String, SymbolKind)>, name: Seq<char>) -> Option<Symbol>
    decreases e.len(),
{
    if e.len() == 0 {
        None
    } else if e.last().0@ == name {
        Some(e.last().1@)
    } else {
        find(e.drop_last(), name)
    }
}

/// The scopes' tables, outermost first.
pub type Tables = Seq<Map<Seq<char>, Symbol>>;

impl Scope {
    /// The scope's table.
    pub closed spec fn view(&self) -> Map<Seq<char>, Symbol> {
        Map::new(|k: Seq<char>| find(self.entries@, k) is Some, |k: Seq<char>| find(self.entries@, k)->Some_0)
    }

    pub fn new() -> (r: Scope)
        ensures
            r@ == Map::<Seq<char>, Symbol>::empty(),
    {
        let r = Scope { entries: Vec::new() };
        assert(r@ =~= Map::<Seq<char>, Symbol>::empty());
        r
    }

    /// Binds `name` to `kind`, replacing any earlier binding of it in this scope.
    pub fn define(&mut self, name: &str, kind: SymbolKind)
        ensures
            final(self)@ == old(self)@.insert(name@, kind@),
    {
        let ghost before = self.entries@;
        self.entries.push((String::from_str(name), kind));
        proof {
            assert(self.entries@.drop_last() =~= before);
            assert(final(self)@ =~= old(self)@.insert(name@, kind@));
        }
    }

    /// Whether `name` is bound in this scope.
    pub fn is_defined(&self, name: &str) -> (r: bool)
        ensures
            r == self@.contains_key(name@),
    {
        self.get(name).is_some()
    }

    /// The symbol bound to `name` in this scope.
    pub fn get(&self, name: &str) -> (r: Option<&SymbolKind>)
        ensures
            match r {
                Some(k) => self@.contains_key(name@) && k@ == self@[name@],
                None => !self@.contains_key(name@),
            },
    {
        let mut i = self.entries.len();
        assert(self.entries@.subrange(0, i as int) =~= self.entries@);
        while i > 0
            invariant
                i <= self.entries@.len(),
                find(self.entries@, name@) == find(self.entries@.subrange(0, i as int), name@),
            decreases i,
        {
            let ghost prefix = self.entries@.subrange(0, i as int);
            assert(prefix.drop_last() =~= self.entries@.subrange(0, i - 1));
            if eq_str(self.entries[i - 1].0.as_str(), name) {
                return Some(&self.entries[i - 1].1);
            }
            i = i - 1;
        }
        None
    }
}

/// The name a token stands for.
pub open spec fn name_of(t: Token) -> Seq<char> {
    kind_text(t.kind)
}

/// The symbol that `name` resolves to: its binding in the innermost scope that binds it.
pub open spec fn lookup(tables: Tables, name: Seq<char>) -> Option<Symbol>
    decreases tables.len(),
{
    if tables.len() == 0 {
        None
    } else if tables.last().contains_key(name) {
        Some(tables.last()[name])
    } else {
        lookup(tables.drop_last(), name)
    }
}

/// The arithmetic operators.
pub open spec fn arithmetic(k: Kind) -> bool {
    k == Kind::Plus || k == Kind::Minus || k == Kind::Star || k == Kind::Slash || k == Kind::Percent
}

/// The comparison and logical operators.
pub open spec fn comparison(k: Kind) -> bool {
    k == Kind::Equality || k == Kind::NotEqual || k == Kind::LessThan || k == Kind::LessThanOrEqual
        || k == Kind::GreaterThan || k == Kind::GreaterThanOrEqual || k == Kind::LogicalAnd || k
        == Kind::LogicalOr
}

pub open spec fn prefix_operator(k: Kind) -> bool {
    k == Kind::Plus || k == Kind::Minus || k == Kind::LogicalNot
}

/// A semantic error as the model states it: which error, with the text and position it
/// carries.
pub enum Fault {
    InvalidScope,
    UndefinedSymbol(Seq<char>, usize, usize),
    InvalidAssignment(Seq<char>, usize, usize),
    InvalidOperator(Seq<char>, usize, usize),
    UninitializedVariable(Seq<char>, usize, usize),
    InvalidParameterKind(Seq<char>, usize, usize),
    AlreadyDefined(Seq<char>, usize, usize),
}

pub open spec fn error_models(e: Error, f: Fault) -> bool {
    match f {
        Fault::InvalidScope => e is InvalidScope,
        Fault::UndefinedSymbol(n, l, c) => e == (Error::UndefinedSymbol { name: e->UndefinedSymbol_name, line: l, column: c })
            && e->UndefinedSymbol_name@ == n,
        Fault::InvalidAssignment(n, l, c) => e == (Error::InvalidAssignment { name: e->InvalidAssignment_name, line: l, column: c })
            && e->InvalidAssignment_name@ == n,
        Fault::InvalidOperator(n, l, c) => e == (Error::InvalidOperator { operator: e->InvalidOperator_operator, line: l, column: c })
            && e->InvalidOperator_operator@ == n,
        Fault::UninitializedVariable(n, l, c) => e == (Error::UninitializedVariable { name: e->UninitializedVariable_name, line: l, column: c })
            && e->UninitializedVariable_name@ == n,
        Fault::InvalidParameterKind(n, l, c) => e == (Error::InvalidParameterKind { name: e->InvalidParameterKind_name, line: l, column: c })
            && e->InvalidParameterKind_name@ == n,
        Fault::AlreadyDefined(n, l, c) => e == (Error::SymbolAlreadyDefined { name: e->SymbolAlreadyDefined_name, line: l, column: c })
            && e->SymbolAlreadyDefined_name@ == n,
    }
}

/// Checking an expression against the scopes: every variable read must resolve to a symbol,
/// and to an initialized one if it is a variable; an assignment's value is checked, then its
/// target must resolve to something other than a function; operators must be meaningful.
pub open spec fn check_expression(e: Expression, tables: Tables) -> Result<(), Fault>
    decreases e,
{
    match e {
        Expression::Literal(_) => Ok(()),
        Expression::Variable { name } => match lookup(tables, name_of(name)) {
            None => Err(Fault::UndefinedSymbol(name_of(name), name.line, name.column)),
            Some(Symbol::Variable(is_initialized)) => if is_initialized {
                Ok(())
            } else {
                Err(Fault::UninitializedVariable(name_of(name), name.line, name.column))
            },
            Some(Symbol::Function(_)) => Ok(()),
        },
        Expression::Assignment { name, value } => match check_expression(*value, tables) {
            Err(f) => Err(f),
            Ok(()) => match lookup(tables, name_of(name)) {
                None => Err(Fault::UndefinedSymbol(name_of(name), name.line, name.column)),
                Some(Symbol::Function(_)) => Err(
                    Fault::InvalidAssignment(name_of(name), name.line, name.column),
                ),
                Some(Symbol::Variable(_)) => Ok(()),
            },
        },
        Expression::Binary { left, operator, right } => match check_expression(*left, tables) {
            Err(f) => Err(f),
            Ok(()) => if arithmetic(operator.kind) || comparison(operator.kind) {
                check_expression(*right, tables)
            } else {
                Err(Fault::InvalidOperator(kind_text(operator.kind), operator.line, operator.column))
            },
        },
        Expression::Unary { operator, right } => if prefix_operator(operator.kind) {
            check_expression(*right, tables)
        } else {
            Err(Fault::InvalidOperator(kind_text(operator.kind), operator.line, operator.column))
        },
        Expression::Call { callee, arguments } => match check_expression(*callee, tables) {
            Err(f) => Err(f),
            Ok(()) => check_arguments(arguments@, tables),
        },
        Expression::Grouping { expression } => check_expression(*expression, tables),
    }
}

/// Checking call arguments in order.
pub open spec fn check_arguments(args: Seq<Expression>, tables: Tables) -> Result<(), Fault>
    decreases args,
{
    if args.len() == 0 {
        Ok(())
    } else {
        match check_arguments(args.drop_last(), tables) {
            Err(f) => Err(f),
            Ok(()) => check_expression(args.last(), tables),
        }
    }
}

/// Binding the name that `name` stands for to `symbol` in the innermost scope. A name is
/// defined once per scope: binding one that the innermost scope already holds is an error
/// (an inner scope may still shadow an outer binding).
pub open spec fn define(tables: Tables, name: Token, symbol: Symbol) -> Result<Tables, Fault> {
    if tables.len() == 0 {
        Err(Fault::InvalidScope)
    } else if tables.last().contains_key(name_of(name)) {
        Err(Fault::AlreadyDefined(name_of(name), name.line, name.column))
    } else {
        Ok(tables.update(tables.len() - 1, tables.last().insert(name_of(name), symbol)))
    }
}

/// Binding the parameters in order, each as an initialized variable; a parameter whose type
/// is not a name is an error.
pub open spec fn check_parameters(ps: Seq<(Token, Token)>, tables: Tables) -> Result<Tables, Fault>
    decreases ps.len(),
{
    if ps.len() == 0 {
        Ok(tables)
    } else {
        match check_parameters(ps.drop_last(), tables) {
            Err(f) => Err(f),
            Ok(t1) => {
                let (name, kind) = ps.last();
                if kind.kind is Identifier {
                    define(t1, name, Symbol::Variable(true))
                } else {
                    Err(Fault::InvalidParameterKind(name_of(name), name.line, name.column))
                }
            },
        }
    }
}

/// Checking a statement: the scopes after it, or the first error. A block and a function's
/// parameters and body each get a scope of their own; a variable is bound after its
/// initializer is checked; a function is bound before its body is checked.
pub open spec fn check_statement(s: Statement, tables: Tables) -> Result<Tables, Fault>
    decreases s,
{
    match s {
        Statement::Expression { expression } => match check_expression(expression, tables) {
            Err(f) => Err(f),
            Ok(()) => Ok(tables),
        },
        Statement::Variable { name, initializer } => match match initializer {
            Some(e) => check_expression(e, tables),
            None => Ok(()),
        } {
            Err(f) => Err(f),
            Ok(()) => define(
                tables,
                name,
                Symbol::Variable(initializer is Some),
            ),
        },
        Statement::Block { statements } => match check_statements(
            statements@,
            tables.push(Map::empty()),
        ) {
            Err(f) => Err(f),
            Ok(t1) => Ok(t1.drop_last()),
        },
        Statement::If { condition, then_branch, else_branch } => match check_expression(condition, tables) {
            Err(f) => Err(f),
            Ok(()) => match check_statement(*then_branch, tables) {
                Err(f) => Err(f),
                Ok(t1) => match else_branch {
                    Some(b) => check_statement(*b, t1),
                    None => Ok(t1),
                },
            },
        },
        Statement::While { condition, body } => match check_expression(condition, tables) {
            Err(f) => Err(f),
            Ok(()) => check_statement(*body, tables),
        },
        Statement::For { initializer, condition, increment, body } => match match initializer {
            Some(i) => check_statement(*i, tables),
            None => Ok(tables),
        } {
            Err(f) => Err(f),
            Ok(t1) => match match condition {
                Some(c) => check_expression(c, t1),
                None => Ok(()),
            } {
                Err(f) => Err(f),
                Ok(()) => match match increment {
                    Some(c) => check_expression(c, t1),
                    None => Ok(()),
                } {
                    Err(f) => Err(f),
                    Ok(()) => check_statement(*body, t1),
                },
            },
        },
        Statement::Function { name, parameters, return_type, body } => match define(
            tables,
            name,
            Symbol::Function(
                match return_type {
                    Some(t) => Some(name_of(t)),
                    None => None,
                },
            ),
        ) {
            Err(f) => Err(f),
            Ok(t1) => match check_parameters(parameters@, t1.push(Map::empty())) {
                Err(f) => Err(f),
                Ok(t2) => match check_statement(*body, t2) {
                    Err(f) => Err(f),
                    Ok(t3) => Ok(t3.drop_last()),
                },
            },
        },
        Statement::Return { keyword, value } => match value {
            Some(e) => match check_expression(e, tables) {
                Err(f) => Err(f),
                Ok(()) => Ok(tables),
            },
            None => Ok(tables),
        },
        Statement::Break | Statement::Continue => Ok(tables),
    }
}

/// Checking statements in order.
pub open spec fn check_statements(ss: Seq<Statement>, tables: Tables) -> Result<Tables, Fault>
    decreases ss,
{
    if ss.len() == 0 {
        Ok(tables)
    } else {
        match check_statements(ss.drop_last(), tables) {
            Err(f) => Err(f),
            Ok(t1) => check_statement(ss.last(), t1),
        }
    }
}

proof fn lemma_statements_stop(ss: Seq<Statement>, i: int, tables: Tables)
    requires
        0 <= i <= ss.len(),
        check_statements(ss.subrange(0, i), tables) is Err,
    ensures
        check_statements(ss, tables) == check_statements(ss.subrange(0, i), tables),
    decreases ss.len() - i,
{
    if i == ss.len() {
        assert(ss.subrange(0, i) =~= ss);
    } else {
        assert(ss.drop_last().subrange(0, i) =~= ss.subrange(0, i));
        lemma_statements_stop(ss.drop_last(), i, tables);
    }
}

proof fn lemma_arguments_stop(args: Seq<Expression>, i: int, tables: Tables)
    requires
        0 <= i <= args.len(),
        check_arguments(args.subrange(0, i), tables) is Err,
    ensures
        check_arguments(args, tables) == check_arguments(args.subrange(0, i), tables),
    decreases args.len() - i,
{
    if i == args.len() {
        assert(args.subrange(0, i) =~= args);
    } else {
        assert(args.drop_last().subrange(0, i) =~= args.subrange(0, i));
        lemma_arguments_stop(args.drop_last(), i, tables);
    }
}

proof fn lemma_parameters_stop(ps: Seq<(Token, Token)>, i: int, tables: Tables)
    requires
        0 <= i <= ps.len(),
        check_parameters(ps.subrange(0, i), tables) is Err,
    ensures
        check_parameters(ps, tables) == check_parameters(ps.subrange(0, i), tables),
    decreases ps.len() - i,
{
    if i == ps.len() {
        assert(ps.subrange(0, i) =~= ps);
    } else {
        assert(ps.drop_last().subrange(0, i) =~= ps.subrange(0, i));
        lemma_parameters_stop(ps.drop_last(), i, tables);
    }
}

proof fn lemma_parameters_depth(ps: Seq<(Token, Token)>, tables: Tables)
    ensures
        check_parameters(ps, tables) matches Ok(t) ==> t.len() == tables.len(),
    decreases ps.len(),
{
    if ps.len() > 0 {
        lemma_parameters_depth(ps.drop_last(), tables);
    }
}

/// Checking a statement leaves as many scopes as it found.
proof fn lemma_statement_depth(s: Statement, tables: Tables)
    ensures
        check_statement(s, tables) matches Ok(t) ==> t.len() == tables.len(),
    decreases s,
{
    match s {
        Statement::Block { statements } => {
            lemma_statements_depth(statements@, tables.push(Map::empty()));
        },
        Statement::If { condition, then_branch, else_branch } => {
            lemma_statement_depth(*then_branch, tables);
            if let Ok(t1) = check_statement(*then_branch, tables) {
                if let Some(b) = else_branch {
                    lemma_statement_depth(*b, t1);
                }
            }
        },
        Statement::While { condition, body } => {
            lemma_statement_depth(*body, tables);
        },
        Statement::For { initializer, condition, increment, body } => {
            if let Some(i) = initializer {
                lemma_statement_depth(*i, tables);
                if let Ok(t1) = check_statement(*i, tables) {
                    lemma_statement_depth(*body, t1);
                }
            } else {
                lemma_statement_depth(*body, tables);
            }
        },
        Statement::Function { name, parameters, return_type, body } => {
            if let Ok(t1) = define(tables, name, Symbol::Function(
                match return_type {
                    Some(t) => Some(name_of(t)),
                    None => None,
                },
            )) {
                lemma_parameters_depth(parameters@, t1.push(Map::empty()));
                if let Ok(t2) = check_parameters(parameters@, t1.push(Map::empty())) {
                    lemma_statement_depth(*body, t2);
                }
            }
        },
        _ => {},
    }
}

proof fn lemma_statements_depth(ss: Seq<Statement>, tables: Tables)
    ensures
        check_statements(ss, tables) matches Ok(t) ==> t.len() == tables.len(),
    decreases ss,
{
    if ss.len() > 0 {
        lemma_statements_depth(ss.drop_last(), tables);
        if let Ok(t1) = check_statements(ss.drop_last(), tables) {
            lemma_statement_depth(ss.last(), t1);
        }
    }
}

/// Every variable in `e` resolves in `tables`: each variable read and each assignment target.
pub open spec fn expression_resolves(e: Expression, tables: Tables) -> bool
    decreases e,
{
    match e {
        Expression::Literal(_) => true,
        Expression::Variable { name } => lookup(tables, name_of(name)) is Some,
        Expression::Assignment { name, value } => lookup(tables, name_of(name)) is Some
            && expression_resolves(*value, tables),
        Expression::Binary { left, operator, right } => expression_resolves(*left, tables)
            && expression_resolves(*right, tables),
        Expression::Unary { operator, right } => expression_resolves(*right, tables),
        Expression::Call { callee, arguments } => expression_resolves(*callee, tables) && arguments_resolve(
            arguments@,
            tables,
        ),
        Expression::Grouping { expression } => expression_resolves(*expression, tables),
    }
}

pub open spec fn arguments_resolve(args: Seq<Expression>, tables: Tables) -> bool
    decreases args,
{
    if args.len() == 0 {
        true
    } else {
        arguments_resolve(args.drop_last(), tables) && expression_resolves(args.last(), tables)
    }
}

pub open spec fn optional_resolves(e: Option<Expression>, tables: Tables) -> bool {
    match e {
        Some(e) => expression_resolves(e, tables),
        None => true,
    }
}

/// Every variable in `s` resolves in the scopes in force where it stands:
/// those that checking the statements before it left.
pub open spec fn statement_resolves(s: Statement, tables: Tables) -> bool
    decreases s,
{
    match s {
        Statement::Expression { expression } => expression_resolves(expression, tables),
        Statement::Variable { name, initializer } => optional_resolves(initializer, tables),
        Statement::Block { statements } => statements_resolve(statements@, tables.push(Map::empty())),
        Statement::If { condition, then_branch, else_branch } => expression_resolves(condition, tables)
            && statement_resolves(*then_branch, tables) && match else_branch {
            Some(b) => match check_statement(*then_branch, tables) {
                Ok(t1) => statement_resolves(*b, t1),
                Err(_) => true,
            },
            None => true,
        },
        Statement::While { condition, body } => expression_resolves(condition, tables) && statement_resolves(
            *body,
            tables,
        ),
        Statement::For { initializer, condition, increment, body } => match initializer {
            Some(i) => statement_resolves(*i, tables) && match check_statement(*i, tables) {
                Ok(t1) => optional_resolves(condition, t1) && optional_resolves(increment, t1)
                    && statement_resolves(*body, t1),
                Err(_) => true,
            },
            None => optional_resolves(condition, tables) && optional_resolves(increment, tables)
                && statement_resolves(*body, tables),
        },
        Statement::Function { name, parameters, return_type, body } => match define(
            tables,
            name,
            Symbol::Function(
                match return_type {
                    Some(t) => Some(name_of(t)),
                    None => None,
                },
            ),
        ) {
            Ok(t1) => match check_parameters(parameters@, t1.push(Map::empty())) {
                Ok(t2) => statement_resolves(*body, t2),
                Err(_) => true,
            },
            Err(_) => true,
        },
        Statement::Return { keyword, value } => optional_resolves(value, tables),
        Statement::Break | Statement::Continue => true,
    }
}

pub open spec fn statements_resolve(ss: Seq<Statement>, tables: Tables) -> bool
    decreases ss,
{
    if ss.len() == 0 {
        true
    } else {
        statements_resolve(ss.drop_last(), tables) && match check_statements(ss.drop_last(), tables) {
            Ok(t1) => statement_resolves(ss.last(), t1),
            Err(_) => true,
        }
    }
}

proof fn lemma_expression_resolves(e: Expression, tables: Tables)
    requires
        check_expression(e, tables) is Ok,
    ensures
        expression_resolves(e, tables),
    decreases e,
{
    match e {
        Expression::Assignment { name, value } => lemma_expression_resolves(*value, tables),
        Expression::Binary { left, operator, right } => {
            lemma_expression_resolves(*left, tables);
            lemma_expression_resolves(*right, tables);
        },
        Expression::Unary { operator, right } => lemma_expression_resolves(*right, tables),
        Expression::Call { callee, arguments } => {
            lemma_expression_resolves(*callee, tables);
            lemma_arguments_resolve(arguments@, tables);
        },
        Expression::Grouping { expression } => lemma_expression_resolves(*expression, tables),
        _ => {},
    }
}

proof fn lemma_arguments_resolve(args: Seq<Expression>, tables: Tables)
    requires
        check_arguments(args, tables) is Ok,
    ensures
        arguments_resolve(args, tables),
    decreases args,
{
    if args.len() > 0 {
        lemma_arguments_resolve(args.drop_last(), tables);
        lemma_expression_resolves(args.last(), tables);
    }
}

proof fn lemma_statement_resolves(s: Statement, tables: Tables)
    requires
        check_statement(s, tables) is Ok,
    ensures
        statement_resolves(s, tables),
    decreases s,
{
    match s {
        Statement::Expression { expression } => lemma_expression_resolves(expression, tables),
        Statement::Variable { name, initializer } => {
            if let Some(e) = initializer {
                lemma_expression_resolves(e, tables);
            }
        },
        Statement::Block { statements } => lemma_statements_resolve(statements@, tables.push(Map::empty())),
        Statement::If { condition, then_branch, else_branch } => {
            lemma_expression_resolves(condition, tables);
            lemma_statement_resolves(*then_branch, tables);
            if let Some(b) = else_branch {
                lemma_statement_resolves(*b, check_statement(*then_branch, tables)->Ok_0);
            }
        },
        Statement::While { condition, body } => {
            lemma_expression_resolves(condition, tables);
            lemma_statement_resolves(*body, tables);
        },
        Statement::For { initializer, condition, increment, body } => {
            let t1 = match initializer {
                Some(i) => {
                    lemma_statement_resolves(*i, tables);
                    check_statement(*i, tables)->Ok_0
                },
                None => tables,
            };
            if let Some(c) = condition {
                lemma_expression_resolves(c, t1);
            }
            if let Some(c) = increment {
                lemma_expression_resolves(c, t1);
            }
            lemma_statement_resolves(*body, t1);
        },
        Statement::Function { name, parameters, return_type, body } => {
            let t1 = define(
                tables,
                name,
                Symbol::Function(
                    match return_type {
                        Some(t) => Some(name_of(t)),
                        None => None,
                    },
                ),
            )->Ok_0;
            let t2 = check_parameters(parameters@, t1.push(Map::empty()))->Ok_0;
            lemma_statement_resolves(*body, t2);
        },
        Statement::Return { keyword, value } => {
            if let Some(e) = value {
                lemma_expression_resolves(e, tables);
            }
        },
        _ => {},
    }
}

proof fn lemma_statements_resolve(ss: Seq<Statement>, tables: Tables)
    requires
        check_statements(ss, tables) is Ok,
    ensures
        statements_resolve(ss, tables),
    decreases ss,
{
    if ss.len() > 0 {
        lemma_statements_resolve(ss.drop_last(), tables);
        lemma_statement_resolves(ss.last(), check_statements(ss.drop_last(), tables)->Ok_0);
    }
}

/// A program that passes analysis resolves every variable in it: each variable read and each
/// assignment target names a symbol of the scopes in force where it stands, the one bound in
/// the innermost scope that binds the name.
pub proof fn law_variables_resolve(program: Seq<Statement>)
    requires
        check_statements(program, seq![Map::<Seq<char>, Symbol>::empty()]) is Ok,
    ensures
        statements_resolve(program, seq![Map::<Seq<char>, Symbol>::empty()]),
{
    lemma_statements_resolve(program, seq![Map::<Seq<char>, Symbol>::empty()]);
}

/// A semantic analyzer: walks a syntax tree once with a stack of scopes.
#[derive(Debug)]
pub struct SemanticAnalyzer<'a> {
    ast: &'a AST,
    scopes: Vec<Scope>,
}

impl<'a> SemanticAnalyzer<'a> {
    /// The tables of the scopes, outermost first.
    pub closed spec fn tables(&self) -> Tables {
        self.scopes@.map_values(|s: Scope| s@)
    }

    /// The tree being analyzed.
    pub closed spec fn tree(&self) -> &'a AST {
        self.ast
    }

    /// An analyzer of `ast` with a single, empty, root scope.
    pub fn new(ast: &'a AST) -> (r: SemanticAnalyzer<'a>)
        ensures
            r.tables() == seq![Map::<Seq<char>, Symbol>::empty()],
            r.tree() == ast,
    {
        let r = SemanticAnalyzer { ast, scopes: vec![Scope::new()] };
        assert(r.tables() =~= seq![Map::<Seq<char>, Symbol>::empty()]);
        r
    }

    /// Checks the top-level statements in order and stops at the first error.
    pub fn analyze(&mut self) -> (r: Result<(), Error>)
        ensures
            match check_statements(old(self).tree().statements@, old(self).tables()) {
                Ok(t) => r is Ok && final(self).tables() == t,
                Err(f) => r matches Err(e) && error_models(e, f),
            },
    {
        let ast = self.ast;
        let ghost t0 = self.tables();
        let mut i: usize = 0;
        assert(ast.statements@.subrange(0, 0) =~= Seq::<Statement>::empty());
        while i < ast.statements.len()
            invariant
                i <= ast.statements@.len(),
                ast == old(self).tree(),
                t0 == old(self).tables(),
                check_statements(ast.statements@.subrange(0, i as int), t0) == Ok::<Tables, Fault>(self.tables()),
            decreases ast.statements.len() - i,
        {
            let ghost before = self.tables();
            assert(ast.statements@.subrange(0, i + 1).drop_last() =~= ast.statements@.subrange(0, i as int));
            match self.visit_statement(&ast.statements[i]) {
                Ok(()) => {},
                Err(e) => {
                    proof {
                        lemma_statements_stop(ast.statements@, i + 1, t0);
                    }
                    return Err(e);
                },
            }
            i = i + 1;
        }
        assert(ast.statements@.subrange(0, i as int) =~= ast.statements@);
        Ok(())
    }

    fn begin_scope(&mut self)
        ensures
            final(self).tables() == old(self).tables().push(Map::empty()),
            final(self).ast == old(self).ast,
    {
        self.scopes.push(Scope::new());
        assert(self.tables() =~= old(self).tables().push(Map::empty()));
    }

    fn end_scope(&mut self)
        requires
            old(self).tables().len() > 0,
        ensures
            final(self).tables() == old(self).tables().drop_last(),
            final(self).ast == old(self).ast,
    {
        let _ = self.scopes.pop();
        assert(self.tables() =~= old(self).tables().drop_last());
    }

    /// Binds the name that `token` stands for in the innermost scope, unless it is already
    /// bound there.
    fn define(&mut self, token: &Token, kind: SymbolKind) -> (r: Result<(), Error>)
        ensures
            match define(old(self).tables(), *token, kind@) {
                Ok(t) => r is Ok && final(self).tables() == t,
                Err(f) => r matches Err(e) && error_models(e, f),
            },
            final(self).ast == old(self).ast,
    {
        let name = token.kind.text();
        match self.scopes.pop() {
            None => Err(Error::InvalidScope),
            Some(mut scope) => {
                if scope.is_defined(name.as_str()) {
                    self.scopes.push(scope);
                    assert(self.tables() =~= old(self).tables());
                    return Err(Error::SymbolAlreadyDefined { name, line: token.line, column: token.column });
                }
                scope.define(name.as_str(), kind);
                self.scopes.push(scope);
                assert(self.tables() =~= old(self).tables().update(old(self).tables().len() - 1, old(self).tables().last().insert(name@, kind@)));
                Ok(())
            },
        }
    }

    /// The symbol that `token` names, in the innermost scope that binds it.
    fn get_symbol(&self, token: &Token) -> (r: Result<&SymbolKind, Error>)
        ensures
            match lookup(self.tables(), name_of(*token)) {
                Some(k) => r matches Ok(s) && s@ == k,
                None => r matches Err(e) && error_models(e, Fault::UndefinedSymbol(name_of(*token), token.line, token.column)),
            },
    {
        let name = token.kind.text();
        let mut i = self.scopes.len();
        assert(self.tables().subrange(0, i as int) =~= self.tables());
        while i > 0
            invariant
                i <= self.scopes@.len(),
                name@ == name_of(*token),
                lookup(self.tables(), name@) == lookup(self.tables().subrange(0, i as int), name@),
            decreases i,
        {
            assert(self.tables().subrange(0, i as int).drop_last() =~= self.tables().subrange(0, i - 1));
            if let Some(symbol) = self.scopes[i - 1].get(name.as_str()) {
                return Ok(symbol);
            }
            i = i - 1;
        }
        Err(Error::UndefinedSymbol { name, line: token.line, column: token.column })
    }

    fn visit_expression(&self, expression: &Expression) -> (r: Result<(), Error>)
        ensures
            match check_expression(*expression, self.tables()) {
                Ok(()) => r is Ok,
                Err(f) => r matches Err(e) && error_models(e, f),
            },
        decreases expression,
    {
        match expression {
            Expression::Literal(_) => Ok(()),
            Expression::Variable { name } => {
                let symbol = self.get_symbol(name)?;
                if let SymbolKind::Variable { is_initialized } = symbol {
                    if !*is_initialized {
                        return Err(
                            Error::UninitializedVariable {
                                name: name.kind.text(),
                                line: name.line,
                                column: name.column,
                            },
                        );
                    }
                }
                Ok(())
            },
            Expression::Assignment { name, value } => {
                self.visit_expression(value)?;
                let symbol = self.get_symbol(name)?;
                if let SymbolKind::Function { .. } = symbol {
                    return Err(
                        Error::InvalidAssignment { name: name.kind.text(), line: name.line, column: name.column },
                    );
                }
                Ok(())
            },
            Expression::Binary { left, operator, right } => {
                self.visit_expression(left)?;
                let k = &operator.kind;
                if k.is(&Kind::Plus) || k.is(&Kind::Minus) || k.is(&Kind::Star) || k.is(&Kind::Slash) || k.is(
                    &Kind::Percent,
                ) || k.is(&Kind::Equality) || k.is(&Kind::NotEqual) || k.is(&Kind::LessThan) || k.is(
                    &Kind::LessThanOrEqual,
                ) || k.is(&Kind::GreaterThan) || k.is(&Kind::GreaterThanOrEqual) || k.is(&Kind::LogicalAnd)
                    || k.is(&Kind::LogicalOr) {
                    self.visit_expression(right)
                } else {
                    Err(
                        Error::InvalidOperator {
                            operator: operator.kind.text(),
                            line: operator.line,
                            column: operator.column,
                        },
                    )
                }
            },
            Expression::Unary { operator, right } => {
                let k = &operator.kind;
                if k.is(&Kind::Plus) || k.is(&Kind::Minus) || k.is(&Kind::LogicalNot) {
                    self.visit_expression(right)
                } else {
                    Err(
                        Error::InvalidOperator {
                            operator: operator.kind.text(),
                            line: operator.line,
                            column: operator.column,
                        },
                    )
                }
            },
            Expression::Call { callee, arguments } => {
                self.visit_expression(callee)?;
                proof {
                    assert(decreases_to!(*expression => *arguments));
                    assert(decreases_to!(*arguments => arguments@));
                }
                let mut i: usize = 0;
                assert(arguments@.subrange(0, 0) =~= Seq::<Expression>::empty());
                while i < arguments.len()
                    invariant
                        i <= arguments@.len(),
                        check_expression(*expression, self.tables()) == check_arguments(arguments@, self.tables()),
                        decreases_to!(*expression => arguments@),
                        check_arguments(arguments@.subrange(0, i as int), self.tables()) is Ok,
                    decreases arguments.len() - i,
                {
                    assert(arguments@.subrange(0, i + 1).drop_last() =~= arguments@.subrange(0, i as int));
                    proof {
                        assert(decreases_to!(arguments@ => arguments@[i as int]));
                    }
                    match self.visit_expression(&arguments[i]) {
                        Ok(()) => {},
                        Err(e) => {
                            proof {
                                lemma_arguments_stop(arguments@, i + 1, self.tables());
                            }
                            return Err(e);
                        },
                    }
                    i = i + 1;
                }
                assert(arguments@.subrange(0, i as int) =~= arguments@);
                Ok(())
            },
            Expression::Grouping { expression } => self.visit_expression(expression),
        }
    }

    fn visit_statement(&mut self, statement: &Statement) -> (r: Result<(), Error>)
        ensures
            match check_statement(*statement, old(self).tables()) {
                Ok(t) => r is Ok && final(self).tables() == t,
                Err(f) => r matches Err(e) && error_models(e, f),
            },
            final(self).ast == old(self).ast,
        decreases statement, 1int,
    {
        match statement {
            Statement::Expression { expression } => self.visit_expression(expression),
            Statement::Variable { name, initializer } => {
                let is_initialized = initializer.is_some();
                if let Some(e) = initializer {
                    self.visit_expression(e)?;
                }
                self.define(name, SymbolKind::Variable { is_initialized })
            },
            Statement::Block { .. } => self.visit_block(statement),
            Statement::If { condition, then_branch, else_branch } => {
                self.visit_expression(condition)?;
                self.visit_statement(then_branch)?;
                if let Some(b) = else_branch {
                    self.visit_statement(b)?;
                }
                Ok(())
            },
            Statement::While { condition, body } => {
                self.visit_expression(condition)?;
                self.visit_statement(body)
            },
            Statement::For { initializer, condition, increment, body } => {
                if let Some(i) = initializer {
                    self.visit_statement(i)?;
                }
                if let Some(c) = condition {
                    self.visit_expression(c)?;
                }
                if let Some(c) = increment {
                    self.visit_expression(c)?;
                }
                self.visit_statement(body)
            },
            Statement::Function { .. } => self.visit_function(statement),
            Statement::Return { value, .. } => {
                if let Some(v) = value {
                    self.visit_expression(v)?;
                }
                Ok(())
            },
            Statement::Break | Statement::Continue => Ok(()),
        }
    }

    /// A block: its statements in a scope of their own.
    fn visit_block(&mut self, statement: &Statement) -> (r: Result<(), Error>)
        requires
            statement is Block,
        ensures
            match check_statement(*statement, old(self).tables()) {
                Ok(t) => r is Ok && final(self).tables() == t,
                Err(f) => r matches Err(e) && error_models(e, f),
            },
            final(self).ast == old(self).ast,
        decreases statement, 0int,
    {
        let statements = match statement {
            Statement::Block { statements } => statements,
            _ => {
                return Err(Error::InvalidScope);
            },
        };
        self.begin_scope();
        let ghost t1 = self.tables();
        let ghost outcome = check_statement(*statement, old(self).tables());
        assert(outcome == match check_statements(statements@, t1) {
            Err(f) => Err(f),
            Ok(t) => Ok(t.drop_last()),
        });
        proof {
            assert(decreases_to!(*statement => *statements));
            assert(decreases_to!(*statements => statements@));
        }
        let mut i: usize = 0;
        assert(statements@.subrange(0, 0) =~= Seq::<Statement>::empty());
        while i < statements.len()
            invariant
                i <= statements@.len(),
                self.ast == old(self).ast,
                outcome == check_statement(*statement, old(self).tables()),
                outcome == match check_statements(statements@, t1) {
                    Err(f) => Err(f),
                    Ok(t) => Ok(t.drop_last()),
                },
                check_statements(statements@.subrange(0, i as int), t1) == Ok::<Tables, Fault>(self.tables()),
                decreases_to!(*statement => statements@),
            decreases statements.len() - i,
        {
            assert(statements@.subrange(0, i + 1).drop_last() =~= statements@.subrange(0, i as int));
            proof {
                assert(decreases_to!(statements@ => statements@[i as int]));
            }
            match self.visit_statement(&statements[i]) {
                Ok(()) => {},
                Err(e) => {
                    proof {
                        lemma_statements_stop(statements@, i + 1, t1);
                    }
                    return Err(e);
                },
            }
            i = i + 1;
        }
        assert(statements@.subrange(0, i as int) =~= statements@);
        proof {
            lemma_statements_depth(statements@, t1);
        }
        self.end_scope();
        Ok(())
    }

    /// A function: its name is bound where it is declared, then its parameters and body are
    /// checked in a scope of their own.
    fn visit_function(&mut self, statement: &Statement) -> (r: Result<(), Error>)
        requires
            statement is Function,
        ensures
            match check_statement(*statement, old(self).tables()) {
                Ok(t) => r is Ok && final(self).tables() == t,
                Err(f) => r matches Err(e) && error_models(e, f),
            },
            final(self).ast == old(self).ast,
        decreases statement, 0int,
    {
        let (name, parameters, return_type, body) = match statement {
            Statement::Function { name, parameters, return_type, body } => (name, parameters, return_type, body),
            _ => {
                return Err(Error::InvalidScope);
            },
        };
        let ghost outcome = check_statement(*statement, old(self).tables());
        let return_type = match return_type {
            Some(t) => Some(t.duplicate()),
            None => None,
        };
        self.define(name, SymbolKind::Function { return_type })?;
        self.begin_scope();
        let ghost t1 = self.tables();
        let mut i: usize = 0;
        assert(parameters@.subrange(0, 0) =~= Seq::<(Token, Token)>::empty());
        while i < parameters.len()
            invariant
                i <= parameters@.len(),
                self.ast == old(self).ast,
                outcome == check_statement(*statement, old(self).tables()),
                outcome == match check_parameters(parameters@, t1) {
                    Err(f) => Err(f),
                    Ok(t2) => match check_statement(**body, t2) {
                        Err(f) => Err(f),
                        Ok(t3) => Ok(t3.drop_last()),
                    },
                },
                check_parameters(parameters@.subrange(0, i as int), t1) == Ok::<Tables, Fault>(self.tables()),
            decreases parameters.len() - i,
        {
            let (param, kind) = &parameters[i];
            assert(parameters@.subrange(0, i + 1).drop_last() =~= parameters@.subrange(0, i as int));
            if let Kind::Identifier(_) = &kind.kind {
            } else {
                proof {
                    lemma_parameters_stop(parameters@, i + 1, t1);
                }
                return Err(
                    Error::InvalidParameterKind { name: param.kind.text(), line: param.line, column: param.column },
                );
            }
            match self.define(param, SymbolKind::Variable { is_initialized: true }) {
                Ok(()) => {},
                Err(e) => {
                    proof {
                        lemma_parameters_stop(parameters@, i + 1, t1);
                    }
                    return Err(e);
                },
            }
            i = i + 1;
        }
        assert(parameters@.subrange(0, i as int) =~= parameters@);
        let ghost t2 = self.tables();
        self.visit_statement(body)?;
        proof {
            lemma_parameters_depth(parameters@, t1);
            lemma_statement_depth(**body, t2);
        }
        self.end_scope();
        Ok(())
    }
}

} // verus!
