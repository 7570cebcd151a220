use lang::lexer::Lexer;
use lang::parser::Parser;
use lang::semantics::{Error, SemanticAnalyzer};

fn analyze(input: &str) -> Result<(), Error> {
    let mut lexer = Lexer::new(input);
    let tokens = lexer.tokenize().unwrap();
    let mut parser = Parser::new(&tokens);
    let ast = parser.parse().unwrap();
    let mut semantics = SemanticAnalyzer::new(&ast);
    semantics.analyze()
}

#[test]
fn test_use_undeclared_variable() {
    let input = r"
        fn main() {
            let x = 0;
            let y = x + z;
        }
    ";

    let mut lexer = Lexer::new(input);
    let tokens = lexer.tokenize().unwrap();

    let mut parser = Parser::new(&tokens);
    let ast = parser.parse().unwrap();

    let mut semantics = SemanticAnalyzer::new(&ast);
    let result = semantics.analyze();

    assert_eq!(
        result,
        Err(Error::UndefinedSymbol {
            name: "z".to_string(),
            line: 3,
            column: 25,
        })
    );
}

#[test]
fn recursion_resolves() {
    let input = "fn factorial(n: int) -> int { if (n == 0) { return 1; } return n * factorial(n - 1); }";
    assert_eq!(analyze(input), Ok(()));
}

#[test]
fn function_visible_to_later_siblings() {
    assert_eq!(analyze("fn f() {} f();"), Ok(()));
}

#[test]
fn initializer_sees_outer_binding_only() {
    assert_eq!(analyze("let x = 1; { let x = x; }"), Ok(()));
    assert_eq!(
        analyze("let y = y;"),
        Err(Error::UndefinedSymbol { name: "y".to_string(), line: 1, column: 9 })
    );
}

#[test]
fn uninitialized_variable_is_rejected() {
    assert_eq!(
        analyze("let x; let y = x;"),
        Err(Error::UninitializedVariable { name: "x".to_string(), line: 1, column: 16 })
    );
}

#[test]
fn assignment_to_function_is_rejected() {
    assert_eq!(
        analyze("fn f() {} f = 1;"),
        Err(Error::InvalidAssignment { name: "f".to_string(), line: 1, column: 11 })
    );
}

#[test]
fn assignment_initializes_nothing_but_needs_a_binding() {
    assert_eq!(analyze("let x; x = 2;"), Ok(()));
    assert_eq!(
        analyze("x = 2;"),
        Err(Error::UndefinedSymbol { name: "x".to_string(), line: 1, column: 1 })
    );
}

#[test]
fn modulo_and_logical_operators_are_accepted() {
    assert_eq!(analyze("let a = true; let b = a && a || a; let c = 5 % 2;"), Ok(()));
    assert_eq!(
        analyze("let a = 1 % q;"),
        Err(Error::UndefinedSymbol { name: "q".to_string(), line: 1, column: 13 })
    );
}

#[test]
fn block_scope_ends_with_block() {
    assert_eq!(
        analyze("{ let a = 1; } let b = a;"),
        Err(Error::UndefinedSymbol { name: "a".to_string(), line: 1, column: 24 })
    );
}

#[test]
fn parameters_are_initialized_in_the_body() {
    assert_eq!(analyze("fn f(a: int, b: int) -> int { return a + b; }"), Ok(()));
    assert_eq!(
        analyze("fn f(a: int) {} let c = a;"),
        Err(Error::UndefinedSymbol { name: "a".to_string(), line: 1, column: 25 })
    );
}

#[test]
fn right_side_of_comparison_is_checked() {
    assert_eq!(
        analyze("let a = 1; let b = a == zzz;"),
        Err(Error::UndefinedSymbol { name: "zzz".to_string(), line: 1, column: 25 })
    );
    assert_eq!(
        analyze("let a = true; let b = a && zzz;"),
        Err(Error::UndefinedSymbol { name: "zzz".to_string(), line: 1, column: 28 })
    );
    assert_eq!(analyze("let a = 1; let b = a == q;"), Err(Error::UndefinedSymbol { name: "q".to_string(), line: 1, column: 25 }));
}

#[test]
fn right_side_of_arithmetic_is_checked() {
    assert_eq!(
        analyze("let a = 1; let b = a + zzz;"),
        Err(Error::UndefinedSymbol { name: "zzz".to_string(), line: 1, column: 24 })
    );
}

#[test]
fn call_arguments_are_checked() {
    assert_eq!(
        analyze("fn f(a: int) {} f(q);"),
        Err(Error::UndefinedSymbol { name: "q".to_string(), line: 1, column: 19 })
    );
}

#[test]
fn redefinition_in_one_scope_is_rejected() {
    assert_eq!(
        analyze("let x = 1; let x = 2;"),
        Err(Error::SymbolAlreadyDefined { name: "x".to_string(), line: 1, column: 16 })
    );
    assert_eq!(
        analyze("fn f(a: int, a: int) {}"),
        Err(Error::SymbolAlreadyDefined { name: "a".to_string(), line: 1, column: 14 })
    );
    assert_eq!(
        analyze("fn f() {} fn f() {}"),
        Err(Error::SymbolAlreadyDefined { name: "f".to_string(), line: 1, column: 14 })
    );
}

#[test]
fn shadowing_in_an_inner_scope_is_allowed() {
    assert_eq!(analyze("let x = 1; { let x = 2; }"), Ok(()));
    assert_eq!(analyze("fn f(a: int) { let a = 2; }"), Ok(()));
}
