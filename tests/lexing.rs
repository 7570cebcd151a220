use lang::lexer::Lexer;
use lang::token::Kind;

#[test]
fn multi_line_test_multi_line() {
    let input = r"
        /*
         This is a multi-line comment,
         it can span multiple lines!
        */

        let a = 10; /* This is another multi-line comment, it doesn't span multiple lines. */
    ";

    let mut lexer = Lexer::new(input);
    let tokens = lexer.tokenize().unwrap();

    let actual_token_kinds: Vec<Kind> = tokens
        .iter()
        .map(|token| token.kind.clone())
        .collect();
    let expected_token_kinds = [
        Kind::Variable,
        Kind::Identifier("a".into()),
        Kind::Assign,
        Kind::Integer(10),
        Kind::Semicolon,
        Kind::EndOfFile,
    ];

    assert_eq!(actual_token_kinds, expected_token_kinds);
}

#[test]
fn single_line_test_single_line() {
    let input = r"
        // This is a single-line comment.
        let a = 10; // This is another single-line comment.
    ";

    let mut lexer = Lexer::new(input);
    let tokens = lexer.tokenize().unwrap();

    let actual_token_kinds: Vec<Kind> = tokens.iter().map(|token| token.kind.clone()).collect();
    let expected_token_kinds = [
        Kind::Variable,
        Kind::Identifier("a".into()),
        Kind::Assign,
        Kind::Integer(10),
        Kind::Semicolon,
        Kind::EndOfFile,
    ];

    assert_eq!(actual_token_kinds, expected_token_kinds);
}

#[test]
fn else_test_else() {
    let input = r"
        else { /* ... */ }
        ";

    let mut lexer = Lexer::new(input);
    let tokens = lexer.tokenize().unwrap();

    let actual_token_kinds: Vec<Kind> = tokens.iter().map(|token| token.kind.clone()).collect();
    let expected_token_kinds = [
        Kind::Else,
        Kind::LeftCurlyBrace,
        Kind::RightCurlyBrace,
        Kind::EndOfFile,
    ];

    assert_eq!(actual_token_kinds, expected_token_kinds);
}

#[test]
fn if_test_if() {
    let input = r"
        if true { /* ... */ }
        ";

    let mut lexer = Lexer::new(input);
    let tokens = lexer.tokenize().unwrap();

    let actual_token_kinds: Vec<Kind> = tokens
        .iter()
        .map(|token| token.kind.clone())
        .collect();
    let expected_token_kinds = [
        Kind::If,
        Kind::True,
        Kind::LeftCurlyBrace,
        Kind::RightCurlyBrace,
        Kind::EndOfFile,
    ];

    assert_eq!(actual_token_kinds, expected_token_kinds);
}

#[test]
fn add_function_test_function() {
    let input = r"
        fn add(a: int, b: int) -> int {
            return a + b;
        }
    ";

    let mut lexer = Lexer::new(input);
    let tokens = lexer.tokenize().unwrap();

    let actual_token_kinds: Vec<Kind> = tokens
        .iter()
        .map(|token| token.kind.clone())
        .collect();
    let expected_token_kinds = [
        Kind::Function,
        Kind::Identifier("add".into()),
        Kind::LeftParenthesis,
        Kind::Identifier("a".into()),
        Kind::Colon,
        Kind::Identifier("int".into()),
        Kind::Comma,
        Kind::Identifier("b".into()),
        Kind::Colon,
        Kind::Identifier("int".into()),
        Kind::RightParenthesis,
        Kind::Arrow,
        Kind::Identifier("int".into()),
        Kind::LeftCurlyBrace,
        Kind::Return,
        Kind::Identifier("a".into()),
        Kind::Plus,
        Kind::Identifier("b".into()),
        Kind::Semicolon,
        Kind::RightCurlyBrace,
        Kind::EndOfFile,
    ];

    assert_eq!(actual_token_kinds, expected_token_kinds);
}

#[test]
fn hello_world_test_hello_world() {
    let input = r#"
        // This is a comment.
        fn greet(name: str) -> str {
            return "Hello, " + name + "!";
        }

        print(greet("World"));
    "#;

    let mut lexer = Lexer::new(input);
    let tokens = lexer.tokenize().unwrap();

    let actual_token_kinds: Vec<_> = tokens
        .iter()
        .map(|token| token.kind.clone())
        .collect();
    let expected_token_kinds = [
        Kind::Function,
        Kind::Identifier("greet".into()),
        Kind::LeftParenthesis,
        Kind::Identifier("name".into()),
        Kind::Colon,
        Kind::Identifier("str".into()),
        Kind::RightParenthesis,
        Kind::Arrow,
        Kind::Identifier("str".into()),
        Kind::LeftCurlyBrace,
        Kind::Return,
        Kind::String("Hello, ".into()),
        Kind::Plus,
        Kind::Identifier("name".into()),
        Kind::Plus,
        Kind::String("!".into()),
        Kind::Semicolon,
        Kind::RightCurlyBrace,
        Kind::Identifier("print".into()),
        Kind::LeftParenthesis,
        Kind::Identifier("greet".into()),
        Kind::LeftParenthesis,
        Kind::String("World".into()),
        Kind::RightParenthesis,
        Kind::RightParenthesis,
        Kind::Semicolon,
        Kind::EndOfFile,
    ];

    assert_eq!(actual_token_kinds, expected_token_kinds);
}

#[test]
fn break_test_break() {
    let input = r"
        break;
    ";

    let mut lexer = Lexer::new(input);
    let tokens = lexer.tokenize().unwrap();

    let actual_token_kinds: Vec<Kind> = tokens
        .iter()
        .map(|token| token.kind.clone())
        .collect();
    let expected_token_kinds = [Kind::Break, Kind::Semicolon, Kind::EndOfFile];

    assert_eq!(actual_token_kinds, expected_token_kinds);
}

#[test]
fn continue_test_continue() {
    let input = r"
        continue;
    ";

    let mut lexer = Lexer::new(input);
    let tokens = lexer.tokenize().unwrap();

    let actual_token_kinds: Vec<Kind> = tokens
        .iter()
        .map(|token| token.kind.clone())
        .collect();
    let expected_token_kinds = [
        Kind::Continue,
        Kind::Semicolon,
        Kind::EndOfFile,
    ];

    assert_eq!(actual_token_kinds, expected_token_kinds);
}

#[test]
fn for_test_for() {
    let input = r"
        for i in 0 to 10 {
            /* ... */
        }
        ";

    let mut lexer = Lexer::new(input);
    let tokens = lexer.tokenize().unwrap();

    let actual_token_kinds: Vec<Kind> = tokens
        .iter()
        .map(|token| token.kind.clone())
        .collect();
    let expected_token_kinds = [
        Kind::For,
        Kind::Identifier("i".into()),
        Kind::Range,
        Kind::Integer(0),
        Kind::To,
        Kind::Integer(10),
        Kind::LeftCurlyBrace,
        Kind::RightCurlyBrace,
        Kind::EndOfFile,
    ];

    assert_eq!(actual_token_kinds, expected_token_kinds);
}

#[test]
fn while_test_while() {
    let input = r"
        while true {
            /* ... */
        }
    ";

    let mut lexer = Lexer::new(input);
    let tokens = lexer.tokenize().unwrap();

    let actual_token_kinds: Vec<Kind> = tokens
        .iter()
        .map(|token| token.kind.clone())
        .collect();
    let expected_token_kinds = [
        Kind::While,
        Kind::True,
        Kind::LeftCurlyBrace,
        Kind::RightCurlyBrace,
        Kind::EndOfFile,
    ];

    assert_eq!(actual_token_kinds, expected_token_kinds);
}

#[test]
fn booleans_test_true() {
    let input = r"
        let truthy = true;
    ";

    let mut lexer = Lexer::new(input);
    let tokens = lexer.tokenize().unwrap();

    let actual_token_kinds: Vec<Kind> = tokens
        .iter()
        .map(|token| token.kind.clone())
        .collect();
    let expected_token_kinds = [
        Kind::Variable,
        Kind::Identifier("truthy".into()),
        Kind::Assign,
        Kind::True,
        Kind::Semicolon,
        Kind::EndOfFile,
    ];

    assert_eq!(actual_token_kinds, expected_token_kinds);
}

#[test]
fn booleans_test_false() {
    let input = r"
        let falsy = false;
    ";

    let mut lexer = Lexer::new(input);
    let tokens = lexer.tokenize().unwrap();

    let actual_token_kinds: Vec<Kind> = tokens
        .iter()
        .map(|token| token.kind.clone())
        .collect();
    let expected_token_kinds = [
        Kind::Variable,
        Kind::Identifier("falsy".into()),
        Kind::Assign,
        Kind::False,
        Kind::Semicolon,
        Kind::EndOfFile,
    ];

    assert_eq!(actual_token_kinds, expected_token_kinds);
}

#[test]
fn strings_test_normal() {
    let input = r#"
        let a = "Hello, World!";
     "#;

    let mut lexer = Lexer::new(input);
    let tokens = lexer.tokenize().unwrap();

    let actual_token_kinds: Vec<_> = tokens
        .iter()
        .map(|token| token.kind.clone())
        .collect();
    let expected_token_kinds = [
        Kind::Variable,
        Kind::Identifier("a".into()),
        Kind::Assign,
        Kind::String("Hello, World!".into()),
        Kind::Semicolon,
        Kind::EndOfFile,
    ];

    assert_eq!(actual_token_kinds, expected_token_kinds);
}

#[test]
fn strings_test_escape() {
    let input = r#"
        let a = "Hello, \"World!\"";
     "#;

    let mut lexer = Lexer::new(input);
    let tokens = lexer.tokenize().unwrap();

    let actual_token_kinds: Vec<_> = tokens
        .iter()
        .map(|token| token.kind.clone())
        .collect();
    let expected_token_kinds = [
        Kind::Variable,
        Kind::Identifier("a".into()),
        Kind::Assign,
        Kind::String("Hello, \"World!\"".into()),
        Kind::Semicolon,
        Kind::EndOfFile,
    ];

    assert_eq!(actual_token_kinds, expected_token_kinds);
}

#[test]
fn strings_test_newline() {
    let input = r#"
        let a = "Hello, \nWorld!";
     "#;

    let mut lexer = Lexer::new(input);
    let tokens = lexer.tokenize().unwrap();

    let actual_token_kinds: Vec<_> = tokens
        .iter()
        .map(|token| token.kind.clone())
        .collect();
    let expected_token_kinds = [
        Kind::Variable,
        Kind::Identifier("a".into()),
        Kind::Assign,
        Kind::String("Hello, \nWorld!".into()),
        Kind::Semicolon,
        Kind::EndOfFile,
    ];

    assert_eq!(actual_token_kinds, expected_token_kinds);
}

#[test]
fn test_multiple() {
    let input = r"
        let a = 10;
        if a == 10 {
            // ...
        } else if a == 20 {
            // ...
        } else {
            // ...
        }
        ";

    let mut lexer = Lexer::new(input);
    let tokens = lexer.tokenize().unwrap();

    let actual_token_kinds: Vec<Kind> = tokens.iter().map(|token| token.kind.clone()).collect();
    let expected_token_kinds = [
        Kind::Variable,
        Kind::Identifier("a".into()),
        Kind::Assign,
        Kind::Integer(10),
        Kind::Semicolon,
        Kind::If,
        Kind::Identifier("a".into()),
        Kind::Equality,
        Kind::Integer(10),
        Kind::LeftCurlyBrace,
        Kind::RightCurlyBrace,
        Kind::Else,
        Kind::If,
        Kind::Identifier("a".into()),
        Kind::Equality,
        Kind::Integer(20),
        Kind::LeftCurlyBrace,
        Kind::RightCurlyBrace,
        Kind::Else,
        Kind::LeftCurlyBrace,
        Kind::RightCurlyBrace,
        Kind::EndOfFile,
    ];

    assert_eq!(actual_token_kinds, expected_token_kinds);
}

#[test]
fn return_test_return() {
    let input = r"
        fn factorial(n: int) -> int {
            if n == 0 {
                return 1;
            }

            return n * factorial(n - 1);
        }
        ";

    let mut lexer = Lexer::new(input);
    let tokens = lexer.tokenize().unwrap();

    let actual_token_kinds: Vec<Kind> = tokens.iter().map(|token| token.kind.clone()).collect();
    let expected_token_kinds = [
        Kind::Function,
        Kind::Identifier("factorial".into()),
        Kind::LeftParenthesis,
        Kind::Identifier("n".into()),
        Kind::Colon,
        Kind::Identifier("int".into()),
        Kind::RightParenthesis,
        Kind::Arrow,
        Kind::Identifier("int".into()),
        Kind::LeftCurlyBrace,
        Kind::If,
        Kind::Identifier("n".into()),
        Kind::Equality,
        Kind::Integer(0),
        Kind::LeftCurlyBrace,
        Kind::Return,
        Kind::Integer(1),
        Kind::Semicolon,
        Kind::RightCurlyBrace,
        Kind::Return,
        Kind::Identifier("n".into()),
        Kind::Star,
        Kind::Identifier("factorial".into()),
        Kind::LeftParenthesis,
        Kind::Identifier("n".into()),
        Kind::Minus,
        Kind::Integer(1),
        Kind::RightParenthesis,
        Kind::Semicolon,
        Kind::RightCurlyBrace,
        Kind::EndOfFile,
    ];

    assert_eq!(actual_token_kinds, expected_token_kinds);
}

#[test]
fn lexing_test_function() {
    let input = r"
        fn add(a: int, b: int) -> int {
            return a + b;
        }
        ";

    let mut lexer = Lexer::new(input);
    let tokens = lexer.tokenize().unwrap();

    let actual_token_kinds: Vec<Kind> =
        tokens.iter().map(|token| token.kind.clone()).collect();
    let expected_token_kinds = [
        Kind::Function,
        Kind::Identifier("add".into()),
        Kind::LeftParenthesis,
        Kind::Identifier("a".into()),
        Kind::Colon,
        Kind::Identifier("int".into()),
        Kind::Comma,
        Kind::Identifier("b".into()),
        Kind::Colon,
        Kind::Identifier("int".into()),
        Kind::RightParenthesis,
        Kind::Arrow,
        Kind::Identifier("int".into()),
        Kind::LeftCurlyBrace,
        Kind::Return,
        Kind::Identifier("a".into()),
        Kind::Plus,
        Kind::Identifier("b".into()),
        Kind::Semicolon,
        Kind::RightCurlyBrace,
        Kind::EndOfFile,
    ];

    assert_eq!(actual_token_kinds, expected_token_kinds);
}

#[test]
fn test_variables() {
    let input = r#"
        let a = 10;
        let b = true;
        let c = "Hello, world!";
        "#;

    let mut lexer = Lexer::new(input);
    let tokens = lexer.tokenize().unwrap();

    let actual_token_kinds: Vec<Kind> =
        tokens.iter().map(|token| token.kind.clone()).collect();
    let expected_token_kinds = [
        Kind::Variable,
        Kind::Identifier("a".into()),
        Kind::Assign,
        Kind::Integer(10),
        Kind::Semicolon,
        Kind::Variable,
        Kind::Identifier("b".into()),
        Kind::Assign,
        Kind::True,
        Kind::Semicolon,
        Kind::Variable,
        Kind::Identifier("c".into()),
        Kind::Assign,
        Kind::String("Hello, world!".into()),
        Kind::Semicolon,
        Kind::EndOfFile,
    ];

    assert_eq!(actual_token_kinds, expected_token_kinds);
}

#[test]
fn lexing_test_if_else() {
    let input = r#"
        let a = 10;
        if a < 10 {
            println("a is less than 10!");
        } else if a > 10 {
            println("a is greater than 10!");
        } else {
            println("a is equal to 10!");
        }
        "#;

    let mut lexer = Lexer::new(input);
    let tokens = lexer.tokenize().unwrap();

    let actual_token_kinds: Vec<Kind> =
        tokens.iter().map(|token| token.kind.clone()).collect();
    let expected_token_kinds = [
        Kind::Variable,
        Kind::Identifier("a".into()),
        Kind::Assign,
        Kind::Integer(10),
        Kind::Semicolon,
        Kind::If,
        Kind::Identifier("a".into()),
        Kind::LessThan,
        Kind::Integer(10),
        Kind::LeftCurlyBrace,
        Kind::Identifier("println".into()),
        Kind::LeftParenthesis,
        Kind::String("a is less than 10!".into()),
        Kind::RightParenthesis,
        Kind::Semicolon,
        Kind::RightCurlyBrace,
        Kind::Else,
        Kind::If,
        Kind::Identifier("a".into()),
        Kind::GreaterThan,
        Kind::Integer(10),
        Kind::LeftCurlyBrace,
        Kind::Identifier("println".into()),
        Kind::LeftParenthesis,
        Kind::String("a is greater than 10!".into()),
        Kind::RightParenthesis,
        Kind::Semicolon,
        Kind::RightCurlyBrace,
        Kind::Else,
        Kind::LeftCurlyBrace,
        Kind::Identifier("println".into()),
        Kind::LeftParenthesis,
        Kind::String("a is equal to 10!".into()),
        Kind::RightParenthesis,
        Kind::Semicolon,
        Kind::RightCurlyBrace,
        Kind::EndOfFile,
    ];

    assert_eq!(actual_token_kinds, expected_token_kinds);
}

#[test]
fn lexing_test_while() {
    let input = r"
        let a = 0;
        while a < 10 {
            a += 1;
        }
        ";

    let mut lexer = Lexer::new(input);
    let tokens = lexer.tokenize().unwrap();

    let actual_token_kinds: Vec<Kind> =
        tokens.iter().map(|token| token.kind.clone()).collect();
    let expected_token_kinds = [
        Kind::Variable,
        Kind::Identifier("a".into()),
        Kind::Assign,
        Kind::Integer(0),
        Kind::Semicolon,
        Kind::While,
        Kind::Identifier("a".into()),
        Kind::LessThan,
        Kind::Integer(10),
        Kind::LeftCurlyBrace,
        Kind::Identifier("a".into()),
        Kind::AddAssign,
        Kind::Integer(1),
        Kind::Semicolon,
        Kind::RightCurlyBrace,
        Kind::EndOfFile,
    ];

    assert_eq!(actual_token_kinds, expected_token_kinds);
}

#[test]
fn lexing_test_for() {
    let input = r"
        for i in 0 to 10 {
            println(i);
        }
        ";

    let mut lexer = Lexer::new(input);
    let tokens = lexer.tokenize().unwrap();

    let actual_token_kinds: Vec<Kind> =
        tokens.iter().map(|token| token.kind.clone()).collect();
    let expected_token_kinds = [
        Kind::For,
        Kind::Identifier("i".into()),
        Kind::Range,
        Kind::Integer(0),
        Kind::To,
        Kind::Integer(10),
        Kind::LeftCurlyBrace,
        Kind::Identifier("println".into()),
        Kind::LeftParenthesis,
        Kind::Identifier("i".into()),
        Kind::RightParenthesis,
        Kind::Semicolon,
        Kind::RightCurlyBrace,
        Kind::EndOfFile,
    ];

    assert_eq!(actual_token_kinds, expected_token_kinds);
}

#[test]
fn lexing_test_break() {
    let input = r"
        let a = 0;
        while a < 10 {
            if a == 5 {
                break;
            }

            a += 1;
        }
        ";

    let mut lexer = Lexer::new(input);
    let tokens = lexer.tokenize().unwrap();

    let actual_token_kinds: Vec<Kind> =
        tokens.iter().map(|token| token.kind.clone()).collect();
    let expected_token_kinds = [
        Kind::Variable,
        Kind::Identifier("a".into()),
        Kind::Assign,
        Kind::Integer(0),
        Kind::Semicolon,
        Kind::While,
        Kind::Identifier("a".into()),
        Kind::LessThan,
        Kind::Integer(10),
        Kind::LeftCurlyBrace,
        Kind::If,
        Kind::Identifier("a".into()),
        Kind::Equality,
        Kind::Integer(5),
        Kind::LeftCurlyBrace,
        Kind::Break,
        Kind::Semicolon,
        Kind::RightCurlyBrace,
        Kind::Identifier("a".into()),
        Kind::AddAssign,
        Kind::Integer(1),
        Kind::Semicolon,
        Kind::RightCurlyBrace,
        Kind::EndOfFile,
    ];

    assert_eq!(actual_token_kinds, expected_token_kinds);
}

#[test]
fn lexing_test_continue() {
    let input = r"
        let a = 0;
        while a < 10 {
            if a == 5 {
                continue;
            }

            a += 1;
        }
        ";

    let mut lexer = Lexer::new(input);
    let tokens = lexer.tokenize().unwrap();

    let actual_token_kinds: Vec<Kind> =
        tokens.iter().map(|token| token.kind.clone()).collect();
    let expected_token_kinds = [
        Kind::Variable,
        Kind::Identifier("a".into()),
        Kind::Assign,
        Kind::Integer(0),
        Kind::Semicolon,
        Kind::While,
        Kind::Identifier("a".into()),
        Kind::LessThan,
        Kind::Integer(10),
        Kind::LeftCurlyBrace,
        Kind::If,
        Kind::Identifier("a".into()),
        Kind::Equality,
        Kind::Integer(5),
        Kind::LeftCurlyBrace,
        Kind::Continue,
        Kind::Semicolon,
        Kind::RightCurlyBrace,
        Kind::Identifier("a".into()),
        Kind::AddAssign,
        Kind::Integer(1),
        Kind::Semicolon,
        Kind::RightCurlyBrace,
        Kind::EndOfFile,
    ];

    assert_eq!(actual_token_kinds, expected_token_kinds);
}

#[test]
fn lexing_test_return() {
    let input = r"
        fn add(a: int, b: int) -> int {
            return a + b;
        }
        ";

    let mut lexer = Lexer::new(input);
    let tokens = lexer.tokenize().unwrap();

    let actual_token_kinds: Vec<Kind> =
        tokens.iter().map(|token| token.kind.clone()).collect();
    let expected_token_kinds = [
        Kind::Function,
        Kind::Identifier("add".into()),
        Kind::LeftParenthesis,
        Kind::Identifier("a".into()),
        Kind::Colon,
        Kind::Identifier("int".into()),
        Kind::Comma,
        Kind::Identifier("b".into()),
        Kind::Colon,
        Kind::Identifier("int".into()),
        Kind::RightParenthesis,
        Kind::Arrow,
        Kind::Identifier("int".into()),
        Kind::LeftCurlyBrace,
        Kind::Return,
        Kind::Identifier("a".into()),
        Kind::Plus,
        Kind::Identifier("b".into()),
        Kind::Semicolon,
        Kind::RightCurlyBrace,
        Kind::EndOfFile,
    ];

    assert_eq!(actual_token_kinds, expected_token_kinds);
}

#[test]
fn test_comments() {
    let input = r"
        // This is a single-line comment.
        let a = 10; // This is another single-line comment.

        /*
         This is a multi-line comment,
         it can span multiple lines!
        */

        let b = 20; /* This is another multi-line comment, it doesnt span multiple lines. */
        ";

    let mut lexer = Lexer::new(input);
    let tokens = lexer.tokenize().unwrap();

    let actual_token_kinds: Vec<Kind> =
        tokens.iter().map(|token| token.kind.clone()).collect();
    let expected_token_kinds = [
        Kind::Variable,
        Kind::Identifier("a".into()),
        Kind::Assign,
        Kind::Integer(10),
        Kind::Semicolon,
        Kind::Variable,
        Kind::Identifier("b".into()),
        Kind::Assign,
        Kind::Integer(20),
        Kind::Semicolon,
        Kind::EndOfFile,
    ];

    assert_eq!(actual_token_kinds, expected_token_kinds);
}

#[test]
fn test_ints() {
    let input = r"
        let positive_whole = 10;
        let negative_whole = -10;

        let positive_hexadecimal = 0x10;
        let negative_hexadecimal = -0x10;

        let positive_octal = 0o10;
        let negative_octal = -0o10;

        let positive_binary = 0b10;
        let negative_binary = -0b10;
        ";

    let mut lexer = Lexer::new(input);
    let tokens = lexer.tokenize().unwrap();

    let actual_token_kinds: Vec<Kind> = tokens.iter().map(|token| token.kind.clone()).collect();
    let expected_token_kinds = [
        Kind::Variable,
        Kind::Identifier("positive_whole".into()),
        Kind::Assign,
        Kind::Integer(10),
        Kind::Semicolon,
        Kind::Variable,
        Kind::Identifier("negative_whole".into()),
        Kind::Assign,
        Kind::Integer(-10),
        Kind::Semicolon,
        Kind::Variable,
        Kind::Identifier("positive_hexadecimal".into()),
        Kind::Assign,
        Kind::Integer(16),
        Kind::Semicolon,
        Kind::Variable,
        Kind::Identifier("negative_hexadecimal".into()),
        Kind::Assign,
        Kind::Integer(-16),
        Kind::Semicolon,
        Kind::Variable,
        Kind::Identifier("positive_octal".into()),
        Kind::Assign,
        Kind::Integer(8),
        Kind::Semicolon,
        Kind::Variable,
        Kind::Identifier("negative_octal".into()),
        Kind::Assign,
        Kind::Integer(-8),
        Kind::Semicolon,
        Kind::Variable,
        Kind::Identifier("positive_binary".into()),
        Kind::Assign,
        Kind::Integer(2),
        Kind::Semicolon,
        Kind::Variable,
        Kind::Identifier("negative_binary".into()),
        Kind::Assign,
        Kind::Integer(-2),
        Kind::Semicolon,
        Kind::EndOfFile,
    ];

    assert_eq!(actual_token_kinds, expected_token_kinds);
}
