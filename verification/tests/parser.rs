use lib::parser::{Cmd, Expr, Parser};

#[test]
fn test_parse_const() {
    let mut parser = Parser::new("123");
    let expr = parser.parse_expr().unwrap();
    assert_eq!(expr, Expr::Const(123));
}

#[test]
fn test_parse_var() {
    let mut parser = Parser::new("x");
    let expr = parser.parse_expr().unwrap();
    assert_eq!(expr, Expr::Var("x".into()));
}

#[test]
fn test_parse_opbin() {
    let mut parser = Parser::new("2 + 3");
    let expr = parser.parse_expr().unwrap();
    assert_eq!(
        expr,
        Expr::OpBin {
            operador: "+".into(),
            esq: Box::new(Expr::Const(2)),
            dir: Box::new(Expr::Const(3)),
        }
    );
}

#[test]
fn test_parse_call() {
    let mut parser = Parser::new("soma(1, x)");
    let expr = parser.parse_expr().unwrap();
    assert_eq!(
        expr,
        Expr::Call {
            nome: "soma".into(),
            args: vec![Expr::Const(1), Expr::Var("x".into())],
        }
    );
}

#[test]
fn test_parse_cmd_atrib() {
    let mut parser = Parser::new("x = 42;");
    let cmd = parser.parse_cmd().unwrap();
    assert_eq!(
        cmd,
        Cmd::Atrib {
            nome: "x".into(),
            expr: Expr::Const(42),
        }
    );
}

#[test]
fn test_parse_if_else() {
    let mut parser = Parser::new("if 1 { x = 2; } else { x = 3; }");
    let cmd = parser.parse_cmd().unwrap();
    match cmd {
        Cmd::If { cond, then_cmds, else_cmds } => {
            assert_eq!(cond, Expr::Const(1));
            assert!(matches!(&then_cmds[0], Cmd::Atrib { nome, .. } if nome == "x"));
            assert!(matches!(&else_cmds[0], Cmd::Atrib { nome, .. } if nome == "x"));
        }
        _ => panic!("Esperado Cmd::If"),
    }
}

#[test]
fn test_parse_while() {
    let mut parser = Parser::new("while x { y = y + 1; }");
    let cmd = parser.parse_cmd().unwrap();
    match cmd {
        Cmd::While { cond, body } => {
            assert_eq!(cond, Expr::Var("x".into()));
            assert!(matches!(&body[0], Cmd::Atrib { nome, .. } if nome == "y"));
        }
        _ => panic!("Esperado Cmd::While"),
    }
}

#[test]
fn test_parser_programa_minimo() {
    let code = r#"
            main {
                return 42;
            }
        "#;
    let mut parser = Parser::new(code);
    let result = parser.parse_programa();
    assert!(result.is_ok(), "Parsing falhou: {:?}", result.err());
}

#[test]
fn test_parser_erro() {
    let code = r#"
            main {
                return ;
            }
        "#;
    let mut parser = Parser::new(code);
    let result = parser.parse_programa();
    assert!(result.is_err(), "Era esperado erro de parsing");
}
