use lib::codegen::{gerar_cmd, gerar_codigo, gerar_expr, Deslocamentos};
use lib::parser::{Cmd, Expr, Programa};

#[test]
fn test_expr_const() {
    let codigo = gerar_expr(&Expr::Const(42), &mut 0, &Deslocamentos::new());
    assert_eq!(codigo.trim(), "mov rax, 42");
}

#[test]
fn test_expr_var_global() {
    let codigo = gerar_expr(&Expr::Var("x".to_string()), &mut 0, &Deslocamentos::new());
    assert_eq!(codigo.trim(), "mov rax, [x]");
}

#[test]
fn test_expr_var_local() {
    let mut mapa = Deslocamentos::new();
    mapa.insert("x".to_string(), -8);
    let codigo = gerar_expr(&Expr::Var("x".to_string()), &mut 0, &mapa);
    assert_eq!(codigo.trim(), "mov rax, [rbp-8]");
}

#[test]
fn test_expr_opbin_add() {
    let expr = Expr::OpBin {
        operador: "+".to_string(),
        esq: Box::new(Expr::Const(2)),
        dir: Box::new(Expr::Const(3)),
    };
    let codigo = gerar_expr(&expr, &mut 0, &Deslocamentos::new());
    assert!(codigo.contains("add rax, rbx"));
}

#[test]
fn test_cmd_atrib_global() {
    let cmd = Cmd::Atrib {
        nome: "x".to_string(),
        expr: Expr::Const(5),
    };
    let codigo = gerar_cmd(&cmd, &mut 0, &Deslocamentos::new());
    assert!(codigo.contains("mov [x], rax"));
}

#[test]
fn test_gerar_codigo_minimal() {
    let prog = Programa {
        globais: vec![("x".to_string(), Expr::Const(1))],
        funcoes: vec![],
        principal: vec![Cmd::Atrib {
            nome: "x".to_string(),
            expr: Expr::Const(2),
        }],
        retorno: Expr::Var("x".to_string()),
    };
    let codigo = gerar_codigo(&prog);
    assert!(codigo.contains("_start:"));
    assert!(codigo.contains("mov [x], rax"));
    assert!(codigo.contains("mov rdi, rax"));
}
