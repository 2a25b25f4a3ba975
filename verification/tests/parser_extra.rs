use lib::parser::{Cmd, Expr, Parser};

fn bin(op: &str, a: Expr, b: Expr) -> Expr {
    Expr::OpBin { operador: op.to_string(), esq: Box::new(a), dir: Box::new(b) }
}

fn var(n: &str) -> Expr {
    Expr::Var(n.to_string())
}

#[test]
fn multiplicacao_antes_da_soma() {
    let mut p = Parser::new("1 + 2 * 3");
    assert_eq!(
        p.parse_expr().unwrap(),
        bin("+", Expr::Const(1), bin("*", Expr::Const(2), Expr::Const(3)))
    );
}

#[test]
fn subtracao_associa_a_esquerda() {
    let mut p = Parser::new("8 - 3 - 2");
    assert_eq!(
        p.parse_expr().unwrap(),
        bin("-", bin("-", Expr::Const(8), Expr::Const(3)), Expr::Const(2))
    );
}

#[test]
fn comparacao_depois_da_soma() {
    let mut p = Parser::new("a < b + 1");
    assert_eq!(p.parse_expr().unwrap(), bin("<", var("a"), bin("+", var("b"), Expr::Const(1))));
    let mut p = Parser::new("a == b > c");
    assert_eq!(p.parse_expr().unwrap(), bin(">", bin("==", var("a"), var("b")), var("c")));
}

#[test]
fn parenteses_agrupam() {
    let mut p = Parser::new("(1 + 2) * 3");
    assert_eq!(
        p.parse_expr().unwrap(),
        bin("*", bin("+", Expr::Const(1), Expr::Const(2)), Expr::Const(3))
    );
}

#[test]
fn igual_sozinho_e_erro() {
    let mut p = Parser::new("x = 1");
    assert_eq!(p.parse_expr(), Err("Erro: operador = mal formado".to_string()));
}

#[test]
fn espacos_dentro_de_nomes_e_numeros() {
    let mut p = Parser::new("ab c");
    assert_eq!(p.parse_expr().unwrap(), var("abc"));
    let mut p = Parser::new("1 2");
    assert_eq!(p.parse_expr().unwrap(), Expr::Const(12));
}

#[test]
fn chamada_sem_argumentos_e_aninhada() {
    let mut p = Parser::new("f()");
    assert_eq!(p.parse_expr().unwrap(), Expr::Call { nome: "f".to_string(), args: vec![] });
    let mut p = Parser::new("g(f(1), 2 + 3)");
    assert_eq!(
        p.parse_expr().unwrap(),
        Expr::Call {
            nome: "g".to_string(),
            args: vec![
                Expr::Call { nome: "f".to_string(), args: vec![Expr::Const(1)] },
                bin("+", Expr::Const(2), Expr::Const(3)),
            ],
        }
    );
}

#[test]
fn palavra_chave_como_prefixo_de_nome() {
    let mut p = Parser::new("iffy = 1;");
    assert_eq!(p.parse_cmd().unwrap(), Cmd::Atrib { nome: "iffy".to_string(), expr: Expr::Const(1) });
}

#[test]
fn mensagens_de_erro() {
    assert_eq!(Parser::new("+").parse_expr(), Err("Token inesperado: '+'".to_string()));
    assert_eq!(Parser::new("   ").parse_expr(), Err("Fim inesperado".to_string()));
    assert_eq!(Parser::new("(1").parse_expr(), Err("Esperado ')', mas fim da entrada".to_string()));
    assert_eq!(Parser::new("x + 1;").parse_cmd(), Err("Esperado '=', mas encontrou '+'".to_string()));
    // identifiers run on across whitespace, so "x 1" is the single name "x1"
    assert_eq!(Parser::new("x 1;").parse_cmd(), Err("Esperado '=', mas encontrou ';'".to_string()));
    assert_eq!(Parser::new("1 = 2;").parse_cmd(), Err("Esperado identificador".to_string()));
    assert_eq!(
        Parser::new("if 1 { } x").parse_cmd(),
        Err("Esperado 'else'".to_string())
    );
    assert_eq!(
        Parser::new("x = 1;").parse_programa(),
        Err("Esperado 'fun', 'var' ou 'main'".to_string())
    );
}

#[test]
fn constante_que_nao_cabe() {
    let mut p = Parser::new("main { return 2147483648; }");
    assert!(p.tenta_parse_programa().is_none());
    let mut p = Parser::new("main { return 2147483647; }");
    let prog = p.tenta_parse_programa().unwrap().unwrap();
    assert_eq!(prog.retorno, Expr::Const(2147483647));
}

#[test]
fn programa_completo() {
    let code = "var g = 2;\n\
                fun fib(n) {\n  var res = 0;\n  if n < 2 {\n    res = 1;\n  } else {\n    res = fib(n - 1) + fib(n - 2);\n  }\n  return res;\n}\n\
                main {\n  return fib(6);\n}\n";
    let mut p = Parser::new(code);
    let prog = p.parse_programa().unwrap();
    assert_eq!(prog.globais.len(), 1);
    assert_eq!(prog.globais[0], ("g".to_string(), Expr::Const(2)));
    assert_eq!(prog.funcoes.len(), 1);
    let f = &prog.funcoes[0];
    assert_eq!(f.nome, "fib");
    assert_eq!(f.parametros, vec!["n".to_string()]);
    assert_eq!(f.variaveis, vec![("res".to_string(), Expr::Const(0))]);
    assert_eq!(f.comandos.len(), 1);
    assert_eq!(f.retorno, var("res"));
    assert!(prog.principal.is_empty());
    assert_eq!(
        prog.retorno,
        Expr::Call { nome: "fib".to_string(), args: vec![Expr::Const(6)] }
    );
}

#[test]
fn texto_impresso_e_lido_de_volta() {
    // The printed form that the round-trip law speaks of: every binary
    // operation between parentheses, no whitespace.
    let mut p = Parser::new("((1+x)*f(y,(2<3)))");
    assert_eq!(
        p.parse_expr().unwrap(),
        bin(
            "*",
            bin("+", Expr::Const(1), var("x")),
            Expr::Call { nome: "f".to_string(), args: vec![var("y"), bin("<", Expr::Const(2), Expr::Const(3))] }
        )
    );
    let mut p = Parser::new("var a=1;fun f(x,y){var z=(x+y);if(z){z=1;}else{while(z){z=(z-1);}}return(z);}main{a=f(a,2);return(a);}");
    let prog = p.parse_programa().unwrap();
    assert_eq!(prog.funcoes[0].parametros, vec!["x".to_string(), "y".to_string()]);
    assert_eq!(prog.principal.len(), 1);
}
