use lib::codegen::gerar_codigo;
use lib::compilador::{compilar, expr_compilavel, programa_compilavel};
use lib::parser::{Cmd, Expr, Programa, Parser};

const FIB: &str = "fun fib(n) {
  var res = 0;
  if n < 2 {
    res = 1;
  } else {
    res = fib(n - 1) + fib(n - 2);
  }
  return res;
}

main {
  return fib(6);
}
";

#[test]
fn exemplo_fib_compila() {
    let codigo = compilar(FIB).unwrap().unwrap();
    let prog = Parser::new(FIB).parse_programa().unwrap();
    assert_eq!(codigo, gerar_codigo(&prog));
    assert!(codigo.starts_with("section .bss\nsection .text\nglobal _start\n\nfib:\n"));
    assert!(codigo.contains("sub rsp, 8\n"));
    assert!(codigo.contains("je Lfalso0\n"));
    assert!(codigo.contains("Lfim1:\n"));
    assert!(codigo.contains("call fib\nadd rsp, 8\n"));
    assert!(codigo.ends_with(
        "\n_start:\nmov rax, 6\npush rax\ncall fib\nadd rsp, 8\nmov rdi, rax\nmov rax, 60\nsyscall\n"
    ));
}

#[test]
fn programa_minimo_compila_exato() {
    let codigo = compilar("main { return 42; }").unwrap().unwrap();
    assert_eq!(
        codigo,
        "section .bss\nsection .text\nglobal _start\n\n_start:\nmov rax, 42\n\
         mov rdi, rax\nmov rax, 60\nsyscall\n"
    );
}

#[test]
fn erro_de_leitura_vem_como_err() {
    assert_eq!(
        compilar("main { return ; }"),
        Some(Err("Token inesperado: ';'".to_string()))
    );
    assert_eq!(
        compilar("x = 1;"),
        Some(Err("Esperado 'fun', 'var' ou 'main'".to_string()))
    );
    assert_eq!(compilar(""), Some(Err("Esperado 'fun', 'var' ou 'main'".to_string())));
}

#[test]
fn constante_fora_de_i32_nao_compila() {
    assert_eq!(compilar("main { return 2147483648; }"), None);
    assert!(compilar("main { return 2147483647; }").unwrap().is_ok());
}

#[test]
fn operador_desconhecido_nao_compila() {
    let ruim = Expr::OpBin {
        operador: "%".to_string(),
        esq: Box::new(Expr::Const(1)),
        dir: Box::new(Expr::Const(2)),
    };
    assert!(!expr_compilavel(&ruim));
    let prog = Programa {
        globais: vec![],
        funcoes: vec![],
        principal: vec![Cmd::Atrib { nome: "x".to_string(), expr: ruim }],
        retorno: Expr::Const(0),
    };
    assert!(!programa_compilavel(&prog));
    let bom = Programa {
        globais: vec![("x".to_string(), Expr::Const(1))],
        funcoes: vec![],
        principal: vec![],
        retorno: Expr::Var("x".to_string()),
    };
    assert!(programa_compilavel(&bom));
}
