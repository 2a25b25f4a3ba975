use lib::codegen::{gerar_cmd, gerar_codigo, gerar_expr, gerar_funcao, Deslocamentos};
use lib::parser::{Cmd, Expr, FunDecl, Parser};

fn bin(op: &str, a: Expr, b: Expr) -> Expr {
    Expr::OpBin { operador: op.to_string(), esq: Box::new(a), dir: Box::new(b) }
}

#[test]
fn soma_avalia_a_direita_primeiro() {
    let codigo = gerar_expr(&bin("+", Expr::Const(2), Expr::Const(3)), &mut 0, &Deslocamentos::new());
    assert_eq!(codigo, "mov rax, 3\npush rax\nmov rax, 2\npop rbx\nadd rax, rbx\n");
}

#[test]
fn operadores() {
    let d = Deslocamentos::new();
    let c = gerar_expr(&bin("/", Expr::Const(8), Expr::Const(2)), &mut 0, &d);
    assert!(c.ends_with("pop rbx\ncqo\nidiv rbx\n"));
    let c = gerar_expr(&bin("-", Expr::Const(8), Expr::Const(2)), &mut 0, &d);
    assert!(c.ends_with("sub rax, rbx\n"));
    let c = gerar_expr(&bin("*", Expr::Const(8), Expr::Const(2)), &mut 0, &d);
    assert!(c.ends_with("imul rax, rbx\n"));
    let c = gerar_expr(&bin("==", Expr::Const(8), Expr::Const(2)), &mut 0, &d);
    assert!(c.ends_with("xor rcx, rcx\ncmp rax, rbx\nsetz cl\nmov rax, rcx\n"));
    let c = gerar_expr(&bin("<", Expr::Const(8), Expr::Const(2)), &mut 0, &d);
    assert!(c.ends_with("setl cl\nmov rax, rcx\n"));
    let c = gerar_expr(&bin(">", Expr::Const(8), Expr::Const(2)), &mut 0, &d);
    assert!(c.ends_with("setg cl\nmov rax, rcx\n"));
}

#[test]
fn constante_negativa_e_grande() {
    let d = Deslocamentos::new();
    assert_eq!(gerar_expr(&Expr::Const(-5), &mut 0, &d), "mov rax, -5\n");
    assert_eq!(gerar_expr(&Expr::Const(i32::MIN), &mut 0, &d), "mov rax, -2147483648\n");
    assert_eq!(gerar_expr(&Expr::Const(1234567890), &mut 0, &d), "mov rax, 1234567890\n");
}

#[test]
fn chamada_empilha_do_ultimo_ao_primeiro() {
    let e = Expr::Call { nome: "f".to_string(), args: vec![Expr::Const(1), Expr::Const(2)] };
    let codigo = gerar_expr(&e, &mut 7, &Deslocamentos::new());
    assert_eq!(
        codigo,
        "mov rax, 2\npush rax\nmov rax, 1\npush rax\ncall f\nadd rsp, 16\n"
    );
    let e = Expr::Call { nome: "g".to_string(), args: vec![] };
    assert_eq!(gerar_expr(&e, &mut 0, &Deslocamentos::new()), "call g\n");
}

#[test]
fn deslocamento_reinserido_vale_o_ultimo() {
    let mut d = Deslocamentos::new();
    d.insert("x".to_string(), -8);
    d.insert("y".to_string(), 24);
    d.insert("x".to_string(), 16);
    assert_eq!(d.get(&"x".to_string()), Some(16));
    assert_eq!(d.get(&"y".to_string()), Some(24));
    assert_eq!(d.get(&"z".to_string()), None);
    assert_eq!(gerar_expr(&Expr::Var("x".to_string()), &mut 0, &d), "mov rax, [rbp+16]\n");
    let c = gerar_cmd(&Cmd::Atrib { nome: "y".to_string(), expr: Expr::Const(0) }, &mut 0, &d);
    assert_eq!(c, "mov rax, 0\nmov [rbp+24], rax\n");
}

#[test]
fn if_e_while_numeram_rotulos() {
    let mut rotulos: usize = 5;
    let cmd = Cmd::If {
        cond: Expr::Var("c".to_string()),
        then_cmds: vec![Cmd::While { cond: Expr::Var("c".to_string()), body: vec![] }],
        else_cmds: vec![],
    };
    let codigo = gerar_cmd(&cmd, &mut rotulos, &Deslocamentos::new());
    assert_eq!(rotulos, 9);
    assert_eq!(
        codigo,
        "mov rax, [c]\ncmp rax, 0\nje Lfalso5\n\
         Linicio7:\nmov rax, [c]\ncmp rax, 0\nje Lfim8\njmp Linicio7\nLfim8:\n\
         jmp Lfim6\nLfalso5:\nLfim6:\n"
    );
}

#[test]
fn funcao_com_parametros_e_locais() {
    let f = FunDecl {
        nome: "f".to_string(),
        parametros: vec!["a".to_string(), "b".to_string()],
        variaveis: vec![("t".to_string(), Expr::Var("b".to_string()))],
        comandos: vec![Cmd::Atrib { nome: "t".to_string(), expr: Expr::Var("a".to_string()) }],
        retorno: Expr::Var("t".to_string()),
    };
    let mut rotulos: usize = 0;
    let codigo = gerar_funcao(&f, &mut rotulos);
    assert_eq!(
        codigo,
        "\nf:\npush rbp\nmov rbp, rsp\nsub rsp, 8\n\
         mov rax, [rbp+24]\nmov [rbp-8], rax\n\
         mov rax, [rbp+16]\nmov [rbp-8], rax\n\
         mov rax, [rbp-8]\nadd rsp, 8\npop rbp\nret\n"
    );
    assert_eq!(rotulos, 0);
}

#[test]
fn programa_lido_e_compilado() {
    let code = "var g = 1; fun id(x) { return x; } main { g = id(g); return g; }";
    let prog = Parser::new(code).parse_programa().unwrap();
    let codigo = gerar_codigo(&prog);
    assert_eq!(
        codigo,
        "section .bss\ng: resq 1\nsection .text\nglobal _start\n\
         \nid:\npush rbp\nmov rbp, rsp\nmov rax, [rbp+16]\npop rbp\nret\n\
         \n_start:\nmov rax, 1\nmov [g], rax\n\
         mov rax, [g]\npush rax\ncall id\nadd rsp, 8\nmov [g], rax\n\
         mov rax, [g]\nmov rdi, rax\nmov rax, 60\nsyscall\n"
    );
}
