//! The recursive-descent parser of Fun.
//!
//! Each method reads from the parser's position and moves it; its contract
//! says, over the grammar in [`crate::gramatica`], what it returns and where
//! the position ends.
use vstd::prelude::*;
pub use crate::ast::{Cmd, Expr, FunDecl, Programa};
use crate::ast::{
    CmdS,
    ExprS,
    FunDeclS,
    lemma_modelo_exprs_push,
    lemma_modelo_cmds_push,
    lemma_modelo_defs_push,
    lemma_modelo_nomes_push,
    lemma_modelo_fundecls_push,
    modelo_cmd,
    modelo_cmds,
    modelo_defs,
    modelo_expr,
    modelo_exprs,
    modelo_fundecls,
    modelo_nomes,
};
use crate::caracteres::{
    alfanum,
    digito,
    eh_alfanum,
    eh_digito,
    eh_espaco,
    eh_letra,
    espaco,
    letra,
    valor_de_digito,
};
use crate::gramatica::{
    Saida,
    constante,
    entre_aspas,
    espera,
    espera_palavra,
    espia,
    lemma_proximo,
    lemma_pula_espacos,
    lemma_resto_digitos,
    lemma_nome,
    nome,
    prim,
    chamada,
    resto_args,
    exp_m,
    resto_m,
    exp_a,
    resto_a,
    expr,
    resto_expr,
    mais_comparacao,
    cmd,
    bloco,
    corpo,
    definicao,
    resto_vars,
    resto_params,
    params,
    fecho,
    fundecl,
    topo,
    programa,
    palavra,
    proximo,
    pula_espacos,
    resto_digitos,
    resto_nome,
};
use crate::texto::empurra;

verus! {

broadcast use vstd::string::group_string_axioms;

/// Why reading failed: a message, or an integer constant that does not fit
/// in an `i32` (where the parser's arithmetic would overflow).
pub enum Falha {
    Msg(String),
    Estouro,
}

/// Whether the result `r`, with the position `pos` after it, is what the
/// grammar says: the value read, or the message, or the overflow.
pub open spec fn confere<T: View>(r: Result<T, Falha>, esperado: Saida<T::V>, pos: int) -> bool {
    match esperado {
        Saida::Lido(v, q) => r matches Ok(x) && x@ == v && pos == q,
        Saida::Erro(m, q) => r matches Err(Falha::Msg(e)) && e@ == m && pos == q,
        Saida::Estouro => r matches Err(Falha::Estouro),
    }
}

/// As [`confere`], for a value whose model is `modelo(x)`.
pub open spec fn confere_com<T, V>(
    r: Result<T, Falha>,
    esperado: Saida<V>,
    pos: int,
    modelo: spec_fn(T) -> V,
) -> bool {
    match esperado {
        Saida::Lido(v, q) => r matches Ok(x) && modelo(x) == v && pos == q,
        Saida::Erro(m, q) => r matches Err(Falha::Msg(e)) && e@ == m && pos == q,
        Saida::Estouro => r matches Err(Falha::Estouro),
    }
}

/// Whether `r`, with the position `pos` after it, is what the grammar says,
/// for a reading that yields nothing.
pub open spec fn confere_nada(r: Result<(), Falha>, esperado: Saida<()>, pos: int) -> bool {
    match esperado {
        Saida::Lido(_, q) => r is Ok && pos == q,
        Saida::Erro(m, q) => r matches Err(Falha::Msg(e)) && e@ == m && pos == q,
        Saida::Estouro => r matches Err(Falha::Estouro),
    }
}

/// Whether the text result `r`, with the position `pos` after it, is what the
/// grammar says: the value read, or the message.
pub open spec fn confere_texto<T: View>(r: Result<T, String>, esperado: Saida<T::V>, pos: int) -> bool {
    match esperado {
        Saida::Lido(v, q) => r matches Ok(x) && x@ == v && pos == q,
        Saida::Erro(m, q) => r matches Err(e) && e@ == m && pos == q,
        Saida::Estouro => false,
    }
}

/// A parser over the characters of an input, at a position in them.
pub struct Parser {
    chars: Vec<char>,
    pos: usize,
}

impl Parser {
    /// The characters of the input.
    pub closed spec fn entrada(&self) -> Seq<char> {
        self.chars@
    }

    /// The position of the next character to read.
    pub closed spec fn posicao(&self) -> int {
        self.pos as int
    }

    /// The position lies within the input.
    pub closed spec fn bem_formado(&self) -> bool {
        self.pos <= self.chars.len()
    }

    /// How many characters are left to read.
    pub closed spec fn restante(&self) -> int {
        self.chars.len() - self.pos
    }

    /// The reading from `old` to `new` kept the input and did not move back.
    pub open spec fn avancou(old: &Parser, new: &Parser) -> bool {
        &&& new.entrada() == old.entrada()
        &&& new.bem_formado()
        &&& old.posicao() <= new.posicao()
    }

    /// A parser at the start of `input`.
    pub fn new(input: &str) -> (p: Parser)
        ensures
            p.entrada() == input@,
            p.posicao() == 0,
            p.bem_formado(),
    {
        let mut chars: Vec<char> = Vec::new();
        for c in it: input.chars()
            invariant
                chars@ == it.seq().take(it.index()),
        {
            chars.push(c);
            assert(chars@ =~= it.seq().take(it.index() + 1));
        }
        assert(chars@ =~= input@);
        Parser { chars, pos: 0 }
    }

    /// The position after the whitespace at the current one.
    fn fim_espacos(&self) -> (q: usize)
        requires
            self.bem_formado(),
        ensures
            q == pula_espacos(self.entrada(), self.posicao()),
            self.posicao() <= q <= self.entrada().len(),
    {
        let mut q = self.pos;
        while q < self.chars.len() && espaco(self.chars[q])
            invariant
                self.pos <= q <= self.chars.len(),
                pula_espacos(self.chars@, self.pos as int) == pula_espacos(self.chars@, q as int),
            decreases self.chars.len() - q,
        {
            q = q + 1;
        }
        q
    }

    /// Reads the next character that is not whitespace.
    fn next(&mut self) -> (r: Option<char>)
        requires
            old(self).bem_formado(),
        ensures
            Parser::avancou(old(self), final(self)),
            (r, final(self).posicao()) == proximo(old(self).entrada(), old(self).posicao()),
            r is Some ==> old(self).posicao() < final(self).posicao(),
    {
        let q = self.fim_espacos();
        if q < self.chars.len() {
            self.pos = q + 1;
            Some(self.chars[q])
        } else {
            self.pos = q;
            None
        }
    }

    /// The next character that is not whitespace, without reading it.
    fn peek(&self) -> (r: Option<char>)
        requires
            self.bem_formado(),
        ensures
            r == espia(self.entrada(), self.posicao()),
    {
        let q = self.fim_espacos();
        if q < self.chars.len() {
            Some(self.chars[q])
        } else {
            None
        }
    }

    /// Whether the next character that is not whitespace is `ch`.
    fn peek_eh(&self, ch: char) -> (r: bool)
        requires
            self.bem_formado(),
        ensures
            r == (espia(self.entrada(), self.posicao()) == Some(ch)),
    {
        match self.peek() {
            Some(c) => c == ch,
            None => false,
        }
    }

    /// Reads the keyword `kw` if it comes next and is not the start of a
    /// longer identifier.
    #[verifier::loop_isolation(false)]
    fn parse_kw(&mut self, kw: &str) -> (r: bool)
        requires
            old(self).bem_formado(),
        ensures
            Parser::avancou(old(self), final(self)),
            (r, final(self).posicao()) == palavra(old(self).entrada(), old(self).posicao(), kw@),
    {
        let q = self.fim_espacos();
        let n = kw.unicode_len();
        if n > self.chars.len() - q {
            return false;
        }
        let f = q + n;
        let mut i: usize = 0;
        while i < n
            invariant
                self.pos <= q <= f <= self.chars.len(),
                f == q + n,
                n == kw@.len(),
                i <= n,
                forall|j: int| 0 <= j < i ==> self.chars@[q + j] == kw@[j],
            decreases n - i,
        {
            if self.chars[q + i] != kw.get_char(i) {
                assert(self.chars@.subrange(q as int, f as int)[i as int] != kw@[i as int]);
                return false;
            }
            i = i + 1;
        }
        assert(self.chars@.subrange(q as int, f as int) =~= kw@);
        if f < self.chars.len() && alfanum(self.chars[f]) {
            return false;
        }
        self.pos = f;
        true
    }

    /// Reads the keyword `kw`, which must come next.
    fn expect_kw(&mut self, kw: &str) -> (r: Result<(), Falha>)
        requires
            old(self).bem_formado(),
        ensures
            Parser::avancou(old(self), final(self)),
            confere_nada(r, espera_palavra(old(self).entrada(), old(self).posicao(), kw@), final(self).posicao()),
    {
        if self.parse_kw(kw) {
            Ok(())
        } else {
            let mut m = String::from_str("Esperado ");
            empurra(&mut m, '\'');
            m.append(kw);
            empurra(&mut m, '\'');
            assert(m@ =~= "Esperado "@ + entre_aspas(kw@));
            Err(Falha::Msg(m))
        }
    }

    /// Reads the character `ch`, which must come next after any whitespace.
    fn expect(&mut self, ch: char) -> (r: Result<(), Falha>)
        requires
            old(self).bem_formado(),
        ensures
            Parser::avancou(old(self), final(self)),
            confere_nada(r, espera(old(self).entrada(), old(self).posicao(), ch), final(self).posicao()),
            r is Ok ==> old(self).posicao() < final(self).posicao(),
    {
        proof {
            lemma_proximo(self.chars@, self.pos as int);
        }
        match self.next() {
            Some(c) => {
                if c == ch {
                    Ok(())
                } else {
                    let mut m = String::from_str("Esperado ");
                    empurra(&mut m, '\'');
                    empurra(&mut m, ch);
                    empurra(&mut m, '\'');
                    m.append(", mas encontrou ");
                    empurra(&mut m, '\'');
                    empurra(&mut m, c);
                    empurra(&mut m, '\'');
                    assert(m@ =~= "Esperado "@ + entre_aspas(seq![ch]) + ", mas encontrou "@
                        + entre_aspas(seq![c]));
                    Err(Falha::Msg(m))
                }
            },
            None => {
                let mut m = String::from_str("Esperado ");
                empurra(&mut m, '\'');
                empurra(&mut m, ch);
                empurra(&mut m, '\'');
                m.append(", mas fim da entrada");
                assert(m@ =~= "Esperado "@ + entre_aspas(seq![ch]) + ", mas fim da entrada"@);
                Err(Falha::Msg(m))
            },
        }
    }

    /// Reads an identifier: a letter, then letters and digits, each after any
    /// whitespace. At the end of the input the identifier is empty.
    fn parse_var(&mut self) -> (r: Result<String, Falha>)
        requires
            old(self).bem_formado(),
        ensures
            Parser::avancou(old(self), final(self)),
            confere(r, nome(old(self).entrada(), old(self).posicao()), final(self).posicao()),
    {
        let ghost s = self.chars@;
        let ghost p0 = self.pos as int;
        let mut nome_lido = String::new();
        match self.peek() {
            Some(c) => {
                if letra(c) {
                    let c2 = self.next();
                    match c2 {
                        Some(c3) => empurra(&mut nome_lido, c3),
                        None => {},
                    }
                    assert(nome_lido@ =~= seq![c]);
                } else {
                    return Err(Falha::Msg(String::from_str("Esperado identificador")));
                }
            },
            None => {
                proof {
                    lemma_pula_espacos(s, p0);
                }
            },
        }
        loop
            invariant
                self.chars@ == s,
                s == old(self).entrada(),
                p0 == old(self).posicao(),
                p0 <= self.pos <= self.chars.len(),
                nome(s, p0) == (if espia(s, p0) is Some {
                    let (n, r) = resto_nome(s, self.pos as int, nome_lido@);
                    Saida::Lido(n, r)
                } else {
                    Saida::Lido(nome_lido@, self.pos as int)
                }),
                espia(s, p0) is None ==> self.pos == p0 && espia(s, p0) == espia(s, self.pos as int),
            ensures
                self.chars@ == s,
                p0 <= self.pos <= self.chars.len(),
                nome(s, p0) == Saida::Lido(nome_lido@, self.pos as int),
            decreases self.chars.len() - self.pos,
        {
            let ghost antes = self.pos as int;
            match self.peek() {
                Some(c) => {
                    if alfanum(c) {
                        let c2 = self.next();
                        match c2 {
                            Some(c3) => empurra(&mut nome_lido, c3),
                            None => {},
                        }
                        proof {
                            lemma_pula_espacos(s, antes);
                        }
                    } else {
                        proof {
                            lemma_pula_espacos(s, antes);
                        }
                        break ;
                    }
                },
                None => {
                    proof {
                        lemma_pula_espacos(s, antes);
                    }
                    break ;
                },
            }
        }
        Ok(nome_lido)
    }

    /// Reads an integer constant: digits, each after any whitespace.
    fn parse_const(&mut self) -> (r: Result<Expr, Falha>)
        requires
            old(self).bem_formado(),
        ensures
            Parser::avancou(old(self), final(self)),
            confere(r, constante(old(self).entrada(), old(self).posicao()), final(self).posicao()),
    {
        let ghost s = self.chars@;
        let ghost p0 = self.pos as int;
        let mut valor: i32 = 0;
        loop
            invariant
                self.chars@ == s,
                s == old(self).entrada(),
                p0 == old(self).posicao(),
                p0 <= self.pos <= self.chars.len(),
                0 <= valor,
                resto_digitos(s, p0, 0) == resto_digitos(s, self.pos as int, valor as int),
            ensures
                self.chars@ == s,
                p0 <= self.pos <= self.chars.len(),
                resto_digitos(s, p0, 0) == (valor as int, self.pos as int),
            decreases self.chars.len() - self.pos,
        {
            let ghost antes = self.pos as int;
            proof {
                lemma_pula_espacos(s, antes);
            }
            match self.peek() {
                Some(c) => {
                    if digito(c) {
                        let d = valor_de_digito(c);
                        let v2: i64 = (valor as i64) * 10 + (d as i64);
                        let _ = self.next();
                        if v2 > 2147483647 {
                            proof {
                                lemma_resto_digitos(s, self.pos as int, v2 as int);
                            }
                            return Err(Falha::Estouro);
                        }
                        valor = v2 as i32;
                    } else {
                        break ;
                    }
                },
                None => {
                    break ;
                },
            }
        }
        Ok(Expr::Const(valor))
    }
    /// Reads a primary expression: a constant, a variable, a call, or an
    /// expression between parentheses.
    #[verifier::loop_isolation(false)]
    fn le_prim(&mut self) -> (r: Result<Expr, Falha>)
        requires
            old(self).bem_formado(),
        ensures
            Parser::avancou(old(self), final(self)),
            confere(r, prim(old(self).entrada(), old(self).posicao()), final(self).posicao()),
        decreases old(self).restante(), 1int,
    {
        let ghost s = self.chars@;
        let ghost p = self.pos as int;
        proof {
            lemma_pula_espacos(s, p);
        }
        match self.peek() {
            Some(c) => {
                if digito(c) {
                    self.parse_const()
                } else if letra(c) {
                    proof {
                        lemma_nome(s, p);
                    }
                    let nome_lido = self.parse_var()?;
                    let ghost p1 = self.pos as int;
                    if self.peek_eh('(') {
                        let _ = self.next();
                        let ghost p2 = self.pos as int;
                        let mut args: Vec<Expr> = Vec::new();
                        if !self.peek_eh(')') {
                            let a = self.le_expr()?;
                            let ghost q = self.pos as int;
                            args.push(a);
                            proof {
                                lemma_modelo_exprs_push(Seq::empty(), a);
                                assert(Seq::<Expr>::empty().push(a) == args@);
                            }
                            while self.peek_eh(',')
                                invariant
                                    self.chars@ == s,
                                    p2 <= q <= self.pos <= self.chars.len(),
                                    resto_args(s, q, seq![modelo_expr(a)]) == resto_args(
                                        s,
                                        self.pos as int,
                                        modelo_exprs(args@),
                                    ),
                                decreases self.chars.len() - self.pos,
                            {
                                let ghost antes = self.pos as int;
                                let _ = self.next();
                                let b = self.le_expr()?;
                                proof {
                                    lemma_modelo_exprs_push(args@, b);
                                }
                                args.push(b);
                            }
                        } else {
                            proof {
                                lemma_modelo_exprs_push(Seq::empty(), Expr::Const(0));
                            }
                        }
                        self.expect(')')?;
                        Ok(Expr::Call { nome: nome_lido, args })
                    } else {
                        Ok(Expr::Var(nome_lido))
                    }
                } else if c == '(' {
                    let _ = self.next();
                    let e = self.le_expr()?;
                    self.expect(')')?;
                    Ok(e)
                } else {
                    let mut m = String::from_str("Token inesperado: ");
                    empurra(&mut m, '\'');
                    empurra(&mut m, c);
                    empurra(&mut m, '\'');
                    assert(m@ =~= "Token inesperado: "@ + entre_aspas(seq![c]));
                    Err(Falha::Msg(m))
                }
            },
            None => Err(Falha::Msg(String::from_str("Fim inesperado"))),
        }
    }

    /// Reads a multiplicative expression: primaries joined, from the left,
    /// by `*` and `/`.
    fn le_exp_m(&mut self) -> (r: Result<Expr, Falha>)
        requires
            old(self).bem_formado(),
        ensures
            Parser::avancou(old(self), final(self)),
            confere(r, exp_m(old(self).entrada(), old(self).posicao()), final(self).posicao()),
        decreases old(self).restante(), 3int,
    {
        let ghost s = self.chars@;
        let ghost p = self.pos as int;
        let mut e = self.le_prim()?;
        loop
            invariant
                self.chars@ == s,
                s == old(self).entrada(),
                p == old(self).posicao(),
                p <= self.pos <= self.chars.len(),
                exp_m(s, p) == resto_m(s, self.pos as int, e@),
            ensures
                self.chars@ == s,
                p <= self.pos <= self.chars.len(),
                exp_m(s, p) == Saida::Lido(e@, self.pos as int),
            decreases self.chars.len() - self.pos,
        {
            match self.peek() {
                Some(c) => {
                    if c == '*' || c == '/' {
                        let _ = self.next();
                        let mut op = String::new();
                        empurra(&mut op, c);
                        let d = self.le_prim()?;
                        e = Expr::OpBin { operador: op, esq: Box::new(e), dir: Box::new(d) };
                    } else {
                        break ;
                    }
                },
                None => {
                    break ;
                },
            }
        }
        Ok(e)
    }

    /// Reads an additive expression: terms joined, from the left, by `+` and `-`.
    fn le_exp_a(&mut self) -> (r: Result<Expr, Falha>)
        requires
            old(self).bem_formado(),
        ensures
            Parser::avancou(old(self), final(self)),
            confere(r, exp_a(old(self).entrada(), old(self).posicao()), final(self).posicao()),
        decreases old(self).restante(), 5int,
    {
        let ghost s = self.chars@;
        let ghost p = self.pos as int;
        let mut e = self.le_exp_m()?;
        loop
            invariant
                self.chars@ == s,
                s == old(self).entrada(),
                p == old(self).posicao(),
                p <= self.pos <= self.chars.len(),
                exp_a(s, p) == resto_a(s, self.pos as int, e@),
            ensures
                self.chars@ == s,
                p <= self.pos <= self.chars.len(),
                exp_a(s, p) == Saida::Lido(e@, self.pos as int),
            decreases self.chars.len() - self.pos,
        {
            match self.peek() {
                Some(c) => {
                    if c == '+' || c == '-' {
                        let _ = self.next();
                        let mut op = String::new();
                        empurra(&mut op, c);
                        let d = self.le_exp_m()?;
                        e = Expr::OpBin { operador: op, esq: Box::new(e), dir: Box::new(d) };
                    } else {
                        break ;
                    }
                },
                None => {
                    break ;
                },
            }
        }
        Ok(e)
    }

    /// Reads an expression: additive expressions joined, from the left, by
    /// `==`, `<` and `>`.
    fn le_expr(&mut self) -> (r: Result<Expr, Falha>)
        requires
            old(self).bem_formado(),
        ensures
            Parser::avancou(old(self), final(self)),
            confere(r, expr(old(self).entrada(), old(self).posicao()), final(self).posicao()),
        decreases old(self).restante(), 8int,
    {
        let ghost s = self.chars@;
        let ghost p = self.pos as int;
        let mut e = self.le_exp_a()?;
        loop
            invariant
                self.chars@ == s,
                s == old(self).entrada(),
                p == old(self).posicao(),
                p <= self.pos <= self.chars.len(),
                expr(s, p) == resto_expr(s, self.pos as int, e@),
            ensures
                self.chars@ == s,
                p <= self.pos <= self.chars.len(),
                expr(s, p) == Saida::Lido(e@, self.pos as int),
            decreases self.chars.len() - self.pos,
        {
            let ghost antes = self.pos as int;
            let mut op = String::new();
            match self.peek() {
                Some(c) => {
                    if c == '=' {
                        let _ = self.next();
                        let ghost p1 = self.pos as int;
                        let c2 = self.next();
                        let igual = match c2 {
                            Some(x) => x == '=',
                            None => false,
                        };
                        if !igual {
                            return Err(Falha::Msg(String::from_str("Erro: operador = mal formado")));
                        }
                        empurra(&mut op, '=');
                        empurra(&mut op, '=');
                        assert(op@ =~= seq!['=', '=']);
                    } else if c == '<' || c == '>' {
                        let _ = self.next();
                        empurra(&mut op, c);
                    } else {
                        break ;
                    }
                },
                None => {
                    break ;
                },
            }
            let d = self.le_exp_a()?;
            e = Expr::OpBin { operador: op, esq: Box::new(e), dir: Box::new(d) };
        }
        Ok(e)
    }
    /// Reads a command: `if`, `while` or an assignment.
    #[verifier::loop_isolation(false)]
    fn le_cmd(&mut self) -> (r: Result<Cmd, Falha>)
        requires
            old(self).bem_formado(),
        ensures
            Parser::avancou(old(self), final(self)),
            confere(r, cmd(old(self).entrada(), old(self).posicao()), final(self).posicao()),
            r is Ok ==> old(self).posicao() < final(self).posicao(),
        decreases old(self).restante(), 0int,
    {
        let ghost s = self.chars@;
        let ghost p = self.pos as int;
        if self.parse_kw("if") {
            let cond = self.le_expr()?;
            self.expect('{')?;
            let ghost q2 = self.pos as int;
            let mut then_cmds: Vec<Cmd> = Vec::new();
            assert(modelo_cmds(Seq::<Cmd>::empty()) == Seq::<CmdS>::empty());
            while !self.peek_eh('}')
                invariant
                    self.chars@ == s,
                    p < q2 <= self.pos <= self.chars.len(),
                    bloco(s, q2, Seq::empty()) == bloco(s, self.pos as int, modelo_cmds(then_cmds@)),
                decreases self.chars.len() - self.pos,
            {
                let c = self.le_cmd()?;
                proof {
                    lemma_modelo_cmds_push(then_cmds@, c);
                }
                then_cmds.push(c);
            }
            self.expect('}')?;
            self.expect_kw("else")?;
            self.expect('{')?;
            let ghost q6 = self.pos as int;
            let mut else_cmds: Vec<Cmd> = Vec::new();
            while !self.peek_eh('}')
                invariant
                    self.chars@ == s,
                    p < q6 <= self.pos <= self.chars.len(),
                    bloco(s, q6, Seq::empty()) == bloco(s, self.pos as int, modelo_cmds(else_cmds@)),
                decreases self.chars.len() - self.pos,
            {
                let c = self.le_cmd()?;
                proof {
                    lemma_modelo_cmds_push(else_cmds@, c);
                }
                else_cmds.push(c);
            }
            self.expect('}')?;
            Ok(Cmd::If { cond, then_cmds, else_cmds })
        } else if self.parse_kw("while") {
            let cond = self.le_expr()?;
            self.expect('{')?;
            let ghost q2 = self.pos as int;
            let mut body: Vec<Cmd> = Vec::new();
            assert(modelo_cmds(Seq::<Cmd>::empty()) == Seq::<CmdS>::empty());
            while !self.peek_eh('}')
                invariant
                    self.chars@ == s,
                    p < q2 <= self.pos <= self.chars.len(),
                    bloco(s, q2, Seq::empty()) == bloco(s, self.pos as int, modelo_cmds(body@)),
                decreases self.chars.len() - self.pos,
            {
                let c = self.le_cmd()?;
                proof {
                    lemma_modelo_cmds_push(body@, c);
                }
                body.push(c);
            }
            self.expect('}')?;
            Ok(Cmd::While { cond, body })
        } else {
            let nome_lido = self.parse_var()?;
            self.expect('=')?;
            let expr = self.le_expr()?;
            self.expect(';')?;
            Ok(Cmd::Atrib { nome: nome_lido, expr })
        }
    }
    /// Reads a declaration `nome = expr;`, after its keyword `var`.
    fn le_definicao(&mut self) -> (r: Result<(String, Expr), Falha>)
        requires
            old(self).bem_formado(),
        ensures
            Parser::avancou(old(self), final(self)),
            confere_com(
                r,
                definicao(old(self).entrada(), old(self).posicao()),
                final(self).posicao(),
                |d: (String, Expr)| (d.0@, modelo_expr(d.1)),
            ),
            r is Ok ==> old(self).posicao() < final(self).posicao(),
    {
        let nome_var = self.parse_var()?;
        self.expect('=')?;
        let valor = self.le_expr()?;
        self.expect(';')?;
        Ok((nome_var, valor))
    }

    /// Reads the commands up to the keyword `return`, which is read too.
    fn le_corpo(&mut self) -> (r: Result<Vec<Cmd>, Falha>)
        requires
            old(self).bem_formado(),
        ensures
            Parser::avancou(old(self), final(self)),
            confere_com(
                r,
                corpo(old(self).entrada(), old(self).posicao(), Seq::empty()),
                final(self).posicao(),
                |v: Vec<Cmd>| modelo_cmds(v@),
            ),
    {
        let ghost s = self.chars@;
        let ghost p = self.pos as int;
        let mut comandos: Vec<Cmd> = Vec::new();
        assert(modelo_cmds(comandos@) == Seq::<CmdS>::empty());
        loop
            invariant_except_break
                corpo(s, p, Seq::empty()) == corpo(s, self.pos as int, modelo_cmds(comandos@)),
            invariant
                self.chars@ == s,
                s == old(self).entrada(),
                p == old(self).posicao(),
                p <= self.pos <= self.chars.len(),
            ensures
                self.chars@ == s,
                p <= self.pos <= self.chars.len(),
                corpo(s, p, Seq::empty()) == Saida::Lido(modelo_cmds(comandos@), self.pos as int),
            decreases self.chars.len() - self.pos,
        {
            if self.parse_kw("return") {
                break ;
            }
            let c = self.le_cmd()?;
            proof {
                lemma_modelo_cmds_push(comandos@, c);
            }
            comandos.push(c);
        }
        Ok(comandos)
    }

    /// Reads a function definition after the keyword `fun`.
    #[verifier::loop_isolation(false)]
    fn le_fundecl(&mut self) -> (r: Result<FunDecl, Falha>)
        requires
            old(self).bem_formado(),
        ensures
            Parser::avancou(old(self), final(self)),
            confere(r, fundecl(old(self).entrada(), old(self).posicao()), final(self).posicao()),
            r is Ok ==> old(self).posicao() < final(self).posicao(),
    {
        let ghost s = self.chars@;
        let ghost p = self.pos as int;
        let nome_lido = self.parse_var()?;
        self.expect('(')?;
        let ghost q2 = self.pos as int;
        let mut parametros: Vec<String> = Vec::new();
        assert(modelo_nomes(parametros@) == Seq::<Seq<char>>::empty());
        if !self.peek_eh(')') {
            let n0 = self.parse_var()?;
            let ghost q3 = self.pos as int;
            proof {
                lemma_modelo_nomes_push(parametros@, n0);
            }
            parametros.push(n0);
            while self.peek_eh(',')
                invariant
                    self.chars@ == s,
                    q2 <= q3 <= self.pos <= self.chars.len(),
                    resto_params(s, q3, seq![n0@]) == resto_params(
                        s,
                        self.pos as int,
                        modelo_nomes(parametros@),
                    ),
                decreases self.chars.len() - self.pos,
            {
                let _ = self.next();
                let n = self.parse_var()?;
                proof {
                    lemma_modelo_nomes_push(parametros@, n);
                }
                parametros.push(n);
            }
        }
        self.expect(')')?;
        self.expect('{')?;
        let ghost q5 = self.pos as int;
        let mut variaveis: Vec<(String, Expr)> = Vec::new();
        assert(modelo_defs(variaveis@) == Seq::<(Seq<char>, ExprS)>::empty());
        while self.parse_kw("var")
            invariant
                self.chars@ == s,
                q5 <= self.pos <= self.chars.len(),
                resto_vars(s, q5, Seq::empty()) == resto_vars(
                    s,
                    self.pos as int,
                    modelo_defs(variaveis@),
                ),
            decreases self.chars.len() - self.pos,
        {
            let d = self.le_definicao()?;
            proof {
                lemma_modelo_defs_push(variaveis@, d);
            }
            variaveis.push(d);
        }
        let comandos = self.le_corpo()?;
        let retorno = self.le_expr()?;
        self.expect(';')?;
        self.expect('}')?;
        Ok(FunDecl { nome: nome_lido, parametros, variaveis, comandos, retorno })
    }

    /// Reads the global declarations and functions up to the keyword `main`,
    /// which is read too.
    fn le_topo(&mut self) -> (r: Result<(Vec<(String, Expr)>, Vec<FunDecl>), Falha>)
        requires
            old(self).bem_formado(),
        ensures
            Parser::avancou(old(self), final(self)),
            confere_com(
                r,
                topo(old(self).entrada(), old(self).posicao(), Seq::empty(), Seq::empty()),
                final(self).posicao(),
                |t: (Vec<(String, Expr)>, Vec<FunDecl>)| (modelo_defs(t.0@), modelo_fundecls(t.1@)),
            ),
    {
        let ghost s = self.chars@;
        let ghost p = self.pos as int;
        let mut globais: Vec<(String, Expr)> = Vec::new();
        let mut funcoes: Vec<FunDecl> = Vec::new();
        assert(modelo_defs(globais@) == Seq::<(Seq<char>, ExprS)>::empty());
        assert(modelo_fundecls(funcoes@) == Seq::<FunDeclS>::empty());
        loop
            invariant_except_break
                topo(s, p, Seq::empty(), Seq::empty()) == topo(
                    s,
                    self.pos as int,
                    modelo_defs(globais@),
                    modelo_fundecls(funcoes@),
                ),
            invariant
                self.chars@ == s,
                s == old(self).entrada(),
                p == old(self).posicao(),
                p <= self.pos <= self.chars.len(),
            ensures
                self.chars@ == s,
                p <= self.pos <= self.chars.len(),
                topo(s, p, Seq::empty(), Seq::empty()) == Saida::Lido(
                    (modelo_defs(globais@), modelo_fundecls(funcoes@)),
                    self.pos as int,
                ),
            decreases self.chars.len() - self.pos,
        {
            if self.parse_kw("main") {
                break ;
            } else if self.parse_kw("var") {
                let d = self.le_definicao()?;
                proof {
                    lemma_modelo_defs_push(globais@, d);
                }
                globais.push(d);
            } else if self.parse_kw("fun") {
                let f = self.le_fundecl()?;
                proof {
                    lemma_modelo_fundecls_push(funcoes@, f);
                }
                funcoes.push(f);
            } else {
                return Err(Falha::Msg(String::from_str("Esperado 'fun', 'var' ou 'main'")));
            }
        }
        Ok((globais, funcoes))
    }

    /// Reads a whole program: globals and functions, then `main`.
    fn le_programa(&mut self) -> (r: Result<Programa, Falha>)
        requires
            old(self).bem_formado(),
        ensures
            Parser::avancou(old(self), final(self)),
            confere(r, programa(old(self).entrada(), old(self).posicao()), final(self).posicao()),
    {
        let (globais, funcoes) = self.le_topo()?;
        self.expect('{')?;
        let cmds = self.le_corpo()?;
        let retorno = self.le_expr()?;
        self.expect(';')?;
        self.expect('}')?;
        Ok(Programa { globais, funcoes, principal: cmds, retorno })
    }

    /// Reads an expression. An integer constant that does not fit in an
    /// `i32` would overflow the reading, and `requires` leaves it out.
    pub fn parse_expr(&mut self) -> (r: Result<Expr, String>)
        requires
            old(self).bem_formado(),
            expr(old(self).entrada(), old(self).posicao()) !is Estouro,
        ensures
            Parser::avancou(old(self), final(self)),
            confere_texto(r, expr(old(self).entrada(), old(self).posicao()), final(self).posicao()),
    {
        match self.le_expr() {
            Ok(e) => Ok(e),
            Err(Falha::Msg(m)) => Err(m),
            Err(Falha::Estouro) => unreached(),
        }
    }

    /// Reads a command: `if`, `while` or an assignment.
    pub fn parse_cmd(&mut self) -> (r: Result<Cmd, String>)
        requires
            old(self).bem_formado(),
            cmd(old(self).entrada(), old(self).posicao()) !is Estouro,
        ensures
            Parser::avancou(old(self), final(self)),
            confere_texto(r, cmd(old(self).entrada(), old(self).posicao()), final(self).posicao()),
    {
        match self.le_cmd() {
            Ok(c) => Ok(c),
            Err(Falha::Msg(m)) => Err(m),
            Err(Falha::Estouro) => unreached(),
        }
    }

    /// Reads a whole program: global declarations and functions, then the
    /// `main` block with its `return`.
    pub fn parse_programa(&mut self) -> (r: Result<Programa, String>)
        requires
            old(self).bem_formado(),
            programa(old(self).entrada(), old(self).posicao()) !is Estouro,
        ensures
            Parser::avancou(old(self), final(self)),
            confere_texto(r, programa(old(self).entrada(), old(self).posicao()), final(self).posicao()),
    {
        match self.le_programa() {
            Ok(p) => Ok(p),
            Err(Falha::Msg(m)) => Err(m),
            Err(Falha::Estouro) => unreached(),
        }
    }

    /// Reads a whole program, as [`Parser::parse_programa`] does, from any
    /// input: `None` where an integer constant does not fit in an `i32`.
    pub fn tenta_parse_programa(&mut self) -> (r: Option<Result<Programa, String>>)
        requires
            old(self).bem_formado(),
        ensures
            Parser::avancou(old(self), final(self)),
            programa(old(self).entrada(), old(self).posicao()) is Estouro <==> r is None,
            r matches Some(res) ==> confere_texto(
                res,
                programa(old(self).entrada(), old(self).posicao()),
                final(self).posicao(),
            ),
    {
        match self.le_programa() {
            Ok(p) => Some(Ok(p)),
            Err(Falha::Msg(m)) => Some(Err(m)),
            Err(Falha::Estouro) => None,
        }
    }
}

} // verus!
