//! A compiler for the small Fun language: a recursive-descent parser that
//! builds the syntax tree, and a generator of x86-64 assembly.
pub mod ast;
pub mod caracteres;
pub mod texto;
pub mod gramatica;
pub mod parser;
pub mod codegen;
pub mod leis;
pub mod leis_programa;
pub mod leis_compilacao;
pub mod compilador;
pub mod maquina;
pub mod leis_semantica;
pub mod leis_codigo;
pub mod leis_controle;
pub mod leis_rotulos;
