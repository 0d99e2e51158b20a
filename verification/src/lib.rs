//! The Clifford compiler: semantic checks, effect analysis and code generation.
//!
//! A resolved and typed program ([`ast`], [`resolve`], [`types`]) is checked
//! ([`check`]), its automatons and callables are analysed ([`effect`]), and
//! LLVM IR text is generated for it ([`codegen`]). [`driver`] runs these phases
//! in order and [`cli`] reads the command line.
pub mod ast;
pub mod check;
pub mod cli;
pub mod codegen;
pub mod collections;
pub mod driver;
pub mod effect;
pub mod order;
pub mod resolve;
pub mod syntax;
pub mod text;
pub mod types;
