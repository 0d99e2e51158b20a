//! The language from source text to checks, analysis and generated code.
//!
//! A small front end for the constructs that the programs below use turns their
//! source text into the library's syntax tree, with names resolved and types
//! inferred.
use std::collections::HashSet;

use cliffordc::ast::{
    AccessType, AddressClause, ArraySize, ArrayType, AssignOp, AtomicKind, AutomatonDecl,
    AutomatonField, BasisClause, BinaryOp, Block, EffectDecl, Expr, ExprKind, FieldAssign,
    FieldKind, FnDecl, InterruptDecl, Item, Param, PathType, PrimitiveType, PriorityLevel,
    Program, RefType, SliceType, Span, StateName, Stmt, StmtKind, TraitRef, TransitionDecl,
    TupleType, TypeBody, TypeDecl, TypeExpr, TypeKind, UnaryOp,
};
use cliffordc::check::{check, CheckError};
use cliffordc::codegen::error::CodegenError;
use cliffordc::codegen::irtype::{array_element_ir_type, int_bits, type_expr_is_signed_int};
use cliffordc::codegen::literal::{const_int_count, parse_address_literal};
use cliffordc::codegen::lower;
use cliffordc::codegen::registry::AutomatonInfo;
use cliffordc::driver::{analyse, generate, CompileError};
use cliffordc::effect::callable::{CallableId, FieldRef};
use cliffordc::effect::callgraph::{extract_call_graph, ProcCallGraph};
use cliffordc::effect::category::{extract_categories, Categories};
use cliffordc::effect::error::EffectError;
use cliffordc::effect::overlap::{compute_interrupt_overlap, InterruptOverlap};
use cliffordc::effect::profile::{extract_mutation_profiles, MutationProfiles};
use cliffordc::resolve::{BindingRef, CallContext, Resolution, Symbol, SymbolKind};
use cliffordc::types::{Type, Typing};

// ─── Tokens ────────────────────────────────────────────────────────────────

#[derive(Debug, Clone, PartialEq)]
enum Tok {
    Ident(String),
    Hash(String),
    At(String),
    Number(String),
    Text(String),
    Punct(&'static str),
}

const PUNCTS: [&str; 45] = [
    "..=", "<<=", ">>=", "#>", ":=", "->", "..", "==", "!=", "<=", ">=", "&&", "||", "<<", ">>",
    "+=", "-=", "*=", "/=", "%=", "&=", "|=", "^=", "(", ")", "{", "}", "[", "]", ":", ";", ",",
    ".", "=", "<", ">", "&", "|", "^", "+", "-", "*", "/", "%", "!",
];

fn is_word(c: u8) -> bool {
    c.is_ascii_alphanumeric() || c == b'_'
}

fn tokenize(src: &str) -> Vec<(Tok, Span)> {
    let b = src.as_bytes();
    let mut out = Vec::new();
    let mut i = 0;
    while i < b.len() {
        if b[i].is_ascii_whitespace() {
            i += 1;
            continue;
        }
        if src[i..].starts_with("//") {
            while i < b.len() && b[i] != b'\n' {
                i += 1;
            }
            continue;
        }
        let start = i;
        let tok = if b[i] == b'"' {
            i += 1;
            while b[i] != b'"' {
                i += 1;
            }
            i += 1;
            Tok::Text(src[start + 1..i - 1].to_owned())
        } else if (b[i] == b'#' || b[i] == b'@') && i + 1 < b.len() && is_word(b[i + 1]) {
            i += 1;
            while i < b.len() && is_word(b[i]) {
                i += 1;
            }
            let word = src[start + 1..i].to_owned();
            if b[start] == b'#' {
                Tok::Hash(word)
            } else {
                Tok::At(word)
            }
        } else if is_word(b[i]) {
            while i < b.len() && is_word(b[i]) {
                i += 1;
            }
            let word = src[start..i].to_owned();
            if b[start].is_ascii_digit() {
                Tok::Number(word)
            } else {
                Tok::Ident(word)
            }
        } else if b[i] == b'$' {
            i += 1;
            Tok::Punct("$")
        } else if b[i] == b'~' {
            i += 1;
            Tok::Punct("~")
        } else {
            let p = PUNCTS
                .iter()
                .find(|p| src[i..].starts_with(**p))
                .unwrap_or_else(|| panic!("unexpected text at {}: {}", i, &src[i..]));
            i += p.len();
            Tok::Punct(p)
        };
        out.push((tok, Span::new(start, i)));
    }
    out
}

// ─── Syntax tree ───────────────────────────────────────────────────────────

struct Parser {
    toks: Vec<(Tok, Span)>,
    at: usize,
}

impl Parser {
    fn peek(&self) -> Option<&Tok> {
        self.toks.get(self.at).map(|t| &t.0)
    }

    fn start(&self) -> usize {
        self.toks.get(self.at).map(|t| t.1.start).unwrap_or(0)
    }

    fn span_from(&self, start: usize) -> Span {
        Span::new(start, self.toks[self.at - 1].1.end)
    }

    fn is(&self, p: &str) -> bool {
        matches!(self.peek(), Some(Tok::Punct(q)) if *q == p)
    }

    fn is_hash(&self, w: &str) -> bool {
        matches!(self.peek(), Some(Tok::Hash(x)) if x == w)
    }

    fn eat(&mut self, p: &str) -> bool {
        let hit = self.is(p);
        if hit {
            self.at += 1;
        }
        hit
    }

    fn eat_hash(&mut self, w: &str) -> bool {
        let hit = self.is_hash(w);
        if hit {
            self.at += 1;
        }
        hit
    }

    fn eat_word(&mut self, w: &str) -> bool {
        let hit = matches!(self.peek(), Some(Tok::Ident(x)) if x == w);
        if hit {
            self.at += 1;
        }
        hit
    }

    fn need(&mut self, p: &str) {
        assert!(self.eat(p), "expected {} at {:?}", p, self.toks.get(self.at));
    }

    fn ident(&mut self) -> String {
        match self.peek().cloned() {
            Some(Tok::Ident(x)) => {
                self.at += 1;
                x
            }
            other => panic!("expected a name, found {other:?}"),
        }
    }

    fn number(&mut self) -> String {
        match self.peek().cloned() {
            Some(Tok::Number(x)) => {
                self.at += 1;
                x
            }
            other => panic!("expected a number, found {other:?}"),
        }
    }

    fn names(&mut self) -> Vec<(String, Span)> {
        self.need("[");
        let mut out = Vec::new();
        while !self.eat("]") {
            let start = self.start();
            let name = self.ident();
            out.push((name, self.span_from(start)));
            self.eat(",");
        }
        out
    }

    fn program(&mut self) -> Program {
        let mut items = Vec::new();
        while self.peek().is_some() {
            items.push(self.item());
        }
        let end = self.toks.last().map(|t| t.1.end).unwrap_or(0);
        Program { span: Span::new(0, end), items }
    }

    fn item(&mut self) -> Item {
        let start = self.start();
        let mut staged = false;
        let mut audited = false;
        let mut partial = false;
        loop {
            match self.peek().cloned() {
                Some(Tok::Hash(w)) if w == "staged" => {
                    staged = true;
                    self.at += 1;
                }
                Some(Tok::Hash(w)) if w == "audit" => {
                    audited = true;
                    self.at += 1;
                }
                Some(Tok::At(w)) if w == "partial" => {
                    partial = true;
                    self.at += 1;
                }
                Some(Tok::At(w)) if w == "fn" => {
                    self.at += 1;
                    return Item::Fn(self.function(start, partial));
                }
                Some(Tok::At(w)) if w == "type" => {
                    self.at += 1;
                    let name = self.ident();
                    self.need("=");
                    let ty = self.ty();
                    self.need(";");
                    return Item::Type(TypeDecl {
                        name,
                        generic_params: Vec::new(),
                        body: TypeBody::Alias(ty),
                        span: self.span_from(start),
                    });
                }
                Some(Tok::Hash(w)) if w == "automaton" => {
                    self.at += 1;
                    return Item::Automaton(self.automaton(start, staged, audited));
                }
                Some(Tok::Hash(w)) if w == "effect" || w == "interrupt" => {
                    self.at += 1;
                    return self.callable(start, w == "interrupt");
                }
                other => panic!("unexpected item start {other:?}"),
            }
        }
    }

    fn params(&mut self) -> Vec<Param> {
        self.need("(");
        let mut out = Vec::new();
        while !self.eat(")") {
            let start = self.start();
            let mutable = self.eat_word("mut");
            let name = self.ident();
            self.need(":");
            let ty = self.ty();
            out.push(Param { mutable, name, ty, span: self.span_from(start) });
            self.eat(",");
        }
        out
    }

    fn traits(&mut self) -> Vec<TraitRef> {
        self.names()
            .into_iter()
            .map(|(name, span)| TraitRef { name, generic_args: Vec::new(), span })
            .collect()
    }

    fn function(&mut self, start: usize, partial: bool) -> FnDecl {
        let name = self.ident();
        let params = self.params();
        let return_type = if self.eat("->") { Some(self.ty()) } else { None };
        let trait_list = if self.eat("$") { self.traits() } else { Vec::new() };
        let body = self.block();
        FnDecl { name, params, return_type, trait_list, partial, body, span: self.span_from(start) }
    }

    fn atomic(&mut self) -> AtomicKind {
        self.need(":");
        let kind = self.ident();
        self.need(";");
        match kind.as_str() {
            "interrupt_critical" => AtomicKind::InterruptCritical,
            "multicore_critical" => AtomicKind::MulticoreCritical,
            _ => AtomicKind::Custom(kind),
        }
    }

    fn callable(&mut self, start: usize, interrupt: bool) -> Item {
        let name = self.ident();
        let params = self.params();
        let return_type = if self.eat("->") { Some(self.ty()) } else { None };
        let mut mutates = Vec::new();
        let mut cannot_mutate = Vec::new();
        let mut trait_list = Vec::new();
        let mut atomic = None;
        let mut priority = PriorityLevel::Medium;
        while !self.is("{") {
            if self.eat_hash("mutates") {
                self.need(":");
                mutates = self.names().into_iter().map(|n| n.0).collect();
            } else if self.eat_hash("cannot_mutate") {
                self.need(":");
                cannot_mutate = self.names().into_iter().map(|n| n.0).collect();
            } else if self.eat_hash("priority") {
                self.need(":");
                priority = match self.ident().as_str() {
                    "HIGH" => PriorityLevel::High,
                    "LOW" => PriorityLevel::Low,
                    _ => PriorityLevel::Medium,
                };
            } else if self.eat_hash("atomic") {
                atomic = Some(self.atomic());
            } else {
                self.need("$");
                trait_list = self.traits();
            }
        }
        let body = self.block();
        let span = self.span_from(start);
        if interrupt {
            Item::Interrupt(InterruptDecl {
                name,
                params,
                return_type,
                mutates,
                priority,
                trait_list,
                atomic,
                body,
                span,
            })
        } else {
            Item::Effect(EffectDecl {
                name,
                params,
                return_type,
                mutates,
                cannot_mutate,
                trait_list,
                atomic,
                body,
                span,
            })
        }
    }

    fn automaton(&mut self, start: usize, staged: bool, audited: bool) -> AutomatonDecl {
        let name = self.ident();
        let mut d = AutomatonDecl {
            name,
            address: None,
            basis: None,
            states: None,
            fields: Vec::new(),
            transitions: Vec::new(),
            staged,
            audited,
            span: Span::new(0, 0),
        };
        self.need("{");
        while !self.eat("}") {
            let at = self.start();
            if self.eat_hash("states") {
                self.need(":");
                let names = self.names();
                self.need(";");
                d.states =
                    Some(names.into_iter().map(|(name, span)| StateName { name, span }).collect());
            } else if self.eat_hash("basis") {
                self.need(":");
                let name = self.ident();
                self.need(";");
                d.basis = Some(BasisClause { name, span: self.span_from(at) });
            } else if self.eat_hash("address") {
                self.need(":");
                let value = self.number();
                self.need(";");
                d.address = Some(AddressClause { value, span: self.span_from(at) });
            } else if self.eat_hash("transition") {
                let name = self.ident();
                let destination = if self.eat("->") { Some(self.ident()) } else { None };
                let mut trait_list = Vec::new();
                let mut atomic = None;
                while !self.is("{") {
                    if self.eat_hash("atomic") {
                        atomic = Some(self.atomic());
                    } else {
                        self.need("$");
                        trait_list = self.traits();
                    }
                }
                let body = self.block();
                d.transitions.push(TransitionDecl {
                    name,
                    destination,
                    trait_list,
                    atomic,
                    body,
                    span: self.span_from(at),
                });
            } else {
                let name = self.ident();
                self.need(":");
                let ty = self.ty();
                let mut offset = None;
                if self.eat_hash("offset") {
                    self.need(":");
                    offset = Some(self.number());
                }
                self.need(";");
                d.fields.push(AutomatonField {
                    name,
                    ty,
                    offset,
                    access: None,
                    kind: FieldKind::Private,
                    hidden: false,
                    span: self.span_from(at),
                });
            }
        }
        d.span = self.span_from(start);
        d
    }

    fn ty(&mut self) -> TypeExpr {
        let start = self.start();
        let kind = if self.eat("&") {
            let mutable = self.eat_word("mut");
            TypeKind::Ref(RefType { mutable, inner: Box::new(self.ty()) })
        } else if self.eat("[") {
            let element = Box::new(self.ty());
            if self.eat(";") {
                let size = ArraySize::IntLiteral(self.number());
                self.need("]");
                TypeKind::Array(ArrayType { element, size })
            } else {
                self.need("]");
                TypeKind::Slice(SliceType { element })
            }
        } else if self.eat("(") {
            let mut elements = Vec::new();
            while !self.eat(")") {
                elements.push(self.ty());
                self.eat(",");
            }
            if elements.is_empty() {
                TypeKind::Unit
            } else {
                TypeKind::Tuple(TupleType { elements })
            }
        } else {
            let name = self.ident();
            if name == "access" {
                self.need("<");
                let inner = Box::new(self.ty());
                self.need(">");
                TypeKind::Access(AccessType { is_const: false, inner })
            } else {
                match primitive(&name) {
                    Some(p) => TypeKind::Primitive(p),
                    None => TypeKind::Path(PathType {
                        segments: vec![name],
                        generic_args: Vec::new(),
                    }),
                }
            }
        };
        TypeExpr { kind, span: self.span_from(start) }
    }

    fn block(&mut self) -> Block {
        let start = self.start();
        self.need("{");
        let mut stmts = Vec::new();
        while !self.eat("}") {
            stmts.push(self.stmt());
        }
        Block { stmts, span: self.span_from(start) }
    }

    fn stmt(&mut self) -> Stmt {
        let start = self.start();
        let kind = if self.eat_word("let") {
            let mutable = self.eat_word("mut");
            let name = self.ident();
            if self.eat(":=") {
                let value = self.expr();
                self.need(";");
                StmtKind::LetShort { name, value }
            } else {
                let ty = if self.eat(":") { Some(self.ty()) } else { None };
                self.need("=");
                let value = self.expr();
                self.need(";");
                StmtKind::Let { mutable, name, ty, value }
            }
        } else if self.eat_word("return") {
            if self.eat(";") {
                StmtKind::Return(None)
            } else {
                let e = self.expr();
                self.need(";");
                StmtKind::Return(Some(e))
            }
        } else if self.eat_word("if") {
            self.conditional()
        } else if self.eat_word("sigma") {
            let var = self.ident();
            assert!(self.eat_word("in"));
            let source = self.expr();
            let body = self.block();
            StmtKind::Sigma { var, source, body }
        } else if self.eat_word("break") {
            self.need(";");
            StmtKind::Break
        } else if self.eat_word("continue") {
            self.need(";");
            StmtKind::Continue
        } else if self.eat_hash("mutate") {
            let automaton = self.ident();
            self.need("{");
            let mut assigns = Vec::new();
            while !self.eat("}") {
                let at = self.start();
                let field = self.ident();
                let index = if self.eat("[") {
                    let e = self.expr();
                    self.need("]");
                    Some(e)
                } else {
                    None
                };
                self.need("=");
                let value = self.expr();
                assigns.push(FieldAssign { field, index, value, span: self.span_from(at) });
                self.eat(",");
            }
            self.need(";");
            StmtKind::Mutate { automaton, assigns }
        } else if self.eat("#>") {
            let name = self.ident();
            let args = self.args();
            self.need(";");
            StmtKind::ProcCall { name, args }
        } else if self.eat_hash("flush") {
            let automaton = self.ident();
            self.need(";");
            StmtKind::Flush { automaton }
        } else if self.is_hash("unchecked_store") || self.is_hash("volatile_store") {
            let volatile = self.is_hash("volatile_store");
            self.at += 1;
            self.need("<");
            let ty = self.ty();
            self.need(">");
            self.need("(");
            let ptr = self.expr();
            self.need(",");
            let value = self.expr();
            self.need(")");
            self.need(";");
            if volatile {
                StmtKind::VolatileStore { ty, ptr, value }
            } else {
                StmtKind::UncheckedStore { ty, ptr, value }
            }
        } else {
            let e = self.expr();
            let op = match self.peek() {
                Some(Tok::Punct("=")) => Some(AssignOp::Eq),
                Some(Tok::Punct("+=")) => Some(AssignOp::PlusEq),
                Some(Tok::Punct("-=")) => Some(AssignOp::MinusEq),
                Some(Tok::Punct("*=")) => Some(AssignOp::StarEq),
                Some(Tok::Punct("/=")) => Some(AssignOp::SlashEq),
                Some(Tok::Punct("%=")) => Some(AssignOp::PercentEq),
                Some(Tok::Punct("&=")) => Some(AssignOp::AmpEq),
                Some(Tok::Punct("|=")) => Some(AssignOp::PipeEq),
                Some(Tok::Punct("^=")) => Some(AssignOp::CaretEq),
                Some(Tok::Punct("<<=")) => Some(AssignOp::ShlEq),
                Some(Tok::Punct(">>=")) => Some(AssignOp::ShrEq),
                _ => None,
            };
            match op {
                None => {
                    self.need(";");
                    StmtKind::Expr(e)
                }
                Some(op) => {
                    self.at += 1;
                    let value = self.expr();
                    self.need(";");
                    match e.kind {
                        ExprKind::FieldAccess { obj, field } => match obj.kind {
                            ExprKind::Path(segs) => StmtKind::MutateShort {
                                automaton: segs.into_iter().next().unwrap(),
                                field,
                                op,
                                value,
                            },
                            other => panic!("cannot assign to a field of {other:?}"),
                        },
                        ExprKind::Path(segs) => {
                            StmtKind::Assign { name: segs.into_iter().next().unwrap(), value }
                        }
                        other => panic!("cannot assign to {other:?}"),
                    }
                }
            }
        };
        Stmt { kind, span: self.span_from(start) }
    }

    fn conditional(&mut self) -> StmtKind {
        let cond = self.expr();
        let then_block = self.block();
        let else_block = if self.eat_word("else") {
            let start = self.start();
            if self.eat_word("if") {
                let kind = self.conditional();
                let span = self.span_from(start);
                Some(Block { stmts: vec![Stmt { kind, span }], span })
            } else {
                Some(self.block())
            }
        } else {
            None
        };
        StmtKind::If { cond, then_block, else_block }
    }

    fn args(&mut self) -> Vec<Expr> {
        self.need("(");
        let mut out = Vec::new();
        while !self.eat(")") {
            out.push(self.expr());
            self.eat(",");
        }
        out
    }

    fn expr(&mut self) -> Expr {
        let start = self.start();
        let lo = self.binary(0);
        if self.is("..") || self.is("..=") {
            let inclusive = self.is("..=");
            self.at += 1;
            let hi = self.binary(0);
            return Expr {
                kind: ExprKind::Range { lo: Box::new(lo), hi: Box::new(hi), inclusive },
                span: self.span_from(start),
            };
        }
        lo
    }

    fn binary(&mut self, level: usize) -> Expr {
        const LEVELS: [&[(&str, BinaryOp)]; 9] = [
            &[("||", BinaryOp::Or)],
            &[("&&", BinaryOp::And)],
            &[
                ("==", BinaryOp::Eq),
                ("!=", BinaryOp::Ne),
                ("<", BinaryOp::Lt),
                ("<=", BinaryOp::Le),
                (">", BinaryOp::Gt),
                (">=", BinaryOp::Ge),
            ],
            &[("|", BinaryOp::BitOr)],
            &[("^", BinaryOp::BitXor)],
            &[("&", BinaryOp::BitAnd)],
            &[("<<", BinaryOp::Shl), (">>", BinaryOp::Shr)],
            &[("+", BinaryOp::Add), ("-", BinaryOp::Sub)],
            &[("*", BinaryOp::Mul), ("/", BinaryOp::Div), ("%", BinaryOp::Rem)],
        ];
        if level == LEVELS.len() {
            return self.cast();
        }
        let start = self.start();
        let mut lhs = self.binary(level + 1);
        'more: loop {
            for (p, op) in LEVELS[level] {
                if self.eat(p) {
                    let rhs = self.binary(level + 1);
                    lhs = Expr {
                        kind: ExprKind::Binary { op: *op, lhs: Box::new(lhs), rhs: Box::new(rhs) },
                        span: self.span_from(start),
                    };
                    continue 'more;
                }
            }
            return lhs;
        }
    }

    fn cast(&mut self) -> Expr {
        let start = self.start();
        let mut e = self.unary();
        while self.eat_word("as") {
            let ty = self.ty();
            e = Expr { kind: ExprKind::Cast { value: Box::new(e), ty }, span: self.span_from(start) };
        }
        e
    }

    fn unary(&mut self) -> Expr {
        let start = self.start();
        for (p, op) in [
            ("-", UnaryOp::Neg),
            ("!", UnaryOp::Not),
            ("~", UnaryOp::BitNot),
            ("*", UnaryOp::Deref),
        ] {
            if self.eat(p) {
                let operand = Box::new(self.unary());
                return Expr {
                    kind: ExprKind::Unary { op, operand },
                    span: self.span_from(start),
                };
            }
        }
        if self.eat("&") {
            let mutable = self.eat_word("mut");
            let operand = Box::new(self.unary());
            return Expr {
                kind: ExprKind::Ref { mutable, operand },
                span: self.span_from(start),
            };
        }
        self.postfix()
    }

    fn postfix(&mut self) -> Expr {
        let start = self.start();
        let mut e = self.primary();
        loop {
            let kind = if self.eat(".") {
                let field = self.ident();
                if self.is("(") {
                    let args = self.args();
                    ExprKind::MethodCall { obj: Box::new(e), method: field, args }
                } else {
                    ExprKind::FieldAccess { obj: Box::new(e), field }
                }
            } else if self.is("(") {
                let args = self.args();
                ExprKind::Call { callee: Box::new(e), args }
            } else if self.eat("[") {
                let index = Box::new(self.expr());
                self.need("]");
                ExprKind::Index { obj: Box::new(e), index }
            } else {
                return e;
            };
            e = Expr { kind, span: self.span_from(start) };
        }
    }

    fn primary(&mut self) -> Expr {
        let start = self.start();
        let tok = self.peek().cloned();
        let kind = match tok {
            Some(Tok::Number(n)) => {
                self.at += 1;
                if n.starts_with("0x") {
                    ExprKind::HexLit(n)
                } else if n.starts_with("0b") {
                    ExprKind::BinLit(n)
                } else {
                    ExprKind::IntLit(n)
                }
            }
            Some(Tok::Text(t)) => {
                self.at += 1;
                ExprKind::StringLit(t)
            }
            Some(Tok::Ident(w)) if w == "true" || w == "false" => {
                self.at += 1;
                ExprKind::BoolLit(w == "true")
            }
            Some(Tok::Ident(w)) => {
                self.at += 1;
                if matches!(self.peek(), Some(Tok::At(s)) if s == "state") {
                    self.at += 1;
                    ExprKind::StateRead(w)
                } else {
                    ExprKind::Path(vec![w])
                }
            }
            Some(Tok::At(w)) if w == "snapshot" => {
                self.at += 1;
                let automaton = self.ident();
                self.need(".");
                let field = self.ident();
                ExprKind::Snapshot { automaton, field }
            }
            Some(Tok::Hash(w)) => {
                self.at += 1;
                self.need("<");
                let ty = self.ty();
                let second = if self.eat(",") { Some(self.ty()) } else { None };
                self.need(">");
                let mut args = self.args().into_iter();
                let mut next = || Box::new(args.next().expect("argument"));
                match w.as_str() {
                    "unchecked_load" => ExprKind::UncheckedLoad { ty, ptr: next() },
                    "volatile_load" => ExprKind::VolatileLoad { ty, ptr: next() },
                    "unchecked_offset" => ExprKind::UncheckedOffset { ty, ptr: next(), n: next() },
                    "unchecked_cast" => {
                        let reason = match next().kind {
                            ExprKind::StringLit(t) => t,
                            other => panic!("expected a reason, found {other:?}"),
                        };
                        ExprKind::UncheckedCast {
                            from_ty: ty,
                            to_ty: second.expect("second type"),
                            reason,
                            value: next(),
                        }
                    }
                    other => panic!("unknown primitive {other}"),
                }
            }
            Some(Tok::Punct("(")) => {
                self.at += 1;
                let first = self.expr();
                if self.eat(")") {
                    ExprKind::Paren(Box::new(first))
                } else {
                    let mut elems = vec![first];
                    while self.eat(",") {
                        if self.is(")") {
                            break;
                        }
                        elems.push(self.expr());
                    }
                    self.need(")");
                    ExprKind::Tuple(elems)
                }
            }
            Some(Tok::Punct("[")) => {
                self.at += 1;
                if self.eat("]") {
                    ExprKind::Array(Vec::new())
                } else {
                    let first = self.expr();
                    if self.eat(";") {
                        let count = Box::new(self.expr());
                        self.need("]");
                        ExprKind::ArrayRepeat { value: Box::new(first), count }
                    } else {
                        let mut elems = vec![first];
                        while self.eat(",") {
                            elems.push(self.expr());
                        }
                        self.need("]");
                        ExprKind::Array(elems)
                    }
                }
            }
            other => panic!("unexpected expression start {other:?}"),
        };
        Expr { kind, span: self.span_from(start) }
    }
}

fn primitive(name: &str) -> Option<PrimitiveType> {
    Some(match name {
        "u8" => PrimitiveType::U8,
        "u16" => PrimitiveType::U16,
        "u32" => PrimitiveType::U32,
        "u64" => PrimitiveType::U64,
        "usize" => PrimitiveType::Usize,
        "i8" => PrimitiveType::I8,
        "i16" => PrimitiveType::I16,
        "i32" => PrimitiveType::I32,
        "i64" => PrimitiveType::I64,
        "isize" => PrimitiveType::Isize,
        "f32" => PrimitiveType::F32,
        "f64" => PrimitiveType::F64,
        "bool" => PrimitiveType::Bool,
        "char" => PrimitiveType::Char,
        _ => return None,
    })
}

fn parse(src: &str) -> Program {
    Parser { toks: tokenize(src), at: 0 }.program()
}

// ─── Names and types ───────────────────────────────────────────────────────

struct Front<'a> {
    program: &'a Program,
    resolution: Resolution,
    typing: Typing,
    locals: Vec<(String, Option<Type>)>,
    owner: Option<String>,
}

fn type_of(t: &TypeExpr) -> Option<Type> {
    Some(match &t.kind {
        TypeKind::Unit => Type::Unit,
        TypeKind::Primitive(p) => Type::Primitive(*p),
        TypeKind::Ref(r) => Type::Ref { mutable: r.mutable, inner: Box::new(type_of(&r.inner)?) },
        TypeKind::Array(a) => {
            let ArraySize::IntLiteral(size) = &a.size;
            Type::Array { element: Box::new(type_of(&a.element)?), size: size.clone() }
        }
        TypeKind::Slice(s) => Type::Slice { element: Box::new(type_of(&s.element)?) },
        TypeKind::Tuple(t) => {
            let mut elems = Vec::new();
            for e in &t.elements {
                elems.push(type_of(e)?);
            }
            Type::Tuple(elems)
        }
        _ => return None,
    })
}

fn copy_type(t: &Type) -> Type {
    match t {
        Type::Unit => Type::Unit,
        Type::Primitive(p) => Type::Primitive(*p),
        Type::Ref { mutable, inner } => {
            Type::Ref { mutable: *mutable, inner: Box::new(copy_type(inner)) }
        }
        Type::Array { element, size } => {
            Type::Array { element: Box::new(copy_type(element)), size: size.clone() }
        }
        Type::Slice { element } => Type::Slice { element: Box::new(copy_type(element)) },
        Type::Tuple(elems) => Type::Tuple(elems.iter().map(copy_type).collect()),
        Type::Range { element, inclusive } => {
            Type::Range { element: Box::new(copy_type(element)), inclusive: *inclusive }
        }
        Type::StringSlice => Type::StringSlice,
        Type::Nominal { name } => Type::Nominal { name: name.clone() },
        Type::Unknown(why) => Type::Unknown(why.clone()),
    }
}

impl<'a> Front<'a> {
    fn automaton(&self, name: &str) -> Option<&'a AutomatonDecl> {
        self.program.items.iter().find_map(|i| match i {
            Item::Automaton(d) if d.name == name => Some(d),
            _ => None,
        })
    }

    fn field(&self, automaton: &str, field: &str) -> Option<Type> {
        let name = if automaton == "Self" { self.owner.clone()? } else { automaton.to_owned() };
        let d = self.automaton(&name)?;
        d.fields.iter().find(|f| f.name == field).and_then(|f| type_of(&f.ty))
    }

    fn items(&mut self) {
        for item in &self.program.items {
            let (name, kind) = match item {
                Item::Fn(d) => (&d.name, SymbolKind::Fn),
                Item::Automaton(d) => (&d.name, SymbolKind::Automaton),
                Item::Type(d) => (&d.name, SymbolKind::Type),
                Item::Effect(d) => (&d.name, SymbolKind::Effect),
                Item::Interrupt(d) => (&d.name, SymbolKind::Interrupt),
                _ => continue,
            };
            self.resolution.symbols.declare(Symbol { name: name.clone(), kind });
        }
        for item in &self.program.items {
            self.locals.clear();
            self.owner = None;
            match item {
                Item::Fn(d) => self.body(&d.params, &d.body),
                Item::Effect(d) => self.body(&d.params, &d.body),
                Item::Interrupt(d) => self.body(&d.params, &d.body),
                Item::Automaton(d) => {
                    for t in &d.transitions {
                        self.locals.clear();
                        self.owner = Some(d.name.clone());
                        self.block(&t.body);
                    }
                }
                _ => {}
            }
        }
    }

    fn body(&mut self, params: &[Param], b: &Block) {
        for p in params {
            self.locals.push((p.name.clone(), type_of(&p.ty)));
        }
        self.block(b);
    }

    fn block(&mut self, b: &Block) {
        let scope = self.locals.len();
        for s in &b.stmts {
            self.stmt(s);
        }
        self.locals.truncate(scope);
    }

    fn stmt(&mut self, s: &Stmt) {
        match &s.kind {
            StmtKind::Let { name, ty, value, .. } => {
                let inferred = self.expr(value);
                let declared = ty.as_ref().and_then(type_of);
                self.locals.push((name.clone(), declared.or(inferred)));
            }
            StmtKind::LetShort { name, value } => {
                let inferred = self.expr(value);
                self.locals.push((name.clone(), inferred));
            }
            StmtKind::Expr(e) | StmtKind::Return(Some(e)) => {
                self.expr(e);
            }
            StmtKind::Mutate { assigns, .. } => {
                for a in assigns {
                    if let Some(i) = &a.index {
                        self.expr(i);
                    }
                    self.expr(&a.value);
                }
            }
            StmtKind::MutateShort { value, .. } | StmtKind::Assign { value, .. } => {
                self.expr(value);
            }
            StmtKind::ProcCall { name, args } => {
                for a in args {
                    self.expr(a);
                }
                let kind = self.resolution.symbols.lookup(name).map(|s| s.kind);
                let ctx = match kind {
                    Some(SymbolKind::Effect) | Some(SymbolKind::Interrupt) => {
                        Some(CallContext::Identity)
                    }
                    _ => {
                        let known = self.program.items.iter().any(|i| match i {
                            Item::Automaton(d) => d.transitions.iter().any(|t| t.name == *name),
                            _ => false,
                        });
                        if known {
                            Some(CallContext::Transition)
                        } else {
                            None
                        }
                    }
                };
                if let Some(ctx) = ctx {
                    self.resolution.bind(s.span, BindingRef::Proc { name: name.clone(), ctx });
                }
            }
            StmtKind::UncheckedStore { ptr, value, .. }
            | StmtKind::VolatileStore { ptr, value, .. } => {
                self.expr(ptr);
                self.expr(value);
            }
            StmtKind::Sigma { var, source, body } => {
                let ty = self.expr(source);
                let element = match ty {
                    Some(Type::Range { element, .. }) => Some(*element),
                    _ => None,
                };
                let scope = self.locals.len();
                self.locals.push((var.clone(), element));
                self.block(body);
                self.locals.truncate(scope);
            }
            StmtKind::If { cond, then_block, else_block } => {
                self.expr(cond);
                self.block(then_block);
                if let Some(b) = else_block {
                    self.block(b);
                }
            }
            _ => {}
        }
    }

    fn expr(&mut self, e: &Expr) -> Option<Type> {
        let ty = self.infer(e);
        if let Some(t) = &ty {
            self.typing.record(e.span, copy_type(t));
        }
        ty
    }

    fn list(&mut self, es: &[Expr]) -> Option<Vec<Type>> {
        let found: Vec<Option<Type>> = es.iter().map(|e| self.expr(e)).collect();
        found.into_iter().collect()
    }

    fn infer(&mut self, e: &Expr) -> Option<Type> {
        match &e.kind {
            ExprKind::IntLit(s) => {
                let digits = s.trim_start_matches(|c: char| c.is_ascii_digit() || c == '_');
                Some(Type::Primitive(primitive(digits).unwrap_or(PrimitiveType::I32)))
            }
            ExprKind::HexLit(s) | ExprKind::BinLit(s) => {
                let at = s.find(['u', 'i']);
                let suffix = at.map(|i| &s[i..]).unwrap_or("");
                Some(Type::Primitive(primitive(suffix).unwrap_or(PrimitiveType::I32)))
            }
            ExprKind::BoolLit(_) => Some(Type::Primitive(PrimitiveType::Bool)),
            ExprKind::StringLit(_) => Some(Type::StringSlice),
            ExprKind::Path(segs) => {
                let name = &segs[0];
                let local = self.locals.iter().rev().find(|l| l.0 == *name);
                if let Some((_, ty)) = local {
                    let ty = ty.as_ref().map(copy_type);
                    self.resolution.bind(e.span, BindingRef::Local { name: name.clone() });
                    return ty;
                }
                let kind = self.resolution.symbols.lookup(name).map(|s| s.kind);
                if let Some(kind) = kind {
                    let symbol = Symbol { name: name.clone(), kind };
                    self.resolution.bind(e.span, BindingRef::TopLevel(symbol));
                }
                None
            }
            ExprKind::Paren(inner) => self.expr(inner),
            ExprKind::Tuple(es) => Some(Type::Tuple(self.list(es)?)),
            ExprKind::Array(es) => {
                let types = self.list(es)?;
                let first = types.into_iter().next()?;
                Some(Type::Array { element: Box::new(first), size: es.len().to_string() })
            }
            ExprKind::ArrayRepeat { value, count } => {
                let element = self.expr(value)?;
                self.expr(count);
                match &count.kind {
                    ExprKind::IntLit(n) => {
                        Some(Type::Array { element: Box::new(element), size: n.clone() })
                    }
                    _ => None,
                }
            }
            ExprKind::FieldAccess { obj, field } => {
                self.expr(obj);
                let ExprKind::Path(segs) = &obj.kind else { return None };
                let name = segs[0].clone();
                if name == "Self" || self.automaton(&name).is_some() {
                    let automaton = name.clone();
                    let binding = BindingRef::AutomatonField { automaton, field: field.clone() };
                    self.resolution.bind(e.span, binding);
                }
                self.field(&name, field)
            }
            ExprKind::Snapshot { automaton, field } => self.field(automaton, field),
            ExprKind::StateRead(_) => Some(Type::Primitive(PrimitiveType::U32)),
            ExprKind::Index { obj, index } => {
                let ty = self.expr(obj);
                self.expr(index);
                match ty {
                    Some(Type::Array { element, .. }) | Some(Type::Slice { element }) => {
                        Some(*element)
                    }
                    _ => None,
                }
            }
            ExprKind::Call { callee, args } => {
                self.expr(callee);
                self.list(args);
                let ExprKind::Path(segs) = &callee.kind else { return None };
                self.program.items.iter().find_map(|i| match i {
                    Item::Fn(d) if d.name == segs[0] => match &d.return_type {
                        Some(t) => type_of(t),
                        None => Some(Type::Unit),
                    },
                    _ => None,
                })
            }
            ExprKind::Unary { op, operand } => {
                let ty = self.expr(operand)?;
                match (op, ty) {
                    (UnaryOp::Deref, Type::Ref { inner, .. }) => Some(*inner),
                    (UnaryOp::Deref, _) => None,
                    (_, ty) => Some(ty),
                }
            }
            ExprKind::Ref { mutable, operand } => {
                let inner = self.expr(operand)?;
                Some(Type::Ref { mutable: *mutable, inner: Box::new(inner) })
            }
            ExprKind::Binary { op, lhs, rhs } => {
                let l = self.expr(lhs);
                self.expr(rhs);
                match op {
                    BinaryOp::Eq
                    | BinaryOp::Ne
                    | BinaryOp::Lt
                    | BinaryOp::Le
                    | BinaryOp::Gt
                    | BinaryOp::Ge
                    | BinaryOp::And
                    | BinaryOp::Or => Some(Type::Primitive(PrimitiveType::Bool)),
                    _ => l,
                }
            }
            ExprKind::Cast { value, ty } => {
                self.expr(value);
                type_of(ty)
            }
            ExprKind::Range { lo, hi, inclusive } => {
                let element = self.expr(lo)?;
                self.expr(hi);
                Some(Type::Range { element: Box::new(element), inclusive: *inclusive })
            }
            ExprKind::UncheckedLoad { ty, ptr } | ExprKind::VolatileLoad { ty, ptr } => {
                self.expr(ptr);
                type_of(ty)
            }
            ExprKind::UncheckedCast { to_ty, value, .. } => {
                self.expr(value);
                type_of(to_ty)
            }
            ExprKind::UncheckedOffset { ptr, n, .. } => {
                let ty = self.expr(ptr);
                self.expr(n);
                ty
            }
            _ => None,
        }
    }
}

fn front(program: &Program) -> (Resolution, Typing) {
    let mut f = Front {
        program,
        resolution: Resolution::new(),
        typing: Typing::new(),
        locals: Vec::new(),
        owner: None,
    };
    f.items();
    (f.resolution, f.typing)
}

fn check_str(src: &str) -> Result<(), Vec<CheckError>> {
    let program = parse(src);
    let (resolution, _) = front(&program);
    check(&program, &resolution)
}

fn extract_str(src: &str) -> Result<Categories, Vec<EffectError>> {
    extract_categories(&parse(src))
}

fn profiles_str(src: &str) -> Result<MutationProfiles, Vec<EffectError>> {
    let program = parse(src);
    let (resolution, _) = front(&program);
    extract_mutation_profiles(&program, &resolution)
}

fn graph_str(src: &str) -> Result<ProcCallGraph, Vec<EffectError>> {
    let program = parse(src);
    let (resolution, _) = front(&program);
    extract_call_graph(&program, &resolution)
}

fn overlap_str(src: &str) -> InterruptOverlap {
    let profiles = profiles_str(src).expect("profiles");
    compute_interrupt_overlap(&profiles)
}

fn lower_str(src: &str) -> Result<String, Vec<CodegenError>> {
    let program = parse(src);
    let (resolution, typing) = front(&program);
    lower(&program, &resolution, &typing, "test")
}

fn compile_source(src: &str, module_name: &str) -> Result<String, CompileError> {
    let program = parse(src);
    let (resolution, typing) = front(&program);
    analyse(&program, &resolution)?;
    generate(&program, &resolution, &typing, module_name, &Vec::new())
}

fn make_field(automaton: &str, field: &str) -> FieldRef {
    FieldRef { automaton: automaton.to_owned(), field: field.to_owned() }
}

// ─── Checks ────────────────────────────────────────────────────────────────

#[test]
fn empty_program_is_clean() {
    check_str("").unwrap();
}

#[test]
fn empty_fn_body_is_clean() {
    check_str("@fn nothing() { }").unwrap();
}

#[test]
fn pure_arithmetic_in_fn_is_clean() {
    check_str("@fn add(a: u32, b: u32) -> u32 { let c: u32 = a + b; return c; }").unwrap();
}

#[test]
fn fn_calling_another_fn_is_clean() {
    check_str(
        "@fn helper() -> u32 { return 1u32; } \
         @fn caller() -> u32 { return helper(); }",
    )
    .unwrap();
}

#[test]
fn effect_with_imperative_body_is_clean() {
    check_str(
        "#automaton Counter { value: u32; } \
         #effect bump() #mutates: [Counter] { Counter.value = 1u32; }",
    )
    .unwrap();
}

#[test]
fn transition_body_with_state_changes_is_clean() {
    check_str(
        "#automaton Counter { value: u32; \
         #transition tick { Counter.value = Counter.value + 1u32; } }",
    )
    .unwrap();
}

#[test]
fn mutate_in_fn_is_e0101() {
    let errors = check_str(
        "#automaton Counter { value: u32; } \
         @fn cheat() { #mutate Counter { value = 1u32 }; }",
    )
    .unwrap_err();
    assert!(errors.iter().any(|e| matches!(
        e,
        CheckError::ImperativeInFunctional { construct: "#mutate", .. }
    )));
}

#[test]
fn mutate_short_in_fn_is_e0101() {
    let errors = check_str(
        "#automaton Counter { value: u32; } \
         @fn cheat() { Counter.value = 1u32; }",
    )
    .unwrap_err();
    assert!(errors.iter().any(|e| matches!(
        e,
        CheckError::ImperativeInFunctional { construct: "Auto.field <op>= …", .. }
    )));
}

#[test]
fn proc_call_in_fn_is_e0101() {
    let errors = check_str(
        "#effect bump() #mutates: [] { } \
         @fn cheat() { #> bump(); }",
    )
    .unwrap_err();
    assert!(errors.iter().any(|e| matches!(
        e,
        CheckError::ImperativeInFunctional { construct: "#> proc()", .. }
    )));
}

#[test]
fn unchecked_store_in_fn_is_e0101() {
    let errors = check_str(
        "@fn cheat(p: u32) { #unchecked_store<u32>(p, 0u32); }",
    )
    .unwrap_err();
    assert!(errors.iter().any(|e| matches!(
        e,
        CheckError::ImperativeInFunctional { construct: "#unchecked_store", .. }
    )));
}

#[test]
fn volatile_store_in_fn_is_e0101() {
    let errors = check_str(
        "@fn cheat(p: u32) { #volatile_store<u8>(p, 0u8); }",
    )
    .unwrap_err();
    assert!(errors.iter().any(|e| matches!(
        e,
        CheckError::ImperativeInFunctional { construct: "#volatile_store", .. }
    )));
}

#[test]
fn unchecked_load_in_fn_is_e0101() {
    let errors = check_str(
        "@fn cheat(p: u32) -> u8 { return #unchecked_load<u8>(p); }",
    )
    .unwrap_err();
    assert!(errors.iter().any(|e| matches!(
        e,
        CheckError::ImperativeInFunctional { construct: "#unchecked_load", .. }
    )));
}

#[test]
fn volatile_load_in_fn_is_e0101() {
    let errors = check_str(
        "@fn cheat(p: u32) -> u8 { return #volatile_load<u8>(p); }",
    )
    .unwrap_err();
    assert!(errors.iter().any(|e| matches!(
        e,
        CheckError::ImperativeInFunctional { construct: "#volatile_load", .. }
    )));
}

#[test]
fn unchecked_cast_in_fn_is_e0101() {
    let errors = check_str(
        r#"@fn cheat(x: u32) -> i32 { return #unchecked_cast<u32, i32>("safe", x); }"#,
    )
    .unwrap_err();
    assert!(errors.iter().any(|e| matches!(
        e,
        CheckError::ImperativeInFunctional { construct: "#unchecked_cast", .. }
    )));
}

#[test]
fn unchecked_offset_in_fn_is_e0101() {
    let errors = check_str(
        "@fn cheat(p: u32) -> u32 { let _q := #unchecked_offset<u8>(p, 4i32); return p; }",
    )
    .unwrap_err();
    assert!(errors.iter().any(|e| matches!(
        e,
        CheckError::ImperativeInFunctional { construct: "#unchecked_offset", .. }
    )));
}

#[test]
fn state_read_in_fn_is_e0101() {
    let errors = check_str(
        "#automaton Sm { #states: [A, B]; } \
         @fn peek() { let _s := Sm@state; }",
    )
    .unwrap_err();
    assert!(errors.iter().any(|e| matches!(
        e,
        CheckError::ImperativeInFunctional { construct: "Auto@state", .. }
    )));
}

#[test]
fn automaton_field_read_in_fn_is_e0101() {
    let errors = check_str(
        "#automaton Counter { value: u32; } \
         @fn peek() -> u32 { return Counter.value; }",
    )
    .unwrap_err();
    assert!(errors.iter().any(|e| matches!(
        e,
        CheckError::ImperativeInFunctional { construct: "automaton-field read", .. }
    )));
}

#[test]
fn bare_automaton_reference_in_fn_is_e0101() {
    let errors = check_str(
        "#automaton Counter { value: u32; } \
         @fn leak() { let _c := Counter; }",
    )
    .unwrap_err();
    assert!(errors.iter().any(|e| matches!(
        e,
        CheckError::ImperativeInFunctional { construct: "bare automaton reference", .. }
    )));
}

#[test]
fn fn_calling_effect_via_call_is_e0102() {
    let errors = check_str(
        "#effect bump() #mutates: [] { } \
         @fn cheat() { bump(); }",
    )
    .unwrap_err();
    assert!(errors.iter().any(|e| matches!(
        e,
        CheckError::CrossBoundaryCall {
            callee_kind: "#effect",
            ref callee_name,
            ..
        } if callee_name == "bump"
    )));
}

#[test]
fn fn_calling_interrupt_via_call_is_e0102() {
    let errors = check_str(
        "#interrupt UART_RX() #mutates: [] #priority: HIGH { } \
         @fn cheat() { UART_RX(); }",
    )
    .unwrap_err();
    assert!(errors.iter().any(|e| matches!(
        e,
        CheckError::CrossBoundaryCall { callee_kind: "#interrupt", .. }
    )));
}

#[test]
fn fn_calling_fn_is_not_e0102() {
    check_str(
        "@fn helper() -> u32 { return 1u32; } \
         @fn caller() -> u32 { return helper(); }",
    )
    .unwrap();
}

#[test]
fn multiple_violations_collected() {
    let errors = check_str(
        "#automaton Counter { value: u32; } \
         #effect bump() #mutates: [] { } \
         @fn cheats() { Counter.value = 1u32; bump(); let _v := Counter.value; }",
    )
    .unwrap_err();
    assert!(errors.len() >= 3, "got {} errors: {:?}", errors.len(), errors);
    assert!(errors
        .iter()
        .any(|e| matches!(e, CheckError::ImperativeInFunctional { construct: "Auto.field <op>= …", .. })));
    assert!(errors
        .iter()
        .any(|e| matches!(e, CheckError::CrossBoundaryCall { .. })));
    assert!(errors.iter().any(|e| matches!(
        e,
        CheckError::ImperativeInFunctional { construct: "automaton-field read", .. }
    )));
}

#[test]
fn nested_unchecked_load_in_arithmetic_is_e0101() {
    let errors = check_str(
        "@fn cheat(p: u32) -> u32 { return #unchecked_load<u32>(p) + 1u32; }",
    )
    .unwrap_err();
    assert!(errors.iter().any(|e| matches!(
        e,
        CheckError::ImperativeInFunctional { construct: "#unchecked_load", .. }
    )));
}

#[test]
fn lib_realistic_clean_program() {
    let src = "\
        @fn cmd_check(min_len: u32) -> bool $ [Pure] {\n  \
          let len: u32 = min_len + 4u32;\n  \
          return len > 0u32;\n\
        }\n\
        #automaton Counter { value: u32; }\n\
        #effect bump() #mutates: [Counter] {\n  \
          Counter.value = Counter.value + 1u32;\n\
        }\n\
    ";
    check_str(src).unwrap();
}

#[test]
fn local_bindings_are_clean() {
    check_str("@fn f(x: u32) -> u32 { let y: u32 = x; return y; }").unwrap();
}

#[test]
fn effect_mutates_declared_automaton_is_clean() {
    check_str(
        "#automaton Counter { value: u32; } \
         #effect bump() #mutates: [Counter] { Counter.value = 1u32; }",
    )
    .unwrap();
}

#[test]
fn effect_mutates_one_of_multiple_declared_is_clean() {
    check_str(
        "#automaton A { x: u32; } \
         #automaton B { y: u32; } \
         #effect both() #mutates: [A, B] { A.x = 1u32; B.y = 2u32; }",
    )
    .unwrap();
}

#[test]
fn effect_canonical_mutate_form_is_clean() {
    check_str(
        "#automaton Counter { value: u32; } \
         #effect bump() #mutates: [Counter] { #mutate Counter { value = 1u32 }; }",
    )
    .unwrap();
}

#[test]
fn effect_writes_undeclared_automaton_is_e0302() {
    let errors = check_str(
        "#automaton A { x: u32; } \
         #automaton B { y: u32; } \
         #effect rogue() #mutates: [A] { B.y = 1u32; }",
    )
    .unwrap_err();
    let saw = errors.iter().any(|e| matches!(
        e,
        CheckError::WriteToUndeclaredAutomaton { automaton, enclosing, .. }
            if automaton == "B" && enclosing == "#effect rogue"
    ));
    assert!(saw, "expected E0302 with automaton=B; got {errors:?}");
}

#[test]
fn effect_with_empty_mutates_writes_anything_is_e0302() {
    let errors = check_str(
        "#automaton A { x: u32; } \
         #effect pure() #mutates: [] { A.x = 1u32; }",
    )
    .unwrap_err();
    let saw = errors.iter().any(|e| matches!(
        e,
        CheckError::WriteToUndeclaredAutomaton { automaton, .. } if automaton == "A"
    ));
    assert!(saw, "expected E0302 from #mutates: []; got {errors:?}");
}

#[test]
fn effect_canonical_mutate_form_to_undeclared_is_e0302() {
    let errors = check_str(
        "#automaton A { x: u32; } \
         #automaton B { y: u32; } \
         #effect rogue() #mutates: [A] { #mutate B { y = 1u32 }; }",
    )
    .unwrap_err();
    let saw = errors.iter().any(|e| matches!(
        e,
        CheckError::WriteToUndeclaredAutomaton { automaton, .. } if automaton == "B"
    ));
    assert!(saw, "expected E0302 for canonical #mutate B; got {errors:?}");
}

#[test]
fn effect_cannot_mutate_excludes_explicit_target_is_e0306() {
    let errors = check_str(
        "#automaton A { x: u32; } \
         #effect bad() #mutates: [A] #cannot_mutate: [A] { A.x = 1u32; }",
    )
    .unwrap_err();
    let saw = errors.iter().any(|e| matches!(
        e,
        CheckError::WriteToCannotMutate { automaton, enclosing, .. }
            if automaton == "A" && enclosing == "#effect bad"
    ));
    assert!(saw, "expected E0306 with automaton=A; got {errors:?}");
}

#[test]
fn effect_cannot_mutate_unrelated_target_is_silent() {
    check_str(
        "#automaton A { x: u32; } \
         #automaton B { y: u32; } \
         #effect ok_only() #mutates: [A] #cannot_mutate: [B] { A.x = 1u32; }",
    )
    .unwrap();
}

#[test]
fn effect_cannot_mutate_wins_over_e0302_priority() {
    let errors = check_str(
        "#automaton A { x: u32; } \
         #automaton B { y: u32; } \
         #effect bad() #mutates: [A] #cannot_mutate: [B] { B.y = 1u32; }",
    )
    .unwrap_err();
    let saw_e0306 = errors.iter().any(|e| matches!(
        e,
        CheckError::WriteToCannotMutate { automaton, .. } if automaton == "B"
    ));
    let saw_e0302 = errors.iter().any(|e| matches!(
        e,
        CheckError::WriteToUndeclaredAutomaton { automaton, .. } if automaton == "B"
    ));
    assert!(saw_e0306, "expected E0306 when target is in cannot_mutate; got {errors:?}");
    assert!(!saw_e0302, "should NOT also emit E0302; got {errors:?}");
}

#[test]
fn interrupt_mutates_declared_automaton_is_clean() {
    check_str(
        "#automaton Counter { value: u32; } \
         #interrupt SysTick() #mutates: [Counter] #priority: HIGH { \
           Counter.value = Counter.value + 1u32; \
         }",
    )
    .unwrap();
}

#[test]
fn interrupt_writes_undeclared_automaton_is_e0302() {
    let errors = check_str(
        "#automaton A { x: u32; } \
         #automaton B { y: u32; } \
         #interrupt SysTick() #mutates: [A] #priority: HIGH { B.y = 1u32; }",
    )
    .unwrap_err();
    let saw = errors.iter().any(|e| matches!(
        e,
        CheckError::WriteToUndeclaredAutomaton { automaton, enclosing, .. }
            if automaton == "B" && enclosing == "#interrupt SysTick"
    ));
    assert!(saw, "expected E0302 from #interrupt; got {errors:?}");
}

#[test]
fn transition_mutates_owning_automaton_is_clean() {
    check_str(
        "#automaton Counter { value: u32; \
            #transition tick { Counter.value = Counter.value + 1u32; } \
          }",
    )
    .unwrap();
}

#[test]
fn transition_writes_other_automaton_is_e0302() {
    let errors = check_str(
        "#automaton Counter { value: u32; \
            #transition tick { Logger.last = 1u32; } \
          } \
          #automaton Logger { last: u32; }",
    )
    .unwrap_err();
    let saw = errors.iter().any(|e| matches!(
        e,
        CheckError::WriteToUndeclaredAutomaton { automaton, enclosing, .. }
            if automaton == "Logger"
            && enclosing == "#transition tick in #automaton Counter"
    ));
    assert!(saw, "expected E0302 from cross-auto transition; got {errors:?}");
}

#[test]
fn multiple_authorisation_errors_in_one_pass() {
    let errors = check_str(
        "#automaton A { x: u32; } \
         #automaton B { y: u32; } \
         #automaton C { z: u32; } \
         #effect mixed() #mutates: [A] #cannot_mutate: [C] { \
           B.y = 1u32; \
           C.z = 2u32; \
         }",
    )
    .unwrap_err();
    let saw_b = errors.iter().any(|e| matches!(
        e,
        CheckError::WriteToUndeclaredAutomaton { automaton, .. } if automaton == "B"
    ));
    let saw_c = errors.iter().any(|e| matches!(
        e,
        CheckError::WriteToCannotMutate { automaton, .. } if automaton == "C"
    ));
    assert!(saw_b && saw_c, "expected both E0302/B and E0306/C; got {errors:?}");
}

#[test]
fn fn_boundary_check_still_runs_alongside_s2() {
    let errors = check_str(
        "#automaton Counter { value: u32; } \
         #automaton Other   { z: u32; } \
         @fn cheat() { Counter.value = 1u32; } \
         #effect rogue() #mutates: [Counter] { Other.z = 1u32; }",
    )
    .unwrap_err();
    let saw_e0101 = errors.iter().any(|e| matches!(
        e,
        CheckError::ImperativeInFunctional { .. }
    ));
    let saw_e0302 = errors.iter().any(|e| matches!(
        e,
        CheckError::WriteToUndeclaredAutomaton { automaton, .. } if automaton == "Other"
    ));
    assert!(saw_e0101 && saw_e0302, "expected both E0101 and E0302; got {errors:?}");
}

#[test]
fn non_recursive_fn_passes_totality() {
    let src = "@fn add(a: u32, b: u32) -> u32 { return a; }";
    assert!(
        check_str(src).is_ok(),
        "non-recursive @fn should pass totality"
    );
}

#[test]
fn direct_recursive_fn_without_partial_emits_e0540() {
    let src = "@fn fact(n: u32) -> u32 { return fact(n); }";
    let errors = check_str(src).expect_err("expected E0540");
    let saw = errors.iter().any(|e| {
        matches!(e, CheckError::TotalityViolation { fn_name, .. } if fn_name == "fact")
    });
    assert!(
        saw,
        "expected E0540 TotalityViolation for `fact`; got {errors:?}"
    );
}

#[test]
fn direct_recursive_partial_fn_is_silent() {
    let src = "@partial @fn fact(n: u32) -> u32 { return fact(n); }";
    assert!(
        check_str(src).is_ok(),
        "@partial should suppress E0540"
    );
}

#[test]
fn recursion_inside_arg_position_caught() {
    let src = "@fn f(n: u32) -> u32 { return f(n) + 1u32; }";
    let errors = check_str(src).expect_err("expected E0540");
    assert!(errors.iter().any(|e| matches!(
        e,
        CheckError::TotalityViolation { fn_name, .. } if fn_name == "f"
    )));
}

#[test]
fn recursion_inside_let_rhs_caught() {
    let src = "@fn f(n: u32) -> u32 { let _x: u32 = f(n); return 0u32; }";
    let errors = check_str(src).expect_err("expected E0540");
    assert!(errors.iter().any(|e| matches!(
        e,
        CheckError::TotalityViolation { fn_name, .. } if fn_name == "f"
    )));
}

#[test]
fn recursion_inside_paren_caught() {
    let src = "@fn f(n: u32) -> u32 { return (f(n)); }";
    let errors = check_str(src).expect_err("expected E0540");
    assert!(errors.iter().any(|e| matches!(
        e,
        CheckError::TotalityViolation { fn_name, .. } if fn_name == "f"
    )));
}

#[test]
fn recursion_inside_field_access_receiver_caught() {
    let src = "\
        @type Pair = (u32, u32);\n\
        @fn f(n: u32) -> Pair { return f(n); }\n\
    ";
    let errors = check_str(src).expect_err("expected E0540");
    assert!(errors.iter().any(|e| matches!(
        e,
        CheckError::TotalityViolation { fn_name, .. } if fn_name == "f"
    )));
}

#[test]
fn calls_to_other_fn_not_flagged() {
    let src = "\
        @fn g(x: u32) -> u32 { return x; }\n\
        @fn f(n: u32) -> u32 { return g(n); }\n\
    ";
    assert!(check_str(src).is_ok(), "non-self call should not trigger E0540");
}

#[test]
fn first_recursive_call_wins() {
    let src = "@fn f(n: u32) -> u32 { let _x: u32 = f(n); return f(n); }";
    let errors = check_str(src).expect_err("expected E0540");
    let count = errors
        .iter()
        .filter(|e| matches!(e, CheckError::TotalityViolation { fn_name, .. } if fn_name == "f"))
        .count();
    assert_eq!(count, 1, "expected exactly one E0540; got {count}: {errors:?}");
}

#[test]
fn diagnostic_carries_decl_and_call_offsets() {
    let src = "@fn fact(n: u32) -> u32 { return fact(n); }";
    let errors = check_str(src).expect_err("expected E0540");
    for e in &errors {
        if let CheckError::TotalityViolation { fn_name, call_at, decl_at } = e {
            assert_eq!(fn_name, "fact");
            assert!(*decl_at < *call_at, "decl_at must precede call_at");
            assert!(*call_at < src.len(), "call_at must be within source");
            return;
        }
    }
    panic!("expected E0540, got {errors:?}");
}

#[test]
fn partial_marker_on_non_recursive_fn_is_silent() {
    let src = "@partial @fn pure_helper(x: u32) -> u32 { return x; }";
    assert!(
        check_str(src).is_ok(),
        "@partial on non-recursive @fn should be silent"
    );
}

#[test]
fn mutual_recursion_not_yet_caught() {
    let src = "\
        @fn even(n: u32) -> bool { return odd(n); }\n\
        @fn odd(n: u32) -> bool { return even(n); }\n\
    ";
    let res = check_str(src);
    assert!(
        res.is_ok(),
        "mutual recursion intentionally not detected here; got {res:?}"
    );
}

#[test]
fn totality_runs_alongside_other_checks() {
    let src = "\
        #automaton Counter { value: u32; }\n\
        @fn f(n: u32) -> u32 { let _v: u32 = Counter.value; return f(n); }\n\
    ";
    let errors = check_str(src).expect_err("expected E0101 + E0540");
    let saw_total = errors.iter().any(|e| {
        matches!(e, CheckError::TotalityViolation { fn_name, .. } if fn_name == "f")
    });
    let saw_boundary = errors
        .iter()
        .any(|e| matches!(e, CheckError::ImperativeInFunctional { .. }));
    assert!(
        saw_total && saw_boundary,
        "expected both E0540 and E0101; got {errors:?}"
    );
}

// ─── Effect analysis ───────────────────────────────────────────────────────

#[test]
fn empty_program_has_empty_categories() {
    let cats = extract_str("").unwrap();
    assert!(cats.is_empty());
    assert_eq!(cats.len(), 0);
}

#[test]
fn program_with_no_automatons_has_empty_categories() {
    let cats = extract_str("@fn helper() { }").unwrap();
    assert!(cats.is_empty());
}

#[test]
fn monoid_automaton_gets_synthetic_ready_state() {
    let cats = extract_str("#automaton Counter { value: u32; }").unwrap();
    let cat = cats.lookup("Counter").unwrap();
    assert!(cat.is_monoid);
    assert_eq!(cat.states.len(), 1);
    assert_eq!(cat.states[0].name, "Ready");
    assert_eq!(cat.transitions.len(), 0);
    assert_eq!(cat.initial, 0);
}

#[test]
fn monoid_automaton_with_destinationless_transition() {
    let cats = extract_str(
        "#automaton Counter { \
         value: u32; \
         #transition tick { Counter.value = Counter.value + 1u32; } \
         }",
    )
    .unwrap();
    let cat = cats.lookup("Counter").unwrap();
    assert!(cat.is_monoid);
    assert_eq!(cat.transitions.len(), 1);
    assert_eq!(cat.transitions[0].name, "tick");
    assert!(cat.transitions[0].destination.is_none());
}

#[test]
fn monoid_automaton_with_destination_is_e0431() {
    let errors = extract_str(
        "#automaton Counter { \
         #transition oops -> Halted { } \
         }",
    )
    .unwrap_err();
    assert!(errors.iter().any(|e| matches!(
        e,
        EffectError::MonoidTransitionWithDestination {
            ref automaton,
            ref transition,
            ref target,
            ..
        } if automaton == "Counter" && transition == "oops" && target == "Halted"
    )));
}

#[test]
fn multistate_automaton_states_recorded() {
    let cats = extract_str(
        "#automaton Sm { \
         #states: [Idle, Running, Halted]; \
         }",
    )
    .unwrap();
    let cat = cats.lookup("Sm").unwrap();
    assert!(!cat.is_monoid);
    let names: Vec<_> = cat.states.iter().map(|s| s.name.as_str()).collect();
    assert_eq!(names, vec!["Idle", "Running", "Halted"]);
    assert_eq!(cat.initial, 0); // first state by source order
}

#[test]
fn multistate_automaton_transitions_to_real_state_ok() {
    let cats = extract_str(
        "#automaton Counter { \
         #states: [Idle, Counting]; \
         value: u32; \
         #transition start -> Counting { } \
         #transition tick { } \
         #transition halt -> Idle { } \
         }",
    )
    .unwrap();
    let cat = cats.lookup("Counter").unwrap();
    assert_eq!(cat.transitions.len(), 3);
    let dests: Vec<_> = cat
        .transitions
        .iter()
        .map(|t| t.destination.as_deref())
        .collect();
    assert_eq!(dests, vec![Some("Counting"), None, Some("Idle")]);
}

#[test]
fn multistate_unknown_destination_is_e0430() {
    let errors = extract_str(
        "#automaton Sm { \
         #states: [Idle, Running]; \
         #transition start -> Bogus { } \
         }",
    )
    .unwrap_err();
    assert!(errors.iter().any(|e| matches!(
        e,
        EffectError::UnknownState {
            ref automaton,
            ref transition,
            ref target,
            ..
        } if automaton == "Sm" && transition == "start" && target == "Bogus"
    )));
}

#[test]
fn duplicate_transition_in_same_automaton_is_e0432() {
    let errors = extract_str(
        "#automaton Sm { \
         #states: [Idle, Running]; \
         #transition tick -> Running { } \
         #transition tick -> Idle { } \
         }",
    )
    .unwrap_err();
    assert!(errors.iter().any(|e| matches!(
        e,
        EffectError::DuplicateTransition {
            ref automaton,
            ref transition,
            ..
        } if automaton == "Sm" && transition == "tick"
    )));
}

#[test]
fn errors_collected_not_fail_fast() {
    let errors = extract_str(
        "#automaton Sm { \
         #states: [Idle, Running]; \
         #transition first -> Bogus { } \
         #transition second -> AlsoBogus { } \
         #transition third -> Running { } \
         #transition third -> Idle { } \
         }",
    )
    .unwrap_err();
    let unknown_count = errors
        .iter()
        .filter(|e| matches!(e, EffectError::UnknownState { .. }))
        .count();
    let dup_count = errors
        .iter()
        .filter(|e| matches!(e, EffectError::DuplicateTransition { .. }))
        .count();
    assert_eq!(unknown_count, 2);
    assert_eq!(dup_count, 1);
}

#[test]
fn multiple_automatons_each_get_own_category() {
    let cats = extract_str(
        "#automaton A { value: u32; } \
         #automaton B { #states: [On, Off]; #transition flip -> Off { } }",
    )
    .unwrap();
    assert_eq!(cats.len(), 2);
    assert!(cats.lookup("A").unwrap().is_monoid);
    assert!(!cats.lookup("B").unwrap().is_monoid);
    assert_eq!(cats.lookup("B").unwrap().transitions.len(), 1);
}

#[test]
fn item_index_reflects_program_position() {
    let cats = extract_str(
        "@fn helper() { } #automaton Sm { #states: [A]; } #automaton Tm { }",
    )
    .unwrap();
    assert_eq!(cats.lookup("Sm").unwrap().item_index, 1);
    assert_eq!(cats.lookup("Tm").unwrap().item_index, 2);
}

#[test]
fn realistic_program_extracts_cleanly() {
    let src = "\
        #automaton Counter {\n  \
          #basis: counter_basis;\n  \
          #states: [Idle, Counting, Halted];\n  \
          value: u32;\n  \
          #transition start -> Counting { Counter.value = 0u32; }\n  \
          #transition tick { Counter.value = Counter.value + 1u32; }\n  \
          #transition halt -> Halted { }\n\
        }";
    let cats = extract_str(src).unwrap();
    let cat = cats.lookup("Counter").unwrap();
    assert!(!cat.is_monoid);
    assert_eq!(cat.states.len(), 3);
    let trans_names: Vec<_> = cat.transitions.iter().map(|t| t.name.as_str()).collect();
    assert_eq!(trans_names, vec!["start", "tick", "halt"]);
    assert_eq!(cat.transitions[0].destination.as_deref(), Some("Counting"));
    assert!(cat.transitions[1].destination.is_none());
    assert_eq!(cat.transitions[2].destination.as_deref(), Some("Halted"));
}

#[test]
fn empty_program_has_empty_profiles() {
    let p = profiles_str("").unwrap();
    assert!(p.is_empty());
}

#[test]
fn program_without_effects_has_empty_profiles() {
    let p = profiles_str("@fn helper() { }").unwrap();
    assert!(p.is_empty());
}

#[test]
fn mutate_short_collected_as_direct_write() {
    let p = profiles_str(
        "#automaton Counter { value: u32; } \
         #effect bump() #mutates: [Counter] { Counter.value = 1u32; }",
    )
    .unwrap();
    let id = CallableId::Effect("bump".to_owned());
    let profile = p.lookup(&id).expect("bump profile");
    assert!(profile.actual_writes.contains(&make_field("Counter", "value")));
    assert!(profile.actual_automata.contains_name("Counter"));
}

#[test]
fn mutate_canonical_collected() {
    let p = profiles_str(
        "#automaton Counter { value: u32; flags: u8; } \
         #effect set_both() #mutates: [Counter] { \
           #mutate Counter { value = 1u32, flags = 0u8 }; \
         }",
    )
    .unwrap();
    let id = CallableId::Effect("set_both".to_owned());
    let profile = p.lookup(&id).expect("set_both profile");
    assert!(profile.actual_writes.contains(&make_field("Counter", "value")));
    assert!(profile.actual_writes.contains(&make_field("Counter", "flags")));
}

#[test]
fn interrupt_writes_collected() {
    let p = profiles_str(
        "#automaton Counter { value: u32; } \
         #interrupt UART_RX() #mutates: [Counter] #priority: HIGH { \
           Counter.value = Counter.value + 1u32; \
         }",
    )
    .unwrap();
    let id = CallableId::Interrupt("UART_RX".to_owned());
    let profile = p.lookup(&id).expect("UART_RX profile");
    assert!(profile.actual_writes.contains(&make_field("Counter", "value")));
}

#[test]
fn transition_writes_collected() {
    let p = profiles_str(
        "#automaton Counter { value: u32; \
         #transition tick { Counter.value = Counter.value + 1u32; } \
         }",
    )
    .unwrap();
    let id = CallableId::Transition {
        automaton: "Counter".to_owned(),
        name: "tick".to_owned(),
    };
    let profile = p.lookup(&id).expect("tick profile");
    assert!(profile.actual_writes.contains(&make_field("Counter", "value")));
}

#[test]
fn proc_call_to_effect_propagates_writes() {
    let p = profiles_str(
        "#automaton Counter { value: u32; } \
         #effect inner() #mutates: [Counter] { Counter.value = 1u32; } \
         #effect bump() #mutates: [Counter] { #> inner(); }",
    )
    .unwrap();
    let bump_id = CallableId::Effect("bump".to_owned());
    let profile = p.lookup(&bump_id).expect("bump profile");
    assert!(
        profile
            .actual_writes
            .contains(&make_field("Counter", "value")),
        "bump should transitively pick up Counter.value write from inner"
    );
}

#[test]
fn proc_call_to_transition_propagates_writes() {
    let p = profiles_str(
        "#automaton Counter { value: u32; \
         #transition tick { Counter.value = Counter.value + 1u32; } \
         } \
         #effect bumper() #mutates: [Counter] { #> tick(); }",
    )
    .unwrap();
    let bumper_id = CallableId::Effect("bumper".to_owned());
    let profile = p.lookup(&bumper_id).expect("bumper profile");
    assert!(
        profile
            .actual_writes
            .contains(&make_field("Counter", "value")),
        "bumper should transitively pick up Counter.value write from tick"
    );
}

#[test]
fn deep_proc_call_chain_propagates_all_writes() {
    let p = profiles_str(
        "#automaton Counter { value: u32; } \
         #effect c() #mutates: [Counter] { Counter.value = 0u32; } \
         #effect b() #mutates: [Counter] { #> c(); } \
         #effect a() #mutates: [Counter] { #> b(); }",
    )
    .unwrap();
    let a_id = CallableId::Effect("a".to_owned());
    let profile = p.lookup(&a_id).expect("a profile");
    assert!(
        profile
            .actual_writes
            .contains(&make_field("Counter", "value")),
        "a should transitively reach Counter.value through b -> c"
    );
}

#[test]
fn effect_writing_undeclared_automaton_is_e0410() {
    let errors = profiles_str(
        "#automaton Counter { value: u32; } \
         #effect bump() #mutates: [] { Counter.value = 1u32; }",
    )
    .unwrap_err();
    assert!(errors.iter().any(|e| matches!(
        e,
        EffectError::EffectMutatesUndeclaredAutomaton {
            ref callable,
            ref automaton,
            ..
        } if callable == "bump" && automaton == "Counter"
    )));
}

#[test]
fn transitive_undeclared_mutate_is_e0410() {
    let errors = profiles_str(
        "#automaton Counter { value: u32; } \
         #effect inner() #mutates: [Counter] { Counter.value = 1u32; } \
         #effect bump() #mutates: [] { #> inner(); }",
    )
    .unwrap_err();
    assert!(errors.iter().any(|e| matches!(
        e,
        EffectError::EffectMutatesUndeclaredAutomaton {
            ref callable,
            ..
        } if callable == "bump"
    )));
}

#[test]
fn effect_writing_excluded_automaton_is_e0411() {
    let errors = profiles_str(
        "#automaton Counter { value: u32; } \
         #effect bump() #mutates: [Counter] #cannot_mutate: [Counter] { \
           Counter.value = 1u32; \
         }",
    )
    .unwrap_err();
    assert!(errors.iter().any(|e| matches!(
        e,
        EffectError::EffectMutatesExcludedAutomaton {
            ref callable,
            ref automaton,
            ..
        } if callable == "bump" && automaton == "Counter"
    )));
}

#[test]
fn correctly_declared_mutate_is_clean() {
    let p = profiles_str(
        "#automaton Counter { value: u32; } \
         #effect bump() #mutates: [Counter] { Counter.value = 1u32; }",
    );
    assert!(p.is_ok(), "got errors: {:?}", p);
}

#[test]
fn effect_writing_two_automatons_validated_correctly() {
    let p = profiles_str(
        "#automaton A { x: u32; } \
         #automaton B { y: u32; } \
         #effect both() #mutates: [A, B] { A.x = 1u32; B.y = 2u32; }",
    );
    assert!(p.is_ok(), "got errors: {:?}", p);
    let id = CallableId::Effect("both".to_owned());
    let p = p.unwrap();
    let profile = p.lookup(&id).expect("both profile");
    assert_eq!(profile.actual_automata.len(), 2);
    assert!(profile.actual_automata.contains_name("A"));
    assert!(profile.actual_automata.contains_name("B"));
}

#[test]
fn realistic_program_profiles_correctly() {
    let src = "\
        #automaton Counter {\n  \
          value: u32;\n  \
          #transition tick { Counter.value = Counter.value + 1u32; }\n\
        }\n\
        #effect bump() #mutates: [Counter] {\n  \
          #> tick();\n\
        }\n\
        #effect double() #mutates: [Counter] {\n  \
          #> bump();\n  \
          #> bump();\n\
        }\n\
    ";
    let p = profiles_str(src).expect("profile extraction");

    let tick_id = CallableId::Transition {
        automaton: "Counter".to_owned(),
        name: "tick".to_owned(),
    };
    assert!(p
        .lookup(&tick_id)
        .unwrap()
        .actual_writes
        .contains(&make_field("Counter", "value")));

    let bump_id = CallableId::Effect("bump".to_owned());
    assert!(p
        .lookup(&bump_id)
        .unwrap()
        .actual_writes
        .contains(&make_field("Counter", "value")));

    let double_id = CallableId::Effect("double".to_owned());
    assert!(p
        .lookup(&double_id)
        .unwrap()
        .actual_writes
        .contains(&make_field("Counter", "value")));
}

#[test]
fn mutual_recursion_terminates() {
    let src = "#automaton Counter { value: u32; } \
               #effect a() #mutates: [Counter] { Counter.value = 1u32; #> b(); } \
               #effect b() #mutates: [Counter] { #> a(); }";
    let p = profiles_str(src).expect("should not infinite-loop");
    let a_id = CallableId::Effect("a".to_owned());
    let b_id = CallableId::Effect("b".to_owned());
    assert!(p
        .lookup(&a_id)
        .unwrap()
        .actual_writes
        .contains(&make_field("Counter", "value")));
    assert!(p
        .lookup(&b_id)
        .unwrap()
        .actual_writes
        .contains(&make_field("Counter", "value")));
}

#[test]
fn empty_program_has_empty_graph() {
    let g = graph_str("").unwrap();
    assert!(g.is_empty());
}

#[test]
fn callable_with_no_proc_calls_has_no_outgoing_edges() {
    let g = graph_str(
        "#automaton Counter { value: u32; } \
         #effect bump() #mutates: [Counter] { Counter.value = 1u32; }",
    )
    .unwrap();
    assert!(g.is_empty(), "no #> calls → no edges");
}

#[test]
fn linear_chain_two_callables_clean() {
    let g = graph_str(
        "#effect a() #mutates: [] { } \
         #effect b() #mutates: [] { #> a(); }",
    )
    .unwrap();
    let b_id = CallableId::Effect("b".to_owned());
    let a_id = CallableId::Effect("a".to_owned());
    let b_callees = g.callees(&b_id).expect("b has callees");
    assert!(b_callees.contains(&a_id));
    assert!(g.callees(&a_id).is_none());
}

#[test]
fn linear_chain_three_callables_clean() {
    let g = graph_str(
        "#effect a() #mutates: [] { } \
         #effect b() #mutates: [] { #> a(); } \
         #effect c() #mutates: [] { #> b(); }",
    )
    .unwrap();
    assert_eq!(g.len(), 2); // c and b have outgoing edges
}

#[test]
fn self_loop_is_e0422() {
    let errors = graph_str(
        "#effect recursive() #mutates: [] { #> recursive(); }",
    )
    .unwrap_err();
    assert_eq!(errors.len(), 1);
    match &errors[0] {
        EffectError::ProcCallCycle { cycle, cycle_display } => {
            assert_eq!(cycle.len(), 1);
            assert!(cycle[0].contains("recursive"));
            assert!(cycle_display.contains("recursive"));
        }
        other => panic!("expected ProcCallCycle, got {:?}", other),
    }
}

#[test]
fn mutual_recursion_is_e0422() {
    let errors = graph_str(
        "#effect a() #mutates: [] { #> b(); } \
         #effect b() #mutates: [] { #> a(); }",
    )
    .unwrap_err();
    assert_eq!(errors.len(), 1);
    match &errors[0] {
        EffectError::ProcCallCycle { cycle, .. } => {
            assert_eq!(cycle.len(), 2);
            let names: HashSet<&str> =
                cycle.iter().map(|s| s.as_str()).collect();
            assert!(names.iter().any(|n| n.contains('a')));
            assert!(names.iter().any(|n| n.contains('b')));
        }
        _ => panic!(),
    }
}

#[test]
fn three_cycle_is_e0422() {
    let errors = graph_str(
        "#effect a() #mutates: [] { #> b(); } \
         #effect b() #mutates: [] { #> c(); } \
         #effect c() #mutates: [] { #> a(); }",
    )
    .unwrap_err();
    assert_eq!(errors.len(), 1);
    match &errors[0] {
        EffectError::ProcCallCycle { cycle, cycle_display } => {
            assert_eq!(cycle.len(), 3);
            assert!(cycle_display.contains('→'));
        }
        _ => panic!(),
    }
}

#[test]
fn two_disjoint_cycles_both_reported() {
    let errors = graph_str(
        "#effect a() #mutates: [] { #> b(); } \
         #effect b() #mutates: [] { #> a(); } \
         #effect c() #mutates: [] { #> d(); } \
         #effect d() #mutates: [] { #> c(); }",
    )
    .unwrap_err();
    assert_eq!(
        errors.len(),
        2,
        "expected two disjoint cycles, got {} errors: {:?}",
        errors.len(),
        errors
    );
}

#[test]
fn transition_self_call_cycle_caught() {
    let errors = graph_str(
        "#automaton Sm { value: u32; \
         #transition tick { #> tick(); } \
         }",
    )
    .unwrap_err();
    assert_eq!(errors.len(), 1);
    match &errors[0] {
        EffectError::ProcCallCycle { cycle, .. } => {
            assert_eq!(cycle.len(), 1);
            assert!(cycle[0].contains("tick"));
        }
        _ => panic!(),
    }
}

#[test]
fn diamond_dag_is_clean() {
    let g = graph_str(
        "#effect d() #mutates: [] { } \
         #effect c() #mutates: [] { #> d(); } \
         #effect b() #mutates: [] { #> d(); } \
         #effect a() #mutates: [] { #> b(); #> c(); }",
    );
    assert!(g.is_ok(), "diamond is a DAG, should be clean: {:?}", g);
}

#[test]
fn cycle_reported_once_regardless_of_dfs_entry() {
    let errors = graph_str(
        "#effect a() #mutates: [] { #> b(); } \
         #effect b() #mutates: [] { #> a(); }",
    )
    .unwrap_err();
    assert_eq!(errors.len(), 1, "cycle should be reported once");
}

#[test]
fn effect_realistic_clean_program() {
    let g = graph_str(
        "#automaton Counter { value: u32; \
         #transition tick { Counter.value = Counter.value + 1u32; } \
         #transition reset { Counter.value = 0u32; } \
         } \
         #effect bump() #mutates: [Counter] { #> tick(); } \
         #effect zap()  #mutates: [Counter] { #> reset(); }",
    );
    assert!(g.is_ok(), "should be clean: {:?}", g);
}

#[test]
fn empty_program_has_empty_overlap() {
    let o = overlap_str("");
    assert!(o.is_empty());
}

#[test]
fn no_interrupts_means_no_overlap() {
    let o = overlap_str(
        "#automaton C { v: u32; } \
         #effect e() #mutates: [C] { C.v = 1u32; }",
    );
    assert!(o.is_empty());
    assert!(!o.is_overlapped("C"));
    assert!(o.interrupts_for("C").is_empty());
}

#[test]
fn single_interrupt_one_automaton_overlap() {
    let o = overlap_str(
        "#automaton Counter { value: u32; } \
         #interrupt UART_RX() #mutates: [Counter] #priority: HIGH { \
           Counter.value = 1u32; \
         }",
    );
    assert!(o.is_overlapped("Counter"));
    assert!(o.interrupts_for("Counter").contains_name("UART_RX"));
    assert_eq!(o.interrupts_for("Counter").len(), 1);
}

#[test]
fn two_interrupts_same_automaton_both_overlap() {
    let o = overlap_str(
        "#automaton Counter { value: u32; } \
         #interrupt UART_RX() #mutates: [Counter] #priority: HIGH { \
           Counter.value = 1u32; \
         } \
         #interrupt TIMER() #mutates: [Counter] #priority: LOW { \
           Counter.value = Counter.value + 1u32; \
         }",
    );
    let interrupts = o.interrupts_for("Counter");
    assert_eq!(interrupts.len(), 2);
    assert!(interrupts.contains_name("UART_RX"));
    assert!(interrupts.contains_name("TIMER"));
}

#[test]
fn one_interrupt_two_automatons_both_overlap() {
    let o = overlap_str(
        "#automaton A { x: u32; } \
         #automaton B { y: u32; } \
         #interrupt SHARED() #mutates: [A, B] #priority: HIGH { \
           A.x = 1u32; B.y = 2u32; \
         }",
    );
    assert!(o.is_overlapped("A"));
    assert!(o.is_overlapped("B"));
    assert!(o.interrupts_for("A").contains_name("SHARED"));
    assert!(o.interrupts_for("B").contains_name("SHARED"));
}

#[test]
fn transitive_interrupt_overlap_through_proc_call() {
    let o = overlap_str(
        "#automaton Counter { value: u32; } \
         #effect inner() #mutates: [Counter] { Counter.value = 1u32; } \
         #interrupt OUTER() #mutates: [Counter] #priority: HIGH { \
           #> inner(); \
         }",
    );
    assert!(o.is_overlapped("Counter"));
    assert!(o.interrupts_for("Counter").contains_name("OUTER"));
}

#[test]
fn effects_alone_dont_create_overlap() {
    let o = overlap_str(
        "#automaton Counter { value: u32; } \
         #effect a() #mutates: [Counter] { Counter.value = 1u32; } \
         #effect b() #mutates: [Counter] { Counter.value = 2u32; } \
         #effect c() #mutates: [Counter] { Counter.value = 3u32; }",
    );
    assert!(o.is_empty(), "effects shouldn't create overlap");
}

#[test]
fn realistic_irq_plus_consumer() {
    let o = overlap_str(
        "#automaton UartRx { data: u8; head: usize; tail: usize; } \
         #interrupt UART_RX_IRQ() #mutates: [UartRx] #priority: HIGH { \
           UartRx.head = UartRx.head + 1usize; \
         } \
         #effect consume_byte() #mutates: [UartRx] { \
           UartRx.tail = UartRx.tail + 1usize; \
         }",
    );
    assert!(o.is_overlapped("UartRx"));
    assert_eq!(o.interrupts_for("UartRx").len(), 1);
    assert!(o.interrupts_for("UartRx").contains_name("UART_RX_IRQ"));
}

#[test]
fn lookup_for_nonexistent_automaton_returns_empty() {
    let o = overlap_str(
        "#automaton C { v: u32; } \
         #interrupt I() #mutates: [C] #priority: HIGH { C.v = 1u32; }",
    );
    assert!(o.interrupts_for("Nonexistent").is_empty());
    assert!(!o.is_overlapped("Nonexistent"));
}

#[test]
fn all_iterator_returns_every_overlapped_automaton() {
    let o = overlap_str(
        "#automaton A { x: u32; } \
         #automaton B { y: u32; } \
         #automaton C { z: u32; } \
         #interrupt I1() #mutates: [A] #priority: HIGH { A.x = 1u32; } \
         #interrupt I2() #mutates: [B] #priority: LOW { B.y = 1u32; }",
    );
    let names: HashSet<&String> = o.all().iter().map(|(name, _)| name).collect();
    assert_eq!(names.len(), 2);
    assert!(names.iter().any(|n| n.as_str() == "A"));
    assert!(names.iter().any(|n| n.as_str() == "B"));
    assert!(!names.iter().any(|n| n.as_str() == "C"));
}

#[test]
fn flush_records_one_write_per_field() {
    let profiles = profiles_str(
        "#staged #automaton S { a: u32; b: u32; c: u32; } \
         #effect commit() #mutates: [S] { #flush S; return; }",
    )
    .expect("profile extraction");
    let id = CallableId::Effect("commit".to_owned());
    let p = profiles.lookup(&id).expect("profile for commit");
    assert!(
        p.actual_writes.contains(&make_field("S", "a")),
        "expected #flush to record write to S.a; got {:?}",
        p.actual_writes
    );
    assert!(
        p.actual_writes.contains(&make_field("S", "b")),
        "expected #flush to record write to S.b; got {:?}",
        p.actual_writes
    );
    assert!(
        p.actual_writes.contains(&make_field("S", "c")),
        "expected #flush to record write to S.c; got {:?}",
        p.actual_writes
    );
    assert!(p.actual_automata.contains_name("S"));
}

#[test]
fn flush_outside_mutates_clause_is_e0410() {
    let errors = profiles_str(
        "#staged #automaton S { a: u32; } \
         #effect bad_commit() #mutates: [] { #flush S; return; }",
    )
    .expect_err("expected E0410 for flush outside #mutates");
    assert!(
        errors.iter().any(|e| matches!(
            e,
            EffectError::EffectMutatesUndeclaredAutomaton {
                ref callable,
                ref automaton,
                ..
            } if callable == "bad_commit" && automaton == "S"
        )),
        "expected E0410 for `bad_commit` writing `S` via flush; got {errors:?}"
    );
}

#[test]
fn flush_inside_mutates_clause_is_well_formed() {
    let profiles = profiles_str(
        "#staged #automaton S { a: u32; } \
         #effect commit() #mutates: [S] { #flush S; return; }",
    )
    .expect("happy-path extraction");
    let id = CallableId::Effect("commit".to_owned());
    assert!(profiles.lookup(&id).is_some(), "profile present for commit");
}

#[test]
fn flush_transitively_propagates_through_proc_call() {
    let errors = profiles_str(
        "#staged #automaton S { a: u32; } \
         #effect inner() #mutates: [S] { #flush S; return; } \
         #effect outer() #mutates: [] { #> inner(); }",
    )
    .expect_err("expected E0410 for transitive flush");
    assert!(
        errors.iter().any(|e| matches!(
            e,
            EffectError::EffectMutatesUndeclaredAutomaton {
                ref callable,
                ..
            } if callable == "outer"
        )),
        "expected E0410 on `outer` via transitive flush; got {errors:?}"
    );
}

// ─── Code generation ───────────────────────────────────────────────────────

#[test]
fn empty_program_emits_module_header() {
    let ir = lower_str("").expect("empty program lowers");
    assert!(ir.contains("ModuleID = 'test'"), "missing ModuleID; got:\n{ir}");
    assert!(
        ir.contains("source_filename = \"test\""),
        "missing source_filename; got:\n{ir}"
    );
}

#[test]
fn non_fn_items_now_lowered_per_slice_3() {
    let src = "#automaton C { v: u32; }\n@fn add(a: u32, b: u32) -> u32 { return a; }\n";
    let ir = lower_str(src).expect("partial program lowers");
    assert!(
        ir.contains("define i32 @add"),
        "expected @add to be lowered; got:\n{ir}"
    );
    assert!(
        ir.contains("%struct.C = type { i32 }"),
        "expected state struct for #automaton C; got:\n{ir}"
    );
    assert!(
        ir.contains("@C.state = global %struct.C zeroinitializer"),
        "expected zero-initialised global state; got:\n{ir}"
    );
}

#[test]
fn fn_no_params_void_return() {
    let ir = lower_str("@fn nothing() { return; }").expect("lower nothing");
    assert!(
        ir.contains("define void @nothing() {"),
        "expected void no-arg signature; got:\n{ir}"
    );
    assert!(ir.contains("ret void"), "missing ret void; got:\n{ir}");
}

#[test]
fn fn_with_primitive_params_and_return() {
    let ir = lower_str("@fn id(x: u32) -> u32 { return x; }").expect("lower id");
    assert!(
        ir.contains("define i32 @id(i32 %x) {"),
        "expected `define i32 @id(i32 %x)`; got:\n{ir}"
    );
    assert!(ir.contains("ret i32 %x"), "expected `ret i32 %x`; got:\n{ir}");
}

#[test]
fn fn_bool_param_lowers_to_i1() {
    let ir = lower_str("@fn neg(b: bool) -> bool { return b; }").expect("lower neg");
    assert!(
        ir.contains("define i1 @neg(i1 %b)"),
        "expected i1 for bool; got:\n{ir}"
    );
}

#[test]
fn fn_returning_int_literal() {
    let ir = lower_str("@fn five() -> u32 { return 5u32; }").expect("lower five");
    assert!(
        ir.contains("define i32 @five()") && ir.contains("ret i32 5"),
        "expected literal lowering; got:\n{ir}"
    );
}

#[test]
fn fn_with_simple_arithmetic() {
    let ir = lower_str("@fn add(a: u32, b: u32) -> u32 { return a + b; }")
        .expect("lower add");
    assert!(
        ir.contains("add i32 %a, %b"),
        "expected `add i32 %a, %b`; got:\n{ir}"
    );
    assert!(ir.contains("ret i32 %tmp."), "expected ret of SSA temp; got:\n{ir}");
}

#[test]
fn fn_with_multiple_arithmetic_ops() {
    let ir = lower_str("@fn calc(a: u32, b: u32) -> u32 { return a * b - a; }")
        .expect("lower calc");
    assert!(ir.contains("mul i32"), "expected mul; got:\n{ir}");
    assert!(ir.contains("sub i32"), "expected sub; got:\n{ir}");
}

#[test]
fn fn_with_call_expression() {
    let src = "\
        @fn double(x: u32) -> u32 { return x; }\n\
        @fn caller(n: u32) -> u32 { return double(n); }\n\
    ";
    let ir = lower_str(src).expect("lower call");
    assert!(ir.contains("define i32 @double"), "missing double; got:\n{ir}");
    assert!(
        ir.contains("call i32 @double(i32 %n)"),
        "expected call site; got:\n{ir}"
    );
}

#[test]
fn fn_with_let_binding() {
    let ir = lower_str("@fn use_let(a: u32) -> u32 { let _x: u32 = a; return _x; }")
        .expect("lower let");
    assert!(
        ir.contains("add i32 0, %a"),
        "expected SSA-bind via add 0,a; got:\n{ir}"
    );
}

#[test]
fn fn_with_let_short_binding() {
    let ir = lower_str("@fn use_letshort(a: u32) -> u32 { let _x := a; return _x; }")
        .expect("lower let-short");
    assert!(
        ir.contains("add i32 0, %a"),
        "expected SSA-bind for let-short; got:\n{ir}"
    );
}

#[test]
fn multiple_fns_each_emit_independently() {
    let src = "\
        @fn one() -> u32 { return 1u32; }\n\
        @fn two() -> u32 { return 2u32; }\n\
    ";
    let ir = lower_str(src).expect("lower two fns");
    assert!(ir.contains("define i32 @one()"), "missing @one; got:\n{ir}");
    assert!(ir.contains("define i32 @two()"), "missing @two; got:\n{ir}");
    assert!(ir.contains("ret i32 1"), "expected ret 1; got:\n{ir}");
    assert!(ir.contains("ret i32 2"), "expected ret 2; got:\n{ir}");
}

#[test]
fn tuple_expression_now_lowered_per_slice_6() {
    let src = "@fn t() { let _x := (1u32, 2u32); return; }";
    let ir = lower_str(src).expect("lowers tuple literal");
    assert!(
        ir.contains("insertvalue {i32, i32} undef, i32 1, 0"),
        "expected first insertvalue at index 0; got:\n{ir}"
    );
    assert!(
        ir.contains(", i32 2, 1"),
        "expected second insertvalue at index 1; got:\n{ir}"
    );
}

#[test]
fn unsupported_type_emits_e0810() {
    let src = "@fn r(p: access<u32>) -> u32 { return 0u32; }";
    let errors = lower_str(src).expect_err("expected E0810 for access<T>");
    let saw = errors
        .iter()
        .any(|e| matches!(e, CodegenError::NotYetImplemented { what } if *what == "access<T> type"));
    assert!(saw, "expected NotYetImplemented(access); got {errors:?}");
}

#[test]
fn all_primitive_types_map_correctly() {
    for (clf_ty, expected_ir) in [
        ("u8", "i8"),
        ("u16", "i16"),
        ("u32", "i32"),
        ("u64", "i64"),
        ("usize", "i64"),
        ("i8", "i8"),
        ("i16", "i16"),
        ("i32", "i32"),
        ("i64", "i64"),
        ("isize", "i64"),
        ("f32", "float"),
        ("f64", "double"),
        ("bool", "i1"),
    ] {
        let src = format!("@fn p(x: {clf_ty}) {{ return; }}");
        let ir = lower_str(&src).unwrap_or_else(|e| panic!("lowering {clf_ty}: {e:?}"));
        assert!(
            ir.contains(&format!("define void @p({expected_ir} %x)")),
            "expected {clf_ty} → {expected_ir}; got:\n{ir}"
        );
    }
}

#[test]
fn hex_literal_lowers_to_decimal() {
    let ir =
        lower_str("@fn h() -> u32 { return 0xFFu32; }").expect("lower hex");
    assert!(ir.contains("ret i32 255"), "expected hex→255; got:\n{ir}");
}

#[test]
fn binary_literal_lowers_to_decimal() {
    let ir = lower_str("@fn b() -> u32 { return 0b1010u32; }").expect("lower bin");
    assert!(ir.contains("ret i32 10"), "expected bin→10; got:\n{ir}");
}

#[test]
fn same_input_same_output() {
    let src = "@fn add(a: u32, b: u32) -> u32 { return a + b; }";
    let a = lower_str(src).expect("lower 1");
    let b = lower_str(src).expect("lower 2");
    assert_eq!(a, b, "codegen output must be deterministic");
}

#[test]
fn snapshot_canonical_add_fn() {
    let ir = lower_str("@fn add(a: u32, b: u32) -> u32 { return a + b; }")
        .expect("lower add");
    let expected = "; ModuleID = 'test'\nsource_filename = \"test\"\n\ndefine i32 @add(i32 %a, i32 %b) {\nentry:\n  %tmp.0 = add i32 %a, %b\n  ret i32 %tmp.0\n}\n\n";
    assert_eq!(ir, expected, "IR shape changed; got:\n{ir}");
}

#[test]
fn snapshot_canonical_call_chain() {
    let src = "\
        @fn double(x: u32) -> u32 { return x; }\n\
        @fn caller(n: u32) -> u32 { let _y: u32 = double(n); return _y; }\n\
    ";
    let ir = lower_str(src).expect("lower call chain");
    let double_pos = ir.find("define i32 @double").expect("missing @double");
    let caller_pos = ir.find("define i32 @caller").expect("missing @caller");
    assert!(double_pos < caller_pos, "fn order should match source");
    assert!(
        ir.contains("call i32 @double(i32 %n)"),
        "expected typed call site; got:\n{ir}"
    );
    assert!(
        ir.contains("add i32 0,"),
        "expected SSA-bind via add 0,...; got:\n{ir}"
    );
    let double_tmp_zero = ir.matches("%tmp.0 ").count();
    assert!(
        double_tmp_zero >= 1,
        "expected %tmp.0 in at least one fn; got:\n{ir}"
    );
}

#[test]
fn s2_signed_div_uses_sdiv() {
    let ir = lower_str("@fn d(a: i32, b: i32) -> i32 { return a / b; }")
        .expect("lower signed div");
    assert!(ir.contains("sdiv i32"), "expected sdiv; got:\n{ir}");
    assert!(!ir.contains("udiv i32"), "should not have udiv; got:\n{ir}");
}

#[test]
fn s2_signed_rem_uses_srem() {
    let ir = lower_str("@fn r(a: i32, b: i32) -> i32 { return a % b; }")
        .expect("lower signed rem");
    assert!(ir.contains("srem i32"), "expected srem; got:\n{ir}");
}

#[test]
fn s2_unsigned_div_still_uses_udiv() {
    let ir = lower_str("@fn d(a: u32, b: u32) -> u32 { return a / b; }")
        .expect("lower unsigned div");
    assert!(ir.contains("udiv i32"), "expected udiv; got:\n{ir}");
}

#[test]
fn s2_unary_neg_int() {
    let ir = lower_str("@fn n(x: i32) -> i32 { return -x; }").expect("lower neg");
    assert!(ir.contains("sub i32 0, %x"), "expected sub 0,x; got:\n{ir}");
}

#[test]
fn s2_unary_not_bool() {
    let ir = lower_str("@fn no(b: bool) -> bool { return !b; }").expect("lower not");
    assert!(ir.contains("xor i1 %b, true"), "expected xor i1; got:\n{ir}");
}

#[test]
fn s2_unary_bitnot_int() {
    let ir = lower_str("@fn bn(x: u32) -> u32 { return ~x; }").expect("lower bitnot");
    assert!(ir.contains("xor i32 %x, -1"), "expected xor -1; got:\n{ir}");
}

#[test]
fn s2_ref_type_in_signature() {
    let ir = lower_str("@fn r(p: &u32) -> u32 { return 0u32; }")
        .expect("lower ref signature");
    assert!(
        ir.contains("define i32 @r(i32* %p)"),
        "expected i32* param; got:\n{ir}"
    );
}

#[test]
fn s2_ref_mut_type_in_signature() {
    let ir = lower_str("@fn r(p: &mut u32) -> u32 { return 0u32; }")
        .expect("lower &mut signature");
    assert!(
        ir.contains("define i32 @r(i32* %p)"),
        "expected i32* (mut as attr later); got:\n{ir}"
    );
}

#[test]
fn s2_array_type_in_signature() {
    let ir = lower_str("@fn a(buf: [u8; 64]) { return; }")
        .expect("lower array signature");
    assert!(
        ir.contains("define void @a([64 x i8] %buf)"),
        "expected [64 x i8] param; got:\n{ir}"
    );
}

#[test]
fn s2_tuple_type_in_signature() {
    let ir = lower_str("@fn t(p: (u32, bool)) { return; }")
        .expect("lower tuple signature");
    assert!(
        ir.contains("define void @t({i32, i1} %p)"),
        "expected {{i32, i1}} param; got:\n{ir}"
    );
}

#[test]
fn s2_deref_loads_through_ref() {
    let ir = lower_str("@fn d(p: &u32) -> u32 { return *p; }")
        .expect("lower deref");
    assert!(
        ir.contains("load i32, i32* %p"),
        "expected typed load; got:\n{ir}"
    );
}

#[test]
fn s2_typing_path_lookup_uses_recorded_type() {
    let ir = lower_str("@fn f(a: u8) -> u8 { let _x: u8 = a; return _x; }")
        .expect("lower typed let");
    assert!(
        ir.contains("add i8 0, %a"),
        "expected SSA-bind via add i8; got:\n{ir}"
    );
    assert!(
        ir.contains("ret i8 %tmp."),
        "expected ret i8 of bound value; got:\n{ir}"
    );
}

#[test]
fn s2_call_return_type_via_typing() {
    let src = "\
        @fn returns_bool() -> bool { return true; }\n\
        @fn caller() -> bool { return returns_bool(); }\n\
    ";
    let ir = lower_str(src).expect("lower bool-returning call");
    assert!(
        ir.contains("call i1 @returns_bool()"),
        "expected `call i1` for bool-returning fn; got:\n{ir}"
    );
}

#[test]
fn s2_signed_division_with_signed_param() {
    let ir = lower_str("@fn d(a: i64, b: i64) -> i64 { return a / b; }")
        .expect("lower i64 div");
    assert!(ir.contains("sdiv i64"), "expected sdiv i64; got:\n{ir}");
}

#[test]
fn s2_isize_treated_as_signed() {
    let ir = lower_str("@fn d(a: isize, b: isize) -> isize { return a / b; }")
        .expect("lower isize div");
    assert!(ir.contains("sdiv i64"), "expected sdiv i64; got:\n{ir}");
}

#[test]
fn s2_usize_treated_as_unsigned() {
    let ir = lower_str("@fn d(a: usize, b: usize) -> usize { return a / b; }")
        .expect("lower usize div");
    assert!(ir.contains("udiv i64"), "expected udiv i64; got:\n{ir}");
}

#[test]
fn s3_automaton_state_struct_emitted() {
    let ir = lower_str("#automaton Counter { value: u32; }\n").expect("lower automaton");
    assert!(
        ir.contains("%struct.Counter = type { i32 }"),
        "expected state struct; got:\n{ir}"
    );
    assert!(
        ir.contains("@Counter.state = global %struct.Counter zeroinitializer"),
        "expected zero-initialised global; got:\n{ir}"
    );
}

#[test]
fn s3_multi_field_struct_layout() {
    let src = "#automaton Multi { a: u32; b: bool; c: u8; }\n";
    let ir = lower_str(src).expect("lower multi-field");
    assert!(
        ir.contains("%struct.Multi = type { i32, i1, i8 }"),
        "expected ordered field layout; got:\n{ir}"
    );
}

#[test]
fn s3_register_block_automaton_skipped() {
    let src = "#automaton Mmio { ctrl: u32 #offset: 0x00; #address: 0x4000_0000; }\n";
    let ir = lower_str(src).expect("lower register block");
    assert!(
        !ir.contains("%struct.Mmio"),
        "register-block should be skipped; got:\n{ir}"
    );
    assert!(
        !ir.contains("@Mmio.state"),
        "register-block should not emit a global; got:\n{ir}"
    );
}

#[test]
fn s3_effect_lowers_to_define() {
    let src = "\
        #automaton Counter { value: u32; }\n\
        #effect tick() #mutates: [Counter] { return; }\n\
    ";
    let ir = lower_str(src).expect("lower effect");
    assert!(
        ir.contains("define void @tick()"),
        "expected effect fn; got:\n{ir}"
    );
}

#[test]
fn s3_mutate_short_eq_lowers_to_gep_store() {
    let src = "\
        #automaton Counter { value: u32; }\n\
        #effect set_to_five() #mutates: [Counter] { Counter.value = 5u32; }\n\
    ";
    let ir = lower_str(src).expect("lower mutate-short");
    assert!(
        ir.contains("getelementptr %struct.Counter, %struct.Counter* @Counter.state, i32 0, i32 0"),
        "expected GEP at field 0; got:\n{ir}"
    );
    assert!(
        ir.contains("store i32 5, i32* "),
        "expected typed store; got:\n{ir}"
    );
}

#[test]
fn s3_mutate_short_compound_load_op_store() {
    let src = "\
        #automaton Counter { value: u32; }\n\
        #effect inc() #mutates: [Counter] { Counter.value += 1u32; }\n\
    ";
    let ir = lower_str(src).expect("lower compound mutate");
    assert!(
        ir.contains("getelementptr %struct.Counter"),
        "expected GEP; got:\n{ir}"
    );
    assert!(
        ir.matches("load i32, i32* ").count() >= 1,
        "expected load before op; got:\n{ir}"
    );
    assert!(
        ir.contains("add i32"),
        "expected add for +=; got:\n{ir}"
    );
    assert!(
        ir.contains("store i32"),
        "expected store after op; got:\n{ir}"
    );
}

#[test]
fn s3_mutate_block_form() {
    let src = "\
        #automaton Counter { value: u32; flag: bool; }\n\
        #effect setup() #mutates: [Counter] {\n  \
          #mutate Counter { value = 7u32, flag = true };\n\
        }\n\
    ";
    let ir = lower_str(src).expect("lower mutate block");
    assert!(
        ir.matches("getelementptr %struct.Counter").count() >= 2,
        "expected GEPs for both field assigns; got:\n{ir}"
    );
    assert!(
        ir.contains("store i32 7, i32* "),
        "expected store i32 7; got:\n{ir}"
    );
    assert!(
        ir.contains("store i1 1, i1* ") || ir.contains("store i1 true, i1* "),
        "expected store i1 for flag; got:\n{ir}"
    );
}

#[test]
fn s3_field_read_in_effect_body() {
    let src = "\
        #automaton Counter { value: u32; }\n\
        #effect read() #mutates: [Counter] {\n  \
          let _v: u32 = Counter.value;\n  \
          return;\n\
        }\n\
    ";
    let ir = lower_str(src).expect("lower field read");
    assert!(
        ir.contains("getelementptr %struct.Counter"),
        "expected GEP for read; got:\n{ir}"
    );
    assert!(
        ir.contains("load i32, i32* "),
        "expected typed load; got:\n{ir}"
    );
}

#[test]
fn s3_transition_lowers_to_namespaced_fn() {
    let src = "\
        #automaton Counter { value: u32;\n  \
          #transition tick { Counter.value = 1u32; }\n\
        }\n\
    ";
    let ir = lower_str(src).expect("lower transition");
    assert!(
        ir.contains("define void @Counter_tick()"),
        "expected namespaced transition fn; got:\n{ir}"
    );
}

#[test]
fn s3_self_field_read_in_transition() {
    let src = "\
        #automaton Counter { value: u32;\n  \
          #transition double {\n    \
            let _v: u32 = Self.value;\n    \
            Counter.value = _v;\n  \
          }\n\
        }\n\
    ";
    let ir = lower_str(src).expect("lower Self");
    assert!(
        ir.contains("getelementptr %struct.Counter"),
        "expected GEP for Self.value; got:\n{ir}"
    );
    assert!(
        ir.contains("load i32, i32*"),
        "expected load i32 for read; got:\n{ir}"
    );
    assert!(
        ir.contains("store i32"),
        "expected store i32 for write; got:\n{ir}"
    );
}

#[test]
fn s3_proc_call_to_effect_uses_bare_name() {
    let src = "\
        #automaton C { v: u32; }\n\
        #effect helper() #mutates: [C] { return; }\n\
        #effect main() #mutates: [C] { #> helper(); }\n\
    ";
    let ir = lower_str(src).expect("lower proc call");
    assert!(
        ir.contains("call void @helper()"),
        "expected bare-name call to effect; got:\n{ir}"
    );
}

#[test]
fn s3_proc_call_to_transition_uses_namespaced_name() {
    let src = "\
        #automaton Counter {\n  \
          value: u32;\n  \
          #transition tick { Counter.value = 1u32; }\n  \
          #transition twice { #> tick(); #> tick(); }\n\
        }\n\
    ";
    let ir = lower_str(src).expect("lower transition-to-transition");
    assert!(
        ir.contains("call void @Counter_tick()"),
        "expected namespaced call from one transition to another; got:\n{ir}"
    );
}

#[test]
fn s3_interrupt_emits_define_with_source_name() {
    let src = "\
        #automaton T { x: u32; }\n\
        #interrupt SysTick() #mutates: [T] #priority: HIGH { return; }\n\
    ";
    let ir = lower_str(src).expect("lower interrupt");
    assert!(
        ir.contains("define void @SysTick()"),
        "expected SysTick fn; got:\n{ir}"
    );
}

#[test]
fn s3_register_block_field_access_now_supported_per_slice_4() {
    let src = "\
        #automaton Mmio { #address: 0x4000_0000; ctl: u32 #offset: 0x00; }\n\
        #effect r() #mutates: [Mmio] { let _x: u32 = Mmio.ctl; return; }\n\
    ";
    let ir = lower_str(src).expect("lowers register-block reads");
    assert!(
        ir.contains("load volatile i32, i32* inttoptr (i64 1073741824 to i32*)"),
        "expected volatile load at MMIO address; got:\n{ir}"
    );
}

#[test]
fn s4_register_block_field_read_volatile_load() {
    let src = "\
        #automaton Mmio { #address: 0x4000_0000; ctl: u32 #offset: 0x00; }\n\
        #effect r() #mutates: [Mmio] { let _x: u32 = Mmio.ctl; return; }\n\
    ";
    let ir = lower_str(src).expect("lower mmio read");
    assert!(
        ir.contains("load volatile i32, i32* inttoptr (i64 1073741824 to i32*)"),
        "expected volatile load at 0x40000000; got:\n{ir}"
    );
}

#[test]
fn s4_register_block_field_write_volatile_store() {
    let src = "\
        #automaton Mmio { #address: 0x4000_0000; ctl: u32 #offset: 0x00; }\n\
        #effect w() #mutates: [Mmio] { Mmio.ctl = 5u32; }\n\
    ";
    let ir = lower_str(src).expect("lower mmio write");
    assert!(
        ir.contains("store volatile i32 5, i32* inttoptr (i64 1073741824 to i32*)"),
        "expected volatile store at 0x40000000; got:\n{ir}"
    );
}

#[test]
fn s4_register_block_field_offset_added_to_base() {
    let src = "\
        #automaton Mmio { #address: 0x4000_0000; status: u32 #offset: 0x04; }\n\
        #effect r() #mutates: [Mmio] { let _s: u32 = Mmio.status; return; }\n\
    ";
    let ir = lower_str(src).expect("lower offset read");
    assert!(
        ir.contains("inttoptr (i64 1073741828 to i32*)"),
        "expected base+offset address; got:\n{ir}"
    );
}

#[test]
fn s4_register_block_no_state_struct_emitted() {
    let src = "#automaton Mmio { #address: 0x4000_0000; ctl: u32 #offset: 0x00; }\n";
    let ir = lower_str(src).expect("lower bare mmio");
    assert!(
        !ir.contains("%struct.Mmio"),
        "register-block should skip state struct; got:\n{ir}"
    );
    assert!(
        !ir.contains("@Mmio.state"),
        "register-block should skip global; got:\n{ir}"
    );
}

#[test]
fn s4_register_block_compound_assign() {
    let src = "\
        #automaton Mmio { #address: 0x4000_0000; ctl: u32 #offset: 0x00; }\n\
        #effect set_bit() #mutates: [Mmio] { Mmio.ctl |= 1u32; }\n\
    ";
    let ir = lower_str(src).expect("lower compound mmio");
    assert!(
        ir.contains("load volatile i32, i32* inttoptr (i64 1073741824 to i32*)"),
        "expected volatile load; got:\n{ir}"
    );
    assert!(ir.contains("or i32"), "expected or for |=; got:\n{ir}");
    assert!(
        ir.contains("store volatile i32"),
        "expected volatile store; got:\n{ir}"
    );
}

#[test]
fn s4_register_block_mutate_block_form() {
    let src = "\
        #automaton Mmio {\n  \
          #address: 0x4000_0000;\n  \
          ctl: u32 #offset: 0x00;\n  \
          status: u32 #offset: 0x04;\n\
        }\n\
        #effect setup() #mutates: [Mmio] { #mutate Mmio { ctl = 1u32, status = 2u32 }; }\n\
    ";
    let ir = lower_str(src).expect("lower mutate-block mmio");
    assert!(
        ir.contains("store volatile i32 1, i32* inttoptr (i64 1073741824 to i32*)"),
        "expected store at base; got:\n{ir}"
    );
    assert!(
        ir.contains("store volatile i32 2, i32* inttoptr (i64 1073741828 to i32*)"),
        "expected store at base+4; got:\n{ir}"
    );
}

#[test]
fn s4_register_block_transition() {
    let src = "\
        #automaton Mmio {\n  \
          #address: 0x4000_0000;\n  \
          ctl: u32 #offset: 0x00;\n  \
          #transition init { Mmio.ctl = 7u32; }\n\
        }\n\
    ";
    let ir = lower_str(src).expect("lower register-block transition");
    assert!(
        ir.contains("define void @Mmio_init()"),
        "expected namespaced transition fn; got:\n{ir}"
    );
    assert!(
        ir.contains("store volatile i32 7, i32* inttoptr (i64 1073741824 to i32*)"),
        "expected volatile store inside transition; got:\n{ir}"
    );
}

#[test]
fn s4_interrupt_has_section_interrupts() {
    let src = "\
        #automaton T { c: u32; }\n\
        #interrupt SysTick() #mutates: [T] #priority: HIGH { return; }\n\
    ";
    let ir = lower_str(src).expect("lower interrupt");
    assert!(
        ir.contains("define void @SysTick() section \".interrupts\" {"),
        "expected `section \".interrupts\"` on interrupt; got:\n{ir}"
    );
}

#[test]
fn s4_effect_does_not_get_section_attribute() {
    let src = "\
        #automaton T { c: u32; }\n\
        #effect tick() #mutates: [T] { return; }\n\
    ";
    let ir = lower_str(src).expect("lower effect");
    assert!(
        !ir.contains("section \".interrupts\""),
        "effect should not have interrupts section; got:\n{ir}"
    );
}

#[test]
fn s4_interrupt_with_acquire_fence_combines_correctly() {
    let src = "\
        #automaton T { c: u32; }\n\
        #interrupt UART1_IRQ() #mutates: [T] #priority: HIGH $ [Acquire] { return; }\n\
    ";
    let ir = lower_str(src).expect("lower interrupt+acquire");
    assert!(
        ir.contains("define void @UART1_IRQ() section \".interrupts\" {"),
        "expected section attribute; got:\n{ir}"
    );
    assert!(
        ir.contains("entry:\n  fence acquire\n"),
        "expected acquire fence in body; got:\n{ir}"
    );
}

#[test]
fn s4_full_mmio_program_lowers_cleanly() {
    let src = "\
        #automaton Uart {\n  \
          #address: 0x4000_4000;\n  \
          tx_data: u32 #offset: 0x00;\n  \
          status: u32 #offset: 0x18;\n  \
          #transition send { Uart.tx_data = 65u32; }\n\
        }\n\
        #interrupt USART1_IRQ() #mutates: [Uart] #priority: HIGH { #> send(); }\n\
    ";
    let ir = lower_str(src).expect("lower full mmio program");
    for needle in [
        "define void @Uart_send()",
        "store volatile i32 65, i32* inttoptr (i64 1073758208 to i32*)",
        "define void @USART1_IRQ() section \".interrupts\" {",
        "call void @Uart_send()",
    ] {
        assert!(ir.contains(needle), "missing `{needle}` in IR; got:\n{ir}");
    }
    assert!(
        !ir.contains("%struct.Uart"),
        "register-block should not emit state struct; got:\n{ir}"
    );
}

#[test]
fn s4_parse_address_literal_hex() {
    assert_eq!(parse_address_literal("0x4000_0000"), Some(0x4000_0000));
    assert_eq!(parse_address_literal("0xFF"), Some(255));
    assert_eq!(parse_address_literal("0X1A"), Some(26)); // uppercase prefix
}

#[test]
fn s4_parse_address_literal_decimal() {
    assert_eq!(parse_address_literal("42"), Some(42));
    assert_eq!(parse_address_literal("1_000"), Some(1000));
}

#[test]
fn s4_parse_address_literal_binary() {
    assert_eq!(parse_address_literal("0b1010"), Some(10));
}

#[test]
fn s4_parse_address_literal_malformed_returns_none() {
    assert_eq!(parse_address_literal("0xZZ"), None);
    assert_eq!(parse_address_literal("not_a_number"), None);
}

#[test]
fn s5_array_element_ir_type_extracts_element() {
    assert_eq!(
        array_element_ir_type("[64 x i8]").as_deref(),
        Some("i8"),
        "element of [64 x i8] should be i8"
    );
    assert_eq!(
        array_element_ir_type("[16 x i32]").as_deref(),
        Some("i32"),
        "element of [16 x i32] should be i32"
    );
}

#[test]
fn s5_array_element_ir_type_handles_nested_arrays() {
    assert_eq!(
        array_element_ir_type("[4 x [4 x i8]]").as_deref(),
        Some("[4 x i8]"),
        "nested array element should preserve inner array"
    );
}

#[test]
fn s5_array_element_ir_type_returns_none_for_non_array() {
    assert_eq!(array_element_ir_type("i32"), None);
    assert_eq!(array_element_ir_type("i8*"), None);
    assert_eq!(array_element_ir_type("%struct.Counter"), None);
    assert_eq!(array_element_ir_type(""), None);
}

#[test]
fn s5_indexed_read_on_struct_field_emits_two_level_gep_and_load() {
    let src = "\
        #automaton Counter { buf: [u8; 64]; }\n\
        #effect peek() #mutates: [Counter] { let _x: u8 = Counter.buf[3u32]; return; }\n\
    ";
    let ir = lower_str(src).expect("lower indexed read");
    assert!(
        ir.contains("getelementptr %struct.Counter, %struct.Counter* @Counter.state, i32 0, i32 0"),
        "expected struct-field GEP; got:\n{ir}"
    );
    assert!(
        ir.contains("getelementptr [64 x i8], [64 x i8]*"),
        "expected array-element GEP on [64 x i8]; got:\n{ir}"
    );
    assert!(
        ir.contains("load i8, i8*"),
        "expected plain load i8; got:\n{ir}"
    );
    assert!(
        !ir.contains("load volatile i8"),
        "non-register-block read must not be volatile; got:\n{ir}"
    );
}

#[test]
fn s5_indexed_read_on_register_block_emits_inttoptr_gep_and_volatile_load() {
    let src = "\
        #automaton Uart {\n  \
          #address: 0x4000_4000;\n  \
          fifo: [u8; 16] #offset: 0x20;\n\
        }\n\
        #effect read_byte() #mutates: [Uart] { let _b: u8 = Uart.fifo[2u32]; return; }\n\
    ";
    let ir = lower_str(src).expect("lower mmio array read");
    assert!(
        ir.contains("inttoptr (i64 1073758240 to [16 x i8]*)"),
        "expected inttoptr to array type at base+offset; got:\n{ir}"
    );
    assert!(
        ir.contains("getelementptr [16 x i8], [16 x i8]*"),
        "expected array-element GEP; got:\n{ir}"
    );
    assert!(
        ir.contains("load volatile i8, i8*"),
        "MMIO array read must be volatile load; got:\n{ir}"
    );
}

#[test]
fn s5_indexed_write_in_mutate_block_emits_two_level_gep_and_store() {
    let src = "\
        #automaton Counter { buf: [u8; 64]; }\n\
        #effect poke() #mutates: [Counter] { #mutate Counter { buf[3u32] = 5u8 }; }\n\
    ";
    let ir = lower_str(src).expect("lower indexed write");
    assert!(
        ir.contains("getelementptr %struct.Counter, %struct.Counter* @Counter.state, i32 0, i32 0"),
        "expected struct-field GEP for write; got:\n{ir}"
    );
    assert!(
        ir.contains("getelementptr [64 x i8], [64 x i8]*"),
        "expected array-element GEP for write; got:\n{ir}"
    );
    assert!(
        ir.contains("store i8 5, i8*"),
        "expected plain store i8; got:\n{ir}"
    );
    assert!(
        !ir.contains("store volatile i8"),
        "non-register-block write must not be volatile; got:\n{ir}"
    );
}

#[test]
fn s5_indexed_write_on_register_block_emits_volatile_store() {
    let src = "\
        #automaton Uart {\n  \
          #address: 0x4000_4000;\n  \
          fifo: [u8; 16] #offset: 0x20;\n\
        }\n\
        #effect tx() #mutates: [Uart] { #mutate Uart { fifo[2u32] = 65u8 }; }\n\
    ";
    let ir = lower_str(src).expect("lower mmio array write");
    assert!(
        ir.contains("inttoptr (i64 1073758240 to [16 x i8]*)"),
        "expected inttoptr at base+offset; got:\n{ir}"
    );
    assert!(
        ir.contains("getelementptr [16 x i8], [16 x i8]*"),
        "expected array-element GEP; got:\n{ir}"
    );
    assert!(
        ir.contains("store volatile i8 65, i8*"),
        "MMIO array write must be volatile store; got:\n{ir}"
    );
}

#[test]
fn s5_indexed_field_in_transition_uses_self_owner() {
    let src = "\
        #automaton Counter {\n  \
          buf: [u8; 4];\n  \
          #transition init { #mutate Counter { buf[0u32] = 1u8 }; }\n\
        }\n\
    ";
    let ir = lower_str(src).expect("lower transition with indexed write");
    assert!(
        ir.contains("define void @Counter_init()"),
        "expected mangled transition fn; got:\n{ir}"
    );
    assert!(
        ir.contains("getelementptr %struct.Counter, %struct.Counter* @Counter.state, i32 0, i32 0"),
        "expected struct-field GEP for buf; got:\n{ir}"
    );
    assert!(
        ir.contains("store i8 1, i8*"),
        "expected store of 1 into buf; got:\n{ir}"
    );
}

#[test]
fn s5_indexed_write_alongside_plain_writes_in_same_mutate_block() {
    let src = "\
        #automaton T { count: u32; buf: [u8; 8]; }\n\
        #effect setup() #mutates: [T] {\n  \
          #mutate T { count = 7u32, buf[1u32] = 9u8 };\n\
        }\n\
    ";
    let ir = lower_str(src).expect("lower mixed mutate");
    assert!(
        ir.contains("store i32 7, i32*"),
        "expected plain store of count; got:\n{ir}"
    );
    assert!(
        ir.contains("getelementptr [8 x i8], [8 x i8]*"),
        "expected array-element GEP for buf; got:\n{ir}"
    );
    assert!(
        ir.contains("store i8 9, i8*"),
        "expected store i8 9 for buf[1]; got:\n{ir}"
    );
}

#[test]
fn s6_const_int_count_parses_decimal_hex_binary() {
    let span = Span::new(0, 0);
    let dec = Expr {
        kind: ExprKind::IntLit("64u32".to_owned()),
        span,
    };
    let hex = Expr {
        kind: ExprKind::HexLit("0x10u32".to_owned()),
        span,
    };
    let bin = Expr {
        kind: ExprKind::BinLit("0b1000u32".to_owned()),
        span,
    };
    assert_eq!(const_int_count(&dec), Some(64));
    assert_eq!(const_int_count(&hex), Some(16));
    assert_eq!(const_int_count(&bin), Some(8));
}

#[test]
fn s6_const_int_count_returns_none_for_non_literal() {
    let span = Span::new(0, 0);
    let path = Expr {
        kind: ExprKind::Path(vec!["n".to_owned()]),
        span,
    };
    assert_eq!(const_int_count(&path), None);
}

#[test]
fn s6_tuple_literal_lowers_to_insertvalue_chain() {
    let src = "@fn t() { let _x: (u32, bool, u8) = (5u32, true, 7u8); return; }";
    let ir = lower_str(src).expect("lower 3-tuple");
    assert!(
        ir.contains("insertvalue {i32, i1, i8} undef, i32 5, 0"),
        "expected first insertvalue (i32, idx 0); got:\n{ir}"
    );
    assert!(
        ir.contains(", i1 1, 1"),
        "expected i1 (true) at idx 1; got:\n{ir}"
    );
    assert!(
        ir.contains(", i8 7, 2"),
        "expected i8 7 at idx 2; got:\n{ir}"
    );
}

#[test]
fn s6_two_tuple_with_different_element_types() {
    let src = "@fn p() { let _x: (u32, bool) = (42u32, false); return; }";
    let ir = lower_str(src).expect("lower 2-tuple");
    assert!(
        ir.contains("insertvalue {i32, i1} undef, i32 42, 0"),
        "expected i32 42 at idx 0; got:\n{ir}"
    );
    assert!(
        ir.contains(", i1 0, 1"),
        "expected i1 0 (false) at idx 1; got:\n{ir}"
    );
}

#[test]
fn s6_array_literal_lowers_to_insertvalue_chain() {
    let src = "@fn a() { let _x: [u32; 3] = [10u32, 20u32, 30u32]; return; }";
    let ir = lower_str(src).expect("lower 3-array");
    assert!(
        ir.contains("insertvalue [3 x i32] undef, i32 10, 0"),
        "expected first insertvalue [3 x i32] idx 0; got:\n{ir}"
    );
    assert!(
        ir.contains(", i32 20, 1"),
        "expected i32 20 at idx 1; got:\n{ir}"
    );
    assert!(
        ir.contains(", i32 30, 2"),
        "expected i32 30 at idx 2; got:\n{ir}"
    );
}

#[test]
fn s6_array_repeat_literal_const_count() {
    let src = "@fn b() { let _x: [u8; 4] = [0u8; 4]; return; }";
    let ir = lower_str(src).expect("lower array repeat");
    for idx in 0..4 {
        let needle = format!(", i8 0, {idx}");
        assert!(
            ir.contains(&needle),
            "missing insertvalue at idx {idx}; got:\n{ir}"
        );
    }
    assert_eq!(
        ir.matches("insertvalue [4 x i8]").count(),
        4,
        "expected exactly 4 insertvalue ops on [4 x i8]; got:\n{ir}"
    );
}

#[test]
fn s6_array_repeat_with_non_constant_value_emits_value_once() {
    let src = "\
        @fn c() {\n  \
          let v: u32 = 0u32 + 1u32;\n  \
          let _arr: [u32; 3] = [v; 3];\n  \
          return;\n\
        }\n\
    ";
    let ir = lower_str(src).expect("lower array repeat with non-const value");
    assert_eq!(
        ir.matches("insertvalue [3 x i32]").count(),
        3,
        "expected 3 insertvalue ops; got:\n{ir}"
    );
}

#[test]
fn s6_array_repeat_zero_count_emits_nothing() {
    let src = "@fn d() { let _x: [u8; 0] = [0u8; 0]; return; }";
    let ir = lower_str(src).expect("lower zero-count repeat");
    assert_eq!(
        ir.matches("insertvalue [0 x i8]").count(),
        0,
        "expected zero insertvalue ops for [0 x i8; 0]; got:\n{ir}"
    );
}

#[test]
fn s6_array_repeat_non_const_count_returns_e0810() {
    let src = "\
        @fn e() {\n  \
          let n: u32 = 4u32;\n  \
          let _arr: [u8; 4] = [0u8; n];\n  \
          return;\n\
        }\n\
    ";
    let errors = lower_str(src).expect_err("expected NotYetImplemented");
    let saw = errors.iter().any(|e| matches!(
        e,
        CodegenError::NotYetImplemented { what }
            if *what == "array-repeat count that isn't a const integer literal"
    ));
    assert!(
        saw,
        "expected NotYetImplemented(array-repeat count); got {errors:?}"
    );
}

#[test]
fn s6_nested_tuple_in_array_literal() {
    let src = "\
        @fn f() {\n  \
          let _x: [(u32, u32); 2] = [(1u32, 2u32), (3u32, 4u32)];\n  \
          return;\n\
        }\n\
    ";
    let ir = lower_str(src).expect("lower nested tuple-in-array");
    assert_eq!(
        ir.matches("insertvalue [2 x {i32, i32}]").count(),
        2,
        "expected 2 outer insertvalues on array; got:\n{ir}"
    );
    assert_eq!(
        ir.matches("insertvalue {i32, i32}").count(),
        4,
        "expected 4 inner tuple insertvalues; got:\n{ir}"
    );
}

#[test]
fn s7_int_bits_table() {
    assert_eq!(int_bits("i1"), Some(1));
    assert_eq!(int_bits("i8"), Some(8));
    assert_eq!(int_bits("i16"), Some(16));
    assert_eq!(int_bits("i32"), Some(32));
    assert_eq!(int_bits("i64"), Some(64));
    assert_eq!(int_bits("i128"), Some(128));
}

#[test]
fn s7_int_bits_none_for_non_integer() {
    assert_eq!(int_bits("void"), None);
    assert_eq!(int_bits("i32*"), None);
    assert_eq!(int_bits("[8 x i8]"), None);
    assert_eq!(int_bits("{i32, i1}"), None);
    assert_eq!(int_bits("float"), None);
    assert_eq!(int_bits(""), None);
}

#[test]
fn s7_widening_unsigned_emits_zext() {
    let src = "@fn w() -> u32 { return 5u8 as u32; }";
    let ir = lower_str(src).expect("lower zext widen");
    assert!(
        ir.contains("zext i8 5 to i32"),
        "expected zext i8 -> i32; got:\n{ir}"
    );
    assert!(
        !ir.contains("sext i8"),
        "unsigned source must not use sext; got:\n{ir}"
    );
}

#[test]
fn s7_widening_signed_emits_sext() {
    let src = "@fn w() -> i32 { let v: i8 = -3i8; return v as i32; }";
    let ir = lower_str(src).expect("lower sext widen");
    assert!(
        ir.contains("sext i8"),
        "expected sext for signed source; got:\n{ir}"
    );
    assert!(
        ir.contains(" to i32"),
        "expected widening to i32; got:\n{ir}"
    );
}

#[test]
fn s7_narrowing_emits_trunc() {
    let src = "@fn n() -> u8 { return 5u32 as u8; }";
    let ir = lower_str(src).expect("lower trunc");
    assert!(
        ir.contains("trunc i32 5 to i8"),
        "expected trunc i32 -> i8; got:\n{ir}"
    );
}

#[test]
fn s7_same_type_cast_is_noop() {
    let src = "@fn s() -> u32 { return 5u32 as u32; }";
    let ir = lower_str(src).expect("lower noop cast");
    assert!(
        !ir.contains("zext"),
        "same-type cast should not emit zext; got:\n{ir}"
    );
    assert!(
        !ir.contains("sext"),
        "same-type cast should not emit sext; got:\n{ir}"
    );
    assert!(
        !ir.contains("trunc"),
        "same-type cast should not emit trunc; got:\n{ir}"
    );
    assert!(
        ir.contains("ret i32 5"),
        "expected direct return of 5; got:\n{ir}"
    );
}

#[test]
fn s7_bool_to_int_emits_zext() {
    let src = "@fn b() -> u32 { return true as u32; }";
    let ir = lower_str(src).expect("lower bool widen");
    assert!(
        ir.contains("zext i1 1 to i32"),
        "expected zext i1 (true) -> i32; got:\n{ir}"
    );
}

#[test]
fn s7_chained_cast_widening_then_narrowing() {
    let src = "@fn c() -> u16 { return (5u8 as u32) as u16; }";
    let ir = lower_str(src).expect("lower chained cast");
    assert!(ir.contains("zext i8 5 to i32"), "expected zext; got:\n{ir}");
    assert!(
        ir.contains(" to i16"),
        "expected trunc to i16; got:\n{ir}"
    );
    assert_eq!(
        ir.matches("trunc").count(),
        1,
        "expected exactly one trunc; got:\n{ir}"
    );
}

#[test]
fn s7_cast_used_inside_larger_expression() {
    let src = "@fn x() -> u32 { return (5u8 as u32) + 1u32; }";
    let ir = lower_str(src).expect("lower cast in binary");
    assert!(ir.contains("zext i8 5 to i32"), "expected zext; got:\n{ir}");
    assert!(
        ir.contains("add i32"),
        "expected add i32 using cast result; got:\n{ir}"
    );
}

#[test]
fn s7_signed_narrowing_uses_trunc_not_sext() {
    let src = "@fn n() -> i8 { let v: i32 = -1i32; return v as i8; }";
    let ir = lower_str(src).expect("lower signed narrow");
    assert!(
        ir.contains("trunc i32"),
        "expected trunc on signed narrow; got:\n{ir}"
    );
    assert!(
        ir.contains(" to i8"),
        "expected narrowing to i8; got:\n{ir}"
    );
}

#[test]
fn s8_unchecked_load_emits_plain_load() {
    let src = "@fn r(p: &u32) -> u32 { return #unchecked_load<u32>(p); }";
    let ir = lower_str(src).expect("lower unchecked load");
    assert!(
        ir.contains("load i32, i32* %p"),
        "expected plain load i32 from %p; got:\n{ir}"
    );
    assert!(
        !ir.contains("load volatile"),
        "non-volatile load should not be volatile; got:\n{ir}"
    );
}

#[test]
fn s8_volatile_load_emits_volatile_load() {
    let src = "@fn r(p: &u32) -> u32 { return #volatile_load<u32>(p); }";
    let ir = lower_str(src).expect("lower volatile load");
    assert!(
        ir.contains("load volatile i32, i32* %p"),
        "expected volatile load i32; got:\n{ir}"
    );
}

#[test]
fn s8_unchecked_store_emits_plain_store() {
    let src = "@fn w(p: &u32) { #unchecked_store<u32>(p, 7u32); return; }";
    let ir = lower_str(src).expect("lower unchecked store");
    assert!(
        ir.contains("store i32 7, i32* %p"),
        "expected plain store i32 7 to %p; got:\n{ir}"
    );
    assert!(
        !ir.contains("store volatile"),
        "non-volatile store should not be volatile; got:\n{ir}"
    );
}

#[test]
fn s8_volatile_store_emits_volatile_store() {
    let src = "@fn w(p: &u32) { #volatile_store<u32>(p, 7u32); return; }";
    let ir = lower_str(src).expect("lower volatile store");
    assert!(
        ir.contains("store volatile i32 7, i32* %p"),
        "expected volatile store i32 7; got:\n{ir}"
    );
}

#[test]
fn s8_unchecked_cast_int_widen_unsigned_emits_zext() {
    let src = "@fn c() -> u32 { return #unchecked_cast<u8, u32>(\"widen for index\", 5u8); }";
    let ir = lower_str(src).expect("lower unchecked cast widen");
    assert!(
        ir.contains("zext i8 5 to i32"),
        "expected zext for unsigned widen; got:\n{ir}"
    );
}

#[test]
fn s8_unchecked_cast_int_widen_signed_emits_sext() {
    let src = "@fn c() -> i32 {\n  \
        let v: i8 = -1i8;\n  \
        return #unchecked_cast<i8, i32>(\"sign extend\", v);\n\
    }";
    let ir = lower_str(src).expect("lower unchecked cast widen signed");
    assert!(
        ir.contains("sext i8"),
        "expected sext for signed widen; got:\n{ir}"
    );
    assert!(ir.contains(" to i32"), "expected widen to i32; got:\n{ir}");
}

#[test]
fn s8_unchecked_cast_int_narrowing_emits_trunc() {
    let src = "@fn c() -> u8 { return #unchecked_cast<u32, u8>(\"narrow\", 5u32); }";
    let ir = lower_str(src).expect("lower unchecked cast narrow");
    assert!(
        ir.contains("trunc i32 5 to i8"),
        "expected trunc; got:\n{ir}"
    );
}

#[test]
fn s8_unchecked_cast_same_type_is_noop() {
    let src = "@fn c() -> u32 { return #unchecked_cast<u32, u32>(\"identity\", 5u32); }";
    let ir = lower_str(src).expect("lower unchecked cast same");
    assert!(
        !ir.contains("zext") && !ir.contains("sext") && !ir.contains("trunc"),
        "same-type unchecked cast should be no-op; got:\n{ir}"
    );
    assert!(ir.contains("ret i32 5"), "expected ret 5; got:\n{ir}");
}

#[test]
fn s8_unchecked_cast_pointer_to_int_emits_ptrtoint() {
    let src = "@fn c(p: &u32) -> u64 { return #unchecked_cast<&u32, u64>(\"addr capture\", p); }";
    let ir = lower_str(src).expect("lower ptrtoint");
    assert!(
        ir.contains("ptrtoint i32* %p to i64"),
        "expected ptrtoint i32* -> i64; got:\n{ir}"
    );
}

#[test]
fn s8_unchecked_offset_emits_getelementptr() {
    let src = "@fn o(p: &u32) -> &u32 {\n  \
        let q: &u32 = #unchecked_offset<u32>(p, 4i32);\n  \
        return q;\n\
    }";
    let ir = lower_str(src).expect("lower unchecked offset");
    assert!(
        ir.contains("getelementptr i32, i32* %p, i32 4"),
        "expected getelementptr i32 i32* %p i32 4; got:\n{ir}"
    );
}

#[test]
fn s8_unchecked_load_inside_binary_op() {
    let src = "@fn x(p: &u32) -> u32 {\n  \
        return #unchecked_load<u32>(p) + 1u32;\n\
    }";
    let ir = lower_str(src).expect("lower load+add");
    assert!(
        ir.contains("load i32, i32* %p"),
        "expected load; got:\n{ir}"
    );
    assert!(
        ir.contains("add i32"),
        "expected add using load result; got:\n{ir}"
    );
}

#[test]
fn s8_type_expr_is_signed_int_table() {
    let span = Span::new(0, 0);
    let make = |p: PrimitiveType| TypeExpr {
        kind: TypeKind::Primitive(p),
        span,
    };
    for (p, expected) in [
        (PrimitiveType::I8, true),
        (PrimitiveType::I16, true),
        (PrimitiveType::I32, true),
        (PrimitiveType::I64, true),
        (PrimitiveType::Isize, true),
        (PrimitiveType::U8, false),
        (PrimitiveType::U16, false),
        (PrimitiveType::U32, false),
        (PrimitiveType::U64, false),
        (PrimitiveType::Usize, false),
        (PrimitiveType::Bool, false),
    ] {
        assert_eq!(
            type_expr_is_signed_int(&make(p)),
            expected,
            "wrong signedness for {p:?}"
        );
    }
}

#[test]
fn s9_monoid_struct_unchanged() {
    let src = "#automaton C { v: u32; }\n";
    let ir = lower_str(src).expect("lower monoid");
    assert!(
        ir.contains("%struct.C = type { i32 }"),
        "expected single-field struct; got:\n{ir}"
    );
}

#[test]
fn s9_multi_state_struct_prepends_i32_tag() {
    let src = "\
        #automaton Counter {\n  \
          #states: [Idle, Counting, Done];\n  \
          count: u32;\n\
        }\n\
    ";
    let ir = lower_str(src).expect("lower multi-state");
    assert!(
        ir.contains("%struct.Counter = type { i32, i32 }"),
        "expected {{ i32, i32 }} (tag + count); got:\n{ir}"
    );
    assert!(
        ir.contains("@Counter.state = global %struct.Counter zeroinitializer"),
        "expected zeroinitializer global; got:\n{ir}"
    );
}

#[test]
fn s9_state_read_emits_gep_load_at_index_0() {
    let src = "\
        #automaton Counter {\n  \
          #states: [Idle, Active];\n  \
          count: u32;\n\
        }\n\
        #effect read() -> u32 #mutates: [Counter] {\n  \
          let s: u32 = Counter@state;\n  \
          return s;\n\
        }\n\
    ";
    let ir = lower_str(src).expect("lower @state read");
    assert!(
        ir.contains("getelementptr %struct.Counter, %struct.Counter* @Counter.state, i32 0, i32 0"),
        "expected GEP at idx 0 (state tag); got:\n{ir}"
    );
    assert!(
        ir.contains("load i32, i32*"),
        "expected load i32 of tag; got:\n{ir}"
    );
}

#[test]
fn s9_user_field_index_shifts_for_multi_state() {
    let src = "\
        #automaton Counter {\n  \
          #states: [Idle, Active];\n  \
          count: u32;\n\
        }\n\
        #effect bump() #mutates: [Counter] {\n  \
          Counter.count += 1u32;\n\
        }\n\
    ";
    let ir = lower_str(src).expect("lower bump");
    assert!(
        ir.contains("getelementptr %struct.Counter, %struct.Counter* @Counter.state, i32 0, i32 1"),
        "expected GEP at idx 1 (user field after tag); got:\n{ir}"
    );
    let count_at_0 = ir.matches("@Counter.state, i32 0, i32 0").count();
    assert_eq!(
        count_at_0, 0,
        "did not expect tag GEP for field-only effect; got:\n{ir}"
    );
}

#[test]
fn s9_transition_with_destination_writes_tag_before_ret() {
    let src = "\
        #automaton Counter {\n  \
          #states: [Idle, Counting];\n  \
          count: u32;\n  \
          #transition start -> Counting { Counter.count = 0u32; }\n\
        }\n\
    ";
    let ir = lower_str(src).expect("lower transition with dest");
    assert!(
        ir.contains("getelementptr %struct.Counter, %struct.Counter* @Counter.state, i32 0, i32 0"),
        "expected tag GEP at idx 0; got:\n{ir}"
    );
    assert!(
        ir.contains("store i32 1, i32*"),
        "expected store of tag 1 (Counting); got:\n{ir}"
    );
    let tag_pos = ir.find("store i32 1, i32*").expect("tag store missing");
    let ret_pos = ir.find("ret void").expect("ret void missing");
    assert!(
        tag_pos < ret_pos,
        "tag write must come before ret; got:\n{ir}"
    );
}

#[test]
fn s9_transition_without_destination_emits_no_tag_write() {
    let src = "\
        #automaton Counter {\n  \
          #states: [Idle, Counting];\n  \
          count: u32;\n  \
          #transition tick { Counter.count += 1u32; }\n\
        }\n\
    ";
    let ir = lower_str(src).expect("lower tickless transition");
    let body_start = ir
        .find("define void @Counter_tick()")
        .expect("Counter_tick fn missing");
    let body_end = ir[body_start..]
        .find("\n}\n")
        .map(|p| body_start + p)
        .unwrap_or(ir.len());
    let body = &ir[body_start..body_end];
    assert!(
        !body.contains("@Counter.state, i32 0, i32 0"),
        "tickless transition must not emit tag GEP; got body:\n{body}"
    );
}

#[test]
fn s9_transition_destination_uses_correct_tag_for_third_state() {
    let src = "\
        #automaton Counter {\n  \
          #states: [Idle, Counting, Done];\n  \
          count: u32;\n  \
          #transition finish -> Done { return; }\n\
        }\n\
    ";
    let ir = lower_str(src).expect("lower 3-state transition");
    assert!(
        ir.contains("store i32 2, i32*"),
        "expected store of tag 2 (Done = 3rd state); got:\n{ir}"
    );
}

#[test]
fn s9_state_read_on_monoid_returns_e0810() {
    let src = "\
        #automaton C { v: u32; }\n\
        #effect r() -> u32 #mutates: [C] { return C@state; }\n\
    ";
    let errors = lower_str(src).expect_err("expected E0810");
    let saw = errors.iter().any(|e| matches!(
        e,
        CodegenError::NotYetImplemented { what }
            if *what == "Auto@state on a monoid automaton (no `#states` clause)"
    ));
    assert!(
        saw,
        "expected NotYetImplemented(monoid @state); got {errors:?}"
    );
}

#[test]
fn s9_state_read_on_register_block_returns_e0810() {
    let src = "\
        #automaton Mmio {\n  \
          #address: 0x4000_0000;\n  \
          #states: [Off, On];\n  \
          ctl: u32 #offset: 0x00;\n\
        }\n\
        #effect r() -> u32 #mutates: [Mmio] { return Mmio@state; }\n\
    ";
    let errors = lower_str(src).expect_err("expected E0810");
    let saw = errors.iter().any(|e| matches!(
        e,
        CodegenError::NotYetImplemented { what }
            if *what == "Auto@state on a register-block automaton"
    ));
    assert!(
        saw,
        "expected NotYetImplemented(register-block @state); got {errors:?}"
    );
}

#[test]
fn s9_full_three_state_program_lowers_cleanly() {
    let src = "\
        #automaton Counter {\n  \
          #states: [Idle, Counting, Done];\n  \
          count: u32;\n  \
          #transition start -> Counting { Counter.count = 0u32; }\n  \
          #transition finish -> Done { return; }\n\
        }\n\
        #effect bump() #mutates: [Counter] { Counter.count += 1u32; }\n\
        #effect peek() -> u32 #mutates: [Counter] { return Counter@state; }\n\
    ";
    let ir = lower_str(src).expect("lower full 3-state program");
    for needle in [
        "%struct.Counter = type { i32, i32 }",
        "@Counter.state = global %struct.Counter zeroinitializer",
        "define void @Counter_start()",
        "define void @Counter_finish()",
        "store i32 1, i32*", // start -> Counting
        "store i32 2, i32*", // finish -> Done
        "define void @bump()",
        "define i32 @peek()",
    ] {
        assert!(
            ir.contains(needle),
            "missing `{needle}` in IR; got:\n{ir}"
        );
    }
}

#[test]
fn s9_destination_tag_write_combines_with_release_fence() {
    let src = "\
        #automaton C {\n  \
          #states: [A, B];\n  \
          v: u32;\n  \
          #transition flip -> B $ [Release] { return; }\n\
        }\n\
    ";
    let ir = lower_str(src).expect("lower transition with release");
    let tag_pos = ir.find("store i32 1, i32*").expect("tag store missing");
    let fence_pos = ir.find("fence release").expect("release fence missing");
    let ret_pos = ir.find("ret void").expect("ret missing");
    assert!(
        tag_pos < fence_pos && fence_pos < ret_pos,
        "expected order: tag write < fence < ret; got positions {tag_pos} / {fence_pos} / {ret_pos} in:\n{ir}"
    );
}

#[test]
fn s9_field_read_on_multi_state_uses_shifted_index() {
    let src = "\
        #automaton T {\n  \
          #states: [Empty, NonEmpty];\n  \
          bytes_uart1: u32;\n  \
          bytes_total: u32;\n\
        }\n\
        #effect drain_total() -> u32 #mutates: [T] {\n  \
          return T.bytes_total;\n\
        }\n\
    ";
    let ir = lower_str(src).expect("lower multi-state read");
    assert!(
        ir.contains("getelementptr %struct.T, %struct.T* @T.state, i32 0, i32 2"),
        "expected read of bytes_total at LLVM idx 2; got:\n{ir}"
    );
    assert!(
        !ir.contains("getelementptr %struct.T, %struct.T* @T.state, i32 0, i32 1"),
        "regression: read path must not use unshifted user index; got:\n{ir}"
    );
}

#[test]
fn s9_helper_llvm_field_index_monoid() {
    let info = AutomatonInfo {
        name: "M".to_owned(),
        fields: vec![],
        is_register_block: false,
        base_address: 0,
        state_tags: vec![],
        is_staged: false,
        is_audited: false,
    };
    assert_eq!(info.llvm_field_index(0), 0);
    assert_eq!(info.llvm_field_index(3), 3);
    assert!(!info.is_multi_state());
}

#[test]
fn s9_helper_llvm_field_index_multi_state() {
    let info = AutomatonInfo {
        name: "C".to_owned(),
        fields: vec![],
        is_register_block: false,
        base_address: 0,
        state_tags: vec![("A".to_owned(), 0), ("B".to_owned(), 1)],
        is_staged: false,
        is_audited: false,
    };
    assert!(info.is_multi_state());
    assert_eq!(info.llvm_field_index(0), 1);
    assert_eq!(info.llvm_field_index(3), 4);
    assert_eq!(info.state_tag("A"), Some(0));
    assert_eq!(info.state_tag("B"), Some(1));
    assert_eq!(info.state_tag("C"), None);
}

#[test]
fn s13_if_no_else_emits_conditional_branch_to_exit() {
    let src = "@fn t() { if true { return; } return; }";
    let ir = lower_str(src).expect("lower if-no-else");
    assert!(
        ir.contains("br i1 1, label %if.then.0, label %if.exit.0"),
        "expected br i1 to then or exit; got:\n{ir}"
    );
    assert!(ir.contains("\nif.then.0:\n"), "missing then label; got:\n{ir}");
    assert!(ir.contains("\nif.exit.0:\n"), "missing exit label; got:\n{ir}");
    assert!(
        !ir.contains("if.else.0:"),
        "no else block: must not emit else label; got:\n{ir}"
    );
}

#[test]
fn s13_if_with_else_emits_three_blocks() {
    let src = "\
        @fn t() {\n  \
          if true { let _x: u32 = 1u32; }\n  \
          else { let _y: u32 = 2u32; }\n  \
          return;\n\
        }\n\
    ";
    let ir = lower_str(src).expect("lower if-else");
    assert!(
        ir.contains("br i1 1, label %if.then.0, label %if.else.0"),
        "expected br to then/else; got:\n{ir}"
    );
    for label in [
        "\nif.then.0:\n",
        "\nif.else.0:\n",
        "\nif.exit.0:\n",
    ] {
        assert!(ir.contains(label), "missing {}; got:\n{ir}", label.trim());
    }
    assert!(
        ir.matches("br label %if.exit.0").count() >= 2,
        "expected branches from both then and else to exit; got:\n{ir}"
    );
}

#[test]
fn s13_if_condition_uses_dynamic_value() {
    let src = "\
        @fn t(x: u32) {\n  \
          if x < 10u32 { return; }\n  \
          return;\n\
        }\n\
    ";
    let ir = lower_str(src).expect("lower if with dynamic cond");
    assert!(
        ir.contains("icmp ult i32 %x, 10"),
        "expected icmp ult for `<`; got:\n{ir}"
    );
    assert!(
        ir.contains("br i1 %tmp."),
        "expected br i1 from a fresh-value SSA; got:\n{ir}"
    );
}

#[test]
fn s13_if_then_returns_no_back_edge_emitted() {
    let src = "\
        @fn t(x: u32) -> u32 {\n  \
          if true { return x; }\n  \
          return 0u32;\n\
        }\n\
    ";
    let ir = lower_str(src).expect("lower if-with-return");
    let then_pos = ir.find("\nif.then.0:\n").unwrap();
    let exit_pos = ir.find("\nif.exit.0:\n").unwrap();
    let between = &ir[then_pos..exit_pos];
    assert!(
        !between.contains("br label %if.exit.0"),
        "then-block returned; must not emit branch to exit; got:\n{between}"
    );
}

#[test]
fn s13_if_else_both_return_exit_block_unreachable() {
    let src = "\
        @fn t() -> u32 {\n  \
          if true { return 1u32; }\n  \
          else { return 2u32; }\n  \
          return 0u32;\n\
        }\n\
    ";
    let ir = lower_str(src).expect("lower if-else-both-return");
    assert!(
        ir.contains("ret i32 1") && ir.contains("ret i32 2"),
        "expected both rets; got:\n{ir}"
    );
    assert!(
        !ir.contains("br label %if.exit.0"),
        "both branches return; no merge branch should be emitted; got:\n{ir}"
    );
}

#[test]
fn s13_else_if_chain_emits_nested_blocks() {
    let src = "\
        @fn t() {\n  \
          if true { return; }\n  \
          else if false { return; }\n  \
          else { return; }\n\
        }\n\
    ";
    let ir = lower_str(src).expect("lower else-if chain");
    for label in [
        "\nif.then.0:\n",
        "\nif.else.0:\n",
        "\nif.then.1:\n",
        "\nif.else.1:\n",
    ] {
        assert!(
            ir.contains(label),
            "missing {}; got:\n{ir}",
            label.trim()
        );
    }
}

#[test]
fn s13_if_with_local_assign_in_branch() {
    let src = "\
        @fn t(c: bool) -> u32 {\n  \
          let mut x: u32 = 0u32;\n  \
          if c { x = 1u32; }\n  \
          else { x = 2u32; }\n  \
          return x;\n\
        }\n\
    ";
    let ir = lower_str(src).expect("lower if-with-assign");
    assert_eq!(
        ir.matches("store i32").count(),
        3,
        "expected 3 stores; got:\n{ir}"
    );
    assert!(
        ir.contains("load i32, i32*"),
        "expected load on return; got:\n{ir}"
    );
}

#[test]
fn s13_nested_if_inside_if() {
    let src = "\
        @fn t(a: bool, b: bool) {\n  \
          if a {\n    \
            if b { return; }\n  \
          }\n  \
          return;\n\
        }\n\
    ";
    let ir = lower_str(src).expect("lower nested if");
    assert!(
        ir.contains("\nif.then.0:\n"),
        "missing outer then; got:\n{ir}"
    );
    assert!(
        ir.contains("\nif.then.1:\n"),
        "missing inner then; got:\n{ir}"
    );
    assert!(
        ir.contains("\nif.exit.0:\n"),
        "missing outer exit; got:\n{ir}"
    );
    assert!(
        ir.contains("\nif.exit.1:\n"),
        "missing inner exit; got:\n{ir}"
    );
}

#[test]
fn s13_if_inside_sigma_body_works() {
    let src = "\
        @fn t() {\n  \
          sigma i in 0u32..4u32 {\n    \
            if true { return; }\n  \
          }\n  \
          return;\n\
        }\n\
    ";
    let ir = lower_str(src).expect("lower if-inside-sigma");
    assert!(
        ir.contains("\nsigma.header.0:\n"),
        "missing sigma header; got:\n{ir}"
    );
    assert!(
        ir.contains("\nif.then.1:\n"),
        "missing if.then.1; got:\n{ir}"
    );
    assert!(
        ir.contains("\nif.exit.1:\n"),
        "missing if.exit.1; got:\n{ir}"
    );
}

#[test]
fn s12_let_mut_emits_alloca_and_initial_store() {
    let src = "@fn t() -> u32 { let mut x: u32 = 5u32; return x; }";
    let ir = lower_str(src).expect("lower let-mut");
    assert!(
        ir.contains("= alloca i32"),
        "expected alloca i32; got:\n{ir}"
    );
    assert!(
        ir.contains("store i32 5, i32*"),
        "expected initial store; got:\n{ir}"
    );
    assert!(
        ir.contains("load i32, i32*"),
        "expected load on read; got:\n{ir}"
    );
}

#[test]
fn s12_immutable_let_keeps_ssa_direct_lowering() {
    let src = "@fn t() -> u32 { let x: u32 = 5u32; return x; }";
    let ir = lower_str(src).expect("lower immutable let");
    assert!(
        !ir.contains("alloca"),
        "immutable let should not allocate; got:\n{ir}"
    );
    assert!(
        !ir.contains("load i32"),
        "immutable let should not load; got:\n{ir}"
    );
    assert!(
        ir.contains("add i32 0, 5"),
        "expected bind_via_identity add of 5; got:\n{ir}"
    );
}

#[test]
fn s12_assign_emits_store_to_alloca() {
    let src = "\
        @fn t() -> u32 {\n  \
          let mut x: u32 = 5u32;\n  \
          x = 7u32;\n  \
          return x;\n\
        }\n\
    ";
    let ir = lower_str(src).expect("lower assign");
    assert!(
        ir.contains("store i32 5, i32*"),
        "expected initial store; got:\n{ir}"
    );
    assert!(
        ir.contains("store i32 7, i32*"),
        "expected assignment store; got:\n{ir}"
    );
    assert_eq!(
        ir.matches("store i32").count(),
        2,
        "expected exactly 2 stores; got:\n{ir}"
    );
}

#[test]
fn s12_accumulator_pattern_in_sigma_body() {
    let src = "\
        @fn sum_to_n(n: u32) -> u32 {\n  \
          let mut total: u32 = 0u32;\n  \
          sigma i in 0u32..n {\n    \
            total = total + i;\n  \
          }\n  \
          return total;\n\
        }\n\
    ";
    let ir = lower_str(src).expect("lower accumulator pattern");
    assert!(
        ir.contains("alloca i32"),
        "expected alloca for total; got:\n{ir}"
    );
    assert!(
        ir.contains("load i32, i32*"),
        "expected load of total in body; got:\n{ir}"
    );
    assert!(
        ir.contains("add i32"),
        "expected add for total + i; got:\n{ir}"
    );
    assert!(
        ir.contains("store i32"),
        "expected store back to total; got:\n{ir}"
    );
    assert!(
        ir.contains("%sigma.i.0"),
        "expected sigma loop var reference; got:\n{ir}"
    );
}

#[test]
fn s12_multiple_assigns_to_same_local() {
    let src = "\
        @fn t() -> u32 {\n  \
          let mut x: u32 = 1u32;\n  \
          x = 2u32;\n  \
          x = 3u32;\n  \
          return x;\n\
        }\n\
    ";
    let ir = lower_str(src).expect("lower multiple assigns");
    assert_eq!(
        ir.matches("store i32").count(),
        3,
        "expected 3 stores; got:\n{ir}"
    );
    assert!(
        ir.contains("load i32, i32*"),
        "expected load on return; got:\n{ir}"
    );
}

#[test]
fn s12_let_mut_does_not_affect_sibling_immutable_let() {
    let src = "\
        @fn t() -> u32 {\n  \
          let a: u32 = 1u32;\n  \
          let mut b: u32 = 2u32;\n  \
          b = 3u32;\n  \
          return a;\n\
        }\n\
    ";
    let ir = lower_str(src).expect("lower mixed bindings");
    assert_eq!(
        ir.matches("alloca i32").count(),
        1,
        "expected exactly one alloca; got:\n{ir}"
    );
    assert_eq!(
        ir.matches("store i32").count(),
        2,
        "expected exactly two stores (b only); got:\n{ir}"
    );
    assert!(
        !ir.contains("load i32"),
        "immutable `a` must not need a load; got:\n{ir}"
    );
}

#[test]
fn break_emits_branch_to_sigma_exit_label() {
    let src = "\
        @fn t() {\n  \
          sigma i in 0u32..10u32 {\n    \
            break;\n  \
          }\n  \
          return;\n\
        }\n\
    ";
    let ir = lower_str(src).expect("lower break");
    assert!(
        ir.contains("br label %sigma.exit.0"),
        "expected break to branch to sigma.exit.0; got:\n{ir}"
    );
}

#[test]
fn continue_emits_branch_to_sigma_continue_label() {
    let src = "\
        @fn t() {\n  \
          sigma i in 0u32..10u32 {\n    \
            continue;\n  \
          }\n  \
          return;\n\
        }\n\
    ";
    let ir = lower_str(src).expect("lower continue");
    assert!(
        ir.contains("br label %sigma.continue.0"),
        "expected continue to branch to sigma.continue.0; got:\n{ir}"
    );
}

#[test]
fn break_in_nested_sigma_targets_innermost_loop() {
    let src = "\
        @fn t() {\n  \
          sigma i in 0u32..4u32 {\n    \
            sigma j in 0u32..4u32 {\n      \
              break;\n    \
            }\n  \
          }\n  \
          return;\n\
        }\n\
    ";
    let ir = lower_str(src).expect("lower nested-break");
    assert!(
        ir.contains("\nsigma.exit.1:\n"),
        "expected inner exit label; got:\n{ir}"
    );
    let break_count = ir.matches("br label %sigma.exit.1").count();
    assert!(
        break_count >= 1,
        "expected at least one branch to inner exit; got:\n{ir}"
    );
}

#[test]
fn break_inside_if_inside_sigma_targets_loop_not_if() {
    let src = "\
        @fn t() {\n  \
          sigma i in 0u32..10u32 {\n    \
            if true { break; }\n  \
          }\n  \
          return;\n\
        }\n\
    ";
    let ir = lower_str(src).expect("lower break-in-if");
    assert!(
        ir.contains("br label %sigma.exit.0"),
        "expected break to branch to sigma.exit.0 (not if.exit.*); got:\n{ir}"
    );
}

#[test]
fn break_with_local_mut_acc_can_early_exit() {
    let src = "\
        @fn first_nonzero_index(n: u32) -> u32 {\n  \
          let mut found: u32 = 0u32;\n  \
          sigma i in 0u32..n {\n    \
            if i > 3u32 {\n      \
              found = i;\n      \
              break;\n    \
            }\n  \
          }\n  \
          return found;\n\
        }\n\
    ";
    let ir = lower_str(src).expect("lower first_nonzero pattern");
    assert!(
        ir.contains("br label %sigma.exit.0"),
        "expected break branch; got:\n{ir}"
    );
    assert!(
        ir.contains("alloca i32"),
        "expected found's alloca; got:\n{ir}"
    );
    assert!(
        ir.contains("load i32, i32*"),
        "expected load on return; got:\n{ir}"
    );
}

#[test]
fn body_after_break_is_dead_code() {
    let src = "\
        @fn t() {\n  \
          sigma i in 0u32..10u32 {\n    \
            break;\n    \
            let _x: u32 = i;\n  \
          }\n  \
          return;\n\
        }\n\
    ";
    let ir = lower_str(src).expect("lower break+dead");
    assert!(
        !ir.contains("add i32 0, %sigma.i.0"),
        "expected dead let to be skipped; got:\n{ir}"
    );
}

#[test]
fn s11_sigma_basic_half_open_emits_loop_cfg() {
    let src = "@fn loop_test() { sigma i in 0u32..4u32 { } return; }";
    let ir = lower_str(src).expect("lower sigma half-open");
    assert!(ir.contains("\nsigma.header.0:\n"), "missing header label; got:\n{ir}");
    assert!(ir.contains("\nsigma.body.0:\n"), "missing body label; got:\n{ir}");
    assert!(ir.contains("\nsigma.continue.0:\n"), "missing continue label; got:\n{ir}");
    assert!(ir.contains("\nsigma.exit.0:\n"), "missing exit label; got:\n{ir}");
    assert!(
        ir.contains("br label %sigma.header.0"),
        "missing entry-to-header branch; got:\n{ir}"
    );
    assert!(
        ir.contains("%sigma.i.0 = phi i32 [ 0, %entry ], [ %sigma.i_next.0, %sigma.continue.0 ]"),
        "missing phi with the continue label; got:\n{ir}"
    );
    assert!(
        ir.contains("%sigma.cond.0 = icmp ult i32 %sigma.i.0, 4"),
        "missing icmp ult; got:\n{ir}"
    );
    assert!(
        ir.contains("br i1 %sigma.cond.0, label %sigma.body.0, label %sigma.exit.0"),
        "missing conditional branch; got:\n{ir}"
    );
    assert!(
        ir.contains("%sigma.i_next.0 = add nuw i32 %sigma.i.0, 1"),
        "missing add nuw increment; got:\n{ir}"
    );
    assert!(
        ir.matches("br label %sigma.header.0").count() >= 2,
        "expected entry + back-edge branches into header; got:\n{ir}"
    );
    assert!(
        ir.contains("br label %sigma.continue.0"),
        "expected body fall-through to continue; got:\n{ir}"
    );
}

#[test]
fn s11_sigma_inclusive_uses_ule_compare() {
    let src = "@fn t() { sigma i in 0u32..=10u32 { } return; }";
    let ir = lower_str(src).expect("lower sigma inclusive");
    assert!(
        ir.contains("icmp ule i32 %sigma.i.0, 10"),
        "expected icmp ule for inclusive range; got:\n{ir}"
    );
    assert!(
        !ir.contains("icmp ult"),
        "inclusive range must not use ult; got:\n{ir}"
    );
}

#[test]
fn s11_sigma_signed_range_uses_slt_and_nsw() {
    let src = "@fn t() { sigma i in 0i32..10i32 { } return; }";
    let ir = lower_str(src).expect("lower signed sigma");
    assert!(
        ir.contains("icmp slt i32 %sigma.i.0, 10"),
        "expected icmp slt for signed range; got:\n{ir}"
    );
    assert!(
        ir.contains("add nsw i32 %sigma.i.0, 1"),
        "expected add nsw for signed increment; got:\n{ir}"
    );
    assert!(
        !ir.contains("add nuw"),
        "signed range must not use nuw; got:\n{ir}"
    );
}

#[test]
fn s11_sigma_loop_var_bound_inside_body() {
    let src = "\
        @fn t() {\n  \
          sigma i in 0u32..4u32 {\n    \
            let _x: u32 = i + 1u32;\n  \
          }\n  \
          return;\n\
        }\n\
    ";
    let ir = lower_str(src).expect("lower sigma with body using i");
    assert!(
        ir.contains("add i32 %sigma.i.0, 1"),
        "expected body to reference %sigma.i.0; got:\n{ir}"
    );
}

#[test]
fn s11_sigma_ranges_with_dynamic_bounds() {
    let src = "\
        @fn t(start: u32, end: u32) {\n  \
          sigma i in start..end { }\n  \
          return;\n\
        }\n\
    ";
    let ir = lower_str(src).expect("lower sigma with dynamic bounds");
    assert!(
        ir.contains("phi i32 [ %start, %entry ]"),
        "expected phi initial value to be %start; got:\n{ir}"
    );
    assert!(
        ir.contains("icmp ult i32 %sigma.i.0, %end"),
        "expected compare to use %end; got:\n{ir}"
    );
}

#[test]
fn s11_sigma_bounds_emitted_in_predecessor_block() {
    let src = "@fn t() { sigma i in 0u32..4u32 { } return; }";
    let ir = lower_str(src).expect("lower sigma");
    assert!(
        ir.contains("phi i32 [ 0, %entry ]"),
        "expected phi predecessor edge from %entry; got:\n{ir}"
    );
}

#[test]
fn s11_sigma_followed_by_statements_emit_in_exit_block() {
    let src = "@fn t() { sigma i in 0u32..4u32 { } return; }";
    let ir = lower_str(src).expect("lower sigma");
    let exit_pos = ir.find("\nsigma.exit.0:\n").expect("exit label missing");
    let ret_pos = ir.find("ret void").expect("ret void missing");
    assert!(
        exit_pos < ret_pos,
        "ret void must come after exit label; positions {exit_pos} / {ret_pos} in:\n{ir}"
    );
}

#[test]
fn s11_sigma_nested_uses_distinct_label_ids() {
    let src = "\
        @fn t() {\n  \
          sigma i in 0u32..4u32 {\n    \
            sigma j in 0u32..4u32 {\n      \
              let _x: u32 = i + j;\n    \
            }\n  \
          }\n  \
          return;\n\
        }\n\
    ";
    let ir = lower_str(src).expect("lower nested sigma");
    for label in [
        "\nsigma.header.0:\n",
        "\nsigma.body.0:\n",
        "\nsigma.exit.0:\n",
        "\nsigma.header.1:\n",
        "\nsigma.body.1:\n",
        "\nsigma.exit.1:\n",
    ] {
        assert!(
            ir.contains(label),
            "missing label `{}`; got:\n{ir}",
            label.trim()
        );
    }
    assert!(
        ir.contains("%sigma.i.0"),
        "outer loop var missing; got:\n{ir}"
    );
    assert!(
        ir.contains("%sigma.i.1"),
        "inner loop var missing; got:\n{ir}"
    );
}

#[test]
fn s11_sigma_non_range_source_returns_e0810() {
    let src = "@fn t() { sigma i in 7u32 { } return; }";
    let result = lower_str(src);
    assert!(
        result.is_err(),
        "expected error for non-range source; got:\n{:?}",
        result
    );
}

#[test]
fn s11_sigma_with_mutate_short_inside_body() {
    let src = "\
        #automaton T {\n  \
          count: u32;\n\
        }\n\
        #effect tally_n() #mutates: [T] {\n  \
          sigma i in 0u32..4u32 {\n    \
            T.count += 1u32;\n  \
          }\n  \
          return;\n\
        }\n\
    ";
    let ir = lower_str(src).expect("lower mutate-inside-sigma");
    assert!(
        ir.contains("\nsigma.body.0:\n"),
        "missing body label; got:\n{ir}"
    );
    let body_pos = ir.find("\nsigma.body.0:\n").unwrap();
    let back_edge_pos = ir.rfind("br label %sigma.header.0").unwrap();
    let store_pos = ir.find("store i32").expect("store missing");
    assert!(
        body_pos < store_pos && store_pos < back_edge_pos,
        "store must be between body label and back-edge; got:\n{ir}"
    );
}

#[test]
fn snapshot_lowers_to_same_load_as_field_access() {
    let src = "\
        #automaton Counter { value: u32; }\n\
        #effect drain() -> u32 #mutates: [Counter] {\n  \
          return @snapshot Counter.value;\n\
        }\n\
    ";
    let ir = lower_str(src).expect("lower @snapshot");
    assert!(
        ir.contains("getelementptr %struct.Counter, %struct.Counter* @Counter.state, i32 0, i32 0"),
        "expected struct-field GEP for snapshot; got:\n{ir}"
    );
    assert!(
        ir.contains("load i32, i32*"),
        "expected i32 load for snapshot; got:\n{ir}"
    );
}

#[test]
fn snapshot_on_register_block_field_emits_volatile_load() {
    let src = "\
        #automaton Mmio { #address: 0x4000_0000; status: u32 #offset: 0x00; }\n\
        #effect probe() -> u32 #mutates: [Mmio] { return @snapshot Mmio.status; }\n\
    ";
    let ir = lower_str(src).expect("lower mmio snapshot");
    assert!(
        ir.contains("load volatile i32, i32* inttoptr (i64 1073741824 to i32*)"),
        "expected volatile load at MMIO address for snapshot; got:\n{ir}"
    );
}

#[test]
fn snapshot_self_inside_transition_resolves_owner() {
    let src = "\
        #automaton Counter { value: u32;\n  \
          #transition observe { let _x: u32 = @snapshot Self.value; return; }\n\
        }\n\
    ";
    let ir = lower_str(src).expect("lower @snapshot Self");
    assert!(
        ir.contains("getelementptr %struct.Counter, %struct.Counter* @Counter.state, i32 0, i32 0"),
        "expected GEP via Counter (Self resolution); got:\n{ir}"
    );
}

#[test]
fn snapshot_compound_field_returns_e0810() {
    let src = "\
        #automaton Counter { buf: [u8; 64]; }\n\
        #effect drain() #mutates: [Counter] {\n  \
          let _x: u8 = @snapshot Counter.buf;\n  \
          return;\n\
        }\n\
    ";
    let errors = lower_str(src).expect_err("expected NotYetImplemented for compound snapshot");
    let saw = errors.iter().any(|e| matches!(
        e,
        CodegenError::NotYetImplemented { what }
            if what.contains("non-primitive")
    ));
    assert!(
        saw,
        "expected NotYetImplemented(non-primitive); got {errors:?}"
    );
}

#[test]
fn snapshot_inside_arithmetic_composes() {
    let src = "\
        #automaton T { a: u32; b: u32; }\n\
        #effect sum() -> u32 #mutates: [T] {\n  \
          return @snapshot T.a + @snapshot T.b;\n\
        }\n\
    ";
    let ir = lower_str(src).expect("lower snapshot in binary op");
    assert_eq!(
        ir.matches("load i32").count(),
        2,
        "expected 2 loads (one per snapshot); got:\n{ir}"
    );
    assert!(
        ir.contains("add i32"),
        "expected add of snapshot results; got:\n{ir}"
    );
}

#[test]
fn atomic_interrupt_critical_emits_cpsid_at_body_start() {
    let src = "\
        #automaton C { v: u32; }\n\
        #effect snapshot() #mutates: [C] #atomic: interrupt_critical; { return; }\n\
    ";
    let ir = lower_str(src).expect("lower atomic effect");
    assert!(
        ir.contains("call void asm sideeffect \"cpsid i\""),
        "expected cpsid i entry asm; got:\n{ir}"
    );
}

#[test]
fn atomic_interrupt_critical_emits_cpsie_before_ret() {
    let src = "\
        #automaton C { v: u32; }\n\
        #effect snapshot() #mutates: [C] #atomic: interrupt_critical; { return; }\n\
    ";
    let ir = lower_str(src).expect("lower atomic effect");
    assert!(
        ir.contains("call void asm sideeffect \"cpsie i\""),
        "expected cpsie i exit asm; got:\n{ir}"
    );
    let unmask_pos = ir
        .find("cpsie i")
        .expect("cpsie should appear");
    let ret_pos = ir.find("ret void").expect("ret void should appear");
    assert!(
        unmask_pos < ret_pos,
        "cpsie i must come before ret; positions {unmask_pos} / {ret_pos} in:\n{ir}"
    );
}

#[test]
fn atomic_emits_balanced_pair_per_function() {
    let src = "\
        #automaton C { v: u32; }\n\
        #effect a() #mutates: [C] #atomic: interrupt_critical; { return; }\n\
        #effect b() #mutates: [C] #atomic: interrupt_critical; { return; }\n\
        #effect plain() #mutates: [C] { return; }\n\
    ";
    let ir = lower_str(src).expect("lower mixed atomic + non-atomic");
    assert_eq!(
        ir.matches("cpsid i").count(),
        2,
        "expected exactly 2 cpsid emissions; got:\n{ir}"
    );
    assert_eq!(
        ir.matches("cpsie i").count(),
        2,
        "expected exactly 2 cpsie emissions; got:\n{ir}"
    );
}

#[test]
fn atomic_interacts_correctly_with_release_fence() {
    let src = "\
        #automaton C { v: u32; }\n\
        #effect commit() #mutates: [C] #atomic: interrupt_critical; $ [Release] {\n  \
          C.v = 1u32;\n  \
          return;\n\
        }\n\
    ";
    let ir = lower_str(src).expect("lower atomic + release");
    let fence_pos = ir.find("fence release").expect("expected fence release");
    let unmask_pos = ir.find("cpsie i").expect("expected cpsie i");
    let ret_pos = ir.find("ret void").expect("expected ret void");
    assert!(
        fence_pos < unmask_pos && unmask_pos < ret_pos,
        "expected order: fence release < cpsie i < ret void; got positions {fence_pos} / {unmask_pos} / {ret_pos} in:\n{ir}"
    );
}

#[test]
fn non_atomic_effect_emits_no_cpsid_or_cpsie() {
    let src = "\
        #automaton C { v: u32; }\n\
        #effect plain() #mutates: [C] { C.v = 1u32; }\n\
    ";
    let ir = lower_str(src).expect("lower plain effect");
    assert!(
        !ir.contains("cpsid"),
        "plain effect should not emit cpsid; got:\n{ir}"
    );
    assert!(
        !ir.contains("cpsie"),
        "plain effect should not emit cpsie; got:\n{ir}"
    );
}

#[test]
fn atomic_on_interrupt_emits_wrapping_too() {
    let src = "\
        #automaton C { v: u32; }\n\
        #interrupt SysTick() #mutates: [C] #priority: HIGH #atomic: interrupt_critical; { C.v = 1u32; }\n\
    ";
    let ir = lower_str(src).expect("lower atomic interrupt");
    assert!(ir.contains("cpsid i"), "expected cpsid; got:\n{ir}");
    assert!(ir.contains("cpsie i"), "expected cpsie; got:\n{ir}");
}

#[test]
fn atomic_multicore_critical_is_not_yet_implemented() {
    let src = "\
        #automaton C { v: u32; }\n\
        #effect e() #mutates: [C] #atomic: multicore_critical; { return; }\n\
    ";
    let errors = lower_str(src).expect_err("expected NotYetImplemented for multicore");
    let saw = errors.iter().any(|e| matches!(
        e,
        CodegenError::NotYetImplemented { what }
            if what.contains("multicore_critical")
    ));
    assert!(
        saw,
        "expected NotYetImplemented(multicore_critical); got {errors:?}"
    );
}

#[test]
fn atomic_custom_kind_is_not_yet_implemented() {
    let src = "\
        #automaton C { v: u32; }\n\
        #effect e() #mutates: [C] #atomic: my_custom_lock; { return; }\n\
    ";
    let errors = lower_str(src).expect_err("expected NotYetImplemented for custom");
    let saw = errors.iter().any(|e| matches!(
        e,
        CodegenError::NotYetImplemented { what }
            if what.contains("custom")
    ));
    assert!(
        saw,
        "expected NotYetImplemented(custom); got {errors:?}"
    );
}

#[test]
fn d22_acquire_emits_entry_fence() {
    let src = "\
        #automaton C { v: u32; }\n\
        #effect read() #mutates: [C] $ [Acquire] { return; }\n\
    ";
    let ir = lower_str(src).expect("lower acquire");
    assert!(
        ir.contains("entry:\n  fence acquire\n"),
        "expected entry fence acquire; got:\n{ir}"
    );
    assert!(
        !ir.contains("fence release"),
        "should not have release fence for $ [Acquire]; got:\n{ir}"
    );
}

#[test]
fn d22_release_emits_exit_fence_before_ret() {
    let src = "\
        #automaton C { v: u32; }\n\
        #effect commit() #mutates: [C] $ [Release] { return; }\n\
    ";
    let ir = lower_str(src).expect("lower release");
    assert!(
        ir.contains("  fence release\n  ret void\n"),
        "expected exit fence release before ret; got:\n{ir}"
    );
    assert!(
        !ir.contains("fence acquire"),
        "should not have acquire fence for $ [Release]; got:\n{ir}"
    );
    assert_eq!(
        ir.matches("fence release").count(),
        1,
        "expected exactly one release fence; got:\n{ir}"
    );
}

#[test]
fn d22_acquire_release_combo_emits_both() {
    let src = "\
        #automaton C { v: u32; }\n\
        #effect roundtrip() #mutates: [C] $ [Acquire, Release] { return; }\n\
    ";
    let ir = lower_str(src).expect("lower acq+rel");
    assert!(
        ir.contains("entry:\n  fence acquire\n"),
        "expected entry acquire fence; got:\n{ir}"
    );
    assert!(
        ir.contains("  fence release\n  ret void\n"),
        "expected exit release fence; got:\n{ir}"
    );
}

#[test]
fn d22_seqcst_uses_seqcst_at_both_ends() {
    let src = "\
        #automaton C { v: u32; }\n\
        #effect strict() #mutates: [C] $ [SeqCst] { return; }\n\
    ";
    let ir = lower_str(src).expect("lower seqcst");
    assert!(
        ir.contains("entry:\n  fence seq_cst\n"),
        "expected entry seq_cst fence; got:\n{ir}"
    );
    assert!(
        ir.contains("  fence seq_cst\n  ret void\n"),
        "expected exit seq_cst fence; got:\n{ir}"
    );
    assert!(
        !ir.contains("fence acquire") && !ir.contains("fence release"),
        "SeqCst should subsume Acquire/Release; got:\n{ir}"
    );
}

#[test]
fn d22_seqcst_supersedes_acquire_release() {
    let src = "\
        #automaton C { v: u32; }\n\
        #effect strict() #mutates: [C] $ [SeqCst, Acquire, Release] { return; }\n\
    ";
    let ir = lower_str(src).expect("lower seqcst+ subsumed");
    assert!(
        ir.contains("entry:\n  fence seq_cst\n"),
        "expected entry seq_cst (supersedes); got:\n{ir}"
    );
    assert!(
        !ir.contains("fence acquire"),
        "Acquire should be subsumed; got:\n{ir}"
    );
    assert!(
        !ir.contains("fence release"),
        "Release should be subsumed; got:\n{ir}"
    );
}

#[test]
fn d22_no_ordering_trait_emits_no_fence() {
    let src = "\
        #automaton C { v: u32; }\n\
        #effect plain() #mutates: [C] { return; }\n\
    ";
    let ir = lower_str(src).expect("lower plain effect");
    assert!(
        !ir.contains("fence "),
        "no ordering trait → no fence; got:\n{ir}"
    );
}

#[test]
fn d22_acquire_on_interrupt_emits_entry_fence() {
    let src = "\
        #automaton T { c: u32; }\n\
        #interrupt SysTick() #mutates: [T] #priority: HIGH $ [Acquire] { return; }\n\
    ";
    let ir = lower_str(src).expect("lower interrupt acquire");
    assert!(
        ir.contains("entry:\n  fence acquire\n"),
        "expected acquire fence on interrupt; got:\n{ir}"
    );
}

#[test]
fn d22_release_on_transition_emits_exit_fence() {
    let src = "\
        #automaton Counter { value: u32;\n  \
          #transition tick $ [Release] { Counter.value = 1u32; }\n\
        }\n\
    ";
    let ir = lower_str(src).expect("lower transition release");
    assert!(
        ir.contains("  fence release\n  ret void\n"),
        "expected release fence on transition exit; got:\n{ir}"
    );
}

#[test]
fn d22_release_emits_fence_at_each_explicit_ret() {
    let src = "\
        #automaton C { v: u32; }\n\
        #effect get() -> u32 #mutates: [C] $ [Release] { return 5u32; }\n\
    ";
    let ir = lower_str(src).expect("lower explicit-return release");
    assert!(
        ir.contains("  fence release\n  ret i32 5\n"),
        "expected fence release before explicit ret; got:\n{ir}"
    );
}

#[test]
fn d22_other_traits_dont_emit_fences() {
    for trait_name in [
        "Hardware",
        "Realtime",
        "LockingDiscipline",
        "PureState",
        "Encapsulated",
    ] {
        let src = format!(
            "#automaton C {{ v: u32; }}\n\
             #effect e() #mutates: [C] $ [{trait_name}] {{ return; }}\n"
        );
        let ir = lower_str(&src).unwrap_or_else(|e| panic!("lower failed: {e:?}"));
        assert!(
            !ir.contains("fence "),
            "trait `{trait_name}` should not emit a fence; got:\n{ir}"
        );
    }
}

#[test]
fn s3_full_counter_program_lowers_cleanly() {
    let src = "\
        #automaton Counter { value: u32; }\n\
        #effect bump() #mutates: [Counter] { Counter.value += 1u32; }\n\
        #effect reset() #mutates: [Counter] { Counter.value = 0u32; }\n\
        #effect main() #mutates: [Counter] { #> bump(); #> bump(); #> reset(); }\n\
    ";
    let ir = lower_str(src).expect("lower full program");
    for needle in [
        "%struct.Counter = type { i32 }",
        "@Counter.state = global %struct.Counter zeroinitializer",
        "define void @bump()",
        "define void @reset()",
        "define void @main()",
        "call void @bump()",
        "call void @reset()",
    ] {
        assert!(
            ir.contains(needle),
            "missing `{needle}` in IR; got:\n{ir}"
        );
    }
}

#[test]
fn s18_staged_automaton_emits_shadow_global() {
    let src = "#staged #automaton C { v: u32; }";
    let ir = lower_str(src).expect("lower staged automaton");
    assert!(
        ir.contains("@C.state = global %struct.C zeroinitializer"),
        "expected live global @C.state; got:\n{ir}"
    );
    assert!(
        ir.contains("@C.shadow = global %struct.C zeroinitializer"),
        "expected shadow global @C.shadow; got:\n{ir}"
    );
}

#[test]
fn s18_unstaged_automaton_emits_no_shadow_global() {
    let src = "#automaton C { v: u32; }";
    let ir = lower_str(src).expect("lower plain automaton");
    assert!(
        ir.contains("@C.state = global %struct.C zeroinitializer"),
        "expected live global @C.state; got:\n{ir}"
    );
    assert!(
        !ir.contains("@C.shadow"),
        "non-staged automaton must not emit a shadow; got:\n{ir}"
    );
}

#[test]
fn s18_mutate_short_on_staged_writes_to_shadow() {
    let src = "\
        #staged #automaton Counter { value: u32; }\n\
        #effect set() #mutates: [Counter] { Counter.value = 5u32; }\n\
    ";
    let ir = lower_str(src).expect("lower staged write");
    assert!(
        ir.contains("@Counter.shadow"),
        "expected write to target @Counter.shadow; got:\n{ir}"
    );
    assert!(
        ir.contains("getelementptr %struct.Counter, %struct.Counter* @Counter.shadow"),
        "expected GEP via @Counter.shadow; got:\n{ir}"
    );
}

#[test]
fn s18_mutate_block_on_staged_writes_to_shadow() {
    let src = "\
        #staged #automaton Counter { value: u32; }\n\
        #effect set() #mutates: [Counter] { #mutate Counter { value = 7u32 }; }\n\
    ";
    let ir = lower_str(src).expect("lower staged #mutate");
    assert!(
        ir.contains("getelementptr %struct.Counter, %struct.Counter* @Counter.shadow"),
        "#mutate on staged automaton must GEP into shadow; got:\n{ir}"
    );
}

#[test]
fn s18_field_read_on_staged_still_reads_live() {
    let src = "\
        #staged #automaton Counter { value: u32; }\n\
        @fn observe() -> u32 { return Counter.value; }\n\
    ";
    let ir = lower_str(src).expect("lower staged read");
    assert!(
        ir.contains("getelementptr %struct.Counter, %struct.Counter* @Counter.state"),
        "read of Counter.value must come from live @Counter.state; got:\n{ir}"
    );
    assert!(
        !ir.contains("@Counter.shadow, i32 0, i32 0"),
        "read path must not GEP into shadow; got:\n{ir}"
    );
}

#[test]
fn s18_flush_emits_memcpy_shadow_to_state() {
    let src = "\
        #staged #automaton Counter { value: u32; }\n\
        #effect commit() #mutates: [Counter] { #flush Counter; return; }\n\
    ";
    let ir = lower_str(src).expect("lower flush");
    assert!(
        ir.contains("declare void @llvm.memcpy.p0.p0.i64(i8*, i8*, i64, i1)"),
        "expected llvm.memcpy decl; got:\n{ir}"
    );
    assert!(
        ir.contains("bitcast %struct.Counter* @Counter.state to i8*"),
        "expected dest bitcast of @Counter.state; got:\n{ir}"
    );
    assert!(
        ir.contains("bitcast %struct.Counter* @Counter.shadow to i8*"),
        "expected src bitcast of @Counter.shadow; got:\n{ir}"
    );
    assert!(
        ir.contains("call void @llvm.memcpy.p0.p0.i64"),
        "expected memcpy call; got:\n{ir}"
    );
    assert!(
        ir.contains("getelementptr %struct.Counter, %struct.Counter* null, i32 1"),
        "expected GEP-on-null size idiom; got:\n{ir}"
    );
}

#[test]
fn s18_no_flush_no_intrinsic_decl() {
    let src = "\
        #automaton C { v: u32; }\n\
        #effect set() #mutates: [C] { C.v = 1u32; }\n\
    ";
    let ir = lower_str(src).expect("lower non-staged program");
    assert!(
        !ir.contains("@llvm.memcpy"),
        "non-staged program must not declare memcpy; got:\n{ir}"
    );
}

#[test]
fn s18_multi_state_staged_tag_write_targets_shadow() {
    let src = "\
        #staged #automaton M { #states: [A, B]; v: u32;\n\
          #transition flip -> B { M.v = 99u32; }\n\
        }\n\
    ";
    let ir = lower_str(src).expect("lower staged multi-state");
    assert!(
        ir.contains("getelementptr %struct.M, %struct.M* @M.shadow, i32 0, i32 0"),
        "expected tag-write GEP into @M.shadow; got:\n{ir}"
    );
    assert!(
        ir.contains("getelementptr %struct.M, %struct.M* @M.shadow, i32 0, i32 1"),
        "expected value-write GEP into @M.shadow at idx 1; got:\n{ir}"
    );
}

#[test]
fn s21_unaudited_transition_emits_no_audit_marker() {
    let src = "\
        #automaton P { \n  \
          #transition tick { \n    \
            let p: &u32 = #unchecked_cast<u64, &u32>(\"mmio\", 0x4000u64); \n    \
            #unchecked_store<u32>(p, 1u32); \n  \
          } \n\
        }\n\
    ";
    let ir = lower_str(src).expect("lower non-audit");
    assert!(
        !ir.contains("audit-wrap site"),
        "non-audit transition must not emit audit markers; got:\n{ir}"
    );
}

#[test]
fn s21_audited_transition_unchecked_store_emits_marker() {
    let src = "\
        #audit #automaton P { \n  \
          #transition tick { \n    \
            let p: &u32 = #unchecked_cast<u64, &u32>(\"mmio\", 0x4000u64); \n    \
            #unchecked_store<u32>(p, 1u32); \n  \
          } \n\
        }\n\
    ";
    let ir = lower_str(src).expect("lower audit");
    assert!(
        ir.contains("; audit-wrap site for P (unchecked_store) ; Decision #18"),
        "expected audit marker for unchecked_store; got:\n{ir}"
    );
}

#[test]
fn s21_audited_transition_unchecked_cast_emits_marker() {
    let src = "\
        #audit #automaton P { \n  \
          #transition tick { \n    \
            let p: &u32 = #unchecked_cast<u64, &u32>(\"mmio\", 0x4000u64); \n    \
            #unchecked_store<u32>(p, 1u32); \n  \
          } \n\
        }\n\
    ";
    let ir = lower_str(src).expect("lower audit");
    assert!(
        ir.contains("; audit-wrap site for P (unchecked_cast) ; Decision #18"),
        "expected audit marker for unchecked_cast; got:\n{ir}"
    );
}

#[test]
fn s21_audited_transition_volatile_store_emits_marker() {
    let src = "\
        #audit #automaton P { \n  \
          #transition tick { \n    \
            let p: &u32 = #unchecked_cast<u64, &u32>(\"mmio\", 0x4000u64); \n    \
            #volatile_store<u32>(p, 7u32); \n  \
          } \n\
        }\n\
    ";
    let ir = lower_str(src).expect("lower audit volatile");
    assert!(
        ir.contains("; audit-wrap site for P (volatile_store) ; Decision #18"),
        "expected audit marker for volatile_store; got:\n{ir}"
    );
}

#[test]
fn s21_audited_transition_unchecked_offset_emits_marker() {
    let src = "\
        #audit #automaton P { \n  \
          #transition tick { \n    \
            let p: &u32 = #unchecked_cast<u64, &u32>(\"mmio\", 0x4000u64); \n    \
            let _q: &u32 = #unchecked_offset<u32>(p, 4i32); \n  \
          } \n\
        }\n\
    ";
    let ir = lower_str(src).expect("lower audit offset");
    assert!(
        ir.contains("; audit-wrap site for P (unchecked_offset) ; Decision #18"),
        "expected audit marker for unchecked_offset; got:\n{ir}"
    );
}

#[test]
fn s21_unchecked_load_emits_marker() {
    let src = "\
        #audit #automaton P { \n  \
          #transition tick { \n    \
            let p: &u32 = #unchecked_cast<u64, &u32>(\"mmio\", 0x4000u64); \n    \
            let _v: u32 = #unchecked_load<u32>(p); \n  \
          } \n\
        }\n\
    ";
    let ir = lower_str(src).expect("lower audit load");
    assert!(
        ir.contains("; audit-wrap site for P (unchecked_load) ; Decision #18"),
        "expected audit marker for unchecked_load; got:\n{ir}"
    );
}

#[test]
fn s21_audit_marker_does_not_leak_across_transitions() {
    let src = "\
        #audit #automaton P { \n  \
          #transition foo { \n    \
            let p: &u32 = #unchecked_cast<u64, &u32>(\"mmio\", 0x4000u64); \n    \
            #unchecked_store<u32>(p, 1u32); \n  \
          } \n\
        }\n\
        #automaton Q { \n  \
          #transition bar { \n    \
            let q: &u32 = #unchecked_cast<u64, &u32>(\"mmio\", 0x4004u64); \n    \
            #unchecked_store<u32>(q, 2u32); \n  \
          } \n\
        }\n\
    ";
    let ir = lower_str(src).expect("lower mixed");
    let p_def = ir.find("define void @P_foo()").expect("P_foo defined");
    let q_def = ir.find("define void @Q_bar()").expect("Q_bar defined");
    assert!(p_def < q_def, "expected P_foo before Q_bar in IR");
    let p_body = &ir[p_def..q_def];
    assert!(
        p_body.contains("audit-wrap site for P"),
        "expected marker in P_foo body; got:\n{p_body}"
    );
    let q_body = &ir[q_def..];
    assert!(
        !q_body.contains("audit-wrap site"),
        "non-audit Q_bar must not emit markers; got:\n{q_body}"
    );
}

#[test]
fn s21_audit_marker_does_not_appear_in_effects() {
    let src = "\
        #audit #automaton P { \n  \
          v: u32; \n\
        }\n\
        #effect tick() #mutates: [P] { \n  \
          let p: &u32 = #unchecked_cast<u64, &u32>(\"mmio\", 0x4000u64); \n  \
          #unchecked_store<u32>(p, 1u32); \n  \
          return; \n\
        }\n\
    ";
    let ir = lower_str(src).expect("lower effect");
    assert!(
        !ir.contains("audit-wrap site"),
        "effects must not emit markers; got:\n{ir}"
    );
}

#[test]
fn s21_audit_marker_composes_with_staged_writes() {
    let src = "\
        #audit #staged #automaton P { \n  \
          #transition tick { \n    \
            let p: &u32 = #unchecked_cast<u64, &u32>(\"mmio\", 0x4000u64); \n    \
            #unchecked_store<u32>(p, 1u32); \n  \
          } \n\
        }\n\
    ";
    let ir = lower_str(src).expect("lower audit+staged");
    assert!(
        ir.contains("@P.shadow"),
        "expected #staged shadow global; got:\n{ir}"
    );
    assert!(
        ir.contains("audit-wrap site for P"),
        "expected audit marker; got:\n{ir}"
    );
}

// ─── Whole pipeline ────────────────────────────────────────────────────────

#[test]
fn compile_source_lowers_minimal_program() {
    let ir = compile_source("", "smoke").expect("empty program lowers");
    assert!(
        ir.contains("ModuleID = 'smoke'"),
        "expected module ID; got:\n{ir}"
    );
}

#[test]
fn compile_source_lowers_real_firmware_shape() {
    let src = "\
        #automaton Counter {\n  \
          #states: [Idle, Counting];\n  \
          count: u32;\n  \
          #transition start -> Counting { Counter.count = 0u32; }\n\
        }\n\
        #effect bump() #mutates: [Counter] { Counter.count += 1u32; }\n\
    ";
    let ir = compile_source(src, "fw").expect("firmware program lowers");
    assert!(
        ir.contains("%struct.Counter = type { i32, i32 }"),
        "expected multi-state struct; got:\n{ir}"
    );
    assert!(
        ir.contains("define void @Counter_start()"),
        "expected transition fn; got:\n{ir}"
    );
    assert!(
        ir.contains("define void @bump()"),
        "expected effect fn; got:\n{ir}"
    );
}

#[test]
fn compile_source_surfaces_check_phase_error() {
    let src = "\
        #automaton C { v: u32; }\n\
        #effect bump() #mutates: [C] { return; }\n\
        @fn caller() { #> bump(); return; }\n\
    ";
    let err = compile_source(src, "test").expect_err("expected gate error");
    match err {
        CompileError::Phase { name, .. } => {
            assert!(
                matches!(name, "resolve" | "check" | "effect"),
                "expected resolve/check/effect; got {name}"
            );
        }
        CompileError::Io(_) => panic!("unexpected I/O error"),
    }
}

#[test]
fn compile_source_surfaces_effect_phase_error_for_undeclared_mutates() {
    let src = "\
        #automaton Counter { v: u32; }\n\
        #effect bump() #mutates: [] { Counter.v += 1u32; }\n\
    ";
    let err = compile_source(src, "test").expect_err("expected gate error");
    match err {
        CompileError::Phase { name, .. } => {
            assert!(
                matches!(name, "resolve" | "check" | "effect"),
                "expected resolve/check/effect; got {name}"
            );
        }
        CompileError::Io(_) => panic!("unexpected I/O error"),
    }
}

#[test]
fn compile_source_passes_all_gates_for_real_firmware() {
    let src = "\
        #automaton Counter {\n  \
          #states: [Idle, Counting];\n  \
          count: u32;\n  \
          #transition start -> Counting { Counter.count = 0u32; }\n\
        }\n\
        #effect bump() #mutates: [Counter] { Counter.count += 1u32; }\n\
        #effect peek() -> u32 #mutates: [Counter] {\n  \
          if Counter.count > 100u32 { return 100u32; }\n  \
          return Counter.count;\n\
        }\n\
    ";
    let ir = compile_source(src, "fw").expect("real firmware passes all gates");
    assert!(
        ir.contains("define void @bump()"),
        "expected bump fn; got:\n{ir}"
    );
    assert!(
        ir.contains("define i32 @peek()"),
        "expected peek fn; got:\n{ir}"
    );
    assert!(
        ir.contains("br i1"),
        "expected if-conditional branch; got:\n{ir}"
    );
}

// ─── Programs as a whole ───────────────────────────────────────────────────

#[test]
fn writes_in_nested_blocks_need_authority() {
    let src = "#automaton A { x: u32; } #automaton B { x: u32; } \
               #effect e(n: u32) #mutates: [A] { \
                 if n == 1u32 { B.x = 1u32; } else { sigma i in 0u32..n { B.x = i; } } \
                 A.x = 2u32; }";
    let errors = check_str(src).unwrap_err();
    assert_eq!(errors.len(), 2);
    for (error, text) in errors.iter().zip(["B.x = 1u32", "B.x = i"]) {
        let place = src.find(text).unwrap();
        match error {
            CheckError::WriteToUndeclaredAutomaton { automaton, enclosing, at } => {
                assert_eq!(automaton, "B");
                assert_eq!(enclosing, "#effect e");
                assert_eq!(*at, place);
            }
            other => panic!("unexpected {other:?}"),
        }
    }
}

#[test]
fn recursion_in_nested_blocks_is_found() {
    let src = "@fn f(n: u32) -> u32 { if n == 0u32 { return 0u32; } else { return f(n - 1u32); } }";
    let errors = check_str(src).unwrap_err();
    assert_eq!(
        errors,
        vec![CheckError::TotalityViolation {
            fn_name: "f".to_owned(),
            call_at: src.find("f(n - 1u32)").unwrap(),
            decl_at: 0,
        }]
    );
    assert!(check_str(&format!("@partial {src}")).is_ok());
}

#[test]
fn accepted_effects_write_only_what_they_list() {
    let src = "#automaton A { x: u32; y: u32; } #automaton B { x: u32; } \
               #effect e() #mutates: [A] { #mutate A { x = B.x, y = 1u32 }; }";
    check_str(src).unwrap();
    let profiles = profiles_str(src).unwrap();
    let profile = profiles.lookup(&CallableId::Effect("e".into())).unwrap();
    assert_eq!(profile.actual_automata.len(), 1);
    assert!(profile.actual_automata.contains_name("A"));
    assert!(profile.actual_reads.contains(&make_field("B", "x")));
    assert!(!profile.actual_writes.contains(&make_field("B", "x")));
}

#[test]
fn profiles_do_not_depend_on_the_order_of_writes() {
    let a = "#automaton A { x: u32; y: u32; } #effect e() #mutates: [A] { A.x = 1u32; A.y = 2u32; }";
    let b = "#automaton A { x: u32; y: u32; } #effect e() #mutates: [A] { A.y = 2u32; A.x = 1u32; }";
    let c = "#automaton A { x: u32; y: u32; } #effect e() #mutates: [A] { A.y = 2u32; }";
    assert_eq!(profiles_str(a).unwrap(), profiles_str(b).unwrap());
    assert_ne!(profiles_str(a).unwrap(), profiles_str(c).unwrap());
}

#[test]
fn every_callable_becomes_a_function() {
    let ir = lower_str(
        "#automaton A { #states: [Off, On]; x: u32; #transition go -> On { A.x = 1u32; } } \
         @fn f(a: u32, b: i8) -> u32 { return a; } \
         #effect e(n: u64) #mutates: [A] { A.x = 3u32; } \
         #interrupt I() #mutates: [A] #priority: HIGH { A.x = 4u32; }",
    )
    .unwrap();
    for line in [
        "define void @A_go() {\n",
        "define i32 @f(i32 %a, i8 %b) {\n",
        "define void @e(i64 %n) {\n",
        "define void @I() section \".interrupts\" {\n",
    ] {
        assert_eq!(ir.matches(line).count(), 1, "{line} in\n{ir}");
    }
}

#[test]
fn values_of_a_function_have_different_names() {
    let ir = lower_str(
        "@fn f(a: u32) -> u32 { let b: u32 = a + a * a; let c: u32 = b - a; return c / b; }",
    )
    .unwrap();
    let mut names = HashSet::new();
    let mut defined: usize = 0;
    for line in ir.lines() {
        if let Some((name, _)) = line.trim().split_once(" = ") {
            if name.starts_with("%tmp.") {
                defined += 1;
                names.insert(name.to_owned());
            }
        }
    }
    assert_eq!(defined, names.len());
    assert!(defined >= 6);
}

#[test]
fn code_generation_errors_come_in_source_order() {
    let errors = lower_str(
        "@fn f() { break; } #automaton A { x: &u32; y: Thing; } @fn g() { continue; }",
    )
    .unwrap_err();
    assert_eq!(errors.len(), 3);
    assert!(errors[0].message().contains("`break` outside"));
    assert!(errors[2].message().contains("`continue` outside"));
}

#[test]
fn compound_assignment_of_floats_has_no_lowering() {
    let src = |op: &str| {
        format!(
            "#automaton A {{ x: f32; y: f32; }} #effect e() #mutates: [A] {{ A.x {op} A.y; }}"
        )
    };
    assert!(lower_str(&src("=")).is_ok());
    assert_eq!(
        lower_str(&src("+=")).unwrap_err(),
        vec![CodegenError::NotYetImplemented { what: "compound assignment on a float field" }]
    );
}

#[test]
fn diagnostics_point_at_their_errors() {
    let src = "#automaton A { x: u32; } #effect byte() #mutates: [] { A.x = 1u32; }";
    match compile_source(src, "m") {
        Err(CompileError::Phase { name, diags }) => {
            assert_eq!(name, "check");
            assert_eq!(diags.len(), 1);
            assert_eq!(diags[0].primary_offset, Some(src.find("A.x = 1").unwrap()));
        }
        other => panic!("expected a phase error, found {other:?}"),
    }
    let src = "#effect a() #mutates: [] { #> a(); }";
    match compile_source(src, "m") {
        Err(CompileError::Phase { name, diags }) => {
            assert_eq!(name, "effect");
            assert_eq!(diags[0].message, "E0422: proc-call cycle detected: `#effect a` → `#effect a`");
            assert_eq!(diags[0].primary_offset, None);
        }
        other => panic!("expected a phase error, found {other:?}"),
    }
}

#[test]
fn transitions_of_other_automatons_are_called_by_their_owner() {
    let ir = lower_str(
        "#automaton A { x: u32; #transition go2 { A.x = 1u32; #> go(); #> both(); } \
           #transition both { A.x = 2u32; } } \
         #automaton B { x: u32; #transition go { B.x = 1u32; #> both(); } \
           #transition both { B.x = 2u32; } }",
    )
    .unwrap();
    assert!(ir.contains("  call void @B_go()\n"), "{ir}");
    assert!(!ir.contains("@A_go()"), "{ir}");
    assert!(ir.contains("  call void @A_both()\n"), "{ir}");
    assert!(ir.contains("  call void @B_both()\n"), "{ir}");
    assert!(ir.contains("define void @B_go() {\n"), "{ir}");
}

#[test]
fn a_function_with_a_result_needs_a_return() {
    let missing =
        vec![CodegenError::NotYetImplemented { what: "non-unit function without a `return`" }];
    assert_eq!(lower_str("@fn f() -> u32 { }").unwrap_err(), missing);
    assert_eq!(
        lower_str("@fn f(n: u32) -> u32 { if n == 1u32 { let a: u32 = n; } }").unwrap_err(),
        missing
    );
    assert!(lower_str("@fn f() { }").is_ok());
    let ir = lower_str("@fn f(n: u32) -> u32 { if n == 1u32 { return 1u32; } }").unwrap();
    assert!(ir.contains("  unreachable\n}"), "{ir}");
    let ir = lower_str("@fn f(n: u32) -> u32 { if n == 1u32 { return 1u32; } else { return n; } }")
        .unwrap();
    assert!(ir.contains("  unreachable\n}"), "{ir}");
}

#[test]
fn flush_is_imperative() {
    let src = "#staged #automaton S { a: u32; } @fn f(n: u32) { if n == 1u32 { #flush S; } }";
    assert_eq!(
        check_str(src).unwrap_err(),
        vec![CheckError::ImperativeInFunctional {
            construct: "#flush",
            at: src.find("#flush").unwrap(),
        }]
    );
}

#[test]
fn every_component_with_a_circle_is_reported() {
    let errors = graph_str(
        "#effect a() #mutates: [] { #> b(); } #effect b() #mutates: [] { #> a(); #> c(); } \
         #effect c() #mutates: [] { #> d(); } #effect d() #mutates: [] { #> c(); } \
         #effect e() #mutates: [] { #> a(); }",
    )
    .unwrap_err();
    assert_eq!(errors.len(), 2);
    assert!(errors[0].message().contains("`#effect a` → `#effect b` → `#effect a`"));
    assert!(errors[1].message().contains("`#effect c` → `#effect d` → `#effect c`"));
}

#[test]
fn literals_out_of_the_range_of_their_suffix_are_rejected() {
    for literal in ["300u8", "0x1FFu8", "0b1_0000_0000u8", "129i8"] {
        let src = format!("@fn f() -> u8 {{ return {literal}; }}");
        assert_eq!(
            lower_str(&src).unwrap_err(),
            vec![CodegenError::BadLiteral {
                literal: literal.to_owned(),
                reason: "out-of-range value",
            }]
        );
    }
    let ir = lower_str("@fn f() -> u8 { return 255u8; }").unwrap();
    assert!(ir.contains("  ret i8 255\n"), "{ir}");
}

#[test]
fn values_of_mutations_are_searched_for_faults() {
    let src = "#automaton A { x: u32; y: u32; a: [u32; 4]; } #effect e() -> u32 #mutates: [] { return 1u32; } \
               @fn f(n: u32) { #mutate A { x = A.y, a[e()] = n }; A.x = A.y; }";
    let at = |text: &str| src.find(text).unwrap();
    let imperative =
        |construct: &'static str, at: usize| CheckError::ImperativeInFunctional { construct, at };
    assert_eq!(
        check_str(src).unwrap_err(),
        vec![
            imperative("#mutate", at("#mutate A")),
            imperative("automaton-field read", at("A.y, a[")),
            imperative("bare automaton reference", at("A.y, a[")),
            CheckError::CrossBoundaryCall {
                callee_name: "e".to_owned(),
                callee_kind: "#effect",
                at: at("e()] = n"),
            },
            imperative("Auto.field <op>= …", at("A.x = A.y")),
            imperative("automaton-field read", at("A.y; }")),
            imperative("bare automaton reference", at("A.y; }")),
        ]
    );
}

#[test]
fn recursion_in_imperative_values_is_found() {
    for body in [
        "#mutate A { x = f(n) };",
        "A.x += f(n);",
        "#> e(f(n));",
        "let y := #unchecked_load<u32>(f(n));",
    ] {
        let src = format!(
            "#automaton A {{ x: u32; }} #effect e(n: u32) #mutates: [] {{ }} @fn f(n: u32) {{ {body} }}"
        );
        let call_at = src.rfind("f(n)").unwrap();
        let errors = check_str(&src).unwrap_err();
        assert!(
            errors.contains(&CheckError::TotalityViolation {
                fn_name: "f".to_owned(),
                call_at,
                decl_at: src.find("@fn").unwrap(),
            }),
            "{errors:?}"
        );
    }
}
