//! The library's parts one by one.
use cliffordc::ast::{
    AutomatonDecl, Block, Expr, ExprKind, FnDecl, Item, Layer, PrimitiveType, Program, Span, Stmt,
    StmtKind,
};
use cliffordc::check::{check, CheckError};
use cliffordc::cli::{
    default_module_name, default_output_path, module_name_or_default, output_path_or_default,
    parse_argv, Cli,
};
use cliffordc::codegen::emit::expr_kind_name;
use cliffordc::codegen::error::CodegenError;
use cliffordc::codegen::irtype::{
    array_element_ir_type, is_float_ir_type, is_integer_ir_type, is_pointer_ir_type,
    is_primitive_ir_ty_for_snapshot, primitive_ir_type, type_to_ir,
};
use cliffordc::codegen::literal::{
    const_int_count, int_literal_ir_type, literal_suffix, parse_address_literal, parse_bin_literal,
    parse_hex_literal, parse_int_literal,
};
use cliffordc::codegen::lower;
use cliffordc::codegen::registry::AutomatonInfo;
use cliffordc::collections::{KeyMap, KeySet};
use cliffordc::driver::{
    active_source, analyse, byte_offset_from_msg, exit_code, generate, label_range,
    needs_audit_stdlib, phase_error, CompileError, PhaseDiag,
};
use cliffordc::effect::callable::{callable_display, callable_sort_key, CallableId, FieldRef};
use cliffordc::effect::callgraph::ProcCallGraph;
use cliffordc::effect::category::Categories;
use cliffordc::effect::error::EffectError;
use cliffordc::effect::overlap::InterruptOverlap;
use cliffordc::effect::profile::{MutationProfile, MutationProfiles};
use cliffordc::effect::search::find_circles;
use cliffordc::order::{sort_by_offset, sorted_elements};
use cliffordc::resolve::{BindingRef, Resolution, Symbol, SymbolKind};
use cliffordc::text::{
    decimal, find_from, has, less, parse_unsigned, remove_char, same, slice, Counter,
};
use cliffordc::types::{Type, Typing};

// ─── Syntax tree ───────────────────────────────────────────────────────────

#[test]
fn layer_predicates() {
    assert!(Layer::Functional.is_functional());
    assert!(!Layer::Functional.is_imperative());
    assert!(Layer::Imperative.is_imperative());
    assert!(!Layer::Imperative.is_functional());
}

#[test]
fn empty_program() {
    let p = Program::default();
    assert!(p.items.is_empty());
    assert_eq!(p.span.start, 0);
    assert_eq!(p.span.end, 0);
}

#[test]
fn item_layer_is_derived_from_variant() {
    let f = Item::Fn(FnDecl {
        name: "foo".into(),
        params: Vec::new(),
        return_type: None,
        trait_list: Vec::new(),
        partial: false,
        body: Block::default(),
        span: Span::new(0, 10),
    });
    assert_eq!(f.layer(), Layer::Functional);
    let a = Item::Automaton(AutomatonDecl {
        name: "Bar".into(),
        address: None,
        basis: None,
        states: None,
        fields: Vec::new(),
        transitions: Vec::new(),
        staged: false,
        audited: false,
        span: Span::new(0, 14),
    });
    assert_eq!(a.layer(), Layer::Imperative);
    assert_eq!(f.span(), Span::new(0, 10));
    assert_eq!(a.span(), Span::new(0, 14));
}

// ─── Command line ──────────────────────────────────────────────────────────

fn argv(args: &[&str]) -> Vec<String> {
    args.iter().map(|s| (*s).to_owned()).collect()
}

#[test]
fn empty_argv_prints_help() {
    assert_eq!(parse_argv(&argv(&[])), Cli::Help);
}

#[test]
fn dash_h_and_long_help_are_help() {
    assert_eq!(parse_argv(&argv(&["-h"])), Cli::Help);
    assert_eq!(parse_argv(&argv(&["--help"])), Cli::Help);
}

#[test]
fn version_flags() {
    assert_eq!(parse_argv(&argv(&["-V"])), Cli::Version);
    assert_eq!(parse_argv(&argv(&["--version"])), Cli::Version);
}

#[test]
fn unknown_top_level_arg_is_unknown() {
    assert!(matches!(parse_argv(&argv(&["doctor"])), Cli::Unknown(_)));
    assert_eq!(parse_argv(&argv(&["doctor"])), Cli::Unknown("doctor".to_owned()));
}

#[test]
fn compile_minimum_args() {
    let cli = parse_argv(&argv(&["compile", "hello.cl"]));
    assert_eq!(
        cli,
        Cli::Compile { input: "hello.cl".to_owned(), output: None, module_name: None }
    );
}

#[test]
fn compile_with_output_flag() {
    let cli = parse_argv(&argv(&["compile", "hello.cl", "-o", "out.ll"]));
    assert_eq!(
        cli,
        Cli::Compile {
            input: "hello.cl".to_owned(),
            output: Some("out.ll".to_owned()),
            module_name: None,
        }
    );
}

#[test]
fn compile_with_module_name() {
    let cli = parse_argv(&argv(&["compile", "hello.cl", "--module-name", "myMod"]));
    assert_eq!(
        cli,
        Cli::Compile {
            input: "hello.cl".to_owned(),
            output: None,
            module_name: Some("myMod".to_owned()),
        }
    );
}

#[test]
fn compile_with_output_before_input() {
    let cli = parse_argv(&argv(&["compile", "-o", "out.ll", "hello.cl"]));
    assert_eq!(
        cli,
        Cli::Compile {
            input: "hello.cl".to_owned(),
            output: Some("out.ll".to_owned()),
            module_name: None,
        }
    );
}

#[test]
fn compile_missing_input_is_unknown() {
    assert!(matches!(parse_argv(&argv(&["compile"])), Cli::Unknown(_)));
    assert_eq!(
        parse_argv(&argv(&["compile"])),
        Cli::Unknown("compile: missing input file".to_owned())
    );
}

#[test]
fn compile_missing_output_value_is_unknown() {
    assert!(matches!(parse_argv(&argv(&["compile", "hello.cl", "-o"])), Cli::Unknown(_)));
    assert_eq!(
        parse_argv(&argv(&["compile", "hello.cl", "-o"])),
        Cli::Unknown("-o (missing path)".to_owned())
    );
}

#[test]
fn compile_unrecognised_flag_is_unknown() {
    assert!(matches!(
        parse_argv(&argv(&["compile", "hello.cl", "--target", "thumbv7em"])),
        Cli::Unknown(_)
    ));
    assert_eq!(
        parse_argv(&argv(&["compile", "hello.cl", "--target", "thumbv7em"])),
        Cli::Unknown("compile: unexpected argument `--target`".to_owned())
    );
}

#[test]
fn compile_options_take_the_next_argument_whatever_it_is() {
    assert_eq!(
        parse_argv(&argv(&["compile", "--module-name"])),
        Cli::Unknown("--module-name (missing value)".to_owned())
    );
    assert_eq!(
        parse_argv(&argv(&["compile", "-o", "-o", "a.cl", "-o", "b.ll"])),
        Cli::Compile {
            input: "a.cl".to_owned(),
            output: Some("b.ll".to_owned()),
            module_name: None,
        }
    );
    assert_eq!(
        parse_argv(&argv(&["compile", "a.cl", "b.cl"])),
        Cli::Unknown("compile: unexpected argument `b.cl`".to_owned())
    );
    assert_eq!(
        parse_argv(&argv(&["compile", ""])),
        Cli::Compile { input: String::new(), output: None, module_name: None }
    );
}

#[test]
fn default_output_path_swaps_extension() {
    assert_eq!(default_output_path("foo.cl"), "foo.ll");
    assert_eq!(default_output_path("foo"), "foo.ll");
    assert_eq!(default_output_path("src/foo.cl"), "src/foo.ll");
    assert_eq!(default_output_path("./a/../b-1.tar.cl"), "./a/../b-1.tar.ll");
    assert_eq!(default_output_path("/a.d/foo"), "/a.d/foo.ll");
    assert_eq!(default_output_path("...cl"), "...ll");
    assert_eq!(default_output_path("my dir/mañana (1).cl"), "my dir/mañana (1).ll");
    assert_eq!(default_output_path("日本 語"), "日本 語.ll");
    assert_eq!(default_output_path(".foo"), ".foo.ll");
    assert_eq!(default_output_path("src/.foo.cl"), "src/.foo.ll");
    assert_eq!(default_output_path("foo."), "foo.ll");
    assert_eq!(default_output_path("foo.cl."), "foo.cl.ll");
    assert_eq!(default_output_path("..."), "...ll");
    assert_eq!(default_output_path("src/foo.cl/"), "src/foo.ll");
    assert_eq!(default_output_path("/foo.d//./"), "/foo.ll");
    assert_eq!(default_output_path("foo/."), "foo.ll");
    for nothing in ["", "/", "..", "a/..", "/..", "../", "a/.././/"] {
        assert_eq!(default_output_path(nothing), "out.ll");
    }
}

#[test]
fn default_module_name_uses_stem() {
    assert_eq!(default_module_name("hello.cl"), "hello");
    assert_eq!(default_module_name("path/to/uart.cl"), "uart");
    assert_eq!(default_module_name("noext"), "noext");
    assert_eq!(default_module_name("./a/../b-1.tar.cl"), "b-1.tar");
    assert_eq!(default_module_name("/a.d/foo"), "foo");
    assert_eq!(default_module_name("...cl"), "..");
    assert_eq!(default_module_name("my dir/mañana (1).cl"), "mañana (1)");
    assert_eq!(default_module_name("日本 語"), "日本 語");
    assert_eq!(default_module_name(".foo"), ".foo");
    assert_eq!(default_module_name("src/.foo.cl"), ".foo");
    assert_eq!(default_module_name("foo."), "foo");
    assert_eq!(default_module_name("foo.cl."), "foo.cl");
    assert_eq!(default_module_name("..."), "..");
    assert_eq!(default_module_name("src/foo.cl/"), "foo");
    assert_eq!(default_module_name("/foo.d//./"), "foo");
    assert_eq!(default_module_name("foo/."), "foo");
    for nothing in ["", "/", "..", "a/..", "/..", "../", "a/.././/"] {
        assert_eq!(default_module_name(nothing), "module");
    }
}

#[test]
fn defaults_stand_in_for_missing_names() {
    assert_eq!(output_path_or_default(None), "out.ll");
    assert_eq!(output_path_or_default(Some("x.ll".to_owned())), "x.ll");
    assert_eq!(module_name_or_default(None), "module");
    assert_eq!(module_name_or_default(Some("x".to_owned())), "x");
}

// ─── Diagnostics ───────────────────────────────────────────────────────────

#[test]
fn byte_offset_from_msg_extracts_basic_form() {
    assert_eq!(byte_offset_from_msg("E0204: expected `;`, found Eq at byte 42"), Some(42));
}

#[test]
fn byte_offset_from_msg_handles_parenthesized_form() {
    assert_eq!(byte_offset_from_msg("E0101: imperative construct in @fn (at byte 7)"), Some(7));
}

#[test]
fn byte_offset_from_msg_handles_referenced_form() {
    assert_eq!(
        byte_offset_from_msg("E0405: `Counter` has no field `bogus` (referenced at byte 123)"),
        Some(123)
    );
}

#[test]
fn byte_offset_from_msg_returns_first_offset_when_multiple() {
    assert_eq!(
        byte_offset_from_msg("E0401: duplicate item `foo` at byte 50; first declared at byte 10"),
        Some(50)
    );
}

#[test]
fn byte_offset_from_msg_returns_none_for_no_offset() {
    assert_eq!(byte_offset_from_msg("E0500: GA engine not yet implemented"), None);
    assert_eq!(byte_offset_from_msg("just a plain message"), None);
    assert_eq!(byte_offset_from_msg(""), None);
}

#[test]
fn byte_offset_from_msg_skips_byte_without_digits() {
    assert_eq!(
        byte_offset_from_msg("the byte was bad and at byte 99 we found it"),
        Some(99)
    );
}

#[test]
fn byte_offset_from_msg_skips_numbers_that_do_not_fit() {
    assert_eq!(
        byte_offset_from_msg("byte 99999999999999999999999999 and byte 5"),
        Some(5)
    );
    assert_eq!(byte_offset_from_msg("byte byte 3"), Some(3));
    assert_eq!(byte_offset_from_msg("ünïcode at byte 0012é"), Some(12));
}

#[test]
fn phase_diag_from_error_extracts_offset_when_present() {
    struct E;
    impl std::fmt::Display for E {
        fn fmt(&self, f: &mut std::fmt::Formatter<'_>) -> std::fmt::Result {
            f.write_str("E0204: expected `;` at byte 42")
        }
    }
    let d = PhaseDiag::from_error(&E.to_string());
    assert_eq!(d.primary_offset, Some(42));
    assert!(d.message.contains("E0204"));
}

#[test]
fn phase_diag_from_error_offset_none_when_absent() {
    struct E;
    impl std::fmt::Display for E {
        fn fmt(&self, f: &mut std::fmt::Formatter<'_>) -> std::fmt::Result {
            f.write_str("E0500: GA engine not yet implemented")
        }
    }
    let d = PhaseDiag::from_error(&E.to_string());
    assert_eq!(d.primary_offset, None);
}

#[test]
fn from_single_gives_one_diagnostic() {
    let ds = PhaseDiag::from_single("E0202: stray `;` at byte 4");
    assert_eq!(ds.len(), 1);
    assert_eq!(ds[0].primary_offset, Some(4));
}

#[test]
fn label_range_marks_one_byte_inside_the_source() {
    assert_eq!(label_range(3, 10), (3, 4));
    assert_eq!(label_range(9, 10), (9, 10));
    assert_eq!(label_range(10, 10), (10, 10));
    assert_eq!(label_range(usize::MAX, 10), (10, 10));
}

#[test]
fn exit_codes_tell_phases_from_files() {
    let e = phase_error("lex", &vec!["E0001: bad at byte 1".to_owned()]);
    assert_eq!(exit_code(&e), 1);
    assert_eq!(exit_code(&CompileError::Io("gone".to_owned())), 3);
    match e {
        CompileError::Phase { name, diags } => {
            assert_eq!(name, "lex");
            assert_eq!(diags.len(), 1);
            assert_eq!(diags[0].primary_offset, Some(1));
        }
        CompileError::Io(_) => panic!("expected a phase"),
    }
}

#[test]
fn s40_needs_audit_stdlib_textual_heuristic() {
    assert!(needs_audit_stdlib("#audit #automaton X { }"));
    assert!(needs_audit_stdlib("// some comment\n#audit #automaton X { }"));
    assert!(!needs_audit_stdlib("#automaton X { }"));
    assert!(!needs_audit_stdlib(""));
    assert!(!needs_audit_stdlib("#interface PointerAuditor { } #audit #automaton X { }"));
}

#[test]
fn active_source_puts_the_audit_module_first() {
    assert_eq!(active_source("#audit #automaton X { }", "M"), "M\n#audit #automaton X { }");
    assert_eq!(active_source("#automaton X { }", "M"), "#automaton X { }");
}

// ─── Text ──────────────────────────────────────────────────────────────────

#[test]
fn texts_compare_by_character() {
    assert!(same("añb", "añb"));
    assert!(!same("a", "ab"));
    assert!(!same("a", "b"));
    assert!(less("a", "b"));
    assert!(less("a", "ab"));
    assert!(less("Z", "a"));
    assert!(!less("b", "b"));
    assert!(less("z", "é"));
}

#[test]
fn numerals_are_rendered_and_read_back() {
    for n in [0u128, 7, 10, 42, 1999, 18446744073709551615, 36893488147419103230] {
        assert_eq!(decimal(n), n.to_string());
    }
    assert_eq!(parse_unsigned("255", 10, u64::MAX), Some(255));
    assert_eq!(parse_unsigned("+255", 10, u64::MAX), Some(255));
    assert_eq!(parse_unsigned("+", 10, u64::MAX), None);
    assert_eq!(parse_unsigned("", 10, u64::MAX), None);
    assert_eq!(parse_unsigned("-1", 10, u64::MAX), None);
    assert_eq!(parse_unsigned("18446744073709551615", 10, u64::MAX), Some(u64::MAX));
    assert_eq!(parse_unsigned("18446744073709551616", 10, u64::MAX), None);
    assert_eq!(parse_unsigned("fF", 16, u64::MAX), Some(255));
    assert_eq!(parse_unsigned("102", 2, u64::MAX), None);
    assert_eq!(parse_unsigned("300", 10, 255), None);
}

#[test]
fn counters_count_past_every_digit() {
    let mut c = Counter::zero();
    for n in 0..1234u32 {
        assert_eq!(c.text(), n.to_string());
        c.step();
    }
}

#[test]
fn searching_finds_the_first_place() {
    let hay: Vec<char> = "abcabc".chars().collect();
    let needle: Vec<char> = "bc".chars().collect();
    assert_eq!(find_from(&hay, &needle, 0), Some(1));
    assert_eq!(find_from(&hay, &needle, 2), Some(4));
    assert_eq!(find_from(&hay, &needle, 5), None);
    assert!(has("abc", ""));
    assert!(!has("", "a"));
    assert_eq!(remove_char("1_000_", '_'), "1000");
    assert_eq!(slice("añb", 1, 2), "ñ");
}

// ─── Collections and order ─────────────────────────────────────────────────

#[test]
fn sets_hold_nothing_twice() {
    let mut s: KeySet<String> = KeySet::new();
    assert!(s.is_empty());
    assert!(s.insert("b".to_owned()));
    assert!(!s.insert("b".to_owned()));
    assert!(s.insert("a".to_owned()));
    assert_eq!(s.len(), 2);
    assert!(s.contains_name("a"));
    let mut t: KeySet<String> = KeySet::new();
    assert!(t.extend(&s));
    assert!(!t.extend(&s));
    assert_eq!(sorted_elements(&s), vec!["a".to_owned(), "b".to_owned()]);
}

#[test]
fn sets_and_maps_are_equal_whatever_the_order() {
    let names = |list: &[&str]| {
        let mut s: KeySet<String> = KeySet::new();
        for n in list {
            s.insert((*n).to_owned());
        }
        s
    };
    assert_eq!(names(&["a", "b"]), names(&["b", "a", "b"]));
    assert_ne!(names(&["a", "b"]), names(&["a"]));
    assert_ne!(names(&["a"]), names(&["a", "b"]));
    assert!(names(&["a"]).is_subset(&names(&["b", "a"])));
    let map = |list: &[(&str, &str)]| {
        let mut m: KeyMap<String, String> = KeyMap::new();
        for (k, v) in list {
            m.insert((*k).to_owned(), (*v).to_owned());
        }
        m
    };
    assert_eq!(map(&[("a", "1"), ("b", "2")]), map(&[("b", "2"), ("a", "1")]));
    assert_ne!(map(&[("a", "1")]), map(&[("a", "2")]));
    assert_ne!(map(&[("a", "1")]), map(&[("b", "1")]));
    assert_ne!(map(&[]), map(&[("b", "1")]));
}

#[test]
fn maps_keep_the_last_value() {
    let mut m: KeyMap<String, String> = KeyMap::new();
    assert!(m.is_empty());
    m.insert("k".to_owned(), "1".to_owned());
    m.insert("l".to_owned(), "2".to_owned());
    m.insert("k".to_owned(), "3".to_owned());
    assert_eq!(m.len(), 2);
    assert_eq!(m.get(&"k".to_owned()), Some(&"3".to_owned()));
    assert_eq!(m.get(&"x".to_owned()), None);
}

fn imperative(at: usize) -> CheckError {
    CheckError::ImperativeInFunctional { construct: "#mutate", at }
}

#[test]
fn sorting_is_stable() {
    let first = CheckError::CrossBoundaryCall {
        callee_name: "x".to_owned(),
        callee_kind: "#effect",
        at: 3,
    };
    let sorted = sort_by_offset(vec![imperative(9), first.clone(), imperative(3), imperative(1)]);
    assert_eq!(sorted, vec![imperative(1), first, imperative(3), imperative(9)]);
    assert_eq!(sort_by_offset(sorted.clone()), sorted);
}

#[test]
fn circles_are_found_once_and_from_their_least_member() {
    let edges = |n: usize, list: &[(usize, usize)]| {
        let mut t = vec![vec![false; n]; n];
        for (a, b) in list {
            t[*a][*b] = true;
        }
        t
    };
    assert!(find_circles(&edges(4, &[(0, 1), (0, 2), (1, 3), (2, 3)])).is_empty());
    assert_eq!(find_circles(&edges(1, &[(0, 0)])), vec![vec![0]]);
    assert_eq!(find_circles(&edges(3, &[(0, 2), (2, 1), (1, 2)])), vec![vec![1, 2]]);
    assert_eq!(
        find_circles(&edges(3, &[(0, 1), (1, 0), (0, 0), (2, 1)])),
        vec![vec![0], vec![0, 1]]
    );
}

// ─── Names, types and errors ───────────────────────────────────────────────

#[test]
fn the_last_entry_of_a_table_counts() {
    let mut r = Resolution::new();
    let span = Span::new(1, 2);
    assert_eq!(r.lookup(span), None);
    r.bind(span, BindingRef::Local { name: "a".to_owned() });
    r.bind(span, BindingRef::Local { name: "b".to_owned() });
    assert_eq!(r.lookup(span), Some(&BindingRef::Local { name: "b".to_owned() }));
    r.symbols.declare(Symbol { name: "f".to_owned(), kind: SymbolKind::Fn });
    r.symbols.declare(Symbol { name: "f".to_owned(), kind: SymbolKind::Effect });
    assert_eq!(r.symbols.lookup("f").map(|s| s.kind), Some(SymbolKind::Effect));
    assert!(r.symbols.lookup("g").is_none());
    let mut t = Typing::new();
    t.record(span, Type::Unit);
    t.record(span, Type::StringSlice);
    assert_eq!(t.lookup(span), Some(&Type::StringSlice));
    assert_eq!(t.lookup(Span::new(0, 2)), None);
}

#[test]
fn callables_are_shown_and_ordered_by_kind_and_name() {
    let e = CallableId::Effect("a".to_owned());
    let i = CallableId::Interrupt("a".to_owned());
    let t = CallableId::Transition { automaton: "A".to_owned(), name: "go".to_owned() };
    assert_eq!(e.name(), "a");
    assert_eq!(t.name(), "go");
    assert_eq!(callable_display(&e), "#effect a");
    assert_eq!(callable_display(&i), "#interrupt a");
    assert_eq!(callable_display(&t), "#transition A::go");
    assert_eq!(callable_sort_key(&e), "E:a");
    assert_eq!(callable_sort_key(&i), "I:a");
    assert_eq!(callable_sort_key(&t), "T:A::go");
}

#[test]
fn empty_results_are_empty() {
    assert!(MutationProfiles::default().is_empty());
    assert_eq!(MutationProfiles::default().len(), 0);
    assert!(ProcCallGraph::default().is_empty());
    let o = InterruptOverlap::default();
    assert!(o.is_empty());
    assert_eq!(o.len(), 0);
    assert!(o.interrupts_for("A").is_empty());
    assert!(!o.is_overlapped("A"));
    assert!(Categories::default().is_empty());
    assert!(MutationProfile::default().actual_writes.is_empty());
}

#[test]
fn messages_name_their_code_and_place() {
    assert_eq!(
        imperative(7).message(),
        "E0101: imperative construct `#mutate` in functional `@fn` body (at byte 7)"
    );
    assert_eq!(
        CheckError::CrossBoundaryCall {
            callee_name: "bump".to_owned(),
            callee_kind: "#effect",
            at: 12,
        }
        .message(),
        "E0102: cross-boundary call: `@fn` body cannot call `#effect bump` (at byte 12)"
    );
    assert_eq!(
        CheckError::WriteToUndeclaredAutomaton {
            automaton: "B".to_owned(),
            enclosing: "#effect r".to_owned(),
            at: 0,
        }
        .message(),
        "E0302: write to undeclared automaton `B`: not in `#effect r`'s `#mutates` set (at byte 0)"
    );
    assert_eq!(
        CheckError::WriteToCannotMutate {
            automaton: "B".to_owned(),
            enclosing: "#effect r".to_owned(),
            at: 10,
        }
        .message(),
        "E0306: write to forbidden automaton `B`: explicitly listed in `#effect r`'s `#cannot_mutate` clause (at byte 10)"
    );
    assert_eq!(
        CheckError::TotalityViolation { fn_name: "f".to_owned(), call_at: 30, decl_at: 2 }.message(),
        "E0540: non-`@partial` `@fn f` contains a recursive call to itself; mark it `@partial @fn` to opt out of the totality check or restructure to remove the recursion (call site at byte 30, fn declared at byte 2)"
    );
    assert_eq!(
        EffectError::UnknownState {
            automaton: "A".to_owned(),
            transition: "t".to_owned(),
            target: "X".to_owned(),
            at: 5,
        }
        .message(),
        "E0430: unknown state `X` in transition `t` of automaton `A` (at byte 5)"
    );
    assert_eq!(
        EffectError::MonoidTransitionWithDestination {
            automaton: "A".to_owned(),
            transition: "t".to_owned(),
            target: "X".to_owned(),
            at: 5,
        }
        .message(),
        "E0431: monoid automaton `A` has transition `t` with destination `X` (at byte 5); monoid transitions cannot specify a destination"
    );
    assert_eq!(
        EffectError::DuplicateTransition {
            automaton: "A".to_owned(),
            transition: "t".to_owned(),
            original_at: 5,
            duplicate_at: 9,
        }
        .message(),
        "E0432: duplicate transition `t` in automaton `A` (at byte 9; first declared at byte 5)"
    );
    assert_eq!(
        EffectError::DuplicateState {
            automaton: "A".to_owned(),
            state: "s".to_owned(),
            original_at: 5,
            duplicate_at: 9,
        }
        .message(),
        "E0433: duplicate state `s` in automaton `A` (at byte 9; first declared at byte 5)"
    );
    assert_eq!(
        EffectError::EffectMutatesUndeclaredAutomaton {
            callable: "e".to_owned(),
            automaton: "A".to_owned(),
            at: 3,
        }
        .message(),
        "E0410: effect `e` mutates undeclared automaton `A` (at byte 3)"
    );
    assert_eq!(
        EffectError::EffectMutatesExcludedAutomaton {
            callable: "e".to_owned(),
            automaton: "A".to_owned(),
            at: 3,
        }
        .message(),
        "E0411: effect `e` mutates excluded automaton `A` (at byte 3)"
    );
    assert_eq!(
        EffectError::ProcCallCycle {
            cycle: vec!["x".to_owned()],
            cycle_display: "`x` → `x`".to_owned(),
        }
        .message(),
        "E0422: proc-call cycle detected: `x` → `x`"
    );
    assert_eq!(
        CodegenError::NotYetImplemented { what: "sigma loop" }.message(),
        "E0810: codegen not yet implemented for sigma loop"
    );
    assert_eq!(
        CodegenError::UnresolvedName { name: "n".to_owned() }.message(),
        "E0811: codegen could not resolve name `n` (likely an upstream resolver bug)"
    );
    assert_eq!(
        CodegenError::BadLiteral { literal: "5q".to_owned(), reason: "why" }.message(),
        "E0812: codegen could not interpret literal `5q`: why"
    );
}

// ─── Literals and IR types ─────────────────────────────────────────────────

fn bad(literal: &str, reason: &'static str) -> CodegenError {
    CodegenError::BadLiteral { literal: literal.to_owned(), reason }
}

#[test]
fn decimal_literals_keep_their_digits() {
    assert_eq!(parse_int_literal("1_000u64"), Ok(("1000".to_owned(), "i64")));
    assert_eq!(parse_int_literal("7"), Ok(("7".to_owned(), "i32")));
    assert_eq!(parse_int_literal("007isize"), Ok(("007".to_owned(), "i64")));
    assert_eq!(parse_int_literal("u8"), Err(bad("u8", "no digits before suffix")));
    assert_eq!(parse_int_literal(""), Err(bad("", "no digits before suffix")));
    assert_eq!(parse_int_literal("5q7"), Err(bad("5q7", "unrecognised integer suffix")));
}

#[test]
fn literals_fit_their_suffix() {
    let bounds = [
        ("u8", "i8", "255", "256"),
        ("i8", "i8", "128", "129"),
        ("u16", "i16", "65535", "65536"),
        ("i16", "i16", "32768", "32769"),
        ("u32", "i32", "4294967295", "4294967296"),
        ("i32", "i32", "2147483648", "2147483649"),
        ("u64", "i64", "18446744073709551615", "18446744073709551616"),
        ("i64", "i64", "9223372036854775808", "9223372036854775809"),
        ("usize", "i64", "18446744073709551615", "18446744073709551616"),
        ("isize", "i64", "9223372036854775808", "9223372036854775809"),
        ("", "i32", "18446744073709551615", "18446744073709551616"),
    ];
    for (suffix, ty, greatest, over) in bounds {
        let fits = format!("{greatest}{suffix}");
        assert_eq!(parse_int_literal(&fits), Ok((greatest.to_owned(), ty)));
        let over = format!("{over}{suffix}");
        assert_eq!(parse_int_literal(&over), Err(bad(&over, "out-of-range value")));
    }
    assert_eq!(parse_int_literal("300u8"), Err(bad("300u8", "out-of-range value")));
    assert_eq!(parse_int_literal("0_0255u8"), Ok(("00255".to_owned(), "i8")));
    assert_eq!(parse_hex_literal("0xFFu8"), Ok(("255".to_owned(), "i8")));
    assert_eq!(parse_hex_literal("0x1FFu8"), Err(bad("0x1FFu8", "out-of-range value")));
    assert_eq!(parse_hex_literal("0x80i8"), Ok(("128".to_owned(), "i8")));
    assert_eq!(parse_hex_literal("0x81i8"), Err(bad("0x81i8", "out-of-range value")));
    assert_eq!(parse_bin_literal("0b1111_1111u8"), Ok(("255".to_owned(), "i8")));
    assert_eq!(
        parse_bin_literal("0b1_0000_0000u8"),
        Err(bad("0b1_0000_0000u8", "out-of-range value"))
    );
}

#[test]
fn hex_literals_become_decimal() {
    assert_eq!(parse_hex_literal("0xFF_FFu16"), Ok(("65535".to_owned(), "i16")));
    assert_eq!(parse_hex_literal("0Xff"), Ok(("255".to_owned(), "i32")));
    assert_eq!(
        parse_hex_literal("0xFFFFFFFFFFFFFFFF"),
        Ok(("18446744073709551615".to_owned(), "i32"))
    );
    assert_eq!(
        parse_hex_literal("0x1_0000_0000_0000_0000"),
        Err(bad("0x1_0000_0000_0000_0000", "hex digits don't fit in u64"))
    );
    assert_eq!(parse_hex_literal("0xu8"), Err(bad("0xu8", "hex digits don't fit in u64")));
    assert_eq!(parse_hex_literal("FF"), Err(bad("FF", "hex literal must start with `0x`")));
    assert_eq!(parse_hex_literal("0xFFz"), Err(bad("0xFFz", "unrecognised hex suffix")));
}

#[test]
fn binary_literals_become_decimal() {
    assert_eq!(parse_bin_literal("0b1010u8"), Ok(("10".to_owned(), "i8")));
    assert_eq!(parse_bin_literal("0B1"), Ok(("1".to_owned(), "i32")));
    assert_eq!(parse_bin_literal("101"), Err(bad("101", "binary literal must start with `0b`")));
    assert_eq!(parse_bin_literal("0b"), Err(bad("0b", "binary digits don't fit in u64")));
    assert_eq!(parse_bin_literal("0b12"), Err(bad("0b12", "unrecognised binary suffix")));
}

#[test]
fn suffixes_are_found_behind_every_body() {
    assert_eq!(literal_suffix("5u32"), "u32");
    assert_eq!(literal_suffix("1_000isize"), "isize");
    assert_eq!(literal_suffix("5"), "");
    assert_eq!(literal_suffix("0xFFu8"), "u8");
    assert_eq!(literal_suffix("0b11i16"), "i16");
    assert_eq!(int_literal_ir_type("5u8"), "i8");
    assert_eq!(int_literal_ir_type("0xFFu8"), "i8");
    assert_eq!(int_literal_ir_type("0xFF"), "i32");
    assert_eq!(int_literal_ir_type("5odd"), "i32");
}

fn lit(kind: ExprKind) -> Expr {
    Expr { kind, span: Span::new(0, 0) }
}

#[test]
fn counts_are_literals_that_fit() {
    assert_eq!(const_int_count(&lit(ExprKind::IntLit("4usize".to_owned()))), Some(4));
    assert_eq!(const_int_count(&lit(ExprKind::HexLit("0x10".to_owned()))), Some(16));
    assert_eq!(const_int_count(&lit(ExprKind::BinLit("0b11".to_owned()))), Some(3));
    let inner = Box::new(lit(ExprKind::IntLit("2".to_owned())));
    assert_eq!(const_int_count(&lit(ExprKind::Paren(inner))), Some(2));
    assert_eq!(const_int_count(&lit(ExprKind::BoolLit(true))), None);
    assert_eq!(
        const_int_count(&lit(ExprKind::IntLit("99999999999999999999".to_owned()))),
        None
    );
}

#[test]
fn address_literals_take_three_radices() {
    assert_eq!(parse_address_literal("0xFFFF_FFFF_FFFF_FFFF"), Some(u64::MAX));
    assert_eq!(parse_address_literal("0B101"), Some(5));
    assert_eq!(parse_address_literal("1_0"), Some(10));
    assert_eq!(parse_address_literal("0x"), None);
}

#[test]
fn ir_types_are_told_apart() {
    assert!(is_integer_ir_type("i128"));
    assert!(!is_integer_ir_type("i"));
    assert!(!is_integer_ir_type("i32*"));
    assert!(is_float_ir_type("double"));
    assert!(!is_float_ir_type("i64"));
    assert!(is_pointer_ir_type("i32*"));
    assert!(!is_pointer_ir_type(""));
    assert!(is_primitive_ir_ty_for_snapshot("i1"));
    assert!(!is_primitive_ir_ty_for_snapshot("float"));
    assert_eq!(primitive_ir_type(PrimitiveType::Char), "i32");
    assert_eq!(array_element_ir_type("[4 x  i8 ]"), Some("i8".to_owned()));
    assert_eq!(array_element_ir_type("[]"), None);
    assert_eq!(array_element_ir_type("["), None);
}

#[test]
fn inferred_types_are_spelled_in_ir() {
    let u8s = || Box::new(Type::Primitive(PrimitiveType::U8));
    assert_eq!(type_to_ir(&Type::Ref { mutable: true, inner: u8s() }), "i8*");
    assert_eq!(type_to_ir(&Type::Array { element: u8s(), size: "1_6".to_owned() }), "[16 x i8]");
    assert_eq!(type_to_ir(&Type::Slice { element: u8s() }), "{i8*, i64}");
    assert_eq!(
        type_to_ir(&Type::Tuple(vec![Type::Unit, Type::StringSlice])),
        "{void, {i8*, i64}}"
    );
    assert_eq!(type_to_ir(&Type::Range { element: u8s(), inclusive: false }), "{i8, i8}");
    assert_eq!(type_to_ir(&Type::Nominal { name: "T".to_owned() }), "i32");
}

#[test]
fn staged_automatons_write_to_their_shadow() {
    let info = |staged: bool, registers: bool| AutomatonInfo {
        name: "A".to_owned(),
        fields: Vec::new(),
        is_register_block: registers,
        base_address: 0,
        state_tags: vec![("Off".to_owned(), 0), ("On".to_owned(), 1)],
        is_audited: false,
        is_staged: staged,
    };
    assert_eq!(info(true, false).write_global(), "@A.shadow");
    assert_eq!(info(true, true).write_global(), "@A.state");
    assert_eq!(info(false, false).write_global(), "@A.state");
    assert_eq!(info(false, false).state_tag("On"), Some(1));
    assert_eq!(info(false, false).state_tag("Up"), None);
    assert!(info(false, false).is_multi_state());
}

#[test]
fn constructs_without_a_lowering_are_named() {
    assert_eq!(expr_kind_name(&ExprKind::Null), "null literal");
    assert_eq!(
        expr_kind_name(&ExprKind::Shadow { automaton: "A".to_owned(), field: "f".to_owned() }),
        "unknown expression kind"
    );
}

// ─── Programs built by hand ────────────────────────────────────────────────

fn function(name: &str, stmts: Vec<StmtKind>) -> Item {
    Item::Fn(FnDecl {
        name: name.to_owned(),
        params: Vec::new(),
        return_type: None,
        trait_list: Vec::new(),
        partial: false,
        body: Block {
            stmts: stmts.into_iter().map(|kind| Stmt { kind, span: Span::new(5, 6) }).collect(),
            span: Span::new(0, 0),
        },
        span: Span::new(1, 2),
    })
}

fn program(items: Vec<Item>) -> Program {
    Program { span: Span::new(0, 0), items }
}

#[test]
fn an_empty_program_lowers_to_its_header() {
    let ir = lower(&Program::default(), &Resolution::default(), &Typing::default(), "empty")
        .expect("empty program lowers cleanly");
    assert_eq!(ir, "; ModuleID = 'empty'\nsource_filename = \"empty\"\n\n");
}

#[test]
fn every_error_of_a_program_is_given_in_order() {
    let p = program(vec![
        function("a", vec![StmtKind::Break, StmtKind::Expr(lit(ExprKind::Null))]),
        function("b", vec![StmtKind::Expr(lit(ExprKind::Path(vec!["x".to_owned()])))]),
    ]);
    let errors = lower(&p, &Resolution::new(), &Typing::new(), "m").expect_err("cannot lower");
    assert_eq!(
        errors,
        vec![
            CodegenError::NotYetImplemented {
                what: "`break` outside a sigma loop (resolver should have caught this; please file a bug)",
            },
            CodegenError::NotYetImplemented { what: "null literal" },
            CodegenError::UnresolvedName { name: "x".to_owned() },
        ]
    );
}

#[test]
fn untyped_literals_fall_back_on_their_suffix() {
    let div = Expr {
        kind: ExprKind::Binary {
            op: cliffordc::ast::BinaryOp::Div,
            lhs: Box::new(Expr { kind: ExprKind::IntLit("6i8".to_owned()), span: Span::new(1, 4) }),
            rhs: Box::new(Expr { kind: ExprKind::IntLit("2i8".to_owned()), span: Span::new(7, 10) }),
        },
        span: Span::new(1, 10),
    };
    let p = program(vec![function("f", vec![StmtKind::Return(Some(div))])]);
    let ir = lower(&p, &Resolution::new(), &Typing::new(), "m").expect("lowers");
    assert!(ir.contains("  %tmp.0 = sdiv i8 6, 2\n  ret i8 %tmp.0\n"), "{ir}");
}

#[test]
fn nested_blocks_are_checked_too() {
    let inner = Block {
        stmts: vec![Stmt {
            kind: StmtKind::MutateShort {
                automaton: "A".to_owned(),
                field: "f".to_owned(),
                op: cliffordc::ast::AssignOp::Eq,
                value: lit(ExprKind::IntLit("1".to_owned())),
            },
            span: Span::new(20, 30),
        }],
        span: Span::new(10, 40),
    };
    let p = program(vec![function(
        "f",
        vec![StmtKind::If {
            cond: lit(ExprKind::BoolLit(true)),
            then_block: inner,
            else_block: None,
        }],
    )]);
    assert_eq!(
        check(&p, &Resolution::new()),
        Err(vec![CheckError::ImperativeInFunctional {
            construct: "Auto.field <op>= …",
            at: 20,
        }])
    );
}

#[test]
fn check_errors_come_in_source_order() {
    let call = Expr {
        kind: ExprKind::Call {
            callee: Box::new(Expr {
                kind: ExprKind::Path(vec!["f".to_owned()]),
                span: Span::new(2, 3),
            }),
            args: Vec::new(),
        },
        span: Span::new(2, 5),
    };
    let p = program(vec![function(
        "f",
        vec![StmtKind::Expr(call), StmtKind::Expr(lit(ExprKind::StateRead("A".to_owned())))],
    )]);
    let errors = check(&p, &Resolution::new()).expect_err("two faults");
    assert_eq!(
        errors,
        vec![
            CheckError::ImperativeInFunctional { construct: "Auto@state", at: 0 },
            CheckError::TotalityViolation { fn_name: "f".to_owned(), call_at: 2, decl_at: 1 },
        ]
    );
}

#[test]
fn the_first_phase_that_rejects_is_reported() {
    let p = program(vec![function("f", vec![StmtKind::Mutate {
        automaton: "A".to_owned(),
        assigns: Vec::new(),
    }])]);
    match analyse(&p, &Resolution::new()) {
        Err(CompileError::Phase { name, diags }) => {
            assert_eq!(name, "check");
            assert_eq!(diags[0].primary_offset, Some(5));
        }
        other => panic!("expected a phase error, found {other:?}"),
    }
    let races = vec!["E0501: race".to_owned()];
    match generate(&Program::default(), &Resolution::new(), &Typing::new(), "m", &races) {
        Err(CompileError::Phase { name, diags }) => {
            assert_eq!(name, "ortho");
            assert_eq!(diags.len(), 1);
        }
        other => panic!("expected a phase error, found {other:?}"),
    }
    let broken = program(vec![function("f", vec![StmtKind::Continue])]);
    match generate(&broken, &Resolution::new(), &Typing::new(), "m", &Vec::new()) {
        Err(CompileError::Phase { name, .. }) => assert_eq!(name, "codegen"),
        other => panic!("expected a phase error, found {other:?}"),
    }
}

#[test]
fn field_references_are_told_apart_by_both_names() {
    let f = |a: &str, b: &str| FieldRef { automaton: a.to_owned(), field: b.to_owned() };
    let mut s: KeySet<FieldRef> = KeySet::new();
    s.insert(f("A", "x"));
    assert!(s.contains(&f("A", "x")));
    assert!(!s.contains(&f("A", "y")));
    assert!(!s.contains(&f("B", "x")));
}
