use cargo_scan::ast::{
    CallFn, Expr, FieldUse, FnItem, FnSigInfo, Item, PathUse, SourceFile, Stmt,
};
use cargo_scan::effect::{BlockType, Effect, Span, Visibility};
use cargo_scan::ident::{CanonicalPath, IdentPath};
use cargo_scan::scanner::{LoCTracker, ScanResults, Scanner};

fn sp(l0: usize, l1: usize) -> Span {
    Span { start_line: l0, start_col: 0, end_line: l1, end_col: 0 }
}

fn plain_path(name: &str, span: Span) -> PathUse {
    PathUse {
        resolved: CanonicalPath::new(name),
        is_function: false,
        is_fn_ptr: false,
        is_mut_static: false,
        ffi: None,
        is_unsafe_decl: false,
        span,
    }
}

fn fn_item(name: &str, is_unsafe: bool, body: Vec<Stmt>, span: Span) -> Item {
    Item::Fn(FnItem {
        attrs: Vec::new(),
        sig: FnSigInfo { resolved_def: CanonicalPath::new(name), is_unsafe, span },
        vis: Visibility::Public,
        body,
        body_span: span,
        span,
    })
}

fn call_stmt(callee: &str, span: Span) -> Stmt {
    Stmt::ExprStmt(Box::new(Expr::CallExpr {
        func: Box::new(CallFn::FnPath(plain_path(callee, span))),
        args: Vec::new(),
        span,
    }))
}

fn union_field(span: Span) -> FieldUse {
    FieldUse {
        resolved: CanonicalPath::new("pkg::u::field"),
        is_union_field: true,
        is_raw_ptr: false,
        is_unsafe_decl: false,
        span,
    }
}

#[test]
fn test_union_field_write_not_reported() {
    // u.field = 1; -- a write: no UnionField effect
    let span = sp(2, 2);
    let assign = Stmt::ExprStmt(Box::new(Expr::Assign {
        left: Box::new(Expr::FieldAccess {
            base: Box::new(Expr::PathExpr { path: plain_path("pkg::u", span), span }),
            member: Some(union_field(span)),
            span,
        }),
        right: Box::new(Expr::Lit { span }),
        span,
    }));
    let file = SourceFile { items: vec![fn_item("pkg::f", false, vec![assign], sp(1, 3))], span: sp(1, 3) };
    let mut scanner = Scanner::new("lib.rs", ScanResults::new());
    scanner.scan_file(&file);
    let results = scanner.into_results();
    assert_eq!(results.effects.len(), 0);
}

#[test]
fn test_union_field_read_reported() {
    // let x = u.field; -- a read: one UnionField effect
    let span = sp(2, 2);
    let read = Stmt::Local {
        init: Some(Box::new(Expr::FieldAccess {
            base: Box::new(Expr::PathExpr { path: plain_path("pkg::u", span), span }),
            member: Some(union_field(span)),
            span,
        })),
        diverge: None,
        span,
    };
    let file = SourceFile { items: vec![fn_item("pkg::f", false, vec![read], sp(1, 3))], span: sp(1, 3) };
    let mut scanner = Scanner::new("lib.rs", ScanResults::new());
    scanner.scan_file(&file);
    let results = scanner.into_results();
    assert_eq!(results.effects.len(), 1);
    assert_eq!(results.effects[0].callee().as_str(), "pkg::u::field");
    assert!(matches!(results.effects[0].kind(), Effect::UnionField { .. }));
    assert_eq!(results.effects[0].caller().as_str(), "pkg::f");
}

#[test]
fn test_call_graph_edge_and_blocks() {
    // fn pkg::g() {}  fn pkg::f() { pkg::g(); } -- one edge f -> g
    let file = SourceFile {
        items: vec![
            fn_item("pkg::g", false, Vec::new(), sp(1, 1)),
            fn_item("pkg::f", false, vec![call_stmt("pkg::g", sp(3, 3))], sp(2, 4)),
        ],
        span: sp(1, 4),
    };
    let mut scanner = Scanner::new("lib.rs", ScanResults::new());
    scanner.scan_file(&file);
    let results = scanner.into_results();
    assert_eq!(results.call_graph_node_count(), 2);
    assert_eq!(results.call_graph_edge_count(), 1);
    assert_eq!(results.effects.len(), 1);
    assert!(matches!(results.effects[0].kind(), Effect::Call { .. }));
    // two function-level blocks, the effect inside f's block
    assert_eq!(results.effect_blocks.len(), 2);
    assert_eq!(results.pub_fns.len(), 2);
    let callers = results.get_callers(&CanonicalPath::new("pkg::g"));
    assert_eq!(callers.len(), 1);
    assert_eq!(callers[0].caller().as_str(), "pkg::f");
}

#[test]
fn test_unsafe_blocks_and_sink_match() {
    // fn pkg::f() { unsafe { libc::write(); } }
    let span = sp(2, 4);
    let unsafe_block = Stmt::ExprStmt(Box::new(Expr::UnsafeBlock {
        stmts: vec![call_stmt("libc::write", sp(3, 3))],
        span,
    }));
    let file = SourceFile {
        items: vec![fn_item("pkg::f", false, vec![unsafe_block], sp(1, 5))],
        span: sp(1, 5),
    };
    let mut scanner = Scanner::new("lib.rs", ScanResults::new());
    scanner.scan_file(&file);
    let results = scanner.into_results();
    // one unsafe-expression block beside the normal function block
    let unsafe_blocks = results.unsafe_effect_blocks_set();
    assert_eq!(unsafe_blocks.len(), 1);
    assert!(matches!(unsafe_blocks[0].block_type(), BlockType::UnsafeExpr));
    assert_eq!(unsafe_blocks[0].effects().len(), 1);
    // the call matched the built-in libc sink as a path prefix
    assert_eq!(results.effects.len(), 1);
    match results.effects[0].kind() {
        Effect::Call { sink_match, .. } => {
            assert_eq!(sink_match.as_ref().map(IdentPath::as_str), Some("libc"));
        }
        other => panic!("expected a call effect, got {:?}", other),
    }
}

#[test]
fn test_unsafe_fn_block_type() {
    let file = SourceFile {
        items: vec![fn_item("pkg::f", true, vec![call_stmt("pkg::g", sp(2, 2))], sp(1, 3))],
        span: sp(1, 3),
    };
    let mut scanner = Scanner::new("lib.rs", ScanResults::new());
    scanner.scan_file(&file);
    let results = scanner.into_results();
    assert_eq!(results.effect_blocks.len(), 1);
    assert!(matches!(results.effect_blocks[0].block_type(), BlockType::UnsafeFn));
}

#[test]
fn test_fn_ptr_and_raw_pointer_effects() {
    let span = sp(2, 2);
    let fn_ptr = Stmt::ExprStmt(Box::new(Expr::PathExpr {
        path: PathUse {
            resolved: CanonicalPath::new("pkg::g"),
            is_function: true,
            is_fn_ptr: false,
            is_mut_static: false,
            ffi: None,
            is_unsafe_decl: false,
            span,
        },
        span,
    }));
    let deref = Stmt::ExprStmt(Box::new(Expr::Unary {
        is_deref: true,
        deref_fields: vec![FieldUse {
            resolved: CanonicalPath::new("pkg::p"),
            is_union_field: false,
            is_raw_ptr: true,
            is_unsafe_decl: false,
            span,
        }],
        expr: Box::new(Expr::PathExpr { path: plain_path("pkg::p", span), span }),
        span,
    }));
    let file = SourceFile {
        items: vec![fn_item("pkg::f", false, vec![fn_ptr, deref], sp(1, 3))],
        span: sp(1, 3),
    };
    let mut scanner = Scanner::new("lib.rs", ScanResults::new());
    scanner.scan_file(&file);
    let results = scanner.into_results();
    assert_eq!(results.effects.len(), 2);
    assert!(matches!(results.effects[0].kind(), Effect::FnPtrCreation { .. }));
    assert!(matches!(results.effects[1].kind(), Effect::RawPointer { .. }));
}

#[test]
fn test_cfg_skip_heuristic() {
    let mut scanner = Scanner::new("lib.rs", ScanResults::new());
    assert!(scanner.skip_cfg("target_os = \"linux\""));
    assert!(scanner.skip_cfg("not (feature = \"x\")"));
    assert!(!scanner.skip_cfg("target_os = \"macos\""));
    assert!(!scanner.skip_cfg("feature = \"x\""));
    // nothing was scanned
    scanner.assert_top_level_invariant();
}

#[test]
fn test_loc_tracker_counts() {
    let mut t = LoCTracker::new();
    assert!(t.is_empty());
    assert_eq!(t.as_loc(), 0);
    t.add(sp(1, 4));
    t.add(sp(6, 6));
    assert!(!t.is_empty());
    // one three-line span plus one zero-sized span counted as a line
    assert_eq!(t.as_loc(), 4);
}

#[test]
fn test_every_effect_in_exactly_one_block() {
    // effects recorded at the top level of a function and inside an
    // unsafe block are each owned by exactly one effect block
    let unsafe_block = Stmt::ExprStmt(Box::new(Expr::UnsafeBlock {
        stmts: vec![call_stmt("pkg::h", sp(3, 3))],
        span: sp(2, 4),
    }));
    let file = SourceFile {
        items: vec![
            fn_item("pkg::h", false, Vec::new(), sp(6, 6)),
            fn_item(
                "pkg::f",
                false,
                vec![call_stmt("pkg::h", sp(1, 1)), unsafe_block],
                sp(1, 5),
            ),
        ],
        span: sp(1, 6),
    };
    let mut scanner = Scanner::new("lib.rs", ScanResults::new());
    scanner.scan_file(&file);
    let results = scanner.into_results();
    let held: usize = results.effect_blocks.iter().map(|b| b.effects().len()).sum();
    assert_eq!(results.effects.len(), 2);
    assert_eq!(held, 2);
    assert_eq!(results.effect_blocks.len(), 3);
}

#[test]
fn test_default_sinks_listed() {
    let sinks = cargo_scan::sink::default_sinks();
    let names: Vec<&str> = sinks.iter().map(|p| p.as_str()).collect();
    assert!(names.contains(&"libc"));
    assert!(names.contains(&"std::process"));
    assert_eq!(names.len(), 7);
}
