//! The effect scanner: a stateful walk over a resolved syntax tree that
//! collects effect instances, effect blocks, unsafe declarations, a call
//! graph and line-of-code counters.

use vstd::multiset::Multiset;
use vstd::prelude::*;

use crate::ast::{
    Attr, CallFn, Expr, FieldUse, FnItem, ForeignItem, ForeignMod, ImplBlock, ImplMember, Item,
    MatchArm, MemberUse, MethodUse, ModItem, PathUse, SourceFile, Stmt, TraitItem,
};
use crate::effect::{
    BlockType, Effect, EffectBlock, EffectInstance, FnDec, Span, SrcLoc, TraitDec, TraitImpl,
    Visibility,
};
use crate::graph::{
    graph_add_edge, graph_add_node, graph_edge_count, graph_edges, graph_new, graph_node_count,
    graph_nodes, CallGraph,
};
use crate::ident::{CanonicalPath, IdentPath};

verus! {

/// Saturating addition on machine integers.
pub open spec fn sat_add(a: usize, b: usize) -> usize {
    if a + b > usize::MAX {
        usize::MAX
    } else {
        (a + b) as usize
    }
}

/// The counters of a lines-of-code tracker.
pub struct LoCView {
    pub instances: usize,
    pub lines: usize,
    pub zero_size_lines: usize,
}

/// The effect of adding one span to a tracker: spans that start and end
/// on one line (or are degenerate) count as zero-sized; counters saturate
/// rather than wrap.
pub open spec fn spec_loc_add(t: LoCView, s: Span) -> LoCView {
    LoCView {
        instances: sat_add(t.instances, 1),
        lines: if s.end_line > s.start_line {
            sat_add(t.lines, (s.end_line - s.start_line) as usize)
        } else {
            t.lines
        },
        zero_size_lines: if s.end_line > s.start_line {
            t.zero_size_lines
        } else {
            sat_add(t.zero_size_lines, 1)
        },
    }
}

/// Lines-of-code tracker: aggregates the line spans of the constructs
/// added to it.
pub struct LoCTracker {
    instances: usize,
    lines: usize,
    zero_size_lines: usize,
}

impl View for LoCTracker {
    type V = LoCView;

    closed spec fn view(&self) -> LoCView {
        LoCView {
            instances: self.instances,
            lines: self.lines,
            zero_size_lines: self.zero_size_lines,
        }
    }
}

impl Default for LoCTracker {
    /// An empty tracker.
    fn default() -> (r: Self)
        ensures
            r@.instances == 0,
            r@.lines == 0,
            r@.zero_size_lines == 0,
    {
        LoCTracker { instances: 0, lines: 0, zero_size_lines: 0 }
    }
}

impl LoCTracker {
    /// An empty tracker.
    pub fn new() -> (r: Self)
        ensures
            r@.instances == 0,
            r@.lines == 0,
            r@.zero_size_lines == 0,
    {
        Self::default()
    }

    /// Record one spanned construct.
    pub fn add(&mut self, s: Span)
        ensures
            final(self)@ == spec_loc_add(old(self)@, s),
    {
        self.instances = self.instances.saturating_add(1);
        if s.end_line > s.start_line {
            self.lines = self.lines.saturating_add(s.end_line - s.start_line);
        } else {
            self.zero_size_lines = self.zero_size_lines.saturating_add(1);
        }
    }

    /// True when no spans were added.
    pub fn is_empty(&self) -> (r: bool)
        ensures
            r == (self@.instances == 0),
    {
        self.instances == 0
    }

    /// Summarize the tracker as a single lines-of-code number, counting
    /// zero-sized spans as one line each.
    pub fn as_loc(&self) -> (r: usize)
        ensures
            r == sat_add(self@.lines, self@.zero_size_lines),
    {
        self.lines.saturating_add(self.zero_size_lines)
    }
}

/// `b` extends `a`: same length or longer, equal on `a`'s indices.
pub open spec fn seq_grows_to<T>(a: Seq<T>, b: Seq<T>) -> bool {
    a.len() <= b.len() && forall|i: int| 0 <= i < a.len() ==> a[i] == b[i]
}

/// Every effect of the block was reported for the function the block
/// sits in.
pub open spec fn block_ok(b: EffectBlock) -> bool {
    forall|j: int|
        0 <= j < b.effects@.len() ==> (#[trigger] b.effects@[j]).caller == b.containing_fn.fn_name
}

pub open spec fn blocks_ok(blocks: Seq<EffectBlock>) -> bool {
    forall|i: int| 0 <= i < blocks.len() ==> block_ok(#[trigger] blocks[i])
}

/// All effects held by a list of blocks, as a multiset.
pub open spec fn blocks_ms(blocks: Seq<EffectBlock>) -> Multiset<EffectInstance>
    decreases blocks.len(),
{
    if blocks.len() == 0 {
        Multiset::empty()
    } else {
        blocks_ms(blocks.drop_last()).add(blocks.last().effects@.to_multiset())
    }
}

proof fn lemma_blocks_ms_push(blocks: Seq<EffectBlock>, b: EffectBlock)
    ensures
        blocks_ms(blocks.push(b)) == blocks_ms(blocks).add(b.effects@.to_multiset()),
{
    assert(blocks.push(b).drop_last() =~= blocks);
    assert(blocks.push(b).last() == b);
}

/// An effect that witnesses a call-graph edge: a call between the two
/// paths, reported at the given site.
pub open spec fn call_between(
    e: EffectInstance,
    u: Seq<char>,
    v: Seq<char>,
    file: Seq<char>,
    span: Span,
) -> bool {
    &&& e.kind matches Effect::Call { .. }
    &&& e.caller@ == u
    &&& e.callee@ == v
    &&& e.loc.file@ == file
    &&& e.loc.span == span
}

/// Some recorded effect is a call between the two paths at the site.
pub open spec fn edge_witnessed(
    effects: Seq<EffectInstance>,
    u: Seq<char>,
    v: Seq<char>,
    file: Seq<char>,
    span: Span,
) -> bool {
    exists|i: int| 0 <= i < effects.len() && call_between(#[trigger] effects[i], u, v, file, span)
}

/// The unsafe blocks of a block list, in order.
pub open spec fn filter_unsafe_blocks(blocks: Seq<EffectBlock>) -> Seq<EffectBlock>
    decreases blocks.len(),
{
    if blocks.len() == 0 {
        Seq::empty()
    } else {
        let rest = filter_unsafe_blocks(blocks.drop_last());
        if blocks.last().block_type is NormalFn {
            rest
        } else {
            rest.push(blocks.last())
        }
    }
}

/// The effects whose callee is the given path, in order.
pub open spec fn callers_of(effects: Seq<EffectInstance>, callee: Seq<char>) -> Seq<
    EffectInstance,
>
    decreases effects.len(),
{
    if effects.len() == 0 {
        Seq::empty()
    } else {
        let rest = callers_of(effects.drop_last(), callee);
        if effects.last().callee@ == callee {
            rest.push(effects.last())
        } else {
            rest
        }
    }
}

/// Blocks with the same content.
pub open spec fn block_eqv(a: EffectBlock, b: EffectBlock) -> bool {
    a.block_type == b.block_type && a.src_loc == b.src_loc && a.containing_fn == b.containing_fn
        && a.effects@ == b.effects@
}

/// Some entry of the node-index list is for the path.
pub open spec fn registered_in(ni: Seq<(CanonicalPath, usize)>, p: Seq<char>) -> bool {
    exists|i: int| 0 <= i < ni.len() && (#[trigger] ni[i]).0@ == p
}

/// Some element of the list has the view of the path.
pub open spec fn listed_in(l: Seq<CanonicalPath>, p: Seq<char>) -> bool {
    exists|i: int| 0 <= i < l.len() && (#[trigger] l[i])@ == p
}

/// Some location entry is keyed by the path.
pub open spec fn located_in(fl: Seq<(CanonicalPath, SrcLoc)>, p: Seq<char>) -> bool {
    exists|i: int| 0 <= i < fl.len() && (#[trigger] fl[i]).0@ == p
}

/// The index of the node registered for the path (meaningful when the
/// path is registered and keys are unique).
pub open spec fn node_index_of(ni: Seq<(CanonicalPath, usize)>, p: Seq<char>) -> int {
    choose|i: int| 0 <= i < ni.len() && (#[trigger] ni[i]).0@ == p
}

/// The mathematical content of one effect's kind.
pub enum EffKindV {
    Call { callee: Seq<char>, ffi: Option<Seq<char>>, is_unsafe: bool, sink: Option<Seq<char>> },
    FnPtrCreation { target: Seq<char> },
    StaticMut { target: Seq<char> },
    StaticExt { target: Seq<char> },
    RawPointer { target: Seq<char> },
    UnionField { target: Seq<char> },
    ClosureCreation { target: Seq<char> },
}

/// The mathematical content of one effect instance.
pub struct EffV {
    pub caller: Seq<char>,
    pub callee: Seq<char>,
    pub file: Seq<char>,
    pub span: Span,
    pub kind: EffKindV,
}

pub open spec fn opt_path_view(o: Option<CanonicalPath>) -> Option<Seq<char>> {
    match o {
        Some(p) => Some(p@),
        None => None,
    }
}

pub open spec fn opt_ident_view(o: Option<IdentPath>) -> Option<Seq<char>> {
    match o {
        Some(p) => Some(p@),
        None => None,
    }
}

pub open spec fn kind_view(k: Effect) -> EffKindV {
    match k {
        Effect::Call { callee, ffi, is_unsafe, sink_match } => EffKindV::Call {
            callee: callee@,
            ffi: opt_path_view(ffi),
            is_unsafe,
            sink: opt_ident_view(sink_match),
        },
        Effect::FnPtrCreation { target } => EffKindV::FnPtrCreation { target: target@ },
        Effect::StaticMut { target } => EffKindV::StaticMut { target: target@ },
        Effect::StaticExt { target } => EffKindV::StaticExt { target: target@ },
        Effect::RawPointer { target } => EffKindV::RawPointer { target: target@ },
        Effect::UnionField { target } => EffKindV::UnionField { target: target@ },
        Effect::ClosureCreation { target } => EffKindV::ClosureCreation { target: target@ },
    }
}

pub open spec fn eff_view(e: EffectInstance) -> EffV {
    EffV { caller: e.caller@, callee: e.callee@, file: e.loc.file@, span: e.loc.span, kind: kind_view(e.kind) }
}

/// The recorded effect list, by content.
pub open spec fn effs_view(s: Seq<EffectInstance>) -> Seq<EffV> {
    s.map_values(|e: EffectInstance| eff_view(e))
}

proof fn lemma_effs_view_push(s: Seq<EffectInstance>, e: EffectInstance)
    ensures
        effs_view(s.push(e)) == effs_view(s).push(eff_view(e)),
{
    assert(effs_view(s.push(e)) =~= effs_view(s).push(eff_view(e)));
}

/// One effect at a site, under a caller.
pub open spec fn eff_v(
    file: Seq<char>,
    caller: Seq<char>,
    callee: Seq<char>,
    span: Span,
    kind: EffKindV,
) -> EffV {
    EffV { caller, callee, file, span, kind }
}

/// The call effect a call site yields: foreign identity and unsafety as
/// resolved, the sink match computed against the active sink list.
pub open spec fn call_eff_v(
    file: Seq<char>,
    caller: Seq<char>,
    callee: Seq<char>,
    span: Span,
    ffi: Option<Seq<char>>,
    is_unsafe: bool,
    sinks: Seq<IdentPath>,
) -> EffV {
    eff_v(
        file,
        caller,
        callee,
        span,
        EffKindV::Call {
            callee,
            ffi,
            is_unsafe,
            sink: opt_ident_view(crate::sink::first_sink_match(sinks, callee)),
        },
    )
}

/// What a path expression yields: a function-pointer creation when it
/// resolves to a function or function-pointer type, a mutable-global
/// reference when it resolves to a mutable static, and a foreign-static
/// reference when it is foreign.
pub open spec fn path_effects(p: PathUse, file: Seq<char>, caller: Seq<char>) -> Seq<EffV> {
    (if p.is_function || p.is_fn_ptr {
        seq![eff_v(file, caller, p.resolved@, p.span, EffKindV::FnPtrCreation { target: p.resolved@ })]
    } else {
        Seq::empty()
    }) + (if p.is_mut_static {
        seq![eff_v(file, caller, p.resolved@, p.span, EffKindV::StaticMut { target: p.resolved@ })]
    } else {
        Seq::empty()
    }) + (if p.ffi is Some {
        seq![eff_v(file, caller, p.resolved@, p.span, EffKindV::StaticExt { target: p.resolved@ })]
    } else {
        Seq::empty()
    })
}

/// What a closure literal yields: its synthetic identity, when one is.
pub open spec fn closure_effects(
    ident: Option<CanonicalPath>,
    span: Span,
    file: Seq<char>,
    caller: Seq<char>,
) -> Seq<EffV> {
    match ident {
        Some(id) => seq![
            eff_v(file, caller, id@, span, EffKindV::ClosureCreation { target: id@ }),
        ],
        None => Seq::empty(),
    }
}

/// What a dereference yields: one raw-pointer effect per operand
/// identifier of raw-pointer type, in order.
pub open spec fn deref_effects(
    fields: Seq<FieldUse>,
    span: Span,
    file: Seq<char>,
    caller: Seq<char>,
) -> Seq<EffV>
    decreases fields.len(),
{
    if fields.len() == 0 {
        Seq::empty()
    } else {
        (if fields.first().is_raw_ptr {
            seq![
                eff_v(
                    file,
                    caller,
                    fields.first().resolved@,
                    span,
                    EffKindV::RawPointer { target: fields.first().resolved@ },
                ),
            ]
        } else {
            Seq::empty()
        }) + deref_effects(fields.drop_first(), span, file, caller)
    }
}

/// What a named-field access yields: a union-field read, unless the
/// access is the target of an assignment.
pub open spec fn field_access_effects(
    member: Option<FieldUse>,
    span: Span,
    file: Seq<char>,
    caller: Seq<char>,
    assign_lhs: bool,
) -> Seq<EffV> {
    match member {
        Some(f) => if f.is_union_field && !assign_lhs {
            seq![
                eff_v(file, caller, f.resolved@, span, EffKindV::UnionField { target: f.resolved@ }),
            ]
        } else {
            Seq::empty()
        },
        None => Seq::empty(),
    }
}

/// What a method-call site yields.
pub open spec fn method_call_effects(
    m: MethodUse,
    file: Seq<char>,
    caller: Seq<char>,
    unsafe_on: bool,
    sinks: Seq<IdentPath>,
) -> Seq<EffV> {
    seq![
        call_eff_v(
            file,
            caller,
            m.resolved@,
            m.span,
            None,
            m.is_unsafe_decl && unsafe_on,
            sinks,
        ),
    ]
}

/// What a member call site yields.
pub open spec fn member_call_effects(
    m: MemberUse,
    file: Seq<char>,
    caller: Seq<char>,
    unsafe_on: bool,
    sinks: Seq<IdentPath>,
) -> Seq<EffV> {
    match m {
        MemberUse::Named(f) => seq![
            call_eff_v(
                file,
                caller,
                f.resolved@,
                f.span,
                None,
                f.is_unsafe_decl && unsafe_on,
                sinks,
            ),
        ],
        MemberUse::Unnamed(ix) => seq![
            call_eff_v(file, caller, ix.resolved@, ix.span, None, unsafe_on, sinks),
        ],
    }
}

/// What the callee position of a call expression yields.
pub open spec fn call_fn_effects(
    f: CallFn,
    file: Seq<char>,
    caller: Seq<char>,
    unsafe_on: bool,
    sinks: Seq<IdentPath>,
) -> Seq<EffV>
    decreases f,
{
    match f {
        CallFn::FnPath(p) => seq![
            call_eff_v(
                file,
                caller,
                p.resolved@,
                p.span,
                opt_path_view(p.ffi),
                p.is_unsafe_decl && unsafe_on,
                sinks,
            ),
        ],
        CallFn::FnParen(inner) => call_fn_effects(*inner, file, caller, unsafe_on, sinks),
        CallFn::FnField(m) => member_call_effects(m, file, caller, unsafe_on, sinks),
        CallFn::FnMacro { .. } => Seq::empty(),
        CallFn::FnOther { .. } => Seq::empty(),
    }
}

/// Whether the walk of the expression passes an assignment (which
/// leaves the assignment-target flag lowered behind it).
pub open spec fn has_assign_expr(e: Expr) -> bool
    decreases e,
{
    match e {
        Expr::Array { elems, .. } => has_assign_exprs(elems@),
        Expr::Assign { .. } => true,
        Expr::AsyncBlock { stmts, .. } => has_assign_stmts(stmts@),
        Expr::Await { base, .. } => has_assign_expr(*base),
        Expr::Binary { left, right, .. } => has_assign_expr(*left) || has_assign_expr(*right),
        Expr::BlockExpr { stmts, .. } => has_assign_stmts(stmts@),
        Expr::Break { value, .. } => has_assign_opt(value),
        Expr::CallExpr { args, .. } => has_assign_exprs(args@),
        Expr::Cast { expr, .. } => has_assign_expr(*expr),
        Expr::ClosureExpr { .. } => false,
        Expr::ContinueExpr { .. } => false,
        Expr::FieldAccess { base, .. } => has_assign_expr(*base),
        Expr::ForLoop { expr, body, .. } => has_assign_expr(*expr) || has_assign_stmts(body@),
        Expr::Group { expr, .. } => has_assign_expr(*expr),
        Expr::IfExpr { cond, then_branch, else_branch, .. } => has_assign_expr(*cond)
            || has_assign_stmts(then_branch@) || has_assign_opt(else_branch),
        Expr::IndexExpr { expr, index, .. } => has_assign_expr(*expr) || has_assign_expr(*index),
        Expr::LetExpr { expr, .. } => has_assign_expr(*expr),
        Expr::Lit { .. } => false,
        Expr::LoopExpr { body, .. } => has_assign_stmts(body@),
        Expr::MacroExpr { .. } => false,
        Expr::MatchExpr { expr, arms, .. } => has_assign_expr(*expr) || has_assign_arms(arms@),
        Expr::MethodCall { receiver, args, .. } => has_assign_expr(*receiver) || has_assign_exprs(
            args@,
        ),
        Expr::Paren { expr, .. } => has_assign_expr(*expr),
        Expr::PathExpr { .. } => false,
        Expr::RangeExpr { start, end, .. } => has_assign_opt(start) || has_assign_opt(end),
        Expr::Reference { expr, .. } => has_assign_expr(*expr),
        Expr::Repeat { expr, len, .. } => has_assign_expr(*expr) || has_assign_expr(*len),
        Expr::ReturnExpr { value, .. } => has_assign_opt(value),
        Expr::StructExpr { fields, rest, .. } => has_assign_exprs(fields@) || has_assign_opt(rest),
        Expr::TryExpr { expr, .. } => has_assign_expr(*expr),
        Expr::TryBlock { stmts, .. } => has_assign_stmts(stmts@),
        Expr::TupleExpr { elems, .. } => has_assign_exprs(elems@),
        Expr::Unary { expr, .. } => has_assign_expr(*expr),
        Expr::UnsafeBlock { stmts, .. } => has_assign_stmts(stmts@),
        Expr::Verbatim { .. } => false,
        Expr::WhileExpr { cond, body, .. } => has_assign_expr(*cond) || has_assign_stmts(body@),
        Expr::Yield { value, .. } => has_assign_opt(value),
        Expr::UnknownExpr { .. } => false,
    }
}

pub open spec fn has_assign_opt(o: Option<Box<Expr>>) -> bool
    decreases o,
{
    match o {
        Some(b) => has_assign_expr(*b),
        None => false,
    }
}

pub open spec fn has_assign_exprs(es: Seq<Expr>) -> bool
    decreases es,
{
    if es.len() == 0 {
        false
    } else {
        has_assign_expr(es[0]) || has_assign_exprs(es.drop_first())
    }
}

pub open spec fn has_assign_arms(arms: Seq<MatchArm>) -> bool
    decreases arms,
{
    if arms.len() == 0 {
        false
    } else {
        has_assign_opt(arms[0].guard) || has_assign_expr(*arms[0].body) || has_assign_arms(
            arms.drop_first(),
        )
    }
}

pub open spec fn has_assign_stmt(s: Stmt) -> bool
    decreases s,
{
    match s {
        Stmt::Local { init, diverge, .. } => has_assign_opt(init) || has_assign_opt(diverge),
        Stmt::ExprStmt(e) => has_assign_expr(*e),
        Stmt::ItemStmt(i) => has_assign_item(*i),
        Stmt::MacroStmt { .. } => false,
    }
}

pub open spec fn has_assign_stmts(ss: Seq<Stmt>) -> bool
    decreases ss,
{
    if ss.len() == 0 {
        false
    } else {
        has_assign_stmt(ss[0]) || has_assign_stmts(ss.drop_first())
    }
}

pub open spec fn has_assign_mod(m: ModItem) -> bool
    decreases m,
{
    if spec_skip_attrs(m.attrs@) {
        false
    } else {
        match m.content {
            Some(items) => has_assign_items(items@),
            None => false,
        }
    }
}

pub open spec fn has_assign_impl(imp: ImplBlock) -> bool
    decreases imp,
{
    if spec_skip_attrs(imp.attrs@) {
        false
    } else {
        has_assign_members(imp.items@)
    }
}

pub open spec fn has_assign_fn_item(f: FnItem) -> bool
    decreases f,
{
    if spec_skip_attrs(f.attrs@) {
        false
    } else {
        has_assign_stmts(f.body@)
    }
}

pub open spec fn has_assign_item(i: Item) -> bool
    decreases i,
{
    match i {
        Item::Mod(m) => has_assign_mod(m),
        Item::Impl(imp) => has_assign_impl(imp),
        Item::Fn(f) => has_assign_fn_item(f),
        _ => false,
    }
}

pub open spec fn has_assign_items(is: Seq<Item>) -> bool
    decreases is,
{
    if is.len() == 0 {
        false
    } else {
        has_assign_item(is[0]) || has_assign_items(is.drop_first())
    }
}

pub open spec fn has_assign_members(ms: Seq<ImplMember>) -> bool
    decreases ms,
{
    if ms.len() == 0 {
        false
    } else {
        (match ms[0] {
            ImplMember::Method(m) => has_assign_fn_item(m),
            _ => false,
        }) || has_assign_members(ms.drop_first())
    }
}

/// The assignment-target flag after a walk: lowered when the walk passed
/// an assignment, untouched otherwise.
pub open spec fn lhs_step(has: bool, l: bool) -> bool {
    if has {
        false
    } else {
        l
    }
}

/// The effects the scanner reports for one expression, under a file, a
/// sink list, the enclosing function, the unsafe scope, and the
/// assignment-target flag: the expression-level effect rules.
pub open spec fn emit_expr(
    e: Expr,
    file: Seq<char>,
    sinks: Seq<IdentPath>,
    caller: Seq<char>,
    uns: bool,
    l: bool,
) -> Seq<EffV>
    decreases e,
{
    match e {
        Expr::Array { elems, .. } => emit_exprs(elems@, file, sinks, caller, uns, l),
        Expr::Assign { left, right, .. } => emit_expr(*left, file, sinks, caller, uns, true)
            + emit_expr(*right, file, sinks, caller, uns, false),
        Expr::AsyncBlock { stmts, .. } => emit_stmts(stmts@, file, sinks, caller, uns, l),
        Expr::Await { base, .. } => emit_expr(*base, file, sinks, caller, uns, l),
        Expr::Binary { left, right, .. } => emit_expr(*left, file, sinks, caller, uns, l)
            + emit_expr(*right, file, sinks, caller, uns, lhs_step(has_assign_expr(*left), l)),
        Expr::BlockExpr { stmts, .. } => emit_stmts(stmts@, file, sinks, caller, uns, l),
        Expr::Break { value, .. } => emit_opt_expr(value, file, sinks, caller, uns, l),
        Expr::CallExpr { func, args, .. } => emit_exprs(args@, file, sinks, caller, uns, l)
            + call_fn_effects(*func, file, caller, uns, sinks),
        Expr::Cast { expr, .. } => emit_expr(*expr, file, sinks, caller, uns, l),
        Expr::ClosureExpr { ident, span } => closure_effects(ident, span, file, caller),
        Expr::ContinueExpr { .. } => Seq::empty(),
        Expr::FieldAccess { base, member, span } => emit_expr(*base, file, sinks, caller, uns, l)
            + field_access_effects(
            member,
            span,
            file,
            caller,
            lhs_step(has_assign_expr(*base), l),
        ),
        Expr::ForLoop { expr, body, .. } => emit_expr(*expr, file, sinks, caller, uns, l)
            + emit_stmts(body@, file, sinks, caller, uns, lhs_step(has_assign_expr(*expr), l)),
        Expr::Group { expr, .. } => emit_expr(*expr, file, sinks, caller, uns, l),
        Expr::IfExpr { cond, then_branch, else_branch, .. } => {
            let l1 = lhs_step(has_assign_expr(*cond), l);
            let l2 = lhs_step(has_assign_stmts(then_branch@), l1);
            emit_expr(*cond, file, sinks, caller, uns, l) + emit_stmts(
                then_branch@,
                file,
                sinks,
                caller,
                uns,
                l1,
            ) + emit_opt_expr(else_branch, file, sinks, caller, uns, l2)
        },
        Expr::IndexExpr { expr, index, .. } => emit_expr(*expr, file, sinks, caller, uns, l)
            + emit_expr(*index, file, sinks, caller, uns, lhs_step(has_assign_expr(*expr), l)),
        Expr::LetExpr { expr, .. } => emit_expr(*expr, file, sinks, caller, uns, l),
        Expr::Lit { .. } => Seq::empty(),
        Expr::LoopExpr { body, .. } => emit_stmts(body@, file, sinks, caller, uns, l),
        Expr::MacroExpr { .. } => Seq::empty(),
        Expr::MatchExpr { expr, arms, .. } => emit_expr(*expr, file, sinks, caller, uns, l)
            + emit_arms(arms@, file, sinks, caller, uns, lhs_step(has_assign_expr(*expr), l)),
        Expr::MethodCall { receiver, args, method, .. } => {
            let l1 = lhs_step(has_assign_expr(*receiver), l);
            emit_expr(*receiver, file, sinks, caller, uns, l) + emit_exprs(
                args@,
                file,
                sinks,
                caller,
                uns,
                l1,
            ) + method_call_effects(method, file, caller, uns, sinks)
        },
        Expr::Paren { expr, .. } => emit_expr(*expr, file, sinks, caller, uns, l),
        Expr::PathExpr { path, .. } => path_effects(path, file, caller),
        Expr::RangeExpr { start, end, .. } => emit_opt_expr(start, file, sinks, caller, uns, l)
            + emit_opt_expr(end, file, sinks, caller, uns, lhs_step(has_assign_opt(start), l)),
        Expr::Reference { expr, .. } => emit_expr(*expr, file, sinks, caller, uns, l),
        Expr::Repeat { expr, len, .. } => emit_expr(*expr, file, sinks, caller, uns, l)
            + emit_expr(*len, file, sinks, caller, uns, lhs_step(has_assign_expr(*expr), l)),
        Expr::ReturnExpr { value, .. } => emit_opt_expr(value, file, sinks, caller, uns, l),
        Expr::StructExpr { fields, rest, .. } => emit_exprs(fields@, file, sinks, caller, uns, l)
            + emit_opt_expr(rest, file, sinks, caller, uns, lhs_step(has_assign_exprs(fields@), l)),
        Expr::TryExpr { expr, .. } => emit_expr(*expr, file, sinks, caller, uns, l),
        Expr::TryBlock { stmts, .. } => emit_stmts(stmts@, file, sinks, caller, uns, l),
        Expr::TupleExpr { elems, .. } => emit_exprs(elems@, file, sinks, caller, uns, l),
        Expr::Unary { is_deref, deref_fields, expr, span } => (if is_deref {
            deref_effects(deref_fields@, span, file, caller)
        } else {
            Seq::empty()
        }) + emit_expr(*expr, file, sinks, caller, uns, l),
        Expr::UnsafeBlock { stmts, .. } => emit_stmts(stmts@, file, sinks, caller, true, l),
        Expr::Verbatim { .. } => Seq::empty(),
        Expr::WhileExpr { cond, body, .. } => emit_expr(*cond, file, sinks, caller, uns, l)
            + emit_stmts(body@, file, sinks, caller, uns, lhs_step(has_assign_expr(*cond), l)),
        Expr::Yield { value, .. } => emit_opt_expr(value, file, sinks, caller, uns, l),
        Expr::UnknownExpr { .. } => Seq::empty(),
    }
}

pub open spec fn emit_opt_expr(
    o: Option<Box<Expr>>,
    file: Seq<char>,
    sinks: Seq<IdentPath>,
    caller: Seq<char>,
    uns: bool,
    l: bool,
) -> Seq<EffV>
    decreases o,
{
    match o {
        Some(b) => emit_expr(*b, file, sinks, caller, uns, l),
        None => Seq::empty(),
    }
}

pub open spec fn emit_exprs(
    es: Seq<Expr>,
    file: Seq<char>,
    sinks: Seq<IdentPath>,
    caller: Seq<char>,
    uns: bool,
    l: bool,
) -> Seq<EffV>
    decreases es,
{
    if es.len() == 0 {
        Seq::empty()
    } else {
        emit_expr(es[0], file, sinks, caller, uns, l) + emit_exprs(
            es.drop_first(),
            file,
            sinks,
            caller,
            uns,
            lhs_step(has_assign_expr(es[0]), l),
        )
    }
}

/// Each arm: its guard, then its body.
pub open spec fn emit_arms(
    arms: Seq<MatchArm>,
    file: Seq<char>,
    sinks: Seq<IdentPath>,
    caller: Seq<char>,
    uns: bool,
    l: bool,
) -> Seq<EffV>
    decreases arms,
{
    if arms.len() == 0 {
        Seq::empty()
    } else {
        let l1 = lhs_step(has_assign_opt(arms[0].guard), l);
        let l2 = lhs_step(has_assign_expr(*arms[0].body), l1);
        emit_opt_expr(arms[0].guard, file, sinks, caller, uns, l) + emit_expr(
            *arms[0].body,
            file,
            sinks,
            caller,
            uns,
            l1,
        ) + emit_arms(arms.drop_first(), file, sinks, caller, uns, l2)
    }
}

pub open spec fn emit_stmt(
    s: Stmt,
    file: Seq<char>,
    sinks: Seq<IdentPath>,
    caller: Seq<char>,
    uns: bool,
    l: bool,
) -> Seq<EffV>
    decreases s,
{
    match s {
        Stmt::Local { init, diverge, .. } => emit_opt_expr(init, file, sinks, caller, uns, l)
            + emit_opt_expr(diverge, file, sinks, caller, uns, lhs_step(has_assign_opt(init), l)),
        Stmt::ExprStmt(e) => emit_expr(*e, file, sinks, caller, uns, l),
        Stmt::ItemStmt(i) => emit_item(*i, file, sinks, uns, l),
        Stmt::MacroStmt { .. } => Seq::empty(),
    }
}

pub open spec fn emit_stmts(
    ss: Seq<Stmt>,
    file: Seq<char>,
    sinks: Seq<IdentPath>,
    caller: Seq<char>,
    uns: bool,
    l: bool,
) -> Seq<EffV>
    decreases ss,
{
    if ss.len() == 0 {
        Seq::empty()
    } else {
        emit_stmt(ss[0], file, sinks, caller, uns, l) + emit_stmts(
            ss.drop_first(),
            file,
            sinks,
            caller,
            uns,
            lhs_step(has_assign_stmt(ss[0]), l),
        )
    }
}

/// The effects a module yields: its inline content's, unless skipped.
pub open spec fn emit_mod(
    m: ModItem,
    file: Seq<char>,
    sinks: Seq<IdentPath>,
    uns: bool,
    l: bool,
) -> Seq<EffV>
    decreases m,
{
    if spec_skip_attrs(m.attrs@) {
        Seq::empty()
    } else {
        match m.content {
            Some(items) => emit_items(items@, file, sinks, uns, l),
            None => Seq::empty(),
        }
    }
}

/// The effects an impl block yields: its members', unless skipped.
pub open spec fn emit_impl(
    imp: ImplBlock,
    file: Seq<char>,
    sinks: Seq<IdentPath>,
    uns: bool,
    l: bool,
) -> Seq<EffV>
    decreases imp,
{
    if spec_skip_attrs(imp.attrs@) {
        Seq::empty()
    } else {
        emit_members(imp.items@, file, sinks, uns, l)
    }
}

/// The effects a function declaration yields: its body's, under its own
/// name, with the unsafe scope raised when its signature is unsafe;
/// none when skipped for its attributes.
pub open spec fn emit_fn_item(
    f: FnItem,
    file: Seq<char>,
    sinks: Seq<IdentPath>,
    uns: bool,
    l: bool,
) -> Seq<EffV>
    decreases f,
{
    if spec_skip_attrs(f.attrs@) {
        Seq::empty()
    } else {
        emit_stmts(f.body@, file, sinks, f.sig.resolved_def@, uns || f.sig.is_unsafe, l)
    }
}

/// The effects an item yields; items skipped for their attributes yield
/// none, as do items without statement bodies.
pub open spec fn emit_item(
    i: Item,
    file: Seq<char>,
    sinks: Seq<IdentPath>,
    uns: bool,
    l: bool,
) -> Seq<EffV>
    decreases i,
{
    match i {
        Item::Mod(m) => emit_mod(m, file, sinks, uns, l),
        Item::Impl(imp) => emit_impl(imp, file, sinks, uns, l),
        Item::Fn(f) => emit_fn_item(f, file, sinks, uns, l),
        _ => Seq::empty(),
    }
}

pub open spec fn emit_items(
    is: Seq<Item>,
    file: Seq<char>,
    sinks: Seq<IdentPath>,
    uns: bool,
    l: bool,
) -> Seq<EffV>
    decreases is,
{
    if is.len() == 0 {
        Seq::empty()
    } else {
        emit_item(is[0], file, sinks, uns, l) + emit_items(
            is.drop_first(),
            file,
            sinks,
            uns,
            lhs_step(has_assign_item(is[0]), l),
        )
    }
}

pub open spec fn emit_members(
    ms: Seq<ImplMember>,
    file: Seq<char>,
    sinks: Seq<IdentPath>,
    uns: bool,
    l: bool,
) -> Seq<EffV>
    decreases ms,
{
    if ms.len() == 0 {
        Seq::empty()
    } else {
        let head = match ms[0] {
            ImplMember::Method(m) => emit_fn_item(m, file, sinks, uns, l),
            _ => Seq::<EffV>::empty(),
        };
        let lh = match ms[0] {
            ImplMember::Method(m) => has_assign_fn_item(m),
            _ => false,
        };
        head + emit_members(ms.drop_first(), file, sinks, uns, lhs_step(lh, l))
    }
}

/// Results of a scan: the effects and effect blocks found, unsafe trait
/// declarations and impls, the public-function set, function locations,
/// the call graph, and the lines-of-code counters.
pub struct ScanResults {
    pub effects: Vec<EffectInstance>,
    pub effect_blocks: Vec<EffectBlock>,
    pub unsafe_traits: Vec<TraitDec>,
    pub unsafe_impls: Vec<TraitImpl>,
    pub pub_fns: Vec<CanonicalPath>,
    pub fn_locs: Vec<(CanonicalPath, SrcLoc)>,
    pub call_graph: CallGraph,
    pub node_idxs: Vec<(CanonicalPath, usize)>,
    pub edge_locs: Vec<SrcLoc>,
    pub total_loc: LoCTracker,
    pub skipped_macros: LoCTracker,
    pub skipped_conditional_code: LoCTracker,
    pub skipped_fn_calls: LoCTracker,
    pub skipped_other: LoCTracker,
    pub stray: Ghost<Multiset<EffectInstance>>,
}

pub open spec fn node_inv(r: ScanResults) -> bool {
    &&& r.node_idxs@.len() == graph_nodes(r.call_graph).len()
    &&& forall|i: int|
        0 <= i < r.node_idxs@.len() ==> (#[trigger] r.node_idxs@[i]).1 == i && graph_nodes(
            r.call_graph,
        )[i] == r.node_idxs@[i].0@
    &&& forall|i: int, j: int|
        0 <= i < j < r.node_idxs@.len() ==> (#[trigger] r.node_idxs@[i]).0@ != (
        #[trigger] r.node_idxs@[j]).0@
}

pub open spec fn edge_inv(r: ScanResults) -> bool {
    &&& r.edge_locs@.len() == graph_edges(r.call_graph).len()
    &&& forall|k: int|
        0 <= k < graph_edges(r.call_graph).len() ==> 0 <= (#[trigger] graph_edges(
            r.call_graph,
        )[k]).0 < graph_nodes(r.call_graph).len() && 0 <= graph_edges(r.call_graph)[k].1
            < graph_nodes(r.call_graph).len() && graph_edges(r.call_graph)[k].2 == k
    &&& forall|k: int|
        0 <= k < graph_edges(r.call_graph).len() ==> edge_witnessed(
            r.effects@,
            graph_nodes(r.call_graph)[(#[trigger] graph_edges(r.call_graph)[k]).0],
            graph_nodes(r.call_graph)[graph_edges(r.call_graph)[k].1],
            r.edge_locs@[k].file@,
            r.edge_locs@[k].span,
        )
}

pub open spec fn lists_inv(r: ScanResults) -> bool {
    &&& forall|i: int, j: int|
        0 <= i < j < r.pub_fns@.len() ==> (#[trigger] r.pub_fns@[i])@ != (
        #[trigger] r.pub_fns@[j])@
    &&& forall|i: int, j: int|
        0 <= i < j < r.fn_locs@.len() ==> (#[trigger] r.fn_locs@[i]).0@ != (
        #[trigger] r.fn_locs@[j]).0@
}

/// The call-graph bookkeeping invariant: the node-index map is in
/// bijection with the graph's node set (entry `i` holds node `i`), keys
/// are unique, every edge joins existing nodes, edge weights index the
/// call-site location list, every edge is witnessed by a recorded call
/// effect between its endpoints' paths, and the public-function and
/// location lists hold each path once.
pub open spec fn graph_inv(r: ScanResults) -> bool {
    node_inv(r) && edge_inv(r) && lists_inv(r)
}

/// `edge_inv` is stable when the edges, their locations and the effect
/// list are unchanged and the node list only grows.
proof fn lemma_edge_inv_stable(a: ScanResults, b: ScanResults)
    requires
        edge_inv(a),
        seq_grows_to(a.effects@, b.effects@),
        b.edge_locs@ == a.edge_locs@,
        graph_edges(b.call_graph) == graph_edges(a.call_graph),
        seq_grows_to(graph_nodes(a.call_graph), graph_nodes(b.call_graph)),
    ensures
        edge_inv(b),
{
    assert forall|k: int|
        0 <= k < graph_edges(b.call_graph).len() implies 0 <= (#[trigger] graph_edges(
        b.call_graph,
    )[k]).0 < graph_nodes(b.call_graph).len() && 0 <= graph_edges(b.call_graph)[k].1
        < graph_nodes(b.call_graph).len() && graph_edges(b.call_graph)[k].2 == k by {
        assert(graph_edges(a.call_graph)[k] == graph_edges(b.call_graph)[k]);
    }
    assert forall|k: int|
        0 <= k < graph_edges(b.call_graph).len() implies edge_witnessed(
        b.effects@,
        graph_nodes(b.call_graph)[(#[trigger] graph_edges(b.call_graph)[k]).0],
        graph_nodes(b.call_graph)[graph_edges(b.call_graph)[k].1],
        b.edge_locs@[k].file@,
        b.edge_locs@[k].span,
    ) by {
        let ek = (#[trigger] graph_edges(a.call_graph)[k]);
        assert(edge_witnessed(
            a.effects@,
            graph_nodes(a.call_graph)[ek.0],
            graph_nodes(a.call_graph)[ek.1],
            a.edge_locs@[k].file@,
            a.edge_locs@[k].span,
        ));
        assert(0 <= ek.0 < graph_nodes(a.call_graph).len());
        assert(graph_nodes(b.call_graph)[ek.0] == graph_nodes(a.call_graph)[ek.0]);
        assert(graph_nodes(b.call_graph)[ek.1] == graph_nodes(a.call_graph)[ek.1]);
        lemma_edge_witnessed_grow(
            a.effects@,
            b.effects@,
            graph_nodes(a.call_graph)[ek.0],
            graph_nodes(a.call_graph)[ek.1],
            a.edge_locs@[k].file@,
            a.edge_locs@[k].span,
        );
    }
}

/// Results well-formedness outside a scan: the graph bookkeeping, every
/// stored block consistent with its containing function, and every
/// recorded effect in exactly one stored block (or recorded as stray).
pub open spec fn results_inv(r: ScanResults) -> bool {
    &&& graph_inv(r)
    &&& blocks_ok(r.effect_blocks@)
    &&& r.effects@.to_multiset() == blocks_ms(r.effect_blocks@).add(r.stray@)
}

impl ScanResults {
    /// Empty results.
    pub fn new() -> (r: Self)
        ensures
            results_inv(r),
            r.effects@ == Seq::<EffectInstance>::empty(),
            r.effect_blocks@ == Seq::<EffectBlock>::empty(),
            r.unsafe_traits@ == Seq::<TraitDec>::empty(),
            r.unsafe_impls@ == Seq::<TraitImpl>::empty(),
            r.pub_fns@ == Seq::<CanonicalPath>::empty(),
            r.fn_locs@ == Seq::<(CanonicalPath, SrcLoc)>::empty(),
            graph_nodes(r.call_graph) == Seq::<Seq<char>>::empty(),
            graph_edges(r.call_graph) == Seq::<(int, int, int)>::empty(),
            r.stray@ == Multiset::<EffectInstance>::empty(),
            r.total_loc@.instances == 0,
    {
        let r = ScanResults {
            effects: Vec::new(),
            effect_blocks: Vec::new(),
            unsafe_traits: Vec::new(),
            unsafe_impls: Vec::new(),
            pub_fns: Vec::new(),
            fn_locs: Vec::new(),
            call_graph: graph_new(),
            node_idxs: Vec::new(),
            edge_locs: Vec::new(),
            total_loc: LoCTracker::new(),
            skipped_macros: LoCTracker::new(),
            skipped_conditional_code: LoCTracker::new(),
            skipped_fn_calls: LoCTracker::new(),
            skipped_other: LoCTracker::new(),
            stray: Ghost(Multiset::empty()),
        };
        proof {
            assert(r.effects@.to_multiset() =~= Multiset::<EffectInstance>::empty().add(
                Multiset::<EffectInstance>::empty(),
            )) by {
                broadcast use vstd::seq_lib::group_to_multiset_ensures;

                assert(r.effects@.to_multiset().len() == 0);
            }
        }
        r
    }

    /// The index of the call-graph node registered for the path.
    pub(crate) fn find_node(&self, p: &CanonicalPath) -> (r: Option<usize>)
        requires
            graph_inv(*self),
        ensures
            match r {
                Some(i) => i < graph_nodes(self.call_graph).len() && graph_nodes(
                    self.call_graph,
                )[i as int] == p@ && registered_in(self.node_idxs@, p@),
                None => !registered_in(self.node_idxs@, p@),
            },
    {
        let n = self.node_idxs.len();
        let mut i: usize = 0;
        while i < n
            invariant
                i <= n,
                n == self.node_idxs@.len(),
                graph_inv(*self),
                forall|j: int| 0 <= j < i ==> (#[trigger] self.node_idxs@[j]).0@ != p@,
            decreases n - i,
        {
            if self.node_idxs[i].0 == *p {
                return Some(self.node_idxs[i].1);
            }
            i = i + 1;
        }
        None
    }

    /// The number of nodes of the call graph.
    pub fn call_graph_node_count(&self) -> (r: usize)
        ensures
            r == graph_nodes(self.call_graph).len(),
    {
        graph_node_count(&self.call_graph)
    }

    /// The number of edges of the call graph.
    pub fn call_graph_edge_count(&self) -> (r: usize)
        ensures
            r == graph_edges(self.call_graph).len(),
    {
        graph_edge_count(&self.call_graph)
    }

    /// Record a function declaration: allocate (or reuse) its call-graph
    /// node, and record its visibility and location.
    #[verifier::rlimit(100)]
    pub fn add_fn_dec(&mut self, f: FnDec)
        requires
            graph_inv(*old(self)),
        ensures
            graph_inv(*final(self)),
            final(self).effects == old(self).effects,
            final(self).effect_blocks == old(self).effect_blocks,
            final(self).unsafe_traits == old(self).unsafe_traits,
            final(self).unsafe_impls == old(self).unsafe_impls,
            final(self).stray == old(self).stray,
            graph_edges(final(self).call_graph) == graph_edges(old(self).call_graph),
            final(self).edge_locs == old(self).edge_locs,
            seq_grows_to(graph_nodes(old(self).call_graph), graph_nodes(final(self).call_graph)),
            seq_grows_to(old(self).node_idxs@, final(self).node_idxs@),
            seq_grows_to(old(self).pub_fns@, final(self).pub_fns@),
            registered_in(final(self).node_idxs@, f.fn_name@),
            registered_in(old(self).node_idxs@, f.fn_name@) ==> (final(self).node_idxs
                == old(self).node_idxs && graph_nodes(final(self).call_graph) == graph_nodes(
                old(self).call_graph,
            )),
            !registered_in(old(self).node_idxs@, f.fn_name@) ==> (graph_nodes(
                final(self).call_graph,
            ) == graph_nodes(old(self).call_graph).push(f.fn_name@) && final(self).node_idxs@.len()
                == old(self).node_idxs@.len() + 1 && (final(self).node_idxs@.last()).0
                == f.fn_name),
            f.vis == Visibility::Public ==> listed_in(final(self).pub_fns@, f.fn_name@),
            f.vis != Visibility::Public ==> final(self).pub_fns == old(self).pub_fns,
            f.vis == Visibility::Public ==> (final(self).pub_fns == old(self).pub_fns
                || final(self).pub_fns@ == old(self).pub_fns@.push(f.fn_name)),
            located_in(final(self).fn_locs@, f.fn_name@),
            exists|i: int|
                0 <= i < final(self).fn_locs@.len() && (#[trigger] final(self).fn_locs@[i]).0@
                    == f.fn_name@ && final(self).fn_locs@[i].1 == f.src_loc,
            final(self).total_loc == old(self).total_loc,
            final(self).skipped_macros == old(self).skipped_macros,
            final(self).skipped_conditional_code == old(self).skipped_conditional_code,
            final(self).skipped_fn_calls == old(self).skipped_fn_calls,
            final(self).skipped_other == old(self).skipped_other,
    {
        let ghost fname = f.fn_name@;
        let ghost s0 = *self;
        let ghost nodes0 = graph_nodes(self.call_graph);
        let found = self.find_node(&f.fn_name);
        match found {
            Some(_) => {}
            None => {
                let ghost ni0 = self.node_idxs@;
                let idx = graph_add_node(&mut self.call_graph, f.fn_name.as_str().to_owned());
                self.node_idxs.push((f.fn_name.clone(), idx));
                proof {
                    assert forall|i: int, j: int|
                        0 <= i < j < self.node_idxs@.len() implies (
                    #[trigger] self.node_idxs@[i]).0@ != (#[trigger] self.node_idxs@[j]).0@ by {
                        if j == self.node_idxs@.len() - 1 {
                            assert(self.node_idxs@[j].0@ == fname);
                            assert(ni0[i] == self.node_idxs@[i]);
                        }
                    }
                    assert((self.node_idxs@[self.node_idxs@.len() - 1]).0@ == fname);
                    assert(registered_in(self.node_idxs@, fname));
                }
            }
        }
        if matches!(f.vis, Visibility::Public) {
            if !path_listed(&self.pub_fns, &f.fn_name) {
                let ghost pf0 = self.pub_fns@;
                self.pub_fns.push(f.fn_name.clone());
                proof {
                    assert forall|i: int, j: int|
                        0 <= i < j < self.pub_fns@.len() implies (#[trigger] self.pub_fns@[i])@
                        != (#[trigger] self.pub_fns@[j])@ by {
                        if j == self.pub_fns@.len() - 1 {
                            assert(pf0[i] == self.pub_fns@[i]);
                        }
                    }
                    assert((self.pub_fns@[self.pub_fns@.len() - 1])@ == fname);
                }
            }
            proof {
                assert(listed_in(self.pub_fns@, fname));
            }
        }
        let found_loc = self.find_fn_loc(&f.fn_name);
        match found_loc {
            Some(i) => {
                let ghost fl0 = self.fn_locs@;
                self.fn_locs[i] = (f.fn_name, f.src_loc);
                proof {
                    assert forall|a: int, b: int|
                        0 <= a < b < self.fn_locs@.len() implies (#[trigger] self.fn_locs@[a]).0@
                        != (#[trigger] self.fn_locs@[b]).0@ by {
                        assert(self.fn_locs@[a].0@ == fl0[a].0@);
                        assert(self.fn_locs@[b].0@ == fl0[b].0@);
                    }
                    assert((self.fn_locs@[i as int]).0@ == fname);
                    assert(located_in(self.fn_locs@, fname));
                }
            }
            None => {
                let ghost fl0 = self.fn_locs@;
                self.fn_locs.push((f.fn_name, f.src_loc));
                proof {
                    assert forall|a: int, b: int|
                        0 <= a < b < self.fn_locs@.len() implies (#[trigger] self.fn_locs@[a]).0@
                        != (#[trigger] self.fn_locs@[b]).0@ by {
                        if b == self.fn_locs@.len() - 1 {
                            assert(fl0[a] == self.fn_locs@[a]);
                        }
                    }
                    assert((self.fn_locs@[self.fn_locs@.len() - 1]).0@ == fname);
                    assert(located_in(self.fn_locs@, fname));
                }
            }
        }
        proof {
            assert(node_inv(*self)) by {
                assert(self.node_idxs@.len() == graph_nodes(self.call_graph).len());
                assert(forall|i: int|
                    0 <= i < self.node_idxs@.len() ==> (#[trigger] self.node_idxs@[i]).1 == i
                        && graph_nodes(self.call_graph)[i] == self.node_idxs@[i].0@);
                assert(forall|i: int, j: int|
                    0 <= i < j < self.node_idxs@.len() ==> (#[trigger] self.node_idxs@[i]).0@ != (
                    #[trigger] self.node_idxs@[j]).0@);
            }
            assert(edge_inv(*self)) by {
                lemma_edge_inv_stable(s0, *self);
            }
            assert(lists_inv(*self)) by {
                assert(forall|i: int, j: int|
                    0 <= i < j < self.pub_fns@.len() ==> (#[trigger] self.pub_fns@[i])@ != (
                    #[trigger] self.pub_fns@[j])@);
                assert(forall|i: int, j: int|
                    0 <= i < j < self.fn_locs@.len() ==> (#[trigger] self.fn_locs@[i]).0@ != (
                    #[trigger] self.fn_locs@[j]).0@);
            }
            assert(graph_inv(*self));
        }
    }

    /// The index of the recorded location entry for the path.
    fn find_fn_loc(&self, p: &CanonicalPath) -> (r: Option<usize>)
        requires
            forall|i: int, j: int|
                0 <= i < j < self.fn_locs@.len() ==> (#[trigger] self.fn_locs@[i]).0@ != (
                #[trigger] self.fn_locs@[j]).0@,
        ensures
            match r {
                Some(i) => i < self.fn_locs@.len() && self.fn_locs@[i as int].0@ == p@,
                None => !located_in(self.fn_locs@, p@),
            },
    {
        let n = self.fn_locs.len();
        let mut i: usize = 0;
        while i < n
            invariant
                i <= n,
                n == self.fn_locs@.len(),
                forall|j: int| 0 <= j < i ==> (#[trigger] self.fn_locs@[j]).0@ != p@,
            decreases n - i,
        {
            if self.fn_locs[i].0 == *p {
                return Some(i);
            }
            i = i + 1;
        }
        None
    }

    /// The effect blocks that demand an auditor's eye: unsafe blocks and
    /// unsafe functions.
    pub fn unsafe_effect_blocks_set(&self) -> (r: Vec<EffectBlock>)
        ensures
            r@.len() == filter_unsafe_blocks(self.effect_blocks@).len(),
            forall|j: int|
                0 <= j < r@.len() ==> block_eqv(
                    #[trigger] r@[j],
                    filter_unsafe_blocks(self.effect_blocks@)[j],
                ),
    {
        let mut r: Vec<EffectBlock> = Vec::new();
        let n = self.effect_blocks.len();
        proof {
            assert(self.effect_blocks@.take(0) =~= Seq::<EffectBlock>::empty());
        }
        let mut i: usize = 0;
        while i < n
            invariant
                i <= n,
                n == self.effect_blocks@.len(),
                r@.len() == filter_unsafe_blocks(self.effect_blocks@.take(i as int)).len(),
                forall|j: int|
                    0 <= j < r@.len() ==> block_eqv(
                        #[trigger] r@[j],
                        filter_unsafe_blocks(self.effect_blocks@.take(i as int))[j],
                    ),
            decreases n - i,
        {
            let keep = match self.effect_blocks[i].block_type() {
                BlockType::UnsafeExpr => true,
                BlockType::UnsafeFn => true,
                BlockType::NormalFn => false,
            };
            if keep {
                r.push(self.effect_blocks[i].clone());
            }
            proof {
                assert(self.effect_blocks@.take(i + 1).drop_last() =~= self.effect_blocks@.take(
                    i as int,
                ));
                assert(self.effect_blocks@.take(i + 1).last() == self.effect_blocks@[i as int]);
            }
            i = i + 1;
        }
        proof {
            assert(self.effect_blocks@.take(n as int) =~= self.effect_blocks@);
        }
        r
    }

    /// All recorded effects whose callee is the given path.
    pub fn get_callers(&self, callee: &CanonicalPath) -> (r: Vec<EffectInstance>)
        ensures
            r@ == callers_of(self.effects@, callee@),
    {
        let mut r: Vec<EffectInstance> = Vec::new();
        let n = self.effects.len();
        proof {
            assert(self.effects@.take(0) =~= Seq::<EffectInstance>::empty());
            assert(r@ =~= callers_of(self.effects@.take(0), callee@));
        }
        let mut i: usize = 0;
        while i < n
            invariant
                i <= n,
                n == self.effects@.len(),
                r@ == callers_of(self.effects@.take(i as int), callee@),
            decreases n - i,
        {
            if self.effects[i].callee() == callee {
                r.push(self.effects[i].clone());
            }
            proof {
                assert(self.effects@.take(i + 1).drop_last() =~= self.effects@.take(i as int));
                assert(self.effects@.take(i + 1).last() == self.effects@[i as int]);
            }
            i = i + 1;
        }
        proof {
            assert(self.effects@.take(n as int) =~= self.effects@);
        }
        r
    }
}

/// True when some element of the list has the view of `p`.
fn path_listed(l: &Vec<CanonicalPath>, p: &CanonicalPath) -> (r: bool)
    ensures
        r == listed_in(l@, p@),
{
    let n = l.len();
    let mut i: usize = 0;
    while i < n
        invariant
            i <= n,
            n == l@.len(),
            forall|j: int| 0 <= j < i ==> (#[trigger] l@[j])@ != p@,
        decreases n - i,
    {
        if l[i] == *p {
            return true;
        }
        i = i + 1;
    }
    false
}

/// Number of unsafe-scoped blocks (unsafe functions and unsafe
/// expressions) in a block stack.
pub open spec fn ucount(blocks: Seq<EffectBlock>) -> int
    decreases blocks.len(),
{
    if blocks.len() == 0 {
        0
    } else {
        ucount(blocks.drop_last()) + if blocks.last().block_type is NormalFn {
            0int
        } else {
            1int
        }
    }
}

proof fn lemma_ucount_le(blocks: Seq<EffectBlock>)
    ensures
        0 <= ucount(blocks) <= blocks.len(),
    decreases blocks.len(),
{
    if blocks.len() > 0 {
        lemma_ucount_le(blocks.drop_last());
    }
}

proof fn lemma_ucount_push(blocks: Seq<EffectBlock>, b: EffectBlock)
    ensures
        ucount(blocks.push(b)) == ucount(blocks) + if b.block_type is NormalFn {
            0int
        } else {
            1int
        },
{
    assert(blocks.push(b).drop_last() =~= blocks);
    assert(blocks.push(b).last() == b);
}

/// The first block keeps its identity while only its effect list grows.
pub open spec fn block_extends(a: EffectBlock, b: EffectBlock) -> bool {
    &&& b.block_type == a.block_type
    &&& b.src_loc == a.src_loc
    &&& b.containing_fn == a.containing_fn
    &&& seq_grows_to(a.effects@, b.effects@)
}

/// The scanner walking a tree: the scopes stay put, counters are
/// restored, blocks below the top keep their contents, the top open
/// block and the results only grow, and stray effects stay untouched.
pub open spec fn scan_preserves(a: Scanner, b: Scanner) -> bool {
    &&& b.filepath == a.filepath
    &&& b.sinks == a.sinks
    &&& b.scope_fns@ == a.scope_fns@
    &&& b.scope_unsafe == a.scope_unsafe
    &&& b.scope_effect_blocks@.len() == a.scope_effect_blocks@.len()
    &&& forall|k: int|
        0 <= k < a.scope_effect_blocks@.len() ==> block_extends(
            #[trigger] a.scope_effect_blocks@[k],
            b.scope_effect_blocks@[k],
        )
    &&& forall|k: int|
        0 <= k < a.scope_effect_blocks@.len() - 1 ==> (#[trigger] b.scope_effect_blocks@[k]).effects@
            == a.scope_effect_blocks@[k].effects@
    &&& seq_grows_to(a.data.effects@, b.data.effects@)
    &&& seq_grows_to(a.data.effect_blocks@, b.data.effect_blocks@)
    &&& seq_grows_to(a.data.unsafe_traits@, b.data.unsafe_traits@)
    &&& seq_grows_to(a.data.unsafe_impls@, b.data.unsafe_impls@)
    &&& b.data.stray == a.data.stray
    &&& seq_grows_to(graph_nodes(a.data.call_graph), graph_nodes(b.data.call_graph))
    &&& seq_grows_to(graph_edges(a.data.call_graph), graph_edges(b.data.call_graph))
    &&& seq_grows_to(a.data.node_idxs@, b.data.node_idxs@)
    &&& seq_grows_to(a.data.pub_fns@, b.data.pub_fns@)
    &&& b.data.total_loc == a.data.total_loc
}

/// Only the skipped-construct counters may differ.
pub open spec fn only_skip_counters_differ(a: Scanner, b: Scanner) -> bool {
    &&& b.filepath == a.filepath
    &&& b.sinks == a.sinks
    &&& b.scope_effect_blocks == a.scope_effect_blocks
    &&& b.scope_unsafe == a.scope_unsafe
    &&& b.scope_assign_lhs == a.scope_assign_lhs
    &&& b.scope_fns == a.scope_fns
    &&& b.data.effects == a.data.effects
    &&& b.data.effect_blocks == a.data.effect_blocks
    &&& b.data.unsafe_traits == a.data.unsafe_traits
    &&& b.data.unsafe_impls == a.data.unsafe_impls
    &&& b.data.pub_fns == a.data.pub_fns
    &&& b.data.fn_locs == a.data.fn_locs
    &&& b.data.call_graph == a.data.call_graph
    &&& b.data.node_idxs == a.data.node_idxs
    &&& b.data.edge_locs == a.data.edge_locs
    &&& b.data.total_loc == a.data.total_loc
    &&& b.data.stray == a.data.stray
}

/// Unfold an optional expression's emission and flag effect.
proof fn lemma_opt_expr_some(
    o: Option<Box<Expr>>,
    b: Box<Expr>,
    file: Seq<char>,
    sk: Seq<IdentPath>,
    caller: Seq<char>,
    uns: bool,
    l: bool,
)
    requires
        o == Some(b),
    ensures
        emit_opt_expr(o, file, sk, caller, uns, l) == emit_expr(*b, file, sk, caller, uns, l),
        has_assign_opt(o) == has_assign_expr(*b),
{
}

proof fn lemma_preserves_refl(a: Scanner)
    ensures
        scan_preserves(a, a),
{
}

proof fn lemma_preserves_trans(a: Scanner, b: Scanner, c: Scanner)
    requires
        scan_preserves(a, b),
        scan_preserves(b, c),
    ensures
        scan_preserves(a, c),
{
    assert forall|k: int|
        0 <= k < a.scope_effect_blocks@.len() implies block_extends(
        #[trigger] a.scope_effect_blocks@[k],
        c.scope_effect_blocks@[k],
    ) by {
        assert(block_extends(a.scope_effect_blocks@[k], b.scope_effect_blocks@[k]));
        assert(block_extends(b.scope_effect_blocks@[k], c.scope_effect_blocks@[k]));
    }
    assert forall|k: int|
        0 <= k < a.scope_effect_blocks@.len() - 1 implies (
    #[trigger] c.scope_effect_blocks@[k]).effects@ == a.scope_effect_blocks@[k].effects@ by {
        assert(b.scope_effect_blocks@[k].effects@ == a.scope_effect_blocks@[k].effects@);
    }
}

/// The scanner's internal invariant: the results' graph bookkeeping and
/// closed blocks are consistent; open blocks are consistent so far; every
/// recorded effect sits in exactly one closed or open block (or is
/// stray); when a block is open there is an enclosing function and the
/// top block belongs to it; and the unsafe-scope counter counts the open
/// unsafe-scoped blocks.
pub open spec fn scanner_inv(s: Scanner) -> bool {
    &&& graph_inv(s.data)
    &&& blocks_ok(s.data.effect_blocks@)
    &&& blocks_ok(s.scope_effect_blocks@)
    &&& s.data.effects@.to_multiset() == blocks_ms(s.data.effect_blocks@).add(
        blocks_ms(s.scope_effect_blocks@),
    ).add(s.data.stray@)
    &&& s.scope_effect_blocks@.len() > 0 ==> s.scope_fns@.len() > 0
        && s.scope_effect_blocks@.last().containing_fn == s.scope_fns@.last()
    &&& s.scope_unsafe == ucount(s.scope_effect_blocks@)
}

/// The scanner is between files: no open scopes.
pub open spec fn scanner_at_top(s: Scanner) -> bool {
    &&& s.scope_effect_blocks@.len() == 0
    &&& s.scope_unsafe == 0
    &&& s.scope_fns@.len() == 0
}

/// At top level the scanner invariant is exactly results consistency.
proof fn lemma_top_level_results(s: Scanner)
    requires
        scanner_inv(s),
        scanner_at_top(s),
    ensures
        results_inv(s.data),
{
    assert(blocks_ms(s.scope_effect_blocks@) =~= Multiset::<EffectInstance>::empty());
    assert(blocks_ms(s.data.effect_blocks@).add(Multiset::<EffectInstance>::empty()) =~= blocks_ms(
        s.data.effect_blocks@,
    ));
}

/// Pushing one effect onto the top block inserts it into the blocks'
/// multiset.
proof fn lemma_blocks_ms_top_push(pre: Seq<EffectBlock>, post: Seq<EffectBlock>, e: EffectInstance)
    requires
        pre.len() > 0,
        post.len() == pre.len(),
        forall|k: int| 0 <= k < pre.len() - 1 ==> post[k] == pre[k],
        post.last().effects@ == pre.last().effects@.push(e),
    ensures
        blocks_ms(post) == blocks_ms(pre).insert(e),
{
    broadcast use vstd::seq_lib::group_to_multiset_ensures;

    assert(post.drop_last() =~= pre.drop_last());
    assert(post.last().effects@.to_multiset() =~= pre.last().effects@.to_multiset().insert(e));
    assert(blocks_ms(pre.drop_last()).add(pre.last().effects@.to_multiset().insert(e)) =~= blocks_ms(
        pre,
    ).insert(e));
}

/// A witness stays a witness when the effect list grows.
proof fn lemma_edge_witnessed_grow(
    e1: Seq<EffectInstance>,
    e2: Seq<EffectInstance>,
    u: Seq<char>,
    v: Seq<char>,
    file: Seq<char>,
    span: Span,
)
    requires
        seq_grows_to(e1, e2),
        edge_witnessed(e1, u, v, file, span),
    ensures
        edge_witnessed(e2, u, v, file, span),
{
    let i = choose|i: int|
        0 <= i < e1.len() && call_between(#[trigger] e1[i], u, v, file, span);
    assert(e2[i] == e1[i]);
    assert(call_between(e2[i], u, v, file, span));
}

/// A stateful scanner for one source file.  It owns the accumulated scan
/// results while it works; `into_results` hands them back.
pub struct Scanner {
    pub filepath: String,
    pub scope_effect_blocks: Vec<EffectBlock>,
    pub scope_unsafe: u128,
    pub scope_assign_lhs: bool,
    pub scope_fns: Vec<FnDec>,
    pub data: ScanResults,
    pub sinks: Vec<IdentPath>,
}

impl Scanner {
    /// A scanner for the given file, accumulating into the given results,
    /// with the built-in sinks.
    pub fn new(filepath: &str, data: ScanResults) -> (r: Self)
        requires
            results_inv(data),
        ensures
            scanner_inv(r),
            scanner_at_top(r),
            r.scope_assign_lhs == false,
            r.filepath@ == filepath@,
            r.data == data,
            r.sinks@.map_values(|p: IdentPath| p@) == crate::sink::default_sink_paths(),
    {
        let r = Scanner {
            filepath: filepath.to_owned(),
            scope_effect_blocks: Vec::new(),
            scope_unsafe: 0,
            scope_assign_lhs: false,
            scope_fns: Vec::new(),
            data,
            sinks: crate::sink::default_sinks(),
        };
        proof {
            assert(blocks_ms(r.scope_effect_blocks@) =~= Multiset::<EffectInstance>::empty());
            assert(blocks_ms(r.data.effect_blocks@).add(
                Multiset::<EffectInstance>::empty(),
            ).add(r.data.stray@) =~= blocks_ms(r.data.effect_blocks@).add(r.data.stray@));
        }
        r
    }

    /// The scanner's scopes are balanced: callable (and meaningful)
    /// exactly between files, where it witnesses that the accumulated
    /// results are consistent.
    pub fn assert_top_level_invariant(&self)
        requires
            scanner_inv(*self),
            scanner_at_top(*self),
        ensures
            results_inv(self.data),
    {
        proof {
            lemma_top_level_results(*self);
        }
    }

    /// Hand the accumulated results back.
    pub fn into_results(self) -> (r: ScanResults)
        requires
            scanner_inv(self),
            scanner_at_top(self),
        ensures
            r == self.data,
            results_inv(r),
    {
        proof {
            lemma_top_level_results(self);
        }
        self.data
    }

    /// Register further sink patterns to match callees against.
    pub fn add_sinks(&mut self, new_sinks: Vec<IdentPath>)
        requires
            scanner_inv(*old(self)),
        ensures
            scanner_inv(*final(self)),
            final(self).sinks@ == old(self).sinks@ + new_sinks@,
            final(self).filepath == old(self).filepath,
            final(self).scope_effect_blocks == old(self).scope_effect_blocks,
            final(self).scope_unsafe == old(self).scope_unsafe,
            final(self).scope_fns == old(self).scope_fns,
            final(self).data == old(self).data,
    {
        let ghost a0 = *self;
        let ghost sk0 = self.sinks@;
        let n = new_sinks.len();
        let mut i: usize = 0;
        proof {
            assert(self.sinks@ =~= sk0 + new_sinks@.take(0));
        }
        while i < n
            invariant
                i <= n,
                n == new_sinks@.len(),
                scanner_inv(*self),
                self.sinks@ == sk0 + new_sinks@.take(i as int),
                self.filepath == a0.filepath,
                self.scope_effect_blocks == a0.scope_effect_blocks,
                self.scope_unsafe == a0.scope_unsafe,
                self.scope_fns == a0.scope_fns,
                self.data == a0.data,
            decreases n - i,
        {
            self.sinks.push(new_sinks[i].clone());
            proof {
                assert(new_sinks@.take(i + 1).drop_last() =~= new_sinks@.take(i as int));
                assert(new_sinks@.take(i + 1).last() == new_sinks@[i as int]);
                assert(self.sinks@ =~= sk0 + new_sinks@.take(i + 1));
            }
            i = i + 1;
        }
        proof {
            assert(new_sinks@.take(n as int) =~= new_sinks@);
        }
    }
}

proof fn lemma_blocks_ms_congruent(a: Seq<EffectBlock>, b: Seq<EffectBlock>)
    requires
        b.len() == a.len(),
        forall|k: int| 0 <= k < a.len() ==> (#[trigger] b[k]).effects@ == a[k].effects@,
    ensures
        blocks_ms(b) == blocks_ms(a),
    decreases a.len(),
{
    if a.len() > 0 {
        assert forall|k: int|
            0 <= k < a.drop_last().len() implies (#[trigger] b.drop_last()[k]).effects@
            == a.drop_last()[k].effects@ by {
            assert(b[k].effects@ == a[k].effects@);
        }
        lemma_blocks_ms_congruent(a.drop_last(), b.drop_last());
        assert(b.last().effects@ == a.last().effects@);
    }
}

proof fn lemma_ucount_congruent(pre: Seq<EffectBlock>, post: Seq<EffectBlock>)
    requires
        post.len() == pre.len(),
        forall|k: int| 0 <= k < pre.len() ==> (#[trigger] post[k]).block_type == pre[k].block_type,
    ensures
        ucount(post) == ucount(pre),
    decreases pre.len(),
{
    if pre.len() > 0 {
        assert(post.drop_last().len() == pre.drop_last().len());
        assert forall|k: int|
            0 <= k < pre.drop_last().len() implies (#[trigger] post.drop_last()[k]).block_type
            == pre.drop_last()[k].block_type by {
            assert(post[k].block_type == pre[k].block_type);
        }
        lemma_ucount_congruent(pre.drop_last(), post.drop_last());
        assert(post.last().block_type == pre.last().block_type);
    }
}

impl Scanner {
    /// Record one non-call effect at the given site, reported for the
    /// current function, into the current effect block.
    #[verifier::rlimit(60)]
    fn push_effect(&mut self, eff_span: Span, callee: CanonicalPath, eff_type: Effect)
        requires
            scanner_inv(*old(self)),
            old(self).scope_fns@.len() > 0,
            old(self).scope_effect_blocks@.len() > 0,
        ensures
            scanner_inv(*final(self)),
            scan_preserves(*old(self), *final(self)),
            final(self).scope_assign_lhs == old(self).scope_assign_lhs,
            final(self).data.effects@.len() == old(self).data.effects@.len() + 1,
            ({
                let e = final(self).data.effects@.last();
                e.caller == old(self).scope_fns@.last().fn_name && e.callee == callee
                    && e.loc.span == eff_span && e.kind == eff_type
            }),
            effs_view(final(self).data.effects@) == effs_view(old(self).data.effects@).push(
                eff_v(
                    old(self).filepath@,
                    old(self).scope_fns@.last().fn_name@,
                    callee@,
                    eff_span,
                    kind_view(eff_type),
                ),
            ),
    {
        let ghost s0 = *self;
        broadcast use vstd::seq_lib::group_to_multiset_ensures;

        let nf = self.scope_fns.len();
        let caller = self.scope_fns[nf - 1].fn_name.clone();
        let eff = EffectInstance::new_effect(
            self.filepath.as_str(),
            caller,
            callee,
            eff_span,
            eff_type,
        );
        let ghost effv = eff;
        proof {
            assert(eff_view(effv) == eff_v(
                s0.filepath@,
                s0.scope_fns@.last().fn_name@,
                effv.callee@,
                eff_span,
                kind_view(effv.kind),
            ));
        }
        let eff2 = eff.clone();
        let nb = self.scope_effect_blocks.len();
        let ghost open0 = self.scope_effect_blocks@;
        self.scope_effect_blocks[nb - 1].push_effect(eff2);
        self.data.effects.push(eff);
        proof {
            let open1 = self.scope_effect_blocks@;
            assert(open1.last().effects@ == open0.last().effects@.push(effv));
            lemma_blocks_ms_top_push(open0, open1, effv);
            assert(self.data.effects@.to_multiset() =~= s0.data.effects@.to_multiset().insert(
                effv,
            ));
            assert(blocks_ms(s0.data.effect_blocks@).add(blocks_ms(open0).insert(effv)).add(
                s0.data.stray@,
            ) =~= blocks_ms(s0.data.effect_blocks@).add(blocks_ms(open0)).add(
                s0.data.stray@,
            ).insert(effv));
            assert(effv.caller == s0.scope_fns@.last().fn_name);
            assert(open0.last().containing_fn == s0.scope_fns@.last());
            assert forall|k: int| 0 <= k < open1.len() implies block_ok(
                #[trigger] open1[k],
            ) by {
                if k < open1.len() - 1 {
                    assert(open1[k] == open0[k]);
                    assert(block_ok(open0[k]));
                } else {
                    assert(block_ok(open0[k]));
                    assert forall|j: int| 0 <= j < open1[k].effects@.len() implies (
                    #[trigger] open1[k].effects@[j]).caller == open1[k].containing_fn.fn_name by {
                        if j < open0[k].effects@.len() {
                            assert(open1[k].effects@[j] == open0[k].effects@[j]);
                        } else {
                            assert(open1[k].effects@[j] == effv);
                        }
                    }
                }
            }
            lemma_ucount_congruent(open0, open1);
            assert(node_inv(self.data)) by {
                assert(self.data.node_idxs == s0.data.node_idxs);
            }
            assert(edge_inv(self.data)) by {
                lemma_edge_inv_stable(s0.data, self.data);
            }
            assert(lists_inv(self.data));
            lemma_effs_view_push(s0.data.effects@, effv);
        }
    }

    /// Record a call site: add a call-graph edge labelled with the site
    /// when both endpoints are declared, and report the call effect under
    /// the current function.
    #[verifier::rlimit(60)]
    fn push_callsite(
        &mut self,
        callee_span: Span,
        callee: CanonicalPath,
        ffi: Option<CanonicalPath>,
        is_unsafe: bool,
    )
        requires
            scanner_inv(*old(self)),
            old(self).scope_fns@.len() > 0,
            old(self).scope_effect_blocks@.len() > 0,
        ensures
            scanner_inv(*final(self)),
            scan_preserves(*old(self), *final(self)),
            final(self).scope_assign_lhs == old(self).scope_assign_lhs,
            final(self).data.effects@.len() == old(self).data.effects@.len() + 1,
            ({
                let e = final(self).data.effects@.last();
                e.caller == old(self).scope_fns@.last().fn_name && e.callee == callee
                    && e.loc.span == callee_span && e.kind matches Effect::Call { .. }
            }),
            effs_view(final(self).data.effects@) == effs_view(old(self).data.effects@).push(
                call_eff_v(
                    old(self).filepath@,
                    old(self).scope_fns@.last().fn_name@,
                    callee@,
                    callee_span,
                    opt_path_view(ffi),
                    is_unsafe,
                    old(self).sinks@,
                ),
            ),
            registered_in(old(self).data.node_idxs@, old(self).scope_fns@.last().fn_name@)
                && registered_in(old(self).data.node_idxs@, callee@) ==> ({
                let ni0 = old(self).data.node_idxs@;
                &&& graph_edges(final(self).data.call_graph) == graph_edges(
                    old(self).data.call_graph,
                ).push(
                    (
                        node_index_of(ni0, old(self).scope_fns@.last().fn_name@),
                        node_index_of(ni0, callee@),
                        old(self).data.edge_locs@.len() as int,
                    ),
                )
                &&& final(self).data.edge_locs@.len() == old(self).data.edge_locs@.len() + 1
                &&& seq_grows_to(old(self).data.edge_locs@, final(self).data.edge_locs@)
                &&& final(self).data.edge_locs@.last().file@ == old(self).filepath@
                &&& final(self).data.edge_locs@.last().span == callee_span
            }),
            !(registered_in(old(self).data.node_idxs@, old(self).scope_fns@.last().fn_name@)
                && registered_in(old(self).data.node_idxs@, callee@)) ==> graph_edges(
                final(self).data.call_graph,
            ) == graph_edges(old(self).data.call_graph) && final(self).data.edge_locs
                == old(self).data.edge_locs,
    {
        let ghost s0 = *self;
        broadcast use vstd::seq_lib::group_to_multiset_ensures;

        let nf = self.scope_fns.len();
        let caller = self.scope_fns[nf - 1].fn_name.clone();
        let ci = self.data.find_node(&caller);
        let ki = self.data.find_node(&callee);
        let ghost edges0 = graph_edges(self.data.call_graph);
        let ghost nodes0 = graph_nodes(self.data.call_graph);
        match (ci, ki) {
            (Some(a), Some(b)) => {
                let w = self.data.edge_locs.len();
                graph_add_edge(&mut self.data.call_graph, a, b, w);
                let loc = SrcLoc::new(self.filepath.as_str(), callee_span);
                self.data.edge_locs.push(loc);
                proof {
                    let ni0 = s0.data.node_idxs@;
                    assert(ni0[a as int].0@ == caller@);
                    assert(node_index_of(ni0, caller@) == a as int) by {
                        let j = node_index_of(ni0, caller@);
                        assert(0 <= j < ni0.len() && ni0[j].0@ == caller@);
                    }
                    assert(ni0[b as int].0@ == callee@);
                    assert(node_index_of(ni0, callee@) == b as int) by {
                        let j = node_index_of(ni0, callee@);
                        assert(0 <= j < ni0.len() && ni0[j].0@ == callee@);
                    }
                }
            }
            _ => {
                proof {
                    if registered_in(s0.data.node_idxs@, caller@) && registered_in(
                        s0.data.node_idxs@,
                        callee@,
                    ) {
                        assert(false);
                    }
                }
            }
        }
        let eff = EffectInstance::new_call(
            self.filepath.as_str(),
            caller,
            callee,
            callee_span,
            is_unsafe,
            ffi,
            &self.sinks,
        );
        let ghost effv = eff;
        proof {
            assert(eff_view(effv) == call_eff_v(
                s0.filepath@,
                s0.scope_fns@.last().fn_name@,
                effv.callee@,
                callee_span,
                opt_path_view(effv.kind->Call_ffi),
                is_unsafe,
                s0.sinks@,
            ));
        }
        let eff2 = eff.clone();
        let nb = self.scope_effect_blocks.len();
        let ghost open0 = self.scope_effect_blocks@;
        self.scope_effect_blocks[nb - 1].push_effect(eff2);
        self.data.effects.push(eff);
        proof {
            let open1 = self.scope_effect_blocks@;
            assert(open1.last().effects@ == open0.last().effects@.push(effv));
            lemma_blocks_ms_top_push(open0, open1, effv);
            assert(self.data.effects@.to_multiset() =~= s0.data.effects@.to_multiset().insert(
                effv,
            ));
            assert(blocks_ms(s0.data.effect_blocks@).add(blocks_ms(open0).insert(effv)).add(
                s0.data.stray@,
            ) =~= blocks_ms(s0.data.effect_blocks@).add(blocks_ms(open0)).add(
                s0.data.stray@,
            ).insert(effv));
            assert(effv.caller == s0.scope_fns@.last().fn_name);
            assert(open0.last().containing_fn == s0.scope_fns@.last());
            assert forall|k: int| 0 <= k < open1.len() implies block_ok(
                #[trigger] open1[k],
            ) by {
                if k < open1.len() - 1 {
                    assert(open1[k] == open0[k]);
                    assert(block_ok(open0[k]));
                } else {
                    assert(block_ok(open0[k]));
                    assert forall|j: int| 0 <= j < open1[k].effects@.len() implies (
                    #[trigger] open1[k].effects@[j]).caller == open1[k].containing_fn.fn_name by {
                        if j < open0[k].effects@.len() {
                            assert(open1[k].effects@[j] == open0[k].effects@[j]);
                        } else {
                            assert(open1[k].effects@[j] == effv);
                        }
                    }
                }
            }
            lemma_ucount_congruent(open0, open1);
            assert(node_inv(self.data));
            assert(lists_inv(self.data));
            let edges1 = graph_edges(self.data.call_graph);
            let nodes1 = graph_nodes(self.data.call_graph);
            assert(nodes1 == nodes0);
            assert(seq_grows_to(s0.data.effects@, self.data.effects@));
            assert(edge_inv(self.data)) by {
                if edges1.len() == edges0.len() {
                    assert(edges1 == edges0);
                    lemma_edge_inv_stable(s0.data, self.data);
                } else {
                    assert(edges1 == edges0.push(
                        (ci.unwrap() as int, ki.unwrap() as int, edges0.len() as int),
                    ));
                    assert(self.data.edge_locs@.len() == edges1.len());
                    assert forall|k: int|
                        0 <= k < edges1.len() implies 0 <= (#[trigger] edges1[k]).0 < nodes1.len()
                        && 0 <= edges1[k].1 < nodes1.len() && edges1[k].2 == k by {
                        if k < edges0.len() {
                            assert(edges1[k] == edges0[k]);
                            assert(edge_inv(s0.data));
                        }
                    }
                    assert forall|k: int|
                        0 <= k < edges1.len() implies edge_witnessed(
                        self.data.effects@,
                        nodes1[(#[trigger] edges1[k]).0],
                        nodes1[edges1[k].1],
                        self.data.edge_locs@[k].file@,
                        self.data.edge_locs@[k].span,
                    ) by {
                        if k < edges0.len() {
                            assert(edges1[k] == edges0[k]);
                            assert(self.data.edge_locs@[k] == s0.data.edge_locs@[k]);
                            let ek = (#[trigger] graph_edges(s0.data.call_graph)[k]);
                            assert(edge_witnessed(
                                s0.data.effects@,
                                nodes0[ek.0],
                                nodes0[ek.1],
                                s0.data.edge_locs@[k].file@,
                                s0.data.edge_locs@[k].span,
                            ));
                            lemma_edge_witnessed_grow(
                                s0.data.effects@,
                                self.data.effects@,
                                nodes0[ek.0],
                                nodes0[ek.1],
                                s0.data.edge_locs@[k].file@,
                                s0.data.edge_locs@[k].span,
                            );
                        } else {
                            let le = self.data.effects@.len() - 1;
                            assert(self.data.effects@[le] == effv);
                            assert(effv.kind matches Effect::Call { .. });
                            assert(effv.caller@ == nodes1[edges1[k].0]);
                            assert(effv.callee@ == nodes1[edges1[k].1]);
                            assert(self.data.edge_locs@[k].file@ == effv.loc.file@);
                            assert(self.data.edge_locs@[k].span == effv.loc.span);
                            assert(call_between(
                                self.data.effects@[le],
                                nodes1[edges1[k].0],
                                nodes1[edges1[k].1],
                                self.data.edge_locs@[k].file@,
                                self.data.edge_locs@[k].span,
                            ));
                        }
                    }
                }
            }
            lemma_effs_view_push(s0.data.effects@, effv);
        }
    }
}

/// The `cfg` argument patterns whose items are skipped: a deliberately
/// shallow heuristic.
pub open spec fn spec_skip_cfg(args: Seq<char>) -> bool {
    ||| crate::text::spec_starts_with(args, "target_os = \"linux\""@)
    ||| crate::text::spec_starts_with(args, "not (feature ="@)
}

pub open spec fn spec_skip_attr(a: Attr) -> bool {
    match a {
        Attr::CfgList { args } => spec_skip_cfg(args@),
        Attr::OtherAttr => false,
    }
}

pub open spec fn spec_skip_attrs(attrs: Seq<Attr>) -> bool {
    exists|j: int| 0 <= j < attrs.len() && spec_skip_attr(#[trigger] attrs[j])
}

fn clone_opt_path(o: &Option<CanonicalPath>) -> (r: Option<CanonicalPath>)
    ensures
        r == *o,
{
    match o {
        Some(p) => Some(p.clone()),
        None => None,
    }
}

/// The scanner invariant is untouched by additions that leave the scopes,
/// the effects, the blocks and the graph bookkeeping alone.
proof fn lemma_inv_data_extend(a: Scanner, b: Scanner)
    requires
        scanner_inv(a),
        b.scope_effect_blocks == a.scope_effect_blocks,
        b.scope_fns == a.scope_fns,
        b.scope_unsafe == a.scope_unsafe,
        b.data.effects == a.data.effects,
        b.data.effect_blocks == a.data.effect_blocks,
        b.data.stray == a.data.stray,
        b.data.node_idxs == a.data.node_idxs,
        b.data.call_graph == a.data.call_graph,
        b.data.edge_locs == a.data.edge_locs,
        b.data.pub_fns == a.data.pub_fns,
        b.data.fn_locs == a.data.fn_locs,
    ensures
        scanner_inv(b),
{
}

impl Scanner {
    /// Record a macro site whose body the scanner does not see.
    fn note_macro(&mut self, span: Span)
        requires
            scanner_inv(*old(self)),
        ensures
            scanner_inv(*final(self)),
            scan_preserves(*old(self), *final(self)),
            only_skip_counters_differ(*old(self), *final(self)),
            final(self).data.skipped_macros@ == spec_loc_add(old(self).data.skipped_macros@, span),
            final(self).data.skipped_conditional_code == old(self).data.skipped_conditional_code,
            final(self).data.skipped_fn_calls == old(self).data.skipped_fn_calls,
            final(self).data.skipped_other == old(self).data.skipped_other,
    {
        let ghost s0 = *self;
        self.data.skipped_macros.add(span);
        proof {
            lemma_inv_data_extend(s0, *self);
        }
    }

    /// Record an item skipped for its conditional-compilation attribute.
    fn note_cond_skip(&mut self, span: Span)
        requires
            scanner_inv(*old(self)),
        ensures
            scanner_inv(*final(self)),
            scan_preserves(*old(self), *final(self)),
            only_skip_counters_differ(*old(self), *final(self)),
            final(self).data.skipped_conditional_code@ == spec_loc_add(old(self).data.skipped_conditional_code@, span),
            final(self).data.skipped_macros == old(self).data.skipped_macros,
            final(self).data.skipped_fn_calls == old(self).data.skipped_fn_calls,
            final(self).data.skipped_other == old(self).data.skipped_other,
    {
        let ghost s0 = *self;
        self.data.skipped_conditional_code.add(span);
        proof {
            lemma_inv_data_extend(s0, *self);
        }
    }

    /// Record a call through an expression the scanner cannot identify.
    fn note_fn_call_skip(&mut self, span: Span)
        requires
            scanner_inv(*old(self)),
        ensures
            scanner_inv(*final(self)),
            scan_preserves(*old(self), *final(self)),
            only_skip_counters_differ(*old(self), *final(self)),
            final(self).data.skipped_fn_calls@ == spec_loc_add(old(self).data.skipped_fn_calls@, span),
            final(self).data.skipped_macros == old(self).data.skipped_macros,
            final(self).data.skipped_conditional_code == old(self).data.skipped_conditional_code,
            final(self).data.skipped_other == old(self).data.skipped_other,
    {
        let ghost s0 = *self;
        self.data.skipped_fn_calls.add(span);
        proof {
            lemma_inv_data_extend(s0, *self);
        }
    }

    /// Record any other skipped construct.
    fn note_other_skip(&mut self, span: Span)
        requires
            scanner_inv(*old(self)),
        ensures
            scanner_inv(*final(self)),
            scan_preserves(*old(self), *final(self)),
            only_skip_counters_differ(*old(self), *final(self)),
            final(self).data.skipped_other@ == spec_loc_add(old(self).data.skipped_other@, span),
            final(self).data.skipped_macros == old(self).data.skipped_macros,
            final(self).data.skipped_conditional_code == old(self).data.skipped_conditional_code,
            final(self).data.skipped_fn_calls == old(self).data.skipped_fn_calls,
    {
        let ghost s0 = *self;
        self.data.skipped_other.add(span);
        proof {
            lemma_inv_data_extend(s0, *self);
        }
    }

    /// Whether a `cfg` argument list means the item is skipped.
    pub fn skip_cfg(&self, args: &str) -> (r: bool)
        ensures
            r == spec_skip_cfg(args@),
    {
        crate::text::str_starts_with(args, "target_os = \"linux\"") || crate::text::str_starts_with(
            args,
            "not (feature =",
        )
    }

    /// Whether one attribute means the item is skipped.
    pub fn skip_attr(&self, attr: &Attr) -> (r: bool)
        ensures
            r == spec_skip_attr(*attr),
    {
        match attr {
            Attr::CfgList { args } => self.skip_cfg(args.as_str()),
            Attr::OtherAttr => false,
        }
    }

    /// Whether any of the attributes means the item is skipped.
    pub fn skip_attrs(&self, attrs: &Vec<Attr>) -> (r: bool)
        ensures
            r == spec_skip_attrs(attrs@),
    {
        let n = attrs.len();
        let mut i: usize = 0;
        while i < n
            invariant
                i <= n,
                n == attrs@.len(),
                forall|j: int| 0 <= j < i ==> !spec_skip_attr(#[trigger] attrs@[j]),
            decreases n - i,
        {
            if self.skip_attr(&attrs[i]) {
                return true;
            }
            i = i + 1;
        }
        false
    }

    /// A path expression: a function-pointer creation, a mutable-global
    /// reference, or a foreign-static reference, per the resolver's
    /// answers on the path.
    fn scan_path(&mut self, p: &PathUse)
        requires
            scanner_inv(*old(self)),
            old(self).scope_fns@.len() > 0,
            old(self).scope_effect_blocks@.len() > 0,
        ensures
            scanner_inv(*final(self)),
            scan_preserves(*old(self), *final(self)),
            final(self).scope_assign_lhs == old(self).scope_assign_lhs,
            effs_view(final(self).data.effects@) == effs_view(old(self).data.effects@)
                + path_effects(*p, old(self).filepath@, old(self).scope_fns@.last().fn_name@),
    {
        let ghost s0 = *self;
        let ghost base = effs_view(s0.data.effects@);
        let ghost file = s0.filepath@;
        let ghost who = s0.scope_fns@.last().fn_name@;
        proof {
            lemma_preserves_refl(s0);
        }
        if p.is_function || p.is_fn_ptr {
            let t = p.resolved.clone();
            let t2 = t.clone();
            self.push_effect(p.span, t, Effect::FnPtrCreation { target: t2 });
        }
        proof {
            assert(scan_preserves(s0, *self));
            assert(effs_view(self.data.effects@) =~= base + (if p.is_function || p.is_fn_ptr {
                seq![
                    eff_v(
                        file,
                        who,
                        p.resolved@,
                        p.span,
                        EffKindV::FnPtrCreation { target: p.resolved@ },
                    ),
                ]
            } else {
                Seq::<EffV>::empty()
            }));
        }
        if p.is_mut_static {
            let ghost prev = *self;
            let t = p.resolved.clone();
            let t2 = t.clone();
            self.push_effect(p.span, t, Effect::StaticMut { target: t2 });
            proof {
                lemma_preserves_trans(s0, prev, *self);
            }
        }
        proof {
            assert(scan_preserves(s0, *self));
            assert(effs_view(self.data.effects@) =~= base + ((if p.is_function || p.is_fn_ptr {
                seq![
                    eff_v(
                        file,
                        who,
                        p.resolved@,
                        p.span,
                        EffKindV::FnPtrCreation { target: p.resolved@ },
                    ),
                ]
            } else {
                Seq::<EffV>::empty()
            }) + (if p.is_mut_static {
                seq![
                    eff_v(file, who, p.resolved@, p.span, EffKindV::StaticMut { target: p.resolved@ }),
                ]
            } else {
                Seq::<EffV>::empty()
            })));
        }
        if matches!(p.ffi, Some(_)) {
            let ghost prev = *self;
            let t = p.resolved.clone();
            let t2 = t.clone();
            self.push_effect(p.span, t, Effect::StaticExt { target: t2 });
            proof {
                lemma_preserves_trans(s0, prev, *self);
            }
        }
        proof {
            assert(effs_view(self.data.effects@) =~= base + path_effects(*p, file, who));
        }
    }

    /// A closure literal, reported under its synthetic identity.    /// A closure literal, reported under its synthetic identity.
    fn scan_closure(&mut self, ident: &Option<CanonicalPath>, span: Span)
        requires
            scanner_inv(*old(self)),
            old(self).scope_fns@.len() > 0,
            old(self).scope_effect_blocks@.len() > 0,
        ensures
            scanner_inv(*final(self)),
            scan_preserves(*old(self), *final(self)),
            final(self).scope_assign_lhs == old(self).scope_assign_lhs,
            effs_view(final(self).data.effects@) == effs_view(old(self).data.effects@)
                + closure_effects(
                *ident,
                span,
                old(self).filepath@,
                old(self).scope_fns@.last().fn_name@,
            ),
    {
        let ghost s0 = *self;
        proof {
            lemma_preserves_refl(s0);
        }
        match ident {
            Some(id) => {
                let t = id.clone();
                let t2 = t.clone();
                self.push_effect(span, t, Effect::ClosureCreation { target: t2 });
                proof {
                    assert(effs_view(self.data.effects@) =~= effs_view(s0.data.effects@)
                        + closure_effects(
                        *ident,
                        span,
                        s0.filepath@,
                        s0.scope_fns@.last().fn_name@,
                    ));
                }
            }
            None => {
                proof {
                    assert(effs_view(self.data.effects@) =~= effs_view(s0.data.effects@)
                        + closure_effects(
                        *ident,
                        span,
                        s0.filepath@,
                        s0.scope_fns@.last().fn_name@,
                    ));
                }
            }
        }
    }

    /// A dereference: report each operand identifier of raw-pointer type.    /// A dereference: report each operand identifier of raw-pointer type.
    fn scan_deref(&mut self, fields: &Vec<FieldUse>, span: Span)
        requires
            scanner_inv(*old(self)),
            old(self).scope_fns@.len() > 0,
            old(self).scope_effect_blocks@.len() > 0,
        ensures
            scanner_inv(*final(self)),
            scan_preserves(*old(self), *final(self)),
            final(self).scope_assign_lhs == old(self).scope_assign_lhs,
            effs_view(final(self).data.effects@) == effs_view(old(self).data.effects@)
                + deref_effects(
                fields@,
                span,
                old(self).filepath@,
                old(self).scope_fns@.last().fn_name@,
            ),
    {
        let ghost s0 = *self;
        let ghost base = effs_view(s0.data.effects@);
        let ghost file = s0.filepath@;
        let ghost who = s0.scope_fns@.last().fn_name@;
        proof {
            lemma_preserves_refl(s0);
            assert(fields@.skip(0) =~= fields@);
        }
        let n = fields.len();
        let mut i: usize = 0;
        while i < n
            invariant
                i <= n,
                n == fields@.len(),
                scanner_inv(*self),
                scan_preserves(s0, *self),
                s0.scope_fns@.len() > 0,
                s0.scope_effect_blocks@.len() > 0,
                base == effs_view(s0.data.effects@),
                file == s0.filepath@,
                who == s0.scope_fns@.last().fn_name@,
                self.scope_assign_lhs == s0.scope_assign_lhs,
                base + deref_effects(fields@, span, file, who) == effs_view(self.data.effects@)
                    + deref_effects(fields@.skip(i as int), span, file, who),
            decreases n - i,
        {
            let ghost rem = fields@.skip(i as int);
            proof {
                assert(rem.first() == fields@[i as int]);
                assert(rem.drop_first() =~= fields@.skip(i + 1));
            }
            if fields[i].is_raw_ptr {
                let ghost prev = *self;
                let t = fields[i].resolved.clone();
                let t2 = t.clone();
                self.push_effect(span, t, Effect::RawPointer { target: t2 });
                proof {
                    lemma_preserves_trans(s0, prev, *self);
                    let fv = fields@[i as int];
                    let ev = eff_v(
                        file,
                        who,
                        fv.resolved@,
                        span,
                        EffKindV::RawPointer { target: fv.resolved@ },
                    );
                    assert(prev.filepath@ == file);
                    assert(prev.scope_fns@ == s0.scope_fns@);
                    assert(prev.scope_fns@.last().fn_name@ == who);
                    assert(effs_view(self.data.effects@) == effs_view(prev.data.effects@).push(
                        ev,
                    ));
                    assert(deref_effects(rem, span, file, who) == seq![ev] + deref_effects(
                        fields@.skip(i + 1),
                        span,
                        file,
                        who,
                    ));
                    assert(effs_view(self.data.effects@) + deref_effects(
                        fields@.skip(i + 1),
                        span,
                        file,
                        who,
                    ) =~= effs_view(prev.data.effects@) + deref_effects(rem, span, file, who));
                }
            } else {
                proof {
                    assert(deref_effects(rem, span, file, who) =~= deref_effects(
                        fields@.skip(i + 1),
                        span,
                        file,
                        who,
                    ));
                }
            }
            i = i + 1;
        }
        proof {
            assert(fields@.skip(n as int).len() == 0);
            assert(deref_effects(fields@.skip(n as int), span, file, who) =~= Seq::<
                EffV,
            >::empty());
            assert(effs_view(self.data.effects@) =~= base + deref_effects(
                fields@,
                span,
                file,
                who,
            ));
        }
    }

    /// A field access: report a union-field read, unless the access is
    /// the target of an assignment.    /// A field access: report a union-field read, unless the access is
    /// the target of an assignment.
    fn scan_field_access(&mut self, member: &Option<FieldUse>, span: Span)
        requires
            scanner_inv(*old(self)),
            old(self).scope_fns@.len() > 0,
            old(self).scope_effect_blocks@.len() > 0,
        ensures
            scanner_inv(*final(self)),
            scan_preserves(*old(self), *final(self)),
            final(self).scope_assign_lhs == old(self).scope_assign_lhs,
            effs_view(final(self).data.effects@) == effs_view(old(self).data.effects@)
                + field_access_effects(
                *member,
                span,
                old(self).filepath@,
                old(self).scope_fns@.last().fn_name@,
                old(self).scope_assign_lhs,
            ),
    {
        let ghost s0 = *self;
        proof {
            lemma_preserves_refl(s0);
        }
        match member {
            Some(f) => {
                if !f.is_union_field || self.scope_assign_lhs {
                    proof {
                        assert(effs_view(self.data.effects@) =~= effs_view(s0.data.effects@)
                            + field_access_effects(
                            *member,
                            span,
                            s0.filepath@,
                            s0.scope_fns@.last().fn_name@,
                            s0.scope_assign_lhs,
                        ));
                    }
                    return;
                }
                let t = f.resolved.clone();
                let t2 = t.clone();
                self.push_effect(span, t, Effect::UnionField { target: t2 });
                proof {
                    assert(effs_view(self.data.effects@) =~= effs_view(s0.data.effects@)
                        + field_access_effects(
                        *member,
                        span,
                        s0.filepath@,
                        s0.scope_fns@.last().fn_name@,
                        s0.scope_assign_lhs,
                    ));
                }
            }
            None => {
                proof {
                    assert(effs_view(self.data.effects@) =~= effs_view(s0.data.effects@)
                        + field_access_effects(
                        *member,
                        span,
                        s0.filepath@,
                        s0.scope_fns@.last().fn_name@,
                        s0.scope_assign_lhs,
                    ));
                }
            }
        }
    }

    /// A method call site.    /// A method call site.
    fn scan_expr_call_method(&mut self, m: &MethodUse)
        requires
            scanner_inv(*old(self)),
            old(self).scope_fns@.len() > 0,
            old(self).scope_effect_blocks@.len() > 0,
        ensures
            scanner_inv(*final(self)),
            scan_preserves(*old(self), *final(self)),
            final(self).scope_assign_lhs == old(self).scope_assign_lhs,
            effs_view(final(self).data.effects@) == effs_view(old(self).data.effects@)
                + method_call_effects(
                *m,
                old(self).filepath@,
                old(self).scope_fns@.last().fn_name@,
                old(self).scope_unsafe > 0,
                old(self).sinks@,
            ),
    {
        let ghost s0 = *self;
        let is_unsafe = m.is_unsafe_decl && self.scope_unsafe > 0;
        self.push_callsite(m.span, m.resolved.clone(), None, is_unsafe);
        proof {
            assert(effs_view(self.data.effects@) =~= effs_view(s0.data.effects@)
                + method_call_effects(
                *m,
                s0.filepath@,
                s0.scope_fns@.last().fn_name@,
                s0.scope_unsafe > 0,
                s0.sinks@,
            ));
        }
    }

    /// A call through a struct member (a function-typed field).    /// A call through a struct member (a function-typed field).
    fn scan_expr_call_field(&mut self, m: &MemberUse)
        requires
            scanner_inv(*old(self)),
            old(self).scope_fns@.len() > 0,
            old(self).scope_effect_blocks@.len() > 0,
        ensures
            scanner_inv(*final(self)),
            scan_preserves(*old(self), *final(self)),
            final(self).scope_assign_lhs == old(self).scope_assign_lhs,
            effs_view(final(self).data.effects@) == effs_view(old(self).data.effects@)
                + member_call_effects(
                *m,
                old(self).filepath@,
                old(self).scope_fns@.last().fn_name@,
                old(self).scope_unsafe > 0,
                old(self).sinks@,
            ),
    {
        let ghost s0 = *self;
        match m {
            MemberUse::Named(f) => {
                let is_unsafe = f.is_unsafe_decl && self.scope_unsafe > 0;
                self.push_callsite(f.span, f.resolved.clone(), None, is_unsafe);
            }
            MemberUse::Unnamed(ix) => {
                let is_unsafe = self.scope_unsafe > 0;
                self.push_callsite(ix.span, ix.resolved.clone(), None, is_unsafe);
            }
        }
        proof {
            assert(effs_view(self.data.effects@) =~= effs_view(s0.data.effects@)
                + member_call_effects(
                *m,
                s0.filepath@,
                s0.scope_fns@.last().fn_name@,
                s0.scope_unsafe > 0,
                s0.sinks@,
            ));
        }
    }

}

/// The graph bookkeeping is untouched by changes that leave the graph,
/// its maps and lists alone and only extend the effect list.
proof fn lemma_graph_inv_stable(a: ScanResults, b: ScanResults)
    requires
        graph_inv(a),
        b.call_graph == a.call_graph,
        b.node_idxs == a.node_idxs,
        b.edge_locs == a.edge_locs,
        b.pub_fns == a.pub_fns,
        b.fn_locs == a.fn_locs,
        seq_grows_to(a.effects@, b.effects@),
    ensures
        graph_inv(b),
{
    lemma_edge_inv_stable(a, b);
}

impl Scanner {
    /// Scan an unsafe expression block: raise the unsafe scope, collect
    /// the block's effects in an `UnsafeExpr` effect block owned by the
    /// enclosing function, and store it.
    #[verifier::rlimit(100)]
    fn scan_unsafe_block(&mut self, stmts: &Vec<Stmt>, span: Span)
        requires
            scanner_inv(*old(self)),
            old(self).scope_fns@.len() > 0,
            old(self).scope_effect_blocks@.len() > 0,
        ensures
            scanner_inv(*final(self)),
            scan_preserves(*old(self), *final(self)),
            effs_view(final(self).data.effects@) == effs_view(old(self).data.effects@)
                + emit_stmts(
                stmts@,
                old(self).filepath@,
                old(self).sinks@,
                old(self).scope_fns@.last().fn_name@,
                true,
                old(self).scope_assign_lhs,
            ),
            final(self).scope_assign_lhs == lhs_step(
                has_assign_stmts(stmts@),
                old(self).scope_assign_lhs,
            ),
            ({
                let b = final(self).data.effect_blocks@;
                &&& b.len() > old(self).data.effect_blocks@.len()
                &&& b.last().block_type == BlockType::UnsafeExpr
                &&& b.last().src_loc.span == span
                &&& b.last().src_loc.file@ == old(self).filepath@
                &&& b.last().containing_fn == old(self).scope_fns@.last()
            }),
        decreases stmts@, 1int,
    {
        let ghost s0 = *self;
        broadcast use vstd::seq_lib::group_to_multiset_ensures;

        let bl = self.scope_effect_blocks.len();
        proof {
            lemma_ucount_le(self.scope_effect_blocks@);
            assert(self.scope_unsafe as int <= bl as int);
            assert(self.scope_unsafe < u128::MAX);
        }
        self.scope_unsafe = self.scope_unsafe + 1;
        let nf = self.scope_fns.len();
        let cf = self.scope_fns[nf - 1].clone();
        let block = EffectBlock::new_unsafe_expr(self.filepath.as_str(), span, cf);
        let ghost open0 = self.scope_effect_blocks@;
        self.scope_effect_blocks.push(block);
        proof {
            lemma_ucount_push(open0, self.scope_effect_blocks@.last());
            assert(self.scope_effect_blocks@.last().effects@.to_multiset() =~= Multiset::<
                EffectInstance,
            >::empty());
            lemma_blocks_ms_push(open0, self.scope_effect_blocks@.last());
            assert(blocks_ms(open0).add(Multiset::<EffectInstance>::empty()) =~= blocks_ms(open0));
            assert(scanner_inv(*self));
        }
        let ghost mid = *self;
        proof {
            assert(mid.scope_unsafe > 0);
            assert(mid.scope_fns@.last().fn_name@ == s0.scope_fns@.last().fn_name@);
        }
        self.scan_stmts(stmts);
        let ghost cur = *self;
        let popped = self.scope_effect_blocks.pop();
        match popped {
            Some(b) => {
                let ghost closed0 = self.data.effect_blocks@;
                self.data.effect_blocks.push(b);
                proof {
                    lemma_blocks_ms_push(closed0, b);
                }
            }
            None => {
                proof {
                    assert(false);
                }
            }
        }
        proof {
            assert(self.scope_unsafe >= 1) by {
                lemma_ucount_le(s0.scope_effect_blocks@);
                lemma_ucount_congruent(mid.scope_effect_blocks@, cur.scope_effect_blocks@);
                lemma_ucount_push(open0, mid.scope_effect_blocks@.last());
            }
        }
        self.scope_unsafe = self.scope_unsafe - 1;
        proof {
            let b = cur.scope_effect_blocks@.last();
            assert(self.scope_effect_blocks@.len() == s0.scope_effect_blocks@.len());
            assert forall|k: int|
                0 <= k < s0.scope_effect_blocks@.len() implies block_extends(
                #[trigger] s0.scope_effect_blocks@[k],
                self.scope_effect_blocks@[k],
            ) && self.scope_effect_blocks@[k].effects@ == s0.scope_effect_blocks@[k].effects@
                && self.scope_effect_blocks@[k].block_type == s0.scope_effect_blocks@[k].block_type
                && self.scope_effect_blocks@[k].containing_fn == s0.scope_effect_blocks@[
                k].containing_fn by {
                assert(self.scope_effect_blocks@[k] == cur.scope_effect_blocks@[k]);
                assert(mid.scope_effect_blocks@[k] == open0[k]);
                assert(open0[k] == s0.scope_effect_blocks@[k]);
                assert(block_extends(
                    mid.scope_effect_blocks@[k],
                    cur.scope_effect_blocks@[k],
                ));
                assert(cur.scope_effect_blocks@[k].effects@ == mid.scope_effect_blocks@[
                    k].effects@);
            }
            assert(self.scope_unsafe == ucount(self.scope_effect_blocks@)) by {
                lemma_ucount_congruent(mid.scope_effect_blocks@, cur.scope_effect_blocks@);
                lemma_ucount_push(open0, mid.scope_effect_blocks@.last());
                assert(open0 == s0.scope_effect_blocks@);
                lemma_ucount_congruent(s0.scope_effect_blocks@, self.scope_effect_blocks@);
            }
            assert(block_ok(b)) by {
                assert(blocks_ok(cur.scope_effect_blocks@));
            }
            assert(blocks_ok(self.data.effect_blocks@)) by {
                assert(blocks_ok(cur.data.effect_blocks@));
                assert forall|k: int| 0 <= k < self.data.effect_blocks@.len() implies block_ok(
                    #[trigger] self.data.effect_blocks@[k],
                ) by {
                    if k < cur.data.effect_blocks@.len() {
                        assert(self.data.effect_blocks@[k] == cur.data.effect_blocks@[k]);
                    } else {
                        assert(self.data.effect_blocks@[k] == b);
                    }
                }
            }
            assert(self.data.effects@.to_multiset() == blocks_ms(self.data.effect_blocks@).add(
                blocks_ms(self.scope_effect_blocks@),
            ).add(self.data.stray@)) by {
                assert(blocks_ms(cur.scope_effect_blocks@) == blocks_ms(
                    cur.scope_effect_blocks@.drop_last(),
                ).add(b.effects@.to_multiset()));
                assert(blocks_ms(self.data.effect_blocks@) == blocks_ms(
                    cur.data.effect_blocks@,
                ).add(b.effects@.to_multiset()));
                assert(self.scope_effect_blocks@ == cur.scope_effect_blocks@.drop_last());
                assert(blocks_ms(cur.data.effect_blocks@).add(
                    blocks_ms(cur.scope_effect_blocks@.drop_last()).add(
                        b.effects@.to_multiset(),
                    ),
                ).add(cur.data.stray@) =~= blocks_ms(cur.data.effect_blocks@).add(
                    b.effects@.to_multiset(),
                ).add(blocks_ms(cur.scope_effect_blocks@.drop_last())).add(cur.data.stray@));
            }
            assert(graph_inv(self.data)) by {
                lemma_graph_inv_stable(cur.data, self.data);
            }
            assert(scanner_inv(*self));
            assert(seq_grows_to(s0.data.effect_blocks@, self.data.effect_blocks@)) by {
                assert(seq_grows_to(s0.data.effect_blocks@, cur.data.effect_blocks@));
                assert forall|k: int|
                    0 <= k < s0.data.effect_blocks@.len() implies s0.data.effect_blocks@[k]
                    == self.data.effect_blocks@[k] by {
                    assert(s0.data.effect_blocks@[k] == cur.data.effect_blocks@[k]);
                }
            }
            assert(scan_preserves(s0, *self));
            assert(effs_view(self.data.effects@) =~= effs_view(s0.data.effects@) + emit_stmts(
                stmts@,
                s0.filepath@,
                s0.sinks@,
                s0.scope_fns@.last().fn_name@,
                true,
                s0.scope_assign_lhs,
            ));
            assert(self.data.effect_blocks@.last() == b);
            assert(block_extends(mid.scope_effect_blocks@.last(), b));
            assert(b.block_type == BlockType::UnsafeExpr);
            assert(b.src_loc.span == span);
            assert(b.src_loc.file@ == s0.filepath@);
            assert(b.containing_fn == s0.scope_fns@.last());
        }
    }

    /// Scan a function declaration's signature and body: register the
    /// declaration, collect the body's effects under the function's own
    /// name in a function-level effect block of the right kind, and store
    /// the block.
    #[verifier::rlimit(100)]
    fn scan_fn(
        &mut self,
        sig: &crate::ast::FnSigInfo,
        body: &Vec<Stmt>,
        body_span: Span,
        vis: Visibility,
    )
        requires
            scanner_inv(*old(self)),
        ensures
            scanner_inv(*final(self)),
            scan_preserves(*old(self), *final(self)),
            effs_view(final(self).data.effects@) == effs_view(old(self).data.effects@)
                + emit_stmts(
                body@,
                old(self).filepath@,
                old(self).sinks@,
                sig.resolved_def@,
                old(self).scope_unsafe > 0 || sig.is_unsafe,
                old(self).scope_assign_lhs,
            ),
            final(self).scope_assign_lhs == lhs_step(
                has_assign_stmts(body@),
                old(self).scope_assign_lhs,
            ),
            ({
                let b = final(self).data.effect_blocks@;
                &&& b.len() > old(self).data.effect_blocks@.len()
                &&& b.last().block_type == (if sig.is_unsafe {
                    BlockType::UnsafeFn
                } else {
                    BlockType::NormalFn
                })
                &&& b.last().src_loc.span == body_span
                &&& b.last().src_loc.file@ == old(self).filepath@
                &&& b.last().containing_fn.fn_name == sig.resolved_def
                &&& b.last().containing_fn.vis == vis
                &&& b.last().containing_fn.src_loc.span == sig.span
            }),
            registered_in(final(self).data.node_idxs@, sig.resolved_def@),
            vis == Visibility::Public ==> listed_in(final(self).data.pub_fns@, sig.resolved_def@),
        decreases body@, 1int,
    {
        let ghost s0 = *self;
        broadcast use vstd::seq_lib::group_to_multiset_ensures;

        let f_name = sig.resolved_def.clone();
        let fn_dec = FnDec::new(self.filepath.as_str(), sig.span, f_name, vis);
        self.scope_fns.push(fn_dec.clone());
        self.data.add_fn_dec(fn_dec.clone());
        let is_unsafe_sig = sig.is_unsafe;
        let bl = self.scope_effect_blocks.len();
        if is_unsafe_sig {
            proof {
                lemma_ucount_le(self.scope_effect_blocks@);
                assert(self.scope_unsafe as int <= bl as int);
                assert(self.scope_unsafe < u128::MAX);
            }
            self.scope_unsafe = self.scope_unsafe + 1;
        }
        let block = if is_unsafe_sig {
            EffectBlock::new_unsafe_fn(self.filepath.as_str(), body_span, fn_dec)
        } else {
            EffectBlock::new_fn(self.filepath.as_str(), body_span, fn_dec)
        };
        let ghost open0 = self.scope_effect_blocks@;
        self.scope_effect_blocks.push(block);
        proof {
            lemma_ucount_push(open0, self.scope_effect_blocks@.last());
            assert(self.scope_effect_blocks@.last().effects@.to_multiset() =~= Multiset::<
                EffectInstance,
            >::empty());
            lemma_blocks_ms_push(open0, self.scope_effect_blocks@.last());
            assert(blocks_ms(open0).add(Multiset::<EffectInstance>::empty()) =~= blocks_ms(open0));
            assert(self.scope_effect_blocks@.last().containing_fn == self.scope_fns@.last());
            assert(scanner_inv(*self));
        }
        let ghost mid = *self;
        proof {
            assert(mid.scope_fns@.last().fn_name@ == sig.resolved_def@);
            assert((mid.scope_unsafe > 0) == (s0.scope_unsafe > 0 || sig.is_unsafe));
            assert(mid.scope_assign_lhs == s0.scope_assign_lhs);
        }
        self.scan_stmts(body);
        let ghost cur = *self;
        let _old_fn = self.scope_fns.pop();
        let popped = self.scope_effect_blocks.pop();
        match popped {
            Some(b) => {
                let ghost closed0 = self.data.effect_blocks@;
                self.data.effect_blocks.push(b);
                proof {
                    lemma_blocks_ms_push(closed0, b);
                }
            }
            None => {
                proof {
                    assert(false);
                }
            }
        }
        if is_unsafe_sig {
            proof {
                assert(self.scope_unsafe >= 1) by {
                    lemma_ucount_le(s0.scope_effect_blocks@);
                    lemma_ucount_congruent(mid.scope_effect_blocks@, cur.scope_effect_blocks@);
                    lemma_ucount_push(open0, mid.scope_effect_blocks@.last());
                }
            }
            self.scope_unsafe = self.scope_unsafe - 1;
        }
        proof {
            let b = cur.scope_effect_blocks@.last();
            assert(self.scope_fns@ =~= s0.scope_fns@) by {
                assert(cur.scope_fns@ == mid.scope_fns@);
                assert(mid.scope_fns@ == s0.scope_fns@.push(mid.scope_fns@.last()));
                assert(cur.scope_fns@.drop_last() =~= s0.scope_fns@);
            }
            assert(self.scope_effect_blocks@.len() == s0.scope_effect_blocks@.len());
            assert forall|k: int|
                0 <= k < s0.scope_effect_blocks@.len() implies block_extends(
                #[trigger] s0.scope_effect_blocks@[k],
                self.scope_effect_blocks@[k],
            ) && self.scope_effect_blocks@[k].effects@ == s0.scope_effect_blocks@[k].effects@
                && self.scope_effect_blocks@[k].block_type == s0.scope_effect_blocks@[k].block_type
                && self.scope_effect_blocks@[k].containing_fn == s0.scope_effect_blocks@[
                k].containing_fn by {
                assert(self.scope_effect_blocks@[k] == cur.scope_effect_blocks@[k]);
                assert(mid.scope_effect_blocks@[k] == open0[k]);
                assert(open0[k] == s0.scope_effect_blocks@[k]);
                assert(block_extends(
                    mid.scope_effect_blocks@[k],
                    cur.scope_effect_blocks@[k],
                ));
                assert(cur.scope_effect_blocks@[k].effects@ == mid.scope_effect_blocks@[
                    k].effects@);
            }
            assert(self.scope_unsafe == ucount(self.scope_effect_blocks@)) by {
                lemma_ucount_congruent(mid.scope_effect_blocks@, cur.scope_effect_blocks@);
                lemma_ucount_push(open0, mid.scope_effect_blocks@.last());
                assert(open0 == s0.scope_effect_blocks@);
                lemma_ucount_congruent(s0.scope_effect_blocks@, self.scope_effect_blocks@);
            }
            assert(block_ok(b)) by {
                assert(blocks_ok(cur.scope_effect_blocks@));
            }
            assert(blocks_ok(self.data.effect_blocks@)) by {
                assert(blocks_ok(cur.data.effect_blocks@));
                assert forall|k: int| 0 <= k < self.data.effect_blocks@.len() implies block_ok(
                    #[trigger] self.data.effect_blocks@[k],
                ) by {
                    if k < cur.data.effect_blocks@.len() {
                        assert(self.data.effect_blocks@[k] == cur.data.effect_blocks@[k]);
                    } else {
                        assert(self.data.effect_blocks@[k] == b);
                    }
                }
            }
            assert(self.data.effects@.to_multiset() == blocks_ms(self.data.effect_blocks@).add(
                blocks_ms(self.scope_effect_blocks@),
            ).add(self.data.stray@)) by {
                assert(blocks_ms(cur.scope_effect_blocks@) == blocks_ms(
                    cur.scope_effect_blocks@.drop_last(),
                ).add(b.effects@.to_multiset()));
                assert(blocks_ms(self.data.effect_blocks@) == blocks_ms(
                    cur.data.effect_blocks@,
                ).add(b.effects@.to_multiset()));
                assert(self.scope_effect_blocks@ == cur.scope_effect_blocks@.drop_last());
                assert(blocks_ms(cur.data.effect_blocks@).add(
                    blocks_ms(cur.scope_effect_blocks@.drop_last()).add(
                        b.effects@.to_multiset(),
                    ),
                ).add(cur.data.stray@) =~= blocks_ms(cur.data.effect_blocks@).add(
                    b.effects@.to_multiset(),
                ).add(blocks_ms(cur.scope_effect_blocks@.drop_last())).add(cur.data.stray@));
            }
            assert(graph_inv(self.data)) by {
                lemma_graph_inv_stable(cur.data, self.data);
            }
            assert(scanner_inv(*self));
            assert(seq_grows_to(s0.data.effects@, self.data.effects@)) by {
                assert(seq_grows_to(s0.data.effects@, mid.data.effects@));
                assert(seq_grows_to(mid.data.effects@, cur.data.effects@));
            }
            assert(seq_grows_to(s0.data.effect_blocks@, self.data.effect_blocks@)) by {
                assert forall|k: int|
                    0 <= k < s0.data.effect_blocks@.len() implies s0.data.effect_blocks@[k]
                    == self.data.effect_blocks@[k] by {
                    assert(s0.data.effect_blocks@[k] == cur.data.effect_blocks@[k]);
                }
            }
            assert(seq_grows_to(s0.data.unsafe_traits@, self.data.unsafe_traits@)) by {
                assert(seq_grows_to(s0.data.unsafe_traits@, mid.data.unsafe_traits@));
            }
            assert(seq_grows_to(s0.data.unsafe_impls@, self.data.unsafe_impls@)) by {
                assert(seq_grows_to(s0.data.unsafe_impls@, mid.data.unsafe_impls@));
            }
            assert(seq_grows_to(graph_nodes(s0.data.call_graph), graph_nodes(
                self.data.call_graph,
            ))) by {
                assert(seq_grows_to(graph_nodes(s0.data.call_graph), graph_nodes(
                    mid.data.call_graph,
                )));
            }
            assert(seq_grows_to(graph_edges(s0.data.call_graph), graph_edges(
                self.data.call_graph,
            ))) by {
                assert(seq_grows_to(graph_edges(s0.data.call_graph), graph_edges(
                    mid.data.call_graph,
                )));
            }
            assert(seq_grows_to(s0.data.node_idxs@, self.data.node_idxs@)) by {
                assert(seq_grows_to(s0.data.node_idxs@, mid.data.node_idxs@));
            }
            assert(seq_grows_to(s0.data.pub_fns@, self.data.pub_fns@)) by {
                assert(seq_grows_to(s0.data.pub_fns@, mid.data.pub_fns@));
            }
            assert(scan_preserves(s0, *self));
            assert(effs_view(self.data.effects@) =~= effs_view(s0.data.effects@) + emit_stmts(
                body@,
                s0.filepath@,
                s0.sinks@,
                sig.resolved_def@,
                s0.scope_unsafe > 0 || sig.is_unsafe,
                s0.scope_assign_lhs,
            ));
            assert(self.data.effect_blocks@.last() == b);
            assert(block_extends(mid.scope_effect_blocks@.last(), b));
            assert(b.src_loc.span == body_span);
            assert(b.src_loc.file@ == s0.filepath@);
            assert(b.containing_fn.fn_name == sig.resolved_def);
            assert(b.containing_fn.vis == vis);
            assert(b.containing_fn.src_loc.span == sig.span);
            assert(registered_in(self.data.node_idxs@, sig.resolved_def@)) by {
                assert(registered_in(mid.data.node_idxs@, sig.resolved_def@));
                let j = choose|j: int|
                    0 <= j < mid.data.node_idxs@.len() && (#[trigger] mid.data.node_idxs@[
                    j]).0@ == sig.resolved_def@;
                assert(self.data.node_idxs@[j] == mid.data.node_idxs@[j]);
            }
            if vis == Visibility::Public {
                assert(listed_in(self.data.pub_fns@, sig.resolved_def@)) by {
                    assert(listed_in(mid.data.pub_fns@, sig.resolved_def@));
                    let j = choose|j: int|
                        0 <= j < mid.data.pub_fns@.len() && (#[trigger] mid.data.pub_fns@[j])@
                            == sig.resolved_def@;
                    assert(self.data.pub_fns@[j] == mid.data.pub_fns@[j]);
                }
            }
        }
    }
}

impl Scanner {
    /// One statement of a function body: a local binding's initializer
    /// and else-branch, an expression, a nested item, or a counted macro.
    fn scan_fn_statement(&mut self, s: &Stmt)
        requires
            scanner_inv(*old(self)),
            old(self).scope_fns@.len() > 0,
            old(self).scope_effect_blocks@.len() > 0,
        ensures
            scanner_inv(*final(self)),
            scan_preserves(*old(self), *final(self)),
            effs_view(final(self).data.effects@) == effs_view(old(self).data.effects@)
                + emit_stmt(
                *s,
                old(self).filepath@,
                old(self).sinks@,
                old(self).scope_fns@.last().fn_name@,
                old(self).scope_unsafe > 0,
                old(self).scope_assign_lhs,
            ),
            final(self).scope_assign_lhs == lhs_step(
                has_assign_stmt(*s),
                old(self).scope_assign_lhs,
            ),
        decreases *s, 0int,
    {
        let ghost s0 = *self;
        proof {
            lemma_preserves_refl(s0);
        }
        match s {
            Stmt::Local { init, diverge, .. } => {
                match init {
                    Some(e) => {
                        self.scan_expr(&**e);
                    }
                    None => {}
                }
                proof {
                    assert(scan_preserves(s0, *self));
                }
                match diverge {
                    Some(e) => {
                        let ghost prev = *self;
                        self.scan_expr(&**e);
                        proof {
                            lemma_preserves_trans(s0, prev, *self);
                        }
                    }
                    None => {}
                }
                proof {
                    assert(effs_view(self.data.effects@) =~= effs_view(s0.data.effects@)
                        + emit_stmt(
                        *s,
                        s0.filepath@,
                        s0.sinks@,
                        s0.scope_fns@.last().fn_name@,
                        s0.scope_unsafe > 0,
                        s0.scope_assign_lhs,
                    ));
                }
            }
            Stmt::ExprStmt(e) => {
                self.scan_expr(&**e);
            }
            Stmt::ItemStmt(i) => {
                self.scan_item(&**i);
            }
            Stmt::MacroStmt { span } => {
                self.note_macro(*span);
            }
        }
    }

    /// A statement list, in order.    /// A statement list, in order.
    fn scan_stmts(&mut self, stmts: &Vec<Stmt>)
        requires
            scanner_inv(*old(self)),
            old(self).scope_fns@.len() > 0,
            old(self).scope_effect_blocks@.len() > 0,
        ensures
            scanner_inv(*final(self)),
            scan_preserves(*old(self), *final(self)),
            effs_view(final(self).data.effects@) == effs_view(old(self).data.effects@)
                + emit_stmts(
                stmts@,
                old(self).filepath@,
                old(self).sinks@,
                old(self).scope_fns@.last().fn_name@,
                old(self).scope_unsafe > 0,
                old(self).scope_assign_lhs,
            ),
            final(self).scope_assign_lhs == lhs_step(
                has_assign_stmts(stmts@),
                old(self).scope_assign_lhs,
            ),
        decreases stmts@, 0int,
    {
        let ghost s0 = *self;
        let ghost base = effs_view(s0.data.effects@);
        let ghost file = s0.filepath@;
        let ghost sk = s0.sinks@;
        let ghost who = s0.scope_fns@.last().fn_name@;
        let ghost uns = s0.scope_unsafe > 0;
        let ghost l0 = s0.scope_assign_lhs;
        proof {
            lemma_preserves_refl(s0);
            assert(stmts@.skip(0) =~= stmts@);
        }
        let n = stmts.len();
        let mut i: usize = 0;
        while i < n
            invariant
                i <= n,
                n == stmts@.len(),
                scanner_inv(*self),
                scan_preserves(s0, *self),
                s0.scope_fns@.len() > 0,
                s0.scope_effect_blocks@.len() > 0,
                base == effs_view(s0.data.effects@),
                file == s0.filepath@,
                sk == s0.sinks@,
                who == s0.scope_fns@.last().fn_name@,
                uns == (s0.scope_unsafe > 0),
                l0 == s0.scope_assign_lhs,
                base + emit_stmts(stmts@, file, sk, who, uns, l0) == effs_view(
                    self.data.effects@,
                ) + emit_stmts(stmts@.skip(i as int), file, sk, who, uns, self.scope_assign_lhs),
                lhs_step(has_assign_stmts(stmts@), l0) == lhs_step(
                    has_assign_stmts(stmts@.skip(i as int)),
                    self.scope_assign_lhs,
                ),
            decreases n - i,
        {
            let ghost rem = stmts@.skip(i as int);
            let ghost cur = self.scope_assign_lhs;
            proof {
                assert(rem[0] == stmts@[i as int]);
                assert(rem.drop_first() =~= stmts@.skip(i + 1));
            }
            let ghost prev = *self;
            self.scan_fn_statement(&stmts[i]);
            proof {
                lemma_preserves_trans(s0, prev, *self);
                assert(emit_stmts(rem, file, sk, who, uns, cur) == emit_stmt(
                    stmts@[i as int],
                    file,
                    sk,
                    who,
                    uns,
                    cur,
                ) + emit_stmts(
                    stmts@.skip(i + 1),
                    file,
                    sk,
                    who,
                    uns,
                    lhs_step(has_assign_stmt(stmts@[i as int]), cur),
                ));
                assert(effs_view(self.data.effects@) + emit_stmts(
                    stmts@.skip(i + 1),
                    file,
                    sk,
                    who,
                    uns,
                    self.scope_assign_lhs,
                ) =~= effs_view(prev.data.effects@) + emit_stmts(rem, file, sk, who, uns, cur));
                assert(has_assign_stmts(rem) == (has_assign_stmt(stmts@[i as int])
                    || has_assign_stmts(stmts@.skip(i + 1))));
            }
            i = i + 1;
        }
        proof {
            assert(stmts@.skip(n as int).len() == 0);
            assert(emit_stmts(stmts@.skip(n as int), file, sk, who, uns, self.scope_assign_lhs)
                =~= Seq::<EffV>::empty());
            assert(effs_view(self.data.effects@) =~= base + emit_stmts(
                stmts@,
                file,
                sk,
                who,
                uns,
                l0,
            ));
            assert(!has_assign_stmts(stmts@.skip(n as int)));
        }
    }

    /// An expression list, in order.    /// An expression list, in order.
    fn scan_exprs(&mut self, exprs: &Vec<Expr>)
        requires
            scanner_inv(*old(self)),
            old(self).scope_fns@.len() > 0,
            old(self).scope_effect_blocks@.len() > 0,
        ensures
            scanner_inv(*final(self)),
            scan_preserves(*old(self), *final(self)),
            effs_view(final(self).data.effects@) == effs_view(old(self).data.effects@)
                + emit_exprs(
                exprs@,
                old(self).filepath@,
                old(self).sinks@,
                old(self).scope_fns@.last().fn_name@,
                old(self).scope_unsafe > 0,
                old(self).scope_assign_lhs,
            ),
            final(self).scope_assign_lhs == lhs_step(
                has_assign_exprs(exprs@),
                old(self).scope_assign_lhs,
            ),
        decreases exprs@, 0int,
    {
        let ghost s0 = *self;
        let ghost base = effs_view(s0.data.effects@);
        let ghost file = s0.filepath@;
        let ghost sk = s0.sinks@;
        let ghost who = s0.scope_fns@.last().fn_name@;
        let ghost uns = s0.scope_unsafe > 0;
        let ghost l0 = s0.scope_assign_lhs;
        proof {
            lemma_preserves_refl(s0);
            assert(exprs@.skip(0) =~= exprs@);
        }
        let n = exprs.len();
        let mut i: usize = 0;
        while i < n
            invariant
                i <= n,
                n == exprs@.len(),
                scanner_inv(*self),
                scan_preserves(s0, *self),
                s0.scope_fns@.len() > 0,
                s0.scope_effect_blocks@.len() > 0,
                base == effs_view(s0.data.effects@),
                file == s0.filepath@,
                sk == s0.sinks@,
                who == s0.scope_fns@.last().fn_name@,
                uns == (s0.scope_unsafe > 0),
                l0 == s0.scope_assign_lhs,
                base + emit_exprs(exprs@, file, sk, who, uns, l0) == effs_view(
                    self.data.effects@,
                ) + emit_exprs(exprs@.skip(i as int), file, sk, who, uns, self.scope_assign_lhs),
                lhs_step(has_assign_exprs(exprs@), l0) == lhs_step(
                    has_assign_exprs(exprs@.skip(i as int)),
                    self.scope_assign_lhs,
                ),
            decreases n - i,
        {
            let ghost rem = exprs@.skip(i as int);
            let ghost cur = self.scope_assign_lhs;
            proof {
                assert(rem[0] == exprs@[i as int]);
                assert(rem.drop_first() =~= exprs@.skip(i + 1));
            }
            let ghost prev = *self;
            self.scan_expr(&exprs[i]);
            proof {
                lemma_preserves_trans(s0, prev, *self);
                assert(emit_exprs(rem, file, sk, who, uns, cur) == emit_expr(
                    exprs@[i as int],
                    file,
                    sk,
                    who,
                    uns,
                    cur,
                ) + emit_exprs(
                    exprs@.skip(i + 1),
                    file,
                    sk,
                    who,
                    uns,
                    lhs_step(has_assign_expr(exprs@[i as int]), cur),
                ));
                assert(effs_view(self.data.effects@) + emit_exprs(
                    exprs@.skip(i + 1),
                    file,
                    sk,
                    who,
                    uns,
                    self.scope_assign_lhs,
                ) =~= effs_view(prev.data.effects@) + emit_exprs(rem, file, sk, who, uns, cur));
                assert(has_assign_exprs(rem) == (has_assign_expr(exprs@[i as int])
                    || has_assign_exprs(exprs@.skip(i + 1))));
            }
            i = i + 1;
        }
        proof {
            assert(exprs@.skip(n as int).len() == 0);
            assert(emit_exprs(exprs@.skip(n as int), file, sk, who, uns, self.scope_assign_lhs)
                =~= Seq::<EffV>::empty());
            assert(effs_view(self.data.effects@) =~= base + emit_exprs(
                exprs@,
                file,
                sk,
                who,
                uns,
                l0,
            ));
            assert(!has_assign_exprs(exprs@.skip(n as int)));
        }
    }

    /// The arms of a match expression: guards, then bodies.    /// The arms of a match expression: guards, then bodies.
    #[verifier::rlimit(100)]
    fn scan_arms(&mut self, arms: &Vec<MatchArm>)
        requires
            scanner_inv(*old(self)),
            old(self).scope_fns@.len() > 0,
            old(self).scope_effect_blocks@.len() > 0,
        ensures
            scanner_inv(*final(self)),
            scan_preserves(*old(self), *final(self)),
            effs_view(final(self).data.effects@) == effs_view(old(self).data.effects@)
                + emit_arms(
                arms@,
                old(self).filepath@,
                old(self).sinks@,
                old(self).scope_fns@.last().fn_name@,
                old(self).scope_unsafe > 0,
                old(self).scope_assign_lhs,
            ),
            final(self).scope_assign_lhs == lhs_step(
                has_assign_arms(arms@),
                old(self).scope_assign_lhs,
            ),
        decreases arms@, 0int,
    {
        let ghost s0 = *self;
        let ghost base = effs_view(s0.data.effects@);
        let ghost file = s0.filepath@;
        let ghost sk = s0.sinks@;
        let ghost who = s0.scope_fns@.last().fn_name@;
        let ghost uns = s0.scope_unsafe > 0;
        let ghost l0 = s0.scope_assign_lhs;
        proof {
            lemma_preserves_refl(s0);
            assert(arms@.skip(0) =~= arms@);
        }
        let n = arms.len();
        let mut i: usize = 0;
        while i < n
            invariant
                i <= n,
                n == arms@.len(),
                scanner_inv(*self),
                scan_preserves(s0, *self),
                s0.scope_fns@.len() > 0,
                s0.scope_effect_blocks@.len() > 0,
                base == effs_view(s0.data.effects@),
                file == s0.filepath@,
                sk == s0.sinks@,
                who == s0.scope_fns@.last().fn_name@,
                uns == (s0.scope_unsafe > 0),
                l0 == s0.scope_assign_lhs,
                base + emit_arms(arms@, file, sk, who, uns, l0) == effs_view(self.data.effects@)
                    + emit_arms(arms@.skip(i as int), file, sk, who, uns, self.scope_assign_lhs),
                lhs_step(has_assign_arms(arms@), l0) == lhs_step(
                    has_assign_arms(arms@.skip(i as int)),
                    self.scope_assign_lhs,
                ),
            decreases n - i,
        {
            let ghost rem = arms@.skip(i as int);
            let ghost cur = self.scope_assign_lhs;
            proof {
                assert(rem[0] == arms@[i as int]);
                assert(rem.drop_first() =~= arms@.skip(i + 1));
            }
            let ghost prev = *self;
            match &arms[i].guard {
                Some(g) => {
                    self.scan_expr(&**g);
                    proof {
                        lemma_preserves_trans(s0, prev, *self);
                    }
                }
                None => {}
            }
            let ghost midg = *self;
            let ghost cur1 = self.scope_assign_lhs;
            proof {
                assert(cur1 == lhs_step(has_assign_opt(arms@[i as int].guard), cur));
                assert(effs_view(midg.data.effects@) =~= effs_view(prev.data.effects@)
                    + emit_opt_expr(arms@[i as int].guard, file, sk, who, uns, cur));
            }
            self.scan_expr(&*arms[i].body);
            proof {
                lemma_preserves_trans(s0, midg, *self);
                assert(emit_arms(rem, file, sk, who, uns, cur) == emit_opt_expr(
                    arms@[i as int].guard,
                    file,
                    sk,
                    who,
                    uns,
                    cur,
                ) + emit_expr(*arms@[i as int].body, file, sk, who, uns, cur1) + emit_arms(
                    arms@.skip(i + 1),
                    file,
                    sk,
                    who,
                    uns,
                    lhs_step(has_assign_expr(*arms@[i as int].body), cur1),
                ));
                assert(effs_view(self.data.effects@) + emit_arms(
                    arms@.skip(i + 1),
                    file,
                    sk,
                    who,
                    uns,
                    self.scope_assign_lhs,
                ) =~= effs_view(prev.data.effects@) + emit_arms(rem, file, sk, who, uns, cur));
                assert(has_assign_arms(rem) == (has_assign_opt(arms@[i as int].guard)
                    || has_assign_expr(*arms@[i as int].body) || has_assign_arms(
                    arms@.skip(i + 1),
                )));
            }
            i = i + 1;
        }
        proof {
            assert(arms@.skip(n as int).len() == 0);
            assert(emit_arms(arms@.skip(n as int), file, sk, who, uns, self.scope_assign_lhs)
                =~= Seq::<EffV>::empty());
            assert(effs_view(self.data.effects@) =~= base + emit_arms(
                arms@,
                file,
                sk,
                who,
                uns,
                l0,
            ));
            assert(!has_assign_arms(arms@.skip(n as int)));
        }
    }

    /// The callee position of a call expression: a path call site, a    /// The callee position of a call expression: a path call site, a
    /// parenthesized callee, a member call site; a macro callee feeds the
    /// macro counter and any other callee form the skipped-call counter.
    fn scan_expr_call(&mut self, f: &CallFn)
        requires
            scanner_inv(*old(self)),
            old(self).scope_fns@.len() > 0,
            old(self).scope_effect_blocks@.len() > 0,
        ensures
            scanner_inv(*final(self)),
            scan_preserves(*old(self), *final(self)),
            final(self).scope_assign_lhs == old(self).scope_assign_lhs,
            effs_view(final(self).data.effects@) == effs_view(old(self).data.effects@)
                + call_fn_effects(
                *f,
                old(self).filepath@,
                old(self).scope_fns@.last().fn_name@,
                old(self).scope_unsafe > 0,
                old(self).sinks@,
            ),
            *f matches CallFn::FnMacro { span } ==> (final(self).data.skipped_macros@
                == spec_loc_add(old(self).data.skipped_macros@, span)
                && final(self).data.skipped_fn_calls == old(self).data.skipped_fn_calls),
            *f matches CallFn::FnOther { span } ==> (final(self).data.skipped_fn_calls@
                == spec_loc_add(old(self).data.skipped_fn_calls@, span)
                && final(self).data.skipped_macros == old(self).data.skipped_macros),
        decreases *f, 0int,
    {
        let ghost s0 = *self;
        match f {
            CallFn::FnPath(p) => {
                let is_unsafe = p.is_unsafe_decl && self.scope_unsafe > 0;
                let ffi = clone_opt_path(&p.ffi);
                self.push_callsite(p.span, p.resolved.clone(), ffi, is_unsafe);
                proof {
                    assert(effs_view(self.data.effects@) =~= effs_view(s0.data.effects@)
                        + call_fn_effects(
                        *f,
                        s0.filepath@,
                        s0.scope_fns@.last().fn_name@,
                        s0.scope_unsafe > 0,
                        s0.sinks@,
                    ));
                }
            }
            CallFn::FnParen(inner) => {
                self.scan_expr_call(&**inner);
            }
            CallFn::FnField(m) => {
                self.scan_expr_call_field(m);
            }
            CallFn::FnMacro { span } => {
                self.note_macro(*span);
                proof {
                    assert(effs_view(self.data.effects@) =~= effs_view(s0.data.effects@)
                        + call_fn_effects(
                        *f,
                        s0.filepath@,
                        s0.scope_fns@.last().fn_name@,
                        s0.scope_unsafe > 0,
                        s0.sinks@,
                    ));
                }
            }
            CallFn::FnOther { span } => {
                self.note_fn_call_skip(*span);
                proof {
                    assert(effs_view(self.data.effects@) =~= effs_view(s0.data.effects@)
                        + call_fn_effects(
                        *f,
                        s0.filepath@,
                        s0.scope_fns@.last().fn_name@,
                        s0.scope_unsafe > 0,
                        s0.sinks@,
                    ));
                }
            }
        }
    }

    /// One expression, per the expression-level effect rules: calls,
    /// method calls and unsafe blocks are the important cases; paths,
    /// field accesses, dereferences and closures yield their effects; the
    /// rest recurse into their operands in source order.
    #[verifier::rlimit(100)]
    #[verifier::spinoff_prover]
    fn scan_expr(&mut self, e: &Expr)
        requires
            scanner_inv(*old(self)),
            old(self).scope_fns@.len() > 0,
            old(self).scope_effect_blocks@.len() > 0,
        ensures
            scanner_inv(*final(self)),
            scan_preserves(*old(self), *final(self)),
            effs_view(final(self).data.effects@) == effs_view(old(self).data.effects@)
                + emit_expr(
                *e,
                old(self).filepath@,
                old(self).sinks@,
                old(self).scope_fns@.last().fn_name@,
                old(self).scope_unsafe > 0,
                old(self).scope_assign_lhs,
            ),
            final(self).scope_assign_lhs == lhs_step(
                has_assign_expr(*e),
                old(self).scope_assign_lhs,
            ),
        decreases *e, 0int,
    {
        let ghost s0 = *self;
        let ghost file = s0.filepath@;
        let ghost sk = s0.sinks@;
        let ghost who = s0.scope_fns@.last().fn_name@;
        let ghost uns = s0.scope_unsafe > 0;
        let ghost l0 = s0.scope_assign_lhs;
        proof {
            lemma_preserves_refl(s0);
        }
        match e {
            Expr::Array { elems, .. } => {
                self.scan_exprs(elems);
                proof {
                    assert(effs_view(self.data.effects@) =~= effs_view(s0.data.effects@)
                        + emit_expr(*e, file, sk, who, uns, l0));
                    assert(self.scope_assign_lhs == lhs_step(has_assign_expr(*e), l0));
                }
            }
            Expr::Assign { left, right, .. } => {
                self.scope_assign_lhs = true;
                proof {
                    assert(scanner_inv(*self));
                    assert(scan_preserves(s0, *self));
                }
                let ghost p1 = *self;
                self.scan_expr(&**left);
                proof {
                    lemma_preserves_trans(s0, p1, *self);
                }
                self.scope_assign_lhs = false;
                proof {
                    assert(scanner_inv(*self));
                    assert(scan_preserves(s0, *self));
                }
                let ghost p2 = *self;
                self.scan_expr(&**right);
                proof {
                    lemma_preserves_trans(s0, p2, *self);
                }
                proof {
                    assert(effs_view(self.data.effects@) =~= effs_view(s0.data.effects@)
                        + emit_expr(*e, file, sk, who, uns, l0));
                    assert(self.scope_assign_lhs == lhs_step(has_assign_expr(*e), l0));
                }
            }
            Expr::AsyncBlock { stmts, .. } => {
                self.scan_stmts(stmts);
                proof {
                    assert(effs_view(self.data.effects@) =~= effs_view(s0.data.effects@)
                        + emit_expr(*e, file, sk, who, uns, l0));
                    assert(self.scope_assign_lhs == lhs_step(has_assign_expr(*e), l0));
                }
            }
            Expr::Await { base, .. } => {
                self.scan_expr(&**base);
                proof {
                    assert(effs_view(self.data.effects@) =~= effs_view(s0.data.effects@)
                        + emit_expr(*e, file, sk, who, uns, l0));
                    assert(self.scope_assign_lhs == lhs_step(has_assign_expr(*e), l0));
                }
            }
            Expr::Binary { left, right, .. } => {
                self.scan_expr(&**left);
                let ghost p1 = *self;
                self.scan_expr(&**right);
                proof {
                    lemma_preserves_trans(s0, p1, *self);
                }
                proof {
                    assert(effs_view(self.data.effects@) =~= effs_view(s0.data.effects@)
                        + emit_expr(*e, file, sk, who, uns, l0));
                    assert(self.scope_assign_lhs == lhs_step(has_assign_expr(*e), l0));
                }
            }
            Expr::BlockExpr { stmts, .. } => {
                self.scan_stmts(stmts);
                proof {
                    assert(effs_view(self.data.effects@) =~= effs_view(s0.data.effects@)
                        + emit_expr(*e, file, sk, who, uns, l0));
                    assert(self.scope_assign_lhs == lhs_step(has_assign_expr(*e), l0));
                }
            }
            Expr::Break { value, .. } => {
                match value {
                    Some(v) => {
                        self.scan_expr(&**v);
                        proof {
                            assert(*value == Some(*v));
                            lemma_opt_expr_some(*value, *v, file, sk, who, uns, l0);
                            assert(emit_expr(*e, file, sk, who, uns, l0) == emit_opt_expr(
                                *value,
                                file,
                                sk,
                                who,
                                uns,
                                l0,
                            ));
                            assert(has_assign_expr(*e) == has_assign_opt(*value));
                            assert(effs_view(self.data.effects@) =~= effs_view(
                                s0.data.effects@,
                            ) + emit_expr(*e, file, sk, who, uns, l0));
                            assert(self.scope_assign_lhs == lhs_step(has_assign_expr(*e), l0));
                        }
                    }
                    None => {
                        proof {
                            assert(*value is None);
                            assert(emit_opt_expr(*value, file, sk, who, uns, l0)
                                =~= Seq::<EffV>::empty());
                            assert(!has_assign_opt(*value));
                            assert(effs_view(self.data.effects@) =~= effs_view(
                                s0.data.effects@,
                            ) + emit_expr(*e, file, sk, who, uns, l0));
                            assert(self.scope_assign_lhs == lhs_step(has_assign_expr(*e), l0));
                        }
                    }
                }
            }
            Expr::CallExpr { func, args, .. } => {
                self.scan_exprs(args);
                let ghost p1 = *self;
                self.scan_expr_call(&**func);
                proof {
                    lemma_preserves_trans(s0, p1, *self);
                }
                proof {
                    assert(effs_view(self.data.effects@) =~= effs_view(s0.data.effects@)
                        + emit_expr(*e, file, sk, who, uns, l0));
                    assert(self.scope_assign_lhs == lhs_step(has_assign_expr(*e), l0));
                }
            }
            Expr::Cast { expr, .. } => {
                self.scan_expr(&**expr);
                proof {
                    assert(effs_view(self.data.effects@) =~= effs_view(s0.data.effects@)
                        + emit_expr(*e, file, sk, who, uns, l0));
                    assert(self.scope_assign_lhs == lhs_step(has_assign_expr(*e), l0));
                }
            }
            Expr::ClosureExpr { ident, span } => {
                self.scan_closure(ident, *span);
                proof {
                    assert(effs_view(self.data.effects@) =~= effs_view(s0.data.effects@)
                        + emit_expr(*e, file, sk, who, uns, l0));
                    assert(self.scope_assign_lhs == lhs_step(has_assign_expr(*e), l0));
                }
            }
            Expr::ContinueExpr { .. } => {
                proof {
                    assert(effs_view(self.data.effects@) =~= effs_view(s0.data.effects@)
                        + emit_expr(*e, file, sk, who, uns, l0));
                    assert(self.scope_assign_lhs == lhs_step(has_assign_expr(*e), l0));
                }
            }
            Expr::FieldAccess { base, member, span } => {
                self.scan_expr(&**base);
                let ghost p1 = *self;
                self.scan_field_access(member, *span);
                proof {
                    lemma_preserves_trans(s0, p1, *self);
                }
                proof {
                    assert(effs_view(self.data.effects@) =~= effs_view(s0.data.effects@)
                        + emit_expr(*e, file, sk, who, uns, l0));
                    assert(self.scope_assign_lhs == lhs_step(has_assign_expr(*e), l0));
                }
            }
            Expr::ForLoop { expr, body, .. } => {
                self.scan_expr(&**expr);
                let ghost p1 = *self;
                self.scan_stmts(body);
                proof {
                    lemma_preserves_trans(s0, p1, *self);
                }
                proof {
                    assert(effs_view(self.data.effects@) =~= effs_view(s0.data.effects@)
                        + emit_expr(*e, file, sk, who, uns, l0));
                    assert(self.scope_assign_lhs == lhs_step(has_assign_expr(*e), l0));
                }
            }
            Expr::Group { expr, .. } => {
                self.scan_expr(&**expr);
                proof {
                    assert(effs_view(self.data.effects@) =~= effs_view(s0.data.effects@)
                        + emit_expr(*e, file, sk, who, uns, l0));
                    assert(self.scope_assign_lhs == lhs_step(has_assign_expr(*e), l0));
                }
            }
            Expr::IfExpr { cond, then_branch, else_branch, .. } => {
                self.scan_expr(&**cond);
                let ghost p1 = *self;
                self.scan_stmts(then_branch);
                proof {
                    lemma_preserves_trans(s0, p1, *self);
                }
                match else_branch {
                    Some(el) => {
                        let ghost p2 = *self;
                        self.scan_expr(&**el);
                        proof {
                            lemma_preserves_trans(s0, p2, *self);
                            assert(*else_branch == Some(*el));
                            lemma_opt_expr_some(
                                *else_branch,
                                *el,
                                file,
                                sk,
                                who,
                                uns,
                                p2.scope_assign_lhs,
                            );
                            assert(effs_view(self.data.effects@) =~= effs_view(
                                s0.data.effects@,
                            ) + emit_expr(*e, file, sk, who, uns, l0));
                            assert(self.scope_assign_lhs == lhs_step(has_assign_expr(*e), l0));
                        }
                    }
                    None => {
                        proof {
                            assert(*else_branch is None);
                            assert(emit_opt_expr(
                                *else_branch,
                                file,
                                sk,
                                who,
                                uns,
                                self.scope_assign_lhs,
                            ) =~= Seq::<EffV>::empty());
                            assert(!has_assign_opt(*else_branch));
                            assert(effs_view(self.data.effects@) =~= effs_view(
                                s0.data.effects@,
                            ) + emit_expr(*e, file, sk, who, uns, l0));
                            assert(self.scope_assign_lhs == lhs_step(has_assign_expr(*e), l0));
                        }
                    }
                }
            }
            Expr::IndexExpr { expr, index, .. } => {
                self.scan_expr(&**expr);
                let ghost p1 = *self;
                self.scan_expr(&**index);
                proof {
                    lemma_preserves_trans(s0, p1, *self);
                }
                proof {
                    assert(effs_view(self.data.effects@) =~= effs_view(s0.data.effects@)
                        + emit_expr(*e, file, sk, who, uns, l0));
                    assert(self.scope_assign_lhs == lhs_step(has_assign_expr(*e), l0));
                }
            }
            Expr::LetExpr { expr, .. } => {
                self.scan_expr(&**expr);
                proof {
                    assert(effs_view(self.data.effects@) =~= effs_view(s0.data.effects@)
                        + emit_expr(*e, file, sk, who, uns, l0));
                    assert(self.scope_assign_lhs == lhs_step(has_assign_expr(*e), l0));
                }
            }
            Expr::Lit { .. } => {
                proof {
                    assert(effs_view(self.data.effects@) =~= effs_view(s0.data.effects@)
                        + emit_expr(*e, file, sk, who, uns, l0));
                    assert(self.scope_assign_lhs == lhs_step(has_assign_expr(*e), l0));
                }
            }
            Expr::LoopExpr { body, .. } => {
                self.scan_stmts(body);
                proof {
                    assert(effs_view(self.data.effects@) =~= effs_view(s0.data.effects@)
                        + emit_expr(*e, file, sk, who, uns, l0));
                    assert(self.scope_assign_lhs == lhs_step(has_assign_expr(*e), l0));
                }
            }
            Expr::MacroExpr { span } => {
                self.note_macro(*span);
                proof {
                    assert(effs_view(self.data.effects@) =~= effs_view(s0.data.effects@)
                        + emit_expr(*e, file, sk, who, uns, l0));
                    assert(self.scope_assign_lhs == lhs_step(has_assign_expr(*e), l0));
                }
            }
            Expr::MatchExpr { expr, arms, .. } => {
                self.scan_expr(&**expr);
                let ghost p1 = *self;
                self.scan_arms(arms);
                proof {
                    lemma_preserves_trans(s0, p1, *self);
                }
                proof {
                    assert(effs_view(self.data.effects@) =~= effs_view(s0.data.effects@)
                        + emit_expr(*e, file, sk, who, uns, l0));
                    assert(self.scope_assign_lhs == lhs_step(has_assign_expr(*e), l0));
                }
            }
            Expr::MethodCall { receiver, args, method, .. } => {
                self.scan_expr(&**receiver);
                let ghost p1 = *self;
                self.scan_exprs(args);
                proof {
                    lemma_preserves_trans(s0, p1, *self);
                }
                let ghost p2 = *self;
                self.scan_expr_call_method(method);
                proof {
                    lemma_preserves_trans(s0, p2, *self);
                }
                proof {
                    assert(effs_view(self.data.effects@) =~= effs_view(s0.data.effects@)
                        + emit_expr(*e, file, sk, who, uns, l0));
                    assert(self.scope_assign_lhs == lhs_step(has_assign_expr(*e), l0));
                }
            }
            Expr::Paren { expr, .. } => {
                self.scan_expr(&**expr);
                proof {
                    assert(effs_view(self.data.effects@) =~= effs_view(s0.data.effects@)
                        + emit_expr(*e, file, sk, who, uns, l0));
                    assert(self.scope_assign_lhs == lhs_step(has_assign_expr(*e), l0));
                }
            }
            Expr::PathExpr { path, .. } => {
                self.scan_path(path);
                proof {
                    assert(effs_view(self.data.effects@) =~= effs_view(s0.data.effects@)
                        + emit_expr(*e, file, sk, who, uns, l0));
                    assert(self.scope_assign_lhs == lhs_step(has_assign_expr(*e), l0));
                }
            }
            Expr::RangeExpr { start, end, .. } => {
                match start {
                    Some(st) => {
                        self.scan_expr(&**st);
                        proof {
                            assert(*start == Some(*st));
                            lemma_opt_expr_some(*start, *st, file, sk, who, uns, l0);
                            assert(effs_view(self.data.effects@) =~= effs_view(
                                s0.data.effects@,
                            ) + emit_opt_expr(*start, file, sk, who, uns, l0));
                            assert(self.scope_assign_lhs == lhs_step(
                                has_assign_opt(*start),
                                l0,
                            ));
                        }
                    }
                    None => {
                        proof {
                            assert(*start is None);
                            assert(effs_view(self.data.effects@) =~= effs_view(
                                s0.data.effects@,
                            ) + emit_opt_expr(*start, file, sk, who, uns, l0));
                            assert(self.scope_assign_lhs == lhs_step(
                                has_assign_opt(*start),
                                l0,
                            ));
                        }
                    }
                }
                proof {
                    assert(scan_preserves(s0, *self));
                }
                match end {
                    Some(en) => {
                        let ghost p1 = *self;
                        self.scan_expr(&**en);
                        proof {
                            lemma_preserves_trans(s0, p1, *self);
                            assert(*end == Some(*en));
                            lemma_opt_expr_some(
                                *end,
                                *en,
                                file,
                                sk,
                                who,
                                uns,
                                p1.scope_assign_lhs,
                            );
                            assert(effs_view(self.data.effects@) =~= effs_view(
                                s0.data.effects@,
                            ) + emit_expr(*e, file, sk, who, uns, l0));
                            assert(self.scope_assign_lhs == lhs_step(has_assign_expr(*e), l0));
                        }
                    }
                    None => {
                        proof {
                            assert(*end is None);
                            assert(emit_opt_expr(
                                *end,
                                file,
                                sk,
                                who,
                                uns,
                                self.scope_assign_lhs,
                            ) =~= Seq::<EffV>::empty());
                            assert(!has_assign_opt(*end));
                            assert(effs_view(self.data.effects@) =~= effs_view(
                                s0.data.effects@,
                            ) + emit_expr(*e, file, sk, who, uns, l0));
                            assert(self.scope_assign_lhs == lhs_step(has_assign_expr(*e), l0));
                        }
                    }
                }
            }
            Expr::Reference { expr, .. } => {
                self.scan_expr(&**expr);
                proof {
                    assert(effs_view(self.data.effects@) =~= effs_view(s0.data.effects@)
                        + emit_expr(*e, file, sk, who, uns, l0));
                    assert(self.scope_assign_lhs == lhs_step(has_assign_expr(*e), l0));
                }
            }
            Expr::Repeat { expr, len, .. } => {
                self.scan_expr(&**expr);
                let ghost p1 = *self;
                self.scan_expr(&**len);
                proof {
                    lemma_preserves_trans(s0, p1, *self);
                }
                proof {
                    assert(effs_view(self.data.effects@) =~= effs_view(s0.data.effects@)
                        + emit_expr(*e, file, sk, who, uns, l0));
                    assert(self.scope_assign_lhs == lhs_step(has_assign_expr(*e), l0));
                }
            }
            Expr::ReturnExpr { value, .. } => {
                match value {
                    Some(v) => {
                        self.scan_expr(&**v);
                        proof {
                            assert(*value == Some(*v));
                            lemma_opt_expr_some(*value, *v, file, sk, who, uns, l0);
                            assert(has_assign_expr(*e) == has_assign_opt(*value));
                            assert(effs_view(self.data.effects@) =~= effs_view(
                                s0.data.effects@,
                            ) + emit_expr(*e, file, sk, who, uns, l0));
                            assert(self.scope_assign_lhs == lhs_step(has_assign_expr(*e), l0));
                        }
                    }
                    None => {
                        proof {
                            assert(*value is None);
                            assert(emit_opt_expr(*value, file, sk, who, uns, l0)
                                =~= Seq::<EffV>::empty());
                            assert(!has_assign_opt(*value));
                            assert(effs_view(self.data.effects@) =~= effs_view(
                                s0.data.effects@,
                            ) + emit_expr(*e, file, sk, who, uns, l0));
                            assert(self.scope_assign_lhs == lhs_step(has_assign_expr(*e), l0));
                        }
                    }
                }
            }
            Expr::StructExpr { fields, rest, .. } => {
                self.scan_exprs(fields);
                match rest {
                    Some(r) => {
                        let ghost p1 = *self;
                        self.scan_expr(&**r);
                        proof {
                            lemma_preserves_trans(s0, p1, *self);
                            assert(*rest == Some(*r));
                            lemma_opt_expr_some(
                                *rest,
                                *r,
                                file,
                                sk,
                                who,
                                uns,
                                p1.scope_assign_lhs,
                            );
                            assert(effs_view(self.data.effects@) =~= effs_view(
                                s0.data.effects@,
                            ) + emit_expr(*e, file, sk, who, uns, l0));
                            assert(self.scope_assign_lhs == lhs_step(has_assign_expr(*e), l0));
                        }
                    }
                    None => {
                        proof {
                            assert(*rest is None);
                            assert(emit_opt_expr(
                                *rest,
                                file,
                                sk,
                                who,
                                uns,
                                self.scope_assign_lhs,
                            ) =~= Seq::<EffV>::empty());
                            assert(!has_assign_opt(*rest));
                            assert(effs_view(self.data.effects@) =~= effs_view(
                                s0.data.effects@,
                            ) + emit_expr(*e, file, sk, who, uns, l0));
                            assert(self.scope_assign_lhs == lhs_step(has_assign_expr(*e), l0));
                        }
                    }
                }
            }
            Expr::TryExpr { expr, .. } => {
                self.scan_expr(&**expr);
                proof {
                    assert(effs_view(self.data.effects@) =~= effs_view(s0.data.effects@)
                        + emit_expr(*e, file, sk, who, uns, l0));
                    assert(self.scope_assign_lhs == lhs_step(has_assign_expr(*e), l0));
                }
            }
            Expr::TryBlock { stmts, .. } => {
                self.scan_stmts(stmts);
                proof {
                    assert(effs_view(self.data.effects@) =~= effs_view(s0.data.effects@)
                        + emit_expr(*e, file, sk, who, uns, l0));
                    assert(self.scope_assign_lhs == lhs_step(has_assign_expr(*e), l0));
                }
            }
            Expr::TupleExpr { elems, .. } => {
                self.scan_exprs(elems);
                proof {
                    assert(effs_view(self.data.effects@) =~= effs_view(s0.data.effects@)
                        + emit_expr(*e, file, sk, who, uns, l0));
                    assert(self.scope_assign_lhs == lhs_step(has_assign_expr(*e), l0));
                }
            }
            Expr::Unary { is_deref, deref_fields, expr, span } => {
                if *is_deref {
                    self.scan_deref(deref_fields, *span);
                }
                proof {
                    assert(scan_preserves(s0, *self));
                }
                let ghost p1 = *self;
                self.scan_expr(&**expr);
                proof {
                    lemma_preserves_trans(s0, p1, *self);
                }
                proof {
                    assert(effs_view(self.data.effects@) =~= effs_view(s0.data.effects@)
                        + emit_expr(*e, file, sk, who, uns, l0));
                    assert(self.scope_assign_lhs == lhs_step(has_assign_expr(*e), l0));
                }
            }
            Expr::UnsafeBlock { stmts, span } => {
                self.scan_unsafe_block(stmts, *span);
                proof {
                    assert(effs_view(self.data.effects@) =~= effs_view(s0.data.effects@)
                        + emit_expr(*e, file, sk, who, uns, l0));
                    assert(self.scope_assign_lhs == lhs_step(has_assign_expr(*e), l0));
                }
            }
            Expr::Verbatim { .. } => {
                proof {
                    assert(effs_view(self.data.effects@) =~= effs_view(s0.data.effects@)
                        + emit_expr(*e, file, sk, who, uns, l0));
                    assert(self.scope_assign_lhs == lhs_step(has_assign_expr(*e), l0));
                }
            }
            Expr::WhileExpr { cond, body, .. } => {
                self.scan_expr(&**cond);
                let ghost p1 = *self;
                self.scan_stmts(body);
                proof {
                    lemma_preserves_trans(s0, p1, *self);
                }
                proof {
                    assert(effs_view(self.data.effects@) =~= effs_view(s0.data.effects@)
                        + emit_expr(*e, file, sk, who, uns, l0));
                    assert(self.scope_assign_lhs == lhs_step(has_assign_expr(*e), l0));
                }
            }
            Expr::Yield { value, .. } => {
                match value {
                    Some(v) => {
                        self.scan_expr(&**v);
                        proof {
                            assert(*value == Some(*v));
                            lemma_opt_expr_some(*value, *v, file, sk, who, uns, l0);
                            assert(has_assign_expr(*e) == has_assign_opt(*value));
                            assert(effs_view(self.data.effects@) =~= effs_view(
                                s0.data.effects@,
                            ) + emit_expr(*e, file, sk, who, uns, l0));
                            assert(self.scope_assign_lhs == lhs_step(has_assign_expr(*e), l0));
                        }
                    }
                    None => {
                        proof {
                            assert(*value is None);
                            assert(emit_opt_expr(*value, file, sk, who, uns, l0)
                                =~= Seq::<EffV>::empty());
                            assert(!has_assign_opt(*value));
                            assert(effs_view(self.data.effects@) =~= effs_view(
                                s0.data.effects@,
                            ) + emit_expr(*e, file, sk, who, uns, l0));
                            assert(self.scope_assign_lhs == lhs_step(has_assign_expr(*e), l0));
                        }
                    }
                }
            }
            Expr::UnknownExpr { .. } => {
                proof {
                    assert(effs_view(self.data.effects@) =~= effs_view(s0.data.effects@)
                        + emit_expr(*e, file, sk, who, uns, l0));
                    assert(self.scope_assign_lhs == lhs_step(has_assign_expr(*e), l0));
                }
            }
        }
    }
}

impl Scanner {
    /// A top-level or module-level item: modules, impls and functions
    /// recurse; a macro item feeds the macro counter; `use` and other
    /// items change nothing.
    pub fn scan_item(&mut self, i: &Item)
        requires
            scanner_inv(*old(self)),
        ensures
            scanner_inv(*final(self)),
            scan_preserves(*old(self), *final(self)),
            effs_view(final(self).data.effects@) == effs_view(old(self).data.effects@)
                + emit_item(
                *i,
                old(self).filepath@,
                old(self).sinks@,
                old(self).scope_unsafe > 0,
                old(self).scope_assign_lhs,
            ),
            final(self).scope_assign_lhs == lhs_step(
                has_assign_item(*i),
                old(self).scope_assign_lhs,
            ),
            *i matches Item::MacroItem { span } ==> final(self).data.skipped_macros@
                == spec_loc_add(old(self).data.skipped_macros@, span),
            (*i matches Item::Use { .. } || *i matches Item::OtherItem { .. }) ==> *final(self)
                == *old(self),
        decreases *i, 0int,
    {
        let ghost s0 = *self;
        proof {
            lemma_preserves_refl(s0);
        }
        match i {
            Item::Mod(m) => {
                self.scan_mod(m);
            }
            Item::Use(_) => {}
            Item::Impl(imp) => {
                self.scan_impl(imp);
            }
            Item::Fn(f) => {
                self.scan_fn_decl(f);
            }
            Item::Trait(t) => {
                self.scan_trait(t);
            }
            Item::ForeignMod(fm) => {
                self.scan_foreign_mod(fm);
            }
            Item::MacroItem { span } => {
                self.note_macro(*span);
            }
            Item::OtherItem { .. } => {}
        }
        proof {
            assert(effs_view(self.data.effects@) =~= effs_view(s0.data.effects@) + emit_item(
                *i,
                s0.filepath@,
                s0.sinks@,
                s0.scope_unsafe > 0,
                s0.scope_assign_lhs,
            ));
        }
    }

    /// A module: recurse into inline content, unless skipped by its
    /// attributes.    /// A module: recurse into inline content, unless skipped by its
    /// attributes.
    pub fn scan_mod(&mut self, m: &ModItem)
        requires
            scanner_inv(*old(self)),
        ensures
            scanner_inv(*final(self)),
            scan_preserves(*old(self), *final(self)),
            effs_view(final(self).data.effects@) == effs_view(old(self).data.effects@)
                + emit_mod(
                *m,
                old(self).filepath@,
                old(self).sinks@,
                old(self).scope_unsafe > 0,
                old(self).scope_assign_lhs,
            ),
            final(self).scope_assign_lhs == lhs_step(
                has_assign_mod(*m),
                old(self).scope_assign_lhs,
            ),
            spec_skip_attrs(m.attrs@) ==> (only_skip_counters_differ(*old(self), *final(self))
                && final(self).data.skipped_conditional_code@ == spec_loc_add(
                old(self).data.skipped_conditional_code@,
                m.span,
            )),
        decreases *m, 0int,
    {
        let ghost s0 = *self;
        let ghost file = s0.filepath@;
        let ghost sk = s0.sinks@;
        let ghost uns = s0.scope_unsafe > 0;
        let ghost l0 = s0.scope_assign_lhs;
        proof {
            lemma_preserves_refl(s0);
        }
        if self.skip_attrs(&m.attrs) {
            self.note_cond_skip(m.span);
            proof {
                assert(effs_view(self.data.effects@) =~= effs_view(s0.data.effects@) + emit_mod(
                    *m,
                    file,
                    sk,
                    uns,
                    l0,
                ));
            }
            return;
        }
        match &m.content {
            Some(items) => {
                proof {
                    assert(items@.skip(0) =~= items@);
                }
                let n = items.len();
                let mut i: usize = 0;
                while i < n
                    invariant
                        i <= n,
                        n == items@.len(),
                        m.content == Some(*items),
                        !spec_skip_attrs(m.attrs@),
                        scanner_inv(*self),
                        scan_preserves(s0, *self),
                        file == s0.filepath@,
                        sk == s0.sinks@,
                        uns == (s0.scope_unsafe > 0),
                        l0 == s0.scope_assign_lhs,
                        effs_view(s0.data.effects@) + emit_items(items@, file, sk, uns, l0)
                            == effs_view(self.data.effects@) + emit_items(
                            items@.skip(i as int),
                            file,
                            sk,
                            uns,
                            self.scope_assign_lhs,
                        ),
                        lhs_step(has_assign_items(items@), l0) == lhs_step(
                            has_assign_items(items@.skip(i as int)),
                            self.scope_assign_lhs,
                        ),
                    decreases n - i,
                {
                    let ghost rem = items@.skip(i as int);
                    let ghost cur = self.scope_assign_lhs;
                    proof {
                        assert(rem[0] == items@[i as int]);
                        assert(rem.drop_first() =~= items@.skip(i + 1));
                        assert(decreases_to!(*m => m.content));
                        assert(m.content->0 == *items);
                        assert(decreases_to!(m.content => m.content->0));
                        assert(decreases_to!(*items => items@));
                        assert(decreases_to!(items@ => items@[i as int]));
                    }
                    let ghost prev = *self;
                    self.scan_item(&items[i]);
                    proof {
                        lemma_preserves_trans(s0, prev, *self);
                        assert(emit_items(rem, file, sk, uns, cur) == emit_item(
                            items@[i as int],
                            file,
                            sk,
                            uns,
                            cur,
                        ) + emit_items(
                            items@.skip(i + 1),
                            file,
                            sk,
                            uns,
                            lhs_step(has_assign_item(items@[i as int]), cur),
                        ));
                        assert(effs_view(self.data.effects@) + emit_items(
                            items@.skip(i + 1),
                            file,
                            sk,
                            uns,
                            self.scope_assign_lhs,
                        ) =~= effs_view(prev.data.effects@) + emit_items(
                            rem,
                            file,
                            sk,
                            uns,
                            cur,
                        ));
                        assert(has_assign_items(rem) == (has_assign_item(items@[i as int])
                            || has_assign_items(items@.skip(i + 1))));
                    }
                    i = i + 1;
                }
                proof {
                    assert(items@.skip(n as int).len() == 0);
                    assert(emit_items(items@.skip(n as int), file, sk, uns, self.scope_assign_lhs)
                        =~= Seq::<EffV>::empty());
                    assert(!has_assign_items(items@.skip(n as int)));
                    assert(effs_view(self.data.effects@) =~= effs_view(s0.data.effects@)
                        + emit_mod(*m, file, sk, uns, l0));
                }
            }
            None => {
                proof {
                    assert(effs_view(self.data.effects@) =~= effs_view(s0.data.effects@)
                        + emit_mod(*m, file, sk, uns, l0));
                }
            }
        }
    }

    /// A free function declaration, unless skipped by its attributes.    /// A free function declaration, unless skipped by its attributes.
    fn scan_fn_decl(&mut self, f: &FnItem)
        requires
            scanner_inv(*old(self)),
        ensures
            scanner_inv(*final(self)),
            scan_preserves(*old(self), *final(self)),
            effs_view(final(self).data.effects@) == effs_view(old(self).data.effects@)
                + emit_fn_item(
                *f,
                old(self).filepath@,
                old(self).sinks@,
                old(self).scope_unsafe > 0,
                old(self).scope_assign_lhs,
            ),
            final(self).scope_assign_lhs == lhs_step(
                has_assign_fn_item(*f),
                old(self).scope_assign_lhs,
            ),
            spec_skip_attrs(f.attrs@) ==> (only_skip_counters_differ(*old(self), *final(self))
                && final(self).data.skipped_conditional_code@ == spec_loc_add(
                old(self).data.skipped_conditional_code@,
                f.span,
            )),
            !spec_skip_attrs(f.attrs@) ==> registered_in(
                final(self).data.node_idxs@,
                f.sig.resolved_def@,
            ) && (f.vis == Visibility::Public ==> listed_in(
                final(self).data.pub_fns@,
                f.sig.resolved_def@,
            )),
        decreases *f, 0int,
    {
        let ghost s0 = *self;
        proof {
            lemma_preserves_refl(s0);
        }
        if self.skip_attrs(&f.attrs) {
            self.note_cond_skip(f.span);
            return;
        }
        self.scan_fn(&f.sig, &f.body, f.body_span, f.vis);
    }

    /// A method of an impl block (or an associated function), unless
    /// skipped by its attributes.
    fn scan_method(&mut self, m: &FnItem)
        requires
            scanner_inv(*old(self)),
        ensures
            scanner_inv(*final(self)),
            scan_preserves(*old(self), *final(self)),
            effs_view(final(self).data.effects@) == effs_view(old(self).data.effects@)
                + emit_fn_item(
                *m,
                old(self).filepath@,
                old(self).sinks@,
                old(self).scope_unsafe > 0,
                old(self).scope_assign_lhs,
            ),
            final(self).scope_assign_lhs == lhs_step(
                has_assign_fn_item(*m),
                old(self).scope_assign_lhs,
            ),
            spec_skip_attrs(m.attrs@) ==> (only_skip_counters_differ(*old(self), *final(self))
                && final(self).data.skipped_conditional_code@ == spec_loc_add(
                old(self).data.skipped_conditional_code@,
                m.span,
            )),
        decreases *m, 0int,
    {
        let ghost s0 = *self;
        proof {
            lemma_preserves_refl(s0);
        }
        if self.skip_attrs(&m.attrs) {
            self.note_cond_skip(m.span);
            return;
        }
        self.scan_fn(&m.sig, &m.body, m.body_span, m.vis);
    }

    /// A trait declaration: record it when it is an `unsafe trait`.    /// A trait declaration: record it when it is an `unsafe trait`.
    fn scan_trait(&mut self, t: &TraitItem)
        requires
            scanner_inv(*old(self)),
        ensures
            scanner_inv(*final(self)),
            scan_preserves(*old(self), *final(self)),
            final(self).scope_assign_lhs == old(self).scope_assign_lhs,
            final(self).data.effects == old(self).data.effects,
            spec_skip_attrs(t.attrs@) ==> (only_skip_counters_differ(*old(self), *final(self))
                && final(self).data.skipped_conditional_code@ == spec_loc_add(
                old(self).data.skipped_conditional_code@,
                t.span,
            ) && final(self).data.unsafe_traits == old(self).data.unsafe_traits),
            !spec_skip_attrs(t.attrs@) && t.is_unsafe ==> ({
                let r = final(self).data.unsafe_traits@;
                &&& r == old(self).data.unsafe_traits@.push(r.last())
                &&& r.last().trait_name == t.resolved_def
                &&& r.last().src_loc.span == t.span
                &&& r.last().src_loc.file@ == old(self).filepath@
            }),
            !spec_skip_attrs(t.attrs@) && !t.is_unsafe ==> *final(self) == *old(self),
    {
        let ghost s0 = *self;
        proof {
            lemma_preserves_refl(s0);
        }
        if self.skip_attrs(&t.attrs) {
            self.note_cond_skip(t.span);
            return;
        }
        if t.is_unsafe {
            let dec = TraitDec::new(self.filepath.as_str(), t.span, t.resolved_def.clone());
            self.data.unsafe_traits.push(dec);
            proof {
                lemma_inv_data_extend(s0, *self);
                assert(scan_preserves(s0, *self));
            }
        }
    }

    /// The trait path of an impl block: record an `unsafe impl`.    /// The trait path of an impl block: record an `unsafe impl`.
    fn scan_impl_trait_path(&mut self, tr: &CanonicalPath, imp: &ImplBlock)
        requires
            scanner_inv(*old(self)),
        ensures
            scanner_inv(*final(self)),
            scan_preserves(*old(self), *final(self)),
            final(self).scope_assign_lhs == old(self).scope_assign_lhs,
            final(self).data.effects == old(self).data.effects,
            imp.is_unsafe ==> ({
                let r = final(self).data.unsafe_impls@;
                &&& r == old(self).data.unsafe_impls@.push(r.last())
                &&& r.last().trait_name == *tr
                &&& r.last().self_type == imp.self_type
                &&& r.last().src_loc.span == imp.span
                &&& r.last().src_loc.file@ == old(self).filepath@
            }),
            !imp.is_unsafe ==> *final(self) == *old(self),
    {
        let ghost s0 = *self;
        proof {
            lemma_preserves_refl(s0);
        }
        if imp.is_unsafe {
            let st = clone_opt_path(&imp.self_type);
            let rec = TraitImpl::new(self.filepath.as_str(), imp.span, tr.clone(), st);
            self.data.unsafe_impls.push(rec);
            proof {
                lemma_inv_data_extend(s0, *self);
                assert(scan_preserves(s0, *self));
            }
        }
    }

    /// An impl block: its trait path and its members, unless skipped by    /// An impl block: its trait path and its members, unless skipped by
    /// its attributes.
    fn scan_impl(&mut self, imp: &ImplBlock)
        requires
            scanner_inv(*old(self)),
        ensures
            scanner_inv(*final(self)),
            scan_preserves(*old(self), *final(self)),
            effs_view(final(self).data.effects@) == effs_view(old(self).data.effects@)
                + emit_impl(
                *imp,
                old(self).filepath@,
                old(self).sinks@,
                old(self).scope_unsafe > 0,
                old(self).scope_assign_lhs,
            ),
            final(self).scope_assign_lhs == lhs_step(
                has_assign_impl(*imp),
                old(self).scope_assign_lhs,
            ),
            spec_skip_attrs(imp.attrs@) ==> (only_skip_counters_differ(*old(self), *final(self))
                && final(self).data.skipped_conditional_code@ == spec_loc_add(
                old(self).data.skipped_conditional_code@,
                imp.span,
            )),
            !spec_skip_attrs(imp.attrs@) && imp.is_unsafe && imp.trait_path is Some ==> ({
                let r = final(self).data.unsafe_impls@;
                &&& r.len() > old(self).data.unsafe_impls@.len()
                &&& r[old(self).data.unsafe_impls@.len() as int].trait_name
                    == imp.trait_path->0
                &&& r[old(self).data.unsafe_impls@.len() as int].self_type == imp.self_type
            }),
        decreases *imp, 0int,
    {
        let ghost s0 = *self;
        let ghost file = s0.filepath@;
        let ghost sk = s0.sinks@;
        let ghost uns = s0.scope_unsafe > 0;
        let ghost l0 = s0.scope_assign_lhs;
        proof {
            lemma_preserves_refl(s0);
        }
        if self.skip_attrs(&imp.attrs) {
            self.note_cond_skip(imp.span);
            proof {
                assert(effs_view(self.data.effects@) =~= effs_view(s0.data.effects@) + emit_impl(
                    *imp,
                    file,
                    sk,
                    uns,
                    l0,
                ));
            }
            return;
        }
        match &imp.trait_path {
            Some(tr) => {
                self.scan_impl_trait_path(tr, imp);
            }
            None => {}
        }
        let ghost s1 = *self;
        proof {
            assert(scan_preserves(s0, *self));
            assert(effs_view(s1.data.effects@) == effs_view(s0.data.effects@));
            assert(s1.scope_assign_lhs == l0);
            assert(imp.items@.skip(0) =~= imp.items@);
        }
        let n = imp.items.len();
        let mut i: usize = 0;
        while i < n
            invariant
                i <= n,
                n == imp.items@.len(),
                scanner_inv(*self),
                scan_preserves(s0, *self),
                seq_grows_to(s1.data.unsafe_impls@, self.data.unsafe_impls@),
                file == s0.filepath@,
                sk == s0.sinks@,
                uns == (s0.scope_unsafe > 0),
                l0 == s0.scope_assign_lhs,
                effs_view(s0.data.effects@) + emit_members(imp.items@, file, sk, uns, l0)
                    == effs_view(self.data.effects@) + emit_members(
                    imp.items@.skip(i as int),
                    file,
                    sk,
                    uns,
                    self.scope_assign_lhs,
                ),
                lhs_step(has_assign_members(imp.items@), l0) == lhs_step(
                    has_assign_members(imp.items@.skip(i as int)),
                    self.scope_assign_lhs,
                ),
            decreases n - i,
        {
            let ghost rem = imp.items@.skip(i as int);
            let ghost cur = self.scope_assign_lhs;
            proof {
                assert(rem[0] == imp.items@[i as int]);
                assert(rem.drop_first() =~= imp.items@.skip(i + 1));
            }
            let ghost prev = *self;
            match &imp.items[i] {
                ImplMember::Method(m) => {
                    self.scan_method(m);
                }
                ImplMember::MacroMember { span } => {
                    self.note_macro(*span);
                }
                ImplMember::VerbatimMember { .. } => {}
                ImplMember::OtherMember { span } => {
                    self.note_other_skip(*span);
                }
            }
            proof {
                lemma_preserves_trans(s0, prev, *self);
                let hd = match imp.items@[i as int] {
                    ImplMember::Method(m) => emit_fn_item(m, file, sk, uns, cur),
                    _ => Seq::<EffV>::empty(),
                };
                let lh = match imp.items@[i as int] {
                    ImplMember::Method(m) => has_assign_fn_item(m),
                    _ => false,
                };
                assert(emit_members(rem, file, sk, uns, cur) == hd + emit_members(
                    imp.items@.skip(i + 1),
                    file,
                    sk,
                    uns,
                    lhs_step(lh, cur),
                ));
                assert(effs_view(self.data.effects@) + emit_members(
                    imp.items@.skip(i + 1),
                    file,
                    sk,
                    uns,
                    self.scope_assign_lhs,
                ) =~= effs_view(prev.data.effects@) + emit_members(rem, file, sk, uns, cur));
            }
            i = i + 1;
        }
        proof {
            assert(imp.items@.skip(n as int).len() == 0);
            assert(emit_members(imp.items@.skip(n as int), file, sk, uns, self.scope_assign_lhs)
                =~= Seq::<EffV>::empty());
            assert(!has_assign_members(imp.items@.skip(n as int)));
            assert(effs_view(self.data.effects@) =~= effs_view(s0.data.effects@) + emit_impl(
                *imp,
                file,
                sk,
                uns,
                l0,
            ));
            if imp.is_unsafe && imp.trait_path is Some {
                let n0 = s0.data.unsafe_impls@.len() as int;
                assert(s1.data.unsafe_impls@[n0].trait_name == imp.trait_path->0);
                assert(self.data.unsafe_impls@[n0] == s1.data.unsafe_impls@[n0]);
            }
        }
    }

    /// A foreign (extern) module: its whole body is an unsafe scope; its    /// A foreign (extern) module: its whole body is an unsafe scope; its
    /// functions are the resolver's business, the rest is counted.
    fn scan_foreign_mod(&mut self, fm: &ForeignMod)
        requires
            scanner_inv(*old(self)),
        ensures
            scanner_inv(*final(self)),
            scan_preserves(*old(self), *final(self)),
            final(self).scope_assign_lhs == old(self).scope_assign_lhs,
            final(self).data.effects == old(self).data.effects,
            spec_skip_attrs(fm.attrs@) ==> (only_skip_counters_differ(*old(self), *final(self))
                && final(self).data.skipped_conditional_code@ == spec_loc_add(
                old(self).data.skipped_conditional_code@,
                fm.span,
            )),
    {
        let ghost s0 = *self;
        proof {
            lemma_preserves_refl(s0);
        }
        if self.skip_attrs(&fm.attrs) {
            self.note_cond_skip(fm.span);
            return;
        }
        let bl = self.scope_effect_blocks.len();
        proof {
            lemma_ucount_le(self.scope_effect_blocks@);
            assert(self.scope_unsafe as int <= bl as int);
            assert(self.scope_unsafe < u128::MAX);
        }
        self.scope_unsafe = self.scope_unsafe + 1;
        let n = fm.items.len();
        let mut i: usize = 0;
        while i < n
            invariant
                i <= n,
                n == fm.items@.len(),
                self.filepath == s0.filepath,
                self.sinks == s0.sinks,
                self.scope_effect_blocks == s0.scope_effect_blocks,
                self.scope_fns == s0.scope_fns,
                self.scope_assign_lhs == s0.scope_assign_lhs,
                self.scope_unsafe == s0.scope_unsafe + 1,
                self.data.effects == s0.data.effects,
                self.data.effect_blocks == s0.data.effect_blocks,
                self.data.stray == s0.data.stray,
                self.data.node_idxs == s0.data.node_idxs,
                self.data.call_graph == s0.data.call_graph,
                self.data.edge_locs == s0.data.edge_locs,
                self.data.pub_fns == s0.data.pub_fns,
                self.data.fn_locs == s0.data.fn_locs,
                self.data.unsafe_traits == s0.data.unsafe_traits,
                self.data.unsafe_impls == s0.data.unsafe_impls,
                self.data.total_loc == s0.data.total_loc,
            decreases n - i,
        {
            match &fm.items[i] {
                ForeignItem::ForeignFn { .. } => {}
                ForeignItem::ForeignMacro { span } => {
                    self.data.skipped_macros.add(*span);
                }
                ForeignItem::ForeignOther { span } => {
                    self.data.skipped_other.add(*span);
                }
            }
            i = i + 1;
        }
        self.scope_unsafe = self.scope_unsafe - 1;
        proof {
            lemma_inv_data_extend(s0, *self);
            assert(scan_preserves(s0, *self));
        }
    }

    /// Scan one parsed source file: count its line span, then scan its
    /// items in order.  A balanced scanner comes back balanced, with
    /// consistent results.
    pub fn scan_file(&mut self, f: &SourceFile)
        requires
            scanner_inv(*old(self)),
            scanner_at_top(*old(self)),
        ensures
            scanner_inv(*final(self)),
            scanner_at_top(*final(self)),
            results_inv(final(self).data),
            final(self).filepath == old(self).filepath,
            final(self).sinks == old(self).sinks,
            final(self).data.total_loc@ == spec_loc_add(old(self).data.total_loc@, f.span),
            final(self).data.stray == old(self).data.stray,
            effs_view(final(self).data.effects@) == effs_view(old(self).data.effects@)
                + emit_items(
                f.items@,
                old(self).filepath@,
                old(self).sinks@,
                old(self).scope_unsafe > 0,
                old(self).scope_assign_lhs,
            ),
            final(self).scope_assign_lhs == lhs_step(
                has_assign_items(f.items@),
                old(self).scope_assign_lhs,
            ),
            seq_grows_to(old(self).data.effects@, final(self).data.effects@),
            seq_grows_to(old(self).data.effect_blocks@, final(self).data.effect_blocks@),
            seq_grows_to(old(self).data.unsafe_traits@, final(self).data.unsafe_traits@),
            seq_grows_to(old(self).data.unsafe_impls@, final(self).data.unsafe_impls@),
            seq_grows_to(
                graph_nodes(old(self).data.call_graph),
                graph_nodes(final(self).data.call_graph),
            ),
            seq_grows_to(
                graph_edges(old(self).data.call_graph),
                graph_edges(final(self).data.call_graph),
            ),
    {
        let ghost s0 = *self;
        self.data.total_loc.add(f.span);
        proof {
            lemma_inv_data_extend(s0, *self);
        }
        let ghost mid = *self;
        let ghost file = mid.filepath@;
        let ghost sk = mid.sinks@;
        let ghost uns = mid.scope_unsafe > 0;
        let ghost l0 = mid.scope_assign_lhs;
        proof {
            lemma_preserves_refl(mid);
            assert(f.items@.skip(0) =~= f.items@);
            assert(effs_view(mid.data.effects@) == effs_view(s0.data.effects@));
        }
        let n = f.items.len();
        let mut i: usize = 0;
        while i < n
            invariant
                i <= n,
                n == f.items@.len(),
                scanner_inv(*self),
                scan_preserves(mid, *self),
                file == mid.filepath@,
                sk == mid.sinks@,
                uns == (mid.scope_unsafe > 0),
                l0 == mid.scope_assign_lhs,
                effs_view(mid.data.effects@) + emit_items(f.items@, file, sk, uns, l0)
                    == effs_view(self.data.effects@) + emit_items(
                    f.items@.skip(i as int),
                    file,
                    sk,
                    uns,
                    self.scope_assign_lhs,
                ),
                lhs_step(has_assign_items(f.items@), l0) == lhs_step(
                    has_assign_items(f.items@.skip(i as int)),
                    self.scope_assign_lhs,
                ),
            decreases n - i,
        {
            let ghost rem = f.items@.skip(i as int);
            let ghost cur = self.scope_assign_lhs;
            proof {
                assert(rem[0] == f.items@[i as int]);
                assert(rem.drop_first() =~= f.items@.skip(i + 1));
            }
            let ghost prev = *self;
            self.scan_item(&f.items[i]);
            proof {
                lemma_preserves_trans(mid, prev, *self);
                assert(emit_items(rem, file, sk, uns, cur) == emit_item(
                    f.items@[i as int],
                    file,
                    sk,
                    uns,
                    cur,
                ) + emit_items(
                    f.items@.skip(i + 1),
                    file,
                    sk,
                    uns,
                    lhs_step(has_assign_item(f.items@[i as int]), cur),
                ));
                assert(effs_view(self.data.effects@) + emit_items(
                    f.items@.skip(i + 1),
                    file,
                    sk,
                    uns,
                    self.scope_assign_lhs,
                ) =~= effs_view(prev.data.effects@) + emit_items(rem, file, sk, uns, cur));
                assert(has_assign_items(rem) == (has_assign_item(f.items@[i as int])
                    || has_assign_items(f.items@.skip(i + 1))));
            }
            i = i + 1;
        }
        proof {
            assert(f.items@.skip(n as int).len() == 0);
            assert(emit_items(f.items@.skip(n as int), file, sk, uns, self.scope_assign_lhs)
                =~= Seq::<EffV>::empty());
            assert(!has_assign_items(f.items@.skip(n as int)));
            assert(effs_view(self.data.effects@) =~= effs_view(s0.data.effects@) + emit_items(
                f.items@,
                file,
                sk,
                uns,
                l0,
            ));
        }
        proof {
            assert(scanner_at_top(*self));
            lemma_top_level_results(*self);
        }
    }
}

/// Call-graph soundness: every edge of the results' call graph joins two
/// registered nodes, its weight indexes the call-site location list, and
/// a recorded call effect stands from its source's path to its target's
/// path, reported at the edge's own call-site location.
pub proof fn lemma_call_graph_soundness(r: ScanResults, k: int)
    requires
        results_inv(r),
        0 <= k < graph_edges(r.call_graph).len(),
    ensures
        0 <= graph_edges(r.call_graph)[k].0 < graph_nodes(r.call_graph).len(),
        0 <= graph_edges(r.call_graph)[k].1 < graph_nodes(r.call_graph).len(),
        graph_edges(r.call_graph)[k].2 == k,
        registered_in(r.node_idxs@, graph_nodes(r.call_graph)[graph_edges(r.call_graph)[k].0]),
        registered_in(r.node_idxs@, graph_nodes(r.call_graph)[graph_edges(r.call_graph)[k].1]),
        edge_witnessed(
            r.effects@,
            graph_nodes(r.call_graph)[graph_edges(r.call_graph)[k].0],
            graph_nodes(r.call_graph)[graph_edges(r.call_graph)[k].1],
            r.edge_locs@[k].file@,
            r.edge_locs@[k].span,
        ),
{
    let ed = graph_edges(r.call_graph)[k];
    assert((r.node_idxs@[ed.0]).0@ == graph_nodes(r.call_graph)[ed.0]);
    assert((r.node_idxs@[ed.1]).0@ == graph_nodes(r.call_graph)[ed.1]);
}

} // verus!
