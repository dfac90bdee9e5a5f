//! The effect model: source locations, function declarations, the effect
//! taxonomy, effect instances and effect blocks, and unsafe trait records.

use vstd::prelude::*;

use crate::ident::{CanonicalPath, IdentPath};

verus! {

/// A line/column span inside one source file.
#[derive(Debug, Clone, Copy, PartialEq, Eq, Structural)]
pub struct Span {
    pub start_line: usize,
    pub start_col: usize,
    pub end_line: usize,
    pub end_col: usize,
}

/// A span anchored to its source file.
#[derive(Debug)]
pub struct SrcLoc {
    pub file: String,
    pub span: Span,
}

impl SrcLoc {
    pub fn new(file: &str, span: Span) -> (r: Self)
        ensures
            r.file@ == file@,
            r.span == span,
    {
        SrcLoc { file: file.to_owned(), span }
    }
}

impl Clone for SrcLoc {
    fn clone(&self) -> (r: Self)
        ensures
            r == *self,
    {
        SrcLoc { file: self.file.clone(), span: self.span }
    }
}

/// Declaration visibility: only `Public` is distinguished.
#[derive(Debug, Clone, Copy, PartialEq, Eq, Structural)]
pub enum Visibility {
    Public,
    Other,
}

/// A function declaration: its signature location, canonical name and
/// visibility.  Lives on the scanner's function stack while the body is
/// scanned and is retained in the results.
#[derive(Debug)]
pub struct FnDec {
    pub src_loc: SrcLoc,
    pub fn_name: CanonicalPath,
    pub vis: Visibility,
}

impl FnDec {
    pub fn new(filepath: &str, sig_span: Span, fn_name: CanonicalPath, vis: Visibility) -> (r:
        Self)
        ensures
            r.src_loc.file@ == filepath@,
            r.src_loc.span == sig_span,
            r.fn_name == fn_name,
            r.vis == vis,
    {
        FnDec { src_loc: SrcLoc::new(filepath, sig_span), fn_name, vis }
    }
}

impl Clone for FnDec {
    fn clone(&self) -> (r: Self)
        ensures
            r == *self,
    {
        FnDec { src_loc: self.src_loc.clone(), fn_name: self.fn_name.clone(), vis: self.vis }
    }
}

/// The effect taxonomy: each security-relevant site the scanner reports.
#[derive(Debug)]
pub enum Effect {
    /// A call into a function, with its foreign-module identity when the
    /// callee is foreign, whether the call is an unsafe call made inside
    /// an unsafe scope, and the matched sink pattern, if any.
    Call { callee: CanonicalPath, ffi: Option<CanonicalPath>, is_unsafe: bool, sink_match: Option<
        IdentPath,
    > },
    /// A path expression resolving to a function or function-pointer type.
    FnPtrCreation { target: CanonicalPath },
    /// A reference to a mutable global.
    StaticMut { target: CanonicalPath },
    /// A reference to an externally-linked (foreign) static.
    StaticExt { target: CanonicalPath },
    /// A dereference of an identifier of raw-pointer type.
    RawPointer { target: CanonicalPath },
    /// A read access to a union field.
    UnionField { target: CanonicalPath },
    /// A closure literal, under its synthetic identity.
    ClosureCreation { target: CanonicalPath },
}

impl Clone for Effect {
    fn clone(&self) -> (r: Self)
        ensures
            r == *self,
    {
        match self {
            Effect::Call { callee, ffi, is_unsafe, sink_match } => Effect::Call {
                callee: callee.clone(),
                ffi: match ffi {
                    Some(p) => Some(p.clone()),
                    None => None,
                },
                is_unsafe: *is_unsafe,
                sink_match: match sink_match {
                    Some(p) => Some(p.clone()),
                    None => None,
                },
            },
            Effect::FnPtrCreation { target } => Effect::FnPtrCreation { target: target.clone() },
            Effect::StaticMut { target } => Effect::StaticMut { target: target.clone() },
            Effect::StaticExt { target } => Effect::StaticExt { target: target.clone() },
            Effect::RawPointer { target } => Effect::RawPointer { target: target.clone() },
            Effect::UnionField { target } => Effect::UnionField { target: target.clone() },
            Effect::ClosureCreation { target } => Effect::ClosureCreation {
                target: target.clone(),
            },
        }
    }
}

/// One reported effect: who performed it, on what, where, and its kind.
#[derive(Debug)]
pub struct EffectInstance {
    pub caller: CanonicalPath,
    pub callee: CanonicalPath,
    pub loc: SrcLoc,
    pub kind: Effect,
}

impl EffectInstance {
    pub fn new_effect(
        filepath: &str,
        caller: CanonicalPath,
        callee: CanonicalPath,
        span: Span,
        kind: Effect,
    ) -> (r: Self)
        ensures
            r.caller == caller,
            r.callee == callee,
            r.loc.file@ == filepath@,
            r.loc.span == span,
            r.kind == kind,
    {
        EffectInstance { caller, callee, loc: SrcLoc::new(filepath, span), kind }
    }

    /// A call effect, with its sink match computed from the given list.
    pub fn new_call(
        filepath: &str,
        caller: CanonicalPath,
        callee: CanonicalPath,
        span: Span,
        is_unsafe: bool,
        ffi: Option<CanonicalPath>,
        sinks: &Vec<IdentPath>,
    ) -> (r: Self)
        ensures
            r.caller == caller,
            r.callee == callee,
            r.loc.file@ == filepath@,
            r.loc.span == span,
            r.kind matches Effect::Call { callee: c, ffi: f, is_unsafe: u, sink_match: s }
                && c == callee && f == ffi && u == is_unsafe && s == crate::sink::first_sink_match(
                sinks@,
                callee@,
            ),
    {
        let sink_match = crate::sink::find_sink_match(sinks, &callee);
        let kind = Effect::Call { callee: callee.clone(), ffi, is_unsafe, sink_match };
        EffectInstance { caller, callee, loc: SrcLoc::new(filepath, span), kind }
    }

    pub fn caller(&self) -> (r: &CanonicalPath)
        ensures
            r == self.caller,
    {
        &self.caller
    }

    pub fn callee(&self) -> (r: &CanonicalPath)
        ensures
            r == self.callee,
    {
        &self.callee
    }

    pub fn loc(&self) -> (r: &SrcLoc)
        ensures
            r == self.loc,
    {
        &self.loc
    }

    pub fn kind(&self) -> (r: &Effect)
        ensures
            r == self.kind,
    {
        &self.kind
    }
}

impl Clone for EffectInstance {
    fn clone(&self) -> (r: Self)
        ensures
            r == *self,
    {
        EffectInstance {
            caller: self.caller.clone(),
            callee: self.callee.clone(),
            loc: self.loc.clone(),
            kind: self.kind.clone(),
        }
    }
}

/// The syntactic grouping an effect is reported under.
#[derive(Debug, Clone, Copy, PartialEq, Eq, Structural)]
pub enum BlockType {
    UnsafeExpr,
    UnsafeFn,
    NormalFn,
}

/// A group of effects: an unsafe expression, an unsafe function, or a
/// normal function, with the function declaration it sits in.
#[derive(Debug)]
pub struct EffectBlock {
    pub block_type: BlockType,
    pub src_loc: SrcLoc,
    pub containing_fn: FnDec,
    pub effects: Vec<EffectInstance>,
}

impl EffectBlock {
    pub fn new_fn(filepath: &str, body_span: Span, containing_fn: FnDec) -> (r: Self)
        ensures
            r.block_type == BlockType::NormalFn,
            r.src_loc.file@ == filepath@,
            r.src_loc.span == body_span,
            r.containing_fn == containing_fn,
            r.effects@ =~= Seq::<EffectInstance>::empty(),
    {
        EffectBlock {
            block_type: BlockType::NormalFn,
            src_loc: SrcLoc::new(filepath, body_span),
            containing_fn,
            effects: Vec::new(),
        }
    }

    pub fn new_unsafe_fn(filepath: &str, body_span: Span, containing_fn: FnDec) -> (r: Self)
        ensures
            r.block_type == BlockType::UnsafeFn,
            r.src_loc.file@ == filepath@,
            r.src_loc.span == body_span,
            r.containing_fn == containing_fn,
            r.effects@ =~= Seq::<EffectInstance>::empty(),
    {
        EffectBlock {
            block_type: BlockType::UnsafeFn,
            src_loc: SrcLoc::new(filepath, body_span),
            containing_fn,
            effects: Vec::new(),
        }
    }

    pub fn new_unsafe_expr(filepath: &str, block_span: Span, containing_fn: FnDec) -> (r: Self)
        ensures
            r.block_type == BlockType::UnsafeExpr,
            r.src_loc.file@ == filepath@,
            r.src_loc.span == block_span,
            r.containing_fn == containing_fn,
            r.effects@ =~= Seq::<EffectInstance>::empty(),
    {
        EffectBlock {
            block_type: BlockType::UnsafeExpr,
            src_loc: SrcLoc::new(filepath, block_span),
            containing_fn,
            effects: Vec::new(),
        }
    }

    pub fn push_effect(&mut self, e: EffectInstance)
        ensures
            final(self).block_type == old(self).block_type,
            final(self).src_loc == old(self).src_loc,
            final(self).containing_fn == old(self).containing_fn,
            final(self).effects@ == old(self).effects@.push(e),
    {
        self.effects.push(e);
    }

    pub fn block_type(&self) -> (r: &BlockType)
        ensures
            r == self.block_type,
    {
        &self.block_type
    }

    pub fn effects(&self) -> (r: &Vec<EffectInstance>)
        ensures
            r == self.effects,
    {
        &self.effects
    }

    pub fn containing_fn(&self) -> (r: &FnDec)
        ensures
            r == self.containing_fn,
    {
        &self.containing_fn
    }
}

impl Clone for EffectBlock {
    fn clone(&self) -> (r: Self)
        ensures
            r.block_type == self.block_type,
            r.src_loc == self.src_loc,
            r.containing_fn == self.containing_fn,
            r.effects@ == self.effects@,
    {
        let mut effects: Vec<EffectInstance> = Vec::new();
        let n = self.effects.len();
        let mut i: usize = 0;
        while i < n
            invariant
                i <= n,
                n == self.effects@.len(),
                effects@.len() == i as int,
                forall|j: int| 0 <= j < i ==> effects@[j] == self.effects@[j],
            decreases n - i,
        {
            effects.push(self.effects[i].clone());
            i = i + 1;
        }
        let r = EffectBlock {
            block_type: self.block_type,
            src_loc: self.src_loc.clone(),
            containing_fn: self.containing_fn.clone(),
            effects,
        };
        proof {
            assert(r.effects@ =~= self.effects@);
        }
        r
    }
}

/// An `unsafe trait` declaration.
#[derive(Debug)]
pub struct TraitDec {
    pub src_loc: SrcLoc,
    pub trait_name: CanonicalPath,
}

impl TraitDec {
    pub fn new(filepath: &str, span: Span, trait_name: CanonicalPath) -> (r: Self)
        ensures
            r.src_loc.file@ == filepath@,
            r.src_loc.span == span,
            r.trait_name == trait_name,
    {
        TraitDec { src_loc: SrcLoc::new(filepath, span), trait_name }
    }
}

/// An `unsafe impl` of a trait, with the implementing type when it is known.
#[derive(Debug)]
pub struct TraitImpl {
    pub src_loc: SrcLoc,
    pub trait_name: CanonicalPath,
    pub self_type: Option<CanonicalPath>,
}

impl TraitImpl {
    pub fn new(filepath: &str, span: Span, trait_name: CanonicalPath, self_type: Option<
        CanonicalPath,
    >) -> (r: Self)
        ensures
            r.src_loc.file@ == filepath@,
            r.src_loc.span == span,
            r.trait_name == trait_name,
            r.self_type == self_type,
    {
        TraitImpl { src_loc: SrcLoc::new(filepath, span), trait_name, self_type }
    }
}

} // verus!
