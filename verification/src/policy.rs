//! The audit policy language: `allow` / `require` / `trust` statements,
//! the per-caller lookup index built from them, and the graph-edge
//! admissibility check.

use vstd::prelude::*;
use vstd::string::StringExecFns;

use crate::ident::{FnCall, FnCallV, IdentPath};

verus! {

/// The mathematical content of a policy statement.
pub enum StatementV {
    Allow { region: FnCallV, effect: FnCallV },
    Require { region: FnCallV, effect: FnCallV },
    Trust { region: FnCallV },
}

/// A single audit-policy statement.
///
/// `Allow` permits an effect inside a region; `Require` additionally
/// demands that every caller reaching the region carries the effect on
/// its own allow list; `Trust` is parsed and stored but reserved: the
/// lookup index does not accept it.
#[derive(Debug)]
pub enum Statement {
    Allow { region: FnCall, effect: FnCall },
    Require { region: FnCall, effect: FnCall },
    Trust { region: FnCall },
}

impl View for Statement {
    type V = StatementV;

    open spec fn view(&self) -> StatementV {
        match self {
            Statement::Allow { region, effect } => StatementV::Allow {
                region: region@,
                effect: effect@,
            },
            Statement::Require { region, effect } => StatementV::Require {
                region: region@,
                effect: effect@,
            },
            Statement::Trust { region } => StatementV::Trust { region: region@ },
        }
    }
}

impl Statement {
    /// `allow` with wildcard argument patterns on both sides.
    pub fn allow_simple(path: &str, effect: &str) -> (r: Self)
        ensures
            r@ == (StatementV::Allow {
                region: FnCallV { path: path@, args: Seq::<char>::empty() },
                effect: FnCallV { path: effect@, args: Seq::<char>::empty() },
            }),
    {
        let region = FnCall::new_all(path);
        let effect = FnCall::new_all(effect);
        proof {
            assert(region@.args =~= Seq::<char>::empty());
            assert(effect@.args =~= Seq::<char>::empty());
        }
        Statement::Allow { region, effect }
    }

    /// `require` with wildcard argument patterns on both sides.
    pub fn require_simple(path: &str, effect: &str) -> (r: Self)
        ensures
            r@ == (StatementV::Require {
                region: FnCallV { path: path@, args: Seq::<char>::empty() },
                effect: FnCallV { path: effect@, args: Seq::<char>::empty() },
            }),
    {
        let region = FnCall::new_all(path);
        let effect = FnCall::new_all(effect);
        proof {
            assert(region@.args =~= Seq::<char>::empty());
            assert(effect@.args =~= Seq::<char>::empty());
        }
        Statement::Require { region, effect }
    }

    /// `allow` for a region with an argument pattern.
    pub fn allow(path: &str, args: &str, effect: FnCall) -> (r: Self)
        ensures
            r@ == (StatementV::Allow {
                region: FnCallV { path: path@, args: args@ },
                effect: effect@,
            }),
    {
        let region = FnCall::new(path, args);
        Statement::Allow { region, effect }
    }

    /// `require` for a region with an argument pattern.
    pub fn require(path: &str, args: &str, effect: FnCall) -> (r: Self)
        ensures
            r@ == (StatementV::Require {
                region: FnCallV { path: path@, args: args@ },
                effect: effect@,
            }),
    {
        let region = FnCall::new(path, args);
        Statement::Require { region, effect }
    }

    /// `trust` of a whole region.
    pub fn trust(path: &str) -> (r: Self)
        ensures
            r@ == (StatementV::Trust {
                region: FnCallV { path: path@, args: Seq::<char>::empty() },
            }),
    {
        let region = FnCall::new_all(path);
        proof {
            assert(region@.args =~= Seq::<char>::empty());
        }
        Statement::Trust { region }
    }
}

impl Clone for Statement {
    fn clone(&self) -> (r: Self)
        ensures
            r == *self,
    {
        match self {
            Statement::Allow { region, effect } => Statement::Allow {
                region: region.clone(),
                effect: effect.clone(),
            },
            Statement::Require { region, effect } => Statement::Require {
                region: region.clone(),
                effect: effect.clone(),
            },
            Statement::Trust { region } => Statement::Trust { region: region.clone() },
        }
    }
}

impl PartialEq for Statement {
    fn eq(&self, other: &Statement) -> (r: bool) {
        match (self, other) {
            (
                Statement::Allow { region: r1, effect: e1 },
                Statement::Allow { region: r2, effect: e2 },
            ) => r1 == r2 && e1 == e2,
            (
                Statement::Require { region: r1, effect: e1 },
                Statement::Require { region: r2, effect: e2 },
            ) => r1 == r2 && e1 == e2,
            (Statement::Trust { region: r1 }, Statement::Trust { region: r2 }) => r1 == r2,
            _ => false,
        }
    }
}

impl vstd::std_specs::cmp::PartialEqSpecImpl for Statement {
    open spec fn obeys_eq_spec() -> bool {
        true
    }

    open spec fn eq_spec(&self, other: &Statement) -> bool {
        self@ == other@
    }
}

/// The mathematical content of a policy.
pub struct PolicyV {
    pub crate_name: Seq<char>,
    pub crate_version: Seq<char>,
    pub policy_version: Seq<char>,
    pub statements: Seq<StatementV>,
}

/// An audit policy: identifying header plus an ordered list of statements.
#[derive(Debug)]
pub struct Policy {
    crate_name: String,
    crate_version: String,
    policy_version: String,
    statements: Vec<Statement>,
}

impl View for Policy {
    type V = PolicyV;

    closed spec fn view(&self) -> PolicyV {
        PolicyV {
            crate_name: self.crate_name@,
            crate_version: self.crate_version@,
            policy_version: self.policy_version@,
            statements: self.statements@.map_values(|s: Statement| s@),
        }
    }
}

impl Policy {
    /// An empty policy for the named crate version.
    pub fn new(crate_name: &str, crate_version: &str, policy_version: &str) -> (r: Self)
        ensures
            r@.crate_name == crate_name@,
            r@.crate_version == crate_version@,
            r@.policy_version == policy_version@,
            r@.statements.len() == 0,
    {
        let r = Policy {
            crate_name: crate_name.to_owned(),
            crate_version: crate_version.to_owned(),
            policy_version: policy_version.to_owned(),
            statements: Vec::new(),
        };
        proof {
            assert(r@.statements =~= Seq::<StatementV>::empty());
        }
        r
    }

    pub fn crate_name(&self) -> (r: &str)
        ensures
            r@ == self@.crate_name,
    {
        self.crate_name.as_str()
    }

    pub fn crate_version(&self) -> (r: &str)
        ensures
            r@ == self@.crate_version,
    {
        self.crate_version.as_str()
    }

    pub fn policy_version(&self) -> (r: &str)
        ensures
            r@ == self@.policy_version,
    {
        self.policy_version.as_str()
    }

    pub fn statements(&self) -> (r: &Vec<Statement>)
        ensures
            r@.map_values(|s: Statement| s@) == self@.statements,
    {
        &self.statements
    }

    /// Append a statement to the policy.
    pub fn add_statement(&mut self, s: Statement)
        ensures
            final(self)@.crate_name == old(self)@.crate_name,
            final(self)@.crate_version == old(self)@.crate_version,
            final(self)@.policy_version == old(self)@.policy_version,
            final(self)@.statements == old(self)@.statements.push(s@),
    {
        let ghost sv = s@;
        self.statements.push(s);
        proof {
            assert(final(self)@.statements =~= old(self)@.statements.push(sv));
        }
    }

    pub fn allow_simple(&mut self, path: &str, effect: &str)
        ensures
            final(self)@.crate_name == old(self)@.crate_name,
            final(self)@.crate_version == old(self)@.crate_version,
            final(self)@.policy_version == old(self)@.policy_version,
            final(self)@.statements == old(self)@.statements.push(
                StatementV::Allow {
                    region: FnCallV { path: path@, args: Seq::<char>::empty() },
                    effect: FnCallV { path: effect@, args: Seq::<char>::empty() },
                },
            ),
    {
        self.add_statement(Statement::allow_simple(path, effect));
    }

    pub fn require_simple(&mut self, path: &str, effect: &str)
        ensures
            final(self)@.crate_name == old(self)@.crate_name,
            final(self)@.crate_version == old(self)@.crate_version,
            final(self)@.policy_version == old(self)@.policy_version,
            final(self)@.statements == old(self)@.statements.push(
                StatementV::Require {
                    region: FnCallV { path: path@, args: Seq::<char>::empty() },
                    effect: FnCallV { path: effect@, args: Seq::<char>::empty() },
                },
            ),
    {
        self.add_statement(Statement::require_simple(path, effect));
    }

    pub fn allow(&mut self, path: &str, args: &str, eff: FnCall)
        ensures
            final(self)@.crate_name == old(self)@.crate_name,
            final(self)@.crate_version == old(self)@.crate_version,
            final(self)@.policy_version == old(self)@.policy_version,
            final(self)@.statements == old(self)@.statements.push(
                StatementV::Allow {
                    region: FnCallV { path: path@, args: args@ },
                    effect: eff@,
                },
            ),
    {
        self.add_statement(Statement::allow(path, args, eff));
    }

    pub fn require(&mut self, path: &str, args: &str, eff: FnCall)
        ensures
            final(self)@.crate_name == old(self)@.crate_name,
            final(self)@.crate_version == old(self)@.crate_version,
            final(self)@.policy_version == old(self)@.policy_version,
            final(self)@.statements == old(self)@.statements.push(
                StatementV::Require {
                    region: FnCallV { path: path@, args: args@ },
                    effect: eff@,
                },
            ),
    {
        self.add_statement(Statement::require(path, args, eff));
    }

    pub fn trust(&mut self, path: &str)
        ensures
            final(self)@.crate_name == old(self)@.crate_name,
            final(self)@.crate_version == old(self)@.crate_version,
            final(self)@.policy_version == old(self)@.policy_version,
            final(self)@.statements == old(self)@.statements.push(
                StatementV::Trust {
                    region: FnCallV { path: path@, args: Seq::<char>::empty() },
                },
            ),
    {
        self.add_statement(Statement::trust(path));
    }
}

impl Clone for Policy {
    fn clone(&self) -> (r: Self)
        ensures
            r@ == self@,
    {
        let mut statements: Vec<Statement> = Vec::new();
        let mut i: usize = 0;
        while i < self.statements.len()
            invariant
                i <= self.statements.len(),
                statements@.len() == i as int,
                forall|j: int| 0 <= j < i ==> statements@[j] == self.statements@[j],
            decreases self.statements.len() - i,
        {
            statements.push(self.statements[i].clone());
            i = i + 1;
        }
        let r = Policy {
            crate_name: self.crate_name.clone(),
            crate_version: self.crate_version.clone(),
            policy_version: self.policy_version.clone(),
            statements,
        };
        proof {
            assert(r@.statements =~= self@.statements);
        }
        r
    }
}

impl PartialEq for Policy {
    fn eq(&self, other: &Policy) -> (r: bool) {
        if !(self.crate_name == other.crate_name && self.crate_version == other.crate_version
            && self.policy_version == other.policy_version) {
            return false;
        }
        if self.statements.len() != other.statements.len() {
            proof {
                assert(self@.statements.len() != other@.statements.len());
            }
            return false;
        }
        let mut i: usize = 0;
        while i < self.statements.len()
            invariant
                i <= self.statements.len(),
                self.statements@.len() == other.statements@.len(),
                self.crate_name@ == other.crate_name@,
                self.crate_version@ == other.crate_version@,
                self.policy_version@ == other.policy_version@,
                forall|j: int| 0 <= j < i ==> self.statements@[j]@ == other.statements@[j]@,
            decreases self.statements.len() - i,
        {
            if !(self.statements[i] == other.statements[i]) {
                proof {
                    assert(self@.statements[i as int] != other@.statements[i as int]);
                }
                return false;
            }
            i = i + 1;
        }
        proof {
            assert(self@.statements =~= other@.statements);
        }
        true
    }
}

impl vstd::std_specs::cmp::PartialEqSpecImpl for Policy {
    open spec fn obeys_eq_spec() -> bool {
        true
    }

    open spec fn eq_spec(&self, other: &Policy) -> bool {
        self@ == other@
    }
}

/// The mathematical content of the lookup index: per-caller allow and
/// require sets, keyed by the caller's path.
pub struct LookupV {
    pub allow: Map<Seq<char>, Set<Seq<char>>>,
    pub require: Map<Seq<char>, Set<Seq<char>>>,
}

/// Insert `v` into the set at key `k`, creating the set if absent.
pub open spec fn add_to(
    m: Map<Seq<char>, Set<Seq<char>>>,
    k: Seq<char>,
    v: Seq<char>,
) -> Map<Seq<char>, Set<Seq<char>>> {
    m.insert(
        k,
        if m.contains_key(k) {
            m[k].insert(v)
        } else {
            Set::<Seq<char>>::empty().insert(v)
        },
    )
}

pub open spec fn empty_lookup() -> LookupV {
    LookupV { allow: Map::empty(), require: Map::empty() }
}

/// The effect of one statement on the index: an `Allow` feeds the allow
/// set of its region; a `Require` feeds both the require set and the
/// allow set (a requirement implies an allowance for the region itself).
pub open spec fn apply_statement(lv: LookupV, s: StatementV) -> LookupV {
    match s {
        StatementV::Allow { region, effect } => LookupV {
            allow: add_to(lv.allow, region.path, effect.path),
            require: lv.require,
        },
        StatementV::Require { region, effect } => LookupV {
            allow: add_to(lv.allow, region.path, effect.path),
            require: add_to(lv.require, region.path, effect.path),
        },
        StatementV::Trust { region } => lv,
    }
}

/// The index obtained by streaming the statements in order.
pub open spec fn build_lookup(stmts: Seq<StatementV>) -> LookupV
    decreases stmts.len(),
{
    if stmts.len() == 0 {
        empty_lookup()
    } else {
        apply_statement(build_lookup(stmts.drop_last()), stmts.last())
    }
}

pub open spec fn is_trust(s: StatementV) -> bool {
    s matches StatementV::Trust { .. }
}

pub open spec fn no_trust(stmts: Seq<StatementV>) -> bool {
    forall|i: int| 0 <= i < stmts.len() ==> !is_trust(#[trigger] stmts[i])
}

/// Admissibility of the call-graph edge `caller -> callee`: every
/// requirement on the callee is on the caller's allow list.
pub open spec fn edge_ok(lv: LookupV, caller: Seq<char>, callee: Seq<char>) -> bool {
    forall|req: Seq<char>|
        lv.require.contains_key(callee) && #[trigger] lv.require[callee].contains(req)
            ==> lv.allow.contains_key(caller) && lv.allow[caller].contains(req)
}

/// The set of views of the paths in a list.
pub open spec fn vset(l: Seq<IdentPath>) -> Set<Seq<char>> {
    l.map_values(|p: IdentPath| p@).to_set()
}

/// A vector-backed map from a path to a set of paths, with unique keys
/// and duplicate-free value lists.
#[derive(Debug)]
struct PathSetMap {
    entries: Vec<(IdentPath, Vec<IdentPath>)>,
}

impl PathSetMap {
    spec fn has_key(&self, k: Seq<char>) -> bool {
        exists|i: int| 0 <= i < self.entries@.len() && (#[trigger] self.entries@[i]).0@ == k
    }

    spec fn key_index(&self, k: Seq<char>) -> int {
        choose|i: int| 0 <= i < self.entries@.len() && (#[trigger] self.entries@[i]).0@ == k
    }

    spec fn wf(&self) -> bool {
        &&& forall|i: int, j: int|
            0 <= i < j < self.entries@.len() ==> (#[trigger] self.entries@[i]).0@ != (
            #[trigger] self.entries@[j]).0@
        &&& forall|i: int, a: int, b: int|
            0 <= i < self.entries@.len() && 0 <= a < b < self.entries@[i].1@.len()
                ==> (#[trigger] self.entries@[i].1@[a])@ != (#[trigger] self.entries@[i].1@[b])@
    }

    spec fn view_map(&self) -> Map<Seq<char>, Set<Seq<char>>> {
        Map::new(
            |k: Seq<char>| self.has_key(k),
            |k: Seq<char>| vset(self.entries@[self.key_index(k)].1@),
        )
    }

    fn new() -> (r: Self)
        ensures
            r.wf(),
            r.view_map() =~= Map::<Seq<char>, Set<Seq<char>>>::empty(),
    {
        PathSetMap { entries: Vec::new() }
    }

    /// Index of the entry holding key `k`, if one does.
    fn find(&self, k: &IdentPath) -> (r: Option<usize>)
        requires
            self.wf(),
        ensures
            match r {
                Some(i) => i < self.entries@.len() && self.entries@[i as int].0@ == k@
                    && self.has_key(k@) && self.key_index(k@) == i as int,
                None => !self.has_key(k@),
            },
    {
        let n = self.entries.len();
        let mut i: usize = 0;
        while i < n
            invariant
                i <= n,
                n == self.entries@.len(),
                self.wf(),
                forall|j: int| 0 <= j < i ==> (#[trigger] self.entries@[j]).0@ != k@,
            decreases n - i,
        {
            if self.entries[i].0 == *k {
                return Some(i);
            }
            i = i + 1;
        }
        None
    }

    /// Add `v` to the set stored at `k`, creating the entry if needed.
    fn add_val(&mut self, k: &IdentPath, v: &IdentPath)
        requires
            old(self).wf(),
        ensures
            final(self).wf(),
            final(self).view_map() == add_to(old(self).view_map(), k@, v@),
    {
        let ghost s0 = self.entries@;
        let ghost m0 = self.view_map();
        let found = self.find(k);
        match found {
            Some(i) => {
                let ghost l0 = self.entries@[i as int].1@;
                if !contains_path(&self.entries[i].1, v) {
                    self.entries[i].1.push(v.clone());
                    proof {
                        let s1 = self.entries@;
                        assert(s1.len() == s0.len());
                        assert(s1[i as int].1@ =~= l0.push(*v));
                        assert forall|j: int| 0 <= j < s1.len() implies (#[trigger] s1[j]).0
                            == s0[j].0 by {}
                        assert forall|a: int| 0 <= a < l0.len() implies (#[trigger] l0[a])@
                            != v@ by {
                            if l0[a]@ == v@ {
                                assert(l0.map_values(|p: IdentPath| p@)[a] == v@);
                                assert(vset(l0).contains(v@));
                            }
                        }
                        assert forall|a: int, b: int|
                            0 <= a < b < s1[i as int].1@.len() implies (
                        #[trigger] s1[i as int].1@[a])@ != (#[trigger] s1[i as int].1@[b])@ by {
                            assert(old(self).wf());
                            if b < l0.len() {
                                assert(s1[i as int].1@[a] == s0[i as int].1@[a]);
                                assert(s1[i as int].1@[b] == s0[i as int].1@[b]);
                            } else {
                                assert(s1[i as int].1@[b] == *v);
                                assert(s1[i as int].1@[a] == l0[a]);
                            }
                        }
                        assert(self.wf());
                        lemma_vset_push(l0, *v);
                        self.lemma_same_keys_view(*old(self), k@, v@, i as int);
                    }
                } else {
                    proof {
                        assert(vset(l0).contains(v@));
                        assert(m0.contains_key(k@));
                        assert(m0[k@] == vset(l0));
                        assert(m0[k@].insert(v@) =~= m0[k@]);
                        assert(add_to(m0, k@, v@) =~~= m0);
                    }
                }
            }
            None => {
                let mut l: Vec<IdentPath> = Vec::new();
                l.push(v.clone());
                self.entries.push((k.clone(), l));
                proof {
                    let s1 = self.entries@;
                    let n = s0.len() as int;
                    assert(s1 =~= s0.push((*k, s1[n].1)));
                    assert(s1[n].0@ == k@);
                    assert(s1[n].1@ =~= seq![*v]);
                    assert forall|i2: int, j2: int|
                        0 <= i2 < j2 < s1.len() implies (#[trigger] s1[i2]).0@ != (
                    #[trigger] s1[j2]).0@ by {
                        if j2 < n {
                        } else {
                            assert(s1[j2].0@ == k@);
                            assert(!old(self).has_key(k@));
                        }
                    }
                    assert(self.wf());
                    lemma_vset_singleton(*v);
                    let m1 = self.view_map();
                    let tgt = add_to(m0, k@, v@);
                    assert forall|kk: Seq<char>| #[trigger] m1.contains_key(kk)
                        <==> tgt.contains_key(kk) by {
                        if kk == k@ {
                            assert(s1[n].0@ == kk);
                            assert(self.has_key(kk));
                        } else {
                            if self.has_key(kk) {
                                let ki = self.key_index(kk);
                                assert(s1[ki].0@ == kk);
                                assert(ki < n);
                                assert(s0[ki].0@ == kk);
                                assert(old(self).has_key(kk));
                            }
                            if old(self).has_key(kk) {
                                let ki = old(self).key_index(kk);
                                assert(s0[ki].0@ == kk);
                                assert(s1[ki].0@ == kk);
                                assert(self.has_key(kk));
                            }
                        }
                    }
                    assert forall|kk: Seq<char>| m1.contains_key(kk) implies m1[kk]
                        =~= tgt[kk] by {
                        let ki = self.key_index(kk);
                        assert(0 <= ki < s1.len() && s1[ki].0@ == kk);
                        if kk == k@ {
                            assert(ki == n) by {
                                if ki < n {
                                    assert(s0[ki].0@ == kk);
                                    assert(old(self).has_key(kk));
                                }
                            }
                            assert(m1[kk] == vset(s1[n].1@));
                            assert(vset(s1[n].1@) =~= Set::<Seq<char>>::empty().insert(v@));
                        } else {
                            assert(ki < n);
                            assert(old(self).has_key(kk));
                            let k0 = old(self).key_index(kk);
                            assert(0 <= k0 < n && s0[k0].0@ == kk);
                            assert(k0 == ki);
                            assert(m1[kk] == vset(s1[ki].1@));
                            assert(s1[ki].1 == s0[ki].1);
                        }
                    }
                    assert(m1 =~~= tgt);
                }
            }
        }
    }

    /// After an in-place update of the value list at entry `i` of `k`,
    /// with the keys untouched, the view is the pointwise update.
    proof fn lemma_same_keys_view(&self, prev: Self, k: Seq<char>, v: Seq<char>, i: int)
        requires
            self.wf(),
            prev.wf(),
            self.entries@.len() == prev.entries@.len(),
            forall|j: int|
                0 <= j < self.entries@.len() ==> (#[trigger] self.entries@[j]).0 == prev.entries@[j].0,
            forall|j: int|
                0 <= j < self.entries@.len() && j != i ==> (#[trigger] self.entries@[j]).1
                    == prev.entries@[j].1,
            0 <= i < self.entries@.len(),
            self.entries@[i].0@ == k,
            vset(self.entries@[i].1@) =~= vset(prev.entries@[i].1@).insert(v),
        ensures
            self.view_map() == add_to(prev.view_map(), k, v),
    {
        let m0 = prev.view_map();
        let m1 = self.view_map();
        let tgt = add_to(m0, k, v);
        assert(prev.has_key(k)) by {
            assert(prev.entries@[i].0@ == k);
        }
        assert(prev.key_index(k) == i) by {
            let ki = prev.key_index(k);
            assert(0 <= ki < prev.entries@.len() && prev.entries@[ki].0@ == k);
        }
        assert forall|kk: Seq<char>| #[trigger] m1.contains_key(kk) <==> tgt.contains_key(
            kk,
        ) by {
            if self.has_key(kk) {
                let ki = self.key_index(kk);
                assert(prev.entries@[ki].0@ == kk);
                assert(prev.has_key(kk));
            }
            if prev.has_key(kk) {
                let ki = prev.key_index(kk);
                assert(self.entries@[ki].0@ == kk);
                assert(self.has_key(kk));
            }
        }
        assert forall|kk: Seq<char>| m1.contains_key(kk) implies m1[kk] =~= tgt[kk] by {
            let ki = self.key_index(kk);
            assert(0 <= ki < self.entries@.len() && self.entries@[ki].0@ == kk);
            let k0 = prev.key_index(kk);
            assert(prev.entries@[k0].0@ == kk);
            assert(self.entries@[k0].0@ == kk);
            assert(k0 == ki);
            if kk == k {
                assert(ki == i);
                assert(m1[kk] == vset(self.entries@[i].1@));
                assert(m0[kk] == vset(prev.entries@[i].1@));
            } else {
                assert(ki != i) by {
                    assert(self.entries@[i].0@ == k);
                }
                assert(self.entries@[ki].1 == prev.entries@[ki].1);
            }
        }
        assert(m1 =~~= tgt);
    }

    /// The value list stored at `k`, if one is.
    fn get_list(&self, k: &IdentPath) -> (r: Option<&Vec<IdentPath>>)
        requires
            self.wf(),
        ensures
            match r {
                Some(l) => self.has_key(k@) && l@ == self.entries@[self.key_index(k@)].1@
                    && self.view_map().contains_key(k@) && self.view_map()[k@] == vset(l@),
                None => !self.has_key(k@) && !self.view_map().contains_key(k@),
            },
    {
        let found = self.find(k);
        match found {
            Some(i) => Some(&self.entries[i].1),
            None => None,
        }
    }
}

/// True when some element of the list has the view of `v`.
fn contains_path(l: &Vec<IdentPath>, v: &IdentPath) -> (r: bool)
    ensures
        r == vset(l@).contains(v@),
{
    let n = l.len();
    let mut i: usize = 0;
    while i < n
        invariant
            i <= n,
            n == l@.len(),
            forall|j: int| 0 <= j < i ==> (#[trigger] l@[j])@ != v@,
        decreases n - i,
    {
        if l[i] == *v {
            proof {
                assert(l@.map_values(|p: IdentPath| p@)[i as int] == v@);
                assert(vset(l@).contains(v@));
            }
            return true;
        }
        i = i + 1;
    }
    proof {
        let mapped = l@.map_values(|p: IdentPath| p@);
        assert forall|j: int| 0 <= j < mapped.len() implies #[trigger] mapped[j] != v@ by {
            assert(mapped[j] == l@[j]@);
        }
        assert(!vset(l@).contains(v@));
    }
    false
}

proof fn lemma_vset_push(l: Seq<IdentPath>, v: IdentPath)
    ensures
        vset(l.push(v)) =~= vset(l).insert(v@),
{
    let m0 = l.map_values(|p: IdentPath| p@);
    let m1 = l.push(v).map_values(|p: IdentPath| p@);
    assert(m1 =~= m0.push(v@));
    assert forall|x: Seq<char>| #[trigger] vset(l.push(v)).contains(x) <==> vset(l).insert(
        v@,
    ).contains(x) by {
        if m1.contains(x) {
            let j = choose|j: int| 0 <= j < m1.len() && m1[j] == x;
            if j < m0.len() {
                assert(m0[j] == x);
            }
        }
        if m0.contains(x) {
            let j = choose|j: int| 0 <= j < m0.len() && m0[j] == x;
            assert(m1[j] == x);
        }
        if x == v@ {
            assert(m1[m0.len() as int] == x);
        }
    }
}

/// The caller side of a statement.
pub open spec fn region_path_of(s: StatementV) -> Seq<char> {
    match s {
        StatementV::Allow { region, .. } => region.path,
        StatementV::Require { region, .. } => region.path,
        StatementV::Trust { region } => region.path,
    }
}

/// The effect side of a statement (for `Trust`, which has none, its region).
pub open spec fn effect_path_of(s: StatementV) -> Seq<char> {
    match s {
        StatementV::Allow { effect, .. } => effect.path,
        StatementV::Require { effect, .. } => effect.path,
        StatementV::Trust { region } => region.path,
    }
}

pub open spec fn allowed(lv: LookupV, caller: Seq<char>, req: Seq<char>) -> bool {
    lv.allow.contains_key(caller) && lv.allow[caller].contains(req)
}

/// Diagnostic for a caller whose allow list exists but misses an effect.
pub open spec fn missing_msg(caller: Seq<char>, eff: Seq<char>) -> Seq<char> {
    "Allow list for function "@ + caller + " missing effect "@ + eff
}

/// Diagnostic for a caller with no allow list at all.
pub open spec fn no_list_msg(caller: Seq<char>, eff: Seq<char>) -> Seq<char> {
    "No allow list for function "@ + caller + " with effect "@ + eff
}

/// The diagnostic produced when `req` is not allowed for `caller`.
pub open spec fn err_msg(lv: LookupV, caller: Seq<char>, eff: Seq<char>) -> Seq<char> {
    if lv.allow.contains_key(caller) {
        missing_msg(caller, eff)
    } else {
        no_list_msg(caller, eff)
    }
}

/// Diagnostics of one requirement: none when it is allowed.
pub open spec fn req_msgs(lv: LookupV, caller: Seq<char>, req: Seq<char>) -> Seq<Seq<char>> {
    if allowed(lv, caller, req) {
        Seq::empty()
    } else {
        seq![err_msg(lv, caller, req)]
    }
}

/// Diagnostics of a whole requirement list, in order.
pub open spec fn edge_msgs(lv: LookupV, reqs: Seq<IdentPath>, caller: Seq<char>) -> Seq<Seq<char>>
    decreases reqs.len(),
{
    if reqs.len() == 0 {
        Seq::empty()
    } else {
        edge_msgs(lv, reqs.drop_last(), caller) + req_msgs(lv, caller, reqs.last()@)
    }
}

proof fn lemma_edge_msgs_empty(lv: LookupV, reqs: Seq<IdentPath>, caller: Seq<char>)
    ensures
        edge_msgs(lv, reqs, caller).len() == 0 <==> forall|j: int|
            0 <= j < reqs.len() ==> allowed(lv, caller, (#[trigger] reqs[j])@),
    decreases reqs.len(),
{
    if reqs.len() > 0 {
        lemma_edge_msgs_empty(lv, reqs.drop_last(), caller);
        assert(reqs.last() == reqs[reqs.len() - 1]);
        assert forall|j: int| 0 <= j < reqs.len() - 1 implies reqs.drop_last()[j] == reqs[j] by {}
    }
}

fn build_missing_msg(caller: &IdentPath, eff: &IdentPath) -> (r: String)
    ensures
        r@ == missing_msg(caller@, eff@),
{
    let mut s: String = "Allow list for function ".to_owned();
    s.append(caller.as_str());
    s.append(" missing effect ");
    s.append(eff.as_str());
    proof {
        assert(s@ =~= missing_msg(caller@, eff@));
    }
    s
}

fn build_no_list_msg(caller: &IdentPath, eff: &IdentPath) -> (r: String)
    ensures
        r@ == no_list_msg(caller@, eff@),
{
    let mut s: String = "No allow list for function ".to_owned();
    s.append(caller.as_str());
    s.append(" with effect ");
    s.append(eff.as_str());
    proof {
        assert(s@ =~= no_list_msg(caller@, eff@));
    }
    s
}

/// Quick-lookup summary of a policy: per-caller allow and require sets,
/// with `require` statements propagated into the allow sets.
#[derive(Debug)]
pub struct PolicyLookup {
    allow_sets: PathSetMap,
    require_sets: PathSetMap,
}

impl View for PolicyLookup {
    type V = LookupV;

    closed spec fn view(&self) -> LookupV {
        LookupV { allow: self.allow_sets.view_map(), require: self.require_sets.view_map() }
    }
}

impl PolicyLookup {
    pub closed spec fn wf(&self) -> bool {
        self.allow_sets.wf() && self.require_sets.wf()
    }

    /// The requirement list stored for `callee`, in storage order.
    pub closed spec fn require_list(&self, callee: Seq<char>) -> Seq<IdentPath> {
        if self.require_sets.has_key(callee) {
            self.require_sets.entries@[self.require_sets.key_index(callee)].1@
        } else {
            Seq::empty()
        }
    }

    pub fn empty() -> (r: Self)
        ensures
            r.wf(),
            r@ == empty_lookup(),
    {
        let r = PolicyLookup { allow_sets: PathSetMap::new(), require_sets: PathSetMap::new() };
        proof {
            assert(r@.allow =~= empty_lookup().allow);
            assert(r@.require =~= empty_lookup().require);
        }
        r
    }

    /// Build the index by streaming every statement of the policy.
    pub fn from_policy(p: &Policy) -> (r: Self)
        requires
            no_trust(p@.statements),
        ensures
            r.wf(),
            r@ == build_lookup(p@.statements),
    {
        let ghost svs = p@.statements;
        let mut result = Self::empty();
        let stmts = p.statements();
        let n = stmts.len();
        proof {
            assert(svs.take(0) =~= Seq::<StatementV>::empty());
        }
        let mut i: usize = 0;
        while i < n
            invariant
                i <= n,
                n == stmts@.len(),
                svs == stmts@.map_values(|s: Statement| s@),
                no_trust(svs),
                result.wf(),
                result@ == build_lookup(svs.take(i as int)),
            decreases n - i,
        {
            proof {
                assert(svs[i as int] == stmts@[i as int]@);
                assert(!is_trust(svs[i as int]));
            }
            result.add_statement(&stmts[i]);
            proof {
                assert(svs.take(i + 1).drop_last() =~= svs.take(i as int));
                assert(svs.take(i + 1).last() == svs[i as int]);
            }
            i = i + 1;
        }
        proof {
            assert(svs.take(n as int) =~= svs);
        }
        result
    }

    /// Stream one statement into the index.  `Trust` is reserved and not
    /// accepted here.
    pub fn add_statement(&mut self, stmt: &Statement)
        requires
            old(self).wf(),
            !is_trust(stmt@),
        ensures
            final(self).wf(),
            final(self)@ == apply_statement(old(self)@, stmt@),
    {
        match stmt {
            Statement::Allow { region, effect } => {
                self.allow_sets.add_val(region.fn_path(), effect.fn_path());
            }
            Statement::Require { region, effect } => {
                self.require_sets.add_val(region.fn_path(), effect.fn_path());
                self.allow_sets.add_val(region.fn_path(), effect.fn_path());
            }
            Statement::Trust { region } => {
                proof {
                    assert(false);
                }
            }
        }
    }

    /// Mark a callee as an interesting/dangerous call, by making it a
    /// requirement on itself.  Must precede any edge check that is to
    /// notice the callee.
    pub fn mark_of_interest(&mut self, callee: &IdentPath)
        requires
            old(self).wf(),
        ensures
            final(self).wf(),
            final(self)@.allow == old(self)@.allow,
            final(self)@.require == add_to(old(self)@.require, callee@, callee@),
            final(self)@.require.contains_key(callee@),
            final(self)@.require[callee@].contains(callee@),
    {
        self.require_sets.add_val(callee, callee);
    }

    /// Whether `effect` stands on the allow list of `caller`; an `Err`
    /// carries the diagnostic.
    pub fn allow_list_contains(&self, caller: &IdentPath, effect: &IdentPath) -> (r: Result<
        (),
        String,
    >)
        requires
            self.wf(),
        ensures
            r is Ok <==> allowed(self@, caller@, effect@),
            r matches Err(m) ==> m@ == err_msg(self@, caller@, effect@),
    {
        match self.allow_sets.get_list(caller) {
            Some(l) => {
                if contains_path(l, effect) {
                    Ok(())
                } else {
                    Err(build_missing_msg(caller, effect))
                }
            }
            None => Err(build_no_list_msg(caller, effect)),
        }
    }

    /// The effects required of callers reaching `callee`, as a list.
    pub fn iter_requirements(&self, callee: &IdentPath) -> (r: Vec<IdentPath>)
        requires
            self.wf(),
        ensures
            r@ == self.require_list(callee@),
            vset(r@) == if self@.require.contains_key(callee@) {
                self@.require[callee@]
            } else {
                Set::<Seq<char>>::empty()
            },
            forall|i: int, j: int|
                0 <= i < j < r@.len() ==> (#[trigger] r@[i])@ != (#[trigger] r@[j])@,
    {
        let ghost target = self.require_list(callee@);
        match self.require_sets.get_list(callee) {
            Some(l) => {
                let mut r: Vec<IdentPath> = Vec::new();
                let n = l.len();
                let mut i: usize = 0;
                while i < n
                    invariant
                        i <= n,
                        n == l@.len(),
                        r@.len() == i as int,
                        forall|j: int| 0 <= j < i ==> r@[j] == l@[j],
                    decreases n - i,
                {
                    r.push(l[i].clone());
                    i = i + 1;
                }
                proof {
                    assert(r@ =~= l@);
                }
                r
            }
            None => {
                let r: Vec<IdentPath> = Vec::new();
                proof {
                    assert(r@ =~= target);
                    assert(vset(r@) =~= Set::<Seq<char>>::empty()) by {
                        assert(r@.map_values(|p: IdentPath| p@).len() == 0);
                    }
                }
                r
            }
        }
    }

    /// Check a call-graph edge against the policy, appending one
    /// diagnostic per unmet requirement.  Edges can be checked in any
    /// order; nothing is appended exactly when the edge is admissible.
    pub fn check_edge(&self, caller: &IdentPath, callee: &IdentPath, error_list: &mut Vec<String>)
        requires
            self.wf(),
        ensures
            final(error_list)@.map_values(|s: String| s@) == old(error_list)@.map_values(
                |s: String| s@,
            ) + edge_msgs(self@, self.require_list(callee@), caller@),
            final(error_list)@.len() == old(error_list)@.len() <==> edge_ok(
                self@,
                caller@,
                callee@,
            ),
    {
        let ghost lv = self@;
        let ghost base = old(error_list)@.map_values(|s: String| s@);
        match self.require_sets.get_list(callee) {
            Some(l) => {
                let n = l.len();
                let mut i: usize = 0;
                while i < n
                    invariant
                        i <= n,
                        n == l@.len(),
                        self.wf(),
                        lv == self@,
                        l@ == self.require_list(callee@),
                        self@.require.contains_key(callee@),
                        self@.require[callee@] == vset(l@),
                        error_list@.map_values(|s: String| s@) == base + edge_msgs(
                            lv,
                            l@.take(i as int),
                            caller@,
                        ),
                    decreases n - i,
                {
                    let ghost pre = error_list@.map_values(|s: String| s@);
                    match self.allow_list_contains(caller, &l[i]) {
                        Ok(_) => {
                            proof {
                                assert(req_msgs(lv, caller@, l@[i as int]@) =~= Seq::<
                                    Seq<char>,
                                >::empty());
                            }
                        }
                        Err(m) => {
                            error_list.push(m);
                            proof {
                                assert(error_list@.map_values(|s: String| s@) =~= pre.push(m@));
                            }
                        }
                    }
                    proof {
                        assert(l@.take(i + 1).drop_last() =~= l@.take(i as int));
                        assert(l@.take(i + 1).last() == l@[i as int]);
                        assert(error_list@.map_values(|s: String| s@) =~= base + edge_msgs(
                            lv,
                            l@.take(i + 1),
                            caller@,
                        ));
                    }
                    i = i + 1;
                }
                proof {
                    assert(l@.take(n as int) =~= l@);
                    lemma_edge_msgs_empty(lv, l@, caller@);
                    if forall|j: int| 0 <= j < l@.len() ==> allowed(lv, caller@, (
                    #[trigger] l@[j])@) {
                        assert forall|req: Seq<char>|
                            lv.require.contains_key(callee@) && #[trigger] lv.require[callee@]
                                .contains(req) implies allowed(lv, caller@, req) by {
                            let mapped = l@.map_values(|p: IdentPath| p@);
                            assert(mapped.contains(req));
                            let j = choose|j: int| 0 <= j < mapped.len() && mapped[j] == req;
                            assert(l@[j]@ == req);
                        }
                        assert(edge_ok(lv, caller@, callee@));
                    } else {
                        let j = choose|j: int|
                            0 <= j < l@.len() && !allowed(lv, caller@, (#[trigger] l@[j])@);
                        assert(l@.map_values(|p: IdentPath| p@)[j] == l@[j]@);
                        assert(lv.require[callee@].contains(l@[j]@));
                        assert(!edge_ok(lv, caller@, callee@));
                        assert(edge_msgs(lv, l@, caller@).len() > 0);
                        assert(final(error_list)@.len() > old(error_list)@.len()) by {
                            assert(final(error_list)@.map_values(|s: String| s@).len() == base.len()
                                + edge_msgs(lv, l@, caller@).len());
                        }
                    }
                }
            }
            None => {
                proof {
                    assert(error_list@.map_values(|s: String| s@) =~= base + edge_msgs(
                        lv,
                        self.require_list(callee@),
                        caller@,
                    ));
                    assert(edge_ok(lv, caller@, callee@));
                }
            }
        }
    }

    /// Check a call-graph edge against the policy, as a single boolean.
    pub fn check_edge_bool(&self, caller: &IdentPath, callee: &IdentPath) -> (r: bool)
        requires
            self.wf(),
        ensures
            r == edge_ok(self@, caller@, callee@),
    {
        let ghost lv = self@;
        match self.require_sets.get_list(callee) {
            Some(l) => {
                let n = l.len();
                let mut i: usize = 0;
                while i < n
                    invariant
                        i <= n,
                        n == l@.len(),
                        self.wf(),
                        lv == self@,
                        self@.require.contains_key(callee@),
                        self@.require[callee@] == vset(l@),
                        forall|j: int| 0 <= j < i ==> allowed(lv, caller@, (#[trigger] l@[j])@),
                    decreases n - i,
                {
                    match self.allow_list_contains(caller, &l[i]) {
                        Ok(_) => {}
                        Err(_) => {
                            proof {
                                assert(l@.map_values(|p: IdentPath| p@)[i as int] == l@[
                                    i as int]@);
                                assert(lv.require[callee@].contains(l@[i as int]@));
                            }
                            return false;
                        }
                    }
                    i = i + 1;
                }
                proof {
                    assert forall|req: Seq<char>|
                        lv.require.contains_key(callee@) && #[trigger] lv.require[callee@]
                            .contains(req) implies allowed(lv, caller@, req) by {
                        let mapped = l@.map_values(|p: IdentPath| p@);
                        assert(mapped.contains(req));
                        let j = choose|j: int| 0 <= j < mapped.len() && mapped[j] == req;
                        assert(l@[j]@ == req);
                    }
                }
                true
            }
            None => {
                proof {
                    assert(edge_ok(lv, caller@, callee@));
                }
                true
            }
        }
    }
}

/// Whatever a map already holds, it still holds after `add_to`.
pub proof fn lemma_add_to_preserves(
    m: Map<Seq<char>, Set<Seq<char>>>,
    k: Seq<char>,
    v: Seq<char>,
    k2: Seq<char>,
    v2: Seq<char>,
)
    requires
        m.contains_key(k2),
        m[k2].contains(v2),
    ensures
        add_to(m, k, v).contains_key(k2),
        add_to(m, k, v)[k2].contains(v2),
{
}

/// Require propagation: every `Require{r, e}` statement of a policy
/// leaves `e` in both the require set and the allow set of `r` in the
/// index built from the policy.
pub proof fn lemma_require_propagation(stmts: Seq<StatementV>, i: int)
    requires
        0 <= i < stmts.len(),
        stmts[i] matches StatementV::Require { .. },
    ensures
        build_lookup(stmts).require.contains_key(region_path_of(stmts[i])),
        build_lookup(stmts).require[region_path_of(stmts[i])].contains(effect_path_of(stmts[i])),
        build_lookup(stmts).allow.contains_key(region_path_of(stmts[i])),
        build_lookup(stmts).allow[region_path_of(stmts[i])].contains(effect_path_of(stmts[i])),
    decreases stmts.len(),
{
    let r = region_path_of(stmts[i]);
    let e = effect_path_of(stmts[i]);
    if i == stmts.len() - 1 {
        assert(stmts.last() == stmts[i]);
    } else {
        assert(stmts.drop_last()[i] == stmts[i]);
        lemma_require_propagation(stmts.drop_last(), i);
        let prev = build_lookup(stmts.drop_last());
        match stmts.last() {
            StatementV::Allow { region, effect } => {
                lemma_add_to_preserves(prev.allow, region.path, effect.path, r, e);
            }
            StatementV::Require { region, effect } => {
                lemma_add_to_preserves(prev.allow, region.path, effect.path, r, e);
                lemma_add_to_preserves(prev.require, region.path, effect.path, r, e);
            }
            StatementV::Trust { .. } => {}
        }
    }
}

/// Edge-checker monotonicity, allow side: adding an `Allow` statement
/// can only turn failing edges into passing ones.
pub proof fn lemma_allow_monotone(
    lv: LookupV,
    region: FnCallV,
    effect: FnCallV,
    caller: Seq<char>,
    callee: Seq<char>,
)
    requires
        edge_ok(lv, caller, callee),
    ensures
        edge_ok(apply_statement(lv, StatementV::Allow { region, effect }), caller, callee),
{
    let after = apply_statement(lv, StatementV::Allow { region, effect });
    assert forall|req: Seq<char>|
        after.require.contains_key(callee) && #[trigger] after.require[callee].contains(
            req,
        ) implies after.allow.contains_key(caller) && after.allow[caller].contains(req) by {
        assert(lv.require[callee].contains(req));
        assert(allowed(lv, caller, req));
        lemma_add_to_preserves(lv.allow, region.path, effect.path, caller, req);
    }
}

/// Edge-checker monotonicity, require side: adding a `Require` statement
/// can only turn passing edges into failing ones, for every caller other
/// than the statement's own region (whose allow set the statement also
/// feeds).
pub proof fn lemma_require_monotone(
    lv: LookupV,
    region: FnCallV,
    effect: FnCallV,
    caller: Seq<char>,
    callee: Seq<char>,
)
    requires
        caller != region.path,
        edge_ok(apply_statement(lv, StatementV::Require { region, effect }), caller, callee),
    ensures
        edge_ok(lv, caller, callee),
{
    let after = apply_statement(lv, StatementV::Require { region, effect });
    assert forall|req: Seq<char>|
        lv.require.contains_key(callee) && #[trigger] lv.require[callee].contains(req) implies lv
        .allow.contains_key(caller) && lv.allow[caller].contains(req) by {
        lemma_add_to_preserves(lv.require, region.path, effect.path, callee, req);
        assert(after.require[callee].contains(req));
        assert(after.allow.contains_key(caller) && after.allow[caller].contains(req));
        assert(after.allow == add_to(lv.allow, region.path, effect.path));
    }
}

/// `add_to` operations commute.
proof fn lemma_add_to_comm(
    m: Map<Seq<char>, Set<Seq<char>>>,
    k1: Seq<char>,
    v1: Seq<char>,
    k2: Seq<char>,
    v2: Seq<char>,
)
    ensures
        add_to(add_to(m, k1, v1), k2, v2) == add_to(add_to(m, k2, v2), k1, v1),
{
    let lhs = add_to(add_to(m, k1, v1), k2, v2);
    let rhs = add_to(add_to(m, k2, v2), k1, v1);
    if k1 == k2 {
        assert(lhs[k1] =~= rhs[k1]);
        assert(lhs =~~= rhs);
    } else {
        assert(lhs[k1] =~= rhs[k1]);
        assert(lhs[k2] =~= rhs[k2]);
        assert(lhs =~~= rhs);
    }
}

/// The allow-set component of one statement's effect.
pub open spec fn allow_upd(
    m: Map<Seq<char>, Set<Seq<char>>>,
    s: StatementV,
) -> Map<Seq<char>, Set<Seq<char>>> {
    match s {
        StatementV::Allow { region, effect } => add_to(m, region.path, effect.path),
        StatementV::Require { region, effect } => add_to(m, region.path, effect.path),
        StatementV::Trust { .. } => m,
    }
}

/// The require-set component of one statement's effect.
pub open spec fn require_upd(
    m: Map<Seq<char>, Set<Seq<char>>>,
    s: StatementV,
) -> Map<Seq<char>, Set<Seq<char>>> {
    match s {
        StatementV::Allow { .. } => m,
        StatementV::Require { region, effect } => add_to(m, region.path, effect.path),
        StatementV::Trust { .. } => m,
    }
}

proof fn lemma_apply_decompose(lv: LookupV, s: StatementV)
    ensures
        apply_statement(lv, s) == (LookupV {
            allow: allow_upd(lv.allow, s),
            require: require_upd(lv.require, s),
        }),
{
}

proof fn lemma_allow_upd_comm(m: Map<Seq<char>, Set<Seq<char>>>, a: StatementV, b: StatementV)
    ensures
        allow_upd(allow_upd(m, a), b) == allow_upd(allow_upd(m, b), a),
{
    match (a, b) {
        (StatementV::Trust { .. }, _) => {}
        (_, StatementV::Trust { .. }) => {}
        _ => {
            lemma_add_to_comm(
                m,
                region_path_of(a),
                effect_path_of(a),
                region_path_of(b),
                effect_path_of(b),
            );
        }
    }
}

proof fn lemma_require_upd_comm(m: Map<Seq<char>, Set<Seq<char>>>, a: StatementV, b: StatementV)
    ensures
        require_upd(require_upd(m, a), b) == require_upd(require_upd(m, b), a),
{
    match (a, b) {
        (StatementV::Require { .. }, StatementV::Require { .. }) => {
            lemma_add_to_comm(
                m,
                region_path_of(a),
                effect_path_of(a),
                region_path_of(b),
                effect_path_of(b),
            );
        }
        _ => {}
    }
}

/// Two statements commute through the index.
proof fn lemma_apply_comm(lv: LookupV, a: StatementV, b: StatementV)
    ensures
        apply_statement(apply_statement(lv, a), b) == apply_statement(apply_statement(lv, b), a),
{
    lemma_apply_decompose(lv, a);
    lemma_apply_decompose(lv, b);
    lemma_apply_decompose(apply_statement(lv, a), b);
    lemma_apply_decompose(apply_statement(lv, b), a);
    lemma_allow_upd_comm(lv.allow, a, b);
    lemma_require_upd_comm(lv.require, a, b);
}

/// A statement anywhere in the list may be processed last instead.
proof fn lemma_build_remove(stmts: Seq<StatementV>, j: int)
    requires
        0 <= j < stmts.len(),
    ensures
        build_lookup(stmts) == apply_statement(build_lookup(stmts.remove(j)), stmts[j]),
    decreases stmts.len(),
{
    let n = stmts.len() as int;
    if j == n - 1 {
        assert(stmts.remove(j) =~= stmts.drop_last());
        assert(stmts.last() == stmts[j]);
    } else {
        let y = stmts.last();
        lemma_build_remove(stmts.drop_last(), j);
        let d = stmts.drop_last().remove(j);
        assert(stmts.drop_last()[j] == stmts[j]);
        assert(build_lookup(stmts) == apply_statement(
            apply_statement(build_lookup(d), stmts[j]),
            y,
        ));
        lemma_apply_comm(build_lookup(d), stmts[j], y);
        assert(stmts.remove(j).drop_last() =~= d) by {
            assert forall|i: int| 0 <= i < n - 2 implies stmts.remove(j).drop_last()[i] == d[i] by {
                if i < j {
                } else {
                    assert(stmts.remove(j)[i] == stmts[i + 1]);
                }
            }
        }
        assert(stmts.remove(j).last() == y) by {
            assert(stmts.remove(j)[n - 2] == stmts[n - 1]);
        }
        assert(build_lookup(stmts.remove(j)) == apply_statement(build_lookup(d), y));
    }
}

/// Insertion-order independence: permuting a policy's statements leaves
/// the built index unchanged.
pub proof fn lemma_insertion_order_independence(s1: Seq<StatementV>, s2: Seq<StatementV>)
    requires
        s1.to_multiset() == s2.to_multiset(),
    ensures
        build_lookup(s1) == build_lookup(s2),
    decreases s1.len(),
{
    broadcast use vstd::seq_lib::group_to_multiset_ensures;

    if s1.len() == 0 {
        assert(s1.to_multiset().len() == 0);
        assert(s2.len() == 0);
        assert(s2 =~= s1);
    } else {
        let n1 = s1.len() as int;
        let x = s1.last();
        assert(s1.contains(x)) by {
            assert(s1[n1 - 1] == x);
        }
        assert(s1.to_multiset().count(x) > 0);
        assert(s2.to_multiset().count(x) > 0);
        assert(s2.contains(x));
        let j = choose|j: int| 0 <= j < s2.len() && s2[j] == x;
        assert(s1.drop_last() =~= s1.remove(n1 - 1));
        assert(s1.remove(n1 - 1).to_multiset() == s1.to_multiset().remove(x)) by {
            assert(s1[n1 - 1] == x);
        }
        assert(s2.remove(j).to_multiset() == s2.to_multiset().remove(x));
        lemma_insertion_order_independence(s1.drop_last(), s2.remove(j));
        lemma_build_remove(s2, j);
    }
}

proof fn lemma_vset_singleton(v: IdentPath)
    ensures
        vset(seq![v]) =~= Set::<Seq<char>>::empty().insert(v@),
{
    let m = seq![v].map_values(|p: IdentPath| p@);
    assert(m.len() == 1);
    assert(m[0] == v@);
    assert forall|x: Seq<char>| #[trigger] m.contains(x) <==> x == v@ by {
        if m.contains(x) {
            let j = choose|j: int| 0 <= j < m.len() && m[j] == x;
            assert(j == 0);
        }
        if x == v@ {
            assert(m[0] == x);
        }
    }
}

} // verus!
