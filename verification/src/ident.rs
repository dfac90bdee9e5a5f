//! Identifier paths: the canonical, fully-qualified identity of a
//! definition (`foo::bar::baz`) and the function-call pattern used by
//! policy statements.

use vstd::prelude::*;

verus! {

/// A dotted fully-qualified identifier, e.g. `foo::bar::baz`.
///
/// Equality is structural on the text; paths are the primary key for
/// callers, callees, fields and effect targets.
#[derive(Debug)]
pub struct IdentPath {
    text: String,
}

impl View for IdentPath {
    type V = Seq<char>;

    closed spec fn view(&self) -> Seq<char> {
        self.text@
    }
}

impl IdentPath {
    pub fn new(s: &str) -> (r: Self)
        ensures
            r@ == s@,
    {
        IdentPath { text: s.to_owned() }
    }

    pub fn as_str(&self) -> (r: &str)
        ensures
            r@ == self@,
    {
        self.text.as_str()
    }
}

impl Clone for IdentPath {
    fn clone(&self) -> (r: Self)
        ensures
            r == *self,
    {
        IdentPath { text: self.text.clone() }
    }
}

impl PartialEq for IdentPath {
    fn eq(&self, other: &IdentPath) -> (r: bool) {
        self.text == other.text
    }
}

impl vstd::std_specs::cmp::PartialEqSpecImpl for IdentPath {
    open spec fn obeys_eq_spec() -> bool {
        true
    }

    open spec fn eq_spec(&self, other: &IdentPath) -> bool {
        self@ == other@
    }
}

/// The canonical path of a definition, as answered by name resolution.
#[derive(Debug)]
pub struct CanonicalPath {
    text: String,
}

impl View for CanonicalPath {
    type V = Seq<char>;

    closed spec fn view(&self) -> Seq<char> {
        self.text@
    }
}

impl CanonicalPath {
    pub fn new(s: &str) -> (r: Self)
        ensures
            r@ == s@,
    {
        CanonicalPath { text: s.to_owned() }
    }

    pub fn new_owned(s: String) -> (r: Self)
        ensures
            r@ == s@,
    {
        CanonicalPath { text: s }
    }

    pub fn as_str(&self) -> (r: &str)
        ensures
            r@ == self@,
    {
        self.text.as_str()
    }
}

impl Clone for CanonicalPath {
    fn clone(&self) -> (r: Self)
        ensures
            r == *self,
    {
        CanonicalPath { text: self.text.clone() }
    }
}

impl PartialEq for CanonicalPath {
    fn eq(&self, other: &CanonicalPath) -> (r: bool) {
        self.text == other.text
    }
}

impl vstd::std_specs::cmp::PartialEqSpecImpl for CanonicalPath {
    open spec fn obeys_eq_spec() -> bool {
        true
    }

    open spec fn eq_spec(&self, other: &CanonicalPath) -> bool {
        self@ == other@
    }
}

/// A `::` separator begins at position `i` of `s`.
pub open spec fn sep_at(s: Seq<char>, i: int) -> bool {
    0 <= i && i + 2 <= s.len() && s[i] == ':' && s[i + 1] == ':'
}

/// The largest position `j < i` where a separator begins, or -1.
pub open spec fn last_sep_below(s: Seq<char>, i: int) -> int
    decreases i,
{
    if i <= 0 {
        -1
    } else if sep_at(s, i - 1) {
        i - 1
    } else {
        last_sep_below(s, i - 1)
    }
}

/// The path with its trailing segment dropped: everything before the
/// last `::`, or the empty path when there is no separator.
pub open spec fn pop_ident_spec(s: Seq<char>) -> Seq<char> {
    let j = last_sep_below(s, s.len() as int);
    if j >= 0 {
        s.subrange(0, j)
    } else {
        Seq::empty()
    }
}

proof fn lemma_last_sep_bound(s: Seq<char>, i: int)
    requires
        0 <= i,
    ensures
        -1 <= last_sep_below(s, i) < i || i == 0,
        last_sep_below(s, i) < i || last_sep_below(s, i) == -1,
        -1 <= last_sep_below(s, i),
    decreases i,
{
    if i > 0 && !sep_at(s, i - 1) {
        lemma_last_sep_bound(s, i - 1);
    }
}

/// The position of the last `::` of the characters, if one is there.
fn find_last_sep(chars: &Vec<char>) -> (r: Option<usize>)
    ensures
        match r {
            Some(j) => j as int == last_sep_below(chars@, chars@.len() as int),
            None => last_sep_below(chars@, chars@.len() as int) == -1,
        },
{
    let ghost s = chars@;
    let n = chars.len();
    let mut i: usize = n;
    let mut found: Option<usize> = None;
    while i > 0
        invariant
            i <= n,
            n == s.len(),
            chars@ == s,
            found is None,
            last_sep_below(s, n as int) == last_sep_below(s, i as int),
        decreases i,
    {
        if i < n && chars[i - 1] == ':' && chars[i] == ':' {
            proof {
                assert(sep_at(s, i - 1 as int));
                assert(last_sep_below(s, i as int) == i - 1);
            }
            return Some(i - 1);
        }
        proof {
            assert(!sep_at(s, i - 1 as int)) by {
                if sep_at(s, i - 1 as int) {
                    assert(s[i - 1 as int] == ':' && s[i as int] == ':');
                }
            }
        }
        i = i - 1;
    }
    proof {
        assert(last_sep_below(s, 0) == -1);
    }
    None
}

impl CanonicalPath {
    /// Drop the trailing segment, leaving the path of the containing
    /// module or data type.
    pub fn pop_ident(&mut self)
        ensures
            final(self)@ == pop_ident_spec(old(self)@),
    {
        let ghost s = self@;
        let chars = crate::text::chars_of_str(self.text.as_str());
        match find_last_sep(&chars) {
            Some(j) => {
                proof {
                    lemma_last_sep_bound(s, s.len() as int);
                }
                self.text = crate::text::string_from_prefix(&chars, j);
                proof {
                    assert(pop_ident_spec(s) == s.subrange(0, j as int));
                }
            }
            None => {
                self.text = String::new();
                proof {
                    assert(pop_ident_spec(s) =~= Seq::<char>::empty());
                }
            }
        }
    }
}

/// The mathematical content of a `FnCall`: a path and an argument pattern.
pub struct FnCallV {
    pub path: Seq<char>,
    pub args: Seq<char>,
}

/// A function-call pattern: a path together with a literal textual
/// argument pattern; the empty pattern `""` is the wildcard.
#[derive(Debug)]
pub struct FnCall {
    fn_path: IdentPath,
    args: String,
}

impl View for FnCall {
    type V = FnCallV;

    closed spec fn view(&self) -> FnCallV {
        FnCallV { path: self.fn_path@, args: self.args@ }
    }
}

impl FnCall {
    /// Pattern matching the given path with the given argument pattern.
    pub fn new(path: &str, args: &str) -> (r: Self)
        ensures
            r@.path == path@,
            r@.args == args@,
    {
        FnCall { fn_path: IdentPath::new(path), args: args.to_owned() }
    }

    /// Pattern matching the given path with any arguments.
    pub fn new_all(path: &str) -> (r: Self)
        ensures
            r@.path == path@,
            r@.args.len() == 0,
    {
        FnCall { fn_path: IdentPath::new(path), args: String::new() }
    }

    pub fn fn_path(&self) -> (r: &IdentPath)
        ensures
            r@ == self@.path,
    {
        &self.fn_path
    }

    pub fn args(&self) -> (r: &str)
        ensures
            r@ == self@.args,
    {
        self.args.as_str()
    }
}

impl Clone for FnCall {
    fn clone(&self) -> (r: Self)
        ensures
            r == *self,
    {
        FnCall { fn_path: self.fn_path.clone(), args: self.args.clone() }
    }
}

impl PartialEq for FnCall {
    fn eq(&self, other: &FnCall) -> (r: bool) {
        self.fn_path == other.fn_path && self.args == other.args
    }
}

impl vstd::std_specs::cmp::PartialEqSpecImpl for FnCall {
    open spec fn obeys_eq_spec() -> bool {
        true
    }

    open spec fn eq_spec(&self, other: &FnCall) -> bool {
        self@.path == other@.path && self@.args == other@.args
    }
}

} // verus!
