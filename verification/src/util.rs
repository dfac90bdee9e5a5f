//! Utility functions: text sanitizing for CSV output, a result filter,
//! and splitting a fully-stringified package name into name and version.

use vstd::prelude::*;

use crate::text::{chars_of_str, string_from_prefix};

verus! {

/// The identity of a package: its name and its version, as read from
/// its manifest.
#[derive(Debug, Clone)]
pub struct CrateData {
    pub name: String,
    pub version: String,
}

impl CrateData {
    pub fn new(name: &str, version: &str) -> (r: Self)
        ensures
            r.name@ == name@,
            r.version@ == version@,
    {
        CrateData { name: name.to_owned(), version: version.to_owned() }
    }
}

/// The string with its commas removed.
pub open spec fn strip_commas(s: Seq<char>) -> Seq<char>
    decreases s.len(),
{
    if s.len() == 0 {
        s
    } else {
        let rest = strip_commas(s.drop_last());
        if s.last() == ',' {
            rest
        } else {
            rest.push(s.last())
        }
    }
}

/// Remove commas, so the text is safe inside a comma-separated record.
pub fn sanitize_comma(s: &str) -> (r: String)
    ensures
        r@ == strip_commas(s@),
{
    let chars = chars_of_str(s);
    let n = chars.len();
    let mut kept: Vec<char> = Vec::new();
    proof {
        assert(chars@.take(0) =~= Seq::<char>::empty());
    }
    let mut i: usize = 0;
    while i < n
        invariant
            i <= n,
            n == chars@.len(),
            chars@ == s@,
            kept@ == strip_commas(chars@.take(i as int)),
        decreases n - i,
    {
        if chars[i] != ',' {
            kept.push(chars[i]);
        }
        proof {
            assert(chars@.take(i + 1).drop_last() =~= chars@.take(i as int));
            assert(chars@.take(i + 1).last() == chars@[i as int]);
        }
        i = i + 1;
    }
    proof {
        assert(chars@.take(n as int) =~= chars@);
    }
    crate::text::string_from_chars(kept.as_slice())
}

/// Keep the value of an `Ok`, discarding any error.
pub fn warn_ok<T, E>(x: Result<T, E>) -> (r: Option<T>)
    ensures
        match x {
            Ok(v) => r == Some(v),
            Err(_) => r is None,
        },
{
    match x {
        Ok(v) => Some(v),
        Err(_) => None,
    }
}

/// Relies on `cargo_lock::Version::parse` (semver): whether the text is
/// a valid semantic version; the answer depends on the text alone.
#[verifier::external_body]
fn is_semver(s: &str) -> (r: bool)
    ensures
        r == semver_accepts(s@),
{
    cargo_lock::Version::parse(s).is_ok()
}

/// What the semver parser accepts.
pub uninterp spec fn semver_accepts(s: Seq<char>) -> bool;

/// Position `p` starts a dash-delimited suffix of `s`.
pub open spec fn dash_boundary(s: Seq<char>, p: int) -> bool {
    0 <= p <= s.len() && (p == 0 || s[p - 1] == '-')
}

/// The name/version split of a stringified package at boundary `p`:
/// everything after the dash is the version, everything before it the
/// name.
pub open spec fn split_candidate_ok(s: Seq<char>, p: int) -> bool {
    dash_boundary(s, p) && semver_accepts(s.subrange(p, s.len() as int))
}

/// Split a fully-stringified package name, e.g. `libc-0.4.8-pre18`, into
/// its name and its version text, trying the shortest dash-delimited
/// suffix first.  Nothing is returned when no suffix parses as a
/// version.
pub fn package_split(package: &str) -> (r: Option<(String, String)>)
    ensures
        match r {
            Some((name, version)) => exists|p: int|
                {
                    &&& #[trigger] split_candidate_ok(package@, p)
                    &&& version@ == package@.subrange(p, package@.len() as int)
                    &&& name@ == if p == 0 {
                        Seq::<char>::empty()
                    } else {
                        package@.subrange(0, p - 1)
                    }
                    &&& forall|q: int|
                        p < q <= package@.len() ==> !(#[trigger] split_candidate_ok(package@, q))
                },
            None => forall|p: int| !(#[trigger] split_candidate_ok(package@, p)),
        },
{
    let chars = chars_of_str(package);
    let n = chars.len();
    let mut p: usize = n;
    loop
        invariant
            p <= n,
            n == chars@.len(),
            chars@ == package@,
            forall|q: int| p < q <= n ==> !(#[trigger] split_candidate_ok(package@, q)),
        decreases p + 1,
    {
        if p == 0 || chars[p - 1] == '-' {
            let suffix = crate::text::string_from_range(&chars, p, n);
            if is_semver(suffix.as_str()) {
                proof {
                    assert(split_candidate_ok(package@, p as int));
                }
                let name = if p == 0 {
                    String::new()
                } else {
                    string_from_prefix(&chars, p - 1)
                };
                return Some((name, suffix));
            }
        }
        proof {
            assert(!split_candidate_ok(package@, p as int));
        }
        if p == 0 {
            return None;
        }
        p = p - 1;
    }
}

} // verus!
