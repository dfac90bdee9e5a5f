//! The sink registry: callee paths treated as inherently dangerous, and
//! the matching of resolved callees against them.

use vstd::prelude::*;
use vstd::string::StrSliceExecFns;

use crate::ident::{CanonicalPath, IdentPath};
use crate::text::{spec_starts_with, str_starts_with};

verus! {

/// A sink pattern matches a callee exactly, or as a path prefix at a
/// `::` boundary.
pub open spec fn sink_matches(sink: Seq<char>, callee: Seq<char>) -> bool {
    ||| sink == callee
    ||| (callee.len() >= sink.len() + 2 && callee.subrange(0, sink.len() as int) == sink
        && callee[sink.len() as int] == ':' && callee[sink.len() as int + 1] == ':')
}

/// The first pattern of the list matching the callee, if one does.
pub open spec fn first_sink_match(sinks: Seq<IdentPath>, callee: Seq<char>) -> Option<IdentPath>
    decreases sinks.len(),
{
    if sinks.len() == 0 {
        None
    } else if sink_matches(sinks[0]@, callee) {
        Some(sinks[0])
    } else {
        first_sink_match(sinks.drop_first(), callee)
    }
}

/// Whether one sink pattern matches the callee.
fn sink_matches_exec(sink: &IdentPath, callee: &CanonicalPath) -> (r: bool)
    ensures
        r == sink_matches(sink@, callee@),
{
    let s = sink.as_str();
    let c = callee.as_str();
    let sn = s.unicode_len();
    let cn = c.unicode_len();
    if sn == cn && str_starts_with(c, s) {
        proof {
            assert(c@.subrange(0, sn as int) =~= c@);
        }
        return true;
    }
    if sn <= cn && cn - sn >= 2 && str_starts_with(c, s) && c.get_char(sn) == ':' && c.get_char(
        sn + 1,
    ) == ':' {
        return true;
    }
    proof {
        if sink@ == callee@ {
            assert(sn == cn);
            assert(spec_starts_with(c@, s@)) by {
                assert(c@.subrange(0, sn as int) =~= s@);
            }
        }
    }
    false
}

/// The first sink of the list matching the callee, if any.
pub fn find_sink_match(sinks: &Vec<IdentPath>, callee: &CanonicalPath) -> (r: Option<IdentPath>)
    ensures
        r == first_sink_match(sinks@, callee@),
{
    let n = sinks.len();
    proof {
        assert(sinks@.skip(0) =~= sinks@);
    }
    let mut i: usize = 0;
    while i < n
        invariant
            i <= n,
            n == sinks@.len(),
            first_sink_match(sinks@, callee@) == first_sink_match(
                sinks@.skip(i as int),
                callee@,
            ),
        decreases n - i,
    {
        proof {
            assert(sinks@.skip(i as int)[0] == sinks@[i as int]);
            assert(sinks@.skip(i as int).drop_first() =~= sinks@.skip(i + 1));
        }
        if sink_matches_exec(&sinks[i], callee) {
            return Some(sinks[i].clone());
        }
        i = i + 1;
    }
    proof {
        assert(sinks@.skip(n as int).len() == 0);
    }
    None
}

/// The views of the built-in sink patterns.
pub open spec fn default_sink_paths() -> Seq<Seq<char>> {
    seq![
        "libc"@,
        "winapi"@,
        "std::env"@,
        "std::fs"@,
        "std::net"@,
        "std::path"@,
        "std::process"@,
    ]
}

/// The built-in registry of dangerous callee paths.  Callers may extend
/// the set before scanning.
pub fn default_sinks() -> (r: Vec<IdentPath>)
    ensures
        r@.map_values(|p: IdentPath| p@) == default_sink_paths(),
{
    let mut r: Vec<IdentPath> = Vec::new();
    r.push(IdentPath::new("libc"));
    r.push(IdentPath::new("winapi"));
    r.push(IdentPath::new("std::env"));
    r.push(IdentPath::new("std::fs"));
    r.push(IdentPath::new("std::net"));
    r.push(IdentPath::new("std::path"));
    r.push(IdentPath::new("std::process"));
    proof {
        assert(r@.map_values(|p: IdentPath| p@) =~= default_sink_paths());
    }
    r
}

} // verus!
