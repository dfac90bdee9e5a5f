//! The textual form of a policy: a key-value table with one
//! `[[statements]]` entry per statement, tagged by statement type, with
//! string values quoted and escaped.  The round trip is lossless both
//! ways: the serializer's output is pinned exactly; a successful parse
//! is an exact preimage of its input; every serialized policy parses
//! back; and serialization is injective, so the preimage is unique.

use vstd::prelude::*;
use vstd::string::{StrSliceExecFns, StringExecFns};

use crate::ident::{FnCall, FnCallV};
use crate::policy::{Policy, PolicyV, Statement, StatementV};
use crate::text::{chars_of_str, str_eq, string_from_chars};

verus! {

/// One character of a quoted value, escaped: backslash, quote, newline
/// and carriage return get two-character escapes, the rest stand as
/// they are.
pub open spec fn esc_char(c: char) -> Seq<char> {
    if c == '\\' {
        seq!['\\', '\\']
    } else if c == '"' {
        seq!['\\', 'q']
    } else if c == '\n' {
        seq!['\\', 'n']
    } else if c == '\r' {
        seq!['\\', 'r']
    } else {
        seq![c]
    }
}

/// A whole value, escaped.
pub open spec fn escape(s: Seq<char>) -> Seq<char>
    decreases s.len(),
{
    if s.len() == 0 {
        Seq::empty()
    } else {
        esc_char(s.first()) + escape(s.drop_first())
    }
}

proof fn lemma_escape_concat(a: Seq<char>, b: Seq<char>)
    ensures
        escape(a + b) == escape(a) + escape(b),
    decreases a.len(),
{
    if a.len() == 0 {
        assert(a + b =~= b);
        assert(escape(a) + escape(b) =~= escape(b));
    } else {
        assert((a + b).first() == a.first());
        assert((a + b).drop_first() =~= a.drop_first() + b);
        lemma_escape_concat(a.drop_first(), b);
        assert(escape(a + b) =~= escape(a) + escape(b));
    }
}

proof fn lemma_escape_push(s: Seq<char>, c: char)
    ensures
        escape(s.push(c)) == escape(s) + esc_char(c),
{
    assert(s.push(c) =~= s + seq![c]);
    lemma_escape_concat(s, seq![c]);
    assert(escape(seq![c]) =~= esc_char(c)) by {
        assert(seq![c].len() == 1);
        assert(seq![c].first() == c);
        assert(escape(seq![c]) == esc_char(seq![c].first()) + escape(seq![c].drop_first()));
        assert(seq![c].drop_first() =~= Seq::<char>::empty());
        assert(seq![c].drop_first().len() == 0);
        assert(escape(seq![c].drop_first()) == Seq::<char>::empty());
        assert(esc_char(c) + Seq::<char>::empty() =~= esc_char(c));
    }
}

/// Decode an escaped value; anything but the canonical escaping of some
/// value is refused.
pub open spec fn unescape(e: Seq<char>) -> Option<Seq<char>>
    decreases e.len(),
{
    if e.len() == 0 {
        Some(Seq::empty())
    } else if e.first() == '\\' {
        if e.len() < 2 {
            None
        } else {
            let c = if e[1] == '\\' {
                Some('\\')
            } else if e[1] == 'q' {
                Some('"')
            } else if e[1] == 'n' {
                Some('\n')
            } else if e[1] == 'r' {
                Some('\r')
            } else {
                None
            };
            match c {
                Some(ch) => match unescape(e.drop_first().drop_first()) {
                    Some(rest) => Some(seq![ch] + rest),
                    None => None,
                },
                None => None,
            }
        }
    } else if e.first() == '"' || e.first() == '\n' || e.first() == '\r' {
        None
    } else {
        match unescape(e.drop_first()) {
            Some(rest) => Some(seq![e.first()] + rest),
            None => None,
        }
    }
}

/// Escaping then decoding is the identity: the escaping is lossless.
pub proof fn lemma_unescape_escape(s: Seq<char>)
    ensures
        unescape(escape(s)) == Some(s),
    decreases s.len(),
{
    if s.len() == 0 {
        assert(escape(s).len() == 0);
    } else {
        let c = s.first();
        let e = escape(s);
        lemma_unescape_escape(s.drop_first());
        if c == '\\' || c == '"' || c == '\n' || c == '\r' {
            assert(e =~= seq!['\\', esc_char(c)[1]] + escape(s.drop_first()));
            assert(e.first() == '\\');
            assert(e[1] == esc_char(c)[1]);
            assert(e.drop_first().drop_first() =~= escape(s.drop_first()));
            assert(seq![c] + s.drop_first() =~= s);
        } else {
            assert(e =~= seq![c] + escape(s.drop_first()));
            assert(e.first() == c);
            assert(e.drop_first() =~= escape(s.drop_first()));
            assert(seq![c] + s.drop_first() =~= s);
        }
    }
}

/// The escaping never leaves a raw quote or newline in the text.
pub proof fn lemma_escape_clean(s: Seq<char>)
    ensures
        forall|i: int| 0 <= i < escape(s).len() ==> escape(s)[i] != '"' && escape(s)[i] != '\n',
    decreases s.len(),
{
    if s.len() > 0 {
        lemma_escape_clean(s.drop_first());
        let e = escape(s);
        let h = esc_char(s.first());
        assert(e == h + escape(s.drop_first()));
        assert forall|i: int| 0 <= i < h.len() implies h[i] != '"' && h[i] != '\n' by {
            let c = s.first();
            if c == '\\' || c == '"' || c == '\n' || c == '\r' {
                assert(h.len() == 2);
                assert(h[0] == '\\');
                assert(h[1] == '\\' || h[1] == 'q' || h[1] == 'n' || h[1] == 'r');
            } else {
                assert(h.len() == 1);
                assert(h[0] == c);
            }
        }
        assert forall|i: int| 0 <= i < e.len() implies e[i] != '"' && e[i] != '\n' by {
            if i < h.len() {
                assert(e[i] == h[i]);
            } else {
                assert(e[i] == escape(s.drop_first())[i - h.len()]);
            }
        }
    }
}

/// One `key = "value"` line.
pub open spec fn kv_spec(key: Seq<char>, value: Seq<char>) -> Seq<char> {
    key + " = \""@ + escape(value) + "\"\n"@
}

/// The text of one statement: a `[[statements]]` header, the statement
/// type, and its fields.
pub open spec fn stmt_block(s: StatementV) -> Seq<char> {
    "[[statements]]\n"@ + match s {
        StatementV::Allow { region, effect } => kv_spec("type"@, "allow"@) + kv_spec(
            "region_path"@,
            region.path,
        ) + kv_spec("region_args"@, region.args) + kv_spec("effect_path"@, effect.path) + kv_spec(
            "effect_args"@,
            effect.args,
        ),
        StatementV::Require { region, effect } => kv_spec("type"@, "require"@) + kv_spec(
            "region_path"@,
            region.path,
        ) + kv_spec("region_args"@, region.args) + kv_spec("effect_path"@, effect.path) + kv_spec(
            "effect_args"@,
            effect.args,
        ),
        StatementV::Trust { region } => kv_spec("type"@, "trust"@) + kv_spec(
            "region_path"@,
            region.path,
        ) + kv_spec("region_args"@, region.args),
    }
}

/// The text of a statement list, in order.
pub open spec fn stmts_text(ss: Seq<StatementV>) -> Seq<char>
    decreases ss.len(),
{
    if ss.len() == 0 {
        Seq::empty()
    } else {
        stmt_block(ss.first()) + stmts_text(ss.drop_first())
    }
}

proof fn lemma_stmts_text_push(ss: Seq<StatementV>, s: StatementV)
    ensures
        stmts_text(ss.push(s)) == stmts_text(ss) + stmt_block(s),
    decreases ss.len(),
{
    if ss.len() == 0 {
        assert(ss.push(s).first() == s);
        assert(ss.push(s).drop_first() =~= Seq::<StatementV>::empty());
        assert(stmts_text(ss.push(s)) == stmt_block(s) + stmts_text(ss.push(s).drop_first()));
        assert(ss.push(s).drop_first().len() == 0);
        assert(stmts_text(ss.push(s).drop_first()) == Seq::<char>::empty());
        assert(stmts_text(ss.push(s)) =~= stmts_text(ss) + stmt_block(s));
    } else {
        assert(ss.push(s).first() == ss.first());
        assert(ss.push(s).drop_first() =~= ss.drop_first().push(s));
        lemma_stmts_text_push(ss.drop_first(), s);
        assert(stmts_text(ss.push(s)) == stmt_block(ss.first()) + stmts_text(
            ss.drop_first().push(s),
        ));
        assert(stmts_text(ss.push(s)) =~= stmts_text(ss) + stmt_block(s));
    }
}

/// The serialized policy: its header, then its statements.
pub open spec fn ser_policy(p: PolicyV) -> Seq<char> {
    kv_spec("crate_name"@, p.crate_name) + kv_spec("crate_version"@, p.crate_version) + kv_spec(
        "policy_version"@,
        p.policy_version,
    ) + stmts_text(p.statements)
}

/// Escape one value.
fn escape_str(s: &str) -> (r: String)
    ensures
        r@ == escape(s@),
{
    let chars = chars_of_str(s);
    let n = chars.len();
    let mut out: Vec<char> = Vec::new();
    proof {
        assert(chars@.take(0) =~= Seq::<char>::empty());
    }
    let mut i: usize = 0;
    while i < n
        invariant
            i <= n,
            n == chars@.len(),
            chars@ == s@,
            out@ == escape(chars@.take(i as int)),
        decreases n - i,
    {
        let c = chars[i];
        if c == '\\' {
            out.push('\\');
            out.push('\\');
        } else if c == '"' {
            out.push('\\');
            out.push('q');
        } else if c == '\n' {
            out.push('\\');
            out.push('n');
        } else if c == '\r' {
            out.push('\\');
            out.push('r');
        } else {
            out.push(c);
        }
        proof {
            assert(chars@.take(i + 1) =~= chars@.take(i as int).push(chars@[i as int]));
            lemma_escape_push(chars@.take(i as int), chars@[i as int]);
            assert(out@ =~= escape(chars@.take(i as int)) + esc_char(chars@[i as int]));
        }
        i = i + 1;
    }
    proof {
        assert(chars@.take(n as int) =~= chars@);
    }
    string_from_chars(out.as_slice())
}

/// Append one `key = "value"` line.
fn push_kv(out: &mut String, key: &str, value: &str)
    ensures
        final(out)@ == old(out)@ + kv_spec(key@, value@),
{
    out.append(key);
    out.append(" = \"");
    let esc = escape_str(value);
    out.append(esc.as_str());
    out.append("\"\n");
    proof {
        assert(final(out)@ =~= old(out)@ + kv_spec(key@, value@));
    }
}

/// Serialize a policy to its textual form.
pub fn serialize_policy(p: &Policy) -> (r: String)
    ensures
        r@ == ser_policy(p@),
{
    let mut out = String::new();
    push_kv(&mut out, "crate_name", p.crate_name());
    push_kv(&mut out, "crate_version", p.crate_version());
    push_kv(&mut out, "policy_version", p.policy_version());
    let ghost hdr = out@;
    let stmts = p.statements();
    let n = stmts.len();
    proof {
        assert(p@.statements.take(0) =~= Seq::<StatementV>::empty());
        assert(out@ =~= hdr + stmts_text(p@.statements.take(0)));
    }
    let mut i: usize = 0;
    while i < n
        invariant
            i <= n,
            n == stmts@.len(),
            p@.statements == stmts@.map_values(|s: Statement| s@),
            out@ == hdr + stmts_text(p@.statements.take(i as int)),
        decreases n - i,
    {
        push_stmt(&mut out, &stmts[i]);
        proof {
            assert(p@.statements.take(i + 1).drop_last() =~= p@.statements.take(i as int));
            assert(p@.statements.take(i + 1).last() == p@.statements[i as int]);
            assert(p@.statements[i as int] == stmts@[i as int]@);
            lemma_stmts_text_push_last(p@.statements.take(i + 1));
            assert(out@ =~= hdr + stmts_text(p@.statements.take(i + 1)));
        }
        i = i + 1;
    }
    proof {
        assert(p@.statements.take(n as int) =~= p@.statements);
        assert(out@ =~= ser_policy(p@));
    }
    out
}

proof fn lemma_stmts_text_push_last(ss: Seq<StatementV>)
    requires
        ss.len() > 0,
    ensures
        stmts_text(ss) == stmts_text(ss.drop_last()) + stmt_block(ss.last()),
{
    assert(ss =~= ss.drop_last().push(ss.last()));
    lemma_stmts_text_push(ss.drop_last(), ss.last());
}

/// Append the text of one statement.
fn push_stmt(out: &mut String, s: &Statement)
    ensures
        final(out)@ == old(out)@ + stmt_block(s@),
{
    let ghost base = out@;
    out.append("[[statements]]\n");
    match s {
        Statement::Allow { region, effect } => {
            push_kv(out, "type", "allow");
            push_kv(out, "region_path", region.fn_path().as_str());
            push_kv(out, "region_args", region.args());
            push_kv(out, "effect_path", effect.fn_path().as_str());
            push_kv(out, "effect_args", effect.args());
            proof {
                assert(out@ =~= base + stmt_block(s@));
            }
        }
        Statement::Require { region, effect } => {
            push_kv(out, "type", "require");
            push_kv(out, "region_path", region.fn_path().as_str());
            push_kv(out, "region_args", region.args());
            push_kv(out, "effect_path", effect.fn_path().as_str());
            push_kv(out, "effect_args", effect.args());
            proof {
                assert(out@ =~= base + stmt_block(s@));
            }
        }
        Statement::Trust { region } => {
            push_kv(out, "type", "trust");
            push_kv(out, "region_path", region.fn_path().as_str());
            push_kv(out, "region_args", region.args());
            proof {
                assert(out@ =~= base + stmt_block(s@));
            }
        }
    }
}

/// The text `t` stands at position `pos` of `s`.
pub open spec fn prefix_at(s: Seq<char>, pos: int, t: Seq<char>) -> bool {
    0 <= pos && pos + t.len() <= s.len() && s.subrange(pos, pos + t.len()) == t
}

proof fn lemma_prefix_split(s: Seq<char>, pos: int, a: Seq<char>, b: Seq<char>)
    requires
        prefix_at(s, pos, a + b),
    ensures
        prefix_at(s, pos, a),
        prefix_at(s, pos + a.len(), b),
{
    let t = a + b;
    assert(s.subrange(pos, pos + a.len()) =~= a) by {
        assert forall|i: int| 0 <= i < a.len() implies s.subrange(pos, pos + a.len())[i]
            == a[i] by {
            assert(s.subrange(pos, pos + t.len())[i] == t[i]);
        }
    }
    assert(s.subrange(pos + a.len(), pos + a.len() + b.len()) =~= b) by {
        assert forall|i: int| 0 <= i < b.len() implies s.subrange(
            pos + a.len(),
            pos + a.len() + b.len(),
        )[i] == b[i] by {
            assert(s.subrange(pos, pos + t.len())[a.len() + i] == t[a.len() + i]);
            assert(t[a.len() + i] == b[i]);
        }
    }
}

/// No raw quote character in the text.
pub open spec fn quote_free(s: Seq<char>) -> bool {
    forall|i: int| 0 <= i < s.len() ==> s[i] != '"'
}

/// Scan a quoted, escaped value starting at `pos`: the raw text up to
/// the first quote, which must be followed by a newline.  Decoding and
/// validation are the caller's business.
fn take_value_raw(chars: &Vec<char>, pos: usize) -> (r: Option<(Vec<char>, usize)>)
    requires
        pos <= chars@.len(),
    ensures
        r matches Some((raw, np)) ==> pos <= np <= chars@.len(),
        forall|ev: Seq<char>|
            quote_free(ev) && prefix_at(chars@, pos as int, ev + "\"\n"@) ==> (
            {
                &&& r matches Some((raw, np))
                &&& r->Some_0.0@ == ev
                &&& r->Some_0.1 == pos + ev.len() + 2
            }),
{
    proof {
        reveal_strlit("\"\n");
    }
    let n = chars.len();
    let mut q = pos;
    let mut raw: Vec<char> = Vec::new();
    while q < n && chars[q] != '"'
        invariant
            pos <= q <= n,
            n == chars@.len(),
            raw@ == chars@.subrange(pos as int, q as int),
            forall|j: int| pos <= j < q ==> chars@[j] != '"',
        decreases n - q,
    {
        raw.push(chars[q]);
        proof {
            assert(raw@ =~= chars@.subrange(pos as int, q + 1));
        }
        q = q + 1;
    }
    proof {
        assert forall|ev: Seq<char>|
            quote_free(ev) && prefix_at(chars@, pos as int, ev + "\"\n"@) implies q as int == pos
            + ev.len() && q + 1 < n && chars@[q as int] == '"' && chars@[q + 1] == '\n'
            && chars@.subrange(pos as int, q as int) == ev by {
            let t = ev + "\"\n"@;
            let el = ev.len() as int;
            let pe = pos as int + el;
            assert(chars@.subrange(pos as int, pos as int + t.len())[el] == t[el]);
            assert(chars@[pe] == '"');
            assert(chars@.subrange(pos as int, pos as int + t.len())[el + 1] == t[el + 1]);
            assert(chars@[pe + 1] == '\n');
            assert(q as int == pe) by {
                if (q as int) < pe {
                    assert(chars@.subrange(pos as int, pos as int + t.len())[q - pos] == t[q
                        - pos]);
                    assert(chars@[q as int] == ev[q - pos]);
                    assert(ev[q - pos] != '"');
                    assert(q < n && chars@[q as int] != '"');
                }
                if (q as int) > pe {
                    assert(chars@[pe] != '"');
                }
            }
            assert(chars@.subrange(pos as int, q as int) =~= ev) by {
                assert forall|i: int| 0 <= i < el implies chars@.subrange(pos as int, q as int)[i]
                    == ev[i] by {
                    assert(chars@.subrange(pos as int, pos as int + t.len())[i] == t[i]);
                }
            }
        }
    }
    if q < n && chars[q] == '"' {
        if q + 1 < n && chars[q + 1] == '\n' {
            Some((raw, q + 2))
        } else {
            None
        }
    } else {
        None
    }
}

/// Decode an escaped value; anything non-canonical is refused.
fn unescape_chars(raw: &Vec<char>) -> (r: Option<Vec<char>>)
    ensures
        match r {
            Some(out) => unescape(raw@) == Some(out@),
            None => unescape(raw@) is None,
        },
{
    let n = raw.len();
    let mut out: Vec<char> = Vec::new();
    let mut i: usize = 0;
    proof {
        assert(raw@.skip(0) =~= raw@);
    }
    while i < n
        invariant
            i <= n,
            n == raw@.len(),
            match unescape(raw@.skip(i as int)) {
                Some(tail) => unescape(raw@) == Some(out@ + tail),
                None => unescape(raw@) is None,
            },
        decreases n - i,
    {
        let ghost rem = raw@.skip(i as int);
        proof {
            assert(rem.len() > 0);
            assert(rem.first() == raw@[i as int]);
            assert(rem.drop_first() =~= raw@.skip(i + 1));
        }
        let c = raw[i];
        if c == '\\' {
            if i + 1 >= n {
                proof {
                    assert(rem.len() < 2);
                    assert(unescape(rem) is None);
                }
                return None;
            }
            proof {
                assert(rem[1] == raw@[i + 1]);
                assert(rem.drop_first().drop_first() =~= raw@.skip(i + 2));
            }
            let d = raw[i + 1];
            if d == '\\' {
                out.push('\\');
            } else if d == 'q' {
                out.push('"');
            } else if d == 'n' {
                out.push('\n');
            } else if d == 'r' {
                out.push('\r');
            } else {
                proof {
                    assert(unescape(rem) is None);
                }
                return None;
            }
            proof {
                let ch = out@.last();
                assert(unescape(rem) == match unescape(raw@.skip(i + 2)) {
                    Some(rest) => Some(seq![ch] + rest),
                    None => None::<Seq<char>>,
                });
                match unescape(raw@.skip(i + 2)) {
                    Some(rest) => {
                        assert(out@ + rest =~= out@.drop_last() + (seq![ch] + rest));
                    }
                    None => {}
                }
            }
            i = i + 2;
        } else if c == '"' || c == '\n' || c == '\r' {
            proof {
                assert(unescape(rem) is None);
            }
            return None;
        } else {
            out.push(c);
            proof {
                assert(unescape(rem) == match unescape(raw@.skip(i + 1)) {
                    Some(rest) => Some(seq![c] + rest),
                    None => None::<Seq<char>>,
                });
                match unescape(raw@.skip(i + 1)) {
                    Some(rest) => {
                        assert(out@ + rest =~= out@.drop_last() + (seq![c] + rest));
                    }
                    None => {}
                }
            }
            i = i + 1;
        }
    }
    proof {
        assert(raw@.skip(n as int).len() == 0);
        assert(unescape(raw@.skip(n as int)) == Some(Seq::<char>::empty()));
        assert(out@ + Seq::<char>::empty() =~= out@);
    }
    Some(out)
}

/// Expect the literal at `pos`, returning the position after it.
fn expect_lit(chars: &Vec<char>, pos: usize, lit: &str) -> (r: Option<usize>)
    ensures
        match r {
            Some(np) => pos <= np <= chars@.len() && np == pos + lit@.len() && prefix_at(
                chars@,
                pos as int,
                lit@,
            ),
            None => !prefix_at(chars@, pos as int, lit@),
        },
{
    let m = lit.unicode_len();
    let n = chars.len();
    if pos > n || m > n - pos {
        return None;
    }
    let mut i: usize = 0;
    while i < m
        invariant
            i <= m,
            m == lit@.len(),
            n == chars@.len(),
            pos + m <= n,
            forall|j: int| 0 <= j < i ==> chars@[pos + j] == lit@[j],
        decreases m - i,
    {
        if chars[pos + i] != lit.get_char(i) {
            proof {
                if prefix_at(chars@, pos as int, lit@) {
                    assert(chars@.subrange(pos as int, pos as int + lit@.len())[i as int]
                        == lit@[i as int]);
                }
            }
            return None;
        }
        i = i + 1;
    }
    proof {
        assert(chars@.subrange(pos as int, pos as int + lit@.len()) =~= lit@);
    }
    Some(pos + m)
}

/// Read one `key = "value"` line at `pos`.
fn read_kv(chars: &Vec<char>, pos: usize, key: &str) -> (r: Option<(String, usize)>)
    requires
        pos <= chars@.len(),
    ensures
        r matches Some(t) ==> pos <= t.1 <= chars@.len(),
        forall|v: Seq<char>|
            prefix_at(chars@, pos as int, kv_spec(key@, v)) ==> (
            {
                &&& r matches Some(t)
                &&& r->Some_0.0@ == v
                &&& r->Some_0.1 as int == pos + kv_spec(key@, v).len()
            }),
{
    proof {
        reveal_strlit(" = \"");
        reveal_strlit("\"\n");
    }
    let p1 = match expect_lit(chars, pos, key) {
        Some(p) => p,
        None => {
            proof {
                assert forall|v: Seq<char>|
                    prefix_at(chars@, pos as int, kv_spec(key@, v)) implies false by {
                    assert(kv_spec(key@, v) =~= key@ + (" = \""@ + escape(v) + "\"\n"@));
                    lemma_prefix_split(chars@, pos as int, key@, " = \""@ + escape(v) + "\"\n"@);
                }
            }
            return None;
        }
    };
    let p2 = match expect_lit(chars, p1, " = \"") {
        Some(p) => p,
        None => {
            proof {
                assert forall|v: Seq<char>|
                    prefix_at(chars@, pos as int, kv_spec(key@, v)) implies false by {
                    assert(kv_spec(key@, v) =~= key@ + (" = \""@ + (escape(v) + "\"\n"@)));
                    lemma_prefix_split(chars@, pos as int, key@, " = \""@ + (escape(v) + "\"\n"@));
                    lemma_prefix_split(chars@, p1 as int, " = \""@, escape(v) + "\"\n"@);
                }
            }
            return None;
        }
    };
    let taken = take_value_raw(chars, p2);
    let (raw, p3) = match taken {
        Some(t) => t,
        None => {
            proof {
                assert forall|v: Seq<char>|
                    prefix_at(chars@, pos as int, kv_spec(key@, v)) implies false by {
                    assert(kv_spec(key@, v) =~= key@ + (" = \""@ + (escape(v) + "\"\n"@)));
                    lemma_prefix_split(chars@, pos as int, key@, " = \""@ + (escape(v) + "\"\n"@));
                    lemma_prefix_split(chars@, p1 as int, " = \""@, escape(v) + "\"\n"@);
                    lemma_escape_clean(v);
                    assert(quote_free(escape(v)));
                }
            }
            return None;
        }
    };
    let val = match unescape_chars(&raw) {
        Some(v) => v,
        None => {
            proof {
                assert forall|v: Seq<char>|
                    prefix_at(chars@, pos as int, kv_spec(key@, v)) implies false by {
                    assert(kv_spec(key@, v) =~= key@ + (" = \""@ + (escape(v) + "\"\n"@)));
                    lemma_prefix_split(chars@, pos as int, key@, " = \""@ + (escape(v) + "\"\n"@));
                    lemma_prefix_split(chars@, p1 as int, " = \""@, escape(v) + "\"\n"@);
                    lemma_escape_clean(v);
                    assert(quote_free(escape(v)));
                    assert(raw@ == escape(v));
                    lemma_unescape_escape(v);
                }
            }
            return None;
        }
    };
    proof {
        assert forall|v: Seq<char>|
            prefix_at(chars@, pos as int, kv_spec(key@, v)) implies val@ == v && p3 as int == pos
            + kv_spec(key@, v).len() by {
            assert(kv_spec(key@, v) =~= key@ + (" = \""@ + (escape(v) + "\"\n"@)));
            lemma_prefix_split(chars@, pos as int, key@, " = \""@ + (escape(v) + "\"\n"@));
            lemma_prefix_split(chars@, p1 as int, " = \""@, escape(v) + "\"\n"@);
            lemma_escape_clean(v);
            assert(quote_free(escape(v)));
            assert(raw@ == escape(v));
            lemma_unescape_escape(v);
            assert(kv_spec(key@, v).len() == key@.len() + 4 + escape(v).len() + 2);
        }
    }
    Some((string_from_chars(val.as_slice()), p3))
}

/// The region pattern of a statement.
pub open spec fn region_fc(s: StatementV) -> FnCallV {
    match s {
        StatementV::Allow { region, .. } => region,
        StatementV::Require { region, .. } => region,
        StatementV::Trust { region } => region,
    }
}

/// The effect pattern of a statement (for `Trust`, its region).
pub open spec fn effect_fc(s: StatementV) -> FnCallV {
    match s {
        StatementV::Allow { effect, .. } => effect,
        StatementV::Require { effect, .. } => effect,
        StatementV::Trust { region } => region,
    }
}

/// Where each line of a statement's text stands, when the text stands at
/// `pos`.
proof fn lemma_stmt_block_splits(chars: Seq<char>, pos: int, sv: StatementV)
    requires
        prefix_at(chars, pos, stmt_block(sv)),
    ensures
        prefix_at(chars, pos, "[[statements]]\n"@),
        prefix_at(chars, pos + 15, kv_spec("type"@, type_tag(sv))),
        prefix_at(
            chars,
            pos + 15 + kv_spec("type"@, type_tag(sv)).len(),
            kv_spec("region_path"@, region_fc(sv).path),
        ),
        prefix_at(
            chars,
            pos + 15 + kv_spec("type"@, type_tag(sv)).len() + kv_spec(
                "region_path"@,
                region_fc(sv).path,
            ).len(),
            kv_spec("region_args"@, region_fc(sv).args),
        ),
        !(sv is Trust) ==> prefix_at(
            chars,
            pos + 15 + kv_spec("type"@, type_tag(sv)).len() + kv_spec(
                "region_path"@,
                region_fc(sv).path,
            ).len() + kv_spec("region_args"@, region_fc(sv).args).len(),
            kv_spec("effect_path"@, effect_fc(sv).path),
        ),
        !(sv is Trust) ==> prefix_at(
            chars,
            pos + 15 + kv_spec("type"@, type_tag(sv)).len() + kv_spec(
                "region_path"@,
                region_fc(sv).path,
            ).len() + kv_spec("region_args"@, region_fc(sv).args).len() + kv_spec(
                "effect_path"@,
                effect_fc(sv).path,
            ).len(),
            kv_spec("effect_args"@, effect_fc(sv).args),
        ),
        sv is Trust ==> pos + stmt_block(sv).len() == pos + 15 + kv_spec(
            "type"@,
            type_tag(sv),
        ).len() + kv_spec("region_path"@, region_fc(sv).path).len() + kv_spec(
            "region_args"@,
            region_fc(sv).args,
        ).len(),
        !(sv is Trust) ==> pos + stmt_block(sv).len() == pos + 15 + kv_spec(
            "type"@,
            type_tag(sv),
        ).len() + kv_spec("region_path"@, region_fc(sv).path).len() + kv_spec(
            "region_args"@,
            region_fc(sv).args,
        ).len() + kv_spec("effect_path"@, effect_fc(sv).path).len() + kv_spec(
            "effect_args"@,
            effect_fc(sv).args,
        ).len(),
{
    reveal_strlit("[[statements]]\n");
    assert("[[statements]]\n"@.len() == 15);
    let hdr = "[[statements]]\n"@;
    let tykv = kv_spec("type"@, type_tag(sv));
    let rpkv = kv_spec("region_path"@, region_fc(sv).path);
    let rakv = kv_spec("region_args"@, region_fc(sv).args);
    match sv {
        StatementV::Trust { region } => {
            assert(stmt_block(sv) =~= hdr + (tykv + (rpkv + rakv)));
            lemma_prefix_split(chars, pos, hdr, tykv + (rpkv + rakv));
            lemma_prefix_split(chars, pos + 15, tykv, rpkv + rakv);
            lemma_prefix_split(chars, pos + 15 + tykv.len(), rpkv, rakv);
        }
        _ => {
            let epkv = kv_spec("effect_path"@, effect_fc(sv).path);
            let eakv = kv_spec("effect_args"@, effect_fc(sv).args);
            assert(stmt_block(sv) =~= hdr + (tykv + (rpkv + (rakv + (epkv + eakv)))));
            lemma_prefix_split(chars, pos, hdr, tykv + (rpkv + (rakv + (epkv + eakv))));
            lemma_prefix_split(chars, pos + 15, tykv, rpkv + (rakv + (epkv + eakv)));
            lemma_prefix_split(chars, pos + 15 + tykv.len(), rpkv, rakv + (epkv + eakv));
            lemma_prefix_split(chars, pos + 15 + tykv.len() + rpkv.len(), rakv, epkv + eakv);
            lemma_prefix_split(
                chars,
                pos + 15 + tykv.len() + rpkv.len() + rakv.len(),
                epkv,
                eakv,
            );
        }
    }
}

/// Read one `[[statements]]` entry at `pos`.
fn read_stmt(chars: &Vec<char>, pos: usize) -> (r: Option<(Statement, usize)>)
    requires
        pos <= chars@.len(),
    ensures
        r matches Some(t) ==> pos <= t.1 <= chars@.len(),
        forall|sv: StatementV|
            prefix_at(chars@, pos as int, stmt_block(sv)) ==> (
            {
                &&& r matches Some(t)
                &&& r->Some_0.0@ == sv
                &&& r->Some_0.1 as int == pos + stmt_block(sv).len()
            }),
{
    proof {
        reveal_strlit("[[statements]]\n");
        reveal_strlit("allow");
        reveal_strlit("require");
        reveal_strlit("trust");
        assert("allow"@.len() == 5);
        assert("trust"@.len() == 5);
        assert("require"@.len() == 7);
        assert("allow"@[0] == 'a');
        assert("trust"@[0] == 't');
    }
    let p0 = match expect_lit(chars, pos, "[[statements]]\n") {
        Some(p) => p,
        None => {
            proof {
                assert forall|sv: StatementV|
                    prefix_at(chars@, pos as int, stmt_block(sv)) implies false by {
                    lemma_stmt_block_splits(chars@, pos as int, sv);
                }
            }
            return None;
        }
    };
    let (ty, p1) = match read_kv(chars, p0, "type") {
        Some(t) => t,
        None => {
            proof {
                assert forall|sv: StatementV|
                    prefix_at(chars@, pos as int, stmt_block(sv)) implies false by {
                    lemma_stmt_block_splits(chars@, pos as int, sv);
                }
            }
            return None;
        }
    };
    let (rp, p2) = match read_kv(chars, p1, "region_path") {
        Some(t) => t,
        None => {
            proof {
                assert forall|sv: StatementV|
                    prefix_at(chars@, pos as int, stmt_block(sv)) implies false by {
                    lemma_stmt_block_splits(chars@, pos as int, sv);
                }
            }
            return None;
        }
    };
    let (ra, p3) = match read_kv(chars, p2, "region_args") {
        Some(t) => t,
        None => {
            proof {
                assert forall|sv: StatementV|
                    prefix_at(chars@, pos as int, stmt_block(sv)) implies false by {
                    lemma_stmt_block_splits(chars@, pos as int, sv);
                }
            }
            return None;
        }
    };
    if str_eq(ty.as_str(), "trust") {
        let region = FnCall::new(rp.as_str(), ra.as_str());
        let st = Statement::Trust { region };
        proof {
            assert forall|sv: StatementV|
                prefix_at(chars@, pos as int, stmt_block(sv)) implies st@ == sv && p3 as int == pos
                + stmt_block(sv).len() by {
                lemma_stmt_block_splits(chars@, pos as int, sv);
                assert(ty@ == type_tag(sv));
                assert(sv is Trust);
                assert(rp@ == region_fc(sv).path);
                assert(ra@ == region_fc(sv).args);
            }
        }
        return Some((st, p3));
    }
    let (ep, p4) = match read_kv(chars, p3, "effect_path") {
        Some(t) => t,
        None => {
            proof {
                assert forall|sv: StatementV|
                    prefix_at(chars@, pos as int, stmt_block(sv)) implies false by {
                    lemma_stmt_block_splits(chars@, pos as int, sv);
                    assert(ty@ == type_tag(sv));
                    assert(!(sv is Trust));
                }
            }
            return None;
        }
    };
    let (ea, p5) = match read_kv(chars, p4, "effect_args") {
        Some(t) => t,
        None => {
            proof {
                assert forall|sv: StatementV|
                    prefix_at(chars@, pos as int, stmt_block(sv)) implies false by {
                    lemma_stmt_block_splits(chars@, pos as int, sv);
                    assert(ty@ == type_tag(sv));
                    assert(!(sv is Trust));
                }
            }
            return None;
        }
    };
    if str_eq(ty.as_str(), "allow") {
        let eff = FnCall::new(ep.as_str(), ea.as_str());
        let st = Statement::allow(rp.as_str(), ra.as_str(), eff);
        proof {
            assert forall|sv: StatementV|
                prefix_at(chars@, pos as int, stmt_block(sv)) implies st@ == sv && p5 as int == pos
                + stmt_block(sv).len() by {
                lemma_stmt_block_splits(chars@, pos as int, sv);
                assert(ty@ == type_tag(sv));
                assert(sv is Allow);
                assert(rp@ == region_fc(sv).path);
                assert(ra@ == region_fc(sv).args);
                assert(ep@ == effect_fc(sv).path);
                assert(ea@ == effect_fc(sv).args);
            }
        }
        Some((st, p5))
    } else if str_eq(ty.as_str(), "require") {
        let eff = FnCall::new(ep.as_str(), ea.as_str());
        let st = Statement::require(rp.as_str(), ra.as_str(), eff);
        proof {
            assert forall|sv: StatementV|
                prefix_at(chars@, pos as int, stmt_block(sv)) implies st@ == sv && p5 as int == pos
                + stmt_block(sv).len() by {
                lemma_stmt_block_splits(chars@, pos as int, sv);
                assert(ty@ == type_tag(sv));
                assert(sv is Require);
                assert(rp@ == region_fc(sv).path);
                assert(ra@ == region_fc(sv).args);
                assert(ep@ == effect_fc(sv).path);
                assert(ea@ == effect_fc(sv).args);
            }
        }
        Some((st, p5))
    } else {
        proof {
            assert forall|sv: StatementV|
                prefix_at(chars@, pos as int, stmt_block(sv)) implies false by {
                lemma_stmt_block_splits(chars@, pos as int, sv);
                assert(ty@ == type_tag(sv));
            }
        }
        None
    }
}

/// Parse the textual form of a policy.  A text is accepted exactly when
/// re-serializing the candidate reproduces it, so a successful parse is
/// an exact preimage of the input under `serialize_policy`; and every
/// serialized policy parses back.
pub fn parse_policy(s: &str) -> (r: Option<Policy>)
    ensures
        r matches Some(q) ==> ser_policy(q@) == s@,
        forall|pv: PolicyV|
            s@ == ser_policy(pv) ==> (
            {
                &&& r matches Some(q)
                &&& r->Some_0@ == pv
            }),
{
    let candidate = parse_policy_lenient(s);
    match candidate {
        Some(q) => {
            let back = serialize_policy(&q);
            if str_eq(back.as_str(), s) {
                proof {
                    assert forall|pv: PolicyV| s@ == ser_policy(pv) implies q@ == pv by {
                        assert(q@.crate_name == pv.crate_name);
                        assert(q@.statements == pv.statements);
                    }
                }
                Some(q)
            } else {
                proof {
                    assert forall|pv: PolicyV| s@ == ser_policy(pv) implies false by {
                        assert(q@.crate_name == pv.crate_name);
                        assert(q@.crate_version == pv.crate_version);
                        assert(q@.policy_version == pv.policy_version);
                        assert(q@.statements == pv.statements);
                        assert(q@ == pv);
                        assert(back@ == ser_policy(pv));
                    }
                }
                None
            }
        }
        None => None,
    }
}

/// Serialization round-trip: parsing a policy's own textual form gives
/// the policy back.
pub fn reparse_policy(p: &Policy) -> (r: Policy)
    ensures
        r@.crate_name == p@.crate_name,
        r@.crate_version == p@.crate_version,
        r@.policy_version == p@.policy_version,
        r@.statements == p@.statements,
{
    let text = serialize_policy(p);
    let parsed = parse_policy(text.as_str());
    match parsed {
        Some(q) => q,
        None => {
            proof {
                assert(text@ == ser_policy(p@));
                assert(false);
            }
            p.clone()
        }
    }
}

/// The raw parse, structured like the serializer/// The raw parse, structured like the serializer; its result is checked
/// by `parse_policy`.
proof fn lemma_concat_cancel_left(a: Seq<char>, x: Seq<char>, y: Seq<char>)
    requires
        a + x == a + y,
    ensures
        x == y,
{
    assert((a + x).len() == a.len() + x.len());
    assert((a + y).len() == a.len() + y.len());
    assert(x.len() == y.len());
    assert forall|i: int| 0 <= i < x.len() implies x[i] == y[i] by {
        assert((a + x)[a.len() + i] == x[i]);
        assert((a + y)[a.len() + i] == y[i]);
    }
    assert(x =~= y);
}

/// Escaping is injective.
proof fn lemma_escape_inj(a: Seq<char>, b: Seq<char>)
    requires
        escape(a) == escape(b),
    ensures
        a == b,
{
    lemma_unescape_escape(a);
    lemma_unescape_escape(b);
}

/// A `key = "value"` line followed by anything determines the value and
/// the rest.
proof fn lemma_kv_cancel(k: Seq<char>, v1: Seq<char>, v2: Seq<char>, r1: Seq<char>, r2: Seq<char>)
    requires
        kv_spec(k, v1) + r1 == kv_spec(k, v2) + r2,
    ensures
        v1 == v2,
        r1 == r2,
{
    reveal_strlit("\"\n");
    let e1 = escape(v1);
    let e2 = escape(v2);
    let pre = k + " = \""@;
    let q = "\"\n"@;
    assert(q.len() == 2);
    assert(q[0] == '"');
    let x1 = e1 + q + r1;
    let x2 = e2 + q + r2;
    assert(kv_spec(k, v1) + r1 =~= pre + x1);
    assert(kv_spec(k, v2) + r2 =~= pre + x2);
    lemma_concat_cancel_left(pre, x1, x2);
    lemma_escape_clean(v1);
    lemma_escape_clean(v2);
    assert(e1.len() == e2.len()) by {
        if e1.len() < e2.len() {
            assert(x1[e1.len() as int] == q[0]);
            assert(x2[e1.len() as int] == e2[e1.len() as int]);
            assert(e2[e1.len() as int] != '"');
        }
        if e2.len() < e1.len() {
            assert(x2[e2.len() as int] == q[0]);
            assert(x1[e2.len() as int] == e1[e2.len() as int]);
            assert(e1[e2.len() as int] != '"');
        }
    }
    assert(e1 =~= e2) by {
        assert forall|i: int| 0 <= i < e1.len() implies e1[i] == e2[i] by {
            assert(x1[i] == e1[i]);
            assert(x2[i] == e2[i]);
        }
    }
    lemma_escape_inj(v1, v2);
    assert(x1 =~= (e1 + q) + r1);
    assert(x2 =~= (e1 + q) + r2);
    lemma_concat_cancel_left(e1 + q, r1, r2);
}

/// A statement's text followed by anything determines the statement and
/// the rest.
#[verifier::rlimit(100)]
#[verifier::spinoff_prover]
proof fn lemma_stmt_cancel(s1: StatementV, s2: StatementV, r1: Seq<char>, r2: Seq<char>)
    requires
        stmt_block(s1) + r1 == stmt_block(s2) + r2,
    ensures
        s1 == s2,
        r1 == r2,
{
    reveal_strlit("allow");
    reveal_strlit("require");
    reveal_strlit("trust");
    let hdr = "[[statements]]\n"@;
    let t1 = stmt_tail(s1);
    let t2 = stmt_tail(s2);
    assert(stmt_block(s1) + r1 =~= hdr + (t1 + r1));
    assert(stmt_block(s2) + r2 =~= hdr + (t2 + r2));
    lemma_concat_cancel_left(hdr, t1 + r1, t2 + r2);
    let ty1 = type_tag(s1);
    let ty2 = type_tag(s2);
    assert(t1 + r1 =~= kv_spec("type"@, ty1) + (after_type(s1) + r1));
    assert(t2 + r2 =~= kv_spec("type"@, ty2) + (after_type(s2) + r2));
    lemma_kv_cancel("type"@, ty1, ty2, after_type(s1) + r1, after_type(s2) + r2);
    assert(ty1 == ty2);
    assert(same_variant(s1, s2)) by {
        assert("allow"@.len() == 5);
        assert("trust"@.len() == 5);
        assert("require"@.len() == 7);
        assert("allow"@[0] == 'a');
        assert("trust"@[0] == 't');
    }
    match (s1, s2) {
        (
            StatementV::Allow { region: ra, effect: ea },
            StatementV::Allow { region: rb, effect: eb },
        ) => {
            lemma_fields_cancel(ra, ea, rb, eb, r1, r2);
        }
        (
            StatementV::Require { region: ra, effect: ea },
            StatementV::Require { region: rb, effect: eb },
        ) => {
            lemma_fields_cancel(ra, ea, rb, eb, r1, r2);
        }
        (StatementV::Trust { region: ra }, StatementV::Trust { region: rb }) => {
            let u1 = kv_spec("region_args"@, ra.args) + r1;
            let u2 = kv_spec("region_args"@, rb.args) + r2;
            assert(after_type(s1) + r1 =~= kv_spec("region_path"@, ra.path) + u1);
            assert(after_type(s2) + r2 =~= kv_spec("region_path"@, rb.path) + u2);
            lemma_kv_cancel("region_path"@, ra.path, rb.path, u1, u2);
            lemma_kv_cancel("region_args"@, ra.args, rb.args, r1, r2);
        }
        _ => {
            assert(false);
        }
    }
}

/// The statement's type tag.
pub open spec fn type_tag(s: StatementV) -> Seq<char> {
    match s {
        StatementV::Allow { .. } => "allow"@,
        StatementV::Require { .. } => "require"@,
        StatementV::Trust { .. } => "trust"@,
    }
}

pub open spec fn same_variant(a: StatementV, b: StatementV) -> bool {
    match (a, b) {
        (StatementV::Allow { .. }, StatementV::Allow { .. }) => true,
        (StatementV::Require { .. }, StatementV::Require { .. }) => true,
        (StatementV::Trust { .. }, StatementV::Trust { .. }) => true,
        _ => false,
    }
}

/// A statement's text after the header.
pub open spec fn stmt_tail(s: StatementV) -> Seq<char> {
    kv_spec("type"@, type_tag(s)) + after_type(s)
}

/// A statement's text after the header and the type line.
pub open spec fn after_type(s: StatementV) -> Seq<char> {
    match s {
        StatementV::Allow { region, effect } => kv_spec("region_path"@, region.path) + kv_spec(
            "region_args"@,
            region.args,
        ) + kv_spec("effect_path"@, effect.path) + kv_spec("effect_args"@, effect.args),
        StatementV::Require { region, effect } => kv_spec("region_path"@, region.path) + kv_spec(
            "region_args"@,
            region.args,
        ) + kv_spec("effect_path"@, effect.path) + kv_spec("effect_args"@, effect.args),
        StatementV::Trust { region } => kv_spec("region_path"@, region.path) + kv_spec(
            "region_args"@,
            region.args,
        ),
    }
}

proof fn lemma_fields_cancel(
    ra: FnCallV,
    ea: FnCallV,
    rb: FnCallV,
    eb: FnCallV,
    r1: Seq<char>,
    r2: Seq<char>,
)
    requires
        kv_spec("region_path"@, ra.path) + kv_spec("region_args"@, ra.args) + kv_spec(
            "effect_path"@,
            ea.path,
        ) + kv_spec("effect_args"@, ea.args) + r1 == kv_spec("region_path"@, rb.path) + kv_spec(
            "region_args"@,
            rb.args,
        ) + kv_spec("effect_path"@, eb.path) + kv_spec("effect_args"@, eb.args) + r2,
    ensures
        ra == rb,
        ea == eb,
        r1 == r2,
{
    let u1 = kv_spec("region_args"@, ra.args) + (kv_spec("effect_path"@, ea.path) + (kv_spec(
        "effect_args"@,
        ea.args,
    ) + r1));
    let u2 = kv_spec("region_args"@, rb.args) + (kv_spec("effect_path"@, eb.path) + (kv_spec(
        "effect_args"@,
        eb.args,
    ) + r2));
    assert(kv_spec("region_path"@, ra.path) + kv_spec("region_args"@, ra.args) + kv_spec(
        "effect_path"@,
        ea.path,
    ) + kv_spec("effect_args"@, ea.args) + r1 =~= kv_spec("region_path"@, ra.path) + u1);
    assert(kv_spec("region_path"@, rb.path) + kv_spec("region_args"@, rb.args) + kv_spec(
        "effect_path"@,
        eb.path,
    ) + kv_spec("effect_args"@, eb.args) + r2 =~= kv_spec("region_path"@, rb.path) + u2);
    lemma_kv_cancel("region_path"@, ra.path, rb.path, u1, u2);
    lemma_kv_cancel(
        "region_args"@,
        ra.args,
        rb.args,
        kv_spec("effect_path"@, ea.path) + (kv_spec("effect_args"@, ea.args) + r1),
        kv_spec("effect_path"@, eb.path) + (kv_spec("effect_args"@, eb.args) + r2),
    );
    lemma_kv_cancel(
        "effect_path"@,
        ea.path,
        eb.path,
        kv_spec("effect_args"@, ea.args) + r1,
        kv_spec("effect_args"@, eb.args) + r2,
    );
    lemma_kv_cancel("effect_args"@, ea.args, eb.args, r1, r2);
}

/// Statement lists with the same text are the same list.
proof fn lemma_stmts_text_inj(a: Seq<StatementV>, b: Seq<StatementV>)
    requires
        stmts_text(a) == stmts_text(b),
    ensures
        a == b,
    decreases a.len(),
{
    reveal_strlit("[[statements]]\n");
    assert("[[statements]]\n"@.len() == 15);
    if a.len() == 0 {
        if b.len() > 0 {
            assert(stmts_text(b).len() >= stmt_block(b.first()).len());
            assert(stmt_block(b.first()).len() >= 15);
        }
        assert(b.len() == 0);
        assert(a =~= b);
    } else {
        assert(a.len() > 0);
        assert(b.len() > 0) by {
            if b.len() == 0 {
                assert(stmts_text(a).len() >= stmt_block(a.first()).len());
                assert(stmt_block(a.first()).len() >= 15);
            }
        }
        lemma_stmt_cancel(a.first(), b.first(), stmts_text(a.drop_first()), stmts_text(
            b.drop_first(),
        ));
        lemma_stmts_text_inj(a.drop_first(), b.drop_first());
        assert(a =~= b) by {
            assert(a.first() == b.first());
            assert forall|i: int| 0 <= i < a.len() implies a[i] == b[i] by {
                if i > 0 {
                    assert(a.drop_first()[i - 1] == b.drop_first()[i - 1]);
                }
            }
        }
    }
}

/// Policy round-trip: the textual form is lossless.  Serialization is
/// injective, so together with `parse_policy`'s contract — a successful
/// parse re-serializes exactly to its input — any policy that
/// `parse_policy(serialize_policy(p))` returns has the content of `p`.
pub proof fn lemma_policy_round_trip(p: PolicyV, q: PolicyV)
    requires
        ser_policy(q) == ser_policy(p),
    ensures
        q.crate_name == p.crate_name,
        q.crate_version == p.crate_version,
        q.policy_version == p.policy_version,
        q.statements == p.statements,
{
    let u1 = kv_spec("crate_version"@, q.crate_version) + (kv_spec(
        "policy_version"@,
        q.policy_version,
    ) + stmts_text(q.statements));
    let u2 = kv_spec("crate_version"@, p.crate_version) + (kv_spec(
        "policy_version"@,
        p.policy_version,
    ) + stmts_text(p.statements));
    assert(ser_policy(q) =~= kv_spec("crate_name"@, q.crate_name) + u1);
    assert(ser_policy(p) =~= kv_spec("crate_name"@, p.crate_name) + u2);
    lemma_kv_cancel("crate_name"@, q.crate_name, p.crate_name, u1, u2);
    lemma_kv_cancel(
        "crate_version"@,
        q.crate_version,
        p.crate_version,
        kv_spec("policy_version"@, q.policy_version) + stmts_text(q.statements),
        kv_spec("policy_version"@, p.policy_version) + stmts_text(p.statements),
    );
    lemma_kv_cancel(
        "policy_version"@,
        q.policy_version,
        p.policy_version,
        stmts_text(q.statements),
        stmts_text(p.statements),
    );
    lemma_stmts_text_inj(q.statements, p.statements);
}


fn parse_policy_lenient(s: &str) -> (r: Option<Policy>)
    ensures
        forall|pv: PolicyV|
            s@ == ser_policy(pv) ==> (
            {
                &&& r matches Some(q)
                &&& r->Some_0@.crate_name == pv.crate_name
                &&& r->Some_0@.crate_version == pv.crate_version
                &&& r->Some_0@.policy_version == pv.policy_version
                &&& r->Some_0@.statements == pv.statements
            }),
{
    proof {
        reveal_strlit("[[statements]]\n");
        assert("[[statements]]\n"@.len() == 15);
    }
    let chars = chars_of_str(s);
    let n = chars.len();
    proof {
        assert forall|pv: PolicyV| s@ == ser_policy(pv) implies prefix_at(
            chars@,
            0,
            ser_policy(pv),
        ) by {
            assert(chars@.subrange(0, ser_policy(pv).len() as int) =~= chars@);
        }
    }
    let (cn, p1) = match read_kv(&chars, 0, "crate_name") {
        Some(t) => t,
        None => {
            proof {
                assert forall|pv: PolicyV| s@ == ser_policy(pv) implies false by {
                    lemma_header_splits(chars@, pv);
                }
            }
            return None;
        }
    };
    let (cv, p2) = match read_kv(&chars, p1, "crate_version") {
        Some(t) => t,
        None => {
            proof {
                assert forall|pv: PolicyV| s@ == ser_policy(pv) implies false by {
                    lemma_header_splits(chars@, pv);
                }
            }
            return None;
        }
    };
    let (pvv, p3) = match read_kv(&chars, p2, "policy_version") {
        Some(t) => t,
        None => {
            proof {
                assert forall|pv: PolicyV| s@ == ser_policy(pv) implies false by {
                    lemma_header_splits(chars@, pv);
                }
            }
            return None;
        }
    };
    let mut policy = Policy::new(cn.as_str(), cv.as_str(), pvv.as_str());
    let mut pos = p3;
    proof {
        assert forall|pv: PolicyV| s@ == ser_policy(pv) implies policy@.crate_name
            == pv.crate_name && policy@.crate_version == pv.crate_version
            && policy@.policy_version == pv.policy_version && policy@.statements
            == pv.statements.take(policy@.statements.len() as int) && policy@.statements.len()
            <= pv.statements.len() && prefix_at(
            chars@,
            pos as int,
            stmts_text(pv.statements.skip(policy@.statements.len() as int)),
        ) && pos + stmts_text(pv.statements.skip(policy@.statements.len() as int)).len()
            == n by {
            lemma_header_splits(chars@, pv);
            assert(policy@.statements =~= pv.statements.take(0));
            assert(pv.statements.skip(0) =~= pv.statements);
        }
    }
    while pos < n
        invariant
            pos <= n,
            n == chars@.len(),
            chars@ == s@,
            forall|pv: PolicyV|
                s@ == ser_policy(pv) ==> (
                {
                    &&& policy@.crate_name == pv.crate_name
                    &&& policy@.crate_version == pv.crate_version
                    &&& policy@.policy_version == pv.policy_version
                    &&& policy@.statements == pv.statements.take(
                        policy@.statements.len() as int,
                    )
                    &&& policy@.statements.len() <= pv.statements.len()
                    &&& prefix_at(
                        chars@,
                        pos as int,
                        stmts_text(pv.statements.skip(policy@.statements.len() as int)),
                    )
                    &&& pos + stmts_text(
                        pv.statements.skip(policy@.statements.len() as int),
                    ).len() == n
                }),
        decreases n - pos,
    {
        let ghost j = policy@.statements.len() as int;
        let read = read_stmt(&chars, pos);
        let (st, np) = match read {
            Some(t) => t,
            None => {
                proof {
                    assert forall|pv: PolicyV| s@ == ser_policy(pv) implies false by {
                        lemma_remaining_statement(chars@, pv, pos as int, j);
                    }
                }
                return None;
            }
        };
        proof {
            assert forall|pv: PolicyV| s@ == ser_policy(pv) implies np > pos by {
                lemma_remaining_statement(chars@, pv, pos as int, j);
                lemma_stmt_block_len(pv.statements.skip(j).first());
            }
        }
        if np <= pos {
            return None;
        }
        policy.add_statement(st);
        proof {
            assert forall|pv: PolicyV| s@ == ser_policy(pv) implies policy@.crate_name
                == pv.crate_name && policy@.crate_version == pv.crate_version
                && policy@.policy_version == pv.policy_version && policy@.statements
                == pv.statements.take(policy@.statements.len() as int)
                && policy@.statements.len() <= pv.statements.len() && prefix_at(
                chars@,
                np as int,
                stmts_text(pv.statements.skip(policy@.statements.len() as int)),
            ) && np + stmts_text(
                pv.statements.skip(policy@.statements.len() as int),
            ).len() == n by {
                lemma_remaining_statement(chars@, pv, pos as int, j);
                let rem = pv.statements.skip(j);
                assert(st@ == rem.first());
                assert(rem.first() == pv.statements[j]);
                assert(policy@.statements =~= pv.statements.take(j + 1));
                assert(rem.drop_first() =~= pv.statements.skip(j + 1));
            }
        }
        pos = np;
    }
    proof {
        assert forall|pv: PolicyV| s@ == ser_policy(pv) implies policy@.statements
            == pv.statements by {
            let j = policy@.statements.len() as int;
            let rem = pv.statements.skip(j);
            assert(stmts_text(rem).len() == 0);
            if rem.len() > 0 {
                lemma_stmt_block_len(rem.first());
            }
            assert(rem.len() == 0);
            assert(pv.statements.take(j) =~= pv.statements);
        }
    }
    Some(policy)
}

/// Every statement's text begins with its fifteen-character header line.
proof fn lemma_stmt_block_len(sv: StatementV)
    ensures
        stmt_block(sv).len() >= 15,
{
    reveal_strlit("[[statements]]\n");
    assert("[[statements]]\n"@.len() == 15);
}

/// Where a serialized policy's header lines stand, and where its
/// statement text begins.
proof fn lemma_header_splits(chars: Seq<char>, pv: PolicyV)
    requires
        prefix_at(chars, 0, ser_policy(pv)),
        chars.len() == ser_policy(pv).len(),
    ensures
        prefix_at(chars, 0, kv_spec("crate_name"@, pv.crate_name)),
        prefix_at(
            chars,
            kv_spec("crate_name"@, pv.crate_name).len() as int,
            kv_spec("crate_version"@, pv.crate_version),
        ),
        prefix_at(
            chars,
            kv_spec("crate_name"@, pv.crate_name).len() as int + kv_spec(
                "crate_version"@,
                pv.crate_version,
            ).len(),
            kv_spec("policy_version"@, pv.policy_version),
        ),
        prefix_at(
            chars,
            kv_spec("crate_name"@, pv.crate_name).len() as int + kv_spec(
                "crate_version"@,
                pv.crate_version,
            ).len() + kv_spec("policy_version"@, pv.policy_version).len(),
            stmts_text(pv.statements),
        ),
        kv_spec("crate_name"@, pv.crate_name).len() + kv_spec(
            "crate_version"@,
            pv.crate_version,
        ).len() + kv_spec("policy_version"@, pv.policy_version).len() + stmts_text(
            pv.statements,
        ).len() == chars.len(),
{
    let k1 = kv_spec("crate_name"@, pv.crate_name);
    let k2 = kv_spec("crate_version"@, pv.crate_version);
    let k3 = kv_spec("policy_version"@, pv.policy_version);
    let st = stmts_text(pv.statements);
    assert(ser_policy(pv) =~= k1 + (k2 + (k3 + st)));
    lemma_prefix_split(chars, 0, k1, k2 + (k3 + st));
    lemma_prefix_split(chars, k1.len() as int, k2, k3 + st);
    lemma_prefix_split(chars, k1.len() as int + k2.len(), k3, st);
}

/// When a serialized policy's first `j` statements are consumed up to
/// `pos`, the next statement's text stands at `pos`.
proof fn lemma_remaining_statement(chars: Seq<char>, pv: PolicyV, pos: int, j: int)
    requires
        0 <= j <= pv.statements.len(),
        prefix_at(chars, pos, stmts_text(pv.statements.skip(j))),
        pos + stmts_text(pv.statements.skip(j)).len() == chars.len(),
        pos < chars.len(),
    ensures
        pv.statements.skip(j).len() > 0,
        prefix_at(chars, pos, stmt_block(pv.statements.skip(j).first())),
        prefix_at(
            chars,
            pos + stmt_block(pv.statements.skip(j).first()).len(),
            stmts_text(pv.statements.skip(j).drop_first()),
        ),
        pos + stmt_block(pv.statements.skip(j).first()).len() + stmts_text(
            pv.statements.skip(j).drop_first(),
        ).len() == chars.len(),
{
    let rem = pv.statements.skip(j);
    assert(stmts_text(rem).len() > 0);
    assert(rem.len() > 0);
    assert(stmts_text(rem) == stmt_block(rem.first()) + stmts_text(rem.drop_first()));
    lemma_prefix_split(chars, pos, stmt_block(rem.first()), stmts_text(rem.drop_first()));
}

} // verus!} // verus!
