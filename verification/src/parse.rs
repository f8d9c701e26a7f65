//! The text forms of the graph and the feature tables.
//!
//! A graph file opens with `f <feature_size>`, carries one
//! whitespace-separated adjacency line per node, and closes with a
//! sentinel line beginning `end` or `END`.  A feature file carries one
//! dense 0/1 line per node.  The parsers turn bytes into the checked
//! value-level builders of the graph and feature modules; the writers
//! produce the dense 0/1 text back.

use vstd::prelude::*;

use crate::error::GcnError;
use crate::graph::Graph;
use crate::node_features::{
    bytes_upper_from, dense_of, lemma_sparse_dense_round_trip, sparse_of, NodeFeatures,
};

verus! {

pub open spec fn is_digit(b: u8) -> bool {
    48 <= b <= 57
}

pub open spec fn all_digits(s: Seq<u8>) -> bool {
    forall|k: int| 0 <= k < s.len() ==> is_digit(#[trigger] s[k])
}

/// The value of a decimal digit string.
pub open spec fn dec_value(s: Seq<u8>) -> int
    decreases s.len(),
{
    if s.len() == 0 {
        0
    } else {
        dec_value(s.drop_last()) * 10 + (s.last() - 48)
    }
}

/// A digit string's value never shrinks as digits are appended.
proof fn lemma_dec_value_nonneg(s: Seq<u8>)
    requires
        all_digits(s),
    ensures
        dec_value(s) >= 0,
    decreases s.len(),
{
    if s.len() > 0 {
        assert(all_digits(s.drop_last())) by {
            assert(forall|k: int| 0 <= k < s.len() - 1 ==> is_digit(#[trigger] s[k]));
        };
        lemma_dec_value_nonneg(s.drop_last());
    }
}

/// Parse the decimal digits of `bytes[start..end)`.  `Some` exactly
/// when the range is non-empty, all digits, and the value fits the
/// machine word.
pub fn parse_dec(bytes: &[u8], start: usize, end: usize) -> (r: Option<usize>)
    requires
        start <= end <= bytes@.len(),
    ensures
        ({
            let s = bytes@.subrange(start as int, end as int);
            match r {
                Some(v) => start < end && all_digits(s) && v == dec_value(s) && dec_value(s)
                    <= usize::MAX,
                None => start == end || !all_digits(s) || dec_value(s) > usize::MAX,
            }
        }),
{
    if start == end {
        return None;
    }
    let ghost s = bytes@.subrange(start as int, end as int);
    let mut acc: usize = 0;
    let mut i = start;
    while i < end
        invariant
            start <= i <= end <= bytes@.len(),
            s == bytes@.subrange(start as int, end as int),
            all_digits(bytes@.subrange(start as int, i as int)),
            acc == dec_value(bytes@.subrange(start as int, i as int)),
        decreases end - i,
    {
        let b = bytes[i];
        let ghost pre = bytes@.subrange(start as int, i as int);
        let ghost cur = bytes@.subrange(start as int, i + 1);
        proof {
            assert(cur.drop_last() =~= pre);
            assert(cur.last() == bytes@[i as int]);
        }
        if b < 48 || b > 57 {
            proof {
                assert(s[i - start] == bytes@[i as int]);
                assert(!all_digits(s));
            }
            return None;
        }
        let d = (b - 48) as usize;
        if acc > (usize::MAX - d) / 10 {
            proof {
                assert(acc * 10 + d > usize::MAX) by {
                    let m = (usize::MAX - d) as int;
                    assert(m <= 10 * (m / 10) + 9);
                    assert(acc >= m / 10 + 1);
                };
                assert(dec_value(cur) > usize::MAX);
                if all_digits(s) {
                    lemma_dec_prefix_monotone(s, (i + 1 - start) as int);
                    assert(cur =~= s.subrange(0, i + 1 - start));
                }
            }
            return None;
        }
        proof {
            assert(acc * 10 <= usize::MAX - d) by {
                let m = (usize::MAX - d) as int;
                assert(10 * (m / 10) <= m);
            };
        }
        acc = acc * 10 + d;
        i += 1;
    }
    proof {
        assert(bytes@.subrange(start as int, end as int) =~= s);
    }
    Some(acc)
}

/// A digit string is worth at least any of its prefixes.
proof fn lemma_dec_prefix_monotone(s: Seq<u8>, k: int)
    requires
        0 <= k <= s.len(),
        all_digits(s),
    ensures
        dec_value(s) >= dec_value(s.subrange(0, k)),
    decreases s.len() - k,
{
    if k < s.len() {
        lemma_dec_prefix_monotone(s, k + 1);
        let p = s.subrange(0, k + 1);
        assert(p.drop_last() =~= s.subrange(0, k));
        assert(all_digits(s.subrange(0, k))) by {
            assert(forall|j: int|
                0 <= j < k ==> is_digit(#[trigger] s.subrange(0, k)[j]) == is_digit(s[j]));
        };
        lemma_dec_value_nonneg(s.subrange(0, k));
        assert(p.last() == s[k]);
        assert(is_digit(s[k]));
        assert(dec_value(p) == dec_value(s.subrange(0, k)) * 10 + (p.last() - 48));
        assert(dec_value(p) >= dec_value(s.subrange(0, k)));
    } else {
        assert(s.subrange(0, s.len() as int) =~= s);
    }
}

/// Whether the byte separates tokens inside a line.
fn is_token_sep(b: u8) -> (r: bool)
    ensures
        r == (b == 32 || b == 9 || b == 13),
{
    b == 32 || b == 9 || b == 13
}

/// The line ranges a scan of `[i, len)` yields, with the current line
/// open since `line_start` and `acc` already produced: lines are
/// separated by newline bytes, and a last line without its newline
/// still counts.
pub open spec fn lines_from(
    s: Seq<u8>,
    i: int,
    line_start: usize,
    acc: Seq<(usize, usize)>,
) -> Seq<(usize, usize)>
    decreases s.len() - i,
{
    if i >= s.len() {
        if (line_start as int) < s.len() {
            acc.push((line_start, s.len() as usize))
        } else {
            acc
        }
    } else if s[i] == 10 {
        lines_from(s, i + 1, (i + 1) as usize, acc.push((line_start, i as usize)))
    } else {
        lines_from(s, i + 1, line_start, acc)
    }
}

/// The `[start, end)` ranges of the lines of `data`.
pub open spec fn spec_lines(s: Seq<u8>) -> Seq<(usize, usize)> {
    lines_from(s, 0, 0, Seq::empty())
}

/// The `[start, end)` ranges of the lines of `data`, separated by
/// newline bytes; a trailing newline closes the last line.
pub fn split_lines(data: &[u8]) -> (r: Vec<(usize, usize)>)
    ensures
        r@ == spec_lines(data@),
        forall|i: int|
            0 <= i < r@.len() ==> (#[trigger] r@[i]).0 <= r@[i].1 && r@[i].1 <= data@.len(),
{
    let n = data.len();
    let mut r: Vec<(usize, usize)> = Vec::new();
    let mut line_start: usize = 0;
    let mut i: usize = 0;
    while i < n
        invariant
            line_start <= i <= n,
            n == data@.len(),
            spec_lines(data@) == lines_from(data@, i as int, line_start, r@),
            forall|j: int|
                0 <= j < r@.len() ==> (#[trigger] r@[j]).0 <= r@[j].1 && r@[j].1 <= data@.len(),
        decreases n - i,
    {
        if data[i] == 10 {
            r.push((line_start, i));
            line_start = i + 1;
        }
        i += 1;
    }
    if line_start < n {
        r.push((line_start, n));
    }
    r
}

/// The token ranges a scan of `[i, le)` yields, with `in_tok` saying
/// whether a token is open since `tok_start` and `acc` already
/// produced: tokens are the maximal runs between whitespace bytes.
pub open spec fn tokens_from(
    s: Seq<u8>,
    le: int,
    i: int,
    tok_start: usize,
    in_tok: bool,
    acc: Seq<(usize, usize)>,
) -> Seq<(usize, usize)>
    decreases le - i,
{
    if i >= le {
        if in_tok {
            acc.push((tok_start, le as usize))
        } else {
            acc
        }
    } else if s[i] == 32 || s[i] == 9 || s[i] == 13 {
        if in_tok {
            tokens_from(s, le, i + 1, tok_start, false, acc.push((tok_start, i as usize)))
        } else {
            tokens_from(s, le, i + 1, tok_start, false, acc)
        }
    } else {
        if in_tok {
            tokens_from(s, le, i + 1, tok_start, true, acc)
        } else {
            tokens_from(s, le, i + 1, i as usize, true, acc)
        }
    }
}

/// The `[start, end)` ranges of the whitespace-separated tokens of
/// `data[ls..le)`.
pub open spec fn spec_tokens(s: Seq<u8>, ls: usize, le: usize) -> Seq<(usize, usize)> {
    tokens_from(s, le as int, ls as int, ls, false, Seq::empty())
}

/// The `[start, end)` ranges of the whitespace-separated tokens of
/// `data[ls..le)`.
pub fn split_tokens(data: &[u8], ls: usize, le: usize) -> (r: Vec<(usize, usize)>)
    requires
        ls <= le <= data@.len(),
    ensures
        r@ == spec_tokens(data@, ls, le),
        forall|i: int| 0 <= i < r@.len() ==> ls <= (#[trigger] r@[i]).0 && r@[i].0 < r@[i].1 && r@[
            i
        ].1 <= le,
        r@.len() <= le - ls,
{
    let mut r: Vec<(usize, usize)> = Vec::new();
    let mut tok_start: usize = ls;
    let mut in_tok = false;
    let mut i: usize = ls;
    while i < le
        invariant
            ls <= i <= le <= data@.len(),
            in_tok ==> ls <= tok_start && tok_start < i || tok_start == i,
            in_tok ==> ls <= tok_start <= i,
            !in_tok || tok_start < i || tok_start == i,
            in_tok ==> tok_start < i,
            spec_tokens(data@, ls, le) == tokens_from(
                data@,
                le as int,
                i as int,
                tok_start,
                in_tok,
                r@,
            ),
            forall|j: int|
                0 <= j < r@.len() ==> ls <= (#[trigger] r@[j]).0 && r@[j].0 < r@[j].1 && r@[j].1
                    <= le,
            r@.len() + (if in_tok {
                1int
            } else {
                0int
            }) <= i - ls,
        decreases le - i,
    {
        let sep = is_token_sep(data[i]);
        if sep {
            if in_tok {
                r.push((tok_start, i));
                in_tok = false;
            }
        } else {
            if !in_tok {
                tok_start = i;
                in_tok = true;
            }
        }
        i += 1;
    }
    if in_tok {
        r.push((tok_start, le));
    }
    r
}

/// Fold the tokens from `k` on into parsed numbers on top of `acc`:
/// `None` as soon as one token is not a machine-word decimal.
pub open spec fn nums_from(
    s: Seq<u8>,
    toks: Seq<(usize, usize)>,
    k: int,
    acc: Seq<usize>,
) -> Option<Seq<usize>>
    decreases toks.len() - k,
{
    if k >= toks.len() {
        Some(acc)
    } else {
        let t = toks[k];
        let sub = s.subrange(t.0 as int, t.1 as int);
        if t.0 < t.1 && (t.1 as int) <= s.len() && all_digits(sub) && dec_value(sub) <= usize::MAX {
            nums_from(s, toks, k + 1, acc.push(dec_value(sub) as usize))
        } else {
            None
        }
    }
}

/// The numbers of one line of `data`, or nothing on a bad token.
pub open spec fn spec_line_numbers(s: Seq<u8>, ls: usize, le: usize) -> Option<Seq<usize>> {
    nums_from(s, spec_tokens(s, ls, le), 0, Seq::empty())
}

/// The numbers of one line, or the file error on any token that is
/// not a machine-word decimal.
fn parse_line_numbers(data: &[u8], ls: usize, le: usize) -> (r: Result<Vec<usize>, GcnError>)
    requires
        ls <= le <= data@.len(),
    ensures
        match r {
            Ok(v) => spec_line_numbers(data@, ls, le) == Some(v@) && v@.len() <= le - ls,
            Err(e) => e == GcnError::IoError && spec_line_numbers(data@, ls, le) is None,
        },
{
    let toks = split_tokens(data, ls, le);
    let mut out: Vec<usize> = Vec::new();
    let mut k: usize = 0;
    while k < toks.len()
        invariant
            k <= toks@.len(),
            toks@.len() <= le - ls,
            out@.len() == k,
            ls <= le <= data@.len(),
            spec_line_numbers(data@, ls, le) == nums_from(data@, toks@, k as int, out@),
            forall|i: int|
                0 <= i < toks@.len() ==> ls <= (#[trigger] toks@[i]).0 && toks@[i].0 < toks@[i].1
                    && toks@[i].1 <= le,
        decreases toks@.len() - k,
    {
        let (ts, te) = toks[k];
        match parse_dec(data, ts, te) {
            Some(v) => {
                out.push(v);
            },
            None => {
                return Err(GcnError::IoError);
            },
        }
        k += 1;
    }
    Ok(out)
}

/// Whether the line at `[ls, le)` opens with the sentinel word, in
/// either case.
pub open spec fn spec_is_end(s: Seq<u8>, ls: usize, le: usize) -> bool {
    le - ls >= 3 && ((s[ls as int] == 101 && s[ls + 1] == 110 && s[ls + 2] == 100) || (s[ls as int]
        == 69 && s[ls + 1] == 78 && s[ls + 2] == 68))
}

/// Whether the line opens with the sentinel word, in either case.
fn is_end_line(data: &[u8], ls: usize, le: usize) -> (r: bool)
    requires
        ls <= le <= data@.len(),
    ensures
        r == spec_is_end(data@, ls, le),
{
    if le - ls < 3 {
        return false;
    }
    let a = data[ls];
    let b = data[ls + 1];
    let c = data[ls + 2];
    (a == 101 && b == 110 && c == 100) || (a == 69 && b == 78 && c == 68)
}

/// Fold the lines from `li` on into adjacency rows on top of `acc`:
/// the sentinel line closes the file, a bad line is nothing, a file
/// without the sentinel is nothing.
pub open spec fn graph_rows_from(
    s: Seq<u8>,
    lines: Seq<(usize, usize)>,
    li: int,
    acc: Seq<Seq<usize>>,
) -> Option<Seq<Seq<usize>>>
    decreases lines.len() - li,
{
    if li >= lines.len() {
        None
    } else if spec_is_end(s, lines[li].0, lines[li].1) {
        Some(acc)
    } else {
        match spec_line_numbers(s, lines[li].0, lines[li].1) {
            Some(v) => graph_rows_from(s, lines, li + 1, acc.push(v)),
            None => None,
        }
    }
}

/// The feature size and adjacency rows of a graph file, or nothing on
/// a missing header, a bad token, or a missing sentinel.
pub open spec fn spec_parse_graph(s: Seq<u8>) -> Option<(usize, Seq<Seq<usize>>)> {
    let lines = spec_lines(s);
    if lines.len() == 0 {
        None
    } else {
        let toks = spec_tokens(s, lines[0].0, lines[0].1);
        if toks.len() < 2 {
            None
        } else if !(toks[0].1 - toks[0].0 == 1 && s[toks[0].0 as int] == 102) {
            None
        } else {
            let nsub = s.subrange(toks[1].0 as int, toks[1].1 as int);
            if toks[1].0 < toks[1].1 && all_digits(nsub) && dec_value(nsub) <= usize::MAX {
                match graph_rows_from(s, lines, 1, Seq::empty()) {
                    Some(rows) => Some(((dec_value(nsub) as usize), rows)),
                    None => None,
                }
            } else {
                None
            }
        }
    }
}

impl Graph {
    /// Read a graph from its text form: the `f <feature_size>`
    /// header, one adjacency line per node, the `end` sentinel.  Any
    /// malformed token, a missing header, a missing sentinel, or an
    /// index at or past the node count is the file error.
    pub fn parse(data: &[u8]) -> (r: Result<Graph, GcnError>)
        ensures
            r is Err ==> r->Err_0 == GcnError::IoError,
            match spec_parse_graph(data@) {
                None => r is Err,
                Some(parsed) => {
                    let rows = parsed.1;
                    if forall|c: int, x: usize|
                        0 <= c < rows.len() && (#[trigger] rows[c].contains(x)) ==> (x as nat)
                            < rows.len() {
                        &&& r is Ok
                        &&& r->Ok_0.wf()
                        &&& r->Ok_0.feature_size() == parsed.0
                        &&& r->Ok_0.num_nodes() == rows.len()
                        &&& forall|c: int, x: usize|
                            0 <= c < rows.len() ==> ((#[trigger] r->Ok_0.csc()@[c]@.contains(x))
                                <==> rows[c].contains(x))
                    } else {
                        r is Err
                    }
                },
            },
    {
        let lines = split_lines(data);
        if lines.len() == 0 {
            return Err(GcnError::IoError);
        }
        let (hs, he) = lines[0];
        let header_toks = split_tokens(data, hs, he);
        if header_toks.len() < 2 {
            return Err(GcnError::IoError);
        }
        let (fs, fe) = header_toks[0];
        if !(fe - fs == 1 && data[fs] == 102) {
            return Err(GcnError::IoError);
        }
        let (ns, ne) = header_toks[1];
        let feature_size = match parse_dec(data, ns, ne) {
            Some(v) => v,
            None => {
                return Err(GcnError::IoError);
            },
        };
        let mut rows: Vec<Vec<usize>> = Vec::new();
        let ghost mut acc: Seq<Seq<usize>> = Seq::empty();
        let mut li: usize = 1;
        let mut saw_end = false;
        while li < lines.len() && !saw_end
            invariant
                1 <= li <= lines@.len(),
                lines@ == spec_lines(data@),
                forall|i: int|
                    0 <= i < lines@.len() ==> (#[trigger] lines@[i]).0 <= lines@[i].1 && lines@[
                        i
                    ].1 <= data@.len(),
                rows@.len() == acc.len(),
                forall|i: int| 0 <= i < acc.len() ==> (#[trigger] rows@[i])@ == acc[i],
                graph_rows_from(data@, lines@, 1, Seq::empty()) == (if saw_end {
                    Some(acc)
                } else {
                    graph_rows_from(data@, lines@, li as int, acc)
                }),
            decreases lines@.len() - li,
        {
            let (ls, le) = lines[li];
            if is_end_line(data, ls, le) {
                saw_end = true;
            } else {
                match parse_line_numbers(data, ls, le) {
                    Ok(row) => {
                        proof {
                            acc = acc.push(row@);
                        }
                        rows.push(row);
                    },
                    Err(e) => {
                        return Err(e);
                    },
                }
            }
            li += 1;
        }
        if !saw_end {
            return Err(GcnError::IoError);
        }
        let r = Graph::from_rows(feature_size, &rows);
        proof {
            let parsed = spec_parse_graph(data@)->Some_0;
            assert(parsed.1 == acc);
            assert(parsed.0 == feature_size);
            match r {
                Ok(ref g) => {
                    assert forall|c: int, x: usize|
                        0 <= c < acc.len() && #[trigger] acc[c].contains(x) implies (x as nat)
                        < acc.len() by {
                        assert(rows@[c]@ == acc[c]);
                        assert(rows@[c]@.contains(x));
                    };
                    assert forall|c: int, x: usize|
                        0 <= c < acc.len() implies ((#[trigger] g.csc()@[c]@.contains(x)) <==> acc[
                        c].contains(x)) by {
                        assert(rows@[c]@ == acc[c]);
                    };
                },
                Err(_) => {
                    let (c, x) = choose|c: int, x: usize|
                        0 <= c < rows@.len() && (#[trigger] rows@[c]@.contains(x)) && (x as nat)
                            >= rows@.len();
                    assert(rows@[c]@ == acc[c]);
                    assert(acc[c].contains(x) && (x as nat) >= acc.len());
                },
            }
        }
        r
    }
}

/// The push of one more row raises the byte bound by four bytes per
/// entry.
proof fn lemma_bytes_upper_push(rows: Seq<Vec<usize>>, row: Vec<usize>)
    ensures
        bytes_upper_from(rows.push(row), 0) == bytes_upper_from(rows, 0) + 4 * row@.len(),
    decreases rows.len(),
{
    lemma_bytes_upper_push_from(rows, row, 0);
}

proof fn lemma_bytes_upper_push_from(rows: Seq<Vec<usize>>, row: Vec<usize>, i: int)
    requires
        0 <= i <= rows.len(),
    ensures
        bytes_upper_from(rows.push(row), i) == bytes_upper_from(rows, i) + 4 * row@.len(),
    decreases rows.len() - i,
{
    if i < rows.len() {
        lemma_bytes_upper_push_from(rows, row, i + 1);
        assert(rows.push(row)[i] == rows[i]);
    } else {
        assert(bytes_upper_from(rows.push(row), i) == 4 * rows.push(row)[i]@.len()
            + bytes_upper_from(rows.push(row), i + 1));
        assert(rows.push(row)[i] == row);
    }
}

/// Fold the lines from `li` on into dense feature rows on top of
/// `acc`: a bad line is nothing.
pub open spec fn feature_rows_from(
    s: Seq<u8>,
    lines: Seq<(usize, usize)>,
    li: int,
    acc: Seq<Seq<usize>>,
) -> Option<Seq<Seq<usize>>>
    decreases lines.len() - li,
{
    if li >= lines.len() {
        Some(acc)
    } else {
        match spec_line_numbers(s, lines[li].0, lines[li].1) {
            Some(v) => feature_rows_from(s, lines, li + 1, acc.push(v)),
            None => None,
        }
    }
}

/// The dense rows of a feature file, or nothing on a bad token.
pub open spec fn spec_parse_features(s: Seq<u8>) -> Option<Seq<Seq<usize>>> {
    feature_rows_from(s, spec_lines(s), 0, Seq::empty())
}

/// Four bytes per dense entry, summed over the rows `[i, rows.len())`:
/// the bound the parsed table's addresses must fit.
pub open spec fn rows_bytes(rows: Seq<Seq<usize>>, i: int) -> int
    decreases rows.len() - i,
{
    if i < 0 || i >= rows.len() {
        0
    } else {
        4 * rows[i].len() + rows_bytes(rows, i + 1)
    }
}

proof fn lemma_rows_bytes_nonneg(rows: Seq<Seq<usize>>, i: int)
    ensures
        rows_bytes(rows, i) >= 0,
    decreases rows.len() - i,
{
    if 0 <= i < rows.len() {
        lemma_rows_bytes_nonneg(rows, i + 1);
    }
}

proof fn lemma_rows_bytes_push(rows: Seq<Seq<usize>>, row: Seq<usize>, i: int)
    requires
        0 <= i <= rows.len(),
    ensures
        rows_bytes(rows.push(row), i) == rows_bytes(rows, i) + 4 * row.len(),
    decreases rows.len() - i,
{
    if i < rows.len() {
        lemma_rows_bytes_push(rows, row, i + 1);
        assert(rows.push(row)[i] == rows[i]);
    } else {
        assert(i == rows.len());
        assert(rows.push(row)[i] == row);
        assert(rows_bytes(rows.push(row), i + 1) == 0);
        assert(rows_bytes(rows.push(row), i) == 4 * row.len() + rows_bytes(rows.push(row), i + 1));
        assert(rows_bytes(rows, i) == 0);
    }
}

/// Whatever rows the remaining lines add, the byte bound only grows.
proof fn lemma_feature_rows_bytes_grow(
    s: Seq<u8>,
    lines: Seq<(usize, usize)>,
    li: int,
    acc: Seq<Seq<usize>>,
)
    ensures
        feature_rows_from(s, lines, li, acc) matches Some(full) ==> rows_bytes(full, 0)
            >= rows_bytes(acc, 0),
    decreases lines.len() - li,
{
    if li < lines.len() {
        match spec_line_numbers(s, lines[li].0, lines[li].1) {
            Some(v) => {
                lemma_feature_rows_bytes_grow(s, lines, li + 1, acc.push(v));
                lemma_rows_bytes_push(acc, v, 0);
            },
            None => {},
        }
    }
}

/// The body of one dense 0/1 text line: byte `2j` is the 0/1 digit of
/// column `j`, byte `2j + 1` a space.
pub open spec fn dense_line_body(row: Seq<usize>, width: nat) -> Seq<u8> {
    Seq::new(
        2 * width,
        |p: int|
            if p % 2 == 1 {
                32u8
            } else if row.contains((p / 2) as usize) {
                49u8
            } else {
                48u8
            },
    )
}

/// One dense 0/1 text line: the body closed by a newline.
pub open spec fn dense_line(row: Seq<usize>, width: nat) -> Seq<u8> {
    dense_line_body(row, width).push(10u8)
}

/// The first `i` rows rendered as dense 0/1 text.
pub open spec fn render_rows(rows: Seq<Seq<usize>>, width: nat, i: int) -> Seq<u8>
    decreases i,
{
    if i <= 0 {
        Seq::empty()
    } else {
        render_rows(rows, width, i - 1) + dense_line(rows[i - 1], width)
    }
}

/// Each rendered line takes a fixed stride of bytes.
proof fn lemma_render_len(rows: Seq<Seq<usize>>, width: nat, i: int)
    requires
        0 <= i,
    ensures
        render_rows(rows, width, i).len() == i * (2 * width + 1),
    decreases i,
{
    if i > 0 {
        lemma_render_len(rows, width, i - 1);
        assert(dense_line(rows[i - 1], width).len() == 2 * width + 1);
        assert(render_rows(rows, width, i).len() == render_rows(rows, width, i - 1).len() + (2
            * width + 1));
        assert((i - 1) * (2 * width + 1) + (2 * width + 1) == i * (2 * width + 1)) by (
        nonlinear_arith);
    } else {
        assert(render_rows(rows, width, i).len() == 0);
        assert(i * (2 * width + 1) == 0) by (nonlinear_arith)
            requires
                i == 0,
        ;
    }
}

/// The byte at offset `p` of the `r`-th rendered line.
proof fn lemma_render_index(rows: Seq<Seq<usize>>, width: nat, i: int, r: int, p: int)
    requires
        0 <= r < i,
        0 <= p < 2 * width + 1,
    ensures
        render_rows(rows, width, i)[r * (2 * width + 1) + p] == dense_line(rows[r], width)[p],
    decreases i,
{
    let lw = 2 * width + 1;
    lemma_render_len(rows, width, i - 1);
    if r == i - 1 {
        assert(render_rows(rows, width, i)[r * lw + p] == dense_line(rows[r], width)[p]);
    } else {
        lemma_render_index(rows, width, i - 1, r, p);
        assert(r * lw + p < (i - 1) * lw) by (nonlinear_arith)
            requires
                r < i - 1,
                0 <= p < lw,
                0 <= r,
        ;
    }
}

/// Scanning text whose remaining bytes are one newline-closed line
/// yields exactly that line's range.
proof fn lemma_lines_tail(s2: Seq<u8>, n: int, m: int, j: int, ls: usize, acc: Seq<(usize, usize)>)
    requires
        s2.len() == n + m + 1,
        0 <= n,
        0 <= m,
        n + m + 1 <= usize::MAX,
        forall|p: int| n <= p < n + m ==> s2[p] != 10,
        s2[n + m] == 10,
        n <= j <= n + m,
        ls == n as usize,
    ensures
        lines_from(s2, j, ls, acc) == acc.push((n as usize, (n + m) as usize)),
    decreases n + m - j,
{
    if j == n + m {
        assert(lines_from(s2, j, ls, acc) == lines_from(
            s2,
            j + 1,
            (j + 1) as usize,
            acc.push((ls, j as usize)),
        ));
        assert(((j + 1) as usize as int) >= s2.len());
    } else {
        assert(s2[j] != 10);
        lemma_lines_tail(s2, n, m, j + 1, ls, acc);
    }
}

/// Appending one newline-closed line to newline-terminated text adds
/// exactly one line range at the back, whatever was scanned so far.
proof fn lemma_lines_prefix(
    s2: Seq<u8>,
    s: Seq<u8>,
    m: int,
    j: int,
    ls: usize,
    acc: Seq<(usize, usize)>,
)
    requires
        s.len() > 0,
        s[s.len() - 1] == 10,
        s2.len() == s.len() + m + 1,
        0 <= m,
        s.len() + m + 1 <= usize::MAX,
        forall|p: int| 0 <= p < s.len() ==> s2[p] == s[p],
        forall|p: int| s.len() <= p < s.len() + m ==> s2[p] != 10,
        s2[s.len() + m] == 10,
        0 <= j < s.len(),
        (ls as int) <= j,
    ensures
        lines_from(s2, j, ls, acc) == lines_from(s, j, ls, acc).push(
            ((s.len()) as usize, (s.len() + m) as usize),
        ),
    decreases s.len() - j,
{
    let n = s.len() as int;
    if j == n - 1 {
        assert(s2[j] == s[j] && s[j] == 10);
        assert(lines_from(s2, j, ls, acc) == lines_from(
            s2,
            n,
            n as usize,
            acc.push((ls, j as usize)),
        ));
        lemma_lines_tail(s2, n, m, n, n as usize, acc.push((ls, j as usize)));
        assert(lines_from(s, j, ls, acc) == lines_from(s, n, n as usize, acc.push((ls, j as usize))));
        assert(lines_from(s, n, n as usize, acc.push((ls, j as usize))) == acc.push(
            (ls, j as usize),
        ));
    } else {
        assert(s2[j] == s[j]);
        if s[j] == 10 {
            lemma_lines_prefix(s2, s, m, j + 1, (j + 1) as usize, acc.push((ls, j as usize)));
        } else {
            lemma_lines_prefix(s2, s, m, j + 1, ls, acc);
        }
    }
}

/// Appending one body without newlines plus a closing newline to
/// newline-terminated text adds exactly one line range.
proof fn lemma_lines_snoc(s: Seq<u8>, body: Seq<u8>)
    requires
        s.len() == 0 || s[s.len() - 1] == 10,
        forall|p: int| 0 <= p < body.len() ==> body[p] != 10,
        s.len() + body.len() + 1 <= usize::MAX,
    ensures
        spec_lines((s + body).push(10u8)) == spec_lines(s).push(
            ((s.len()) as usize, (s.len() + body.len()) as usize),
        ),
{
    let s2 = (s + body).push(10u8);
    let n = s.len() as int;
    let m = body.len() as int;
    assert(s2.len() == n + m + 1);
    assert(forall|p: int| 0 <= p < n ==> s2[p] == s[p]);
    assert(forall|p: int| n <= p < n + m ==> s2[p] == body[p - n] && s2[p] != 10);
    assert(s2[n + m] == 10);
    if n == 0 {
        lemma_lines_tail(s2, 0, m, 0, 0, Seq::empty());
        assert(spec_lines(s) == Seq::<(usize, usize)>::empty());
    } else {
        lemma_lines_prefix(s2, s, m, 0, 0, Seq::empty());
    }
}

/// The line ranges of rendered dense text: one full stride per row,
/// the newline left out.
proof fn lemma_render_lines(rows: Seq<Seq<usize>>, width: nat, i: int)
    requires
        0 <= i,
        i * (2 * width + 1) <= usize::MAX,
    ensures
        spec_lines(render_rows(rows, width, i)) == Seq::new(
            i as nat,
            |r: int|
                (
                    (r * (2 * width + 1)) as usize,
                    (r * (2 * width + 1) + 2 * width) as usize,
                ),
        ),
    decreases i,
{
    let lw = 2 * width + 1;
    if i == 0 {
        assert(spec_lines(render_rows(rows, width, 0)) =~= Seq::new(
            0,
            |r: int| ((r * lw) as usize, (r * lw + 2 * width) as usize),
        ));
    } else {
        assert((i - 1) * lw <= i * lw) by (nonlinear_arith)
            requires
                0 <= i,
                lw >= 0,
        ;
        lemma_render_lines(rows, width, i - 1);
        lemma_render_len(rows, width, i - 1);
        let s = render_rows(rows, width, i - 1);
        let body = dense_line_body(rows[i - 1], width);
        assert(s.len() == 0 || s[s.len() - 1] == 10) by {
            if i - 1 > 0 {
                lemma_render_index(rows, width, i - 1, i - 2, 2 * width as int);
                assert((i - 2) * lw + lw - 1 == (i - 1) * lw - 1) by (nonlinear_arith);
            }
        };
        assert(render_rows(rows, width, i) =~= (s + body).push(10u8)) by {
            assert(dense_line(rows[i - 1], width) == body.push(10u8));
        };
        assert(s.len() + body.len() + 1 <= usize::MAX) by {
            assert((i - 1) * lw + lw == i * lw) by (nonlinear_arith);
        };
        lemma_lines_snoc(s, body);
        assert(spec_lines(render_rows(rows, width, i)) =~= Seq::new(
            i as nat,
            |r: int| ((r * lw) as usize, (r * lw + 2 * width) as usize),
        )) by {
            assert(s.len() == (i - 1) * lw);
            assert(s.len() + body.len() == (i - 1) * lw + 2 * width);
        };
    }
}

/// The tokens of a digit-space body: one single-digit token per
/// column.
proof fn lemma_tokens_digits(
    s: Seq<u8>,
    ls: int,
    w: int,
    j: int,
    ts: usize,
    acc: Seq<(usize, usize)>,
)
    requires
        0 <= ls,
        0 <= j <= w,
        ls + 2 * w <= s.len(),
        ls + 2 * w <= usize::MAX,
        forall|q: int|
            0 <= q < w ==> is_digit(#[trigger] s[ls + 2 * q]) && s[ls + 2 * q + 1] == 32,
    ensures
        tokens_from(s, ls + 2 * w, ls + 2 * j, ts, false, acc) == acc + Seq::new(
            (w - j) as nat,
            |q: int| (((ls + 2 * j + 2 * q) as usize), ((ls + 2 * j + 2 * q + 1) as usize)),
        ),
    decreases w - j,
{
    if j == w {
        assert(tokens_from(s, ls + 2 * w, ls + 2 * j, ts, false, acc) == acc);
        assert(acc + Seq::new(0, |q: int| (((ls + 2 * j + 2 * q) as usize), ((ls + 2 * j + 2 * q
            + 1) as usize))) =~= acc);
    } else {
        let i = ls + 2 * j;
        assert(is_digit(s[ls + 2 * j]) && s[ls + 2 * j + 1] == 32);
        assert(s[i] != 32 && s[i] != 9 && s[i] != 13);
        assert(tokens_from(s, ls + 2 * w, i, ts, false, acc) == tokens_from(
            s,
            ls + 2 * w,
            i + 1,
            i as usize,
            true,
            acc,
        ));
        assert(tokens_from(s, ls + 2 * w, i + 1, i as usize, true, acc) == tokens_from(
            s,
            ls + 2 * w,
            i + 2,
            i as usize,
            false,
            acc.push(((i as usize), ((i + 1) as usize))),
        ));
        lemma_tokens_digits(s, ls, w, j + 1, i as usize, acc.push(((i as usize), ((i
            + 1) as usize))));
        assert(acc.push(((i as usize), ((i + 1) as usize))) + Seq::new(
            (w - j - 1) as nat,
            |q: int| (((ls + 2 * (j + 1) + 2 * q) as usize), ((ls + 2 * (j + 1) + 2 * q
                + 1) as usize)),
        ) =~= acc + Seq::new(
            (w - j) as nat,
            |q: int| (((ls + 2 * j + 2 * q) as usize), ((ls + 2 * j + 2 * q + 1) as usize)),
        ));
    }
}

/// The numbers of a token list of single digits.
proof fn lemma_nums_digits(s: Seq<u8>, toks: Seq<(usize, usize)>, k: int, acc: Seq<usize>)
    requires
        0 <= k <= toks.len(),
        forall|q: int|
            0 <= q < toks.len() ==> ((#[trigger] toks[q]).1 == toks[q].0 + 1 && toks[q].1
                <= s.len() && is_digit(s[toks[q].0 as int])),
    ensures
        nums_from(s, toks, k, acc) == Some(
            acc + Seq::new(
                (toks.len() - k) as nat,
                |q: int| ((s[toks[k + q].0 as int] - 48) as usize),
            ),
        ),
    decreases toks.len() - k,
{
    if k == toks.len() {
        assert(acc + Seq::new(0, |q: int| ((s[toks[k + q].0 as int] - 48) as usize)) =~= acc);
    } else {
        let t = toks[k];
        let sub = s.subrange(t.0 as int, t.1 as int);
        assert(sub.len() == 1);
        assert(sub[0] == s[t.0 as int]);
        assert(all_digits(sub));
        assert(is_digit(s[toks[k].0 as int]));
        assert(dec_value(sub) == s[t.0 as int] - 48) by {
            assert(sub.drop_last() =~= Seq::<u8>::empty());
            assert(sub.drop_last() == Seq::<u8>::empty());
            assert(dec_value(Seq::<u8>::empty()) == 0);
            assert(sub.last() == s[t.0 as int]);
            assert(dec_value(sub) == dec_value(sub.drop_last()) * 10 + (sub.last() - 48));
        };
        let v = (s[t.0 as int] - 48) as usize;
        lemma_nums_digits(s, toks, k + 1, acc.push(v));
        assert(acc.push(v) + Seq::new(
            (toks.len() - k - 1) as nat,
            |q: int| ((s[toks[k + 1 + q].0 as int] - 48) as usize),
        ) =~= acc + Seq::new(
            (toks.len() - k) as nat,
            |q: int| ((s[toks[k + q].0 as int] - 48) as usize),
        ));
    }
}

/// A digit-space line parses to one number per column.
proof fn lemma_line_numbers_digits(s: Seq<u8>, ls: int, w: int)
    requires
        0 <= ls,
        0 <= w,
        ls + 2 * w <= s.len(),
        ls + 2 * w <= usize::MAX,
        forall|q: int|
            0 <= q < w ==> is_digit(#[trigger] s[ls + 2 * q]) && s[ls + 2 * q + 1] == 32,
    ensures
        spec_line_numbers(s, ls as usize, (ls + 2 * w) as usize) == Some(
            Seq::new(w as nat, |q: int| ((s[ls + 2 * q] - 48) as usize)),
        ),
{
    lemma_tokens_digits(s, ls, w, 0, ls as usize, Seq::empty());
    let toks = spec_tokens(s, ls as usize, (ls + 2 * w) as usize);
    assert(toks =~= Seq::new(
        w as nat,
        |q: int| (((ls + 2 * q) as usize), ((ls + 2 * q + 1) as usize)),
    ));
    assert forall|q: int|
        0 <= q < toks.len() implies ((#[trigger] toks[q]).1 == toks[q].0 + 1 && toks[q].1
        <= s.len() && is_digit(s[toks[q].0 as int])) by {
        assert(toks[q].0 == (ls + 2 * q) as usize);
    };
    lemma_nums_digits(s, toks, 0, Seq::empty());
    assert(Seq::<usize>::empty() + Seq::new(
        (toks.len() - 0) as nat,
        |q: int| ((s[toks[0 + q].0 as int] - 48) as usize),
    ) =~= Seq::new(w as nat, |q: int| ((s[ls + 2 * q] - 48) as usize)));
}

/// Folding lines whose numbers are known yields exactly those rows.
proof fn lemma_feature_rows_fold(
    s: Seq<u8>,
    lines: Seq<(usize, usize)>,
    vals: Seq<Seq<usize>>,
    li: int,
    acc: Seq<Seq<usize>>,
)
    requires
        0 <= li <= lines.len(),
        vals.len() == lines.len(),
        forall|r: int|
            0 <= r < lines.len() ==> spec_line_numbers(
                s,
                (#[trigger] lines[r]).0,
                lines[r].1,
            ) == Some(vals[r]),
    ensures
        feature_rows_from(s, lines, li, acc) == Some(acc + vals.subrange(li, vals.len() as int)),
    decreases lines.len() - li,
{
    if li == lines.len() {
        assert(acc + vals.subrange(li, vals.len() as int) =~= acc);
    } else {
        lemma_feature_rows_fold(s, lines, vals, li + 1, acc.push(vals[li]));
        assert(acc.push(vals[li]) + vals.subrange(li + 1, vals.len() as int) =~= acc
            + vals.subrange(li, vals.len() as int));
    }
}

/// Law: rendered dense 0/1 text parses back to exactly its dense
/// rows.
pub proof fn lemma_parse_render(rows: Seq<Seq<usize>>, width: nat)
    requires
        rows.len() * (2 * width + 1) <= usize::MAX,
    ensures
        spec_parse_features(render_rows(rows, width, rows.len() as int)) == Some(
            Seq::new(rows.len(), |i: int| dense_of(rows[i], width)),
        ),
{
    let lw = 2 * width + 1;
    let n = rows.len() as int;
    let s = render_rows(rows, width, n);
    lemma_render_len(rows, width, n);
    lemma_render_lines(rows, width, n);
    let lines = spec_lines(s);
    let vals = Seq::new(rows.len(), |i: int| dense_of(rows[i], width));
    assert forall|r: int|
        0 <= r < lines.len() implies spec_line_numbers(s, (#[trigger] lines[r]).0, lines[r].1)
        == Some(vals[r]) by {
        assert(0 <= r * lw && r * lw + lw <= n * lw) by (nonlinear_arith)
            requires
                0 <= r < n,
                lw >= 1,
        ;
        assert forall|q: int|
            0 <= q < width implies is_digit(#[trigger] s[r * lw + 2 * q]) && s[r * lw + 2 * q + 1]
            == 32 by {
            lemma_render_index(rows, width, n, r, 2 * q);
            lemma_render_index(rows, width, n, r, 2 * q + 1);
            assert(dense_line(rows[r], width)[2 * q] == dense_line_body(rows[r], width)[2 * q]);
            assert(dense_line(rows[r], width)[2 * q + 1] == dense_line_body(rows[r], width)[2 * q
                + 1]);
            assert((2 * q) % 2 == 0 && (2 * q + 1) % 2 == 1);
            assert((2 * q) / 2 == q);
        };
        lemma_line_numbers_digits(s, r * lw, width as int);
        assert(lines[r].0 == (r * lw) as usize && lines[r].1 == (r * lw + 2 * width) as usize);
        assert(Seq::new(width, |q: int| ((s[r * lw + 2 * q] - 48) as usize)) =~= dense_of(
            rows[r],
            width,
        )) by {
            assert forall|q: int| 0 <= q < width implies (s[r * lw + 2 * q] - 48) as usize
                == dense_of(rows[r], width)[q] by {
                lemma_render_index(rows, width, n, r, 2 * q);
                assert(dense_line(rows[r], width)[2 * q] == dense_line_body(rows[r], width)[2
                    * q]);
                assert((2 * q) % 2 == 0 && (2 * q) / 2 == q);
            };
        };
    };
    lemma_feature_rows_fold(s, lines, vals, 0, Seq::empty());
    assert(Seq::<Seq<usize>>::empty() + vals.subrange(0, vals.len() as int) =~= vals);
}

/// Law: rendering a well-formed feature table as dense 0/1 text and
/// re-parsing it restores exactly its rows — the text round trip is
/// the identity on tables whose entries fit the width.
pub proof fn lemma_feature_text_round_trip(nf: NodeFeatures, width: nat)
    requires
        nf.wf(),
        width <= usize::MAX,
        forall|i: int, e: int|
            0 <= i < nf.features@.len() && 0 <= e < nf.features@[i]@.len() ==> ((
            #[trigger] nf.features@[i]@[e]) as int) < width,
        nf.features@.len() * (2 * width + 1) <= usize::MAX,
    ensures
        ({
            let rows = Seq::new(nf.features@.len(), |i: int| nf.features@[i]@);
            let text = render_rows(rows, width, rows.len() as int);
            &&& spec_parse_features(text) is Some
            &&& spec_parse_features(text)->Some_0.len() == nf.features@.len()
            &&& forall|i: int|
                0 <= i < nf.features@.len() ==> sparse_of(
                    #[trigger] spec_parse_features(text)->Some_0[i],
                ) == nf.features@[i]@
        }),
{
    let rows = Seq::new(nf.features@.len(), |i: int| nf.features@[i]@);
    let text = render_rows(rows, width, rows.len() as int);
    lemma_parse_render(rows, width);
    assert forall|i: int|
        0 <= i < nf.features@.len() implies sparse_of(
        #[trigger] spec_parse_features(text)->Some_0[i],
    ) == nf.features@[i]@ by {
        assert(spec_parse_features(text)->Some_0[i] == dense_of(rows[i], width));
        assert(crate::nodeset::sorted_strict(rows[i]));
        assert forall|k: int| 0 <= k < rows[i].len() implies ((#[trigger] rows[i][k]) as nat)
            < width by {
            assert((nf.features@[i]@[k] as int) < width);
        };
        lemma_sparse_dense_round_trip(rows[i], width);
    };
}

impl NodeFeatures {
    /// Read a feature table from its text form: one dense 0/1 line
    /// per node.  Any token that is not a machine-word decimal is the
    /// file error, as is a table too large for the address space.
    pub fn parse(data: &[u8]) -> (r: Result<NodeFeatures, GcnError>)
        ensures
            r is Err ==> r->Err_0 == GcnError::IoError,
            match spec_parse_features(data@) {
                None => r is Err,
                Some(rows) => {
                    if rows_bytes(rows, 0) <= u64::MAX {
                        &&& r is Ok
                        &&& r->Ok_0.wf()
                        &&& r->Ok_0.features@.len() == rows.len()
                        &&& forall|i: int|
                            0 <= i < rows.len() ==> (#[trigger] r->Ok_0.features@[i])@ == sparse_of(
                                rows[i],
                            )
                    } else {
                        r is Err
                    }
                },
            },
    {
        let lines = split_lines(data);
        let mut rows: Vec<Vec<usize>> = Vec::new();
        let ghost mut acc: Seq<Seq<usize>> = Seq::empty();
        let ghost mut bound: int = 0;
        let mut bound_exec: u64 = 0;
        let mut li: usize = 0;
        while li < lines.len()
            invariant
                li <= lines@.len(),
                lines@ == spec_lines(data@),
                forall|i: int|
                    0 <= i < lines@.len() ==> (#[trigger] lines@[i]).0 <= lines@[i].1 && lines@[
                        i
                    ].1 <= data@.len(),
                rows@.len() == acc.len(),
                forall|i: int| 0 <= i < acc.len() ==> (#[trigger] rows@[i])@ == acc[i],
                spec_parse_features(data@) == feature_rows_from(data@, lines@, li as int, acc),
                bound == bytes_upper_from(rows@, 0),
                bound == rows_bytes(acc, 0),
                bound_exec == bound,
                bound <= u64::MAX,
            decreases lines@.len() - li,
        {
            let (ls, le) = lines[li];
            let row = match parse_line_numbers(data, ls, le) {
                Ok(row) => row,
                Err(e) => {
                    return Err(e);
                },
            };
            let rl = row.len();
            if rl as u64 > (u64::MAX - bound_exec) / 4 {
                proof {
                    assert(4 * (rl as int) > u64::MAX - bound_exec) by {
                        let m = (u64::MAX - bound_exec) as int;
                        assert(m <= 4 * (m / 4) + 3);
                    };
                    lemma_feature_rows_bytes_grow(data@, lines@, li + 1, acc.push(row@));
                    lemma_rows_bytes_push(acc, row@, 0);
                }
                return Err(GcnError::IoError);
            }
            proof {
                assert(4 * (rl as int) <= u64::MAX - bound_exec) by {
                    let m = (u64::MAX - bound_exec) as int;
                    assert(4 * (m / 4) <= m);
                };
                lemma_bytes_upper_push(rows@, row);
                lemma_rows_bytes_push(acc, row@, 0);
                bound = bound + 4 * (rl as int);
                acc = acc.push(row@);
            }
            bound_exec = bound_exec + (rl as u64) * 4;
            rows.push(row);
            li += 1;
        }
        let nf = NodeFeatures::from_dense(&rows);
        proof {
            let rows_spec = spec_parse_features(data@)->Some_0;
            assert(rows_spec == acc);
            lemma_rows_bytes_nonneg(acc, 0);
            assert forall|i: int|
                0 <= i < acc.len() implies (#[trigger] nf.features@[i])@ == sparse_of(acc[i]) by {
                assert(rows@[i]@ == acc[i]);
            };
        }
        Ok(nf)
    }

    /// Write the table back as dense 0/1 text, one line per node,
    /// `width` columns, a digit and a space per column.  Succeeds
    /// exactly when every feature index fits below `width`; a row
    /// with an entry at or past `width` is beyond the asked-for form
    /// and is refused with the configuration error.  On success the
    /// text re-parses to exactly the dense rows of the table.
    pub fn to_dense_text(&self, width: usize) -> (r: Result<Vec<u8>, GcnError>)
        requires
            self.wf(),
            self.features@.len() * (2 * width + 1) <= usize::MAX,
        ensures
            r is Err ==> r->Err_0 == GcnError::InvalidConfig,
            (r is Ok) == (forall|i: int, e: int|
                0 <= i < self.features@.len() && 0 <= e < self.features@[i]@.len() ==> ((
                #[trigger] self.features@[i]@[e]) as int) < width),
            r matches Ok(out) ==> out@ == render_rows(
                Seq::new(self.features@.len(), |i: int| self.features@[i]@),
                width as nat,
                self.features@.len() as int,
            ),
            r matches Ok(out) ==> spec_parse_features(out@) == Some(
                Seq::new(
                    self.features@.len(),
                    |i: int| dense_of(self.features@[i]@, width as nat),
                ),
            ),
    {
        let ghost rows = Seq::new(self.features@.len(), |i: int| self.features@[i]@);
        let mut out: Vec<u8> = Vec::new();
        let n = self.features.len();
        let mut i: usize = 0;
        while i < n
            invariant
                i <= n,
                n == self.features@.len(),
                self.wf(),
                rows == Seq::new(self.features@.len(), |i: int| self.features@[i]@),
                out@ == render_rows(rows, width as nat, i as int),
                forall|r: int, e: int|
                    0 <= r < i && 0 <= e < rows[r].len() ==> ((#[trigger] rows[r][e]) as int)
                        < width,
            decreases n - i,
        {
            let row = &self.features[i];
            let ghost out0 = out@;
            let mut k: usize = 0;
            let mut col: usize = 0;
            while col < width
                invariant
                    col <= width,
                    k <= row@.len(),
                    i < n,
                    n == self.features@.len(),
                    self.wf(),
                    row == self.features@[i as int],
                    rows[i as int] == row@,
                    crate::nodeset::sorted_strict(row@),
                    forall|e: int| 0 <= e < k ==> ((#[trigger] row@[e]) as int) < col,
                    forall|e: int|
                        k <= e < row@.len() ==> ((#[trigger] row@[e]) as int) >= col,
                    out@ == out0 + dense_line_body(row@, width as nat).subrange(0, 2 * col),
                decreases width - col,
            {
                let hit = k < row.len() && row[k] == col;
                proof {
                    assert(hit == row@.contains(col)) by {
                        if hit {
                            assert(row@[k as int] == col);
                        } else if row@.contains(col) {
                            let e = choose|e: int| 0 <= e < row@.len() && row@[e] == col;
                            if e < k {
                                assert((row@[e] as int) < col);
                            } else {
                                assert(k < row@.len());
                                assert(row@[k as int] != col);
                                if e > k {
                                    assert(row@[k as int] < row@[e]);
                                    assert((row@[k as int] as int) >= col);
                                }
                            }
                        }
                    };
                }
                let ghost out_pre = out@;
                if hit {
                    out.push(49);
                    k += 1;
                } else {
                    out.push(48);
                }
                out.push(32);
                proof {
                    let body = dense_line_body(row@, width as nat);
                    assert(out@ =~= out0 + body.subrange(0, 2 * (col + 1))) by {
                        assert(out_pre == out0 + body.subrange(0, 2 * col as int));
                        assert(body[2 * col as int] == (if hit {
                            49u8
                        } else {
                            48u8
                        })) by {
                            assert((2 * col as int) % 2 == 0 && (2 * col as int) / 2
                                == col as int);
                        };
                        assert(body[2 * col + 1] == 32u8);
                    };
                    if hit {
                        assert forall|e: int|
                            0 <= e < k implies ((#[trigger] row@[e]) as int) < col + 1 by {}
                        assert forall|e: int|
                            k <= e < row@.len() implies ((#[trigger] row@[e]) as int) >= col
                                + 1 by {
                            assert(row@[(k - 1) as int] < row@[e]);
                        }
                    } else {
                        assert forall|e: int|
                            k <= e < row@.len() implies ((#[trigger] row@[e]) as int) >= col
                                + 1 by {
                            if e == k {
                                assert(row@[e] != col);
                            } else {
                                assert(row@[k as int] < row@[e]);
                                assert(row@[k as int] != col);
                            }
                        }
                    }
                }
                col += 1;
            }
            if k < row.len() {
                proof {
                    assert((row@[k as int] as int) >= width);
                    assert(0 <= (i as int) < self.features@.len());
                    assert(((self.features@[i as int]@[k as int]) as int) >= width);
                }
                return Err(GcnError::InvalidConfig);
            }
            out.push(10);
            proof {
                let body = dense_line_body(row@, width as nat);
                assert(out@ =~= render_rows(rows, width as nat, i + 1)) by {
                    assert(body.subrange(0, 2 * width as int) =~= body);
                    assert(render_rows(rows, width as nat, i + 1) == render_rows(
                        rows,
                        width as nat,
                        i as int,
                    ) + dense_line(rows[i as int], width as nat));
                    assert(dense_line(row@, width as nat) == body.push(10u8));
                };
                assert forall|e: int|
                    0 <= e < rows[i as int].len() implies ((#[trigger] rows[i as int][e]) as int)
                    < width by {
                    assert((row@[e] as int) < width);
                };
            }
            i += 1;
        }
        proof {
            lemma_parse_render(rows, width as nat);
            assert(Seq::new(rows.len(), |r: int| dense_of(rows[r], width as nat)) =~= Seq::new(
                self.features@.len(),
                |r: int| dense_of(self.features@[r]@, width as nat),
            ));
            assert forall|r: int, e: int|
                0 <= r < self.features@.len() && 0 <= e < self.features@[r]@.len() implies ((
            #[trigger] self.features@[r]@[e]) as int) < width by {
                assert(rows[r] == self.features@[r]@);
                assert((rows[r][e] as int) < width);
            };
        }
        Ok(out)
    }
}

} // verus!
