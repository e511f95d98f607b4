//! Locating the `host: ` line inside the captured output.
//!
//! The output is treated as a sequence of bytes whose lines are separated by
//! line feeds.  The value to extract is everything between the first
//! occurrence of the prefix `host: ` at the start of a line and the next line
//! feed (or the end of the output).  Two scanning strategies are provided:
//! one walks the output line by line, the other walks it byte by byte looking
//! for a line start followed by the prefix.  [`lemma_strategies_agree`]
//! proves that they name the same span on every input.

use vstd::prelude::*;

verus! {

/// The bytes of the prefix `host: `.
pub open spec fn host_prefix() -> Seq<u8> {
    seq![104u8, 111u8, 115u8, 116u8, 58u8, 32u8]
}

/// True when the prefix `host: ` occupies `s[i .. i + 6]`.
pub open spec fn prefix_at(s: Seq<u8>, i: int) -> bool {
    &&& 0 <= i
    &&& i + 6 <= s.len()
    &&& forall|k: int| 0 <= k < 6 ==> s[i + k] == host_prefix()[k]
}

/// True when index `i` begins a line of `s`: it is the start of the whole
/// output or is preceded by a line feed.
pub open spec fn line_start(s: Seq<u8>, i: int) -> bool {
    &&& 0 <= i <= s.len()
    &&& (i == 0 || s[i - 1] == 10)
}

/// The index of the first line feed of `s` at or after `i`, or `s.len()`
/// when the rest of `s` holds none.
pub open spec fn line_end_from(s: Seq<u8>, i: int) -> int
    decreases s.len() - i when 0 <= i <= s.len()
{
    if i >= s.len() {
        s.len() as int
    } else if s[i] == 10 {
        i
    } else {
        line_end_from(s, i + 1)
    }
}

pub proof fn lemma_line_end_from(s: Seq<u8>, i: int)
    requires
        0 <= i <= s.len(),
    ensures
        i <= line_end_from(s, i) <= s.len(),
        line_end_from(s, i) < s.len() ==> s[line_end_from(s, i)] == 10,
        forall|j: int| i <= j < line_end_from(s, i) ==> s[j] != 10,
    decreases s.len() - i,
{
    if i < s.len() && s[i] != 10 {
        lemma_line_end_from(s, i + 1);
    }
}

/// The first line start at or after `i` where the prefix appears, found by
/// hopping from one line start to the next — the line-scan strategy.
pub open spec fn host_start_by_lines(s: Seq<u8>, i: int) -> Option<int>
    decreases s.len() - i when 0 <= i <= s.len() via host_start_by_lines_decreases
{
    if prefix_at(s, i) {
        Some(i)
    } else if line_end_from(s, i) >= s.len() {
        None
    } else {
        host_start_by_lines(s, line_end_from(s, i) + 1)
    }
}

#[via_fn]
proof fn host_start_by_lines_decreases(s: Seq<u8>, i: int) {
    if 0 <= i <= s.len() {
        lemma_line_end_from(s, i);
    }
}

/// The least index at or after `i` that starts a line and carries the
/// prefix, found by trying every index in turn — the byte-search strategy.
pub open spec fn host_start_by_search(s: Seq<u8>, i: int) -> Option<int>
    decreases s.len() - i when 0 <= i <= s.len()
{
    if i >= s.len() {
        None
    } else if line_start(s, i) && prefix_at(s, i) {
        Some(i)
    } else {
        host_start_by_search(s, i + 1)
    }
}

/// The span `(a, b)` of the host value under the line-scan strategy:
/// `s[a .. b]` is what follows the prefix on the first `host: ` line, up to
/// the next line feed or the end of the output.
pub open spec fn host_span_lines(s: Seq<u8>) -> Option<(int, int)> {
    match host_start_by_lines(s, 0) {
        Some(p) => Some((p + 6, line_end_from(s, p + 6))),
        None => None,
    }
}

/// The span of the host value under the byte-search strategy.
pub open spec fn host_span_search(s: Seq<u8>) -> Option<(int, int)> {
    match host_start_by_search(s, 0) {
        Some(p) => Some((p + 6, line_end_from(s, p + 6))),
        None => None,
    }
}

/// A found start carries the prefix and lies on a line start.
pub proof fn lemma_host_start_lines_props(s: Seq<u8>, i: int)
    requires
        line_start(s, i),
        host_start_by_lines(s, i) is Some,
    ensures
        prefix_at(s, host_start_by_lines(s, i)->Some_0),
        line_start(s, host_start_by_lines(s, i)->Some_0),
    decreases s.len() - i,
{
    if !prefix_at(s, i) {
        lemma_line_end_from(s, i);
        let e = line_end_from(s, i);
        if e < s.len() {
            lemma_host_start_lines_props(s, e + 1);
        }
    }
}

/// The byte-search result is unchanged by stepping over an index that is no
/// match, and hence over any match-free stretch.
proof fn lemma_search_skip(s: Seq<u8>, i: int, m: int)
    requires
        0 <= i <= m <= s.len(),
        forall|j: int| i <= j < m ==> !(line_start(s, j) && prefix_at(s, j)),
    ensures
        host_start_by_search(s, i) == host_start_by_search(s, m),
    decreases m - i,
{
    if i < m {
        lemma_search_skip(s, i + 1, m);
    }
}

/// Both strategies find the same host start from any line start.
proof fn lemma_agree_from(s: Seq<u8>, i: int)
    requires
        line_start(s, i),
    ensures
        host_start_by_lines(s, i) == host_start_by_search(s, i),
    decreases s.len() - i,
{
    lemma_line_end_from(s, i);
    let e = line_end_from(s, i);
    if prefix_at(s, i) {
        lemma_search_skip(s, i, i);
    } else {
        // No index of the current line can match: the line's first index
        // lacks the prefix, and no later index of it starts a line.
        assert forall|j: int| i <= j < if e < s.len() { e + 1 } else { e } implies !(line_start(
            s,
            j,
        ) && prefix_at(s, j)) by {
            if j > i {
                assert(s[j - 1] != 10);
            }
        }
        if e >= s.len() {
            lemma_search_skip(s, i, e);
        } else {
            lemma_search_skip(s, i, e + 1);
            lemma_agree_from(s, e + 1);
        }
    }
}

/// The safe line-scan strategy and the byte-offset-search strategy name the
/// same host span on every output, so the two parsing paths return identical
/// results.
pub proof fn lemma_strategies_agree(s: Seq<u8>)
    ensures
        host_span_lines(s) == host_span_search(s),
{
    lemma_agree_from(s, 0);
}

/// What the byte-search result means: a found start is the least match, and
/// `None` means the rest of the output holds no match at all.
proof fn lemma_search_first(s: Seq<u8>, i: int)
    requires
        0 <= i <= s.len(),
    ensures
        host_start_by_search(s, i) matches Some(q) ==> i <= q < s.len() && line_start(s, q)
            && prefix_at(s, q) && (forall|j: int|
            i <= j < q ==> !(line_start(s, j) && prefix_at(s, j))),
        host_start_by_search(s, i) is None ==> (forall|j: int|
            i <= j < s.len() ==> !(line_start(s, j) && prefix_at(s, j))),
    decreases s.len() - i,
{
    if i < s.len() && !(line_start(s, i) && prefix_at(s, i)) {
        lemma_search_first(s, i + 1);
    }
}

/// On output where one and only one line begins with `host: `, the span
/// found is the remainder of exactly that line, whatever the other lines
/// hold and wherever it stands among them.
pub proof fn lemma_unique_host_line(s: Seq<u8>, p: int)
    requires
        line_start(s, p),
        prefix_at(s, p),
        forall|q: int| line_start(s, q) && prefix_at(s, q) ==> q == p,
    ensures
        host_span_lines(s) == Some((p + 6, line_end_from(s, p + 6))),
{
    lemma_strategies_agree(s);
    lemma_search_first(s, 0);
    if host_start_by_search(s, 0) is None {
        assert(!(line_start(s, p) && prefix_at(s, p)));
    }
}

/// The scan comes up empty exactly on output where no line begins with
/// `host: `.
pub proof fn lemma_no_host_line(s: Seq<u8>)
    ensures
        host_span_lines(s) is None <==> (forall|q: int| !(line_start(s, q) && prefix_at(s, q))),
{
    lemma_strategies_agree(s);
    lemma_search_first(s, 0);
    if host_start_by_search(s, 0) is None {
        assert forall|q: int| !(line_start(s, q) && prefix_at(s, q)) by {
            if line_start(s, q) && prefix_at(s, q) {
                assert(0 <= q < s.len());
            }
        }
    }
}

/// True when the prefix `host: ` occupies `out[i .. i + 6]`.
fn prefix_at_exec(out: &[u8], i: usize) -> (r: bool)
    requires
        i <= out@.len(),
    ensures
        r == prefix_at(out@, i as int),
{
    if out.len() - i < 6 {
        return false;
    }
    let r = out[i] == 104 && out[i + 1] == 111 && out[i + 2] == 115 && out[i + 3] == 116 && out[i
        + 4] == 58 && out[i + 5] == 32;
    proof {
        assert(host_prefix()[0] == 104 && host_prefix()[1] == 111 && host_prefix()[2] == 115
            && host_prefix()[3] == 116 && host_prefix()[4] == 58 && host_prefix()[5] == 32);
        if r {
            assert forall|k: int| 0 <= k < 6 implies out@[i + k] == host_prefix()[k] by {
                if k == 0 {
                } else if k == 1 {
                } else if k == 2 {
                } else if k == 3 {
                } else if k == 4 {
                } else {
                    assert(k == 5);
                }
            }
        } else {
            if prefix_at(out@, i as int) {
                assert(out@[i + 0] == host_prefix()[0]);
                assert(out@[i + 1] == host_prefix()[1]);
                assert(out@[i + 2] == host_prefix()[2]);
                assert(out@[i + 3] == host_prefix()[3]);
                assert(out@[i + 4] == host_prefix()[4]);
                assert(out@[i + 5] == host_prefix()[5]);
            }
        }
    }
    r
}

/// The index of the first line feed of `out` at or after `start`, or
/// `out.len()` when there is none.
fn find_line_end(out: &[u8], start: usize) -> (e: usize)
    requires
        start <= out@.len(),
    ensures
        e == line_end_from(out@, start as int),
{
    let mut j = start;
    while j < out.len()
        invariant
            start <= j <= out@.len(),
            line_end_from(out@, start as int) == line_end_from(out@, j as int),
        decreases out@.len() - j,
    {
        if out[j] == 10 {
            return j;
        }
        j = j + 1;
    }
    j
}

/// Scans the output line by line for the first one beginning with `host: `
/// and returns the half-open byte span of that line's remainder.
pub fn find_host_lines(out: &[u8]) -> (r: Option<(usize, usize)>)
    ensures
        r is Some <==> host_span_lines(out@) is Some,
        r matches Some((a, b)) ==> host_span_lines(out@) == Some((a as int, b as int)) && a <= b
            <= out@.len(),
{
    let n = out.len();
    let mut i: usize = 0;
    loop
        invariant
            i <= n,
            n == out@.len(),
            line_start(out@, i as int),
            host_start_by_lines(out@, 0) == host_start_by_lines(out@, i as int),
        decreases n - i,
    {
        if prefix_at_exec(out, i) {
            let e = find_line_end(out, i + 6);
            proof {
                lemma_line_end_from(out@, i + 6);
            }
            return Some((i + 6, e));
        }
        let e = find_line_end(out, i);
        proof {
            lemma_line_end_from(out@, i as int);
        }
        if e == n {
            return None;
        }
        i = e + 1;
    }
}

/// Walks the output byte by byte for a line start followed by `host: ` and
/// returns the half-open byte span of what follows, up to the next line
/// feed.  This is the byte-offset flavour of the scan; by
/// [`lemma_strategies_agree`] it returns exactly what [`find_host_lines`]
/// returns.
pub fn find_host_search(out: &[u8]) -> (r: Option<(usize, usize)>)
    ensures
        r is Some <==> host_span_search(out@) is Some,
        r matches Some((a, b)) ==> host_span_search(out@) == Some((a as int, b as int)) && a <= b
            <= out@.len(),
{
    let n = out.len();
    let mut i: usize = 0;
    while i < n
        invariant
            i <= n,
            n == out@.len(),
            host_start_by_search(out@, 0) == host_start_by_search(out@, i as int),
        decreases n - i,
    {
        if (i == 0 || out[i - 1] == 10) && prefix_at_exec(out, i) {
            let e = find_line_end(out, i + 6);
            proof {
                lemma_line_end_from(out@, i + 6);
            }
            return Some((i + 6, e));
        }
        i = i + 1;
    }
    None
}

} // verus!
