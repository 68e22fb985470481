//! The `links:` block of a sidecar's lines and the line ranges of its items.
use vstd::prelude::*;

use crate::lines::{indent, is_item_start, split_indent};
use crate::model::strs_view;
use crate::text::{all_ws, trim_start};

verus! {

/// A trimmed line that opens the links field.
pub open spec fn is_links_header(t: Seq<char>) -> bool {
    "links:"@.is_prefix_of(t)
}

/// `links:` with nothing after it but whitespace or a comment.
pub open spec fn is_plain_links_header(t: Seq<char>) -> bool {
    is_links_header(t) && (all_ws(t.skip(6)) || seq!['#'].is_prefix_of(trim_start(t.skip(6))))
}

/// `links: []`.
pub open spec fn is_empty_links_header(t: Seq<char>) -> bool {
    is_links_header(t) && seq!['[', ']'].is_prefix_of(trim_start(t.skip(6)))
}

/// A line that ends a block opened at indentation `h`: not blank, not a
/// comment, and indented at most `h`.
pub open spec fn closes_block(line: Seq<char>, h: nat) -> bool {
    let t = trim_start(line);
    indent(line) <= h && t.len() > 0 && t[0] != '#'
}

/// The first line from `start` that ends a block at indentation `h`, or the
/// number of lines.
pub open spec fn block_end(lines: Seq<Seq<char>>, start: int, h: nat) -> int
    decreases lines.len() - start,
{
    if start < 0 || start >= lines.len() {
        lines.len() as int
    } else if closes_block(lines[start], h) {
        start
    } else {
        block_end(lines, start + 1, h)
    }
}

/// A line that starts a sequence item at `item_indent`.
pub open spec fn starts_item(line: Seq<char>, item_indent: nat) -> bool {
    indent(line) == item_indent && is_item_start(trim_start(line))
}

/// The item start lines in `start..end`.
pub open spec fn item_starts(lines: Seq<Seq<char>>, start: int, end: int, item_indent: nat) -> Seq<int>
    decreases end - start,
{
    if start >= end {
        seq![]
    } else if starts_item(lines[start], item_indent) {
        seq![start] + item_starts(lines, start + 1, end, item_indent)
    } else {
        item_starts(lines, start + 1, end, item_indent)
    }
}

/// Consecutive item starts as line ranges, the last ending at `end`.
pub open spec fn ranges_of(starts: Seq<int>, end: int) -> Seq<(int, int)> {
    Seq::new(starts.len(), |j: int| (starts[j], if j + 1 < starts.len() { starts[j + 1] } else { end }))
}

/// The first unindented `links:` line from `from`.
pub open spec fn first_header(lines: Seq<Seq<char>>, from: int) -> Option<int>
    decreases lines.len() - from,
{
    if from < 0 || from >= lines.len() {
        None
    } else if indent(lines[from]) == 0 && is_links_header(trim_start(lines[from])) {
        Some(from)
    } else {
        first_header(lines, from + 1)
    }
}

/// The links block: `(header line, end line, flow style, item ranges)`.
/// Items are indented two spaces; a flow-style block has no item ranges.
pub open spec fn block_of(lines: Seq<Seq<char>>) -> Option<(int, int, bool, Seq<(int, int)>)> {
    match first_header(lines, 0) {
        None => None,
        Some(h) => {
            let t = trim_start(lines[h]);
            let flow = !is_plain_links_header(t) && !is_empty_links_header(t);
            let end = block_end(lines, h + 1, 0);
            Some((h, end, flow, if flow { seq![] } else { ranges_of(item_starts(lines, h + 1, end, 2), end) }))
        },
    }
}

/// The links block of a sidecar's lines.
pub struct LinkBlock {
    pub header_index: usize,
    pub end_index: usize,
    pub flow_style: bool,
    pub item_ranges: Vec<(usize, usize)>,
}

/// Ranges as integer pairs.
pub open spec fn ranges_view(v: Seq<(usize, usize)>) -> Seq<(int, int)> {
    v.map_values(|r: (usize, usize)| (r.0 as int, r.1 as int))
}

/// The view of a block.
pub open spec fn block_view(b: LinkBlock) -> (int, int, bool, Seq<(int, int)>) {
    (b.header_index as int, b.end_index as int, b.flow_style, ranges_view(b.item_ranges@))
}

} // verus!

verus! {

/// Whether a trimmed line opens the links field.
pub fn is_links_header_line(t: &str) -> (r: bool)
    ensures
        r == is_links_header(t@),
{
    crate::text::starts_with(t, "links:")
}

/// Whether a trimmed `links:` line is plain.
pub(crate) fn is_plain_header(t: &str) -> (r: bool)
    requires
        is_links_header(t@),
    ensures
        r == is_plain_links_header(t@),
{
    proof {
        reveal_strlit("links:");
        reveal_strlit("#");
        assert("#"@ =~= seq!['#']);
    }
    let v = crate::text::chars_of(t);
    let rest = crate::text::string_of_range(v.as_slice(), 6, v.len());
    assert(rest@ =~= t@.skip(6));
    if crate::text::is_blank(rest.as_str()) {
        return true;
    }
    let trimmed = crate::text::trim_start_str(rest.as_str());
    crate::text::starts_with(trimmed.as_str(), "#")
}

/// Whether a trimmed `links:` line is `links: []`.
fn is_empty_header(t: &str) -> (r: bool)
    requires
        is_links_header(t@),
    ensures
        r == is_empty_links_header(t@),
{
    proof {
        reveal_strlit("links:");
        reveal_strlit("[]");
        assert("[]"@ =~= seq!['[', ']']);
    }
    let v = crate::text::chars_of(t);
    let rest = crate::text::string_of_range(v.as_slice(), 6, v.len());
    assert(rest@ =~= t@.skip(6));
    let trimmed = crate::text::trim_start_str(rest.as_str());
    crate::text::starts_with(trimmed.as_str(), "[]")
}

/// Whether `line` closes a block opened at indentation `h`.
pub fn line_closes_block(line: &str, h: u128) -> (r: bool)
    ensures
        r == closes_block(line@, h as nat),
{
    let (ind, t) = split_indent(line);
    let tv = crate::text::chars_of(t.as_str());
    ind <= h && tv.len() > 0 && tv[0] != '#'
}

/// The first line from `start` that closes a block at indentation `h`.
pub fn find_block_end(lines: &Vec<String>, start: usize, h: u128) -> (r: usize)
    requires
        start <= lines.len(),
    ensures
        r == block_end(strs_view(lines@), start as int, h as nat),
        start <= r <= lines.len(),
{
    let ghost lv = strs_view(lines@);
    let mut k = start;
    while k < lines.len()
        invariant
            start <= k <= lines.len(),
            lv == strs_view(lines@),
            block_end(lv, start as int, h as nat) == block_end(lv, k as int, h as nat),
        decreases lines.len() - k,
    {
        assert(lv[k as int] == lines@[k as int]@);
        if line_closes_block(lines[k].as_str(), h) {
            return k;
        }
        k += 1;
    }
    k
}

/// Whether `line` starts a sequence item at `item_indent`.
pub fn line_starts_item(line: &str, item_indent: u128) -> (r: bool)
    ensures
        r == starts_item(line@, item_indent as nat),
{
    let (ind, t) = split_indent(line);
    ind == item_indent && crate::lines::is_sequence_item_start(t.as_str())
}

/// The line ranges of the items at `item_indent` in `start..end`.
pub fn link_item_ranges(lines: &Vec<String>, start: usize, end: usize, item_indent: u128) -> (r: Vec<(usize, usize)>)
    requires
        start <= end <= lines.len(),
    ensures
        ranges_view(r@) == ranges_of(item_starts(strs_view(lines@), start as int, end as int, item_indent as nat), end as int),
{
    let ghost lv = strs_view(lines@);
    let mut starts: Vec<usize> = Vec::new();
    let mut k = end;
    proof {
        assert(item_starts(lv, end as int, end as int, item_indent as nat) =~= seq![]);
    }
    while k > start
        invariant
            start <= k <= end,
            end <= lines.len(),
            lv == strs_view(lines@),
            starts@.map_values(|x: usize| x as int) == item_starts(lv, k as int, end as int, item_indent as nat),
            forall|q: int| 0 <= q < starts.len() ==> k <= #[trigger] starts@[q] < end,
        decreases k - start,
    {
        k -= 1;
        assert(lv[k as int] == lines@[k as int]@);
        if line_starts_item(lines[k].as_str(), item_indent) {
            let ghost prev = starts@;
            starts.insert(0, k);
            assert(starts@.map_values(|x: usize| x as int) =~= seq![k as int] + prev.map_values(|x: usize| x as int));
        }
    }
    let ghost sv = starts@.map_values(|x: usize| x as int);
    let mut out: Vec<(usize, usize)> = Vec::new();
    let mut j: usize = 0;
    while j < starts.len()
        invariant
            j <= starts.len(),
            sv == starts@.map_values(|x: usize| x as int),
            ranges_view(out@) == ranges_of(sv, end as int).take(j as int),
        decreases starts.len() - j,
    {
        let stop = if j + 1 < starts.len() { starts[j + 1] } else { end };
        let ghost prev = out@;
        out.push((starts[j], stop));
        assert(sv[j as int] == starts@[j as int] as int);
        assert(j + 1 < starts.len() ==> sv[j + 1] == starts@[j + 1] as int);
        assert(ranges_view(out@) =~= ranges_view(prev).push((starts@[j as int] as int, stop as int)));
        assert(ranges_view(out@) =~= ranges_of(sv, end as int).take(j + 1));
        j += 1;
    }
    assert(ranges_of(sv, end as int).take(starts.len() as int) =~= ranges_of(sv, end as int));
    out
}

/// The links block of `lines`, if there is one.
pub fn find_links_block(lines: &Vec<String>) -> (r: Option<LinkBlock>)
    ensures
        match block_of(strs_view(lines@)) {
            None => r is None,
            Some(b) => r matches Some(x) && block_view(x) == b && x.header_index < x.end_index <= lines.len()
                && forall|q: int| 0 <= q < x.item_ranges.len() ==> x.header_index < (#[trigger] x.item_ranges@[q]).0 < x.item_ranges@[q].1 <= x.end_index,
        },
{
    let ghost lv = strs_view(lines@);
    let mut k: usize = 0;
    while k < lines.len()
        invariant
            k <= lines.len(),
            lv == strs_view(lines@),
            first_header(lv, 0) == first_header(lv, k as int),
        decreases lines.len() - k,
    {
        assert(lv[k as int] == lines@[k as int]@);
        let (ind, t) = split_indent(lines[k].as_str());
        if ind == 0 && is_links_header_line(t.as_str()) {
            let flow = !is_plain_header(t.as_str()) && !is_empty_header(t.as_str());
            let end = find_block_end(lines, k + 1, 0);
            let ranges = if flow { Vec::new() } else { link_item_ranges(lines, k + 1, end, 2) };
            assert(!flow ==> ranges_view(ranges@) == ranges_of(item_starts(lv, k + 1, end as int, 2), end as int));
            let b = LinkBlock { header_index: k, end_index: end, flow_style: flow, item_ranges: ranges };
            proof {
                let rv = ranges_view(b.item_ranges@);
                if !flow {
                    lemma_item_starts_bounds(lv, k + 1, end as int, 2);
                    lemma_ranges_bounds(item_starts(lv, k + 1, end as int, 2), end as int, k + 1);
                    let st = item_starts(lv, k + 1, end as int, 2);
                    assert forall|q: int| 0 <= q < b.item_ranges.len() implies k < (#[trigger] b.item_ranges@[q]).0 < b.item_ranges@[q].1 <= end by {
                        assert(rv[q] == (b.item_ranges@[q].0 as int, b.item_ranges@[q].1 as int));
                        assert(rv.len() == b.item_ranges@.len());
                        assert(ranges_of(st, end as int).len() == st.len());
                        assert(q < st.len());
                        assert(rv[q] == ranges_of(st, end as int)[q]);
                        assert(k + 1 <= st[q]);
                        assert(ranges_of(st, end as int)[q].0 == st[q]);
                    }
                } else {
                    assert(rv =~= seq![]);
                }
            }
            return Some(b);
        }
        k += 1;
    }
    None
}

pub proof fn lemma_item_starts_bounds(lines: Seq<Seq<char>>, start: int, end: int, ii: nat)
    ensures
        forall|q: int| 0 <= q < item_starts(lines, start, end, ii).len() ==> start <= #[trigger] item_starts(lines, start, end, ii)[q] < end,
        forall|a: int, b: int| 0 <= a < b < item_starts(lines, start, end, ii).len() ==> item_starts(lines, start, end, ii)[a] < item_starts(lines, start, end, ii)[b],
    decreases end - start,
{
    if start < end {
        lemma_item_starts_bounds(lines, start + 1, end, ii);
        let rest = item_starts(lines, start + 1, end, ii);
        if starts_item(lines[start], ii) {
            let s = seq![start] + rest;
            assert forall|q: int| 0 <= q < s.len() implies start <= #[trigger] s[q] < end by {
                if q > 0 { assert(s[q] == rest[q - 1]); }
            }
            assert forall|a: int, b: int| 0 <= a < b < s.len() implies s[a] < s[b] by {
                if a > 0 { assert(s[a] == rest[a - 1]); }
                assert(s[b] == rest[b - 1]);
            }
        }
    }
}

pub proof fn lemma_ranges_bounds(starts: Seq<int>, end: int, lo: int)
    requires
        forall|q: int| 0 <= q < starts.len() ==> lo <= #[trigger] starts[q] < end,
        forall|a: int, b: int| 0 <= a < b < starts.len() ==> starts[a] < starts[b],
    ensures
        forall|q: int| 0 <= q < starts.len() ==> lo <= (#[trigger] ranges_of(starts, end)[q]).0 < ranges_of(starts, end)[q].1 <= end,
{
    assert forall|q: int| 0 <= q < starts.len() implies lo <= (#[trigger] ranges_of(starts, end)[q]).0 < ranges_of(starts, end)[q].1 <= end by {
        if q + 1 < starts.len() {
            assert(starts[q] < starts[q + 1]);
        }
    }
}

} // verus!
