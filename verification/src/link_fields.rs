//! Editing the fields of one link item within a sidecar's lines.
use vstd::prelude::*;

use crate::json::json_quoted;
use crate::lines::{
    indent, is_link_field_line, link_field_line, replace_value, replace_yaml_value, spaces,
    spaces_exec, split_indent,
};
use crate::links_block::starts_item;
use crate::model::strs_view;
use crate::text::trim_start;

verus! {

/// The first line in `a..b` holding `field` of the item at `ii`.
pub open spec fn find_field(lines: Seq<Seq<char>>, a: int, b: int, ii: nat, field: Seq<char>) -> Option<int>
    decreases b - a,
{
    if a >= b || a < 0 || a >= lines.len() {
        None
    } else if link_field_line(lines[a], ii, field) {
        Some(a)
    } else {
        find_field(lines, a + 1, b, ii, field)
    }
}

/// A line that ends the item starting before it: the next item start, or a
/// non-blank, non-comment line indented less than the item.
pub open spec fn ends_item(line: Seq<char>, ii: nat) -> bool {
    let t = trim_start(line);
    starts_item(line, ii) || (indent(line) < ii && t.len() > 0 && t[0] != '#')
}

/// The end of the item that starts at line `start`: the first later line
/// that ends it, or the number of lines.
pub open spec fn item_end_from(lines: Seq<Seq<char>>, k: int, ii: nat) -> int
    decreases lines.len() - k,
{
    if k < 0 || k >= lines.len() {
        lines.len() as int
    } else if ends_item(lines[k], ii) {
        k
    } else {
        item_end_from(lines, k + 1, ii)
    }
}

/// The end of the item that starts at `start`.
pub open spec fn item_end(lines: Seq<Seq<char>>, start: int, ii: nat) -> int {
    item_end_from(lines, start + 1, ii)
}

/// A line that ends a field's nested lines: non-blank and indented at most
/// the field's indentation.
pub open spec fn ends_field(line: Seq<char>, ii: nat) -> bool {
    trim_start(line).len() > 0 && indent(line) <= ii + 2
}

/// The first line in `k..range_end` that ends a field, or `range_end`.
pub open spec fn field_end_from(lines: Seq<Seq<char>>, k: int, range_end: int, ii: nat) -> int
    decreases range_end - k,
{
    if k >= range_end || k < 0 || k >= lines.len() {
        range_end
    } else if ends_field(lines[k], ii) {
        k
    } else {
        field_end_from(lines, k + 1, range_end, ii)
    }
}

/// The fields a new `field` goes after, in order of preference.
pub open spec fn fields_before(field: Seq<char>) -> Seq<Seq<char>> {
    if field == "pathHint"@ {
        seq!["to"@]
    } else if field == "reason"@ {
        seq!["pathHint"@, "to"@]
    } else if field == "order"@ {
        seq!["reason"@, "pathHint"@, "to"@]
    } else {
        seq![]
    }
}

/// Where a new field goes: after the first preceding field present, else at
/// the end of the item.
pub open spec fn insertion_after(lines: Seq<Seq<char>>, a: int, b: int, ii: nat, after: Seq<Seq<char>>) -> int
    decreases after.len(),
{
    if after.len() == 0 {
        b
    } else {
        match find_field(lines, a, b, ii, after[0]) {
            Some(k) => k + 1,
            None => insertion_after(lines, a, b, ii, after.drop_first()),
        }
    }
}

/// The line of a new optional field.
pub open spec fn field_text(ii: nat, field: Seq<char>, value: Seq<char>) -> Seq<char> {
    spaces(ii + 2) + field + seq![':', ' '] + value
}

/// Sets, replaces or removes an optional one-line field of the item in
/// `a..b`.
pub open spec fn set_optional(lines: Seq<Seq<char>>, a: int, b: int, ii: nat, field: Seq<char>, value: Option<Seq<char>>) -> Seq<Seq<char>> {
    match (find_field(lines, a, b, ii, field), value) {
        (Some(k), Some(v)) => lines.update(k, replace_value(lines[k], v)),
        (Some(k), None) => lines.remove(k),
        (None, Some(v)) => lines.insert(insertion_after(lines, a, b, ii, fields_before(field)), field_text(ii, field, v)),
        (None, None) => lines,
    }
}

/// A field line that carries the item's `- ` marker.
pub open spec fn marker_line(line: Seq<char>, ii: nat) -> bool {
    indent(line) == ii && seq!['-', ' '].is_prefix_of(trim_start(line))
}

/// Sets, replaces or removes the `reason` field of the item in `a..b`,
/// including any lines nested under it; a removed field that carried the
/// item marker leaves a bare `-`.
pub open spec fn set_reason(lines: Seq<Seq<char>>, a: int, b: int, ii: nat, value: Option<Seq<char>>) -> Seq<Seq<char>> {
    match (find_field(lines, a, b, ii, "reason"@), value) {
        (Some(k), Some(v)) => {
            let e = field_end_from(lines, k + 1, b, ii);
            lines.take(k) + seq![replace_value(lines[k], json_quoted(v))] + lines.skip(e)
        },
        (Some(k), None) => {
            let e = field_end_from(lines, k + 1, b, ii);
            if marker_line(lines[k], ii) {
                lines.take(k) + seq![spaces(ii) + seq!['-']] + lines.skip(e)
            } else {
                lines.take(k) + lines.skip(e)
            }
        },
        (None, Some(v)) => lines.insert(insertion_after(lines, a, b, ii, fields_before("reason"@)), field_text(ii, "reason"@, json_quoted(v))),
        (None, None) => lines,
    }
}

/// The view of an acknowledgement: `(sourceRevision, targetRevision,
/// linkRevision)`.
pub open spec fn ack_view(a: crate::model::AcknowledgedRevisions) -> (Seq<char>, Seq<char>, Option<Seq<char>>) {
    (a.source_revision@, a.target_revision@, crate::model::opt_view(a.link_revision))
}

/// A line that ends a nested block at field indentation: non-blank, not a
/// comment, indented at most the field's indentation.
pub open spec fn ends_nested(line: Seq<char>, ii: nat) -> bool {
    let t = trim_start(line);
    indent(line) <= ii + 2 && t.len() > 0 && t[0] != '#'
}

/// The first line in `k..b` that ends a nested block, or `b`.
pub open spec fn nested_end_from(lines: Seq<Seq<char>>, k: int, b: int, ii: nat) -> int
    decreases b - k,
{
    if k >= b || k < 0 || k >= lines.len() {
        b
    } else if ends_nested(lines[k], ii) {
        k
    } else {
        nested_end_from(lines, k + 1, b, ii)
    }
}

/// The trailing comment of a line's value.
pub open spec fn line_comment(line: Seq<char>) -> Seq<char> {
    match crate::text::find_char(line, ':') {
        Some(c) => crate::lines::comment_suffix(line.skip(c + 1)),
        None => seq![],
    }
}

/// The lines after removing the `acknowledged` field (and its nested lines)
/// of the item in `a..b`: `(lines, the field carried the item marker, its
/// comment)`. Without a new acknowledgement, a removed marker field leaves a
/// bare `-`.
pub open spec fn ack_removed(lines: Seq<Seq<char>>, a: int, b: int, ii: nat, keep: bool) -> (Seq<Seq<char>>, bool, Seq<char>) {
    match find_field(lines, a, b, ii, "acknowledged"@) {
        Some(start) => {
            let marker = marker_line(lines[start], ii);
            let hc = line_comment(lines[start]);
            let end = nested_end_from(lines, start + 1, b, ii);
            let l1 = lines.take(start) + lines.skip(end);
            (if !keep && marker { l1.insert(start, spaces(ii) + seq!['-']) } else { l1 }, marker, hc)
        },
        None => (lines, false, seq![]),
    }
}

/// Replaces the `acknowledged` field of the item starting at `a` (ending at
/// `b`) with `ack`'s revisions, or removes it.
pub open spec fn set_ack(lines: Seq<Seq<char>>, a: int, b: int, ii: nat, ack: Option<(Seq<char>, Seq<char>, Option<Seq<char>>)>) -> Seq<Seq<char>> {
    let (l2, marker, hc) = ack_removed(lines, a, b, ii, ack is Some);
    match ack {
        None => l2,
        Some((src, tgt, lr)) => {
            let ni = ii + 4;
            let ack_line = if marker {
                spaces(ii) + "- acknowledged:"@ + hc
            } else {
                spaces(ii + 2) + "acknowledged:"@ + hc
            };
            let at = if marker { a } else { item_end(l2, a, ii) };
            let l3 = l2.take(at) + seq![ack_line, spaces(ni) + "sourceRevision: "@ + src, spaces(ni) + "targetRevision: "@ + tgt] + l2.skip(at);
            match lr {
                Some(r) => l3.insert(item_end(l3, a, ii), spaces(ni) + "linkRevision: "@ + r),
                None => l3,
            }
        },
    }
}

/// Replaces the value of a required field of the item in `a..b`; `None` when
/// the item lacks it.
pub open spec fn set_required(lines: Seq<Seq<char>>, a: int, b: int, ii: nat, field: Seq<char>, value: Seq<char>) -> Option<Seq<Seq<char>>> {
    match find_field(lines, a, b, ii, field) {
        Some(k) => Some(lines.update(k, replace_value(lines[k], crate::lines::yaml_string(value)))),
        None => None,
    }
}

/// Why the item in `a..b` cannot be rewritten: it lacks `rel`, or else `to`.
pub open spec fn missing_field_message(lines: Seq<Seq<char>>, a: int, b: int, ii: nat) -> Seq<char> {
    if find_field(lines, a, b, ii, "rel"@) is None {
        "unsupported links formatting; missing rel field"@
    } else {
        "unsupported links formatting; missing to field"@
    }
}

/// A declared link's fields: relation, target, path hint, reason, order and
/// acknowledgement.
pub type LinkView = (Seq<char>, Seq<char>, Option<Seq<char>>, Option<Seq<char>>, Option<i64>, Option<(Seq<char>, Seq<char>, Option<Seq<char>>)>);

/// The view of a declared link.
pub open spec fn link_fields_of(l: crate::model::Link) -> LinkView {
    (l.rel@, l.to@, crate::model::opt_view(l.path_hint), crate::model::opt_view(l.reason), l.order, match l.acknowledged {
        Some(a) => Some(ack_view(a)),
        None => None,
    })
}

/// Rewrites every field of the item in `a..b` to `link`'s values; `None`
/// when the item lacks `rel` or `to`.
pub open spec fn set_link_fields(lines: Seq<Seq<char>>, a: int, b: int, ii: nat, link: LinkView) -> Option<Seq<Seq<char>>> {
    let (rel, to, hint, reason, order, ack) = link;
    match set_required(lines, a, b, ii, "rel"@, rel) {
        None => None,
        Some(l1) => match set_required(l1, a, b, ii, "to"@, to) {
            None => None,
            Some(l2) => {
                let l3 = set_optional(l2, a, b, ii, "pathHint"@, match hint { Some(h) => Some(crate::lines::yaml_string(h)), None => None });
                let l4 = set_reason(l3, a, item_end(l3, a, ii), ii, reason);
                let l5 = set_optional(l4, a, item_end(l4, a, ii), ii, "order"@, match order { Some(o) => Some(crate::numfmt::signed_decimal(o as int)), None => None });
                Some(set_ack(l5, a, item_end(l5, a, ii), ii, ack))
            },
        },
    }
}

} // verus!

verus! {

/// The first line in `a..b` holding `field` of the item at `ii`.
pub fn find_field_line(lines: &Vec<String>, a: usize, b: usize, ii: usize, field: &str) -> (r: Option<usize>)
    ensures
        match find_field(strs_view(lines@), a as int, b as int, ii as nat, field@) {
            Some(k) => r == Some(k as usize) && a <= k < b && k < lines.len(),
            None => r is None,
        },
{
    let ghost lv = strs_view(lines@);
    let mut k = a;
    while k < b && k < lines.len()
        invariant
            a <= k,
            lv == strs_view(lines@),
            find_field(lv, a as int, b as int, ii as nat, field@) == find_field(lv, k as int, b as int, ii as nat, field@),
        decreases b - k,
    {
        assert(lv[k as int] == lines@[k as int]@);
        if is_link_field_line(lines[k].as_str(), ii, field) {
            return Some(k);
        }
        k += 1;
    }
    None
}

/// Whether `line` ends an item at `ii`.
fn line_ends_item(line: &str, ii: usize) -> (r: bool)
    ensures
        r == ends_item(line@, ii as nat),
{
    let (ind, t) = split_indent(line);
    let tv = crate::text::chars_of(t.as_str());
    crate::links_block::line_starts_item(line, ii as u128) || (ind < ii as u128 && tv.len() > 0 && tv[0] != '#')
}

/// The end of the item that starts at line `start`.
pub fn link_range_end(lines: &Vec<String>, start: usize, ii: usize) -> (r: usize)
    ensures
        r == item_end(strs_view(lines@), start as int, ii as nat),
        r <= lines.len() || r == start + 1,
        r >= start + 1 || r == lines.len(),
{
    let ghost lv = strs_view(lines@);
    if start >= lines.len() {
        return lines.len();
    }
    let mut k = start + 1;
    while k < lines.len()
        invariant
            start < k <= lines.len(),
            lv == strs_view(lines@),
            item_end_from(lv, start + 1, ii as nat) == item_end_from(lv, k as int, ii as nat),
        decreases lines.len() - k,
    {
        assert(lv[k as int] == lines@[k as int]@);
        if line_ends_item(lines[k].as_str(), ii) {
            return k;
        }
        k += 1;
    }
    k
}

/// The first line in `from..range_end` that ends a field's nested lines.
pub fn link_field_end(lines: &Vec<String>, from: usize, range_end: usize, ii: usize) -> (r: usize)
    ensures
        r == field_end_from(strs_view(lines@), from as int, range_end as int, ii as nat),
{
    let ghost lv = strs_view(lines@);
    let mut k = from;
    while k < range_end && k < lines.len()
        invariant
            from <= k,
            lv == strs_view(lines@),
            field_end_from(lv, from as int, range_end as int, ii as nat) == field_end_from(lv, k as int, range_end as int, ii as nat),
        decreases range_end - k,
    {
        assert(lv[k as int] == lines@[k as int]@);
        let (ind, t) = split_indent(lines[k].as_str());
        if crate::text::chars_of(t.as_str()).len() > 0 && ind <= ii as u128 + 2 {
            return k;
        }
        k += 1;
    }
    if k >= lines.len() && k < range_end {
        return range_end;
    }
    range_end
}

/// Where a new `field` goes in the item in `a..b`.
pub fn insertion_index(lines: &Vec<String>, a: usize, b: usize, ii: usize, field: &str) -> (r: usize)
    ensures
        r == insertion_after(strs_view(lines@), a as int, b as int, ii as nat, fields_before(field@)),
{
    proof {
        reveal_strlit("pathHint");
        reveal_strlit("reason");
        reveal_strlit("order");
        reveal_strlit("to");
    }
    let mut after: Vec<&str> = Vec::new();
    if crate::text::text_eq(field, "pathHint") {
        after.push("to");
    } else if crate::text::text_eq(field, "reason") {
        after.push("pathHint");
        after.push("to");
    } else if crate::text::text_eq(field, "order") {
        after.push("reason");
        after.push("pathHint");
        after.push("to");
    }
    let ghost av = after@.map_values(|s: &str| s@);
    assert(av =~= fields_before(field@));
    assert(av.skip(0) =~= av);
    let mut j: usize = 0;
    while j < after.len()
        invariant
            j <= after.len(),
            av == after@.map_values(|s: &str| s@),
            av == fields_before(field@),
            insertion_after(strs_view(lines@), a as int, b as int, ii as nat, av) == insertion_after(strs_view(lines@), a as int, b as int, ii as nat, av.skip(j as int)),
        decreases after.len() - j,
    {
        assert(av.skip(j as int)[0] == after@[j as int]@);
        assert(av.skip(j as int).drop_first() =~= av.skip(j + 1));
        let f = after[j];
        assert(f@ == av.skip(j as int)[0]);
        match find_field_line(lines, a, b, ii, f) {
            Some(k) => {
                assert(find_field(strs_view(lines@), a as int, b as int, ii as nat, av.skip(j as int)[0]) == Some(k as int));
                assert(insertion_after(strs_view(lines@), a as int, b as int, ii as nat, av.skip(j as int)) == k + 1);
                return k + 1;
            },
            None => {},
        }
        j += 1;
    }
    assert(av.skip(after.len() as int) =~= seq![]);
    b
}

/// The line of a new optional field.
fn new_field_line(ii: usize, field: &str, value: &str) -> (r: String)
    requires
        ii <= usize::MAX - 8,
    ensures
        r@ == field_text(ii as nat, field@, value@),
{
    proof { reveal_strlit(": "); assert(": "@ =~= seq![':', ' ']); }
    let mut r = spaces_exec(ii + 2);
    r.append(field);
    r.append(": ");
    r.append(value);
    r
}

/// Sets, replaces or removes an optional one-line field of the item in
/// `a..b`.
pub fn update_optional_field(lines: &mut Vec<String>, a: usize, b: usize, ii: usize, field: &str, value: Option<String>)
    requires
        ii <= usize::MAX - 8,
        b <= old(lines).len(),
    ensures
        strs_view(final(lines)@) == set_optional(strs_view(old(lines)@), a as int, b as int, ii as nat, field@, crate::model::opt_view(value)),
{
    let ghost lv = strs_view(lines@);
    match (find_field_line(lines, a, b, ii, field), value) {
        (Some(k), Some(v)) => {
            let replaced = replace_yaml_value(lines[k].as_str(), v.as_str());
            lines.set(k, replaced);
            assert(strs_view(lines@) =~= lv.update(k as int, replace_value(lv[k as int], v@)));
        },
        (Some(k), None) => {
            lines.remove(k);
            assert(strs_view(lines@) =~= lv.remove(k as int));
        },
        (None, Some(v)) => {
            let at = insertion_index(lines, a, b, ii, field);
            proof { lemma_insertion_bound(lv, a as int, b as int, ii as nat, fields_before(field@)); }
            let line = new_field_line(ii, field, v.as_str());
            lines.insert(at, line);
            assert(strs_view(lines@) =~= lv.insert(at as int, field_text(ii as nat, field@, v@)));
        },
        (None, None) => {},
    }
}

pub proof fn lemma_find_field_bound(lines: Seq<Seq<char>>, a: int, b: int, ii: nat, field: Seq<char>)
    ensures
        find_field(lines, a, b, ii, field) matches Some(k) ==> a <= k < b && k < lines.len() && 0 <= k && link_field_line(lines[k], ii, field),
    decreases b - a,
{
    if !(a >= b || a < 0 || a >= lines.len()) && !link_field_line(lines[a], ii, field) {
        lemma_find_field_bound(lines, a + 1, b, ii, field);
    }
}

pub proof fn lemma_insertion_bound(lines: Seq<Seq<char>>, a: int, b: int, ii: nat, after: Seq<Seq<char>>)
    requires
        0 <= b <= lines.len(),
    ensures
        0 <= insertion_after(lines, a, b, ii, after) <= lines.len(),
    decreases after.len(),
{
    if after.len() > 0 {
        lemma_find_field_bound(lines, a, b, ii, after[0]);
        lemma_insertion_bound(lines, a, b, ii, after.drop_first());
    }
}

/// Sets, replaces or removes the `reason` field of the item in `a..b`.
pub fn update_optional_reason_field(lines: &mut Vec<String>, a: usize, b: usize, ii: usize, value: &Option<String>)
    requires
        ii <= usize::MAX - 8,
        b <= old(lines).len(),
    ensures
        strs_view(final(lines)@) == set_reason(strs_view(old(lines)@), a as int, b as int, ii as nat, crate::model::opt_view(*value)),
{
    proof { reveal_strlit("reason"); reveal_strlit("-"); }
    let ghost lv = strs_view(lines@);
    match (find_field_line(lines, a, b, ii, "reason"), value) {
        (Some(k), Some(v)) => {
            let e = link_field_end(lines, k + 1, b, ii);
            proof { lemma_field_end_bound(lv, k + 1, b as int, ii as nat); }
            let replacement = replace_yaml_value(lines[k].as_str(), crate::lines::format_yaml_quoted_string(v.as_str()).as_str());
            splice_lines(lines, k, e, vec![replacement]);
            assert(strs_view(lines@) =~= lv.take(k as int) + seq![replace_value(lv[k as int], json_quoted(v@))] + lv.skip(e as int));
        },
        (Some(k), None) => {
            let (ind, t) = split_indent(lines[k].as_str());
            let marker = ind == ii as u128 && crate::text::starts_with(t.as_str(), "- ");
            proof { reveal_strlit("- "); assert("- "@ =~= seq!['-', ' ']); }
            let e = link_field_end(lines, k + 1, b, ii);
            proof { lemma_field_end_bound(lv, k + 1, b as int, ii as nat); }
            if marker {
                let mut bare = spaces_exec(ii);
                crate::text::push_char(&mut bare, '-');
                let ghost bv = bare@;
                assert(bv =~= spaces(ii as nat) + seq!['-']);
                let mut nv: Vec<String> = Vec::new();
                nv.push(bare);
                assert(strs_view(nv@) =~= seq![bv]);
                splice_lines(lines, k, e, nv);
                assert(strs_view(lines@) =~= lv.take(k as int) + seq![spaces(ii as nat) + seq!['-']] + lv.skip(e as int));
            } else {
                splice_lines(lines, k, e, Vec::new());
                assert(strs_view(lines@) =~= lv.take(k as int) + lv.skip(e as int));
            }
        },
        (None, Some(v)) => {
            let at = insertion_index(lines, a, b, ii, "reason");
            proof { lemma_insertion_bound(lv, a as int, b as int, ii as nat, fields_before("reason"@)); }
            let line = new_field_line(ii, "reason", crate::lines::format_yaml_quoted_string(v.as_str()).as_str());
            lines.insert(at, line);
            assert(strs_view(lines@) =~= lv.insert(at as int, field_text(ii as nat, "reason"@, json_quoted(v@))));
        },
        (None, None) => {},
    }
}

pub proof fn lemma_field_end_bound(lines: Seq<Seq<char>>, k: int, b: int, ii: nat)
    requires
        b <= lines.len(),
        k <= b,
    ensures
        k <= field_end_from(lines, k, b, ii) <= b,
        k <= nested_end_from(lines, k, b, ii) <= b,
    decreases b - k,
{
    if k < b && k >= 0 {
        lemma_field_end_bound(lines, k + 1, b, ii);
    }
}

/// Replaces `lines[a..b]` with `new`.
pub fn splice_lines(lines: &mut Vec<String>, a: usize, b: usize, new: Vec<String>)
    requires
        a <= b <= old(lines).len(),
    ensures
        final(lines)@ == old(lines)@.take(a as int) + new@ + old(lines)@.skip(b as int),
        strs_view(final(lines)@) == strs_view(old(lines)@).take(a as int) + strs_view(new@) + strs_view(old(lines)@).skip(b as int),
{
    let ghost orig = lines@;
    let mut tail = lines.split_off(b);
    lines.truncate(a);
    let mut n = new;
    lines.append(&mut n);
    lines.append(&mut tail);
    assert(lines@ =~= orig.take(a as int) + new@ + orig.skip(b as int));
    assert(strs_view(lines@) =~= strs_view(orig).take(a as int) + strs_view(new@) + strs_view(orig).skip(b as int));
}

/// The first line in `from..b` that ends a nested block.
pub(crate) fn nested_end(lines: &Vec<String>, from: usize, b: usize, ii: usize) -> (r: usize)
    ensures
        r == nested_end_from(strs_view(lines@), from as int, b as int, ii as nat),
{
    let ghost lv = strs_view(lines@);
    let mut k = from;
    while k < b && k < lines.len()
        invariant
            from <= k,
            lv == strs_view(lines@),
            nested_end_from(lv, from as int, b as int, ii as nat) == nested_end_from(lv, k as int, b as int, ii as nat),
        decreases b - k,
    {
        assert(lv[k as int] == lines@[k as int]@);
        let (ind, t) = split_indent(lines[k].as_str());
        let tv = crate::text::chars_of(t.as_str());
        if ind <= ii as u128 + 2 && tv.len() > 0 && tv[0] != '#' {
            return k;
        }
        k += 1;
    }
    b
}

/// The trailing comment of a line's value.
fn line_comment_of(line: &str) -> (r: String)
    ensures
        r@ == line_comment(line@),
{
    let v = crate::text::chars_of(line);
    match crate::text::find_char_in(v.as_slice(), ':') {
        Some(c) => {
            let rest = crate::text::string_of_range(v.as_slice(), c + 1, v.len());
            assert(rest@ =~= line@.skip(c + 1));
            crate::lines::yaml_comment_suffix(rest.as_str())
        },
        None => String::new(),
    }
}

/// A line of `n` spaces, `key` and `value`.
fn keyed_line(n: usize, key: &str, value: &str) -> (r: String)
    ensures
        r@ == spaces(n as nat) + key@ + value@,
{
    let mut r = spaces_exec(n);
    r.append(key);
    r.append(value);
    r
}

/// Replaces the `acknowledged` field of the item starting at `a` (ending at
/// `b`) with the given revisions, or removes it.
pub fn update_acknowledged_field(lines: &mut Vec<String>, a: usize, b: usize, ii: usize, acknowledged: Option<&crate::model::AcknowledgedRevisions>)
    requires
        ii <= usize::MAX - 8,
        a <= b <= old(lines).len(),
    ensures
        strs_view(final(lines)@) == set_ack(strs_view(old(lines)@), a as int, b as int, ii as nat, match acknowledged {
            Some(x) => Some(ack_view(*x)),
            None => None,
        }),
{
    proof {
        reveal_strlit("acknowledged");
        reveal_strlit("- ");
        assert("- "@ =~= seq!['-', ' ']);
    }
    let ghost lv = strs_view(lines@);
    let ghost av = match acknowledged { Some(x) => Some(ack_view(*x)), None => None::<(Seq<char>, Seq<char>, Option<Seq<char>>)> };
    let mut marker = false;
    let mut header_comment = String::new();
    match find_field_line(lines, a, b, ii, "acknowledged") {
        Some(start) => {
            let (ind, t) = split_indent(lines[start].as_str());
            marker = ind == ii as u128 && crate::text::starts_with(t.as_str(), "- ");
            header_comment = line_comment_of(lines[start].as_str());
            let end = nested_end(lines, start + 1, b, ii);
            proof { lemma_field_end_bound(lv, start + 1, b as int, ii as nat); }
            splice_lines(lines, start, end, Vec::new());
            let ghost l1 = strs_view(lines@);
            if acknowledged.is_none() && marker {
                let mut bare = spaces_exec(ii);
                crate::text::push_char(&mut bare, '-');
                let ghost bv = bare@;
                lines.insert(start, bare);
                assert(bv =~= spaces(ii as nat) + seq!['-']);
                assert(strs_view(lines@) =~= l1.insert(start as int, bv));
            }
            assert(strs_view(lines@) == ack_removed(lv, a as int, b as int, ii as nat, av is Some).0);
        },
        None => {},
    }
    let ghost l2 = strs_view(lines@);
    assert(l2 == ack_removed(lv, a as int, b as int, ii as nat, av is Some).0);
    assert(marker == ack_removed(lv, a as int, b as int, ii as nat, av is Some).1);
    assert(header_comment@ == ack_removed(lv, a as int, b as int, ii as nat, av is Some).2);
    let ack = match acknowledged {
        None => {
            return;
        },
        Some(x) => x,
    };
    let ni = ii + 4;
    let ack_line = if marker {
        keyed_line(ii, "- acknowledged:", header_comment.as_str())
    } else {
        keyed_line(ii + 2, "acknowledged:", header_comment.as_str())
    };
    let at = if marker { a } else { link_range_end(lines, a, ii) };
    proof {
        lemma_item_end_bound(l2, a as int, ii as nat);
    }
    let src_line = keyed_line(ni, "sourceRevision: ", ack.source_revision.as_str());
    let tgt_line = keyed_line(ni, "targetRevision: ", ack.target_revision.as_str());
    let ghost nl = seq![ack_line@, src_line@, tgt_line@];
    let mut new_lines: Vec<String> = Vec::new();
    new_lines.push(ack_line);
    new_lines.push(src_line);
    new_lines.push(tgt_line);
    assert(strs_view(new_lines@) =~= nl);
    splice_lines(lines, at, at, new_lines);
    let ghost l3 = strs_view(lines@);
    if let Some(r) = &ack.link_revision {
        let e2 = link_range_end(lines, a, ii);
        proof {
            lemma_item_end_bound(l3, a as int, ii as nat);
        }
        let line = keyed_line(ni, "linkRevision: ", r.as_str());
        let ghost lnv = line@;
        lines.insert(e2, line);
        assert(strs_view(lines@) =~= l3.insert(e2 as int, lnv));
    }
}

pub proof fn lemma_item_end_bound(lines: Seq<Seq<char>>, a: int, ii: nat)
    requires
        0 <= a <= lines.len(),
    ensures
        a < item_end(lines, a, ii) <= lines.len() || (a == lines.len() && item_end(lines, a, ii) == lines.len()),
{
    lemma_item_end_from_bound(lines, a + 1, ii);
}

pub proof fn lemma_item_end_from_bound(lines: Seq<Seq<char>>, k: int, ii: nat)
    requires
        0 <= k,
    ensures
        (k <= lines.len() ==> k <= item_end_from(lines, k, ii) <= lines.len()),
        (k > lines.len() ==> item_end_from(lines, k, ii) == lines.len()),
    decreases lines.len() - k,
{
    if k < lines.len() && !ends_item(lines[k], ii) {
        lemma_item_end_from_bound(lines, k + 1, ii);
    }
}

/// Replaces the value of a required field of the item in `a..b`; fails when
/// the item lacks it.
pub fn replace_required_link_field(lines: &mut Vec<String>, a: usize, b: usize, ii: usize, field: &str, value: &str) -> (r: Result<(), String>)
    requires
        b <= old(lines).len(),
    ensures
        match set_required(strs_view(old(lines)@), a as int, b as int, ii as nat, field@, value@) {
            Some(l) => r is Ok && strs_view(final(lines)@) == l,
            None => r matches Err(m) && m@ == "unsupported links formatting; missing "@ + field@ + " field"@,
        },
{
    let ghost lv = strs_view(lines@);
    match find_field_line(lines, a, b, ii, field) {
        Some(k) => {
            let formatted = crate::lines::format_yaml_string(value);
            let replaced = replace_yaml_value(lines[k].as_str(), formatted.as_str());
            lines.set(k, replaced);
            assert(strs_view(lines@) =~= lv.update(k as int, replace_value(lv[k as int], crate::lines::yaml_string(value@))));
            Ok(())
        },
        None => {
            let mut m = crate::text::cat("unsupported links formatting; missing ", field);
            m.append(" field");
            Err(m)
        },
    }
}

pub proof fn lemma_set_optional_len(lines: Seq<Seq<char>>, a: int, b: int, ii: nat, field: Seq<char>, value: Option<Seq<char>>)
    requires
        0 <= a <= b <= lines.len(),
    ensures
        set_optional(lines, a, b, ii, field, value).len() >= a,
{
    lemma_find_field_bound(lines, a, b, ii, field);
    lemma_insertion_bound(lines, a, b, ii, fields_before(field));
}

pub proof fn lemma_set_reason_len(lines: Seq<Seq<char>>, a: int, b: int, ii: nat, value: Option<Seq<char>>)
    requires
        0 <= a <= b <= lines.len(),
    ensures
        set_reason(lines, a, b, ii, value).len() >= a,
{
    lemma_find_field_bound(lines, a, b, ii, "reason"@);
    lemma_insertion_bound(lines, a, b, ii, fields_before("reason"@));
    match find_field(lines, a, b, ii, "reason"@) {
        Some(k) => {
            lemma_field_end_bound(lines, k + 1, b, ii);
        },
        None => {},
    }
}

/// Rewrites every field of the link item in `a..b` to `link`'s values.
pub fn update_link_range(lines: &mut Vec<String>, a: usize, b: usize, ii: usize, link: &crate::model::Link) -> (r: Result<(), String>)
    requires
        ii <= usize::MAX - 8,
        a <= b <= old(lines).len(),
    ensures
        match set_link_fields(strs_view(old(lines)@), a as int, b as int, ii as nat, link_fields_of(*link)) {
            Some(l) => r is Ok && strs_view(final(lines)@) == l,
            None => r matches Err(m) && m@ == missing_field_message(strs_view(old(lines)@), a as int, b as int, ii as nat),
        },
{
    proof {
        reveal_strlit("rel");
        reveal_strlit("to");
        reveal_strlit("pathHint");
        reveal_strlit("order");
    }
    let ghost lv = strs_view(lines@);
    proof {
        reveal_strlit("unsupported links formatting; missing ");
        reveal_strlit(" field");
        reveal_strlit("unsupported links formatting; missing rel field");
        reveal_strlit("unsupported links formatting; missing to field");
        assert("unsupported links formatting; missing "@ + "rel"@ + " field"@ =~= "unsupported links formatting; missing rel field"@);
        assert("unsupported links formatting; missing "@ + "to"@ + " field"@ =~= "unsupported links formatting; missing to field"@);
    }
    match replace_required_link_field(lines, a, b, ii, "rel", link.rel.as_str()) {
        Err(m) => return Err(m),
        Ok(()) => {},
    }
    let ghost l1 = strs_view(lines@);
    proof {
        lemma_find_field_bound(lv, a as int, b as int, ii as nat, "rel"@);
        assert(lines.len() == l1.len());
    }
    match replace_required_link_field(lines, a, b, ii, "to", link.to.as_str()) {
        Err(m) => return Err(m),
        Ok(()) => {},
    }
    let ghost l2 = strs_view(lines@);
    proof {
        lemma_find_field_bound(l1, a as int, b as int, ii as nat, "to"@);
        assert(lines.len() == l2.len());
    }
    let hint = match &link.path_hint {
        Some(h) => Some(crate::lines::format_yaml_string(h.as_str())),
        None => None,
    };
    update_optional_field(lines, a, b, ii, "pathHint", hint);
    let ghost l3 = strs_view(lines@);
    proof {
        lemma_set_optional_len(l2, a as int, b as int, ii as nat, "pathHint"@, crate::model::opt_view(hint));
        assert(lines.len() == l3.len());
    }
    let e = link_range_end(lines, a, ii);
    proof { lemma_item_end_bound(l3, a as int, ii as nat); }
    update_optional_reason_field(lines, a, e, ii, &link.reason);
    let ghost l4 = strs_view(lines@);
    proof {
        lemma_set_reason_len(l3, a as int, e as int, ii as nat, crate::model::opt_view(link.reason));
        assert(lines.len() == l4.len());
    }
    let e = link_range_end(lines, a, ii);
    proof { lemma_item_end_bound(l4, a as int, ii as nat); }
    let order = match link.order {
        Some(o) => Some(crate::numfmt::signed_decimal_string(o)),
        None => None,
    };
    update_optional_field(lines, a, e, ii, "order", order);
    let ghost l5 = strs_view(lines@);
    proof {
        lemma_set_optional_len(l4, a as int, e as int, ii as nat, "order"@, crate::model::opt_view(order));
        assert(lines.len() == l5.len());
    }
    let e = link_range_end(lines, a, ii);
    proof { lemma_item_end_bound(l5, a as int, ii as nat); }
    let ack: Option<&crate::model::AcknowledgedRevisions> = match &link.acknowledged {
        Some(x) => Some(x),
        None => None,
    };
    update_acknowledged_field(lines, a, e, ii, ack);
    Ok(())
}

} // verus!
