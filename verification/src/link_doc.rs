//! Edits of a sidecar's `links:` block that keep the rest of its text,
//! comments included.
use vstd::prelude::*;

use crate::json::json_quoted;
use crate::lines::{finish_text, spaces, text_lines, yaml_string};
use crate::link_fields::{ack_view, link_fields_of, nested_end_from, set_link_fields, LinkView};
use crate::links_block::{block_of, block_view, LinkBlock};
use crate::model::{strs_view, Link};
use crate::numfmt::signed_decimal;

verus! {

/// The lines of a new link item at item indentation `ii`.
pub open spec fn link_lines_spec(link: LinkView, ii: nat) -> Seq<Seq<char>> {
    let fi = ii + 2;
    let (rel, to, hint, reason, order, _) = link;
    seq![spaces(ii) + "- rel: "@ + yaml_string(rel), spaces(fi) + "to: "@ + yaml_string(to)]
        + match hint {
            Some(h) => seq![spaces(fi) + "pathHint: "@ + yaml_string(h)],
            None => seq![],
        }
        + match reason {
            Some(r) => seq![spaces(fi) + "reason: "@ + json_quoted(r)],
            None => seq![],
        }
        + match order {
            Some(o) => seq![spaces(fi) + "order: "@ + signed_decimal(o as int)],
            None => seq![],
        }
}

/// Whether `text` ends with a newline.
pub open spec fn ends_newline(text: Seq<char>) -> bool {
    text.len() > 0 && text.last() == '\n'
}

/// The text after adding `link` at the end of the links block (creating the
/// block when absent, replacing `links: []`); refused for a flow-style block.
pub open spec fn add_spec(text: Seq<char>, link: LinkView) -> Result<Seq<char>, Seq<char>> {
    let lines = text_lines(text);
    let new = link_lines_spec(link, 2);
    match block_of(lines) {
        Some((h, end, flow, ranges)) => if flow {
            Err("unsupported links formatting; use block-style links"@)
        } else if ranges.len() == 0 {
            Ok(finish_text(lines.take(h) + seq!["links:"@] + new + lines.skip(end), ends_newline(text)))
        } else {
            Ok(finish_text(lines.take(end) + new + lines.skip(end), ends_newline(text)))
        },
        None => Ok(finish_text(lines.push("links:"@) + new, ends_newline(text))),
    }
}

/// The text after removing item `index` of the links block; the block
/// becomes `links: []` when it empties.
pub open spec fn remove_spec(text: Seq<char>, index: int) -> Result<Seq<char>, Seq<char>> {
    let lines = text_lines(text);
    match block_of(lines) {
        None => Err("sidecar has no links field"@),
        Some((h, end, flow, ranges)) => if flow {
            Err("unsupported links formatting; use block-style links"@)
        } else if index < 0 || index >= ranges.len() {
            Err("link index "@ + crate::numfmt::decimal(index as nat) + " is not present in links block"@)
        } else {
            let (s, e) = ranges[index];
            let l1 = lines.take(s) + lines.skip(e);
            if ranges.len() == 1 {
                let new_end = end - (e - s);
                let l2 = l1.update(h, "links: []"@);
                if h + 1 < new_end && new_end <= l2.len() {
                    Ok(finish_text(l2.take(h + 1) + l2.skip(new_end), ends_newline(text)))
                } else {
                    Ok(finish_text(l2, ends_newline(text)))
                }
            } else {
                Ok(finish_text(l1, ends_newline(text)))
            }
        },
    }
}

/// The text after rewriting item `index` of the links block to `link`.
pub open spec fn update_spec(text: Seq<char>, index: int, link: LinkView) -> Result<Seq<char>, Seq<char>> {
    let lines = text_lines(text);
    match block_of(lines) {
        None => Err("sidecar has no links field"@),
        Some((h, end, flow, ranges)) => if flow {
            Err("unsupported links formatting; use block-style links"@)
        } else if index < 0 || index >= ranges.len() {
            Err("link index "@ + crate::numfmt::decimal(index as nat) + " is not present in links block"@)
        } else {
            match set_link_fields(lines, ranges[index].0, ranges[index].1, 2, link) {
                Some(l) => Ok(finish_text(l, ends_newline(text))),
                None => Err(crate::link_fields::missing_field_message(lines, ranges[index].0, ranges[index].1, 2)),
            }
        },
    }
}

/// The text after adding `linkRevision` to the acknowledgement of item
/// `index`: an inline acknowledgement becomes a block with both endpoint
/// revisions and the link revision; a block one gets the link revision after
/// its nested lines.
pub open spec fn migration_spec(text: Seq<char>, index: int, src: Seq<char>, tgt: Seq<char>, lr: Seq<char>) -> Result<Seq<char>, Seq<char>> {
    let lines = text_lines(text);
    match block_of(lines) {
        None => Err("sidecar has no links field"@),
        Some((h, end, flow, ranges)) => if flow {
            Err("unsupported links formatting; use block-style links"@)
        } else if index < 0 || index >= ranges.len() {
            Err("link index "@ + crate::numfmt::decimal(index as nat) + " is not present in links block"@)
        } else {
            let (a, b) = ranges[index];
            match crate::link_fields::find_field(lines, a, b, 2, "acknowledged"@) {
                None => Err("link index "@ + crate::numfmt::decimal(index as nat) + " has no acknowledgement to migrate"@),
                Some(start) => {
                    let line = lines[start];
                    let c = crate::text::find_char(line, ':')->0;
                    let current = line.skip(c + 1);
                    let hc = crate::lines::comment_suffix(current);
                    let inline = crate::text::trim(current.take(current.len() - hc.len()));
                    let nested = seq![spaces(6) + "sourceRevision: "@ + src, spaces(6) + "targetRevision: "@ + tgt, spaces(6) + "linkRevision: "@ + lr];
                    if inline.len() > 0 {
                        let l1 = lines.update(start, line.take(c) + seq![':'] + hc);
                        Ok(finish_text(l1.take(start + 1) + nested + l1.skip(start + 1), ends_newline(text)))
                    } else {
                        let e = nested_end_from(lines, start + 1, b, 2);
                        Ok(finish_text(lines.insert(e, spaces(6) + "linkRevision: "@ + lr), ends_newline(text)))
                    }
                },
            }
        },
    }
}

/// Whether an unindented line is the `schemaVersion` field.
pub open spec fn is_version_line(line: Seq<char>) -> bool {
    crate::text::leading_ws(line) == 0 && crate::lines::field_line(line, "schemaVersion"@)
}

/// The first `schemaVersion` line from `k`.
pub open spec fn version_line_from(lines: Seq<Seq<char>>, k: int) -> Option<int>
    decreases lines.len() - k,
{
    if k < 0 || k >= lines.len() {
        None
    } else if is_version_line(lines[k]) {
        Some(k)
    } else {
        version_line_from(lines, k + 1)
    }
}

/// The text with its `schemaVersion` set to `version` (added as the first
/// line when absent).
pub open spec fn set_version_spec(text: Seq<char>, version: u32) -> Seq<char> {
    let lines = text_lines(text);
    let v = crate::numfmt::decimal(version as nat);
    let l = match version_line_from(lines, 0) {
        Some(k) => lines.update(k, crate::lines::replace_value(lines[k], v)),
        None => lines.insert(0, "schemaVersion: "@ + v),
    };
    finish_text(l, ends_newline(text))
}

} // verus!

verus! {

/// A sidecar's lines, whether its text ended with a newline, and its links
/// block.
pub struct LinkDocument {
    pub lines: Vec<String>,
    pub trailing_newline: bool,
    pub links: Option<LinkBlock>,
}

/// Whether `text` ends with a newline.
pub(crate) fn text_ends_newline(text: &str) -> (r: bool)
    ensures
        r == ends_newline(text@),
{
    let v = crate::text::chars_of(text);
    v.len() > 0 && v[v.len() - 1] == '\n'
}

/// Reads a sidecar's lines and links block.
pub fn parse_document(text: &str) -> (d: LinkDocument)
    ensures
        strs_view(d.lines@) == text_lines(text@),
        d.trailing_newline == ends_newline(text@),
        match block_of(text_lines(text@)) {
            None => d.links is None,
            Some(b) => d.links matches Some(x) && block_view(x) == b && x.header_index < x.end_index <= d.lines.len()
                && forall|q: int| 0 <= q < x.item_ranges.len() ==> x.header_index < (#[trigger] x.item_ranges@[q]).0 < x.item_ranges@[q].1 <= x.end_index,
        },
{
    let lines = crate::lines::lines_of(text);
    let trailing_newline = text_ends_newline(text);
    let links = crate::links_block::find_links_block(&lines);
    LinkDocument { lines, trailing_newline, links }
}

/// The lines of a new link item at item indentation `ii`.
pub fn format_link_lines(link: &Link, ii: usize) -> (r: Vec<String>)
    requires
        ii <= usize::MAX - 8,
    ensures
        strs_view(r@) == link_lines_spec(link_fields_of(*link), ii as nat),
{
    let fi = ii + 2;
    let mut r: Vec<String> = Vec::new();
    let mut l0 = crate::lines::spaces_exec(ii);
    l0.append("- rel: ");
    l0.append(crate::lines::format_yaml_string(link.rel.as_str()).as_str());
    r.push(l0);
    let mut l1 = crate::lines::spaces_exec(fi);
    l1.append("to: ");
    l1.append(crate::lines::format_yaml_string(link.to.as_str()).as_str());
    r.push(l1);
    let ghost base = strs_view(r@);
    if let Some(h) = &link.path_hint {
        let mut l = crate::lines::spaces_exec(fi);
        l.append("pathHint: ");
        l.append(crate::lines::format_yaml_string(h.as_str()).as_str());
        r.push(l);
    }
    let ghost b1 = strs_view(r@);
    if let Some(reason) = &link.reason {
        let mut l = crate::lines::spaces_exec(fi);
        l.append("reason: ");
        l.append(crate::lines::format_yaml_quoted_string(reason.as_str()).as_str());
        r.push(l);
    }
    let ghost b2 = strs_view(r@);
    if let Some(o) = link.order {
        let mut l = crate::lines::spaces_exec(fi);
        l.append("order: ");
        l.append(crate::numfmt::signed_decimal_string(o).as_str());
        r.push(l);
    }
    assert(strs_view(r@) =~= link_lines_spec(link_fields_of(*link), ii as nat));
    r
}

/// Adds `link` at the end of the links block of `text`.
pub fn apply_link_add(text: &str, link: &Link) -> (r: Result<String, String>)
    ensures
        match add_spec(text@, link_fields_of(*link)) {
            Ok(t) => r matches Ok(s) && s@ == t,
            Err(m) => r matches Err(e) && e@ == m,
        },
{
    let mut doc = parse_document(text);
    let ghost lines = strs_view(doc.lines@);
    let new_link = format_link_lines(link, 2);
    let ghost nv = strs_view(new_link@);
    match &doc.links {
        Some(block) => {
            if block.flow_style {
                return Err(crate::text::own("unsupported links formatting; use block-style links"));
            }
            if block.item_ranges.len() == 0 {
                let h = block.header_index;
                let e = block.end_index;
                let mut header: Vec<String> = Vec::new();
                header.push(crate::text::own("links:"));
                let mut nl = new_link;
                header.append(&mut nl);
                crate::link_fields::splice_lines(&mut doc.lines, h, e, header);
                assert(strs_view(doc.lines@) =~= lines.take(h as int) + seq!["links:"@] + nv + lines.skip(e as int));
            } else {
                let e = block.end_index;
                crate::link_fields::splice_lines(&mut doc.lines, e, e, new_link);
                assert(strs_view(doc.lines@) =~= lines.take(e as int) + nv + lines.skip(e as int));
            }
        },
        None => {
            doc.lines.push(crate::text::own("links:"));
            let mut nl = new_link;
            doc.lines.append(&mut nl);
            assert(strs_view(doc.lines@) =~= lines.push("links:"@) + nv);
        },
    }
    Ok(crate::lines::finish_lines(&doc.lines, doc.trailing_newline))
}

/// Removes item `index` of the links block of `text`.
pub fn apply_link_remove(text: &str, index: usize) -> (r: Result<String, String>)
    ensures
        match remove_spec(text@, index as int) {
            Ok(t) => r matches Ok(s) && s@ == t,
            Err(m) => r matches Err(e) && e@ == m,
        },
{
    let mut doc = parse_document(text);
    let ghost lines = strs_view(doc.lines@);
    let block = match &doc.links {
        None => return Err(crate::text::own("sidecar has no links field")),
        Some(b) => b,
    };
    if block.flow_style {
        return Err(crate::text::own("unsupported links formatting; use block-style links"));
    }
    if index >= block.item_ranges.len() {
        let mut m = crate::text::own("link index ");
        m.append(crate::numfmt::decimal_string(index as u64).as_str());
        m.append(" is not present in links block");
        return Err(m);
    }
    let (s, e) = block.item_ranges[index];
    assert(crate::links_block::ranges_view(block.item_ranges@)[index as int] == (s as int, e as int));
    let h = block.header_index;
    let end = block.end_index;
    let count = block.item_ranges.len();
    crate::link_fields::splice_lines(&mut doc.lines, s, e, Vec::new());
    assert(strs_view(doc.lines@) =~= lines.take(s as int) + lines.skip(e as int));
    if count == 1 {
        let new_end = end - (e - s);
        doc.lines.set(h, crate::text::own("links: []"));
        let ghost l2 = strs_view(doc.lines@);
        assert(l2 =~= (lines.take(s as int) + lines.skip(e as int)).update(h as int, "links: []"@));
        if h + 1 < new_end && new_end <= doc.lines.len() {
            crate::link_fields::splice_lines(&mut doc.lines, h + 1, new_end, Vec::new());
            assert(strs_view(doc.lines@) =~= l2.take(h + 1) + l2.skip(new_end as int));
        }
    }
    Ok(crate::lines::finish_lines(&doc.lines, doc.trailing_newline))
}

/// Rewrites item `index` of the links block of `text` to `link`.
pub fn apply_link_update(text: &str, index: usize, link: &Link) -> (r: Result<String, String>)
    ensures
        match update_spec(text@, index as int, link_fields_of(*link)) {
            Ok(t) => r matches Ok(s) && s@ == t,
            Err(m) => r matches Err(e) && e@ == m,
        },
{
    let mut doc = parse_document(text);
    let block = match &doc.links {
        None => return Err(crate::text::own("sidecar has no links field")),
        Some(b) => b,
    };
    if block.flow_style {
        return Err(crate::text::own("unsupported links formatting; use block-style links"));
    }
    if index >= block.item_ranges.len() {
        let mut m = crate::text::own("link index ");
        m.append(crate::numfmt::decimal_string(index as u64).as_str());
        m.append(" is not present in links block");
        return Err(m);
    }
    let (s, e) = block.item_ranges[index];
    assert(crate::links_block::ranges_view(block.item_ranges@)[index as int] == (s as int, e as int));
    match crate::link_fields::update_link_range(&mut doc.lines, s, e, 2, link) {
        Err(m) => Err(m),
        Ok(()) => Ok(crate::lines::finish_lines(&doc.lines, doc.trailing_newline)),
    }
}

/// Adds `linkRevision` to the acknowledgement of item `index` of the links
/// block of `text`.
#[verifier::rlimit(40)]
pub fn apply_link_revision_migration(text: &str, index: usize, acknowledged: &crate::model::AcknowledgedRevisions) -> (r: Result<String, String>)
    requires
        acknowledged.link_revision is Some,
    ensures
        match migration_spec(text@, index as int, acknowledged.source_revision@, acknowledged.target_revision@, acknowledged.link_revision->0@) {
            Ok(t) => r matches Ok(s) && s@ == t,
            Err(m) => r matches Err(e) && e@ == m,
        },
{
    proof {
        reveal_strlit("acknowledged");
        reveal_strlit(":");
    }
    let mut doc = parse_document(text);
    let ghost lines = strs_view(doc.lines@);
    let block = match &doc.links {
        None => return Err(crate::text::own("sidecar has no links field")),
        Some(b) => b,
    };
    if block.flow_style {
        return Err(crate::text::own("unsupported links formatting; use block-style links"));
    }
    if index >= block.item_ranges.len() {
        let mut m = crate::text::own("link index ");
        m.append(crate::numfmt::decimal_string(index as u64).as_str());
        m.append(" is not present in links block");
        return Err(m);
    }
    let (a, b) = block.item_ranges[index];
    assert(crate::links_block::ranges_view(block.item_ranges@)[index as int] == (a as int, b as int));
    let start = match crate::link_fields::find_field_line(&doc.lines, a, b, 2, "acknowledged") {
        None => {
            let mut m = crate::text::own("link index ");
            m.append(crate::numfmt::decimal_string(index as u64).as_str());
            m.append(" has no acknowledgement to migrate");
            return Err(m);
        },
        Some(k) => k,
    };
    let lr = match &acknowledged.link_revision {
        Some(x) => x,
        None => return Err(String::new()),
    };
    let v = crate::text::chars_of(doc.lines[start].as_str());
    proof {
        assert(lines[start as int] == doc.lines@[start as int]@);
        crate::link_fields::lemma_find_field_bound(lines, a as int, b as int, 2, "acknowledged"@);
        lemma_field_line_has_colon(lines[start as int], 2, "acknowledged"@);
    }
    let c = match crate::text::find_char_in(v.as_slice(), ':') {
        Some(c) => c,
        None => return Err(String::new()),
    };
    let current = crate::text::string_of_range(v.as_slice(), c + 1, v.len());
    assert(current@ =~= lines[start as int].skip(c + 1));
    let hc = crate::lines::yaml_comment_suffix(current.as_str());
    let cv = crate::text::chars_of(current.as_str());
    let hcn = crate::text::chars_of(hc.as_str()).len();
    proof { lemma_comment_suffix_len(current@); }
    let value_part = crate::text::string_of_range(cv.as_slice(), 0, cv.len() - hcn);
    let inline = crate::text::trim_str(value_part.as_str());
    let src_line = keyed(6, "sourceRevision: ", acknowledged.source_revision.as_str());
    let tgt_line = keyed(6, "targetRevision: ", acknowledged.target_revision.as_str());
    let lr_line = keyed(6, "linkRevision: ", lr.as_str());
    if crate::text::chars_of(inline.as_str()).len() > 0 {
        let mut head = crate::text::string_of_range(v.as_slice(), 0, c);
        crate::text::push_char(&mut head, ':');
        head.append(hc.as_str());
        let ghost hv = head@;
        assert(hv =~= lines[start as int].take(c as int) + seq![':'] + hc@);
        doc.lines.set(start, head);
        let ghost l1 = strs_view(doc.lines@);
        assert(l1 =~= lines.update(start as int, lines[start as int].take(c as int) + seq![':'] + hc@));
        let ghost nested = seq![src_line@, tgt_line@, lr_line@];
        let mut nl: Vec<String> = Vec::new();
        nl.push(src_line);
        nl.push(tgt_line);
        nl.push(lr_line);
        assert(strs_view(nl@) =~= nested);
        crate::link_fields::splice_lines(&mut doc.lines, start + 1, start + 1, nl);
        return Ok(crate::lines::finish_lines(&doc.lines, doc.trailing_newline));
    }
    let e = crate::link_fields::nested_end(&doc.lines, start + 1, b, 2);
    proof { crate::link_fields::lemma_field_end_bound(lines, start + 1, b as int, 2); }
    let ghost lrv = lr_line@;
    doc.lines.insert(e, lr_line);
    assert(strs_view(doc.lines@) =~= lines.insert(e as int, lrv));
    Ok(crate::lines::finish_lines(&doc.lines, doc.trailing_newline))
}

pub proof fn lemma_field_line_has_colon(line: Seq<char>, ii: nat, field: Seq<char>)
    requires
        crate::lines::link_field_line(line, ii, field),
    ensures
        line.contains(':'),
{
    let n = crate::text::leading_ws(line);
    crate::text::lemma_leading_ws_bound(line);
    let t = crate::text::trim_start(line);
    assert(t =~= line.skip(n as int));
    if crate::lines::indent(line) == ii && seq!['-', ' '].is_prefix_of(t) && crate::lines::field_line(t.skip(2), field) {
        let p = field + seq![':'];
        assert(t.skip(2)[field.len() as int] == p[field.len() as int]);
        assert(line[(n + 2 + field.len()) as int] == ':');
    } else {
        let p = field + seq![':'];
        assert(t[field.len() as int] == p[field.len() as int]);
        assert(line[(n + field.len()) as int] == ':');
    }
}

/// `n` spaces, `key` and `value`.
fn keyed(n: usize, key: &str, value: &str) -> (r: String)
    ensures
        r@ == spaces(n as nat) + key@ + value@,
{
    let mut r = crate::lines::spaces_exec(n);
    r.append(key);
    r.append(value);
    r
}

pub proof fn lemma_comment_suffix_len(value: Seq<char>)
    ensures
        crate::lines::comment_suffix(value).len() <= value.len(),
        crate::lines::comment_suffix(value) == value.skip(value.len() - crate::lines::comment_suffix(value).len()),
{
    match crate::lines::comment_from(value, 0, false, false, false) {
        Some(k) => {
            lemma_comment_from_bound(value, 0, false, false, false);
            assert(0 <= k <= value.len());
            assert(value.skip(k).len() == value.len() - k);
        },
        None => {
            assert(value.skip(value.len() as int) =~= seq![]);
        },
    }
}

pub proof fn lemma_comment_from_bound(value: Seq<char>, i: int, s: bool, d: bool, e: bool)
    requires
        0 <= i,
    ensures
        crate::lines::comment_from(value, i, s, d, e) matches Some(k) ==> 0 <= k <= value.len(),
    decreases value.len() - i,
{
    if i < value.len() {
        let c = value[i];
        lemma_comment_from_bound(value, i + 1, false, true, false);
        lemma_comment_from_bound(value, i + 1, false, true, true);
        lemma_comment_from_bound(value, i + 1, false, false, false);
        lemma_comment_from_bound(value, i + 1, c != '\'', false, false);
        lemma_comment_from_bound(value, i + 1, true, false, false);
        lemma_ws_run_start_bound(value, i);
    }
}

pub proof fn lemma_ws_run_start_bound(value: Seq<char>, i: int)
    requires
        0 <= i,
    ensures
        0 <= crate::lines::ws_run_start(value, i) <= i,
    decreases i,
{
    if i > 0 && crate::text::is_ws(value[i - 1]) {
        lemma_ws_run_start_bound(value, i - 1);
    }
}

/// Sets the `schemaVersion` of `text` to `version`.
pub fn set_schema_version(text: &str, version: u32) -> (r: String)
    ensures
        r@ == set_version_spec(text@, version),
{
    proof { reveal_strlit("schemaVersion"); }
    let trailing = text_ends_newline(text);
    let mut lines = crate::lines::lines_of(text);
    let ghost lv = strs_view(lines@);
    let v = crate::numfmt::decimal_string(version as u64);
    let mut k: usize = 0;
    let mut found: Option<usize> = None;
    while k < lines.len() && found.is_none()
        invariant
            k <= lines.len(),
            lv == strs_view(lines@),
            found is None ==> version_line_from(lv, 0) == version_line_from(lv, k as int),
            found matches Some(i) ==> version_line_from(lv, 0) == Some(i as int) && i < lines.len(),
        decreases lines.len() - k,
    {
        assert(lv[k as int] == lines@[k as int]@);
        let cv = crate::text::chars_of(lines[k].as_str());
        let n = crate::text::count_leading_ws(cv.as_slice());
        if n == 0 && crate::lines::is_field_line(lines[k].as_str(), "schemaVersion") {
            found = Some(k);
        }
        k += 1;
    }
    match found {
        Some(i) => {
            let replaced = crate::lines::replace_yaml_value(lines[i].as_str(), v.as_str());
            lines.set(i, replaced);
            assert(strs_view(lines@) =~= lv.update(i as int, crate::lines::replace_value(lv[i as int], v@)));
        },
        None => {
            let line = crate::text::cat("schemaVersion: ", v.as_str());
            let ghost lnv = line@;
            lines.insert(0, line);
            assert(strs_view(lines@) =~= lv.insert(0, lnv));
        },
    }
    crate::lines::finish_lines(&lines, trailing)
}

/// `text` with its `schemaVersion` raised to `minimum` when lower (absent
/// means version 1).
pub fn set_min_schema_version(text: &str, current: Option<u32>, minimum: u32) -> (r: String)
    ensures
        r@ == (if (match current { Some(v) => v, None => 1u32 }) >= minimum { text@ } else { set_version_spec(text@, minimum) }),
{
    let c = match current { Some(v) => v, None => 1u32 };
    if c >= minimum {
        crate::text::own(text)
    } else {
        set_schema_version(text, minimum)
    }
}

} // verus!
