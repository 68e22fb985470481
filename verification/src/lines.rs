//! Line-level reading of sidecar YAML: lines, indentation, fields, values
//! and trailing comments.
use vstd::prelude::*;

use crate::json::json_quoted;
use crate::model::strs_view;
use crate::text::{all_ws, chars_of, is_ws, leading_ws, push_char, split_on, trim_start};

verus! {

/// The number of UTF-8 bytes of `c`.
pub open spec fn utf8_width(c: char) -> nat {
    if (c as u32) < 0x80 {
        1
    } else if (c as u32) < 0x800 {
        2
    } else if (c as u32) < 0x10000 {
        3
    } else {
        4
    }
}

/// The number of UTF-8 bytes of `s`.
pub open spec fn byte_len(s: Seq<char>) -> nat
    decreases s.len(),
{
    if s.len() == 0 {
        0
    } else {
        byte_len(s.drop_last()) + utf8_width(s.last())
    }
}

/// The indentation of a line: the byte length of its leading whitespace.
pub open spec fn indent(line: Seq<char>) -> nat {
    byte_len(line.take(leading_ws(line) as int))
}

/// `text.lines()`: the pieces between `\n`, a `\r` before each `\n`
/// dropped, and no final empty piece.
pub open spec fn text_lines(text: Seq<char>) -> Seq<Seq<char>> {
    let pieces = split_on(text, '\n');
    let body = pieces.drop_last().map_values(|p: Seq<char>| strip_cr(p));
    if pieces.last().len() == 0 {
        body
    } else {
        body.push(pieces.last())
    }
}

/// A line without its final `\r`.
pub open spec fn strip_cr(p: Seq<char>) -> Seq<char> {
    if p.len() > 0 && p.last() == '\r' {
        p.drop_last()
    } else {
        p
    }
}

/// The text of `lines`: joined by `\n`, with a final `\n` when the source text
/// had one or the text is not empty.
pub open spec fn finish_text(lines: Seq<Seq<char>>, trailing_newline: bool) -> Seq<char> {
    let t = crate::text::join(lines, seq!['\n']);
    if trailing_newline || t.len() > 0 {
        t.push('\n')
    } else {
        t
    }
}

/// `trimmed` starts with `field:`.
pub open spec fn field_line(trimmed: Seq<char>, field: Seq<char>) -> bool {
    (field + seq![':']).is_prefix_of(trimmed)
}

/// A sequence item: `-` alone or `- ` and more.
pub open spec fn is_item_start(trimmed: Seq<char>) -> bool {
    trimmed == seq!['-'] || seq!['-', ' '].is_prefix_of(trimmed)
}

/// The line holds `field` of the link item at `item_indent`, either after the
/// item's `- ` or indented two more.
pub open spec fn link_field_line(line: Seq<char>, item_indent: nat, field: Seq<char>) -> bool {
    let t = trim_start(line);
    let ind = indent(line);
    if ind == item_indent {
        seq!['-', ' '].is_prefix_of(t) && field_line(t.skip(2), field)
    } else {
        ind == item_indent + 2 && field_line(t, field)
    }
}

/// Where a YAML comment begins in `value` (with the whitespace before it),
/// scanning from `i` with the quoting state: `#` starts a comment at the
/// start or after whitespace, outside quotes.
pub open spec fn comment_from(value: Seq<char>, i: int, in_single: bool, in_double: bool, escaped: bool) -> Option<int>
    decreases value.len() - i,
{
    if i < 0 || i >= value.len() {
        None
    } else {
        let c = value[i];
        if in_double {
            if escaped {
                comment_from(value, i + 1, false, true, false)
            } else if c == '\\' {
                comment_from(value, i + 1, false, true, true)
            } else if c == '"' {
                comment_from(value, i + 1, false, false, false)
            } else {
                comment_from(value, i + 1, false, true, false)
            }
        } else if in_single {
            comment_from(value, i + 1, c != '\'', false, false)
        } else if c == '\'' {
            comment_from(value, i + 1, true, false, false)
        } else if c == '"' {
            comment_from(value, i + 1, false, true, false)
        } else if c == '#' && (i == 0 || is_ws(value[i - 1])) {
            Some(ws_run_start(value, i))
        } else {
            comment_from(value, i + 1, false, false, false)
        }
    }
}

/// The start of the run of whitespace that ends just before `i`.
pub open spec fn ws_run_start(value: Seq<char>, i: int) -> int
    decreases i,
{
    if i <= 0 || !is_ws(value[i - 1]) {
        i
    } else {
        ws_run_start(value, i - 1)
    }
}

/// The trailing comment of a YAML value, with the whitespace before it; empty
/// when there is none.
pub open spec fn comment_suffix(value: Seq<char>) -> Seq<char> {
    match comment_from(value, 0, false, false, false) {
        Some(k) => value.skip(k),
        None => seq![],
    }
}

/// The line with its value replaced by `value`, keeping the key and the
/// trailing comment; unchanged when it has no `:`.
pub open spec fn replace_value(line: Seq<char>, value: Seq<char>) -> Seq<char> {
    match crate::text::find_char(line, ':') {
        None => line,
        Some(i) => line.take(i) + seq![':', ' '] + value + comment_suffix(line.skip(i + 1)),
    }
}

/// Characters that a plain YAML scalar may hold here.
pub open spec fn plain_char(c: char) -> bool {
    crate::init::is_ascii_alnum(c) || c == ':' || c == '/' || c == '.' || c == '_' || c == '-'
}

/// A YAML scalar for `v`: as is when every character is plain, else a JSON
/// string literal.
pub open spec fn yaml_string(v: Seq<char>) -> Seq<char> {
    if forall|i: int| 0 <= i < v.len() ==> plain_char(#[trigger] v[i]) {
        v
    } else {
        json_quoted(v)
    }
}

/// `n` spaces.
pub open spec fn spaces(n: nat) -> Seq<char> {
    Seq::new(n, |i: int| ' ')
}

} // verus!

verus! {

/// The number of UTF-8 bytes of `c`.
pub fn utf8_width_exec(c: char) -> (n: usize)
    ensures
        n == utf8_width(c),
{
    let u = c as u32;
    if u < 0x80 {
        1
    } else if u < 0x800 {
        2
    } else if u < 0x10000 {
        3
    } else {
        4
    }
}

pub proof fn lemma_byte_len_bound(s: Seq<char>)
    ensures
        byte_len(s) <= 4 * s.len(),
    decreases s.len(),
{
    if s.len() > 0 {
        lemma_byte_len_bound(s.drop_last());
    }
}

/// The indentation of a line (bytes of leading whitespace) and the line
/// without it.
pub fn split_indent(line: &str) -> (r: (u128, String))
    ensures
        r.0 == indent(line@),
        r.1@ == trim_start(line@),
{
    let v = chars_of(line);
    let n = crate::text::count_leading_ws(v.as_slice());
    let mut bytes: u128 = 0;
    let mut i: usize = 0;
    proof {
        crate::text::lemma_leading_ws_bound(v@);
        lemma_byte_len_bound(v@.take(n as int));
    }
    assert(v@.take(0) =~= seq![]);
    while i < n
        invariant
            i <= n,
            n <= v.len(),
            n == leading_ws(v@),
            v@ == line@,
            bytes == byte_len(v@.take(i as int)),
            byte_len(v@.take(n as int)) <= 4 * n,
        decreases n - i,
    {
        assert(v@.take(i + 1).drop_last() =~= v@.take(i as int));
        proof {
            lemma_byte_len_prefix(v@.take(n as int), i as int + 1);
            assert(v@.take(n as int).take(i + 1) =~= v@.take(i + 1));
        }
        bytes = bytes + utf8_width_exec(v[i]) as u128;
        i += 1;
    }
    let rest = crate::text::string_of_range(v.as_slice(), n, v.len());
    assert(rest@ =~= trim_start(line@));
    (bytes, rest)
}

pub proof fn lemma_byte_len_prefix(s: Seq<char>, k: int)
    requires
        0 <= k <= s.len(),
    ensures
        byte_len(s.take(k)) <= byte_len(s),
    decreases s.len() - k,
{
    if k < s.len() {
        lemma_byte_len_prefix(s, k + 1);
        assert(s.take(k + 1).drop_last() =~= s.take(k));
    } else {
        assert(s.take(k) =~= s);
    }
}

/// Whether `trimmed` starts with `field:`.
pub fn is_field_line(trimmed: &str, field: &str) -> (r: bool)
    ensures
        r == field_line(trimmed@, field@),
{
    let mut f = crate::text::own(field);
    push_char(&mut f, ':');
    crate::text::starts_with(trimmed, f.as_str())
}

/// Whether `trimmed` starts a sequence item.
pub fn is_sequence_item_start(trimmed: &str) -> (r: bool)
    ensures
        r == is_item_start(trimmed@),
{
    proof {
        reveal_strlit("-");
        reveal_strlit("- ");
        assert("-"@ =~= seq!['-']);
        assert("- "@ =~= seq!['-', ' ']);
    }
    crate::text::text_eq(trimmed, "-") || crate::text::starts_with(trimmed, "- ")
}

/// Whether `line` holds `field` of the link item at `item_indent`.
pub fn is_link_field_line(line: &str, item_indent: usize, field: &str) -> (r: bool)
    ensures
        r == link_field_line(line@, item_indent as nat, field@),
{
    proof {
        reveal_strlit("- ");
        assert("- "@ =~= seq!['-', ' ']);
    }
    let (ind, t) = split_indent(line);
    if ind == item_indent as u128 {
        match crate::text::strip_prefix(t.as_str(), "- ") {
            Some(rest) => is_field_line(rest.as_str(), field),
            None => false,
        }
    } else {
        ind == item_indent as u128 + 2 && is_field_line(t.as_str(), field)
    }
}

/// The trailing comment of a YAML value (with the whitespace before it),
/// empty when there is none.
pub fn yaml_comment_suffix(value: &str) -> (r: String)
    ensures
        r@ == comment_suffix(value@),
{
    let v = chars_of(value);
    let mut in_single = false;
    let mut in_double = false;
    let mut escaped = false;
    let mut i: usize = 0;
    while i < v.len()
        invariant
            i <= v.len(),
            v@ == value@,
            comment_from(v@, 0, false, false, false) == comment_from(v@, i as int, in_single, in_double, escaped),
            !(in_single && in_double),
            escaped ==> in_double,
        decreases v.len() - i,
    {
        let c = v[i];
        if in_double {
            if escaped {
                escaped = false;
            } else if c == '\\' {
                escaped = true;
            } else if c == '"' {
                in_double = false;
            }
        } else if in_single {
            if c == '\'' {
                in_single = false;
            }
        } else if c == '\'' {
            in_single = true;
        } else if c == '"' {
            in_double = true;
        } else if c == '#' && (i == 0 || crate::text::char_is_ws(v[i - 1])) {
            let mut start = i;
            while start > 0 && crate::text::char_is_ws(v[start - 1])
                invariant
                    start <= i,
                    i < v.len(),
                    ws_run_start(v@, i as int) == ws_run_start(v@, start as int),
                decreases start,
            {
                start -= 1;
            }
            return crate::text::string_of_range(v.as_slice(), start, v.len());
        }
        i += 1;
    }
    String::new()
}

/// `line` with its value replaced by `value`, keeping the key and the
/// trailing comment.
pub fn replace_yaml_value(line: &str, value: &str) -> (r: String)
    ensures
        r@ == replace_value(line@, value@),
{
    proof { reveal_strlit(": "); }
    let v = chars_of(line);
    match crate::text::find_char_in(v.as_slice(), ':') {
        None => crate::text::own(line),
        Some(i) => {
            let mut r = crate::text::string_of_range(v.as_slice(), 0, i);
            r.append(": ");
            r.append(value);
            let current = crate::text::string_of_range(v.as_slice(), i + 1, v.len());
            let comment = yaml_comment_suffix(current.as_str());
            r.append(comment.as_str());
            assert(current@ =~= line@.skip(i + 1));
            r
        },
    }
}

/// A YAML scalar for `value`: as is when it holds only letters, digits and
/// `:/._-`, else a JSON string literal.
pub fn format_yaml_string(value: &str) -> (r: String)
    ensures
        r@ == yaml_string(value@),
{
    let v = chars_of(value);
    let mut i: usize = 0;
    while i < v.len()
        invariant
            i <= v.len(),
            v@ == value@,
            forall|q: int| 0 <= q < i ==> plain_char(#[trigger] v@[q]),
        decreases v.len() - i,
    {
        let c = v[i];
        let ok = ('0' <= c && c <= '9') || ('A' <= c && c <= 'Z') || ('a' <= c && c <= 'z')
            || c == ':' || c == '/' || c == '.' || c == '_' || c == '-';
        if !ok {
            return crate::json::json_string(value);
        }
        i += 1;
    }
    crate::text::own(value)
}

/// A JSON string literal for `value` (always quoted).
pub fn format_yaml_quoted_string(value: &str) -> (r: String)
    ensures
        r@ == json_quoted(value@),
{
    crate::json::json_string(value)
}

/// `n` spaces.
pub fn spaces_exec(n: usize) -> (r: String)
    ensures
        r@ == spaces(n as nat),
{
    let mut r = String::new();
    let mut i: usize = 0;
    while i < n
        invariant
            i <= n,
            r@ == spaces(i as nat),
        decreases n - i,
    {
        push_char(&mut r, ' ');
        assert(r@ =~= spaces((i + 1) as nat));
        i += 1;
    }
    r
}

/// `text.lines()` as owned strings.
pub fn lines_of(text: &str) -> (r: Vec<String>)
    ensures
        strs_view(r@) == text_lines(text@),
{
    let pieces = crate::text::split_chars(text, '\n');
    proof { crate::text::lemma_split_on_nonempty(text@, '\n'); }
    let ghost pv = strs_view(pieces@);
    let mut out: Vec<String> = Vec::new();
    let mut i: usize = 0;
    let last = pieces.len() - 1;
    while i < last
        invariant
            i <= last,
            last + 1 == pieces.len(),
            pv == strs_view(pieces@),
            pv == split_on(text@, '\n'),
            strs_view(out@) == pv.drop_last().take(i as int).map_values(|p: Seq<char>| strip_cr(p)),
        decreases last - i,
    {
        let p = pieces[i].as_str();
        let v = chars_of(p);
        let line = if v.len() > 0 && v[v.len() - 1] == '\r' {
            crate::text::string_of_range(v.as_slice(), 0, v.len() - 1)
        } else {
            crate::text::own(p)
        };
        assert(line@ =~= strip_cr(pv[i as int]));
        let ghost prev = out@;
        out.push(line);
        assert(strs_view(out@) =~= strs_view(prev).push(line@));
        assert(pv.drop_last().take(i + 1).map_values(|p: Seq<char>| strip_cr(p)) =~= pv.drop_last().take(i as int).map_values(|p: Seq<char>| strip_cr(p)).push(strip_cr(pv[i as int])));
        i += 1;
    }
    assert(pv.drop_last().take(last as int) =~= pv.drop_last());
    if pieces[last].as_str().unicode_len() > 0 {
        let ghost prev = out@;
        out.push(pieces[last].clone());
        assert(strs_view(out@) =~= strs_view(prev).push(pv.last()));
    } else {
        proof {
            if pv.last().len() > 0 {
                assert(pv.last() == pieces@[last as int]@);
            }
        }
        assert(pieces@[last as int]@.len() == 0 ==> pv.last().len() == 0);
    }
    out
}

/// The text of `lines`, joined by `\n`, with a final `\n` when the source text
/// had one or the text is not empty.
pub fn finish_lines(lines: &Vec<String>, trailing_newline: bool) -> (r: String)
    ensures
        r@ == finish_text(strs_view(lines@), trailing_newline),
{
    let mut t = crate::text::join_strs(lines, "\n");
    proof { reveal_strlit("\n"); assert("\n"@ =~= seq!['\n']); }
    if trailing_newline || t.as_str().unicode_len() > 0 {
        push_char(&mut t, '\n');
    }
    t
}

} // verus!
