//! Repository path normalization.
use vstd::prelude::*;

use crate::model::strs_view;
use crate::text::{cat, chars_of, join, join_strs, split_chars, split_on, string_of, text_eq};

verus! {

/// `s` with every backslash turned into a forward slash.
pub open spec fn slashes(s: Seq<char>) -> Seq<char> {
    s.map_values(|c: char| if c == '\\' { '/' } else { c })
}

/// `s.trim_start_matches("./")`.
pub open spec fn strip_dot_slash(s: Seq<char>) -> Seq<char>
    decreases s.len(),
{
    if s.len() >= 2 && s[0] == '.' && s[1] == '/' {
        strip_dot_slash(s.skip(2))
    } else {
        s
    }
}

/// Lenient normalization: backslashes become slashes and leading `./`
/// prefixes are removed.
pub open spec fn normalized_path(s: Seq<char>) -> Seq<char> {
    strip_dot_slash(slashes(s))
}

/// A path segment that is kept by strict normalization.
pub open spec fn kept_segment(seg: Seq<char>) -> bool {
    seg.len() > 0 && seg != seq!['.']
}

/// A path is absolute if it starts with a slash or names a drive (`C:`).
pub open spec fn is_absolute_path(p: Seq<char>) -> bool {
    (p.len() > 0 && p[0] == '/') || (p.len() >= 2 && p[1] == ':')
}

/// Strict normalization: absolute paths, parent traversal and empty paths are
/// rejected; empty and `.` segments are folded.
pub open spec fn strict_path(s: Seq<char>) -> Result<Seq<char>, Seq<char>> {
    let p = slashes(s);
    let segs = split_on(p, '/');
    let kept = segs.filter(|g: Seq<char>| kept_segment(g));
    if is_absolute_path(p) {
        Err("path must be repo-relative and must not be absolute: "@ + s)
    } else if segs.contains(seq!['.', '.']) {
        Err("path must not contain parent traversal: "@ + s)
    } else if kept.len() == 0 {
        Err("path must not be empty: "@ + s)
    } else {
        Ok(join(kept, seq!['/']))
    }
}

/// View of a `Result<String, String>`.
pub open spec fn result_view(r: Result<String, String>) -> Result<Seq<char>, Seq<char>> {
    match r {
        Ok(s) => Ok(s@),
        Err(e) => Err(e@),
    }
}

/// Paths under the reserved generated directory `._relaygraph/` (any case).
pub open spec fn is_reserved_spec(p: Seq<char>) -> bool {
    let segs = split_on(p, '/');
    lower_ascii(segs[0]) == "._relaygraph"@
}

/// ASCII lowercase of each character.
pub open spec fn lower_ascii(s: Seq<char>) -> Seq<char> {
    s.map_values(|c: char| lower_char(c))
}

/// `char::to_ascii_lowercase`.
pub open spec fn lower_char(c: char) -> char {
    if 'A' <= c && c <= 'Z' {
        ((c as u32) + 32) as char
    } else {
        c
    }
}

/// `char::to_ascii_lowercase`.
pub fn lower_char_exec(c: char) -> (r: char)
    ensures
        r == lower_char(c),
{
    if 'A' <= c && c <= 'Z' {
        ((c as u32) + 32) as u8 as char
    } else {
        c
    }
}

/// Replaces backslashes with slashes and strips leading `./` prefixes.
pub fn normalize_repo_path(path: &str) -> (r: String)
    ensures
        r@ == normalized_path(path@),
{
    let v = chars_of(path);
    let mut w: Vec<char> = Vec::new();
    let mut i: usize = 0;
    while i < v.len()
        invariant
            i <= v.len(),
            v@ == path@,
            w@ == slashes(v@.take(i as int)),
        decreases v.len() - i,
    {
        let c = if v[i] == '\\' {
            '/'
        } else {
            v[i]
        };
        w.push(c);
        assert(slashes(v@.take(i + 1)) =~= slashes(v@.take(i as int)).push(c));
        i += 1;
    }
    assert(v@.take(v.len() as int) =~= v@);
    let mut start: usize = 0;
    assert(w@.skip(0) =~= w@);
    while w.len() - start >= 2 && w[start] == '.' && w[start + 1] == '/'
        invariant
            start <= w.len(),
            strip_dot_slash(w@.skip(start as int)) == normalized_path(path@),
        decreases w.len() - start,
    {
        assert(w@.skip(start as int)[0] == '.');
        assert(w@.skip(start as int)[1] == '/');
        assert(w@.skip(start as int).skip(2) =~= w@.skip(start + 2));
        start += 2;
    }
    let r = crate::text::string_of_range(&w, start, w.len());
    assert(w@.skip(start as int) =~= w@.subrange(start as int, w.len() as int));
    r
}

/// A path as shown in messages: the text of the path (each platform
/// separator written as the platform writes it), normalized like a
/// repository path.
pub fn display_path(path: &str) -> (r: String)
    ensures
        r@ == normalized_path(path@),
{
    normalize_repo_path(path)
}

/// Strict repository-relative normalization used for locators, plugin paths
/// and command targets.
pub fn normalize_repo_path_strict(path: &str) -> (r: Result<String, String>)
    ensures
        result_view(r) == strict_path(path@),
{
    proof {
        reveal_strlit("path must be repo-relative and must not be absolute: ");
        reveal_strlit("path must not contain parent traversal: ");
        reveal_strlit("path must not be empty: ");
        reveal_strlit("..");
        reveal_strlit(".");
        reveal_strlit("/");
        assert(".."@ =~= seq!['.', '.']);
        assert("."@ =~= seq!['.']);
        assert("/"@ =~= seq!['/']);
    }
    let p = normalize_slashes(path);
    let pv = chars_of(p.as_str());
    if (pv.len() > 0 && pv[0] == '/') || (pv.len() >= 2 && pv[1] == ':') {
        return Err(cat("path must be repo-relative and must not be absolute: ", path));
    }
    let segs = split_chars(p.as_str(), '/');
    let ghost sv = strs_view(segs@);
    let mut kept: Vec<String> = Vec::new();
    let mut i: usize = 0;
    while i < segs.len()
        invariant
            i <= segs.len(),
            sv == strs_view(segs@),
            sv == split_on(slashes(path@), '/'),
            !is_absolute_path(slashes(path@)),
            ".."@ == seq!['.', '.'],
            "."@ == seq!['.'],
            forall|j: int| 0 <= j < i ==> sv[j] != seq!['.', '.'],
            strs_view(kept@) == sv.take(i as int).filter(|g: Seq<char>| kept_segment(g)),
        decreases segs.len() - i,
    {
        if text_eq(segs[i].as_str(), "..") {
            assert(sv[i as int] == segs@[i as int]@);
            assert(sv[i as int] == seq!['.', '.']);
            assert(sv.contains(seq!['.', '.']));
            return Err(cat("path must not contain parent traversal: ", path));
        }
        let keep = segs[i].unicode_len() > 0 && !text_eq(segs[i].as_str(), ".");
        proof {
            assert(sv.take(i + 1) =~= sv.take(i as int).push(sv[i as int]));
            sv.take(i as int).lemma_filter_push(sv[i as int], |g: Seq<char>| kept_segment(g));
            assert(sv[i as int] == segs@[i as int]@);
            assert(keep == kept_segment(sv[i as int]));
        }
        if keep {
            kept.push(segs[i].clone());
            assert(strs_view(kept@) =~= strs_view(kept@.drop_last()).push(kept@.last()@));
        }
        i += 1;
    }
    assert(sv.take(segs.len() as int) =~= sv);
    assert(!sv.contains(seq!['.', '.']));
    if kept.len() == 0 {
        return Err(cat("path must not be empty: ", path));
    }
    Ok(join_strs(&kept, "/"))
}

/// `path` with every backslash replaced by a slash.
pub fn normalize_slashes(path: &str) -> (r: String)
    ensures
        r@ == slashes(path@),
{
    let v = chars_of(path);
    let mut w: Vec<char> = Vec::new();
    let mut i: usize = 0;
    while i < v.len()
        invariant
            i <= v.len(),
            v@ == path@,
            w@ == slashes(v@.take(i as int)),
        decreases v.len() - i,
    {
        let c = if v[i] == '\\' {
            '/'
        } else {
            v[i]
        };
        w.push(c);
        assert(slashes(v@.take(i + 1)) =~= slashes(v@.take(i as int)).push(c));
        i += 1;
    }
    assert(v@.take(v.len() as int) =~= v@);
    string_of(&w)
}

/// `s` in ASCII lowercase.
pub fn lower_ascii_string(s: &str) -> (r: String)
    ensures
        r@ == lower_ascii(s@),
{
    let v = chars_of(s);
    let mut w: Vec<char> = Vec::new();
    let mut i: usize = 0;
    while i < v.len()
        invariant
            i <= v.len(),
            v@ == s@,
            w@ == lower_ascii(v@.take(i as int)),
        decreases v.len() - i,
    {
        let c = lower_char_exec(v[i]);
        w.push(c);
        assert(lower_ascii(v@.take(i + 1)) =~= lower_ascii(v@.take(i as int)).push(c));
        i += 1;
    }
    assert(v@.take(v.len() as int) =~= v@);
    string_of(&w)
}

/// Whether a normalized repository path lies in (or is) the reserved
/// generated directory `._relaygraph`, compared without ASCII case.
pub fn is_reserved_generated_path(path: &str) -> (r: bool)
    ensures
        r == is_reserved_spec(path@),
{
    proof {
        reveal_strlit("._relaygraph");
    }
    let segs = split_chars(path, '/');
    proof {
        crate::text::lemma_split_on_nonempty(path@, '/');
    }
    let first = lower_ascii_string(segs[0].as_str());
    text_eq(first.as_str(), "._relaygraph")
}

} // verus!
