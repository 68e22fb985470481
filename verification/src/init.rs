//! Sidecar ids derived from paths, and the plan for creating missing
//! sidecars.
use vstd::prelude::*;

use crate::model::strs_view;
use crate::numfmt::{decimal, hex_fixed};
use crate::text::{cat, chars_of, push_char, string_of_range};

verus! {

/// ASCII letters and digits.
pub open spec fn is_ascii_alnum(c: char) -> bool {
    ('0' <= c && c <= '9') || ('A' <= c && c <= 'Z') || ('a' <= c && c <= 'z')
}

/// The id characters of `s` before trimming, and whether the last one
/// written stands for a run of other characters: letters and digits are
/// lowercased, `-` and `_` kept, and each run of other characters becomes
/// one `.`.
pub open spec fn id_chars(s: Seq<char>) -> (Seq<char>, bool)
    decreases s.len(),
{
    if s.len() == 0 {
        (seq![], false)
    } else {
        let (acc, dot) = id_chars(s.drop_last());
        let c = s.last();
        if is_ascii_alnum(c) {
            (acc.push(crate::util::lower_char(c)), false)
        } else if c == '-' || c == '_' {
            (acc.push(c), false)
        } else if !dot {
            (acc.push('.'), true)
        } else {
            (acc, true)
        }
    }
}

/// Number of leading `.` characters.
pub open spec fn leading_dots(s: Seq<char>) -> nat
    decreases s.len(),
{
    if s.len() > 0 && s[0] == '.' {
        1 + leading_dots(s.drop_first())
    } else {
        0
    }
}

/// Number of trailing `.` characters.
pub open spec fn trailing_dots(s: Seq<char>) -> nat
    decreases s.len(),
{
    if s.len() > 0 && s.last() == '.' {
        1 + trailing_dots(s.drop_last())
    } else {
        0
    }
}

/// `s` without leading and trailing `.` characters.
pub open spec fn trim_dots(s: Seq<char>) -> Seq<char> {
    let a = leading_dots(s);
    if a == s.len() {
        seq![]
    } else {
        s.subrange(a as int, s.len() - trailing_dots(s))
    }
}

/// The 64-bit FNV-1a hash of `bytes`.
pub open spec fn fnv1a(bytes: Seq<u8>) -> u64
    decreases bytes.len(),
{
    if bytes.len() == 0 {
        0xcbf29ce484222325u64
    } else {
        vstd::wrapping::u64_specs::wrapping_mul(fnv1a(bytes.drop_last()) ^ (bytes.last() as u64), 0x100000001b3u64)
    }
}

/// The stable hash of a path: FNV-1a over its UTF-8 bytes.
pub open spec fn path_hash(path: Seq<char>) -> u64 {
    fnv1a(vstd::utf8::encode_utf8(path))
}

/// The id generated for `path`; a path with no id characters gets
/// `resource.` and its hash in 16 hex digits.
pub open spec fn generated_id(path: Seq<char>) -> Seq<char> {
    let t = trim_dots(id_chars(path).0);
    if t.len() == 0 {
        "resource."@ + hex_fixed(path_hash(path) as nat, 16)
    } else {
        t
    }
}

} // verus!

verus! {

proof fn lemma_leading_dots(s: Seq<char>)
    ensures
        leading_dots(s) <= s.len(),
        forall|i: int| 0 <= i < leading_dots(s) ==> s[i] == '.',
        leading_dots(s) < s.len() ==> s[leading_dots(s) as int] != '.',
    decreases s.len(),
{
    if s.len() > 0 && s[0] == '.' {
        lemma_leading_dots(s.drop_first());
        assert forall|i: int| 0 <= i < leading_dots(s) implies s[i] == '.' by {
            if i > 0 {
                assert(s[i] == s.drop_first()[i - 1]);
            }
        }
    }
}

proof fn lemma_trailing_dots(s: Seq<char>)
    ensures
        trailing_dots(s) <= s.len(),
        forall|i: int| s.len() - trailing_dots(s) <= i < s.len() ==> s[i] == '.',
        trailing_dots(s) < s.len() ==> s[s.len() - 1 - trailing_dots(s)] != '.',
    decreases s.len(),
{
    if s.len() > 0 && s.last() == '.' {
        lemma_trailing_dots(s.drop_last());
        assert forall|i: int| s.len() - trailing_dots(s) <= i < s.len() implies s[i] == '.' by {
            if i < s.len() - 1 {
                assert(s[i] == s.drop_last()[i]);
            }
        }
    }
}

/// The stable hash of a path: 64-bit FNV-1a over its UTF-8 bytes.
pub fn stable_path_hash(path: &str) -> (h: u64)
    ensures
        h == path_hash(path@),
{
    let bytes = path.as_bytes_vec();
    let mut h: u64 = 0xcbf29ce484222325u64;
    let mut i: usize = 0;
    while i < bytes.len()
        invariant
            i <= bytes.len(),
            h == fnv1a(bytes@.take(i as int)),
        decreases bytes.len() - i,
    {
        assert(bytes@.take(i + 1).drop_last() =~= bytes@.take(i as int));
        h = (h ^ (bytes[i] as u64)).wrapping_mul(0x100000001b3u64);
        i += 1;
    }
    assert(bytes@.take(bytes.len() as int) =~= bytes@);
    h
}

/// A sidecar id derived from `path`: lowercase ASCII letters and digits,
/// `-` and `_` kept, other runs folded to one `.`, surrounding dots trimmed;
/// `resource.<hash>` when nothing remains.
pub fn generated_id_for_path(path: &str) -> (r: String)
    ensures
        r@ == generated_id(path@),
{
    proof { reveal_strlit("resource."); }
    let cs = chars_of(path);
    let mut out: Vec<char> = Vec::new();
    let mut last_was_dot = false;
    let mut i: usize = 0;
    while i < cs.len()
        invariant
            i <= cs.len(),
            cs@ == path@,
            (out@, last_was_dot) == id_chars(cs@.take(i as int)),
        decreases cs.len() - i,
    {
        assert(cs@.take(i + 1).drop_last() =~= cs@.take(i as int));
        let c = cs[i];
        if ('0' <= c && c <= '9') || ('A' <= c && c <= 'Z') || ('a' <= c && c <= 'z') {
            out.push(crate::util::lower_char_exec(c));
            last_was_dot = false;
        } else if c == '-' || c == '_' {
            out.push(c);
            last_was_dot = false;
        } else if !last_was_dot {
            out.push('.');
            last_was_dot = true;
        }
        i += 1;
    }
    assert(cs@.take(cs.len() as int) =~= path@);
    let ghost raw = out@;
    let mut a: usize = 0;
    while a < out.len() && out[a] == '.'
        invariant
            a <= out.len(),
            raw == out@,
            forall|q: int| 0 <= q < a ==> raw[q] == '.',
        decreases out.len() - a,
    {
        a += 1;
    }
    proof {
        lemma_leading_dots(raw);
        if leading_dots(raw) < a {
            assert(raw[leading_dots(raw) as int] == '.');
        }
        if a < leading_dots(raw) {
            assert(raw[a as int] == '.');
        }
        assert(a == leading_dots(raw));
    }
    if a == out.len() {
        let h = stable_path_hash(path);
        let hex = crate::numfmt::hex_string(h, 16);
        return cat("resource.", hex.as_str());
    }
    let mut b: usize = out.len();
    while b > a && out[b - 1] == '.'
        invariant
            a < out.len(),
            a <= b <= out.len(),
            raw == out@,
            raw[a as int] != '.',
            forall|q: int| b <= q < out.len() ==> raw[q] == '.',
        decreases b,
    {
        b -= 1;
    }
    proof {
        lemma_trailing_dots(raw);
        let t = trailing_dots(raw);
        if raw.len() - t < b {
            assert(raw[raw.len() - 1 - t] != '.');
            assert(raw[b - 1] == '.');
            if raw.len() - 1 - t >= b {
            }
        }
        if b < raw.len() - t {
            assert(raw[b as int] == '.' || b == a) by {
                if b > a {
                    assert(!(b > a && raw[b - 1] == '.'));
                }
            }
        }
        assert(b == raw.len() - t) by {
            if b < raw.len() - t {
                // b..len are dots and raw[len-1-t] is not a dot: len-1-t >= b
                assert(raw[raw.len() - 1 - t] != '.');
                if b > a {
                    assert(raw[b - 1] != '.');
                }
            }
        }
    }
    let r = string_of_range(out.as_slice(), a, b);
    r
}

// ---------------------------------------------------------------------------
// Unique ids
// ---------------------------------------------------------------------------

/// The `n`-th fallback id for `base` (`n >= 1`): `base.<hash>` first, then
/// `base.<hash>.<n>` from 2 on.
pub open spec fn fallback_id(base: Seq<char>, h: u64, n: nat) -> Seq<char> {
    let prefix = base + "."@ + hex_fixed(h as nat, 16);
    if n < 2 {
        prefix
    } else {
        prefix + "."@ + decimal(n)
    }
}

/// `n` is the first fallback whose id is not in `used`.
pub open spec fn first_free(base: Seq<char>, h: u64, used: Seq<Seq<char>>, n: nat) -> bool {
    &&& n >= 1
    &&& !used.contains(fallback_id(base, h, n))
    &&& forall|m: nat| 1 <= m < n ==> used.contains(#[trigger] fallback_id(base, h, m))
}

/// The id `unique_generated_id_for_path` gives `path` when `used` are taken:
/// the generated id when free, else the first free fallback.
pub open spec fn unique_id(path: Seq<char>, used: Seq<Seq<char>>) -> Seq<char> {
    let base = generated_id(path);
    if !used.contains(base) {
        base
    } else {
        fallback_id(base, path_hash(path), choose|n: nat| first_free(base, path_hash(path), used, n))
    }
}

pub proof fn lemma_decimal_nonempty(n: nat)
    ensures
        decimal(n).len() >= 1,
        n >= 10 ==> decimal(n).len() >= 2,
    decreases n,
{
    if n >= 10 {
        lemma_decimal_nonempty(n / 10);
    }
}

pub proof fn lemma_digit_injective(x: int, y: int)
    requires
        0 <= x < 16,
        0 <= y < 16,
        crate::numfmt::digit(x) == crate::numfmt::digit(y),
    ensures
        x == y,
{
    if x == 0 {} else if x == 1 {} else if x == 2 {} else if x == 3 {} else if x == 4 {}
    else if x == 5 {} else if x == 6 {} else if x == 7 {} else if x == 8 {} else if x == 9 {}
    else if x == 10 {} else if x == 11 {} else if x == 12 {} else if x == 13 {} else if x == 14 {}
    else {}
}

/// Distinct numbers have distinct decimal renderings.
pub proof fn lemma_decimal_injective(a: nat, b: nat)
    requires
        decimal(a) == decimal(b),
    ensures
        a == b,
    decreases a,
{
    lemma_decimal_nonempty(a);
    lemma_decimal_nonempty(b);
    if a < 10 && b < 10 {
        assert(decimal(a) == seq![crate::numfmt::digit(a as int)]);
        assert(decimal(b) == seq![crate::numfmt::digit(b as int)]);
        assert(decimal(a)[0] == crate::numfmt::digit(a as int));
        assert(decimal(b)[0] == crate::numfmt::digit(b as int));
        lemma_digit_injective(a as int, b as int);
    } else if a >= 10 && b >= 10 {
        assert(decimal(a).last() == decimal(b).last());
        assert(decimal(a).drop_last() =~= decimal(a / 10));
        assert(decimal(b).drop_last() =~= decimal(b / 10));
        lemma_decimal_injective(a / 10, b / 10);
        assert(decimal(a) == decimal(a / 10).push(crate::numfmt::digit((a % 10) as int)));
        assert(decimal(b) == decimal(b / 10).push(crate::numfmt::digit((b % 10) as int)));
        assert(decimal(a).last() == crate::numfmt::digit((a % 10) as int));
        assert(decimal(b).last() == crate::numfmt::digit((b % 10) as int));
        lemma_digit_injective((a % 10) as int, (b % 10) as int);
    }
}

pub proof fn lemma_fallback_injective(base: Seq<char>, h: u64, a: nat, b: nat)
    requires
        a >= 1,
        b >= 1,
        fallback_id(base, h, a) == fallback_id(base, h, b),
    ensures
        a == b,
{
    reveal_strlit(".");
    let prefix = base + "."@ + hex_fixed(h as nat, 16);
    lemma_decimal_nonempty(a);
    lemma_decimal_nonempty(b);
    if a >= 2 && b >= 2 {
        assert(fallback_id(base, h, a).skip((prefix.len() + 1) as int) =~= decimal(a));
        assert(fallback_id(base, h, b).skip((prefix.len() + 1) as int) =~= decimal(b));
        lemma_decimal_injective(a, b);
    } else if a >= 2 || b >= 2 {
        assert(fallback_id(base, h, a).len() != fallback_id(base, h, b).len());
    }
}

/// At most `used.len()` fallbacks can be taken.
pub proof fn lemma_fallbacks_bounded(base: Seq<char>, h: u64, used: Seq<Seq<char>>, k: nat)
    requires
        used.contains(base),
        forall|m: nat| 1 <= m <= k ==> used.contains(#[trigger] fallback_id(base, h, m)),
    ensures
        k + 1 <= used.len(),
{
    reveal_strlit(".");
    let f = |m: int| fallback_id(base, h, m as nat);
    let dom = vstd::set_lib::set_int_range(1, (k + 1) as int);
    vstd::set_lib::lemma_int_range(1, (k + 1) as int);
    assert(vstd::relations::injective_on(f, dom)) by {
        assert forall|x: int, y: int| dom.contains(x) && dom.contains(y) && #[trigger] f(x) == #[trigger] f(y) implies x == y by {
            lemma_fallback_injective(base, h, x as nat, y as nat);
        }
    }
    let img = dom.map(f);
    vstd::set_lib::lemma_map_size(dom, img, f);
    assert(!img.contains(base)) by {
        if img.contains(base) {
            let m = choose|m: int| dom.contains(m) && f(m) == base;
            assert(fallback_id(base, h, m as nat).len() > base.len());
        }
    }
    let all = img.insert(base);
    assert(all.subset_of(used.to_set())) by {
        assert forall|x: Seq<char>| all.contains(x) implies used.to_set().contains(x) by {
            if x != base {
                let m = choose|m: int| dom.contains(m) && f(m) == x;
                assert(used.contains(fallback_id(base, h, m as nat)));
            }
        }
    }
    vstd::seq_lib::seq_to_set_is_finite(used);
    vstd::set_lib::lemma_len_subset(all, used.to_set());
    used.lemma_cardinality_of_set();
}

/// From `n` on, the first fallback that `used` does not hold exists when
/// the fallback at `bound` is free.
proof fn lemma_least_free(base: Seq<char>, h: u64, used: Seq<Seq<char>>, n: nat, bound: nat)
    requires
        1 <= n <= bound,
        forall|m: nat| 1 <= m < n ==> used.contains(#[trigger] fallback_id(base, h, m)),
        !used.contains(fallback_id(base, h, bound)),
    ensures
        exists|x: nat| first_free(base, h, used, x),
    decreases bound - n,
{
    if !used.contains(fallback_id(base, h, n)) {
        assert(first_free(base, h, used, n));
    } else {
        assert forall|m: nat| 1 <= m < n + 1 implies used.contains(#[trigger] fallback_id(base, h, m)) by {
            if m < n {
                assert(used.contains(fallback_id(base, h, m)));
            }
        }
        lemma_least_free(base, h, used, n + 1, bound);
    }
}

/// The id `unique_id` gives is never one of the taken ids.
pub proof fn lemma_unique_id_fresh(path: Seq<char>, used: Seq<Seq<char>>)
    ensures
        !used.contains(unique_id(path, used)),
{
    let base = generated_id(path);
    let h = path_hash(path);
    if used.contains(base) {
        let k = used.len();
        if forall|m: nat| 1 <= m <= k ==> used.contains(#[trigger] fallback_id(base, h, m)) {
            lemma_fallbacks_bounded(base, h, used, k);
        }
        let m = choose|m: nat| 1 <= m <= k && !used.contains(#[trigger] fallback_id(base, h, m));
        lemma_least_free(base, h, used, 1, m);
        let x = choose|n: nat| first_free(base, h, used, n);
        assert(first_free(base, h, used, x));
    }
}

/// A generated id for `path` that `used_ids` does not hold yet, recorded in
/// `used_ids`: the plain generated id when free, else `<id>.<hash>`, else
/// `<id>.<hash>.<n>` for the first free `n` from 2.
pub fn unique_generated_id_for_path(path: &str, used_ids: &mut Vec<String>) -> (r: String)
    ensures
        r@ == unique_id(path@, strs_view(old(used_ids)@)),
        !strs_view(old(used_ids)@).contains(r@),
        final(used_ids)@ == old(used_ids)@.push(r),
{
    proof { reveal_strlit("."); }
    let ghost used = strs_view(used_ids@);
    let base = generated_id_for_path(path);
    if !crate::model::vec_contains(used_ids, base.as_str()) {
        used_ids.push(base.clone());
        return base;
    }
    assert(used.contains(base@));
    let h = stable_path_hash(path);
    let hex = crate::numfmt::hex_string(h, 16);
    let mut prefix = cat(base.as_str(), ".");
    prefix.append(hex.as_str());
    let mut candidate = prefix.clone();
    let mut counter: u64 = 1;
    assert(candidate@ == fallback_id(base@, h, 1));
    while crate::model::vec_contains(used_ids, candidate.as_str())
        invariant
            used == strs_view(used_ids@),
            used.contains(base@),
            counter >= 1,
            prefix@ == base@ + "."@ + hex_fixed(h as nat, 16),
            candidate@ == fallback_id(base@, h, counter as nat),
            forall|m: nat| 1 <= m < counter ==> used.contains(#[trigger] fallback_id(base@, h, m)),
        decreases used_ids.len() - counter,
    {
        proof {
            assert forall|m: nat| 1 <= m <= counter implies used.contains(#[trigger] fallback_id(base@, h, m)) by {}
            lemma_fallbacks_bounded(base@, h, used, counter as nat);
        }
        counter = counter + 1;
        let mut next = cat(prefix.as_str(), ".");
        let digits = crate::numfmt::decimal_string(counter);
        next.append(digits.as_str());
        candidate = next;
    }
    proof {
        assert(first_free(base@, h, used, counter as nat));
        let c = choose|n: nat| first_free(base@, h, used, n);
        if c < counter {
            assert(used.contains(fallback_id(base@, h, c)));
        }
        if counter < c {
            assert(used.contains(fallback_id(base@, h, counter as nat)));
        }
    }
    used_ids.push(candidate.clone());
    candidate
}

// ---------------------------------------------------------------------------
// Planning missing sidecars
// ---------------------------------------------------------------------------

/// What the filesystem shows of a path that would get a sidecar.
pub enum SidecarProbe {
    /// No file is at the sidecar path.
    Missing,
    /// A file is there; whether it is a symlink or reparse point.
    Present(bool),
    /// Inspecting the sidecar path failed with this error text.
    Failed(String),
}

/// A listed file with what the filesystem shows of it: whether the resource
/// is a symlink (or the error text of inspecting it), whether Git would
/// ignore its sidecar, and what is at the sidecar path.
pub struct InitFile {
    pub path: String,
    pub resource: Result<bool, String>,
    pub sidecar_ignored: bool,
    pub sidecar: SidecarProbe,
}

/// A sidecar to create: its path and generated id.
pub struct SidecarPlan {
    pub sidecar_path: String,
    pub id: String,
}

/// A file that should get a sidecar: not the root config, not under the
/// reserved generated directory, not a plugin declaration, not a sidecar
/// itself, not excluded, and required to have one.
pub open spec fn init_candidate(path: Seq<char>, suffix: Seq<char>, exclude: Seq<Seq<char>>, require: Seq<Seq<char>>, plugin_paths: Seq<Seq<char>>) -> bool {
    !(path == ".relaygraph.yaml"@
        || crate::util::is_reserved_spec(path)
        || plugin_paths.contains(path)
        || suffix.is_suffix_of(path)
        || crate::globs::set_matches(exclude, path)
        || !crate::globs::set_matches(require, path))
}

/// The planning state: `(used ids, planned (sidecar path, id), diagnostics)`.
pub type InitState = (Seq<Seq<char>>, Seq<(Seq<char>, Seq<char>)>, Seq<crate::model::DiagView>);

/// One listed file's effect on the plan.
pub open spec fn init_step(
    st: InitState,
    f: InitFile,
    suffix: Seq<char>,
    exclude: Seq<Seq<char>>,
    require: Seq<Seq<char>>,
    plugin_paths: Seq<Seq<char>>,
    use_git_ignore: bool,
) -> InitState {
    let (used, plans, ds) = st;
    let p = f.path@;
    if !init_candidate(p, suffix, exclude, require, plugin_paths) {
        st
    } else {
        match f.resource {
            Err(e) => (used, plans, ds.push(("schema-error"@, Some(p), "failed to inspect resource "@ + p + ": "@ + e@))),
            Ok(true) => (used, plans, ds.push(("schema-error"@, Some(p), "resource must not be a symlink"@))),
            Ok(false) => {
                let sp = p + suffix;
                if use_git_ignore && f.sidecar_ignored {
                    (used, plans, ds.push(("schema-error"@, Some(sp), "generated sidecar would be ignored by Git discovery"@)))
                } else {
                    match f.sidecar {
                        SidecarProbe::Present(true) => (used, plans, ds.push(("schema-error"@, Some(sp), "sidecar must not be a symlink"@))),
                        SidecarProbe::Present(false) => st,
                        SidecarProbe::Failed(e) => (used, plans, ds.push(("schema-error"@, Some(sp), "failed to inspect sidecar: "@ + e@))),
                        SidecarProbe::Missing => {
                            let id = unique_id(p, used);
                            (used.push(id), plans.push((sp, id)), ds)
                        },
                    }
                }
            },
        }
    }
}

/// The plan after the files `files`, in order, starting from the taken ids.
pub open spec fn init_run(
    files: Seq<InitFile>,
    existing: Seq<Seq<char>>,
    suffix: Seq<char>,
    exclude: Seq<Seq<char>>,
    require: Seq<Seq<char>>,
    plugin_paths: Seq<Seq<char>>,
    use_git_ignore: bool,
) -> InitState
    decreases files.len(),
{
    if files.len() == 0 {
        (existing, seq![], seq![])
    } else {
        init_step(init_run(files.drop_last(), existing, suffix, exclude, require, plugin_paths, use_git_ignore),
            files.last(), suffix, exclude, require, plugin_paths, use_git_ignore)
    }
}

/// Whether `path` should get a sidecar.
pub fn is_init_candidate(path: &str, suffix: &str, exclude: &crate::globs::GlobMatcher, require: &crate::globs::GlobMatcher, plugin_paths: &Vec<String>) -> (r: bool)
    ensures
        r == init_candidate(path@, suffix@, crate::globs::globset_patterns(*exclude), crate::globs::globset_patterns(*require), strs_view(plugin_paths@)),
{
    proof { reveal_strlit(".relaygraph.yaml"); }
    !(crate::text::text_eq(path, crate::model::CONFIG_PATH)
        || crate::util::is_reserved_generated_path(path)
        || crate::model::vec_contains(plugin_paths, path)
        || crate::text::ends_with(path, suffix)
        || crate::globs::matches_glob(exclude, path)
        || !crate::globs::matches_glob(require, path))
}

/// The sidecars to create for the listed files, with fresh ids; the
/// diagnostics of files that cannot get one.
pub fn plan_sidecars(
    files: &Vec<InitFile>,
    existing_ids: Vec<String>,
    suffix: &str,
    exclude: &crate::globs::GlobMatcher,
    require: &crate::globs::GlobMatcher,
    plugin_paths: &Vec<String>,
    use_git_ignore: bool,
    diagnostics: &mut Vec<crate::model::Diagnostic>,
) -> (r: Vec<SidecarPlan>)
    ensures
        ({
            let (_, plans, ds) = init_run(files@, strs_view(existing_ids@), suffix@, crate::globs::globset_patterns(*exclude),
                crate::globs::globset_patterns(*require), strs_view(plugin_paths@), use_git_ignore);
            &&& r.len() == plans.len()
            &&& forall|j: int| 0 <= j < plans.len() ==> (#[trigger] r@[j]).sidecar_path@ == plans[j].0 && r@[j].id@ == plans[j].1
            &&& crate::model::diags_view(final(diagnostics)@) == crate::model::diags_view(old(diagnostics)@) + ds
        }),
{
    proof {
        reveal_strlit("schema-error");
        reveal_strlit("failed to inspect resource ");
        reveal_strlit(": ");
        reveal_strlit("resource must not be a symlink");
        reveal_strlit("generated sidecar would be ignored by Git discovery");
        reveal_strlit("sidecar must not be a symlink");
        reveal_strlit("failed to inspect sidecar: ");
    }
    let ghost ex = crate::globs::globset_patterns(*exclude);
    let ghost rq = crate::globs::globset_patterns(*require);
    let ghost pp = strs_view(plugin_paths@);
    let ghost start = crate::model::diags_view(diagnostics@);
    let mut used = existing_ids;
    let mut plans: Vec<SidecarPlan> = Vec::new();
    let mut i: usize = 0;
    assert(start =~= start + seq![]);
    while i < files.len()
        invariant
            i <= files.len(),
            ex == crate::globs::globset_patterns(*exclude),
            rq == crate::globs::globset_patterns(*require),
            pp == strs_view(plugin_paths@),
            ({
                let (u, ps, ds) = init_run(files@.take(i as int), strs_view(existing_ids@), suffix@, ex, rq, pp, use_git_ignore);
                &&& strs_view(used@) == u
                &&& plans.len() == ps.len()
                &&& forall|j: int| 0 <= j < ps.len() ==> (#[trigger] plans@[j]).sidecar_path@ == ps[j].0 && plans@[j].id@ == ps[j].1
                &&& crate::model::diags_view(diagnostics@) == start + ds
            }),
        decreases files.len() - i,
    {
        assert(files@.take(i + 1).drop_last() =~= files@.take(i as int));
        let f = &files[i];
        let p = f.path.as_str();
        let ghost plans0 = plans@;
        if is_init_candidate(p, suffix, exclude, require, plugin_paths) {
            match &f.resource {
                Err(e) => {
                    let mut m = cat("failed to inspect resource ", p);
                    m.append(": ");
                    m.append(e.as_str());
                    crate::model::push_diag(diagnostics, crate::model::diagnostic("schema-error", Some(crate::text::own(p)), m));
                },
                Ok(true) => {
                    crate::model::push_diag(diagnostics, crate::model::diagnostic("schema-error", Some(crate::text::own(p)), crate::text::own("resource must not be a symlink")));
                },
                Ok(false) => {
                    let sp = cat(p, suffix);
                    if use_git_ignore && f.sidecar_ignored {
                        crate::model::push_diag(diagnostics, crate::model::diagnostic("schema-error", Some(sp), crate::text::own("generated sidecar would be ignored by Git discovery")));
                    } else {
                        match &f.sidecar {
                            SidecarProbe::Present(true) => {
                                crate::model::push_diag(diagnostics, crate::model::diagnostic("schema-error", Some(sp), crate::text::own("sidecar must not be a symlink")));
                            },
                            SidecarProbe::Present(false) => {},
                            SidecarProbe::Failed(e) => {
                                crate::model::push_diag(diagnostics, crate::model::diagnostic("schema-error", Some(sp), cat("failed to inspect sidecar: ", e.as_str())));
                            },
                            SidecarProbe::Missing => {
                                let id = unique_generated_id_for_path(p, &mut used);
                                proof {
                                    assert(strs_view(used@) =~= strs_view(used@.drop_last()).push(id@));
                                }
                                plans.push(SidecarPlan { sidecar_path: sp, id });
                            },
                        }
                    }
                },
            }
        }
        proof {
            let (u, ps, ds) = init_run(files@.take(i + 1), strs_view(existing_ids@), suffix@, ex, rq, pp, use_git_ignore);
            assert forall|j: int| 0 <= j < ps.len() implies (#[trigger] plans@[j]).sidecar_path@ == ps[j].0 && plans@[j].id@ == ps[j].1 by {
                if j < plans0.len() {
                    assert(plans@[j] == plans0[j]);
                }
            }
        }
        i += 1;
    }
    assert(files@.take(files.len() as int) =~= files@);
    plans
}

/// What the filesystem reported for creating missing sidecars: every listed
/// file with its probes, each configured plugin's source, and the ids of the
/// readable existing sidecars.
pub struct InitInputs {
    pub files: Vec<InitFile>,
    pub plugin_sources: Vec<crate::plugin::PluginSource>,
    pub existing_ids: Vec<String>,
}

/// The paths of the listed files.
pub open spec fn init_file_paths(files: Seq<InitFile>) -> Seq<Seq<char>> {
    files.map_values(|f: InitFile| f.path@)
}

/// What `init_missing_sidecars` gives when the exclude and require-sidecar
/// matchers hold `ex` and `rq`: the first failing stage's diagnostics as one
/// message, or the sidecars to create.
pub open spec fn init_spec(config: crate::model::Config, inputs: InitInputs, ex: Seq<Seq<char>>, rq: Seq<Seq<char>>, r: Result<Vec<SidecarPlan>, String>) -> bool {
    let d1 = crate::assemble::config_version_diagnostics(config) + crate::config::config_value_diagnostics(config)
        + crate::globs::glob_diagnostics(crate::config::list_view(config.exclude))
        + crate::globs::glob_diagnostics(crate::config::list_view(config.require_sidecar));
    let pd = crate::plugin::load_plugins_spec(inputs.plugin_sources@, init_file_paths(inputs.files@)).2;
    let git = match config.use_git_ignore { Some(b) => b, None => true };
    let (_, plans, ds) = init_run(inputs.files@, strs_view(inputs.existing_ids@), crate::config::sidecar_suffix_spec(config), ex, rq,
        crate::plugin::valid_plugin_paths(crate::config::list_view(config.plugins)), git);
    if d1.len() > 0 {
        r matches Err(m) && m@ == crate::diagnostic::diagnostics_text(d1)
    } else if pd.len() > 0 {
        r matches Err(m) && m@ == crate::diagnostic::diagnostics_text(pd)
    } else if ds.len() > 0 {
        r matches Err(m) && m@ == crate::diagnostic::diagnostics_text(ds)
    } else {
        r matches Ok(v) && v.len() == plans.len()
            && forall|j: int| 0 <= j < plans.len() ==> (#[trigger] v@[j]).sidecar_path@ == plans[j].0 && v@[j].id@ == plans[j].1
    }
}

/// The paths of the listed files.
fn listed_paths(files: &Vec<InitFile>) -> (r: Vec<String>)
    ensures
        strs_view(r@) == init_file_paths(files@),
{
    let mut r: Vec<String> = Vec::new();
    let mut i: usize = 0;
    while i < files.len()
        invariant
            i <= files.len(),
            strs_view(r@) == init_file_paths(files@.take(i as int)),
        decreases files.len() - i,
    {
        let ghost prev = r@;
        r.push(files[i].path.clone());
        assert(strs_view(r@) =~= strs_view(prev).push(files@[i as int].path@));
        assert(init_file_paths(files@.take(i + 1)) =~= init_file_paths(files@.take(i as int)).push(files@[i as int].path@));
        i += 1;
    }
    assert(files@.take(files.len() as int) =~= files@);
    r
}

/// Plans the sidecars that `requireSidecar` asks for and that do not exist:
/// fails with the diagnostics of the root config, then with those of loading
/// the plugins, then with those of the files that cannot get a sidecar.
pub fn init_missing_sidecars(config: &crate::model::Config, inputs: InitInputs) -> (r: Result<Vec<SidecarPlan>, String>)
    ensures
        init_spec(*config, inputs, crate::globs::built_globs(crate::config::list_view(config.exclude)),
            crate::globs::built_globs(crate::config::list_view(config.require_sidecar)), r),
{
    let ghost inputs0 = inputs;
    let InitInputs { files, plugin_sources, existing_ids } = inputs;
    let suffix = crate::config::sidecar_suffix(config);
    let mut diagnostics: Vec<crate::model::Diagnostic> = Vec::new();
    let supported: [u32; 1] = [1];
    crate::diagnostic::validate_schema_version(config.schema_version, 1, &supported, crate::model::CONFIG_PATH, &mut diagnostics);
    proof {
        reveal_strlit(".relaygraph.yaml");
        reveal_strlit("schema-error");
        assert(supported@ =~= seq![1u32]);
        let v = match config.schema_version { Some(v) => v, None => 1u32 };
        assert(supported@.contains(v) <==> v == 1) by {
            if v == 1 { assert(supported@[0] == v); }
        }
        assert(crate::model::diags_view(diagnostics@) =~= crate::assemble::config_version_diagnostics(*config));
    }
    crate::config::validate_config_values(config, &mut diagnostics);
    let exclude_list: Vec<String> = match &config.exclude {
        Some(v) => crate::model::copy_strs(v),
        None => Vec::new(),
    };
    assert(strs_view(exclude_list@) =~= crate::config::list_view(config.exclude));
    let exclude = crate::globs::globset(&exclude_list, &mut diagnostics);
    let require_list: Vec<String> = match &config.require_sidecar {
        Some(v) => crate::model::copy_strs(v),
        None => Vec::new(),
    };
    assert(strs_view(require_list@) =~= crate::config::list_view(config.require_sidecar));
    let require = crate::globs::globset(&require_list, &mut diagnostics);
    let ghost ex = crate::globs::globset_patterns(exclude);
    let ghost rq = crate::globs::globset_patterns(require);
    let ghost d1 = crate::assemble::config_version_diagnostics(*config) + crate::config::config_value_diagnostics(*config)
        + crate::globs::glob_diagnostics(crate::config::list_view(config.exclude))
        + crate::globs::glob_diagnostics(crate::config::list_view(config.require_sidecar));
    assert(crate::model::diags_view(diagnostics@) =~= d1);
    assert(ex == crate::globs::built_globs(crate::config::list_view(config.exclude)));
    assert(rq == crate::globs::built_globs(crate::config::list_view(config.require_sidecar)));
    if diagnostics.len() > 0 {
        let r = Err(crate::diagnostic::diagnostics_to_message(&diagnostics));
        assert(init_spec(*config, inputs0, ex, rq, r));
        return r;
    }
    let discovered = listed_paths(&files);
    let _plugins = crate::plugin::load_plugins(plugin_sources, &discovered, &mut diagnostics);
    let ghost pd = crate::plugin::load_plugins_spec(inputs0.plugin_sources@, init_file_paths(inputs0.files@)).2;
    assert(crate::model::diags_view(diagnostics@) =~= pd);
    if diagnostics.len() > 0 {
        let r = Err(crate::diagnostic::diagnostics_to_message(&diagnostics));
        assert(init_spec(*config, inputs0, ex, rq, r));
        return r;
    }
    let plugin_paths = crate::plugin::configured_plugin_paths(config);
    let git = match config.use_git_ignore { Some(b) => b, None => true };
    let plans = plan_sidecars(&files, existing_ids, suffix.as_str(), &exclude, &require, &plugin_paths, git, &mut diagnostics);
    let ghost ds = init_run(inputs0.files@, strs_view(inputs0.existing_ids@), suffix@, ex, rq, strs_view(plugin_paths@), git).2;
    assert(crate::model::diags_view(diagnostics@) =~= ds);
    if diagnostics.len() > 0 {
        let r = Err(crate::diagnostic::diagnostics_to_message(&diagnostics));
        assert(init_spec(*config, inputs0, ex, rq, r));
        return r;
    }
    let r = Ok(plans);
    assert(init_spec(*config, inputs0, ex, rq, r));
    r
}

/// The text of a newly created sidecar for `id`.
pub fn initial_sidecar_text(id: &str) -> (r: String)
    ensures
        r@ == "schemaVersion: 1\nid: "@ + crate::json::json_quoted(id@) + "\nlinks: []\n"@,
{
    let mut r = crate::text::own("schemaVersion: 1\nid: ");
    let q = crate::json::json_string(id);
    r.append(q.as_str());
    r.append("\nlinks: []\n");
    r
}

} // verus!
