//! Relation freshness: content fingerprints and review diagnostics for
//! acknowledged links.
use vstd::prelude::*;

use crate::model::{opt_view, AcknowledgedRevisions, Resource};
use crate::numfmt::digit;
use crate::text::{cat, own, push_char};

verus! {

/// The SHA-256 digest of `data`.
pub uninterp spec fn sha256(data: Seq<u8>) -> Seq<u8>;

/// `Sha256::digest` (sha2): the SHA-256 digest of `data`, 32 bytes long.
#[verifier::external_body]
fn sha256_digest(data: &Vec<u8>) -> (r: Vec<u8>)
    ensures
        r@ == sha256(data@) && r@.len() == 32,
{
    <sha2::Sha256 as sha2::Digest>::digest(data.as_slice()).to_vec()
}

/// `std::str::from_utf8`: the text of `bytes` when they are valid UTF-8.
#[verifier::external_body]
fn utf8_text(bytes: &Vec<u8>) -> (r: Option<String>)
    ensures
        r is Some <==> vstd::utf8::valid_utf8(bytes@),
        r matches Some(s) ==> s@ == vstd::utf8::decode_utf8(bytes@),
{
    match std::str::from_utf8(bytes.as_slice()) {
        Ok(s) => Some(s.to_string()),
        Err(_) => None,
    }
}

/// Lowercase hexadecimal digits of `bytes`, two per byte.
pub open spec fn hex_bytes(bytes: Seq<u8>) -> Seq<char>
    decreases bytes.len(),
{
    if bytes.len() == 0 {
        seq![]
    } else {
        hex_bytes(bytes.drop_last()) + seq![digit((bytes.last() / 16) as int), digit((bytes.last() % 16) as int)]
    }
}

/// A fingerprint text: `sha256:` and the digest in lowercase hex.
pub open spec fn fingerprint_text(data: Seq<u8>) -> Seq<char> {
    "sha256:"@ + hex_bytes(sha256(data))
}

/// `n` as `width` big-endian bytes.
pub open spec fn be_bytes(n: nat, width: nat) -> Seq<u8>
    decreases width,
{
    if width == 0 {
        seq![]
    } else {
        be_bytes(n / 256, (width - 1) as nat).push((n % 256) as u8)
    }
}

/// A length-prefixed component: its length as 8 big-endian bytes, then it.
pub open spec fn component(bytes: Seq<u8>) -> Seq<u8> {
    be_bytes(bytes.len(), 8) + bytes
}

/// The fingerprinted payload of a link: a version tag, then the relation and
/// target as components, then a marker byte and the reason when present.
pub open spec fn link_payload(rel: Seq<char>, to: Seq<char>, reason: Option<Seq<char>>) -> Seq<u8> {
    vstd::utf8::encode_utf8("relaygraph-link-review-v1"@) + seq![0u8]
        + component(vstd::utf8::encode_utf8(rel))
        + component(vstd::utf8::encode_utf8(to))
        + match reason {
            Some(r) => seq![1u8] + component(vstd::utf8::encode_utf8(r)),
            None => seq![0u8],
        }
}

/// Text with each CRLF pair and each lone CR turned into LF.
pub open spec fn lf_normalized(s: Seq<char>) -> Seq<char>
    decreases s.len(),
{
    if s.len() == 0 {
        seq![]
    } else if s[0] == '\r' && s.len() > 1 && s[1] == '\n' {
        seq!['\n'] + lf_normalized(s.skip(2))
    } else if s[0] == '\r' {
        seq!['\n'] + lf_normalized(s.skip(1))
    } else {
        seq![s[0]] + lf_normalized(s.skip(1))
    }
}

/// The bytes a file fingerprint hashes: LF-normalized UTF-8 text, or the
/// raw bytes when they are not UTF-8.
pub open spec fn fingerprint_input(bytes: Seq<u8>) -> Seq<u8> {
    if vstd::utf8::valid_utf8(bytes) {
        vstd::utf8::encode_utf8(lf_normalized(vstd::utf8::decode_utf8(bytes)))
    } else {
        bytes
    }
}

} // verus!

verus! {

/// Lowercase hex of `bytes`.
fn hex_of(bytes: &Vec<u8>) -> (r: String)
    ensures
        r@ == hex_bytes(bytes@),
        r@.len() == 2 * bytes.len(),
{
    let mut r = String::new();
    let mut i: usize = 0;
    assert(r@ =~= hex_bytes(bytes@.take(0)));
    while i < bytes.len()
        invariant
            i <= bytes.len(),
            r@ == hex_bytes(bytes@.take(i as int)),
            r@.len() == 2 * i,
        decreases bytes.len() - i,
    {
        assert(bytes@.take(i + 1).drop_last() =~= bytes@.take(i as int));
        let b = bytes[i];
        push_char(&mut r, crate::numfmt::digit_exec((b / 16) as u64));
        push_char(&mut r, crate::numfmt::digit_exec((b % 16) as u64));
        assert(r@ =~= hex_bytes(bytes@.take(i + 1)));
        i += 1;
    }
    assert(bytes@.take(bytes.len() as int) =~= bytes@);
    r
}

/// `sha256:` and the lowercase hex SHA-256 digest of `data`.
fn fingerprint_of(data: &Vec<u8>) -> (r: String)
    ensures
        r@ == fingerprint_text(data@),
        r@.len() == 71,
{
    proof { reveal_strlit("sha256:"); }
    let digest = sha256_digest(data);
    let hex = hex_of(&digest);
    cat("sha256:", hex.as_str())
}

/// Appends `n` as 8 big-endian bytes.
fn push_be64(out: &mut Vec<u8>, n: u64)
    ensures
        final(out)@ == old(out)@ + be_bytes(n as nat, 8),
{
    let mut tmp: Vec<u8> = Vec::new();
    let mut k: u64 = 0;
    let mut m: u64 = n;
    proof {
        vstd::arithmetic::power::lemma_pow0(256);
        assert(n as nat / 1 == n as nat);
    }
    while k < 8
        invariant
            k <= 8,
            tmp.len() == k,
            forall|j: int| 0 <= j < k ==> tmp@[j] == ((n as nat / vstd::arithmetic::power::pow(256, j as nat) as nat) % 256) as u8,
            m as nat == n as nat / vstd::arithmetic::power::pow(256, k as nat) as nat,
        decreases 8 - k,
    {
        tmp.push((m % 256) as u8);
        proof {
            vstd::arithmetic::power::lemma_pow_positive(256, k as nat);
            vstd::arithmetic::power::lemma_pow_adds(256, k as nat, 1);
            vstd::arithmetic::power::lemma_pow1(256);
            vstd::arithmetic::div_mod::lemma_div_denominator(n as int, vstd::arithmetic::power::pow(256, k as nat), 256);
        }
        m = m / 256;
        k += 1;
    }
    let ghost base = out@;
    let mut j: usize = 8;
    while j > 0
        invariant
            j <= 8,
            tmp.len() == 8,
            forall|q: int| 0 <= q < 8 ==> tmp@[q] == ((n as nat / vstd::arithmetic::power::pow(256, q as nat) as nat) % 256) as u8,
            out@ == base + be_bytes(n as nat / vstd::arithmetic::power::pow(256, j as nat) as nat, (8 - j) as nat),
        decreases j,
    {
        proof {
            vstd::arithmetic::power::lemma_pow_positive(256, (j - 1) as nat);
            vstd::arithmetic::power::lemma_pow_adds(256, (j - 1) as nat, 1);
            vstd::arithmetic::power::lemma_pow1(256);
            vstd::arithmetic::div_mod::lemma_div_denominator(n as int, vstd::arithmetic::power::pow(256, (j - 1) as nat), 256);
            let hi = n as nat / vstd::arithmetic::power::pow(256, (j - 1) as nat) as nat;
            assert(hi / 256 == n as nat / vstd::arithmetic::power::pow(256, j as nat) as nat);
            assert(be_bytes(hi, (8 - j + 1) as nat) == be_bytes(hi / 256, (8 - j) as nat).push((hi % 256) as u8));
        }
        out.push(tmp[j - 1]);
        j -= 1;
    }
    proof {
        vstd::arithmetic::power::lemma_pow0(256);
        assert(n as nat / 1 == n as nat);
    }
}

/// Appends a length-prefixed component.
fn push_component(out: &mut Vec<u8>, bytes: &Vec<u8>)
    ensures
        final(out)@ == old(out)@ + component(bytes@),
{
    push_be64(out, bytes.len() as u64);
    let ghost mid = out@;
    let mut i: usize = 0;
    while i < bytes.len()
        invariant
            i <= bytes.len(),
            out@ == mid + bytes@.take(i as int),
        decreases bytes.len() - i,
    {
        out.push(bytes[i]);
        assert(bytes@.take(i + 1) =~= bytes@.take(i as int).push(bytes@[i as int]));
        i += 1;
    }
    assert(bytes@.take(bytes.len() as int) =~= bytes@);
}

/// The revision of a link's reviewed content: `sha256:` and the digest of its
/// relation, target and reason, each length-prefixed so that no two
/// different triples share a payload.
pub fn fingerprint_link_revision(rel: &str, to: &str, reason: Option<&str>) -> (r: String)
    ensures
        r@ == fingerprint_text(link_payload(rel@, to@, match reason { Some(x) => Some(x@), None => None })),
        r@.len() == 71,
{
    let mut payload = "relaygraph-link-review-v1".as_bytes_vec();
    payload.push(0u8);
    let ghost p0 = payload@;
    push_component(&mut payload, &rel.as_bytes_vec());
    push_component(&mut payload, &to.as_bytes_vec());
    let ghost p2 = payload@;
    match reason {
        Some(x) => {
            payload.push(1u8);
            push_component(&mut payload, &x.as_bytes_vec());
            assert(payload@ =~= p2 + (seq![1u8] + component(vstd::utf8::encode_utf8(x@))));
        },
        None => {
            payload.push(0u8);
            assert(payload@ =~= p2 + seq![0u8]);
        },
    }
    assert(p0 =~= vstd::utf8::encode_utf8("relaygraph-link-review-v1"@) + seq![0u8]);
    assert(payload@ =~= link_payload(rel@, to@, match reason { Some(x) => Some(x@), None => None }));
    fingerprint_of(&payload)
}

/// The content revision of a file's bytes: `sha256:` and the digest of its
/// LF-normalized text, or of the raw bytes when they are not UTF-8.
pub fn fingerprint_bytes(bytes: &Vec<u8>) -> (r: String)
    ensures
        r@ == fingerprint_text(fingerprint_input(bytes@)),
        r@.len() == 71,
{
    match utf8_text(bytes) {
        Some(text) => {
            let normalized = lf_normalize(text.as_str());
            fingerprint_of(&normalized.as_str().as_bytes_vec())
        },
        None => fingerprint_of(bytes),
    }
}

/// Turns each CRLF pair and each lone CR into LF.
pub fn lf_normalize(s: &str) -> (r: String)
    ensures
        r@ == lf_normalized(s@),
{
    let v = crate::text::chars_of(s);
    let mut r = String::new();
    let mut i: usize = 0;
    assert(v@.skip(0) =~= s@);
    assert(r@ + lf_normalized(v@.skip(0)) =~= lf_normalized(s@));
    while i < v.len()
        invariant
            i <= v.len(),
            v@ == s@,
            r@ + lf_normalized(v@.skip(i as int)) == lf_normalized(s@),
        decreases v.len() - i,
    {
        let ghost rest = v@.skip(i as int);
        if v[i] == '\r' && i + 1 < v.len() && v[i + 1] == '\n' {
            push_char(&mut r, '\n');
            assert(rest.skip(2) =~= v@.skip(i + 2));
            i += 2;
        } else if v[i] == '\r' {
            push_char(&mut r, '\n');
            assert(rest.skip(1) =~= v@.skip(i + 1));
            i += 1;
        } else {
            push_char(&mut r, v[i]);
            assert(rest.skip(1) =~= v@.skip(i + 1));
            i += 1;
        }
    }
    assert(v@.skip(v.len() as int) =~= seq![]);
    r
}

// ---------------------------------------------------------------------------
// Review diagnostics
// ---------------------------------------------------------------------------

/// The code of a relation review finding.
pub const RELATION_REVIEW_REQUIRED: &'static str = "relation-review-required";

/// Which revisions changed since a link was acknowledged.
#[derive(Clone, Copy, Debug, PartialEq, Eq, Structural)]
pub enum FreshnessState {
    SourceChanged,
    TargetChanged,
    BothChanged,
    LinkChanged,
    SourceAndLinkChanged,
    TargetAndLinkChanged,
    AllChanged,
}

/// The state for the changes, `None` when nothing changed.
pub open spec fn state_of(source: bool, target: bool, link: bool) -> Option<FreshnessState> {
    if !source && !target && !link {
        None
    } else if source && !target && !link {
        Some(FreshnessState::SourceChanged)
    } else if !source && target && !link {
        Some(FreshnessState::TargetChanged)
    } else if source && target && !link {
        Some(FreshnessState::BothChanged)
    } else if !source && !target && link {
        Some(FreshnessState::LinkChanged)
    } else if source && !target && link {
        Some(FreshnessState::SourceAndLinkChanged)
    } else if !source && target && link {
        Some(FreshnessState::TargetAndLinkChanged)
    } else {
        Some(FreshnessState::AllChanged)
    }
}

/// The message of a state.
pub open spec fn message_spec(state: FreshnessState) -> Seq<char> {
    match state {
        FreshnessState::SourceChanged => "source revision changed after acknowledgement"@,
        FreshnessState::TargetChanged => "target revision changed after acknowledgement"@,
        FreshnessState::BothChanged => "source and target revisions changed after acknowledgement"@,
        FreshnessState::LinkChanged => "link revision changed after acknowledgement"@,
        FreshnessState::SourceAndLinkChanged => "source and link revisions changed after acknowledgement"@,
        FreshnessState::TargetAndLinkChanged => "target and link revisions changed after acknowledgement"@,
        FreshnessState::AllChanged => "source, target, and link revisions changed after acknowledgement"@,
    }
}

/// The state for the changes.
pub fn freshness_state(source: bool, target: bool, link: bool) -> (r: Option<FreshnessState>)
    ensures
        r == state_of(source, target, link),
{
    match (source, target, link) {
        (false, false, false) => None,
        (true, false, false) => Some(FreshnessState::SourceChanged),
        (false, true, false) => Some(FreshnessState::TargetChanged),
        (true, true, false) => Some(FreshnessState::BothChanged),
        (false, false, true) => Some(FreshnessState::LinkChanged),
        (true, false, true) => Some(FreshnessState::SourceAndLinkChanged),
        (false, true, true) => Some(FreshnessState::TargetAndLinkChanged),
        (true, true, true) => Some(FreshnessState::AllChanged),
    }
}

/// The message of a state.
pub fn freshness_message(state: FreshnessState) -> (r: String)
    ensures
        r@ == message_spec(state),
{
    match state {
        FreshnessState::SourceChanged => own("source revision changed after acknowledgement"),
        FreshnessState::TargetChanged => own("target revision changed after acknowledgement"),
        FreshnessState::BothChanged => own("source and target revisions changed after acknowledgement"),
        FreshnessState::LinkChanged => own("link revision changed after acknowledgement"),
        FreshnessState::SourceAndLinkChanged => own("source and link revisions changed after acknowledgement"),
        FreshnessState::TargetAndLinkChanged => own("target and link revisions changed after acknowledgement"),
        FreshnessState::AllChanged => own("source, target, and link revisions changed after acknowledgement"),
    }
}

/// The relation of a finding.
pub struct FreshnessRelation {
    pub rel: String,
    pub to: String,
    pub acknowledged_revision: Option<String>,
    pub current_revision: String,
}

/// An endpoint of a finding.
pub struct FreshnessEndpoint {
    pub id: Option<String>,
    pub path: String,
    pub acknowledged_revision: String,
    pub current_revision: String,
}

/// A link whose endpoints or content changed since it was acknowledged.
pub struct RelationFreshnessDiagnostic {
    pub code: String,
    pub path: String,
    pub message: String,
    pub state: FreshnessState,
    pub relation: FreshnessRelation,
    pub source: FreshnessEndpoint,
    pub target: FreshnessEndpoint,
}

/// The current revision of a file, or the error text of reading it.
pub struct FileRevision {
    pub path: String,
    pub revision: Result<String, String>,
}

/// The revision recorded for `path` (the first entry for it); a missing
/// entry reads as an unreadable file.
pub open spec fn revision_of(revs: Seq<FileRevision>, path: Seq<char>) -> Result<Seq<char>, Seq<char>>
    decreases revs.len(),
{
    if revs.len() == 0 {
        Err("failed to read resource for fingerprint: "@ + path)
    } else if revs[0].path@ == path {
        crate::util::result_view(revs[0].revision)
    } else {
        revision_of(revs.drop_first(), path)
    }
}

/// What a finding states.
pub struct FindingView {
    pub path: Seq<char>,
    pub state: FreshnessState,
    pub rel: Seq<char>,
    pub to: Seq<char>,
    pub ack_link: Option<Seq<char>>,
    pub cur_link: Seq<char>,
    pub source_id: Option<Seq<char>>,
    pub source_path: Seq<char>,
    pub source_ack: Seq<char>,
    pub source_cur: Seq<char>,
    pub target_id: Option<Seq<char>>,
    pub target_path: Seq<char>,
    pub target_ack: Seq<char>,
    pub target_cur: Seq<char>,
}

/// The view of a finding; its code and message are fixed by its state.
pub open spec fn finding_view(d: RelationFreshnessDiagnostic) -> FindingView {
    FindingView {
        path: d.path@,
        state: d.state,
        rel: d.relation.rel@,
        to: d.relation.to@,
        ack_link: opt_view(d.relation.acknowledged_revision),
        cur_link: d.relation.current_revision@,
        source_id: opt_view(d.source.id),
        source_path: d.source.path@,
        source_ack: d.source.acknowledged_revision@,
        source_cur: d.source.current_revision@,
        target_id: opt_view(d.target.id),
        target_path: d.target.path@,
        target_ack: d.target.acknowledged_revision@,
        target_cur: d.target.current_revision@,
    }
}

/// The finding for link `l` of resource `r`: none when the link is not
/// acknowledged, unresolved, or unchanged; an error when a revision cannot
/// be read.
pub open spec fn link_finding(r: Resource, l: crate::model::ResolvedLink, revs: Seq<FileRevision>) -> Result<Option<FindingView>, Seq<char>> {
    match (l.acknowledged, l.target_path) {
        (Some(ack), Some(t)) => match revision_of(revs, r.path@) {
            Err(e) => Err(e),
            Ok(src) => match revision_of(revs, t@) {
                Err(e) => Err(e),
                Ok(tgt) => {
                    let lr = fingerprint_text(link_payload(l.rel@, l.to@, opt_view(l.reason)));
                    let lc = match ack.link_revision {
                        Some(a) => a@ != lr,
                        None => false,
                    };
                    match state_of(src != ack.source_revision@, tgt != ack.target_revision@, lc) {
                        None => Ok(None),
                        Some(st) => Ok(Some(FindingView {
                            path: match r.sidecar { Some(sp) => sp@, None => r.path@ },
                            state: st,
                            rel: l.rel@,
                            to: l.to@,
                            ack_link: opt_view(ack.link_revision),
                            cur_link: lr,
                            source_id: opt_view(r.id),
                            source_path: r.path@,
                            source_ack: ack.source_revision@,
                            source_cur: src,
                            target_id: opt_view(l.target_id),
                            target_path: t@,
                            target_ack: ack.target_revision@,
                            target_cur: tgt,
                        })),
                    }
                },
            },
        },
        _ => Ok(None),
    }
}

/// The findings for the links `links` of resource `r`, in order; the first
/// read error ends the check.
pub open spec fn links_findings(r: Resource, links: Seq<crate::model::ResolvedLink>, revs: Seq<FileRevision>) -> Result<Seq<FindingView>, Seq<char>>
    decreases links.len(),
{
    if links.len() == 0 {
        Ok(seq![])
    } else {
        match links_findings(r, links.drop_last(), revs) {
            Err(e) => Err(e),
            Ok(fs) => match link_finding(r, links.last(), revs) {
                Err(e) => Err(e),
                Ok(None) => Ok(fs),
                Ok(Some(x)) => Ok(fs.push(x)),
            },
        }
    }
}

/// The findings for all resources, in order.
pub open spec fn all_findings(resources: Seq<Resource>, revs: Seq<FileRevision>) -> Result<Seq<FindingView>, Seq<char>>
    decreases resources.len(),
{
    if resources.len() == 0 {
        Ok(seq![])
    } else {
        match all_findings(resources.drop_last(), revs) {
            Err(e) => Err(e),
            Ok(fs) => match links_findings(resources.last(), resources.last().links@, revs) {
                Err(e) => Err(e),
                Ok(more) => Ok(fs + more),
            },
        }
    }
}

proof fn lemma_links_err_stays(r: Resource, links: Seq<crate::model::ResolvedLink>, m: int, revs: Seq<FileRevision>)
    requires
        0 <= m <= links.len(),
        links_findings(r, links.take(m), revs) is Err,
    ensures
        links_findings(r, links.take(links.len() as int), revs) == links_findings(r, links.take(m), revs),
    decreases links.len() - m,
{
    if m < links.len() {
        assert(links.take(m + 1).drop_last() =~= links.take(m));
        lemma_links_err_stays(r, links, m + 1, revs);
    }
}

proof fn lemma_all_err_stays(resources: Seq<Resource>, m: int, revs: Seq<FileRevision>)
    requires
        0 <= m <= resources.len(),
        all_findings(resources.take(m), revs) is Err,
    ensures
        all_findings(resources.take(resources.len() as int), revs) == all_findings(resources.take(m), revs),
    decreases resources.len() - m,
{
    if m < resources.len() {
        assert(resources.take(m + 1).drop_last() =~= resources.take(m));
        lemma_all_err_stays(resources, m + 1, revs);
    }
}

/// The revision recorded for `path`.
fn lookup_revision(revs: &Vec<FileRevision>, path: &str) -> (r: Result<String, String>)
    ensures
        crate::util::result_view(r) == revision_of(revs@, path@),
{
    proof { reveal_strlit("failed to read resource for fingerprint: "); }
    let mut i: usize = 0;
    assert(revs@.skip(0) =~= revs@);
    while i < revs.len()
        invariant
            i <= revs.len(),
            revision_of(revs@, path@) == revision_of(revs@.skip(i as int), path@),
        decreases revs.len() - i,
    {
        assert(revs@.skip(i as int)[0] == revs@[i as int]);
        assert(revs@.skip(i as int).drop_first() =~= revs@.skip(i + 1));
        if crate::text::text_eq(revs[i].path.as_str(), path) {
            return match &revs[i].revision {
                Ok(v) => Ok(v.clone()),
                Err(e) => Err(e.clone()),
            };
        }
        i += 1;
    }
    Err(cat("failed to read resource for fingerprint: ", path))
}

/// The finding for one link.
fn check_link(r: &Resource, l: &crate::model::ResolvedLink, revs: &Vec<FileRevision>) -> (out: Result<Option<RelationFreshnessDiagnostic>, String>)
    ensures
        match link_finding(*r, *l, revs@) {
            Err(e) => out matches Err(m) && m@ == e,
            Ok(None) => out matches Ok(None),
            Ok(Some(v)) => out matches Ok(Some(d)) && finding_view(d) == v
                && d.code@ == "relation-review-required"@ && d.message@ == message_spec(d.state),
        },
{
    let (ack, t) = match (&l.acknowledged, &l.target_path) {
        (Some(a), Some(t)) => (a, t),
        _ => return Ok(None),
    };
    let src = match lookup_revision(revs, r.path.as_str()) {
        Ok(v) => v,
        Err(e) => return Err(e),
    };
    let tgt = match lookup_revision(revs, t.as_str()) {
        Ok(v) => v,
        Err(e) => return Err(e),
    };
    let reason: Option<&str> = match &l.reason {
        Some(x) => Some(x.as_str()),
        None => None,
    };
    let lr = fingerprint_link_revision(l.rel.as_str(), l.to.as_str(), reason);
    let lc = match &ack.link_revision {
        Some(a) => !crate::text::text_eq(a.as_str(), lr.as_str()),
        None => false,
    };
    let sc = !crate::text::text_eq(src.as_str(), ack.source_revision.as_str());
    let tc = !crate::text::text_eq(tgt.as_str(), ack.target_revision.as_str());
    match freshness_state(sc, tc, lc) {
        None => Ok(None),
        Some(state) => {
            let path = match &r.sidecar {
                Some(sp) => sp.clone(),
                None => r.path.clone(),
            };
            Ok(Some(RelationFreshnessDiagnostic {
                code: own(RELATION_REVIEW_REQUIRED),
                path,
                message: freshness_message(state),
                state,
                relation: FreshnessRelation {
                    rel: l.rel.clone(),
                    to: l.to.clone(),
                    acknowledged_revision: crate::model::copy_opt(&ack.link_revision),
                    current_revision: lr,
                },
                source: FreshnessEndpoint {
                    id: crate::model::copy_opt(&r.id),
                    path: r.path.clone(),
                    acknowledged_revision: ack.source_revision.clone(),
                    current_revision: src,
                },
                target: FreshnessEndpoint {
                    id: crate::model::copy_opt(&l.target_id),
                    path: t.clone(),
                    acknowledged_revision: ack.target_revision.clone(),
                    current_revision: tgt,
                },
            }))
        },
    }
}

/// The findings for the links of `r`, in order.
fn resource_findings(r: &Resource, revisions: &Vec<FileRevision>) -> (res: Result<Vec<RelationFreshnessDiagnostic>, String>)
    ensures
        match links_findings(*r, r.links@, revisions@) {
            Err(e) => res matches Err(m) && m@ == e,
            Ok(more) => res matches Ok(v) && v.len() == more.len()
                && forall|j: int| 0 <= j < more.len() ==> finding_view(#[trigger] v@[j]) == more[j]
                    && v@[j].code@ == "relation-review-required"@ && v@[j].message@ == message_spec(v@[j].state),
        },
{
    let mut out: Vec<RelationFreshnessDiagnostic> = Vec::new();
    let mut k: usize = 0;
    while k < r.links.len()
        invariant
            k <= r.links.len(),
            links_findings(*r, r.links@.take(k as int), revisions@) matches Ok(more) && out.len() == more.len()
                && forall|j: int| 0 <= j < out.len() ==> finding_view(#[trigger] out@[j]) == more[j]
                    && out@[j].code@ == "relation-review-required"@ && out@[j].message@ == message_spec(out@[j].state),
        decreases r.links.len() - k,
    {
        assert(r.links@.take(k + 1).drop_last() =~= r.links@.take(k as int));
        assert(r.links@.take(k + 1).last() == r.links@[k as int]);
        let ghost more0 = links_findings(*r, r.links@.take(k as int), revisions@)->Ok_0;
        let ghost out1 = out@;
        match check_link(r, &r.links[k], revisions) {
            Err(e) => {
                proof {
                    lemma_links_err_stays(*r, r.links@, k + 1, revisions@);
                    assert(r.links@.take(r.links.len() as int) =~= r.links@);
                }
                return Err(e);
            },
            Ok(None) => {},
            Ok(Some(d)) => {
                out.push(d);
                proof {
                    assert forall|j: int| 0 <= j < out.len() implies finding_view(#[trigger] out@[j]) == more0.push(finding_view(d))[j]
                        && out@[j].code@ == "relation-review-required"@ && out@[j].message@ == message_spec(out@[j].state) by {
                        if j < out1.len() {
                            assert(out@[j] == out1[j]);
                        }
                    }
                }
            },
        }
        k += 1;
    }
    assert(r.links@.take(r.links.len() as int) =~= r.links@);
    Ok(out)
}

/// The review findings of every acknowledged, resolved link whose source,
/// target or reviewed content changed, in resource and link order; fails
/// with the first revision that cannot be read.
pub fn validate_relation_freshness(resources: &Vec<Resource>, revisions: &Vec<FileRevision>) -> (r: Result<Vec<RelationFreshnessDiagnostic>, String>)
    ensures
        match all_findings(resources@, revisions@) {
            Err(e) => r matches Err(m) && m@ == e,
            Ok(fs) => r matches Ok(ds) && ds.len() == fs.len()
                && forall|j: int| 0 <= j < fs.len() ==> finding_view(#[trigger] ds@[j]) == fs[j]
                    && ds@[j].code@ == "relation-review-required"@ && ds@[j].message@ == message_spec(ds@[j].state),
        },
{
    let mut out: Vec<RelationFreshnessDiagnostic> = Vec::new();
    let mut i: usize = 0;
    while i < resources.len()
        invariant
            i <= resources.len(),
            all_findings(resources@.take(i as int), revisions@) matches Ok(fs) && out.len() == fs.len()
                && forall|j: int| 0 <= j < fs.len() ==> finding_view(#[trigger] out@[j]) == fs[j]
                    && out@[j].code@ == "relation-review-required"@ && out@[j].message@ == message_spec(out@[j].state),
        decreases resources.len() - i,
    {
        assert(resources@.take(i + 1).drop_last() =~= resources@.take(i as int));
        assert(resources@.take(i + 1).last() == resources@[i as int]);
        let ghost fs0 = all_findings(resources@.take(i as int), revisions@)->Ok_0;
        let ghost out0 = out@;
        match resource_findings(&resources[i], revisions) {
            Err(e) => {
                proof {
                    lemma_all_err_stays(resources@, i + 1, revisions@);
                    assert(resources@.take(resources.len() as int) =~= resources@);
                }
                return Err(e);
            },
            Ok(mut more) => {
                let ghost mv = more@;
                out.append(&mut more);
                proof {
                    let m = links_findings(resources@[i as int], resources@[i as int].links@, revisions@)->Ok_0;
                    assert forall|j: int| 0 <= j < out.len() implies finding_view(#[trigger] out@[j]) == (fs0 + m)[j]
                        && out@[j].code@ == "relation-review-required"@ && out@[j].message@ == message_spec(out@[j].state) by {
                        if j < out0.len() {
                            assert(out@[j] == out0[j]);
                        } else {
                            assert(out@[j] == mv[j - out0.len()]);
                        }
                    }
                }
            },
        }
        i += 1;
    }
    assert(resources@.take(resources.len() as int) =~= resources@);
    Ok(out)
}

/// The acknowledgement of a link: the current revisions of its source and
/// target files, and the reviewed link revision when one is recorded.
pub fn acknowledged_revisions(source_revision: String, target_revision: String, link_revision: Option<String>) -> (r: AcknowledgedRevisions)
    ensures
        r.source_revision == source_revision,
        r.target_revision == target_revision,
        r.link_revision == link_revision,
{
    AcknowledgedRevisions { source_revision, target_revision, link_revision }
}

} // verus!
