//! C2PA content-credential checker: JUMBF in JPEG APP11 segments, `caBX` and `iTXt` chunks
//! of PNG files.
//!
//! Tells presence, absence with traces of removal, and malformed manifests; presence is a
//! positive trust signal. Signatures are not verified.

use crate::bits::P60;
use crate::bits::P70;
use crate::bits::P95;
use crate::bytes::bytes_match_at;
use crate::bytes::contains_bytes;
use crate::context::Tag;
use crate::finding::group_values;
use crate::finding::plain_finding;
use crate::finding::values;
use crate::finding::Finding;
use crate::finding::FindingView;
use crate::finding::Severity;
use crate::jpeg::app11_from;
use crate::jpeg::app11_payloads;
use crate::jpeg::copy_range;
use crate::jpeg::payloads;
use crate::raster::png_signature;
use crate::text::any_in;
use crate::text::begins_with;
use crate::text::chars_contain;
use crate::text::chars_of;
use crate::text::contains_any;
use crate::text::join;
use crate::text::joined;
use crate::text::occurs_at;
use crate::text::occurs_in;
use crate::text::strings;
use crate::text::texts;
use crate::unicode::lossy;
use crate::unicode::lossy_chars;
use crate::unicode::lowercase;
use crate::unicode::lowered;
use vstd::prelude::*;
use vstd::string::*;

verus! {

/// The content-credential checker.
pub struct C2paChecker;

/// Whether a file carries content credentials.
pub enum C2paStatus {
    Present { claim_info: String },
    Absent,
    Malformed,
}

/// The value of a [`C2paStatus`].
pub ghost enum C2paView {
    Present(Seq<char>),
    Absent,
    Malformed,
}

impl View for C2paStatus {
    type V = C2paView;

    open spec fn view(&self) -> C2paView {
        match *self {
            C2paStatus::Present { claim_info } => C2paView::Present(claim_info@),
            C2paStatus::Absent => C2paView::Absent,
            C2paStatus::Malformed => C2paView::Malformed,
        }
    }
}

/// The UUID of a C2PA manifest store.
pub open spec fn store_uuid() -> Seq<u8> {
    seq![
        0x63u8, 0x32, 0x70, 0x61, 0x00, 0x11, 0x00, 0x10, 0x80, 0x00, 0x00, 0xAA, 0x00, 0x38, 0x9B, 0x71,
    ]
}

/// The UUID of a C2PA claim.
pub open spec fn claim_uuid() -> Seq<u8> {
    seq![
        0x63u8, 0x32, 0x63, 0x6C, 0x00, 0x11, 0x00, 0x10, 0x80, 0x00, 0x00, 0xAA, 0x00, 0x38, 0x9B, 0x71,
    ]
}

/// Whether a payload holds a C2PA UUID.
pub open spec fn holds_uuid(payload: Seq<u8>) -> bool {
    occurs_in(payload, store_uuid()) || occurs_in(payload, claim_uuid())
}

/// Whether a payload is of a JUMBF container.
pub open spec fn is_jumbf(payload: Seq<u8>) -> bool {
    holds_uuid(payload) || (payload.len() >= 2 && payload[0] == 0x4a && payload[1] == 0x50)
}

/// The payloads with a C2PA UUID among the first `n`, one after the other.
pub open spec fn manifest_data(p: Seq<Seq<u8>>, n: nat) -> Seq<u8>
    decreases n,
{
    if n == 0 {
        seq![]
    } else if holds_uuid(p[n - 1]) {
        manifest_data(p, (n - 1) as nat) + p[n - 1]
    } else {
        manifest_data(p, (n - 1) as nat)
    }
}

/// `part` where `present`, else nothing.
pub open spec fn part_if(present: bool, part: Seq<char>) -> Seq<Seq<char>> {
    if present {
        seq![part]
    } else {
        seq![]
    }
}

/// What a manifest's text tells of itself.
pub open spec fn claim_parts(t: Seq<char>) -> Seq<Seq<char>> {
    part_if(
        occurs_in(t, "c2pa.action"@) || occurs_in(t, "c2pa.claim"@),
        "C2PA claim manifest"@,
    ) + part_if(occurs_in(t, "dc:creator"@), "creator attribution present"@) + part_if(
        occurs_in(t, "stds.exif"@),
        "EXIF assertion present"@,
    ) + part_if(occurs_in(t, "c2pa.hash"@), "content hash binding"@)
}

/// A short description of a manifest.
pub open spec fn claim_info(data: Seq<u8>) -> Seq<char> {
    let parts = claim_parts(lossy_chars(data));
    if parts.len() == 0 {
        "C2PA JUMBF container detected"@
    } else {
        joined(parts, ", "@, parts.len())
    }
}

/// The status of a file with a manifest.
pub open spec fn manifest_status(data: Seq<u8>) -> C2paView {
    if claim_info(data).len() == 0 {
        C2paView::Malformed
    } else {
        C2paView::Present(claim_info(data))
    }
}

/// The status of a JPEG file.
pub open spec fn jpeg_status(d: Seq<u8>) -> C2paView {
    let p = app11_from(d, 2);
    if exists|k: int| 0 <= k < p.len() && is_jumbf(#[trigger] p[k]) {
        manifest_status(manifest_data(p, p.len()))
    } else {
        C2paView::Absent
    }
}

/// The 32-bit number at `pos`, high byte first.
pub open spec fn be32(d: Seq<u8>, pos: int) -> nat {
    d[pos] as nat * 0x100_0000 + d[pos + 1] as nat * 0x1_0000 + d[pos + 2] as nat * 0x100 + d[pos
        + 3] as nat
}

/// The data of the chunk at `pos`, as far as it is there.
pub open spec fn chunk_data(d: Seq<u8>, pos: int) -> Seq<u8> {
    let end = pos + 8 + be32(d, pos);
    d.subrange(
        pos + 8,
        if end < d.len() {
            end
        } else {
            d.len() as int
        },
    )
}

/// The chunk type `caBX`.
pub open spec fn cabx() -> Seq<u8> {
    seq![0x63u8, 0x61, 0x42, 0x58]
}

/// The chunk type `iTXt`.
pub open spec fn itxt() -> Seq<u8> {
    seq![0x69u8, 0x54, 0x58, 0x74]
}

/// The bytes `c2pa`.
pub open spec fn c2pa() -> Seq<u8> {
    seq![0x63u8, 0x32, 0x70, 0x61]
}

/// The status of a PNG file by its chunks from `pos` on.
pub open spec fn png_status(d: Seq<u8>, pos: int) -> C2paView
    decreases d.len() - pos,
{
    if pos < 0 || pos + 12 >= d.len() {
        C2paView::Absent
    } else if occurs_at(d, cabx(), pos + 4) {
        manifest_status(chunk_data(d, pos))
    } else if occurs_at(d, itxt(), pos + 4) && be32(d, pos) > 4 && occurs_in(
        chunk_data(d, pos),
        c2pa(),
    ) {
        C2paView::Present("C2PA manifest in iTXt chunk"@)
    } else if pos + 12 + be32(d, pos) >= d.len() {
        C2paView::Absent
    } else {
        png_status(d, pos + 12 + be32(d, pos))
    }
}

/// The status of a file.
pub open spec fn status_of(d: Seq<u8>) -> C2paView {
    if d.len() >= 2 && d[0] == 0xff && d[1] == 0xd8 {
        jpeg_status(d)
    } else if begins_with(d, png_signature()) {
        png_status(d, 8)
    } else {
        C2paView::Absent
    }
}

/// Words in the values of tags that tell of credentials.
pub open spec fn credential_words() -> Seq<Seq<char>> {
    seq!["c2pa"@, "content credentials"@, "jumbf"@]
}

/// Words in the values of software tags that tell of a tool for credentials.
pub open spec fn credential_tools() -> Seq<Seq<char>> {
    seq!["content authenticity"@, "cai "@, "verify"@]
}

/// Whether a tag tells of credentials.
pub open spec fn tells_of_credentials(t: Tag) -> bool {
    let v = lowercase(t.value@);
    any_in(v, credential_words()) || (occurs_in(lowercase(t.name@), "software"@) && any_in(
        v,
        credential_tools(),
    ))
}

/// The bytes `jumb`.
pub open spec fn jumb() -> Seq<u8> {
    seq![0x6au8, 0x75, 0x6d, 0x62]
}

/// The bytes `jumd`.
pub open spec fn jumd() -> Seq<u8> {
    seq![0x6au8, 0x75, 0x6d, 0x64]
}

/// The bytes `jums`.
pub open spec fn jums() -> Seq<u8> {
    seq![0x6au8, 0x75, 0x6d, 0x73]
}

/// Whether a file has traces of removed credentials.
pub open spec fn has_traces(d: Seq<u8>, tags: Seq<Tag>) -> bool {
    (exists|i: int| 0 <= i < tags.len() && tells_of_credentials(#[trigger] tags[i])) || occurs_in(
        d,
        jumb(),
    ) || occurs_in(d, jumd()) || occurs_in(d, jums())
}

/// The findings on a file.
pub open spec fn c2pa_findings(d: Seq<u8>, tags: Seq<Tag>) -> Seq<FindingView> {
    match status_of(d) {
        C2paView::Present(info) => seq![
            plain_finding(
                "c2pa"@,
                "c2pa_manifest_present"@,
                "C2PA content credentials found: "@ + info
                    + " - image has provenance information embedded (positive trust signal)"@,
                Severity::Info,
                P95,
            ),
        ],
        C2paView::Absent => if has_traces(d, tags) {
            seq![
                plain_finding(
                    "c2pa"@,
                    "c2pa_removed"@,
                    "Evidence of removed C2PA content credentials - provenance data was stripped, which is suspicious for claimed originals"@,
                    Severity::Medium,
                    P60,
                ),
            ]
        } else {
            seq![]
        },
        C2paView::Malformed => seq![
            plain_finding(
                "c2pa"@,
                "c2pa_malformed"@,
                "Malformed C2PA manifest detected - credentials are present but corrupted, possibly due to re-encoding or manipulation"@,
                Severity::Medium,
                P70,
            ),
        ],
    }
}

impl C2paChecker {
    /// Whether a payload holds the UUID of a manifest store or of a claim.
    pub fn contains_c2pa_uuid(payload: &[u8]) -> (r: bool)
        ensures
            r == holds_uuid(payload@),
    {
        let store: [u8; 16] = [
            0x63, 0x32, 0x70, 0x61, 0x00, 0x11, 0x00, 0x10, 0x80, 0x00, 0x00, 0xAA, 0x00, 0x38, 0x9B, 0x71,
        ];
        let claim: [u8; 16] = [
            0x63, 0x32, 0x63, 0x6C, 0x00, 0x11, 0x00, 0x10, 0x80, 0x00, 0x00, 0xAA, 0x00, 0x38, 0x9B, 0x71,
        ];
        assert(store@ =~= store_uuid());
        assert(claim@ =~= claim_uuid());
        contains_bytes(payload, store.as_slice()) || contains_bytes(payload, claim.as_slice())
    }

    /// A short description of a manifest.
    pub fn extract_basic_claim_info(&self, data: &[u8]) -> (r: String)
        ensures
            r@ == claim_info(data@),
    {
        let text = lossy(data);
        let t = chars_of(text.as_str());
        let mut parts: Vec<String> = Vec::new();
        if chars_contain(&t, &chars_of("c2pa.action")) || chars_contain(&t, &chars_of("c2pa.claim")) {
            parts.push("C2PA claim manifest".to_string());
        }
        if chars_contain(&t, &chars_of("dc:creator")) {
            parts.push("creator attribution present".to_string());
        }
        if chars_contain(&t, &chars_of("stds.exif")) {
            parts.push("EXIF assertion present".to_string());
        }
        if chars_contain(&t, &chars_of("c2pa.hash")) {
            parts.push("content hash binding".to_string());
        }
        assert(strings(parts@) =~= claim_parts(t@));
        if parts.len() == 0 {
            return "C2PA JUMBF container detected".to_string();
        }
        join(&parts, ", ", parts.len())
    }

    /// The status of a file with a manifest.
    fn manifest(&self, data: &[u8]) -> (r: C2paStatus)
        ensures
            r@ == manifest_status(data@),
    {
        let info = self.extract_basic_claim_info(data);
        if info.as_str().is_empty() {
            C2paStatus::Malformed
        } else {
            C2paStatus::Present { claim_info: info }
        }
    }

    /// The status of a JPEG file.
    pub fn detect_c2pa_jpeg(&self, data: &[u8]) -> (r: C2paStatus)
        ensures
            r@ == jpeg_status(data@),
    {
        let found = app11_payloads(data);
        let ghost p = app11_from(data@, 2);
        let mut any = false;
        let mut all: Vec<u8> = Vec::new();
        let mut k: usize = 0;
        while k < found.len()
            invariant
                k <= found@.len(),
                p == payloads(found@),
                any == exists|j: int| 0 <= j < k && is_jumbf(#[trigger] p[j]),
                all@ == manifest_data(p, k as nat),
            decreases found@.len() - k,
        {
            let payload = &found[k];
            assert(p[k as int] == payload@);
            let uuid = Self::contains_c2pa_uuid(payload.as_slice());
            if uuid {
                all.extend_from_slice(payload.as_slice());
                assert(all@ =~= manifest_data(p, k as nat) + p[k as int]);
            }
            if uuid || (payload.len() >= 2 && payload[0] == 0x4a && payload[1] == 0x50) {
                assert(is_jumbf(p[k as int]));
                any = true;
            }
            k += 1;
        }
        if any {
            self.manifest(all.as_slice())
        } else {
            C2paStatus::Absent
        }
    }

    /// The status of a PNG file.
    pub fn detect_c2pa_png(&self, data: &[u8]) -> (r: C2paStatus)
        ensures
            r@ == png_status(data@, 8),
    {
        let cabx_type: [u8; 4] = [0x63, 0x61, 0x42, 0x58];
        let itxt_type: [u8; 4] = [0x69, 0x54, 0x58, 0x74];
        let c2pa_name: [u8; 4] = [0x63, 0x32, 0x70, 0x61];
        assert(cabx_type@ =~= cabx());
        assert(itxt_type@ =~= itxt());
        assert(c2pa_name@ =~= c2pa());
        let mut pos: usize = 8;
        while pos < data.len() && data.len() - pos > 12
            invariant
                cabx_type@ == cabx(),
                itxt_type@ == itxt(),
                c2pa_name@ == c2pa(),
                png_status(data@, 8) == png_status(data@, pos as int),
            decreases data@.len() - pos,
        {
            let n: u64 = data[pos] as u64 * 0x100_0000 + data[pos + 1] as u64 * 0x1_0000 + data[pos
                + 2] as u64 * 0x100 + data[pos + 3] as u64;
            let room: usize = data.len() - pos - 8;
            let end: usize = if n < room as u64 {
                pos + 8 + n as usize
            } else {
                data.len()
            };
            let payload = copy_range(data, pos + 8, end);
            assert(payload@ == chunk_data(data@, pos as int));
            if bytes_match_at(data, cabx_type.as_slice(), pos + 4) {
                return self.manifest(payload.as_slice());
            }
            if bytes_match_at(data, itxt_type.as_slice(), pos + 4) && n > 4 && contains_bytes(
                payload.as_slice(),
                c2pa_name.as_slice(),
            ) {
                return C2paStatus::Present {
                    claim_info: "C2PA manifest in iTXt chunk".to_string(),
                };
            }
            if n >= (data.len() - pos - 12) as u64 {
                return C2paStatus::Absent;
            }
            pos = pos + 12 + n as usize;
        }
        C2paStatus::Absent
    }

    /// The status of a file.
    pub fn detect_c2pa(&self, raw_bytes: &[u8]) -> (r: C2paStatus)
        ensures
            r@ == status_of(raw_bytes@),
    {
        if raw_bytes.len() >= 2 && raw_bytes[0] == 0xff && raw_bytes[1] == 0xd8 {
            return self.detect_c2pa_jpeg(raw_bytes);
        }
        let png: [u8; 8] = [0x89, 0x50, 0x4e, 0x47, 0x0d, 0x0a, 0x1a, 0x0a];
        assert(png@ =~= png_signature());
        if bytes_match_at(raw_bytes, png.as_slice(), 0) {
            return self.detect_c2pa_png(raw_bytes);
        }
        C2paStatus::Absent
    }

    /// Whether a file has traces of removed credentials.
    pub fn detect_removed_c2pa(&self, raw_bytes: &[u8], tags: &Vec<Tag>) -> (r: bool)
        ensures
            r == has_traces(raw_bytes@, tags@),
    {
        let words: Vec<&'static str> = vec!["c2pa", "content credentials", "jumbf"];
        let tools: Vec<&'static str> = vec!["content authenticity", "cai ", "verify"];
        assert(texts(words@) =~= credential_words());
        assert(texts(tools@) =~= credential_tools());
        let software = chars_of("software");
        let mut i: usize = 0;
        while i < tags.len()
            invariant
                i <= tags@.len(),
                texts(words@) == credential_words(),
                texts(tools@) == credential_tools(),
                software@ == "software"@,
                forall|j: int| 0 <= j < i ==> !tells_of_credentials(#[trigger] tags@[j]),
            decreases tags@.len() - i,
        {
            let value = lowered(tags[i].value.as_str());
            let value = chars_of(value.as_str());
            let name = lowered(tags[i].name.as_str());
            let name = chars_of(name.as_str());
            if contains_any(&value, &words) || (chars_contain(&name, &software) && contains_any(
                &value,
                &tools,
            )) {
                assert(tells_of_credentials(tags@[i as int]));
                return true;
            }
            i += 1;
        }
        let b: [u8; 4] = [0x6a, 0x75, 0x6d, 0x62];
        let d: [u8; 4] = [0x6a, 0x75, 0x6d, 0x64];
        let s: [u8; 4] = [0x6a, 0x75, 0x6d, 0x73];
        assert(b@ =~= jumb());
        assert(d@ =~= jumd());
        assert(s@ =~= jums());
        contains_bytes(raw_bytes, b.as_slice()) || contains_bytes(raw_bytes, d.as_slice())
            || contains_bytes(raw_bytes, s.as_slice())
    }

    /// The findings on a file. Absence alone is no finding.
    pub fn analyze(&self, raw_bytes: &[u8], tags: &Vec<Tag>) -> (r: Vec<Finding>)
        ensures
            values(r@) == c2pa_findings(raw_bytes@, tags@),
    {
        broadcast use group_values;

        let mut r: Vec<Finding> = Vec::new();
        match self.detect_c2pa(raw_bytes) {
            C2paStatus::Present { claim_info } => {
                let mut d = "C2PA content credentials found: ".to_string();
                d.append(claim_info.as_str());
                d.append(" - image has provenance information embedded (positive trust signal)");
                r.push(Finding::new("c2pa", "c2pa_manifest_present", d, Severity::Info, P95));
            },
            C2paStatus::Absent => {
                if self.detect_removed_c2pa(raw_bytes, tags) {
                    let d =
                        "Evidence of removed C2PA content credentials - provenance data was stripped, which is suspicious for claimed originals".to_string();
                    r.push(Finding::new("c2pa", "c2pa_removed", d, Severity::Medium, P60));
                }
            },
            C2paStatus::Malformed => {
                let d =
                    "Malformed C2PA manifest detected - credentials are present but corrupted, possibly due to re-encoding or manipulation".to_string();
                r.push(Finding::new("c2pa", "c2pa_malformed", d, Severity::Medium, P70));
            },
        }
        assert(values(r@) =~= c2pa_findings(raw_bytes@, tags@));
        r
    }
}

/// A description of a manifest is never empty, so no manifest is taken for malformed.
pub proof fn law_claim_info_not_empty(data: Seq<u8>)
    ensures
        claim_info(data).len() > 0,
        manifest_status(data) == C2paView::Present(claim_info(data)),
{
    reveal_strlit("C2PA JUMBF container detected");
    reveal_strlit("C2PA claim manifest");
    reveal_strlit("creator attribution present");
    reveal_strlit("EXIF assertion present");
    reveal_strlit("content hash binding");
    let parts = claim_parts(lossy_chars(data));
    if parts.len() > 0 {
        assert(parts[0].len() > 0);
        lemma_joined_long(parts, ", "@, parts.len());
    }
}

proof fn lemma_joined_long(t: Seq<Seq<char>>, separator: Seq<char>, n: nat)
    requires
        1 <= n <= t.len(),
    ensures
        joined(t, separator, n).len() >= t[0].len(),
    decreases n,
{
    if n > 1 {
        lemma_joined_long(t, separator, (n - 1) as nat);
    }
}

/// A payload holds a manifest where one of the two identifiers of C2PA occurs in it: that of
/// the store or that of a claim, which differ in their third and fourth bytes.
pub proof fn law_identifiers(payload: Seq<u8>)
    ensures
        holds_uuid(payload) <==> occurs_in(payload, store_uuid()) || occurs_in(payload, claim_uuid()),
        store_uuid().len() == 16,
        claim_uuid() == store_uuid().update(2, 0x63).update(3, 0x6C),
{
    assert(claim_uuid() =~= store_uuid().update(2, 0x63).update(3, 0x6C));
}

/// Four bytes of a chunk are a number, the most significant first.
pub proof fn law_chunk_length(d: Seq<u8>, pos: int, v: nat)
    requires
        v < 0x1_0000_0000,
        d[pos] == v / 0x100_0000,
        d[pos + 1] == v / 0x1_0000 % 0x100,
        d[pos + 2] == v / 0x100 % 0x100,
        d[pos + 3] == v % 0x100,
    ensures
        be32(d, pos) == v,
{
}

/// The place of the `k`-th chunk from a place on: each takes twelve bytes and its data.
pub open spec fn chunk_place(d: Seq<u8>, pos: int, k: nat) -> int
    decreases k,
{
    if k == 0 {
        pos
    } else {
        chunk_place(d, pos + 12 + be32(d, pos), (k - 1) as nat)
    }
}

/// A chunk of the type `caBX` is found however many chunks stand before it: the file is not
/// taken for one without credentials.
pub proof fn law_manifest_chunk_is_found(d: Seq<u8>, pos: int, k: nat)
    requires
        0 <= pos,
        chunk_place(d, pos, k) + 12 < d.len(),
        occurs_at(d, seq![99u8, 97, 66, 88], chunk_place(d, pos, k) + 4),
    ensures
        !(png_status(d, pos) is Absent),
    decreases k,
{
    assert(cabx() =~= seq![99u8, 97, 66, 88]);
    if k > 0 {
        let next = pos + 12 + be32(d, pos);
        lemma_places_ascend(d, next, (k - 1) as nat);
        law_manifest_chunk_is_found(d, next, (k - 1) as nat);
    }
}

proof fn lemma_places_ascend(d: Seq<u8>, pos: int, k: nat)
    ensures
        chunk_place(d, pos, k) >= pos,
    decreases k,
{
    if k > 0 {
        lemma_places_ascend(d, pos + 12 + be32(d, pos), (k - 1) as nat);
    }
}

/// A JPEG file has credentials where a segment holds a container: an identifier, or the bytes
/// `JP` at its beginning. They are malformed only where nothing can be said of them.
pub proof fn law_jpeg_credentials(d: Seq<u8>)
    ensures
        ({
            let p = app11_from(d, 2);
            jpeg_status(d) is Absent <==> forall|k: int|
                0 <= k < p.len() ==> !occurs_in(#[trigger] p[k], store_uuid()) && !occurs_in(
                    p[k],
                    claim_uuid(),
                ) && !(p[k].len() >= 2 && p[k][0] == 74 && p[k][1] == 80)
        }),
{
    let p = app11_from(d, 2);
    if jpeg_status(d) is Absent {
        assert forall|k: int| 0 <= k < p.len() implies !occurs_in(#[trigger] p[k], store_uuid())
            && !occurs_in(p[k], claim_uuid()) && !(p[k].len() >= 2 && p[k][0] == 74 && p[k][1]
            == 80) by {
            assert(!is_jumbf(p[k]));
        }
    }
}

/// What a manifest tells: of a claim or an action, of a creator, of EXIF data, and of a hash.
pub proof fn law_claim_parts(t: Seq<char>)
    ensures
        claim_parts(t).contains("C2PA claim manifest"@) <== occurs_in(t, "c2pa.claim"@),
        claim_parts(t).contains("C2PA claim manifest"@) <== occurs_in(t, "c2pa.action"@),
        claim_parts(t).contains("creator attribution present"@) <== occurs_in(t, "dc:creator"@),
        claim_parts(t).contains("EXIF assertion present"@) <== occurs_in(t, "stds.exif"@),
        claim_parts(t).contains("content hash binding"@) <== occurs_in(t, "c2pa.hash"@),
        claim_parts(t).len() == (if occurs_in(t, "c2pa.claim"@) || occurs_in(t, "c2pa.action"@) {
            1int
        } else {
            0
        }) + (if occurs_in(t, "dc:creator"@) {
            1int
        } else {
            0
        }) + (if occurs_in(t, "stds.exif"@) {
            1int
        } else {
            0
        }) + (if occurs_in(t, "c2pa.hash"@) {
            1int
        } else {
            0
        }),
{
    let a = part_if(
        occurs_in(t, "c2pa.action"@) || occurs_in(t, "c2pa.claim"@),
        "C2PA claim manifest"@,
    );
    let b = part_if(occurs_in(t, "dc:creator"@), "creator attribution present"@);
    let c = part_if(occurs_in(t, "stds.exif"@), "EXIF assertion present"@);
    let e = part_if(occurs_in(t, "c2pa.hash"@), "content hash binding"@);
    let all = claim_parts(t);
    assert(all == a + b + c + e);
    if a.len() > 0 {
        assert(all[0] == a[0]);
    }
    if b.len() > 0 {
        assert(all[a.len() as int] == b[0]);
    }
    if c.len() > 0 {
        assert(all[(a.len() + b.len()) as int] == c[0]);
    }
    if e.len() > 0 {
        assert(all[(a.len() + b.len() + c.len()) as int] == e[0]);
    }
}

/// Credentials are told as information; malformed ones and traces of removed ones are of
/// medium severity. Traces count only where there are no credentials.
pub proof fn law_credential_findings(d: Seq<u8>, tags: Seq<Tag>)
    ensures
        ({
            let f = c2pa_findings(d, tags);
            let traces = (exists|i: int|
                0 <= i < tags.len() && tells_of_credentials(#[trigger] tags[i])) || occurs_in(
                d,
                seq![106u8, 117, 109, 98],
            ) || occurs_in(d, seq![106u8, 117, 109, 100]) || occurs_in(
                d,
                seq![106u8, 117, 109, 115],
            );
            match status_of(d) {
                C2paView::Present(_) => f.len() == 1 && f[0].code == "c2pa_manifest_present"@
                    && f[0].severity == Severity::Info,
                C2paView::Malformed => f.len() == 1 && f[0].code == "c2pa_malformed"@
                    && f[0].severity == Severity::Medium,
                C2paView::Absent => f.len() == (if traces {
                    1int
                } else {
                    0
                }) && (traces ==> f[0].code == "c2pa_removed"@ && f[0].severity
                    == Severity::Medium),
            }
        }),
{
    assert(jumb() =~= seq![106u8, 117, 109, 98]);
    assert(jumd() =~= seq![106u8, 117, 109, 100]);
    assert(jums() =~= seq![106u8, 117, 109, 115]);
}

/// A tag tells of credentials where its value names them, or where it is of software and
/// names a tool for them.
pub proof fn law_credential_tags(t: Tag)
    ensures
        ({
            let v = lowercase(t.value@);
            tells_of_credentials(t) <==> occurs_in(v, "c2pa"@) || occurs_in(
                v,
                "content credentials"@,
            ) || occurs_in(v, "jumbf"@) || (occurs_in(lowercase(t.name@), "software"@) && (
            occurs_in(v, "content authenticity"@) || occurs_in(v, "cai "@) || occurs_in(
                v,
                "verify"@,
            )))
        }),
{
    let a = credential_words();
    let b = credential_tools();
    assert(a[0] == "c2pa"@ && a[1] == "content credentials"@ && a[2] == "jumbf"@);
    assert(b[0] == "content authenticity"@ && b[1] == "cai "@ && b[2] == "verify"@);
}

/// Files are told apart by how they begin: a JPEG by its segments, a PNG by its chunks.
pub proof fn law_credentials_by_format(d: Seq<u8>)
    ensures
        d.len() >= 2 && d[0] == 255 && d[1] == 216 ==> status_of(d) == jpeg_status(d),
        begins_with(d, seq![137u8, 80, 78, 71, 13, 10, 26, 10]) ==> status_of(d) == png_status(d, 8),
{
    let p = seq![137u8, 80, 78, 71, 13, 10, 26, 10];
    assert(png_signature() =~= p);
    if begins_with(d, p) {
        assert(d.subrange(0, 8)[0] == d[0]);
    }
}

/// A payload is one of boxes where it holds an identifier, or begins with the letters of one.
pub proof fn law_jumbf(payload: Seq<u8>)
    ensures
        is_jumbf(payload) <==> holds_uuid(payload) || (payload.len() > 1 && payload[0] == 74
            && payload[1] == 80),
{
}

/// The manifest is made of the payloads that hold an identifier, in turn.
pub proof fn law_manifest(p: Seq<Seq<u8>>, n: nat)
    requires
        n < p.len(),
    ensures
        manifest_data(p, 0).len() == 0,
        holds_uuid(p[n as int]) ==> manifest_data(p, n + 1) == manifest_data(p, n) + p[n as int],
        !holds_uuid(p[n as int]) ==> manifest_data(p, n + 1) == manifest_data(p, n),
{
}

/// The data of a chunk begins behind its length and name, and ends with the file at the latest.
pub proof fn law_chunk_data(d: Seq<u8>, pos: int)
    requires
        0 <= pos,
        pos + 8 <= d.len(),
    ensures
        chunk_data(d, pos) == d.subrange(
            pos + 8,
            if be32(d, pos) <= d.len() - pos - 8 {
                pos + 8 + be32(d, pos)
            } else {
                d.len() as int
            },
        ),
{
}

/// Traces are a tag that tells of credentials, or the letters of a box anywhere.
pub proof fn law_traces(d: Seq<u8>, tags: Seq<Tag>, i: int, at: int)
    ensures
        0 <= i < tags.len() && tells_of_credentials(tags[i]) ==> has_traces(d, tags),
        0 <= at && at + 4 <= d.len() && d[at] == 106 && d[at + 1] == 117 && d[at + 2] == 109 && (d[at
            + 3] == 98 || d[at + 3] == 100 || d[at + 3] == 115) ==> has_traces(d, tags),
        has_traces(d, tags) && !(exists|k: int|
            0 <= k < tags.len() && tells_of_credentials(#[trigger] tags[k])) ==> exists|k: int|
            #![trigger d[k]]
            0 <= k && k + 4 <= d.len() && d[k] == 106 && d[k + 1] == 117 && d[k + 2] == 109 && (d[k
                + 3] == 98 || d[k + 3] == 100 || d[k + 3] == 115),
{
    if 0 <= at && at + 4 <= d.len() && d[at] == 106 && d[at + 1] == 117 && d[at + 2] == 109 {
        let s = d.subrange(at, at + 4);
        if d[at + 3] == 98 {
            assert(s =~= jumb());
            assert(crate::text::occurs_at(d, jumb(), at));
        } else if d[at + 3] == 100 {
            assert(s =~= jumd());
            assert(crate::text::occurs_at(d, jumd(), at));
        } else if d[at + 3] == 115 {
            assert(s =~= jums());
            assert(crate::text::occurs_at(d, jums(), at));
        }
    }
    if has_traces(d, tags) && !(exists|k: int|
        0 <= k < tags.len() && tells_of_credentials(#[trigger] tags[k])) {
        let key = if occurs_in(d, jumb()) {
            jumb()
        } else if occurs_in(d, jumd()) {
            jumd()
        } else {
            jums()
        };
        let k = choose|k: int| crate::text::occurs_at(d, key, k);
        let s = d.subrange(k, k + 4);
        assert(s =~= key);
        assert(d[k] == s[0] && d[k + 1] == s[1] && d[k + 2] == s[2] && d[k + 3] == s[3]);
    }
}

} // verus!
