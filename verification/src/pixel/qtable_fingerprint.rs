//! JPEG quantization-table source fingerprinting.
//!
//! Different cameras and editors ship different JPEG quantization tables. A table
//! that matches no standard profile, or an unusual luma/chroma ratio, points at
//! editing software.

use crate::bits::P50;
use crate::bits::P60;
use crate::bits::P65;
use crate::finding::group_values;
use crate::finding::plain_finding;
use crate::finding::values;
use crate::finding::Finding;
use crate::finding::FindingView;
use crate::finding::Severity;
use crate::grid::clamped;
use crate::jpeg::extract_quantization_tables;
use crate::jpeg::standard_luma;
use crate::jpeg::standard_table;
use crate::jpeg::tables;
use crate::jpeg::tables_from;
use crate::jpeg::Table;
use crate::select::total;
use crate::text::contains;
use crate::text::occurs_in;
use vstd::prelude::*;
use vstd::string::*;

verus! {

/// The quantization-table analyzer.
pub struct QtableFingerprintAnalyzer;

/// The quantization tables of a JPEG file.
pub fn extract_qtables(data: &[u8]) -> (r: Vec<Table>)
    ensures
        tables(r@) == tables_from(data@, 2),
{
    extract_quantization_tables(data)
}

/// The factor, in percent, that a quality scales the standard table by.
pub open spec fn scale_of(quality: int) -> int {
    if quality < 50 {
        5000int / quality
    } else {
        200 - quality * 2
    }
}

/// A table scaled to a quality.
pub open spec fn scaled_table(base: Seq<u16>, quality: int) -> Seq<u16> {
    Seq::new(
        64,
        |i: int| clamped((base[i] as int * scale_of(quality) + 50) / 100, 1, 255) as u16,
    )
}

/// Scales a table to a quality from 1 to 100.
pub fn scale_qtable(base: &Table, quality: u32) -> (r: Table)
    requires
        1 <= quality <= 100,
    ensures
        r@ == scaled_table(base@, quality as int),
{
    let scale: u32 = if quality < 50 {
        5000 / quality
    } else {
        200 - quality * 2
    };
    proof {
        assert(0 <= scale <= 5000) by (nonlinear_arith)
            requires
                1 <= quality <= 100,
                scale == (if quality < 50 {
                    5000int / (quality as int)
                } else {
                    200 - quality * 2
                }),
        ;
    }
    let mut r: Table = [0u16;64];
    let mut i: usize = 0;
    while i < 64
        invariant
            i <= 64,
            0 <= scale <= 5000,
            scale == scale_of(quality as int),
            forall|j: int|
                0 <= j < i ==> r@[j] == #[trigger] scaled_table(base@, quality as int)[j],
        decreases 64 - i,
    {
        proof {
            assert(0 <= base@[i as int] * scale <= 65535 * 5000) by (nonlinear_arith)
                requires
                    0 <= base@[i as int] <= 65535,
                    0 <= scale <= 5000,
            ;
        }
        let v: u32 = (base[i] as u32 * scale + 50) / 100;
        let c: u32 = if v < 1 {
            1
        } else if v > 255 {
            255
        } else {
            v
        };
        r[i] = c as u16;
        i += 1;
    }
    proof {
        assert(r@ =~= scaled_table(base@, quality as int));
    }
    r
}

/// The standard table at the qualities 1, 6, 11, .. 96, which a table is compared with.
pub open spec fn profiles() -> Seq<Seq<u16>> {
    Seq::new(20, |k: int| scaled_table(standard_luma(), 1 + 5 * k))
}

/// The standard table at twenty qualities.
pub fn standard_profiles() -> (r: Vec<Table>)
    ensures
        tables(r@) == profiles(),
{
    let base: Table = standard_table();
    let mut r: Vec<Table> = Vec::new();
    let mut k: u32 = 0;
    while k < 20
        invariant
            k <= 20,
            base@ == standard_luma(),
            tables(r@) =~= profiles().take(k as int),
        decreases 20 - k,
    {
        let t: Table = scale_qtable(&base, 1 + 5 * k);
        let ghost prev = r@;
        r.push(t);
        proof {
            assert(profiles()[k as int] == t@);
            assert(tables(r@) =~= tables(prev).push(t@));
        }
        k += 1;
    }
    proof {
        assert(tables(r@) =~= profiles());
    }
    r
}

/// The smallest of the first `n` entries, or `top` if there is none.
pub open spec fn smallest(t: Seq<u16>, n: nat, top: u16) -> u16
    decreases n,
{
    if n == 0 {
        top
    } else {
        let m = smallest(t, (n - 1) as nat, top);
        if t[n - 1] < m {
            t[n - 1]
        } else {
            m
        }
    }
}

/// The largest of the first `n` entries.
pub open spec fn largest(t: Seq<u16>, n: nat) -> u16
    decreases n,
{
    if n == 0 {
        0
    } else {
        let m = largest(t, (n - 1) as nat);
        if t[n - 1] > m {
            t[n - 1]
        } else {
            m
        }
    }
}

/// A table is flat: its largest entry is less than one and a half times its smallest
/// one, which counts as one if it is zero.
pub open spec fn is_flat(t: Seq<u16>) -> bool {
    let lo = smallest(t, 64, u16::MAX);
    let hi = largest(t, 64);
    hi > 0 && 2 * hi < 3 * (if lo < 1 {
        1
    } else {
        lo as int
    })
}

/// What a table's entries tell about its origin.
pub open spec fn origin_of(t: Seq<u16>) -> Option<Seq<char>> {
    if t[0] == 2 && t[1] == 1 && t[2] == 1 {
        Some("Adobe Photoshop (high quality)"@)
    } else if is_flat(t) {
        Some("image editor (flat Q-table)"@)
    } else {
        None
    }
}

/// The value of an optional text.
pub open spec fn optional(t: Option<&'static str>) -> Option<Seq<char>> {
    match t {
        Some(s) => Some(s@),
        None => None,
    }
}

/// Identifies the origin of a table.
pub fn identify_qtable_origin(qtable: &Table) -> (r: Option<&'static str>)
    ensures
        optional(r) == origin_of(qtable@),
{
    // Photoshop's high-quality tables start with a distinctive low triple.
    if qtable[0] == 2 && qtable[1] == 1 && qtable[2] == 1 {
        return Some("Adobe Photoshop (high quality)");
    }
    let mut lo: u16 = u16::MAX;
    let mut hi: u16 = 0;
    let mut i: usize = 0;
    while i < 64
        invariant
            i <= 64,
            lo == smallest(qtable@, i as nat, u16::MAX),
            hi == largest(qtable@, i as nat),
        decreases 64 - i,
    {
        if qtable[i] < lo {
            lo = qtable[i];
        }
        if qtable[i] > hi {
            hi = qtable[i];
        }
        i += 1;
    }
    let floor: u32 = if lo < 1 {
        1
    } else {
        lo as u32
    };
    if hi > 0 && 2 * (hi as u32) < 3 * floor {
        return Some("image editor (flat Q-table)");
    }
    None
}

/// The sum of the first `n` entries.
pub open spec fn table_sum(t: Seq<u16>, n: nat) -> int
    decreases n,
{
    if n == 0 {
        0
    } else {
        table_sum(t, (n - 1) as nat) + t[n - 1]
    }
}

/// Adds up a table.
pub fn sum_table(t: &Table) -> (r: u32)
    ensures
        r == table_sum(t@, 64),
{
    let mut s: u32 = 0;
    let mut i: usize = 0;
    while i < 64
        invariant
            i <= 64,
            s <= i * 65535,
            s == table_sum(t@, i as nat),
        decreases 64 - i,
    {
        s += t[i] as u32;
        i += 1;
    }
    s
}

/// Below this similarity a table matches no standard profile, as a key: 0.5.
pub const STANDARD_SIMILARITY: i64 = 0x3FE0_0000_0000_0000;

/// The finding on a table that matches no standard profile.
pub open spec fn non_standard_finding(similarity: Seq<char>, origin: Option<Seq<char>>) -> FindingView {
    plain_finding(
        "qtable_fingerprint"@,
        "qtable_non_standard"@,
        "JPEG quantization table does not match standard IJG/camera profiles (similarity "@
            + similarity
            + "%) - indicates image processing software or editing tool was used"@ + (match origin {
            Some(o) => ", Q-table consistent with "@ + o,
            None => Seq::empty(),
        }),
        Severity::Info,
        P60,
    )
}

/// The finding on a table that an editor writes.
pub open spec fn editor_finding(origin: Seq<char>) -> FindingView {
    plain_finding(
        "qtable_fingerprint"@,
        "qtable_editor_signature"@,
        "JPEG quantization table matches "@ + origin
            + " - image was processed by editing software"@,
        Severity::Low,
        P65,
    )
}

/// The finding on an unusual ratio of the first two tables.
pub open spec fn chroma_finding(ratio: Seq<char>) -> FindingView {
    plain_finding(
        "qtable_fingerprint"@,
        "qtable_unusual_chroma_ratio"@,
        "Unusual luminance/chrominance Q-table ratio ("@ + ratio
            + ") - non-standard JPEG encoder or custom processing pipeline"@,
        Severity::Low,
        P50,
    )
}

/// The sum of the second table relative to that of the first lies outside 0.8 to 3.5.
pub open spec fn unusual_chroma(t: Seq<Seq<u16>>) -> bool {
    t.len() >= 2 && ({
        let luma = table_sum(t[0], 64);
        let chroma = table_sum(t[1], 64);
        luma > 0 && (10 * chroma < 8 * luma || 2 * chroma > 7 * luma)
    })
}

/// The report on a file's tables.
pub open spec fn qtable_findings(
    t: Seq<Seq<u16>>,
    similarity: i64,
    similarity_text: Seq<char>,
    ratio_text: Seq<char>,
) -> Seq<FindingView> {
    if t.len() == 0 {
        Seq::empty()
    } else {
        let origin = origin_of(t[0]);
        (if similarity < STANDARD_SIMILARITY {
            seq![non_standard_finding(similarity_text, origin)]
        } else {
            Seq::empty()
        }) + (match origin {
            Some(o) => if occurs_in(o, "Photoshop"@) || occurs_in(o, "editor"@) {
                seq![editor_finding(o)]
            } else {
                Seq::empty()
            },
            None => Seq::empty(),
        }) + (if unusual_chroma(t) {
            seq![chroma_finding(ratio_text)]
        } else {
            Seq::empty()
        })
    }
}

/// The tables that are looked at: none unless the data starts as a JPEG file does.
pub open spec fn fingerprint_tables(d: Seq<u8>) -> Seq<Seq<u16>> {
    if d.len() < 4 || d[0] != 0xFF || d[1] != 0xD8 {
        Seq::empty()
    } else {
        tables_from(d, 2)
    }
}

impl QtableFingerprintAnalyzer {
    /// The quantization tables of a JPEG file; none for other data.
    pub fn tables_of(&self, raw: &[u8]) -> (r: Vec<Table>)
        ensures
            tables(r@) == fingerprint_tables(raw@),
    {
        if raw.len() < 4 || raw[0] != 0xFF || raw[1] != 0xD8 {
            let r: Vec<Table> = Vec::new();
            proof {
                assert(tables(r@) =~= Seq::empty());
            }
            return r;
        }
        extract_qtables(raw)
    }

    /// Reports on a file's tables. `similarity` is the key of the best correlation of
    /// the first table with the standard profiles, `similarity_text` the same in
    /// percent without decimals, and `ratio_text` the sum of the second table over that
    /// of the first with two decimals.
    pub fn report(
        &self,
        found: &Vec<Table>,
        similarity: i64,
        similarity_text: &str,
        ratio_text: &str,
    ) -> (r: Vec<Finding>)
        ensures
            values(r@) == qtable_findings(
                tables(found@),
                similarity,
                similarity_text@,
                ratio_text@,
            ),
    {
        broadcast use group_values;

        let mut r: Vec<Finding> = Vec::new();
        if found.len() == 0 {
            return r;
        }
        proof {
            assert(tables(found@)[0] == found@[0]@);
        }
        let origin = identify_qtable_origin(&found[0]);
        if similarity < STANDARD_SIMILARITY {
            let mut s =
                "JPEG quantization table does not match standard IJG/camera profiles (similarity ".to_string();
            s.append(similarity_text);
            s.append("%) - indicates image processing software or editing tool was used");
            match origin {
                Some(o) => {
                    let mut t = ", Q-table consistent with ".to_string();
                    t.append(o);
                    s.append(t.as_str());
                },
                None => {
                    let t = String::new();
                    s.append(t.as_str());
                },
            }
            r.push(
                Finding::new(
                    "qtable_fingerprint",
                    "qtable_non_standard",
                    s,
                    Severity::Info,
                    P60,
                ),
            );
        }
        match origin {
            Some(o) => {
                if contains(o, "Photoshop") || contains(o, "editor") {
                    let mut s = "JPEG quantization table matches ".to_string();
                    s.append(o);
                    s.append(" - image was processed by editing software");
                    r.push(
                        Finding::new(
                            "qtable_fingerprint",
                            "qtable_editor_signature",
                            s,
                            Severity::Low,
                            P65,
                        ),
                    );
                }
            },
            None => {},
        }
        if found.len() >= 2 {
            proof {
                assert(tables(found@)[1] == found@[1]@);
            }
            let luma: u32 = sum_table(&found[0]);
            let chroma: u32 = sum_table(&found[1]);
            let l: u64 = luma as u64;
            let c: u64 = chroma as u64;
            if l > 0 && (10 * c < 8 * l || 2 * c > 7 * l) {
                let mut s = "Unusual luminance/chrominance Q-table ratio (".to_string();
                s.append(ratio_text);
                s.append(") - non-standard JPEG encoder or custom processing pipeline");
                r.push(
                    Finding::new(
                        "qtable_fingerprint",
                        "qtable_unusual_chroma_ratio",
                        s,
                        Severity::Low,
                        P50,
                    ),
                );
            }
        }
        proof {
            assert(values(r@) =~= qtable_findings(
                tables(found@),
                similarity,
                similarity_text@,
                ratio_text@,
            ));
        }
        r
    }
}

/// A table is scaled by 5000 over the quality below fifty, and by 200 less twice the quality
/// from there on: it stays as it is at fifty, doubles at 25, and is flat at a hundred.
pub proof fn law_table_scale(base: Seq<u16>, quality: int, i: int)
    requires
        1 <= quality <= 100,
        0 <= i < 64,
    ensures
        scale_of(50) == 100,
        scale_of(25) == 200,
        scale_of(100) == 0,
        quality < 50 ==> scale_of(quality) * quality <= 5000 < (scale_of(quality) + 1) * quality,
        quality >= 50 ==> scale_of(quality) + 2 * quality == 200,
        scaled_table(base, quality).len() == 64,
        1 <= scaled_table(base, quality)[i] <= 255,
        scaled_table(base, 100)[i] == 1,
        1 <= base[i] <= 255 ==> scaled_table(base, 50)[i] == base[i],
{
    if quality < 50 {
        vstd::arithmetic::div_mod::lemma_fundamental_div_mod(5000, quality);
        vstd::arithmetic::div_mod::lemma_mod_bound(5000, quality);
        let s = 5000int / quality;
        assert(s * quality <= 5000 < (s + 1) * quality) by (nonlinear_arith)
            requires
                5000 == quality * s + 5000int % quality,
                0 <= 5000int % quality < quality,
        ;
    }
    let (v, half, full) = (base[i] as int, scale_of(50), scale_of(100));
    assert(v * half == 100 * v && v * full == 0) by (nonlinear_arith)
        requires
            half == 100,
            full == 0,
    ;
}

/// A higher quality never has a larger step.
pub proof fn law_quality_lowers_steps(base: Seq<u16>, low: int, high: int, i: int)
    requires
        1 <= low <= high <= 100,
        0 <= i < 64,
    ensures
        scaled_table(base, high)[i] <= scaled_table(base, low)[i],
{
    if high < 50 {
        assert(5000int / high <= 5000int / low) by (nonlinear_arith)
            requires
                1 <= low <= high,
        ;
    } else if low < 50 {
        assert(5000int / low >= 100) by (nonlinear_arith)
            requires
                1 <= low < 50,
        ;
    }
    let (a, b) = (scale_of(high), scale_of(low));
    assert(a <= b);
    let v = base[i] as int;
    assert(v * a <= v * b) by (nonlinear_arith)
        requires
            a <= b,
            v >= 0,
    ;
    assert((v * a + 50) / 100 <= (v * b + 50) / 100);
}

/// Tables are held against the standard one at twenty qualities, from one on and five apart.
pub proof fn law_profiles(k: int)
    requires
        0 <= k < 20,
    ensures
        profiles().len() == 20,
        profiles()[k] == scaled_table(standard_luma(), 5 * k + 1),
{
}

/// The smallest and the largest step of a table bound all others, and are among them.
pub proof fn law_smallest_and_largest(t: Seq<u16>, n: nat, i: int)
    requires
        0 <= i < n <= t.len(),
    ensures
        smallest(t, n, u16::MAX) <= t[i] <= largest(t, n),
        exists|j: int| 0 <= j < n && #[trigger] t[j] == smallest(t, n, u16::MAX),
        exists|j: int| 0 <= j < n && #[trigger] t[j] == largest(t, n),
    decreases n,
{
    let m = (n - 1) as nat;
    assert(smallest(t, 0, u16::MAX) == u16::MAX && largest(t, 0) == 0);
    if m > 0 {
        law_smallest_and_largest(t, m, if i < m {
            i
        } else {
            0
        });
        let a = choose|j: int| 0 <= j < m && #[trigger] t[j] == smallest(t, m, u16::MAX);
        let b = choose|j: int| 0 <= j < m && #[trigger] t[j] == largest(t, m);
        assert(t[a] == smallest(t, n, u16::MAX) || t[n - 1] == smallest(t, n, u16::MAX));
        assert(t[b] == largest(t, n) || t[n - 1] == largest(t, n));
    } else {
        assert(t[n - 1] == smallest(t, n, u16::MAX) && t[n - 1] == largest(t, n));
    }
}

/// A table is flat where every step is less than one and a half times every other, those below
/// one counting as one; a table of zeros is not.
pub proof fn law_flat_table(t: Seq<u16>)
    requires
        t.len() == 64,
    ensures
        is_flat(t) <==> (exists|i: int| 0 <= i < 64 && #[trigger] t[i] > 0) && forall|i: int, j: int|
            0 <= i < 64 && 0 <= j < 64 ==> 2 * (#[trigger] t[i]) < 3 * (if (#[trigger] t[j]) < 1 {
                1
            } else {
                t[j] as int
            }),
{
    law_smallest_and_largest(t, 64, 0);
    let a = choose|j: int| 0 <= j < 64 && #[trigger] t[j] == smallest(t, 64, u16::MAX);
    let b = choose|j: int| 0 <= j < 64 && #[trigger] t[j] == largest(t, 64);
    assert(t[a] == smallest(t, 64, u16::MAX) && t[b] == largest(t, 64));
    if is_flat(t) {
        assert(t[b] > 0);
        assert forall|i: int, j: int| 0 <= i < 64 && 0 <= j < 64 implies 2 * (#[trigger] t[i]) < 3
            * (if (#[trigger] t[j]) < 1 {
            1
        } else {
            t[j] as int
        }) by {
            law_smallest_and_largest(t, 64, i);
            law_smallest_and_largest(t, 64, j);
        }
    }
    if exists|i: int| 0 <= i < 64 && #[trigger] t[i] > 0 {
        let i = choose|i: int| 0 <= i < 64 && #[trigger] t[i] > 0;
        law_smallest_and_largest(t, 64, i);
    }
}

/// The sum of a table is that of its steps.
pub proof fn law_table_sum(t: Seq<u16>, n: nat)
    requires
        n <= t.len(),
    ensures
        table_sum(t, n) == total(n, |i: int| t[i] as int),
    decreases n,
{
    if n > 0 {
        law_table_sum(t, (n - 1) as nat);
    }
}

/// What a first table means: below a similarity of a half it is no standard one, as
/// information; that of an editor is minor; and so are a sum of the second table below eight
/// tenths of that of the first, or above three and a half times it.
pub proof fn law_when_tables_are_reported(
    t: Seq<Seq<u16>>,
    similarity: i64,
    s: Seq<char>,
    r: Seq<char>,
)
    requires
        t.len() > 0,
    ensures
        ({
            let f = qtable_findings(t, similarity, s, r);
            let a = similarity < 0x3FE0_0000_0000_0000;
            let b = origin_of(t[0]) is Some;
            let c = t.len() > 1 && table_sum(t[0], 64) > 0 && (5 * table_sum(t[1], 64) < 4 * table_sum(
                t[0],
                64,
            ) || 2 * table_sum(t[1], 64) > 7 * table_sum(t[0], 64));
            let i = if a {
                1int
            } else {
                0
            };
            let j = if b {
                i + 1
            } else {
                i
            };
            &&& f.len() == if c {
                j + 1
            } else {
                j
            }
            &&& a ==> f[0].code == "qtable_non_standard"@ && f[0].severity == Severity::Info
            &&& b ==> f[i].code == "qtable_editor_signature"@ && f[i].severity == Severity::Low
            &&& c ==> f[j].code == "qtable_unusual_chroma_ratio"@ && f[j].severity == Severity::Low
        }),
{
    let a = "Adobe Photoshop (high quality)"@;
    let b = "image editor (flat Q-table)"@;
    reveal_strlit("Adobe Photoshop (high quality)");
    reveal_strlit("image editor (flat Q-table)");
    reveal_strlit("Photoshop");
    reveal_strlit("editor");
    assert(a.subrange(6, 15) =~= "Photoshop"@);
    assert(crate::text::occurs_at(a, "Photoshop"@, 6));
    assert(b.subrange(6, 12) =~= "editor"@);
    assert(crate::text::occurs_at(b, "editor"@, 6));
}

/// A first table tells of Photoshop by its first three steps, and of another editor where it is
/// flat.
pub proof fn law_origin(t: Seq<u16>)
    ensures
        origin_of(t) is Some <==> (t[0] == 2 && t[1] == 1 && t[2] == 1) || is_flat(t),
        t[0] == 2 && t[1] == 1 && t[2] == 1 ==> origin_of(t) == Some(
            "Adobe Photoshop (high quality)"@,
        ),
{
}

} // verus!
