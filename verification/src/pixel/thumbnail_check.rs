//! EXIF-thumbnail consistency check.
//!
//! Cameras write the thumbnail at capture time. If the image is edited and the thumbnail is
//! not regenerated, the two diverge.

use crate::bits::P65;
use crate::bits::P85;
use crate::finding::Finding;
use crate::finding::FindingView;
use crate::finding::Severity;
use crate::finding::plain_finding;
use crate::raster::Picture;
use crate::raster::decoded;
use crate::raster::keeps_size;
use crate::raster::resampled_file;
use crate::select::total;
use vstd::prelude::*;
use vstd::string::*;

verus! {

/// The thumbnail checker.
pub struct ThumbnailChecker;

/// Below this similarity a thumbnail does not match, as a key: 0.85.
pub const MISMATCH: i64 = 0x3FEB_3333_3333_3333;

/// Below this similarity it differs slightly, as a key: 0.92.
pub const MINOR_MISMATCH: i64 = 0x3FED_70A3_D70A_3D71;

/// The squared differences of the first `n` samples, added up.
pub open spec fn squared_error(a: Seq<u8>, b: Seq<u8>, n: nat) -> int
    decreases n,
{
    if n == 0 {
        0
    } else {
        let d = a[n - 1] as int - b[n - 1] as int;
        squared_error(a, b, (n - 1) as nat) + d * d
    }
}

/// The finding on a thumbnail, if it differs: its mean squared error is `error` over `count`,
/// `similarity` is a key.
pub open spec fn thumbnail_finding(
    error: int,
    count: int,
    similarity: i64,
    error_text: Seq<char>,
    similarity_text: Seq<char>,
) -> Option<FindingView> {
    if error > 500 * count || similarity < MISMATCH {
        Some(
            plain_finding(
                "thumbnail_check"@,
                "thumbnail_mismatch"@,
                "EXIF thumbnail does not match main image (MSE="@ + error_text + ", SSIM="@
                    + similarity_text
                    + ") - main image was likely edited after capture without updating the thumbnail"@,
                Severity::High,
                P85,
            ),
        )
    } else if error > 200 * count || similarity < MINOR_MISMATCH {
        Some(
            plain_finding(
                "thumbnail_check"@,
                "thumbnail_minor_mismatch"@,
                "EXIF thumbnail shows minor differences from main image (MSE="@ + error_text
                    + ", SSIM="@ + similarity_text + ") - possible post-processing"@,
                Severity::Medium,
                P65,
            ),
        )
    } else {
        None
    }
}

/// A decoded thumbnail, and the main image resampled to its size.
pub struct Pair {
    pub thumbnail: Picture,
    pub main_rgb: Vec<u8>,
    pub main_gray: Vec<u8>,
}

/// Whether a file is compared with its embedded thumbnail: there is one, of a usable size,
/// and both can be decoded.
pub open spec fn is_compared(raw: Seq<u8>, thumbnail: Seq<u8>) -> bool {
    thumbnail.len() > 0 && (decoded(thumbnail) matches Ok(t) && 1 <= t.0 <= 1024 && 1 <= t.1
        <= 1024) && decoded(raw) is Ok
}

impl ThumbnailChecker {
    /// Decodes a thumbnail and resamples the main image to its size. Nothing is compared
    /// where there is no thumbnail, or none of a usable size. A main image that has the size
    /// already is taken as it is.
    pub fn load(&self, raw: &[u8], thumbnail: &[u8]) -> (r: Option<Pair>)
        ensures
            r is Some <==> is_compared(raw@, thumbnail@),
            r matches Some(p) ==> decoded(thumbnail@) == Ok::<
                (u32, u32, Seq<u8>, Option<Seq<u8>>),
                Seq<char>,
            >(p.thumbnail.value()) && p.thumbnail.wf() && p.main_rgb@.len()
                == p.thumbnail.rgb@.len() && p.main_gray@.len() == p.thumbnail.gray@.len()
                && keeps_size(
                raw@,
                p.thumbnail.width,
                p.thumbnail.height,
                p.main_rgb@,
                p.main_gray@,
            ),
    {
        if thumbnail.len() == 0 {
            return None;
        }
        let t = match Picture::decode(thumbnail) {
            Ok(t) => t,
            Err(_) => return None,
        };
        if !self.usable(t.width, t.height) {
            return None;
        }
        match resampled_file(raw, t.width, t.height) {
            Some(m) => Some(Pair { thumbnail: t, main_rgb: m.0, main_gray: m.1 }),
            None => None,
        }
    }

    /// Whether a thumbnail of this size is compared.
    pub fn usable(&self, w: u32, h: u32) -> (r: bool)
        ensures
            r == (1 <= w <= 1024 && 1 <= h <= 1024),
    {
        1 <= w && w <= 1024 && 1 <= h && h <= 1024
    }

    /// The squared differences of two colour rasters of the same size, added up.
    pub fn compute_mse(&self, a: &[u8], b: &[u8]) -> (r: u64)
        requires
            a.len() == b.len(),
            a.len() <= 0x1_0000_0000,
        ensures
            r == squared_error(a@, b@, a@.len()),
    {
        let mut sum: u64 = 0;
        let mut i: usize = 0;
        while i < a.len()
            invariant
                i <= a.len(),
                a.len() == b.len(),
                a.len() <= 0x1_0000_0000,
                sum == squared_error(a@, b@, i as nat),
                sum <= 65025 * i,
            decreases a.len() - i,
        {
            let d: i64 = a[i] as i64 - b[i] as i64;
            proof {
                assert(0 <= d * d <= 65025) by (nonlinear_arith)
                    requires
                        -255 <= d <= 255,
                ;
            }
            sum += (d * d) as u64;
            i += 1;
        }
        sum
    }

    /// Reports a thumbnail that differs from the image. `error` is the squared error of
    /// `count` samples; `error_text` is the mean with one decimal, `similarity_text` the
    /// similarity with three.
    pub fn report(
        &self,
        error: u64,
        count: u64,
        similarity: i64,
        error_text: &str,
        similarity_text: &str,
    ) -> (r: Option<Finding>)
        requires
            count <= u64::MAX / 500,
        ensures
            (match r {
                Some(f) => Some(f@),
                None => None,
            }) == thumbnail_finding(
                error as int,
                count as int,
                similarity,
                error_text@,
                similarity_text@,
            ),
    {
        if error > 500 * count || similarity < MISMATCH {
            let mut t = "EXIF thumbnail does not match main image (MSE=".to_string();
            t.append(error_text);
            t.append(", SSIM=");
            t.append(similarity_text);
            t.append(
                ") - main image was likely edited after capture without updating the thumbnail",
            );
            Some(Finding::new("thumbnail_check", "thumbnail_mismatch", t, Severity::High, P85))
        } else if error > 200 * count || similarity < MINOR_MISMATCH {
            let mut t =
                "EXIF thumbnail shows minor differences from main image (MSE=".to_string();
            t.append(error_text);
            t.append(", SSIM=");
            t.append(similarity_text);
            t.append(") - possible post-processing");
            Some(
                Finding::new(
                    "thumbnail_check",
                    "thumbnail_minor_mismatch",
                    t,
                    Severity::Medium,
                    P65,
                ),
            )
        } else {
            None
        }
    }
}

/// The error of two rasters is the sum of the squared differences of their samples.
pub proof fn law_squared_error(a: Seq<u8>, b: Seq<u8>, n: nat)
    requires
        n <= a.len(),
    ensures
        squared_error(a, b, n) == total(n, |i: int| (b[i] - a[i]) * (b[i] - a[i])),
    decreases n,
{
    if n > 0 {
        law_squared_error(a, b, (n - 1) as nat);
        let d = a[n - 1] as int - b[n - 1] as int;
        assert((-d) * (-d) == d * d) by (nonlinear_arith);
        assert(b[n - 1] - a[n - 1] == -d);
    }
}

/// Swapping the rasters changes nothing, and a raster has no error against itself.
pub proof fn law_error_symmetric(a: Seq<u8>, b: Seq<u8>, n: nat)
    ensures
        squared_error(a, b, n) == squared_error(b, a, n),
        squared_error(a, a, n) == 0,
        squared_error(a, b, n) >= 0,
    decreases n,
{
    if n > 0 {
        law_error_symmetric(a, b, (n - 1) as nat);
        let d = a[n - 1] as int - b[n - 1] as int;
        assert((-d) * (-d) == d * d && d * d >= 0) by (nonlinear_arith);
        assert(b[n - 1] - a[n - 1] == -d);
    }
}

/// A thumbnail does not match above a mean error of 500 or below a similarity of 0.85; it
/// differs a little above 200 or below 0.92.
pub proof fn law_when_thumbnail_is_reported(error: int, count: int, similarity: i64, e: Seq<char>, s: Seq<char>)
    ensures
        thumbnail_finding(error, count, similarity, e, s) is Some <==> (error > 500 * count || similarity < 0x3FEB_3333_3333_3333) || (error <= 500 * count && similarity >= 0x3FEB_3333_3333_3333 && (error > 200 * count || similarity < 0x3FED_70A3_D70A_3D71)),
        (error > 500 * count || similarity < 0x3FEB_3333_3333_3333) ==> thumbnail_finding(error, count, similarity, e, s)->Some_0.code == "thumbnail_mismatch"@ && thumbnail_finding(error, count, similarity, e, s)->Some_0.severity == Severity::High,
        (error <= 500 * count && similarity >= 0x3FEB_3333_3333_3333 && (error > 200 * count || similarity < 0x3FED_70A3_D70A_3D71)) ==> thumbnail_finding(error, count, similarity, e, s)->Some_0.code == "thumbnail_minor_mismatch"@ && thumbnail_finding(error, count, similarity, e, s)->Some_0.severity == Severity::Medium,
{
}

/// A greater error or a lesser similarity never makes a lesser finding.
pub proof fn law_worse_is_no_milder(
    error: int,
    more: int,
    count: int,
    similarity: i64,
    less: i64,
    e: Seq<char>,
    s: Seq<char>,
)
    requires
        error <= more,
        less <= similarity,
        thumbnail_finding(error, count, similarity, e, s) is Some,
    ensures
        thumbnail_finding(more, count, less, e, s) is Some,
        thumbnail_finding(more, count, less, e, s)->Some_0.severity.level() >= thumbnail_finding(
            error,
            count,
            similarity,
            e,
            s,
        )->Some_0.severity.level(),
{
}

/// A thumbnail is compared where it and the image can be decoded and neither of its sides is zero
/// or above 1024.
pub proof fn law_compared(raw: Seq<u8>, thumbnail: Seq<u8>)
    ensures
        is_compared(raw, thumbnail) ==> thumbnail.len() > 0 && decoded(raw) is Ok && decoded(
            thumbnail,
        ) is Ok,
        thumbnail.len() > 0 && decoded(raw) is Ok ==> (decoded(thumbnail) matches Ok(t) ==> (
        is_compared(raw, thumbnail) <==> 0 < t.0 < 1025 && 0 < t.1 < 1025)),
{
}

} // verus!
