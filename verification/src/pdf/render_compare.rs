//! Render-vs-scan comparison: the strongest overlay signal of a PDF.
//!
//! A page is rendered in full and held against the largest image embedded on it, the scan:
//! what differs was added on top of the scan. The rendering itself is the host's.

use crate::bits::P100;
use crate::bits::P90;
use crate::bits::P92;
use crate::clusters::Cluster;
use crate::clusters::Spot;
use crate::clusters::arranged;
use crate::clusters::by_size;
use crate::clusters::joined;
use crate::clusters::keep_sizable;
use crate::clusters::law_arranging_keeps_all;
use crate::clusters::law_largest_first;
use crate::clusters::law_sizable;
use crate::clusters::no_cluster;
use crate::clusters::sizable;
use crate::clusters::size_keys;
use crate::components::label_components;
use crate::components::law_numbering_unique;
use crate::components::lemma_cell_coords;
use crate::components::numbering;
use crate::components::numbering_of;
use crate::components::numbers_components;
use crate::finding::Finding;
use crate::finding::FindingView;
use crate::finding::Region;
use crate::finding::Severity;
use crate::finding::boxed_finding;
use crate::finding::group_values;
use crate::finding::plain_finding;
use crate::finding::values;
use crate::jpeg::copy_range;
use crate::pdf::image_pipeline::EmbeddedImage;
use crate::pdf::image_pipeline::ImageData;
use crate::pdf::image_pipeline::needed;
use crate::pdf::image_pipeline::samples_needed;
use crate::pixel::ela::color_error;
use crate::pixel::ela::distance;
use crate::raster::Frame;
use crate::raster::Picture;
use crate::raster::area;
use crate::raster::decoded;
use crate::raster::resample_rgb_lanczos;
use crate::raster::resizable;
use crate::raster::tripled;
use crate::select::how_many;
use crate::select::lemma_which;
use crate::select::lemma_which_are;
use crate::select::which;
use crate::text::append_decimal;
use crate::text::decimal_text;
use vstd::prelude::*;
use vstd::string::*;

verus! {

/// Tunables of the comparison.
pub struct RenderCompareOpts {
    /// The resolution of the rendering in dots per inch, as the bits of a single-precision
    /// number.
    pub render_dpi: u32,
    /// The mean channel difference above which a pixel counts as modified.
    pub diff_threshold: u8,
    /// The least share of pixels that must differ, as a key.
    pub min_diff_ratio: i64,
    /// The most pages that are compared.
    pub max_pages: u32,
}

/// The default resolution in dots per inch, as the bits of a single-precision number: 150.0.
pub const DEFAULT_DPI: u32 = 0x4316_0000;

impl Default for RenderCompareOpts {
    fn default() -> (r: Self)
        ensures
            r.render_dpi == DEFAULT_DPI,
            r.diff_threshold == 10,
            r.min_diff_ratio == 0x3F1A_36E2_EB1C_432D,
            r.max_pages == 10,
    {
        RenderCompareOpts {
            render_dpi: DEFAULT_DPI,
            diff_threshold: 10,
            min_diff_ratio: 0x3F1A_36E2_EB1C_432D,
            max_pages: 10,
        }
    }
}

/// Whether a page is among those of the first `n` images.
pub open spec fn page_seen(images: Seq<EmbeddedImage>, page: u32, n: nat) -> bool {
    exists|j: int| 0 <= j < n && (#[trigger] images[j]).page == page
}

/// The pages of the first `n` images in the order of their first appearance.
pub open spec fn pages_of(images: Seq<EmbeddedImage>, n: nat) -> Seq<u32>
    decreases n,
{
    if n == 0 {
        seq![]
    } else if page_seen(images, images[n - 1].page, (n - 1) as nat) {
        pages_of(images, (n - 1) as nat)
    } else {
        pages_of(images, (n - 1) as nat).push(images[n - 1].page)
    }
}

/// The pages that are compared: the first `max`.
pub open spec fn compared_pages(images: Seq<EmbeddedImage>, max: int) -> Seq<u32> {
    let p = pages_of(images, images.len());
    if p.len() > max {
        p.take(max)
    } else {
        p
    }
}

/// The area of an image.
pub open spec fn image_area(i: EmbeddedImage) -> int {
    i.width * i.height
}

/// The largest of the first `n` images that are on a page, the last of equals.
pub open spec fn largest_on(images: Seq<EmbeddedImage>, page: u32, n: nat) -> Option<int>
    decreases n,
{
    if n == 0 {
        None
    } else {
        let before = largest_on(images, page, (n - 1) as nat);
        if images[n - 1].page != page {
            before
        } else {
            match before {
                Some(k) => if image_area(images[n - 1]) >= image_area(images[k]) {
                    Some(n - 1)
                } else {
                    Some(k)
                },
                None => Some(n - 1),
            }
        }
    }
}

/// The size and the colours of an embedded image, where it can be decoded.
pub open spec fn scan_colors(i: EmbeddedImage) -> Option<(u32, u32, Seq<u8>)> {
    match i.data {
        ImageData::Jpeg(b) => match decoded(b@) {
            Ok(p) => Some((p.0, p.1, p.2)),
            Err(_) => None,
        },
        ImageData::Jpeg2000(b) => match decoded(b@) {
            Ok(p) => Some((p.0, p.1, p.2)),
            Err(_) => None,
        },
        ImageData::Pixels(b) => if b@.len() < needed(i) {
            None
        } else if i.components == 1 {
            Some((i.width, i.height, tripled(b@.take(needed(i)))))
        } else if i.components == 3 {
            Some((i.width, i.height, b@.take(needed(i))))
        } else {
            None
        },
        ImageData::Other => None,
    }
}

/// Whether pixel `i` differs by more than a threshold on average over its channels.
pub open spec fn differs(a: Seq<u8>, b: Seq<u8>, threshold: u8, i: int) -> bool {
    color_error(a, b, i) / 3 > threshold
}

/// Which of `n` pixels differ.
pub open spec fn difference(a: Seq<u8>, b: Seq<u8>, threshold: u8, n: nat) -> Seq<bool> {
    Seq::new(n, |i: int| differs(a, b, threshold, i))
}

/// How many of the first `n` flags are set.
pub open spec fn set_count(m: Seq<bool>, n: nat) -> nat
    decreases n,
{
    if n == 0 {
        0
    } else {
        set_count(m, (n - 1) as nat) + if m[n - 1] {
            1nat
        } else {
            0
        }
    }
}

/// The box and the size of the cells among the first `n` that carry a label.
pub open spec fn region_of(labels: Seq<usize>, w: int, l: int, n: nat) -> Cluster
    decreases n,
{
    if n == 0 {
        no_cluster()
    } else {
        let c = region_of(labels, w, l, (n - 1) as nat);
        if labels[n - 1] == l {
            joined(c, Spot { x: ((n - 1) % w) as usize, y: ((n - 1) / w) as usize, score: 0 })
        } else {
            c
        }
    }
}

/// All regions of a mask, sides touching, in the order of their first pixels.
pub open spec fn all_regions(on: Seq<bool>, w: int, h: int) -> Seq<Cluster> {
    let n = numbering_of(on, w, h, false);
    Seq::new(n.1.len(), |l: int| region_of(n.0, w, l + 1, on.len()))
}

/// The regions of a mask of at least twenty pixels, largest first.
pub open spec fn diff_regions(on: Seq<bool>, w: int, h: int) -> Seq<Cluster> {
    let all = all_regions(on, w, h);
    let kept = sizable(all, 20, all.len());
    arranged(kept, size_keys(kept))
}

/// A box in the coordinates of a scan.
#[derive(Clone, Copy)]
pub struct ScanBox {
    pub x: u32,
    pub y: u32,
    pub width: u32,
    pub height: u32,
}

/// The finding of content on top of a scan.
pub open spec fn overlay_finding(
    page: u32,
    width: u32,
    height: u32,
    percent: Seq<char>,
    regions: nat,
) -> FindingView {
    plain_finding(
        "pdf_render_compare"@,
        "pdf_overlay_content_detected"@,
        "Page "@ + decimal_text((page + 1) as nat) + " (scan "@ + decimal_text(width as nat) + "x"@
            + decimal_text(height as nat) + "): "@ + percent
            + "% of pixels differ between embedded scan and rendered page - content was added on top of the scanned image ("@
            + decimal_text(regions) + " modified region"@ + if regions == 1 {
            ""@
        } else {
            "s"@
        } + ")"@,
        Severity::Critical,
        P92,
    )
}

/// The finding of one region.
pub open spec fn region_finding(page: u32, k: nat, c: Cluster, b: ScanBox) -> FindingView {
    boxed_finding(
        "pdf_render_compare"@,
        "pdf_overlay_region"@,
        "Page "@ + decimal_text((page + 1) as nat) + ": overlay region "@ + decimal_text(k + 1)
            + " at ("@ + decimal_text(b.x as nat) + ","@ + decimal_text(b.y as nat) + ") - "@
            + decimal_text(c.count as nat) + " pixels added on top of scan"@,
        Severity::Critical,
        P90,
        b.x,
        b.y,
        b.width,
        b.height,
    )
}

/// The findings of the first `n` regions.
pub open spec fn region_findings(page: u32, c: Seq<Cluster>, b: Seq<ScanBox>, n: nat) -> Seq<
    FindingView,
> {
    Seq::new(n, |k: int| region_finding(page, k as nat, c[k], b[k]))
}

/// The finding that not all pages were compared.
pub open spec fn limit_findings(images: Seq<EmbeddedImage>, max: u32) -> Seq<FindingView> {
    if pages_of(images, images.len()).len() > max {
        seq![
            plain_finding(
                "pdf_render_compare"@,
                "pdf_render_compare_limit"@,
                "PDF has more than "@ + decimal_text(max as nat)
                    + " pages with images - render comparison limited to first "@ + decimal_text(
                    max as nat,
                ),
                Severity::Info,
                P100,
            ),
        ]
    } else {
        seq![]
    }
}

fn distinct_pages(images: &Vec<EmbeddedImage>) -> (r: Vec<u32>)
    ensures
        r@ == pages_of(images@, images@.len()),
{
    let mut r: Vec<u32> = Vec::new();
    let mut i: usize = 0;
    while i < images.len()
        invariant
            i <= images@.len(),
            r@ == pages_of(images@, i as nat),
        decreases images@.len() - i,
    {
        let page: u32 = images[i].page;
        let mut seen = false;
        let mut j: usize = 0;
        while j < i
            invariant
                j <= i < images@.len(),
                seen == page_seen(images@, page, j as nat),
            decreases i - j,
        {
            if images[j].page == page {
                assert(images@[j as int].page == page);
                seen = true;
            }
            j += 1;
        }
        if !seen {
            r.push(page);
        }
        i += 1;
    }
    r
}

/// The pages that are compared, in order.
pub fn pages_to_compare(images: &Vec<EmbeddedImage>, opts: &RenderCompareOpts) -> (r: Vec<u32>)
    ensures
        r@ == compared_pages(images@, opts.max_pages as int),
{
    let mut p = distinct_pages(images);
    if p.len() > opts.max_pages as usize {
        p.truncate(opts.max_pages as usize);
    }
    p
}

/// Reports that not all pages are compared.
pub fn report_limit(images: &Vec<EmbeddedImage>, opts: &RenderCompareOpts) -> (r: Vec<Finding>)
    ensures
        values(r@) == limit_findings(images@, opts.max_pages),
{
    broadcast use group_values;

    let mut r: Vec<Finding> = Vec::new();
    let p = distinct_pages(images);
    if p.len() > opts.max_pages as usize {
        let mut d = "PDF has more than ".to_string();
        append_decimal(&mut d, opts.max_pages as u64);
        d.append(" pages with images - render comparison limited to first ");
        append_decimal(&mut d, opts.max_pages as u64);
        r.push(
            Finding::new("pdf_render_compare", "pdf_render_compare_limit", d, Severity::Info, P100),
        );
    }
    assert(values(r@) =~= limit_findings(images@, opts.max_pages));
    r
}

/// The largest image on a page: the scan.
pub fn scan_of(images: &Vec<EmbeddedImage>, page: u32) -> (r: Option<usize>)
    ensures
        match r {
            Some(k) => largest_on(images@, page, images@.len()) == Some(k as int) && k
                < images@.len(),
            None => largest_on(images@, page, images@.len()) is None,
        },
{
    let mut best: Option<usize> = None;
    let mut i: usize = 0;
    while i < images.len()
        invariant
            i <= images@.len(),
            match best {
                Some(k) => largest_on(images@, page, i as nat) == Some(k as int) && k < i,
                None => largest_on(images@, page, i as nat) is None,
            },
        decreases images@.len() - i,
    {
        if images[i].page == page {
            let new: u64 = area(images[i].width, images[i].height);
            best =
            match best {
                Some(k) => if new >= area(images[k].width, images[k].height) {
                    Some(i)
                } else {
                    Some(k)
                },
                None => Some(i),
            };
        }
        i += 1;
    }
    best
}

/// Whether a scan is large enough to be compared.
pub fn is_comparable(i: &EmbeddedImage) -> (r: bool)
    ensures
        r == (i.width >= 200 && i.height >= 200),
{
    i.width >= 200 && i.height >= 200
}

fn decode_colors(b: &Vec<u8>) -> (r: Option<Frame>)
    ensures
        match r {
            Some(f) => f.wf() && !f.monochrome && (decoded(b@) matches Ok(p) && (p.0, p.1, p.2) == (
                f.width,
                f.height,
                f.samples@,
            )),
            None => decoded(b@) is Err,
        },
{
    match Picture::decode(b.as_slice()) {
        Ok(p) => Some(
            Frame { width: p.width, height: p.height, samples: p.rgb, monochrome: false },
        ),
        Err(_) => None,
    }
}

/// The colours of an embedded image, where it can be decoded.
pub fn decode_scan(i: &EmbeddedImage) -> (r: Option<Frame>)
    ensures
        match r {
            Some(f) => f.wf() && !f.monochrome && scan_colors(*i) == Some(
                (f.width, f.height, f.samples@),
            ),
            None => scan_colors(*i) is None,
        },
{
    match &i.data {
        ImageData::Jpeg(b) => decode_colors(b),
        ImageData::Jpeg2000(b) => decode_colors(b),
        ImageData::Pixels(b) => {
            let n: u128 = samples_needed(i);
            if (b.len() as u128) < n || (i.components != 1 && i.components != 3) {
                return None;
            }
            let samples = copy_range(b.as_slice(), 0, n as usize);
            assert(samples@ =~= b@.take(needed(*i)));
            let f = Frame {
                width: i.width,
                height: i.height,
                samples,
                monochrome: i.components == 1,
            };
            let colors = f.colors();
            Some(Frame { width: i.width, height: i.height, samples: colors, monochrome: false })
        },
        ImageData::Other => None,
    }
}

/// Which pixels of a rendered page differ from a scan that was resampled to the page's size,
/// and how many.
pub fn differing(rendered: &[u8], resampled: &[u8], w: u32, h: u32, threshold: u8) -> (r: (
    Vec<bool>,
    u64,
))
    requires
        rendered@.len() >= w * h * 3,
        resampled@.len() == w * h * 3,
    ensures
        r.0@ == difference(rendered@, resampled@, threshold, (w * h) as nat),
        r.1 == set_count(r.0@, r.0@.len()),
        r.0@.len() == w * h,
{
    let n: u64 = area(w, h);
    assert(rendered.len() >= w * h * 3);
    let mut mask: Vec<bool> = Vec::new();
    let mut count: u64 = 0;
    let mut i: usize = 0;
    while (i as u64) < n
        invariant
            n == w * h,
            i <= n,
            n * 3 <= usize::MAX,
            rendered@.len() >= n * 3,
            resampled@.len() == n * 3,
            mask@ == difference(rendered@, resampled@, threshold, i as nat),
            count == set_count(mask@, i as nat),
            count <= i,
        decreases n - i,
    {
        let d: u16 = distance(rendered[3 * i], resampled[3 * i]) + distance(
            rendered[3 * i + 1],
            resampled[3 * i + 1],
        ) + distance(rendered[3 * i + 2], resampled[3 * i + 2]);
        let hit = d / 3 > threshold as u16;
        let ghost before = mask@;
        mask.push(hit);
        proof {
            assert(mask@ =~= difference(rendered@, resampled@, threshold, (i + 1) as nat));
            lemma_set_count_prefix(before, mask@, i as nat);
        }
        if hit {
            count += 1;
        }
        i += 1;
    }
    (mask, count)
}

/// Which pixels of a rendered page differ from the scan, resampled to the page's size, and
/// how many. A scan that has the page's size is held against the page as it is.
pub fn compare(rendered: &[u8], w: u32, h: u32, scan: &Frame, opts: &RenderCompareOpts) -> (r: (
    Vec<bool>,
    u64,
))
    requires
        scan.wf(),
        !scan.monochrome,
        rendered@.len() >= w * h * 3,
        resizable(scan.width, scan.height, w, h),
    ensures
        exists|s: Seq<u8>|
            s.len() == w * h * 3 && r.0@ == #[trigger] difference(
                rendered@,
                s,
                opts.diff_threshold,
                (w * h) as nat,
            ),
        (w, h) == (scan.width, scan.height) ==> r.0@ == difference(
            rendered@,
            scan.samples@,
            opts.diff_threshold,
            (w * h) as nat,
        ),
        r.1 == set_count(r.0@, r.0@.len()),
        r.0@.len() == w * h,
{
    let other = resample_rgb_lanczos(scan.samples.as_slice(), scan.width, scan.height, w, h);
    differing(rendered, other.as_slice(), w, h, opts.diff_threshold)
}

proof fn lemma_set_count_prefix(a: Seq<bool>, b: Seq<bool>, n: nat)
    requires
        n <= a.len() <= b.len(),
        forall|i: int| 0 <= i < n ==> a[i] == b[i],
    ensures
        set_count(a, n) == set_count(b, n),
    decreases n,
{
    if n > 0 {
        lemma_set_count_prefix(a, b, (n - 1) as nat);
    }
}

proof fn lemma_region_bounds(labels: Seq<usize>, w: int, h: int, l: int, n: nat)
    requires
        w > 0,
        h >= 0,
        w * h <= usize::MAX,
        n <= w * h,
        n <= labels.len(),
    ensures
        region_of(labels, w, l, n).count <= n,
        region_of(labels, w, l, n).count > 0 ==> {
            let c = region_of(labels, w, l, n);
            c.x_min <= c.x_max < w && c.y_min <= c.y_max < h
        },
        region_of(labels, w, l, n).count == 0 ==> region_of(labels, w, l, n) == no_cluster(),
    decreases n,
{
    if n > 0 {
        lemma_region_bounds(labels, w, h, l, (n - 1) as nat);
        lemma_cell_coords(w, h, n - 1);
        assert(h <= w * h) by (nonlinear_arith)
            requires
                w > 0,
                h >= 0,
        ;
        assert(w <= w * h) by (nonlinear_arith)
            requires
                w > 0,
                h > 0,
        ;
    }
}

/// Connected-component bounding boxes over a difference mask, sides touching; regions of
/// less than twenty pixels are dropped, the rest come largest first.
pub fn find_diff_regions(diff_map: &Vec<bool>, w: u32, h: u32) -> (r: Vec<Cluster>)
    requires
        diff_map@.len() == w * h,
    ensures
        r@ == diff_regions(diff_map@, w as int, h as int),
        forall|k: int|
            0 <= k < r@.len() ==> (#[trigger] r@[k]).count >= 20 && r@[k].x_min <= r@[k].x_max < w
                && r@[k].y_min <= r@[k].y_max < h,
{
    let wu: usize = w as usize;
    let hu: usize = h as usize;
    let n = label_components(diff_map, wu, hu, false);
    let total: usize = n.firsts.len();
    let ghost labels = n.labels@;
    let mut all: Vec<Cluster> = vec![
        Cluster { x_min: usize::MAX, y_min: usize::MAX, x_max: 0, y_max: 0, count: 0, peak: 0 };
        total
    ];
    let mut i: usize = 0;
    while i < diff_map.len()
        invariant
            i <= diff_map@.len(),
            diff_map@.len() == wu * hu,
            diff_map.len() == wu * hu,
            labels == n.labels@,
            labels.len() == diff_map@.len(),
            total == n.firsts@.len(),
            all@.len() == total,
            forall|j: int| 0 <= j < labels.len() ==> #[trigger] labels[j] <= total,
            forall|l: int|
                0 <= l < total ==> #[trigger] all@[l] == region_of(labels, wu as int, l + 1, i as nat),
        decreases diff_map@.len() - i,
    {
        let label: usize = n.labels[i];
        proof {
            lemma_cell_coords(wu as int, hu as int, i as int);
        }
        if label > 0 {
            let c: Cluster = all[label - 1];
            let x: usize = i % wu;
            let y: usize = i / wu;
            proof {
                lemma_region_bounds(labels, wu as int, hu as int, label as int, i as nat);
            }
            all.set(
                label - 1,
                Cluster {
                    x_min: if x < c.x_min {
                        x
                    } else {
                        c.x_min
                    },
                    y_min: if y < c.y_min {
                        y
                    } else {
                        c.y_min
                    },
                    x_max: if x > c.x_max {
                        x
                    } else {
                        c.x_max
                    },
                    y_max: if y > c.y_max {
                        y
                    } else {
                        c.y_max
                    },
                    count: c.count + 1,
                    peak: if c.peak > 0 {
                        c.peak
                    } else {
                        0
                    },
                },
            );
        }
        i += 1;
    }
    assert(all@ =~= all_regions(diff_map@, w as int, h as int));
    let kept = keep_sizable(&all, 20);
    let r = by_size(&kept);
    proof {
        assert forall|k: int| 0 <= k < r@.len() implies (#[trigger] r@[k]).count >= 20 && r@[k].x_min
            <= r@[k].x_max < w && r@[k].y_min <= r@[k].y_max < h by {
            assert(kept@.contains(r@[k]));
            let j = choose|j: int| 0 <= j < kept@.len() && kept@[j] == r@[k];
            assert(all@.contains(kept@[j]));
            let l = choose|l: int| 0 <= l < all@.len() && all@[l] == kept@[j];
            assert(w > 0) by {
                if w == 0 {
                    assert(diff_map@.len() == 0) by (nonlinear_arith)
                        requires
                            diff_map@.len() == w * h,
                            w == 0,
                    ;
                    assert(all@[l] == no_cluster());
                }
            }
            lemma_region_bounds(labels, w as int, h as int, l + 1, diff_map@.len());
        }
    }
    r
}

/// Whether enough pixels differ: `ratio` is the key of their share.
pub fn is_reported(ratio: i64, opts: &RenderCompareOpts) -> (r: bool)
    ensures
        r == (ratio >= opts.min_diff_ratio),
{
    ratio >= opts.min_diff_ratio
}

/// Reports the content on top of a scan, and at most ten of its regions. `percent` is the
/// share of differing pixels with two decimals, `boxes` are the regions in the coordinates of
/// the scan.
pub fn report_page(
    page: u32,
    scan: &EmbeddedImage,
    percent: &str,
    regions: &Vec<Cluster>,
    boxes: &Vec<ScanBox>,
) -> (r: Vec<Finding>)
    requires
        boxes@.len() == regions@.len() || (regions@.len() > 10 && boxes@.len() == 10),
    ensures
        values(r@) == seq![
            overlay_finding(page, scan.width, scan.height, percent@, regions@.len()),
        ] + region_findings(
            page,
            regions@,
            boxes@,
            if regions@.len() > 10 {
                10
            } else {
                regions@.len()
            },
        ),
{
    broadcast use group_values;

    let mut r: Vec<Finding> = Vec::new();
    let mut d = "Page ".to_string();
    append_decimal(&mut d, page as u64 + 1);
    d.append(" (scan ");
    append_decimal(&mut d, scan.width as u64);
    d.append("x");
    append_decimal(&mut d, scan.height as u64);
    d.append("): ");
    d.append(percent);
    d.append(
        "% of pixels differ between embedded scan and rendered page - content was added on top of the scanned image (",
    );
    append_decimal(&mut d, regions.len() as u64);
    d.append(" modified region");
    d.append(
        if regions.len() == 1 {
            ""
        } else {
            "s"
        },
    );
    d.append(")");
    r.push(
        Finding::new(
            "pdf_render_compare",
            "pdf_overlay_content_detected",
            d,
            Severity::Critical,
            P92,
        ),
    );
    let ghost head = seq![
        overlay_finding(page, scan.width, scan.height, percent@, regions@.len()),
    ];
    assert(values(r@) =~= head + region_findings(page, regions@, boxes@, 0));
    let mut k: usize = 0;
    while k < regions.len() && k < 10
        invariant
            k <= 10,
            k <= regions@.len(),
            boxes@.len() == regions@.len() || (regions@.len() > 10 && boxes@.len() == 10),
            values(r@) == head + region_findings(page, regions@, boxes@, k as nat),
        decreases regions@.len() - k,
    {
        let b = boxes[k];
        let mut d = "Page ".to_string();
        append_decimal(&mut d, page as u64 + 1);
        d.append(": overlay region ");
        append_decimal(&mut d, k as u64 + 1);
        d.append(" at (");
        append_decimal(&mut d, b.x as u64);
        d.append(",");
        append_decimal(&mut d, b.y as u64);
        d.append(") - ");
        append_decimal(&mut d, regions[k].count as u64);
        d.append(" pixels added on top of scan");
        let f = Finding::new(
            "pdf_render_compare",
            "pdf_overlay_region",
            d,
            Severity::Critical,
            P90,
        ).with_region(Region::BoundingBox { x: b.x, y: b.y, width: b.width, height: b.height });
        assert(f@ == region_finding(page, k as nat, regions@[k as int], boxes@[k as int]));
        let ghost before = r@;
        r.push(f);
        k += 1;
        assert(values(r@) == values(before).push(f@));
        assert(values(r@) =~= head + region_findings(page, regions@, boxes@, k as nat));
    }
    r
}

/// No page is compared twice, and the pages that are compared have images.
pub proof fn law_pages_distinct(images: Seq<EmbeddedImage>, n: nat)
    requires
        n <= images.len(),
    ensures
        pages_of(images, n).no_duplicates(),
        forall|k: int|
            0 <= k < pages_of(images, n).len() ==> page_seen(
                images,
                #[trigger] pages_of(images, n)[k],
                n,
            ),
    decreases n,
{
    if n > 0 {
        let p = pages_of(images, (n - 1) as nat);
        law_pages_distinct(images, (n - 1) as nat);
        assert(images[n - 1].page == images[n - 1].page);
        assert(page_seen(images, images[n - 1].page, n));
        assert forall|k: int| 0 <= k < pages_of(images, n).len() implies page_seen(
            images,
            #[trigger] pages_of(images, n)[k],
            n,
        ) by {
            if k < p.len() {
                assert(page_seen(images, p[k], (n - 1) as nat));
                let j = choose|j: int| 0 <= j < n - 1 && (#[trigger] images[j]).page == p[k];
                assert(images[j].page == p[k]);
            }
        }
    }
}

/// An image held against itself does not differ in any pixel.
pub proof fn law_same_image_same_pixels(a: Seq<u8>, threshold: u8, n: nat)
    requires
        a.len() == n * 3,
    ensures
        set_count(difference(a, a, threshold, n), n) == 0,
{
    lemma_none_set(difference(a, a, threshold, n), n);
}

proof fn lemma_none_set(m: Seq<bool>, n: nat)
    requires
        n <= m.len(),
        forall|i: int| 0 <= i < n ==> !#[trigger] m[i],
    ensures
        set_count(m, n) == 0,
    decreases n,
{
    if n > 0 {
        lemma_none_set(m, (n - 1) as nat);
    }
}

/// Whether a pixel differs does not depend on which picture is taken first.
pub proof fn law_difference_symmetric(a: Seq<u8>, b: Seq<u8>, threshold: u8, n: nat)
    ensures
        difference(a, b, threshold, n) == difference(b, a, threshold, n),
{
    assert(difference(a, b, threshold, n) =~= difference(b, a, threshold, n));
}

/// How far two samples are apart.
pub open spec fn apart(a: u8, b: u8) -> int {
    if a < b {
        b - a
    } else {
        a - b
    }
}

/// A pixel is marked exactly where its three channels are apart, added up, by at least three
/// times one more than the threshold.
pub proof fn law_difference_exact(a: Seq<u8>, b: Seq<u8>, threshold: u8, n: nat, i: int)
    requires
        a.len() >= 3 * n,
        b.len() >= 3 * n,
        0 <= i < n,
    ensures
        difference(a, b, threshold, n).len() == n,
        difference(a, b, threshold, n)[i] <==> apart(a[3 * i], b[3 * i]) + apart(
            a[3 * i + 1],
            b[3 * i + 1],
        ) + apart(a[3 * i + 2], b[3 * i + 2]) >= 3 * (threshold + 1),
{
}

/// The count is that of the marked pixels.
pub proof fn law_marked_are_counted(m: Seq<bool>, n: nat)
    requires
        n <= m.len(),
    ensures
        set_count(m, n) == how_many(n, |i: int| m[i]),
    decreases n,
{
    let p = |i: int| m[i];
    lemma_which(0, p);
    if n > 0 {
        law_marked_are_counted(m, (n - 1) as nat);
        lemma_which((n - 1) as nat, p);
    }
}

/// A higher threshold marks no pixel that a lower one leaves.
pub proof fn law_threshold_monotonic(a: Seq<u8>, b: Seq<u8>, low: u8, high: u8, n: nat, i: int)
    requires
        low <= high,
        0 <= i < n,
        difference(a, b, high, n)[i],
    ensures
        difference(a, b, low, n)[i],
{
}

/// The pages are those of the images, all of them, and the first is that of the first image.
pub proof fn law_pages_complete(images: Seq<EmbeddedImage>, n: nat, page: u32)
    requires
        n <= images.len(),
    ensures
        pages_of(images, n).contains(page) <==> exists|j: int|
            0 <= j < n && (#[trigger] images[j]).page == page,
        n > 0 ==> pages_of(images, n).len() > 0 && pages_of(images, n)[0] == images[0].page,
    decreases n,
{
    if n > 0 {
        let m = (n - 1) as nat;
        let before = pages_of(images, m);
        let all = pages_of(images, n);
        law_pages_complete(images, m, page);
        if exists|j: int| 0 <= j < m && (#[trigger] images[j]).page == page {
            let j = choose|j: int| 0 <= j < m && (#[trigger] images[j]).page == page;
            assert(images[j].page == page);
            assert(all[before.index_of(page)] == page);
        }
        if images[n - 1].page == page {
            if !page_seen(images, page, m) {
                assert(all[before.len() as int] == page);
            }
        }
    }
}

/// The pages that are compared are the first of them, as many as allowed.
pub proof fn law_pages_limited(images: Seq<EmbeddedImage>, max: nat)
    ensures
        ({
            let p = pages_of(images, images.len());
            let c = compared_pages(images, max as int);
            &&& c.len() == if p.len() <= max {
                p.len()
            } else {
                max
            }
            &&& c == p.take(c.len() as int)
        }),
{
    let p = pages_of(images, images.len());
    assert(p.take(p.len() as int) =~= p);
}

/// The scan of a page is its image with the most pixels, the last of equals.
pub proof fn law_largest_image(images: Seq<EmbeddedImage>, page: u32, n: nat, i: int)
    requires
        0 <= i < n <= images.len(),
        images[i].page == page,
    ensures
        largest_on(images, page, n) matches Some(k) && 0 <= k < n && images[k].page == page
            && images[i].width * images[i].height <= images[k].width * images[k].height && (i > k
            ==> images[i].width * images[i].height < images[k].width * images[k].height),
    decreases n,
{
    let m = (n - 1) as nat;
    if i < m {
        law_largest_image(images, page, m, i);
    } else if exists|j: int| 0 <= j < m && (#[trigger] images[j]).page == page {
        let j = choose|j: int| 0 <= j < m && (#[trigger] images[j]).page == page;
        law_largest_image(images, page, m, j);
    } else {
        lemma_none_on_page(images, page, m);
    }
}

proof fn lemma_none_on_page(images: Seq<EmbeddedImage>, page: u32, n: nat)
    requires
        n <= images.len(),
        forall|j: int| 0 <= j < n ==> (#[trigger] images[j]).page != page,
    ensures
        largest_on(images, page, n) is None,
    decreases n,
{
    if n > 0 {
        lemma_none_on_page(images, page, (n - 1) as nat);
        assert(images[n - 1].page != page);
    }
}

/// A region counts its pixels, and its box holds each of them.
pub proof fn law_region_holds_pixels(labels: Seq<usize>, w: int, l: int, n: nat, k: int)
    requires
        w > 0,
        n <= labels.len() <= usize::MAX,
    ensures
        region_of(labels, w, l, n).count == how_many(n, |i: int| labels[i] == l),
        0 <= k < n && labels[k] == l ==> region_of(labels, w, l, n).x_min <= k % w <= region_of(
            labels,
            w,
            l,
            n,
        ).x_max && region_of(labels, w, l, n).y_min <= k / w <= region_of(labels, w, l, n).y_max,
    decreases n,
{
    let p = |i: int| labels[i] == l;
    lemma_which(0, p);
    lemma_which_are(n, p);
    if n > 0 {
        let m = (n - 1) as nat;
        law_region_holds_pixels(labels, w, l, m, k);
        lemma_which(m, p);
        assert((n - 1) / w <= n - 1) by (nonlinear_arith)
            requires
                w > 0,
                n >= 1,
        ;
        assert(0 <= (n - 1) / w && 0 <= (n - 1) % w <= n - 1) by (nonlinear_arith)
            requires
                w > 0,
                n >= 1,
        ;
    }
}

/// Pixels belong to one region where they touch by their sides: the regions are those of any
/// numbering of such components.
pub proof fn law_regions_touch_by_sides(
    on: Seq<bool>,
    w: int,
    h: int,
    labels: Seq<usize>,
    firsts: Seq<usize>,
)
    requires
        on.len() == w * h,
        numbers_components(on, w, h, false, labels, firsts),
    ensures
        all_regions(on, w, h) == Seq::new(
            firsts.len(),
            |l: int| region_of(labels, w, l + 1, on.len()),
        ),
{
    assert(numbering(on, w, h, false, (labels, firsts)));
    law_numbering_unique(on, w, h, false, (labels, firsts), numbering_of(on, w, h, false));
}

/// Regions of twenty pixels or more are reported, larger ones first; none of them is lost and
/// no smaller one is kept.
pub proof fn law_diff_regions(on: Seq<bool>, w: int, h: int, i: int, j: int, k: int)
    requires
        all_regions(on, w, h).len() <= usize::MAX,
        0 <= i <= j < diff_regions(on, w, h).len(),
        0 <= k < all_regions(on, w, h).len(),
    ensures
        diff_regions(on, w, h)[i].count >= diff_regions(on, w, h)[j].count >= 20,
        all_regions(on, w, h)[k].count >= 20 ==> diff_regions(on, w, h).contains(
            all_regions(on, w, h)[k],
        ),
{
    let all = all_regions(on, w, h);
    let kept = sizable(all, 20, all.len());
    let p = |i: int| !(all[i].count < 20);
    let f = |i: int| all[i];
    law_sizable(all, 20, all.len());
    lemma_which_are(all.len(), p);
    law_largest_first(kept, i, j);
    law_arranging_keeps_all(kept, size_keys(kept), j);
    let d = diff_regions(on, w, h)[j];
    let at = kept.index_of(d);
    assert(kept == which(all.len(), p).map_values(f));
    assert(p(which(all.len(), p)[at]));
    if all[k].count >= 20 {
        assert(p(k));
        let q = which(all.len(), p).index_of(k);
        assert(kept[q] == all[k]);
        law_arranging_keeps_all(kept, size_keys(kept), q);
    }
}

/// A finding on a region has the box in the scan, names the page and the region counted from
/// one, and how many pixels were added.
pub proof fn law_region_findings(page: u32, c: Seq<Cluster>, b: Seq<ScanBox>, n: nat, k: int)
    requires
        0 <= k < n,
    ensures
        ({
            let f = region_findings(page, c, b, n)[k];
            &&& region_findings(page, c, b, n).len() == n
            &&& f.code == "pdf_overlay_region"@ && f.severity == Severity::Critical
            &&& f.region == Some(
                crate::finding::RegionView::BoundingBox {
                    x: b[k].x,
                    y: b[k].y,
                    width: b[k].width,
                    height: b[k].height,
                },
            )
            &&& f.description == "Page "@ + decimal_text((1 + page) as nat) + ": overlay region "@
                + decimal_text((1 + k) as nat) + " at ("@ + decimal_text(b[k].x as nat) + ","@
                + decimal_text(b[k].y as nat) + ") - "@ + decimal_text(c[k].count as nat)
                + " pixels added on top of scan"@
        }),
{
}

/// The limit is told where more pages have images than are compared.
pub proof fn law_when_limit_is_told(images: Seq<EmbeddedImage>, max: u32)
    ensures
        ({
            let f = limit_findings(images, max);
            let due = !(pages_of(images, images.len()).len() <= max);
            &&& f.len() == if due {
                1int
            } else {
                0
            }
            &&& due ==> f[0].analyzer == "pdf_render_compare"@ && f[0].code == "pdf_render_compare_limit"@ && f[0].severity == Severity::Info
                && f[0].confidence == 0x3FF0_0000_0000_0000
        }),
{
}

/// The colours of a scan are those of its file, or its samples, each three times over where they
/// are luminances; samples beyond those needed are left out.
pub proof fn law_scan_colors(i: EmbeddedImage)
    ensures
        i.data matches ImageData::Pixels(b) ==> ({
            let n = i.width * i.height;
            &&& i.components == 3 && b@.len() >= 3 * n ==> scan_colors(i) == Some(
                (i.width, i.height, b@.take(3 * n)),
            )
            &&& i.components == 1 && b@.len() >= n ==> scan_colors(i) == Some(
                (i.width, i.height, tripled(b@.take(n))),
            )
            &&& i.components != 1 && i.components != 3 ==> scan_colors(i) is None
            &&& i.components == 3 && b@.len() < 3 * n ==> scan_colors(i) is None
            &&& i.components == 1 && b@.len() < n ==> scan_colors(i) is None
        }),
        i.data is Other ==> scan_colors(i) is None,
{
    let n = i.width * i.height;
    assert(n * 3 == 3 * n && n * 1 == n);
    assert(i.components == 3 ==> i.width * i.height * i.components == 3 * n) by (nonlinear_arith)
        requires
            n == i.width * i.height,
    ;
    assert(i.components == 1 ==> i.width * i.height * i.components == n) by (nonlinear_arith)
        requires
            n == i.width * i.height,
    ;
}

} // verus!
