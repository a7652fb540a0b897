//! Annotation overlays: an error-level heatmap, a noise map, a colour-filter map, a copy-move
//! border, a composite heatmap of the findings, and a severity overview, as PNG files.

pub mod blend;
pub mod canvas;
pub mod composite;
pub mod layers;

use crate::annotate::canvas::apply_tints;
use crate::annotate::canvas::tinted;
use crate::annotate::composite::bordered;
use crate::annotate::composite::choose_shown;
use crate::annotate::composite::draw_border;
use crate::annotate::composite::draw_marks;
use crate::annotate::composite::draw_overview;
use crate::annotate::composite::overview;
use crate::annotate::composite::shown;
use crate::annotate::composite::with_badge;
use crate::annotate::composite::with_outlines;
use crate::annotate::layers::block_inks;
use crate::annotate::layers::error_inks;
use crate::annotate::layers::ink_blocks;
use crate::annotate::layers::ink_errors;
use crate::annotate::layers::largest;
use crate::annotate::layers::largest_error;
use crate::annotate::layers::Ink;
use crate::context::pdf_bytes;
use crate::context::Context;
use crate::finding::values;
use crate::finding::Finding;
use crate::finding::FindingView;
use crate::jpeg::copy_range;
use crate::raster::png_file;
use crate::raster::png_signature;
use crate::raster::Frame;
use crate::raster::Picture;
use crate::text::begins_with;
use crate::text::same_text;
use vstd::prelude::*;
use vstd::string::*;

verus! {

/// One overlay: its name and its PNG file.
pub struct Overlay {
    pub name: String,
    pub png: Vec<u8>,
}

/// Generated annotation overlays.
pub struct AnnotationSet {
    pub images: Vec<Overlay>,
}

/// The values of a list of overlays.
pub open spec fn overlay_values(v: Seq<Overlay>) -> Seq<(Seq<char>, Seq<u8>)> {
    Seq::new(v.len(), |i: int| (v[i].name@, v[i].png@))
}

impl AnnotationSet {
    /// The file of the overlay with a name.
    pub fn get(&self, name: &str) -> (r: Option<&Vec<u8>>)
        ensures
            match r {
                Some(png) => exists|i: int|
                    0 <= i < self.images@.len() && (#[trigger] self.images@[i]).name@ == name@
                        && self.images@[i].png == *png,
                None => forall|i: int|
                    0 <= i < self.images@.len() ==> (#[trigger] self.images@[i]).name@ != name@,
            },
    {
        let mut i: usize = 0;
        while i < self.images.len()
            invariant
                i <= self.images@.len(),
                forall|j: int| 0 <= j < i ==> (#[trigger] self.images@[j]).name@ != name@,
            decreases self.images@.len() - i,
        {
            if same_text(self.images[i].name.as_str(), name) {
                return Some(&self.images[i].png);
            }
            i += 1;
        }
        None
    }
}

/// The error levels of all pixels, and the ink of every level.
pub struct ErrorLayer {
    pub levels: Vec<u16>,
    pub palette: Vec<Ink>,
}

/// The inks that overlays are painted with, where there are any to paint with: by error
/// level, by 32 by 32 block, by 64 by 64 block, and by pixel; and the weights of the
/// findings as bits.
pub struct Layers {
    pub ela: Option<ErrorLayer>,
    pub noise: Option<Vec<Ink>>,
    pub cfa: Option<Vec<Ink>>,
    pub heat: Option<Vec<Ink>>,
    pub weights: Vec<u64>,
}

impl Layers {
    /// The layers have an ink for everything on a picture that takes one, and a weight for
    /// every finding.
    pub open spec fn fit(&self, p: Picture, findings: nat) -> bool {
        &&& self.ela matches Some(l) ==> l.levels@.len() == p.width * p.height && forall|i: int|
            0 <= i < l.levels@.len() ==> #[trigger] l.levels@[i] < l.palette@.len()
        &&& self.noise matches Some(v) ==> v@.len() == (p.width / 32) * (p.height / 32)
        &&& self.cfa matches Some(v) ==> v@.len() == (p.width / 64) * (p.height / 64)
        &&& self.heat matches Some(v) ==> v@.len() == p.width * p.height
        &&& self.weights@.len() == findings
    }
}

/// The PNG file of painted colours of a picture's size.
pub open spec fn painted(p: Picture, colors: Seq<u8>) -> Option<Seq<u8>> {
    png_file(colors, p.width, p.height, false)
}

/// The error-level overlay: none where no pixel differs by one on average over its channels.
pub open spec fn ela_overlay(p: Picture, l: Layers) -> Option<Seq<u8>> {
    match l.ela {
        Some(e) => if largest(e.levels@, e.levels@.len()) >= 3 {
            painted(p, tinted(p.rgb@, error_inks(e.levels@, e.palette@)))
        } else {
            None
        },
        None => None,
    }
}

/// An overlay of blocks, for a picture of at least three by three blocks.
pub open spec fn block_overlay(p: Picture, inks: Option<Vec<Ink>>, block: int) -> Option<Seq<u8>> {
    match inks {
        Some(v) => if p.width >= 3 * block && p.height >= 3 * block {
            painted(
                p,
                tinted(p.rgb@, block_inks(v@, p.width as int, p.height as int, block)),
            )
        } else {
            None
        },
        None => None,
    }
}

/// Whether a copied region was found.
pub open spec fn copy_found(f: Seq<FindingView>) -> bool {
    exists|i: int| 0 <= i < f.len() && (#[trigger] f[i]).code == "copy_move_detected"@
}

/// The overlay of a copied region: a red border.
pub open spec fn copy_overlay(p: Picture, f: Seq<FindingView>) -> Option<Seq<u8>> {
    if copy_found(f) && p.width >= 4 && p.height >= 4 {
        painted(
            p,
            bordered(p.rgb@, p.width as int, p.height as int, 2, seq![255u8, 0, 0]),
        )
    } else {
        None
    }
}

/// The composite overlay: the heat of the findings that are shown, their outlines and the
/// badge.
pub open spec fn forensic_overlay(p: Picture, f: Seq<FindingView>, l: Layers) -> Option<Seq<u8>> {
    let w = p.width as int;
    let h = p.height as int;
    let s = shown(f, l.weights@, w, h);
    match l.heat {
        Some(v) => if s.len() > 0 {
            painted(
                p,
                with_badge(
                    with_outlines(tinted(p.rgb@, v@), w, h, f, s, s.len()),
                    w,
                    h,
                    s.len() as int,
                ),
            )
        } else {
            None
        },
        None => None,
    }
}

/// The severity overview.
pub open spec fn overview_overlay(p: Picture, f: Seq<FindingView>) -> Option<Seq<u8>> {
    painted(p, overview(p.rgb@, p.width as int, p.height as int, f))
}

/// An overlay under its name, if there is one.
pub open spec fn named(name: Seq<char>, png: Option<Seq<u8>>) -> Seq<(Seq<char>, Seq<u8>)> {
    match png {
        Some(b) => seq![(name, b)],
        None => seq![],
    }
}

/// The overlays of a file. A PDF has no raster to overlay.
pub open spec fn overlays(raw: Seq<u8>, p: Picture, f: Seq<FindingView>, l: Layers) -> Seq<
    (Seq<char>, Seq<u8>),
> {
    if pdf_bytes(raw) {
        seq![]
    } else {
        named("ela"@, ela_overlay(p, l)) + named("noise"@, block_overlay(p, l.noise, 32)) + named(
            "copy_move"@,
            copy_overlay(p, f),
        ) + named("cfa"@, block_overlay(p, l.cfa, 64)) + named(
            "forensic"@,
            forensic_overlay(p, f, l),
        ) + named("overview"@, overview_overlay(p, f))
    }
}

/// The value of an optional file.
pub open spec fn png_value(f: Option<Vec<u8>>) -> Option<Seq<u8>> {
    match f {
        Some(b) => Some(b@),
        None => None,
    }
}

/// A file, if there is one, is a PNG file.
pub open spec fn is_png(f: Option<Vec<u8>>) -> bool {
    f matches Some(b) ==> begins_with(b@, png_signature())
}

fn copy_colors(p: &Picture) -> (r: Vec<u8>)
    ensures
        r@ == p.rgb@,
{
    let r = copy_range(p.rgb.as_slice(), 0, p.rgb.len());
    assert(r@ =~= p.rgb@);
    r
}

fn encode(p: &Picture, colors: Vec<u8>) -> (r: Option<Vec<u8>>)
    requires
        colors@.len() == p.width * p.height * 3,
    ensures
        png_value(r) == painted(*p, colors@),
        is_png(r),
{
    let f = Frame { width: p.width, height: p.height, samples: colors, monochrome: false };
    f.to_png()
}

/// Renders the error-level overlay.
pub fn render_ela(p: &Picture, l: &Layers) -> (r: Option<Vec<u8>>)
    requires
        p.wf(),
        l.fit(*p, l.weights@.len()),
    ensures
        png_value(r) == ela_overlay(*p, *l),
        is_png(r),
{
    match &l.ela {
        Some(e) => {
            if largest_error(&e.levels) < 3 {
                return None;
            }
            let inks = ink_errors(&e.levels, &e.palette);
            let mut canvas = copy_colors(p);
            apply_tints(&mut canvas, &inks);
            encode(p, canvas)
        },
        None => None,
    }
}

fn render_blocks(p: &Picture, inks: &Option<Vec<Ink>>, block: u32) -> (r: Option<Vec<u8>>)
    requires
        p.wf(),
        0 < block <= 64,
        inks matches Some(v) ==> v@.len() == (p.width / block) * (p.height / block),
    ensures
        png_value(r) == block_overlay(*p, *inks, block as int),
        is_png(r),
{
    match inks {
        Some(v) => {
            if p.width < 3 * block || p.height < 3 * block {
                return None;
            }
            assert(p.gray.len() == p.width * p.height);
            let pixels = ink_blocks(v, p.width as usize, p.height as usize, block as usize);
            let mut canvas = copy_colors(p);
            apply_tints(&mut canvas, &pixels);
            encode(p, canvas)
        },
        None => None,
    }
}

/// Renders the noise overlay.
pub fn render_noise_map(p: &Picture, l: &Layers) -> (r: Option<Vec<u8>>)
    requires
        p.wf(),
        l.fit(*p, l.weights@.len()),
    ensures
        png_value(r) == block_overlay(*p, l.noise, 32),
        is_png(r),
{
    render_blocks(p, &l.noise, 32)
}

/// Renders the colour-filter overlay.
pub fn render_cfa_map(p: &Picture, l: &Layers) -> (r: Option<Vec<u8>>)
    requires
        p.wf(),
        l.fit(*p, l.weights@.len()),
    ensures
        png_value(r) == block_overlay(*p, l.cfa, 64),
        is_png(r),
{
    render_blocks(p, &l.cfa, 64)
}

/// Renders the overlay of a copied region.
pub fn render_copy_move(p: &Picture, findings: &Vec<Finding>) -> (r: Option<Vec<u8>>)
    requires
        p.wf(),
    ensures
        png_value(r) == copy_overlay(*p, values(findings@)),
        is_png(r),
{
    let ghost f = values(findings@);
    let mut found = false;
    let mut i: usize = 0;
    while i < findings.len()
        invariant
            i <= findings@.len(),
            f == values(findings@),
            found == exists|j: int| 0 <= j < i && (#[trigger] f[j]).code == "copy_move_detected"@,
        decreases findings@.len() - i,
    {
        assert(f[i as int] == findings@[i as int]@);
        if same_text(findings[i].code.as_str(), "copy_move_detected") {
            found = true;
        }
        i += 1;
    }
    if !found || p.width < 4 || p.height < 4 {
        return None;
    }
    let red: [u8; 3] = [255, 0, 0];
    assert(red@ =~= seq![255u8, 0, 0]);
    let mut canvas = copy_colors(p);
    draw_border(&mut canvas, p.width as usize, p.height as usize, 2, red);
    encode(p, canvas)
}

/// Renders the composite overlay of the findings.
pub fn render_forensic_composite(p: &Picture, findings: &Vec<Finding>, l: &Layers) -> (r: Option<
    Vec<u8>,
>)
    requires
        p.wf(),
        p.width > 0,
        p.height > 0,
        l.fit(*p, findings@.len()),
    ensures
        png_value(r) == forensic_overlay(*p, values(findings@), *l),
        is_png(r),
{
    let chosen = choose_shown(findings, &l.weights, p.width, p.height);
    if chosen.len() == 0 {
        return None;
    }
    match &l.heat {
        Some(inks) => {
            let mut canvas = copy_colors(p);
            apply_tints(&mut canvas, inks);
            draw_marks(&mut canvas, p.width as usize, p.height as usize, findings, &chosen);
            encode(p, canvas)
        },
        None => None,
    }
}

/// Renders the severity overview.
pub fn render_overview(p: &Picture, findings: &Vec<Finding>) -> (r: Option<Vec<u8>>)
    requires
        p.wf(),
    ensures
        png_value(r) == overview_overlay(*p, values(findings@)),
        is_png(r),
{
    let mut canvas = copy_colors(p);
    draw_overview(&mut canvas, p.width as usize, p.height as usize, findings);
    encode(p, canvas)
}

fn put(list: &mut Vec<Overlay>, name: &str, png: Option<Vec<u8>>)
    requires
        is_png(png),
        forall|i: int|
            0 <= i < old(list)@.len() ==> begins_with(
                (#[trigger] old(list)@[i]).png@,
                png_signature(),
            ),
    ensures
        overlay_values(final(list)@) == overlay_values(old(list)@) + named(name@, png_value(png)),
        forall|i: int|
            0 <= i < final(list)@.len() ==> begins_with(
                (#[trigger] final(list)@[i]).png@,
                png_signature(),
            ),
{
    let ghost before = list@;
    match png {
        Some(b) => {
            list.push(Overlay { name: name.to_string(), png: b });
            assert(overlay_values(list@) =~= overlay_values(before) + named(name@, Some(b@)));
        },
        None => {
            assert(overlay_values(list@) =~= overlay_values(before) + named(name@, None));
        },
    }
}

/// Generates every applicable annotation overlay for an analyzed file.
pub fn render(ctx: &Context, findings: &Vec<Finding>, layers: &Layers) -> (r: AnnotationSet)
    requires
        ctx.wf(),
        layers.fit(ctx.image, findings@.len()),
    ensures
        overlay_values(r.images@) == overlays(
            ctx.raw_bytes@,
            ctx.image,
            values(findings@),
            *layers,
        ),
        forall|i: int|
            0 <= i < r.images@.len() ==> begins_with(
                (#[trigger] r.images@[i]).png@,
                png_signature(),
            ),
{
    let mut images: Vec<Overlay> = Vec::new();
    assert(overlay_values(images@) =~= seq![]);
    if ctx.is_pdf() {
        return AnnotationSet { images };
    }
    let p = &ctx.image;
    put(&mut images, "ela", render_ela(p, layers));
    put(&mut images, "noise", render_noise_map(p, layers));
    put(&mut images, "copy_move", render_copy_move(p, findings));
    put(&mut images, "cfa", render_cfa_map(p, layers));
    put(&mut images, "forensic", render_forensic_composite(p, findings, layers));
    put(&mut images, "overview", render_overview(p, findings));
    assert(overlay_values(images@) =~= overlays(
        ctx.raw_bytes@,
        ctx.image,
        values(findings@),
        *layers,
    ));
    AnnotationSet { images }
}

/// A PDF has no overlays.
pub proof fn law_pdf_has_no_overlays(raw: Seq<u8>, p: Picture, f: Seq<FindingView>, l: Layers)
    requires
        pdf_bytes(raw),
    ensures
        overlays(raw, p, f, l).len() == 0,
{
}

/// No two overlays of a file have the same name.
pub proof fn law_overlay_names_distinct(
    raw: Seq<u8>,
    p: Picture,
    f: Seq<FindingView>,
    l: Layers,
    i: int,
    j: int,
)
    requires
        0 <= i < j < overlays(raw, p, f, l).len(),
    ensures
        overlays(raw, p, f, l)[i].0 != overlays(raw, p, f, l)[j].0,
{
    reveal_strlit("ela");
    reveal_strlit("noise");
    reveal_strlit("copy_move");
    reveal_strlit("cfa");
    reveal_strlit("forensic");
    reveal_strlit("overview");
    assert("ela"@[0] == 'e' && "noise"@[0] == 'n' && "copy_move"@[1] == 'o' && "cfa"@[1] == 'f');
    assert("forensic"@[0] == 'f' && "overview"@[0] == 'o' && "copy_move"@[0] == 'c' && "cfa"@[0]
        == 'c');
}

/// Which overlays a picture has: error levels where one is three or more; a map of noise from
/// 96 pixels and one of colour filters from 192 pixels on each side; the border where a clone
/// was found; the heat where a finding is shown; and the overview always. Each is there only
/// where its file was written.
pub proof fn law_which_overlays(raw: Seq<u8>, p: Picture, f: Seq<FindingView>, l: Layers)
    requires
        !pdf_bytes(raw),
    ensures
        ela_overlay(p, l) is Some ==> l.ela is Some && largest(
            l.ela->Some_0.levels@,
            l.ela->Some_0.levels@.len(),
        ) > 2,
        block_overlay(p, l.noise, 32) is Some ==> p.width >= 96 && p.height >= 96,
        block_overlay(p, l.cfa, 64) is Some ==> p.width >= 192 && p.height >= 192,
        copy_overlay(p, f) is Some ==> exists|i: int|
            0 <= i < f.len() && (#[trigger] f[i]).code == "copy_move_detected"@,
        (exists|i: int| 0 <= i < f.len() && (#[trigger] f[i]).code == "copy_move_detected"@)
            && p.width >= 4 && p.height >= 4 ==> copy_overlay(p, f) == png_file(
            bordered(p.rgb@, p.width as int, p.height as int, 2, seq![255u8, 0, 0]),
            p.width,
            p.height,
            false,
        ),
        overlays(raw, p, f, l).len() == (if ela_overlay(p, l) is Some {
            1int
        } else {
            0
        }) + (if block_overlay(p, l.noise, 32) is Some {
            1int
        } else {
            0
        }) + (if copy_overlay(p, f) is Some {
            1int
        } else {
            0
        }) + (if block_overlay(p, l.cfa, 64) is Some {
            1int
        } else {
            0
        }) + (if forensic_overlay(p, f, l) is Some {
            1int
        } else {
            0
        }) + (if overview_overlay(p, f) is Some {
            1int
        } else {
            0
        }),
        overview_overlay(p, f) is Some ==> overlays(raw, p, f, l).last() == (
            "overview"@,
            overview_overlay(p, f)->Some_0,
        ),
{
}

/// What each overlay paints, and when: errors from a level of three on, blocks where there are three
/// of them in each direction, and the heat where a finding is shown.
pub proof fn law_what_overlays_show(p: Picture, f: Seq<FindingView>, l: Layers, block: int)
    ensures
        ({
            let (w, h) = (p.width as int, p.height as int);
            let s = shown(f, l.weights@, w, h);
            &&& l.ela matches Some(e) ==> ela_overlay(p, l) == if largest(
                e.levels@,
                e.levels@.len(),
            ) > 2 {
                png_file(tinted(p.rgb@, error_inks(e.levels@, e.palette@)), p.width, p.height, false)
            } else {
                None
            }
            &&& l.noise matches Some(v) ==> block_overlay(p, l.noise, block) == if w / 3 < block || h
                / 3 < block {
                None
            } else {
                png_file(tinted(p.rgb@, block_inks(v@, w, h, block)), p.width, p.height, false)
            }
            &&& l.heat matches Some(v) ==> forensic_overlay(p, f, l) == if s.len() == 0 {
                None
            } else {
                png_file(
                    with_badge(
                        with_outlines(tinted(p.rgb@, v@), w, h, f, s, s.len()),
                        w,
                        h,
                        s.len() as int,
                    ),
                    p.width,
                    p.height,
                    false,
                )
            }
        }),
        l.ela is None ==> ela_overlay(p, l) is None,
        l.noise is None ==> block_overlay(p, l.noise, block) is None,
        l.heat is None ==> forensic_overlay(p, f, l) is None,
        !copy_found(f) || p.width < 4 || p.height < 4 ==> copy_overlay(p, f) is None,
{
}

} // verus!
