use paddock_forensics::annotate::blend::blend_pixel;
use paddock_forensics::annotate::canvas::{apply_tints, darken, fill};
use paddock_forensics::annotate::composite::{
    choose_shown, draw_border, draw_marks, draw_overview, heat_of,
};
use paddock_forensics::annotate::layers::{
    ink_blocks, ink_errors, largest_error, measure_errors, measure_filter, measure_noise,
};
use paddock_forensics::annotate::{render, ErrorLayer, Layers};
use paddock_forensics::context::Context;
use paddock_forensics::finding::{Finding, Region, Severity};
use paddock_forensics::raster::{Frame, Picture};

/// A gradient|checker PNG large enough for the block-based overlays.
fn synth_png() -> Vec<u8> {
    let (w, h) = (256u32, 256u32);
    let mut rgb = vec![0u8; (w * h * 3) as usize];
    for y in 0..h {
        for x in 0..w {
            let i = ((y * w + x) * 3) as usize;
            let v: u8 = if x < 128 {
                if (x + y) & 1 == 0 {
                    0
                } else {
                    255
                }
            } else {
                (y * 255 / h) as u8
            };
            rgb[i] = v;
            rgb[i + 1] = v;
            rgb[i + 2] = v;
        }
    }
    Frame { width: w, height: h, samples: rgb, monochrome: false }.to_png().unwrap()
}

fn valid_png(bytes: &[u8]) -> bool {
    bytes.len() > 8 && &bytes[0..8] == b"\x89PNG\r\n\x1a\n"
}

fn weight(s: Severity) -> f64 {
    match s {
        Severity::Info => 0.1,
        Severity::Low => 0.3,
        Severity::Medium => 0.6,
        Severity::High => 0.9,
        Severity::Critical => 1.0,
    }
}

fn boxed(code: &str, s: Severity, c: f64, x: u32, y: u32, width: u32, height: u32) -> Finding {
    Finding::new("copy_move", code, "d".to_string(), s, c.to_bits())
        .with_region(Region::BoundingBox { x, y, width, height })
}

fn weights(findings: &Vec<Finding>) -> Vec<u64> {
    findings
        .iter()
        .map(|f| (weight(f.severity) * f64::from_bits(f.confidence)).to_bits())
        .collect()
}

/// Layers with red ink wherever a finding that is shown adds heat.
fn layers(ctx: &Context, findings: &Vec<Finding>) -> Layers {
    let p = &ctx.image;
    let red = Some([255, 0, 0, 180]);
    let weights = weights(findings);
    let mut heat = vec![None; p.gray.len()];
    for i in choose_shown(findings, &weights, p.width, p.height) {
        for h in heat_of(findings[i].region.as_ref().unwrap(), p.width, p.height) {
            if h.num > 0 {
                heat[h.at] = red;
            }
        }
    }
    let blocks = |b: u32| vec![red; ((p.width / b) * (p.height / b)) as usize];
    Layers {
        ela: measure_errors(p).map(|levels| ErrorLayer { levels, palette: vec![red; 766] }),
        noise: Some(blocks(32)),
        cfa: Some(blocks(64)),
        heat: Some(heat),
        weights,
    }
}

#[test]
fn renders_overlays_as_valid_pngs() {
    let ctx = Context::from_bytes(synth_png(), vec![], None).ok().unwrap();
    let findings = vec![
        Finding::new("copy_move", "copy_move_detected", "d".to_string(), Severity::Critical, 0.9f64.to_bits())
            .with_region(Region::BoundingBox { x: 10, y: 10, width: 20, height: 20 }),
        Finding::new("ela", "ela_block_outliers", "d".to_string(), Severity::High, 0.8f64.to_bits())
            .with_region(Region::BoundingBox { x: 40, y: 40, width: 16, height: 16 }),
    ];
    let set = render(&ctx, &findings, &layers(&ctx, &findings));
    assert!(set.get("overview").is_some());
    assert!(set.get("forensic").is_some());
    for o in &set.images {
        assert!(valid_png(&o.png), "{} is not a valid PNG", o.name);
    }
    let names: Vec<&str> = set.images.iter().map(|o| o.name.as_str()).collect();
    assert_eq!(names, vec!["ela", "noise", "copy_move", "cfa", "forensic", "overview"]);
}

#[test]
fn pdf_context_produces_no_overlays() {
    let ctx = Context::from_bytes(b"%PDF-1.4\ntrailer<<>>\n%%EOF".to_vec(), vec![], None).ok().unwrap();
    let none = vec![];
    let l = Layers { ela: None, noise: None, cfa: None, heat: None, weights: vec![] };
    let set = render(&ctx, &none, &l);
    assert!(set.images.is_empty(), "PDFs have no raster to overlay");
}

#[test]
fn overlays_show_what_was_painted() {
    let ctx = Context::from_bytes(synth_png(), vec![], None).ok().unwrap();
    let findings = vec![boxed("x", Severity::High, 0.8, 100, 100, 20, 20)];
    let set = render(&ctx, &findings, &layers(&ctx, &findings));
    assert!(set.get("copy_move").is_none());
    let p = Picture::decode(set.get("forensic").unwrap()).unwrap();
    let at = |x: usize, y: usize| [p.rgb[(y * 256 + x) * 3], p.rgb[(y * 256 + x) * 3 + 1], p.rgb[(y * 256 + x) * 3 + 2]];
    assert_eq!(at(100, 100), [255, 140, 0]);
    assert_eq!(at(98, 98), [255, 140, 0]);
    assert_eq!(at(122, 110), [255, 140, 0]);
    assert_eq!(at(5, 5), [40, 40, 40]);
    let base = ctx.image.rgb[(110 * 256 + 110) * 3];
    assert_eq!(at(110, 110), blend_pixel([base, base, base], [255, 0, 0, 180]));
    let o = Picture::decode(set.get("overview").unwrap()).unwrap();
    assert_eq!(o.rgb[0..3], [76, 24, 0]);
    assert_eq!(o.rgb[(255 * 256 + 9) * 3..(255 * 256 + 9) * 3 + 3], [255, 80, 0]);
}

#[test]
fn nothing_to_show_gives_no_composite() {
    let ctx = Context::from_bytes(synth_png(), vec![], None).ok().unwrap();
    let findings = vec![Finding::new("ela", "x", "d".to_string(), Severity::High, 0.5f64.to_bits())];
    let set = render(&ctx, &findings, &layers(&ctx, &findings));
    assert!(set.get("forensic").is_none());
    assert!(set.get("overview").is_some());
}

fn reference_blend(base: u8, overlay: u8, opacity: u8) -> u8 {
    let alpha = opacity as f64 / 255.0;
    let inv_alpha = 1.0 - alpha;
    (base as f64 * inv_alpha + overlay as f64 * alpha) as u8
}

#[test]
fn colors_blend_as_doubles_do() {
    for opacity in [0u8, 1, 77, 128, 180, 254, 255] {
        for b in 0..=255u8 {
            for o in 0..=255u8 {
                let got = blend_pixel([b, b, b], [o, o, o, opacity]);
                let want = reference_blend(b, o, opacity);
                assert_eq!(got, [want, want, want]);
            }
        }
    }
}

#[test]
fn dark_strips_drop_the_fraction() {
    for v in 0..=255u8 {
        let mut c = vec![v; 6];
        darken(&mut c, 1, 2, 1);
        let want = (v as f64 * 0.3) as u8;
        assert_eq!(c, vec![want, want, want, v, v, v]);
    }
}

#[test]
fn rectangles_are_filled_inside_only() {
    let mut c = vec![0u8; 5 * 4 * 3];
    fill(&mut c, 5, 4, 1, 1, 3, 4, [7, 8, 9]);
    for y in 0..4 {
        for x in 0..5 {
            let i = (y * 5 + x) * 3;
            let inside = x >= 1 && x < 3 && y >= 1;
            assert_eq!(c[i..i + 3], if inside { [7, 8, 9] } else { [0, 0, 0] });
        }
    }
    let mut d = c.clone();
    fill(&mut d, 5, 4, 3, 3, 2, 2, [1, 1, 1]);
    assert_eq!(c, d);
}

#[test]
fn tints_leave_other_pixels_alone() {
    let mut c = vec![10u8, 20, 30, 40, 50, 60];
    apply_tints(&mut c, &vec![None, Some([0, 0, 0, 255])]);
    assert_eq!(c, vec![10, 20, 30, 0, 0, 0]);
}

#[test]
fn shown_findings_are_ranked() {
    let f = vec![
        boxed("a", Severity::Low, 1.0, 0, 0, 1, 1),
        boxed("b", Severity::Medium, 0.5, 0, 0, 1, 1),
        boxed("c", Severity::Critical, 0.9, 0, 0, 1, 1),
        boxed("document_block_anomaly_x", Severity::Critical, 1.0, 0, 0, 1, 1),
        boxed("d", Severity::Medium, 0.5, 0, 0, 1, 1),
        boxed("wide", Severity::Critical, 1.0, 0, 0, 20, 10),
        boxed("narrow", Severity::High, 0.1, 0, 0, 20, 9),
    ];
    let w = weights(&f);
    assert_eq!(choose_shown(&f, &w, 100, 100), vec![2, 1, 4, 6]);
    let many: Vec<Finding> = (0..20).map(|_| boxed("x", Severity::High, 0.5, 0, 0, 1, 1)).collect();
    let w = weights(&many);
    assert_eq!(choose_shown(&many, &w, 100, 100), (0..15).collect::<Vec<usize>>());
}

#[test]
fn boxes_have_soft_edges() {
    let h = heat_of(&Region::BoundingBox { x: 2, y: 1, width: 8, height: 8 }, 20, 20);
    assert_eq!(h.len(), 64);
    assert_eq!((h[0].at, h[0].num, h[0].den), (22, 0, 2));
    let center = h.iter().find(|v| v.at == 5 * 20 + 6).unwrap();
    assert_eq!((center.num, center.den), (2, 2));
    let edge = h.iter().find(|v| v.at == 2 * 20 + 6).unwrap();
    assert_eq!((edge.num, edge.den), (1, 2));
    let thin = heat_of(&Region::BoundingBox { x: 0, y: 0, width: 3, height: 1 }, 20, 20);
    assert!(thin.iter().all(|v| v.num == 1 && v.den == 1) && thin.len() == 3);
    assert!(heat_of(&Region::BoundingBox { x: 50, y: 0, width: 3, height: 1 }, 20, 20).is_empty());
}

#[test]
fn points_fall_off() {
    let h = heat_of(&Region::Points { points: vec![[20, 20]] }, 40, 40);
    let at = |x: usize, y: usize| h.iter().find(|v| v.at == y * 40 + x).map(|v| (v.num, v.den));
    assert_eq!(at(20, 20), Some((256, 256)));
    assert_eq!(at(28, 20), Some((192, 256)));
    assert_eq!(at(4, 20), None);
    assert_eq!(at(35, 20), Some((31, 256)));
    let outside = heat_of(&Region::Points { points: vec![[500, 500]] }, 40, 40);
    assert!(outside.is_empty());
}

#[test]
fn masks_add_where_they_are_set() {
    let r = Region::Mask { width: 3, height: 2, data: vec![255, 0, 128, 127, 255] };
    let h = heat_of(&r, 2, 5);
    let at: Vec<usize> = h.iter().map(|v| v.at).collect();
    assert_eq!(at, vec![0, 3]);
}

#[test]
fn badges_widen_with_digits() {
    let one: Vec<Finding> = vec![boxed("x", Severity::Medium, 0.5, 0, 0, 1, 1)];
    let mut c = vec![0u8; 60 * 40 * 3];
    draw_marks(&mut c, 60, 40, &one, &vec![0]);
    let dark = |c: &Vec<u8>, x: usize, y: usize| c[(y * 60 + x) * 3] == 40;
    assert!(dark(&c, 2, 2) && dark(&c, 16, 17) && !dark(&c, 17, 2) && !dark(&c, 2, 18));
    let mut d = vec![0u8; 60 * 40 * 3];
    draw_marks(&mut d, 60, 40, &one, &vec![0; 10]);
    assert!(dark(&d, 23, 2) && !dark(&d, 24, 2));
}

#[test]
fn borders_and_overviews() {
    let mut c = vec![0u8; 10 * 10 * 3];
    draw_border(&mut c, 10, 10, 2, [255, 0, 0]);
    let red = |c: &Vec<u8>, x: usize, y: usize| c[(y * 10 + x) * 3] == 255;
    assert!(red(&c, 0, 5) && red(&c, 1, 5) && !red(&c, 2, 5) && red(&c, 8, 5) && red(&c, 5, 9));
    let mut o = vec![0u8; 10 * 40 * 3];
    draw_overview(&mut o, 10, 40, &vec![]);
    assert_eq!(o[0..3], [30, 60, 30]);
    assert_eq!(o[(39 * 10) * 3..(39 * 10) * 3 + 3], [100, 200, 100]);
}

#[test]
fn layers_are_measured() {
    let gray = vec![3u8; 32 * 32];
    assert_eq!(measure_noise(&gray, 32, 32), vec![(3 * 1024, 9 * 1024)]);
    assert!(measure_noise(&gray, 16, 64).is_empty());
    let mut rgb = vec![0u8; 64 * 64 * 3];
    for y in 0..64 {
        for x in 0..64 {
            rgb[(y * 64 + x) * 3 + 1] = if (x + y) % 2 == 0 { 10 } else { 0 };
        }
    }
    assert_eq!(measure_filter(&rgb, 64, 64), vec![(40 * 1922, 40 * 1922)]);
    assert_eq!(largest_error(&vec![3, 9, 2]), 9);
    let a = Some([1, 1, 1, 1]);
    assert_eq!(ink_errors(&vec![1, 0], &vec![None, a]), vec![a, None]);
    let b = ink_blocks(&vec![a], 3, 2, 2);
    assert_eq!(b, vec![a, a, None, a, a, None]);
}

#[test]
fn unchanged_pictures_have_no_error_overlay() {
    let f = Frame { width: 16, height: 16, samples: vec![128; 256], monochrome: true };
    let p = Picture::decode(&f.to_png().unwrap()).unwrap();
    let e = measure_errors(&p).unwrap();
    assert!(largest_error(&e) < 3);
}
