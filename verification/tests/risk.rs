use paddock_forensics::finding::{Finding, Region, Severity};
use paddock_forensics::risk::dedup::dedup_exact;
use paddock_forensics::risk::explanation::explain;
use paddock_forensics::risk::score::{score, score_to_level, RiskReport};
use paddock_forensics::risk::stage::{
    count_families, cross_corroboration_bonus, score_terms, severity_weight, stage_of, Stage,
};

fn f(analyzer: &str, code: &str, sev: Severity, conf: f64) -> Finding {
    Finding::new(analyzer, code, "desc".to_string(), sev, conf.to_bits())
}

/// The risk score of findings, in tenths: diminishing returns on the weighted sum.
fn tenths(findings: &Vec<Finding>) -> u32 {
    let mut sum = 0.0f64;
    for t in score_terms(findings) {
        sum += t.severity as f64 * f64::from_bits(t.confidence) * (t.stage as f64 / 10.0);
    }
    sum *= 1.0 + cross_corroboration_bonus(findings) as f64 / 100.0;
    let normalized = 100.0 * (1.0 - (-sum / 80.0).exp());
    (normalized * 10.0).round() as u32
}

fn scored(findings: &Vec<Finding>) -> RiskReport {
    score(findings, tenths(&dedup_exact(findings)))
}

#[test]
fn empty_is_zero_risk() {
    let r = scored(&vec![]);
    assert_eq!(r.risk_score, 0);
    assert_eq!(r.risk_level, Severity::Info);
    assert!(r.key_findings.is_empty());
}

#[test]
fn exact_duplicates_collapse() {
    let dups = vec![
        f("jpeg_forensics", "jpeg_quality_estimate", Severity::Medium, 0.5),
        f("double_jpeg", "jpeg_quality_estimate", Severity::Medium, 0.7),
    ];
    let deduped = dedup_exact(&dups);
    assert_eq!(deduped.len(), 1, "identical code+description collapses");
    assert_eq!(f64::from_bits(deduped[0].confidence), 0.7, "keeps max confidence");
}

#[test]
fn corroboration_and_categories() {
    let findings = vec![
        f("copy_move", "copy_move_detected", Severity::Critical, 0.9),
        f("prnu", "prnu_inconsistency", Severity::High, 0.8),
        f("metadata", "ai_generator_tag", Severity::Critical, 0.95),
    ];
    let r = scored(&findings);
    assert!(r.risk_score > 600, "strong multi-family evidence, got {}", r.risk_score);
    assert_eq!(r.verdict.corroborating_stages, 3);
    assert_eq!(r.risk_level, Severity::Critical);
    assert!(r.key_findings.len() >= 3);
    assert_eq!(r.key_findings[0].severity, Severity::Critical);
}

#[test]
fn info_findings_do_not_raise_risk() {
    let findings = vec![f("c2pa", "c2pa_manifest_present", Severity::Info, 0.95)];
    let r = scored(&findings);
    assert_eq!(r.risk_score, 0, "info findings carry zero severity weight");
    assert!(
        r.key_findings.is_empty(),
        "info findings are below the Medium key-finding gate"
    );
}

#[test]
fn dedup_keeps_distinct_findings_and_is_idempotent() {
    let v = vec![
        f("a", "one", Severity::Low, 0.2),
        f("b", "two", Severity::Low, 0.3),
        f("c", "one", Severity::Low, 0.9),
    ];
    let once = dedup_exact(&v);
    assert_eq!(once.len(), 2);
    assert_eq!(once[0].code, "one");
    assert_eq!(once[0].confidence, 0.9f64.to_bits());
    assert_eq!(once[1].code, "two");
    let twice = dedup_exact(&once);
    assert_eq!(twice.len(), 2);
    assert_eq!(twice[0].confidence, once[0].confidence);
}

#[test]
fn families_and_weights() {
    assert_eq!(stage_of("metadata"), Stage::Metadata);
    assert_eq!(stage_of("exif_pixel"), Stage::Metadata);
    assert_eq!(stage_of("frequency"), Stage::AiDetect);
    assert_eq!(stage_of("prnu"), Stage::Signal);
    assert_eq!(stage_of("pdf_overlay"), Stage::Pdf);
    assert_eq!(stage_of("ela"), Stage::Pixel);
    assert_eq!(Stage::AiDetect.weight(), 13);
    assert_eq!(severity_weight(Severity::Info), 0);
    assert_eq!(severity_weight(Severity::Critical), 80);
    assert!(severity_weight(Severity::Low) < severity_weight(Severity::High));
}

#[test]
fn families_need_material_confidence() {
    let v = vec![
        f("ela", "x", Severity::Medium, 0.5),
        f("prnu", "x", Severity::Medium, 0.51),
        f("metadata", "x", Severity::Low, 0.9),
    ];
    assert_eq!(count_families(&v), 1);
    assert_eq!(cross_corroboration_bonus(&v), 0);
    let w = vec![
        f("ela", "x", Severity::Medium, 0.6),
        f("prnu", "x", Severity::High, 0.6),
        f("metadata", "x", Severity::High, 0.6),
        f("frequency", "x", Severity::High, 0.6),
        f("pdf_images", "x", Severity::High, 0.6),
    ];
    assert_eq!(count_families(&w), 5);
    assert_eq!(cross_corroboration_bonus(&w), 60);
}

#[test]
fn levels_rise_with_the_score() {
    assert_eq!(score_to_level(0), Severity::Info);
    assert_eq!(score_to_level(149), Severity::Info);
    assert_eq!(score_to_level(150), Severity::Low);
    assert_eq!(score_to_level(350), Severity::Medium);
    assert_eq!(score_to_level(600), Severity::High);
    assert_eq!(score_to_level(799), Severity::High);
    assert_eq!(score_to_level(800), Severity::Critical);
}

#[test]
fn key_findings_are_sorted_and_list_sources() {
    let v = vec![
        Finding::new("splice_boundary", "splice_boundary_detected", "s".to_string(), Severity::High, 0.7f64.to_bits())
            .with_region(Region::BoundingBox { x: 0, y: 0, width: 50, height: 50 }),
        Finding::new("splice_b", "splice_boundary_other", "t".to_string(), Severity::Medium, 0.6f64.to_bits())
            .with_region(Region::BoundingBox { x: 5, y: 6, width: 7, height: 8 }),
        f("copy_move", "copy_move_detected", Severity::Critical, 0.9),
    ];
    let r = scored(&v);
    assert_eq!(r.key_findings.len(), 2);
    assert_eq!(r.key_findings[0].title, "Copy-move forgery");
    assert_eq!(r.key_findings[1].title, "Splice boundary detection (2 signals)");
    assert_eq!(r.key_findings[1].sources, vec!["splice_b".to_string(), "splice_boundary".to_string()]);
    assert_eq!(r.key_findings[1].count, 2);
    match &r.key_findings[1].region {
        Some(Region::BoundingBox { x, y, width, height }) => {
            assert_eq!((*x, *y, *width, *height), (5, 6, 7, 8));
        }
        _ => panic!("the smallest box is kept"),
    }
}

#[test]
fn minor_findings_make_no_key() {
    let v = vec![f("ela", "ela_high_mean_error", Severity::Low, 0.5)];
    assert!(scored(&v).key_findings.is_empty());
}

#[test]
fn explanations_group_codes() {
    let v = vec![
        f("ela", "ela_block_outliers", Severity::High, 0.8),
        f("noise", "noise_inconsistency", Severity::Medium, 0.6),
    ];
    let e = explain(&v, 500, Severity::Medium);
    assert_eq!(e.categories.len(), 2);
    assert!(e.categories.iter().any(|c| c.name == "Compression Artifacts"));
    assert!(e.categories.iter().any(|c| c.name == "Noise Inconsistency"));
    assert!(e.anti_forensics_warning.is_none());
    assert!(!e.summary.is_empty());
}

#[test]
fn terms_hold_the_factors() {
    let v = vec![f("ela", "x", Severity::High, 0.25), f("c2pa", "y", Severity::Info, 1.0)];
    let t = score_terms(&v);
    assert_eq!((t[0].severity, t[0].stage), (50, 12));
    assert_eq!(f64::from_bits(t[0].confidence), 0.25);
    assert_eq!((t[1].severity, t[1].stage), (0, 8));
}

#[test]
fn every_family_of_codes_has_a_category() {
    let titles = |analyzer: &str, code: &str| -> Vec<String> {
        let v = vec![f(analyzer, code, Severity::High, 0.85)];
        scored(&v).key_findings.into_iter().map(|k| k.title).collect()
    };
    assert_eq!(titles("thumbnail_check", "thumbnail_mismatch"), vec!["Metadata / provenance anomaly"]);
    assert_eq!(titles("metadata", "low_resolution_document"), vec!["Metadata / provenance anomaly"]);
    assert_eq!(
        titles("wavelet_consistency", "wavelet_detail_anomaly"),
        vec!["Frequency / AI-generation signature"]
    );
    for code in ["shifted_jpeg_grid", "non_standard_quantization", "jpeg_quality_estimate"] {
        assert_eq!(titles("double_jpeg", code), vec!["Compression history anomaly"]);
    }
    assert_eq!(titles("prnu", "low_pce"), vec!["Sensor/optics anomaly"]);
    assert_eq!(titles("document_forensics", "document_detected"), vec!["Document text manipulation"]);
    assert_eq!(titles("texture_consistency", "texture_anomaly"), vec!["Texture/color anomaly"]);
    assert!(titles("host", "unheard_of").is_empty());
}

#[test]
fn key_findings_keep_the_smallest_region_of_any_kind() {
    let clone = |region: Region, conf: f64| {
        Finding::new("copy_move", "copy_move_detected", format!("{conf}"), Severity::High, conf.to_bits())
            .with_region(region)
    };
    let points = Region::Points { points: vec![[1, 2], [3, 4], [5, 6]] };
    let r = scored(&vec![clone(points.clone(), 0.9)]);
    assert_eq!(r.key_findings[0].region, Some(points.clone()));
    let mask = Region::Mask { width: 2, height: 2, data: vec![0, 255, 127, 128] };
    let square = Region::BoundingBox { x: 0, y: 0, width: 2, height: 2 };
    let v = vec![clone(square.clone(), 0.9), clone(points.clone(), 0.8), clone(mask.clone(), 0.7)];
    assert_eq!(scored(&v).key_findings[0].region, Some(mask));
    let line = Region::BoundingBox { x: 9, y: 9, width: 3, height: 1 };
    let v = vec![clone(square, 0.9), clone(line.clone(), 0.8), clone(points, 0.7)];
    assert_eq!(scored(&v).key_findings[0].region, Some(line), "the first of equals");
    let v = vec![f("copy_move", "copy_move_detected", Severity::High, 0.9)];
    assert_eq!(scored(&v).key_findings[0].region, None);
}

#[test]
fn one_more_finding_never_lowers_the_score() {
    let start = vec![
        f("ela", "ela_block_outliers", Severity::High, 0.6),
        f("prnu", "prnu_absent", Severity::Medium, 0.4),
    ];
    let before = tenths(&dedup_exact(&start));
    let with = |more: Finding| {
        let mut all = start.clone();
        all.push(more);
        tenths(&dedup_exact(&all))
    };
    assert!(with(f("ela", "ela_block_outliers", Severity::High, 0.9)) > before);
    assert_eq!(with(f("ela", "ela_block_outliers", Severity::High, 0.1)), before);
    assert!(with(f("c2pa", "c2pa_removed", Severity::Medium, 0.7)) > before);
    assert_eq!(with(f("c2pa", "c2pa_manifest_present", Severity::Info, 1.0)), before);
}
