use paddock_forensics::analyzer::{
    advance, begin, check_resolution, default_analyzers, AnalyzerKind, Gate, Next, Outcome, Path,
    Report,
};
use paddock_forensics::context::{ContentType, Context};
use paddock_forensics::finding::{Finding, Severity};
use paddock_forensics::raster::Frame;

fn raster(w: u32, h: u32) -> Context {
    let f = Frame { width: w, height: h, samples: vec![200; (w * h) as usize], monochrome: true };
    Context::from_bytes(f.to_png().unwrap(), vec![], None).ok().unwrap()
}

fn pdf() -> Context {
    Context::from_bytes(b"%PDF-1.4\ntrailer<<>>\n%%EOF".to_vec(), vec![], None).ok().unwrap()
}

fn finding(code: &str) -> Finding {
    Finding::new("ela", code, "d".to_string(), Severity::High, 0.5f64.to_bits())
}

#[test]
fn analyzer_panic_is_isolated() {
    let ctx = pdf();
    let applies = AnalyzerKind::Metadata.applies_to(&ctx);
    let path = match begin(applies, false) {
        Next::Run(p) => p,
        Next::Done(_) => panic!("the analyzer applies"),
    };
    let out = match advance(path, Outcome::Panicked) {
        Next::Done(f) => f,
        Next::Run(_) => panic!("a panic ends the analyzer"),
    };
    assert!(
        out.is_empty(),
        "a panicking analyzer must yield no findings, not abort"
    );
}

#[test]
fn the_fast_path_falls_back() {
    assert!(matches!(begin(true, true), Next::Run(Path::Fast)));
    assert!(matches!(advance(Path::Fast, Outcome::Failed), Next::Run(Path::Reference)));
    match advance(Path::Reference, Outcome::Findings(vec![finding("x")])) {
        Next::Done(f) => assert_eq!(f.len(), 1),
        Next::Run(_) => panic!("findings end the analyzer"),
    }
    match begin(false, true) {
        Next::Done(f) => assert!(f.is_empty()),
        Next::Run(_) => panic!("an analyzer that does not apply does not run"),
    }
    assert!(matches!(advance(Path::Fast, Outcome::Panicked), Next::Done(_)));
}

#[test]
fn gates_part_pdfs_from_rasters() {
    let p = pdf();
    let r = raster(10, 10);
    for k in default_analyzers() {
        match k.gate() {
            Gate::Pdf => assert!(k.applies_to(&p) && !k.applies_to(&r)),
            Gate::Raster => assert!(!k.applies_to(&p) && k.applies_to(&r)),
            Gate::Jpeg => assert!(!k.applies_to(&p) && !k.applies_to(&r)),
            Gate::Scene => assert!(!k.applies_to(&p) && k.applies_to(&r)),
            Gate::Text => assert!(k.applies_to(&p) && !k.applies_to(&r)),
            Gate::Always => assert!(k.applies_to(&p) && k.applies_to(&r)),
        }
    }
}

#[test]
fn the_default_set_has_distinct_names() {
    let all = default_analyzers();
    assert_eq!(all[0].name(), "metadata");
    assert_eq!(all[3].name(), "ela");
    assert_eq!(all.len(), 40);
    let names: Vec<&str> = all[23..26].iter().map(|k| k.name()).collect();
    assert_eq!(names, vec!["wavelet_consistency", "texture_consistency", "color_consistency"]);
    assert_eq!(all[all.len() - 1].name(), "pdf_images");
    for i in 0..all.len() {
        for j in 0..i {
            assert_ne!(all[i].name(), all[j].name());
        }
    }
}

#[test]
fn small_documents_are_warned_of() {
    let mut c = raster(40, 30);
    assert!(check_resolution(&c).is_empty());
    c.content_type = ContentType::Document;
    let f = check_resolution(&c);
    assert_eq!(f.len(), 1);
    assert_eq!(f[0].code, "low_resolution_document");
    assert!(f[0].description.starts_with("Document is 40x30 (0.00 MP), below the recommended 1 MP"));
    assert_eq!(f[0].confidence, 0.95f64.to_bits());
    let mut large = raster(1000, 1000);
    large.content_type = ContentType::Document;
    assert!(check_resolution(&large).is_empty());
    assert!(check_resolution(&pdf()).is_empty());
}

#[test]
fn reports_grow_in_order() {
    let mut r = Report { findings: vec![finding("a")] };
    r.extend(vec![finding("b"), finding("c")]);
    let codes: Vec<&str> = r.findings.iter().map(|f| f.code.as_str()).collect();
    assert_eq!(codes, vec!["a", "b", "c"]);
    assert_eq!(r.risk(700).risk_level, Severity::High);
}

#[test]
fn a_run_reports_in_the_order_of_the_analyzers() {
    let found = || -> Vec<Vec<Finding>> {
        default_analyzers().iter().map(|k| vec![finding(k.name())]).collect()
    };
    let codes = |r: &Report| -> Vec<String> { r.findings.iter().map(|f| f.code.clone()).collect() };
    let mut c = raster(40, 30);
    let expected = |c: &Context| -> Vec<String> {
        let applying: Vec<AnalyzerKind> =
            default_analyzers().into_iter().filter(|k| k.applies_to(c)).collect();
        applying.iter().map(|k| k.name().to_string()).collect()
    };
    assert_eq!(codes(&Report::of_run(&c, found())), expected(&c));
    c.content_type = ContentType::Document;
    let all = codes(&Report::of_run(&c, found()));
    assert_eq!(all[0], "low_resolution_document");
    assert_eq!(all[1..], expected(&c));
    let mut one_panicked = found();
    one_panicked[4] = vec![];
    let rest = codes(&Report::of_run(&c, one_panicked));
    let kept: Vec<String> = all.into_iter().filter(|n| n != "noise").collect();
    assert_eq!(rest, kept);
    assert_eq!(codes(&Report::of_run(&pdf(), found())), expected(&pdf()));
}
