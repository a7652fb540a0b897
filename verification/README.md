# paddock_forensics

Forensic signals from images and documents: compression history, noise, sensor and lens
traces, geometry, light, type, metadata and the structure of PDF files; the overlays that show
where they lie; and a scored, explained report.

The library under `src/` is written in Rust and verified with Verus. It works on integers.
Every public function states what it returns; the laws that span functions are the public
`law_*` proof functions beside them.

## Layout

- `context`: opened files, their format, and what kind of content they show.
- `finding`: findings, severities and regions.
- `analyzer`: the analyzers, when each applies, how one is run (a failing fast path falls back to
  the reference path, and one that panics yields nothing), and the report of a run.
- `risk`: deduplication, families, scores, key findings, the verdict and the explanation.
- `metadata`, `pdf`, `pixel`: the analyzers.
- `annotate`: overlays.
- `raster`, `jpeg`, `unicode`, `text`, `bytes`: files, pictures and texts.
- `order`, `components`, `clusters`, `hough`, `grid`, `histogram`, `robust`, `outliers`,
  `sobel`, `number`, `double`, `share`, `bits`: shared structures and numbers.

## Numbers

A floating-point number enters the library as the integer that orders as it does. A number that
is not negative is its bits; one that may be negative is a key, its bits with the sign in
front. Shares of counts are compared as fractions. Where a result is an integer computed by
double-precision arithmetic, `double` does that arithmetic on integers, digit by digit; `share`
writes shares of counts and the confidences that grow with them in the same way.

`app/` holds what is computed in floating point (transforms, correlations, angles, spreads), the
serializable copies of the reports, the isolation of panics, and the traits that a host
implements: a reader of document containers, a renderer of pages, and the texture analysis, which
is the one analyzer of the default set that has no implementation here.

## What is trusted

Decoding, encoding and resampling of pictures are done by the `image` crate, behind the wrappers
in `raster`. `unicode` states what it uses of the standard library. The rest is proved.
