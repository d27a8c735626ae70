use jcode_surfaces::text::{batch_glyphs, Align, Batch};

#[test]
fn settled_text_is_one_batch() {
    assert_eq!(
        batch_glyphs(&[24; 1000]),
        vec![Batch { start: 0, end: 1000, step: 24 }]
    );
    assert!(batch_glyphs(&[]).is_empty());
}

#[test]
fn the_leading_edge_is_cut_at_every_step() {
    assert_eq!(
        batch_glyphs(&[24, 24, 18, 18, 3, 24]),
        vec![
            Batch { start: 0, end: 2, step: 24 },
            Batch { start: 2, end: 4, step: 18 },
            Batch { start: 4, end: 5, step: 3 },
            Batch { start: 5, end: 6, step: 24 },
        ]
    );
}

#[test]
fn text_starts_at_the_start() {
    assert_eq!(Align::default(), Align::Start);
}
