use perturabo::{Color, Draw, Glyph, Label, Point, Rect};

const INK: Color = Color { r: 200, g: 100, b: 50, a: 255 };
const PAPER: Color = Color { r: 40, g: 50, b: 60, a: 255 };

fn paper_bytes() -> [u8; 4] {
    [60, 50, 40, 255]
}

fn pixel_bytes(buf: &[u8], width: u32, x: u32, y: u32) -> [u8; 4] {
    let at = (x as usize + y as usize * width as usize) * 4;
    [buf[at], buf[at + 1], buf[at + 2], buf[at + 3]]
}

fn differing(before: &[u8], after: &[u8], width: u32) -> Vec<(u32, u32)> {
    let mut found = Vec::new();
    for pixel in 0..before.len() / 4 {
        if before[pixel * 4..pixel * 4 + 4] != after[pixel * 4..pixel * 4 + 4] {
            found.push((pixel as u32 % width, pixel as u32 / width));
        }
    }
    found
}

fn paper(width: u32, height: u32) -> Vec<u8> {
    let mut buf = vec![0u8; (width * height * 4) as usize];
    Draw::new(width, height, &mut buf).unwrap().fill(PAPER);
    buf
}

fn block(x: i32, y: i32, dx: i32, dy: i32, w: i32, h: i32, coverage: Vec<u8>) -> Glyph {
    Glyph { anchor: Point { x, y }, bounding_box: Some(Rect { x: dx, y: dy, w, h }), coverage }
}

fn space(x: i32, y: i32) -> Glyph {
    Glyph { anchor: Point { x, y }, bounding_box: None, coverage: Vec::new() }
}

#[test]
fn glyph_samples_weigh_the_color() {
    let mut buf = paper(8, 8);
    let mut draw = Draw::new(8, 8, &mut buf).unwrap();
    let label = Label { glyphs: vec![block(2, 1, 1, -1, 2, 2, vec![0, 64, 128, 255])], ascent: 3 };
    draw.draw_label(&label, INK);
    assert_eq!(pixel_bytes(&buf, 8, 3, 3), [60, 50, 40, 255]);
    assert_eq!(pixel_bytes(&buf, 8, 4, 3), [48, 44, 43, 255]);
    assert_eq!(pixel_bytes(&buf, 8, 3, 4), [42, 50, 70, 255]);
    assert_eq!(pixel_bytes(&buf, 8, 4, 4), [50, 100, 200, 255]);
    let clean = paper(8, 8);
    assert_eq!(differing(&clean, &buf, 8), vec![(4, 3), (3, 4), (4, 4)]);
}

#[test]
fn glyph_sample_without_coverage_still_makes_the_pixel_opaque() {
    let mut buf = vec![0u8; 2 * 2 * 4];
    buf[12..16].copy_from_slice(&[9, 8, 7, 10]);
    let mut draw = Draw::new(2, 2, &mut buf).unwrap();
    let label = Label { glyphs: vec![block(1, 1, 0, 0, 1, 1, vec![0])], ascent: 0 };
    draw.draw_label(&label, INK);
    assert_eq!(pixel_bytes(&buf, 2, 1, 1), [9, 8, 7, 255]);
    assert_eq!(pixel_bytes(&buf, 2, 0, 0), [0, 0, 0, 0]);
}

#[test]
fn rows_at_or_above_the_top_row_are_skipped() {
    let mut buf = paper(4, 4);
    let before = buf.clone();
    let mut draw = Draw::new(4, 4, &mut buf).unwrap();
    let label = Label { glyphs: vec![block(0, 0, 0, -2, 2, 4, vec![255; 8])], ascent: 1 };
    draw.draw_label(&label, INK);
    assert_eq!(differing(&before, &buf, 4), vec![(0, 1), (1, 1), (0, 2), (1, 2)]);
}

#[test]
fn ascent_moves_glyphs_down() {
    let mut buf = paper(4, 12);
    let before = buf.clone();
    let mut draw = Draw::new(4, 12, &mut buf).unwrap();
    let label = Label { glyphs: vec![block(1, 0, 0, -5, 1, 5, vec![255; 5])], ascent: 7 };
    draw.draw_label(&label, INK);
    assert_eq!(differing(&before, &buf, 4), vec![(1, 2), (1, 3), (1, 4), (1, 5), (1, 6)]);
}

#[test]
fn glyph_without_box_draws_nothing() {
    let mut buf = paper(6, 6);
    let before = buf.clone();
    let mut draw = Draw::new(6, 6, &mut buf).unwrap();
    let label = Label {
        glyphs: vec![space(1, 1), block(3, 1, 0, 0, 1, 1, vec![255]), space(4, 1)],
        ascent: 2,
    };
    draw.draw_label(&label, INK);
    assert_eq!(differing(&before, &buf, 6), vec![(3, 3)]);
}

#[test]
fn glyph_with_wrong_coverage_draws_nothing() {
    let mut buf = paper(6, 6);
    let before = buf.clone();
    let mut draw = Draw::new(6, 6, &mut buf).unwrap();
    let label = Label {
        glyphs: vec![
            block(1, 1, 0, 0, 2, 2, vec![255; 3]),
            block(1, 1, 0, 0, 2, 2, vec![255; 5]),
            block(1, 1, 0, 0, 0, 2, Vec::new()),
            block(1, 1, 0, 0, 2, 0, Vec::new()),
            block(1, 1, 0, 0, -2, -2, vec![255; 4]),
            block(1, 1, 0, 0, -1, 1, vec![255; 1]),
        ],
        ascent: 1,
    };
    draw.draw_label(&label, INK);
    assert_eq!(buf, before);
    let draw = Draw::new(6, 6, &mut buf).unwrap();
    assert_eq!(draw.measure_label(&label), (0, 0));
}

#[test]
fn glyphs_are_laid_one_over_the_other_in_order() {
    let mut buf = paper(4, 4);
    let mut draw = Draw::new(4, 4, &mut buf).unwrap();
    let label = Label {
        glyphs: vec![
            block(1, 1, 0, 0, 2, 1, vec![128, 128]),
            block(2, 1, 0, 0, 2, 1, vec![64, 64]),
        ],
        ascent: 0,
    };
    draw.draw_label(&label, INK);
    assert_eq!(pixel_bytes(&buf, 4, 1, 1), [42, 50, 70, 255]);
    assert_eq!(pixel_bytes(&buf, 4, 2, 1), [35, 44, 65, 255]);
    assert_eq!(pixel_bytes(&buf, 4, 3, 1), [48, 44, 43, 255]);
    assert_eq!(pixel_bytes(&buf, 4, 0, 1), paper_bytes());
}

#[test]
fn glyph_samples_off_the_surface_are_skipped() {
    let mut buf = paper(4, 4);
    let before = buf.clone();
    let mut draw = Draw::new(4, 4, &mut buf).unwrap();
    let label = Label {
        glyphs: vec![
            block(-1, 2, 0, 0, 3, 3, vec![255; 9]),
            block(3, 3, 0, 0, 2, 2, vec![255; 4]),
            block(i32::MAX, i32::MAX, i32::MAX, i32::MAX, 1, 1, vec![255]),
            block(i32::MIN, i32::MIN, i32::MIN, i32::MIN, 1, 1, vec![255]),
        ],
        ascent: 0,
    };
    draw.draw_label(&label, INK);
    assert_eq!(differing(&before, &buf, 4), vec![(0, 2), (1, 2), (0, 3), (1, 3), (3, 3)]);
}

#[test]
fn clip_holds_for_labels() {
    let mut buf = paper(8, 8);
    let before = buf.clone();
    let mut draw = Draw::new(8, 8, &mut buf).unwrap();
    draw.set_clip(Some(Rect { x: 2, y: 2, w: 1, h: 1 }));
    let label = Label { glyphs: vec![block(0, 0, 0, 0, 8, 7, vec![255; 56])], ascent: 1 };
    draw.draw_label(&label, INK);
    assert_eq!(differing(&before, &buf, 8), vec![(2, 2), (3, 2), (2, 3), (3, 3)]);
}

#[test]
fn empty_label_draws_nothing_and_has_no_size() {
    let mut buf = paper(4, 4);
    let before = buf.clone();
    let mut draw = Draw::new(4, 4, &mut buf).unwrap();
    let label = Label { glyphs: Vec::new(), ascent: 10 };
    draw.draw_label(&label, INK);
    assert_eq!(draw.measure_label(&label), (0, 0));
    assert_eq!(buf, before);
}

#[test]
fn measure_reports_how_far_the_label_reaches() {
    let mut buf = paper(4, 4);
    let draw = Draw::new(4, 4, &mut buf).unwrap();
    let label = Label {
        glyphs: vec![
            block(0, 0, 1, -9, 7, 9, vec![255; 63]),
            space(8, 0),
            block(12, 0, 0, -6, 5, 8, vec![255; 40]),
        ],
        ascent: 10,
    };
    assert_eq!(draw.measure_label(&label), (17, 12));
    let one = Label { glyphs: vec![block(2, 1, 1, -1, 2, 2, vec![0, 64, 128, 255])], ascent: 3 };
    assert_eq!(draw.measure_label(&one), (5, 5));
}

#[test]
fn measure_leaves_out_what_is_never_drawn() {
    let mut buf = paper(4, 4);
    let draw = Draw::new(4, 4, &mut buf).unwrap();
    let above = Label { glyphs: vec![block(0, 0, 0, -5, 3, 5, vec![255; 15])], ascent: 1 };
    assert_eq!(draw.measure_label(&above), (0, 0));
    let just = Label { glyphs: vec![block(0, 0, 0, -5, 3, 5, vec![255; 15])], ascent: 2 };
    assert_eq!(draw.measure_label(&just), (3, 2));
    let left = Label { glyphs: vec![block(-3, 5, 0, 0, 3, 3, vec![255; 9])], ascent: 0 };
    assert_eq!(draw.measure_label(&left), (0, 0));
    let wide = Label {
        glyphs: vec![block(i32::MAX, i32::MAX, i32::MAX, i32::MAX, 1, 1, vec![255])],
        ascent: i32::MAX,
    };
    assert_eq!(draw.measure_label(&wide), (4294967295, 6442450942));
}

#[test]
fn drawing_stays_within_the_measure() {
    let labels = vec![
        Label { glyphs: vec![block(2, 1, 1, -1, 2, 2, vec![9, 64, 128, 255])], ascent: 3 },
        Label {
            glyphs: vec![
                block(0, 0, 1, -9, 7, 9, vec![200; 63]),
                space(8, 0),
                block(12, 0, 0, -6, 5, 8, vec![100; 40]),
            ],
            ascent: 10,
        },
        Label {
            glyphs: vec![
                block(-2, 0, 0, -3, 6, 6, vec![255; 36]),
                block(5, 2, -1, -1, 3, 3, vec![1; 9]),
            ],
            ascent: 1,
        },
        Label { glyphs: vec![block(30, 30, 0, 0, 4, 4, vec![255; 16])], ascent: 0 },
    ];
    for label in labels {
        let mut buf = paper(32, 24);
        let before = buf.clone();
        let mut draw = Draw::new(32, 24, &mut buf).unwrap();
        let (width, height) = draw.measure_label(&label);
        draw.draw_label(&label, INK);
        for (x, y) in differing(&before, &buf, 32) {
            assert!((x as u64) < width && (y as u64) < height);
        }
    }
}

#[test]
fn measure_is_reached_by_the_drawing() {
    let label = Label {
        glyphs: vec![
            block(0, 0, 1, -9, 7, 9, vec![200; 63]),
            block(12, 0, 0, -6, 5, 8, vec![100; 40]),
        ],
        ascent: 10,
    };
    let mut buf = paper(32, 24);
    let before = buf.clone();
    let mut draw = Draw::new(32, 24, &mut buf).unwrap();
    let (width, height) = draw.measure_label(&label);
    draw.draw_label(&label, INK);
    let painted = differing(&before, &buf, 32);
    assert_eq!(painted.iter().map(|(x, _)| *x as u64 + 1).max(), Some(width));
    assert_eq!(painted.iter().map(|(_, y)| *y as u64 + 1).max(), Some(height));
}

#[test]
fn drawable_wants_coverage_for_every_pixel_of_the_box() {
    let bounds = Rect { x: 1, y: -1, w: 2, h: 3 };
    assert_eq!(block(0, 0, 1, -1, 2, 3, vec![0; 6]).drawable(), Some(bounds));
    assert_eq!(block(0, 0, 1, -1, 2, 3, vec![0; 5]).drawable(), None);
    assert_eq!(block(0, 0, 1, -1, 2, 3, vec![0; 7]).drawable(), None);
    assert_eq!(block(0, 0, 1, -1, 0, 3, Vec::new()).drawable(), None);
    assert_eq!(block(0, 0, 1, -1, -2, -3, vec![0; 6]).drawable(), None);
    assert_eq!(space(0, 0).drawable(), None);
}
