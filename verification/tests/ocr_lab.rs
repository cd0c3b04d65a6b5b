//! Reading an upgrade panel: words, cells, glyphs, and how well it was read.

use ez_wishlist_overlay::hash::fnv1a64;
use ez_wishlist_overlay::ocr_lab::cells::{
    fallback_cells, locate_cells_via_from_raid, looks_like_from, looks_like_raid,
};
use ez_wishlist_overlay::ocr_lab::components::{find_components, Component};
use ez_wishlist_overlay::ocr_lab::engine::{
    parse_tesseract_tsv, BBox, OcrOptions, Psm, TesseractCli, Word, PERCENT,
};
use ez_wishlist_overlay::ocr_lab::geometry::{clamp_bbox, median_of};
use ez_wishlist_overlay::ocr_lab::grid::{self, cluster_from_raids, enlarged};
use ez_wishlist_overlay::ocr_lab::lab::{
    expected_tokens_for, is_dataset_image, label_row, list_dataset_images, normalize_image_name,
    parse_rect,
    resolve_images, score_against_expected, shade_of, Images, Shade, DEFAULT_IMAGE,
};
use ez_wishlist_overlay::ocr_lab::panel_rect::{
    anchor_by_submit_phrase, anchor_by_text_cluster, approximate_panel_rect, group, Axis,
};
use ez_wishlist_overlay::ocr_lab::pipeline::{
    binarize, binarize_for_digits, cell_to_item, cost_from_strip, crop_and_upscale, find_level,
    parse_panel, pick_cost, progress_strip, read_progress, CostStep, Item, Panel,
};
use ez_wishlist_overlay::ocr_lab::raster::{byte_at_rank, Gray};
use ez_wishlist_overlay::ocr_lab::score::{
    compare, nonzero_items_count, normalize_name, normalize_title, summarize, Report, Row,
};
use ez_wishlist_overlay::ocr_lab::templates::{
    component_image, recognize, score, template_file_name, template_label, template_of,
    templates_dir, Template,
};
use ez_wishlist_overlay::ocr_lab::trials::{
    digit_passes, digit_strip, labels_for, rank_matches, rank_variants, reads_as_expected, PASSES,
};
use ez_wishlist_overlay::ocr_lab::words::{
    digitize, is_chrome, is_level_token, normalize_level, pick_title, split_progress,
};

fn word(text: &str, x: u32, y: u32, w: u32, h: u32) -> Word {
    Word {
        text: text.to_string(),
        bbox: BBox { x, y, w, h },
        confidence: 90 * PERCENT,
    }
}

fn boxed(x: u32, y: u32, w: u32, h: u32) -> BBox {
    BBox { x, y, w, h }
}

// Words.

#[test]
fn level_chips_are_read_through_their_misreadings() {
    assert!(is_level_token("LV0"));
    assert!(is_level_token("lvO"));
    assert!(is_level_token("LVI2"));
    assert!(!is_level_token("LV"));
    assert!(!is_level_token("LEVEL"));
    assert_eq!(normalize_level("lvO"), "LV0");
    assert_eq!(normalize_level("LVi"), "LV1");
    let words = vec![word("Bench", 0, 5, 40, 10), word("lvi", 50, 5, 20, 10)];
    assert_eq!(find_level(&words, 100), "LV1");
    assert_eq!(find_level(&words, 8), "");
}

#[test]
fn letters_that_look_like_digits_count_as_digits() {
    assert_eq!(digitize("8o,ooo").as_deref(), Some("80000"));
    assert_eq!(digitize("lIzAbg").as_deref(), Some("112469"));
    assert_eq!(digitize("--"), None);
}

#[test]
fn progress_is_split_at_its_slash() {
    assert_eq!(split_progress("2/8"), Some((2, 8)));
    assert_eq!(split_progress(" 12 / 30x"), Some((12, 30)));
    assert_eq!(split_progress("28"), Some((2, 8)));
    assert_eq!(split_progress("288"), None);
    assert_eq!(split_progress("/8"), None);
    assert_eq!(read_progress(&vec![word("1", 0, 0, 1, 1), word("/4", 1, 0, 1, 1)]), Some((1, 4)));
}

#[test]
fn chrome_is_told_from_names() {
    for t in ["from", "RAID.", "Level", "UP", "Back"] {
        assert!(is_chrome(t), "{t}");
    }
    assert!(!is_chrome("Bolts"));
    assert!(looks_like_from("frow") && looks_like_raid("raio"));
    assert!(!looks_like_from("RAID") && !looks_like_raid("FROM"));
}

#[test]
fn the_title_is_the_band_of_the_tallest_words() {
    let words = vec![
        word("Room", 60, 12, 50, 20),
        word("Storage", 0, 10, 50, 20),
        word("é", 200, 10, 10, 30),
        word("LV0", 120, 10, 20, 20),
        word("tiny", 0, 60, 10, 5),
        word("below", 0, 300, 50, 30),
    ];
    assert_eq!(pick_title(&words, 400), "Storage Room");
    assert_eq!(pick_title(&vec![], 400), "");
}

#[test]
fn letters_beyond_ascii_count() {
    let words = vec![word("Éé", 0, 10, 50, 20), word("..", 60, 10, 50, 20)];
    assert_eq!(pick_title(&words, 400), "Éé");
    let cell = boxed(0, 0, 100, 90);
    let panel = Gray::filled(100, 90, 255);
    let item = cell_to_item(&panel, &words, &cell, &vec![]);
    assert_eq!(item.name, "Éé");
    assert_eq!((item.collected, item.needed), (0, 0));
}

// Geometry.

#[test]
fn boxes_are_clamped_to_the_picture() {
    assert_eq!(clamp_bbox(100, 50, -10, 5, 200, 40), boxed(0, 5, 100, 35));
    assert_eq!(clamp_bbox(100, 50, 90, 60, 80, 70), boxed(90, 60, 0, 0));
}

#[test]
fn the_median_is_the_upper_one() {
    assert_eq!(median_of(vec![]), 0);
    assert_eq!(median_of(vec![3]), 3);
    assert_eq!(median_of(vec![9, 1]), 9);
    assert_eq!(median_of(vec![9, 1, 4]), 4);
}

#[test]
fn the_panel_lies_round_its_submit_row() {
    let words = vec![
        word("Need", 500, 400, 40, 20),
        word("to", 550, 400, 20, 20),
        word("submit", 580, 402, 60, 20),
        word("items", 650, 400, 50, 20),
        word("to", 10, 900, 20, 20),
    ];
    let rect = approximate_panel_rect(2000, 1500, &words).unwrap();
    // 22 pixels high: 18 heights to each side, 20 above, 14 below.
    assert_eq!(rect, boxed(500 - 396, 0, 200 + 2 * 396, 422 + 308));
    assert_eq!(anchor_by_submit_phrase(2000, 1500, &words), Some(rect));
    assert_eq!(anchor_by_submit_phrase(2000, 1500, &vec![word("need", 0, 0, 5, 5)]), None);
}

#[test]
fn without_that_row_the_densest_words_stand_in() {
    let words = vec![
        word("a", 100, 100, 30, 10),
        word("b", 100, 120, 30, 10),
        word("far", 100, 900, 30, 10),
    ];
    let rect = anchor_by_text_cluster(1000, 1000, &words).unwrap();
    assert_eq!(rect, boxed(20, 40, 190, 150));
    assert_eq!(approximate_panel_rect(1000, 1000, &words), Some(rect));
    assert_eq!(approximate_panel_rect(1000, 1000, &vec![]), None);
}

#[test]
fn grouping_keeps_every_box() {
    let bs = vec![boxed(0, 0, 10, 10), boxed(0, 12, 10, 10), boxed(0, 90, 10, 10)];
    let groups = group(&bs, Axis::Down, 5);
    assert_eq!(groups.len(), 2);
    assert_eq!(groups.iter().map(|g| g.len()).sum::<usize>(), 3);
}

#[test]
fn cells_lie_over_their_labels() {
    let mut words = Vec::new();
    for i in 0..4 {
        words.push(word("FROM", 100 + 200 * i, 500, 40, 20));
        words.push(word("RAID", 145 + 200 * i, 500, 40, 20));
    }
    let cells = locate_cells_via_from_raid(&words, 1000, 600);
    assert_eq!(cells.len(), 4);
    for (i, c) in cells.iter().enumerate() {
        let centre = (100 + 185) / 2 + 200 * i as u32;
        assert!(c.x <= centre && centre < c.x + c.w, "{c:?}");
        assert_eq!((c.y, c.h), (400, 120));
    }
    assert_eq!(locate_cells_via_from_raid(&vec![], 400, 100), fallback_cells(400, 100));
}

#[test]
fn without_labels_the_lower_half_is_quartered() {
    let cells = fallback_cells(400, 100);
    assert_eq!(cells, vec![
        boxed(0, 50, 100, 40),
        boxed(100, 50, 100, 40),
        boxed(200, 50, 100, 40),
        boxed(300, 50, 100, 40),
    ]);
}

// Cost and progress.

#[test]
fn the_lowest_number_above_the_cells_is_the_cost() {
    let words = vec![
        word("12345", 0, 100, 50, 10),
        word("8ooo0", 0, 200, 50, 10),
        word("99999", 0, 900, 50, 10),
        word("123", 0, 250, 50, 10),
    ];
    assert_eq!(pick_cost(&words, 300, 800), CostStep::Known(80_000));
}

#[test]
fn a_cost_that_is_not_found_is_read_again() {
    let strip = match pick_cost(&vec![word("12", 0, 100, 50, 10)], 300, 800) {
        CostStep::Reread(b) => b,
        CostStep::Known(n) => panic!("{n}"),
    };
    assert_eq!(strip, boxed(200, 225, 400, 50));
    let read = vec![word("500", 0, 0, 1, 1), word("45000", 0, 0, 1, 1), word("7000", 0, 0, 1, 1)];
    assert_eq!(cost_from_strip(&read), Some(45_000));
    assert_eq!(cost_from_strip(&vec![word("1000000", 0, 0, 1, 1)]), None);
}

#[test]
fn the_progress_strip_is_in_the_lower_part() {
    assert_eq!(progress_strip(&boxed(10, 100, 50, 100)), Some(boxed(10, 160, 50, 28)));
    assert_eq!(progress_strip(&boxed(10, 100, 50, 0)), None);
}

#[test]
fn a_panel_is_put_together_from_its_words() {
    let mut words = vec![
        word("Storage", 100, 20, 80, 30),
        word("LV1", 200, 20, 30, 30),
        word("80000", 300, 300, 60, 20),
    ];
    for i in 0..4 {
        words.push(word("Bolts", 100 + 200 * i, 420, 60, 20));
        words.push(word("FROM", 100 + 200 * i, 500, 40, 20));
        words.push(word("RAID", 145 + 200 * i, 500, 40, 20));
    }
    let panel = Gray::filled(1000, 600, 255);
    let draft = parse_panel(&panel, &words, &vec![]);
    assert_eq!(draft.cost, CostStep::Known(80_000));
    let p = draft.finish(None);
    assert_eq!((p.title.as_str(), p.level.as_str(), p.cost), ("Storage", "LV1", Some(80_000)));
    assert_eq!(p.items.len(), 4);
    assert!(p.items.iter().all(|i| i.name == "Bolts"));
}

// Pictures.

#[test]
fn a_crop_comes_out_twice_as_large() {
    let mut g = Gray::filled(20, 10, 255);
    g.put(3, 2, 0);
    let r = crop_and_upscale(&g, &boxed(2, 1, 6, 4));
    assert_eq!((r.w, r.h), (12, 8));
    assert!(r.px.iter().any(|v| *v < 128), "the dark pixel survives");
    assert!(r.px.iter().any(|v| *v > 200), "and so does the ground");
}

#[test]
fn digits_come_out_dark_on_a_light_frame() {
    let mut g = Gray::filled(4, 4, 10);
    g.put(1, 1, 250);
    let b = binarize(&g);
    assert_eq!((b.w, b.h), (28, 28));
    assert_eq!(b.get(0, 0), 255);
    assert_eq!(b.get(13, 13), 0);
    assert_eq!(b.get(14, 14), 255);
    let d = binarize_for_digits(&g);
    assert_eq!((d.w, d.h), (36, 36));
    assert!(d.px.iter().all(|v| *v == 0 || *v == 255));
    assert!(d.px.contains(&0));
}

#[test]
fn ranks_pick_from_the_sorted_bytes() {
    assert_eq!(byte_at_rank(&vec![9, 1, 5], 0), 1);
    assert_eq!(byte_at_rank(&vec![9, 1, 5], 1), 5);
    assert_eq!(byte_at_rank(&vec![9, 1, 5], 2), 9);
}

#[test]
fn parts_of_a_picture_end_at_its_edge() {
    let mut g = Gray::filled(3, 3, 7);
    g.put(2, 2, 1);
    let p = g.part(1, 1, 9, 9);
    assert_eq!((p.w, p.h), (2, 2));
    assert_eq!(p.get(1, 1), 1);
    let f = g.framed(2);
    assert_eq!((f.w, f.h), (7, 7));
    assert_eq!((f.get(0, 0), f.get(4, 4)), (255, 1));
}

/// A picture from rows of `#` and `.`.
fn drawn(rows: &[&str]) -> Gray {
    let mut g = Gray::filled(rows[0].len() as u32, rows.len() as u32, 255);
    for (y, row) in rows.iter().enumerate() {
        for (x, c) in row.chars().enumerate() {
            if c == '#' {
                g.put(x as u32, y as u32, 0);
            }
        }
    }
    g
}

#[test]
fn touching_pixels_are_one_component() {
    let g = drawn(&[
        "##..#",
        ".#...",
        "....#",
        "#..##",
    ]);
    let comps = find_components(&g);
    let places: Vec<(u32, u32, u32, u32)> = comps.iter().map(|c| (c.x, c.y, c.w, c.h)).collect();
    assert_eq!(places, vec![(0, 0, 2, 2), (4, 0, 1, 1), (3, 2, 2, 2), (0, 3, 1, 1)]);
    assert_eq!(comps[0].mask, vec![true, true, false, true]);
}

fn glyph(label: char, rows: &[&str]) -> Template {
    template_of(label, &drawn(rows))
}

#[test]
fn glyphs_are_told_apart_by_agreement() {
    let bar = glyph('1', &["#", "#", "#"]);
    let ring = glyph('0', &["###", "#.#", "###"]);
    let strip = drawn(&[
        ".........",
        ".###..#..",
        ".#.#..#..",
        ".###..#..",
        ".........",
    ]);
    // The bar is three pixels, which is too few to count.
    assert_eq!(recognize(&strip, &vec![bar, ring]), "0");
    let bar = glyph('1', &["##", "##", "##"]);
    let ring = glyph('0', &["###", "#.#", "###"]);
    let strip = drawn(&[
        "..........",
        ".##...###.",
        ".##...#.#.",
        ".##...###.",
        "..........",
    ]);
    assert_eq!(recognize(&strip, &vec![bar, ring]), "10");
    assert_eq!(recognize(&strip, &vec![]), "");
}

#[test]
fn what_touches_the_edge_is_no_glyph() {
    let ring = glyph('0', &["###", "#.#", "###"]);
    let strip = drawn(&["###....", "#.#....", "###....", "......."]);
    assert_eq!(recognize(&strip, &vec![ring]), "");
}

#[test]
fn a_stored_glyph_reads_back() {
    let comps: Vec<Component> = find_components(&drawn(&["#.#", "###"]));
    let t = template_of('x', &component_image(&comps[0]));
    assert_eq!(t.mask, comps[0].mask);
    let s = score(&comps[0], &t);
    assert_eq!((s.agree, s.total), (6, 6));
}

#[test]
fn glyph_files_are_named_by_their_character() {
    assert_eq!(template_file_name('7'), "7.png");
    assert_eq!(template_file_name('/'), "slash.png");
    assert_eq!(template_label("slash"), Some('/'));
    assert_eq!(template_label("7"), Some('7'));
    assert_eq!(template_label("seven"), None);
    assert_eq!(template_label(""), None);
    assert_eq!(templates_dir("data"), "data/templates");
}

// The recognizer.

#[test]
fn the_table_gives_words_only() {
    let tsv = "level\tpage_num\tblock_num\tpar_num\tline_num\tword_num\tleft\ttop\twidth\theight\tconf\ttext\n\
        4\t1\t1\t1\t1\t0\t1\t2\t3\t4\t-1\t\n\
        5\t1\t1\t1\t1\t1\t-3\t20\t30\t40\t96.5\t BACK \n\
        5\t1\t1\t1\t1\t2\t10\t20\t0\t40\t90\tgone\n\
        5\t1\t1\t1\t1\t3\t10\t20\t30\t40\t90\t  \n\
        5\t1\t1\t1\t1\t3\tx\t20\t30\t40\t90\tbad\n\
        5\t1\t1\n";
    let words = parse_tesseract_tsv(tsv);
    assert_eq!(words.len(), 1);
    assert_eq!(words[0].text, "BACK");
    assert_eq!(words[0].bbox, boxed(0, 20, 30, 40));
    assert_eq!(words[0].conf, "96.5");
}

#[test]
fn a_pass_is_asked_for_by_its_arguments() {
    let cli = TesseractCli { exe: "tesseract".into() };
    let opts = OcrOptions {
        psm: Some(Psm::Line),
        whitelist: Some("0123456789".into()),
    };
    assert_eq!(
        cli.args("in.png", "out", &opts),
        vec![
            "in.png", "out", "-l", "eng", "--psm", "7", "--oem", "1", "tsv", "-c",
            "tessedit_char_whitelist=0123456789",
        ]
    );
    assert_eq!(cli.args("in.png", "out", &OcrOptions::default())[5], "6");
    assert_eq!((Psm::Word.as_int(), Psm::Sparse.as_int()), (8, 11));
}

#[test]
fn the_command_is_looked_for_where_it_installs() {
    assert_eq!(TesseractCli::candidates(false, None), vec!["tesseract"]);
    let all = TesseractCli::candidates(true, Some(r"C:\L".into()));
    assert_eq!(all.len(), 4);
    assert_eq!(all[3], r"C:\L\Programs\Tesseract-OCR\tesseract.exe");
    assert!(TesseractCli::answers(false, 3) && TesseractCli::answers(true, 0));
    assert!(!TesseractCli::answers(false, 0));
}

// The grid.

#[test]
fn labels_near_each_other_are_one_anchor() {
    let bs = vec![
        boxed(100, 200, 40, 20),
        boxed(150, 200, 40, 20),
        boxed(500, 204, 40, 20),
        boxed(500, 900, 40, 20),
    ];
    let a = cluster_from_raids(&bs);
    assert_eq!(a, vec![boxed(72, 105, 45, 10), boxed(260, 107, 20, 10)]);
    assert!(cluster_from_raids(&vec![]).is_empty());
}

#[test]
fn the_grid_needs_the_back_button() {
    assert!(grid::build(&vec![word("LEVEL", 0, 0, 10, 10)]).is_none());
    let g = grid::build(&vec![
        word("BACK", 200, 1000, 100, 40),
        word("LEVEL", 800, 1000, 100, 40),
        word("UP", 910, 1000, 50, 40),
    ])
    .unwrap();
    assert_eq!(g.button_back, boxed(100, 500, 50, 20));
    assert_eq!(g.button_level_up, boxed(400, 500, 80, 20));
    let names: Vec<&str> = g.regions.iter().map(|r| r.name.as_str()).collect();
    assert_eq!(&names[..4], &["title", "level", "need_anchor", "cost"]);
    assert_eq!(names.iter().filter(|n| n.ends_with("_progress")).count(), 4);
    assert_eq!(&names[names.len() - 2..], &["BACK", "LEVEL UP"]);
    assert_eq!(g.slope.1, 0, "side by side: no tilt");
    assert_eq!(g.pivot, (275, 510));
}

// The lab.

#[test]
fn image_names_get_their_ending() {
    assert_eq!(normalize_image_name("a"), "a.jpg");
    assert_eq!(normalize_image_name("a.png"), "a.png");
    assert!(matches!(resolve_images(&None), Images::One(n) if n == DEFAULT_IMAGE));
    assert!(matches!(resolve_images(&Some("all".into())), Images::All));
    assert!(matches!(resolve_images(&Some("b".into())), Images::One(n) if n == "b.jpg"));
    assert!(is_dataset_image("A.JPG") && !is_dataset_image("a.png"));
}

#[test]
fn rectangles_are_four_numbers() {
    assert_eq!(parse_rect("1, 2,3 ,4"), Some((1, 2, 3, 4)));
    assert_eq!(parse_rect("1,2,3"), None);
    assert_eq!(parse_rect("1,2,3,x"), None);
    assert_eq!(parse_rect("1,2,3,-4"), None);
}

#[test]
fn boxes_are_shaded_by_confidence() {
    assert_eq!(shade_of(24 * PERCENT), Shade::Hidden);
    assert_eq!(shade_of(25 * PERCENT), Shade::Low);
    assert_eq!(shade_of(50 * PERCENT), Shade::Middle);
    assert_eq!(shade_of(75 * PERCENT), Shade::High);
    assert_eq!(label_row(31, 10), 5);
    assert_eq!(label_row(30, 10), 42);
}

fn panel(title: &str, level: &str, cost: Option<u64>, items: &[(&str, u32, u32)]) -> Panel {
    Panel {
        title: title.into(),
        level: level.into(),
        description: None,
        description_next: None,
        cost,
        items: items
            .iter()
            .map(|(n, c, d)| Item {
                name: n.to_string(),
                collected: *c,
                needed: *d,
            })
            .collect(),
    }
}

#[test]
fn tokens_are_what_the_panel_shows() {
    let p = panel("Gunsmith", "LV1", Some(80_000), &[("Bolts", 1, 4)]);
    assert_eq!(expected_tokens_for(&p), vec!["Gunsmith", "LV1", "80000", "Bolts", "1/4"]);
}

#[test]
fn a_variant_is_scored_by_what_it_found() {
    let p = panel("Storage Room", "LV0", Some(80_000), &[("Boxed Nails", 1, 4), ("Wire", 0, 2)]);
    let found: Vec<String> = ["STORAGE", "room", "lvo", "80000", "boxed", "nails", "1/4"]
        .iter()
        .map(|s| s.to_string())
        .collect();
    let s = score_against_expected(&found, &p);
    assert!(s.title && s.level && s.cost);
    assert_eq!((s.name_hits, s.name_total, s.prog_hits, s.prog_total), (1, 2, 1, 2));
    assert_eq!(s.total_found(), 5);
    let none = score_against_expected(&vec![], &p);
    assert_eq!(none.total_found(), 0);
}

#[test]
fn predictions_are_held_against_the_labels() {
    let e = panel("Gunsmith", "LV1", Some(5_000), &[("Bolts", 1, 4), ("Wire", 0, 2)]);
    let p = panel(" gunsmith ", "lv1", None, &[("bolts", 1, 5)]);
    let row = compare(&e, &p);
    assert!(row.title_ok && row.level_ok && !row.cost_ok && !row.item_count_ok);
    assert_eq!(
        (
            row.items_name_correct,
            row.items_needed_correct,
            row.items_collected_correct,
            row.items_total
        ),
        (1, 0, 1, 2)
    );
    assert_eq!(row.expected_summary, "Gunsmith LV1 cost=5000 [Bolts=1/4, Wire=0/2]");
    assert_eq!(summarize(&p), " gunsmith  lv1 cost=? [bolts=1/5]");
    assert_eq!(
        row.render("a.jpg"),
        "a.jpg                                  title:v level:v cost:x items:x  \
         names:1/2 need:0/2 got:1/2\n   expected: Gunsmith LV1 cost=5000 [Bolts=1/4, Wire=0/2]\n   \
         got:       gunsmith  lv1 cost=? [bolts=1/5]"
    );
    assert_eq!(normalize_title("  AbC "), "abc");
    assert_eq!(normalize_name("  AbC "), "abc");
    assert_eq!(nonzero_items_count(&e.items), 2);
}

#[test]
fn a_report_adds_its_rows_up() {
    let e = panel("Gunsmith", "LV1", Some(5_000), &[("Bolts", 1, 4), ("Wire", 0, 2)]);
    let mut report = Report::default();
    report.add(&compare(&e, &e));
    report.add(&compare(&e, &panel("x", "LV1", None, &[])));
    assert_eq!(
        report.shares(),
        vec![(1, 2), (2, 2), (1, 2), (1, 2), (2, 4), (2, 4), (2, 4)]
    );
    let percents: Vec<String> = ["50", "100", "50", "50", "50", "50", "50"]
        .iter()
        .map(|s| s.to_string())
        .collect();
    let text = report.render(&percents);
    assert!(text.starts_with("title:        1/2 (50%)\nlevel:        2/2 (100%)\n"), "{text}");
    assert!(text.ends_with("item collect: 2/4 (50%)"), "{text}");
    let empty = Report::default().render(&percents);
    assert!(empty.starts_with("title:        n/a\n"), "{empty}");
}

#[test]
fn the_hash_is_the_published_one() {
    assert_eq!(fnv1a64(b""), 0xcbf29ce484222325);
    assert_eq!(fnv1a64(b"a"), 0xaf63dc4c8601ec8c);
    assert_eq!(fnv1a64(b"foobar"), 0x85944171f73967e8);
}

// Trials.

#[test]
fn digits_are_tried_in_sixty_ways() {
    let passes = digit_passes();
    assert_eq!(passes.len(), PASSES as usize);
    assert_eq!((passes[0].lum, passes[0].scale, passes[0].psm), (120, 2, Psm::Line));
    assert_eq!((passes[1].lum, passes[1].scale, passes[1].psm), (120, 2, Psm::Word));
    assert_eq!((passes[5].lum, passes[5].scale, passes[5].psm), (120, 4, Psm::Sparse));
    assert_eq!((passes[12].lum, passes[12].scale, passes[12].psm), (140, 2, Psm::Line));
    assert_eq!((passes[59].lum, passes[59].scale, passes[59].psm), (200, 8, Psm::Sparse));
}

#[test]
fn a_pass_is_right_only_where_something_was_expected() {
    assert!(reads_as_expected("3/5", "3/5"));
    assert!(!reads_as_expected("3/6", "3/5"));
    assert!(!reads_as_expected("", ""));
}

#[test]
fn clusters_are_labelled_one_by_one() {
    assert_eq!(labels_for(3, "3/5"), Some(vec!['3', '/', '5']));
    assert_eq!(labels_for(2, "3/5"), None);
    assert_eq!(labels_for(0, ""), Some(vec![]));
}

#[test]
fn variants_that_found_most_come_first() {
    let ranked = rank_variants(&vec![2, 5, 0, 5]);
    let order: Vec<(usize, usize)> = ranked.iter().map(|t| (t.at, t.found)).collect();
    assert_eq!(order, vec![(1, 5), (3, 5), (0, 2), (2, 0)]);
}

#[test]
fn glyphs_that_match_best_come_first() {
    let comps = find_components(&drawn(&["###", "#.#", "###"]));
    let block = glyph('x', &["###", "###", "###"]);
    let ring = glyph('0', &["###", "#.#", "###"]);
    let other = glyph('o', &["###", "#.#", "###"]);
    let ranked = rank_matches(&comps[0], &vec![block, ring, other]);
    let order: Vec<(char, u32, u32)> =
        ranked.iter().map(|m| (m.label, m.score.agree, m.score.total)).collect();
    assert_eq!(order, vec![('0', 9, 9), ('o', 9, 9), ('x', 8, 9)]);
}

#[test]
fn the_data_set_lists_its_images_by_name() {
    let names = |v: &[&str]| -> Vec<String> { v.iter().map(|s| s.to_string()).collect() };
    assert_eq!(
        list_dataset_images(&names(&["b.JPG", "labels.json", "a.jpg"])),
        Some(names(&["a.jpg", "b.JPG"]))
    );
    assert_eq!(list_dataset_images(&names(&["labels.json"])), None);
    assert_eq!(list_dataset_images(&vec![]), None);
}

#[test]
fn a_picture_is_enlarged_before_its_words_are_read() {
    let mut g = Gray::filled(6, 4, 255);
    for y in 0..4 {
        for x in 0..3 {
            g.put(x, y, 0);
        }
    }
    let r = enlarged(&g);
    assert_eq!((r.w, r.h), (12, 8));
    assert!(r.get(0, 0) < 40 && r.get(11, 7) > 215);
}

#[test]
fn a_strip_is_enlarged_and_framed() {
    let g = Gray::filled(3, 2, 0);
    let r = digit_strip(&g, 4);
    assert_eq!((r.w, r.h), (12 + 60, 8 + 60));
    assert_eq!(r.get(29, 30), 255);
    assert_eq!(r.get(30, 29), 255);
    assert_eq!(r.get(30, 30), 0);
    assert_eq!(r.get(41, 37), 0);
    assert_eq!(r.get(42, 37), 255);
}

#[test]
fn a_written_progress_reads_back() {
    for (a, b) in [(0, 0), (7, 12), (u32::MAX, 4_000_000_000)] {
        assert_eq!(split_progress(&format!("{a}/{b}")), Some((a, b)));
        assert_eq!(split_progress(&format!(" {a} x/ {b}.")), Some((a, b)));
    }
    assert_eq!(split_progress("28"), Some((2, 8)));
    assert_eq!(split_progress("285"), None);
    assert_eq!(split_progress("/5"), None);
    assert_eq!(split_progress("5/"), None);
    assert_eq!(split_progress("1/2/3"), None);
}

#[test]
fn the_order_of_panels_does_not_matter_to_the_report() {
    let row = |title_ok: bool, names: u32, total: u32| Row {
        title_ok,
        level_ok: true,
        cost_ok: false,
        item_count_ok: !title_ok,
        items_name_correct: names,
        items_needed_correct: 1,
        items_collected_correct: 2,
        items_total: total,
        expected_summary: String::new(),
        predicted_summary: String::new(),
    };
    // More right than there is still counts.
    let (a, b) = (row(true, 9, 4), row(false, 2, 3));
    let (mut x, mut y) = (Report::default(), Report::default());
    x.add(&a);
    x.add(&b);
    y.add(&b);
    y.add(&a);
    assert_eq!(x.shares(), y.shares());
    assert_eq!(
        x.shares(),
        vec![(1, 2), (2, 2), (0, 2), (1, 2), (11, 7), (2, 7), (4, 7)]
    );
}
