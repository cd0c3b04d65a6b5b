//! Reading the upstream sources: object literals, objectives, the catalog,
//! modules, and what is written of them.

use ez_wishlist_overlay::data::{Item, Kilograms, Requirement};
use ez_wishlist_overlay::ids::IdSet;
use ez_wishlist_overlay::scraper::corrections::{correct_id, correct_name};
use ez_wishlist_overlay::scraper::hideout::{self, UpstreamUpgrade};
use ez_wishlist_overlay::scraper::items::{ItemCatalog, UpstreamItem};
use ez_wishlist_overlay::scraper::model::ScrapedData;
use ez_wishlist_overlay::scraper::output::{
    convert_icon, data_version_of, modules_or_empty, plan_icons, read_existing_modules, source_md,
    unparsed_log, upstream_path_for, IconPlan, WriteOutcome,
};
use ez_wishlist_overlay::scraper::parse_ts::{
    extract_literal, extract_object, find_first_brace, find_matching_brace, nesting_of,
    parsed_literal, ExtractError, MAX_NESTING,
};
use ez_wishlist_overlay::scraper::tasks::{
    self, is_submit_like, match_objective, objective_of, singularize, UpstreamCorp, UpstreamTask,
};
use ez_wishlist_overlay::scraper::upstream::{
    upstream_package_version, version_or_unknown, CheckoutFacts, CloneStep, Upstream,
};

// Corrections.

#[test]
fn corrects_known_divergences() {
    assert_eq!(
        correct_name("misc_b_tapeplayer", "Civil radio"),
        "Tape player"
    );
    assert_eq!(
        correct_name("misc_barcleaner", "Household Cleaner"),
        "Cleaner"
    );
    assert_eq!(correct_name("misc_b_nail", "Nails"), "Boxed Nails");
}

#[test]
fn remaps_battery_twin_ids() {
    assert_eq!(correct_id("misc_1batterie_2"), "misc_b_battery_1");
    assert_eq!(correct_id("misc_b_1battery"), "misc_b_battery_2");
    assert_eq!(correct_id("misc_b_nail"), "misc_b_nail");
}

#[test]
fn disambiguates_size_d_battery_twins() {
    assert_eq!(
        correct_name("misc_b_battery_1", "Size D battery"),
        "Size D battery1"
    );
    assert_eq!(
        correct_name("misc_b_battery_2", "Size D battery"),
        "Size D battery2"
    );
}

#[test]
fn passes_through_uncorrected_names() {
    assert_eq!(
        correct_name("misc_b_civilradio", "Civil radio"),
        "Civil radio"
    );
    assert_eq!(correct_name("misc_oilcan", "Oil can"), "Oil can");
}

#[test]
fn corrected_ids_stay_as_they_are() {
    for id in ["misc_1batterie_2", "misc_b_1battery", "misc_b_nail", ""] {
        let once = correct_id(id);
        assert_eq!(correct_id(once), once);
    }
}

// Object literals.

fn object(src: &str, binding: &str) -> serde_json::Value {
    let json = extract_object(src, binding).unwrap();
    serde_json::from_str(&json).unwrap()
}

#[test]
fn extracts_simple_object() {
    let src = r#"
        export const foo = {
            "a": 1,
            "b": 2,
        } as const;
    "#;
    let v = object(src, "foo");
    assert_eq!(v["a"], 1);
    assert_eq!(v["b"], 2);
}

#[test]
fn handles_type_annotation_and_unquoted_keys() {
    let src = r#"
        export const corps: Record<string, Corp> = {
            "ark": { name: "ARK", icon: "/x" },
            "ntg": { name: "N.T.G", icon: "/y" },
        } as const;
    "#;
    let v = object(src, "corps");
    assert_eq!(v["ark"]["name"], "ARK");
    assert_eq!(v["ntg"]["icon"], "/y");
}

#[test]
fn ignores_braces_in_strings_and_comments() {
    let src = r#"
        // {{{ this should not count
        export const x = {
            "s": "} not a brace {",
            /* { also fake } */
            "n": 1,
        };
    "#;
    let v = object(src, "x");
    assert_eq!(v["s"], "} not a brace {");
    assert_eq!(v["n"], 1);
}

#[test]
fn each_reason_for_no_object_is_told_apart() {
    let err = |src: &str| extract_object(src, "x").unwrap_err();
    assert!(matches!(err("const y = {};"), ExtractError::MissingBinding));
    assert!(matches!(err("export const x: T"), ExtractError::MissingEquals));
    assert!(matches!(err("export const x = 5;"), ExtractError::MissingBrace));
    assert!(matches!(err("export const x = { a: {"), ExtractError::Unbalanced));
    assert!(matches!(err("export const x = { a: ??? };"), ExtractError::Json5(_)));
    assert!(err("").message("x").contains("x"));
}

#[test]
fn a_literal_reaches_from_brace_to_brace() {
    let src = "export const x: Y = { 'a': { b: \"}\" } } as const; {}";
    assert_eq!(extract_literal(src, "x").unwrap(), "{ 'a': { b: \"}\" } }");
}

// Objectives.

#[test]
fn matches_turn_in_pattern_basic() {
    let (qty, name) = match_objective("Turn in 5 bolts").unwrap();
    assert_eq!(qty, 5);
    assert_eq!(name, "bolts");
}

#[test]
fn matches_submit_pattern() {
    let (qty, name) = match_objective("Submit 3 Electric Items").unwrap();
    assert_eq!(qty, 3);
    assert_eq!(name, "Electric");
}

#[test]
fn strips_in_raid_qualifier() {
    let (qty, name) = match_objective("Turn in 9 Intel Items Found In Raid").unwrap();
    assert_eq!(qty, 9);
    assert_eq!(name, "Intel");
}

#[test]
fn cleans_trailing_item_word() {
    let (qty, name) = match_objective("Turn in 4 combustible items").unwrap();
    assert_eq!(qty, 4);
    assert_eq!(name, "combustible");
}

#[test]
fn matches_provide_pattern() {
    let (qty, name) = match_objective("Provide 5 batteries").unwrap();
    assert_eq!(qty, 5);
    assert_eq!(name, "batteries");
}

#[test]
fn ignores_non_collection_objectives() {
    assert!(match_objective("Eliminate 4 scavengers in Suburb area").is_none());
    assert!(match_objective("Reach the Office Building Near the Motel").is_none());
}

#[test]
fn matches_implicit_quantity_one() {
    let (qty, name) = match_objective("Turn in ARK Floppydisk").unwrap();
    assert_eq!(qty, 1);
    assert_eq!(name, "ARK Floppydisk");
}

#[test]
fn singularizes_plurals() {
    assert_eq!(singularize("batteries"), "battery");
    assert_eq!(singularize("bolts"), "bolt");
    assert_eq!(singularize("intel"), "intel");
}

#[test]
fn finding_counts_as_an_objective_too() {
    assert_eq!(match_objective("Find 2 Oil can in raid"), Some((2, "Oil can".to_string())));
}

#[test]
fn the_first_pattern_that_matches_decides() {
    let groups = |n: &str, name: &str| {
        Some(vec![
            Some("whole".to_string()),
            Some(n.to_string()),
            Some(name.to_string()),
        ])
    };
    assert_eq!(
        objective_of(&groups("5", "bolts"), &groups("6", "nails"), &None),
        Some((5, "bolts".to_string()))
    );
    assert_eq!(
        objective_of(&None, &groups("6", "nails"), &None),
        Some((6, "nails".to_string()))
    );
    assert_eq!(objective_of(&None, &None, &None), None);
}

#[test]
fn submissions_are_spotted_whatever_their_case() {
    assert!(is_submit_like("TURN IN the briefcase"));
    assert!(is_submit_like("Please hand over all of it"));
    assert!(!is_submit_like("Survive the raid"));
}

// The catalog.

fn upstream_item(id: &str, name: &str, task_ids: &[&str]) -> UpstreamItem {
    UpstreamItem {
        id: id.into(),
        name: name.into(),
        category: Some("misc".into()),
        subcategory: None,
        icon: Some(format!("/images/{id}.webp")),
        task_ids: task_ids.iter().map(|t| t.to_string()).collect(),
        price: Some(100),
        weight: Some(Kilograms {
            bits: 0.25f32.to_bits(),
        }),
        rarity: None,
    }
}

fn catalog() -> ItemCatalog {
    let mut c = ItemCatalog::new();
    c.add_item(upstream_item("misc_bolt", "Bolt", &[]));
    c.add_item(upstream_item("misc_b_nail", "Nails", &[]));
    c.add_item(upstream_item("misc_disk_a", "Floppydisk", &["t1"]));
    c.add_item(upstream_item("misc_disk_b", "Floppydisk", &["t2"]));
    c.add_item(upstream_item("misc_1batterie_2", "Size D battery", &[]));
    c
}

#[test]
fn names_resolve_by_singular_and_by_task() {
    let c = catalog();
    let t = |s: &str| s.to_string();
    assert_eq!(c.resolve_item_name(" BOLTS ", &t("t9")).as_deref(), Some("misc_bolt"));
    assert_eq!(c.resolve_item_name("Boxed Nails", &t("t9")).as_deref(), Some("misc_b_nail"));
    assert_eq!(c.resolve_item_name("floppydisk", &t("t2")).as_deref(), Some("misc_disk_b"));
    assert_eq!(c.resolve_item_name("no such thing", &t("t1")), None);
    assert_eq!(c.lookup_candidates("floppydisks").unwrap().len(), 2);
}

#[test]
fn the_catalog_holds_corrected_ids_and_names() {
    let out = catalog().build_output_items("icons");
    let battery = out.iter().find(|i| i.id == "misc_b_battery_1").unwrap();
    assert_eq!(battery.name, "Size D battery1");
    assert_eq!(battery.icon_path, "icons/misc_b_battery_1.png");
    assert!(out.iter().all(|i| i.id != "misc_1batterie_2"));
    let names: Vec<&str> = out.iter().map(|i| i.id.as_str()).collect();
    let mut sorted = names.clone();
    sorted.sort();
    assert_eq!(names, sorted);
}

fn task(id: &str, corp: &str, objectives: &[&str], types: &[&str]) -> UpstreamTask {
    UpstreamTask {
        id: id.into(),
        name: format!("Task {id}"),
        objectives: objectives.iter().map(|o| o.to_string()).collect(),
        corp_id: corp.into(),
        task_type: types.iter().map(|o| o.to_string()).collect(),
        required_tasks: vec![],
    }
}

#[test]
fn objectives_become_requirements_or_are_logged() {
    let corps = vec![UpstreamCorp { id: "ark".into(), name: "ARK".into() }];
    let ts = vec![task(
        "t7",
        "ark",
        &["Turn in 5 bolts", "Submit 2 unknown gadgets", "Kill 3 guards"],
        &["submit"],
    )];
    let r = tasks::parse(&corps, &ts, &catalog());
    let t = &r.vendors[0].tasks[0];
    assert_eq!(t.requirements.len(), 1);
    assert_eq!((t.requirements[0].item_id.as_str(), t.requirements[0].quantity), ("misc_bolt", 5));
    assert!(r.referenced_items.contains("misc_bolt"));
    assert_eq!(r.unparsed_objectives.len(), 1);
    assert_eq!(
        unparsed_log(&r.unparsed_objectives),
        "[t7] Submit 2 unknown gadgets :: no item match for `unknown gadgets`"
    );
}

#[test]
fn items_linked_to_a_task_are_asked_for_once_unless_it_says_more() {
    let corps = vec![UpstreamCorp { id: "ark".into(), name: "ARK".into() }];
    let ts = vec![
        task("t1", "ark", &["Find the disk"], &[]),
        task("t2", "ark", &["Turn in 3 Floppydisk"], &[]),
    ];
    let r = tasks::parse(&corps, &ts, &catalog());
    let asked: Vec<(&str, u32)> = r.vendors[0]
        .tasks
        .iter()
        .flat_map(|t| t.requirements.iter().map(|q| (q.item_id.as_str(), q.quantity)))
        .collect();
    assert_eq!(asked, vec![("misc_disk_a", 1), ("misc_disk_b", 3)]);
}

// Modules.

fn req(id: &str, quantity: u32) -> Requirement {
    Requirement { item_id: id.into(), quantity }
}

fn level(area: &str, n: u32, exchange: Vec<Requirement>) -> UpstreamUpgrade {
    UpstreamUpgrade {
        key: format!("{area}_lv{n}"),
        area_id: area.into(),
        level: n,
        upgrade_name: area.to_string(),
        exchange,
    }
}

#[test]
fn levels_of_a_module_come_in_order() {
    let ups = vec![
        level("bench", 2, vec![req("misc_bolt", 3)]),
        level("stove", 1, vec![]),
        level("bench", 1, vec![req("misc_b_nail", 4)]),
    ];
    let r = hideout::parse(&ups);
    assert_eq!(r.modules.len(), 2);
    let bench = r.modules.iter().find(|m| m.id == "bench").unwrap();
    let levels: Vec<u32> = bench.upgrades.iter().map(|u| u.level).collect();
    assert_eq!(levels, vec![1, 2]);
    assert!(r.referenced_items.contains("misc_b_nail"));
    assert_eq!(r.referenced_items.len(), 2);
}

// Output.

#[test]
fn provenance_names_repository_and_commit() {
    let data = ScrapedData {
        data_version: "1.2.3+abcdef0".into(),
        scraped_at: "2026-01-02".into(),
        source_repo: "https://example.invalid/repo".into(),
        source_commit: "abcdef0123".into(),
        modules: String::new(),
        vendors: vec![],
        items: Vec::<Item>::new(),
    };
    let md = source_md(&data, "out");
    assert!(md.starts_with("# Source provenance\n\n- **Upstream repo:** https://example.invalid/repo\n"));
    assert!(md.contains("`abcdef0123`"));
    assert!(md.contains("--output out"));
}

#[test]
fn versions_carry_the_short_commit() {
    assert_eq!(data_version_of("1.2.3", "abcdef0123"), "1.2.3+abcdef0");
    assert_eq!(data_version_of("1.2.3", "abc"), "1.2.3+abc");
}

#[test]
fn icons_come_from_the_public_directory() {
    assert_eq!(upstream_path_for("/images/a.webp"), "public/images/a.webp");
    assert_eq!(upstream_path_for("images/a.webp"), "public/images/a.webp");
}

#[test]
fn icons_are_planned_for_known_items_only() {
    let mut ids = IdSet::new();
    ids.insert("misc_bolt".to_string());
    ids.insert("ghost".to_string());
    let plan = plan_icons(&catalog(), &ids);
    assert_eq!(plan.len(), 2);
    assert!(matches!(&plan[0], IconPlan::Convert { dest, .. } if dest == "icons/misc_bolt.png"));
    assert!(matches!(&plan[1], IconPlan::Missing { id } if id == "ghost"));
    let mut outcome = WriteOutcome::new();
    outcome.record(&"misc_bolt".to_string(), true);
    outcome.record(&"ghost".to_string(), false);
    assert_eq!((outcome.icons_written, outcome.icons_missing.len()), (1, 1));
}

fn png(w: u32, h: u32) -> Vec<u8> {
    let mut out = std::io::Cursor::new(Vec::new());
    image::DynamicImage::new_rgba8(w, h)
        .write_to(&mut out, image::ImageFormat::Png)
        .unwrap();
    out.into_inner()
}

#[test]
fn large_icons_shrink_to_what_ships() {
    let icon = convert_icon(&png(300, 150)).unwrap();
    assert_eq!((icon.w, icon.h), (128, 64));
    let back = image::load_from_memory(&icon.png).unwrap();
    assert_eq!((back.width(), back.height()), (128, 64));
}

#[test]
fn small_icons_keep_their_size() {
    let icon = convert_icon(&png(40, 60)).unwrap();
    assert_eq!((icon.w, icon.h), (40, 60));
    let back = image::load_from_memory(&icon.png).unwrap();
    assert_eq!((back.width(), back.height()), (40, 60));
}

#[test]
fn what_is_no_picture_gives_no_icon() {
    assert!(convert_icon(b"no picture at all").is_none());
    assert!(convert_icon(b"").is_none());
}

// The checkout.

fn facts(git: bool, package: bool, head: Option<&str>) -> CheckoutFacts {
    CheckoutFacts {
        has_git: git,
        has_package_json: package,
        head: head.map(|h| h.to_string()),
    }
}

#[test]
fn a_directory_has_to_look_like_a_checkout() {
    let u = Upstream::from_existing("here", facts(true, false, Some("abc"))).unwrap();
    assert_eq!((u.root.as_str(), u.commit.as_str(), u.owned_temp), ("here", "abc", false));
    let u = Upstream::from_existing("here", facts(false, true, None)).unwrap();
    assert_eq!(u.commit, "unknown");
    assert!(Upstream::from_existing("here", facts(false, false, Some("abc"))).is_err());
    assert!(Upstream::cloned("there", "def".to_string()).owned_temp);
}

#[test]
fn a_branch_that_is_missing_falls_back_to_the_default() {
    assert_eq!(CloneStep::CloneRef.after(true), CloneStep::Done);
    assert_eq!(CloneStep::CloneRef.after(false), CloneStep::CloneDefault);
    assert_eq!(CloneStep::CloneDefault.after(false), CloneStep::Failed);
}

#[test]
fn a_brace_is_matched_only_where_one_opens() {
    let s: Vec<char> = "x{a{}'}'}".chars().collect();
    assert_eq!(find_matching_brace(&s, 1), Some(8));
    assert_eq!(find_matching_brace(&s, 3), Some(4));
    assert_eq!(find_matching_brace(&s, 0), None);
    assert_eq!(find_matching_brace(&s, 8), None);
    assert_eq!(find_matching_brace(&s, 9), None);
    assert_eq!(find_matching_brace(&['{'], 0), None);
    assert_eq!(find_first_brace(&s, 2), Some(3));
    assert_eq!(find_first_brace(&s, 100), None);
}

// Members of JSON files.

#[test]
fn the_package_gives_the_version() {
    let version = |t: &str| upstream_package_version(t);
    assert_eq!(version(r#"{"name": "x", "version": "1.4.2"}"#), Ok("1.4.2".to_string()));
    assert_eq!(version(r#"{"version": 3}"#), Ok("unknown".to_string()));
    assert_eq!(version("{}"), Ok("unknown".to_string()));
    assert_eq!(version("[1]"), Ok("unknown".to_string()));
    assert!(version("{").is_err());
    assert_eq!(version_or_unknown(Some("2".into())), "2");
    assert_eq!(version_or_unknown(None), "unknown");
}

#[test]
fn modules_of_an_existing_file_are_carried_over() {
    let file = r#"{"modules": [{"id": "m", "extra": {"b": 1, "a": null}}], "x": 1}"#;
    assert_eq!(
        read_existing_modules(Some(file)),
        r#"[{"extra":{"a":null,"b":1},"id":"m"}]"#
    );
    assert_eq!(read_existing_modules(Some("{}")), "[]");
    assert_eq!(read_existing_modules(Some("no json")), "[]");
    assert_eq!(read_existing_modules(None), "[]");
    assert_eq!(modules_or_empty(Some("[1]".into())), "[1]");
}

#[test]
fn nesting_counts_what_is_open_at_once() {
    assert_eq!(nesting_of(""), 0);
    assert_eq!(nesting_of("{a: [1, {b: 2}], c: [3]}"), 3);
    assert_eq!(nesting_of("{a: '[[[', b: \"{{\\\"{\"}"), 1);
    assert_eq!(nesting_of("{ // [[[\n a: [] /* {{{ */ }"), 2);
    assert_eq!(nesting_of("// x\r{[]}"), 2);
    assert_eq!(nesting_of("]]}[{"), 2);
}

#[test]
fn what_is_nested_too_deeply_is_not_read() {
    let nested = |n: usize| {
        let inner = format!("{}{}", "[".repeat(n), "]".repeat(n));
        extract_object(&format!("export const x = {{a: {inner}}};"), "x")
    };
    let json = nested(MAX_NESTING - 1).unwrap();
    assert!(json.starts_with("{\"a\":[[["));
    let err = nested(MAX_NESTING).unwrap_err();
    assert!(matches!(err, ExtractError::TooDeep));
    assert_eq!(err.message("x"), "too many levels in `x` literal");
    assert_eq!(parsed_literal(Ok("{}".into())).unwrap(), "{}");
    assert!(matches!(
        parsed_literal(Err("no".into())),
        Err(ExtractError::Json5(m)) if m == "no"
    ));
}
