use rusty_website::render::{
    cache, display_name, find_category, find_shroom, flatten_names, gen_genus, gen_shroom_html,
    gen_species, get, image_count, menu, search_obj, search_opts, Fragments, Templates,
    FALLBACK_IMAGE_COUNT,
};
use rusty_website::taxonomy::{construct, CatInfo, GenInfo, ShroomInfo, SpeInfo};

fn templates() -> Templates {
    cache(
        "<meta>",
        "gone{META}",
        "verboten",
        "menu:{MENU}|search:{SEARCH}|data:{DATA}",
        "page:{TITLE}|{DATA}",
        "[cat {TITLE}|{HTML}]",
        "[gen {NAME}|{BLURB}|{HTML}]",
        "[img {PATH}]",
        "<a href=/{HREF}>{TITLE}</a>",
    )
}

fn tree() -> (Vec<CatInfo>, Vec<ShroomInfo>) {
    construct(
        &[
            "mushrooms:",
            "  title: Mushrooms",
            "  Agaricus:",
            "    Agaricus campestris:",
            "    common_name: field mushroom",
            "    blurb: A common edible species.",
            "    Agaricus arvensis:",
            "    common_name: ''",
            "    blurb: A larger relative.",
        ]
        .join("\n"),
    )
}

#[test]
fn cache_splices_the_meta_block() {
    let t = templates();
    assert_eq!(t.nf404, "gone<meta>");
    assert_eq!(t.pd403, "verboten");
    assert_eq!(t.fragments.menu, "<a href=/{HREF}>{TITLE}</a>");
}

#[test]
fn sentinel_common_name_renders_without_suffix() {
    assert_eq!(display_name("Agaricus arvensis", "''"), "Agaricus arvensis");
}

#[test]
fn other_common_name_appends_dash_suffix() {
    assert_eq!(
        display_name("Agaricus campestris", "field mushroom"),
        "Agaricus campestris - field mushroom"
    );
}

#[test]
fn listing_failure_yields_the_fallback_count() {
    assert_eq!(image_count(None), FALLBACK_IMAGE_COUNT);
    assert_eq!(image_count(None), 0);
}

#[test]
fn listing_counts_only_image_files() {
    let names = vec![
        "a0.jpg".to_string(),
        "notes.txt".to_string(),
        "a1.jpg".to_string(),
        "jpg".to_string(),
    ];
    assert_eq!(image_count(Some(&names)), 2);
    assert_eq!(image_count(Some(&Vec::new())), 0);
}

#[test]
fn menu_folds_label_and_title_per_category() {
    let (cats, _) = tree();
    assert_eq!(
        menu(&cats, "<a href=/{HREF}>{TITLE}</a>"),
        "<a href=/mushrooms>Mushrooms</a>"
    );
}

#[test]
fn gen_species_builds_deterministic_image_paths() {
    let html = gen_species("c", "g", "s", "[img {PATH}]", 2);
    assert_eq!(html, "[img c/g/s/gs0.jpg][img c/g/s/gs1.jpg]");
    assert_eq!(gen_species("c", "g", "s", "[img {PATH}]", 0), "");
}

#[test]
fn gen_genus_folds_species_sections() {
    let (cats, _) = tree();
    let t = templates();
    let genus = &cats[0].genera[0];
    let html = gen_genus("mushrooms", genus, &t.fragments, &vec![1, 0]);
    assert_eq!(
        html,
        "[gen Agaricus campestris - field mushroom|A common edible species.|\
         [img mushrooms/Agaricus/Agaricus campestris/AgaricusAgaricus campestris0.jpg]]\
         [gen Agaricus arvensis|A larger relative.|]"
    );
}

#[test]
fn htmlify_nests_genera_inside_category_fragment() {
    let (cats, _) = tree();
    let t = templates();
    let html = cats[0].htmlify(&t.fragments, &vec![vec![0, 0]]);
    assert_eq!(
        html,
        "[cat Agaricus|[gen Agaricus campestris - field mushroom|A common edible species.|]\
         [gen Agaricus arvensis|A larger relative.|]]"
    );
}

#[test]
fn shroom_htmlify_repeats_the_species_fragment() {
    let (_, pedia) = tree();
    let html = pedia[0].htmlify("[img {PATH}]", 1);
    assert_eq!(
        html,
        "[img mushrooms/Agaricus/Agaricus campestris/AgaricusAgaricus campestris0.jpg]"
    );
}

#[test]
fn flatten_names_skips_the_sentinel() {
    let (_, pedia) = tree();
    let names = flatten_names(&pedia);
    assert_eq!(names.len(), 3);
    assert_eq!(
        names[0],
        (
            "Agaricus Agaricus campestris".to_string(),
            "/mushrooms/Agaricus/Agaricus campestris".to_string()
        )
    );
    assert_eq!(names[1].0, "field mushroom");
    assert_eq!(names[2].0, "Agaricus Agaricus arvensis");
}

#[test]
fn search_obj_lists_names_and_urls() {
    let (_, pedia) = tree();
    let obj = search_obj(&pedia);
    assert_eq!(
        obj,
        "\"Agaricus Agaricus campestris\":\"/mushrooms/Agaricus/Agaricus campestris\",\
         \"field mushroom\":\"/mushrooms/Agaricus/Agaricus campestris\",\
         \"Agaricus Agaricus arvensis\":\"/mushrooms/Agaricus/Agaricus arvensis\","
    );
}

#[test]
fn search_opts_lists_every_name_once() {
    let (_, pedia) = tree();
    let opts = search_opts(&pedia);
    assert!(opts.starts_with("<div>"));
    assert!(opts.contains("<option>Agaricus Agaricus campestris</option>"));
    assert!(opts.contains("<option>field mushroom</option>"));
    assert!(opts.contains("<option>Agaricus Agaricus arvensis</option>"));
    assert!(opts.ends_with("</div>"));
}

#[test]
fn find_category_and_find_shroom_locate_entries() {
    let (cats, pedia) = tree();
    assert_eq!(find_category(&cats, "mushrooms"), Some(0));
    assert_eq!(find_category(&cats, "slimes"), None);
    assert_eq!(find_shroom(&pedia, "/mushrooms/Agaricus/Agaricus campestris"), Some(0));
    assert_eq!(find_shroom(&pedia, "/nowhere"), None);
}

#[test]
fn empty_request_renders_the_menu_page() {
    let (cats, pedia) = tree();
    let t = templates();
    let r = gen_shroom_html("/", &t, &cats, &pedia, &vec![vec![0, 0]]);
    assert_eq!(r.status, "HTTP/1.1 200 OK");
    assert_eq!(r.mime_type, "text/html");
    let body = String::from_utf8(r.content).unwrap();
    assert!(body.starts_with("menu:<a href=/mushrooms>Mushrooms</a>|search:"));
}

#[test]
fn known_category_request_renders_its_page() {
    let (cats, pedia) = tree();
    let t = templates();
    let r = gen_shroom_html("/mushrooms/", &t, &cats, &pedia, &vec![vec![0, 0]]);
    assert_eq!(r.status, "HTTP/1.1 200 OK");
    let body = String::from_utf8(r.content).unwrap();
    assert!(body.starts_with("page:Mushrooms|[cat Agaricus|"));
}

#[test]
fn unknown_category_request_is_not_found() {
    let (cats, pedia) = tree();
    let t = templates();
    let r = gen_shroom_html("/slimes/", &t, &cats, &pedia, &Vec::new());
    assert_eq!(r.status, "HTTP/1.1 404 NOT FOUND");
    assert_eq!(String::from_utf8(r.content).unwrap(), "gone<meta>");
}

#[test]
fn get_serves_the_species_page() {
    let (cats, pedia) = tree();
    let t = templates();
    let r = get(
        &cats,
        &pedia,
        "/mushrooms/Agaricus/Agaricus campestris",
        &t,
        &Vec::new(),
        1,
    )
    .unwrap();
    assert_eq!(r.status, "HTTP/1.1 200 OK");
    let body = String::from_utf8(r.content).unwrap();
    assert_eq!(
        body,
        "page:Agaricus Agaricus campestris - field mushroom|\
         [img mushrooms/Agaricus/Agaricus campestris/AgaricusAgaricus campestris0.jpg]"
    );
}

#[test]
fn sentinel_species_page_title_has_no_suffix() {
    let (cats, pedia) = tree();
    let t = templates();
    let r = get(
        &cats,
        &pedia,
        "/mushrooms/Agaricus/Agaricus arvensis",
        &t,
        &Vec::new(),
        0,
    )
    .unwrap();
    let body = String::from_utf8(r.content).unwrap();
    assert_eq!(body, "page:Agaricus Agaricus arvensis|");
}

#[test]
fn get_rejects_an_unknown_path() {
    let (cats, pedia) = tree();
    let t = templates();
    assert!(get(&cats, &pedia, "/nowhere", &t, &Vec::new(), 0).is_err());
}
