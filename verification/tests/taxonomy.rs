use rusty_website::taxonomy::{construct, sanitise, yaml, Layer, TaxonomyCache};

fn source() -> String {
    [
        "mushrooms:",
        "  title: Mushrooms",
        "  Agaricus:",
        "    Agaricus campestris:",
        "    common_name: field mushroom",
        "    blurb: A common edible species.",
        "    Agaricus arvensis:",
        "    common_name: horse mushroom",
        "    blurb: A larger relative.",
        "  Boletus:",
        "    Boletus edulis:",
        "    common_name: porcini",
        "    blurb: Highly prized.",
        "slimes:",
        "  title: Slime Molds",
        "  Fuligo:",
        "    Fuligo septica:",
        "    common_name: ''",
        "    blurb: Also called scrambled egg slime.",
    ]
    .join("\n")
}

#[test]
fn boundary_conditions() {
    assert!(Layer::Category.condition("mushrooms:"));
    assert!(!Layer::Category.condition("  Agaricus:"));
    assert!(!Layer::Category.condition("mushrooms"));
    assert!(Layer::Genus.condition("  Agaricus:"));
    assert!(!Layer::Genus.condition("   deep:"));
    assert!(!Layer::Genus.condition("    Agaricus campestris:"));
    assert!(Layer::Species.condition("    Agaricus campestris:"));
    assert!(!Layer::Species.condition("  Agaricus:"));
}

#[test]
fn parse_counts_match_boundaries() {
    let text = source();
    let cats: usize = text.lines().filter(|l| Layer::Category.condition(l)).count();
    let gens: usize = text.lines().filter(|l| Layer::Genus.condition(l)).count();
    let spes: usize = text.lines().filter(|l| Layer::Species.condition(l)).count();
    let (tree, _) = construct(&text);
    assert_eq!(tree.len(), cats);
    assert_eq!(tree.iter().map(|c| c.genera.len()).sum::<usize>(), gens);
    assert_eq!(
        tree.iter()
            .flat_map(|c| c.genera.iter())
            .map(|g| g.species.len())
            .sum::<usize>(),
        spes
    );
}

#[test]
fn genus_line_after_category_root_owns_two_species() {
    let text = [
        "mushrooms:",
        "  Agaricus:",
        "    Agaricus campestris:",
        "    common_name: field mushroom",
        "    blurb: A common edible species.",
        "    Agaricus arvensis:",
        "    common_name: horse mushroom",
        "    blurb: A larger relative.",
    ]
    .join("\n");
    let (tree, _) = construct(&text);
    assert_eq!(tree.len(), 1);
    assert_eq!(tree[0].genera.len(), 1);
    let genus = &tree[0].genera[0];
    assert_eq!(genus.title, "Agaricus");
    assert_eq!(genus.species.len(), 2);
    assert_eq!(genus.species[0].title, "Agaricus campestris");
    assert_eq!(genus.species[1].title, "Agaricus arvensis");
}

#[test]
fn category_fields_are_extracted() {
    let (tree, _) = construct(&source());
    assert_eq!(tree[0].label, "mushrooms");
    assert_eq!(tree[0].title, "Mushrooms");
    assert_eq!(tree[1].label, "slimes");
    assert_eq!(tree[1].title, "Slime Molds");
}

#[test]
fn species_fields_are_extracted() {
    let (tree, _) = construct(&source());
    let spe = &tree[0].genera[0].species[0];
    assert_eq!(spe.title, "Agaricus campestris");
    assert_eq!(spe.common_name, "field mushroom");
    assert_eq!(spe.blurb, "A common edible species.");
    let sentinel = &tree[1].genera[0].species[0];
    assert_eq!(sentinel.common_name, "''");
}

#[test]
fn shroompedia_is_the_flattened_tree() {
    let (tree, pedia) = construct(&source());
    let species: usize = tree
        .iter()
        .flat_map(|c| c.genera.iter())
        .map(|g| g.species.len())
        .sum();
    assert_eq!(pedia.len(), species);
    assert_eq!(pedia[0].cat, "mushrooms");
    assert_eq!(pedia[0].gen, "Agaricus");
    assert_eq!(pedia[0].spe, "Agaricus campestris");
    assert_eq!(pedia[0].latin_name, "Agaricus Agaricus campestris");
    assert_eq!(pedia[0].url, "/mushrooms/Agaricus/Agaricus campestris");
    assert_eq!(pedia[3].cat, "slimes");
}

#[test]
fn sanitise_strips_one_known_prefix() {
    assert_eq!(sanitise(Some(&"title: Boletus edulis".to_string())), "Boletus edulis");
    assert_eq!(sanitise(Some(&"blurb: Highly prized.".to_string())), "Highly prized.");
    assert_eq!(sanitise(Some(&"common_name: porcini".to_string())), "porcini");
    assert_eq!(sanitise(Some(&"name: porcini".to_string())), "porcini");
}

#[test]
fn sanitise_without_prefix_only_trims() {
    assert_eq!(sanitise(Some(&"  Boletus edulis  ".to_string())), "Boletus edulis");
    assert_eq!(sanitise(Some(&"plain text".to_string())), "plain text");
    assert_eq!(sanitise(None), "");
}

#[test]
fn sanitise_strips_one_trailing_colon() {
    assert_eq!(sanitise(Some(&"  Agaricus:".to_string())), "Agaricus");
    assert_eq!(sanitise(Some(&"a:b:".to_string())), "a:b");
}

#[test]
fn blurb_keeps_every_remaining_line() {
    let text = [
        "mushrooms:",
        "  Agaricus:",
        "    Agaricus campestris:",
        "    common_name: field mushroom",
        "    blurb: A common edible species.",
        "    It fruits in meadows after rain.",
    ]
    .join("\n");
    let (tree, _) = construct(&text);
    let spe = &tree[0].genera[0].species[0];
    assert_eq!(
        spe.blurb,
        "A common edible species.\nIt fruits in meadows after rain."
    );
}

#[test]
fn missing_blurb_is_empty() {
    let text = ["mushrooms:", "  Agaricus:", "    Agaricus campestris:"].join("\n");
    let (tree, _) = construct(&text);
    let spe = &tree[0].genera[0].species[0];
    assert_eq!(spe.common_name, "");
    assert_eq!(spe.blurb, "");
}

#[test]
fn empty_source_yields_empty_taxonomy() {
    let (tree, pedia) = construct(&String::new());
    assert!(tree.is_empty());
    assert!(pedia.is_empty());
}

#[test]
fn unreadable_source_degrades_to_empty_taxonomy() {
    let (tree, pedia) = yaml(None);
    assert!(tree.is_empty());
    assert!(pedia.is_empty());
}

#[test]
fn unchanged_mtime_reuses_memoized_taxonomy() {
    let text = source();
    let mut cache = TaxonomyCache::new();
    assert!(cache.needs_reload(7));
    cache.install(7, Some(&text));
    assert_eq!(cache.parse_count, 1);
    assert_eq!(cache.categories.len(), 2);
    // repeated requests with the same mtime never parse again
    for _ in 0..5 {
        assert!(!cache.needs_reload(7));
    }
    assert_eq!(cache.parse_count, 1);
    // a changed mtime forces one reparse
    assert!(cache.needs_reload(8));
    cache.install(8, Some(&text));
    assert_eq!(cache.parse_count, 2);
}
