use nekifoch::catalog::{compute_catalog, FontResolver};
use nekifoch::completion::completion;
use nekifoch::utils::Utils;

fn strings(v: &[&str]) -> Vec<String> {
    v.iter().map(|s| s.to_string()).collect()
}

#[test]
fn catalog_example() {
    let installed = strings(&["Fira Code", "Arial"]);
    let supported = strings(&["FiraCode", "Arial"]);
    let catalog = compute_catalog(&installed, &supported);
    assert_eq!(catalog.resolve("FiraCode"), Some("Fira Code".to_string()));
    assert_eq!(catalog.resolve("Arial"), Some("Arial".to_string()));
    assert_eq!(catalog.resolve("Helvetica"), None);
    let mut keys = catalog.keys();
    keys.sort();
    assert_eq!(keys, strings(&["Arial", "FiraCode"]));
}

#[test]
fn catalog_from_terminal_output() {
    let json = r#"{"family_map": {"fira code": [{"family": "FiraCode", "style": "Regular"}], "arial": [{"family": "Arial"}, {"family": "Arial"}]}}"#;
    let catalog = Utils::compare_fonts_with_kitty_list_fonts(strings(&["Fira Code", "Arial", "Comic"]), json);
    assert_eq!(catalog.resolve("FiraCode"), Some("Fira Code".to_string()));
    assert_eq!(catalog.resolve("Arial"), Some("Arial".to_string()));
    assert_eq!(catalog.resolve("Comic"), None);
}

#[test]
fn catalog_order_independent() {
    let supported = strings(&["FiraCode", "Arial", "JetBrains Mono"]);
    let a = compute_catalog(&strings(&["Fira Code", "Arial", "JetBrains Mono", "Comic"]), &supported);
    let b = compute_catalog(&strings(&["Comic", "JetBrains Mono", "Arial", "Fira Code"]), &supported);
    let mut ka = a.keys();
    let mut kb = b.keys();
    ka.sort();
    kb.sort();
    assert_eq!(ka, kb);
    for k in &ka {
        assert_eq!(a.resolve(k), b.resolve(k));
    }
}

#[test]
fn terminal_fonts_malformed_or_empty() {
    assert!(Utils::extract_fonts_from_json("").is_empty());
    assert!(Utils::extract_fonts_from_json("not json").is_empty());
    assert!(Utils::extract_fonts_from_json("{\"other\": 1}").is_empty());
    let fonts = Utils::extract_fonts_from_json(r#"{"family_map": {"x": [{"family": "A"}, {"family": "B"}], "y": [{"family": "A"}]}}"#);
    let mut sorted = fonts.clone();
    sorted.sort();
    assert_eq!(sorted, strings(&["A", "B"]));
}

#[test]
fn installed_fonts_from_enumerator() {
    let fonts = Utils::list_installed_fonts("Fira Code,Fira Code Retina\nArial\nArial\n\nDejaVu Sans,DejaVu\n");
    assert_eq!(fonts, strings(&["Fira Code", "Arial", "DejaVu Sans"]));
}

#[test]
fn resolver_memoizes() {
    let mut resolver = FontResolver::new();
    assert!(!resolver.is_cached());
    let first = Utils::get_cached_installed_fonts(&mut resolver, &strings(&["Arial"]), &strings(&["Arial"]));
    assert_eq!(first.resolve("Arial"), Some("Arial".to_string()));
    let second = Utils::get_cached_installed_fonts(&mut resolver, &strings(&["Fira Code"]), &strings(&["FiraCode"]));
    assert_eq!(second.resolve("Arial"), Some("Arial".to_string()));
    assert_eq!(second.resolve("FiraCode"), None);
    assert_eq!(resolver.resolve("Arial"), Some("Arial".to_string()));
    resolver.invalidate();
    assert!(!resolver.is_cached());
    assert_eq!(resolver.resolve("Arial"), None);
}

#[test]
fn columns_layout() {
    let lines = Utils::format_fonts_in_columns(&strings(&["A", "BB", "CCC"]), 10);
    assert_eq!(lines, strings(&["A    BB", "CCC"]));
    let narrow = Utils::format_fonts_in_columns(&strings(&["A", "BB"]), 1);
    assert_eq!(narrow, strings(&["A", "BB"]));
    assert!(Utils::format_fonts_in_columns(&Vec::new(), 80).is_empty());
}

#[test]
fn completion_of_font_names() {
    let catalog = compute_catalog(&strings(&["Fira Code", "Arial", "Fira Mono"]), &strings(&["FiraCode", "Arial", "FiraMono"]));
    let r = completion("FI", "Nekifoch set_font FI", 20, &catalog);
    assert_eq!(r, strings(&["FiraCode", "FiraMono"]));
    let all = completion("", "Nekifoch set_font ", 18, &catalog);
    assert_eq!(all, strings(&["Arial", "FiraCode", "FiraMono"]));
}

#[test]
fn completion_of_actions() {
    let catalog = compute_catalog(&Vec::new(), &Vec::new());
    assert_eq!(completion("", "Nekifoch ", 9, &catalog), strings(&["check", "set_font", "set_size", "list"]));
    assert_eq!(completion("s", "Nekifoch s", 10, &catalog), strings(&["set_font", "set_size"]));
    assert!(completion("", "Nekifoch list ", 14, &catalog).is_empty());
    assert!(completion("", "Nekifoch check ", 15, &catalog).is_empty());
    assert!(completion("x", "Nekifoch close x", 16, &catalog).is_empty());
}

#[test]
fn text_contains_finds_pieces() {
    let h: Vec<char> = "firacode".chars().collect();
    let n: Vec<char> = "raco".chars().collect();
    let m: Vec<char> = "mono".chars().collect();
    assert!(nekifoch::completion::text_contains(&h, &n));
    assert!(!nekifoch::completion::text_contains(&h, &m));
}

#[test]
fn catalog_shared_key_least_name_wins() {
    let supported = strings(&["FiraCode"]);
    let a = compute_catalog(&strings(&["Fira Code", "FiraCode"]), &supported);
    let b = compute_catalog(&strings(&["FiraCode", "Fira Code"]), &supported);
    assert_eq!(a.resolve("FiraCode"), Some("Fira Code".to_string()));
    assert_eq!(b.resolve("FiraCode"), Some("Fira Code".to_string()));
}

#[test]
fn families_of_parsed_document() {
    let fonts = Utils::extract_fonts_from_json(r#"{"family_map": {"x": [{"family": "A"}, {"style": "B"}, 3], "y": {"family": "C"}, "z": [{"family": 7}]}}"#);
    assert_eq!(fonts, strings(&["A"]));
    assert!(Utils::extract_fonts_from_json(r#"{"family_map": []}"#).is_empty());
    assert!(Utils::extract_fonts_from_json("[1, 2]").is_empty());
}

#[test]
fn completion_has_no_repeats() {
    let catalog = compute_catalog(&strings(&["Fira Code", "FiraCode"]), &strings(&["FiraCode"]));
    assert_eq!(completion("fira", "Nekifoch set_font fira", 22, &catalog), strings(&["FiraCode"]));
}
