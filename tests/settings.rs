use nekifoch::size::FontSize;
use nekifoch::utils::Utils;
use nekifoch::catalog::FontCatalog;
use nekifoch::error::PluginError;

fn size(text: &str) -> FontSize {
    let chars: Vec<char> = text.chars().collect();
    FontSize::parse(&chars).unwrap()
}

#[test]
fn read_family_and_size() {
    let s = Utils::get("font_family Fira Code\nfont_size 12.0\n");
    assert_eq!(s.family, "Fira Code");
    assert_eq!(s.size_text, "12.0");
}

#[test]
fn read_missing_keys() {
    let s = Utils::get("background #000000\n");
    assert_eq!(s.family, "");
    assert_eq!(s.size_text, "default");
    let only_family = Utils::get("font_family Arial");
    assert_eq!(only_family.family, "Arial");
    assert_eq!(only_family.size_text, "default");
    let only_size = Utils::get("font_size 11");
    assert_eq!(only_size.family, "");
    assert_eq!(only_size.size_text, "11");
}

#[test]
fn read_last_directive_wins_and_invalid_size_is_default() {
    let s = Utils::get("font_family A\nfont_family   B  \nfont_size 10\nfont_size big\n");
    assert_eq!(s.family, "B");
    assert_eq!(s.size_text, "default");
}

#[test]
fn read_needs_whitespace_after_key() {
    let s = Utils::get("font_familyX\nfont_size\t13.5\r\n");
    assert_eq!(s.family, "");
    assert_eq!(s.size_text, "13.5");
}

#[test]
fn replace_size_changes_one_line() {
    let before = "# fonts\nfont_family Arial\nfont_size   12.0\nfont_size 9\n  indented line\n";
    let after = Utils::replace_font_size(before, size("14.0"));
    assert_eq!(after, "# fonts\nfont_family Arial\nfont_size   14\nfont_size 9\n  indented line\n");
}

#[test]
fn replace_size_twice_is_idempotent() {
    let before = "font_size 12.0\nbold_font auto\n";
    let once = Utils::replace_font_size(before, size("14.0"));
    let twice = Utils::replace_font_size(&once, size("14.0"));
    assert_eq!(once, twice);
    assert_eq!(once, "font_size 14\nbold_font auto\n");
}

#[test]
fn replace_size_without_directive_keeps_text() {
    let before = "bold_font auto\n";
    assert_eq!(Utils::replace_font_size(before, size("12.5")), before);
}

#[test]
fn replace_family_from_catalog() {
    let installed = vec!["Fira Code".to_string(), "Arial".to_string()];
    let supported = vec!["FiraCode".to_string(), "Arial".to_string()];
    let catalog = nekifoch::catalog::compute_catalog(&installed, &supported);
    let before = "font_family Arial\nfont_size 12\nfont_family Other\n";
    let after = Utils::replace_font_family(before, &catalog, "FiraCode").unwrap();
    assert_eq!(after, "font_family Fira Code\nfont_size 12\nfont_family Other\n");
}

#[test]
fn replace_family_unknown_key_is_refused() {
    let catalog = FontCatalog::new();
    let before = "font_family Arial\n";
    match Utils::replace_font_family(before, &catalog, "Helvetica") {
        Err(PluginError::FontNotInstalled(k)) => assert_eq!(k, "Helvetica"),
        _ => panic!("expected FontNotInstalled"),
    }
}

#[test]
fn font_size_parse_and_text() {
    assert_eq!(size("14").millis, 14000);
    assert_eq!(size("12.25").millis, 12250);
    assert_eq!(size(".5").millis, 500);
    assert_eq!(size("12.").millis, 12000);
    let bad: Vec<char> = "abc".chars().collect();
    assert!(FontSize::parse(&bad).is_none());
    let dot: Vec<char> = ".".chars().collect();
    assert!(FontSize::parse(&dot).is_none());
    let long: Vec<char> = "1234567890".chars().collect();
    assert!(FontSize::parse(&long).is_none());
    assert_eq!(size("1.2345").millis, 1235);
    assert_eq!(size("1.2344").millis, 1234);
    assert_eq!(size("-3").millis, -3000);
    assert_eq!(size("+12").millis, 12000);
    let exp: Vec<char> = "1e1".chars().collect();
    assert!(FontSize::parse(&exp).is_none());
    let text: String = size("12.50").text().into_iter().collect();
    assert_eq!(text, "12.5");
    let whole: String = size("14.000").text().into_iter().collect();
    assert_eq!(whole, "14");
    let small: String = size("0.05").text().into_iter().collect();
    assert_eq!(small, "0.05");
}

#[test]
fn font_size_steps() {
    assert_eq!(size("12").step_up().millis, 12500);
    assert_eq!(size("12").step_down().millis, 11500);
    let below = size("0.25").step_down();
    assert_eq!(below.millis, -250);
    let text: String = below.text().into_iter().collect();
    assert_eq!(text, "-0.25");
}

#[test]
fn number_texts() {
    let yes: Vec<char> = "12.5".chars().collect();
    let no: Vec<char> = "12a".chars().collect();
    assert!(nekifoch::size::is_number(&yes));
    assert!(!nekifoch::size::is_number(&no));
}

#[test]
fn read_float_forms() {
    assert_eq!(Utils::get("font_family A\nfont_size 1e1\n").size_text, "1e1");
    assert_eq!(Utils::get("font_size +12").size_text, "+12");
    assert_eq!(Utils::get("font_size -3").size_text, "-3");
    assert_eq!(Utils::get("font_size 2.5E-3").size_text, "2.5E-3");
    assert_eq!(Utils::get("font_size INF").size_text, "INF");
    assert_eq!(Utils::get("font_size 1e").size_text, "default");
    assert_eq!(Utils::get("font_size 12.5\nfont_size 1e1").size_text, "1e1");
}
