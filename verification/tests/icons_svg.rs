use media_center::icons::{extract_attr, extract_path_tags, parse_icon_paths, style_to_dir, viewbox_size};

const DUOTONE: &str = r#"<svg xmlns="http://www.w3.org/2000/svg" viewBox="0 0 576 512"><defs><style>.fa-secondary{opacity:.4}</style></defs><path class="fa-secondary" d="M0 0h10"/><path class="fa-primary" d="M5 5h20"/></svg>"#;

#[test]
fn duotone_icons_have_two_layers() {
    let paths = parse_icon_paths(DUOTONE);
    assert_eq!(paths.primary_path, "M5 5h20");
    assert_eq!(paths.secondary_path, "M0 0h10");
    assert_eq!(viewbox_size(DUOTONE), Some(("576".to_string(), "512".to_string())));
}

#[test]
fn unclassified_paths_are_joined_into_the_primary_layer() {
    let svg = r#"<svg viewBox="0 0 512"><path d="A"/><path d="B"/><path fill="x"/></svg>"#;
    let paths = parse_icon_paths(svg);
    assert_eq!(paths.primary_path, "A B");
    assert_eq!(paths.secondary_path, "");
    assert_eq!(viewbox_size(svg), None);
    assert_eq!(extract_path_tags(svg).len(), 3);
}

#[test]
fn attributes_and_styles() {
    assert_eq!(extract_attr(r#"<path id="x" d="M1"/>"#, "d"), Some("x".to_string()));
    assert_eq!(extract_attr("<path/>", "d"), None);
    assert_eq!(extract_attr(r#"<path d="open"#, "d"), None);
    assert_eq!(style_to_dir("duotone"), "duotone");
    assert_eq!(style_to_dir("fancy"), "solid");
    assert!(parse_icon_paths("<svg><path d=\"unclosed\"").primary_path.is_empty());
}
