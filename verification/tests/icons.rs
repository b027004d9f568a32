use picky::icons::{
    extension, file_name, file_stem, icon_candidate_score, icon_directory_size, icon_format,
    choose_icon_path, resolve_icon_path, IconFormat, IconIndex,
};

fn chars(s: &str) -> Vec<char> {
    s.chars().collect()
}

fn text(v: Option<Vec<char>>) -> Option<String> {
    v.map(|c| c.into_iter().collect())
}

#[test]
fn resolve_icon_path_defers_theme_icons_until_index_is_ready() {
    assert_eq!(resolve_icon_path(Some("firefox"), None), None);
}

#[test]
fn blank_icon_names_resolve_to_nothing() {
    let index = IconIndex::new();
    assert_eq!(resolve_icon_path(None, Some(&index)), None);
    assert_eq!(resolve_icon_path(Some("   "), Some(&index)), None);
}

#[test]
fn icon_index_resolves_theme_png_icons_by_path() {
    let path = "/home/u/.local/share/icons/hicolor/32x32/apps/firefox.png";
    let mut index = IconIndex::new();
    index.add_icon_file(path, 0);

    assert_eq!(index.resolve("firefox").as_deref(), Some(path));
    assert_eq!(index.resolve(" Firefox.PNG ").as_deref(), Some(path));
    assert_eq!(resolve_icon_path(Some("firefox"), Some(&index)).as_deref(), Some(path));
}

#[test]
fn icon_index_prefers_scalable_svg_icons_by_path() {
    let png = "/usr/share/icons/hicolor/32x32/apps/firefox.png";
    let svg = "/usr/share/icons/hicolor/scalable/apps/firefox.svg";
    let mut index = IconIndex::new();
    index.add_icon_file(png, 0);
    index.add_icon_file(svg, 0);

    assert_eq!(index.resolve("firefox").as_deref(), Some(svg));
    assert_eq!(index.resolve("firefox.png").as_deref(), Some(png));
}

#[test]
fn icon_index_keeps_the_first_of_equal_scores() {
    let first = "/a/pixmaps/calc.png";
    let second = "/b/pixmaps/calc.png";
    let mut index = IconIndex::new();
    index.add_icon_file(first, 0);
    index.add_icon_file(second, 0);
    assert_eq!(index.resolve("calc").as_deref(), Some(first));
    index.add_icon_file("/b/notes.txt", 0);
    assert_eq!(index.resolve("notes"), None);
}

#[test]
fn icon_scores_follow_format_root_and_directories() {
    assert_eq!(icon_candidate_score("/p/firefox.png", IconFormat::Raster, 0), 70);
    assert_eq!(icon_candidate_score("/p/firefox.svg", IconFormat::Svg, 3), 87);
    assert_eq!(icon_candidate_score("/i/hicolor/32x32/apps/f.png", IconFormat::Raster, 0), 108);
    assert_eq!(icon_candidate_score("/i/hicolor/48x48/apps/f.png", IconFormat::Raster, 0), 92);
    assert_eq!(icon_candidate_score("/i/hicolor/scalable/Apps/f.svg", IconFormat::Svg, 40), 108);
    assert_eq!(icon_candidate_score("/i/256x256/f.png", IconFormat::Raster, 0), 70);
}

#[test]
fn directory_sizes_and_formats() {
    assert_eq!(icon_directory_size(&chars("32x32")), Some(32));
    assert_eq!(icon_directory_size(&chars("48x48@2")), Some(48));
    assert_eq!(icon_directory_size(&chars("32x16")), None);
    assert_eq!(icon_directory_size(&chars("scalable")), None);
    assert_eq!(icon_directory_size(&chars("+8x8")), Some(8));
    assert_eq!(icon_format("/x/y.SVG"), Some(IconFormat::Svg));
    assert_eq!(icon_format("/x/y.jpeg"), Some(IconFormat::Raster));
    assert_eq!(icon_format("/x/.png"), None);
    assert_eq!(icon_format("/x/y.txt"), None);
}

#[test]
fn path_pieces_follow_std() {
    assert_eq!(text(file_name(&chars("/a/b.tar.gz"))).as_deref(), Some("b.tar.gz"));
    assert_eq!(text(file_stem(&chars("/a/b.tar.gz"))).as_deref(), Some("b.tar"));
    assert_eq!(text(extension(&chars("/a/b.tar.gz"))).as_deref(), Some("gz"));
    assert_eq!(text(file_name(&chars("a/b/."))).as_deref(), Some("b"));
    assert_eq!(text(file_name(&chars("a/.."))), None);
    assert_eq!(text(file_name(&chars("/"))), None);
    assert_eq!(text(file_stem(&chars(".bashrc"))).as_deref(), Some(".bashrc"));
    assert_eq!(text(extension(&chars(".bashrc"))), None);
}

#[test]
fn an_existing_absolute_icon_file_is_its_own_path() {
    assert_eq!(
        choose_icon_path("/opt/app/icon.png".to_string(), None, true),
        Some("/opt/app/icon.png".to_string())
    );
    assert_eq!(choose_icon_path("/opt/app/icon.png".to_string(), None, false), None);
    assert_eq!(choose_icon_path("opt/app/icon.png".to_string(), None, true), None);
    assert_eq!(choose_icon_path("/opt/app/icon".to_string(), None, true), None);
}
