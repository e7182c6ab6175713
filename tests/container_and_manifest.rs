use epubemojix::container::{
    asset_dir, find_opf_path_from_container, image_dir, navigation_documents, parent_dir, resolve_path,
};
use epubemojix::manifest::update_opf_manifest;

const CONTAINER: &str = r#"<?xml version="1.0"?>
<container version="1.0" xmlns="urn:oasis:names:tc:opendocument:xmlns:container">
  <rootfiles>
    <rootfile full-path="OEBPS/content.opf" media-type="application/oebps-package+xml"/>
  </rootfiles>
</container>"#;

const OPF: &str = r#"<?xml version="1.0" encoding="UTF-8"?>
<package xmlns="http://www.idpf.org/2007/opf" version="3.0">
  <metadata><dc:title xmlns:dc="http://purl.org/dc/elements/1.1/">Book</dc:title></metadata>
  <manifest>
    <item id="c1" href="Text/c1.xhtml" media-type="application/xhtml+xml"/>
    <item id="nav" href="nav.xhtml" media-type="application/xhtml+xml" properties="nav"/>
    <item id="old" href="emoji_img/1f602.png" media-type="image/png"/>
  </manifest>
  <spine><itemref idref="c1"/></spine>
</package>"#;

fn keys(v: &[&str]) -> Vec<String> {
    v.iter().map(|s| s.to_string()).collect()
}

#[test]
fn container_names_the_manifest() {
    assert_eq!(find_opf_path_from_container(CONTAINER), Some("OEBPS/content.opf".to_string()));
}

#[test]
fn container_without_rootfile_names_nothing() {
    assert_eq!(find_opf_path_from_container("<container><rootfiles/></container>"), None);
    assert_eq!(find_opf_path_from_container("<rootfile media-type=\"x\"/>"), None);
}

#[test]
fn navigation_documents_are_resolved() {
    assert_eq!(navigation_documents(OPF, "OEBPS"), keys(&["OEBPS/nav.xhtml"]));
    assert_eq!(navigation_documents(OPF, ""), keys(&["nav.xhtml"]));
}

#[test]
fn paths_resolve_against_a_directory() {
    assert_eq!(resolve_path("OEBPS", "nav.xhtml"), "OEBPS/nav.xhtml");
    assert_eq!(resolve_path("OEBPS/Text", "../nav.xhtml"), "OEBPS/nav.xhtml");
    assert_eq!(resolve_path("", "./a//b.xhtml"), "a/b.xhtml");
    assert_eq!(resolve_path("A", "b\\c.xhtml"), "A/b/c.xhtml");
}

#[test]
fn parent_directory_of_a_path() {
    assert_eq!(parent_dir("OEBPS/content.opf"), "OEBPS");
    assert_eq!(parent_dir("a/b/c.xhtml"), "a/b");
    assert_eq!(parent_dir("content.opf"), "");
}

#[test]
fn image_directory_sits_beside_the_manifest() {
    assert_eq!(asset_dir(""), "emoji_img");
    assert_eq!(asset_dir("OEBPS"), "OEBPS/emoji_img");
}

#[test]
fn image_directory_seen_from_a_document() {
    assert_eq!(image_dir("OEBPS/Text", "OEBPS/emoji_img"), "../emoji_img");
    assert_eq!(image_dir("OEBPS", "OEBPS/emoji_img"), "emoji_img");
    assert_eq!(image_dir("", "emoji_img"), "emoji_img");
}

#[test]
fn patch_adds_entries_and_purges_stale_ones() {
    let out = update_opf_manifest(OPF, &keys(&["1f600", "1f601"]), "emoji_img");
    assert!(out.contains(r#"<item id="emoji_1f600_png" href="emoji_img/1f600.png" media-type="image/png"/>"#));
    assert!(out.contains(r#"id="emoji_1f601_png""#));
    assert!(!out.contains("1f602"));
    assert!(out.contains(r#"href="Text/c1.xhtml""#));
    assert!(out.contains(r#"properties="nav""#));
    assert!(out.contains("<spine>"));
    assert_eq!(out.matches("<item ").count(), 4);
    let manifest_end = out.find("</manifest>").unwrap();
    assert!(out.find("emoji_1f601_png").unwrap() < manifest_end);
}

#[test]
fn repeated_keys_give_one_entry() {
    let out = update_opf_manifest(OPF, &keys(&["1f600", "1f600"]), "emoji_img");
    assert_eq!(out.matches("emoji_1f600_png").count(), 1);
}

#[test]
fn patching_twice_keeps_the_item_count() {
    let k = keys(&["1f600", "1f601"]);
    let once = update_opf_manifest(OPF, &k, "emoji_img");
    let twice = update_opf_manifest(&once, &k, "emoji_img");
    assert_eq!(once.matches("<item ").count(), twice.matches("<item ").count());
    assert_eq!(twice.matches("emoji_1f600_png").count(), 1);
}

#[test]
fn malformed_manifest_is_left_unchanged() {
    let bad = "<package><manifest><item id=\"a\"></manifest></package>";
    assert_eq!(update_opf_manifest(bad, &keys(&["1f600"]), "emoji_img"), bad);
}

#[test]
fn entries_outside_the_image_directory_stay() {
    let opf = r#"<package><manifest><item id="x" href="emoji_img2/a.png" media-type="image/png"/></manifest></package>"#;
    let out = update_opf_manifest(opf, &Vec::new(), "emoji_img");
    assert!(out.contains("emoji_img2/a.png"));
}

#[test]
fn stale_entry_written_with_two_tags_is_purged() {
    let opf = r#"<package><manifest><item id="old" href="emoji_img/1f602.png" media-type="image/png"></item><item id="c" href="c.xhtml"/></manifest></package>"#;
    let out = update_opf_manifest(opf, &keys(&["1f600"]), "emoji_img");
    assert!(!out.contains("1f602"));
    assert!(out.contains(r#"href="c.xhtml""#));
    assert!(out.contains(r#"href="emoji_img/1f600.png""#));
    assert_eq!(out.matches("<item ").count(), 2);
}
