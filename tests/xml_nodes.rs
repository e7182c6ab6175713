use epubemojix::container::{image_dir, nav_documents, rootfile_path};
use epubemojix::manifest::{escape_attribute, patch_manifest_nodes};
use epubemojix::xml::{empty_node, parse_xml, render_xml, XmlKind};

#[test]
fn nodes_carry_kind_name_and_attributes() {
    let doc = parse_xml(r#"<a x="1" y='two'><b/>text</a>"#);
    assert!(doc.complete);
    let kinds: Vec<XmlKind> = doc.nodes.iter().map(|n| n.kind).collect();
    assert_eq!(kinds, vec![XmlKind::Start, XmlKind::Empty, XmlKind::Text, XmlKind::End]);
    assert_eq!(doc.nodes[0].name, "a");
    assert_eq!(
        doc.nodes[0].attrs,
        vec![("x".to_string(), "1".to_string()), ("y".to_string(), "two".to_string())]
    );
    assert_eq!(doc.nodes[1].name, "b");
    assert_eq!(doc.nodes[2].name, "");
    assert_eq!(doc.nodes[2].content, "text");
    assert_eq!(doc.nodes[0].content, r#"a x="1" y='two'"#);
    assert_eq!(doc.nodes[3].name, "a");
}

#[test]
fn malformed_markup_is_incomplete() {
    let doc = parse_xml("<a><b></a>");
    assert!(!doc.complete);
}

#[test]
fn nodes_are_written_back() {
    let doc = parse_xml(r#"<a x="1"><b/></a>"#);
    let text = render_xml(&doc.nodes).unwrap();
    assert!(text.contains(r#"<a x="1">"#));
    assert!(text.contains("<b/>"));
    assert!(text.contains("</a>"));
}

#[test]
fn new_element_is_written_with_escaped_values() {
    let node = empty_node("item", vec![("id".to_string(), escape_attribute("a&b\"<"))]);
    assert_eq!(node.kind, XmlKind::Empty);
    assert_eq!(node.content, r#"item id="a&amp;b&quot;&lt;""#);
    assert_eq!(render_xml(&vec![node]).unwrap(), r#"<item id="a&amp;b&quot;&lt;"/>"#);
}

#[test]
fn rootfile_found_among_nodes() {
    let doc = parse_xml(r#"<c><rootfile media-type="x"/><rootfile full-path="p.opf"/></c>"#);
    assert_eq!(rootfile_path(&doc.nodes), Some("p.opf".to_string()));
}

#[test]
fn nav_entries_among_nodes() {
    let doc = parse_xml(
        r#"<manifest><item href="a.xhtml" properties="nav"/><item href="b.xhtml" properties="cover-image"/></manifest>"#,
    );
    assert_eq!(nav_documents(&doc.nodes, "OPS"), vec!["OPS/a.xhtml".to_string()]);
}

#[test]
fn patched_nodes_keep_order() {
    let doc = parse_xml(
        r#"<package><manifest><item id="a" href="a.xhtml"/><item id="s" href="img/1.png"/></manifest><spine/></package>"#,
    );
    let out = patch_manifest_nodes(doc.nodes, &vec!["1f600".to_string()], "img");
    let names: Vec<String> = out.iter().map(|n| n.name.clone()).collect();
    assert_eq!(names, vec!["package", "manifest", "item", "item", "manifest", "spine", "package"]);
    assert_eq!(out[2].attrs[0].1, "a");
    assert_eq!(out[3].attrs[0].1, "emoji_1f600_png");
    assert_eq!(out[3].attrs[1].1, "img/1f600.png");
    assert_eq!(out[3].attrs[2].1, "image/png");
}

#[test]
fn backslashes_in_directories_count_as_separators() {
    assert_eq!(image_dir("OEBPS\\Text", "OEBPS/emoji_img"), "../emoji_img");
}

#[test]
fn declarations_and_comments_are_written_back() {
    let doc = parse_xml(r#"<?xml version="1.0"?><!-- note --><a/>"#);
    assert!(doc.complete);
    assert_eq!(doc.nodes[0].kind, XmlKind::Decl);
    assert_eq!(doc.nodes[1].kind, XmlKind::Comment);
    let text = render_xml(&doc.nodes).unwrap();
    assert!(text.starts_with(r#"<?xml version="1.0"?>"#));
    assert!(text.contains("<!-- note -->"));
    assert!(text.contains("<a/>"));
}

#[test]
fn attribute_escaping() {
    assert_eq!(escape_attribute("a<b>&'\""), "a&lt;b&gt;&amp;&apos;&quot;");
    assert_eq!(escape_attribute("emoji_img/1f600.png"), "emoji_img/1f600.png");
}

#[test]
fn stale_entry_with_closing_tag_is_purged() {
    let doc = parse_xml(
        r#"<package><manifest><item id="s" href="img/1.png"></item><item id="a" href="a.xhtml"/></manifest></package>"#,
    );
    let out = patch_manifest_nodes(doc.nodes, &Vec::new(), "img");
    let names: Vec<String> = out.iter().map(|n| n.name.clone()).collect();
    assert_eq!(names, vec!["package", "manifest", "item", "manifest", "package"]);
    assert_eq!(out[2].attrs[0].1, "a");
}
