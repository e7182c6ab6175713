use epubemojix::package::{
    archive_emoji_keys, archive_layout, assemble_archive, replace_emoji_in_epub_impl, required_keys, Asset, Member,
};

const CONTAINER: &str = r#"<?xml version="1.0"?>
<container version="1.0" xmlns="urn:oasis:names:tc:opendocument:xmlns:container">
  <rootfiles>
    <rootfile full-path="OEBPS/content.opf" media-type="application/oebps-package+xml"/>
  </rootfiles>
</container>"#;

const OPF: &str = r#"<?xml version="1.0" encoding="UTF-8"?>
<package xmlns="http://www.idpf.org/2007/opf" version="3.0">
  <manifest>
    <item id="c1" href="Text/c1.xhtml" media-type="application/xhtml+xml"/>
    <item id="c2" href="Text/c2.xhtml" media-type="application/xhtml+xml"/>
    <item id="nav" href="nav.xhtml" media-type="application/xhtml+xml" properties="nav"/>
  </manifest>
  <spine><itemref idref="c1"/></spine>
</package>"#;

const PNG: [u8; 4] = [137, 80, 78, 71];

fn member(name: &str, data: &[u8]) -> Member {
    Member { name: name.to_string(), data: data.to_vec() }
}

fn asset(key: &str) -> Asset {
    Asset { key: key.to_string(), data: PNG.to_vec() }
}

fn text(m: &Member) -> String {
    String::from_utf8(m.data.clone()).unwrap()
}

fn book(doc: &str, doc2: &str) -> Vec<Member> {
    vec![
        member("mimetype", b"application/epub+zip"),
        member("META-INF/container.xml", CONTAINER.as_bytes()),
        member("OEBPS/content.opf", OPF.as_bytes()),
        member("OEBPS/Text/c1.xhtml", doc.as_bytes()),
        member("OEBPS/Text/c2.xhtml", doc2.as_bytes()),
        member("OEBPS/nav.xhtml", "<nav>😀</nav>".as_bytes()),
        member("OEBPS/cover.png", &[0, 1, 2, 255]),
    ]
}

#[test]
fn layout_is_found_through_the_container() {
    let layout = archive_layout(&book("", ""));
    assert_eq!(layout.manifest_path, Some("OEBPS/content.opf".to_string()));
    assert_eq!(layout.manifest_dir, "OEBPS");
    assert_eq!(layout.asset_dir, "OEBPS/emoji_img");
    assert_eq!(layout.nav, vec!["OEBPS/nav.xhtml".to_string()]);
}

#[test]
fn keys_to_resolve_skip_navigation_documents() {
    let members = book("<p>Hi 😀 there</p>", "<p>😁</p>");
    let layout = archive_layout(&members);
    assert_eq!(archive_emoji_keys(&members, &layout), vec!["1f600".to_string(), "1f601".to_string()]);
}

#[test]
fn one_emoji_in_one_document() {
    let members = book("<p>Hi 😀 there</p>", "<p>plain</p>");
    let out = replace_emoji_in_epub_impl(&members, &vec![asset("1f600")]);
    assert_eq!(out.len(), members.len() + 1);
    let doc = text(&out[3]);
    assert_eq!(
        doc,
        "<p>Hi \n<img alt=\"😀\" src=\"../emoji_img/1f600.png\" style=\"height:1.3em\"/>\n there</p>"
    );
    assert_eq!(out[7].name, "OEBPS/emoji_img/1f600.png");
    assert_eq!(out[7].data, PNG.to_vec());
    let opf = text(&out[2]);
    assert_eq!(out[2].name, "OEBPS/content.opf");
    assert!(opf.contains(r#"href="emoji_img/1f600.png""#));
    assert_eq!(opf.matches("emoji_1f600_png").count(), 1);
}

#[test]
fn same_emoji_in_two_documents() {
    let members = book("<p>😀 a 😀 b 😀</p>", "<p>😀😀😀</p>");
    let out = replace_emoji_in_epub_impl(&members, &vec![asset("1f600")]);
    assert_eq!(text(&out[3]).matches("<img ").count(), 3);
    assert_eq!(text(&out[4]).matches("<img ").count(), 3);
    assert_eq!(text(&out[2]).matches("emoji_1f600_png").count(), 1);
    assert_eq!(out.len(), members.len() + 1);
    assert_eq!(out.iter().filter(|m| m.name == "OEBPS/emoji_img/1f600.png").count(), 1);
}

#[test]
fn emoji_without_image_stays_text_and_unlisted() {
    let members = book("<p>Hi 😀 there</p>", "<p>plain</p>");
    let out = replace_emoji_in_epub_impl(&members, &Vec::new());
    assert_eq!(out.len(), members.len());
    assert_eq!(out[3].data, members[3].data);
    assert!(!text(&out[2]).contains("emoji_"));
    assert!(text(&out[2]).contains(r#"href="Text/c1.xhtml""#));
}

#[test]
fn missing_container_uses_the_default_directory() {
    let members = vec![
        member("mimetype", b"application/epub+zip"),
        member("content.opf", OPF.as_bytes()),
        member("Text/a.xhtml", "x 😀".as_bytes()),
    ];
    let out = replace_emoji_in_epub_impl(&members, &vec![asset("1f600")]);
    assert_eq!(out.len(), 4);
    assert_eq!(out[1].data, members[1].data);
    assert_eq!(
        text(&out[2]),
        "x \n<img alt=\"😀\" src=\"../emoji_img/1f600.png\" style=\"height:1.3em\"/>\n"
    );
    assert_eq!(out[3].name, "emoji_img/1f600.png");
}

#[test]
fn other_members_pass_through() {
    let members = book("<p>Hi 😀 there</p>", "<p>😁</p>");
    let out = replace_emoji_in_epub_impl(&members, &vec![asset("1f600"), asset("1f601")]);
    for i in [0usize, 1, 5, 6] {
        assert_eq!(out[i].name, members[i].name);
        assert_eq!(out[i].data, members[i].data);
    }
    for i in 0..members.len() {
        assert_eq!(out[i].name, members[i].name);
    }
}

#[test]
fn references_and_entries_and_members_agree() {
    let members = book("<p>😀 😁</p>", "<p>😂</p>");
    let out = replace_emoji_in_epub_impl(&members, &vec![asset("1f600"), asset("1f602")]);
    let opf = text(&out[2]);
    for k in ["1f600", "1f602"] {
        assert!(opf.contains(&format!("href=\"emoji_img/{}.png\"", k)));
        assert!(out.iter().any(|m| m.name == format!("OEBPS/emoji_img/{}.png", k)));
    }
    assert!(!opf.contains("1f601"));
    assert!(text(&out[3]).contains("😁"));
    assert!(!out.iter().any(|m| m.name.contains("1f601")));
}

#[test]
fn document_that_is_not_utf8_passes_through() {
    let mut members = book("", "");
    members[3] = member("OEBPS/Text/c1.xhtml", &[0xff, 0xfe, 0x00]);
    let out = replace_emoji_in_epub_impl(&members, &vec![asset("1f600")]);
    assert_eq!(out[3].data, members[3].data);
}

#[test]
fn image_already_in_the_archive_is_not_added_twice() {
    let mut members = book("<p>😀</p>", "");
    members.push(member("OEBPS/emoji_img/1f600.png", &[9, 9]));
    let out = replace_emoji_in_epub_impl(&members, &vec![asset("1f600")]);
    assert_eq!(out.len(), members.len());
    assert_eq!(out.iter().filter(|m| m.name == "OEBPS/emoji_img/1f600.png").count(), 1);
}

#[test]
fn running_twice_gives_the_same_archive() {
    let members = book("<p>Hi 😀 there</p>", "<p>😁</p>");
    let assets = vec![asset("1f600"), asset("1f601")];
    let a = replace_emoji_in_epub_impl(&members, &assets);
    let b = replace_emoji_in_epub_impl(&members, &assets);
    assert_eq!(a.len(), b.len());
    for i in 0..a.len() {
        assert_eq!(a[i].name, b[i].name);
        assert_eq!(a[i].data, b[i].data);
    }
}

#[test]
fn required_keys_follow_the_documents() {
    let members = book("<p>😁 😀</p>", "<p>😀 😂</p>");
    let layout = archive_layout(&members);
    let available = vec!["1f600".to_string(), "1f602".to_string()];
    assert_eq!(required_keys(&members, &layout, &available), vec!["1f600".to_string(), "1f602".to_string()]);
}

#[test]
fn assembled_archive_takes_the_given_manifest() {
    let members = book("<p>😀</p>", "");
    let layout = archive_layout(&members);
    let out = assemble_archive(&members, &layout, &vec![asset("1f600")], &Some(b"new".to_vec()));
    assert_eq!(out[2].data, b"new".to_vec());
    assert_eq!(out.len(), members.len() + 1);
    let unchanged = assemble_archive(&members, &layout, &vec![asset("1f600")], &None);
    assert_eq!(unchanged[2].data, members[2].data);
}
