use epubemojix::classify::{emoji_key, emoji_to_url, emoji_to_url_base, DEFAULT_CDN_BASE};
use epubemojix::rewrite::{document_emoji_keys, replace_emoji_in_xhtml_with_imgdir, rewrite_document};

fn keys(v: &[&str]) -> Vec<String> {
    v.iter().map(|s| s.to_string()).collect()
}

#[test]
fn key_of_single_emoji() {
    assert_eq!(emoji_key("😀"), "1f600");
}

#[test]
fn key_of_joined_sequence() {
    assert_eq!(emoji_key("👨\u{200d}👩\u{200d}👧"), "1f468-200d-1f469-200d-1f467");
}

#[test]
fn key_of_presentation_selector_pair() {
    assert_eq!(emoji_key("❤\u{fe0f}"), "2764-fe0f");
}

#[test]
fn key_is_the_same_on_every_call() {
    assert_eq!(emoji_key("😀"), emoji_key("😀"));
    assert_ne!(emoji_key("😀"), emoji_key("😁"));
}

#[test]
fn url_of_emoji() {
    assert_eq!(emoji_to_url("😀"), format!("{}1f600.png", DEFAULT_CDN_BASE));
    assert_eq!(
        emoji_to_url("😀"),
        "https://gcore.jsdelivr.net/gh/twitter/twemoji@14.0.2/assets/72x72/1f600.png"
    );
}

#[test]
fn url_of_key() {
    assert_eq!(
        emoji_to_url_base("2764"),
        "https://gcore.jsdelivr.net/gh/twitter/twemoji@14.0.2/assets/72x72/2764.png"
    );
}

#[test]
fn emoji_keys_are_distinct_and_ordered() {
    assert_eq!(document_emoji_keys("a 😁 b 😀 c 😁"), keys(&["1f601", "1f600"]));
}

#[test]
fn plain_text_has_no_emoji_keys() {
    assert_eq!(document_emoji_keys("<p>plain text, 123</p>"), Vec::<String>::new());
}

#[test]
fn joined_sequence_is_one_cluster_and_one_image() {
    let family = "👨\u{200d}👩\u{200d}👧";
    let text = format!("<p>{}</p>", family);
    assert_eq!(document_emoji_keys(&text), keys(&["1f468-200d-1f469-200d-1f467"]));
    let out = replace_emoji_in_xhtml_with_imgdir(&text, "img", &keys(&["1f468-200d-1f469-200d-1f467"]));
    assert_eq!(out.matches("<img ").count(), 1);
    assert!(out.contains("src=\"img/1f468-200d-1f469-200d-1f467.png\""));
}

#[test]
fn emoji_becomes_image_reference() {
    let out = replace_emoji_in_xhtml_with_imgdir("Hi 😀 there", "emoji_img", &keys(&["1f600"]));
    assert_eq!(
        out,
        "Hi \n<img alt=\"😀\" src=\"emoji_img/1f600.png\" style=\"height:1.3em\"/>\n there"
    );
    assert!(out.starts_with("Hi "));
    assert!(out.ends_with(" there"));
}

#[test]
fn image_directory_uses_forward_slashes() {
    let out = replace_emoji_in_xhtml_with_imgdir("😀", "..\\emoji_img", &keys(&["1f600"]));
    assert_eq!(out, "\n<img alt=\"😀\" src=\"../emoji_img/1f600.png\" style=\"height:1.3em\"/>\n");
}

#[test]
fn emoji_without_image_stays_text() {
    let out = replace_emoji_in_xhtml_with_imgdir("Hi 😀 there", "emoji_img", &Vec::new());
    assert_eq!(out, "Hi 😀 there");
}

#[test]
fn each_occurrence_is_replaced_and_counted_once() {
    let r = rewrite_document("😀x😀y😀", "d", &keys(&["1f600", "1f601"]));
    assert_eq!(r.text.matches("<img ").count(), 3);
    assert_eq!(r.keys, keys(&["1f600"]));
}

#[test]
fn only_available_images_are_used() {
    let r = rewrite_document("😀 😁", "d", &keys(&["1f601"]));
    assert!(r.text.starts_with("😀 \n<img alt=\"😁\""));
    assert_eq!(r.keys, keys(&["1f601"]));
}

#[test]
fn text_without_available_images_is_unchanged() {
    let text = "<p>a 😀 b ❤\u{fe0f} c</p>";
    let r = rewrite_document(text, "d", &keys(&["1f601"]));
    assert_eq!(r.text, text);
    assert!(r.keys.is_empty());
}
