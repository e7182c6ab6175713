use epubemojix::resolver::{ResolveAction, ResolveState, Resolver};
use epubemojix::EmojiSourceMode;

const BASE: &str = "https://gcore.jsdelivr.net/gh/twitter/twemoji@14.0.2/assets/72x72/";

fn check(a: &ResolveAction) -> String {
    match a {
        ResolveAction::CheckCache(f) => f.clone(),
        _ => panic!("expected a cache check"),
    }
}

#[test]
fn cached_image_finishes_at_once() {
    let (mut r, a) = Resolver::start("1f600", EmojiSourceMode::Online);
    assert_eq!(check(&a), "1f600.png");
    assert!(matches!(r.step(true), ResolveAction::Finish(true)));
    assert_eq!(r.state, ResolveState::Done(true));
}

#[test]
fn cached_base_form_is_copied() {
    let (mut r, a) = Resolver::start("2764-fe0f", EmojiSourceMode::Online);
    assert_eq!(check(&a), "2764-fe0f.png");
    assert_eq!(check(&r.step(false)), "2764.png");
    match r.step(true) {
        ResolveAction::CopyCached { from, to } => {
            assert_eq!(from, "2764.png");
            assert_eq!(to, "2764-fe0f.png");
        }
        _ => panic!("expected a copy"),
    }
    assert!(matches!(r.step(true), ResolveAction::Finish(true)));
}

#[test]
fn fetch_falls_back_to_base_form() {
    let (mut r, _) = Resolver::start("2764-fe0f", EmojiSourceMode::Online);
    assert_eq!(check(&r.step(false)), "2764.png");
    match r.step(false) {
        ResolveAction::Fetch { url, file } => {
            assert_eq!(url, format!("{}2764-fe0f.png", BASE));
            assert_eq!(file, "2764-fe0f.png");
        }
        _ => panic!("expected a fetch"),
    }
    match r.step(false) {
        ResolveAction::Fetch { url, file } => {
            assert_eq!(url, format!("{}2764.png", BASE));
            assert_eq!(file, "2764.png");
        }
        _ => panic!("expected a fetch of the base form"),
    }
    match r.step(true) {
        ResolveAction::CopyCached { from, to } => {
            assert_eq!(from, "2764.png");
            assert_eq!(to, "2764-fe0f.png");
        }
        _ => panic!("expected a copy"),
    }
    assert!(matches!(r.step(true), ResolveAction::Finish(true)));
}

#[test]
fn failed_fetch_without_base_form_fails() {
    let (mut r, _) = Resolver::start("1f600", EmojiSourceMode::Online);
    match r.step(false) {
        ResolveAction::Fetch { url, file } => {
            assert_eq!(url, format!("{}1f600.png", BASE));
            assert_eq!(file, "1f600.png");
        }
        _ => panic!("expected a fetch"),
    }
    assert!(matches!(r.step(false), ResolveAction::Finish(false)));
    assert!(matches!(r.step(true), ResolveAction::Finish(false)));
}

#[test]
fn local_mode_never_fetches() {
    let (mut r, _) = Resolver::start("1f600", EmojiSourceMode::Local);
    assert!(matches!(r.step(false), ResolveAction::Finish(false)));
    let (mut r, _) = Resolver::start("2764-fe0f", EmojiSourceMode::Local);
    assert_eq!(check(&r.step(false)), "2764.png");
    assert!(matches!(r.step(false), ResolveAction::Finish(false)));
}

#[test]
fn short_key_ending_like_selector_is_not_stripped() {
    let (mut r, _) = Resolver::start("-fe0f", EmojiSourceMode::Local);
    assert!(matches!(r.step(false), ResolveAction::Finish(false)));
}
