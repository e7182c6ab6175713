//! The document rewriter: each emoji cluster whose image is available becomes
//! an inline image reference; all other text is copied as it is.

use vstd::prelude::*;
use crate::classify::{
    emoji_key, graphemes_of, is_emoji, is_emoji_grapheme, key_of, split_graphemes, PNG_SUFFIX,
};
use crate::text::{chars_of, contains_string, push_str, string_of, views};

verus! {

/// Text of an image reference before the cluster itself.
pub const IMG_OPEN: &'static str = "\n<img alt=\"";

/// Text of an image reference between the cluster and the image directory.
pub const IMG_SRC: &'static str = "\" src=\"";

/// Text of an image reference after the image file name.
pub const IMG_CLOSE: &'static str = "\" style=\"height:1.3em\"/>\n";

/// A directory written with `/` wherever it had `\`.
pub open spec fn slashed(s: Seq<char>) -> Seq<char> {
    s.map_values(|c: char| if c == '\\' { '/' } else { c })
}

/// The inline image reference that stands for cluster `g`.
pub open spec fn img_tag(g: Seq<char>, dir: Seq<char>) -> Seq<char> {
    IMG_OPEN@ + g + IMG_SRC@ + dir + seq!['/'] + key_of(g) + PNG_SUFFIX@ + IMG_CLOSE@
}

/// Whether cluster `g` is replaced: it is an emoji whose key has an image.
pub open spec fn replaced(g: Seq<char>, avail: Seq<Seq<char>>) -> bool {
    is_emoji(g) && avail.contains(key_of(g))
}

/// What cluster `g` becomes in the rewritten text.
pub open spec fn piece(g: Seq<char>, dir: Seq<char>, avail: Seq<Seq<char>>) -> Seq<char> {
    if replaced(g, avail) {
        img_tag(g, dir)
    } else {
        g
    }
}

/// The rewritten text of a sequence of clusters.
pub open spec fn rewrite_clusters(gs: Seq<Seq<char>>, dir: Seq<char>, avail: Seq<Seq<char>>) -> Seq<char>
    decreases gs.len(),
{
    if gs.len() == 0 {
        seq![]
    } else {
        rewrite_clusters(gs.drop_last(), dir, avail) + piece(gs.last(), dir, avail)
    }
}

/// The keys of the replaced clusters, each once, in order of first appearance.
pub open spec fn used_keys(gs: Seq<Seq<char>>, avail: Seq<Seq<char>>) -> Seq<Seq<char>>
    decreases gs.len(),
{
    if gs.len() == 0 {
        seq![]
    } else {
        let prev = used_keys(gs.drop_last(), avail);
        let g = gs.last();
        if replaced(g, avail) && !prev.contains(key_of(g)) {
            prev.push(key_of(g))
        } else {
            prev
        }
    }
}

/// The keys of all emoji clusters, each once, in order of first appearance.
pub open spec fn emoji_keys(gs: Seq<Seq<char>>) -> Seq<Seq<char>>
    decreases gs.len(),
{
    if gs.len() == 0 {
        seq![]
    } else {
        let prev = emoji_keys(gs.drop_last());
        let g = gs.last();
        if is_emoji(g) && !prev.contains(key_of(g)) {
            prev.push(key_of(g))
        } else {
            prev
        }
    }
}

/// A rewritten document and the keys of the images it refers to.
pub struct Rewritten {
    pub text: String,
    pub keys: Vec<String>,
}

pub(crate) fn slashed_chars(dir: &str) -> (r: Vec<char>)
    ensures
        r@ == slashed(dir@),
{
    let cs = chars_of(dir);
    let mut out: Vec<char> = Vec::new();
    let mut i: usize = 0;
    while i < cs.len()
        invariant
            i <= cs.len(),
            cs@ == dir@,
            out@ == slashed(cs@.subrange(0, i as int)),
        decreases cs.len() - i,
    {
        let c = cs[i];
        if c == '\\' {
            out.push('/');
        } else {
            out.push(c);
        }
        assert(out@ =~= slashed(cs@.subrange(0, i + 1)));
        i = i + 1;
    }
    assert(cs@.subrange(0, cs@.len() as int) =~= cs@);
    out
}

/// Rewrites `text`: every emoji cluster whose key is in `available` becomes an
/// image reference to `<imgdir>/<key>.png`, with the cluster as its
/// alternative text; all other clusters are copied. Also returns the keys
/// that the new text refers to.
pub fn rewrite_document(text: &str, imgdir: &str, available: &Vec<String>) -> (r: Rewritten)
    ensures
        r.text@ == rewrite_clusters(graphemes_of(text@), slashed(imgdir@), views(available@)),
        views(r.keys@) == used_keys(graphemes_of(text@), views(available@)),
        (forall|i: int|
            0 <= i < graphemes_of(text@).len() ==> !replaced(#[trigger] graphemes_of(text@)[i], views(available@)))
            ==> r.text@ == text@ && r.keys@.len() == 0,
{
    let gs = split_graphemes(text);
    proof {
        if forall|i: int|
            0 <= i < graphemes_of(text@).len() ==> !replaced(#[trigger] graphemes_of(text@)[i], views(available@)) {
            assert(views(gs@) =~= graphemes_of(text@));
            lemma_plain_clusters(graphemes_of(text@), slashed(imgdir@), views(available@));
            graphemes_of(text@).lemma_flatten_and_flatten_alt_are_equivalent();
        }
    }
    let dir = slashed_chars(imgdir);
    let dir_s = string_of(&dir);
    let ghost gv = graphemes_of(text@);
    let ghost av = views(available@);
    let mut out: Vec<char> = Vec::new();
    let mut keys: Vec<String> = Vec::new();
    let mut i: usize = 0;
    while i < gs.len()
        invariant
            i <= gs.len(),
            gs@.len() == gv.len(),
            forall|j: int| 0 <= j < gs@.len() ==> #[trigger] gs@[j]@ == gv[j],
            dir_s@ == slashed(imgdir@),
            av == views(available@),
            out@ == rewrite_clusters(gv.take(i as int), dir_s@, av),
            views(keys@) == used_keys(gv.take(i as int), av),
        decreases gs.len() - i,
    {
        let g = &gs[i];
        let ghost before = out@;
        let ghost prev = views(keys@);
        proof {
            assert(gv.take(i + 1).drop_last() =~= gv.take(i as int));
            assert(gv.take(i + 1).last() == g@);
        }
        let mut hit = false;
        if is_emoji_grapheme(g.as_str()) {
            let k = emoji_key(g.as_str());
            if contains_string(available, &k) {
                hit = true;
                push_str(&mut out, IMG_OPEN);
                push_str(&mut out, g.as_str());
                push_str(&mut out, IMG_SRC);
                push_str(&mut out, dir_s.as_str());
                out.push('/');
                push_str(&mut out, k.as_str());
                push_str(&mut out, PNG_SUFFIX);
                push_str(&mut out, IMG_CLOSE);
                assert(out@ =~= before + img_tag(g@, dir_s@));
                if !contains_string(&keys, &k) {
                    keys.push(k);
                    assert(views(keys@) =~= prev.push(key_of(g@)));
                }
            }
        }
        if !hit {
            push_str(&mut out, g.as_str());
        }
        assert(replaced(g@, av) == hit);
        i = i + 1;
    }
    assert(gv.take(gs@.len() as int) =~= gv);
    Rewritten { text: string_of(&out), keys }
}

/// Rewrites `xhtml` as [`rewrite_document`] does and returns the new text.
pub fn replace_emoji_in_xhtml_with_imgdir(xhtml: &str, imgdir: &str, available: &Vec<String>) -> (r: String)
    ensures
        r@ == rewrite_clusters(graphemes_of(xhtml@), slashed(imgdir@), views(available@)),
        (forall|i: int|
            0 <= i < graphemes_of(xhtml@).len() ==> !replaced(#[trigger] graphemes_of(xhtml@)[i], views(available@)))
            ==> r@ == xhtml@,
{
    rewrite_document(xhtml, imgdir, available).text
}

/// The keys of the emoji clusters of `text`, each once, in order of first
/// appearance: the images that a rewrite of `text` could refer to.
pub fn document_emoji_keys(text: &str) -> (r: Vec<String>)
    ensures
        views(r@) == emoji_keys(graphemes_of(text@)),
{
    let gs = split_graphemes(text);
    let ghost gv = graphemes_of(text@);
    let mut keys: Vec<String> = Vec::new();
    let mut i: usize = 0;
    while i < gs.len()
        invariant
            i <= gs.len(),
            gs@.len() == gv.len(),
            forall|j: int| 0 <= j < gs@.len() ==> #[trigger] gs@[j]@ == gv[j],
            views(keys@) == emoji_keys(gv.take(i as int)),
        decreases gs.len() - i,
    {
        let g = &gs[i];
        let ghost prev = views(keys@);
        proof {
            assert(gv.take(i + 1).drop_last() =~= gv.take(i as int));
            assert(gv.take(i + 1).last() == g@);
        }
        if is_emoji_grapheme(g.as_str()) {
            let k = emoji_key(g.as_str());
            if !contains_string(&keys, &k) {
                keys.push(k);
                assert(views(keys@) =~= prev.push(key_of(g@)));
            }
        }
        i = i + 1;
    }
    assert(gv.take(gs@.len() as int) =~= gv);
    keys
}

/// Rewriting depends on nothing but the text, the image directory and the
/// keys that have images: rewriting the same document twice with the same
/// images gives the same text and the same keys.
pub proof fn lemma_rewrite_repeatable(
    t1: Seq<char>,
    t2: Seq<char>,
    dir: Seq<char>,
    avail: Seq<Seq<char>>,
)
    requires
        t1 == t2,
    ensures
        rewrite_clusters(graphemes_of(t1), slashed(dir), avail) == rewrite_clusters(
            graphemes_of(t2),
            slashed(dir),
            avail,
        ),
        used_keys(graphemes_of(t1), avail) == used_keys(graphemes_of(t2), avail),
{
}

proof fn lemma_plain_clusters(gs: Seq<Seq<char>>, dir: Seq<char>, avail: Seq<Seq<char>>)
    requires
        forall|i: int| 0 <= i < gs.len() ==> !replaced(#[trigger] gs[i], avail),
    ensures
        rewrite_clusters(gs, dir, avail) == gs.flatten_alt(),
        used_keys(gs, avail).len() == 0,
    decreases gs.len(),
{
    if gs.len() > 0 {
        assert forall|i: int| 0 <= i < gs.drop_last().len() implies !replaced(#[trigger] gs.drop_last()[i], avail) by {
            assert(gs.drop_last()[i] == gs[i]);
        }
        assert(!replaced(gs[gs.len() - 1], avail));
        lemma_plain_clusters(gs.drop_last(), dir, avail);
    }
}

} // verus!
