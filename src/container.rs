//! Finding the package manifest through the container descriptor, the
//! navigation documents that the manifest lists, and the paths of the image
//! directory.

use vstd::prelude::*;
use crate::manifest::{HREF_ATTR, ITEM_TAG};
use crate::rewrite::{slashed, slashed_chars};
use crate::text::{chars_of, push_str, same_text, string_of};
use crate::xml::{attrs_view, nodes_view, parse_xml, xml_nodes_of, NodeView, XmlKind, XmlNode};

verus! {

/// The member that names the package manifest.
pub const CONTAINER_PATH: &'static str = "META-INF/container.xml";

/// The element of the container descriptor that declares the manifest.
pub const ROOTFILE_TAG: &'static str = "rootfile";

/// The attribute of a root-file declaration that holds the manifest's path.
pub const FULL_PATH_ATTR: &'static str = "full-path";

/// The manifest attribute that flags navigation documents.
pub const PROPERTIES_ATTR: &'static str = "properties";

/// The value of that attribute on a navigation document.
pub const NAV_PROPERTY: &'static str = "nav";

/// Name of the image directory, beside the manifest.
pub const ASSET_DIR_NAME: &'static str = "emoji_img";

/// Image directory relative to a document, when no relative path can be found.
pub const FALLBACK_IMAGE_DIR: &'static str = "../emoji_img";

/// The path that leads from directory `base` to `path`, if any.
pub uninterp spec fn relative_path(path: Seq<char>, base: Seq<char>) -> Option<Seq<char>>;

/// Whether a path is written with `/` alone.
pub open spec fn no_backslash(p: Seq<char>) -> bool {
    forall|i: int| 0 <= i < p.len() ==> p[i] != '\\'
}

/// Relies on `pathdiff::diff_paths`: the relative path from `base` to `path`,
/// or `None` where there is none; its components are written lossily and
/// joined with `/`. Both paths are given with `/` as their only separator.
#[verifier::external_body]
fn diff_paths(path: &str, base: &str) -> (r: Option<String>)
    requires
        no_backslash(path@),
        no_backslash(base@),
    ensures
        r is Some <==> relative_path(path@, base@) is Some,
        r is Some ==> r->0@ == relative_path(path@, base@)->0,
{
    pathdiff::diff_paths(path, base).map(|p| {
        p.components().map(|c| c.as_os_str().to_string_lossy().into_owned()).collect::<Vec<String>>().join("/")
    })
}

/// The value of the first attribute named `key`.
pub open spec fn attr_of(attrs: Seq<(Seq<char>, Seq<char>)>, key: Seq<char>) -> Option<Seq<char>>
    decreases attrs.len(),
{
    if attrs.len() == 0 {
        None
    } else if attrs[0].0 == key {
        Some(attrs[0].1)
    } else {
        attr_of(attrs.drop_first(), key)
    }
}

/// The manifest path declared by the first root-file element that has one.
pub open spec fn rootfile_of(nodes: Seq<NodeView>) -> Option<Seq<char>>
    decreases nodes.len(),
{
    if nodes.len() == 0 {
        None
    } else {
        let n = nodes[0];
        if (n.kind == XmlKind::Start || n.kind == XmlKind::Empty) && n.name == ROOTFILE_TAG@
            && attr_of(n.attrs, FULL_PATH_ATTR@) is Some {
            attr_of(n.attrs, FULL_PATH_ATTR@)
        } else {
            rootfile_of(nodes.drop_first())
        }
    }
}

fn find_attr(attrs: &Vec<(String, String)>, key: &str) -> (r: Option<String>)
    ensures
        r is Some <==> attr_of(attrs_view(attrs@), key@) is Some,
        r is Some ==> r->0@ == attr_of(attrs_view(attrs@), key@)->0,
{
    let ghost av = attrs_view(attrs@);
    assert(av.skip(0) =~= av);
    let mut i: usize = 0;
    while i < attrs.len()
        invariant
            i <= attrs.len(),
            av == attrs_view(attrs@),
            attr_of(av, key@) == attr_of(av.skip(i as int), key@),
        decreases attrs.len() - i,
    {
        assert(av.skip(i as int).drop_first() =~= av.skip(i + 1));
        if same_text(attrs[i].0.as_str(), key) {
            return Some(attrs[i].1.clone());
        }
        i = i + 1;
    }
    assert(av.skip(i as int) =~= seq![]);
    None
}

/// The manifest path declared by a container descriptor read into nodes.
pub fn rootfile_path(nodes: &Vec<XmlNode>) -> (r: Option<String>)
    ensures
        r is Some <==> rootfile_of(nodes_view(nodes@)) is Some,
        r is Some ==> r->0@ == rootfile_of(nodes_view(nodes@))->0,
{
    let ghost nv = nodes_view(nodes@);
    assert(nv.skip(0) =~= nv);
    let mut i: usize = 0;
    while i < nodes.len()
        invariant
            i <= nodes.len(),
            nv == nodes_view(nodes@),
            rootfile_of(nv) == rootfile_of(nv.skip(i as int)),
        decreases nodes.len() - i,
    {
        assert(nv.skip(i as int).drop_first() =~= nv.skip(i + 1));
        assert(nv.skip(i as int)[0] == nodes@[i as int]@);
        let n = &nodes[i];
        if (matches!(n.kind, XmlKind::Start) || matches!(n.kind, XmlKind::Empty)) && same_text(
            n.name.as_str(),
            ROOTFILE_TAG,
        ) {
            let p = find_attr(&n.attrs, FULL_PATH_ATTR);
            if p.is_some() {
                return p;
            }
        }
        i = i + 1;
    }
    assert(nv.skip(i as int) =~= seq![]);
    None
}

/// The manifest path that a container descriptor declares: the `full-path` of
/// the first root-file element that has one, among the elements read before
/// the end of the text or the first malformed markup.
pub fn find_opf_path_from_container(container_xml: &str) -> (r: Option<String>)
    ensures
        r is Some <==> rootfile_of(xml_nodes_of(container_xml@)) is Some,
        r is Some ==> r->0@ == rootfile_of(xml_nodes_of(container_xml@))->0,
{
    let doc = parse_xml(container_xml);
    rootfile_path(&doc.nodes)
}

/// Whether `c` separates the segments of a path.
pub open spec fn is_sep(c: char) -> bool {
    c == '/' || c == '\\'
}

/// Adds one segment to a resolved path: empty and `.` segments are dropped,
/// `..` removes the last segment.
pub open spec fn add_segment(segs: Seq<Seq<char>>, cur: Seq<char>) -> Seq<Seq<char>> {
    if cur.len() == 0 || cur == seq!['.'] {
        segs
    } else if cur == seq!['.', '.'] {
        if segs.len() > 0 { segs.drop_last() } else { segs }
    } else {
        segs.push(cur)
    }
}

/// The segments resolved so far and the segment being read.
pub open spec fn scan_path(p: Seq<char>) -> (Seq<Seq<char>>, Seq<char>)
    decreases p.len(),
{
    if p.len() == 0 {
        (seq![], seq![])
    } else {
        let (segs, cur) = scan_path(p.drop_last());
        if is_sep(p.last()) {
            (add_segment(segs, cur), seq![])
        } else {
            (segs, cur.push(p.last()))
        }
    }
}

/// The resolved segments of a path.
pub open spec fn path_segments(p: Seq<char>) -> Seq<Seq<char>> {
    add_segment(scan_path(p).0, scan_path(p).1)
}

/// Segments joined by `/`.
pub open spec fn join_segments(segs: Seq<Seq<char>>) -> Seq<char>
    decreases segs.len(),
{
    if segs.len() == 0 {
        seq![]
    } else if segs.len() == 1 {
        segs[0]
    } else {
        join_segments(segs.drop_last()) + seq!['/'] + segs.last()
    }
}

/// `href` resolved against directory `dir`, with `/` between segments.
pub open spec fn resolve_href(dir: Seq<char>, href: Seq<char>) -> Seq<char> {
    join_segments(path_segments(dir + seq!['/'] + href))
}

fn add_segment_exec(segs: &mut Vec<Vec<char>>, cur: Vec<char>)
    ensures
        final(segs)@.map_values(|s: Vec<char>| s@) == add_segment(
            old(segs)@.map_values(|s: Vec<char>| s@),
            cur@,
        ),
{
    let ghost sv = old(segs)@.map_values(|s: Vec<char>| s@);
    if cur.len() == 0 || (cur.len() == 1 && cur[0] == '.') {
        assert(cur.len() == 1 ==> cur@ =~= seq!['.']);
        return;
    }
    if cur.len() == 2 && cur[0] == '.' && cur[1] == '.' {
        assert(cur@ =~= seq!['.', '.']);
        if segs.len() > 0 {
            segs.pop();
            assert(segs@.map_values(|s: Vec<char>| s@) =~= sv.drop_last());
        }
        return;
    }
    assert(cur@ != seq!['.']) by {
        if cur@ == seq!['.'] {
            assert(cur@.len() == 1);
        }
    }
    assert(cur@ != seq!['.', '.']) by {
        if cur@ == seq!['.', '.'] {
            assert(cur@.len() == 2 && cur@[0] == '.' && cur@[1] == '.');
        }
    }
    let ghost cv = cur@;
    segs.push(cur);
    assert(segs@.map_values(|s: Vec<char>| s@) =~= sv.push(cv));
}

/// Resolves `href` against directory `dir`: segments are split on `/` or
/// `\`, empty and `.` segments dropped, `..` steps up, and the result is
/// joined with `/`.
pub fn resolve_path(dir: &str, href: &str) -> (r: String)
    ensures
        r@ == resolve_href(dir@, href@),
{
    let mut p: Vec<char> = Vec::new();
    push_str(&mut p, dir);
    p.push('/');
    push_str(&mut p, href);
    let ghost pv = dir@ + seq!['/'] + href@;
    assert(p@ =~= pv);
    let mut segs: Vec<Vec<char>> = Vec::new();
    let mut cur: Vec<char> = Vec::new();
    let mut i: usize = 0;
    while i < p.len()
        invariant
            i <= p.len(),
            p@ == pv,
            segs@.map_values(|s: Vec<char>| s@) == scan_path(pv.take(i as int)).0,
            cur@ == scan_path(pv.take(i as int)).1,
        decreases p.len() - i,
    {
        assert(pv.take(i + 1).drop_last() =~= pv.take(i as int));
        assert(pv.take(i + 1).last() == p@[i as int]);
        let c = p[i];
        if c == '/' || c == '\\' {
            let done = cur;
            add_segment_exec(&mut segs, done);
            cur = Vec::new();
            assert(cur@ =~= seq![]);
        } else {
            cur.push(c);
        }
        i = i + 1;
    }
    assert(pv.take(p@.len() as int) =~= pv);
    add_segment_exec(&mut segs, cur);
    let ghost sv = segs@.map_values(|s: Vec<char>| s@);
    let mut out: Vec<char> = Vec::new();
    let mut j: usize = 0;
    while j < segs.len()
        invariant
            j <= segs.len(),
            sv == segs@.map_values(|s: Vec<char>| s@),
            out@ == join_segments(sv.take(j as int)),
        decreases segs.len() - j,
    {
        assert(sv.take(j + 1).drop_last() =~= sv.take(j as int));
        assert(sv.take(j + 1).last() == segs@[j as int]@);
        if j > 0 {
            out.push('/');
        } else {
            assert(sv.take(0) =~= seq![]);
        }
        let mut k: usize = 0;
        let ghost base = out@;
        while k < segs[j].len()
            invariant
                j < segs.len(),
                k <= segs@[j as int].len(),
                out@ == base + segs@[j as int]@.take(k as int),
            decreases segs@[j as int].len() - k,
        {
            out.push(segs[j][k]);
            assert(segs@[j as int]@.take(k + 1) =~= segs@[j as int]@.take(k as int).push(segs@[j as int]@[k as int]));
            assert(out@ =~= base + segs@[j as int]@.take(k + 1));
            k = k + 1;
        }
        assert(segs@[j as int]@.take(segs@[j as int]@.len() as int) =~= segs@[j as int]@);
        assert(out@ =~= join_segments(sv.take(j + 1)));
        j = j + 1;
    }
    assert(sv.take(sv.len() as int) =~= sv);
    string_of(&out)
}

/// The directory part of a path: what comes before its last `/`, or nothing.
pub open spec fn dir_of(p: Seq<char>) -> Seq<char>
    decreases p.len(),
{
    if p.len() == 0 {
        seq![]
    } else if p.last() == '/' {
        p.drop_last()
    } else {
        dir_of(p.drop_last())
    }
}

/// The directory part of a path: what comes before its last `/`, or nothing.
pub fn parent_dir(p: &str) -> (r: String)
    ensures
        r@ == dir_of(p@),
{
    let cs = chars_of(p);
    let mut n: usize = cs.len();
    assert(cs@.take(n as int) =~= cs@);
    while n > 0
        invariant
            n <= cs.len(),
            cs@ == p@,
            dir_of(p@) == dir_of(cs@.take(n as int)),
        decreases n,
    {
        assert(cs@.take(n as int).drop_last() =~= cs@.take(n - 1));
        if cs[n - 1] == '/' {
            let mut out: Vec<char> = Vec::new();
            let mut k: usize = 0;
            while k < n - 1
                invariant
                    0 < n <= cs.len(),
                    k <= n - 1,
                    out@ == cs@.take(k as int),
                decreases n - 1 - k,
            {
                out.push(cs[k]);
                assert(out@ =~= cs@.take(k + 1));
                k = k + 1;
            }
            return string_of(&out);
        }
        n = n - 1;
    }
    assert(cs@.take(0) =~= seq![]);
    String::new()
}

/// The image directory of an archive: beside the manifest, or at the root
/// when the manifest lies at the root or there is none.
pub open spec fn asset_dir_for(manifest_dir: Seq<char>) -> Seq<char> {
    if manifest_dir.len() == 0 {
        ASSET_DIR_NAME@
    } else {
        manifest_dir + seq!['/'] + ASSET_DIR_NAME@
    }
}

/// The image directory of an archive whose manifest lies in `manifest_dir`.
pub fn asset_dir(manifest_dir: &str) -> (r: String)
    ensures
        r@ == asset_dir_for(manifest_dir@),
{
    let mut out: Vec<char> = Vec::new();
    if chars_of(manifest_dir).len() > 0 {
        push_str(&mut out, manifest_dir);
        out.push('/');
    }
    push_str(&mut out, ASSET_DIR_NAME);
    assert(out@ =~= asset_dir_for(manifest_dir@));
    string_of(&out)
}

/// The path that leads from a document's directory to the image directory.
pub open spec fn image_dir_for(doc_dir: Seq<char>, assets: Seq<char>) -> Seq<char> {
    match relative_path(slashed(assets), slashed(doc_dir)) {
        Some(p) => p,
        None => FALLBACK_IMAGE_DIR@,
    }
}

/// The path that leads from a document's directory to the image directory,
/// or the conventional `../emoji_img` where there is none.
pub fn image_dir(doc_dir: &str, assets: &str) -> (r: String)
    ensures
        r@ == image_dir_for(doc_dir@, assets@),
{
    let a = string_of(&slashed_chars(assets));
    let d = string_of(&slashed_chars(doc_dir));
    assert(no_backslash(a@));
    assert(no_backslash(d@));
    match diff_paths(a.as_str(), d.as_str()) {
        Some(p) => p,
        None => FALLBACK_IMAGE_DIR.to_string(),
    }
}

/// Whether `n` is a manifest entry flagged as a navigation document.
pub open spec fn is_nav_item(n: NodeView) -> bool {
    &&& n.kind == XmlKind::Empty
    &&& n.name == ITEM_TAG@
    &&& attr_of(n.attrs, PROPERTIES_ATTR@) == Some(NAV_PROPERTY@)
    &&& attr_of(n.attrs, HREF_ATTR@) is Some
}

/// The resolved paths of the navigation documents among `nodes`, in order.
pub open spec fn nav_paths(nodes: Seq<NodeView>, dir: Seq<char>) -> Seq<Seq<char>>
    decreases nodes.len(),
{
    if nodes.len() == 0 {
        seq![]
    } else {
        let prev = nav_paths(nodes.drop_last(), dir);
        let n = nodes.last();
        if is_nav_item(n) {
            prev.push(resolve_href(dir, attr_of(n.attrs, HREF_ATTR@)->0))
        } else {
            prev
        }
    }
}

/// The resolved paths of the navigation documents that a manifest, read into
/// nodes, lists; `dir` is the manifest's directory.
pub fn nav_documents(nodes: &Vec<XmlNode>, dir: &str) -> (r: Vec<String>)
    ensures
        crate::text::views(r@) == nav_paths(nodes_view(nodes@), dir@),
{
    let ghost nv = nodes_view(nodes@);
    let mut out: Vec<String> = Vec::new();
    let mut i: usize = 0;
    while i < nodes.len()
        invariant
            i <= nodes.len(),
            nv == nodes_view(nodes@),
            crate::text::views(out@) == nav_paths(nv.take(i as int), dir@),
        decreases nodes.len() - i,
    {
        assert(nv.take(i + 1).drop_last() =~= nv.take(i as int));
        assert(nv.take(i + 1).last() == nodes@[i as int]@);
        let n = &nodes[i];
        if matches!(n.kind, XmlKind::Empty) && same_text(n.name.as_str(), ITEM_TAG) {
            let props = find_attr(&n.attrs, PROPERTIES_ATTR);
            let href = find_attr(&n.attrs, HREF_ATTR);
            match (props, href) {
                (Some(p), Some(h)) => {
                    if same_text(p.as_str(), NAV_PROPERTY) {
                        let ghost prev = out@;
                        out.push(resolve_path(dir, h.as_str()));
                        assert(crate::text::views(out@) =~= crate::text::views(prev).push(
                            resolve_href(dir@, h@),
                        ));
                    }
                },
                _ => {},
            }
        }
        i = i + 1;
    }
    assert(nv.take(nv.len() as int) =~= nv);
    out
}

/// The navigation documents that a manifest's text lists, resolved against
/// the manifest's directory; the entries read before malformed markup count.
pub fn navigation_documents(manifest_content: &str, manifest_dir: &str) -> (r: Vec<String>)
    ensures
        crate::text::views(r@) == nav_paths(xml_nodes_of(manifest_content@), manifest_dir@),
{
    let doc = parse_xml(manifest_content);
    nav_documents(&doc.nodes, manifest_dir)
}

} // verus!
