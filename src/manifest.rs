//! The manifest patcher: inside the `manifest` element it drops the items that
//! point into the image directory and, before the first closing `manifest`
//! tag, adds one item per required image.

use vstd::prelude::*;
use crate::classify::{file_name_of, key_of, lemma_key_identifies, PNG_SUFFIX};
use crate::text::{contains_string, is_prefix, push_str, same_text, starts_with, string_of, views};
use crate::text::chars_of;
use crate::xml::{
    empty_node, nodes_view, parse_xml, render_xml, tag_content, xml_complete, xml_nodes_of, xml_text_of, NodeView,
    XmlKind, XmlNode,
};

verus! {

/// Name of the element that lists the resources of the package.
pub const MANIFEST_TAG: &'static str = "manifest";

/// Name of one entry of the manifest.
pub const ITEM_TAG: &'static str = "item";

/// Attribute naming an entry's identifier.
pub const ID_ATTR: &'static str = "id";

/// Attribute naming an entry's path, relative to the manifest.
pub const HREF_ATTR: &'static str = "href";

/// Attribute naming an entry's media type.
pub const MEDIA_TYPE_ATTR: &'static str = "media-type";

/// Media type of an emoji image.
pub const PNG_MEDIA_TYPE: &'static str = "image/png";

/// Start of the identifier of an emoji image entry.
pub const ID_PREFIX: &'static str = "emoji_";

/// End of the identifier of an emoji image entry.
pub const ID_SUFFIX: &'static str = "_png";

/// Whether `n` opens the manifest element.
/// Whether `n` opens the manifest element.
pub open spec fn is_manifest_start(n: NodeView) -> bool {
    n.kind == XmlKind::Start && n.name == MANIFEST_TAG@
}

/// Whether `n` closes the manifest element.
pub open spec fn is_manifest_end(n: NodeView) -> bool {
    n.kind == XmlKind::End && n.name == MANIFEST_TAG@
}

/// Whether `n` closes an entry written as an opening and a closing tag.
pub open spec fn is_item_end(n: NodeView) -> bool {
    n.kind == XmlKind::End && n.name == ITEM_TAG@
}

/// What `quick-xml` writes for one character of an attribute value.
pub open spec fn escape_char(c: char) -> Seq<char> {
    if c == '<' {
        seq!['&', 'l', 't', ';']
    } else if c == '>' {
        seq!['&', 'g', 't', ';']
    } else if c == '&' {
        seq!['&', 'a', 'm', 'p', ';']
    } else if c == '\'' {
        seq!['&', 'a', 'p', 'o', 's', ';']
    } else if c == '"' {
        seq!['&', 'q', 'u', 'o', 't', ';']
    } else {
        seq![c]
    }
}

/// An attribute value as it is written: the five markup characters escaped.
pub open spec fn escape_value(s: Seq<char>) -> Seq<char>
    decreases s.len(),
{
    if s.len() == 0 {
        seq![]
    } else {
        escape_value(s.drop_last()) + escape_char(s.last())
    }
}

/// Whether `n` is an entry whose (written) `href` lies under directory `dir`.
pub open spec fn stale_item(n: NodeView, dir: Seq<char>) -> bool {
    &&& n.name == ITEM_TAG@
    &&& exists|i: int|
        0 <= i < n.attrs.len() && (#[trigger] n.attrs[i]).0 == HREF_ATTR@ && is_prefix(
            escape_value(dir) + seq!['/'],
            n.attrs[i].1,
        )
}

/// A self-closing entry under `dir`.
pub open spec fn is_stale(n: NodeView, dir: Seq<char>) -> bool {
    n.kind == XmlKind::Empty && stale_item(n, dir)
}

/// The opening tag of an entry under `dir`; the entry runs to the next
/// closing `item` tag.
pub open spec fn is_stale_start(n: NodeView, dir: Seq<char>) -> bool {
    n.kind == XmlKind::Start && stale_item(n, dir)
}

/// The identifier of the entry of an image key.
pub open spec fn item_id(key: Seq<char>) -> Seq<char> {
    ID_PREFIX@ + key + ID_SUFFIX@
}

/// The path of the image of a key, relative to the manifest.
pub open spec fn item_href(key: Seq<char>, dir: Seq<char>) -> Seq<char> {
    dir + seq!['/'] + file_name_of(key)
}

/// The attributes of the entry of an image key, as written.
pub open spec fn item_attrs(key: Seq<char>, dir: Seq<char>) -> Seq<(Seq<char>, Seq<char>)> {
    seq![
        (ID_ATTR@, escape_value(item_id(key))),
        (HREF_ATTR@, escape_value(item_href(key, dir))),
        (MEDIA_TYPE_ATTR@, escape_value(PNG_MEDIA_TYPE@)),
    ]
}

/// The entry of an image key.
pub open spec fn item_view(key: Seq<char>, dir: Seq<char>) -> NodeView {
    NodeView {
        kind: XmlKind::Empty,
        name: ITEM_TAG@,
        attrs: item_attrs(key, dir),
        content: tag_content(ITEM_TAG@, item_attrs(key, dir)),
    }
}

/// The keys whose identifier does not repeat one of an earlier key, in order.
pub open spec fn unique_ids(keys: Seq<Seq<char>>) -> Seq<Seq<char>>
    decreases keys.len(),
{
    if keys.len() == 0 {
        seq![]
    } else {
        let prev = unique_ids(keys.drop_last());
        let k = keys.last();
        if prev.map_values(|p: Seq<char>| item_id(p)).contains(item_id(k)) {
            prev
        } else {
            prev.push(k)
        }
    }
}

/// The entries added for a list of keys.
pub open spec fn manifest_items(keys: Seq<Seq<char>>, dir: Seq<char>) -> Seq<NodeView> {
    unique_ids(keys).map_values(|k: Seq<char>| item_view(k, dir))
}

/// The patched rest of a document: `inside` tells whether it starts inside
/// the manifest, `inserted` whether the entries were already added, and
/// `skip` whether it starts within a stale entry being dropped.
pub open spec fn patch_from(
    nodes: Seq<NodeView>,
    inside: bool,
    inserted: bool,
    skip: bool,
    items: Seq<NodeView>,
    dir: Seq<char>,
) -> Seq<NodeView>
    decreases nodes.len(),
{
    if nodes.len() == 0 {
        seq![]
    } else {
        let n = nodes[0];
        let rest = nodes.drop_first();
        if skip {
            patch_from(rest, inside, inserted, !is_item_end(n), items, dir)
        } else if is_manifest_start(n) {
            seq![n] + patch_from(rest, true, inserted, false, items, dir)
        } else if is_manifest_end(n) {
            (if inserted { seq![] } else { items }) + seq![n] + patch_from(rest, false, true, false, items, dir)
        } else if inside && is_stale(n, dir) {
            patch_from(rest, inside, inserted, false, items, dir)
        } else if inside && is_stale_start(n, dir) {
            patch_from(rest, inside, inserted, true, items, dir)
        } else {
            seq![n] + patch_from(rest, inside, inserted, false, items, dir)
        }
    }
}

/// The patched document: entries under `dir` inside the manifest dropped
/// (self-closing ones, and opening tags through their closing tag), the
/// entries of `keys` added before the first closing `manifest` tag.
pub open spec fn patched_nodes(nodes: Seq<NodeView>, keys: Seq<Seq<char>>, dir: Seq<char>) -> Seq<NodeView> {
    patch_from(nodes, false, false, false, manifest_items(keys, dir), dir)
}

/// The text of a patched manifest: the input itself when it is malformed or
/// the patched nodes cannot be written.
pub open spec fn patched_text(text: Seq<char>, keys: Seq<Seq<char>>, dir: Seq<char>) -> Seq<char> {
    if !xml_complete(text) {
        text
    } else {
        match xml_text_of(patched_nodes(xml_nodes_of(text), keys, dir)) {
            Some(t) => t,
            None => text,
        }
    }
}

/// Escapes an attribute value as `quick-xml` does.
pub fn escape_attribute(s: &str) -> (r: String)
    ensures
        r@ == escape_value(s@),
{
    let cs = chars_of(s);
    let mut out: Vec<char> = Vec::new();
    let mut i: usize = 0;
    while i < cs.len()
        invariant
            i <= cs.len(),
            cs@ == s@,
            out@ == escape_value(cs@.take(i as int)),
        decreases cs.len() - i,
    {
        assert(cs@.take(i + 1).drop_last() =~= cs@.take(i as int));
        let c = cs[i];
        if c == '<' {
            push_str(&mut out, "&lt;");
        } else if c == '>' {
            push_str(&mut out, "&gt;");
        } else if c == '&' {
            push_str(&mut out, "&amp;");
        } else if c == '\'' {
            push_str(&mut out, "&apos;");
        } else if c == '"' {
            push_str(&mut out, "&quot;");
        } else {
            out.push(c);
        }
        proof {
            reveal_strlit("&lt;");
            reveal_strlit("&gt;");
            reveal_strlit("&amp;");
            reveal_strlit("&apos;");
            reveal_strlit("&quot;");
        }
        assert(out@ =~= escape_value(cs@.take(i + 1)));
        i = i + 1;
    }
    assert(cs@.take(cs@.len() as int) =~= cs@);
    string_of(&out)
}

fn is_stale_item(n: &XmlNode, dir: &str, prefix: &str) -> (r: bool)
    requires
        prefix@ == escape_value(dir@) + seq!['/'],
    ensures
        r == stale_item(n@, dir@),
{
    if !same_text(n.name.as_str(), ITEM_TAG) {
        return false;
    }
    let mut i: usize = 0;
    while i < n.attrs.len()
        invariant
            i <= n.attrs.len(),
            n@.name == ITEM_TAG@,
            prefix@ == escape_value(dir@) + seq!['/'],
            forall|j: int|
                0 <= j < i ==> !((#[trigger] n@.attrs[j]).0 == HREF_ATTR@ && is_prefix(
                    escape_value(dir@) + seq!['/'],
                    n@.attrs[j].1,
                )),
        decreases n.attrs.len() - i,
    {
        if same_text(n.attrs[i].0.as_str(), HREF_ATTR) && starts_with(n.attrs[i].1.as_str(), prefix) {
            assert(n@.attrs[i as int].0 == HREF_ATTR@);
            return true;
        }
        i = i + 1;
    }
    false
}

fn concat3(a: &str, b: &str, c: &str) -> (r: String)
    ensures
        r@ == a@ + b@ + c@,
{
    let mut out: Vec<char> = Vec::new();
    push_str(&mut out, a);
    push_str(&mut out, b);
    push_str(&mut out, c);
    assert(out@ =~= a@ + b@ + c@);
    string_of(&out)
}

fn item_node(key: &String, dir: &str) -> (r: XmlNode)
    ensures
        r@ == item_view(key@, dir@),
{
    let mut attrs: Vec<(String, String)> = Vec::new();
    let id = concat3(ID_PREFIX, key.as_str(), ID_SUFFIX);
    attrs.push((ID_ATTR.to_string(), escape_attribute(id.as_str())));
    let mut href: Vec<char> = Vec::new();
    push_str(&mut href, dir);
    href.push('/');
    push_str(&mut href, key.as_str());
    push_str(&mut href, PNG_SUFFIX);
    assert(href@ =~= item_href(key@, dir@));
    let href = string_of(&href);
    attrs.push((HREF_ATTR.to_string(), escape_attribute(href.as_str())));
    attrs.push((MEDIA_TYPE_ATTR.to_string(), escape_attribute(PNG_MEDIA_TYPE)));
    assert(crate::xml::attrs_view(attrs@) =~= item_attrs(key@, dir@));
    empty_node(ITEM_TAG, attrs)
}

fn build_items(keys: &Vec<String>, dir: &str) -> (r: Vec<XmlNode>)
    ensures
        nodes_view(r@) == manifest_items(views(keys@), dir@),
{
    let ghost kv = views(keys@);
    let mut out: Vec<XmlNode> = Vec::new();
    let mut ids: Vec<String> = Vec::new();
    let mut i: usize = 0;
    while i < keys.len()
        invariant
            i <= keys.len(),
            kv == views(keys@),
            nodes_view(out@) == manifest_items(kv.take(i as int), dir@),
            views(ids@) == unique_ids(kv.take(i as int)).map_values(|p: Seq<char>| item_id(p)),
        decreases keys.len() - i,
    {
        let ghost prev = unique_ids(kv.take(i as int));
        assert(kv.take(i + 1).drop_last() =~= kv.take(i as int));
        assert(kv.take(i + 1).last() == keys@[i as int]@);
        let id = concat3(ID_PREFIX, keys[i].as_str(), ID_SUFFIX);
        if !contains_string(&ids, &id) {
            let node = item_node(&keys[i], dir);
            let ghost old_out = out@;
            let ghost old_ids = ids@;
            out.push(node);
            ids.push(id);
            assert(views(ids@) =~= views(old_ids).push(id@));
            let ghost k = keys@[i as int]@;
            assert(unique_ids(kv.take(i + 1)) == prev.push(k));
            assert(nodes_view(out@) =~= nodes_view(old_out).push(item_view(k, dir@)));
            assert(prev.push(k).map_values(|p: Seq<char>| item_view(p, dir@))
                =~= prev.map_values(|p: Seq<char>| item_view(p, dir@)).push(item_view(k, dir@)));
            assert(prev.push(k).map_values(|p: Seq<char>| item_id(p))
                =~= prev.map_values(|p: Seq<char>| item_id(p)).push(item_id(k)));
            assert(nodes_view(out@) =~= manifest_items(kv.take(i + 1), dir@));
            assert(views(ids@) =~= unique_ids(kv.take(i + 1)).map_values(|p: Seq<char>| item_id(p)));
        }
        i = i + 1;
    }
    assert(kv.take(keys@.len() as int) =~= kv);
    out
}

/// Patches a manifest read into nodes: inside the `manifest` element, entries
/// whose `href` lies under `dir` are dropped, a self-closing one alone and an
/// opening tag together with all that follows it up to the next closing
/// `item` tag; before the first closing `manifest` tag an entry is added for
/// each key (one per identifier), with `href` `<dir>/<key>.png`. All other
/// nodes are kept, in order.
pub fn patch_manifest_nodes(nodes: Vec<XmlNode>, keys: &Vec<String>, dir: &str) -> (r: Vec<XmlNode>)
    ensures
        nodes_view(r@) == patched_nodes(nodes_view(nodes@), views(keys@), dir@),
{
    let ghost all = nodes_view(nodes@);
    let ghost items_v = manifest_items(views(keys@), dir@);
    let mut items = build_items(keys, dir);
    let mut prefix: Vec<char> = Vec::new();
    let escaped_dir = escape_attribute(dir);
    push_str(&mut prefix, escaped_dir.as_str());
    prefix.push('/');
    let prefix = string_of(&prefix);
    let mut rest = nodes;
    let mut out: Vec<XmlNode> = Vec::new();
    let mut inside = false;
    let mut inserted = false;
    let mut skip = false;
    while rest.len() > 0
        invariant
            prefix@ == escape_value(dir@) + seq!['/'],
            !inserted ==> nodes_view(items@) == items_v,
            nodes_view(out@) + patch_from(nodes_view(rest@), inside, inserted, skip, items_v, dir@)
                == patch_from(all, false, false, false, items_v, dir@),
        decreases rest.len(),
    {
        let ghost rv = nodes_view(rest@);
        let ghost ov = nodes_view(out@);
        let n = rest.remove(0);
        assert(nodes_view(rest@) =~= rv.drop_first());
        assert(rv[0] == n@);
        if skip {
            skip = !(matches!(n.kind, XmlKind::End) && same_text(n.name.as_str(), ITEM_TAG));
            continue;
        }
        let start = matches!(n.kind, XmlKind::Start) && same_text(n.name.as_str(), MANIFEST_TAG);
        let end = matches!(n.kind, XmlKind::End) && same_text(n.name.as_str(), MANIFEST_TAG);
        if start {
            out.push(n);
            assert(nodes_view(out@) =~= ov + seq![rv[0]]);
            assert(ov + patch_from(rv, inside, inserted, skip, items_v, dir@) =~= nodes_view(out@)
                + patch_from(nodes_view(rest@), true, inserted, false, items_v, dir@));
            inside = true;
        } else if end {
            if !inserted {
                out.append(&mut items);
                assert(nodes_view(out@) =~= ov + items_v);
            }
            let ghost mid = nodes_view(out@);
            out.push(n);
            assert(nodes_view(out@) =~= mid + seq![rv[0]]);
            assert(ov + patch_from(rv, inside, inserted, skip, items_v, dir@) =~= nodes_view(out@)
                + patch_from(nodes_view(rest@), false, true, false, items_v, dir@));
            inside = false;
            inserted = true;
        } else if inside && is_stale_item(&n, dir, prefix.as_str()) && (matches!(n.kind, XmlKind::Empty)
            || matches!(n.kind, XmlKind::Start)) {
            skip = matches!(n.kind, XmlKind::Start);
        } else {
            out.push(n);
            assert(nodes_view(out@) =~= ov + seq![rv[0]]);
            assert(ov + patch_from(rv, inside, inserted, skip, items_v, dir@) =~= nodes_view(out@)
                + patch_from(nodes_view(rest@), inside, inserted, false, items_v, dir@));
        }
    }
    assert(patch_from(nodes_view(rest@), inside, inserted, skip, items_v, dir@) =~= seq![]);
    assert(nodes_view(out@) =~= nodes_view(out@) + seq![]);
    out
}

/// Reads a manifest, patches it as [`patch_manifest_nodes`] does and writes
/// it back. Malformed input is returned unchanged, as is the input when the
/// patched document cannot be written.
pub fn update_opf_manifest(opf_content: &str, keys: &Vec<String>, dir: &str) -> (r: String)
    ensures
        r@ == patched_text(opf_content@, views(keys@), dir@),
{
    let doc = parse_xml(opf_content);
    if !doc.complete {
        return opf_content.to_string();
    }
    let patched = patch_manifest_nodes(doc.nodes, keys, dir);
    match render_xml(&patched) {
        Some(text) => text,
        None => opf_content.to_string(),
    }
}

/// Whether every closing `manifest` tag that the patch meets comes inside a
/// `manifest` element, the patch starting in the given state; this holds of
/// all well-formed XML.
pub open spec fn closes_inside(nodes: Seq<NodeView>, inside: bool, skip: bool, dir: Seq<char>) -> bool
    decreases nodes.len(),
{
    if nodes.len() == 0 {
        true
    } else {
        let n = nodes[0];
        let rest = nodes.drop_first();
        if skip {
            closes_inside(rest, inside, !is_item_end(n), dir)
        } else if is_manifest_start(n) {
            closes_inside(rest, true, false, dir)
        } else if is_manifest_end(n) {
            inside && closes_inside(rest, false, false, dir)
        } else if inside && is_stale(n, dir) {
            closes_inside(rest, inside, false, dir)
        } else if inside && is_stale_start(n, dir) {
            closes_inside(rest, inside, true, dir)
        } else {
            closes_inside(rest, inside, false, dir)
        }
    }
}

/// Whether the patch, starting in the given state, meets a closing
/// `manifest` tag outside a dropped entry.
pub open spec fn reaches_end(nodes: Seq<NodeView>, inside: bool, skip: bool, dir: Seq<char>) -> bool
    decreases nodes.len(),
{
    if nodes.len() == 0 {
        false
    } else {
        let n = nodes[0];
        let rest = nodes.drop_first();
        if skip {
            reaches_end(rest, inside, !is_item_end(n), dir)
        } else if is_manifest_start(n) {
            reaches_end(rest, true, false, dir)
        } else if is_manifest_end(n) {
            true
        } else if inside && is_stale(n, dir) {
            reaches_end(rest, inside, false, dir)
        } else if inside && is_stale_start(n, dir) {
            reaches_end(rest, inside, true, dir)
        } else {
            reaches_end(rest, inside, false, dir)
        }
    }
}

/// Whether every node of `items` is a self-closing entry under `dir`.
pub open spec fn all_stale(items: Seq<NodeView>, dir: Seq<char>) -> bool {
    forall|i: int| 0 <= i < items.len() ==> is_stale(#[trigger] items[i], dir)
}

proof fn lemma_escape_concat(a: Seq<char>, b: Seq<char>)
    ensures
        escape_value(a + b) == escape_value(a) + escape_value(b),
    decreases b.len(),
{
    if b.len() == 0 {
        assert(a + b =~= a);
    } else {
        assert((a + b).drop_last() =~= a + b.drop_last());
        assert((a + b).last() == b.last());
        lemma_escape_concat(a, b.drop_last());
        assert(escape_value(a) + escape_value(b.drop_last()) + escape_char(b.last()) =~= escape_value(a)
            + escape_value(b));
    }
}

/// An added entry lies under the image directory.
pub proof fn lemma_item_is_stale(key: Seq<char>, dir: Seq<char>)
    ensures
        is_stale(item_view(key, dir), dir),
{
    let n = item_view(key, dir);
    let f = file_name_of(key);
    lemma_escape_concat(dir + seq!['/'], f);
    lemma_escape_concat(dir, seq!['/']);
    assert(escape_value(seq!['/']) =~= seq!['/']) by {
        let one: Seq<char> = seq!['/'];
        assert(one.drop_last() =~= Seq::<char>::empty());
        assert(escape_value(one.drop_last()) =~= Seq::<char>::empty());
        assert(one.last() == '/');
        assert(escape_char('/') =~= seq!['/']);
        assert(escape_value(one) == escape_value(one.drop_last()) + escape_char(one.last()));
    }
    let pre = escape_value(dir) + seq!['/'];
    let href = escape_value(item_href(key, dir));
    assert(href =~= pre + escape_value(f));
    assert(href.subrange(0, pre.len() as int) =~= pre);
    assert(n.attrs[1].0 == HREF_ATTR@ && is_prefix(pre, n.attrs[1].1));
}

proof fn lemma_items_stale(keys: Seq<Seq<char>>, dir: Seq<char>)
    ensures
        all_stale(manifest_items(keys, dir), dir),
{
    let items = manifest_items(keys, dir);
    assert forall|i: int| 0 <= i < items.len() implies is_stale(#[trigger] items[i], dir) by {
        lemma_item_is_stale(unique_ids(keys)[i], dir);
    }
}

proof fn lemma_skip_stale(
    items: Seq<NodeView>,
    rest: Seq<NodeView>,
    inserted: bool,
    its: Seq<NodeView>,
    dir: Seq<char>,
)
    requires
        all_stale(items, dir),
    ensures
        patch_from(items + rest, true, inserted, false, its, dir) == patch_from(rest, true, inserted, false, its, dir),
    decreases items.len(),
{
    if items.len() == 0 {
        assert(items + rest =~= rest);
    } else {
        assert((items + rest)[0] == items[0]);
        assert((items + rest).drop_first() =~= items.drop_first() + rest);
        assert(all_stale(items.drop_first(), dir)) by {
            assert forall|i: int| 0 <= i < items.drop_first().len() implies is_stale(
                #[trigger] items.drop_first()[i],
                dir,
            ) by {
                assert(items.drop_first()[i] == items[i + 1]);
            }
        }
        lemma_skip_stale(items.drop_first(), rest, inserted, its, dir);
    }
}

proof fn lemma_patch_from_idempotent(
    nodes: Seq<NodeView>,
    inside: bool,
    inserted: bool,
    skip: bool,
    items: Seq<NodeView>,
    dir: Seq<char>,
)
    requires
        closes_inside(nodes, inside, skip, dir),
        all_stale(items, dir),
    ensures
        patch_from(patch_from(nodes, inside, inserted, skip, items, dir), inside, inserted, false, items, dir)
            == patch_from(nodes, inside, inserted, skip, items, dir),
    decreases nodes.len(),
{
    if nodes.len() > 0 {
        let n = nodes[0];
        let rest = nodes.drop_first();
        if skip {
            lemma_patch_from_idempotent(rest, inside, inserted, !is_item_end(n), items, dir);
        } else if is_manifest_start(n) {
            let r = patch_from(rest, true, inserted, false, items, dir);
            lemma_patch_from_idempotent(rest, true, inserted, false, items, dir);
            assert((seq![n] + r)[0] == n);
            assert((seq![n] + r).drop_first() =~= r);
        } else if is_manifest_end(n) {
            let r = patch_from(rest, false, true, false, items, dir);
            lemma_patch_from_idempotent(rest, false, true, false, items, dir);
            let tail = seq![n] + r;
            assert(tail[0] == n);
            assert(tail.drop_first() =~= r);
            if inserted {
                assert(seq![] + seq![n] + r =~= tail);
            } else {
                assert(items + seq![n] + r =~= items + tail);
                lemma_skip_stale(items, tail, false, items, dir);
            }
        } else if inside && is_stale(n, dir) {
            lemma_patch_from_idempotent(rest, inside, inserted, false, items, dir);
        } else if inside && is_stale_start(n, dir) {
            lemma_patch_from_idempotent(rest, inside, inserted, true, items, dir);
        } else {
            let r = patch_from(rest, inside, inserted, false, items, dir);
            lemma_patch_from_idempotent(rest, inside, inserted, false, items, dir);
            assert((seq![n] + r)[0] == n);
            assert((seq![n] + r).drop_first() =~= r);
        }
    }
}

/// Patching an already patched manifest again, with the same keys and image
/// directory, gives the same document, so the same entries and as many of
/// them: stale entries are purged and the same ones added again. This holds
/// of any document whose closing `manifest` tags each close an open
/// `manifest` element, as in all well-formed XML.
pub proof fn lemma_patch_idempotent(nodes: Seq<NodeView>, keys: Seq<Seq<char>>, dir: Seq<char>)
    requires
        closes_inside(nodes, false, false, dir),
    ensures
        patched_nodes(patched_nodes(nodes, keys, dir), keys, dir) == patched_nodes(nodes, keys, dir),
        patched_nodes(patched_nodes(nodes, keys, dir), keys, dir).len() == patched_nodes(nodes, keys, dir).len(),
{
    lemma_items_stale(keys, dir);
    lemma_patch_from_idempotent(nodes, false, false, false, manifest_items(keys, dir), dir);
}

/// Distinct keys give distinct entry identifiers.
pub proof fn lemma_item_id_injective(a: Seq<char>, b: Seq<char>)
    requires
        item_id(a) == item_id(b),
    ensures
        a == b,
{
    let p = ID_PREFIX@.len() as int;
    let ia = item_id(a);
    let ib = item_id(b);
    assert(ia.len() == p + a.len() + ID_SUFFIX@.len());
    assert(ib.len() == p + b.len() + ID_SUFFIX@.len());
    assert(a.len() == b.len());
    assert forall|j: int| 0 <= j < a.len() implies a[j] == b[j] by {
        assert(ia[p + j] == a[j]);
        assert(ib[p + j] == b[j]);
    }
    assert(a =~= b);
}

proof fn lemma_unique_ids_keep(keys: Seq<Seq<char>>, k: Seq<char>)
    requires
        keys.contains(k),
    ensures
        unique_ids(keys).contains(k),
    decreases keys.len(),
{
    let prev = unique_ids(keys.drop_last());
    let ids = prev.map_values(|p: Seq<char>| item_id(p));
    let j = choose|j: int| 0 <= j < keys.len() && keys[j] == k;
    if j < keys.len() - 1 {
        assert(keys.drop_last()[j] == k);
        lemma_unique_ids_keep(keys.drop_last(), k);
        if !ids.contains(item_id(keys.last())) {
            let t = choose|t: int| 0 <= t < prev.len() && prev[t] == k;
            assert(prev.push(keys.last())[t] == k);
        }
    } else if ids.contains(item_id(k)) {
        let t = choose|t: int| 0 <= t < ids.len() && ids[t] == item_id(k);
        lemma_item_id_injective(prev[t], k);
    } else {
        assert(prev.push(k)[prev.len() as int] == k);
    }
}

proof fn lemma_items_emitted(
    nodes: Seq<NodeView>,
    inside: bool,
    skip: bool,
    items: Seq<NodeView>,
    dir: Seq<char>,
    x: NodeView,
)
    requires
        items.contains(x),
        reaches_end(nodes, inside, skip, dir),
    ensures
        patch_from(nodes, inside, false, skip, items, dir).contains(x),
    decreases nodes.len(),
{
    let n = nodes[0];
    let rest = nodes.drop_first();
    let t = choose|t: int| 0 <= t < items.len() && items[t] == x;
    if skip {
        lemma_items_emitted(rest, inside, !is_item_end(n), items, dir, x);
    } else if is_manifest_end(n) {
        let out = patch_from(nodes, inside, false, skip, items, dir);
        assert(out[t] == x);
    } else if is_manifest_start(n) {
        lemma_items_emitted(rest, true, false, items, dir, x);
        let r = patch_from(rest, true, false, false, items, dir);
        let u = choose|u: int| 0 <= u < r.len() && r[u] == x;
        assert((seq![n] + r)[u + 1] == x);
    } else if inside && is_stale(n, dir) {
        lemma_items_emitted(rest, inside, false, items, dir, x);
    } else if inside && is_stale_start(n, dir) {
        lemma_items_emitted(rest, inside, true, items, dir, x);
    } else {
        lemma_items_emitted(rest, inside, false, items, dir, x);
        let r = patch_from(rest, inside, false, false, items, dir);
        let u = choose|u: int| 0 <= u < r.len() && r[u] == x;
        assert((seq![n] + r)[u + 1] == x);
    }
}

/// A manifest patched with a list of keys has an entry for each of them,
/// with `href` `<dir>/<key>.png`, provided the patch meets a closing
/// `manifest` tag to add the entries before.
pub proof fn lemma_patch_lists_keys(nodes: Seq<NodeView>, keys: Seq<Seq<char>>, dir: Seq<char>, k: Seq<char>)
    requires
        keys.contains(k),
        reaches_end(nodes, false, false, dir),
    ensures
        patched_nodes(nodes, keys, dir).contains(item_view(k, dir)),
{
    lemma_unique_ids_keep(keys, k);
    let u = unique_ids(keys);
    let t = choose|t: int| 0 <= t < u.len() && u[t] == k;
    let items = manifest_items(keys, dir);
    assert(items[t] == item_view(k, dir));
    lemma_items_emitted(nodes, false, false, items, dir, item_view(k, dir));
}

/// The manifest entry of a cluster's key names the cluster: two clusters
/// get the same entry identifier exactly when they are the same cluster.
pub proof fn lemma_entry_identifies(a: Seq<char>, b: Seq<char>)
    ensures
        item_id(key_of(a)) == item_id(key_of(b)) <==> a == b,
{
    lemma_key_identifies(a, b);
    if item_id(key_of(a)) == item_id(key_of(b)) {
        lemma_item_id_injective(key_of(a), key_of(b));
    }
}

} // verus!
