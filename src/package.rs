//! Repackaging: which members are rewritten, which pass through, the image
//! keys that the output needs, and the members of the new archive in order.

use vstd::prelude::*;
use vstd::string::StrSliceExecFns;
use vstd::utf8::{decode_utf8, encode_utf8, valid_utf8};
use crate::classify::{file_name_of, graphemes_of, PNG_SUFFIX};
use crate::container::{
    asset_dir, asset_dir_for, dir_of, find_opf_path_from_container, image_dir, image_dir_for,
    navigation_documents, parent_dir, rootfile_of, nav_paths, CONTAINER_PATH, ASSET_DIR_NAME,
};
use crate::xml::xml_nodes_of;
use crate::manifest::{
    item_view, lemma_patch_lists_keys, patched_nodes, patched_text, reaches_end, update_opf_manifest,
};
use crate::rewrite::{
    document_emoji_keys, emoji_keys, rewrite_clusters, rewrite_document, slashed, slashed_chars,
    used_keys, Rewritten,
};
use crate::text::{contains_string, decode_utf8_bytes, ends_with, is_suffix, push_str, string_of, views};

verus! {

/// Suffixes of the members that hold content documents.
pub const XHTML_SUFFIX: &'static str = ".xhtml";

pub const HTML_SUFFIX: &'static str = ".html";

/// One member of an archive: its path inside the archive and its bytes.
pub struct Member {
    pub name: String,
    pub data: Vec<u8>,
}

impl View for Member {
    type V = (Seq<char>, Seq<u8>);

    open spec fn view(&self) -> (Seq<char>, Seq<u8>) {
        (self.name@, self.data@)
    }
}

/// The image of an emoji key: the key and the PNG bytes.
pub struct Asset {
    pub key: String,
    pub data: Vec<u8>,
}

impl View for Asset {
    type V = (Seq<char>, Seq<u8>);

    open spec fn view(&self) -> (Seq<char>, Seq<u8>) {
        (self.key@, self.data@)
    }
}

/// The plain values of a list of members.
pub open spec fn members_view(v: Seq<Member>) -> Seq<(Seq<char>, Seq<u8>)> {
    v.map_values(|m: Member| m@)
}

/// The plain values of a list of images.
pub open spec fn assets_view(v: Seq<Asset>) -> Seq<(Seq<char>, Seq<u8>)> {
    v.map_values(|a: Asset| a@)
}

/// The keys that have an image.
pub open spec fn asset_keys(assets: Seq<(Seq<char>, Seq<u8>)>) -> Seq<Seq<char>> {
    assets.map_values(|a: (Seq<char>, Seq<u8>)| a.0)
}

/// Where the manifest is, which documents are for navigation, and where the
/// images go.
pub struct ArchiveLayout {
    /// Path of the manifest, when the container descriptor names one.
    pub manifest_path: Option<String>,
    /// Directory of the manifest; empty when it is at the root or absent.
    pub manifest_dir: String,
    /// Directory of the images inside the archive.
    pub asset_dir: String,
    /// Resolved paths of the navigation documents.
    pub nav: Vec<String>,
}

/// The plain values of a layout.
pub struct LayoutView {
    pub manifest_path: Option<Seq<char>>,
    pub manifest_dir: Seq<char>,
    pub asset_dir: Seq<char>,
    pub nav: Seq<Seq<char>>,
}

impl View for ArchiveLayout {
    type V = LayoutView;

    open spec fn view(&self) -> LayoutView {
        LayoutView {
            manifest_path: match self.manifest_path {
                Some(p) => Some(p@),
                None => None,
            },
            manifest_dir: self.manifest_dir@,
            asset_dir: self.asset_dir@,
            nav: views(self.nav@),
        }
    }
}

/// Whether a member holds a content document, by its extension.
pub open spec fn is_html_name(name: Seq<char>) -> bool {
    is_suffix(XHTML_SUFFIX@, name) || is_suffix(HTML_SUFFIX@, name)
}

/// Whether a member is a content document to rewrite: an HTML-family member
/// that is not a navigation document.
pub open spec fn is_rewritable(name: Seq<char>, l: LayoutView) -> bool {
    is_html_name(name) && !l.nav.contains(slashed(name))
}

/// The image directory as seen from a member.
pub open spec fn doc_image_dir(name: Seq<char>, l: LayoutView) -> Seq<char> {
    image_dir_for(dir_of(slashed(name)), l.asset_dir)
}

/// The keys whose images a member refers to once rewritten.
pub open spec fn doc_keys(m: (Seq<char>, Seq<u8>), l: LayoutView, avail: Seq<Seq<char>>) -> Seq<Seq<char>> {
    if is_rewritable(m.0, l) && valid_utf8(m.1) {
        used_keys(graphemes_of(decode_utf8(m.1)), avail)
    } else {
        seq![]
    }
}

/// The keys of the emoji that a member holds, where it is to be rewritten.
pub open spec fn doc_emoji_keys(m: (Seq<char>, Seq<u8>), l: LayoutView) -> Seq<Seq<char>> {
    if is_rewritable(m.0, l) && valid_utf8(m.1) {
        emoji_keys(graphemes_of(decode_utf8(m.1)))
    } else {
        seq![]
    }
}

/// `prev` followed by the keys of `ks` that it lacks, in order, each once.
pub open spec fn add_keys(prev: Seq<Seq<char>>, ks: Seq<Seq<char>>) -> Seq<Seq<char>>
    decreases ks.len(),
{
    if ks.len() == 0 {
        prev
    } else {
        let p = add_keys(prev, ks.drop_last());
        if p.contains(ks.last()) {
            p
        } else {
            p.push(ks.last())
        }
    }
}

/// The keys that the rewritten members refer to, each once, in order.
pub open spec fn required_keys_of(ms: Seq<(Seq<char>, Seq<u8>)>, l: LayoutView, avail: Seq<Seq<char>>) -> Seq<Seq<char>>
    decreases ms.len(),
{
    if ms.len() == 0 {
        seq![]
    } else {
        add_keys(required_keys_of(ms.drop_last(), l, avail), doc_keys(ms.last(), l, avail))
    }
}

/// The keys of all emoji in the members to rewrite, each once, in order.
pub open spec fn archive_keys_of(ms: Seq<(Seq<char>, Seq<u8>)>, l: LayoutView) -> Seq<Seq<char>>
    decreases ms.len(),
{
    if ms.len() == 0 {
        seq![]
    } else {
        add_keys(archive_keys_of(ms.drop_last(), l), doc_emoji_keys(ms.last(), l))
    }
}

/// What a member becomes in the new archive.
pub open spec fn member_out(
    m: (Seq<char>, Seq<u8>),
    l: LayoutView,
    avail: Seq<Seq<char>>,
    manifest: Option<Seq<u8>>,
) -> (Seq<char>, Seq<u8>) {
    if l.manifest_path == Some(m.0) && manifest is Some {
        (m.0, manifest->0)
    } else if doc_keys(m, l, avail).len() > 0 {
        (
            m.0,
            encode_utf8(
                rewrite_clusters(graphemes_of(decode_utf8(m.1)), slashed(doc_image_dir(m.0, l)), avail),
            ),
        )
    } else {
        m
    }
}

/// The path of the image of a key.
pub open spec fn asset_path(dir: Seq<char>, key: Seq<char>) -> Seq<char> {
    dir + seq!['/'] + file_name_of(key)
}

/// The bytes of the first image of a key.
pub open spec fn asset_data(assets: Seq<(Seq<char>, Seq<u8>)>, key: Seq<char>) -> Option<Seq<u8>>
    decreases assets.len(),
{
    if assets.len() == 0 {
        None
    } else if assets[0].0 == key {
        Some(assets[0].1)
    } else {
        asset_data(assets.drop_first(), key)
    }
}

/// Whether a member of this path is among `ms`.
pub open spec fn has_name(ms: Seq<(Seq<char>, Seq<u8>)>, name: Seq<char>) -> bool {
    exists|i: int| 0 <= i < ms.len() && (#[trigger] ms[i]).0 == name
}

/// The image members added for `keys`: one per key that has an image and
/// whose path is not already a member.
pub open spec fn injected(
    keys: Seq<Seq<char>>,
    assets: Seq<(Seq<char>, Seq<u8>)>,
    dir: Seq<char>,
    ms: Seq<(Seq<char>, Seq<u8>)>,
) -> Seq<(Seq<char>, Seq<u8>)>
    decreases keys.len(),
{
    if keys.len() == 0 {
        seq![]
    } else {
        let prev = injected(keys.drop_last(), assets, dir, ms);
        let k = keys.last();
        if asset_data(assets, k) is Some && !has_name(ms, asset_path(dir, k)) {
            prev.push((asset_path(dir, k), asset_data(assets, k)->0))
        } else {
            prev
        }
    }
}

/// The members of the new archive: each member in its place, rewritten or
/// replaced by the patched manifest where that applies, then the images.
pub open spec fn assembled(
    ms: Seq<(Seq<char>, Seq<u8>)>,
    l: LayoutView,
    assets: Seq<(Seq<char>, Seq<u8>)>,
    manifest: Option<Seq<u8>>,
) -> Seq<(Seq<char>, Seq<u8>)> {
    ms.map_values(|m: (Seq<char>, Seq<u8>)| member_out(m, l, asset_keys(assets), manifest))
        + injected(required_keys_of(ms, l, asset_keys(assets)), assets, l.asset_dir, ms)
}

/// The index of the first member with this path.
pub open spec fn first_named(ms: Seq<(Seq<char>, Seq<u8>)>, name: Seq<char>) -> Option<int>
    decreases ms.len(),
{
    if ms.len() == 0 {
        None
    } else if ms.last().0 == name && first_named(ms.drop_last(), name) is None {
        Some(ms.len() - 1)
    } else {
        first_named(ms.drop_last(), name)
    }
}

fn copy_bytes(v: &Vec<u8>) -> (r: Vec<u8>)
    ensures
        r@ == v@,
{
    let r = v.clone();
    assert(r@ =~= v@);
    r
}

fn find_member(members: &Vec<Member>, name: &String) -> (r: Option<usize>)
    ensures
        r matches Some(i) ==> first_named(members_view(members@), name@) == Some(i as int) && i < members@.len(),
        r is None ==> first_named(members_view(members@), name@) is None,
{
    let ghost mv = members_view(members@);
    let mut i: usize = 0;
    while i < members.len()
        invariant
            i <= members.len(),
            mv == members_view(members@),
            first_named(mv.take(i as int), name@) is None,
        decreases members.len() - i,
    {
        assert(mv.take(i + 1).drop_last() =~= mv.take(i as int));
        if members[i].name == *name {
            proof { lemma_first_named_extends(mv, name@, i as int); }
            return Some(i);
        }
        assert(first_named(mv.take(i + 1), name@) is None);
        i = i + 1;
    }
    assert(mv.take(i as int) =~= mv);
    None
}

proof fn lemma_first_named_extends(ms: Seq<(Seq<char>, Seq<u8>)>, name: Seq<char>, i: int)
    requires
        0 <= i < ms.len(),
        ms[i].0 == name,
        first_named(ms.take(i), name) is None,
    ensures
        first_named(ms, name) == Some(i),
    decreases ms.len(),
{
    if i < ms.len() - 1 {
        assert(ms.drop_last().take(i) =~= ms.take(i));
        lemma_first_named_extends(ms.drop_last(), name, i);
    } else {
        assert(ms.drop_last() =~= ms.take(i));
    }
}

/// The text of the first member of this path, when there is one and it is UTF-8.
pub open spec fn member_text(ms: Seq<(Seq<char>, Seq<u8>)>, name: Seq<char>) -> Option<Seq<char>> {
    match first_named(ms, name) {
        Some(i) => if valid_utf8(ms[i].1) {
            Some(decode_utf8(ms[i].1))
        } else {
            None
        },
        None => None,
    }
}

/// The manifest path that the container descriptor of an archive names.
pub open spec fn manifest_path_of(ms: Seq<(Seq<char>, Seq<u8>)>) -> Option<Seq<char>> {
    match member_text(ms, CONTAINER_PATH@) {
        Some(t) => rootfile_of(xml_nodes_of(t)),
        None => None,
    }
}

/// The layout of an archive: the manifest named by its container descriptor,
/// the navigation documents that manifest lists, resolved against its
/// directory, and the image directory beside it.
pub open spec fn layout_of(ms: Seq<(Seq<char>, Seq<u8>)>) -> LayoutView {
    let path = manifest_path_of(ms);
    let dir = match path {
        Some(p) => dir_of(p),
        None => seq![],
    };
    LayoutView {
        manifest_path: path,
        manifest_dir: dir,
        asset_dir: asset_dir_for(dir),
        nav: match path {
            Some(p) => match member_text(ms, p) {
                Some(t) => nav_paths(xml_nodes_of(t), dir),
                None => seq![],
            },
            None => seq![],
        },
    }
}

/// The patched manifest of an archive, in bytes: its text patched with the
/// required keys, entries under `emoji_img` relative to the manifest; none
/// when there is no manifest member or it is not UTF-8.
pub open spec fn patch_of(ms: Seq<(Seq<char>, Seq<u8>)>, assets: Seq<(Seq<char>, Seq<u8>)>) -> Option<Seq<u8>> {
    let l = layout_of(ms);
    match l.manifest_path {
        Some(p) => match member_text(ms, p) {
            Some(t) => Some(
                encode_utf8(patched_text(t, required_keys_of(ms, l, asset_keys(assets)), ASSET_DIR_NAME@)),
            ),
            None => None,
        },
        None => None,
    }
}

fn member_text_exec(members: &Vec<Member>, name: &String) -> (r: Option<String>)
    ensures
        r is Some <==> member_text(members_view(members@), name@) is Some,
        r is Some ==> r->0@ == member_text(members_view(members@), name@)->0,
{
    match find_member(members, name) {
        Some(i) => {
            assert(members_view(members@)[i as int] == members@[i as int]@);
            decode_utf8_bytes(&members[i].data)
        },
        None => None,
    }
}

/// Finds the manifest through the container descriptor and the navigation
/// documents through the manifest, and places the image directory.
pub fn archive_layout(members: &Vec<Member>) -> (r: ArchiveLayout)
    ensures
        r@ == layout_of(members_view(members@)),
{
    let manifest_path = match member_text_exec(members, &CONTAINER_PATH.to_string()) {
        Some(text) => find_opf_path_from_container(text.as_str()),
        None => None,
    };
    let mut nav: Vec<String> = Vec::new();
    let manifest_dir = match &manifest_path {
        Some(p) => {
            let d = parent_dir(p.as_str());
            match member_text_exec(members, p) {
                Some(text) => {
                    nav = navigation_documents(text.as_str(), d.as_str());
                },
                None => {},
            }
            d
        },
        None => String::new(),
    };
    let assets = asset_dir(manifest_dir.as_str());
    let r = ArchiveLayout { manifest_path, manifest_dir, asset_dir: assets, nav };
    assert(r@.nav =~= layout_of(members_view(members@)).nav);
    r
}

/// Whether a member is a content document to rewrite.
pub fn is_rewritable_member(name: &str, layout: &ArchiveLayout) -> (r: bool)
    ensures
        r == is_rewritable(name@, layout@),
{
    if !(ends_with(name, XHTML_SUFFIX) || ends_with(name, HTML_SUFFIX)) {
        return false;
    }
    let normalized = string_of(&slashed_chars(name));
    !contains_string(&layout.nav, &normalized)
}

/// The rewrite of a member, when it is a content document to rewrite, is
/// UTF-8, and refers to at least one image once rewritten.
pub fn rewrite_member(m: &Member, layout: &ArchiveLayout, available: &Vec<String>) -> (r: Option<Rewritten>)
    ensures
        r is Some <==> doc_keys(m@, layout@, views(available@)).len() > 0,
        r matches Some(w) ==> w.text@ == rewrite_clusters(
            graphemes_of(decode_utf8(m.data@)),
            slashed(doc_image_dir(m.name@, layout@)),
            views(available@),
        ) && views(w.keys@) == doc_keys(m@, layout@, views(available@)),
{
    if !is_rewritable_member(m.name.as_str(), layout) {
        return None;
    }
    match decode_utf8_bytes(&m.data) {
        Some(text) => {
            let dir = image_dir(parent_dir(string_of(&slashed_chars(m.name.as_str())).as_str()).as_str(), layout.asset_dir.as_str());
            let w = rewrite_document(text.as_str(), dir.as_str(), available);
            if w.keys.len() == 0 {
                None
            } else {
                Some(w)
            }
        },
        None => None,
    }
}

fn add_keys_exec(out: &mut Vec<String>, ks: &Vec<String>)
    ensures
        views(final(out)@) == add_keys(views(old(out)@), views(ks@)),
{
    let ghost start = views(out@);
    let ghost kv = views(ks@);
    let mut i: usize = 0;
    while i < ks.len()
        invariant
            i <= ks.len(),
            kv == views(ks@),
            views(out@) == add_keys(start, kv.take(i as int)),
        decreases ks.len() - i,
    {
        assert(kv.take(i + 1).drop_last() =~= kv.take(i as int));
        assert(kv.take(i + 1).last() == ks@[i as int]@);
        if !contains_string(out, &ks[i]) {
            let ghost prev = views(out@);
            out.push(ks[i].clone());
            assert(views(out@) =~= prev.push(ks@[i as int]@));
        }
        i = i + 1;
    }
    assert(kv.take(ks@.len() as int) =~= kv);
}

/// The keys of the images that the rewritten members refer to, each once,
/// in order of first appearance.
pub fn required_keys(members: &Vec<Member>, layout: &ArchiveLayout, available: &Vec<String>) -> (r: Vec<String>)
    ensures
        views(r@) == required_keys_of(members_view(members@), layout@, views(available@)),
{
    let ghost mv = members_view(members@);
    let mut out: Vec<String> = Vec::new();
    let mut i: usize = 0;
    while i < members.len()
        invariant
            i <= members.len(),
            mv == members_view(members@),
            views(out@) == required_keys_of(mv.take(i as int), layout@, views(available@)),
        decreases members.len() - i,
    {
        assert(mv.take(i + 1).drop_last() =~= mv.take(i as int));
        assert(mv.take(i + 1).last() == members@[i as int]@);
        match rewrite_member(&members[i], layout, available) {
            Some(w) => {
                add_keys_exec(&mut out, &w.keys);
            },
            None => {
                assert(add_keys(views(out@), seq![]) == views(out@));
            },
        }
        i = i + 1;
    }
    assert(mv.take(members@.len() as int) =~= mv);
    out
}

/// The keys of all emoji in the members to rewrite, each once, in order of
/// first appearance: the images to look for before repackaging.
pub fn archive_emoji_keys(members: &Vec<Member>, layout: &ArchiveLayout) -> (r: Vec<String>)
    ensures
        views(r@) == archive_keys_of(members_view(members@), layout@),
{
    let ghost mv = members_view(members@);
    let mut out: Vec<String> = Vec::new();
    let mut i: usize = 0;
    while i < members.len()
        invariant
            i <= members.len(),
            mv == members_view(members@),
            views(out@) == archive_keys_of(mv.take(i as int), layout@),
        decreases members.len() - i,
    {
        assert(mv.take(i + 1).drop_last() =~= mv.take(i as int));
        assert(mv.take(i + 1).last() == members@[i as int]@);
        let m = &members[i];
        let mut ks: Vec<String> = Vec::new();
        if is_rewritable_member(m.name.as_str(), layout) {
            match decode_utf8_bytes(&m.data) {
                Some(text) => {
                    ks = document_emoji_keys(text.as_str());
                },
                None => {},
            }
        }
        assert(views(ks@) == doc_emoji_keys(m@, layout@));
        add_keys_exec(&mut out, &ks);
        i = i + 1;
    }
    assert(mv.take(members@.len() as int) =~= mv);
    out
}

/// The bytes of an optional buffer.
pub open spec fn bytes_opt(o: Option<Vec<u8>>) -> Option<Seq<u8>> {
    match o {
        Some(v) => Some(v@),
        None => None,
    }
}

fn has_member(members: &Vec<Member>, name: &String) -> (r: bool)
    ensures
        r == has_name(members_view(members@), name@),
{
    let ghost mv = members_view(members@);
    let mut i: usize = 0;
    while i < members.len()
        invariant
            i <= members.len(),
            mv == members_view(members@),
            forall|j: int| 0 <= j < i ==> mv[j].0 != name@,
        decreases members.len() - i,
    {
        if members[i].name == *name {
            assert(mv[i as int].0 == name@);
            return true;
        }
        i = i + 1;
    }
    false
}

fn find_asset(assets: &Vec<Asset>, key: &String) -> (r: Option<usize>)
    ensures
        r matches Some(i) ==> i < assets@.len() && asset_data(assets_view(assets@), key@) == Some(assets@[i as int].data@),
        r is None ==> asset_data(assets_view(assets@), key@) is None,
{
    let ghost av = assets_view(assets@);
    assert(av.skip(0) =~= av);
    let mut i: usize = 0;
    while i < assets.len()
        invariant
            i <= assets.len(),
            av == assets_view(assets@),
            asset_data(av, key@) == asset_data(av.skip(i as int), key@),
        decreases assets.len() - i,
    {
        assert(av.skip(i as int).drop_first() =~= av.skip(i + 1));
        assert(av.skip(i as int)[0] == assets@[i as int]@);
        if assets[i].key == *key {
            return Some(i);
        }
        i = i + 1;
    }
    assert(av.skip(i as int) =~= seq![]);
    None
}

/// The keys that have an image.
pub fn available_keys(assets: &Vec<Asset>) -> (r: Vec<String>)
    ensures
        views(r@) == asset_keys(assets_view(assets@)),
{
    let mut out: Vec<String> = Vec::new();
    let mut i: usize = 0;
    while i < assets.len()
        invariant
            i <= assets.len(),
            views(out@) == asset_keys(assets_view(assets@)).take(i as int),
        decreases assets.len() - i,
    {
        let ghost prev = views(out@);
        out.push(assets[i].key.clone());
        assert(views(out@) =~= prev.push(assets@[i as int].key@));
        assert(views(out@) =~= asset_keys(assets_view(assets@)).take(i + 1));
        i = i + 1;
    }
    assert(asset_keys(assets_view(assets@)).take(assets@.len() as int) =~= asset_keys(assets_view(assets@)));
    out
}

fn image_path(dir: &String, key: &String) -> (r: String)
    ensures
        r@ == asset_path(dir@, key@),
{
    let mut out: Vec<char> = Vec::new();
    push_str(&mut out, dir.as_str());
    out.push('/');
    push_str(&mut out, key.as_str());
    push_str(&mut out, PNG_SUFFIX);
    assert(out@ =~= asset_path(dir@, key@));
    string_of(&out)
}

/// Lays out the new archive: every member where it stood, the
/// manifest replaced by `manifest` when that is given, each content document
/// rewritten against the keys of `assets`; then, for each key that the
/// rewritten documents refer to, its image under the image directory, unless
/// a member of that path is already there.
pub fn assemble_archive(
    members: &Vec<Member>,
    layout: &ArchiveLayout,
    assets: &Vec<Asset>,
    manifest: &Option<Vec<u8>>,
) -> (r: Vec<Member>)
    ensures
        members_view(r@) == assembled(members_view(members@), layout@, assets_view(assets@), bytes_opt(*manifest)),
{
    let ghost mv = members_view(members@);
    let ghost av = assets_view(assets@);
    let ghost avail = asset_keys(av);
    let ghost mo = bytes_opt(*manifest);
    let available = available_keys(assets);
    let required = required_keys(members, layout, &available);
    let mut out: Vec<Member> = Vec::new();
    let mut i: usize = 0;
    while i < members.len()
        invariant
            i <= members.len(),
            mv == members_view(members@),
            views(available@) == avail,
            mo == bytes_opt(*manifest),
            members_view(out@) == mv.take(i as int).map_values(
                |m: (Seq<char>, Seq<u8>)| member_out(m, layout@, avail, mo),
            ),
        decreases members.len() - i,
    {
        let m = &members[i];
        let ghost prev = members_view(out@);
        let is_manifest = match &layout.manifest_path {
            Some(p) => *p == m.name,
            None => false,
        };
        assert(is_manifest == (layout@.manifest_path == Some(m@.0)));
        let mut done = false;
        if is_manifest {
            match manifest {
                Some(bytes) => {
                    out.push(Member { name: m.name.clone(), data: copy_bytes(bytes) });
                    assert(mo == Some(bytes@));
                    done = true;
                },
                None => {},
            }
        }
        if !done {
            match rewrite_member(m, layout, &available) {
                Some(w) => {
                    let bytes = w.text.as_str().as_bytes_vec();
                    assert(bytes@ == encode_utf8(w.text@));
                    out.push(Member { name: m.name.clone(), data: bytes });
                },
                None => {
                    out.push(Member { name: m.name.clone(), data: copy_bytes(&m.data) });
                },
            }
        }
        assert(out@.last()@ == member_out(m@, layout@, avail, mo));
        assert(members_view(out@) =~= prev.push(member_out(m@, layout@, avail, mo)));
        assert(mv.take(i + 1) =~= mv.take(i as int).push(m@));
        assert(mv.take(i + 1).map_values(|m: (Seq<char>, Seq<u8>)| member_out(m, layout@, avail, mo))
            =~= mv.take(i as int).map_values(|m: (Seq<char>, Seq<u8>)| member_out(m, layout@, avail, mo)).push(
            member_out(m@, layout@, avail, mo),
        ));
        i = i + 1;
    }
    assert(mv.take(members@.len() as int) =~= mv);
    let ghost mapped = members_view(out@);
    let ghost rq = views(required@);
    let mut j: usize = 0;
    while j < required.len()
        invariant
            j <= required.len(),
            mv == members_view(members@),
            av == assets_view(assets@),
            rq == views(required@),
            members_view(out@) == mapped + injected(rq.take(j as int), av, layout@.asset_dir, mv),
        decreases required.len() - j,
    {
        assert(rq.take(j + 1).drop_last() =~= rq.take(j as int));
        assert(rq.take(j + 1).last() == required@[j as int]@);
        let ghost prev = members_view(out@);
        match find_asset(assets, &required[j]) {
            Some(a) => {
                let path = image_path(&layout.asset_dir, &required[j]);
                if !has_member(members, &path) {
                    out.push(Member { name: path, data: copy_bytes(&assets[a].data) });
                    assert(members_view(out@) =~= prev.push((asset_path(layout@.asset_dir, rq[j as int]), av[a as int].1)));
                }
            },
            None => {},
        }
        j = j + 1;
    }
    assert(rq.take(required@.len() as int) =~= rq);
    out
}

/// The whole transformation of an archive's members, given the images that
/// could be had: finds the layout, patches the manifest with the keys that
/// the rewritten documents refer to (their entries under `emoji_img`,
/// relative to the manifest), and lays out the new archive as
/// [`assemble_archive`] does. The manifest stays as it is when it is absent,
/// not UTF-8, or malformed.
pub fn replace_emoji_in_epub_impl(members: &Vec<Member>, assets: &Vec<Asset>) -> (r: Vec<Member>)
    ensures
        members_view(r@) == assembled(
            members_view(members@),
            layout_of(members_view(members@)),
            assets_view(assets@),
            patch_of(members_view(members@), assets_view(assets@)),
        ),
{
    let layout = archive_layout(members);
    let available = available_keys(assets);
    let required = required_keys(members, &layout, &available);
    let mut manifest: Option<Vec<u8>> = None;
    match &layout.manifest_path {
        Some(p) => match member_text_exec(members, p) {
            Some(text) => {
                let patched = update_opf_manifest(text.as_str(), &required, ASSET_DIR_NAME);
                manifest = Some(patched.as_str().as_bytes_vec());
            },
            None => {},
        },
        None => {},
    }
    assert(bytes_opt(manifest) == patch_of(members_view(members@), assets_view(assets@)));
    assemble_archive(members, &layout, assets, &manifest)
}

/// Members that are not content documents, and navigation documents, keep
/// their place, path and bytes in the new archive. The one exception is the
/// manifest, when a patched manifest is given for it.
pub proof fn lemma_pass_through(
    ms: Seq<(Seq<char>, Seq<u8>)>,
    l: LayoutView,
    assets: Seq<(Seq<char>, Seq<u8>)>,
    manifest: Option<Seq<u8>>,
    i: int,
)
    requires
        0 <= i < ms.len(),
        !is_html_name(ms[i].0) || l.nav.contains(slashed(ms[i].0)),
        !(l.manifest_path == Some(ms[i].0) && manifest is Some),
    ensures
        assembled(ms, l, assets, manifest)[i] == ms[i],
{
}

proof fn lemma_used_keys_available(gs: Seq<Seq<char>>, avail: Seq<Seq<char>>, k: Seq<char>)
    requires
        used_keys(gs, avail).contains(k),
    ensures
        avail.contains(k),
    decreases gs.len(),
{
    if gs.len() > 0 {
        let prev = used_keys(gs.drop_last(), avail);
        if prev.contains(k) {
            lemma_used_keys_available(gs.drop_last(), avail, k);
        } else {
            let g = gs.last();
            assert(crate::rewrite::replaced(g, avail) && !prev.contains(crate::classify::key_of(g)));
            assert(used_keys(gs, avail) == prev.push(crate::classify::key_of(g)));
            let j = choose|j: int| 0 <= j < used_keys(gs, avail).len() && used_keys(gs, avail)[j] == k;
            assert(j == prev.len());
        }
    }
}

proof fn lemma_add_keys_contains(prev: Seq<Seq<char>>, ks: Seq<Seq<char>>, k: Seq<char>)
    requires
        prev.contains(k) || ks.contains(k),
    ensures
        add_keys(prev, ks).contains(k),
    decreases ks.len(),
{
    if ks.len() > 0 {
        let p = add_keys(prev, ks.drop_last());
        if prev.contains(k) || ks.drop_last().contains(k) {
            lemma_add_keys_contains(prev, ks.drop_last(), k);
            if !p.contains(ks.last()) {
                let j = choose|j: int| 0 <= j < p.len() && p[j] == k;
                assert(p.push(ks.last())[j] == k);
            }
        } else {
            let j = choose|j: int| 0 <= j < ks.len() && ks[j] == k;
            if j < ks.len() - 1 {
                assert(ks.drop_last()[j] == k);
            }
            assert(ks.last() == k);
            if !p.contains(ks.last()) {
                assert(p.push(ks.last())[p.len() as int] == k);
            }
        }
    }
}

proof fn lemma_required_contains(
    ms: Seq<(Seq<char>, Seq<u8>)>,
    l: LayoutView,
    avail: Seq<Seq<char>>,
    i: int,
    k: Seq<char>,
)
    requires
        0 <= i < ms.len(),
        doc_keys(ms[i], l, avail).contains(k),
    ensures
        required_keys_of(ms, l, avail).contains(k),
    decreases ms.len(),
{
    if i == ms.len() - 1 {
        lemma_add_keys_contains(required_keys_of(ms.drop_last(), l, avail), doc_keys(ms.last(), l, avail), k);
    } else {
        assert(ms.drop_last()[i] == ms[i]);
        lemma_required_contains(ms.drop_last(), l, avail, i, k);
        lemma_add_keys_contains(required_keys_of(ms.drop_last(), l, avail), doc_keys(ms.last(), l, avail), k);
    }
}

proof fn lemma_asset_found(assets: Seq<(Seq<char>, Seq<u8>)>, k: Seq<char>)
    requires
        asset_keys(assets).contains(k),
    ensures
        asset_data(assets, k) is Some,
    decreases assets.len(),
{
    if assets[0].0 != k {
        let j = choose|j: int| 0 <= j < asset_keys(assets).len() && asset_keys(assets)[j] == k;
        assert(j > 0);
        assert(asset_keys(assets.drop_first())[j - 1] == k);
        lemma_asset_found(assets.drop_first(), k);
    }
}

proof fn lemma_injected_has(
    keys: Seq<Seq<char>>,
    assets: Seq<(Seq<char>, Seq<u8>)>,
    dir: Seq<char>,
    ms: Seq<(Seq<char>, Seq<u8>)>,
    k: Seq<char>,
)
    requires
        keys.contains(k),
        asset_data(assets, k) is Some,
        !has_name(ms, asset_path(dir, k)),
    ensures
        exists|j: int|
            0 <= j < injected(keys, assets, dir, ms).len() && (#[trigger] injected(keys, assets, dir, ms)[j]).0
                == asset_path(dir, k),
    decreases keys.len(),
{
    let prev = injected(keys.drop_last(), assets, dir, ms);
    let j = choose|j: int| 0 <= j < keys.len() && keys[j] == k;
    if j == keys.len() - 1 {
        let r = injected(keys, assets, dir, ms);
        assert(r[prev.len() as int].0 == asset_path(dir, k));
    } else {
        assert(keys.drop_last()[j] == k);
        lemma_injected_has(keys.drop_last(), assets, dir, ms, k);
        let t = choose|t: int| 0 <= t < prev.len() && (#[trigger] prev[t]).0 == asset_path(dir, k);
        let r = injected(keys, assets, dir, ms);
        assert(r[t] == prev[t]);
    }
}

/// Every image that a rewritten document refers to is backed: its key is
/// among the required keys (those the manifest is patched with) and the new
/// archive holds a member at the image's path under the image directory.
/// An emoji whose image could not be had is never referred to: it stays
/// text.
pub proof fn lemma_references_backed(
    ms: Seq<(Seq<char>, Seq<u8>)>,
    l: LayoutView,
    assets: Seq<(Seq<char>, Seq<u8>)>,
    manifest: Option<Seq<u8>>,
    i: int,
    k: Seq<char>,
)
    requires
        0 <= i < ms.len(),
        doc_keys(ms[i], l, asset_keys(assets)).contains(k),
    ensures
        required_keys_of(ms, l, asset_keys(assets)).contains(k),
        asset_keys(assets).contains(k),
        exists|j: int|
            0 <= j < assembled(ms, l, assets, manifest).len() && (#[trigger] assembled(ms, l, assets, manifest)[j]).0
                == asset_path(l.asset_dir, k),
{
    let avail = asset_keys(assets);
    let out = assembled(ms, l, assets, manifest);
    let req = required_keys_of(ms, l, avail);
    lemma_required_contains(ms, l, avail, i, k);
    lemma_used_keys_available(graphemes_of(decode_utf8(ms[i].1)), avail, k);
    lemma_asset_found(assets, k);
    let path = asset_path(l.asset_dir, k);
    if has_name(ms, path) {
        let t = choose|t: int| 0 <= t < ms.len() && (#[trigger] ms[t]).0 == path;
        assert(out[t].0 == path);
    } else {
        lemma_injected_has(req, assets, l.asset_dir, ms, k);
        let inj = injected(req, assets, l.asset_dir, ms);
        let t = choose|t: int| 0 <= t < inj.len() && (#[trigger] inj[t]).0 == path;
        assert(out[ms.len() + t] == inj[t]);
    }
}

/// The layout of an archive without a container descriptor: no manifest, no
/// navigation documents, images in `emoji_img` at the root.
pub open spec fn default_layout() -> LayoutView {
    LayoutView { manifest_path: None, manifest_dir: seq![], asset_dir: ASSET_DIR_NAME@, nav: seq![] }
}

/// Without a container descriptor the transformation still rewrites the
/// content documents, against images in `emoji_img` at the root; no manifest
/// is touched, and the images are added there.
pub proof fn lemma_no_container(ms: Seq<(Seq<char>, Seq<u8>)>, assets: Seq<(Seq<char>, Seq<u8>)>)
    requires
        first_named(ms, CONTAINER_PATH@) is None,
    ensures
        layout_of(ms) == default_layout(),
        patch_of(ms, assets) is None,
        assembled(ms, layout_of(ms), assets, patch_of(ms, assets)) == assembled(ms, default_layout(), assets, None),
{
    assert(layout_of(ms).nav =~= default_layout().nav);
}

/// Every image that a rewritten document refers to has an entry in the
/// archive's patched manifest (before it is written out): its key is among
/// the keys the manifest is patched with, so the patched nodes hold the entry
/// `emoji_img/<key>.png`, provided the manifest has a closing `manifest` tag
/// for the patch to reach.
pub proof fn lemma_references_listed(
    ms: Seq<(Seq<char>, Seq<u8>)>,
    assets: Seq<(Seq<char>, Seq<u8>)>,
    i: int,
    k: Seq<char>,
    text: Seq<char>,
)
    requires
        0 <= i < ms.len(),
        doc_keys(ms[i], layout_of(ms), asset_keys(assets)).contains(k),
        layout_of(ms).manifest_path matches Some(p) && member_text(ms, p) == Some(text),
        reaches_end(xml_nodes_of(text), false, false, ASSET_DIR_NAME@),
    ensures
        patched_nodes(
            xml_nodes_of(text),
            required_keys_of(ms, layout_of(ms), asset_keys(assets)),
            ASSET_DIR_NAME@,
        ).contains(item_view(k, ASSET_DIR_NAME@)),
{
    lemma_required_contains(ms, layout_of(ms), asset_keys(assets), i, k);
    lemma_patch_lists_keys(
        xml_nodes_of(text),
        required_keys_of(ms, layout_of(ms), asset_keys(assets)),
        ASSET_DIR_NAME@,
        k,
    );
}

} // verus!
