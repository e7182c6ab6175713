//! XML documents as flat lists of nodes. `quick-xml` reads a text into nodes
//! and writes nodes back as indented text. A node holds plain values only:
//! its kind, its tag name, its attributes, and its content as `quick-xml`
//! holds it (the text between the markup delimiters), which is what is
//! written back.

use vstd::prelude::*;
use quick_xml::events::{BytesCData, BytesEnd, BytesStart, BytesText, Event};
use quick_xml::{Reader, Writer};
use crate::text::{push_str, string_of, views};

verus! {

/// The kind of markup a node is.
#[derive(Clone, Copy, Debug, PartialEq, Eq, Structural)]
pub enum XmlKind {
    /// An opening tag `<a ...>`.
    Start,
    /// A closing tag `</a>`.
    End,
    /// A self-closing tag `<a .../>`.
    Empty,
    /// Character data, escaped.
    Text,
    /// `<![CDATA[...]]>`.
    CData,
    /// `<!--...-->`.
    Comment,
    /// The XML declaration `<?xml ...?>`.
    Decl,
    /// A processing instruction `<?...?>`.
    PI,
    /// `<!DOCTYPE ...>`.
    DocType,
}

/// One node of a document.
pub struct XmlNode {
    pub kind: XmlKind,
    /// The tag name of a tag; empty for other nodes.
    pub name: String,
    /// The well-formed attributes of a `Start` or `Empty` tag: raw (escaped)
    /// values, in order.
    pub attrs: Vec<(String, String)>,
    /// What stands between the delimiters: for a tag its name and
    /// attributes, for other nodes their text.
    pub content: String,
}

/// The plain values of a node.
pub struct NodeView {
    pub kind: XmlKind,
    pub name: Seq<char>,
    pub attrs: Seq<(Seq<char>, Seq<char>)>,
    pub content: Seq<char>,
}

/// The texts of a list of attributes.
pub open spec fn attrs_view(a: Seq<(String, String)>) -> Seq<(Seq<char>, Seq<char>)> {
    a.map_values(|p: (String, String)| (p.0@, p.1@))
}

impl View for XmlNode {
    type V = NodeView;

    open spec fn view(&self) -> NodeView {
        NodeView { kind: self.kind, name: self.name@, attrs: attrs_view(self.attrs@), content: self.content@ }
    }
}

/// The plain values of a list of nodes.
pub open spec fn nodes_view(v: Seq<XmlNode>) -> Seq<NodeView> {
    v.map_values(|n: XmlNode| n@)
}

/// What `quick-xml` reads from a text, whitespace around text trimmed: the
/// nodes before the end or the first error, and whether the end was reached.
pub uninterp spec fn xml_read_of(s: Seq<char>) -> (Seq<NodeView>, bool);

/// What `quick-xml`'s writer, indenting by two spaces, writes for a list of
/// nodes, when it succeeds and the result is UTF-8.
pub uninterp spec fn xml_text_of(nodes: Seq<NodeView>) -> Option<Seq<char>>;

/// The nodes read from a text.
pub open spec fn xml_nodes_of(s: Seq<char>) -> Seq<NodeView> {
    xml_read_of(s).0
}

/// Whether a text reads to its end without an error.
pub open spec fn xml_complete(s: Seq<char>) -> bool {
    xml_read_of(s).1
}

/// Relies on `Reader::from_str`, `Reader::trim_text(true)` and
/// `Reader::read_event`, called until the end or an error: the kind of each
/// event (a declaration as `Decl`), and whether the end was reached.
#[verifier::external_body]
fn read_kinds(s: &str) -> (r: (Vec<XmlKind>, bool))
    ensures
        r.0@ == xml_read_of(s@).0.map_values(|n: NodeView| n.kind),
        r.1 == xml_read_of(s@).1,
{
    let mut rd = Reader::from_str(s);
    rd.trim_text(true);
    let mut out = Vec::new();
    loop {
        match rd.read_event() {
            Ok(Event::Eof) => return (out, true),
            Err(_) => return (out, false),
            Ok(e) => out.push(match e {
                Event::Start(_) => XmlKind::Start, Event::End(_) => XmlKind::End, Event::Empty(_) => XmlKind::Empty,
                Event::Text(_) => XmlKind::Text, Event::CData(_) => XmlKind::CData, Event::Comment(_) => XmlKind::Comment,
                Event::Decl(_) => XmlKind::Decl, Event::PI(_) => XmlKind::PI, _ => XmlKind::DocType,
            }),
        }
    }
}

/// Relies on the same reading: the tag name of each event
/// (`BytesStart::name`, `BytesEnd::name`), decoded lossily; empty for others.
#[verifier::external_body]
fn read_names(s: &str) -> (r: Vec<String>)
    ensures
        views(r@) == xml_read_of(s@).0.map_values(|n: NodeView| n.name),
{
    let mut rd = Reader::from_str(s);
    rd.trim_text(true);
    let mut out = Vec::new();
    loop {
        out.push(match rd.read_event() {
            Ok(Event::Start(t)) | Ok(Event::Empty(t)) => String::from_utf8_lossy(t.name().as_ref()).into_owned(),
            Ok(Event::End(t)) => String::from_utf8_lossy(t.name().as_ref()).into_owned(),
            Ok(Event::Eof) | Err(_) => return out,
            Ok(_) => String::new(),
        });
    }
}

/// Relies on the same reading: the well-formed attributes of each tag
/// (`BytesStart::attributes`), raw key and value decoded lossily; none for others.
#[verifier::external_body]
fn read_attributes(s: &str) -> (r: Vec<Vec<(String, String)>>)
    ensures
        r@.map_values(|a: Vec<(String, String)>| attrs_view(a@)) == xml_read_of(s@).0.map_values(
            |n: NodeView| n.attrs,
        ),
{
    let lossy = |b: &[u8]| String::from_utf8_lossy(b).into_owned();
    let mut rd = Reader::from_str(s);
    rd.trim_text(true);
    let mut out = Vec::new();
    loop {
        out.push(match rd.read_event() {
            Ok(Event::Start(t)) | Ok(Event::Empty(t)) =>
                t.attributes().flatten().map(|a| (lossy(a.key.as_ref()), lossy(&a.value))).collect(),
            Ok(Event::Eof) | Err(_) => return out,
            Ok(_) => Vec::new(),
        });
    }
}

/// Relies on the same reading: the content bytes of each event (its `Deref`
/// to `[u8]`), decoded lossily.
#[verifier::external_body]
fn read_contents(s: &str) -> (r: Vec<String>)
    ensures
        views(r@) == xml_read_of(s@).0.map_values(|n: NodeView| n.content),
{
    let mut rd = Reader::from_str(s);
    rd.trim_text(true);
    let mut out = Vec::new();
    loop {
        match rd.read_event() {
            Ok(Event::Eof) | Err(_) => return out,
            Ok(e) => out.push(String::from_utf8_lossy(&e).into_owned()),
        }
    }
}

/// Relies on `Writer::new_with_indent(_, b' ', 2)`, `Writer::write_event` for
/// the event of each node's kind made from its content
/// (`BytesStart::from_content`, `BytesEnd::new`, `BytesCData::new`,
/// `BytesText::from_escaped`; a declaration is written as `<?...?>` like an
/// instruction), `Writer::into_inner` and `String::from_utf8`.
#[verifier::external_body]
fn write_xml(nodes: &Vec<XmlNode>) -> (r: Option<String>)
    ensures
        r matches Some(t) ==> xml_text_of(nodes_view(nodes@)) == Some(t@),
        r is None ==> xml_text_of(nodes_view(nodes@)) is None,
{
    let mut w = Writer::new_with_indent(Vec::new(), b' ', 2);
    for n in nodes {
        let c = n.content.as_str();
        let (s, t) = (BytesStart::from_content(c, n.name.len()), BytesText::from_escaped(c));
        w.write_event(match n.kind {
            XmlKind::Start => Event::Start(s),
            XmlKind::Empty => Event::Empty(s),
            XmlKind::End => Event::End(BytesEnd::new(c)),
            XmlKind::CData => Event::CData(BytesCData::new(c)),
            XmlKind::Text => Event::Text(t), XmlKind::Comment => Event::Comment(t),
            XmlKind::Decl | XmlKind::PI => Event::PI(t),
            XmlKind::DocType => Event::DocType(t),
        }).ok()?;
    }
    String::from_utf8(w.into_inner()).ok()
}

/// A document read into nodes.
pub struct XmlDoc {
    /// The nodes read, in document order.
    pub nodes: Vec<XmlNode>,
    /// Whether the whole input was read; false when the markup is malformed.
    pub complete: bool,
}

/// Reads `s` into nodes. `complete` tells whether the end of the input was
/// reached without an error; the nodes are those read before it stopped.
pub fn parse_xml(s: &str) -> (r: XmlDoc)
    ensures
        nodes_view(r.nodes@) == xml_nodes_of(s@),
        r.complete == xml_complete(s@),
{
    let (mut kinds, complete) = read_kinds(s);
    let mut names = read_names(s);
    let mut attrs = read_attributes(s);
    let mut contents = read_contents(s);
    let ghost x = xml_nodes_of(s@);
    assert(kinds@.len() == x.len());
    assert(views(names@).len() == x.len());
    assert(contents@.len() == views(contents@).len());
    assert(attrs@.len() == attrs@.map_values(|a: Vec<(String, String)>| attrs_view(a@)).len());
    assert forall|j: int| 0 <= j < names@.len() implies #[trigger] names@[j]@ == x[j].name by {
        assert(views(names@)[j] == names@[j]@);
        assert(x.map_values(|n: NodeView| n.name)[j] == x[j].name);
    }
    assert forall|j: int| 0 <= j < attrs@.len() implies attrs_view(#[trigger] attrs@[j]@) == x[j].attrs by {
        assert(attrs@.map_values(|a: Vec<(String, String)>| attrs_view(a@))[j] == attrs_view(attrs@[j]@));
        assert(x.map_values(|n: NodeView| n.attrs)[j] == x[j].attrs);
    }
    assert forall|j: int| 0 <= j < contents@.len() implies #[trigger] contents@[j]@ == x[j].content by {
        assert(views(contents@)[j] == contents@[j]@);
        assert(x.map_values(|n: NodeView| n.content)[j] == x[j].content);
    }
    assert forall|j: int| 0 <= j < kinds@.len() implies #[trigger] kinds@[j] == x[j].kind by {
        assert(x.map_values(|n: NodeView| n.kind)[j] == x[j].kind);
    }
    let total: usize = kinds.len();
    let mut nodes: Vec<XmlNode> = Vec::new();
    let mut i: usize = 0;
    while kinds.len() > 0
        invariant
            x.len() == total,
            i + kinds@.len() == x.len(),
            names@.len() == kinds@.len(),
            attrs@.len() == kinds@.len(),
            contents@.len() == kinds@.len(),
            nodes_view(nodes@) == x.take(i as int),
            forall|j: int| 0 <= j < kinds@.len() ==> #[trigger] kinds@[j] == x[i + j].kind,
            forall|j: int| 0 <= j < names@.len() ==> #[trigger] names@[j]@ == x[i + j].name,
            forall|j: int| 0 <= j < attrs@.len() ==> attrs_view(#[trigger] attrs@[j]@) == x[i + j].attrs,
            forall|j: int| 0 <= j < contents@.len() ==> #[trigger] contents@[j]@ == x[i + j].content,
        decreases kinds@.len(),
    {
        proof {
            assert(kinds@[0] == x[i as int].kind);
            assert(names@[0]@ == x[i as int].name);
            assert(attrs_view(attrs@[0]@) == x[i as int].attrs);
            assert(contents@[0]@ == x[i as int].content);
        }
        let kind = kinds.remove(0);
        let name = names.remove(0);
        let a = attrs.remove(0);
        let content = contents.remove(0);
        let ghost before = nodes_view(nodes@);
        nodes.push(XmlNode { kind, name, attrs: a, content });
        assert(nodes_view(nodes@) =~= before.push(x[i as int]));
        assert(x.take(i + 1) =~= x.take(i as int).push(x[i as int]));
        i = i + 1;
    }
    assert(x.take(i as int) =~= x);
    XmlDoc { nodes, complete }
}

/// Writes the nodes back as indented text; `None` when writing fails or the
/// output is not UTF-8.
pub fn render_xml(nodes: &Vec<XmlNode>) -> (r: Option<String>)
    ensures
        r matches Some(t) ==> xml_text_of(nodes_view(nodes@)) == Some(t@),
        r is None ==> xml_text_of(nodes_view(nodes@)) is None,
{
    write_xml(nodes)
}

/// The content of a tag: its name, then ` key="value"` for each attribute.
pub open spec fn tag_content(name: Seq<char>, attrs: Seq<(Seq<char>, Seq<char>)>) -> Seq<char>
    decreases attrs.len(),
{
    if attrs.len() == 0 {
        name
    } else {
        let a = attrs.last();
        tag_content(name, attrs.drop_last()) + seq![' '] + a.0 + seq!['=', '"'] + a.1 + seq!['"']
    }
}

/// A self-closing tag with the given name and attributes, whose values are
/// given escaped.
pub fn empty_node(name: &str, attrs: Vec<(String, String)>) -> (r: XmlNode)
    ensures
        r@ == (NodeView {
            kind: XmlKind::Empty,
            name: name@,
            attrs: attrs_view(attrs@),
            content: tag_content(name@, attrs_view(attrs@)),
        }),
{
    let ghost av = attrs_view(attrs@);
    let mut content: Vec<char> = Vec::new();
    push_str(&mut content, name);
    let mut i: usize = 0;
    while i < attrs.len()
        invariant
            i <= attrs.len(),
            av == attrs_view(attrs@),
            content@ == tag_content(name@, av.take(i as int)),
        decreases attrs.len() - i,
    {
        assert(av.take(i + 1).drop_last() =~= av.take(i as int));
        assert(av.take(i + 1).last() == (attrs@[i as int].0@, attrs@[i as int].1@));
        let ghost before = content@;
        content.push(' ');
        push_str(&mut content, attrs[i].0.as_str());
        content.push('=');
        content.push('"');
        push_str(&mut content, attrs[i].1.as_str());
        content.push('"');
        assert(content@ =~= tag_content(name@, av.take(i + 1)));
        i = i + 1;
    }
    assert(av.take(attrs@.len() as int) =~= av);
    XmlNode { kind: XmlKind::Empty, name: name.to_string(), attrs, content: string_of(&content) }
}

} // verus!
