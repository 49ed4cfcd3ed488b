use vstd::prelude::*;
use vstd::utf8::encode_utf8;
use vstd::string::StrSliceExecFns;
use crate::model::{Element, Node, Document, DocModel, XmlVersion, node_of, nodes_of, doc_of, lemma_nodes_of, attrs_view};

verus! {

/// How one character of character data is written.
pub open spec fn escape_text_char(c: char) -> Seq<char> {
    if c == '<' {
        "&lt;"@
    } else if c == '&' {
        "&amp;"@
    } else {
        seq![c]
    }
}

/// How one character of an attribute value is written.
pub open spec fn escape_attr_char(c: char) -> Seq<char> {
    if c == '"' {
        "&quot;"@
    } else {
        escape_text_char(c)
    }
}

/// Character data with `<` and `&` replaced by their entity references.
pub open spec fn escape_text(s: Seq<char>) -> Seq<char>
    decreases s.len(),
{
    if s.len() == 0 {
        Seq::empty()
    } else {
        escape_text(s.drop_last()) + escape_text_char(s.last())
    }
}

/// An attribute value with `<`, `&` and `"` replaced by their entity references.
pub open spec fn escape_attr(s: Seq<char>) -> Seq<char>
    decreases s.len(),
{
    if s.len() == 0 {
        Seq::empty()
    } else {
        escape_attr(s.drop_last()) + escape_attr_char(s.last())
    }
}

/// `prefix:name`, or `name` without a prefix.
pub open spec fn qualified_name(prefix: Option<Seq<char>>, name: Seq<char>) -> Seq<char> {
    match prefix {
        Some(p) => p + ":"@ + name,
        None => name,
    }
}

/// ` k1="v1" k2="v2" ...`, in the order of the sequence.
pub open spec fn attrs_text(a: Seq<(Seq<char>, Seq<char>)>) -> Seq<char>
    decreases a.len(),
{
    if a.len() == 0 {
        Seq::empty()
    } else {
        attrs_text(a.drop_last()) + " "@ + a.last().0 + "=\""@ + escape_attr(a.last().1) + "\""@
    }
}

/// `indent` repeated `n` times.
pub open spec fn repeat(indent: Seq<char>, n: nat) -> Seq<char>
    decreases n,
{
    if n == 0 {
        Seq::empty()
    } else {
        repeat(indent, (n - 1) as nat) + indent
    }
}

/// Formatting configuration of the serializer.
pub ghost struct Style {
    pub pretty: bool,
    pub indent: Seq<char>,
}

/// `<prefix:name attr="value" ...` without the closing bracket.
pub open spec fn open_tag(n: Node) -> Seq<char> {
    "<"@ + qualified_name(n.prefix, n.name) + attrs_text(n.attributes)
}

/// `</prefix:name>`
pub open spec fn close_tag(n: Node) -> Seq<char> {
    "</"@ + qualified_name(n.prefix, n.name) + ">"@
}

/// The escaped character data followed by the CDATA section, if any.
pub open spec fn contents_text(n: Node) -> Seq<char> {
    let t = match n.text {
        Some(t) => escape_text(t),
        None => Seq::empty(),
    };
    let c = match n.cdata {
        Some(c) => "<![CDATA["@ + c + "]]>"@,
        None => Seq::empty(),
    };
    t + c
}

/// Whether a node is written in the short form `<name ... />`.
pub open spec fn is_bare(n: Node) -> bool {
    n.children.len() == 0 && n.text is None && n.cdata is None
}

/// The text of node `n` at nesting depth `depth`.
pub open spec fn render(n: Node, depth: nat, st: Style) -> Seq<char>
    decreases n, 1int,
{
    if is_bare(n) {
        open_tag(n) + " />"@
    } else {
        open_tag(n) + ">"@ + contents_text(n) + render_children(n.children, depth + 1, st)
            + (if st.pretty && n.children.len() > 0 { "\n"@ + repeat(st.indent, depth) } else { Seq::empty() })
            + close_tag(n)
    }
}

/// The children `s` in order, each at nesting depth `depth`.
pub open spec fn render_children(s: Seq<Node>, depth: nat, st: Style) -> Seq<char>
    decreases s, 0int,
{
    if s.len() == 0 {
        Seq::empty()
    } else {
        render_children(s.drop_last(), depth, st)
            + (if st.pretty { "\n"@ + repeat(st.indent, depth) } else { Seq::empty() })
            + render(s.last(), depth, st)
    }
}

/// Appends `s` to `out` as character data.
fn push_text(out: &mut String, s: &str)
    ensures
        final(out)@ == old(out)@ + escape_text(s@),
{
    let n = s.unicode_len();
    let mut i: usize = 0;
    while i < n
        invariant
            n == s@.len(),
            i <= n,
            out@ == old(out)@ + escape_text(s@.subrange(0, i as int)),
        decreases n - i,
    {
        let c = s.get_char(i);
        proof {
            assert(s@.subrange(0, i + 1).drop_last() =~= s@.subrange(0, i as int));
        }
        if c == '<' {
            out.append("&lt;");
        } else if c == '&' {
            out.append("&amp;");
        } else {
            let one = s.substring_char(i, i + 1);
            proof {
                assert(one@ =~= seq![c]);
            }
            out.append(one);
        }
        i = i + 1;
    }
    proof {
        assert(s@.subrange(0, n as int) =~= s@);
    }
}

/// Appends `s` to `out` as an attribute value.
fn push_attr_value(out: &mut String, s: &str)
    ensures
        final(out)@ == old(out)@ + escape_attr(s@),
{
    let n = s.unicode_len();
    let mut i: usize = 0;
    while i < n
        invariant
            n == s@.len(),
            i <= n,
            out@ == old(out)@ + escape_attr(s@.subrange(0, i as int)),
        decreases n - i,
    {
        let c = s.get_char(i);
        proof {
            assert(s@.subrange(0, i + 1).drop_last() =~= s@.subrange(0, i as int));
        }
        if c == '"' {
            out.append("&quot;");
        } else if c == '<' {
            out.append("&lt;");
        } else if c == '&' {
            out.append("&amp;");
        } else {
            let one = s.substring_char(i, i + 1);
            proof {
                assert(one@ =~= seq![c]);
            }
            out.append(one);
        }
        i = i + 1;
    }
    proof {
        assert(s@.subrange(0, n as int) =~= s@);
    }
}

/// Appends the qualified name of a tag.
fn push_qualified_name(out: &mut String, prefix: &Option<String>, name: &String)
    ensures
        final(out)@ == old(out)@ + qualified_name(crate::model::opt_view(*prefix), name@),
{
    match prefix {
        Some(p) => {
            out.append(p.as_str());
            out.append(":");
        },
        None => {},
    }
    out.append(name.as_str());
}

/// Appends the attribute list of a tag.
fn push_attributes(out: &mut String, attrs: &Vec<(String, String)>)
    ensures
        final(out)@ == old(out)@ + attrs_text(attrs_view(attrs@)),
{
    let mut i: usize = 0;
    while i < attrs.len()
        invariant
            i <= attrs@.len(),
            out@ == old(out)@ + attrs_text(attrs_view(attrs@).subrange(0, i as int)),
        decreases attrs@.len() - i,
    {
        proof {
            assert(attrs_view(attrs@).subrange(0, i + 1).drop_last() =~= attrs_view(attrs@).subrange(0, i as int));
        }
        out.append(" ");
        out.append(attrs[i].0.as_str());
        out.append("=\"");
        push_attr_value(out, attrs[i].1.as_str());
        out.append("\"");
        i = i + 1;
    }
    proof {
        assert(attrs_view(attrs@).subrange(0, attrs@.len() as int) =~= attrs_view(attrs@));
    }
}

/// Appends the children `children`, each at nesting depth `depth`, where
/// `pad` is the indentation of that depth.
fn push_children(out: &mut String, children: &Vec<Element>, depth: Ghost<nat>, pad: &String, pretty: bool, indent: &str)
    requires
        pad@ == repeat(indent@, depth@),
    ensures
        final(out)@ == old(out)@ + render_children(nodes_of(children@), depth@, Style { pretty, indent: indent@ }),
    decreases children, 0int,
{
    let ghost st = Style { pretty, indent: indent@ };
    let ghost ns = nodes_of(children@);
    proof {
        lemma_nodes_of(children@);
    }
    proof {
        
        assert(ns.subrange(0, 0) =~= Seq::<Node>::empty());
    }
    let mut i: usize = 0;
    while i < children.len()
        invariant
            i <= children@.len(),
            ns == nodes_of(children@),
            ns.len() == children@.len(),
            forall|j: int| 0 <= j < children@.len() ==> #[trigger] ns[j] == node_of(children@[j]),
            pad@ == repeat(indent@, depth@),
            st == (Style { pretty, indent: indent@ }),
            out@ == old(out)@ + render_children(ns.subrange(0, i as int), depth@, st),
        decreases children@.len() - i,
    {
        let ghost before = out@;
        if pretty {
            out.append("\n");
            out.append(pad.as_str());
        }
        push_element(out, &children[i], depth, pad, pretty, indent);
        proof {
            let piece = if pretty { "\n"@ + repeat(indent@, depth@) } else { Seq::empty() };
            assert(out@ =~= before + piece + render(ns[i as int], depth@, st));
            let prev = ns.subrange(0, i as int);
            let next = ns.subrange(0, i + 1);
            assert(next.drop_last() =~= prev);
            assert(next.last() == ns[i as int]);
            
            assert(render_children(next, depth@, st) == render_children(prev, depth@, st) + piece + render(ns[i as int], depth@, st));
            assert(out@ =~= old(out)@ + render_children(next, depth@, st));
        }
        i = i + 1;
    }
    proof {
        assert(ns.subrange(0, children@.len() as int) =~= ns);
    }
}

/// Appends the opening tag of `e` without its closing bracket.
fn push_open_tag(out: &mut String, e: &Element)
    ensures
        final(out)@ == old(out)@ + open_tag(node_of(*e)),
{
    out.append("<");
    push_qualified_name(out, &e.prefix, &e.name);
    push_attributes(out, &e.attributes);
    assert(out@ =~= old(out)@ + open_tag(node_of(*e)));
}

/// Appends the closing tag of `e`.
fn push_close_tag(out: &mut String, e: &Element)
    ensures
        final(out)@ == old(out)@ + close_tag(node_of(*e)),
{
    out.append("</");
    push_qualified_name(out, &e.prefix, &e.name);
    out.append(">");
    assert(out@ =~= old(out)@ + close_tag(node_of(*e)));
}

/// Appends the character data and the CDATA section of `e`.
fn push_contents(out: &mut String, e: &Element)
    ensures
        final(out)@ == old(out)@ + contents_text(node_of(*e)),
{
    match &e.text {
        Some(t) => push_text(out, t.as_str()),
        None => {},
    }
    let ghost t1 = out@;
    match &e.cdata {
        Some(c) => {
            out.append("<![CDATA[");
            out.append(c.as_str());
            out.append("]]>");
        },
        None => {},
    }
    assert(out@ =~= old(out)@ + contents_text(node_of(*e)));
}

/// Appends the text of `e` at nesting depth `depth`, where `pad` is the
/// indentation of that depth.
fn push_element(out: &mut String, e: &Element, depth: Ghost<nat>, pad: &String, pretty: bool, indent: &str)
    requires
        pad@ == repeat(indent@, depth@),
    ensures
        final(out)@ == old(out)@ + render(node_of(*e), depth@, Style { pretty, indent: indent@ }),
    decreases e, 1int,
{
    let ghost st = Style { pretty, indent: indent@ };
    let ghost n = node_of(*e);
    proof {
        lemma_nodes_of(e.children@);
    }
    push_open_tag(out, e);
    let ghost t0 = out@;
    if e.children.len() == 0 && e.text.is_none() && e.cdata.is_none() {
        out.append(" />");
        assert(is_bare(n));
        assert(out@ =~= old(out)@ + render(n, depth@, st));
        return;
    }
    out.append(">");
    push_contents(out, e);
    let ghost t2 = out@;
    let mut child_pad = pad.clone();
    child_pad.append(indent);
    push_children(out, &e.children, Ghost(depth@ + 1), &child_pad, pretty, indent);
    let ghost t3 = out@;
    if pretty && e.children.len() > 0 {
        out.append("\n");
        out.append(pad.as_str());
    }
    let ghost t4 = out@;
    push_close_tag(out, e);
    proof {
        let cl = if st.pretty && n.children.len() > 0 { "\n"@ + repeat(st.indent, depth@) } else { Seq::<char>::empty() };
        assert(!is_bare(n));
        assert(t4 =~= t3 + cl);
        assert(out@ =~= old(out)@ + render(n, depth@, st)) by {
            assert(t2 =~= t0 + ">"@ + contents_text(n));
            assert(out@ =~= t4 + close_tag(n));
        }
    }
}

/// The version number as written in the declaration.
pub open spec fn version_text(v: XmlVersion) -> Seq<char> {
    match v {
        XmlVersion::Version10 => "1.0"@,
        XmlVersion::Version11 => "1.1"@,
    }
}

/// `<?xml version="..." encoding="..."?>`
pub open spec fn declaration(v: XmlVersion, encoding: Seq<char>) -> Seq<char> {
    "<?xml version=\""@ + version_text(v) + "\" encoding=\""@ + encoding + "\"?>"@
}

/// The text of a whole document: the declaration if asked for, then the
/// root at depth zero; in pretty mode a newline separates the two.
pub open spec fn document_text(d: DocModel, decl: bool, st: Style) -> Seq<char> {
    (if decl {
        declaration(d.version, d.encoding) + (if st.pretty && d.root is Some { "\n"@ } else { Seq::empty() })
    } else {
        Seq::empty()
    }) + match d.root {
        Some(r) => render(r, 0, st),
        None => Seq::empty(),
    }
}

/// The indentation used by `to_string`.
pub open spec fn default_indent() -> Seq<char> {
    "  "@
}

/// Error of a sink that refused output; a `Vec` sink never does.
#[derive(Debug, Clone, Copy, PartialEq, Eq, Structural)]
pub enum WriteError {
    SinkRefused,
}

impl Element {
    /// The element's text with the given indentation (used only when `indent` is true).
    pub fn to_string_with(&self, indent_str: &str, indent: bool) -> (r: String)
        ensures
            r@ == render(node_of(*self), 0, Style { pretty: indent, indent: indent_str@ }),
    {
        let mut out = String::new();
        let pad = String::new();
        push_element(&mut out, self, Ghost(0), &pad, indent, indent_str);
        out
    }

    /// The element's text, indented by two spaces per level.
    pub fn to_string(&self) -> (r: String)
        ensures
            r@ == render(node_of(*self), 0, Style { pretty: true, indent: default_indent() }),
    {
        self.to_string_with("  ", true)
    }

    /// Appends the element's text, UTF-8 encoded, to `w`.
    pub fn write_with(&self, w: &mut Vec<u8>, indent_str: &str, indent: bool) -> (r: Result<(), WriteError>)
        ensures
            r is Ok,
            final(w)@ == old(w)@ + encode_utf8(render(node_of(*self), 0, Style { pretty: indent, indent: indent_str@ })),
    {
        let s = self.to_string_with(indent_str, indent);
        let mut bytes = s.as_str().as_bytes_vec();
        w.append(&mut bytes);
        Ok(())
    }
}

impl Document {
    /// The document's text: the declaration if `document_decl`, then the root.
    pub fn to_string_with(&self, document_decl: bool, indent_str: &str, indent: bool) -> (r: String)
        ensures
            r@ == document_text(doc_of(*self), document_decl, Style { pretty: indent, indent: indent_str@ }),
    {
        let mut out = String::new();
        if document_decl {
            out.append("<?xml version=\"");
            match self.version {
                XmlVersion::Version10 => out.append("1.0"),
                XmlVersion::Version11 => out.append("1.1"),
            }
            out.append("\" encoding=\"");
            out.append(self.encoding.as_str());
            out.append("\"?>");
            if indent && self.root.is_some() {
                out.append("\n");
            }
        }
        let ghost head = out@;
        match &self.root {
            Some(r) => {
                let pad = String::new();
                push_element(&mut out, r, Ghost(0), &pad, indent, indent_str);
            },
            None => {},
        }
        proof {
            let st = Style { pretty: indent, indent: indent_str@ };
            let d = doc_of(*self);
            if document_decl {
                assert(head =~= declaration(d.version, d.encoding) + (if st.pretty && d.root is Some { "\n"@ } else { Seq::empty() }));
            } else {
                assert(head =~= Seq::<char>::empty());
            }
            assert(out@ =~= document_text(d, document_decl, st));
        }
        out
    }

    /// The document's text with the declaration, indented by two spaces per level.
    pub fn to_string(&self) -> (r: String)
        ensures
            r@ == document_text(doc_of(*self), true, Style { pretty: true, indent: default_indent() }),
    {
        self.to_string_with(true, "  ", true)
    }

    /// Appends the document's text, UTF-8 encoded, to `w`.
    pub fn write_with(&self, w: &mut Vec<u8>, document_decl: bool, indent_str: &str, indent: bool) -> (r: Result<(), WriteError>)
        ensures
            r is Ok,
            final(w)@ == old(w)@ + encode_utf8(document_text(doc_of(*self), document_decl, Style { pretty: indent, indent: indent_str@ })),
    {
        let s = self.to_string_with(document_decl, indent_str, indent);
        let mut bytes = s.as_str().as_bytes_vec();
        w.append(&mut bytes);
        Ok(())
    }
}

} // verus!
