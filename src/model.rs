use vstd::prelude::*;
use vstd::string::StringExecFns;

verus! {

/// Enumeration of XML versions
#[derive(Debug, Clone, Copy, PartialEq, Eq, Structural)]
pub enum XmlVersion {
    /// XML Version 1.0
    Version10,
    /// XML Version 1.1
    Version11,
}

/// An XML element
#[derive(Debug, PartialEq, Eq)]
pub struct Element {
    /// Tag prefix, used for namespacing: `xsl` in `xsl:for-each`
    pub prefix: Option<String>,
    /// Tag name: `for-each` in `xsl:for-each`
    pub name: String,
    /// Tag attributes as (qualified key, value) pairs, keys unique, in insertion order
    pub attributes: Vec<(String, String)>,
    /// Child elements, in document order
    pub children: Vec<Element>,
    /// Character data of the element
    pub text: Option<String>,
    /// CDATA contents of the element
    pub cdata: Option<String>,
}

/// The mathematical value of an `Element`.
pub ghost struct Node {
    pub prefix: Option<Seq<char>>,
    pub name: Seq<char>,
    pub attributes: Seq<(Seq<char>, Seq<char>)>,
    pub children: Seq<Node>,
    pub text: Option<Seq<char>>,
    pub cdata: Option<Seq<char>>,
}

pub open spec fn opt_view(o: Option<String>) -> Option<Seq<char>> {
    match o {
        Some(s) => Some(s@),
        None => None,
    }
}

pub open spec fn attrs_view(a: Seq<(String, String)>) -> Seq<(Seq<char>, Seq<char>)> {
    a.map_values(|p: (String, String)| (p.0@, p.1@))
}

pub open spec fn node_of(e: Element) -> Node
    decreases e, 1int,
{
    Node {
        prefix: opt_view(e.prefix),
        name: e.name@,
        attributes: attrs_view(e.attributes@),
        children: nodes_of(e.children@),
        text: opt_view(e.text),
        cdata: opt_view(e.cdata),
    }
}

pub open spec fn nodes_of(s: Seq<Element>) -> Seq<Node>
    decreases s, 0int,
{
    if s.len() == 0 {
        Seq::empty()
    } else {
        nodes_of(s.drop_last()).push(node_of(s.last()))
    }
}

} // verus!

verus! {

/// `nodes_of` maps each element to its node, position for position.
pub proof fn lemma_nodes_of(s: Seq<Element>)
    ensures
        nodes_of(s).len() == s.len(),
        forall|i: int| 0 <= i < s.len() ==> #[trigger] nodes_of(s)[i] == node_of(s[i]),
    decreases s.len(),
{
    if s.len() > 0 {
        lemma_nodes_of(s.drop_last());
    }
}

/// An XML document
#[derive(Debug, PartialEq, Eq)]
pub struct Document {
    /// Version of the XML document
    pub version: XmlVersion,
    /// Encoding of the XML document
    pub encoding: String,
    /// Root tag of the XML document
    pub root: Option<Element>,
}

/// The mathematical value of a `Document`.
pub ghost struct DocModel {
    pub version: XmlVersion,
    pub encoding: Seq<char>,
    pub root: Option<Node>,
}

pub open spec fn doc_of(d: Document) -> DocModel {
    DocModel {
        version: d.version,
        encoding: d.encoding@,
        root: match d.root {
            Some(r) => Some(node_of(r)),
            None => None,
        },
    }
}

impl Default for Element {
    fn default() -> (r: Element)
        ensures
            node_of(r) == (Node {
                prefix: None,
                name: "tag"@,
                attributes: Seq::empty(),
                children: Seq::empty(),
                text: None,
                cdata: None,
            }),
    {
        let r = Element {
            prefix: None,
            name: String::from_str("tag"),
            attributes: Vec::new(),
            children: Vec::new(),
            text: None,
            cdata: None,
        };
        proof {
            assert(attrs_view(r.attributes@) =~= Seq::empty());
            assert(nodes_of(r.children@) =~= Seq::empty());
        }
        r
    }
}

impl Element {
    /// Create a new `Element` with the tag name `name`
    pub fn new(name: &str) -> (r: Element)
        ensures
            node_of(r) == (Node {
                prefix: None,
                name: name@,
                attributes: Seq::empty(),
                children: Seq::empty(),
                text: None,
                cdata: None,
            }),
    {
        let r = Element {
            prefix: None,
            name: String::from_str(name),
            attributes: Vec::new(),
            children: Vec::new(),
            text: None,
            cdata: None,
        };
        proof {
            assert(attrs_view(r.attributes@) =~= Seq::empty());
            assert(nodes_of(r.children@) =~= Seq::empty());
        }
        r
    }
}

/// The document that `Document::new` makes: version 1.0, encoding UTF-8, no root.
pub open spec fn empty_doc() -> DocModel {
    DocModel { version: XmlVersion::Version10, encoding: "UTF-8"@, root: None }
}

impl Default for Document {
    fn default() -> (r: Document)
        ensures
            doc_of(r) == empty_doc(),
    {
        Document { version: XmlVersion::Version10, encoding: String::from_str("UTF-8"), root: None }
    }
}

impl Document {
    /// Create a new `Document` with default values
    pub fn new() -> (r: Document)
        ensures
            doc_of(r) == empty_doc(),
    {
        Document { version: XmlVersion::Version10, encoding: String::from_str("UTF-8"), root: None }
    }
}

pub(crate) fn clone_opt_string(o: &Option<String>) -> (r: Option<String>)
    ensures
        opt_view(r) == opt_view(*o),
{
    match o {
        Some(s) => Some(s.clone()),
        None => None,
    }
}

impl Clone for Element {
    fn clone(&self) -> (r: Element)
        ensures
            node_of(r) == node_of(*self),
        decreases self,
    {
        let mut attributes: Vec<(String, String)> = Vec::new();
        let mut i: usize = 0;
        while i < self.attributes.len()
            invariant
                i <= self.attributes@.len(),
                attrs_view(attributes@) == attrs_view(self.attributes@).subrange(0, i as int),
            decreases self.attributes@.len() - i,
        {
            let k = self.attributes[i].0.clone();
            let v = self.attributes[i].1.clone();
            let ghost before = attributes@;
            assert(k@ == self.attributes@[i as int].0@);
            assert(v@ == self.attributes@[i as int].1@);
            attributes.push((k, v));
            assert(attributes@ == before.push((k, v)));
            assert(attrs_view(before).len() == before.len());
            assert(before.len() == i);
            assert(attributes@[i as int] == (k, v));
            assert(attrs_view(attributes@)[i as int] == (k@, v@));
            assert(attrs_view(self.attributes@)[i as int] == (k@, v@));
            assert(attrs_view(attributes@) =~= attrs_view(self.attributes@).subrange(0, i + 1));
            i = i + 1;
        }
        assert(attrs_view(self.attributes@).subrange(0, i as int) =~= attrs_view(self.attributes@));
        let mut children: Vec<Element> = Vec::new();
        let mut j: usize = 0;
        proof {
            lemma_nodes_of(self.children@);
        }
        while j < self.children.len()
            invariant
                j <= self.children@.len(),
                nodes_of(self.children@).len() == self.children@.len(),
                forall|k: int| 0 <= k < self.children@.len() ==> #[trigger] nodes_of(self.children@)[k] == node_of(self.children@[k]),
                nodes_of(children@) == nodes_of(self.children@).subrange(0, j as int),
            decreases self.children@.len() - j,
        {
            let c = self.children[j].clone();
            proof {
                assert(children@.push(c).drop_last() =~= children@);
            }
            children.push(c);
            assert(nodes_of(children@) =~= nodes_of(self.children@).subrange(0, j + 1));
            j = j + 1;
        }
        assert(nodes_of(self.children@).subrange(0, j as int) =~= nodes_of(self.children@));
        Element {
            prefix: clone_opt_string(&self.prefix),
            name: self.name.clone(),
            attributes,
            children,
            text: clone_opt_string(&self.text),
            cdata: clone_opt_string(&self.cdata),
        }
    }
}

} // verus!
