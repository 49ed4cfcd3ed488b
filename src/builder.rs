use vstd::prelude::*;
use vstd::string::StringExecFns;
use crate::model::{Element, Node, node_of, nodes_of, lemma_nodes_of};
use crate::attrs::{set_attr, set_attribute};

verus! {

/// Fluent construction of an `Element`.
pub struct ElementBuilder {
    element: Element,
}

impl View for ElementBuilder {
    type V = Node;

    closed spec fn view(&self) -> Node {
        node_of(self.element)
    }
}

impl ElementBuilder {
    /// A builder of an element named `name`, with nothing else set.
    pub fn new(name: &str) -> (r: ElementBuilder)
        ensures
            r@ == (Node {
                prefix: None,
                name: name@,
                attributes: Seq::empty(),
                children: Seq::empty(),
                text: None,
                cdata: None,
            }),
    {
        ElementBuilder { element: Element::new(name) }
    }

    /// Sets the tag prefix.
    pub fn prefix(&mut self, prefix: &str) -> (r: &mut ElementBuilder)
        ensures
            r@ == (Node { prefix: Some(prefix@), ..old(self)@ }),
            *final(self) == *final(r),
    {
        self.element.prefix = Some(String::from_str(prefix));
        self
    }

    /// Binds attribute `key` to `value`; a key set before is overwritten.
    pub fn attr(&mut self, key: &str, value: &str) -> (r: &mut ElementBuilder)
        ensures
            r@ == (Node { attributes: set_attr(old(self)@.attributes, key@, value@), ..old(self)@ }),
            *final(self) == *final(r),
    {
        set_attribute(&mut self.element.attributes, String::from_str(key), String::from_str(value));
        self
    }

    /// Sets the character data.
    pub fn text(&mut self, text: &str) -> (r: &mut ElementBuilder)
        ensures
            r@ == (Node { text: Some(text@), ..old(self)@ }),
            *final(self) == *final(r),
    {
        self.element.text = Some(String::from_str(text));
        self
    }

    /// Sets the CDATA contents.
    pub fn cdata(&mut self, cdata: &str) -> (r: &mut ElementBuilder)
        ensures
            r@ == (Node { cdata: Some(cdata@), ..old(self)@ }),
            *final(self) == *final(r),
    {
        self.element.cdata = Some(String::from_str(cdata));
        self
    }

    /// Appends `children`, in order, to the children.
    pub fn children(&mut self, children: Vec<Element>) -> (r: &mut ElementBuilder)
        ensures
            r@ == (Node { children: old(self)@.children + nodes_of(children@), ..old(self)@ }),
            *final(self) == *final(r),
    {
        let mut children = children;
        let ghost a = self.element.children@;
        let ghost b = children@;
        self.element.children.append(&mut children);
        proof {
            lemma_nodes_of(a);
            lemma_nodes_of(b);
            lemma_nodes_of(a + b);
            assert(nodes_of(a + b) =~= nodes_of(a) + nodes_of(b));
        }
        self
    }

    /// The element built so far.
    pub fn element(&self) -> (r: Element)
        ensures
            node_of(r) == self@,
    {
        self.element.clone()
    }
}

} // verus!
