use vstd::prelude::*;
use vstd::string::StringExecFns;
use crate::model::{Element, Node, Document, DocModel, XmlVersion, node_of, nodes_of, doc_of, opt_view, attrs_view, lemma_nodes_of, empty_doc, clone_opt_string};
use crate::attrs::{set_attr, set_attribute};
use crate::serialize::qualified_name;

verus! {

/// An attribute as a reader reports it.
#[derive(Debug)]
pub struct Attribute {
    pub prefix: Option<String>,
    pub local_name: String,
    pub value: String,
}

/// A structural event of a reader, in document order.
#[derive(Debug)]
pub enum Event {
    DocumentStart { version: XmlVersion, encoding: String },
    ElementStart { prefix: Option<String>, name: String, attributes: Vec<Attribute> },
    ElementEnd { prefix: Option<String>, name: String },
    Text(String),
    CData(String),
    Whitespace(String),
    Comment(String),
    DocumentEnd,
}

/// The mathematical value of an `Event`; an attribute is (prefix, local name, value).
pub ghost enum EventModel {
    DocumentStart { version: XmlVersion, encoding: Seq<char> },
    ElementStart { prefix: Option<Seq<char>>, name: Seq<char>, attributes: Seq<(Option<Seq<char>>, Seq<char>, Seq<char>)> },
    ElementEnd { prefix: Option<Seq<char>>, name: Seq<char> },
    Text(Seq<char>),
    CData(Seq<char>),
    Whitespace(Seq<char>),
    Comment(Seq<char>),
    DocumentEnd,
}

pub open spec fn attribute_view(a: Attribute) -> (Option<Seq<char>>, Seq<char>, Seq<char>) {
    (opt_view(a.prefix), a.local_name@, a.value@)
}

impl View for Event {
    type V = EventModel;

    open spec fn view(&self) -> EventModel {
        match *self {
            Event::DocumentStart { version, encoding } => EventModel::DocumentStart { version, encoding: encoding@ },
            Event::ElementStart { prefix, name, attributes } => EventModel::ElementStart {
                prefix: opt_view(prefix),
                name: name@,
                attributes: attributes@.map_values(|a: Attribute| attribute_view(a)),
            },
            Event::ElementEnd { prefix, name } => EventModel::ElementEnd { prefix: opt_view(prefix), name: name@ },
            Event::Text(t) => EventModel::Text(t@),
            Event::CData(c) => EventModel::CData(c@),
            Event::Whitespace(w) => EventModel::Whitespace(w@),
            Event::Comment(c) => EventModel::Comment(c@),
            Event::DocumentEnd => EventModel::DocumentEnd,
        }
    }
}

/// Why a sequence of events does not make a document.
#[derive(Debug, Clone, Copy, PartialEq, Eq, Structural)]
pub enum AssembleError {
    /// An end tag that does not close the open element.
    MismatchedEnd,
    /// The events ran out before the end of the document.
    UnexpectedEnd,
}

/// The state of assembly: the document so far, the open elements from the
/// root down, and whether the document has ended.
pub ghost struct AsmModel {
    pub doc: DocModel,
    pub stack: Seq<Node>,
    pub finished: bool,
}

/// The key under which an attribute is stored: `prefix:local` or `local`.
pub open spec fn attr_key(a: (Option<Seq<char>>, Seq<char>, Seq<char>)) -> Seq<char> {
    qualified_name(a.0, a.1)
}

/// The attribute map of a start tag; a later duplicate key wins.
pub open spec fn attrs_of(s: Seq<(Option<Seq<char>>, Seq<char>, Seq<char>)>) -> Seq<(Seq<char>, Seq<char>)>
    decreases s.len(),
{
    if s.len() == 0 {
        Seq::empty()
    } else {
        set_attr(attrs_of(s.drop_last()), attr_key(s.last()), s.last().2)
    }
}

/// `o` with `t` appended, where an absent string counts as empty.
pub open spec fn append_opt(o: Option<Seq<char>>, t: Seq<char>) -> Option<Seq<char>> {
    match o {
        Some(x) => Some(x + t),
        None => Some(t),
    }
}

/// The element that a start tag opens.
pub open spec fn start_node(prefix: Option<Seq<char>>, name: Seq<char>, attributes: Seq<(Option<Seq<char>>, Seq<char>, Seq<char>)>) -> Node {
    Node {
        prefix,
        name,
        attributes: attrs_of(attributes),
        children: Seq::empty(),
        text: None,
        cdata: None,
    }
}

/// The state before any event.
pub open spec fn initial() -> AsmModel {
    AsmModel { doc: empty_doc(), stack: Seq::empty(), finished: false }
}

/// The state after event `ev`.
pub open spec fn step(s: AsmModel, ev: EventModel) -> Result<AsmModel, AssembleError> {
    if s.finished {
        Ok(s)
    } else {
        match ev {
            EventModel::DocumentStart { version, encoding } => if s.stack.len() == 0 {
                Ok(AsmModel { doc: DocModel { version, encoding, ..s.doc }, ..s })
            } else {
                Ok(s)
            },
            EventModel::ElementStart { prefix, name, attributes } => Ok(
                AsmModel { stack: s.stack.push(start_node(prefix, name, attributes)), ..s },
            ),
            EventModel::ElementEnd { prefix, name } => if s.stack.len() == 0 {
                Ok(s)
            } else {
                let top = s.stack.last();
                let rest = s.stack.drop_last();
                if top.prefix != prefix || top.name != name {
                    Err(AssembleError::MismatchedEnd)
                } else if rest.len() == 0 {
                    Ok(AsmModel { doc: DocModel { root: Some(top), ..s.doc }, stack: rest, ..s })
                } else {
                    let parent = rest.last();
                    Ok(AsmModel {
                        stack: rest.drop_last().push(Node { children: parent.children.push(top), ..parent }),
                        ..s
                    })
                }
            },
            EventModel::Text(t) => if s.stack.len() == 0 {
                Ok(s)
            } else {
                let top = s.stack.last();
                Ok(AsmModel {
                    stack: s.stack.drop_last().push(Node { text: append_opt(top.text, t), ..top }),
                    ..s
                })
            },
            EventModel::CData(c) => if s.stack.len() == 0 {
                Ok(s)
            } else {
                let top = s.stack.last();
                Ok(AsmModel {
                    stack: s.stack.drop_last().push(Node { cdata: append_opt(top.cdata, c), ..top }),
                    ..s
                })
            },
            EventModel::Whitespace(_) => Ok(s),
            EventModel::Comment(_) => Ok(s),
            EventModel::DocumentEnd => if s.stack.len() == 0 {
                Ok(AsmModel { finished: true, ..s })
            } else {
                Ok(s)
            },
        }
    }
}

/// The state after the events `evs`, from `s`.
pub open spec fn run(s: AsmModel, evs: Seq<EventModel>) -> Result<AsmModel, AssembleError>
    decreases evs.len(),
{
    if evs.len() == 0 {
        Ok(s)
    } else {
        match run(s, evs.drop_last()) {
            Ok(s2) => step(s2, evs.last()),
            Err(e) => Err(e),
        }
    }
}

/// The document that the events `evs` make.
pub open spec fn assembled(evs: Seq<EventModel>) -> Result<DocModel, AssembleError> {
    match run(initial(), evs) {
        Ok(s) => if s.finished {
            Ok(s.doc)
        } else {
            Err(AssembleError::UnexpectedEnd)
        },
        Err(e) => Err(e),
    }
}

/// Builds a document from reader events, one event at a time.
pub struct Assembler {
    /// The document so far
    pub doc: Document,
    /// The open elements, the root first
    pub stack: Vec<Element>,
    /// Whether the end of the document has been seen
    pub finished: bool,
}

impl View for Assembler {
    type V = AsmModel;

    open spec fn view(&self) -> AsmModel {
        AsmModel { doc: doc_of(self.doc), stack: nodes_of(self.stack@), finished: self.finished }
    }
}

fn same_opt(a: &Option<String>, b: &Option<String>) -> (r: bool)
    ensures
        r == (opt_view(*a) == opt_view(*b)),
{
    match a {
        Some(x) => match b {
            Some(y) => *x == *y,
            None => false,
        },
        None => b.is_none(),
    }
}

/// The key under which `a` is stored.
fn attribute_key(a: &Attribute) -> (r: String)
    ensures
        r@ == attr_key(attribute_view(*a)),
{
    match &a.prefix {
        Some(p) => {
            let mut k = p.clone();
            k.append(":");
            k.append(a.local_name.as_str());
            k
        },
        None => a.local_name.clone(),
    }
}

/// The element that a start tag opens.
fn start_element(prefix: &Option<String>, name: &String, attributes: &Vec<Attribute>) -> (r: Element)
    ensures
        node_of(r) == start_node(opt_view(*prefix), name@, attributes@.map_values(|a: Attribute| attribute_view(a))),
{
    let mut attrs: Vec<(String, String)> = Vec::new();
    let mut i: usize = 0;
    while i < attributes.len()
        invariant
            i <= attributes@.len(),
            attrs_view(attrs@) == attrs_of(attributes@.map_values(|a: Attribute| attribute_view(a)).subrange(0, i as int)),
        decreases attributes@.len() - i,
    {
        proof {
            let ghost av = attributes@.map_values(|a: Attribute| attribute_view(a));
            assert(av.subrange(0, i + 1).drop_last() =~= av.subrange(0, i as int));
        }
        let k = attribute_key(&attributes[i]);
        set_attribute(&mut attrs, k, attributes[i].value.clone());
        i = i + 1;
    }
    proof {
        let ghost av = attributes@.map_values(|a: Attribute| attribute_view(a));
        assert(av.subrange(0, attributes@.len() as int) =~= av);
    }
    let r = Element {
        prefix: clone_opt_string(prefix),
        name: name.clone(),
        attributes: attrs,
        children: Vec::new(),
        text: None,
        cdata: None,
    };
    assert(nodes_of(r.children@) =~= Seq::empty());
    r
}

/// `o` with `t` appended.
fn append_text(o: Option<String>, t: &String) -> (r: Option<String>)
    ensures
        opt_view(r) == append_opt(opt_view(o), t@),
{
    match o {
        Some(mut x) => {
            x.append(t.as_str());
            Some(x)
        },
        None => Some(t.clone()),
    }
}

proof fn lemma_nodes_of_push(s: Seq<Element>, e: Element)
    ensures
        nodes_of(s.push(e)) == nodes_of(s).push(node_of(e)),
{
    assert(s.push(e).drop_last() =~= s);
}

impl Assembler {
    /// An assembler that has seen no event.
    pub fn new() -> (r: Assembler)
        ensures
            r@ == initial(),
    {
        let r = Assembler { doc: Document::new(), stack: Vec::new(), finished: false };
        assert(nodes_of(r.stack@) =~= Seq::empty());
        r
    }

    /// Takes one event into account.
    pub fn step(self, ev: &Event) -> (r: Result<Assembler, AssembleError>)
        ensures
            match r {
                Ok(a) => step(self@, ev@) == Ok::<AsmModel, AssembleError>(a@),
                Err(e) => step(self@, ev@) == Err::<AsmModel, AssembleError>(e),
            },
    {
        let mut me = self;
        proof {
            lemma_nodes_of(me.stack@);
        }
        if me.finished {
            return Ok(me);
        }
        match ev {
            Event::DocumentStart { version, encoding } => {
                if me.stack.len() == 0 {
                    me.doc.version = *version;
                    me.doc.encoding = encoding.clone();
                }
                Ok(me)
            },
            Event::ElementStart { prefix, name, attributes } => {
                let e = start_element(prefix, name, attributes);
                proof {
                    lemma_nodes_of_push(me.stack@, e);
                }
                me.stack.push(e);
                Ok(me)
            },
            Event::ElementEnd { prefix, name } => {
                let ghost s0 = me.stack@;
                match me.stack.pop() {
                    None => Ok(me),
                    Some(top) => {
                        proof {
                            lemma_nodes_of_push(me.stack@, top);
                            assert(s0 =~= me.stack@.push(top));
                        }
                        if !same_opt(&top.prefix, prefix) || !(top.name == *name) {
                            return Err(AssembleError::MismatchedEnd);
                        }
                        let ghost s1 = me.stack@;
                        match me.stack.pop() {
                            None => {
                                assert(nodes_of(me.stack@) =~= Seq::<Node>::empty());
                                assert(nodes_of(s0).drop_last() =~= nodes_of(s1));
                                me.doc.root = Some(top);
                                Ok(me)
                            },
                            Some(parent) => {
                                proof {
                                    lemma_nodes_of_push(me.stack@, parent);
                                    assert(s1 =~= me.stack@.push(parent));
                                }
                                let mut p = parent;
                                let ghost pc = p.children@;
                                let ghost n0 = node_of(p);
                                proof {
                                    lemma_nodes_of_push(pc, top);
                                }
                                p.children.push(top);
                                proof {
                                    assert(node_of(p) == Node { children: n0.children.push(node_of(top)), ..n0 });
                                    assert(nodes_of(s0).drop_last() =~= nodes_of(s1));
                                    assert(nodes_of(s1).drop_last() =~= nodes_of(me.stack@));
                                    lemma_nodes_of_push(me.stack@, p);
                                }
                                me.stack.push(p);
                                Ok(me)
                            },
                        }
                    },
                }
            },
            Event::Text(t) => {
                let ghost s0 = me.stack@;
                match me.stack.pop() {
                    None => Ok(me),
                    Some(top) => {
                        proof {
                            lemma_nodes_of_push(me.stack@, top);
                            assert(s0 =~= me.stack@.push(top));
                        }
                        let mut top = top;
                        let ghost n0 = node_of(top);
                        let old_text = top.text.take();
                        top.text = append_text(old_text, t);
                        proof {
                            assert(nodes_of(s0).drop_last() =~= nodes_of(me.stack@));
                            assert(node_of(top) == Node { text: append_opt(n0.text, t@), ..n0 });
                            lemma_nodes_of_push(me.stack@, top);
                        }
                        me.stack.push(top);
                        Ok(me)
                    },
                }
            },
            Event::CData(c) => {
                let ghost s0 = me.stack@;
                match me.stack.pop() {
                    None => Ok(me),
                    Some(top) => {
                        proof {
                            lemma_nodes_of_push(me.stack@, top);
                            assert(s0 =~= me.stack@.push(top));
                        }
                        let mut top = top;
                        let ghost n0 = node_of(top);
                        let old_cdata = top.cdata.take();
                        top.cdata = append_text(old_cdata, c);
                        proof {
                            assert(nodes_of(s0).drop_last() =~= nodes_of(me.stack@));
                            assert(node_of(top) == Node { cdata: append_opt(n0.cdata, c@), ..n0 });
                            lemma_nodes_of_push(me.stack@, top);
                        }
                        me.stack.push(top);
                        Ok(me)
                    },
                }
            },
            Event::Whitespace(_) => Ok(me),
            Event::Comment(_) => Ok(me),
            Event::DocumentEnd => {
                if me.stack.len() == 0 {
                    me.finished = true;
                }
                Ok(me)
            },
        }
    }
}

/// The values of a sequence of events.
pub open spec fn events_view(evs: Seq<Event>) -> Seq<EventModel> {
    evs.map_values(|e: Event| e@)
}

impl Document {
    /// Builds a document from the events of a reader, in document order.
    pub fn assemble(events: &Vec<Event>) -> (r: Result<Document, AssembleError>)
        ensures
            match r {
                Ok(d) => assembled(events_view(events@)) == Ok::<DocModel, AssembleError>(doc_of(d)),
                Err(e) => assembled(events_view(events@)) == Err::<DocModel, AssembleError>(e),
            },
    {
        let mut state = Assembler::new();
        let mut i: usize = 0;
        while i < events.len()
            invariant
                i <= events@.len(),
                run(initial(), events_view(events@).subrange(0, i as int)) == Ok::<AsmModel, AssembleError>(state@),
            decreases events@.len() - i,
        {
            proof {
                assert(events_view(events@).subrange(0, i + 1).drop_last() =~= events_view(events@).subrange(0, i as int));
            }
            match state.step(&events[i]) {
                Ok(a) => state = a,
                Err(e) => {
                    proof {
                        lemma_run_err(events_view(events@).subrange(0, i + 1), events_view(events@));
                    }
                    return Err(e);
                },
            }
            i = i + 1;
        }
        proof {
            assert(events_view(events@).subrange(0, events@.len() as int) =~= events_view(events@));
        }
        if state.finished {
            Ok(state.doc)
        } else {
            Err(AssembleError::UnexpectedEnd)
        }
    }
}

/// Once assembly fails, further events do not mend it.
proof fn lemma_run_err(pre: Seq<EventModel>, evs: Seq<EventModel>)
    requires
        pre.len() <= evs.len(),
        pre == evs.subrange(0, pre.len() as int),
        run(initial(), pre) is Err,
    ensures
        run(initial(), evs) == run(initial(), pre),
    decreases evs.len(),
{
    if evs.len() > pre.len() {
        assert(evs.drop_last().subrange(0, pre.len() as int) =~= pre);
        lemma_run_err(pre, evs.drop_last());
    } else {
        assert(evs =~= pre);
    }
}

} // verus!
