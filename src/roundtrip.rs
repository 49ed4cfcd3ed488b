use vstd::prelude::*;
use crate::model::{Node, DocModel};
use crate::attrs::{keys_unique, set_attr, is_first_key};
use crate::assemble::{EventModel, AsmModel, step, run, assembled, attrs_of, initial, start_node};

verus! {

/// Attributes as a reader reports them, each under its full key and without prefix.
pub open spec fn plain_attrs(a: Seq<(Seq<char>, Seq<char>)>) -> Seq<(Option<Seq<char>>, Seq<char>, Seq<char>)> {
    a.map_values(|p: (Seq<char>, Seq<char>)| (None::<Seq<char>>, p.0, p.1))
}

/// The events of a node's character data and CDATA section.
pub open spec fn content_events(n: Node) -> Seq<EventModel> {
    let t = match n.text {
        Some(t) => seq![EventModel::Text(t)],
        None => Seq::empty(),
    };
    let c = match n.cdata {
        Some(c) => seq![EventModel::CData(c)],
        None => Seq::empty(),
    };
    t + c
}

/// The events that a reader reports for node `n`: its start tag, its
/// contents, its children in order, and its end tag.
pub open spec fn node_events(n: Node) -> Seq<EventModel>
    decreases n, 1int,
{
    seq![EventModel::ElementStart { prefix: n.prefix, name: n.name, attributes: plain_attrs(n.attributes) }]
        + content_events(n) + children_events(n.children)
        + seq![EventModel::ElementEnd { prefix: n.prefix, name: n.name }]
}

/// The events of the nodes `s`, one after the other.
pub open spec fn children_events(s: Seq<Node>) -> Seq<EventModel>
    decreases s, 0int,
{
    if s.len() == 0 {
        Seq::empty()
    } else {
        children_events(s.drop_last()) + node_events(s.last())
    }
}

/// The events that a reader reports for document `d`.
pub open spec fn doc_events(d: DocModel) -> Seq<EventModel> {
    seq![EventModel::DocumentStart { version: d.version, encoding: d.encoding }]
        + match d.root {
            Some(r) => node_events(r),
            None => Seq::empty(),
        }
        + seq![EventModel::DocumentEnd]
}

/// Every element of the tree has distinct attribute keys.
pub open spec fn wf_node(n: Node) -> bool
    decreases n,
{
    &&& keys_unique(n.attributes)
    &&& forall|i: int| 0 <= i < n.children.len() ==> wf_node(#[trigger] n.children[i])
}

/// `n` closed under the open elements of `s`: it becomes the last child of
/// the innermost open element, or the root where none is open.
pub open spec fn attach(s: AsmModel, n: Node) -> AsmModel {
    if s.stack.len() == 0 {
        AsmModel { doc: DocModel { root: Some(n), ..s.doc }, ..s }
    } else {
        let p = s.stack.last();
        AsmModel { stack: s.stack.drop_last().push(Node { children: p.children.push(n), ..p }), ..s }
    }
}

proof fn lemma_run_append(s: AsmModel, a: Seq<EventModel>, b: Seq<EventModel>)
    ensures
        run(s, a + b) == match run(s, a) {
            Ok(s2) => run(s2, b),
            Err(e) => Err(e),
        },
    decreases b.len(),
{
    if b.len() == 0 {
        assert(a + b =~= a);
    } else {
        assert((a + b).drop_last() =~= a + b.drop_last());
        assert((a + b).last() == b.last());
        lemma_run_append(s, a, b.drop_last());
    }
}

proof fn lemma_run_one(s: AsmModel, e: EventModel)
    ensures
        run(s, seq![e]) == step(s, e),
{
    assert(seq![e].drop_last() =~= Seq::<EventModel>::empty());
    assert(run(s, Seq::<EventModel>::empty()) == Ok::<AsmModel, crate::assemble::AssembleError>(s));
    assert(seq![e].last() == e);
}

proof fn lemma_plain_attrs(a: Seq<(Seq<char>, Seq<char>)>)
    requires
        keys_unique(a),
    ensures
        attrs_of(plain_attrs(a)) == a,
    decreases a.len(),
{
    if a.len() == 0 {
        assert(plain_attrs(a) =~= Seq::<(Option<Seq<char>>, Seq<char>, Seq<char>)>::empty());
        assert(a =~= Seq::<(Seq<char>, Seq<char>)>::empty());
    } else {
        let p = plain_attrs(a);
        let rest = a.drop_last();
        assert(p.drop_last() =~= plain_attrs(rest));
        assert(keys_unique(rest));
        lemma_plain_attrs(rest);
        let k = a.last().0;
        assert(!exists|i: int| is_first_key(rest, k, i)) by {
            assert forall|i: int| !is_first_key(rest, k, i) by {
                if 0 <= i < rest.len() {
                    assert(rest[i] == a[i]);
                }
            }
        }
        assert(set_attr(rest, k, a.last().1) =~= a);
    }
}

proof fn lemma_content(s: AsmModel, n: Node, m: Node)
    requires
        !s.finished,
        s.stack.len() > 0,
        s.stack.last() == m,
        m.text is None,
        m.cdata is None,
    ensures
        run(s, content_events(n)) == Ok::<AsmModel, crate::assemble::AssembleError>(
            AsmModel { stack: s.stack.drop_last().push(Node { text: n.text, cdata: n.cdata, ..m }), ..s },
        ),
{
    let t = match n.text {
        Some(t) => seq![EventModel::Text(t)],
        None => Seq::<EventModel>::empty(),
    };
    let c = match n.cdata {
        Some(c) => seq![EventModel::CData(c)],
        None => Seq::<EventModel>::empty(),
    };
    lemma_run_append(s, t, c);
    let m1 = Node { text: n.text, ..m };
    let s1 = AsmModel { stack: s.stack.drop_last().push(m1), ..s };
    match n.text {
        Some(tx) => {
            lemma_run_one(s, EventModel::Text(tx));
        },
        None => {
            assert(s.stack.drop_last().push(m) =~= s.stack);
        },
    }
    assert(run(s, t) == Ok::<AsmModel, crate::assemble::AssembleError>(s1));
    assert(s1.stack.last() == m1);
    assert(s1.stack.drop_last() =~= s.stack.drop_last());
    match n.cdata {
        Some(cx) => {
            lemma_run_one(s1, EventModel::CData(cx));
        },
        None => {
            assert(s1.stack.drop_last().push(m1) =~= s1.stack);
        },
    }
}

/// From a state with an open element, the events of `cs` append `cs` to
/// that element's children.
proof fn lemma_children(s: AsmModel, cs: Seq<Node>)
    requires
        !s.finished,
        s.stack.len() > 0,
        forall|i: int| 0 <= i < cs.len() ==> wf_node(#[trigger] cs[i]),
    ensures
        run(s, children_events(cs)) == Ok::<AsmModel, crate::assemble::AssembleError>(AsmModel {
            stack: s.stack.drop_last().push(Node { children: s.stack.last().children + cs, ..s.stack.last() }),
            ..s
        }),
    decreases cs, 0int,
{
    let p = s.stack.last();
    if cs.len() == 0 {
        assert(p.children + cs =~= p.children);
        assert(s.stack.drop_last().push(p) =~= s.stack);
    } else {
        let init = cs.drop_last();
        lemma_children(s, init);
        let s1 = AsmModel { stack: s.stack.drop_last().push(Node { children: p.children + init, ..p }), ..s };
        lemma_run_append(s, children_events(init), node_events(cs.last()));
        assert(wf_node(cs[cs.len() - 1]));
        lemma_node(s1, cs.last());
        assert(s1.stack.drop_last() =~= s.stack.drop_last());
        assert((p.children + init).push(cs.last()) =~= p.children + cs);
    }
}

/// From any running state, the events of a well-formed node close that node
/// under the open elements.
proof fn lemma_node(s: AsmModel, n: Node)
    requires
        !s.finished,
        wf_node(n),
    ensures
        run(s, node_events(n)) == Ok::<AsmModel, crate::assemble::AssembleError>(attach(s, n)),
    decreases n, 1int,
{
    let start = EventModel::ElementStart { prefix: n.prefix, name: n.name, attributes: plain_attrs(n.attributes) };
    let end = EventModel::ElementEnd { prefix: n.prefix, name: n.name };
    let a = seq![start];
    let b = content_events(n);
    let c = children_events(n.children);
    let d = seq![end];
    lemma_run_append(s, a + b + c, d);
    lemma_run_append(s, a + b, c);
    lemma_run_append(s, a, b);
    lemma_run_one(s, start);
    lemma_plain_attrs(n.attributes);
    let m0 = start_node(n.prefix, n.name, plain_attrs(n.attributes));
    let s1 = AsmModel { stack: s.stack.push(m0), ..s };
    assert(run(s, a) == Ok::<AsmModel, crate::assemble::AssembleError>(s1));
    lemma_content(s1, n, m0);
    let m1 = Node { text: n.text, cdata: n.cdata, ..m0 };
    let s2 = AsmModel { stack: s1.stack.drop_last().push(m1), ..s1 };
    assert(s1.stack.drop_last() =~= s.stack);
    assert(forall|i: int| 0 <= i < n.children.len() ==> wf_node(#[trigger] n.children[i]));
    lemma_children(s2, n.children);
    let m2 = Node { children: m1.children + n.children, ..m1 };
    let s3 = AsmModel { stack: s2.stack.drop_last().push(m2), ..s2 };
    assert(m1.children + n.children =~= n.children);
    assert(m2 == n);
    assert(run(s, a + b + c) == Ok::<AsmModel, crate::assemble::AssembleError>(s3));
    lemma_run_one(s3, end);
    assert(s3.stack.drop_last() =~= s.stack);
    assert(s3.stack.last() == n);
    assert(node_events(n) == a + b + c + d);
}

/// Assembling the events that a reader reports for a document whose
/// elements have distinct attribute keys gives that document back.
pub proof fn law_assemble_document_events(d: DocModel)
    requires
        match d.root {
            Some(r) => wf_node(r),
            None => true,
        },
    ensures
        assembled(doc_events(d)) == Ok::<DocModel, crate::assemble::AssembleError>(d),
{
    let first = EventModel::DocumentStart { version: d.version, encoding: d.encoding };
    let body = match d.root {
        Some(r) => node_events(r),
        None => Seq::<EventModel>::empty(),
    };
    let last = seq![EventModel::DocumentEnd];
    lemma_run_append(initial(), seq![first] + body, last);
    lemma_run_append(initial(), seq![first], body);
    lemma_run_one(initial(), first);
    let s1 = AsmModel { doc: DocModel { version: d.version, encoding: d.encoding, ..initial().doc }, ..initial() };
    assert(s1.stack =~= Seq::<Node>::empty());
    match d.root {
        Some(r) => {
            lemma_node(s1, r);
        },
        None => {},
    }
    let s2 = AsmModel { doc: d, ..s1 };
    assert(run(initial(), seq![first] + body) == Ok::<AsmModel, crate::assemble::AssembleError>(s2));
    lemma_run_one(s2, EventModel::DocumentEnd);
    assert(doc_events(d) == seq![first] + body + last);
}

} // verus!
