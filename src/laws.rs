use vstd::prelude::*;
use crate::model::{Node, DocModel};
use crate::serialize::{
    Style, render, document_text, escape_text, escape_text_char, open_tag, close_tag, qualified_name,
    attrs_text,
};

verus! {

/// Serializing is deterministic: two renderings of one document under one
/// configuration give the same text.
pub proof fn law_serialize_twice(d: DocModel, decl: bool, st: Style)
    ensures
        document_text(d, decl, st) == document_text(d, decl, st),
{
}

/// An element without children, character data or CDATA is written in the
/// short form `<name attrs />`, whatever the mode and the depth.
pub proof fn law_self_closing(n: Node, depth: nat, st: Style)
    requires
        n.children.len() == 0,
        n.text is None,
        n.cdata is None,
    ensures
        render(n, depth, st) == "<"@ + qualified_name(n.prefix, n.name) + attrs_text(n.attributes) + " />"@,
{
}

/// Escaped character data holds no `<`.
pub proof fn law_escaped_text_has_no_lt(t: Seq<char>)
    ensures
        forall|i: int| 0 <= i < escape_text(t).len() ==> escape_text(t)[i] != '<',
    decreases t.len(),
{
    if t.len() > 0 {
        law_escaped_text_has_no_lt(t.drop_last());
        reveal_strlit("&lt;");
        reveal_strlit("&amp;");
        let a = escape_text(t.drop_last());
        let b = escape_text_char(t.last());
        assert(escape_text(t) == a + b);
        assert forall|i: int| 0 <= i < (a + b).len() implies (a + b)[i] != '<' by {
            if i >= a.len() {
                assert((a + b)[i] == b[i - a.len()]);
            }
        }
    }
}

/// Each `<` of character data is written as `&lt;`, each `&` as `&amp;`,
/// and every other character as itself, in order.
pub proof fn law_escape_text_append(t: Seq<char>, c: char)
    ensures
        escape_text(t.push(c)) == escape_text(t) + (if c == '<' {
            "&lt;"@
        } else if c == '&' {
            "&amp;"@
        } else {
            seq![c]
        }),
{
    assert(t.push(c).drop_last() =~= t);
}

/// CDATA contents are written verbatim inside `<![CDATA[...]]>`, unescaped.
pub proof fn law_cdata_verbatim(n: Node, depth: nat, st: Style, c: Seq<char>)
    requires
        n.children.len() == 0,
        n.text is None,
        n.cdata == Some(c),
    ensures
        render(n, depth, st) == open_tag(n) + ">"@ + ("<![CDATA["@ + c + "]]>"@) + close_tag(n),
{
    assert(crate::serialize::render_children(n.children, depth + 1, st) == Seq::<char>::empty());
    assert(render(n, depth, st) =~= open_tag(n) + ">"@ + ("<![CDATA["@ + c + "]]>"@) + close_tag(n));
}

} // verus!
