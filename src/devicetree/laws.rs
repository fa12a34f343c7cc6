//! What holds of parsing, writing, looking up and patching documents, for
//! every document.
use vstd::prelude::*;

use crate::devicetree::lex_lemmas::{lemma_lex_children, lemma_lex_props};
use crate::devicetree::model::{
    DtNode, DtProp, all_ws, first_child_index, first_prop_index, is_clean_value, is_name, lex,
    lemma_first_child_index, lemma_first_prop_index, parse_document, parse_members, ser_body,
    ser_children, ser_props, set_at, tab_prefix, toks_children, toks_props, value_at, wf_body,
    wf_prop,
};
use crate::devicetree::parse_lemmas::{
    lemma_lex_wf, lemma_parse_body, lemma_parse_members_wf, wf_members,
};

verus! {

/// A tree whose members are well formed, written out at any whitespace
/// indentation, parses back to a root with the same members in the same order.
pub proof fn lemma_document_reads_back(n: DtNode, pre: Seq<char>)
    requires
        wf_body(n),
        all_ws(pre),
    ensures
        parse_document(ser_body(n, pre)) == Some(
            DtNode { name: Seq::empty(), props: n.props, children: n.children },
        ),
{
    let sc = ser_children(n.children, pre);
    assert(ser_body(n, pre) =~= ser_props(n.props, pre) + (sc + Seq::empty()));
    assert(forall|i: int|
        0 <= i < n.children.len() ==> is_name(#[trigger] n.children[i].name) && wf_body(
            n.children[i],
        ));
    lemma_lex_children(n.children, pre, Seq::empty());
    lemma_lex_props(n.props, pre, sc + Seq::empty());
    let t = toks_props(n.props) + (toks_children(n.children) + Seq::empty());
    assert(lex(ser_body(n, pre)) == Some(t));
    assert(t =~= toks_props(n.props) + toks_children(n.children) + Seq::empty());
    lemma_parse_body(n.props, n.children, Seq::empty());
}

/// Every document that parses gives a tree whose members are well formed.
pub proof fn lemma_parsed_is_wf(text: Seq<char>)
    requires
        parse_document(text) is Some,
    ensures
        wf_body(parse_document(text)->0),
        parse_document(text)->0.name == Seq::<char>::empty(),
{
    lemma_lex_wf(text);
    let t = lex(text)->0;
    lemma_parse_members_wf(t);
}

/// Round trip: writing out a parsed document at any indentation and parsing
/// the text again gives the same tree, node and property names, values and
/// order included.
pub proof fn lemma_parse_stringify_roundtrip(text: Seq<char>, indent: nat)
    requires
        parse_document(text) is Some,
    ensures
        parse_document(ser_body(parse_document(text)->0, tab_prefix(indent))) == parse_document(
            text,
        ),
{
    let n = parse_document(text)->0;
    lemma_parsed_is_wf(text);
    assert(all_ws(tab_prefix(indent)));
    lemma_document_reads_back(n, tab_prefix(indent));
    assert(n == DtNode { name: Seq::empty(), props: n.props, children: n.children });
}

/// Lookup determinism: the child a name selects is determined by the node
/// alone. It is the one child with that name that no earlier child shares.
pub proof fn lemma_child_lookup_determined(n: DtNode, name: Seq<char>, i: int)
    requires
        0 <= i < n.children.len(),
        n.children[i].name == name,
        forall|j: int| 0 <= j < i ==> #[trigger] n.children[j].name != name,
    ensures
        first_child_index(n.children, name) == Some(i),
{
    lemma_first_child_index(n.children, name);
}

/// The same for properties.
pub proof fn lemma_property_lookup_determined(n: DtNode, name: Seq<char>, i: int)
    requires
        0 <= i < n.props.len(),
        n.props[i].name == name,
        forall|j: int| 0 <= j < i ==> #[trigger] n.props[j].name != name,
    ensures
        first_prop_index(n.props, name) == Some(i),
{
    lemma_first_prop_index(n.props, name);
}

pub proof fn lemma_first_child_update(cs: Seq<DtNode>, name: Seq<char>, i: int, c: DtNode)
    requires
        0 <= i < cs.len(),
        cs[i].name == c.name,
    ensures
        first_child_index(cs.update(i, c), name) == first_child_index(cs, name),
{
    lemma_first_child_index(cs, name);
    lemma_first_child_index(cs.update(i, c), name);
    let u = cs.update(i, c);
    assert forall|j: int| 0 <= j < cs.len() implies #[trigger] u[j].name == cs[j].name by {}
    match first_child_index(cs, name) {
        Some(a) => {
            assert(u[a].name == name);
        },
        None => {},
    }
    match first_child_index(u, name) {
        Some(b) => {
            assert(cs[b].name == name);
        },
        None => {},
    }
}

pub proof fn lemma_first_prop_update(ps: Seq<DtProp>, name: Seq<char>, i: int, p: DtProp)
    requires
        0 <= i < ps.len(),
        ps[i].name == p.name,
    ensures
        first_prop_index(ps.update(i, p), name) == first_prop_index(ps, name),
{
    lemma_first_prop_index(ps, name);
    lemma_first_prop_index(ps.update(i, p), name);
    let u = ps.update(i, p);
    assert forall|j: int| 0 <= j < ps.len() implies #[trigger] u[j].name == ps[j].name by {}
    match first_prop_index(ps, name) {
        Some(a) => {
            assert(u[a].name == name);
        },
        None => {},
    }
    match first_prop_index(u, name) {
        Some(b) => {
            assert(ps[b].name == name);
        },
        None => {},
    }
}

/// A patch keeps the node's name, reads back through `value_at`, and keeps
/// the tree well formed when the new value is clean.
pub proof fn lemma_set_at_effect(
    n: DtNode,
    path: Seq<Seq<char>>,
    prop: Seq<char>,
    v: Seq<char>,
)
    requires
        set_at(n, path, prop, Some(v)) is Some,
    ensures
        set_at(n, path, prop, Some(v))->0.name == n.name,
        value_at(set_at(n, path, prop, Some(v))->0, path, prop) == Some(Some(v)),
        wf_body(n) && is_clean_value(v) ==> wf_body(set_at(n, path, prop, Some(v))->0),
    decreases path.len(),
{
    let n2 = set_at(n, path, prop, Some(v))->0;
    if path.len() == 0 {
        let i = first_prop_index(n.props, prop)->0;
        lemma_first_prop_index(n.props, prop);
        let p = DtProp { name: prop, value: Some(v) };
        lemma_first_prop_update(n.props, prop, i, p);
        if wf_body(n) && is_clean_value(v) {
            assert(wf_prop(n.props[i]));
            assert forall|j: int| 0 <= j < n2.props.len() implies wf_prop(#[trigger] n2.props[j]) by {
                if j != i {
                    assert(n2.props[j] == n.props[j]);
                }
            }
            assert forall|j: int| 0 <= j < n2.children.len() implies is_name(
                #[trigger] n2.children[j].name,
            ) && wf_body(n2.children[j]) by {
                assert(n2.children[j] == n.children[j]);
            }
        }
    } else {
        let i = first_child_index(n.children, path[0])->0;
        lemma_first_child_index(n.children, path[0]);
        let rest = path.subrange(1, path.len() as int);
        let c2 = set_at(n.children[i], rest, prop, Some(v))->0;
        lemma_set_at_effect(n.children[i], rest, prop, v);
        lemma_first_child_update(n.children, path[0], i, c2);
        assert(n2.children[i] == c2);
        if wf_body(n) && is_clean_value(v) {
            assert(is_name(n.children[i].name) && wf_body(n.children[i]));
            assert forall|j: int| 0 <= j < n2.props.len() implies wf_prop(#[trigger] n2.props[j]) by {
                assert(n2.props[j] == n.props[j]);
            }
            assert forall|j: int| 0 <= j < n2.children.len() implies is_name(
                #[trigger] n2.children[j].name,
            ) && wf_body(n2.children[j]) by {
                if j != i {
                    assert(n2.children[j] == n.children[j]);
                }
            }
        }
    }
}

/// Mutation visibility: after the value of a property of a parsed document is
/// replaced by a clean value, writing the tree out and parsing it again gives
/// the patched tree, in which the property holds the new value.
pub proof fn lemma_mutation_visible(
    text: Seq<char>,
    path: Seq<Seq<char>>,
    prop: Seq<char>,
    v: Seq<char>,
    indent: nat,
)
    requires
        parse_document(text) is Some,
        set_at(parse_document(text)->0, path, prop, Some(v)) is Some,
        is_clean_value(v),
    ensures
        ({
            let n2 = set_at(parse_document(text)->0, path, prop, Some(v))->0;
            &&& parse_document(ser_body(n2, tab_prefix(indent))) == Some(n2)
            &&& value_at(n2, path, prop) == Some(Some(v))
        }),
{
    let n = parse_document(text)->0;
    lemma_parsed_is_wf(text);
    lemma_set_at_effect(n, path, prop, v);
    let n2 = set_at(n, path, prop, Some(v))->0;
    assert(all_ws(tab_prefix(indent)));
    lemma_document_reads_back(n2, tab_prefix(indent));
    assert(n2 == DtNode { name: Seq::empty(), props: n2.props, children: n2.children });
}

/// Non-interference: patching one property leaves the value read at any
/// other place (another path, or another property of the same node) as it was.
pub proof fn lemma_set_at_other(
    n: DtNode,
    p: Seq<Seq<char>>,
    a: Seq<char>,
    v: Seq<char>,
    q: Seq<Seq<char>>,
    b: Seq<char>,
)
    requires
        set_at(n, p, a, Some(v)) is Some,
        !(p == q && a == b),
    ensures
        value_at(set_at(n, p, a, Some(v))->0, q, b) == value_at(n, q, b),
    decreases p.len(),
{
    let n2 = set_at(n, p, a, Some(v))->0;
    if p.len() == 0 {
        if q.len() == 0 {
            let i = first_prop_index(n.props, a)->0;
            lemma_first_prop_index(n.props, a);
            lemma_first_prop_update(n.props, b, i, DtProp { name: a, value: Some(v) });
            lemma_first_prop_index(n.props, b);
            assert(p =~= q);
        } else {
            assert(n2.children == n.children);
        }
    } else {
        let i = first_child_index(n.children, p[0])->0;
        lemma_first_child_index(n.children, p[0]);
        let prest = p.subrange(1, p.len() as int);
        let c2 = set_at(n.children[i], prest, a, Some(v))->0;
        lemma_set_at_effect(n.children[i], prest, a, v);
        assert(n2.children == n.children.update(i, c2));
        if q.len() == 0 {
            assert(n2.props == n.props);
        } else {
            lemma_first_child_update(n.children, q[0], i, c2);
            lemma_first_child_index(n.children, q[0]);
            let qrest = q.subrange(1, q.len() as int);
            match first_child_index(n.children, q[0]) {
                Some(j) => {
                    if j == i {
                        assert(p[0] == q[0]);
                        if prest == qrest {
                            assert forall|k: int| 0 <= k < p.len() implies p[k] == q[k] by {
                                if k > 0 {
                                    assert(p[k] == prest[k - 1]);
                                    assert(q[k] == qrest[k - 1]);
                                }
                            }
                            assert(p =~= q);
                        }
                        lemma_set_at_other(n.children[i], prest, a, v, qrest, b);
                    } else {
                        assert(n2.children[j] == n.children[j]);
                    }
                },
                None => {},
            }
        }
    }
}

} // verus!
