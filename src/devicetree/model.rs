//! Mathematical model of a device-tree source document: the tree, the token
//! stream the text breaks into, the parser over tokens and the serializer.
use vstd::prelude::*;

verus! {

/// A property as the logic sees it: a name and, unless it is a flag, raw value text.
pub struct DtProp {
    pub name: Seq<char>,
    pub value: Option<Seq<char>>,
}

/// A node: its full name (unit address included), its properties and its children, in order.
pub struct DtNode {
    pub name: Seq<char>,
    pub props: Seq<DtProp>,
    pub children: Seq<DtNode>,
}

/// The tokens of the source grammar. `Assign(v)` stands for `= v ;` with `v` trimmed.
pub enum Tok {
    Word(Seq<char>),
    Open,
    Close,
    Semi,
    Assign(Seq<char>),
}

pub open spec fn is_ws(c: char) -> bool {
    c == ' ' || c == '\t' || c == '\n' || c == '\r'
}

pub open spec fn is_delim(c: char) -> bool {
    c == '{' || c == '}' || c == ';' || c == '='
}

pub open spec fn is_word_char(c: char) -> bool {
    !is_ws(c) && !is_delim(c)
}

/// A name that the grammar can carry: non-empty, no whitespace, no delimiter.
pub open spec fn is_name(s: Seq<char>) -> bool {
    s.len() > 0 && forall|k: int| 0 <= k < s.len() ==> is_word_char(#[trigger] s[k])
}

/// A value that reads back unchanged: no `;`, and no whitespace at either end.
pub open spec fn is_clean_value(v: Seq<char>) -> bool {
    &&& forall|k: int| 0 <= k < v.len() ==> #[trigger] v[k] != ';'
    &&& v.len() > 0 ==> !is_ws(v[0]) && !is_ws(v.last())
}

pub open spec fn all_ws(s: Seq<char>) -> bool {
    forall|k: int| 0 <= k < s.len() ==> is_ws(#[trigger] s[k])
}

pub open spec fn wf_prop(p: DtProp) -> bool {
    &&& is_name(p.name)
    &&& p.value is Some ==> is_clean_value(p.value->0)
}

/// Every property and child below `n` is well formed; `n`'s own name is not constrained.
pub open spec fn wf_body(n: DtNode) -> bool
    decreases n,
{
    &&& forall|i: int| 0 <= i < n.props.len() ==> wf_prop(#[trigger] n.props[i])
    &&& forall|i: int|
        0 <= i < n.children.len() ==> is_name(#[trigger] n.children[i].name) && wf_body(
            n.children[i],
        )
}

/// Number of leading word characters.
pub open spec fn word_len(s: Seq<char>) -> nat
    decreases s.len(),
{
    if s.len() == 0 || !is_word_char(s[0]) {
        0
    } else {
        1 + word_len(s.subrange(1, s.len() as int))
    }
}

/// Index of the first `;`, or the length when there is none.
pub open spec fn semi_pos(s: Seq<char>) -> nat
    decreases s.len(),
{
    if s.len() == 0 || s[0] == ';' {
        0
    } else {
        1 + semi_pos(s.subrange(1, s.len() as int))
    }
}

/// Number of leading whitespace characters.
pub open spec fn lead_ws(s: Seq<char>) -> nat
    decreases s.len(),
{
    if s.len() == 0 || !is_ws(s[0]) {
        0
    } else {
        1 + lead_ws(s.subrange(1, s.len() as int))
    }
}

/// Number of trailing whitespace characters.
pub open spec fn trail_ws(s: Seq<char>) -> nat
    decreases s.len(),
{
    if s.len() == 0 || !is_ws(s.last()) {
        0
    } else {
        1 + trail_ws(s.drop_last())
    }
}

pub open spec fn trim(s: Seq<char>) -> Seq<char> {
    let t = s.subrange(lead_ws(s) as int, s.len() as int);
    t.subrange(0, t.len() - trail_ws(t))
}

pub open spec fn cons(t: Tok, r: Option<Seq<Tok>>) -> Option<Seq<Tok>> {
    match r {
        Some(ts) => Some(seq![t] + ts),
        None => None,
    }
}

pub open spec fn prepend(p: Seq<Tok>, r: Option<Seq<Tok>>) -> Option<Seq<Tok>> {
    match r {
        Some(ts) => Some(p + ts),
        None => None,
    }
}

/// Breaks source text into tokens; `None` when a `=` has no terminating `;`.
pub open spec fn lex(s: Seq<char>) -> Option<Seq<Tok>>
    decreases s.len(),
{
    if s.len() == 0 {
        Some(Seq::empty())
    } else if is_ws(s[0]) {
        lex(s.subrange(1, s.len() as int))
    } else if s[0] == '{' {
        cons(Tok::Open, lex(s.subrange(1, s.len() as int)))
    } else if s[0] == '}' {
        cons(Tok::Close, lex(s.subrange(1, s.len() as int)))
    } else if s[0] == ';' {
        cons(Tok::Semi, lex(s.subrange(1, s.len() as int)))
    } else if s[0] == '=' {
        let j = semi_pos(s) as int;
        if j < 1 || j >= s.len() {
            None
        } else {
            cons(Tok::Assign(trim(s.subrange(1, j))), lex(s.subrange(j + 1, s.len() as int)))
        }
    } else {
        let j = word_len(s) as int;
        if j < 1 || j > s.len() {
            None
        } else {
            cons(Tok::Word(s.subrange(0, j)), lex(s.subrange(j, s.len() as int)))
        }
    }
}

pub open spec fn with_prop(p: DtProp, r: Option<(Seq<DtProp>, Seq<DtNode>, Seq<Tok>)>) -> Option<
    (Seq<DtProp>, Seq<DtNode>, Seq<Tok>),
> {
    match r {
        Some((ps, cs, rest)) => Some((seq![p] + ps, cs, rest)),
        None => None,
    }
}

pub open spec fn with_child(c: DtNode, r: Option<(Seq<DtProp>, Seq<DtNode>, Seq<Tok>)>) -> Option<
    (Seq<DtProp>, Seq<DtNode>, Seq<Tok>),
> {
    match r {
        Some((ps, cs, rest)) => Some((ps, seq![c] + cs, rest)),
        None => None,
    }
}

/// Parses the members of one node body. It stops at a `}` or at the end of the
/// tokens and hands back what it stopped at.
pub open spec fn parse_members(t: Seq<Tok>) -> Option<(Seq<DtProp>, Seq<DtNode>, Seq<Tok>)>
    decreases t.len(),
{
    if t.len() == 0 || t[0] is Close {
        Some((Seq::empty(), Seq::empty(), t))
    } else if t.len() < 2 || !(t[0] is Word) {
        None
    } else {
        let name = t[0]->Word_0;
        let rest = t.subrange(2, t.len() as int);
        match t[1] {
            Tok::Semi => with_prop(DtProp { name, value: None }, parse_members(rest)),
            Tok::Assign(v) => with_prop(DtProp { name, value: Some(v) }, parse_members(rest)),
            Tok::Open => match parse_members(rest) {
                Some((ps, cs, after)) => {
                    if after.len() >= 2 && after[0] is Close && after[1] is Semi && after.len()
                        < t.len() {
                        with_child(
                            DtNode { name, props: ps, children: cs },
                            parse_members(after.subrange(2, after.len() as int)),
                        )
                    } else {
                        None
                    }
                },
                None => None,
            },
            _ => None,
        }
    }
}

/// The tree a document denotes: a root without a name whose members are the
/// top-level members of the text.
pub open spec fn parse_document(s: Seq<char>) -> Option<DtNode> {
    match lex(s) {
        Some(t) => match parse_members(t) {
            Some((ps, cs, rest)) => if rest.len() == 0 {
                Some(DtNode { name: Seq::empty(), props: ps, children: cs })
            } else {
                None
            },
            None => None,
        },
        None => None,
    }
}

pub open spec fn tab_prefix(n: nat) -> Seq<char> {
    Seq::new(n, |i: int| '\t')
}

pub open spec fn ser_prop(p: DtProp, pre: Seq<char>) -> Seq<char> {
    match p.value {
        None => pre + p.name + seq![';', '\n'],
        Some(v) => pre + p.name + seq![' ', '=', ' '] + v + seq![';', '\n'],
    }
}

pub open spec fn ser_props(ps: Seq<DtProp>, pre: Seq<char>) -> Seq<char>
    decreases ps.len(),
{
    if ps.len() == 0 {
        Seq::empty()
    } else {
        ser_prop(ps[0], pre) + ser_props(ps.subrange(1, ps.len() as int), pre)
    }
}

/// A node at the indentation `pre`: header line, members one level deeper, closing line.
pub open spec fn ser_node(n: DtNode, pre: Seq<char>) -> Seq<char>
    decreases n, 1nat,
{
    pre + n.name + seq![' ', '{', '\n'] + ser_props(n.props, pre.push('\t')) + ser_children(
        n.children,
        pre.push('\t'),
    ) + pre + seq!['}', ';', '\n']
}

pub open spec fn ser_children(cs: Seq<DtNode>, pre: Seq<char>) -> Seq<char>
    decreases cs, 0nat,
{
    if cs.len() == 0 {
        Seq::empty()
    } else {
        ser_node(cs[0], pre) + ser_children(cs.subrange(1, cs.len() as int), pre)
    }
}

/// The members of `n` written at the indentation `pre`: properties first, then children.
pub open spec fn ser_body(n: DtNode, pre: Seq<char>) -> Seq<char> {
    ser_props(n.props, pre) + ser_children(n.children, pre)
}

pub open spec fn toks_prop(p: DtProp) -> Seq<Tok> {
    match p.value {
        None => seq![Tok::Word(p.name), Tok::Semi],
        Some(v) => seq![Tok::Word(p.name), Tok::Assign(v)],
    }
}

pub open spec fn toks_props(ps: Seq<DtProp>) -> Seq<Tok>
    decreases ps.len(),
{
    if ps.len() == 0 {
        Seq::empty()
    } else {
        toks_prop(ps[0]) + toks_props(ps.subrange(1, ps.len() as int))
    }
}

pub open spec fn toks_node(n: DtNode) -> Seq<Tok>
    decreases n, 1nat,
{
    seq![Tok::Word(n.name), Tok::Open] + toks_props(n.props) + toks_children(n.children) + seq![
        Tok::Close,
        Tok::Semi,
    ]
}

pub open spec fn toks_children(cs: Seq<DtNode>) -> Seq<Tok>
    decreases cs, 0nat,
{
    if cs.len() == 0 {
        Seq::empty()
    } else {
        toks_node(cs[0]) + toks_children(cs.subrange(1, cs.len() as int))
    }
}

/// Index of the first child whose full name is `name`.
pub open spec fn first_child_index(cs: Seq<DtNode>, name: Seq<char>) -> Option<int>
    decreases cs.len(),
{
    if cs.len() == 0 {
        None
    } else if cs[0].name == name {
        Some(0)
    } else {
        match first_child_index(cs.subrange(1, cs.len() as int), name) {
            Some(k) => Some(k + 1),
            None => None,
        }
    }
}

/// Index of the first property named `name`.
pub open spec fn first_prop_index(ps: Seq<DtProp>, name: Seq<char>) -> Option<int>
    decreases ps.len(),
{
    if ps.len() == 0 {
        None
    } else if ps[0].name == name {
        Some(0)
    } else {
        match first_prop_index(ps.subrange(1, ps.len() as int), name) {
            Some(k) => Some(k + 1),
            None => None,
        }
    }
}

/// The tree after the value of property `prop` of the node reached from `n` by
/// `path` (child names, first match at each step) is replaced by `v`; `None`
/// when a node on the path or the property is missing.
pub open spec fn set_at(n: DtNode, path: Seq<Seq<char>>, prop: Seq<char>, v: Option<Seq<char>>) -> Option<
    DtNode,
>
    decreases path.len(),
{
    if path.len() == 0 {
        match first_prop_index(n.props, prop) {
            Some(i) => Some(
                DtNode { props: n.props.update(i, DtProp { name: prop, value: v }), ..n },
            ),
            None => None,
        }
    } else {
        match first_child_index(n.children, path[0]) {
            Some(i) => match set_at(n.children[i], path.subrange(1, path.len() as int), prop, v) {
                Some(c) => Some(DtNode { children: n.children.update(i, c), ..n }),
                None => None,
            },
            None => None,
        }
    }
}

/// Where a lookup of property `prop` along `path` from `n` stops: the name
/// that is missing (a node on the path, or the property), and how many path
/// elements were walked before it.
pub open spec fn first_miss(n: DtNode, path: Seq<Seq<char>>, prop: Seq<char>) -> (Seq<char>, nat)
    decreases path.len(),
{
    if path.len() == 0 {
        (prop, 0)
    } else {
        match first_child_index(n.children, path[0]) {
            Some(i) => {
                let m = first_miss(n.children[i], path.subrange(1, path.len() as int), prop);
                (m.0, m.1 + 1)
            },
            None => (path[0], 0),
        }
    }
}

/// The value of property `prop` of the node reached from `n` by `path`.
pub open spec fn value_at(n: DtNode, path: Seq<Seq<char>>, prop: Seq<char>) -> Option<
    Option<Seq<char>>,
>
    decreases path.len(),
{
    if path.len() == 0 {
        match first_prop_index(n.props, prop) {
            Some(i) => Some(n.props[i].value),
            None => None,
        }
    } else {
        match first_child_index(n.children, path[0]) {
            Some(i) => value_at(n.children[i], path.subrange(1, path.len() as int), prop),
            None => None,
        }
    }
}

pub proof fn lemma_first_child_index(cs: Seq<DtNode>, name: Seq<char>)
    ensures
        match first_child_index(cs, name) {
            Some(i) => 0 <= i < cs.len() && cs[i].name == name && forall|j: int|
                0 <= j < i ==> #[trigger] cs[j].name != name,
            None => forall|j: int| 0 <= j < cs.len() ==> #[trigger] cs[j].name != name,
        },
    decreases cs.len(),
{
    if cs.len() > 0 {
        let c1 = cs.subrange(1, cs.len() as int);
        lemma_first_child_index(c1, name);
        if cs[0].name != name {
            match first_child_index(c1, name) {
                Some(k) => {
                    assert(cs[k + 1] == c1[k]);
                    assert forall|j: int| 0 <= j < k + 1 implies #[trigger] cs[j].name != name by {
                        if j > 0 {
                            assert(cs[j] == c1[j - 1]);
                        }
                    }
                },
                None => {
                    assert forall|j: int| 0 <= j < cs.len() implies #[trigger] cs[j].name != name by {
                        if j > 0 {
                            assert(cs[j] == c1[j - 1]);
                        }
                    }
                },
            }
        }
    }
}

pub proof fn lemma_first_prop_index(ps: Seq<DtProp>, name: Seq<char>)
    ensures
        match first_prop_index(ps, name) {
            Some(i) => 0 <= i < ps.len() && ps[i].name == name && forall|j: int|
                0 <= j < i ==> #[trigger] ps[j].name != name,
            None => forall|j: int| 0 <= j < ps.len() ==> #[trigger] ps[j].name != name,
        },
    decreases ps.len(),
{
    if ps.len() > 0 {
        let p1 = ps.subrange(1, ps.len() as int);
        lemma_first_prop_index(p1, name);
        if ps[0].name != name {
            match first_prop_index(p1, name) {
                Some(k) => {
                    assert(ps[k + 1] == p1[k]);
                    assert forall|j: int| 0 <= j < k + 1 implies #[trigger] ps[j].name != name by {
                        if j > 0 {
                            assert(ps[j] == p1[j - 1]);
                        }
                    }
                },
                None => {
                    assert forall|j: int| 0 <= j < ps.len() implies #[trigger] ps[j].name != name by {
                        if j > 0 {
                            assert(ps[j] == p1[j - 1]);
                        }
                    }
                },
            }
        }
    }
}

} // verus!
