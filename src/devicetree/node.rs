//! The executable tree: parsing source text, lookups, point mutation and
//! writing the tree back out as source text.
use vstd::prelude::*;

use crate::devicetree::lex_lemmas::{
    lemma_lead_ws_is, lemma_prepend_assoc, lemma_semi_pos_is, lemma_trail_ws_is,
    lemma_word_len_is,
};
use crate::devicetree::model::{
    DtNode, DtProp, Tok, first_child_index, first_miss, first_prop_index, is_word_char, is_ws, lead_ws, lex,
    lemma_first_child_index, lemma_first_prop_index, parse_document, parse_members, prepend,
    ser_body, ser_children, ser_node, ser_prop, ser_props, set_at, tab_prefix, trail_ws, trim,
    with_child, with_prop,
};
use crate::text::{chars_of, push_char, string_of};

verus! {

/// A property: its name and, unless it is a flag, its raw value text.
pub struct DtbProperty {
    pub name: String,
    pub value: Option<String>,
}

/// A node of a device tree: full name, properties and children, in order.
pub struct DtbNode {
    pub name: String,
    pub properties: Vec<DtbProperty>,
    pub children: Vec<DtbNode>,
}

/// Why a document could not be read or patched.
pub enum DtsError {
    /// The text does not follow the source grammar.
    Parse,
    /// A node or property on a lookup path is absent: the name that was looked
    /// for, and the node names walked before it.
    NotFound { name: String, context: Vec<String> },
}

pub open spec fn opt_view(v: Option<String>) -> Option<Seq<char>> {
    match v {
        Some(s) => Some(s@),
        None => None,
    }
}

impl View for DtbProperty {
    type V = DtProp;

    open spec fn view(&self) -> DtProp {
        DtProp { name: self.name@, value: opt_view(self.value) }
    }
}

pub open spec fn props_view(v: Seq<DtbProperty>) -> Seq<DtProp> {
    Seq::new(v.len(), |i: int| v[i]@)
}

pub open spec fn empty_node() -> DtNode {
    DtNode { name: Seq::empty(), props: Seq::empty(), children: Seq::empty() }
}

impl View for DtbNode {
    type V = DtNode;

    open spec fn view(&self) -> DtNode
        decreases self,
    {
        DtNode {
            name: self.name@,
            props: props_view(self.properties@),
            children: Seq::new(
                self.children@.len(),
                |i: int|
                    if 0 <= i < self.children@.len() {
                        self.children@[i].view()
                    } else {
                        empty_node()
                    },
            ),
        }
    }
}

pub open spec fn nodes_view(v: Seq<DtbNode>) -> Seq<DtNode> {
    Seq::new(v.len(), |i: int| v[i]@)
}

pub enum TokKind {
    Word,
    Open,
    Close,
    Semi,
    Assign,
}

/// A token as a kind and the range of the source characters it carries.
pub struct SrcTok {
    pub kind: TokKind,
    pub start: usize,
    pub end: usize,
}

pub open spec fn tok_of(t: SrcTok, s: Seq<char>) -> Tok {
    match t.kind {
        TokKind::Word => Tok::Word(s.subrange(t.start as int, t.end as int)),
        TokKind::Open => Tok::Open,
        TokKind::Close => Tok::Close,
        TokKind::Semi => Tok::Semi,
        TokKind::Assign => Tok::Assign(s.subrange(t.start as int, t.end as int)),
    }
}

pub open spec fn toks_of(ts: Seq<SrcTok>, s: Seq<char>) -> Seq<Tok> {
    Seq::new(ts.len(), |i: int| tok_of(ts[i], s))
}

pub open spec fn ranges_ok(ts: Seq<SrcTok>, n: nat) -> bool {
    forall|i: int| 0 <= i < ts.len() ==> #[trigger] ts[i].start <= ts[i].end <= n
}

fn is_ws_char(c: char) -> (r: bool)
    ensures
        r == is_ws(c),
{
    c == ' ' || c == '\t' || c == '\n' || c == '\r'
}

fn is_word(c: char) -> (r: bool)
    ensures
        r == is_word_char(c),
{
    !is_ws_char(c) && c != '{' && c != '}' && c != ';' && c != '='
}

proof fn lemma_push_tok(ts: Seq<SrcTok>, t: SrcTok, s: Seq<char>, r: Option<Seq<Tok>>)
    requires
        ranges_ok(ts, s.len()),
        t.start <= t.end <= s.len(),
    ensures
        ranges_ok(ts.push(t), s.len()),
        prepend(toks_of(ts, s), prepend(seq![tok_of(t, s)], r)) == prepend(
            toks_of(ts.push(t), s),
            r,
        ),
{
    lemma_prepend_assoc(toks_of(ts, s), seq![tok_of(t, s)], r);
    assert forall|i: int| 0 <= i < ts.push(t).len() implies #[trigger] ts.push(t)[i].start
        <= ts.push(t)[i].end <= s.len() by {
        if i < ts.len() {
            assert(ts.push(t)[i] == ts[i]);
        }
    }
    assert(toks_of(ts, s) + seq![tok_of(t, s)] =~= toks_of(ts.push(t), s));
}

/// Breaks the characters of a document into tokens, as `lex` does.
pub fn lex_chars(s: &Vec<char>) -> (r: Option<Vec<SrcTok>>)
    ensures
        match r {
            Some(ts) => ranges_ok(ts@, s@.len()) && lex(s@) == Some(toks_of(ts@, s@)),
            None => lex(s@) is None,
        },
{
    let n = s.len();
    let mut ts: Vec<SrcTok> = Vec::new();
    let mut i: usize = 0;
    assert(s@.subrange(0, n as int) =~= s@);
    assert(toks_of(ts@, s@) =~= Seq::<Tok>::empty());
    while i < n
        invariant
            i <= n == s.len(),
            ranges_ok(ts@, n as nat),
            lex(s@) == prepend(toks_of(ts@, s@), lex(s@.subrange(i as int, n as int))),
        decreases n - i,
    {
        let c = s[i];
        let ghost rest = s@.subrange(i as int, n as int);
        assert(rest[0] == c);
        assert(rest.subrange(1, rest.len() as int) =~= s@.subrange(i + 1, n as int));
        if is_ws_char(c) {
            i += 1;
        } else if c == '{' || c == '}' || c == ';' {
            let kind = if c == '{' {
                TokKind::Open
            } else if c == '}' {
                TokKind::Close
            } else {
                TokKind::Semi
            };
            let t = SrcTok { kind, start: i, end: i };
            proof {
                lemma_push_tok(ts@, t, s@, lex(s@.subrange(i + 1, n as int)));
            }
            ts.push(t);
            i += 1;
        } else if c == '=' {
            let mut k: usize = i + 1;
            while k < n && s[k] != ';'
                invariant
                    i < k <= n == s.len(),
                    forall|j: int| i < j < k ==> #[trigger] s@[j] != ';',
                decreases n - k,
            {
                k += 1;
            }
            proof {
                assert forall|j: int| 0 <= j < k - i implies #[trigger] rest[j] != ';' by {
                    assert(rest[j] == s@[i + j]);
                }
                if k < n {
                    assert(rest[k - i] == s@[k as int]);
                }
                lemma_semi_pos_is(rest, k - i);
            }
            if k == n {
                return None;
            }
            let mut a: usize = i + 1;
            while a < k && is_ws_char(s[a])
                invariant
                    i < a <= k < n == s.len(),
                    forall|j: int| i < j < a ==> is_ws(#[trigger] s@[j]),
                decreases k - a,
            {
                a += 1;
            }
            let mut b: usize = k;
            while b > a && is_ws_char(s[b - 1])
                invariant
                    i < a <= b <= k < n == s.len(),
                    forall|j: int| b <= j < k ==> is_ws(#[trigger] s@[j]),
                decreases b - a,
            {
                b -= 1;
            }
            let t = SrcTok { kind: TokKind::Assign, start: a, end: b };
            proof {
                let seg = rest.subrange(1, k - i);
                assert(seg =~= s@.subrange(i + 1, k as int));
                assert forall|j: int| 0 <= j < a - i - 1 implies is_ws(#[trigger] seg[j]) by {
                    assert(seg[j] == s@[i + 1 + j]);
                }
                if a < k {
                    assert(seg[a - i - 1] == s@[a as int]);
                }
                lemma_lead_ws_is(seg, a - i - 1);
                let tt = seg.subrange(lead_ws(seg) as int, seg.len() as int);
                assert(tt =~= s@.subrange(a as int, k as int));
                assert forall|j: int| tt.len() - (k - b) <= j < tt.len() implies is_ws(
                    #[trigger] tt[j],
                ) by {
                    assert(tt[j] == s@[a + j]);
                }
                if b > a {
                    assert(tt[tt.len() - (k - b) - 1] == s@[b - 1]);
                }
                lemma_trail_ws_is(tt, k - b);
                assert(trim(seg) =~= s@.subrange(a as int, b as int));
                assert(rest.subrange(k - i + 1, rest.len() as int) =~= s@.subrange(
                    k + 1,
                    n as int,
                ));
                lemma_push_tok(ts@, t, s@, lex(s@.subrange(k + 1, n as int)));
            }
            ts.push(t);
            i = k + 1;
        } else {
            let mut k: usize = i;
            while k < n && is_word(s[k])
                invariant
                    i <= k <= n == s.len(),
                    forall|j: int| i <= j < k ==> is_word_char(#[trigger] s@[j]),
                decreases n - k,
            {
                k += 1;
            }
            proof {
                assert forall|j: int| 0 <= j < k - i implies is_word_char(#[trigger] rest[j]) by {
                    assert(rest[j] == s@[i + j]);
                }
                if k < n {
                    assert(rest[k - i] == s@[k as int]);
                }
                lemma_word_len_is(rest, k - i);
                assert(rest.subrange(0, k - i) =~= s@.subrange(i as int, k as int));
                assert(rest.subrange(k - i, rest.len() as int) =~= s@.subrange(k as int, n as int));
            }
            let t = SrcTok { kind: TokKind::Word, start: i, end: k };
            proof {
                lemma_push_tok(ts@, t, s@, lex(s@.subrange(k as int, n as int)));
            }
            ts.push(t);
            i = k;
        }
    }
    assert(s@.subrange(n as int, n as int) =~= Seq::<char>::empty());
    assert(toks_of(ts@, s@) + Seq::<Tok>::empty() =~= toks_of(ts@, s@));
    Some(ts)
}

pub open spec fn with_members(
    ps: Seq<DtProp>,
    cs: Seq<DtNode>,
    r: Option<(Seq<DtProp>, Seq<DtNode>, Seq<Tok>)>,
) -> Option<(Seq<DtProp>, Seq<DtNode>, Seq<Tok>)> {
    match r {
        Some((ps2, cs2, rest)) => Some((ps + ps2, cs + cs2, rest)),
        None => None,
    }
}

proof fn lemma_with_prop(
    ps: Seq<DtProp>,
    cs: Seq<DtNode>,
    p: DtProp,
    r: Option<(Seq<DtProp>, Seq<DtNode>, Seq<Tok>)>,
)
    ensures
        with_members(ps, cs, with_prop(p, r)) == with_members(ps.push(p), cs, r),
{
    if let Some((ps2, cs2, rest)) = r {
        assert(ps + (seq![p] + ps2) =~= ps.push(p) + ps2);
    }
}

proof fn lemma_with_child(
    ps: Seq<DtProp>,
    cs: Seq<DtNode>,
    c: DtNode,
    r: Option<(Seq<DtProp>, Seq<DtNode>, Seq<Tok>)>,
)
    ensures
        with_members(ps, cs, with_child(c, r)) == with_members(ps, cs.push(c), r),
{
    if let Some((ps2, cs2, rest)) = r {
        assert(cs + (seq![c] + cs2) =~= cs.push(c) + cs2);
    }
}

/// Parses the members of one node body from token `pos` on, as `parse_members`
/// does; on success also gives the index of the token it stopped at.
fn parse_members_at(s: &Vec<char>, ts: &Vec<SrcTok>, pos: usize) -> (r: Option<
    (Vec<DtbProperty>, Vec<DtbNode>, usize),
>)
    requires
        pos <= ts.len(),
        ranges_ok(ts@, s@.len()),
    ensures
        match r {
            Some((ps, cs, end)) => pos <= end <= ts.len() && parse_members(
                toks_of(ts@, s@).subrange(pos as int, ts.len() as int),
            ) == Some(
                (
                    props_view(ps@),
                    nodes_view(cs@),
                    toks_of(ts@, s@).subrange(end as int, ts.len() as int),
                ),
            ),
            None => parse_members(toks_of(ts@, s@).subrange(pos as int, ts.len() as int)) is None,
        },
    decreases ts.len() - pos,
{
    let ghost tv = toks_of(ts@, s@);
    let n = ts.len();
    let mut props: Vec<DtbProperty> = Vec::new();
    let mut nodes: Vec<DtbNode> = Vec::new();
    let mut i: usize = pos;
    assert(props_view(props@) =~= Seq::<DtProp>::empty());
    assert(nodes_view(nodes@) =~= Seq::<DtNode>::empty());
    proof {
        let r0 = parse_members(tv.subrange(pos as int, n as int));
        if let Some((a, b, c)) = r0 {
            assert(Seq::<DtProp>::empty() + a =~= a);
            assert(Seq::<DtNode>::empty() + b =~= b);
        }
    }
    while i < n
        invariant
            pos <= i <= n == ts.len(),
            ranges_ok(ts@, s@.len()),
            tv == toks_of(ts@, s@),
            parse_members(tv.subrange(pos as int, n as int)) == with_members(
                props_view(props@),
                nodes_view(nodes@),
                parse_members(tv.subrange(i as int, n as int)),
            ),
        decreases n - i,
    {
        let ghost t = tv.subrange(i as int, n as int);
        assert(t[0] == tok_of(ts@[i as int], s@));
        match ts[i].kind {
            TokKind::Close => {
                proof {
                    assert(props_view(props@) + Seq::empty() =~= props_view(props@));
                    assert(nodes_view(nodes@) + Seq::empty() =~= nodes_view(nodes@));
                }
                return Some((props, nodes, i));
            },
            TokKind::Word => {},
            _ => {
                return None;
            },
        }
        if i + 1 >= n {
            return None;
        }
        assert(t[1] == tok_of(ts@[i + 1], s@));
        assert(t.subrange(2, t.len() as int) =~= tv.subrange(i + 2, n as int));
        let name = string_of(s, ts[i].start, ts[i].end);
        match ts[i + 1].kind {
            TokKind::Semi => {
                let p = DtbProperty { name, value: None };
                proof {
                    lemma_with_prop(
                        props_view(props@),
                        nodes_view(nodes@),
                        p@,
                        parse_members(tv.subrange(i + 2, n as int)),
                    );
                    assert(props_view(props@.push(p)) =~= props_view(props@).push(p@));
                }
                props.push(p);
                i = i + 2;
            },
            TokKind::Assign => {
                let v = string_of(s, ts[i + 1].start, ts[i + 1].end);
                let p = DtbProperty { name, value: Some(v) };
                proof {
                    lemma_with_prop(
                        props_view(props@),
                        nodes_view(nodes@),
                        p@,
                        parse_members(tv.subrange(i + 2, n as int)),
                    );
                    assert(props_view(props@.push(p)) =~= props_view(props@).push(p@));
                }
                props.push(p);
                i = i + 2;
            },
            TokKind::Open => {
                match parse_members_at(s, ts, i + 2) {
                    Some((cps, ccs, end)) => {
                        if end >= n || end + 1 >= n {
                            return None;
                        }
                        match ts[end].kind {
                            TokKind::Close => {},
                            _ => {
                                return None;
                            },
                        }
                        match ts[end + 1].kind {
                            TokKind::Semi => {},
                            _ => {
                                return None;
                            },
                        }
                        let child = DtbNode { name, properties: cps, children: ccs };
                        proof {
                            let after = tv.subrange(end as int, n as int);
                            assert(after[0] == tok_of(ts@[end as int], s@));
                            assert(after[1] == tok_of(ts@[end + 1], s@));
                            assert(after.subrange(2, after.len() as int) =~= tv.subrange(
                                end + 2,
                                n as int,
                            ));
                            assert(child@.children =~= nodes_view(ccs@));
                            lemma_with_child(
                                props_view(props@),
                                nodes_view(nodes@),
                                child@,
                                parse_members(tv.subrange(end + 2, n as int)),
                            );
                            assert(nodes_view(nodes@.push(child)) =~= nodes_view(nodes@).push(
                                child@,
                            ));
                        }
                        nodes.push(child);
                        i = end + 2;
                    },
                    None => {
                        return None;
                    },
                }
            },
            _ => {
                return None;
            },
        }
    }
    proof {
        assert(tv.subrange(n as int, n as int).len() == 0);
        assert(props_view(props@) + Seq::empty() =~= props_view(props@));
        assert(nodes_view(nodes@) + Seq::empty() =~= nodes_view(nodes@));
    }
    Some((props, nodes, n))
}

impl DtbNode {
    /// Parses a document into a tree whose root has an empty name and holds the
    /// top-level members.
    pub fn parse(text: &str) -> (r: Result<DtbNode, DtsError>)
        ensures
            match r {
                Ok(n) => parse_document(text@) == Some(n@),
                Err(e) => parse_document(text@) is None && e is Parse,
            },
    {
        let s = chars_of(text);
        let ts = match lex_chars(&s) {
            Some(ts) => ts,
            None => {
                return Err(DtsError::Parse);
            },
        };
        assert(toks_of(ts@, s@).subrange(0, ts.len() as int) =~= toks_of(ts@, s@));
        match parse_members_at(&s, &ts, 0) {
            Some((props, nodes, end)) => {
                if end != ts.len() {
                    return Err(DtsError::Parse);
                }
                let root = DtbNode { name: String::new(), properties: props, children: nodes };
                assert(root@.children =~= nodes_view(nodes@));
                assert(root@.name =~= Seq::<char>::empty());
                Ok(root)
            },
            None => Err(DtsError::Parse),
        }
    }
}

fn write_prop(p: &DtbProperty, pre: &String, out: &mut String)
    ensures
        final(out)@ == old(out)@ + ser_prop(p@, pre@),
{
    out.append(pre.as_str());
    out.append(p.name.as_str());
    proof {
        reveal_strlit(";\n");
        reveal_strlit(" = ");
        assert(";\n"@ =~= seq![';', '\n']);
        assert(" = "@ =~= seq![' ', '=', ' ']);
    }
    match &p.value {
        None => {
            out.append(";\n");
        },
        Some(v) => {
            out.append(" = ");
            out.append(v.as_str());
            out.append(";\n");
        },
    }
    assert(out@ =~= old(out)@ + ser_prop(p@, pre@));
}

fn write_props(ps: &Vec<DtbProperty>, pre: &String, out: &mut String)
    ensures
        final(out)@ == old(out)@ + ser_props(props_view(ps@), pre@),
{
    let ghost pv = props_view(ps@);
    let mut i: usize = 0;
    assert(pv.subrange(0, pv.len() as int) =~= pv);
    assert(out@ =~= out@ + Seq::<char>::empty());
    while i < ps.len()
        invariant
            0 <= i <= ps.len(),
            pv == props_view(ps@),
            old(out)@ + ser_props(pv, pre@) == out@ + ser_props(
                pv.subrange(i as int, pv.len() as int),
                pre@,
            ),
        decreases ps.len() - i,
    {
        let ghost rest = pv.subrange(i as int, pv.len() as int);
        assert(rest[0] == ps@[i as int]@);
        assert(rest.subrange(1, rest.len() as int) =~= pv.subrange(i + 1, pv.len() as int));
        let ghost before = out@;
        write_prop(&ps[i], pre, out);
        assert(before + ser_props(rest, pre@) =~= out@ + ser_props(
            pv.subrange(i + 1, pv.len() as int),
            pre@,
        ));
        i += 1;
    }
    assert(out@ + ser_props(pv.subrange(i as int, pv.len() as int), pre@) =~= out@);
}

fn write_node(n: &DtbNode, pre: &String, out: &mut String)
    ensures
        final(out)@ == old(out)@ + ser_node(n@, pre@),
    decreases n, 1nat,
{
    proof {
        reveal_strlit(" {\n");
        reveal_strlit("};\n");
        assert(" {\n"@ =~= seq![' ', '{', '\n']);
        assert("};\n"@ =~= seq!['}', ';', '\n']);
    }
    out.append(pre.as_str());
    out.append(n.name.as_str());
    out.append(" {\n");
    let mut inner = pre.clone();
    push_char(&mut inner, '\t');
    write_props(&n.properties, &inner, out);
    write_children(&n.children, &inner, out);
    out.append(pre.as_str());
    out.append("};\n");
    assert(n@.children =~= nodes_view(n.children@));
    assert(out@ =~= old(out)@ + ser_node(n@, pre@));
}

fn write_children(cs: &Vec<DtbNode>, pre: &String, out: &mut String)
    ensures
        final(out)@ == old(out)@ + ser_children(nodes_view(cs@), pre@),
    decreases cs, 0nat,
{
    let ghost cv = nodes_view(cs@);
    let mut i: usize = 0;
    assert(cv.subrange(0, cv.len() as int) =~= cv);
    assert(out@ =~= out@ + Seq::<char>::empty());
    while i < cs.len()
        invariant
            0 <= i <= cs.len(),
            cv == nodes_view(cs@),
            old(out)@ + ser_children(cv, pre@) == out@ + ser_children(
                cv.subrange(i as int, cv.len() as int),
                pre@,
            ),
        decreases cs.len() - i,
    {
        let ghost rest = cv.subrange(i as int, cv.len() as int);
        assert(rest[0] == cs@[i as int]@);
        assert(rest.subrange(1, rest.len() as int) =~= cv.subrange(i + 1, cv.len() as int));
        let ghost before = out@;
        write_node(&cs[i], pre, out);
        assert(before + ser_children(rest, pre@) =~= out@ + ser_children(
            cv.subrange(i + 1, cv.len() as int),
            pre@,
        ));
        i += 1;
    }
    assert(out@ + ser_children(cv.subrange(i as int, cv.len() as int), pre@) =~= out@);
}

impl DtbNode {
    /// Writes the members of this node as source text, properties first and
    /// then children, each line indented by `indent` tabs and nested members
    /// one tab deeper.
    pub fn stringify(&self, indent: usize) -> (r: String)
        ensures
            r@ == ser_body(self@, tab_prefix(indent as nat)),
    {
        let mut pre = String::new();
        let mut k: usize = 0;
        assert(pre@ =~= tab_prefix(0));
        while k < indent
            invariant
                k <= indent,
                pre@ == tab_prefix(k as nat),
            decreases indent - k,
        {
            push_char(&mut pre, '\t');
            assert(tab_prefix((k + 1) as nat) =~= tab_prefix(k as nat).push('\t'));
            k += 1;
        }
        let mut out = String::new();
        write_props(&self.properties, &pre, &mut out);
        write_children(&self.children, &pre, &mut out);
        assert(self@.children =~= nodes_view(self.children@));
        assert(out@ =~= ser_body(self@, tab_prefix(indent as nat)));
        out
    }

    /// The first child whose full name (unit address included) is `name`.
    pub fn find_childnode(&mut self, name: &str) -> (r: Option<&mut DtbNode>)
        ensures
            match r {
                Some(c) => {
                    &&& first_child_index(old(self)@.children, name@) matches Some(i)
                    &&& *c == old(self).children@[i]
                    &&& final(self).children@ == old(self).children@.update(i, *final(c))
                    &&& final(self).name == old(self).name
                    &&& final(self).properties == old(self).properties
                },
                None => {
                    &&& first_child_index(old(self)@.children, name@) is None
                    &&& *final(self) == *old(self)
                },
            },
    {
        proof {
            lemma_first_child_index(self@.children, name@);
        }
        let mut i: usize = 0;
        while i < self.children.len()
            invariant
                0 <= i <= self.children@.len(),
                *self == *old(self),
                forall|j: int| 0 <= j < i ==> #[trigger] self.children@[j].name@ != name@,
            decreases self.children@.len() - i,
        {
            if crate::text::same_text(self.children[i].name.as_str(), name) {
                proof {
                    lemma_first_child_index(self@.children, name@);
                    assert(self.children@[i as int]@.name == self.children@[i as int].name@);
                    assert(self@.children[i as int] == self.children@[i as int]@);
                    assert(self@.children[i as int].name == name@);
                    assert forall|j: int| 0 <= j < i implies #[trigger] self@.children[j].name
                        != name@ by {
                        assert(self@.children[j] == self.children@[j]@);
                    }
                    assert(first_child_index(old(self)@.children, name@) == Some(i as int));
                }
                return Some(&mut self.children[i]);
            }
            i += 1;
        }
        proof {
            assert forall|j: int| 0 <= j < self@.children.len() implies #[trigger] self@.children[j].name
                != name@ by {
                assert(self@.children[j] == self.children@[j]@);
            }
        }
        None
    }

    /// The first property named `name`.
    pub fn find_property(&mut self, name: &str) -> (r: Option<&mut DtbProperty>)
        ensures
            match r {
                Some(p) => {
                    &&& first_prop_index(old(self)@.props, name@) matches Some(i)
                    &&& *p == old(self).properties@[i]
                    &&& final(self).properties@ == old(self).properties@.update(i, *final(p))
                    &&& final(self).name == old(self).name
                    &&& final(self).children == old(self).children
                },
                None => {
                    &&& first_prop_index(old(self)@.props, name@) is None
                    &&& *final(self) == *old(self)
                },
            },
    {
        proof {
            lemma_first_prop_index(self@.props, name@);
        }
        let mut i: usize = 0;
        while i < self.properties.len()
            invariant
                0 <= i <= self.properties@.len(),
                *self == *old(self),
                forall|j: int| 0 <= j < i ==> #[trigger] self.properties@[j].name@ != name@,
            decreases self.properties@.len() - i,
        {
            if crate::text::same_text(self.properties[i].name.as_str(), name) {
                proof {
                    lemma_first_prop_index(self@.props, name@);
                    assert(self@.props[i as int] == self.properties@[i as int]@);
                    assert(self@.props[i as int].name == name@);
                    assert forall|j: int| 0 <= j < i implies #[trigger] self@.props[j].name
                        != name@ by {
                        assert(self@.props[j] == self.properties@[j]@);
                    }
                    assert(first_prop_index(old(self)@.props, name@) == Some(i as int));
                }
                return Some(&mut self.properties[i]);
            }
            i += 1;
        }
        proof {
            assert forall|j: int| 0 <= j < self@.props.len() implies #[trigger] self@.props[j].name
                != name@ by {
                assert(self@.props[j] == self.properties@[j]@);
            }
        }
        None
    }
}

pub open spec fn path_view(v: Seq<String>) -> Seq<Seq<char>> {
    Seq::new(v.len(), |i: int| v[i]@)
}

fn path_prefix(path: &Vec<String>, k: usize) -> (r: Vec<String>)
    requires
        k <= path.len(),
    ensures
        path_view(r@) == path_view(path@).subrange(0, k as int),
{
    let mut r: Vec<String> = Vec::new();
    let mut j: usize = 0;
    while j < k
        invariant
            j <= k <= path.len(),
            r@.len() == j,
            path_view(r@) == path_view(path@).subrange(0, j as int),
        decreases k - j,
    {
        let ghost before = r@;
        let x = path[j].clone();
        assert(x@ == path@[j as int]@);
        r.push(x);
        assert forall|m: int| 0 <= m <= j implies #[trigger] path_view(r@)[m] == path_view(
            path@,
        ).subrange(0, j + 1)[m] by {
            if m < j {
                assert(r@[m] == before[m]);
                assert(path_view(before)[m] == path_view(path@).subrange(0, j as int)[m]);
            }
        }
        assert(path_view(r@) =~= path_view(path@).subrange(0, j + 1));
        j += 1;
    }
    r
}

fn set_from(
    node: &mut DtbNode,
    path: &Vec<String>,
    k: usize,
    prop: &str,
    value: Option<String>,
) -> (r: Result<(), DtsError>)
    requires
        k <= path.len(),
    ensures
        match set_at(
            old(node)@,
            path_view(path@).subrange(k as int, path.len() as int),
            prop@,
            opt_view(value),
        ) {
            Some(n2) => r is Ok && final(node)@ == n2,
            None => {
                let m = first_miss(
                    old(node)@,
                    path_view(path@).subrange(k as int, path.len() as int),
                    prop@,
                );
                &&& r matches Err(DtsError::NotFound { name, context }) && name@ == m.0
                    && path_view(context@) == path_view(path@).subrange(0, k + m.1)
                &&& final(node)@ == old(node)@
            },
        },
    decreases path.len() - k,
{
    let ghost pv = path_view(path@).subrange(k as int, path.len() as int);
    if k == path.len() {
        assert(pv.len() == 0);
        match node.find_property(prop) {
            Some(p) => {
                p.value = value;
                proof {
                    let i = first_prop_index(old(node)@.props, prop@)->0;
                    lemma_first_prop_index(old(node)@.props, prop@);
                    assert(old(node)@.props[i] == old(node).properties@[i]@);
                }
                assert(node@.props =~= old(node)@.props.update(
                    first_prop_index(old(node)@.props, prop@)->0,
                    DtProp { name: prop@, value: opt_view(value) },
                ));
                assert(node@.children =~= old(node)@.children);
                Ok(())
            },
            None => Err(
                DtsError::NotFound { name: String::from_str(prop), context: path_prefix(path, k) },
            ),
        }
    } else {
        assert(pv[0] == path@[k as int]@);
        assert(pv.subrange(1, pv.len() as int) =~= path_view(path@).subrange(
            k + 1,
            path.len() as int,
        ));
        match node.find_childnode(path[k].as_str()) {
            Some(c) => {
                let ghost i = first_child_index(old(node)@.children, path@[k as int]@)->0;
                let ghost c0 = *c;
                proof {
                    lemma_first_child_index(old(node)@.children, path@[k as int]@);
                    assert(old(node)@.children[i] == old(node).children@[i]@);
                }
                let r = set_from(c, path, k + 1, prop, value);
                assert(old(node)@.children[i] == c0@);
                assert(node.children@ == old(node).children@.update(i, *c));
                assert forall|j: int| 0 <= j < node@.children.len() implies #[trigger] node@.children[j]
                    == old(node)@.children.update(i, c@)[j] by {
                    assert(node@.children[j] == node.children@[j]@);
                    if j != i {
                        assert(old(node)@.children[j] == old(node).children@[j]@);
                    }
                }
                assert(node@.children =~= old(node)@.children.update(i, c@));
                assert(node@.props =~= old(node)@.props);
                proof {
                    if r is Err {
                        assert(old(node)@.children.update(i, c@) =~= old(node)@.children);
                    }
                }
                r
            },
            None => Err(
                DtsError::NotFound { name: path[k].clone(), context: path_prefix(path, k) },
            ),
        }
    }
}

impl DtbNode {
    /// Replaces the value of property `prop` of the node reached by `path`
    /// (child names from this node down, first match at each step). A node on
    /// the path or the property that is missing gives `NotFound` and leaves the
    /// tree as it was.
    pub fn set_property(&mut self, path: &Vec<String>, prop: &str, value: Option<String>) -> (r:
        Result<(), DtsError>)
        ensures
            match set_at(old(self)@, path_view(path@), prop@, opt_view(value)) {
                Some(n2) => r is Ok && final(self)@ == n2,
                None => {
                    let m = first_miss(old(self)@, path_view(path@), prop@);
                    &&& r matches Err(DtsError::NotFound { name, context }) && name@ == m.0
                        && path_view(context@) == path_view(path@).subrange(0, m.1 as int)
                    &&& final(self)@ == old(self)@
                },
            },
    {
        assert(path_view(path@).subrange(0, path.len() as int) =~= path_view(path@));
        set_from(self, path, 0, prop, value)
    }
}

} // verus!
