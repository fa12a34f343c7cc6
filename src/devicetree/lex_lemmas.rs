//! How the lexer reads back what the serializer writes, and what it hands out.
use vstd::prelude::*;

use crate::devicetree::model::{
    DtNode, DtProp, Tok, all_ws, cons, is_clean_value, is_name, is_word_char, is_ws, lead_ws, lex,
    prepend, semi_pos, ser_children, ser_node, ser_prop, ser_props, toks_children, toks_node,
    toks_prop, toks_props, trail_ws, trim, wf_body, wf_prop, word_len,
};

verus! {

pub proof fn lemma_prepend_assoc(a: Seq<Tok>, b: Seq<Tok>, r: Option<Seq<Tok>>)
    ensures
        prepend(a, prepend(b, r)) == prepend(a + b, r),
{
    if let Some(ts) = r {
        assert(a + (b + ts) =~= (a + b) + ts);
    }
}

pub proof fn lemma_lex_ws_char(c: char, x: Seq<char>)
    requires
        is_ws(c),
    ensures
        lex(seq![c] + x) == lex(x),
{
    let s = seq![c] + x;
    assert(s.subrange(1, s.len() as int) =~= x);
}

pub proof fn lemma_lex_delim_char(c: char, x: Seq<char>)
    requires
        c == '{' || c == '}' || c == ';',
    ensures
        c == '{' ==> lex(seq![c] + x) == cons(Tok::Open, lex(x)),
        c == '}' ==> lex(seq![c] + x) == cons(Tok::Close, lex(x)),
        c == ';' ==> lex(seq![c] + x) == cons(Tok::Semi, lex(x)),
{
    let s = seq![c] + x;
    assert(s.subrange(1, s.len() as int) =~= x);
}

pub proof fn lemma_lex_ws_prefix(w: Seq<char>, x: Seq<char>)
    requires
        all_ws(w),
    ensures
        lex(w + x) == lex(x),
    decreases w.len(),
{
    if w.len() == 0 {
        assert(w + x =~= x);
    } else {
        let s = w + x;
        let w1 = w.subrange(1, w.len() as int);
        assert(s[0] == w[0]);
        assert(s.subrange(1, s.len() as int) =~= w1 + x);
        assert(all_ws(w1)) by {
            assert forall|k: int| 0 <= k < w1.len() implies is_ws(#[trigger] w1[k]) by {
                assert(w1[k] == w[k + 1]);
            }
        }
        lemma_lex_ws_prefix(w1, x);
    }
}

pub proof fn lemma_word_len_of(name: Seq<char>, x: Seq<char>)
    requires
        forall|k: int| 0 <= k < name.len() ==> is_word_char(#[trigger] name[k]),
        x.len() == 0 || !is_word_char(x[0]),
    ensures
        word_len(name + x) == name.len(),
    decreases name.len(),
{
    let s = name + x;
    if name.len() == 0 {
        assert(s =~= x);
    } else {
        let n1 = name.subrange(1, name.len() as int);
        assert(s[0] == name[0]);
        assert(s.subrange(1, s.len() as int) =~= n1 + x);
        assert forall|k: int| 0 <= k < n1.len() implies is_word_char(#[trigger] n1[k]) by {
            assert(n1[k] == name[k + 1]);
        }
        lemma_word_len_of(n1, x);
    }
}

pub proof fn lemma_lex_word(name: Seq<char>, x: Seq<char>)
    requires
        is_name(name),
        x.len() == 0 || !is_word_char(x[0]),
    ensures
        lex(name + x) == cons(Tok::Word(name), lex(x)),
{
    let s = name + x;
    lemma_word_len_of(name, x);
    assert(s[0] == name[0]);
    assert(is_word_char(name[0]));
    assert(s.subrange(0, name.len() as int) =~= name);
    assert(s.subrange(name.len() as int, s.len() as int) =~= x);
}

pub proof fn lemma_semi_pos_of(v: Seq<char>, y: Seq<char>)
    requires
        forall|k: int| 0 <= k < v.len() ==> #[trigger] v[k] != ';',
    ensures
        semi_pos(v + seq![';'] + y) == v.len(),
    decreases v.len(),
{
    let s = v + seq![';'] + y;
    if v.len() == 0 {
        assert(s[0] == ';');
    } else {
        let v1 = v.subrange(1, v.len() as int);
        assert(s[0] == v[0]);
        assert(s.subrange(1, s.len() as int) =~= v1 + seq![';'] + y);
        assert forall|k: int| 0 <= k < v1.len() implies #[trigger] v1[k] != ';' by {
            assert(v1[k] == v[k + 1]);
        }
        lemma_semi_pos_of(v1, y);
    }
}

pub proof fn lemma_trim_clean(v: Seq<char>)
    requires
        is_clean_value(v),
    ensures
        trim(seq![' '] + v) == v,
{
    let s = seq![' '] + v;
    assert(s.subrange(1, s.len() as int) =~= v);
    assert(lead_ws(v) == 0);
    assert(lead_ws(s) == 1);
    let t = s.subrange(1, s.len() as int);
    assert(trail_ws(v) == 0);
    assert(t.subrange(0, t.len() as int) =~= v);
}

pub proof fn lemma_lex_assign(v: Seq<char>, x: Seq<char>)
    requires
        is_clean_value(v),
    ensures
        lex(seq!['=', ' '] + v + seq![';'] + x) == cons(Tok::Assign(v), lex(x)),
{
    let head = seq!['=', ' '] + v;
    let s = head + seq![';'] + x;
    assert(s =~= seq!['=', ' '] + v + seq![';'] + x);
    assert forall|k: int| 0 <= k < head.len() implies #[trigger] head[k] != ';' by {
        if k >= 2 {
            assert(head[k] == v[k - 2]);
        }
    }
    lemma_semi_pos_of(head, x);
    let j = head.len() as int;
    assert(s[0] == '=');
    assert(s.subrange(1, j) =~= seq![' '] + v);
    lemma_trim_clean(v);
    assert(s.subrange(j + 1, s.len() as int) =~= x);
}

pub proof fn lemma_lex_prop(p: DtProp, pre: Seq<char>, x: Seq<char>)
    requires
        wf_prop(p),
        all_ws(pre),
    ensures
        lex(ser_prop(p, pre) + x) == prepend(toks_prop(p), lex(x)),
{
    match p.value {
        None => {
            let tail = seq![';'] + (seq!['\n'] + x);
            assert(ser_prop(p, pre) + x =~= pre + (p.name + tail));
            lemma_lex_ws_prefix(pre, p.name + tail);
            lemma_lex_word(p.name, tail);
            lemma_lex_delim_char(';', seq!['\n'] + x);
            lemma_lex_ws_char('\n', x);
            if let Some(ts) = lex(x) {
                assert(seq![Tok::Word(p.name)] + (seq![Tok::Semi] + ts) =~= toks_prop(p) + ts);
            }
        },
        Some(v) => {
            let after = seq!['=', ' '] + v + seq![';'] + (seq!['\n'] + x);
            let tail = seq![' '] + after;
            assert(ser_prop(p, pre) + x =~= pre + (p.name + tail));
            lemma_lex_ws_prefix(pre, p.name + tail);
            lemma_lex_word(p.name, tail);
            lemma_lex_ws_char(' ', after);
            lemma_lex_assign(v, seq!['\n'] + x);
            lemma_lex_ws_char('\n', x);
            if let Some(ts) = lex(x) {
                assert(seq![Tok::Word(p.name)] + (seq![Tok::Assign(v)] + ts) =~= toks_prop(p)
                    + ts);
            }
        },
    }
}

pub proof fn lemma_lex_props(ps: Seq<DtProp>, pre: Seq<char>, x: Seq<char>)
    requires
        forall|i: int| 0 <= i < ps.len() ==> wf_prop(#[trigger] ps[i]),
        all_ws(pre),
    ensures
        lex(ser_props(ps, pre) + x) == prepend(toks_props(ps), lex(x)),
    decreases ps.len(),
{
    if ps.len() == 0 {
        assert(ser_props(ps, pre) + x =~= x);
        if let Some(ts) = lex(x) {
            assert(toks_props(ps) + ts =~= ts);
        }
    } else {
        let rest = ps.subrange(1, ps.len() as int);
        assert forall|i: int| 0 <= i < rest.len() implies wf_prop(#[trigger] rest[i]) by {
            assert(rest[i] == ps[i + 1]);
        }
        assert(wf_prop(ps[0]));
        lemma_lex_props(rest, pre, x);
        assert(ser_props(ps, pre) + x =~= ser_prop(ps[0], pre) + (ser_props(rest, pre) + x));
        lemma_lex_prop(ps[0], pre, ser_props(rest, pre) + x);
        lemma_prepend_assoc(toks_prop(ps[0]), toks_props(rest), lex(x));
    }
}

pub proof fn lemma_all_ws_push(pre: Seq<char>, c: char)
    requires
        all_ws(pre),
        is_ws(c),
    ensures
        all_ws(pre.push(c)),
{
    assert forall|k: int| 0 <= k < pre.push(c).len() implies is_ws(#[trigger] pre.push(c)[k]) by {
        if k < pre.len() {
            assert(pre.push(c)[k] == pre[k]);
        }
    }
}

pub proof fn lemma_lex_header(name: Seq<char>, pre: Seq<char>, y: Seq<char>)
    requires
        is_name(name),
        all_ws(pre),
    ensures
        lex(pre + name + seq![' ', '{', '\n'] + y) == prepend(
            seq![Tok::Word(name), Tok::Open],
            lex(y),
        ),
{
    let open = seq!['{'] + (seq!['\n'] + y);
    let tail = seq![' '] + open;
    assert(pre + name + seq![' ', '{', '\n'] + y =~= pre + (name + tail));
    lemma_lex_ws_prefix(pre, name + tail);
    lemma_lex_word(name, tail);
    lemma_lex_ws_char(' ', open);
    lemma_lex_delim_char('{', seq!['\n'] + y);
    lemma_lex_ws_char('\n', y);
    if let Some(ts) = lex(y) {
        assert(seq![Tok::Word(name)] + (seq![Tok::Open] + ts) =~= seq![Tok::Word(name), Tok::Open]
            + ts);
    }
}

pub proof fn lemma_lex_footer(pre: Seq<char>, x: Seq<char>)
    requires
        all_ws(pre),
    ensures
        lex(pre + seq!['}', ';', '\n'] + x) == prepend(seq![Tok::Close, Tok::Semi], lex(x)),
{
    let close = seq!['}'] + (seq![';'] + (seq!['\n'] + x));
    assert(pre + seq!['}', ';', '\n'] + x =~= pre + close);
    lemma_lex_ws_prefix(pre, close);
    lemma_lex_delim_char('}', seq![';'] + (seq!['\n'] + x));
    lemma_lex_delim_char(';', seq!['\n'] + x);
    lemma_lex_ws_char('\n', x);
    if let Some(ts) = lex(x) {
        assert(seq![Tok::Close] + (seq![Tok::Semi] + ts) =~= seq![Tok::Close, Tok::Semi] + ts);
    }
}

pub proof fn lemma_lex_node(n: DtNode, pre: Seq<char>, x: Seq<char>)
    requires
        is_name(n.name),
        wf_body(n),
        all_ws(pre),
    ensures
        lex(ser_node(n, pre) + x) == prepend(toks_node(n), lex(x)),
    decreases n, 1nat,
{
    let inner = pre.push('\t');
    lemma_all_ws_push(pre, '\t');
    let head = pre + n.name + seq![' ', '{', '\n'];
    let foot = pre + seq!['}', ';', '\n'];
    let sp = ser_props(n.props, inner);
    let sc = ser_children(n.children, inner);
    assert(ser_node(n, pre) + x =~= head + (sp + (sc + (foot + x))));
    lemma_lex_footer(pre, x);
    lemma_lex_children(n.children, inner, foot + x);
    lemma_lex_props(n.props, inner, sc + (foot + x));
    lemma_lex_header(n.name, pre, sp + (sc + (foot + x)));
    lemma_prepend_assoc(toks_children(n.children), seq![Tok::Close, Tok::Semi], lex(x));
    lemma_prepend_assoc(
        toks_props(n.props),
        toks_children(n.children) + seq![Tok::Close, Tok::Semi],
        lex(x),
    );
    lemma_prepend_assoc(
        seq![Tok::Word(n.name), Tok::Open],
        toks_props(n.props) + (toks_children(n.children) + seq![Tok::Close, Tok::Semi]),
        lex(x),
    );
    assert(seq![Tok::Word(n.name), Tok::Open] + (toks_props(n.props) + (toks_children(n.children)
        + seq![Tok::Close, Tok::Semi])) =~= toks_node(n));
}

pub proof fn lemma_lex_children(cs: Seq<DtNode>, pre: Seq<char>, x: Seq<char>)
    requires
        forall|i: int|
            0 <= i < cs.len() ==> is_name(#[trigger] cs[i].name) && wf_body(cs[i]),
        all_ws(pre),
    ensures
        lex(ser_children(cs, pre) + x) == prepend(toks_children(cs), lex(x)),
    decreases cs, 0nat,
{
    if cs.len() == 0 {
        assert(ser_children(cs, pre) + x =~= x);
        if let Some(ts) = lex(x) {
            assert(toks_children(cs) + ts =~= ts);
        }
    } else {
        let rest = cs.subrange(1, cs.len() as int);
        assert forall|i: int| 0 <= i < rest.len() implies is_name(#[trigger] rest[i].name)
            && wf_body(rest[i]) by {
            assert(rest[i] == cs[i + 1]);
        }
        assert(is_name(cs[0].name) && wf_body(cs[0]));
        lemma_lex_children(rest, pre, x);
        assert(ser_children(cs, pre) + x =~= ser_node(cs[0], pre) + (ser_children(rest, pre)
            + x));
        lemma_lex_node(cs[0], pre, ser_children(rest, pre) + x);
        lemma_prepend_assoc(toks_node(cs[0]), toks_children(rest), lex(x));
    }
}

pub proof fn lemma_word_len_is(x: Seq<char>, m: int)
    requires
        0 <= m <= x.len(),
        forall|k: int| 0 <= k < m ==> is_word_char(#[trigger] x[k]),
        m == x.len() || !is_word_char(x[m]),
    ensures
        word_len(x) == m,
    decreases m,
{
    if m > 0 {
        let x1 = x.subrange(1, x.len() as int);
        assert forall|k: int| 0 <= k < m - 1 implies is_word_char(#[trigger] x1[k]) by {
            assert(x1[k] == x[k + 1]);
        }
        if m < x.len() {
            assert(x1[m - 1] == x[m]);
        }
        lemma_word_len_is(x1, m - 1);
    }
}

pub proof fn lemma_semi_pos_is(x: Seq<char>, m: int)
    requires
        0 <= m <= x.len(),
        forall|k: int| 0 <= k < m ==> #[trigger] x[k] != ';',
        m == x.len() || x[m] == ';',
    ensures
        semi_pos(x) == m,
    decreases m,
{
    if m > 0 {
        let x1 = x.subrange(1, x.len() as int);
        assert forall|k: int| 0 <= k < m - 1 implies #[trigger] x1[k] != ';' by {
            assert(x1[k] == x[k + 1]);
        }
        if m < x.len() {
            assert(x1[m - 1] == x[m]);
        }
        lemma_semi_pos_is(x1, m - 1);
    }
}

pub proof fn lemma_lead_ws_is(x: Seq<char>, m: int)
    requires
        0 <= m <= x.len(),
        forall|k: int| 0 <= k < m ==> is_ws(#[trigger] x[k]),
        m == x.len() || !is_ws(x[m]),
    ensures
        lead_ws(x) == m,
    decreases m,
{
    if m > 0 {
        let x1 = x.subrange(1, x.len() as int);
        assert forall|k: int| 0 <= k < m - 1 implies is_ws(#[trigger] x1[k]) by {
            assert(x1[k] == x[k + 1]);
        }
        if m < x.len() {
            assert(x1[m - 1] == x[m]);
        }
        lemma_lead_ws_is(x1, m - 1);
    }
}

pub proof fn lemma_trail_ws_is(x: Seq<char>, m: int)
    requires
        0 <= m <= x.len(),
        forall|k: int| x.len() - m <= k < x.len() ==> is_ws(#[trigger] x[k]),
        m == x.len() || !is_ws(x[x.len() - m - 1]),
    ensures
        trail_ws(x) == m,
    decreases m,
{
    if m > 0 {
        let x1 = x.drop_last();
        assert(is_ws(x[x.len() - 1]));
        assert forall|k: int| x1.len() - (m - 1) <= k < x1.len() implies is_ws(#[trigger] x1[k]) by {
            assert(x1[k] == x[k]);
        }
        if m < x.len() {
            assert(x1[x1.len() - (m - 1) - 1] == x[x.len() - m - 1]);
        }
        lemma_trail_ws_is(x1, m - 1);
    }
}

} // verus!
