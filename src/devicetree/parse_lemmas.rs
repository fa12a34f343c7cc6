//! How the token parser reads back the tokens of a tree, and what it builds.
use vstd::prelude::*;

use crate::devicetree::model::{
    DtNode, DtProp, Tok, is_clean_value, is_name, is_word_char, is_ws, lead_ws, lex,
    parse_members, semi_pos, toks_children, toks_node, toks_prop, toks_props, trail_ws, trim,
    wf_body, wf_prop, word_len,
};

verus! {

pub open spec fn wf_tok(t: Tok) -> bool {
    match t {
        Tok::Word(w) => is_name(w),
        Tok::Assign(v) => is_clean_value(v),
        _ => true,
    }
}

pub open spec fn wf_toks(ts: Seq<Tok>) -> bool {
    forall|i: int| 0 <= i < ts.len() ==> wf_tok(#[trigger] ts[i])
}

pub proof fn lemma_parse_body(ps: Seq<DtProp>, cs: Seq<DtNode>, tail: Seq<Tok>)
    requires
        tail.len() == 0 || tail[0] is Close,
    ensures
        parse_members(toks_props(ps) + toks_children(cs) + tail) == Some((ps, cs, tail)),
    decreases cs, ps.len() + 1,
{
    if ps.len() == 0 {
        assert(toks_props(ps) + toks_children(cs) + tail =~= toks_children(cs) + tail);
        lemma_parse_children(cs, tail);
    } else {
        let p = ps[0];
        let rest = ps.subrange(1, ps.len() as int);
        let t = toks_props(ps) + toks_children(cs) + tail;
        let r = toks_props(rest) + toks_children(cs) + tail;
        assert(t =~= toks_prop(p) + r);
        assert(t.subrange(2, t.len() as int) =~= r);
        lemma_parse_body(rest, cs, tail);
        assert(seq![p] + rest =~= ps);
        assert(p == DtProp { name: p.name, value: p.value });
    }
}

pub proof fn lemma_parse_children(cs: Seq<DtNode>, tail: Seq<Tok>)
    requires
        tail.len() == 0 || tail[0] is Close,
    ensures
        parse_members(toks_children(cs) + tail) == Some((Seq::<DtProp>::empty(), cs, tail)),
    decreases cs, 0nat,
{
    if cs.len() == 0 {
        assert(toks_children(cs) + tail =~= tail);
    } else {
        let c = cs[0];
        let rest = cs.subrange(1, cs.len() as int);
        let t = toks_children(cs) + tail;
        let after = seq![Tok::Close, Tok::Semi] + toks_children(rest) + tail;
        assert(toks_children(cs) == toks_node(c) + toks_children(rest));
        assert(toks_node(c) == seq![Tok::Word(c.name), Tok::Open] + toks_props(c.props)
            + toks_children(c.children) + seq![Tok::Close, Tok::Semi]);
        assert(t =~= seq![Tok::Word(c.name), Tok::Open] + (toks_props(c.props) + toks_children(
            c.children,
        ) + after));
        assert(t.subrange(2, t.len() as int) =~= toks_props(c.props) + toks_children(c.children)
            + after);
        assert(decreases_to!(cs => c));
        lemma_parse_body(c.props, c.children, after);
        assert(after.subrange(2, after.len() as int) =~= toks_children(rest) + tail);
        lemma_parse_children(rest, tail);
        assert(seq![c] + rest =~= cs);
        assert(c == DtNode { name: c.name, props: c.props, children: c.children });
    }
}

proof fn lemma_word_len_chars(s: Seq<char>)
    ensures
        word_len(s) <= s.len(),
        forall|k: int| 0 <= k < word_len(s) ==> is_word_char(#[trigger] s[k]),
    decreases s.len(),
{
    if s.len() > 0 && is_word_char(s[0]) {
        let s1 = s.subrange(1, s.len() as int);
        lemma_word_len_chars(s1);
        assert forall|k: int| 0 <= k < word_len(s) implies is_word_char(#[trigger] s[k]) by {
            if k > 0 {
                assert(s[k] == s1[k - 1]);
            }
        }
    }
}

proof fn lemma_semi_pos_chars(s: Seq<char>)
    ensures
        semi_pos(s) <= s.len(),
        forall|k: int| 0 <= k < semi_pos(s) ==> #[trigger] s[k] != ';',
    decreases s.len(),
{
    if s.len() > 0 && s[0] != ';' {
        let s1 = s.subrange(1, s.len() as int);
        lemma_semi_pos_chars(s1);
        assert forall|k: int| 0 <= k < semi_pos(s) implies #[trigger] s[k] != ';' by {
            if k > 0 {
                assert(s[k] == s1[k - 1]);
            }
        }
    }
}

proof fn lemma_lead_ws_bound(s: Seq<char>)
    ensures
        lead_ws(s) <= s.len(),
        lead_ws(s) < s.len() ==> !is_ws(s[lead_ws(s) as int]),
    decreases s.len(),
{
    if s.len() > 0 && is_ws(s[0]) {
        let s1 = s.subrange(1, s.len() as int);
        lemma_lead_ws_bound(s1);
        if lead_ws(s) < s.len() {
            assert(s[lead_ws(s) as int] == s1[lead_ws(s1) as int]);
        }
    }
}

proof fn lemma_trail_ws_bound(s: Seq<char>)
    ensures
        trail_ws(s) <= s.len(),
        trail_ws(s) < s.len() ==> !is_ws(s[s.len() - trail_ws(s) - 1]),
    decreases s.len(),
{
    if s.len() > 0 && is_ws(s.last()) {
        let s1 = s.drop_last();
        lemma_trail_ws_bound(s1);
        if trail_ws(s) < s.len() {
            assert(s[s.len() - trail_ws(s) - 1] == s1[s1.len() - trail_ws(s1) - 1]);
        }
    }
}

/// Trimming text that holds no `;` gives a value that reads back unchanged.
pub proof fn lemma_trim_is_clean(x: Seq<char>)
    requires
        forall|k: int| 0 <= k < x.len() ==> #[trigger] x[k] != ';',
    ensures
        is_clean_value(trim(x)),
{
    lemma_lead_ws_bound(x);
    let t = x.subrange(lead_ws(x) as int, x.len() as int);
    lemma_trail_ws_bound(t);
    let r = trim(x);
    assert(r =~= t.subrange(0, t.len() - trail_ws(t)));
    assert forall|k: int| 0 <= k < r.len() implies #[trigger] r[k] != ';' by {
        assert(r[k] == x[lead_ws(x) + k]);
    }
    if r.len() > 0 {
        assert(r[0] == t[0]);
        assert(r.last() == t[t.len() - trail_ws(t) - 1]);
    }
}

proof fn lemma_wf_cons(t: Tok, r: Seq<Tok>)
    requires
        wf_tok(t),
        wf_toks(r),
    ensures
        wf_toks(seq![t] + r),
{
    assert forall|i: int| 0 <= i < (seq![t] + r).len() implies wf_tok(#[trigger] (seq![t] + r)[i]) by {
        if i > 0 {
            assert((seq![t] + r)[i] == r[i - 1]);
        }
    }
}

/// Every token the lexer hands out is well formed.
pub proof fn lemma_lex_wf(s: Seq<char>)
    ensures
        lex(s) matches Some(ts) ==> wf_toks(ts),
    decreases s.len(),
{
    if s.len() == 0 {
    } else {
        let s1 = s.subrange(1, s.len() as int);
        if is_ws(s[0]) || s[0] == '{' || s[0] == '}' || s[0] == ';' {
            lemma_lex_wf(s1);
            if let Some(ts) = lex(s1) {
                lemma_wf_cons(Tok::Open, ts);
                lemma_wf_cons(Tok::Close, ts);
                lemma_wf_cons(Tok::Semi, ts);
            }
        } else if s[0] == '=' {
            let j = semi_pos(s) as int;
            if 1 <= j < s.len() {
                lemma_semi_pos_chars(s);
                let seg = s.subrange(1, j);
                assert forall|k: int| 0 <= k < seg.len() implies #[trigger] seg[k] != ';' by {
                    assert(seg[k] == s[k + 1]);
                }
                lemma_trim_is_clean(seg);
                lemma_lex_wf(s.subrange(j + 1, s.len() as int));
                if let Some(ts) = lex(s.subrange(j + 1, s.len() as int)) {
                    lemma_wf_cons(Tok::Assign(trim(seg)), ts);
                }
            }
        } else {
            let j = word_len(s) as int;
            if 1 <= j <= s.len() {
                lemma_word_len_chars(s);
                let w = s.subrange(0, j);
                assert forall|k: int| 0 <= k < w.len() implies is_word_char(#[trigger] w[k]) by {
                    assert(w[k] == s[k]);
                }
                lemma_lex_wf(s.subrange(j, s.len() as int));
                if let Some(ts) = lex(s.subrange(j, s.len() as int)) {
                    lemma_wf_cons(Tok::Word(w), ts);
                }
            }
        }
    }
}

pub open spec fn wf_members(ps: Seq<DtProp>, cs: Seq<DtNode>) -> bool {
    &&& forall|i: int| 0 <= i < ps.len() ==> wf_prop(#[trigger] ps[i])
    &&& forall|i: int| 0 <= i < cs.len() ==> is_name(#[trigger] cs[i].name) && wf_body(cs[i])
}

proof fn lemma_wf_members_cons(p: Option<DtProp>, c: Option<DtNode>, ps: Seq<DtProp>, cs: Seq<DtNode>)
    requires
        wf_members(ps, cs),
        p matches Some(q) ==> wf_prop(q),
        c matches Some(d) ==> is_name(d.name) && wf_body(d),
    ensures
        p matches Some(q) ==> wf_members(seq![q] + ps, cs),
        c matches Some(d) ==> wf_members(ps, seq![d] + cs),
{
    if let Some(q) = p {
        let ps2 = seq![q] + ps;
        assert forall|i: int| 0 <= i < ps2.len() implies wf_prop(#[trigger] ps2[i]) by {
            if i > 0 {
                assert(ps2[i] == ps[i - 1]);
            } else {
                assert(ps2[0] == q);
            }
        }
    }
    if let Some(d) = c {
        let cs2 = seq![d] + cs;
        assert forall|i: int| 0 <= i < cs2.len() implies is_name(#[trigger] cs2[i].name)
            && wf_body(cs2[i]) by {
            if i > 0 {
                assert(cs2[i] == cs[i - 1]);
            } else {
                assert(cs2[0] == d);
            }
        }
        assert(forall|i: int| 0 <= i < ps.len() ==> wf_prop(#[trigger] ps[i]));
        assert(wf_members(ps, cs2));
    }
}

proof fn lemma_wf_node_of(name: Seq<char>, ps: Seq<DtProp>, cs: Seq<DtNode>)
    requires
        wf_members(ps, cs),
    ensures
        wf_body(DtNode { name, props: ps, children: cs }),
{
    let d = DtNode { name, props: ps, children: cs };
    assert(d.props == ps && d.children == cs);
}

/// From well-formed tokens the parser builds only well-formed members.
pub proof fn lemma_parse_members_wf(t: Seq<Tok>)
    requires
        wf_toks(t),
    ensures
        parse_members(t) matches Some((ps, cs, rest)) ==> wf_members(ps, cs) && wf_toks(rest)
            && rest.len() <= t.len(),
    decreases t.len(),
{
    if t.len() == 0 || t[0] is Close {
    } else if t.len() < 2 || !(t[0] is Word) {
    } else {
        let name = t[0]->Word_0;
        assert(wf_tok(t[0]));
        let rest = t.subrange(2, t.len() as int);
        assert(wf_toks(rest)) by {
            assert forall|i: int| 0 <= i < rest.len() implies wf_tok(#[trigger] rest[i]) by {
                assert(rest[i] == t[i + 2]);
            }
        }
        lemma_parse_members_wf(rest);
        match t[1] {
            Tok::Semi => {
                if let Some((ps, cs, r)) = parse_members(rest) {
                    lemma_wf_members_cons(Some(DtProp { name, value: None }), None, ps, cs);
                }
            },
            Tok::Assign(v) => {
                assert(wf_tok(t[1]));
                if let Some((ps, cs, r)) = parse_members(rest) {
                    lemma_wf_members_cons(Some(DtProp { name, value: Some(v) }), None, ps, cs);
                }
            },
            Tok::Open => {
                if let Some((ps, cs, after)) = parse_members(rest) {
                    if after.len() >= 2 && after[0] is Close && after[1] is Semi && after.len()
                        < t.len() {
                        let after2 = after.subrange(2, after.len() as int);
                        assert(wf_toks(after2)) by {
                            assert forall|i: int| 0 <= i < after2.len() implies wf_tok(
                                #[trigger] after2[i],
                            ) by {
                                assert(after2[i] == after[i + 2]);
                            }
                        }
                        lemma_parse_members_wf(after2);
                        let d = DtNode { name, props: ps, children: cs };
                        lemma_wf_node_of(name, ps, cs);
                        if let Some((ps2, cs2, r2)) = parse_members(after2) {
                            lemma_wf_members_cons(None, Some(d), ps2, cs2);
                        }
                    }
                }
            },
            _ => {},
        }
    }
}

} // verus!
