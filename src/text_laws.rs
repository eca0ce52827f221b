//! What selector text built from names compiles to, and what it matches.
use vstd::prelude::*;
use crate::atom::{Atom, distinct_names};
use crate::laws::{all_hold, components_upto, is_name, law_compound, law_or, law_parent, law_ancestor, no_or_from, part_holds};
use crate::parser::{
    Piece, Token, TokenKind, atom_below, atoms_below, compiled, finish, initial_state, is_name_char,
    is_space, kind_of, name_run, resolve, resolve_all, run_tokens, space_run, step, tokens_from,
};
use crate::selector::{Combinator, Component, SelectorPart, Tag, TagKind, parts_match};

verus! {

proof fn lemma_name_run_at(s: Seq<u8>, j: int, end: int)
    requires
        0 <= j <= end <= s.len(),
        forall|k: int| j <= k < end ==> is_name_char(#[trigger] s[k]),
        end == s.len() || !is_name_char(s[end]),
    ensures
        name_run(s, j) == end - j,
    decreases end - j,
{
    if j < end {
        lemma_name_run_at(s, j + 1, end);
    }
}

/// The name `s[i..i + n]`, followed by a byte that is not a name byte,
/// is one identifier token.
proof fn lemma_ident_token(s: Seq<u8>, i: int, n: int)
    requires
        0 <= i,
        1 <= n,
        i + n <= s.len() <= usize::MAX,
        is_name(s.subrange(i, i + n)),
        i + n == s.len() || !is_name_char(s[i + n]),
    ensures
        tokens_from(s, i) == seq![Token { kind: TokenKind::Ident, start: i as usize, end: (i + n) as usize }]
            + tokens_from(s, i + n),
{
    let sub = s.subrange(i, i + n);
    assert(s[i] == sub[0]);
    assert forall|k: int| i + 1 <= k < i + n implies is_name_char(#[trigger] s[k]) by {
        assert(s[k] == sub[k - i]);
    }
    lemma_name_run_at(s, i + 1, i + n);
    assert(kind_of(s[i]) == TokenKind::Ident);
}

/// `#`, `.`, `>` or `,` at `i` is a token of one byte.
proof fn lemma_byte_token(s: Seq<u8>, i: int)
    requires
        0 <= i < s.len() <= usize::MAX,
        s[i] == 35 || s[i] == 46 || s[i] == 62 || s[i] == 44,
    ensures
        tokens_from(s, i) == seq![Token { kind: kind_of(s[i]), start: i as usize, end: (i + 1) as usize }]
            + tokens_from(s, i + 1),
{
}

/// One space followed by a byte that is not whitespace is one token.
proof fn lemma_space_token(s: Seq<u8>, i: int)
    requires
        0 <= i < s.len() <= usize::MAX,
        s[i] == 32,
        i + 1 < s.len() && !is_space(s[i + 1]),
    ensures
        tokens_from(s, i) == seq![Token { kind: TokenKind::Space, start: i as usize, end: (i + 1) as usize }]
            + tokens_from(s, i + 1),
{
    assert(space_run(s, i + 1) == 0);
}

proof fn lemma_name_start_is_name_byte(t: Seq<u8>)
    requires
        is_name(t),
    ensures
        forall|k: int| 0 <= k < t.len() ==> is_name_char(#[trigger] t[k]),
        !is_space(t[0]),
{
}

/// The tag kind that `#` (35) or `.` (46) introduces.
pub open spec fn qualifier_kind(c: u8) -> TagKind {
    if c == 35 {
        TagKind::Identifier
    } else {
        TagKind::ClassName
    }
}

/// `#x` compiles to the identifier component `x`, and `.x` to the class
/// component `x`.
pub proof fn lemma_compile_qualified(c: u8, x: Seq<u8>)
    requires
        c == 35 || c == 46,
        is_name(x),
        x.len() + 1 <= usize::MAX,
    ensures
        compiled(seq![c] + x) == seq![Piece::Name(qualifier_kind(c), x)],
{
    let s = seq![c] + x;
    lemma_name_start_is_name_byte(x);
    assert(s.subrange(1, s.len() as int) =~= x);
    lemma_ident_token(s, 1, x.len() as int);
    lemma_byte_token(s, 0);
    let t0 = Token { kind: kind_of(c), start: 0, end: 1 };
    let t1 = Token { kind: TokenKind::Ident, start: 1, end: s.len() as usize };
    assert(tokens_from(s, s.len() as int) == Seq::<Token>::empty());
    let ts = tokens_from(s, 0);
    assert(ts =~= seq![t0, t1]);
    let s0 = run_tokens(s, ts, 0);
    let s1 = run_tokens(s, ts, 1);
    let s2 = run_tokens(s, ts, 2);
    assert(s0 == initial_state());
    assert(s1 == step(s0, s, t0));
    assert(s2 == step(s1, s, t1));
    assert(s2.compound =~= seq![Piece::Name(qualifier_kind(c), x)]);
    assert(s2.done + s2.compound =~= s2.compound);
    assert(finish(s2) == Some(seq![Piece::Name(qualifier_kind(c), x)]));
}

/// `t#x` compiles to the compound of local name `t` and identifier `x`;
/// `t.x` likewise with class `x`.
pub proof fn lemma_compile_name_qualified(t: Seq<u8>, c: u8, x: Seq<u8>)
    requires
        c == 35 || c == 46,
        is_name(t),
        is_name(x),
        t.len() + x.len() + 1 <= usize::MAX,
    ensures
        compiled(t + seq![c] + x) == seq![Piece::Name(TagKind::LocalName, t), Piece::Name(qualifier_kind(c), x)],
{
    let s = t + seq![c] + x;
    let n = t.len() as int;
    lemma_name_start_is_name_byte(t);
    lemma_name_start_is_name_byte(x);
    assert(s.subrange(0, n) =~= t);
    assert(s.subrange(n + 1, s.len() as int) =~= x);
    assert(s[n] == c);
    lemma_ident_token(s, 0, n);
    lemma_byte_token(s, n);
    lemma_ident_token(s, n + 1, x.len() as int);
    let t0 = Token { kind: TokenKind::Ident, start: 0, end: n as usize };
    let t1 = Token { kind: kind_of(c), start: n as usize, end: (n + 1) as usize };
    let t2 = Token { kind: TokenKind::Ident, start: (n + 1) as usize, end: s.len() as usize };
    assert(tokens_from(s, s.len() as int) == Seq::<Token>::empty());
    let ts = tokens_from(s, 0);
    assert(ts =~= seq![t0, t1, t2]);
    let s0 = run_tokens(s, ts, 0);
    let s1 = run_tokens(s, ts, 1);
    let s2 = run_tokens(s, ts, 2);
    let s3 = run_tokens(s, ts, 3);
    assert(s0 == initial_state());
    assert(s1 == step(s0, s, t0));
    assert(s2 == step(s1, s, t1));
    assert(s3 == step(s2, s, t2));
    let want = seq![Piece::Name(TagKind::LocalName, t), Piece::Name(qualifier_kind(c), x)];
    assert(s3.compound =~= want);
    assert(s3.done + s3.compound =~= s3.compound);
    assert(finish(s3) == Some(want));
}

/// `t > u` compiles to `u`, a parent step, then `t`.
pub proof fn lemma_compile_child(t: Seq<u8>, u: Seq<u8>)
    requires
        is_name(t),
        is_name(u),
        t.len() + u.len() + 3 <= usize::MAX,
    ensures
        compiled(t + seq![32u8, 62u8, 32u8] + u) == seq![
            Piece::Name(TagKind::LocalName, u),
            Piece::Comb(Combinator::Parent),
            Piece::Name(TagKind::LocalName, t),
        ],
{
    let s = t + seq![32u8, 62u8, 32u8] + u;
    let n = t.len() as int;
    lemma_name_start_is_name_byte(t);
    lemma_name_start_is_name_byte(u);
    assert(s.subrange(0, n) =~= t);
    assert(s.subrange(n + 3, s.len() as int) =~= u);
    assert(s[n] == 32 && s[n + 1] == 62 && s[n + 2] == 32 && s[n + 3] == u[0]);
    lemma_ident_token(s, 0, n);
    lemma_space_token(s, n);
    lemma_byte_token(s, n + 1);
    lemma_space_token(s, n + 2);
    lemma_ident_token(s, n + 3, u.len() as int);
    let t0 = Token { kind: TokenKind::Ident, start: 0, end: n as usize };
    let t1 = Token { kind: TokenKind::Space, start: n as usize, end: (n + 1) as usize };
    let t2 = Token { kind: TokenKind::Gt, start: (n + 1) as usize, end: (n + 2) as usize };
    let t3 = Token { kind: TokenKind::Space, start: (n + 2) as usize, end: (n + 3) as usize };
    let t4 = Token { kind: TokenKind::Ident, start: (n + 3) as usize, end: s.len() as usize };
    assert(tokens_from(s, s.len() as int) == Seq::<Token>::empty());
    let ts = tokens_from(s, 0);
    assert(ts =~= seq![t0, t1, t2, t3, t4]);
    let s0 = run_tokens(s, ts, 0);
    let s1 = run_tokens(s, ts, 1);
    let s2 = run_tokens(s, ts, 2);
    let s3 = run_tokens(s, ts, 3);
    let s4 = run_tokens(s, ts, 4);
    let s5 = run_tokens(s, ts, 5);
    assert(s0 == initial_state());
    assert(s1 == step(s0, s, t0));
    assert(s2 == step(s1, s, t1));
    assert(s3 == step(s2, s, t2));
    assert(s4 == step(s3, s, t3));
    assert(s5 == step(s4, s, t4));
    assert(s3.group =~= seq![Piece::Name(TagKind::LocalName, t)]);
    assert(s5.compound =~= seq![Piece::Name(TagKind::LocalName, u)]);
    let want = seq![
        Piece::Name(TagKind::LocalName, u),
        Piece::Comb(Combinator::Parent),
        Piece::Name(TagKind::LocalName, t),
    ];
    assert(s5.done + (s5.compound + seq![Piece::Comb(s5.link)] + s5.group) =~= want);
    assert(finish(s5) == Some(want));
}

/// `t u` compiles to `u`, an ancestor step, then `t`.
pub proof fn lemma_compile_descendant(t: Seq<u8>, u: Seq<u8>)
    requires
        is_name(t),
        is_name(u),
        t.len() + u.len() + 1 <= usize::MAX,
    ensures
        compiled(t + seq![32u8] + u) == seq![
            Piece::Name(TagKind::LocalName, u),
            Piece::Comb(Combinator::Ancestor),
            Piece::Name(TagKind::LocalName, t),
        ],
{
    let s = t + seq![32u8] + u;
    let n = t.len() as int;
    lemma_name_start_is_name_byte(t);
    lemma_name_start_is_name_byte(u);
    assert(s.subrange(0, n) =~= t);
    assert(s.subrange(n + 1, s.len() as int) =~= u);
    assert(s[n] == 32 && s[n + 1] == u[0]);
    lemma_ident_token(s, 0, n);
    lemma_space_token(s, n);
    lemma_ident_token(s, n + 1, u.len() as int);
    let t0 = Token { kind: TokenKind::Ident, start: 0, end: n as usize };
    let t1 = Token { kind: TokenKind::Space, start: n as usize, end: (n + 1) as usize };
    let t2 = Token { kind: TokenKind::Ident, start: (n + 1) as usize, end: s.len() as usize };
    assert(tokens_from(s, s.len() as int) == Seq::<Token>::empty());
    let ts = tokens_from(s, 0);
    assert(ts =~= seq![t0, t1, t2]);
    let s0 = run_tokens(s, ts, 0);
    let s1 = run_tokens(s, ts, 1);
    let s2 = run_tokens(s, ts, 2);
    let s3 = run_tokens(s, ts, 3);
    assert(s0 == initial_state());
    assert(s1 == step(s0, s, t0));
    assert(s2 == step(s1, s, t1));
    assert(s3 == step(s2, s, t2));
    assert(s3.group =~= seq![Piece::Name(TagKind::LocalName, t)]);
    assert(s3.compound =~= seq![Piece::Name(TagKind::LocalName, u)]);
    let want = seq![
        Piece::Name(TagKind::LocalName, u),
        Piece::Comb(Combinator::Ancestor),
        Piece::Name(TagKind::LocalName, t),
    ];
    assert(s3.done + (s3.compound + seq![Piece::Comb(s3.link)] + s3.group) =~= want);
    assert(finish(s3) == Some(want));
}

/// `t, u` compiles to `t`, a `,`, then `u`.
pub proof fn lemma_compile_list(t: Seq<u8>, u: Seq<u8>)
    requires
        is_name(t),
        is_name(u),
        t.len() + u.len() + 2 <= usize::MAX,
    ensures
        compiled(t + seq![44u8, 32u8] + u) == seq![
            Piece::Name(TagKind::LocalName, t),
            Piece::Comb(Combinator::Or),
            Piece::Name(TagKind::LocalName, u),
        ],
{
    let s = t + seq![44u8, 32u8] + u;
    let n = t.len() as int;
    lemma_name_start_is_name_byte(t);
    lemma_name_start_is_name_byte(u);
    assert(s.subrange(0, n) =~= t);
    assert(s.subrange(n + 2, s.len() as int) =~= u);
    assert(s[n] == 44 && s[n + 1] == 32 && s[n + 2] == u[0]);
    lemma_ident_token(s, 0, n);
    lemma_byte_token(s, n);
    lemma_space_token(s, n + 1);
    lemma_ident_token(s, n + 2, u.len() as int);
    let t0 = Token { kind: TokenKind::Ident, start: 0, end: n as usize };
    let t1 = Token { kind: TokenKind::Comma, start: n as usize, end: (n + 1) as usize };
    let t2 = Token { kind: TokenKind::Space, start: (n + 1) as usize, end: (n + 2) as usize };
    let t3 = Token { kind: TokenKind::Ident, start: (n + 2) as usize, end: s.len() as usize };
    assert(tokens_from(s, s.len() as int) == Seq::<Token>::empty());
    let ts = tokens_from(s, 0);
    assert(ts =~= seq![t0, t1, t2, t3]);
    let s0 = run_tokens(s, ts, 0);
    let s1 = run_tokens(s, ts, 1);
    let s2 = run_tokens(s, ts, 2);
    let s3 = run_tokens(s, ts, 3);
    let s4 = run_tokens(s, ts, 4);
    assert(s0 == initial_state());
    assert(s1 == step(s0, s, t0));
    assert(s2 == step(s1, s, t1));
    assert(s3 == step(s2, s, t2));
    assert(s4 == step(s3, s, t3));
    assert(s2.done =~= seq![Piece::Name(TagKind::LocalName, t), Piece::Comb(Combinator::Or)]);
    assert(s4.compound =~= seq![Piece::Name(TagKind::LocalName, u)]);
    let want = seq![
        Piece::Name(TagKind::LocalName, t),
        Piece::Comb(Combinator::Or),
        Piece::Name(TagKind::LocalName, u),
    ];
    assert(s4.done + s4.compound =~= want);
    assert(finish(s4) == Some(want));
}

pub open spec fn tag_of(kind: TagKind, a: Atom) -> Tag {
    Tag { kind, name: a }
}

/// `tags` hold the tag of kind `kind` whose name in `names` is `nm`.
pub open spec fn has_name(tags: Seq<Tag>, names: Seq<Seq<u8>>, kind: TagKind, nm: Seq<u8>) -> bool {
    exists|a: Atom| a.index < names.len() && names[a.index as int] == nm && tags.contains(#[trigger] tag_of(kind, a))
}

proof fn lemma_name_part(p: SelectorPart, names: Seq<Seq<u8>>, kind: TagKind, nm: Seq<u8>, tags: Seq<Tag>)
    requires
        distinct_names(names),
        atom_below(p, names.len()),
        resolve(p, names) == Piece::Name(kind, nm),
    ensures
        p is Component,
        part_holds(p, tags) == has_name(tags, names, kind, nm),
{
    let a: Atom = match p {
        SelectorPart::Component(Component::LocalName(a)) => a,
        SelectorPart::Component(Component::Identifier(a)) => a,
        SelectorPart::Component(Component::ClassName(a)) => a,
        _ => Atom { index: 0 },
    };
    assert(names[a.index as int] == nm);
    assert(part_holds(p, tags) == tags.contains(tag_of(kind, a)));
    if has_name(tags, names, kind, nm) {
        let b = choose|b: Atom| b.index < names.len() && names[b.index as int] == nm && tags.contains(#[trigger] tag_of(kind, b));
        assert(b.index == a.index);
        assert(b == a);
    }
}

proof fn lemma_resolved(p: Seq<SelectorPart>, names: Seq<Seq<u8>>, pieces: Seq<Piece>)
    requires
        resolve_all(p, names) == pieces,
    ensures
        p.len() == pieces.len(),
        forall|i: int| 0 <= i < p.len() ==> resolve(#[trigger] p[i], names) == pieces[i],
{
    assert(resolve_all(p, names).len() == p.len());
    assert forall|i: int| 0 <= i < p.len() implies resolve(#[trigger] p[i], names) == pieces[i] by {
        assert(resolve_all(p, names)[i] == resolve(p[i], names));
    }
}

proof fn lemma_single_holds(p: SelectorPart, tags: Seq<Tag>)
    ensures
        all_hold(seq![p], 0, 1, tags) == part_holds(p, tags),
{
    assert(seq![p][0] == p);
}

/// `#x` matches exactly the elements with identifier `x`, and `.x` those
/// with class `x`, whatever their name or place.
pub proof fn law_text_qualified(c: u8, x: Seq<u8>, names: Seq<Seq<u8>>, p: Seq<SelectorPart>, st: Seq<Seq<Tag>>)
    requires
        c == 35 || c == 46,
        is_name(x),
        x.len() + 1 <= usize::MAX,
        distinct_names(names),
        atoms_below(p, names.len()),
        resolve_all(p, names) == compiled(seq![c] + x),
        st.len() > 0,
    ensures
        parts_match(p, st) == has_name(st.last(), names, qualifier_kind(c), x),
{
    lemma_compile_qualified(c, x);
    lemma_resolved(p, names, seq![Piece::Name(qualifier_kind(c), x)]);
    assert(atom_below(p[0], names.len()));
    lemma_name_part(p[0], names, qualifier_kind(c), x, st.last());
    assert(p =~= seq![p[0]]);
    law_compound(p, st);
    lemma_single_holds(p[0], st.last());
}

/// `t#x` matches exactly the elements named `t` with identifier `x`, and
/// `t.x` those named `t` with class `x`: both must hold of one element.
pub proof fn law_text_name_qualified(
    t: Seq<u8>,
    c: u8,
    x: Seq<u8>,
    names: Seq<Seq<u8>>,
    p: Seq<SelectorPart>,
    st: Seq<Seq<Tag>>,
)
    requires
        c == 35 || c == 46,
        is_name(t),
        is_name(x),
        t.len() + x.len() + 1 <= usize::MAX,
        distinct_names(names),
        atoms_below(p, names.len()),
        resolve_all(p, names) == compiled(t + seq![c] + x),
        st.len() > 0,
    ensures
        parts_match(p, st) == (has_name(st.last(), names, TagKind::LocalName, t) && has_name(
            st.last(),
            names,
            qualifier_kind(c),
            x,
        )),
{
    lemma_compile_name_qualified(t, c, x);
    lemma_resolved(p, names, seq![Piece::Name(TagKind::LocalName, t), Piece::Name(qualifier_kind(c), x)]);
    assert(atom_below(p[0], names.len()));
    assert(atom_below(p[1], names.len()));
    lemma_name_part(p[0], names, TagKind::LocalName, t, st.last());
    lemma_name_part(p[1], names, qualifier_kind(c), x, st.last());
    law_compound(p, st);
    assert(all_hold(p, 0, 2, st.last()) == (part_holds(p[0], st.last()) && part_holds(p[1], st.last())));
}

/// `t > u` matches exactly the elements named `u` whose parent is named
/// `t`; a root never matches.
pub proof fn law_text_child(t: Seq<u8>, u: Seq<u8>, names: Seq<Seq<u8>>, p: Seq<SelectorPart>, st: Seq<Seq<Tag>>)
    requires
        is_name(t),
        is_name(u),
        t.len() + u.len() + 3 <= usize::MAX,
        distinct_names(names),
        atoms_below(p, names.len()),
        resolve_all(p, names) == compiled(t + seq![32u8, 62u8, 32u8] + u),
        st.len() > 0,
    ensures
        parts_match(p, st) == (has_name(st.last(), names, TagKind::LocalName, u) && st.len() >= 2 && has_name(
            st[st.len() - 2],
            names,
            TagKind::LocalName,
            t,
        )),
{
    lemma_compile_child(t, u);
    lemma_resolved(
        p,
        names,
        seq![Piece::Name(TagKind::LocalName, u), Piece::Comb(Combinator::Parent), Piece::Name(TagKind::LocalName, t)],
    );
    assert(atom_below(p[0], names.len()));
    assert(atom_below(p[2], names.len()));
    lemma_name_part(p[0], names, TagKind::LocalName, u, st.last());
    assert(p[1] == SelectorPart::Combinator(Combinator::Parent));
    let b = seq![p[0]];
    let a = seq![p[2]];
    assert(p =~= b + seq![SelectorPart::Combinator(Combinator::Parent)] + a);
    lemma_name_part(p[2], names, TagKind::LocalName, t, st.last());
    assert(components_upto(b, 1));
    assert(components_upto(a, 1));
    assert(no_or_from(a, 0));
    law_parent(b, a, st);
    lemma_single_holds(p[0], st.last());
    if st.len() >= 2 {
        let st2 = st.drop_last();
        law_compound(a, st2);
        assert(st2.last() == st[st.len() - 2]);
        lemma_name_part(p[2], names, TagKind::LocalName, t, st2.last());
        lemma_single_holds(p[2], st2.last());
    }
}

/// `t u` matches exactly the elements named `u` that have an ancestor, at
/// any depth, named `t`.
pub proof fn law_text_descendant(t: Seq<u8>, u: Seq<u8>, names: Seq<Seq<u8>>, p: Seq<SelectorPart>, st: Seq<Seq<Tag>>)
    requires
        is_name(t),
        is_name(u),
        t.len() + u.len() + 1 <= usize::MAX,
        distinct_names(names),
        atoms_below(p, names.len()),
        resolve_all(p, names) == compiled(t + seq![32u8] + u),
        st.len() > 0,
    ensures
        parts_match(p, st) == (has_name(st.last(), names, TagKind::LocalName, u) && exists|k: int|
            0 <= k < st.len() - 1 && has_name(#[trigger] st[k], names, TagKind::LocalName, t)),
{
    lemma_compile_descendant(t, u);
    lemma_resolved(
        p,
        names,
        seq![Piece::Name(TagKind::LocalName, u), Piece::Comb(Combinator::Ancestor), Piece::Name(TagKind::LocalName, t)],
    );
    assert(atom_below(p[0], names.len()));
    assert(atom_below(p[2], names.len()));
    lemma_name_part(p[0], names, TagKind::LocalName, u, st.last());
    lemma_name_part(p[2], names, TagKind::LocalName, t, st.last());
    assert(p[1] == SelectorPart::Combinator(Combinator::Ancestor));
    let b = seq![p[0]];
    let c = p[2]->Component_0;
    assert(p =~= b + seq![SelectorPart::Combinator(Combinator::Ancestor), SelectorPart::Component(c)]);
    assert(components_upto(b, 1));
    law_ancestor(b, c, st);
    lemma_single_holds(p[0], st.last());
    assert forall|k: int| 0 <= k < st.len() - 1 implies crate::selector::holds_at(c, #[trigger] st[k]) == has_name(
        st[k],
        names,
        TagKind::LocalName,
        t,
    ) by {
        lemma_name_part(p[2], names, TagKind::LocalName, t, st[k]);
    }
}

/// `t, u` matches exactly the elements named `t` or named `u`; each
/// alternative is tried from the element itself.
pub proof fn law_text_list(t: Seq<u8>, u: Seq<u8>, names: Seq<Seq<u8>>, p: Seq<SelectorPart>, st: Seq<Seq<Tag>>)
    requires
        is_name(t),
        is_name(u),
        t.len() + u.len() + 2 <= usize::MAX,
        distinct_names(names),
        atoms_below(p, names.len()),
        resolve_all(p, names) == compiled(t + seq![44u8, 32u8] + u),
        st.len() > 0,
    ensures
        parts_match(p, st) == (has_name(st.last(), names, TagKind::LocalName, t) || has_name(
            st.last(),
            names,
            TagKind::LocalName,
            u,
        )),
{
    lemma_compile_list(t, u);
    lemma_resolved(
        p,
        names,
        seq![Piece::Name(TagKind::LocalName, t), Piece::Comb(Combinator::Or), Piece::Name(TagKind::LocalName, u)],
    );
    assert(atom_below(p[0], names.len()));
    assert(atom_below(p[2], names.len()));
    lemma_name_part(p[0], names, TagKind::LocalName, t, st.last());
    lemma_name_part(p[2], names, TagKind::LocalName, u, st.last());
    assert(p[1] == SelectorPart::Combinator(Combinator::Or));
    let a = seq![p[0]];
    let c = seq![p[2]];
    assert(p =~= a + seq![SelectorPart::Combinator(Combinator::Or)] + c);
    assert(no_or_from(a, 0));
    law_or(a, c, st);
    law_compound(a, st);
    law_compound(c, st);
    lemma_single_holds(p[0], st.last());
    lemma_single_holds(p[2], st.last());
}

} // verus!
