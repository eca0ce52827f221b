//! What holds of every compiled selector and every stack of tag sets.
use vstd::prelude::*;
use crate::atom::{Atom, distinct_names};
use crate::parser::{finish, initial_state, run_tokens, step, Piece, TokenKind, Token, atoms_below, atom_below, compiled, is_name_char, is_name_start, name_run, resolve, resolve_all, tokens_from};
use crate::selector::{NodesModel, ancestry, lemma_ancestry_len, parents_precede, TagKind, Combinator, Component, SelectorPart, Tag, find_up, holds_at, parts_match, run, skip};

verus! {

pub open spec fn is_or(p: SelectorPart) -> bool {
    p == SelectorPart::Combinator(Combinator::Or)
}

/// No `,` among the parts from index `k` on.
pub open spec fn no_or_from(ps: Seq<SelectorPart>, k: int) -> bool {
    forall|i: int| k <= i < ps.len() ==> !is_or(#[trigger] ps[i])
}

/// The first `n` parts are components.
pub open spec fn components_upto(ps: Seq<SelectorPart>, n: int) -> bool {
    forall|i: int| 0 <= i < n ==> (#[trigger] ps[i]) is Component
}

/// Whether an element with tags `tags` satisfies part `p` (a combinator
/// asks nothing).
pub open spec fn part_holds(p: SelectorPart, tags: Seq<Tag>) -> bool {
    match p {
        SelectorPart::Component(c) => holds_at(c, tags),
        _ => true,
    }
}

/// A part that can open a compound: a component or `*`.
pub open spec fn starts_compound(p: SelectorPart) -> bool {
    p is Component || p == SelectorPart::Combinator(Combinator::Universal)
}

/// Every part of `ps` in `k..n` holds of `tags`.
pub open spec fn all_hold(ps: Seq<SelectorPart>, k: int, n: int, tags: Seq<Tag>) -> bool {
    forall|i: int| k <= i < n ==> part_holds(#[trigger] ps[i], tags)
}

proof fn lemma_skip_through(ps: Seq<SelectorPart>, st: Seq<Seq<Tag>>, k: int, m: int)
    requires
        0 <= k <= m <= ps.len(),
        forall|i: int| k <= i < m ==> !is_or(#[trigger] ps[i]),
    ensures
        skip(ps, st, k) == skip(ps, st, m),
    decreases m - k,
{
    if k < m {
        lemma_skip_through(ps, st, k + 1, m);
    }
}

proof fn lemma_compound_walk(ps: Seq<SelectorPart>, n: int, st: Seq<Seq<Tag>>, k: int, pos: int)
    requires
        0 <= k <= n <= ps.len(),
        components_upto(ps, n),
        0 <= pos < st.len(),
    ensures
        run(ps, st, k, pos, false, false) == if all_hold(ps, k, n, st[pos]) {
            run(ps, st, n, pos, false, false)
        } else {
            skip(ps, st, n)
        },
    decreases n - k,
{
    if k < n {
        assert(ps[k] is Component);
        lemma_compound_walk(ps, n, st, k + 1, pos);
        let c = ps[k]->Component_0;
        if holds_at(c, st[pos]) {
            assert(all_hold(ps, k, n, st[pos]) == all_hold(ps, k + 1, n, st[pos]));
        } else {
            assert(!all_hold(ps, k, n, st[pos]));
            lemma_skip_through(ps, st, k + 1, n);
        }
    }
}

proof fn lemma_shift(pre: Seq<SelectorPart>, a: Seq<SelectorPart>, st: Seq<Seq<Tag>>, k: int, pos: int, par: bool, anc: bool)
    requires
        0 <= k <= a.len(),
    ensures
        run(pre + a, st, pre.len() + k, pos, par, anc) == run(a, st, k, pos, par, anc),
        skip(pre + a, st, pre.len() + k) == skip(a, st, k),
    decreases a.len() - k,
{
    let ps = pre + a;
    if k < a.len() {
        assert(ps[pre.len() + k] == a[k]);
        lemma_shift(pre, a, st, k + 1, pos, true, anc);
        lemma_shift(pre, a, st, k + 1, pos, par, true);
        lemma_shift(pre, a, st, k + 1, pos, par, anc);
        lemma_shift(pre, a, st, k + 1, st.len() - 1, false, false);
        lemma_shift(pre, a, st, k + 1, pos - 1, false, false);
        match a[k] {
            SelectorPart::Component(c) => match find_up(c, st, pos, par || anc, anc) {
                Some(p) => lemma_shift(pre, a, st, k + 1, p, false, false),
                None => {},
            },
            _ => {},
        }
    }
}

proof fn lemma_skip_none(a: Seq<SelectorPart>, st: Seq<Seq<Tag>>, k: int)
    requires
        0 <= k,
        no_or_from(a, k),
    ensures
        !skip(a, st, k),
    decreases a.len() - k,
{
    if k < a.len() {
        assert(!is_or(a[k]));
        lemma_skip_none(a, st, k + 1);
    }
}

proof fn lemma_find_up_prefix(c: Component, st: Seq<Seq<Tag>>, m: int, pos: int, up: bool, climb: bool)
    requires
        0 <= pos < m <= st.len(),
    ensures
        find_up(c, st, pos, up, climb) == find_up(c, st.subrange(0, m), pos, up, climb),
    decreases 2 * pos + (if up { 0int } else { 1int }),
{
    if !(up && pos == 0) {
        let p = if up { pos - 1 } else { pos };
        assert(st.subrange(0, m)[p] == st[p]);
        if climb {
            lemma_find_up_prefix(c, st, m, p, true, true);
        }
    }
}

proof fn lemma_find_up_result(c: Component, st: Seq<Seq<Tag>>, pos: int, up: bool, climb: bool)
    ensures
        match find_up(c, st, pos, up, climb) {
            Some(p) => 0 <= p <= pos,
            None => true,
        },
    decreases 2 * pos + (if up { 0int } else { 1int }),
{
    if !(pos < 0 || (up && pos == 0)) {
        let p = if up { pos - 1 } else { pos };
        if !holds_at(c, st[p]) && climb {
            lemma_find_up_result(c, st, p, true, true);
        }
    }
}

proof fn lemma_run_prefix(a: Seq<SelectorPart>, st: Seq<Seq<Tag>>, m: int, k: int, pos: int, par: bool, anc: bool)
    requires
        0 <= k,
        0 <= pos < m <= st.len(),
        no_or_from(a, k),
    ensures
        run(a, st, k, pos, par, anc) == run(a, st.subrange(0, m), k, pos, par, anc),
    decreases a.len() - k,
{
    if k < a.len() {
        assert(!is_or(a[k]));
        match a[k] {
            SelectorPart::Component(c) => {
                lemma_find_up_prefix(c, st, m, pos, par || anc, anc);
                lemma_find_up_result(c, st, pos, par || anc, anc);
                match find_up(c, st, pos, par || anc, anc) {
                    Some(p) => lemma_run_prefix(a, st, m, k + 1, p, false, false),
                    None => {
                        lemma_skip_none(a, st, k + 1);
                        lemma_skip_none(a, st.subrange(0, m), k + 1);
                    },
                }
            },
            SelectorPart::Combinator(Combinator::Parent) => lemma_run_prefix(a, st, m, k + 1, pos, true, anc),
            SelectorPart::Combinator(Combinator::Ancestor) => lemma_run_prefix(a, st, m, k + 1, pos, par, true),
            SelectorPart::Combinator(Combinator::Universal) => {
                if (par || anc) && pos > 0 {
                    lemma_run_prefix(a, st, m, k + 1, pos - 1, false, false);
                } else if par || anc {
                    lemma_skip_none(a, st, k + 1);
                    lemma_skip_none(a, st.subrange(0, m), k + 1);
                } else {
                    lemma_run_prefix(a, st, m, k + 1, pos, par, anc);
                }
            },
            _ => {},
        }
    }
}

/// A compound selector (components only, at least one) matches an element
/// exactly when each of its components holds of that element: an
/// identifier or class is tested on the element alone, whatever its name
/// or place, and a compound such as `a#b` asks for all of its components.
pub proof fn law_compound(b: Seq<SelectorPart>, st: Seq<Seq<Tag>>)
    requires
        b.len() > 0,
        components_upto(b, b.len() as int),
        st.len() > 0,
    ensures
        parts_match(b, st) == all_hold(b, 0, b.len() as int, st.last()),
{
    lemma_compound_walk(b, b.len() as int, st, 0, st.len() - 1);
}

/// `a > b`, with `b` a compound and `a` an alternative that starts with a
/// component or `*`, matches an element exactly when `b` holds of the element,
/// the element has a parent, and `a` matches the parent.
pub proof fn law_parent(b: Seq<SelectorPart>, a: Seq<SelectorPart>, st: Seq<Seq<Tag>>)
    requires
        b.len() > 0,
        components_upto(b, b.len() as int),
        a.len() > 0,
        starts_compound(a[0]),
        no_or_from(a, 0),
        st.len() > 0,
    ensures
        parts_match(b + seq![SelectorPart::Combinator(Combinator::Parent)] + a, st) == (all_hold(
            b,
            0,
            b.len() as int,
            st.last(),
        ) && st.len() >= 2 && parts_match(a, st.drop_last())),
{
    let pre = b + seq![SelectorPart::Combinator(Combinator::Parent)];
    let ps = pre + a;
    let top = st.len() - 1;
    assert(components_upto(ps, b.len() as int)) by {
        assert forall|i: int| 0 <= i < b.len() implies (#[trigger] ps[i]) is Component by {
            assert(ps[i] == b[i]);
        }
    }
    lemma_compound_walk(ps, b.len() as int, st, 0, top);
    assert(all_hold(ps, 0, b.len() as int, st[top]) == all_hold(b, 0, b.len() as int, st.last())) by {
        assert forall|i: int| 0 <= i < b.len() implies ps[i] == b[i] by {}
    }
    assert(ps[b.len() as int] == SelectorPart::Combinator(Combinator::Parent));
    assert(run(ps, st, b.len() as int, top, false, false) == run(ps, st, pre.len() as int, top, true, false));
    lemma_shift(pre, a, st, 0, top, true, false);
    lemma_shift(pre, a, st, 0, top, false, false);
    lemma_skip_none(a, st, 0);
    assert(skip(ps, st, b.len() as int) == skip(ps, st, pre.len() as int)) by {
        lemma_skip_through(ps, st, b.len() as int, pre.len() as int);
    }
    lemma_skip_none(a, st, 1);
    if st.len() >= 2 {
        let st2 = st.drop_last();
        assert(st2 == st.subrange(0, top));
        lemma_run_prefix(a, st, top, 0, top - 1, false, false);
        lemma_skip_none(a, st2, 1);
        if a[0] is Component {
            let c = a[0]->Component_0;
            lemma_find_up_prefix(c, st, top, top - 1, false, false);
            match find_up(c, st, top, true, false) {
                Some(p) => {
                    lemma_run_prefix(a, st, top, 1, p, false, false);
                },
                None => {},
            }
        } else {
            lemma_run_prefix(a, st, top, 1, top - 1, false, false);
        }
    }
}

/// `* b`, with `b` a compound, matches an element exactly when `b` holds of
/// the element and the element has an ancestor.
pub proof fn law_universal_ancestor(b: Seq<SelectorPart>, st: Seq<Seq<Tag>>)
    requires
        b.len() > 0,
        components_upto(b, b.len() as int),
        st.len() > 0,
    ensures
        parts_match(
            b + seq![SelectorPart::Combinator(Combinator::Ancestor), SelectorPart::Combinator(Combinator::Universal)],
            st,
        ) == (all_hold(b, 0, b.len() as int, st.last()) && st.len() >= 2),
{
    let pre = b + seq![SelectorPart::Combinator(Combinator::Ancestor)];
    let tail = seq![SelectorPart::Combinator(Combinator::Universal)];
    let ps = b + seq![SelectorPart::Combinator(Combinator::Ancestor), SelectorPart::Combinator(Combinator::Universal)];
    assert(ps == pre + tail);
    let top = st.len() - 1;
    assert(components_upto(ps, b.len() as int)) by {
        assert forall|i: int| 0 <= i < b.len() implies (#[trigger] ps[i]) is Component by {
            assert(ps[i] == b[i]);
        }
    }
    lemma_compound_walk(ps, b.len() as int, st, 0, top);
    assert(all_hold(ps, 0, b.len() as int, st[top]) == all_hold(b, 0, b.len() as int, st.last())) by {
        assert forall|i: int| 0 <= i < b.len() implies ps[i] == b[i] by {}
    }
    assert(ps[b.len() as int] == SelectorPart::Combinator(Combinator::Ancestor));
    assert(run(ps, st, b.len() as int, top, false, false) == run(ps, st, pre.len() as int, top, false, true));
    lemma_shift(pre, tail, st, 0, top, false, true);
    assert(skip(ps, st, b.len() as int) == skip(ps, st, pre.len() as int)) by {
        lemma_skip_through(ps, st, b.len() as int, pre.len() as int);
    }
    lemma_shift(pre, tail, st, 0, top, false, false);
    lemma_skip_none(tail, st, 0);
    lemma_skip_none(tail, st, 1);
    assert(tail[0] == SelectorPart::Combinator(Combinator::Universal));
    if top > 0 {
        assert(run(tail, st, 1, top - 1, false, false));
    }
}

/// The first position below `pos` where `c` holds, found by climbing.
proof fn lemma_climb(c: Component, st: Seq<Seq<Tag>>, pos: int)
    requires
        0 <= pos < st.len(),
    ensures
        find_up(c, st, pos, true, true) is Some <==> exists|p: int| 0 <= p < pos && holds_at(c, #[trigger] st[p]),
    decreases pos,
{
    if pos > 0 {
        lemma_climb(c, st, pos - 1);
        if holds_at(c, st[pos - 1]) {
        } else {
            assert forall|p: int| 0 <= p < pos && holds_at(c, #[trigger] st[p]) implies p < pos - 1 by {}
        }
    }
}

/// `a b`, with `b` a compound and `a` a single component, matches an
/// element exactly when `b` holds of the element and `a` holds of some
/// ancestor, at any depth.
pub proof fn law_ancestor(b: Seq<SelectorPart>, a: Component, st: Seq<Seq<Tag>>)
    requires
        b.len() > 0,
        components_upto(b, b.len() as int),
        st.len() > 0,
    ensures
        parts_match(b + seq![SelectorPart::Combinator(Combinator::Ancestor), SelectorPart::Component(a)], st)
            == (all_hold(b, 0, b.len() as int, st.last()) && exists|p: int|
            0 <= p < st.len() - 1 && holds_at(a, #[trigger] st[p])),
{
    let pre = b + seq![SelectorPart::Combinator(Combinator::Ancestor)];
    let tail = seq![SelectorPart::Component(a)];
    let ps = b + seq![SelectorPart::Combinator(Combinator::Ancestor), SelectorPart::Component(a)];
    assert(ps == pre + tail);
    let top = st.len() - 1;
    assert(components_upto(ps, b.len() as int)) by {
        assert forall|i: int| 0 <= i < b.len() implies (#[trigger] ps[i]) is Component by {
            assert(ps[i] == b[i]);
        }
    }
    lemma_compound_walk(ps, b.len() as int, st, 0, top);
    assert(all_hold(ps, 0, b.len() as int, st[top]) == all_hold(b, 0, b.len() as int, st.last())) by {
        assert forall|i: int| 0 <= i < b.len() implies ps[i] == b[i] by {}
    }
    assert(ps[b.len() as int] == SelectorPart::Combinator(Combinator::Ancestor));
    assert(run(ps, st, b.len() as int, top, false, false) == run(ps, st, pre.len() as int, top, false, true));
    lemma_shift(pre, tail, st, 0, top, false, true);
    assert(skip(ps, st, b.len() as int) == skip(ps, st, pre.len() as int)) by {
        lemma_skip_through(ps, st, b.len() as int, pre.len() as int);
    }
    lemma_shift(pre, tail, st, 0, top, false, false);
    lemma_skip_none(tail, st, 0);
    lemma_skip_none(tail, st, 1);
    lemma_climb(a, st, top);
    assert(tail[0] == SelectorPart::Component(a));
    match find_up(a, st, top, true, true) {
        Some(p) => {
            assert(run(tail, st, 1, p, false, false));
            assert(run(tail, st, 0, top, false, true));
        },
        None => {
            assert(!run(tail, st, 0, top, false, true));
        },
    }
}

proof fn lemma_alternatives(a: Seq<SelectorPart>, c: Seq<SelectorPart>, st: Seq<Seq<Tag>>, k: int, pos: int, par: bool, anc: bool)
    requires
        0 <= k <= a.len(),
        no_or_from(a, 0),
    ensures
        run(a + seq![SelectorPart::Combinator(Combinator::Or)] + c, st, k, pos, par, anc) == (run(a, st, k, pos, par, anc)
            || parts_match(c, st)),
        skip(a + seq![SelectorPart::Combinator(Combinator::Or)] + c, st, k) == parts_match(c, st),
        !skip(a, st, k),
    decreases a.len() - k,
{
    let pre = a + seq![SelectorPart::Combinator(Combinator::Or)];
    let ps = pre + c;
    lemma_shift(pre, c, st, 0, st.len() - 1, false, false);
    lemma_skip_none(a, st, k);
    if k < a.len() {
        assert(ps[k] == a[k]);
        assert(!is_or(a[k]));
        lemma_alternatives(a, c, st, k + 1, pos, true, anc);
        lemma_alternatives(a, c, st, k + 1, pos, par, true);
        lemma_alternatives(a, c, st, k + 1, pos, par, anc);
        lemma_alternatives(a, c, st, k + 1, pos - 1, false, false);
        match a[k] {
            SelectorPart::Component(cc) => match find_up(cc, st, pos, par || anc, anc) {
                Some(p) => lemma_alternatives(a, c, st, k + 1, p, false, false),
                None => {},
            },
            _ => {},
        }
    } else {
        assert(ps[k] == SelectorPart::Combinator(Combinator::Or));
    }
}

/// `a, c`, with `a` one alternative, matches an element exactly when `a`
/// matches it or `c` does; `c` is tried afresh from the same element.
pub proof fn law_or(a: Seq<SelectorPart>, c: Seq<SelectorPart>, st: Seq<Seq<Tag>>)
    requires
        no_or_from(a, 0),
    ensures
        parts_match(a + seq![SelectorPart::Combinator(Combinator::Or)] + c, st) == (parts_match(a, st) || parts_match(c, st)),
{
    lemma_alternatives(a, c, st, 0, st.len() - 1, false, false);
}

proof fn lemma_resolve_injective(p: SelectorPart, q: SelectorPart, names: Seq<Seq<u8>>)
    requires
        distinct_names(names),
        atom_below(p, names.len()),
        atom_below(q, names.len()),
        resolve(p, names) == resolve(q, names),
    ensures
        p == q,
{
}

proof fn lemma_only_part(p: Seq<SelectorPart>, names: Seq<Seq<u8>>, piece: Piece)
    requires
        resolve_all(p, names) == seq![piece],
    ensures
        p.len() == 1,
        resolve(p[0], names) == piece,
{
    assert(resolve_all(p, names).len() == p.len());
    assert(resolve_all(p, names)[0] == resolve(p[0], names));
}

/// Compiling one text twice against one table gives the same parts, so the
/// two selectors match alike on every stack.
pub proof fn law_compile_deterministic(
    s: Seq<u8>,
    names: Seq<Seq<u8>>,
    p1: Seq<SelectorPart>,
    p2: Seq<SelectorPart>,
    st: Seq<Seq<Tag>>,
)
    requires
        distinct_names(names),
        atoms_below(p1, names.len()),
        atoms_below(p2, names.len()),
        resolve_all(p1, names) == compiled(s),
        resolve_all(p2, names) == compiled(s),
    ensures
        p1 == p2,
        parts_match(p1, st) == parts_match(p2, st),
{
    assert(p1.len() == resolve_all(p1, names).len());
    assert(p2.len() == resolve_all(p2, names).len());
    assert forall|i: int| 0 <= i < p1.len() implies p1[i] == p2[i] by {
        assert(resolve_all(p1, names)[i] == resolve(p1[i], names));
        assert(resolve_all(p2, names)[i] == resolve(p2[i], names));
        lemma_resolve_injective(p1[i], p2[i], names);
    }
    assert(p1 =~= p2);
}

/// Empty text compiles to the selector that matches nothing.
pub proof fn law_empty_text(p: Seq<SelectorPart>, names: Seq<Seq<u8>>, st: Seq<Seq<Tag>>)
    requires
        resolve_all(p, names) == compiled(Seq::empty()),
        st.len() > 0,
    ensures
        p == seq![SelectorPart::Component(Component::Unsupported)],
        !parts_match(p, st),
{
    let e = Seq::<u8>::empty();
    assert(tokens_from(e, 0) == Seq::<Token>::empty());
    assert(compiled(e) == seq![Piece::Unsupported]);
    lemma_only_part(p, names, Piece::Unsupported);
    assert(p =~= seq![SelectorPart::Component(Component::Unsupported)]);
    assert(!holds_at(Component::Unsupported, st[st.len() - 1]));
    assert(!skip(p, st, 1));
}

/// `*` matches every element.
pub proof fn law_universal(p: Seq<SelectorPart>, names: Seq<Seq<u8>>, st: Seq<Seq<Tag>>)
    requires
        resolve_all(p, names) == compiled(seq![42u8]),
        st.len() > 0,
    ensures
        parts_match(p, st),
{
    let s = seq![42u8];
    let t = Token { kind: TokenKind::Star, start: 0, end: 1 };
    assert(tokens_from(s, 1) == Seq::<Token>::empty());
    assert(tokens_from(s, 0) =~= seq![t]);
    let ts = tokens_from(s, 0);
    let after = step(initial_state(), s, t);
    assert(run_tokens(s, ts, 0) == initial_state());
    assert(ts[0] == t);
    assert(run_tokens(s, ts, 1) == after);
    assert(after.compound =~= seq![Piece::Comb(Combinator::Universal)]);
    assert(finish(after) == Some(seq![Piece::Comb(Combinator::Universal)])) by {
        assert(after.done + after.compound =~= seq![Piece::Comb(Combinator::Universal)]);
    }
    assert(compiled(s) =~= seq![Piece::Comb(Combinator::Universal)]);
    lemma_only_part(p, names, Piece::Comb(Combinator::Universal));
    assert(p =~= seq![SelectorPart::Combinator(Combinator::Universal)]);
    assert(run(p, st, 1, st.len() - 1, false, false));
}

/// The tag that gives an element the local name `a`.
pub open spec fn local_name_tag(a: Atom) -> Tag {
    Tag { kind: TagKind::LocalName, name: a }
}

/// Text that is one name: a name start byte, then name bytes.
pub open spec fn is_name(s: Seq<u8>) -> bool {
    s.len() > 0 && is_name_start(s[0]) && forall|i: int| 1 <= i < s.len() ==> is_name_char(#[trigger] s[i])
}

proof fn lemma_name_run(s: Seq<u8>, i: int)
    requires
        is_name(s),
        1 <= i <= s.len(),
    ensures
        name_run(s, i) == s.len() - i,
    decreases s.len() - i,
{
    if i < s.len() {
        lemma_name_run(s, i + 1);
    }
}

/// A bare name matches exactly the elements whose local name is that name,
/// byte for byte.
pub proof fn law_local_name(s: Seq<u8>, names: Seq<Seq<u8>>, p: Seq<SelectorPart>, st: Seq<Seq<Tag>>)
    requires
        is_name(s),
        s.len() <= usize::MAX,
        distinct_names(names),
        atoms_below(p, names.len()),
        resolve_all(p, names) == compiled(s),
        st.len() > 0,
    ensures
        parts_match(p, st) == exists|a: Atom|
            a.index < names.len() && names[a.index as int] == s && st.last().contains(
                #[trigger] local_name_tag(a),
            ),
{
    lemma_name_run(s, 1);
    let t = Token { kind: TokenKind::Ident, start: 0, end: s.len() as usize };
    assert(tokens_from(s, s.len() as int) == Seq::<Token>::empty());
    assert(tokens_from(s, 0) =~= seq![t]);
    assert(s.subrange(0, s.len() as int) =~= s);
    let ts = tokens_from(s, 0);
    let after = step(initial_state(), s, t);
    assert(run_tokens(s, ts, 0) == initial_state());
    assert(ts[0] == t);
    assert(run_tokens(s, ts, 1) == after);
    assert(after.compound =~= seq![Piece::Name(TagKind::LocalName, s)]);
    assert(finish(after) == Some(seq![Piece::Name(TagKind::LocalName, s)])) by {
        assert(after.done + after.compound =~= seq![Piece::Name(TagKind::LocalName, s)]);
    }
    assert(compiled(s) =~= seq![Piece::Name(TagKind::LocalName, s)]);
    lemma_only_part(p, names, Piece::Name(TagKind::LocalName, s));
    assert(atom_below(p[0], names.len()));
    let a = p[0]->Component_0->LocalName_0;
    assert(p =~= seq![SelectorPart::Component(Component::LocalName(a))]);
    let tag = Tag { kind: TagKind::LocalName, name: a };
    assert(holds_at(Component::LocalName(a), st[st.len() - 1]) == st.last().contains(tag));
    if parts_match(p, st) {
        assert(!skip(p, st, 1));
        assert(st.last().contains(tag));
        assert(names[a.index as int] == s);
        assert(st.last().contains(local_name_tag(a)));
    } else {
        assert(!skip(p, st, 1));
        assert(run(p, st, 1, st.len() - 1, false, false));
        assert(!st.last().contains(tag));
        assert forall|b: Atom|
            b.index < names.len() && names[b.index as int] == s implies !st.last().contains(
            #[trigger] local_name_tag(b),
        ) by {
            assert(names[a.index as int] == s);
            assert(b.index == a.index);
            assert(b == a);
        }
    }
}

/// The stack of an element without its last entry is the stack of its
/// parent; a root's stack holds the root alone.
pub proof fn lemma_ancestry_parent(nodes: NodesModel, el: int)
    requires
        parents_precede(nodes),
        0 <= el < nodes.len(),
    ensures
        match nodes[el].1 {
            Some(p) => ancestry(nodes, el).len() >= 2 && ancestry(nodes, el).drop_last() == ancestry(nodes, p as int),
            None => ancestry(nodes, el).len() == 1,
        },
{
    match nodes[el].1 {
        Some(p) => {
            assert((p as int) < el);
            lemma_ancestry_len(nodes, p as int);
            assert(ancestry(nodes, el).drop_last() =~= ancestry(nodes, p as int));
        },
        None => {},
    }
}

/// In a document: `a > b` (as in `law_parent`) matches element `el` exactly
/// when `b` holds of `el`, `el` has a parent, and `a` matches that parent.
pub proof fn law_parent_in_document(nodes: NodesModel, el: int, b: Seq<SelectorPart>, a: Seq<SelectorPart>)
    requires
        parents_precede(nodes),
        0 <= el < nodes.len(),
        b.len() > 0,
        components_upto(b, b.len() as int),
        a.len() > 0,
        starts_compound(a[0]),
        no_or_from(a, 0),
    ensures
        parts_match(b + seq![SelectorPart::Combinator(Combinator::Parent)] + a, ancestry(nodes, el)) == (all_hold(
            b,
            0,
            b.len() as int,
            nodes[el].0,
        ) && match nodes[el].1 {
            Some(p) => parts_match(a, ancestry(nodes, p as int)),
            None => false,
        }),
{
    lemma_ancestry_len(nodes, el);
    lemma_ancestry_parent(nodes, el);
    law_parent(b, a, ancestry(nodes, el));
}

proof fn lemma_find_up_strict(c: Component, st: Seq<Seq<Tag>>, pos: int)
    ensures
        match find_up(c, st, pos, true, true) {
            Some(p) => 0 <= p < pos && holds_at(c, st[p]),
            None => true,
        },
    decreases pos,
{
    if pos > 0 && !holds_at(c, st[pos - 1]) {
        lemma_find_up_strict(c, st, pos - 1);
    }
}

/// When `a b`, with `b` and `a` compounds, matches an element, `b` holds of
/// the element and every component of `a` holds of one same ancestor. (The
/// climb stops at the nearest ancestor that has the first component of `a`,
/// so the converse does not hold.)
pub proof fn law_ancestor_compound_sound(b: Seq<SelectorPart>, a: Seq<SelectorPart>, st: Seq<Seq<Tag>>)
    requires
        b.len() > 0,
        components_upto(b, b.len() as int),
        a.len() > 0,
        components_upto(a, a.len() as int),
        st.len() > 0,
        parts_match(b + seq![SelectorPart::Combinator(Combinator::Ancestor)] + a, st),
    ensures
        all_hold(b, 0, b.len() as int, st.last()),
        exists|p: int| 0 <= p < st.len() - 1 && all_hold(a, 0, a.len() as int, #[trigger] st[p]),
{
    let pre = b + seq![SelectorPart::Combinator(Combinator::Ancestor)];
    let ps = pre + a;
    let top = st.len() - 1;
    assert(components_upto(ps, b.len() as int)) by {
        assert forall|i: int| 0 <= i < b.len() implies (#[trigger] ps[i]) is Component by {
            assert(ps[i] == b[i]);
        }
    }
    lemma_compound_walk(ps, b.len() as int, st, 0, top);
    assert(all_hold(ps, 0, b.len() as int, st[top]) == all_hold(b, 0, b.len() as int, st.last())) by {
        assert forall|i: int| 0 <= i < b.len() implies ps[i] == b[i] by {}
    }
    assert(ps[b.len() as int] == SelectorPart::Combinator(Combinator::Ancestor));
    assert(run(ps, st, b.len() as int, top, false, false) == run(ps, st, pre.len() as int, top, false, true));
    lemma_shift(pre, a, st, 0, top, false, true);
    assert(skip(ps, st, b.len() as int) == skip(ps, st, pre.len() as int)) by {
        lemma_skip_through(ps, st, b.len() as int, pre.len() as int);
    }
    lemma_shift(pre, a, st, 0, top, false, false);
    assert(no_or_from(a, 0)) by {
        assert forall|i: int| 0 <= i < a.len() implies !is_or(#[trigger] a[i]) by {
            assert(a[i] is Component);
        }
    }
    lemma_skip_none(a, st, 0);
    lemma_skip_none(a, st, 1);
    assert(a[0] is Component);
    let c = a[0]->Component_0;
    lemma_find_up_strict(c, st, top);
    match find_up(c, st, top, true, true) {
        Some(p) => {
            lemma_compound_walk(a, a.len() as int, st, 1, p);
            assert(all_hold(a, 1, a.len() as int, st[p]));
            assert(all_hold(a, 0, a.len() as int, st[p]));
        },
        None => {},
    }
}

} // verus!
