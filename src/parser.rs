use vstd::prelude::*;
use vstd::string::StringSliceAdditionalSpecFns;
use crate::atom::Interner;
use crate::selector::{Combinator, Component, Selector, SelectorPart, TagKind};

verus! {

#[derive(Clone, Copy, Debug, PartialEq, Eq, Structural)]
pub enum TokenKind {
    /// `[A-Za-z_][A-Za-z0-9_-]*`
    Ident,
    Hash,
    Dot,
    Star,
    Gt,
    Comma,
    /// A run of whitespace.
    Space,
    /// A byte that starts nothing above, with the name characters after it.
    Other,
}

/// A token: its kind and the byte range `start..end` it covers.
#[derive(Clone, Copy, Debug, PartialEq, Eq, Structural)]
pub struct Token {
    pub kind: TokenKind,
    pub start: usize,
    pub end: usize,
}

pub open spec fn is_space(b: u8) -> bool {
    b == 32 || b == 9 || b == 10 || b == 12 || b == 13
}

pub open spec fn is_name_start(b: u8) -> bool {
    (65 <= b <= 90) || (97 <= b <= 122) || b == 95
}

pub open spec fn is_name_char(b: u8) -> bool {
    is_name_start(b) || (48 <= b <= 57) || b == 45
}

/// Number of whitespace bytes from `i` on.
pub open spec fn space_run(s: Seq<u8>, i: int) -> nat
    decreases s.len() - i,
{
    if 0 <= i < s.len() && is_space(s[i]) {
        1 + space_run(s, i + 1)
    } else {
        0
    }
}

/// Number of name bytes from `i` on.
pub open spec fn name_run(s: Seq<u8>, i: int) -> nat
    decreases s.len() - i,
{
    if 0 <= i < s.len() && is_name_char(s[i]) {
        1 + name_run(s, i + 1)
    } else {
        0
    }
}

/// Kind of the token that starts with byte `b`.
pub open spec fn kind_of(b: u8) -> TokenKind {
    if is_space(b) {
        TokenKind::Space
    } else if is_name_start(b) {
        TokenKind::Ident
    } else if b == 35 {
        TokenKind::Hash
    } else if b == 46 {
        TokenKind::Dot
    } else if b == 42 {
        TokenKind::Star
    } else if b == 62 {
        TokenKind::Gt
    } else if b == 44 {
        TokenKind::Comma
    } else {
        TokenKind::Other
    }
}

/// End of the token that starts at `i`.
pub open spec fn token_end(s: Seq<u8>, i: int) -> int {
    match kind_of(s[i]) {
        TokenKind::Space => i + 1 + space_run(s, i + 1),
        TokenKind::Ident => i + 1 + name_run(s, i + 1),
        TokenKind::Other => i + 1 + name_run(s, i + 1),
        _ => i + 1,
    }
}

/// The tokens of `s` from byte `i` on.
pub open spec fn tokens_from(s: Seq<u8>, i: int) -> Seq<Token>
    decreases s.len() - i,
{
    if i < 0 || i >= s.len() {
        Seq::empty()
    } else {
        let j = token_end(s, i);
        if j <= s.len() {
            seq![Token { kind: kind_of(s[i]), start: i as usize, end: j as usize }] + tokens_from(s, j)
        } else {
            Seq::empty()
        }
    }
}

fn is_space_byte(b: u8) -> (r: bool)
    ensures
        r == is_space(b),
{
    b == 32 || b == 9 || b == 10 || b == 12 || b == 13
}

fn is_name_start_byte(b: u8) -> (r: bool)
    ensures
        r == is_name_start(b),
{
    (65 <= b && b <= 90) || (97 <= b && b <= 122) || b == 95
}

fn is_name_byte(b: u8) -> (r: bool)
    ensures
        r == is_name_char(b),
{
    is_name_start_byte(b) || (48 <= b && b <= 57) || b == 45
}

fn kind_of_byte(b: u8) -> (r: TokenKind)
    ensures
        r == kind_of(b),
{
    if is_space_byte(b) {
        TokenKind::Space
    } else if is_name_start_byte(b) {
        TokenKind::Ident
    } else if b == 35 {
        TokenKind::Hash
    } else if b == 46 {
        TokenKind::Dot
    } else if b == 42 {
        TokenKind::Star
    } else if b == 62 {
        TokenKind::Gt
    } else if b == 44 {
        TokenKind::Comma
    } else {
        TokenKind::Other
    }
}

fn continues_run(b: u8, spaces: bool) -> (r: bool)
    ensures
        r == if spaces { is_space(b) } else { is_name_char(b) },
{
    if spaces {
        is_space_byte(b)
    } else {
        is_name_byte(b)
    }
}

/// Index of the first byte from `i` on that is not whitespace (`spaces`) or
/// not a name byte (otherwise).
fn run_end(s: &[u8], i: usize, spaces: bool) -> (r: usize)
    requires
        i <= s@.len(),
    ensures
        i <= r <= s@.len(),
        spaces ==> r == i + space_run(s@, i as int),
        !spaces ==> r == i + name_run(s@, i as int),
{
    let mut j: usize = i;
    while j < s.len() && continues_run(s[j], spaces)
        invariant
            i <= j <= s@.len(),
            spaces ==> space_run(s@, i as int) == (j - i) + space_run(s@, j as int),
            !spaces ==> name_run(s@, i as int) == (j - i) + name_run(s@, j as int),
        decreases s@.len() - j,
    {
        j = j + 1;
    }
    j
}

/// Splits selector text into tokens. Never fails: bytes that start no
/// token of the grammar become `Other` tokens.
pub fn tokenize(s: &[u8]) -> (r: Vec<Token>)
    ensures
        r@ == tokens_from(s@, 0),
        forall|k: int| 0 <= k < r@.len() ==> (#[trigger] r@[k]).start <= r@[k].end <= s@.len(),
{
    let mut out: Vec<Token> = Vec::new();
    let mut i: usize = 0;
    while i < s.len()
        invariant
            i <= s@.len(),
            out@ + tokens_from(s@, i as int) == tokens_from(s@, 0),
            forall|k: int| 0 <= k < out@.len() ==> (#[trigger] out@[k]).start <= out@[k].end <= s@.len(),
        decreases s@.len() - i,
    {
        let kind = kind_of_byte(s[i]);
        let j = match kind {
            TokenKind::Space => run_end(s, i + 1, true),
            TokenKind::Ident => run_end(s, i + 1, false),
            TokenKind::Other => run_end(s, i + 1, false),
            _ => i + 1,
        };
        assert(j == token_end(s@, i as int));
        let t = Token { kind, start: i, end: j };
        assert(tokens_from(s@, i as int) == seq![t] + tokens_from(s@, j as int));
        out.push(t);
        assert(out@ + tokens_from(s@, j as int) =~= (out@.drop_last() + seq![t]) + tokens_from(s@, j as int));
        i = j;
    }
    assert(out@ + tokens_from(s@, i as int) =~= out@);
    out
}

/// A selector part with its name spelled out.
pub enum Piece {
    Name(TagKind, Seq<u8>),
    Unsupported,
    Comb(Combinator),
}

/// The part `p` with its atom replaced by the name it stands for in `names`.
pub open spec fn resolve(p: SelectorPart, names: Seq<Seq<u8>>) -> Piece {
    match p {
        SelectorPart::Component(Component::LocalName(a)) => Piece::Name(TagKind::LocalName, names[a.index as int]),
        SelectorPart::Component(Component::Identifier(a)) => Piece::Name(TagKind::Identifier, names[a.index as int]),
        SelectorPart::Component(Component::ClassName(a)) => Piece::Name(TagKind::ClassName, names[a.index as int]),
        SelectorPart::Component(Component::Unsupported) => Piece::Unsupported,
        SelectorPart::Combinator(c) => Piece::Comb(c),
    }
}

pub open spec fn resolve_all(ps: Seq<SelectorPart>, names: Seq<Seq<u8>>) -> Seq<Piece> {
    ps.map_values(|p: SelectorPart| resolve(p, names))
}

/// Whether the atom of `p`, if any, is below `n`.
pub open spec fn atom_below(p: SelectorPart, n: nat) -> bool {
    match p {
        SelectorPart::Component(Component::LocalName(a)) => a.index < n,
        SelectorPart::Component(Component::Identifier(a)) => a.index < n,
        SelectorPart::Component(Component::ClassName(a)) => a.index < n,
        _ => true,
    }
}

pub open spec fn atoms_below(ps: Seq<SelectorPart>, n: nat) -> bool {
    forall|i: int| 0 <= i < ps.len() ==> atom_below(#[trigger] ps[i], n)
}

/// Where the parser stands.
#[derive(Clone, Copy, Debug, PartialEq, Eq, Structural)]
pub enum Mode {
    /// A compound must start here.
    Start,
    /// Inside a compound.
    InCompound,
    /// After whitespace that followed a compound.
    AfterSpace,
    /// After `#` or `.`, a name must follow.
    NeedName(TagKind),
    Failed,
}

/// Parser state: the finished alternatives (`done`, each followed by `Or`),
/// the finished compounds of the current alternative in matching order
/// (`group`), the compound being read, and the combinator that joins it to
/// `group`.
pub struct ParseState {
    pub done: Seq<Piece>,
    pub group: Seq<Piece>,
    pub compound: Seq<Piece>,
    pub link: Combinator,
    pub mode: Mode,
}

pub open spec fn initial_state() -> ParseState {
    ParseState {
        done: Seq::empty(),
        group: Seq::empty(),
        compound: Seq::empty(),
        link: Combinator::Ancestor,
        mode: Mode::Start,
    }
}

/// The current alternative with the compound being read put in front.
pub open spec fn joined(st: ParseState) -> Seq<Piece> {
    if st.group.len() == 0 {
        st.compound
    } else {
        st.compound + seq![Piece::Comb(st.link)] + st.group
    }
}

pub open spec fn with_mode(st: ParseState, m: Mode) -> ParseState {
    ParseState { mode: m, ..st }
}

pub open spec fn push_piece(st: ParseState, p: Piece) -> ParseState {
    ParseState { compound: st.compound.push(p), mode: Mode::InCompound, ..st }
}

/// Ends the compound being read; the next one is joined by `next`.
pub open spec fn close(st: ParseState, next: Combinator) -> ParseState {
    ParseState { group: joined(st), compound: Seq::empty(), link: next, mode: Mode::Start, ..st }
}

/// Ends the current alternative at a `,`.
pub open spec fn end_group(st: ParseState) -> ParseState {
    ParseState {
        done: st.done + joined(st) + seq![Piece::Comb(Combinator::Or)],
        group: Seq::empty(),
        compound: Seq::empty(),
        link: st.link,
        mode: Mode::Start,
    }
}

pub open spec fn name_of(s: Seq<u8>, t: Token) -> Seq<u8> {
    s.subrange(t.start as int, t.end as int)
}

/// A token where a compound may start.
pub open spec fn start_step(st: ParseState, s: Seq<u8>, t: Token) -> ParseState {
    match t.kind {
        TokenKind::Space => st,
        TokenKind::Ident => push_piece(st, Piece::Name(TagKind::LocalName, name_of(s, t))),
        TokenKind::Hash => with_mode(st, Mode::NeedName(TagKind::Identifier)),
        TokenKind::Dot => with_mode(st, Mode::NeedName(TagKind::ClassName)),
        TokenKind::Star => push_piece(st, Piece::Comb(Combinator::Universal)),
        TokenKind::Other => push_piece(st, Piece::Unsupported),
        _ => with_mode(st, Mode::Failed),
    }
}

/// The parser's move on token `t` of `s`.
pub open spec fn step(st: ParseState, s: Seq<u8>, t: Token) -> ParseState {
    match st.mode {
        Mode::Failed => st,
        Mode::NeedName(k) => if t.kind == TokenKind::Ident {
            push_piece(st, Piece::Name(k, name_of(s, t)))
        } else {
            with_mode(st, Mode::Failed)
        },
        Mode::Start => start_step(st, s, t),
        Mode::InCompound => match t.kind {
            TokenKind::Space => with_mode(st, Mode::AfterSpace),
            TokenKind::Gt => close(st, Combinator::Parent),
            TokenKind::Comma => end_group(st),
            TokenKind::Hash => with_mode(st, Mode::NeedName(TagKind::Identifier)),
            TokenKind::Dot => with_mode(st, Mode::NeedName(TagKind::ClassName)),
            TokenKind::Other => push_piece(st, Piece::Unsupported),
            _ => with_mode(st, Mode::Failed),
        },
        Mode::AfterSpace => match t.kind {
            TokenKind::Space => st,
            TokenKind::Gt => close(st, Combinator::Parent),
            TokenKind::Comma => end_group(st),
            _ => start_step(close(st, Combinator::Ancestor), s, t),
        },
    }
}

/// The state after the first `n` tokens.
pub open spec fn run_tokens(s: Seq<u8>, ts: Seq<Token>, n: int) -> ParseState
    decreases n,
{
    if n <= 0 {
        initial_state()
    } else {
        step(run_tokens(s, ts, n - 1), s, ts[n - 1])
    }
}

/// The parts once every token is read; `None` where the text breaks the
/// grammar.
pub open spec fn finish(st: ParseState) -> Option<Seq<Piece>> {
    match st.mode {
        Mode::InCompound | Mode::AfterSpace => Some(st.done + joined(st)),
        _ => None,
    }
}

/// What selector text compiles to: its parts, or the lone unsupported
/// component where the text is not a selector of the grammar.
pub open spec fn compiled(s: Seq<u8>) -> Seq<Piece> {
    let ts = tokens_from(s, 0);
    match finish(run_tokens(s, ts, ts.len() as int)) {
        Some(ps) => ps,
        None => seq![Piece::Unsupported],
    }
}

/// `names` begins with `prefix`.
pub open spec fn extends(names: Seq<Seq<u8>>, prefix: Seq<Seq<u8>>) -> bool {
    prefix.len() <= names.len() && forall|i: int| 0 <= i < prefix.len() ==> #[trigger] names[i] == prefix[i]
}

pub proof fn lemma_resolve_extends(ps: Seq<SelectorPart>, names: Seq<Seq<u8>>, more: Seq<Seq<u8>>)
    requires
        atoms_below(ps, names.len()),
        extends(more, names),
    ensures
        resolve_all(ps, more) == resolve_all(ps, names),
        atoms_below(ps, more.len()),
{
    assert forall|i: int| 0 <= i < ps.len() implies resolve(ps[i], more) == resolve(ps[i], names) by {
        assert(atom_below(ps[i], names.len()));
    }
    assert(resolve_all(ps, more) =~= resolve_all(ps, names));
}

/// Exec state of the parser; its parts hold atoms of an interner.
struct Builder {
    done: Vec<SelectorPart>,
    group: Vec<SelectorPart>,
    compound: Vec<SelectorPart>,
    link: Combinator,
    mode: Mode,
}

impl Builder {
    spec fn view_in(&self, names: Seq<Seq<u8>>) -> ParseState {
        ParseState {
            done: resolve_all(self.done@, names),
            group: resolve_all(self.group@, names),
            compound: resolve_all(self.compound@, names),
            link: self.link,
            mode: self.mode,
        }
    }

    spec fn below(&self, n: nat) -> bool {
        atoms_below(self.done@, n) && atoms_below(self.group@, n) && atoms_below(self.compound@, n)
    }
}

proof fn lemma_builder_extends(b: &Builder, names: Seq<Seq<u8>>, more: Seq<Seq<u8>>)
    requires
        b.below(names.len()),
        extends(more, names),
    ensures
        b.below(more.len()),
        b.view_in(more) == b.view_in(names),
{
    lemma_resolve_extends(b.done@, names, more);
    lemma_resolve_extends(b.group@, names, more);
    lemma_resolve_extends(b.compound@, names, more);
}

proof fn lemma_resolve_concat(a: Seq<SelectorPart>, b: Seq<SelectorPart>, names: Seq<Seq<u8>>)
    ensures
        resolve_all(a + b, names) == resolve_all(a, names) + resolve_all(b, names),
{
    assert(resolve_all(a + b, names) =~= resolve_all(a, names) + resolve_all(b, names));
}

/// Moves all of `b` onto the end of `a`.
fn append_parts(a: &mut Vec<SelectorPart>, b: &Vec<SelectorPart>)
    ensures
        final(a)@ == old(a)@ + b@,
{
    let mut i: usize = 0;
    while i < b.len()
        invariant
            i <= b@.len(),
            a@ == old(a)@ + b@.subrange(0, i as int),
        decreases b@.len() - i,
    {
        a.push(b[i]);
        i = i + 1;
        assert(a@ =~= old(a)@ + b@.subrange(0, i as int));
    }
    assert(b@ =~= b@.subrange(0, b@.len() as int));
}

/// `joined` on the exec state.
fn joined_exec(b: &Builder) -> (r: Vec<SelectorPart>)
    ensures
        r@ == (if b.group@.len() == 0 {
            b.compound@
        } else {
            b.compound@ + seq![SelectorPart::Combinator(b.link)] + b.group@
        }),
{
    let mut r: Vec<SelectorPart> = Vec::new();
    append_parts(&mut r, &b.compound);
    if b.group.len() > 0 {
        r.push(SelectorPart::Combinator(b.link));
        append_parts(&mut r, &b.group);
    }
    assert(r@ =~= (if b.group@.len() == 0 {
        b.compound@
    } else {
        b.compound@ + seq![SelectorPart::Combinator(b.link)] + b.group@
    }));
    r
}

proof fn lemma_joined(b: &Builder, names: Seq<Seq<u8>>)
    ensures
        resolve_all(
            if b.group@.len() == 0 {
                b.compound@
            } else {
                b.compound@ + seq![SelectorPart::Combinator(b.link)] + b.group@
            },
            names,
        ) == joined(b.view_in(names)),
{
    let st = b.view_in(names);
    if b.group@.len() > 0 {
        let one = seq![SelectorPart::Combinator(b.link)];
        lemma_resolve_concat(b.compound@ + one, b.group@, names);
        lemma_resolve_concat(b.compound@, one, names);
        assert(resolve_all(one, names) =~= seq![Piece::Comb(b.link)]);
    }
}

/// The bytes `s[start..end]`.
fn copy_range(s: &[u8], start: usize, end: usize) -> (r: Vec<u8>)
    requires
        start <= end <= s@.len(),
    ensures
        r@ == s@.subrange(start as int, end as int),
{
    let mut r: Vec<u8> = Vec::new();
    let mut i: usize = start;
    while i < end
        invariant
            start <= i <= end,
            end <= s@.len(),
            r@ == s@.subrange(start as int, i as int),
        decreases end - i,
    {
        r.push(s[i]);
        i = i + 1;
        assert(r@ =~= s@.subrange(start as int, i as int));
    }
    r
}

/// The component of kind `kind` named by token `t`, its name interned.
fn named_component(kind: TagKind, s: &[u8], t: Token, atoms: &mut Interner) -> (r: SelectorPart)
    requires
        old(atoms).wf(),
        t.start <= t.end <= s@.len(),
    ensures
        final(atoms).wf(),
        extends(final(atoms)@, old(atoms)@),
        atom_below(r, final(atoms)@.len()),
        resolve(r, final(atoms)@) == Piece::Name(kind, name_of(s@, t)),
{
    let name = copy_range(s, t.start, t.end);
    let a = atoms.intern(name.as_slice());
    match kind {
        TagKind::LocalName => SelectorPart::Component(Component::LocalName(a)),
        TagKind::Identifier => SelectorPart::Component(Component::Identifier(a)),
        TagKind::ClassName => SelectorPart::Component(Component::ClassName(a)),
    }
}

impl Builder {
    fn push_part(&mut self, p: SelectorPart, Ghost(names): Ghost<Seq<Seq<u8>>>)
        requires
            old(self).below(names.len()),
            atom_below(p, names.len()),
        ensures
            final(self).below(names.len()),
            final(self).view_in(names) == push_piece(old(self).view_in(names), resolve(p, names)),
    {
        self.compound.push(p);
        self.mode = Mode::InCompound;
        assert(resolve_all(self.compound@, names) =~= resolve_all(old(self).compound@, names).push(resolve(p, names)));
    }

    fn close(&mut self, next: Combinator, Ghost(names): Ghost<Seq<Seq<u8>>>)
        requires
            old(self).below(names.len()),
        ensures
            final(self).below(names.len()),
            final(self).view_in(names) == close(old(self).view_in(names), next),
    {
        let g = joined_exec(self);
        proof {
            lemma_joined(self, names);
        }
        self.group = g;
        self.compound = Vec::new();
        self.link = next;
        self.mode = Mode::Start;
        assert(resolve_all(self.compound@, names) =~= Seq::<Piece>::empty());
    }

    fn end_group(&mut self, Ghost(names): Ghost<Seq<Seq<u8>>>)
        requires
            old(self).below(names.len()),
        ensures
            final(self).below(names.len()),
            final(self).view_in(names) == end_group(old(self).view_in(names)),
    {
        let g = joined_exec(self);
        proof {
            lemma_joined(self, names);
        }
        let ghost d0 = self.done@;
        append_parts(&mut self.done, &g);
        self.done.push(SelectorPart::Combinator(Combinator::Or));
        proof {
            lemma_resolve_concat(d0, g@, names);
            lemma_resolve_concat(d0 + g@, seq![SelectorPart::Combinator(Combinator::Or)], names);
            assert(self.done@ == d0 + g@ + seq![SelectorPart::Combinator(Combinator::Or)]);
            assert(resolve_all(seq![SelectorPart::Combinator(Combinator::Or)], names) =~= seq![Piece::Comb(Combinator::Or)]);
        }
        self.group = Vec::new();
        self.compound = Vec::new();
        self.mode = Mode::Start;
        assert(resolve_all(self.compound@, names) =~= Seq::<Piece>::empty());
        assert(resolve_all(self.group@, names) =~= Seq::<Piece>::empty());
    }

    fn start_step(&mut self, s: &[u8], t: Token, atoms: &mut Interner)
        requires
            old(atoms).wf(),
            old(self).below(old(atoms)@.len()),
            t.start <= t.end <= s@.len(),
        ensures
            final(atoms).wf(),
            extends(final(atoms)@, old(atoms)@),
            final(self).below(final(atoms)@.len()),
            final(self).view_in(final(atoms)@) == start_step(old(self).view_in(old(atoms)@), s@, t),
    {
        let ghost names = atoms@;
        match t.kind {
            TokenKind::Space => {},
            TokenKind::Ident => {
                let p = named_component(TagKind::LocalName, s, t, atoms);
                proof {
                    lemma_builder_extends(self, names, atoms@);
                }
                self.push_part(p, Ghost(atoms@));
            },
            TokenKind::Hash => {
                self.mode = Mode::NeedName(TagKind::Identifier);
            },
            TokenKind::Dot => {
                self.mode = Mode::NeedName(TagKind::ClassName);
            },
            TokenKind::Star => {
                self.push_part(SelectorPart::Combinator(Combinator::Universal), Ghost(names));
            },
            TokenKind::Other => {
                self.push_part(SelectorPart::Component(Component::Unsupported), Ghost(names));
            },
            _ => {
                self.mode = Mode::Failed;
            },
        }
    }

    fn step(&mut self, s: &[u8], t: Token, atoms: &mut Interner)
        requires
            old(atoms).wf(),
            old(self).below(old(atoms)@.len()),
            t.start <= t.end <= s@.len(),
        ensures
            final(atoms).wf(),
            extends(final(atoms)@, old(atoms)@),
            final(self).below(final(atoms)@.len()),
            final(self).view_in(final(atoms)@) == step(old(self).view_in(old(atoms)@), s@, t),
    {
        let ghost names = atoms@;
        match self.mode {
            Mode::Failed => {},
            Mode::NeedName(k) => {
                if t.kind == TokenKind::Ident {
                    let p = named_component(k, s, t, atoms);
                    proof {
                        lemma_builder_extends(self, names, atoms@);
                    }
                    self.push_part(p, Ghost(atoms@));
                } else {
                    self.mode = Mode::Failed;
                }
            },
            Mode::Start => {
                self.start_step(s, t, atoms);
            },
            Mode::InCompound => {
                match t.kind {
                    TokenKind::Space => {
                        self.mode = Mode::AfterSpace;
                    },
                    TokenKind::Gt => {
                        self.close(Combinator::Parent, Ghost(names));
                    },
                    TokenKind::Comma => {
                        self.end_group(Ghost(names));
                    },
                    TokenKind::Hash => {
                        self.mode = Mode::NeedName(TagKind::Identifier);
                    },
                    TokenKind::Dot => {
                        self.mode = Mode::NeedName(TagKind::ClassName);
                    },
                    TokenKind::Other => {
                        self.push_part(SelectorPart::Component(Component::Unsupported), Ghost(names));
                    },
                    _ => {
                        self.mode = Mode::Failed;
                    },
                }
            },
            Mode::AfterSpace => {
                match t.kind {
                    TokenKind::Space => {},
                    TokenKind::Gt => {
                        self.close(Combinator::Parent, Ghost(names));
                    },
                    TokenKind::Comma => {
                        self.end_group(Ghost(names));
                    },
                    _ => {
                        self.close(Combinator::Ancestor, Ghost(names));
                        self.start_step(s, t, atoms);
                    },
                }
            },
        }
    }
}

impl Selector {
    /// Compiles selector text, interning its names in `atoms`. Never fails:
    /// text outside the grammar gives the selector that matches nothing.
    pub fn parse(text: &str, atoms: &mut Interner) -> (r: Selector)
        requires
            old(atoms).wf(),
        ensures
            final(atoms).wf(),
            extends(final(atoms)@, old(atoms)@),
            atoms_below(r@, final(atoms)@.len()),
            resolve_all(r@, final(atoms)@) == compiled(text.spec_bytes()),
    {
        let s = text.as_bytes();
        let ts = tokenize(s);
        let mut b = Builder {
            done: Vec::new(),
            group: Vec::new(),
            compound: Vec::new(),
            link: Combinator::Ancestor,
            mode: Mode::Start,
        };
        assert(b.view_in(atoms@) == initial_state()) by {
            assert(resolve_all(b.done@, atoms@) =~= Seq::<Piece>::empty());
            assert(resolve_all(b.group@, atoms@) =~= Seq::<Piece>::empty());
            assert(resolve_all(b.compound@, atoms@) =~= Seq::<Piece>::empty());
        }
        let mut i: usize = 0;
        while i < ts.len()
            invariant
                i <= ts@.len(),
                ts@ == tokens_from(s@, 0),
                forall|k: int| 0 <= k < ts@.len() ==> (#[trigger] ts@[k]).start <= ts@[k].end <= s@.len(),
                atoms.wf(),
                extends(atoms@, old(atoms)@),
                b.below(atoms@.len()),
                b.view_in(atoms@) == run_tokens(s@, ts@, i as int),
            decreases ts@.len() - i,
        {
            let ghost prev = atoms@;
            b.step(s, ts[i], atoms);
            assert(extends(atoms@, old(atoms)@)) by {
                assert forall|k: int| 0 <= k < old(atoms)@.len() implies #[trigger] atoms@[k] == old(atoms)@[k] by {
                    assert(prev[k] == old(atoms)@[k]);
                }
            }
            i = i + 1;
        }
        match b.mode {
            Mode::InCompound | Mode::AfterSpace => {
                let g = joined_exec(&b);
                proof {
                    lemma_joined(&b, atoms@);
                }
                let ghost d0 = b.done@;
                let mut parts = b.done;
                append_parts(&mut parts, &g);
                proof {
                    lemma_resolve_concat(d0, g@, atoms@);
                    assert(atoms_below(parts@, atoms@.len())) by {
                        assert forall|k: int| 0 <= k < parts@.len() implies atom_below(#[trigger] parts@[k], atoms@.len()) by {
                            if k < d0.len() {
                                assert(parts@[k] == d0[k]);
                            } else {
                                assert(parts@[k] == g@[k - d0.len()]);
                                if b.group@.len() > 0 {
                                    let cl = b.compound@.len() as int;
                                    if k - d0.len() < cl {
                                        assert(g@[k - d0.len()] == b.compound@[k - d0.len()]);
                                    } else if k - d0.len() > cl {
                                        assert(g@[k - d0.len()] == b.group@[k - d0.len() - cl - 1]);
                                    }
                                } else {
                                    assert(g@[k - d0.len()] == b.compound@[k - d0.len()]);
                                }
                            }
                        }
                    }
                }
                Selector::from_parts(parts)
            },
            _ => {
                let r = Selector::unsupported();
                assert(resolve_all(r@, atoms@) =~= seq![Piece::Unsupported]);
                assert(atoms_below(r@, atoms@.len()));
                r
            },
        }
    }
}

} // verus!
