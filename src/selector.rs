use vstd::prelude::*;
use crate::atom::Atom;

verus! {

/// What a tag says of an element.
#[derive(Clone, Copy, Debug, PartialEq, Eq, Hash, Structural)]
pub enum TagKind {
    LocalName,
    Identifier,
    ClassName,
}

/// One descriptive fact about an element: its local name, its identifier,
/// or one of its classes.
#[derive(Clone, Copy, Debug, PartialEq, Eq, Hash, Structural)]
pub struct Tag {
    pub kind: TagKind,
    pub name: Atom,
}

#[derive(Clone, Copy, Debug, PartialEq, Eq, Structural)]
pub enum Component {
    LocalName(Atom),
    Identifier(Atom),
    ClassName(Atom),
    /// Syntax the engine does not implement; it matches nothing.
    Unsupported,
}

#[derive(Clone, Copy, Debug, PartialEq, Eq, Structural)]
pub enum Combinator {
    /// `*`: no requirement.
    Universal,
    /// `>`: the next component applies to the parent.
    Parent,
    /// whitespace: the next component applies to some ancestor.
    Ancestor,
    /// `,`: separates independent alternatives.
    Or,
}

#[derive(Clone, Copy, Debug, PartialEq, Eq, Structural)]
pub enum SelectorPart {
    Component(Component),
    Combinator(Combinator),
}

/// A compiled selector. Each alternative lists its compounds from the
/// element being tested towards the root, so matching walks the parts left
/// to right while it climbs the ancestor chain.
#[derive(Clone, Debug)]
pub struct Selector {
    parts: Vec<SelectorPart>,
}

/// The tag that a component asks for, if any.
pub open spec fn component_tag(c: Component) -> Option<Tag> {
    match c {
        Component::LocalName(a) => Some(Tag { kind: TagKind::LocalName, name: a }),
        Component::Identifier(a) => Some(Tag { kind: TagKind::Identifier, name: a }),
        Component::ClassName(a) => Some(Tag { kind: TagKind::ClassName, name: a }),
        Component::Unsupported => None,
    }
}

/// Whether an element with the tag set `tags` satisfies `c`.
pub open spec fn holds_at(c: Component, tags: Seq<Tag>) -> bool {
    match component_tag(c) {
        Some(t) => tags.contains(t),
        None => false,
    }
}

/// Position at which `c` is found when testing from `pos` of a root-first
/// stack: first one step up when `up` is set, then climbing further while
/// `climb` is set and the test fails.
pub open spec fn find_up(c: Component, stack: Seq<Seq<Tag>>, pos: int, up: bool, climb: bool) -> Option<int>
    decreases 2 * pos + (if up { 0int } else { 1int }),
{
    if pos < 0 || (up && pos == 0) {
        None
    } else {
        let p = if up { pos - 1 } else { pos };
        if holds_at(c, stack[p]) {
            Some(p)
        } else if climb {
            find_up(c, stack, p, true, true)
        } else {
            None
        }
    }
}

/// Outcome of walking `parts` from index `k` with the cursor at `pos` and
/// the pending parent / ancestor requests `par` and `anc`. A `*` under a
/// pending request stands for an element that holds everything: the
/// cursor moves one level up, and at the root the alternative fails.
pub open spec fn run(parts: Seq<SelectorPart>, stack: Seq<Seq<Tag>>, k: int, pos: int, par: bool, anc: bool) -> bool
    decreases parts.len() - k, 1int,
{
    if k < 0 || k >= parts.len() {
        true
    } else {
        match parts[k] {
            SelectorPart::Combinator(Combinator::Parent) => run(parts, stack, k + 1, pos, true, anc),
            SelectorPart::Combinator(Combinator::Ancestor) => run(parts, stack, k + 1, pos, par, true),
            SelectorPart::Combinator(Combinator::Universal) => if par || anc {
                if pos <= 0 {
                    skip(parts, stack, k + 1)
                } else {
                    run(parts, stack, k + 1, pos - 1, false, false)
                }
            } else {
                run(parts, stack, k + 1, pos, par, anc)
            },
            SelectorPart::Combinator(Combinator::Or) => true,
            SelectorPart::Component(c) => match find_up(c, stack, pos, par || anc, anc) {
                Some(p) => run(parts, stack, k + 1, p, false, false),
                None => skip(parts, stack, k + 1),
            },
        }
    }
}

/// Outcome after a failed alternative: the next alternative after index `k`
/// starts afresh from the tested element; where there is none, no match.
pub open spec fn skip(parts: Seq<SelectorPart>, stack: Seq<Seq<Tag>>, k: int) -> bool
    decreases parts.len() - k, 0int,
{
    if k < 0 || k >= parts.len() {
        false
    } else if parts[k] == SelectorPart::Combinator(Combinator::Or) {
        run(parts, stack, k + 1, stack.len() - 1, false, false)
    } else {
        skip(parts, stack, k + 1)
    }
}

/// Whether `parts` matches the last element of the root-first `stack`.
pub open spec fn parts_match(parts: Seq<SelectorPart>, stack: Seq<Seq<Tag>>) -> bool {
    run(parts, stack, 0, stack.len() - 1, false, false)
}

/// The tag sets of a stack of tag vectors.
pub open spec fn stack_view(stack: Seq<Vec<Tag>>) -> Seq<Seq<Tag>> {
    stack.map_values(|v: Vec<Tag>| v@)
}

fn is_or(p: &SelectorPart) -> (r: bool)
    ensures
        r == (*p == SelectorPart::Combinator(Combinator::Or)),
{
    match p {
        SelectorPart::Combinator(Combinator::Or) => true,
        _ => false,
    }
}

fn contains_tag(tags: &Vec<Tag>, t: Tag) -> (r: bool)
    ensures
        r == tags@.contains(t),
{
    let mut i: usize = 0;
    while i < tags.len()
        invariant
            i <= tags@.len(),
            forall|j: int| 0 <= j < i ==> tags@[j] != t,
        decreases tags@.len() - i,
    {
        if tags[i] == t {
            assert(tags@[i as int] == t);
            return true;
        }
        i = i + 1;
    }
    false
}

fn component_holds(c: Component, tags: &Vec<Tag>) -> (r: bool)
    ensures
        r == holds_at(c, tags@),
{
    match c {
        Component::LocalName(a) => contains_tag(tags, Tag { kind: TagKind::LocalName, name: a }),
        Component::Identifier(a) => contains_tag(tags, Tag { kind: TagKind::Identifier, name: a }),
        Component::ClassName(a) => contains_tag(tags, Tag { kind: TagKind::ClassName, name: a }),
        Component::Unsupported => false,
    }
}

fn find_up_exec(c: Component, stack: &Vec<Vec<Tag>>, pos: usize, up: bool, climb: bool) -> (r: Option<usize>)
    requires
        pos < stack@.len(),
    ensures
        match r {
            Some(p) => p <= pos && find_up(c, stack_view(stack@), pos as int, up, climb) == Some(p as int),
            None => find_up(c, stack_view(stack@), pos as int, up, climb) is None,
        },
{
    let ghost st = stack_view(stack@);
    let mut cur = pos;
    let mut step = up;
    loop
        invariant
            cur <= pos < stack@.len(),
            st == stack_view(stack@),
            find_up(c, st, pos as int, up, climb) == find_up(c, st, cur as int, step, climb),
        decreases 2 * cur + (if step { 0int } else { 1int }),
    {
        if step {
            if cur == 0 {
                return None;
            }
            cur = cur - 1;
        }
        assert(st[cur as int] == stack@[cur as int]@);
        if component_holds(c, &stack[cur]) {
            return Some(cur);
        }
        if !climb {
            return None;
        }
        step = true;
    }
}

/// The next `,` from index `from` on, where the walk resumes after a failed
/// alternative.
fn next_or_exec(parts: &Vec<SelectorPart>, from: usize, Ghost(st): Ghost<Seq<Seq<Tag>>>) -> (r: Option<usize>)
    requires
        from <= parts@.len(),
    ensures
        match r {
            Some(j) => from <= j < parts@.len() && skip(parts@, st, from as int) == run(
                parts@,
                st,
                j + 1,
                st.len() - 1,
                false,
                false,
            ),
            None => !skip(parts@, st, from as int),
        },
{
    let mut j: usize = from;
    while j < parts.len() && !is_or(&parts[j])
        invariant
            from <= j <= parts@.len(),
            skip(parts@, st, from as int) == skip(parts@, st, j as int),
        decreases parts@.len() - j,
    {
        j = j + 1;
    }
    if j >= parts.len() {
        None
    } else {
        Some(j)
    }
}

/// Walks `parts` against a non-empty root-first stack of tag sets.
fn run_exec(parts: &Vec<SelectorPart>, stack: &Vec<Vec<Tag>>) -> (r: bool)
    requires
        stack@.len() > 0,
    ensures
        r == parts_match(parts@, stack_view(stack@)),
{
    let ghost st = stack_view(stack@);
    let ghost goal = parts_match(parts@, st);
    let top = stack.len() - 1;
    let mut k: usize = 0;
    let mut pos: usize = top;
    let mut par = false;
    let mut anc = false;
    while k < parts.len()
        invariant
            k <= parts@.len(),
            pos < stack@.len(),
            top == stack@.len() - 1,
            st == stack_view(stack@),
            st.len() == stack@.len(),
            goal == run(parts@, st, k as int, pos as int, par, anc),
            goal == parts_match(parts@, stack_view(stack@)),
        decreases parts@.len() - k,
    {
        match parts[k] {
            SelectorPart::Combinator(Combinator::Parent) => {
                par = true;
                k = k + 1;
            },
            SelectorPart::Combinator(Combinator::Ancestor) => {
                anc = true;
                k = k + 1;
            },
            SelectorPart::Combinator(Combinator::Universal) => {
                if par || anc {
                    if pos == 0 {
                        match next_or_exec(parts, k + 1, Ghost(st)) {
                            Some(j) => {
                                k = j + 1;
                                pos = top;
                                par = false;
                                anc = false;
                            },
                            None => {
                                return false;
                            },
                        }
                    } else {
                        pos = pos - 1;
                        par = false;
                        anc = false;
                        k = k + 1;
                    }
                } else {
                    k = k + 1;
                }
            },
            SelectorPart::Combinator(Combinator::Or) => {
                return true;
            },
            SelectorPart::Component(c) => {
                match find_up_exec(c, stack, pos, par || anc, anc) {
                    Some(p) => {
                        pos = p;
                        par = false;
                        anc = false;
                        k = k + 1;
                    },
                    None => {
                        match next_or_exec(parts, k + 1, Ghost(st)) {
                            Some(j) => {
                                k = j + 1;
                                pos = top;
                                par = false;
                                anc = false;
                            },
                            None => {
                                return false;
                            },
                        }
                    },
                }
            },
        }
    }
    true
}

impl Selector {
    /// The parts, in matching order.
    pub closed spec fn view(&self) -> Seq<SelectorPart> {
        self.parts@
    }

    pub(crate) fn from_parts(parts: Vec<SelectorPart>) -> (r: Selector)
        ensures
            r@ == parts@,
    {
        Selector { parts }
    }

    /// The selector that matches nothing.
    pub fn unsupported() -> (r: Selector)
        ensures
            r@ == seq![SelectorPart::Component(Component::Unsupported)],
    {
        let r = Selector { parts: vec![SelectorPart::Component(Component::Unsupported)] };
        assert(r@ =~= seq![SelectorPart::Component(Component::Unsupported)]);
        r
    }

    pub fn parts(&self) -> (r: &Vec<SelectorPart>)
        ensures
            r@ == self@,
    {
        &self.parts
    }

    /// Whether the selector matches the last element of `stack`, the tag
    /// sets of an element's ancestors from the root down to the element.
    pub fn matches(&self, stack: &Vec<Vec<Tag>>) -> (r: bool)
        requires
            stack@.len() > 0,
        ensures
            r == parts_match(self@, stack_view(stack@)),
    {
        run_exec(&self.parts, stack)
    }
}

/// One element of a document: its tags and the index of its parent.
#[derive(Clone, Debug)]
pub struct Node {
    pub tags: Vec<Tag>,
    pub parent: Option<usize>,
}

/// A document to match against: elements stored so that each parent comes
/// before its children.
pub struct MatchingContext {
    nodes: Vec<Node>,
}

/// The elements of a document, as tag sets and parent indices.
pub type NodesModel = Seq<(Seq<Tag>, Option<usize>)>;

/// Each parent index points to an earlier element.
pub open spec fn parents_precede(nodes: NodesModel) -> bool {
    forall|i: int|
        0 <= i < nodes.len() && (#[trigger] nodes[i]).1 is Some ==> (nodes[i].1.unwrap() as int) < i
}

/// The tag sets from the root down to element `el`.
pub open spec fn ancestry(nodes: NodesModel, el: int) -> Seq<Seq<Tag>>
    decreases el,
{
    if el < 0 || el >= nodes.len() {
        Seq::empty()
    } else {
        match nodes[el].1 {
            Some(p) => if (p as int) < el {
                ancestry(nodes, p as int).push(nodes[el].0)
            } else {
                seq![nodes[el].0]
            },
            None => seq![nodes[el].0],
        }
    }
}

pub proof fn lemma_ancestry_len(nodes: NodesModel, el: int)
    requires
        0 <= el < nodes.len(),
    ensures
        ancestry(nodes, el).len() >= 1,
        ancestry(nodes, el).last() == nodes[el].0,
    decreases el,
{
}

fn copy_tags(tags: &Vec<Tag>) -> (r: Vec<Tag>)
    ensures
        r@ == tags@,
{
    let mut r: Vec<Tag> = Vec::new();
    let mut i: usize = 0;
    while i < tags.len()
        invariant
            i <= tags@.len(),
            r@ == tags@.subrange(0, i as int),
        decreases tags@.len() - i,
    {
        r.push(tags[i]);
        i = i + 1;
        assert(r@ =~= tags@.subrange(0, i as int));
    }
    assert(tags@ =~= tags@.subrange(0, tags@.len() as int));
    r
}

impl MatchingContext {
    pub closed spec fn view(&self) -> NodesModel {
        self.nodes@.map_values(|n: Node| (n.tags@, n.parent))
    }

    pub open spec fn wf(&self) -> bool {
        parents_precede(self@)
    }

    /// An empty document.
    pub fn new() -> (r: MatchingContext)
        ensures
            r.wf(),
            r@ == NodesModel::empty(),
    {
        let r = MatchingContext { nodes: Vec::new() };
        assert(r@ =~= NodesModel::empty());
        r
    }

    pub fn len(&self) -> (r: usize)
        ensures
            r == self@.len(),
    {
        self.nodes.len()
    }

    /// Adds an element under `parent` (a root when `None`) and returns its
    /// index.
    pub fn push_node(&mut self, tags: Vec<Tag>, parent: Option<usize>) -> (r: usize)
        requires
            old(self).wf(),
            match parent {
                Some(p) => p < old(self)@.len(),
                None => true,
            },
        ensures
            final(self).wf(),
            r == old(self)@.len(),
            final(self)@ == old(self)@.push((tags@, parent)),
    {
        let r = self.nodes.len();
        self.nodes.push(Node { tags, parent });
        assert(self@ =~= old(self)@.push((tags@, parent)));
        r
    }

    /// The parent of element `el`, `None` at a root.
    pub fn parent(&self, el: usize) -> (r: Option<usize>)
        requires
            el < self@.len(),
        ensures
            r == self@[el as int].1,
    {
        self.nodes[el].parent
    }

    /// Whether element `el` carries `tag`.
    pub fn has_tag(&self, el: usize, tag: Tag) -> (r: bool)
        requires
            el < self@.len(),
        ensures
            r == self@[el as int].0.contains(tag),
    {
        contains_tag(&self.nodes[el].tags, tag)
    }

    /// The tag sets of element `el` and its ancestors, root first.
    pub fn tag_stack(&self, el: usize) -> (r: Vec<Vec<Tag>>)
        requires
            self.wf(),
            el < self@.len(),
        ensures
            stack_view(r@) == ancestry(self@, el as int),
        decreases el,
    {
        let node = &self.nodes[el];
        assert(self@[el as int] == (node.tags@, node.parent));
        match node.parent {
            Some(p) => {
                assert(self@[el as int].1 is Some);
                let mut v = self.tag_stack(p);
                v.push(copy_tags(&node.tags));
                assert(stack_view(v@) =~= ancestry(self@, p as int).push(node.tags@));
                v
            },
            None => {
                let v = vec![copy_tags(&node.tags)];
                assert(stack_view(v@) =~= seq![node.tags@]);
                v
            },
        }
    }

    /// Matches `selector` against element `el`: `Some` with the
    /// specificity (always zero) on a match, `None` otherwise.
    pub fn match_selector(&self, selector: &Selector, el: usize) -> (r: Option<u32>)
        requires
            self.wf(),
            el < self@.len(),
        ensures
            r == (if parts_match(selector@, ancestry(self@, el as int)) {
                Some(0u32)
            } else {
                None::<u32>
            }),
    {
        let stack = self.tag_stack(el);
        proof {
            lemma_ancestry_len(self@, el as int);
        }
        if selector.matches(&stack) {
            Some(0)
        } else {
            None
        }
    }
}

} // verus!
