//! A window's input state: where the pointer is, which surfaces exist, the
//! text each carries and the bounds layout gave each, and the events that
//! pointer input produces.
use vstd::prelude::*;

verus! {

#[derive(Clone, Copy, Debug, PartialEq, Eq, Hash, Structural)]
pub struct SurfaceId(pub u32);

/// A point in window pixels.
#[derive(Clone, Copy, Debug, PartialEq, Eq, Structural)]
pub struct Pos {
    pub x: i32,
    pub y: i32,
}

/// A rectangle in window pixels: `left <= x < right`, `top <= y < bottom`.
#[derive(Clone, Copy, Debug, PartialEq, Eq, Structural)]
pub struct Bounds {
    pub left: i32,
    pub top: i32,
    pub right: i32,
    pub bottom: i32,
}

#[derive(Clone, Debug)]
pub struct Text {
    pub text: String,
}

#[derive(Clone, Debug)]
pub struct Image {
    pub url: String,
}

#[derive(Clone, Copy, Debug, PartialEq, Eq, Structural)]
pub enum BorderStyle {
    NoBorder,
    Solid,
}

#[derive(Clone, Copy, Debug, PartialEq, Eq, Structural)]
pub enum EventKind {
    MouseMove,
    MouseDown,
    MouseUp,
    Scroll,
    KeyDown,
    KeyPress,
    KeyUp,
    Focus,
    Blur,
    Resize,
    Close,
    Unknown,
}

#[derive(Clone, Copy, Debug, PartialEq, Eq, Structural)]
pub struct Event {
    pub kind: EventKind,
    pub target: SurfaceId,
    pub key: u16,
}

impl Event {
    pub fn new(kind: EventKind, target: SurfaceId, key: u16) -> (r: Event)
        ensures
            r == (Event { kind, target, key }),
    {
        Event { kind, target, key }
    }
}

/// New text for a surface; `None` removes it.
#[derive(Clone, Debug)]
pub struct SetText {
    pub surface: SurfaceId,
    pub text: Option<Text>,
}

#[derive(Clone, Debug)]
pub struct SetImage {
    pub surface: SurfaceId,
    pub image: Option<Image>,
}

/// A batch of scene changes: surfaces to allocate, then text changes.
#[derive(Clone, Debug)]
pub struct UpdateSceneMsg {
    pub alloc: Option<usize>,
    pub text_changes: Option<Vec<SetText>>,
}

pub open spec fn bounds_contain(b: Bounds, p: Pos) -> bool {
    b.left <= p.x < b.right && b.top <= p.y < b.bottom
}

/// The surface under `p`: the last one (the topmost) whose bounds contain
/// it, and surface 0, the root, when none does.
pub open spec fn pick(bounds: Seq<Bounds>, p: Pos) -> u32
    decreases bounds.len(),
{
    if bounds.len() == 0 {
        0
    } else if bounds_contain(bounds.last(), p) {
        (bounds.len() - 1) as u32
    } else {
        pick(bounds.drop_last(), p)
    }
}

/// The text of a surface after a change.
pub open spec fn text_of(t: Option<Text>) -> Option<Seq<char>> {
    match t {
        Some(t) => Some(t.text@),
        None => None,
    }
}

/// The surface texts after the changes `cs`, in order; changes to surfaces
/// that do not exist are ignored.
pub open spec fn apply_texts(texts: Seq<Option<Seq<char>>>, cs: Seq<SetText>) -> Seq<Option<Seq<char>>>
    decreases cs.len(),
{
    if cs.len() == 0 {
        texts
    } else {
        let prev = apply_texts(texts, cs.drop_last());
        let c = cs.last();
        if (c.surface.0 as int) < prev.len() {
            prev.update(c.surface.0 as int, text_of(c.text))
        } else {
            prev
        }
    }
}

struct Surface {
    text: Option<String>,
    bounds: Bounds,
}

pub struct Window {
    width: u32,
    height: u32,
    mouse_pos: Pos,
    surfaces: Vec<Surface>,
}

pub open spec fn empty_bounds() -> Bounds {
    Bounds { left: 0, top: 0, right: 0, bottom: 0 }
}

pub open spec fn none_texts(n: nat) -> Seq<Option<Seq<char>>> {
    Seq::new(n, |i: int| None::<Seq<char>>)
}

impl Window {
    pub closed spec fn size(&self) -> (u32, u32) {
        (self.width, self.height)
    }

    pub closed spec fn pointer(&self) -> Pos {
        self.mouse_pos
    }

    /// The bounds of each surface, by id.
    pub closed spec fn bounds(&self) -> Seq<Bounds> {
        self.surfaces@.map_values(|s: Surface| s.bounds)
    }

    /// The text of each surface, by id.
    pub closed spec fn texts(&self) -> Seq<Option<Seq<char>>> {
        self.surfaces@.map_values(
            |s: Surface|
                match s.text {
                    Some(t) => Some(t@),
                    None => None,
                },
        )
    }

    /// The surface under the pointer.
    pub open spec fn target(&self) -> SurfaceId {
        SurfaceId(pick(self.bounds(), self.pointer()))
    }

    pub fn new(width: u32, height: u32) -> (r: Window)
        ensures
            r.size() == (width, height),
            r.pointer() == (Pos { x: 0, y: 0 }),
            r.bounds().len() == 0,
            r.texts().len() == 0,
    {
        Window { width, height, mouse_pos: Pos { x: 0, y: 0 }, surfaces: Vec::new() }
    }

    fn get_mouse_target(&self) -> (r: SurfaceId)
        ensures
            r == self.target(),
    {
        let mut i: usize = self.surfaces.len();
        let p = self.mouse_pos;
        assert(self.bounds().subrange(0, i as int) =~= self.bounds());
        while i > 0
            invariant
                i <= self.surfaces@.len(),
                pick(self.bounds(), p) == pick(self.bounds().subrange(0, i as int), p),
                p == self.pointer(),
            decreases i,
        {
            let b = self.surfaces[i - 1].bounds;
            let ghost pre = self.bounds().subrange(0, i as int);
            assert(pre.last() == b);
            assert(pre.drop_last() =~= self.bounds().subrange(0, i - 1));
            if b.left <= p.x && p.x < b.right && b.top <= p.y && p.y < b.bottom {
                return SurfaceId((i - 1) as u32);
            }
            i = i - 1;
        }
        SurfaceId(0)
    }

    /// Moves the pointer to `pos`; the event names the surface now under it.
    pub fn mouse_move(&mut self, pos: Pos) -> (r: Event)
        ensures
            final(self).pointer() == pos,
            final(self).size() == old(self).size(),
            final(self).bounds() == old(self).bounds(),
            final(self).texts() == old(self).texts(),
            r == (Event { kind: EventKind::MouseMove, target: final(self).target(), key: 0 }),
    {
        self.mouse_pos = pos;
        Event::new(EventKind::MouseMove, self.get_mouse_target(), 0)
    }

    /// The number of surfaces allocated so far.
    pub fn surface_count(&self) -> (r: usize)
        ensures
            r == self.bounds().len(),
    {
        self.surfaces.len()
    }

    /// A scroll over the surface under the pointer; the window is unchanged.
    pub fn scroll(&mut self) -> (r: Event)
        ensures
            *final(self) == *old(self),
            r == (Event { kind: EventKind::Scroll, target: old(self).target(), key: 0 }),
    {
        Event::new(EventKind::Scroll, self.get_mouse_target(), 0)
    }

    pub fn mouse_down(&mut self) -> (r: Event)
        ensures
            *final(self) == *old(self),
            r == (Event { kind: EventKind::MouseDown, target: old(self).target(), key: 0 }),
    {
        Event::new(EventKind::MouseDown, self.get_mouse_target(), 0)
    }

    pub fn mouse_up(&mut self) -> (r: Event)
        ensures
            *final(self) == *old(self),
            r == (Event { kind: EventKind::MouseUp, target: old(self).target(), key: 0 }),
    {
        Event::new(EventKind::MouseUp, self.get_mouse_target(), 0)
    }

    /// Records the bounds that layout gave surface `surface`; an unknown
    /// surface is ignored.
    pub fn set_bounds(&mut self, surface: SurfaceId, bounds: Bounds)
        ensures
            final(self).pointer() == old(self).pointer(),
            final(self).size() == old(self).size(),
            final(self).texts() == old(self).texts(),
            final(self).bounds() == if (surface.0 as int) < old(self).bounds().len() {
                old(self).bounds().update(surface.0 as int, bounds)
            } else {
                old(self).bounds()
            },
    {
        let i = surface.0 as usize;
        if i < self.surfaces.len() {
            let old_text = self.surfaces[i].text.clone();
            self.surfaces.set(i, Surface { text: old_text, bounds });
            assert(self.bounds() =~= old(self).bounds().update(i as int, bounds));
            assert(self.texts() =~= old(self).texts());
        }
    }

    /// Applies a batch: allocates `msg.alloc` new surfaces, with no text and
    /// empty bounds, then applies the text changes in order.
    pub fn update_scene(&mut self, msg: &UpdateSceneMsg)
        requires
            old(self).bounds().len() + match msg.alloc {
                Some(n) => n as int,
                None => 0int,
            } <= u32::MAX,
        ensures
            final(self).pointer() == old(self).pointer(),
            final(self).size() == old(self).size(),
            ({
                let n = match msg.alloc {
                    Some(n) => n as nat,
                    None => 0nat,
                };
                let texts = old(self).texts() + none_texts(n);
                &&& final(self).bounds() == old(self).bounds() + Seq::new(n, |i: int| empty_bounds())
                &&& final(self).texts() == match msg.text_changes {
                    Some(cs) => apply_texts(texts, cs@),
                    None => texts,
                }
            }),
    {
        let n: usize = match msg.alloc {
            Some(n) => n,
            None => 0,
        };
        let mut k: usize = 0;
        while k < n
            invariant
                k <= n,
                self.pointer() == old(self).pointer(),
                self.size() == old(self).size(),
                self.bounds() == old(self).bounds() + Seq::new(k as nat, |i: int| empty_bounds()),
                self.texts() == old(self).texts() + none_texts(k as nat),
            decreases n - k,
        {
            let ghost prev_b = self.bounds();
            let ghost prev_t = self.texts();
            self.surfaces.push(Surface { text: None, bounds: Bounds { left: 0, top: 0, right: 0, bottom: 0 } });
            assert(self.bounds() =~= prev_b.push(empty_bounds()));
            assert(self.texts() =~= prev_t.push(None));
            k = k + 1;
            assert(self.bounds() =~= old(self).bounds() + Seq::new(k as nat, |i: int| empty_bounds()));
            assert(self.texts() =~= old(self).texts() + none_texts(k as nat));
        }
        let ghost texts0 = self.texts();
        let ghost bounds0 = self.bounds();
        match &msg.text_changes {
            Some(cs) => {
                let mut j: usize = 0;
                while j < cs.len()
                    invariant
                        j <= cs@.len(),
                        self.pointer() == old(self).pointer(),
                        self.size() == old(self).size(),
                        self.bounds() == bounds0,
                        self.texts() == apply_texts(texts0, cs@.subrange(0, j as int)),
                    decreases cs@.len() - j,
                {
                    let c = &cs[j];
                    let ghost prefix = cs@.subrange(0, j as int + 1);
                    assert(prefix.drop_last() =~= cs@.subrange(0, j as int));
                    assert(prefix.last() == *c);
                    let i = c.surface.0 as usize;
                    if i < self.surfaces.len() {
                        let b = self.surfaces[i].bounds;
                        let t = match &c.text {
                            Some(t) => Some(t.text.clone()),
                            None => None,
                        };
                        self.surfaces.set(i, Surface { text: t, bounds: b });
                        assert(self.bounds() =~= bounds0);
                        assert(self.texts() =~= apply_texts(texts0, prefix));
                    }
                    j = j + 1;
                }
                assert(cs@.subrange(0, cs@.len() as int) =~= cs@);
            },
            None => {},
        }
    }
}

} // verus!
