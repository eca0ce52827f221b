use vstd::prelude::*;

verus! {

/// A handle for an interned name: the index of the name in its `Interner`.
#[derive(Clone, Copy, Debug, PartialEq, Eq, Hash, Structural)]
pub struct Atom {
    pub index: usize,
}

/// Append-only, deduplicating table of names.
pub struct Interner {
    entries: Vec<Vec<u8>>,
}

/// Every entry of the table occurs once.
pub open spec fn distinct_names(names: Seq<Seq<u8>>) -> bool {
    forall|i: int, j: int|
        0 <= i < names.len() && 0 <= j < names.len() && i != j ==> names[i] != names[j]
}

/// Byte-wise equality of two slices.
pub fn bytes_equal(a: &[u8], b: &[u8]) -> (r: bool)
    ensures
        r == (a@ == b@),
{
    if a.len() != b.len() {
        return false;
    }
    let mut i: usize = 0;
    while i < a.len()
        invariant
            a@.len() == b@.len(),
            i <= a@.len(),
            forall|k: int| 0 <= k < i ==> a@[k] == b@[k],
        decreases a@.len() - i,
    {
        if a[i] != b[i] {
            return false;
        }
        i = i + 1;
    }
    assert(a@ =~= b@);
    true
}

/// A fresh vector holding the bytes of `a`.
pub fn copy_bytes(a: &[u8]) -> (r: Vec<u8>)
    ensures
        r@ == a@,
{
    let mut r: Vec<u8> = Vec::new();
    let mut i: usize = 0;
    while i < a.len()
        invariant
            i <= a@.len(),
            r@ == a@.subrange(0, i as int),
        decreases a@.len() - i,
    {
        r.push(a[i]);
        i = i + 1;
        assert(r@ =~= a@.subrange(0, i as int));
    }
    assert(a@ =~= a@.subrange(0, a@.len() as int));
    r
}

impl Interner {
    /// The names, indexed by atom.
    pub closed spec fn view(&self) -> Seq<Seq<u8>> {
        self.entries@.map_values(|e: Vec<u8>| e@)
    }

    pub open spec fn wf(&self) -> bool {
        distinct_names(self@)
    }

    /// Whether `a` stands for a name of this table.
    pub open spec fn holds(&self, a: Atom) -> bool {
        a.index < self@.len()
    }

    pub fn new() -> (r: Interner)
        ensures
            r.wf(),
            r@ == Seq::<Seq<u8>>::empty(),
    {
        let r = Interner { entries: Vec::new() };
        assert(r@ =~= Seq::<Seq<u8>>::empty());
        r
    }

    pub fn len(&self) -> (r: usize)
        ensures
            r == self@.len(),
    {
        self.entries.len()
    }

    /// Looks a name up without adding it.
    pub fn find(&self, name: &[u8]) -> (r: Option<Atom>)
        requires
            self.wf(),
        ensures
            match r {
                Some(a) => self.holds(a) && self@[a.index as int] == name@,
                None => !self@.contains(name@),
            },
    {
        let mut i: usize = 0;
        while i < self.entries.len()
            invariant
                i <= self@.len(),
                self@.len() == self.entries@.len(),
                forall|k: int| 0 <= k < i ==> self@[k] != name@,
            decreases self.entries@.len() - i,
        {
            if bytes_equal(self.entries[i].as_slice(), name) {
                return Some(Atom { index: i });
            }
            i = i + 1;
        }
        None
    }

    /// Returns the atom of `name`, adding the name when it is new. Interning
    /// equal names gives equal atoms.
    pub fn intern(&mut self, name: &[u8]) -> (r: Atom)
        requires
            old(self).wf(),
        ensures
            final(self).wf(),
            final(self).holds(r),
            final(self)@[r.index as int] == name@,
            old(self)@.contains(name@) ==> final(self)@ == old(self)@,
            !old(self)@.contains(name@) ==> final(self)@ == old(self)@.push(name@),
    {
        match self.find(name) {
            Some(a) => a,
            None => {
                let index = self.entries.len();
                self.entries.push(copy_bytes(name));
                assert(self@ =~= old(self)@.push(name@));
                Atom { index }
            },
        }
    }

    /// The name that `a` stands for.
    pub fn name(&self, a: Atom) -> (r: &Vec<u8>)
        requires
            self.holds(a),
        ensures
            r@ == self@[a.index as int],
    {
        &self.entries[a.index]
    }
}

/// Two atoms of one table are equal exactly when their names are.
pub proof fn lemma_atom_eq_iff_name_eq(t: &Interner, a: Atom, b: Atom)
    requires
        t.wf(),
        t.holds(a),
        t.holds(b),
    ensures
        (a == b) <==> (t@[a.index as int] == t@[b.index as int]),
{
}

} // verus!
