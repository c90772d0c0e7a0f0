//! The stack of overlays. Whoever is on top takes the keys; Esc pops one layer.
//! Each layer is a panel of some kind; the stack keeps the kind beside it.
use vstd::prelude::*;

verus! {

/// The kinds of overlay.
#[derive(Debug, Clone, Copy, PartialEq, Eq, Structural)]
pub enum ModalKind {
    Stats,
    FormatPreview,
    Search,
    History,
    Diff,
    Confirm,
    Consent,
    Proof,
    Characters,
    CharacterForm,
    Palette,
    Help,
    Settings,
}

/// The overlays, bottom first.
pub struct ModalStack<P> {
    layers: Vec<(ModalKind, P)>,
}

impl<P> View for ModalStack<P> {
    type V = Seq<(ModalKind, P)>;

    closed spec fn view(&self) -> Seq<(ModalKind, P)> {
        self.layers@
    }
}

/// The kinds on the stack, bottom first.
pub open spec fn kinds_of<P>(s: Seq<(ModalKind, P)>) -> Seq<ModalKind> {
    s.map_values(|l: (ModalKind, P)| l.0)
}

/// The topmost layer of the kind, looking from index `k` down; -1 when none.
pub open spec fn last_of_kind<P>(s: Seq<(ModalKind, P)>, kind: ModalKind, k: int) -> int
    decreases k + 1,
{
    if k < 0 || k >= s.len() {
        -1
    } else if s[k].0 == kind {
        k
    } else {
        last_of_kind(s, kind, k - 1)
    }
}

impl<P> ModalStack<P> {
    pub fn new() -> (r: Self)
        ensures
            r@.len() == 0,
    {
        ModalStack { layers: Vec::new() }
    }

    pub fn push(&mut self, kind: ModalKind, panel: P)
        ensures
            final(self)@ == old(self)@.push((kind, panel)),
    {
        self.layers.push((kind, panel));
    }

    /// Takes the top layer off.
    pub fn pop(&mut self) -> (r: Option<(ModalKind, P)>)
        ensures
            old(self)@.len() == 0 ==> r is None && final(self)@ == old(self)@,
            old(self)@.len() > 0 ==> r == Some(old(self)@.last()) && final(self)@ == old(self)@.drop_last(),
    {
        self.layers.pop()
    }

    /// Closes the topmost layer of a kind, wherever it is in the stack.
    pub fn close_kind(&mut self, kind: ModalKind) -> (r: Option<(ModalKind, P)>)
        ensures
            ({
                let j = last_of_kind(old(self)@, kind, old(self)@.len() - 1);
                &&& j < 0 ==> r is None && final(self)@ == old(self)@
                &&& j >= 0 ==> r == Some(old(self)@[j]) && final(self)@ == old(self)@.remove(j)
            }),
    {
        let ghost s = self.layers@;
        let mut i = self.layers.len();
        while i > 0
            invariant
                i <= s.len(),
                s == self.layers@,
                s == old(self)@,
                last_of_kind(s, kind, i - 1) == last_of_kind(s, kind, s.len() - 1),
            decreases i,
        {
            if self.layers[i - 1].0 == kind {
                proof {
                    assert(s[i - 1].0 == kind);
                    assert(last_of_kind(s, kind, i - 1) == i - 1);
                }
                let l = self.layers.remove(i - 1);
                proof {
                    assert(l == s[i - 1]);
                    assert(self@ == s.remove(i - 1));
                }
                return Some(l);
            }
            i = i - 1;
        }
        None
    }

    /// The panel of the topmost layer of a kind, wherever it is in the stack.
    pub fn find(&self, kind: ModalKind) -> (r: Option<&P>)
        ensures
            ({
                let j = last_of_kind(self@, kind, self@.len() - 1);
                &&& j < 0 ==> r is None
                &&& j >= 0 ==> r == Some(&self@[j].1)
            }),
    {
        let mut i = self.layers.len();
        while i > 0
            invariant
                i <= self@.len(),
                last_of_kind(self@, kind, i - 1) == last_of_kind(self@, kind, self@.len() - 1),
            decreases i,
        {
            if self.layers[i - 1].0 == kind {
                proof {
                    assert(last_of_kind(self@, kind, i - 1) == i - 1);
                }
                return Some(&self.layers[i - 1].1);
            }
            i = i - 1;
        }
        None
    }

    pub fn clear(&mut self)
        ensures
            final(self)@.len() == 0,
    {
        self.layers.clear();
    }

    pub fn is_empty(&self) -> (r: bool)
        ensures
            r == (self@.len() == 0),
    {
        self.layers.len() == 0
    }

    pub fn len(&self) -> (r: usize)
        ensures
            r == self@.len(),
    {
        self.layers.len()
    }

    pub fn top(&self) -> (r: Option<&(ModalKind, P)>)
        ensures
            self@.len() == 0 ==> r is None,
            self@.len() > 0 ==> r == Some(&self@.last()),
    {
        let n = self.layers.len();
        if n == 0 {
            None
        } else {
            Some(&self.layers[n - 1])
        }
    }

    pub fn top_kind(&self) -> (r: Option<ModalKind>)
        ensures
            self@.len() == 0 ==> r is None,
            self@.len() > 0 ==> r == Some(self@.last().0),
    {
        let n = self.layers.len();
        if n == 0 {
            None
        } else {
            Some(self.layers[n - 1].0)
        }
    }

    pub fn top_is(&self, kind: ModalKind) -> (r: bool)
        ensures
            r == (self@.len() > 0 && self@.last().0 == kind),
    {
        match self.top_kind() {
            Some(k) => k == kind,
            None => false,
        }
    }

    pub fn contains(&self, kind: ModalKind) -> (r: bool)
        ensures
            r == kinds_of(self@).contains(kind),
    {
        let mut i: usize = 0;
        while i < self.layers.len()
            invariant
                i <= self@.len(),
                forall|j: int| 0 <= j < i ==> self@[j].0 != kind,
            decreases self@.len() - i,
        {
            if self.layers[i].0 == kind {
                proof {
                    assert(kinds_of(self@)[i as int] == kind);
                }
                return true;
            }
            i = i + 1;
        }
        proof {
            if kinds_of(self@).contains(kind) {
                let j = choose|j: int| 0 <= j < kinds_of(self@).len() && kinds_of(self@)[j] == kind;
                assert(self@[j].0 == kind);
            }
        }
        false
    }

    /// The kinds on the stack, bottom first.
    pub fn kinds(&self) -> (r: Vec<ModalKind>)
        ensures
            r@ == kinds_of(self@),
    {
        let mut out: Vec<ModalKind> = Vec::new();
        let mut i: usize = 0;
        while i < self.layers.len()
            invariant
                i <= self@.len(),
                out@ == kinds_of(self@).take(i as int),
            decreases self@.len() - i,
        {
            out.push(self.layers[i].0);
            proof {
                assert(kinds_of(self@).take(i + 1) == kinds_of(self@).take(i as int).push(self@[i as int].0));
            }
            i = i + 1;
        }
        proof {
            assert(kinds_of(self@).take(self@.len() as int) == kinds_of(self@));
        }
        out
    }
}

/// Opening an overlay and closing it with Esc leaves the stack as it was.
pub proof fn law_push_then_pop<P>(s: Seq<(ModalKind, P)>, kind: ModalKind, panel: P)
    ensures
        s.push((kind, panel)).drop_last() == s,
        s.push((kind, panel)).last() == (kind, panel),
{
    assert(s.push((kind, panel)).drop_last() =~= s);
}

/// Closing a kind removes only its topmost layer: no layer of that kind lies
/// above it, and the others keep their order.
pub proof fn law_close_kind_takes_topmost<P>(s: Seq<(ModalKind, P)>, kind: ModalKind, k: int)
    requires
        -1 <= k < s.len(),
    ensures
        last_of_kind(s, kind, k) >= 0 ==> s[last_of_kind(s, kind, k)].0 == kind && forall|m: int|
            last_of_kind(s, kind, k) < m <= k ==> s[m].0 != kind,
        last_of_kind(s, kind, k) < 0 ==> forall|m: int| 0 <= m <= k ==> s[m].0 != kind,
    decreases k + 1,
{
    if k >= 0 && s[k].0 != kind {
        law_close_kind_takes_topmost(s, kind, k - 1);
    }
}

} // verus!
