//! Two-slot selection state machine for a thumbnail gallery.
//!
//! A `Selection` holds an ordered sequence of at most two gallery indices.
//! It is mutated only through [`Selection::click`]; the exact transition
//! relation is the spec function [`click_spec`].

use vstd::prelude::*;

verus! {

/// True when the selection is a duplicated pair `[a, a]`.
pub open spec fn is_dup(s: Seq<usize>) -> bool {
    s.len() == 2 && s[0] == s[1]
}

/// The transition relation of the selection state machine: the slots after
/// clicking `index` (with or without shift held) in state `s`.
pub open spec fn click_spec(s: Seq<usize>, index: usize, shift: bool) -> Seq<usize> {
    if shift {
        seq![index, index]
    } else if is_dup(s) {
        if s[0] == index {
            s
        } else {
            seq![s[0], index]
        }
    } else if s.contains(index) {
        if s.len() == 2 {
            seq![s[1], s[0]]
        } else {
            s
        }
    } else if s.len() == 2 {
        seq![s[0], index]
    } else {
        s.push(index)
    }
}

/// An ordered selection of at most two gallery indices.
pub struct Selection {
    items: Vec<usize>,
}

impl View for Selection {
    type V = Seq<usize>;

    closed spec fn view(&self) -> Seq<usize> {
        self.items@
    }
}

impl Selection {
    /// Well-formedness: a selection never holds more than two indices.
    pub open spec fn inv(&self) -> bool {
        self@.len() <= 2
    }

    pub fn new() -> (s: Self)
        ensures
            s.inv(),
            s@ == Seq::<usize>::empty(),
    {
        Selection { items: Vec::new() }
    }

    /// Apply one click to the selection; the new slots are exactly
    /// `click_spec` of the old slots.
    pub fn click(&mut self, index: usize, shift: bool)
        requires
            old(self).inv(),
        ensures
            final(self).inv(),
            final(self)@ == click_spec(old(self)@, index, shift),
    {
        let n = self.items.len();
        if shift {
            self.items = pair(index, index);
        } else if n == 2 && self.items[0] == self.items[1] {
            if self.items[0] != index {
                self.items = pair(self.items[0], index);
            }
        } else if n >= 1 && self.items[0] == index {
            if n == 2 {
                assert(self@.contains(index)) by {
                    assert(self@[0] == index);
                }
                self.items = pair(self.items[1], self.items[0]);
            } else {
                assert(self@.contains(index)) by {
                    assert(self@[0] == index);
                }
            }
        } else if n == 2 && self.items[1] == index {
            assert(self@.contains(index)) by {
                assert(self@[1] == index);
            }
            self.items = pair(self.items[1], self.items[0]);
        } else if n == 2 {
            assert(!self@.contains(index)) by {
                assert(forall|i: int| 0 <= i < self@.len() ==> self@[i] != index);
            }
            self.items = pair(self.items[0], index);
        } else {
            assert(!self@.contains(index)) by {
                assert(forall|i: int| 0 <= i < self@.len() ==> self@[i] != index);
            }
            self.items.push(index);
        }
    }

    /// The display label for the image at `image_index`: `"*"` when it is
    /// the sole member of a duplicated pair, `"1"`/`"2"` for first/second
    /// slot membership, `None` when it is not selected.
    pub fn badge(&self, image_index: usize) -> (r: Option<&str>)
        requires
            self.inv(),
        ensures
            r is Some <==> self@.contains(image_index),
            is_dup(self@) && self@.contains(image_index) ==> (r matches Some(b)
                && b@ == "*"@),
            !is_dup(self@) && self@.len() >= 1 && self@[0] == image_index ==> (r matches Some(b)
                && b@ == "1"@),
            !is_dup(self@) && self@.contains(image_index) && self@[0] != image_index ==> (
            r matches Some(b) && b@ == "2"@),
    {
        let n = self.items.len();
        if n >= 1 && self.items[0] == image_index {
            assert(self@.contains(image_index)) by {
                assert(self@[0] == image_index);
            }
            if n == 2 && self.items[1] == image_index {
                Some("*")
            } else {
                Some("1")
            }
        } else if n == 2 && self.items[1] == image_index {
            assert(self@.contains(image_index)) by {
                assert(self@[1] == image_index);
            }
            Some("2")
        } else {
            assert(!self@.contains(image_index)) by {
                assert(forall|i: int| 0 <= i < self@.len() ==> self@[i] != image_index);
            }
            None
        }
    }

    pub fn items(&self) -> (r: &[usize])
        ensures
            r@ == self@,
    {
        self.items.as_slice()
    }

    pub fn len(&self) -> (n: usize)
        ensures
            n == self@.len(),
    {
        self.items.len()
    }

    pub fn is_empty(&self) -> (r: bool)
        ensures
            r == (self@.len() == 0),
    {
        self.items.is_empty()
    }

    pub fn clear(&mut self)
        ensures
            final(self).inv(),
            final(self)@ == Seq::<usize>::empty(),
    {
        self.items.clear();
    }

    pub fn is_duplicated(&self) -> (r: bool)
        requires
            self.inv(),
        ensures
            r == is_dup(self@),
    {
        self.items.len() == 2 && self.items[0] == self.items[1]
    }
}

/// Build the two-element selection `[a, b]`.
fn pair(a: usize, b: usize) -> (r: Vec<usize>)
    ensures
        r@ == seq![a, b],
{
    let mut v: Vec<usize> = Vec::new();
    v.push(a);
    v.push(b);
    assert(v@ =~= seq![a, b]);
    v
}

/// Law: no click sequence can grow a selection past two indices — a single
/// click from any well-formed state yields a well-formed state.
pub proof fn lemma_click_bounded(s: Seq<usize>, index: usize, shift: bool)
    requires
        s.len() <= 2,
    ensures
        click_spec(s, index, shift).len() <= 2,
{
}

/// Law: a shift-click always yields the duplicated pair `[index, index]`,
/// regardless of the prior state.
pub proof fn lemma_shift_click_duplicates(s: Seq<usize>, index: usize)
    ensures
        click_spec(s, index, true) == seq![index, index],
{
}

/// Law: in a full, non-duplicate selection, clicking an index already
/// present swaps the two slots, while clicking an unseen index replaces the
/// second slot and preserves the first.
pub proof fn lemma_pair_click(s: Seq<usize>, index: usize)
    requires
        s.len() == 2,
        s[0] != s[1],
    ensures
        s.contains(index) ==> click_spec(s, index, false) == seq![s[1], s[0]],
        !s.contains(index) ==> click_spec(s, index, false) == seq![s[0], index],
{
}

} // verus!
