use vstd::prelude::*;

use crate::color::Color;

verus! {

/// `s` with each color kept at its first occurrence only.
pub open spec fn dedup(s: Seq<Color>) -> Seq<Color>
    decreases s.len(),
{
    if s.len() == 0 {
        s
    } else {
        let d = dedup(s.drop_last());
        if d.contains(s.last()) {
            d
        } else {
            d.push(s.last())
        }
    }
}

/// An ordered set of colors: insertion order kept, no color twice.
pub struct ColorPalette {
    colors: Vec<Color>,
}

impl View for ColorPalette {
    type V = Seq<Color>;

    closed spec fn view(&self) -> Seq<Color> {
        self.colors@
    }
}

impl ColorPalette {
    pub open spec fn wf(&self) -> bool {
        self@.no_duplicates()
    }

    /// An empty palette.
    pub fn new() -> (r: Self)
        ensures
            r.wf(),
            r@ == Seq::<Color>::empty(),
    {
        ColorPalette { colors: Vec::new() }
    }

    /// The palette of the given colors, duplicates dropped.
    pub fn from_colors(colors: &Vec<Color>) -> (r: Self)
        ensures
            r.wf(),
            r@ == dedup(colors@),
    {
        let mut p = ColorPalette::new();
        let mut i: usize = 0;
        while i < colors.len()
            invariant
                i <= colors@.len(),
                p.wf(),
                p@ == dedup(colors@.subrange(0, i as int)),
            decreases colors@.len() - i,
        {
            let ghost before = colors@.subrange(0, i as int);
            p.add(colors[i]);
            proof {
                let next = colors@.subrange(0, i + 1);
                assert(next.drop_last() =~= before);
                assert(next.last() == colors@[i as int]);
            }
            i = i + 1;
        }
        assert(colors@.subrange(0, colors@.len() as int) =~= colors@);
        p
    }

    pub fn colors(&self) -> (r: &Vec<Color>)
        ensures
            r@ == self@,
    {
        &self.colors
    }

    pub fn len(&self) -> (r: usize)
        ensures
            r == self@.len(),
    {
        self.colors.len()
    }

    /// Where `c` stands in the palette, if it is there.
    pub fn position(&self, c: Color) -> (r: Option<usize>)
        ensures
            r is None ==> !self@.contains(c),
            r matches Some(i) ==> i < self@.len() && self@[i as int] == c,
    {
        let mut i: usize = 0;
        while i < self.colors.len()
            invariant
                i <= self@.len(),
                forall|k: int| 0 <= k < i ==> self@[k] != c,
            decreases self@.len() - i,
        {
            if self.colors[i] == c {
                return Some(i);
            }
            i = i + 1;
        }
        None
    }

    pub fn contains(&self, c: Color) -> (r: bool)
        ensures
            r == self@.contains(c),
    {
        self.position(c).is_some()
    }

    /// Adds `c` at the end unless it is already there; says whether it was
    /// added.
    pub fn add(&mut self, c: Color) -> (added: bool)
        requires
            old(self).wf(),
        ensures
            final(self).wf(),
            added == !old(self)@.contains(c),
            final(self)@ == if added {
                old(self)@.push(c)
            } else {
                old(self)@
            },
    {
        if self.contains(c) {
            false
        } else {
            self.colors.push(c);
            proof {
                assert forall|i: int, j: int|
                    0 <= i < j < self@.len() implies self@[i] != self@[j] by {
                    if j == self@.len() - 1 {
                        assert(old(self)@.contains(old(self)@[i]));
                    } else {
                        assert(old(self)@[i] != old(self)@[j]);
                    }
                }
            }
            true
        }
    }

    /// Removes `c` if it is there, keeping the order of the others; says
    /// whether it was there.
    pub fn remove(&mut self, c: Color) -> (removed: bool)
        requires
            old(self).wf(),
        ensures
            final(self).wf(),
            removed == old(self)@.contains(c),
            !final(self)@.contains(c),
            !removed ==> final(self)@ == old(self)@,
            removed ==> exists|i: int|
                0 <= i < old(self)@.len() && old(self)@[i] == c && final(self)@ == old(
                    self,
                )@.remove(i),
    {
        match self.position(c) {
            None => false,
            Some(i) => {
                self.colors.remove(i);
                proof {
                    let o = old(self)@;
                    assert(self@ == o.remove(i as int));
                    assert forall|a: int, b: int|
                        0 <= a < b < self@.len() implies self@[a] != self@[b] by {
                        let a2 = if a < i { a } else { a + 1 };
                        let b2 = if b < i { b } else { b + 1 };
                        assert(o[a2] != o[b2]);
                    }
                    assert forall|k: int| 0 <= k < self@.len() implies self@[k] != c by {
                        let k2 = if k < i { k } else { k + 1 };
                        assert(o[k2] != o[i as int]);
                    }
                }
                true
            }
        }
    }
}

} // verus!
