//! Vertical stack of child components.

use vstd::prelude::*;

use crate::component::{texts, Component};
use crate::cursor::CursorPos;

verus! {

/// A child component owned by a layout widget.
pub struct Child {
    pub component: Box<dyn Component>,
}

/// Renders its children one below the other.
pub struct Container {
    children: Vec<Child>,
    last_cursor_pos: Option<CursorPos>,
}

impl Container {
    pub closed spec fn child_count(&self) -> nat {
        self.children@.len()
    }

    /// Whether `lines` is what child `i` gives when rendered at `width` in this state.
    pub closed spec fn child_renders(&self, i: int, width: usize, lines: Seq<Seq<char>>) -> bool {
        self.children@[i].component.renders(width, lines)
    }

    pub closed spec fn last_cursor_view(&self) -> Option<CursorPos> {
        self.last_cursor_pos
    }

    pub fn new() -> (r: Self)
        ensures
            r.child_count() == 0,
            r.last_cursor_view() is None,
    {
        Container { children: Vec::new(), last_cursor_pos: None }
    }

    /// Appends a child at the bottom.
    pub fn add_child(&mut self, component: Box<dyn Component>)
        ensures
            final(self).child_count() == old(self).child_count() + 1,
            forall|k: int, w: usize, l: Seq<Seq<char>>|
                0 <= k < old(self).child_count() ==> (#[trigger] final(self).child_renders(k, w, l) == old(self).child_renders(k, w, l)),
    {
        let child = Child { component };
        let ghost before = self.children@;
        self.children.push(child);
        proof {
            vstd::seq::axiom_seq_push_len(before, child);
            assert forall|k: int| 0 <= k < before.len() implies self.children@[k] == before[k] by {
                vstd::seq::axiom_seq_push_index_different(before, child, k);
            }
        }
    }

    /// Removes the child at `index`; `false` (and no change) when there is none.
    pub fn remove_child(&mut self, index: usize) -> (r: bool)
        ensures
            r == (index < old(self).child_count()),
            final(self).child_count() == (if r {
                old(self).child_count() - 1
            } else {
                old(self).child_count() as int
            }),
            r ==> forall|k: int, w: usize, l: Seq<Seq<char>>|
                0 <= k < index ==> (#[trigger] final(self).child_renders(k, w, l) == old(self).child_renders(k, w, l)),
            r ==> forall|k: int, w: usize, l: Seq<Seq<char>>|
                index <= k < final(self).child_count() ==> (#[trigger] final(self).child_renders(k, w, l)
                    == old(self).child_renders(k + 1, w, l)),
    {
        if index >= self.children.len() {
            return false;
        }
        self.children.remove(index);
        true
    }

    pub fn clear(&mut self)
        ensures
            final(self).child_count() == 0,
    {
        self.children.clear();
    }
}

impl Default for Container {
    fn default() -> (r: Self)
        ensures
            r.child_count() == 0,
    {
        Container::new()
    }
}

/// The lines of each part, one part after another.
pub fn stack_lines(parts: &Vec<Vec<String>>) -> (r: Vec<String>)
    ensures
        r@ == parts@.map_values(|p: Vec<String>| p@).flatten(),
{
    let ghost pv = parts@.map_values(|p: Vec<String>| p@);
    let mut lines: Vec<String> = Vec::new();
    let mut i: usize = 0;
    assert(pv.subrange(0, 0) =~= Seq::<Seq<String>>::empty());
    while i < parts.len()
        invariant
            i <= parts@.len(),
            pv == parts@.map_values(|p: Vec<String>| p@),
            lines@ == pv.subrange(0, i as int).flatten(),
        decreases parts@.len() - i,
    {
        let ghost before = lines@;
        let mut k: usize = 0;
        while k < parts[i].len()
            invariant
                i < parts@.len(),
                k <= parts@[i as int]@.len(),
                lines@ == before + parts@[i as int]@.subrange(0, k as int),
            decreases parts@[i as int]@.len() - k,
        {
            lines.push(parts[i][k].clone());
            assert(lines@ =~= before + parts@[i as int]@.subrange(0, k + 1 as int));
            k += 1;
        }
        proof {
            assert(parts@[i as int]@.subrange(0, parts@[i as int]@.len() as int) =~= parts@[i as int]@);
            assert(pv.subrange(0, i + 1 as int) =~= pv.subrange(0, i as int).push(pv[i as int]));
            pv.subrange(0, i as int).lemma_flatten_push(pv[i as int]);
        }
        i += 1;
    }
    assert(pv.subrange(0, parts@.len() as int) =~= pv);
    lines
}

/// The text of each line of stacked parts is the stacking of the parts' texts.
pub proof fn lemma_texts_flatten(pv: Seq<Seq<String>>)
    ensures
        pv.flatten().map_values(|s: String| s@) == pv.map_values(|p: Seq<String>| p.map_values(|s: String| s@)).flatten(),
    decreases pv.len(),
{
    let tv = pv.map_values(|p: Seq<String>| p.map_values(|s: String| s@));
    if pv.len() == 0 {
        assert(pv.flatten() =~= Seq::<String>::empty());
        assert(tv =~= Seq::<Seq<Seq<char>>>::empty());
        assert(tv.flatten() =~= Seq::<Seq<char>>::empty());
        assert(pv.flatten().map_values(|s: String| s@) =~= Seq::<Seq<char>>::empty());
    } else {
        let init = pv.drop_last();
        lemma_texts_flatten(init);
        assert(init.push(pv.last()) =~= pv);
        init.lemma_flatten_push(pv.last());
        let ti = init.map_values(|p: Seq<String>| p.map_values(|s: String| s@));
        assert(ti.push(pv.last().map_values(|s: String| s@)) =~= tv);
        ti.lemma_flatten_push(pv.last().map_values(|s: String| s@));
        assert((init.flatten() + pv.last()).map_values(|s: String| s@) =~= init.flatten().map_values(|s: String| s@)
            + pv.last().map_values(|s: String| s@));
    }
}

impl Component for Container {
    /// The children's lines, one child after another.
    open spec fn renders(&self, width: usize, lines: Seq<Seq<char>>) -> bool {
        exists|parts: Seq<Seq<Seq<char>>>|
            #![trigger parts.flatten()]
            parts.len() == self.child_count() && (forall|i: int| 0 <= i < parts.len() ==> #[trigger] self.child_renders(
                i,
                width,
                parts[i],
            )) && lines == parts.flatten()
    }

    /// The children's lines in order; the cursor is the last child's cursor that was
    /// reported, moved down by the rows rendered above that child.
    fn render(&mut self, width: usize) -> (r: Vec<String>)
        ensures
            final(self).child_count() == old(self).child_count(),
            exists|parts: Seq<Seq<String>>|
                parts.len() == old(self).child_count() && r@ == parts.flatten(),
    {
        self.last_cursor_pos = None;
        let mut parts: Vec<Vec<String>> = Vec::new();
        let mut rows: usize = 0;
        let n = self.children.len();
        let mut i: usize = 0;
        while i < n
            invariant
                n == self.children@.len(),
                n == old(self).children@.len(),
                i <= n,
                parts@.len() == i,
                forall|j: int| i <= j < n ==> self.children@[j] == old(self).children@[j],
                forall|k: int| 0 <= k < i ==> #[trigger] old(self).child_renders(k, width, texts(parts@[k]@)),
            decreases n - i,
        {
            let ghost before = parts@;
            let child_lines = self.children[i].component.render(width);
            assert(old(self).child_renders(i as int, width, texts(child_lines@)));
            let child_cursor = self.children[i].component.cursor_pos();
            match child_cursor {
                Some(pos) => {
                    self.last_cursor_pos = Some(CursorPos { row: rows.saturating_add(pos.row), col: pos.col });
                },
                None => {},
            }
            rows = rows.saturating_add(child_lines.len());
            parts.push(child_lines);
            assert forall|k: int| 0 <= k < i + 1 implies #[trigger] old(self).child_renders(k, width, texts(parts@[k]@)) by {
                if k < i {
                    assert(parts@[k] == before[k]);
                }
            }
            i += 1;
        }
        let r = stack_lines(&parts);
        proof {
            let pv = parts@.map_values(|p: Vec<String>| p@);
            lemma_texts_flatten(pv);
            let tv = pv.map_values(|p: Seq<String>| texts(p));
            assert(pv.map_values(|p: Seq<String>| p.map_values(|s: String| s@)) =~= tv);
            assert forall|k: int| 0 <= k < tv.len() implies #[trigger] old(self).child_renders(k, width, tv[k]) by {
                assert(tv[k] == texts(parts@[k]@));
            }
            assert(texts(r@) == tv.flatten());
            assert(old(self).renders(width, texts(r@)));
        }
        r
    }

    fn cursor_pos(&self) -> (r: Option<CursorPos>)
        ensures
            r == self.last_cursor_view(),
    {
        self.last_cursor_pos
    }

    fn invalidate(&mut self) {
        let n = self.children.len();
        let mut i: usize = 0;
        while i < n
            invariant
                n == self.children@.len(),
                i <= n,
            decreases n - i,
        {
            self.children[i].component.invalidate();
            i += 1;
        }
    }
}

} // verus!
