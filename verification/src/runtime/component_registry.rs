//! Component registry and identifiers.

use vstd::prelude::*;

use crate::component::Component;
use crate::keys::{EventView, InputEvent};
use crate::widgets::container::Child;

verus! {

/// Stable identifier for a component owned by a single runtime instance.
/// Identifiers are unique within a registry and never reused.
#[derive(Clone, Copy, Debug, PartialEq, Eq, Structural, Hash, PartialOrd, Ord)]
pub struct ComponentId(u64);

impl ComponentId {
    pub closed spec fn id(self) -> nat {
        self.0 as nat
    }

    /// The number; `from_raw` of it gives the same identifier back.
    pub fn raw(self) -> (r: u64)
        ensures
            r == self.id(),
            self == ComponentId::with_id(r as nat),
    {
        self.0
    }

    /// The identifier with number `raw`.
    pub closed spec fn with_id(raw: nat) -> ComponentId {
        ComponentId(raw as u64)
    }

    pub fn from_raw(raw: u64) -> (r: Self)
        ensures
            r.id() == raw,
            r == ComponentId::with_id(raw as nat),
    {
        ComponentId(raw)
    }
}

/// Owns registered components; identifiers are handed out in order from 0.
pub struct ComponentRegistry {
    entries: Vec<Option<Child>>,
    next_id: u64,
    events_handed: Ghost<Seq<(ComponentId, EventView)>>,
    focus_told: Ghost<Seq<(ComponentId, bool)>>,
}

impl ComponentRegistry {
    /// Number of identifiers handed out so far.
    pub closed spec fn count(&self) -> nat {
        self.next_id as nat
    }

    /// The events handed to components so far, each with the component it went to, in order.
    pub closed spec fn handed_events(&self) -> Seq<(ComponentId, EventView)> {
        self.events_handed@
    }

    /// The focus changes told to components so far, in order.
    pub closed spec fn focus_notices(&self) -> Seq<(ComponentId, bool)> {
        self.focus_told@
    }

    /// The component stored under `id`.
    pub closed spec fn component(&self, id: ComponentId) -> Box<dyn Component> {
        self.entries@[id.id() as int]->Some_0.component
    }

    /// Every identifier handed out names a stored component.
    pub closed spec fn wf(&self) -> bool {
        &&& self.entries@.len() == self.next_id
        &&& forall|i: int| 0 <= i < self.entries@.len() ==> (#[trigger] self.entries@[i]) is Some
    }

    pub fn new() -> (r: Self)
        ensures
            r.wf(),
            r.count() == 0,
            r.handed_events() == Seq::<(ComponentId, EventView)>::empty(),
            r.focus_notices() == Seq::<(ComponentId, bool)>::empty(),
    {
        ComponentRegistry { entries: Vec::new(), next_id: 0, events_handed: Ghost(Seq::empty()), focus_told: Ghost(Seq::empty()) }
    }

    /// Stores `component` under the next identifier.
    pub fn register_boxed(&mut self, component: Box<dyn Component>) -> (id: ComponentId)
        requires
            old(self).wf(),
            old(self).count() < u64::MAX,
            old(self).count() < usize::MAX,
        ensures
            final(self).wf(),
            id.id() == old(self).count(),
            final(self).count() == old(self).count() + 1,
            forall|other: ComponentId| #![trigger final(self).component(other)]
                other.id() < old(self).count() ==> final(self).component(other) == old(self).component(other),
            final(self).handed_events() == old(self).handed_events(),
            final(self).focus_notices() == old(self).focus_notices(),
    {
        let id = ComponentId(self.next_id);
        self.next_id = self.next_id + 1;
        let entry = Some(Child { component });
        let ghost before = self.entries@;
        self.entries.push(entry);
        proof {
            vstd::seq::axiom_seq_push_len(before, entry);
            assert forall|i: int| 0 <= i < self.entries@.len() implies (#[trigger] self.entries@[i]) is Some by {
                if i < before.len() {
                    vstd::seq::axiom_seq_push_index_different(before, entry, i);
                } else {
                    vstd::seq::axiom_seq_push_index_same(before, entry, i);
                }
            }
            assert(id.id() == before.len());
            vstd::seq::axiom_seq_push_index_same(before, entry, before.len() as int);

            assert forall|other: ComponentId| other.id() < before.len() implies #[trigger] self.component(other) == old(self).component(other) by {
                vstd::seq::axiom_seq_push_index_different(before, entry, other.id() as int);
            }
        }
        id
    }

    /// Whether `id` names a registered component.
    pub fn contains(&self, id: ComponentId) -> (r: bool)
        requires
            self.wf(),
        ensures
            r == (id.id() < self.count()),
    {
        id.0 < self.next_id
    }

    /// The component registered under `id`, if any.
    pub fn get_mut(&mut self, id: ComponentId) -> (r: Option<&mut Box<dyn Component>>)
        requires
            old(self).wf(),
        ensures
            r is Some <==> id.id() < old(self).count(),
            final(self).wf(),
            final(self).count() == old(self).count(),
            final(self).handed_events() == old(self).handed_events(),
            final(self).focus_notices() == old(self).focus_notices(),
    {
        if id.0 >= self.next_id {
            return None;
        }
        let n = self.entries.len();
        assert(id.0 < n);
        let idx = id.0 as usize;
        assert(idx as nat == id.id());
        let ghost e0 = self.entries@[idx as int];
        let entry = &mut self.entries[idx];
        assert(*entry == e0);
        match entry {
            Some(child) => {
                assert(child.component == e0->Some_0.component);
                Some(&mut child.component)
            },
            None => None,
        }
    }

    /// Hands `event` to the component registered under `id`; `false` when there is none.
    pub fn hand_event(&mut self, id: ComponentId, event: &InputEvent) -> (r: bool)
        requires
            old(self).wf(),
        ensures
            r == (id.id() < old(self).count()),
            final(self).handed_events() == if r {
                old(self).handed_events().push((id, event@))
            } else {
                old(self).handed_events()
            },
            final(self).focus_notices() == old(self).focus_notices(),
            final(self).wf(),
            final(self).count() == old(self).count(),
    {
        let found = match self.get_mut(id) {
            Some(component) => {
                component.handle_event(event);
                true
            },
            None => false,
        };
        if found {
            self.events_handed = Ghost(self.events_handed@.push((id, event@)));
        }
        found
    }

    /// Tells the component registered under `id`, through its focus interface when it has
    /// one, whether it is focused; `false` when there is no such component.
    pub fn tell_focus(&mut self, id: ComponentId, focused: bool) -> (r: bool)
        requires
            old(self).wf(),
        ensures
            r == (id.id() < old(self).count()),
            final(self).focus_notices() == if r {
                old(self).focus_notices().push((id, focused))
            } else {
                old(self).focus_notices()
            },
            final(self).handed_events() == old(self).handed_events(),
            final(self).wf(),
            final(self).count() == old(self).count(),
    {
        let found = match self.get_mut(id) {
            Some(component) => {
                match component.as_focusable() {
                    Some(f) => f.set_focused(focused),
                    None => {},
                }
                true
            },
            None => false,
        };
        if found {
            self.focus_told = Ghost(self.focus_told@.push((id, focused)));
        }
        found
    }

    /// Whether the component registered under `id` asks for key releases; `false` when there
    /// is no such component.
    pub fn wants_key_release(&mut self, id: ComponentId) -> (r: bool)
        requires
            old(self).wf(),
        ensures
            r ==> id.id() < old(self).count(),
            final(self).handed_events() == old(self).handed_events(),
            final(self).focus_notices() == old(self).focus_notices(),
            final(self).wf(),
            final(self).count() == old(self).count(),
    {
        match self.get_mut(id) {
            Some(component) => component.wants_key_release(),
            None => false,
        }
    }
}

} // verus!
