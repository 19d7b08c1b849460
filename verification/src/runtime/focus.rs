//! Keyboard focus: which registered component holds it.

use vstd::prelude::*;

use crate::runtime::component_registry::{ComponentId, ComponentRegistry};

verus! {

/// What moving focus from `prev` to `target` tells the components, with `n` registered: the
/// previously focused one that it lost focus, then the new one that it has it, each only when
/// registered; nothing when focus stays where it is.
pub open spec fn focus_changes(prev: Option<ComponentId>, target: Option<ComponentId>, n: nat) -> Seq<(ComponentId, bool)> {
    if prev == target {
        Seq::empty()
    } else {
        (match prev {
            Some(p) => if p.id() < n {
                seq![(p, false)]
            } else {
                Seq::empty()
            },
            None => Seq::empty(),
        }) + (match target {
            Some(t) => if t.id() < n {
                seq![(t, true)]
            } else {
                Seq::empty()
            },
            None => Seq::empty(),
        })
    }
}

/// Tracks the focused component and tells components when they gain or lose focus.
pub struct FocusState {
    focused: Option<ComponentId>,
}

impl FocusState {
    pub closed spec fn focused_view(&self) -> Option<ComponentId> {
        self.focused
    }

    pub fn new() -> (r: Self)
        ensures
            r.focused_view() is None,
    {
        FocusState { focused: None }
    }

    /// Tells `id`'s component (when it is registered and focusable) whether it is focused.
    pub(crate) fn notify(registry: &mut ComponentRegistry, id: ComponentId, focused: bool)
        requires
            old(registry).wf(),
        ensures
            final(registry).focus_notices() == if id.id() < old(registry).count() {
                old(registry).focus_notices().push((id, focused))
            } else {
                old(registry).focus_notices()
            },
            final(registry).handed_events() == old(registry).handed_events(),
            final(registry).wf(),
            final(registry).count() == old(registry).count(),
    {
        registry.tell_focus(id, focused);
    }

    /// Moves focus to `target` (or clears it): the previously focused component is told it
    /// lost focus and the new one that it has it. Focusing the focused component again changes
    /// nothing.
    pub fn set_focus(&mut self, registry: &mut ComponentRegistry, target: Option<ComponentId>)
        requires
            old(registry).wf(),
        ensures
            final(self).focused_view() == target,
            final(registry).focus_notices() == old(registry).focus_notices() + focus_changes(
                old(self).focused_view(),
                target,
                old(registry).count(),
            ),
            final(registry).handed_events() == old(registry).handed_events(),
            final(registry).wf(),
            final(registry).count() == old(registry).count(),
    {
        let ghost start = registry.focus_notices();
        if self.focused == target {
            assert(start + focus_changes(self.focused, target, registry.count()) =~= start);
            return;
        }
        match self.focused {
            Some(prev) => {
                Self::notify(registry, prev, false);
                self.focused = None;
            },
            None => {},
        }
        match target {
            Some(next) => {
                Self::notify(registry, next, true);
                self.focused = Some(next);
            },
            None => {},
        }
    }

    /// Removes focus from the focused component, which is told it lost it.
    pub fn clear(&mut self, registry: &mut ComponentRegistry)
        requires
            old(registry).wf(),
        ensures
            final(self).focused_view() is None,
            final(registry).focus_notices() == old(registry).focus_notices() + focus_changes(
                old(self).focused_view(),
                None,
                old(registry).count(),
            ),
            final(registry).handed_events() == old(registry).handed_events(),
            final(registry).wf(),
            final(registry).count() == old(registry).count(),
    {
        self.set_focus(registry, None);
    }

    pub fn focused(&self) -> (r: Option<ComponentId>)
        ensures
            r == self.focused_view(),
    {
        self.focused
    }
}

} // verus!
