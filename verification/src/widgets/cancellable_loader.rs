//! The cancellation signal of a cancellable loader, and when an input event raises it.

use vstd::prelude::*;

use crate::keys::{bound, EditorAction, EditorKeybindingsHandle, EventView, InputEvent, KeyBinding};

verus! {

/// A flag shared between a cancellable task and whoever cancels it. Copies of a signal share
/// one flag, which may be set from another thread at any time, so nothing is promised of what
/// a read returns.
#[derive(Clone)]
pub struct AbortSignal {
    aborted: std::sync::Arc<std::sync::atomic::AtomicBool>,
}

impl AbortSignal {
    /// A signal that has not been raised.
    pub fn new() -> Self {
        AbortSignal { aborted: std::sync::Arc::new(std::sync::atomic::AtomicBool::new(false)) }
    }

    /// Whether the signal has been raised.
    pub fn aborted(&self) -> bool {
        (*self.aborted).load(std::sync::atomic::Ordering::SeqCst)
    }

    /// Raises the signal; returns whether it had already been raised.
    pub fn abort(&self) -> bool {
        (*self.aborted).swap(true, std::sync::atomic::Ordering::SeqCst)
    }
}

/// Whether the event is a key bound to cancelling.
pub open spec fn cancels(bindings: Seq<KeyBinding>, e: EventView) -> bool {
    match e {
        EventView::Key(k) => bound(bindings, k, EditorAction::SelectCancel),
        EventView::Release(k) => bound(bindings, k, EditorAction::SelectCancel),
        _ => false,
    }
}

/// Raises `signal` when `event` is a key bound to cancelling. Returns true when this raised it
/// for the first time, which is when whoever waits for the abort is to be told; any other event
/// leaves the signal alone and returns false.
pub fn cancel_on_event(signal: &AbortSignal, keybindings: &EditorKeybindingsHandle, event: &InputEvent) -> (r: bool)
    ensures
        !cancels(keybindings.bindings@, event@) ==> !r,
{
    let is_cancel = match event {
        InputEvent::Key { key_id } => keybindings.matches(key_id.as_str(), EditorAction::SelectCancel),
        InputEvent::KeyRelease { key_id } => keybindings.matches(key_id.as_str(), EditorAction::SelectCancel),
        _ => false,
    };
    if !is_cancel {
        return false;
    }
    !signal.abort()
}

} // verus!
