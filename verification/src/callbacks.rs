//! Callbacks that users hand to widgets.

use vstd::prelude::*;

use crate::widgets::select_list::SelectItem;

verus! {

/// Receives a string value (a submitted input, a chosen option).
pub trait ValueHandler {
    fn call(&mut self, value: String);
}

/// Receives a notification without data (cancel, escape).
pub trait Notify {
    fn call(&mut self);
}

/// Receives a list item (a confirmed or newly highlighted entry).
pub trait ItemHandler {
    fn call(&mut self, item: SelectItem);
}

/// Receives a setting id and its new value.
pub trait ChangeHandler {
    fn call(&mut self, id: String, value: String);
}

} // verus!
