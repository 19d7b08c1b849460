//! Runtime bookkeeping: component registry, terminal commands, viewport, surfaces.

pub mod commands;
pub mod composite;
pub mod component_registry;
pub mod focus;
pub mod ime;
pub mod inline_viewport;
pub mod output;
pub mod overlay;
pub mod surface;
pub mod surface_host;
pub mod tui;
