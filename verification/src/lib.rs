//! Inline-first terminal UI kernel: text measurement, widgets and runtime bookkeeping.

pub mod callbacks;
pub mod chars;
pub mod component;
pub mod cursor;
pub mod digits;
pub mod keys;
pub mod laws;
pub mod render;
pub mod runtime;
pub mod style;
pub mod text;
pub mod widgets;

pub use component::{Component, Focusable};
pub use cursor::CursorPos;
pub use keys::{default_editor_keybindings_handle, parse_input_events, EditorAction, EditorKeybindingsHandle, InputEvent};
pub use style::StyleFn;
pub use text::{truncate_to_width, visible_width, wrap_text_with_ansi};
pub use runtime::output::Terminal;
pub use runtime::surface::{SurfaceAnchor, SurfaceId, SurfaceInputPolicy, SurfaceKind, SurfaceMargin, SurfaceVisibility};
pub use widgets::boxed::Box;
pub use widgets::container::Container;
pub use widgets::editor::{Editor, EditorOptions, EditorTheme};
pub use widgets::image::{image_fallback, Image, ImageDimensions, ImageOptions, ImageRenderOptions, ImageTheme};
pub use widgets::input::Input;
pub use widgets::markdown::{DefaultTextStyle, Markdown, MarkdownTheme};
pub use widgets::select_list::{SelectItem, SelectList, SelectListTheme};
pub use widgets::settings_list::{SettingItem, SettingsList, SettingsListTheme};
pub use widgets::spacer::Spacer;
pub use widgets::text::Text;
pub use widgets::truncated_text::TruncatedText;
