#![allow(unused_imports)]

use tape_tui::{
    default_editor_keybindings_handle, image_fallback, truncate_to_width, visible_width, wrap_text_with_ansi,
    Box as UiBox, Component, Container, DefaultTextStyle, Editor, EditorAction, EditorKeybindingsHandle, EditorOptions,
    EditorTheme, Focusable, Image, ImageDimensions, ImageOptions, ImageRenderOptions, ImageTheme, Input, InputEvent,
    Markdown, MarkdownTheme, SelectItem, SelectList, SelectListTheme, SettingItem, SettingsList, SettingsListTheme,
    Spacer, SurfaceAnchor, SurfaceId, SurfaceInputPolicy, SurfaceKind, SurfaceMargin, SurfaceVisibility, Terminal,
    Text, TruncatedText,
};

#[test]
fn public_api_exports_compile() {}
