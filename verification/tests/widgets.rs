use std::cell::RefCell;
use std::rc::Rc;

use tape_tui::callbacks::{ItemHandler, Notify};
use tape_tui::keys::parse_input_events;
use tape_tui::widgets::boxed::Box as BoxWidget;
use tape_tui::widgets::container::Container;
use tape_tui::widgets::editor::replace_paste_markers;
use tape_tui::widgets::settings_list::{SettingItem, SettingsList, SettingsListOptions};
use tape_tui::widgets::image::{image_fallback, Image, ImageDimensions, ImageOptions, ImageRender, ImageTheme};
use tape_tui::runtime::component_registry::ComponentId;
use tape_tui::widgets::input::{Input, InputSignal};
use tape_tui::widgets::cancellable_loader::{cancel_on_event, AbortSignal};
use tape_tui::widgets::loader::{spinner_frame, SpinnerLabel};
use tape_tui::widgets::select_list::{SelectItem, SelectList, SelectListTheme, SelectOutcome};
use tape_tui::widgets::spacer::Spacer;
use tape_tui::widgets::text::Text;
use tape_tui::widgets::truncated_text::TruncatedText;
use tape_tui::style::WrapStyle;
use tape_tui::{default_editor_keybindings_handle, visible_width, Component, CursorPos};


struct StaticComponent {
    lines: Vec<String>,
}

impl Component for StaticComponent {
    fn render(&mut self, _width: usize) -> Vec<String> {
        self.lines.clone()
    }
}

struct CursorComponent {
    lines: Vec<String>,
    cursor: Option<CursorPos>,
}

impl Component for CursorComponent {
    fn render(&mut self, _width: usize) -> Vec<String> {
        self.lines.clone()
    }

    fn cursor_pos(&self) -> Option<CursorPos> {
        self.cursor
    }
}

#[test]
fn container_concatenates_children() {
    let mut container = Container::new();
    let first: Box<dyn Component> = Box::new(StaticComponent { lines: vec!["one".to_string()] });
    let second: Box<dyn Component> =
        Box::new(StaticComponent { lines: vec!["two".to_string(), "three".to_string()] });
    container.add_child(first);
    container.add_child(second);

    let result = container.render(10);
    assert_eq!(result, vec!["one", "two", "three"]);
}

#[test]
fn container_offsets_child_cursor_and_prefers_last_child() {
    let mut container = Container::new();
    let first: Box<dyn Component> = Box::new(CursorComponent {
        lines: vec!["one".to_string()],
        cursor: Some(CursorPos { row: 0, col: 0 }),
    });
    let second: Box<dyn Component> = Box::new(CursorComponent {
        lines: vec!["two".to_string(), "three".to_string()],
        cursor: Some(CursorPos { row: 1, col: 2 }),
    });
    container.add_child(first);
    container.add_child(second);

    let result = container.render(10);
    assert_eq!(result, vec!["one", "two", "three"]);
    assert_eq!(container.cursor_pos(), Some(CursorPos { row: 2, col: 2 }));
}

#[test]
fn remove_child_by_index() {
    let mut container = Container::new();
    let first: Box<dyn Component> = Box::new(StaticComponent { lines: vec!["one".to_string()] });
    let second: Box<dyn Component> = Box::new(StaticComponent { lines: vec!["two".to_string()] });
    container.add_child(first);
    container.add_child(second);

    assert!(container.remove_child(0));
    let result = container.render(10);
    assert_eq!(result, vec!["two"]);
    assert!(!container.remove_child(1));
}

fn send(input: &mut Input, data: &str) {
    for event in parse_input_events(data, false) {
        input.handle_event(&event);
    }
}

#[test]
fn input_edits_and_moves_cursor() {
    let mut input = Input::new(default_editor_keybindings_handle());
    send(&mut input, "h");
    send(&mut input, "e");
    send(&mut input, "l");
    send(&mut input, "l");
    send(&mut input, "o");
    assert_eq!(input.get_value(), "hello");
    assert_eq!(input.cursor(), 5);

    send(&mut input, "\x1b[D");
    send(&mut input, "\x1b[D");
    assert_eq!(input.cursor(), 3);

    send(&mut input, "p");
    assert_eq!(input.get_value(), "helplo");
    assert_eq!(input.cursor(), 4);

    send(&mut input, "\x7f");
    assert_eq!(input.get_value(), "hello");
    assert_eq!(input.cursor(), 3);

    send(&mut input, "\x1b[C");
    send(&mut input, "\x1b[C");
    assert_eq!(input.cursor(), 5);
}

#[test]
fn input_paste_and_delete_word() {
    let mut input = Input::new(default_editor_keybindings_handle());
    send(&mut input, "\x1b[200~hello\nworld\x1b[201~");
    assert_eq!(input.get_value(), "helloworld");

    send(&mut input, " ");
    send(&mut input, "there");
    send(&mut input, "\x17");
    assert_eq!(input.get_value(), "helloworld ");
    assert_eq!(input.cursor(), "helloworld ".len());
}

#[test]
fn input_has_prompt_by_default() {
    let mut input = Input::new(default_editor_keybindings_handle());
    let lines = input.render(10);
    assert_eq!(lines.len(), 1);
    assert!(lines[0].starts_with("> "));
}

#[test]
fn spacer_renders_empty_lines() {
    let mut spacer = Spacer::with_lines(3);
    let lines = spacer.render(10);
    assert_eq!(lines.len(), 3);
    assert!(lines.iter().all(|line| line.is_empty()));
}

#[test]
fn spacer_default_is_one_line() {
    let mut spacer = Spacer::new();
    let lines = spacer.render(10);
    assert_eq!(lines.len(), 1);
}

#[test]
fn text_wraps_and_pads_to_width() {
    let mut text = Text::with_padding("word word", 0, 0);
    let lines = text.render(4);
    assert_eq!(lines.len(), 2);
    assert_eq!(lines[0], "word");
    assert_eq!(lines[1], "word");
    assert!(lines.iter().all(|line| visible_width(line) <= 4));
}

#[test]
fn text_typed_frame_output_round_trips_losslessly() {
    let mut text = Text::with_padding("\x1b[31mred\x1b[0m\tword", 1, 1);
    text.set_custom_bg_fn(Some(Box::new(WrapStyle::new("<", ">"))));

    let width = 10;
    let rendered = text.render(width);

    text.invalidate();
    let from_frame = text.render_frame(width).into_strings();

    assert_eq!(from_frame.len(), rendered.len());
    for (frame_line, render_line) in from_frame.iter().zip(rendered.iter()) {
        assert_eq!(frame_line.as_bytes(), render_line.as_bytes());
    }
}

#[test]
fn text_pads_blank_rows_and_expands_tabs() {
    let mut text = Text::new("a\tb");
    let lines = text.render(8);
    assert_eq!(lines, vec!["        ", " a   b  ", "        "]);
    let mut blank = Text::new("  \n ");
    assert!(blank.render(8).is_empty());
}

#[test]
fn truncated_text_truncates_with_ellipsis() {
    let mut text = TruncatedText::new("hello world", 0, 0);
    let lines = text.render(8);
    assert_eq!(lines.len(), 1);
    assert!(lines[0].contains("..."));
    assert_eq!(visible_width(&lines[0]), 8);
}

#[test]
fn truncated_text_respects_padding() {
    let mut text = TruncatedText::new("hi", 1, 1);
    let lines = text.render(4);
    assert_eq!(lines, vec!["    ", " hi ", "    "]);
}

#[test]
fn truncated_text_keeps_only_the_first_line() {
    let mut text = TruncatedText::new("top\nbottom", 0, 0);
    assert_eq!(text.render(6), vec!["top   "]);
}

#[test]
fn box_pads_children_to_width() {
    let mut boxed = BoxWidget::new(1, 1, None);
    let child: Box<dyn Component> = Box::new(StaticComponent { lines: vec!["hi".to_string()] });
    boxed.add_child(child);

    let lines = boxed.render(6);
    assert_eq!(lines.len(), 3);
    assert_eq!(lines[0], "      ");
    assert_eq!(lines[1], " hi   ");
    assert_eq!(lines[2], "      ");
    assert!(lines.iter().all(|line| visible_width(line) == 6));
}

#[test]
fn box_applies_background_and_reuses_cache() {
    let mut boxed = BoxWidget::new(0, 0, Some(Box::new(WrapStyle::new("<", ">"))));
    let child: Box<dyn Component> = Box::new(StaticComponent { lines: vec!["ab".to_string()] });
    boxed.add_child(child);
    assert_eq!(boxed.render(4), vec!["<ab  >"]);
    assert_eq!(boxed.render(4), vec!["<ab  >"]);
    boxed.set_bg_fn(None);
    assert_eq!(boxed.render(4), vec!["ab  "]);
    assert!(boxed.remove_child(0));
    assert!(boxed.render(4).is_empty());
}

fn theme() -> SelectListTheme {
    SelectListTheme {
        selected_prefix: Box::new(WrapStyle::plain()),
        selected_text: Box::new(WrapStyle::plain()),
        description: Box::new(WrapStyle::plain()),
        scroll_info: Box::new(WrapStyle::plain()),
        no_match: Box::new(WrapStyle::plain()),
    }
}

struct Record {
    seen: Rc<RefCell<Vec<String>>>,
}

impl ItemHandler for Record {
    fn call(&mut self, item: SelectItem) {
        self.seen.borrow_mut().push(item.value);
    }
}

struct Flag {
    set: Rc<RefCell<bool>>,
}

impl Notify for Flag {
    fn call(&mut self) {
        *self.set.borrow_mut() = true;
    }
}

#[test]
fn select_list_navigates_and_wraps() {
    let items = vec![
        SelectItem::new("one", "one", None),
        SelectItem::new("two", "two", None),
        SelectItem::new("three", "three", None),
    ];
    let mut list = SelectList::new(items, 2, theme());

    assert_eq!(list.get_selected_item().unwrap().value, "one");

    list.handle_input("\x1b[B");
    assert_eq!(list.get_selected_item().unwrap().value, "two");

    list.handle_input("\x1b[B");
    assert_eq!(list.get_selected_item().unwrap().value, "three");

    list.handle_input("\x1b[B");
    assert_eq!(list.get_selected_item().unwrap().value, "one");

    list.handle_input("\x1b[A");
    assert_eq!(list.get_selected_item().unwrap().value, "three");
}

#[test]
fn select_list_callbacks_fire() {
    let items = vec![SelectItem::new("one", "one", None), SelectItem::new("two", "two", None)];
    let mut list = SelectList::new(items, 2, theme());

    let changes: Rc<RefCell<Vec<String>>> = Rc::new(RefCell::new(Vec::new()));
    list.set_on_selection_change(Some(Box::new(Record { seen: changes.clone() })));

    let selected: Rc<RefCell<Vec<String>>> = Rc::new(RefCell::new(Vec::new()));
    list.set_on_select(Some(Box::new(Record { seen: selected.clone() })));

    let cancelled: Rc<RefCell<bool>> = Rc::new(RefCell::new(false));
    list.set_on_cancel(Some(Box::new(Flag { set: cancelled.clone() })));

    list.handle_input("\x1b[B");
    assert_eq!(changes.borrow().as_slice(), &["two"]);

    list.handle_input("\r");
    assert_eq!(selected.borrow().as_slice(), &["two"]);

    list.handle_input("\x1b");
    assert!(*cancelled.borrow());
}

#[test]
fn select_list_filters_by_lowercase_prefix_and_scrolls() {
    let items = vec![
        SelectItem::new("Alpha", "", None),
        SelectItem::new("beta", "Beta", Some("first\n\nsecond  ".to_string())),
        SelectItem::new("alps", "alps", None),
    ];
    let mut list = SelectList::new(items, 2, theme());
    let lines = list.render(20);
    assert_eq!(lines, vec!["\u{2192} Alpha", "  Beta", "  (1/3)"]);
    list.set_filter("AL");
    assert_eq!(list.get_selected_item().unwrap().value, "Alpha");
    list.set_selected_index(9);
    assert_eq!(list.get_selected_item().unwrap().value, "alps");
    list.set_filter("zz");
    assert!(list.get_selected_item().is_none());
    assert_eq!(list.render(20), vec!["  No matching commands"]);
}

#[test]
fn select_list_shows_descriptions_on_wide_lines() {
    let items = vec![
        SelectItem::new("a", "a", None),
        SelectItem::new("b", "b", Some("line one\nline two".to_string())),
    ];
    let mut list = SelectList::new(items, 5, theme());
    let lines = list.render(60);
    assert_eq!(lines[0], "\u{2192} a");
    assert_eq!(lines[1], format!("  b{}line one line two", " ".repeat(31)));
}

#[test]
fn word_wrap_line_breaks_long_words() {
    let chunks = tape_tui::widgets::editor::word_wrap_line("abcdefgh", 3);
    let texts: Vec<String> = chunks.into_iter().map(|chunk| chunk.text).collect();
    assert_eq!(texts, vec!["abc", "def", "gh"]);
}

#[test]
fn word_wrap_line_records_indices() {
    let chunks = tape_tui::widgets::editor::word_wrap_line("hello world", 5);
    assert_eq!(chunks[0].start_index, 0);
    assert_eq!(chunks[0].end_index, 5);
    assert_eq!(chunks.last().unwrap().end_index, "hello world".len());
}

#[test]
fn word_wrap_line_prefers_whitespace_breaks_and_byte_offsets() {
    let chunks = tape_tui::widgets::editor::word_wrap_line("ab cd ef", 5);
    let texts: Vec<&str> = chunks.iter().map(|c| c.text.as_str()).collect();
    assert_eq!(texts, vec!["ab ", "cd ef"]);
    assert_eq!((chunks[1].start_index, chunks[1].end_index), (3, 8));
    let wide = tape_tui::widgets::editor::word_wrap_line("\u{e9}\u{e9}\u{e9}", 2);
    assert_eq!(wide[0].text, "\u{e9}\u{e9}");
    assert_eq!((wide[1].start_index, wide[1].end_index), (4, 6));
    let empty = tape_tui::widgets::editor::word_wrap_line("", 4);
    assert_eq!(empty.len(), 1);
    assert_eq!(empty[0].text, "");
}

#[test]
fn paste_markers_expand_to_stored_content() {
    let pastes = vec![(1u32, "one\ntwo".to_string()), (2u32, "x".to_string())];
    assert_eq!(replace_paste_markers("a [paste #1 +2 lines] b", &pastes), "a one\ntwo b");
    assert_eq!(replace_paste_markers("[paste #2 1 chars][paste #2]", &pastes), "xx");
    assert_eq!(replace_paste_markers("[paste #9 +3 lines]", &pastes), "[paste #9 +3 lines]");
    assert_eq!(replace_paste_markers("[paste #] [paste #1 lines]", &pastes), "[paste #] [paste #1 lines]");
    assert_eq!(replace_paste_markers("\u{e9}[paste #1]", &pastes), "\u{e9}one\ntwo");
}

struct PlainSelectable;

impl tape_tui::style::SelectableStyle for PlainSelectable {
    fn style(&self, text: &str, _selected: bool) -> String {
        text.to_string()
    }
}

fn settings_theme() -> tape_tui::widgets::settings_list::SettingsListTheme {
    tape_tui::widgets::settings_list::SettingsListTheme {
        label: Box::new(PlainSelectable),
        value: Box::new(PlainSelectable),
        description: Box::new(WrapStyle::plain()),
        cursor: "\u{2192} ".to_string(),
        hint: Box::new(WrapStyle::plain()),
    }
}

struct NoChange;

impl tape_tui::callbacks::ChangeHandler for NoChange {
    fn call(&mut self, _id: String, _value: String) {}
}

struct RecordChanges {
    seen: Rc<RefCell<Vec<(String, String)>>>,
}

impl tape_tui::callbacks::ChangeHandler for RecordChanges {
    fn call(&mut self, id: String, value: String) {
        self.seen.borrow_mut().push((id, value));
    }
}

struct NoCancel;

impl Notify for NoCancel {
    fn call(&mut self) {}
}

struct TestSubmenu {
    result: Option<Option<String>>,
}

impl tape_tui::widgets::settings_list::Submenu for TestSubmenu {
    fn render(&mut self, _width: usize) -> Vec<String> {
        vec!["submenu".to_string()]
    }

    fn handle_input(&mut self, _data: &str) {
        self.result = Some(Some("updated".to_string()));
    }

    fn take_result(&mut self) -> Option<Option<String>> {
        self.result.take()
    }
}

struct TestSubmenuFactory;

impl tape_tui::widgets::settings_list::SubmenuFactory for TestSubmenuFactory {
    fn open(&mut self, _current_value: String) -> tape_tui::widgets::settings_list::OpenSubmenu {
        tape_tui::widgets::settings_list::OpenSubmenu { component: Box::new(TestSubmenu { result: None }) }
    }
}

#[test]
fn settings_list_search_and_navigation() {
    let items = vec![
        SettingItem::new("a", "alpha", "one"),
        SettingItem::new("b", "beta", "two"),
        SettingItem::new("c", "gamma", "three"),
    ];
    let mut list = SettingsList::new(
        items,
        2,
        settings_theme(),
        Box::new(NoChange),
        Box::new(NoCancel),
        Some(SettingsListOptions { enable_search: true }),
    );

    list.handle_input("be");
    assert_eq!(list.filtered_indices().len(), 1);
    assert_eq!(list.display_item_index(list.selected_index()), Some(1));

    list.handle_input("\x1b[B");
    assert_eq!(list.selected_index(), 0);
}

#[test]
fn settings_list_cycles_values_and_submenu_updates() {
    let mut item = SettingItem::new("mode", "Mode", "off");
    item.values = Some(vec!["off".to_string(), "on".to_string()]);

    let mut submenu_item = SettingItem::new("submenu", "Sub", "init");
    submenu_item.submenu = Some(Box::new(TestSubmenuFactory));

    let items = vec![item, submenu_item];

    let changes: Rc<RefCell<Vec<(String, String)>>> = Rc::new(RefCell::new(Vec::new()));
    let mut list = SettingsList::new(
        items,
        2,
        settings_theme(),
        Box::new(RecordChanges { seen: changes.clone() }),
        Box::new(NoCancel),
        None,
    );

    list.handle_input("\r");
    assert_eq!(changes.borrow().as_slice(), &[("mode".to_string(), "on".to_string())]);

    list.handle_input("\x1b[B");
    list.handle_input("\r");
    list.handle_input("x");

    assert_eq!(changes.borrow().len(), 2);
    assert_eq!(changes.borrow()[1], ("submenu".to_string(), "updated".to_string()));
}

#[test]
fn settings_list_renders_aligned_rows_and_hint() {
    let items = vec![SettingItem::new("a", "ab", "x"), SettingItem::new("b", "abcd", "y")];
    let mut list = SettingsList::new(items, 5, settings_theme(), Box::new(NoChange), Box::new(NoCancel), None);
    let lines = list.render(40);
    assert_eq!(lines[0], "\u{2192} ab    x");
    assert_eq!(lines[1], "  abcd  y");
    assert_eq!(lines[2], "");
    assert_eq!(lines[3], "  Enter/Space to change \u{b7} Esc to cancel");
    list.update_value("b", "z");
    assert_eq!(list.render(40)[1], "  abcd  z");
}

fn image_theme() -> ImageTheme {
    ImageTheme { fallback_color: Box::new(WrapStyle::new("<", ">")) }
}

#[test]
fn image_renders_kitty_sequence_rows() {
    let options = ImageOptions {
        max_width_cells: Some(10),
        max_height_cells: None,
        filename: None,
        image_id: Some(5),
    };
    let dims = ImageDimensions { width_px: 100, height_px: 50 };
    let mut image = Image::new("AAAA", "image/png", image_theme(), options, Some(dims));
    let request = image.render_options(20);
    assert_eq!(request.max_width_cells, Some(10));
    assert_eq!(request.image_id, Some(5));
    let encoded = ImageRender {
        sequence: "\x1b_Gf=100,a=T,i=5;AAAA\x1b\\".to_string(),
        rows: 3,
        image_id: Some(5),
    };
    let lines = image.render_with(20, Some(encoded));

    assert_eq!(image.get_image_id(), Some(5));
    assert_eq!(lines.len(), 3);
    assert!(lines.last().unwrap().contains("\x1b_G"));
    assert!(lines.last().unwrap().starts_with("\x1b[2A"));
}

#[test]
fn image_falls_back_without_capabilities() {
    let options = ImageOptions {
        max_width_cells: None,
        max_height_cells: None,
        filename: Some("file.png".to_string()),
        image_id: None,
    };
    let dims = ImageDimensions { width_px: 200, height_px: 100 };
    let mut image = Image::new("AAAA", "image/png", image_theme(), options, Some(dims));
    let lines = image.render(40);

    assert_eq!(lines.len(), 1);
    assert_eq!(lines[0], "<[Image: file.png [image/png] 200x100]>");
}

#[test]
fn image_keeps_rendering_per_width_and_adopts_encoder_id() {
    let mut image = Image::new("AAAA", "image/gif", image_theme(), ImageOptions::default(), None);
    assert_eq!(image.get_image_id(), None);
    assert_eq!(image.render_options(100).max_width_cells, Some(60));
    assert_eq!(image.render_options(30).max_width_cells, Some(28));
    assert_eq!(image.render_options(1).max_width_cells, Some(0));
    let first = image.render(30);
    assert_eq!(first, vec!["<[Image: [image/gif] 800x600]>".to_string()]);
    // A kept rendering at the same width wins over a new encoding.
    let encoded = ImageRender { sequence: "SEQ".to_string(), rows: 1, image_id: Some(9) };
    assert_eq!(image.render_with(30, Some(encoded.clone())), first);
    assert_eq!(image.get_image_id(), None);
    let drawn = image.render_with(31, Some(encoded));
    assert_eq!(drawn, vec!["SEQ".to_string()]);
    assert_eq!(image.get_image_id(), Some(9));
    image.invalidate();
    let none_rows = ImageRender { sequence: "X".to_string(), rows: 0, image_id: None };
    assert!(image.render_with(31, Some(none_rows)).is_empty());
    assert_eq!(image.get_image_id(), Some(9));
}

#[test]
fn image_fallback_lists_known_parts() {
    assert_eq!(image_fallback("image/png", None, None), "[Image: [image/png]]");
    assert_eq!(
        image_fallback("image/jpeg", Some(ImageDimensions { width_px: 1, height_px: 22 }), Some("a.jpg")),
        "[Image: a.jpg [image/jpeg] 1x22]"
    );
}

#[test]
fn spinner_cycles_through_ten_frames() {
    assert_eq!(spinner_frame(0), "⠋");
    assert_eq!(spinner_frame(1), "⠙");
    assert_eq!(spinner_frame(9), "⠏");
    assert_eq!(spinner_frame(11), "⠙");
}

#[test]
fn spinner_label_renders_blank_line_and_padded_label() {
    let mut label = SpinnerLabel::new(Box::new(WrapStyle::plain()), Box::new(WrapStyle::new("<", ">")), Some("Working".to_string()));
    let lines = label.render(20);
    assert_eq!(lines, vec![String::new(), format!(" ⠋ <Working>{}", " ".repeat(8))]);
    label.set_frame(12);
    label.set_message("Done");
    let lines = label.render(12);
    assert_eq!(lines, vec![String::new(), " ⠹ <Done>   ".to_string()]);
    let mut default = SpinnerLabel::new(Box::new(WrapStyle::plain()), Box::new(WrapStyle::plain()), None);
    assert_eq!(default.render(14)[1], " ⠋ Loading... ");
}

#[test]
fn cancel_on_event_raises_signal_once() {
    let kb = default_editor_keybindings_handle();
    let signal = AbortSignal::new();
    let text = tape_tui::InputEvent::Text { text: "x".to_string() };
    assert!(!cancel_on_event(&signal, &kb, &text));
    assert!(!signal.aborted());
    let escape = &parse_input_events("\x1b", false)[0];
    assert!(cancel_on_event(&signal, &kb, escape));
    assert!(signal.aborted());
    assert!(!cancel_on_event(&signal, &kb, escape));
    assert!(signal.clone().aborted());
}

#[test]
fn set_value_keeps_the_cursor_byte_offset() {
    let mut input = Input::new(default_editor_keybindings_handle());
    for e in parse_input_events("\u{e9}\u{e9}\u{e9}", false) {
        input.handle_event(&e);
    }
    input.set_value("abcdef");
    assert_eq!(input.cursor(), 6);
    for e in parse_input_events("X", false) {
        input.handle_event(&e);
    }
    assert_eq!(input.get_value(), "abcdefX");
    // A byte offset inside a character moves back to that character's start.
    let mut other = Input::new(default_editor_keybindings_handle());
    for e in parse_input_events("abc", false) {
        other.handle_event(&e);
    }
    other.set_value("\u{e9}\u{e9}");
    assert_eq!(other.cursor(), 1);
}

#[test]
fn input_keys_signal_escape_submit_or_edit() {
    let mut input = Input::new(default_editor_keybindings_handle());
    input.set_value("hi");
    assert!(matches!(input.key_signal("escape"), InputSignal::Escape));
    match input.key_signal("enter") {
        InputSignal::Submit(v) => assert_eq!(v, "hi"),
        _ => panic!("enter submits"),
    }
    assert!(matches!(input.key_signal("left"), InputSignal::Edit));
}

#[test]
fn select_keys_name_the_handler_and_item() {
    let items = vec![SelectItem::new("a", "A", None), SelectItem::new("b", "B", None)];
    let mut list = SelectList::new(items, 5, theme());
    match list.apply_key("\x1b[B") {
        SelectOutcome::Moved(item) => assert_eq!(item.value, "b"),
        _ => panic!("down moves"),
    }
    match list.apply_key("\r") {
        SelectOutcome::Confirmed(item) => assert_eq!(item.value, "b"),
        _ => panic!("enter confirms"),
    }
    assert!(matches!(list.apply_key("\x1b"), SelectOutcome::Cancelled));
    assert!(matches!(list.apply_key("z"), SelectOutcome::Ignored));
    match list.apply_key("\x1b[B") {
        SelectOutcome::Moved(item) => assert_eq!(item.value, "a"),
        _ => panic!("down wraps"),
    }
}

#[test]
fn wrapping_clusters_breaks_after_whitespace() {
    let segs: Vec<String> = "ab cd".chars().map(|c| c.to_string()).collect();
    let chunks = tape_tui::widgets::editor::wrap_segments(&segs, 3);
    let texts: Vec<&str> = chunks.iter().map(|c| c.text.as_str()).collect();
    assert_eq!(texts, vec!["ab ", "cd"]);
    assert_eq!((chunks[1].start_index, chunks[1].end_index), (3, 5));
}

#[test]
fn stacked_lines_keep_part_order() {
    let parts = vec![vec!["a".to_string()], vec![], vec!["b".to_string(), "c".to_string()]];
    assert_eq!(tape_tui::widgets::container::stack_lines(&parts), vec!["a", "b", "c"]);
}

#[test]
fn default_bindings_include_undo_and_kill_keys() {
    let kb = default_editor_keybindings_handle();
    let has = |key: &str, action: tape_tui::EditorAction| kb.bindings.iter().any(|b| b.key_id == key && b.action == action);
    assert!(has("ctrl+-", tape_tui::EditorAction::Undo));
    assert!(has("ctrl+k", tape_tui::EditorAction::DeleteToLineEnd));
    assert!(has("ctrl+y", tape_tui::EditorAction::Yank));
    assert!(has("backspace", tape_tui::EditorAction::DeleteCharBackward));
    assert!(has("ctrl+w", tape_tui::EditorAction::DeleteWordBackward));
    assert_eq!(kb.bindings.len(), 38);
}

#[test]
fn component_ids_round_trip_through_raw() {
    let id = ComponentId::from_raw(42);
    assert_eq!(ComponentId::from_raw(id.raw()), id);
}

#[test]
fn text_background_styles_every_padded_line() {
    let mut text = Text::with_padding("hi", 1, 1);
    text.set_custom_bg_fn(Some(Box::new(WrapStyle::new("[", "]"))));
    let lines = text.render(6);
    assert_eq!(lines, vec!["[      ]".to_string(), "[ hi   ]".to_string(), "[      ]".to_string()]);
}

#[test]
fn background_is_applied_to_the_padded_line() {
    let bg: Box<dyn tape_tui::StyleFn> = Box::new(WrapStyle::new("<", ">"));
    assert_eq!(tape_tui::render::apply_background_to_line("ab", 4, &bg), "<ab  >");
    assert_eq!(tape_tui::render::apply_background_to_line("abcdef", 4, &bg), "<abcdef>");
}

#[test]
fn boxed_lines_take_the_background_after_padding() {
    let bg: Option<Box<dyn tape_tui::StyleFn>> = Some(Box::new(WrapStyle::new("<", ">")));
    let lines = tape_tui::widgets::boxed::frame_box_lines(&["x".to_string()], 3, 1, &bg);
    assert_eq!(lines, vec!["<   >".to_string(), "<x  >".to_string(), "<   >".to_string()]);
}

#[test]
fn input_prompt_room_is_counted_in_bytes() {
    let mut input = Input::new(default_editor_keybindings_handle());
    input.set_prompt("é");
    assert_eq!(input.render(2), vec!["é".to_string()]);
    assert_eq!(input.render(1), vec!["é".to_string()]);
    let mut wide = Input::new(default_editor_keybindings_handle());
    wide.set_prompt("é");
    assert_eq!(wide.render(3), vec!["é\x1b[7m \x1b[27m".to_string()]);
}

#[test]
fn input_scroll_window_is_chosen_in_bytes() {
    let mut input = Input::new(default_editor_keybindings_handle());
    for event in parse_input_events("éééé", false) {
        input.handle_event(&event);
    }
    assert_eq!(input.get_value(), "éééé");
    assert_eq!(input.render(8), vec!["> éé\x1b[7m \x1b[27m   ".to_string()]);
}

#[test]
fn kitty_key_sequences_parse_to_presses_and_releases() {
    let events = parse_input_events("\x1b[32;1:3u\x1b[97;5u\x1b[13u\x1b[100;6:1ux", true);
    let names: Vec<String> = events
        .iter()
        .map(|e| match e {
            tape_tui::InputEvent::Key { key_id } => format!("press {key_id}"),
            tape_tui::InputEvent::KeyRelease { key_id } => format!("release {key_id}"),
            tape_tui::InputEvent::Text { text } => format!("text {text}"),
            tape_tui::InputEvent::Paste { text } => format!("paste {text}"),
        })
        .collect();
    assert_eq!(
        names,
        vec!["release space", "press ctrl+a", "press enter", "press ctrl+shift+d", "text x"]
    );
}
