use tape_tui::widgets::markdown::{DefaultTextStyle, Markdown, MarkdownTheme};
use tape_tui::widgets::md_layout::{
    border_line, has_blank_line_between, is_image_line, is_nested_list_line, row_line, style_prefix,
};
use tape_tui::widgets::md_table::table_column_widths;
use tape_tui::style::WrapStyle;
use tape_tui::{Component, StyleFn};


fn wrap(open: &'static str, close: &'static str) -> Box<dyn StyleFn> {
    Box::new(WrapStyle::new(open, close))
}

fn theme() -> MarkdownTheme {
    MarkdownTheme {
        heading: wrap("<h>", "</h>"),
        link: wrap("<l>", "</l>"),
        link_url: wrap("<u>", "</u>"),
        code: wrap("`", "`"),
        code_block: wrap("<code>", "</code>"),
        code_block_border: wrap("<cb>", "</cb>"),
        quote: wrap("<q>", "</q>"),
        quote_border: wrap("", ""),
        hr: wrap("<hr>", "</hr>"),
        list_bullet: wrap("<b>", "</b>"),
        bold: wrap("<b>", "</b>"),
        italic: wrap("<i>", "</i>"),
        strikethrough: wrap("<s>", "</s>"),
        underline: wrap("<u>", "</u>"),
        highlight_code: None,
        code_block_indent: None,
    }
}

#[test]
fn headings_apply_styles_and_spacing() {
    let mut markdown = Markdown::new("# Title\nParagraph", 0, 0, theme(), None);
    let lines = markdown.render(40);
    assert_eq!(lines[0].trim_end(), "<h><b><u>Title</u></b></h>");
    assert_eq!(lines[1].trim_end(), "");
    assert_eq!(lines[2].trim_end(), "Paragraph");
}

#[test]
fn link_renders_url_only_when_needed() {
    let mut markdown = Markdown::new("[x](x)\n[y](z)", 0, 0, theme(), None);
    let lines = markdown.render(80);
    assert_eq!(lines[0].trim_end(), "<l><u>x</u></l>");
    assert_eq!(lines[1].trim_end(), "<l><u>y</u></l><u> (z)</u>");
}

#[test]
fn html_tokens_render_raw() {
    let mut markdown = Markdown::new("<span>hi</span>", 0, 0, theme(), None);
    let lines = markdown.render(80);
    assert_eq!(lines[0].trim_end(), "<span>hi</span>");
}

#[test]
fn blockquote_wraps_and_prefixes() {
    let mut markdown = Markdown::new("> quote", 0, 0, theme(), None);
    let lines = markdown.render(80);
    assert_eq!(lines[0].trim_end(), "\u{2502} <q><i>quote</i></q>");
}

#[test]
fn list_renders_bullets() {
    let mut markdown = Markdown::new("- one\n- two", 0, 0, theme(), None);
    let lines = markdown.render(80);
    assert!(lines[0].contains("<b>- </b>one"));
    assert!(lines[1].contains("<b>- </b>two"));
}

#[test]
fn table_renders_borders() {
    let input = "| a | b |\n| - | - |\n| c | d |";
    let mut markdown = Markdown::new(input, 0, 0, theme(), None);
    let lines = markdown.render(80);
    assert!(lines.iter().any(|line| line.starts_with("\u{250c}")));
    assert!(lines.iter().any(|line| line.starts_with("\u{2514}")));
}

#[test]
fn default_style_applies_prefix() {
    let style = DefaultTextStyle {
        color: Some(wrap("<c>", "</c>")),
        bg_color: None,
        bold: false,
        italic: false,
        strikethrough: false,
        underline: false,
    };
    let mut markdown = Markdown::new("hello **world**", 0, 0, theme(), Some(style));
    let lines = markdown.render(80);
    assert!(lines[0].starts_with("<c>hello </c><b><c>world</c></b>"));
}

#[test]
fn table_lines_have_exact_borders_and_cells() {
    let input = "| a | b |\n| - | - |\n| c | d |";
    let mut markdown = Markdown::new(input, 0, 0, theme(), None);
    let lines = markdown.render(80);
    let trimmed: Vec<&str> = lines.iter().map(|l| l.trim_end()).collect();
    assert_eq!(trimmed[0], "\u{250c}\u{2500}\u{2500}\u{2500}\u{252c}\u{2500}\u{2500}\u{2500}\u{2510}");
    assert_eq!(trimmed[1], "\u{2502} <b>a</b> \u{2502} <b>b</b> \u{2502}");
    assert_eq!(trimmed[2], "\u{251c}\u{2500}\u{2500}\u{2500}\u{253c}\u{2500}\u{2500}\u{2500}\u{2524}");
    assert_eq!(trimmed[3], "\u{2502} c \u{2502} d \u{2502}");
    assert_eq!(trimmed[4], "\u{2514}\u{2500}\u{2500}\u{2500}\u{2534}\u{2500}\u{2500}\u{2500}\u{2518}");
}

#[test]
fn blank_markdown_renders_nothing_and_padding_frames_lines() {
    let mut blank = Markdown::new("  \n\t", 1, 1, theme(), None);
    assert!(blank.render(10).is_empty());
    let mut padded = Markdown::new("hi", 1, 1, theme(), None);
    assert_eq!(padded.render(6), vec!["      ", " hi   ", "      "]);
}

#[test]
fn ordered_list_and_code_block_render() {
    let mut markdown = Markdown::new("3. a\n4. b\n\n```rs\nx\n```", 0, 0, theme(), None);
    let lines = markdown.render(40);
    assert_eq!(lines[0].trim_end(), "<b>3. </b>a");
    assert_eq!(lines[1].trim_end(), "<b>4. </b>b");
    assert!(lines.iter().any(|l| l.trim_end() == "<cb>```rs</cb>"));
    assert!(lines.iter().any(|l| l.trim_end() == "  <code>x</code>"));
}

#[test]
fn table_widths_fit_or_shrink() {
    assert_eq!(table_column_widths(&[1, 1], &[1, 1], 80), vec![1, 1]);
    assert_eq!(table_column_widths(&[0, 3], &[1, 3], 80), vec![1, 3]);
    let widths = table_column_widths(&[20, 20], &[5, 5], 17);
    assert_eq!(widths.iter().sum::<usize>(), 10);
    assert_eq!(widths, vec![5, 5]);
    let shrunk = table_column_widths(&[30, 30], &[30, 30], 15);
    assert_eq!(shrunk.iter().sum::<usize>(), 8);
}

#[test]
fn layout_helpers_match_their_rules() {
    let source: Vec<char> = "a\n\nb".chars().collect();
    assert!(has_blank_line_between(&source, 1, 3));
    assert!(!has_blank_line_between(&source, 1, 2));
    assert!(is_image_line("xx\x1b_Gabc"));
    assert!(!is_image_line("plain"));
    assert!(is_nested_list_line("  \x1b[36m- x"));
    assert!(!is_nested_list_line("- x"));
    assert_eq!(style_prefix("<b>\0</b>"), "<b>");
    assert_eq!(style_prefix("none"), "");
    assert_eq!(border_line(&[1, 2], 'a', 'b', 'c'), "a\u{2500}\u{2500}\u{2500}b\u{2500}\u{2500}\u{2500}\u{2500}c");
    assert_eq!(row_line(&["x".to_string(), "y".to_string()]), "\u{2502} x \u{2502} y \u{2502}");
}

#[test]
fn heading_and_paragraph_render_from_their_plain_text() {
    let mut m = Markdown::new("# Title\nParagraph", 0, 0, theme(), None);
    let lines = m.render(40);
    assert_eq!(lines.len(), 3);
    assert_eq!(lines[0].trim_end(), "<h><b><u>Title</u></b></h>");
    assert_eq!(lines[1], " ".repeat(40));
    assert_eq!(lines[2], format!("Paragraph{}", " ".repeat(31)));
    let mut deeper = Markdown::new("### Three", 0, 0, theme(), None);
    assert_eq!(deeper.render(40)[0].trim_end(), "<h><b>### Three</b></h>");
}

#[test]
fn code_blocks_and_rules_render_their_exact_lines() {
    let mut code = Markdown::new("```rs\nx\ny\n```", 0, 0, theme(), None);
    let lines: Vec<String> = code.render(30).iter().map(|l| l.trim_end().to_string()).collect();
    assert_eq!(lines, vec!["<cb>```rs</cb>", "  <code>x</code>", "  <code>y</code>", "<cb>```</cb>", ""]);
    let mut plain_rule = theme();
    plain_rule.hr = wrap("", "");
    let mut rule = Markdown::new("---", 0, 0, plain_rule, None);
    let lines = rule.render(12);
    assert_eq!(lines[0], "─".repeat(12));
    let mut wide = Markdown::new("---", 0, 0, theme(), None);
    assert_eq!(wide.render(100)[0].trim_end(), format!("<hr>{}</hr>", "─".repeat(80)));
}

#[test]
fn plain_tables_draw_every_row_between_borders() {
    let mut table = Markdown::new("| a | b |\n| - | - |\n| c | d |\n| e | f |", 0, 0, theme(), None);
    let lines: Vec<String> = table.render(40).iter().map(|l| l.trim_end().to_string()).collect();
    assert_eq!(
        lines,
        vec![
            "┌───┬───┐",
            "│ <b>a</b> │ <b>b</b> │",
            "├───┼───┤",
            "│ c │ d │",
            "├───┼───┤",
            "│ e │ f │",
            "└───┴───┘",
            "",
        ]
    );
}

#[test]
fn rendering_twice_gives_the_same_lines() {
    let mut m = Markdown::new("**bold** and `code`\n\n> quoted", 1, 1, theme(), None);
    let first = m.render(30);
    let second = m.render(30);
    assert_eq!(first, second);
    let mut link = Markdown::new("[docs](https://x.y) after", 0, 0, theme(), None);
    assert_eq!(link.render(80)[0].trim_end(), "<l><u>docs</u></l><u> (https://x.y)</u> after");
}
