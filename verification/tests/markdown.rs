use crown::highlight::{ascii_lowercase_of, highlight_code_to_lines, syn_style_of, syntax_token_of, SynStyle};
use crown::markdown::{
    code_blocks_of, flatten_line, render_events, render_markdown, slice_line_spans, word_wrap_line_with_indent, MdColor,
    MdEvent, MdLine, MdSpan, MdStyle, MdTag, MdTagEnd,
};

fn line_text(l: &MdLine) -> String {
    l.spans.iter().map(|s| s.content.as_str()).collect()
}

fn all_text(lines: &[MdLine]) -> String {
    lines.iter().flat_map(|l| l.spans.iter()).map(|s| s.content.as_str()).collect::<Vec<_>>().join("")
}

fn texts(lines: &[MdLine]) -> Vec<String> {
    lines.iter().map(line_text).collect()
}

fn raw_line(s: &str) -> MdLine {
    MdLine { spans: vec![MdSpan { content: s.to_string(), style: MdStyle::plain() }], style: MdStyle::plain() }
}

fn fg(c: MdColor) -> MdStyle {
    MdStyle { fg: Some(c), ..MdStyle::plain() }
}

fn plain_span(s: &str) -> MdSpan {
    MdSpan { content: s.to_string(), style: MdStyle::plain() }
}

#[test]
fn test_render_empty() {
    let lines = render_markdown("", 80);
    assert_eq!(lines.len(), 1);
}

#[test]
fn test_render_plain_text() {
    let lines = render_markdown("hello world", 80);
    assert_eq!(lines.len(), 1);
    let text = line_text(&lines[0]);
    assert_eq!(text, "hello world");
}

#[test]
fn test_render_heading_h1() {
    let lines = render_markdown("# Hello", 80);
    assert!(!lines.is_empty());
    let text = line_text(&lines[0]);
    assert!(text.contains("#"));
    assert!(text.contains("Hello"));
    assert!(lines[0].spans[0].style.bold);
}

#[test]
fn test_render_heading_h2() {
    let lines = render_markdown("## World", 80);
    assert!(!lines.is_empty());
    let text = line_text(&lines[0]);
    assert!(text.contains("##"));
    assert!(text.contains("World"));
    assert!(lines[0].spans[0].style.bold);
}

#[test]
fn test_render_bold() {
    let lines = render_markdown("**bold**", 80);
    assert!(!lines.is_empty());
    let found_bold = lines[0].spans.iter().any(|s| s.content.contains("bold") && s.style.bold);
    assert!(found_bold);
}

#[test]
fn test_render_italic() {
    let lines = render_markdown("*italic*", 80);
    assert!(!lines.is_empty());
    let found_italic = lines[0].spans.iter().any(|s| s.content.contains("italic") && s.style.italic);
    assert!(found_italic);
}

#[test]
fn test_render_inline_code() {
    let lines = render_markdown("`code`", 80);
    assert!(!lines.is_empty());
    let found_code = lines[0].spans.iter().any(|s| s.content.contains("code") && s.style.fg == Some(MdColor::Cyan));
    assert!(found_code);
}

#[test]
fn test_render_code_block_no_lang() {
    let source = "```\nlet x = 1;\n```";
    let lines = render_markdown(source, 80);
    assert!(!lines.is_empty());
    assert!(all_text(&lines).contains("let x = 1;"));
}

#[test]
fn test_render_code_block_with_lang() {
    let source = "```rust\nlet x = 1;\n```";
    let lines = render_markdown(source, 80);
    assert!(!lines.is_empty());
    assert!(all_text(&lines).contains("let x = 1;"));
}

#[test]
fn test_render_unordered_list() {
    let source = "- item 1\n- item 2\n- item 3";
    let lines = render_markdown(source, 80);
    assert!(lines.len() >= 3);
    let all = all_text(&lines);
    assert!(all.contains("item 1"));
    assert!(all.contains("item 2"));
    assert!(all.contains("item 3"));
}

#[test]
fn test_render_ordered_list() {
    let source = "1. first\n2. second\n3. third";
    let lines = render_markdown(source, 80);
    assert!(lines.len() >= 3);
    let all = all_text(&lines);
    assert!(all.contains("first"));
    assert!(all.contains("second"));
    assert!(all.contains("third"));
}

#[test]
fn test_render_blockquote() {
    let source = "> quote text";
    let lines = render_markdown(source, 80);
    assert!(!lines.is_empty());
    let all = all_text(&lines);
    assert!(all.contains(">"));
    assert!(all.contains("quote text"));
}

#[test]
fn test_render_link() {
    let source = "[text](http://example.com)";
    let lines = render_markdown(source, 80);
    assert!(!lines.is_empty());
    let all = all_text(&lines);
    assert!(all.contains("text"));
    assert!(all.contains("http://example.com"));
}

#[test]
fn test_render_rule() {
    let source = "---";
    let lines = render_markdown(source, 80);
    assert!(!lines.is_empty());
    assert!(all_text(&lines).contains("---"));
}

#[test]
fn test_render_strikethrough() {
    let lines = render_markdown("~~deleted~~", 80);
    assert!(!lines.is_empty());
    let found_strike = lines[0].spans.iter().any(|s| s.content.contains("deleted") && s.style.crossed_out);
    assert!(found_strike);
}

#[test]
fn test_render_empty_input() {
    let lines = render_markdown("", 80);
    assert_eq!(lines.len(), 1);
    assert!(lines[0].spans.is_empty());
}

#[test]
fn test_word_wrap_line() {
    let line = raw_line("hello world this is a test");
    let wrapped = word_wrap_line_with_indent(&line, 10, &vec![], &vec![]);
    assert!(wrapped.len() > 1);
}

#[test]
fn test_word_wrap_preserves_styles() {
    let line = MdLine {
        spans: vec![
            MdSpan { content: "hello ".to_string(), style: fg(MdColor::Red) },
            MdSpan { content: "world this is a test".to_string(), style: fg(MdColor::Blue) },
        ],
        style: MdStyle::plain(),
    };
    let wrapped = word_wrap_line_with_indent(&line, 10, &vec![], &vec![]);
    assert!(wrapped.len() > 1);
    let first_line_text = line_text(&wrapped[0]);
    assert!(first_line_text.starts_with("hello"));
}

#[test]
fn test_flatten_and_slice() {
    let line = MdLine {
        spans: vec![
            MdSpan { content: "hello ".to_string(), style: fg(MdColor::Red) },
            MdSpan { content: "world".to_string(), style: fg(MdColor::Blue) },
        ],
        style: MdStyle::plain(),
    };
    let (flat, bounds) = flatten_line(&line);
    assert_eq!(flat, "hello world");
    assert_eq!(bounds.len(), 2);
    assert_eq!((bounds[0].0, bounds[0].1), (0, 6));
    assert_eq!((bounds[1].0, bounds[1].1), (6, 11));

    let sliced = slice_line_spans(&line, &bounds, 0, 5);
    assert_eq!(sliced.spans.len(), 1);
    assert_eq!(sliced.spans[0].content, "hello");
}

#[test]
fn test_nested_styles() {
    let source = "**bold *and italic***";
    let lines = render_markdown(source, 80);
    assert!(!lines.is_empty());
}

#[test]
fn test_mixed_content() {
    let source = "# Title\n\nSome **bold** and *italic* text.\n\n```\ncode block\n```\n\n- list item";
    let lines = render_markdown(source, 80);
    assert!(lines.len() > 5);
}

#[test]
fn test_long_line_wraps() {
    let source = "This is a very long line that should definitely wrap when the width is limited to something reasonable like 40 columns.";
    let lines = render_markdown(source, 40);
    assert!(lines.len() > 1);
}

#[test]
fn test_cjk_text() {
    let source = "这是一段中文文本，用于测试CJK字符在Markdown渲染中的宽度处理。";
    let lines = render_markdown(source, 30);
    assert!(lines.len() >= 1);
}

#[test]
fn test_streaming_cursor() {
    let mut source = "hello".to_string();
    source.push('\u{258C}');
    let lines = render_markdown(&source, 80);
    assert!(!lines.is_empty());
    assert!(all_text(&lines).contains('\u{258C}'));
}

#[test]
fn test_list_items_no_indent_accumulation() {
    let source = "- item 1\n- item 2\n- item 3";
    let lines = render_markdown(source, 80);
    assert!(lines.len() >= 3);
    let first = line_text(&lines[0]);
    let second = line_text(&lines[1]);
    let first_marker = first.find("- ").unwrap_or(0);
    let second_marker = second.find("- ").unwrap_or(0);
    assert_eq!(first_marker, second_marker, "list markers should align");
}

#[test]
fn test_ordered_list_no_indent_accumulation() {
    let source = "1. first\n2. second\n3. third";
    let lines = render_markdown(source, 80);
    assert!(lines.len() >= 3);
    let first = line_text(&lines[0]);
    let second = line_text(&lines[1]);
    let first_marker = first.find(". ").unwrap_or(0);
    let second_marker = second.find(". ").unwrap_or(0);
    assert_eq!(first_marker, second_marker, "ordered list markers should align");
}

#[test]
fn test_heading_after_list_no_indent() {
    let source = "- item 1\n- item 2\n\n## Heading";
    let lines = render_markdown(source, 80);
    let heading_line = lines.iter().find(|l| l.spans.iter().any(|s| s.content.contains("Heading")));
    assert!(heading_line.is_some(), "heading should be present");
    let heading = line_text(heading_line.unwrap());
    assert!(!heading.starts_with("    "), "heading should not have list indent, got: {:?}", heading);
}

#[test]
fn test_continuation_indent() {
    let source = "- This is a long list item text that should wrap to multiple lines at width 30";
    let lines = render_markdown(source, 30);
    assert!(lines.len() > 1, "long list item should wrap, got {} lines", lines.len());
    let second = line_text(&lines[1]);
    assert!(second.starts_with("  "), "continuation line should be indented, got: {:?}", second);
}

#[test]
fn test_word_wrap_with_indent() {
    let line = raw_line("hello world foo bar baz qux");
    let initial = vec![plain_span("  - ")];
    let subsequent = vec![plain_span("    ")];
    let wrapped = word_wrap_line_with_indent(&line, 15, &initial, &subsequent);
    assert!(wrapped.len() > 1);
    let first = line_text(&wrapped[0]);
    assert!(first.starts_with("  - "), "first line should start with marker: {:?}", first);
    let second = line_text(&wrapped[1]);
    assert!(second.starts_with("    "), "continuation should have indent: {:?}", second);
}

// ---------------------------------------------------------------------
// Exact renderings
// ---------------------------------------------------------------------

#[test]
fn bulleted_list_lines_exactly() {
    let lines = render_markdown("- item 1\n- item 2", 80);
    assert_eq!(texts(&lines), vec!["- item 1", "- item 2"]);
}

#[test]
fn numbered_list_starts_at_given_number() {
    let lines = render_markdown("3. c\n4. d", 80);
    assert_eq!(texts(&lines), vec!["3. c", "4. d"]);
    assert_eq!(lines[0].spans[0].style.fg, Some(MdColor::LightBlue));
}

#[test]
fn nested_list_marker_is_indented() {
    let lines = render_markdown("- a\n  - b", 80);
    assert_eq!(texts(&lines), vec!["- a", "    - b"]);
}

#[test]
fn quote_lines_have_prefix_and_quote_colour() {
    let lines = render_markdown("> quote text", 80);
    assert_eq!(texts(&lines), vec!["> quote text"]);
    assert_eq!(lines[0].style.fg, Some(MdColor::Green));
}

#[test]
fn heading_styles_by_level() {
    let h1 = render_markdown("# A", 80);
    assert_eq!(texts(&h1), vec!["# A"]);
    assert!(h1[0].spans[0].style.bold && h1[0].spans[0].style.underlined);
    let h3 = render_markdown("### C", 80);
    assert!(h3[0].spans[1].style.bold && h3[0].spans[1].style.italic);
    let h5 = render_markdown("##### E", 80);
    assert!(h5[0].spans[0].style.italic && !h5[0].spans[0].style.bold);
}

#[test]
fn paragraphs_are_separated_by_a_blank_line() {
    let lines = render_markdown("one\n\ntwo", 80);
    assert_eq!(texts(&lines), vec!["one", "", "two"]);
}

#[test]
fn link_destination_follows_in_parentheses() {
    let lines = render_markdown("[text](http://example.com)", 80);
    assert_eq!(texts(&lines), vec!["text (http://example.com)"]);
    let dest = &lines[0].spans[1];
    assert_eq!(dest.style.fg, Some(MdColor::Cyan));
    assert!(dest.style.underlined);
}

#[test]
fn code_block_without_language_is_indented_in_code_style() {
    let fenced = render_markdown("```\nlet x = 1;\n```", 80);
    assert_eq!(texts(&fenced), vec!["  let x = 1;"]);
    let indented = render_markdown("    let x = 1;", 80);
    assert_eq!(texts(&indented), vec!["  let x = 1;"]);
    assert_eq!(indented[0].spans[1].style.fg, Some(MdColor::Cyan));
}

#[test]
fn code_block_with_language_is_highlighted() {
    let lines = render_markdown("```rust\nfn main() {}\n```", 80);
    assert_eq!(texts(&lines), vec!["  fn main() {}"]);
    assert!(lines[0].spans.len() > 2, "highlighted code comes in several styled spans");
}

#[test]
fn rule_after_text_is_separated() {
    let lines = render_markdown("a\n\n---", 80);
    assert_eq!(texts(&lines), vec!["a", "", "---"]);
}

#[test]
fn soft_break_starts_a_new_line() {
    let lines = render_markdown("a\nb", 80);
    assert_eq!(texts(&lines), vec!["a", "b"]);
}

#[test]
fn events_render_without_parsing() {
    let events = vec![
        MdEvent::Start(MdTag::Paragraph),
        MdEvent::Text("hi ".to_string()),
        MdEvent::Start(MdTag::Strong),
        MdEvent::Text("there".to_string()),
        MdEvent::End(MdTagEnd::Strong),
        MdEvent::End(MdTagEnd::Paragraph),
    ];
    let lines = render_events(&events, 80, &vec![]);
    assert_eq!(texts(&lines), vec!["hi there"]);
    assert!(!lines[0].spans[0].style.bold);
    assert!(lines[0].spans[1].style.bold);
}

#[test]
fn events_use_given_highlights_in_order() {
    let events = vec![
        MdEvent::Start(MdTag::CodeBlock(Some("x".to_string()))),
        MdEvent::Text("a\n".to_string()),
        MdEvent::End(MdTagEnd::CodeBlock),
    ];
    let hl = vec![vec![MdLine { spans: vec![MdSpan { content: "A".to_string(), style: fg(MdColor::Red) }], style: MdStyle::plain() }]];
    let lines = render_events(&events, 80, &hl);
    assert_eq!(texts(&lines), vec!["  A"]);
    let fallback = render_events(&events, 80, &vec![]);
    assert_eq!(texts(&fallback), vec!["  a"]);
}

#[test]
fn code_blocks_listed_for_highlighting() {
    let events = vec![
        MdEvent::Start(MdTag::CodeBlock(Some("rust".to_string()))),
        MdEvent::Text("let a = 1;\n".to_string()),
        MdEvent::End(MdTagEnd::CodeBlock),
        MdEvent::Start(MdTag::CodeBlock(None)),
        MdEvent::Text("plain\n".to_string()),
        MdEvent::End(MdTagEnd::CodeBlock),
        MdEvent::Start(MdTag::CodeBlock(Some("py".to_string()))),
        MdEvent::End(MdTagEnd::CodeBlock),
    ];
    let blocks = code_blocks_of(&events);
    assert_eq!(blocks, vec![("rust".to_string(), "let a = 1;\n".to_string())]);
}

#[test]
fn wrap_exact_pieces() {
    let line = raw_line("hello world foo");
    let wrapped = word_wrap_line_with_indent(&line, 11, &vec![], &vec![]);
    assert_eq!(texts(&wrapped), vec!["hello world", "foo"]);
    let whole = word_wrap_line_with_indent(&line, 0, &vec![], &vec![]);
    assert_eq!(texts(&whole), vec!["hello world foo"]);
}

// ---------------------------------------------------------------------
// Highlighting
// ---------------------------------------------------------------------

#[test]
fn language_aliases() {
    assert_eq!(syntax_token_of("CSharp"), "c#");
    assert_eq!(syntax_token_of("golang"), "go");
    assert_eq!(syntax_token_of("Python3"), "python");
    assert_eq!(syntax_token_of("shell"), "bash");
    assert_eq!(syntax_token_of("ixx"), "cpp");
    assert_eq!(syntax_token_of("Rust"), "Rust");
    assert_eq!(ascii_lowercase_of("AbÇ-Z"), "abÇ-z");
}

#[test]
fn highlight_styles_from_colours() {
    let palette = syn_style_of(SynStyle { r: 2, g: 0, b: 0, a: 0, font: 0 });
    assert_eq!(palette.fg, Some(MdColor::Green));
    let indexed = syn_style_of(SynStyle { r: 42, g: 0, b: 0, a: 0, font: 1 });
    assert_eq!(indexed.fg, Some(MdColor::Indexed(42)));
    assert!(indexed.bold);
    let default = syn_style_of(SynStyle { r: 9, g: 9, b: 9, a: 1, font: 4 });
    assert_eq!(default.fg, None);
    assert!(!default.bold);
    let rgb = syn_style_of(SynStyle { r: 1, g: 2, b: 3, a: 255, font: 0 });
    assert_eq!(rgb.fg, Some(MdColor::Rgb(1, 2, 3)));
}

#[test]
fn highlight_fallbacks() {
    let empty = highlight_code_to_lines("", "rust");
    assert_eq!(empty.len(), 1);
    assert!(empty[0].spans.is_empty());
    let unknown = highlight_code_to_lines("a\n\nb", "no-such-language-xyz");
    assert_eq!(texts(&unknown), vec!["a", "", "b"]);
    assert!(unknown[1].spans.is_empty());
    let known = highlight_code_to_lines("let x = 1;\n", "rust");
    assert_eq!(texts(&known), vec!["let x = 1;"]);
    assert!(known[0].spans.iter().all(|s| s.style.fg.is_some()));
}
