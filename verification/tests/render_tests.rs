use gherkin_to_markdown::markdown_formatter;
use gherkin_to_markdown::parser::parse_input;
use gherkin_to_markdown::render::parse_render_format;
use gherkin_to_markdown::render::render;
use gherkin_to_markdown::render::RenderFormat;
use gherkin_to_markdown::youtrack_formatter;

#[test]
fn selector_markdown_is_recognized() {
    assert_eq!(parse_render_format("markdown"), Some(RenderFormat::Markdown));
}

#[test]
fn selector_youtrack_is_recognized() {
    assert_eq!(parse_render_format("youtrack"), Some(RenderFormat::Youtrack));
}

#[test]
fn unknown_selector_is_rejected() {
    assert_eq!(parse_render_format("html"), None);
    assert_eq!(parse_render_format(""), None);
    assert_eq!(parse_render_format("Markdown"), None);
}

#[test]
fn render_dispatches_to_selected_dialect() {
    let features = parse_input("Feature: f\nScenario: s\nGiven A\n");
    assert_eq!(
        render(RenderFormat::Markdown, &features),
        markdown_formatter::format(&features)
    );
    assert_eq!(
        render(RenderFormat::Youtrack, &features),
        youtrack_formatter::format(&features)
    );
}
