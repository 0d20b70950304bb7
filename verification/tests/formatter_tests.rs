use gherkin_to_markdown::markdown_formatter;
use gherkin_to_markdown::parser::parse_input;
use gherkin_to_markdown::parser::Feature;
use gherkin_to_markdown::parser::Scenario;
use gherkin_to_markdown::parser::Step;
use gherkin_to_markdown::youtrack_formatter;

fn sample_feature(with_quote: bool) -> Feature {
    let middle = if with_quote {
        "When I insert \"B\" into field"
    } else {
        "When B"
    };
    Feature {
        name: Some("Some feature".to_string()),
        description: None,
        scenarios: vec![
            Scenario {
                name: "Some scenario".to_string(),
                steps: vec![
                    Step::from_line("Given A"),
                    Step::from_line(middle),
                    Step::from_line("Then C"),
                ],
            },
            Scenario {
                name: "Some other scenario".to_string(),
                steps: vec![
                    Step::from_line("Given A"),
                    Step::from_line("When B"),
                    Step::from_line("Then C"),
                ],
            },
        ],
    }
}

#[test]
fn markdown_formatter_test_output() {
    let feature = sample_feature(false);
    assert_eq!(
        feature.to_markdown(),
        "## Some feature\n\n- [ ] Some scenario\n```\nGiven A\nWhen B\nThen C\n```\n\n- [ ] Some other scenario\n```\nGiven A\nWhen B\nThen C\n```\n"
    );
}

#[test]
fn youtrack_formatter_test_output() {
    let feature = sample_feature(true);
    assert_eq!(
        feature.to_yt(),
        r#"## Some feature
- [ ] Some scenario
<pre style="padding-top: 10px; padding-bottom: 10px; margin-bottom: 20px"><span style="color: darkorange">Given</span> A
<span style="color: darkorange">When</span> I insert <span style="color: dodgerblue">"B"</span> into field
<span style="color: darkorange">Then</span> C</pre>

- [ ] Some other scenario
<pre style="padding-top: 10px; padding-bottom: 10px; margin-bottom: 20px"><span style="color: darkorange">Given</span> A
<span style="color: darkorange">When</span> B
<span style="color: darkorange">Then</span> C</pre>"#
    );
}

#[test]
fn gherkin_to_youtrack_test_output() {
    let feature = sample_feature(false);
    assert_eq!(
        feature.to_yt(),
        r#"## Some feature
- [ ] Some scenario
<pre style="padding-top: 10px; padding-bottom: 10px; margin-bottom: 20px"><span style="color: darkorange">Given</span> A
<span style="color: darkorange">When</span> B
<span style="color: darkorange">Then</span> C</pre>

- [ ] Some other scenario
<pre style="padding-top: 10px; padding-bottom: 10px; margin-bottom: 20px"><span style="color: darkorange">Given</span> A
<span style="color: darkorange">When</span> B
<span style="color: darkorange">Then</span> C</pre>"#
    );
}

#[test]
fn markdown_format_joins_features_with_blank_line() {
    let features = parse_input("Feature: one\nScenario: a\nGiven A\n\nFeature: two\nScenario: b\nWhen B\n");
    let output = markdown_formatter::format(&features);
    assert_eq!(
        output,
        "## one\n\n- [ ] a\n```\nGiven A\n```\n\n\n## two\n\n- [ ] b\n```\nWhen B\n```\n"
    );
}

#[test]
fn markdown_headerless_feature_has_no_heading() {
    let features = parse_input("Scenario: bare\nGiven A\n");
    let output = markdown_formatter::format(&features);
    assert_eq!(output, "- [ ] bare\n```\nGiven A\n```\n");
}

#[test]
fn youtrack_step_highlights_quoted_substring() {
    let step = Step::from_line("When I insert \"B\" into field");
    assert_eq!(
        step.to_yt(),
        r#"<span style="color: darkorange">When</span> I insert <span style="color: dodgerblue">"B"</span> into field"#
    );
}

#[test]
fn youtrack_step_highlights_each_quoted_substring() {
    let step = Step::from_line("When \"a\" meets \"b\"");
    assert_eq!(
        step.to_yt(),
        r#"<span style="color: darkorange">When</span> <span style="color: dodgerblue">"a"</span> meets <span style="color: dodgerblue">"b"</span>"#
    );
}

#[test]
fn youtrack_step_leaves_unclosed_quote_unchanged() {
    let step = Step::from_line("When \"B is left open");
    assert_eq!(
        step.to_yt(),
        r#"<span style="color: darkorange">When</span> "B is left open"#
    );
}

#[test]
fn youtrack_format_joins_features_with_blank_line() {
    let features = parse_input("Feature: one\nScenario: a\nGiven A\n\nFeature: two\nScenario: b\nWhen B\n");
    let output = youtrack_formatter::format(&features);
    assert_eq!(
        output,
        "## one\n- [ ] a\n<pre style=\"padding-top: 10px; padding-bottom: 10px; margin-bottom: 20px\"><span style=\"color: darkorange\">Given</span> A</pre>\n\n## two\n- [ ] b\n<pre style=\"padding-top: 10px; padding-bottom: 10px; margin-bottom: 20px\"><span style=\"color: darkorange\">When</span> B</pre>"
    );
}

#[test]
fn markdown_fenced_steps_reparse_to_same_steps() {
    let input = "Feature: f\nScenario: s\nGiven A\nWhen I insert B\nC\nThen D\n";
    let features = parse_input(input);
    let scenario = &features[0].scenarios[0];
    let rendered = scenario.to_markdown();
    let fence_start = rendered.find("```\n").expect("opening fence");
    let body = &rendered[fence_start + 4..];
    let fence_end = body.find("\n```").expect("closing fence");
    let block = &body[..fence_end];
    let reparsed: Vec<Step> = block
        .lines()
        .map(str::trim)
        .filter(|l| !l.is_empty())
        .map(Step::from_line)
        .collect();
    assert_eq!(reparsed.len(), scenario.steps.len());
    for (old, new) in scenario.steps.iter().zip(reparsed.iter()) {
        assert_eq!(old.keyword, new.keyword);
        assert_eq!(old.description, new.description);
    }
}
