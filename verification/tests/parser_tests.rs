use gherkin_to_markdown::parser::parse_feature;
use gherkin_to_markdown::parser::parse_input;
use gherkin_to_markdown::parser::parse_scenario;
use gherkin_to_markdown::parser::Step;

const TEST_INPUT: &str = "Feature: feature name\nThis is the feature description.\nIt may span multiple lines, but it is not required.\n\nScenario: scenario name\nGiven A\nWhen B\nThen C\n\nScenario: another scenario\nGiven A\nWhen B\nAnd D\nThen C\n";

#[test]
fn test_parse_input() {
    let features = parse_input(TEST_INPUT);
    assert_eq!(features.len(), 1);
    let feature = &features[0];
    assert_eq!(feature.name, Some("feature name".to_string()));
    assert_eq!(
        feature.description,
        Some("This is the feature description.\nIt may span multiple lines, but it is not required.".to_string())
    );
    let scenario = &feature.scenarios[0];
    assert_eq!(scenario.name, "scenario name");
    let steps = &scenario.steps;
    assert_eq!(steps.len(), 3);

    let scenario_2 = &feature.scenarios[1];
    assert_eq!(scenario_2.name, "another scenario");
    let steps = &scenario_2.steps;
    assert_eq!(steps.len(), 4);
}

#[test]
fn step_with_space_splits_at_first_space() {
    let step = Step::from_line("Given A");
    assert_eq!(step.keyword, "Given");
    assert_eq!(step.description, "A");
}

#[test]
fn step_without_space_has_empty_keyword() {
    let step = Step::from_line("A");
    assert_eq!(step.keyword, "");
    assert_eq!(step.description, "A");
}

#[test]
fn step_splits_only_at_first_space() {
    let step = Step::from_line("When I insert B");
    assert_eq!(step.keyword, "When");
    assert_eq!(step.description, "I insert B");
}

#[test]
fn step_to_text_reconstructs_line() {
    let step = Step::from_line("Given A");
    assert_eq!(step.to_text(), "Given A");
    let bare = Step::from_line("A");
    assert_eq!(bare.to_text(), " A");
}

#[test]
fn empty_input_yields_one_unnamed_feature() {
    let features = parse_input("");
    assert_eq!(features.len(), 1);
    assert_eq!(features[0].name, None);
    assert_eq!(features[0].description, None);
    assert_eq!(features[0].scenarios.len(), 0);
}

#[test]
fn headerless_input_yields_one_unnamed_feature() {
    let features = parse_input("Scenario: only one\nGiven A\nThen B\n");
    assert_eq!(features.len(), 1);
    assert_eq!(features[0].name, None);
    let scenarios = &features[0].scenarios;
    assert_eq!(scenarios.len(), 1);
    assert_eq!(scenarios[0].name, "only one");
    assert_eq!(scenarios[0].steps.len(), 2);
}

#[test]
fn feature_header_without_space_has_absent_name() {
    let features = parse_input("Feature:\nScenario: x\nGiven A\n");
    assert_eq!(features.len(), 1);
    assert_eq!(features[0].name, None);
    assert_eq!(features[0].scenarios.len(), 1);
}

#[test]
fn scenario_with_only_blank_lines_has_no_steps() {
    let features = parse_input("Feature: f\nScenario: empty\n\n   \n\t\n");
    assert_eq!(features.len(), 1);
    let scenarios = &features[0].scenarios;
    assert_eq!(scenarios.len(), 1);
    assert_eq!(scenarios[0].name, "empty");
    assert_eq!(scenarios[0].steps.len(), 0);
}

#[test]
fn features_and_scenarios_keep_source_order() {
    let input = "Feature: zebra\nScenario: zulu\nGiven Z\nScenario: alpha\nGiven A\n\nFeature: aardvark\nScenario: bravo\nGiven B\n";
    let features = parse_input(input);
    assert_eq!(features.len(), 2);
    assert_eq!(features[0].name, Some("zebra".to_string()));
    assert_eq!(features[1].name, Some("aardvark".to_string()));
    let scenarios = &features[0].scenarios;
    assert_eq!(scenarios.len(), 2);
    assert_eq!(scenarios[0].name, "zulu");
    assert_eq!(scenarios[1].name, "alpha");
    assert_eq!(features[1].scenarios.len(), 1);
    assert_eq!(features[1].scenarios[0].name, "bravo");
}

#[test]
fn description_keeps_only_nonblank_lines_trimmed() {
    let input = "Feature: f\n\n  first line  \n\n\tsecond line\n\nScenario: s\nGiven A\n";
    let features = parse_input(input);
    assert_eq!(
        features[0].description,
        Some("first line\nsecond line".to_string())
    );
}

#[test]
fn feature_with_no_description_lines_has_absent_description() {
    let features = parse_input("Feature: f\nScenario: s\nGiven A\n");
    assert_eq!(features[0].description, None);
}

#[test]
fn header_prefix_is_stripped_only_at_line_start() {
    let features = parse_input("Feature: about Feature: lines\nScenario: do Scenario: twice\nGiven A\n");
    assert_eq!(features[0].name, Some("about Feature: lines".to_string()));
    assert_eq!(features[0].scenarios[0].name, "do Scenario: twice");
}

#[test]
fn text_before_first_feature_header_is_dropped() {
    let features = parse_input("stray preamble\nFeature: f\nScenario: s\nGiven A\n");
    assert_eq!(features.len(), 1);
    assert_eq!(features[0].name, Some("f".to_string()));
    assert_eq!(features[0].description, None);
}

#[test]
fn parse_scenario_takes_header_and_body() {
    let block: Vec<String> = vec![
        "Scenario: direct".to_string(),
        "Given A".to_string(),
        "".to_string(),
        "Then B".to_string(),
    ];
    let scenario = parse_scenario(&block);
    assert_eq!(scenario.name, "direct");
    assert_eq!(scenario.steps.len(), 2);
    assert_eq!(scenario.steps[0].keyword, "Given");
    assert_eq!(scenario.steps[1].description, "B");
}

#[test]
fn parse_feature_collects_description_and_scenarios() {
    let block: Vec<String> = vec![
        "Feature: direct".to_string(),
        "a description".to_string(),
        "Scenario: s1".to_string(),
        "Given A".to_string(),
        "Scenario: s2".to_string(),
        "When B".to_string(),
    ];
    let feature = parse_feature(Some("direct".to_string()), &block);
    assert_eq!(feature.name, Some("direct".to_string()));
    assert_eq!(feature.description, Some("a description".to_string()));
    assert_eq!(feature.scenarios.len(), 2);
    assert_eq!(feature.scenarios[0].name, "s1");
    assert_eq!(feature.scenarios[1].name, "s2");
}

#[test]
fn lines_without_final_newline_still_count() {
    let features = parse_input("Feature: f\nScenario: s\nGiven A");
    assert_eq!(features[0].scenarios[0].steps.len(), 1);
    assert_eq!(features[0].scenarios[0].steps[0].description, "A");
}

#[test]
fn carriage_return_line_endings_are_handled() {
    let features = parse_input("Feature: f\r\nScenario: s\r\nGiven A\r\n");
    assert_eq!(features[0].name, Some("f".to_string()));
    assert_eq!(features[0].scenarios[0].name, "s");
    assert_eq!(features[0].scenarios[0].steps[0].keyword, "Given");
    assert_eq!(features[0].scenarios[0].steps[0].description, "A");
}
