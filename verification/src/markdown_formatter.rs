//! The Markdown renderer: each feature name becomes a level-2 heading, each
//! scenario a checklist line followed by a fenced block of its step lines.

use vstd::prelude::*;

use crate::parser::Feature;
use crate::parser::FeatureView;
use crate::parser::Scenario;
use crate::parser::ScenarioView;
use crate::parser::StepView;
use crate::parser::features_view;
use crate::parser::step_text;
use crate::text::join_strs;
use crate::text::join_with;

verus! {

/// The Markdown rendering of one scenario: a checklist line with its name,
/// then its step lines inside a fenced code block.
pub open spec fn md_scenario(sc: ScenarioView) -> Seq<char> {
    "- [ ] "@ + sc.name + "\n```\n"@ + join_with(
        sc.steps.map_values(|st: StepView| step_text(st)),
        seq!['\n'],
    ) + "\n```\n"@
}

/// The Markdown rendering of one feature: a level-2 heading with its name
/// (omitted when the name is absent), a blank line, then its scenario
/// renderings joined by newlines.
pub open spec fn md_feature(f: FeatureView) -> Seq<char> {
    let scens = join_with(f.scenarios.map_values(|sc: ScenarioView| md_scenario(sc)), seq!['\n']);
    match f.name {
        Some(name) => "## "@ + name + "\n\n"@ + scens,
        None => scens,
    }
}

/// The Markdown rendering of a sequence of features, joined by blank lines.
pub open spec fn md_output(fs: Seq<FeatureView>) -> Seq<char> {
    join_with(fs.map_values(|f: FeatureView| md_feature(f)), seq!['\n', '\n'])
}

/// Round trip through the Markdown fenced block. The text a scenario's steps
/// render into its fenced code block is their step lines joined by newlines
/// (see [`md_scenario`]); splitting that text back into lines and parsing
/// them as a scenario body — trim each line, drop blanks, split each at the
/// first space — recovers exactly the same steps. It holds of every sequence
/// of well-formed steps, in particular of every parsed scenario's steps (see
/// [`crate::parser::lemma_parsed_scenario_steps_wf`]).
pub proof fn lemma_markdown_steps_round_trip(steps: Seq<StepView>)
    requires
        forall|i: int| 0 <= i < steps.len() ==> crate::parser::step_wf(#[trigger] steps[i]),
    ensures
        crate::parser::kept_lines(
            crate::text::spec_lines(
                join_with(steps.map_values(|st: StepView| step_text(st)), seq!['\n']),
            ),
        ).map_values(|l: Seq<char>| crate::parser::spec_step(l)) == steps,
{
    let texts = steps.map_values(|st: StepView| step_text(st));
    assert forall|i: int| 0 <= i < texts.len() implies (#[trigger] texts[i]).len() > 0 by {
        crate::parser::lemma_step_round_trip(steps[i]);
    }
    assert forall|i: int, k: int|
        0 <= i < texts.len() && 0 <= k < texts[i].len() implies texts[i][k] != '\n' by {
        crate::parser::lemma_step_round_trip(steps[i]);
    }
    assert forall|i: int| 0 <= i < texts.len() implies (#[trigger] texts[i]).last() != '\r' by {
        crate::parser::lemma_step_round_trip(steps[i]);
    }
    crate::text::lemma_lines_of_join(texts);
    assert(crate::text::spec_lines(join_with(texts, seq!['\n'])) == texts);
    assert forall|i: int|
        0 <= i < texts.len() implies crate::text::spec_trim(#[trigger] texts[i]).len() > 0 by {
        crate::parser::lemma_step_round_trip(steps[i]);
    }
    crate::parser::lemma_kept_lines_all_kept(texts);
    let kept = crate::parser::kept_lines(texts);
    assert(kept == texts.map_values(|l: Seq<char>| crate::text::spec_trim(l)));
    assert forall|i: int|
        0 <= i < steps.len() implies crate::parser::spec_step(#[trigger] kept[i]) == steps[i] by {
        crate::parser::lemma_step_round_trip(steps[i]);
        assert(kept[i] == crate::text::spec_trim(step_text(steps[i])));
    }
    assert(kept.map_values(|l: Seq<char>| crate::parser::spec_step(l)) =~= steps);
}

impl Scenario {
    /// Renders this scenario as Markdown, per [`md_scenario`].
    pub fn to_markdown(&self) -> (r: String)
        ensures
            r@ == md_scenario(self@),
    {
        let mut texts: Vec<String> = Vec::new();
        let mut i: usize = 0;
        proof {
            assert(texts.deep_view() =~= Seq::<Seq<char>>::empty());
            assert(self@.steps.take(0).map_values(|st: StepView| step_text(st))
                =~= Seq::<Seq<char>>::empty());
        }
        while i < self.steps.len()
            invariant
                0 <= i <= self.steps@.len(),
                texts.deep_view() =~= self@.steps.take(i as int).map_values(
                    |st: StepView| step_text(st),
                ),
            decreases self.steps@.len() - i,
        {
            let ghost before = texts.deep_view();
            let t = self.steps[i].to_text();
            texts.push(t);
            proof {
                assert(texts.deep_view() =~= before.push(step_text(self@.steps[i as int])));
                assert(self@.steps.take(i + 1).map_values(|st: StepView| step_text(st))
                    =~= self@.steps.take(i as int).map_values(|st: StepView| step_text(st)).push(
                    step_text(self@.steps[i as int])));
            }
            i = i + 1;
        }
        proof {
            assert(self@.steps.take(self.steps@.len() as int) =~= self@.steps);
        }
        let steps_joined = join_strs(&texts, "\n");
        let mut r = String::new();
        r.append("- [ ] ");
        r.append(self.name.as_str());
        r.append("\n```\n");
        r.append(steps_joined.as_str());
        r.append("\n```\n");
        proof {
            reveal_strlit("\n");
            assert("\n"@ =~= seq!['\n']);
            assert(r@ =~= md_scenario(self@));
        }
        r
    }
}

impl Feature {
    /// Renders this feature as Markdown, per [`md_feature`].
    pub fn to_markdown(&self) -> (r: String)
        ensures
            r@ == md_feature(self@),
    {
        let mut pieces: Vec<String> = Vec::new();
        let mut i: usize = 0;
        proof {
            assert(pieces.deep_view() =~= Seq::<Seq<char>>::empty());
            assert(self@.scenarios.take(0).map_values(|sc: ScenarioView| md_scenario(sc))
                =~= Seq::<Seq<char>>::empty());
        }
        while i < self.scenarios.len()
            invariant
                0 <= i <= self.scenarios@.len(),
                pieces.deep_view() =~= self@.scenarios.take(i as int).map_values(
                    |sc: ScenarioView| md_scenario(sc),
                ),
            decreases self.scenarios@.len() - i,
        {
            let ghost before = pieces.deep_view();
            let p = self.scenarios[i].to_markdown();
            pieces.push(p);
            proof {
                assert(pieces.deep_view() =~= before.push(md_scenario(self@.scenarios[i as int])));
                assert(self@.scenarios.take(i + 1).map_values(|sc: ScenarioView| md_scenario(sc))
                    =~= self@.scenarios.take(i as int).map_values(
                    |sc: ScenarioView| md_scenario(sc),
                ).push(md_scenario(self@.scenarios[i as int])));
            }
            i = i + 1;
        }
        proof {
            assert(self@.scenarios.take(self.scenarios@.len() as int) =~= self@.scenarios);
        }
        let scens = join_strs(&pieces, "\n");
        proof {
            reveal_strlit("\n");
            assert("\n"@ =~= seq!['\n']);
        }
        match &self.name {
            Some(name) => {
                let mut r = String::new();
                r.append("## ");
                r.append(name.as_str());
                r.append("\n\n");
                r.append(scens.as_str());
                proof {
                    assert(r@ =~= md_feature(self@));
                }
                r
            },
            None => scens,
        }
    }
}

/// Renders a sequence of features as one Markdown document: the feature
/// renderings joined by blank lines, per [`md_output`].
pub fn format(features: &Vec<Feature>) -> (r: String)
    ensures
        r@ == md_output(features_view(features@)),
{
    let ghost fv = features_view(features@);
    let mut pieces: Vec<String> = Vec::new();
    let mut i: usize = 0;
    proof {
        assert(pieces.deep_view() =~= Seq::<Seq<char>>::empty());
        assert(fv.take(0).map_values(|f: FeatureView| md_feature(f)) =~= Seq::<Seq<char>>::empty());
    }
    while i < features.len()
        invariant
            0 <= i <= features@.len(),
            pieces.deep_view() =~= fv.take(i as int).map_values(|f: FeatureView| md_feature(f)),
        decreases features@.len() - i,
    {
        let ghost before = pieces.deep_view();
        let p = features[i].to_markdown();
        pieces.push(p);
        proof {
            assert(fv[i as int] == features@[i as int]@);
            assert(pieces.deep_view() =~= before.push(md_feature(fv[i as int])));
            assert(fv.take(i + 1).map_values(|f: FeatureView| md_feature(f)) =~= fv.take(
                i as int,
            ).map_values(|f: FeatureView| md_feature(f)).push(md_feature(fv[i as int])));
        }
        i = i + 1;
    }
    proof {
        assert(fv.take(features@.len() as int) =~= fv);
    }
    let r = join_strs(&pieces, "\n\n");
    proof {
        reveal_strlit("\n\n");
        assert("\n\n"@ =~= seq!['\n', '\n']);
    }
    r
}

} // verus!
