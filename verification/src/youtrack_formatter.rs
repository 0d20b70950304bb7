//! The tracker-flavored renderer: each feature name becomes a level-2
//! heading, each scenario a checklist line followed by a styled `<pre>` block
//! whose step lines color the keyword and highlight double-quoted substrings
//! of the description.

use vstd::prelude::*;

use crate::parser::Feature;
use crate::parser::FeatureView;
use crate::parser::Scenario;
use crate::parser::ScenarioView;
use crate::parser::Step;
use crate::parser::StepView;
use crate::parser::features_view;
use crate::text::find_char;
use crate::text::join_strs;
use crate::text::join_with;
use crate::text::lemma_find_char;

verus! {

/// `s` with every double-quoted substring (quotes included) wrapped in the
/// highlight span: scanning left to right, each `'"'` that a later `'"'`
/// closes starts a match reaching that closing quote; matched text is
/// wrapped, unmatched text is unchanged.
pub open spec fn spec_highlight(s: Seq<char>) -> Seq<char>
    decreases s.len(),
{
    if s.len() == 0 {
        Seq::empty()
    } else if s[0] == '"' {
        let e = find_char(s.skip(1), '"');
        if e < s.len() - 1 {
            "<span style=\"color: dodgerblue\">"@ + s.take(e as int + 2) + "</span>"@
                + spec_highlight(s.skip(e as int + 2))
        } else {
            s
        }
    } else {
        seq![s[0]] + spec_highlight(s.drop_first())
    }
}

/// Wraps each double-quoted substring of `s` in the highlight span, per
/// [`spec_highlight`].
///
/// Relies on `regex::Regex::replace_all` with the fixed pattern `("[^"]*")`
/// and the fixed replacement `<span style="color: dodgerblue">$1</span>`:
/// each leftmost, non-overlapping match — a `'"'`, then characters other
/// than `'"'`, then a closing `'"'` — is replaced by the replacement with
/// `$1` expanded to the matched text, and text outside matches is returned
/// unchanged. `Regex::new` cannot fail on this fixed, well-formed pattern.
#[verifier::external_body]
fn highlight_quoted(s: &str) -> (r: String)
    ensures
        r@ == spec_highlight(s@),
{
    let pattern = regex::Regex::new("(\"[^\"]*\")").unwrap();
    pattern.replace_all(s, "<span style=\"color: dodgerblue\">$1</span>").into_owned()
}

/// Text without a double quote is left unchanged by the highlighter.
pub proof fn lemma_highlight_no_quote(s: Seq<char>)
    requires
        forall|k: int| 0 <= k < s.len() ==> s[k] != '"',
    ensures
        spec_highlight(s) == s,
    decreases s.len(),
{
    if s.len() > 0 {
        let rest = s.drop_first();
        assert(forall|k: int| 0 <= k < rest.len() ==> rest[k] == s[k + 1]);
        lemma_highlight_no_quote(rest);
        assert(seq![s[0]] + rest =~= s);
    }
}

/// A quote-free prefix passes through the highlighter unchanged, and
/// highlighting continues independently on the rest.
pub proof fn lemma_highlight_prepend(a: Seq<char>, rest: Seq<char>)
    requires
        forall|k: int| 0 <= k < a.len() ==> a[k] != '"',
    ensures
        spec_highlight(a + rest) == a + spec_highlight(rest),
    decreases a.len(),
{
    let s = a + rest;
    if a.len() == 0 {
        assert(s =~= rest);
        assert(a + spec_highlight(rest) =~= spec_highlight(rest));
    } else {
        assert(s[0] == a[0]);
        assert(s.drop_first() =~= a.drop_first() + rest);
        assert(forall|k: int| 0 <= k < a.drop_first().len() ==> a.drop_first()[k] == a[k + 1]);
        lemma_highlight_prepend(a.drop_first(), rest);
        assert(spec_highlight(s) == seq![s[0]] + (a.drop_first() + spec_highlight(rest)));
        assert(seq![s[0]] + (a.drop_first() + spec_highlight(rest)) =~= a + spec_highlight(rest));
    }
}

/// Highlighting a text with exactly one double-quoted substring wraps
/// exactly that substring, quotes included, in the highlight span, and
/// leaves the surrounding text untouched.
pub proof fn lemma_highlight_single_quoted(a: Seq<char>, b: Seq<char>, c: Seq<char>)
    requires
        forall|k: int| 0 <= k < a.len() ==> a[k] != '"',
        forall|k: int| 0 <= k < b.len() ==> b[k] != '"',
        forall|k: int| 0 <= k < c.len() ==> c[k] != '"',
    ensures
        spec_highlight(a + seq!['"'] + b + seq!['"'] + c) == a
            + "<span style=\"color: dodgerblue\">"@ + seq!['"'] + b + seq!['"'] + "</span>"@ + c,
{
    let q = seq!['"'];
    let m = q + b + q + c;
    assert(a + q + b + q + c =~= a + m);
    lemma_highlight_prepend(a, m);
    assert(m[0] == '"');
    let tail = m.skip(1);
    assert(tail =~= b + q + c);
    lemma_find_char(tail, '"');
    let e = find_char(tail, '"');
    assert(tail[b.len() as int] == '"');
    assert(e == b.len()) by {
        if e < b.len() {
            assert(tail[e as int] == b[e as int]);
        }
        if e > b.len() {
            assert(tail[b.len() as int] != '"');
        }
    }
    assert(e < m.len() - 1);
    assert(m.take(e as int + 2) =~= q + b + q);
    assert(m.skip(e as int + 2) =~= c);
    lemma_highlight_no_quote(c);
    assert(spec_highlight(m) == "<span style=\"color: dodgerblue\">"@ + (q + b + q) + "</span>"@
        + c);
    assert(a + ("<span style=\"color: dodgerblue\">"@ + (q + b + q) + "</span>"@ + c) =~= a
        + "<span style=\"color: dodgerblue\">"@ + seq!['"'] + b + seq!['"'] + "</span>"@ + c);
}

/// The tracker rendering of one step: the keyword in a colored span, a
/// space, then the description with its quoted substrings highlighted.
pub open spec fn yt_step(st: StepView) -> Seq<char> {
    "<span style=\"color: darkorange\">"@ + st.keyword + "</span> "@ + spec_highlight(
        st.description,
    )
}

/// The tracker rendering of one scenario: a checklist line with its name,
/// then its step renderings inside a styled `<pre>` block.
pub open spec fn yt_scenario(sc: ScenarioView) -> Seq<char> {
    "- [ ] "@ + sc.name + seq!['\n']
        + "<pre style=\"padding-top: 10px; padding-bottom: 10px; margin-bottom: 20px\">"@
        + join_with(sc.steps.map_values(|st: StepView| yt_step(st)), seq!['\n']) + "</pre>"@
}

/// The tracker rendering of one feature: a level-2 heading with its name
/// (omitted when the name is absent), then its scenario renderings joined by
/// blank lines.
pub open spec fn yt_feature(f: FeatureView) -> Seq<char> {
    let scens = join_with(
        f.scenarios.map_values(|sc: ScenarioView| yt_scenario(sc)),
        seq!['\n', '\n'],
    );
    match f.name {
        Some(name) => "## "@ + name + seq!['\n'] + scens,
        None => scens,
    }
}

/// The tracker rendering of a sequence of features, joined by blank lines.
pub open spec fn yt_output(fs: Seq<FeatureView>) -> Seq<char> {
    join_with(fs.map_values(|f: FeatureView| yt_feature(f)), seq!['\n', '\n'])
}

impl Step {
    /// Renders this step in the tracker markup, per [`yt_step`].
    pub fn to_yt(&self) -> (r: String)
        ensures
            r@ == yt_step(self@),
    {
        let highlighted = highlight_quoted(self.description.as_str());
        let mut r = String::new();
        r.append("<span style=\"color: darkorange\">");
        r.append(self.keyword.as_str());
        r.append("</span> ");
        r.append(highlighted.as_str());
        r
    }
}

impl Scenario {
    /// Renders this scenario in the tracker markup, per [`yt_scenario`].
    pub fn to_yt(&self) -> (r: String)
        ensures
            r@ == yt_scenario(self@),
    {
        let mut texts: Vec<String> = Vec::new();
        let mut i: usize = 0;
        proof {
            assert(texts.deep_view() =~= Seq::<Seq<char>>::empty());
            assert(self@.steps.take(0).map_values(|st: StepView| yt_step(st))
                =~= Seq::<Seq<char>>::empty());
        }
        while i < self.steps.len()
            invariant
                0 <= i <= self.steps@.len(),
                texts.deep_view() =~= self@.steps.take(i as int).map_values(
                    |st: StepView| yt_step(st),
                ),
            decreases self.steps@.len() - i,
        {
            let ghost before = texts.deep_view();
            let t = self.steps[i].to_yt();
            texts.push(t);
            proof {
                assert(texts.deep_view() =~= before.push(yt_step(self@.steps[i as int])));
                assert(self@.steps.take(i + 1).map_values(|st: StepView| yt_step(st))
                    =~= self@.steps.take(i as int).map_values(|st: StepView| yt_step(st)).push(
                    yt_step(self@.steps[i as int])));
            }
            i = i + 1;
        }
        proof {
            assert(self@.steps.take(self.steps@.len() as int) =~= self@.steps);
        }
        let steps_joined = join_strs(&texts, "\n");
        let mut r = String::new();
        r.append("- [ ] ");
        r.append(self.name.as_str());
        r.append("\n");
        r.append("<pre style=\"padding-top: 10px; padding-bottom: 10px; margin-bottom: 20px\">");
        r.append(steps_joined.as_str());
        r.append("</pre>");
        proof {
            reveal_strlit("\n");
            assert("\n"@ =~= seq!['\n']);
            assert(r@ =~= yt_scenario(self@));
        }
        r
    }
}

impl Feature {
    /// Renders this feature in the tracker markup, per [`yt_feature`].
    pub fn to_yt(&self) -> (r: String)
        ensures
            r@ == yt_feature(self@),
    {
        let mut pieces: Vec<String> = Vec::new();
        let mut i: usize = 0;
        proof {
            assert(pieces.deep_view() =~= Seq::<Seq<char>>::empty());
            assert(self@.scenarios.take(0).map_values(|sc: ScenarioView| yt_scenario(sc))
                =~= Seq::<Seq<char>>::empty());
        }
        while i < self.scenarios.len()
            invariant
                0 <= i <= self.scenarios@.len(),
                pieces.deep_view() =~= self@.scenarios.take(i as int).map_values(
                    |sc: ScenarioView| yt_scenario(sc),
                ),
            decreases self.scenarios@.len() - i,
        {
            let ghost before = pieces.deep_view();
            let p = self.scenarios[i].to_yt();
            pieces.push(p);
            proof {
                assert(pieces.deep_view() =~= before.push(yt_scenario(self@.scenarios[i as int])));
                assert(self@.scenarios.take(i + 1).map_values(|sc: ScenarioView| yt_scenario(sc))
                    =~= self@.scenarios.take(i as int).map_values(
                    |sc: ScenarioView| yt_scenario(sc),
                ).push(yt_scenario(self@.scenarios[i as int])));
            }
            i = i + 1;
        }
        proof {
            assert(self@.scenarios.take(self.scenarios@.len() as int) =~= self@.scenarios);
        }
        let scens = join_strs(&pieces, "\n\n");
        proof {
            reveal_strlit("\n\n");
            assert("\n\n"@ =~= seq!['\n', '\n']);
        }
        match &self.name {
            Some(name) => {
                let mut r = String::new();
                r.append("## ");
                r.append(name.as_str());
                r.append("\n");
                r.append(scens.as_str());
                proof {
                    reveal_strlit("\n");
                    assert("\n"@ =~= seq!['\n']);
                    assert(r@ =~= yt_feature(self@));
                }
                r
            },
            None => scens,
        }
    }
}

/// Renders a sequence of features as one tracker document: the feature
/// renderings joined by blank lines, per [`yt_output`].
pub fn format(features: &Vec<Feature>) -> (r: String)
    ensures
        r@ == yt_output(features_view(features@)),
{
    let ghost fv = features_view(features@);
    let mut pieces: Vec<String> = Vec::new();
    let mut i: usize = 0;
    proof {
        assert(pieces.deep_view() =~= Seq::<Seq<char>>::empty());
        assert(fv.take(0).map_values(|f: FeatureView| yt_feature(f)) =~= Seq::<Seq<char>>::empty());
    }
    while i < features.len()
        invariant
            0 <= i <= features@.len(),
            pieces.deep_view() =~= fv.take(i as int).map_values(|f: FeatureView| yt_feature(f)),
        decreases features@.len() - i,
    {
        let ghost before = pieces.deep_view();
        let p = features[i].to_yt();
        pieces.push(p);
        proof {
            assert(fv[i as int] == features@[i as int]@);
            assert(pieces.deep_view() =~= before.push(yt_feature(fv[i as int])));
            assert(fv.take(i + 1).map_values(|f: FeatureView| yt_feature(f)) =~= fv.take(
                i as int,
            ).map_values(|f: FeatureView| yt_feature(f)).push(yt_feature(fv[i as int])));
        }
        i = i + 1;
    }
    proof {
        assert(fv.take(features@.len() as int) =~= fv);
    }
    let r = join_strs(&pieces, "\n\n");
    proof {
        reveal_strlit("\n\n");
        assert("\n\n"@ =~= seq!['\n', '\n']);
    }
    r
}

} // verus!
