//! The Gherkin parser: partitions raw text into `Feature` blocks, each with
//! an optional description and ordered `Scenario` blocks, each an ordered
//! sequence of `Step` lines.
//!
//! Parsing is total: every input text yields a result. An input without any
//! `Feature:` header line becomes a single feature with an absent name.

use vstd::prelude::*;

use crate::text::find_char;
use crate::text::is_wspace;
use crate::text::join_strs;
use crate::text::join_with;
use crate::text::lemma_find_char;
use crate::text::spec_lines;
use crate::text::spec_trim;
use crate::text::split_lines;
use crate::text::str_starts_with;
use crate::text::trim_end_rec;
use crate::text::trim_start_rec;
use crate::text::trim_str;

verus! {

/// The mathematical model of a [`Step`]: a keyword and a description, both
/// sequences of characters.
#[verifier::ext_equal]
pub struct StepView {
    pub keyword: Seq<char>,
    pub description: Seq<char>,
}

/// The mathematical model of a [`Scenario`]: a name and the ordered steps.
#[verifier::ext_equal]
pub struct ScenarioView {
    pub name: Seq<char>,
    pub steps: Seq<StepView>,
}

/// The mathematical model of a [`Feature`]: an optional name, an optional
/// description, and the ordered scenarios.
#[verifier::ext_equal]
pub struct FeatureView {
    pub name: Option<Seq<char>>,
    pub description: Option<Seq<char>>,
    pub scenarios: Seq<ScenarioView>,
}

/// One line of a scenario: a keyword (the text before the first space) and a
/// description (the rest). Immutable once parsed.
#[derive(Debug)]
pub struct Step {
    pub keyword: String,
    pub description: String,
}

/// One example within a feature: a name and its ordered steps.
#[derive(Debug)]
pub struct Scenario {
    pub name: String,
    pub steps: Vec<Step>,
}

/// A top-level Gherkin block: an optional name (absent for headerless
/// input), an optional free-text description, and its ordered scenarios.
#[derive(Debug)]
pub struct Feature {
    pub name: Option<String>,
    pub description: Option<String>,
    pub scenarios: Vec<Scenario>,
}

impl View for Step {
    type V = StepView;

    open spec fn view(&self) -> StepView {
        StepView { keyword: self.keyword@, description: self.description@ }
    }
}

impl View for Scenario {
    type V = ScenarioView;

    open spec fn view(&self) -> ScenarioView {
        ScenarioView { name: self.name@, steps: self.steps@.map_values(|st: Step| st@) }
    }
}

/// The view of an optional owned string.
pub open spec fn opt_view(o: Option<String>) -> Option<Seq<char>> {
    match o {
        Some(s) => Some(s@),
        None => None,
    }
}

impl View for Feature {
    type V = FeatureView;

    open spec fn view(&self) -> FeatureView {
        FeatureView {
            name: opt_view(self.name),
            description: opt_view(self.description),
            scenarios: self.scenarios@.map_values(|sc: Scenario| sc@),
        }
    }
}

/// The views of a sequence of owned strings.
pub open spec fn strs_view(ss: Seq<String>) -> Seq<Seq<char>> {
    ss.map_values(|s: String| s@)
}

/// The views of a sequence of parsed features.
pub open spec fn features_view(fs: Seq<Feature>) -> Seq<FeatureView> {
    fs.map_values(|f: Feature| f@)
}

/// The step a line decomposes into: the text before the first space is the
/// keyword and the rest is the description; a line without a space is all
/// description, with an empty keyword.
pub open spec fn spec_step(l: Seq<char>) -> StepView {
    let i = find_char(l, ' ');
    if i < l.len() {
        StepView { keyword: l.take(i as int), description: l.skip(i as int + 1) }
    } else {
        StepView { keyword: Seq::empty(), description: l }
    }
}

/// Whether `l` is a header line introduced by `p`: its trimmed content
/// starts with `p`.
pub open spec fn is_header(l: Seq<char>, p: Seq<char>) -> bool {
    p.is_prefix_of(spec_trim(l))
}

/// The indices at or after `i` of the lines of `ls` that are headers
/// introduced by `p`, in increasing order.
pub open spec fn header_idxs_from(ls: Seq<Seq<char>>, p: Seq<char>, i: int) -> Seq<int>
    decreases ls.len() - i,
{
    if i >= ls.len() {
        Seq::empty()
    } else if is_header(ls[i], p) {
        seq![i] + header_idxs_from(ls, p, i + 1)
    } else {
        header_idxs_from(ls, p, i + 1)
    }
}

/// The indices of the lines of `ls` that are headers introduced by `p`.
pub open spec fn header_idxs(ls: Seq<Seq<char>>, p: Seq<char>) -> Seq<int> {
    header_idxs_from(ls, p, 0)
}

/// What [`header_idxs_from`] returns: in-range, strictly increasing indices,
/// each of a header line, and no header line is missed.
pub proof fn lemma_header_idxs_from(ls: Seq<Seq<char>>, p: Seq<char>, i: int)
    ensures
        forall|j: int|
            0 <= j < header_idxs_from(ls, p, i).len() ==> i <= #[trigger] header_idxs_from(
                ls,
                p,
                i,
            )[j] < ls.len(),
        forall|j: int|
            0 <= j < header_idxs_from(ls, p, i).len() - 1 ==> #[trigger] header_idxs_from(
                ls,
                p,
                i,
            )[j] < header_idxs_from(ls, p, i)[j + 1],
        forall|j: int|
            0 <= j < header_idxs_from(ls, p, i).len() ==> is_header(
                ls[#[trigger] header_idxs_from(ls, p, i)[j]],
                p,
            ),
        forall|k: int|
            i <= k < ls.len() && is_header(ls[k], p) ==> header_idxs_from(ls, p, i).contains(k),
    decreases ls.len() - i,
{
    if i < ls.len() {
        lemma_header_idxs_from(ls, p, i + 1);
        let rest = header_idxs_from(ls, p, i + 1);
        if is_header(ls[i], p) {
            let whole = header_idxs_from(ls, p, i);
            assert(whole == seq![i] + rest);
            assert(forall|j: int| 0 <= j < rest.len() ==> whole[j + 1] == rest[j]);
            assert(forall|k: int|
                i <= k < ls.len() && is_header(ls[k], p) ==> whole.contains(k)) by {
                assert forall|k: int|
                    i <= k < ls.len() && is_header(ls[k], p) implies whole.contains(k) by {
                    if k == i {
                        assert(whole[0] == i);
                    } else {
                        assert(rest.contains(k));
                        let j = choose|j: int| 0 <= j < rest.len() && rest[j] == k;
                        assert(whole[j + 1] == k);
                    }
                }
            }
        }
    }
}

/// The non-blank lines of `ls`, each trimmed, in order.
pub open spec fn kept_lines(ls: Seq<Seq<char>>) -> Seq<Seq<char>> {
    ls.map_values(|l: Seq<char>| spec_trim(l)).filter(|l: Seq<char>| l.len() > 0)
}

/// Appending a line to `ls` appends its trimmed form to [`kept_lines`] when
/// that form is non-empty, and changes nothing otherwise.
pub proof fn lemma_kept_lines_push(ls: Seq<Seq<char>>, l: Seq<char>)
    ensures
        spec_trim(l).len() > 0 ==> kept_lines(ls.push(l)) == kept_lines(ls).push(spec_trim(l)),
        spec_trim(l).len() == 0 ==> kept_lines(ls.push(l)) == kept_lines(ls),
{
    let f = |x: Seq<char>| spec_trim(x);
    let pred = |x: Seq<char>| x.len() > 0;
    let m = ls.map_values(f);
    assert(ls.push(l).map_values(f) =~= m.push(f(l)));
    assert(m.push(f(l)).drop_last() =~= m);
    reveal(Seq::filter);
}

/// The scenario name on a header line: the trimmed line with a leading
/// `"Scenario: "` removed and the remainder trimmed; when that literal
/// prefix is absent, the whole trimmed line.
pub open spec fn spec_scenario_name(l: Seq<char>) -> Seq<char> {
    let t = spec_trim(l);
    if "Scenario: "@.is_prefix_of(t) {
        spec_trim(t.skip("Scenario: "@.len() as int))
    } else {
        t
    }
}

/// The feature name on a header line: the trimmed line with the leading
/// `"Feature: "` removed and the remainder trimmed; absent when the line
/// lacks that literal prefix (for example a bare `"Feature:"`).
pub open spec fn spec_feature_name(l: Seq<char>) -> Option<Seq<char>> {
    let t = spec_trim(l);
    if "Feature: "@.is_prefix_of(t) {
        Some(spec_trim(t.skip("Feature: "@.len() as int)))
    } else {
        None
    }
}

/// The scenario a block of lines parses into: the name from the header line
/// (the block's first line), then one step per non-blank following line, in
/// source order.
pub open spec fn spec_scenario(block: Seq<Seq<char>>) -> ScenarioView {
    ScenarioView {
        name: spec_scenario_name(block[0]),
        steps: kept_lines(block.drop_first()).map_values(|l: Seq<char>| spec_step(l)),
    }
}

/// The feature a block of lines parses into, given its (already extracted)
/// optional name. The lines after the header up to the first `Scenario:`
/// header form the description (non-blank lines, trimmed, joined with
/// newlines; absent if there are none); the `Scenario:` headers partition
/// the rest of the block into scenarios, in source order.
pub open spec fn spec_feature(name: Option<Seq<char>>, block: Seq<Seq<char>>) -> FeatureView {
    let sidx = header_idxs(block, "Scenario:"@);
    let desc_end: int = if sidx.len() == 0 {
        block.len() as int
    } else {
        sidx[0]
    };
    let dlines = if desc_end >= 1 {
        block.subrange(1, desc_end)
    } else {
        Seq::empty()
    };
    let kept = kept_lines(dlines);
    FeatureView {
        name,
        description: if kept.len() > 0 {
            Some(join_with(kept, seq!['\n']))
        } else {
            None
        },
        scenarios: Seq::new(
            sidx.len(),
            |j: int|
                spec_scenario(
                    block.subrange(
                        sidx[j],
                        if j + 1 < sidx.len() {
                            sidx[j + 1]
                        } else {
                            block.len() as int
                        },
                    ),
                ),
        ),
    }
}

/// The features a text parses into. The lines whose trimmed content starts
/// with `"Feature:"` partition the lines into blocks, one feature each, in
/// source order; when there is no such line the whole input is one feature
/// with an absent name.
pub open spec fn spec_parse(text: Seq<char>) -> Seq<FeatureView> {
    let lines = spec_lines(text);
    let fidx = header_idxs(lines, "Feature:"@);
    if fidx.len() == 0 {
        seq![spec_feature(None, lines)]
    } else {
        Seq::new(
            fidx.len(),
            |k: int|
                spec_feature(
                    spec_feature_name(lines[fidx[k]]),
                    lines.subrange(
                        fidx[k],
                        if k + 1 < fidx.len() {
                            fidx[k + 1]
                        } else {
                            lines.len() as int
                        },
                    ),
                ),
        )
    }
}

/// The single line of text a step reconstructs to: keyword, one space,
/// description.
pub open spec fn step_text(st: StepView) -> Seq<char> {
    st.keyword + seq![' '] + st.description
}

/// When every line trims to something non-empty, [`kept_lines`] keeps them
/// all: it is exactly the trimmed lines.
pub proof fn lemma_kept_lines_all_kept(ls: Seq<Seq<char>>)
    requires
        forall|i: int| 0 <= i < ls.len() ==> spec_trim(#[trigger] ls[i]).len() > 0,
    ensures
        kept_lines(ls) == ls.map_values(|l: Seq<char>| spec_trim(l)),
    decreases ls.len(),
{
    if ls.len() > 0 {
        let rest = ls.drop_last();
        assert(forall|i: int| 0 <= i < rest.len() ==> rest[i] == ls[i]);
        lemma_kept_lines_all_kept(rest);
        lemma_kept_lines_push(rest, ls.last());
        assert(rest.push(ls.last()) =~= ls);
        assert(rest.map_values(|l: Seq<char>| spec_trim(l)).push(spec_trim(ls.last()))
            =~= ls.map_values(|l: Seq<char>| spec_trim(l)));
    }
}

/// A sequence of lines that all trim to empty keeps nothing.
proof fn lemma_kept_lines_all_blank(ls: Seq<Seq<char>>)
    requires
        forall|i: int| 0 <= i < ls.len() ==> spec_trim(#[trigger] ls[i]).len() == 0,
    ensures
        kept_lines(ls).len() == 0,
    decreases ls.len(),
{
    if ls.len() > 0 {
        let rest = ls.drop_last();
        assert(forall|i: int| 0 <= i < rest.len() ==> rest[i] == ls[i]);
        lemma_kept_lines_all_blank(rest);
        lemma_kept_lines_push(rest, ls.last());
        assert(rest.push(ls.last()) =~= ls);
    }
}

/// A scenario block with no non-blank line after its header parses to a
/// scenario with zero steps.
pub proof fn lemma_empty_scenario_block(block: Seq<Seq<char>>)
    requires
        block.len() >= 1,
        forall|i: int| 1 <= i < block.len() ==> spec_trim(#[trigger] block[i]).len() == 0,
    ensures
        spec_scenario(block).steps.len() == 0,
{
    let rest = block.drop_first();
    assert(forall|i: int| 0 <= i < rest.len() ==> rest[i] == block[i + 1]);
    lemma_kept_lines_all_blank(rest);
}

/// Every step of a parsed scenario is well-formed in the sense of
/// [`step_wf`], provided no block line contains a newline (lines produced by
/// splitting a text never do).
pub proof fn lemma_parsed_scenario_steps_wf(block: Seq<Seq<char>>)
    requires
        block.len() >= 1,
        forall|i: int, k: int|
            0 <= i < block.len() && 0 <= k < block[i].len() ==> block[i][k] != '\n',
    ensures
        forall|j: int|
            0 <= j < spec_scenario(block).steps.len() ==> step_wf(
                #[trigger] spec_scenario(block).steps[j],
            ),
{
    let rest = block.drop_first();
    assert(forall|i: int| 0 <= i < rest.len() ==> rest[i] == block[i + 1]);
    let mapped = rest.map_values(|l: Seq<char>| spec_trim(l));
    let pred = |l: Seq<char>| l.len() > 0;
    let kept = kept_lines(rest);
    let steps = spec_scenario(block).steps;
    assert forall|j: int| 0 <= j < steps.len() implies step_wf(#[trigger] steps[j]) by {
        assert(steps[j] == spec_step(kept[j]));
        mapped.lemma_filter_pred(pred, j);
        assert(kept[j].len() > 0);
        assert(kept.contains(kept[j]));
        mapped.lemma_filter_contains_rev(pred, kept[j]);
        let idx = choose|idx: int| 0 <= idx < mapped.len() && mapped[idx] == kept[j];
        let l = rest[idx];
        assert(l == block[idx + 1]);
        assert(forall|k: int| 0 <= k < l.len() ==> l[k] != '\n');
        assert(kept[j] == spec_trim(l));
        lemma_parsed_step_wf(l);
    }
}

/// One `Feature:` header line yields exactly one feature, named by that
/// header: the header text with the `"Feature: "` prefix removed and
/// trimmed (absent when the literal prefix is missing).
pub proof fn lemma_one_feature_header(text: Seq<char>)
    requires
        header_idxs(spec_lines(text), "Feature:"@).len() == 1,
    ensures
        spec_parse(text).len() == 1,
        spec_parse(text)[0].name == spec_feature_name(
            spec_lines(text)[header_idxs(spec_lines(text), "Feature:"@)[0]],
        ),
{
}

/// No `Feature:` header line yields exactly one feature with an absent name,
/// parsed from the whole input and containing one scenario per `Scenario:`
/// header line found.
pub proof fn lemma_headerless_parse(text: Seq<char>)
    requires
        header_idxs(spec_lines(text), "Feature:"@).len() == 0,
    ensures
        spec_parse(text).len() == 1,
        spec_parse(text)[0] == spec_feature(None, spec_lines(text)),
        spec_parse(text)[0].name is None,
        spec_parse(text)[0].scenarios.len() == header_idxs(spec_lines(text), "Scenario:"@).len(),
{
}

/// Scenarios keep their source order: a parsed feature has one scenario per
/// `Scenario:` header, the `j`-th scenario is parsed from the block starting
/// at the `j`-th header and ending at the next (or at the block's end), and
/// those header positions strictly increase.
pub proof fn lemma_scenarios_in_source_order(name: Option<Seq<char>>, block: Seq<Seq<char>>)
    ensures
        spec_feature(name, block).scenarios.len() == header_idxs(block, "Scenario:"@).len(),
        forall|j: int|
            0 <= j < header_idxs(block, "Scenario:"@).len() ==> spec_feature(
                name,
                block,
            ).scenarios[j] == spec_scenario(
                block.subrange(
                    header_idxs(block, "Scenario:"@)[j],
                    if j + 1 < header_idxs(block, "Scenario:"@).len() {
                        header_idxs(block, "Scenario:"@)[j + 1]
                    } else {
                        block.len() as int
                    },
                ),
            ),
        forall|j: int|
            0 <= j < header_idxs(block, "Scenario:"@).len() - 1 ==> #[trigger] header_idxs(
                block,
                "Scenario:"@,
            )[j] < header_idxs(block, "Scenario:"@)[j + 1],
{
    lemma_header_idxs_from(block, "Scenario:"@, 0);
}

/// Every step of every scenario of every parsed feature is well-formed in
/// the sense of [`step_wf`]: the Markdown fenced-block round trip (see
/// [`crate::markdown_formatter::lemma_markdown_steps_round_trip`]) therefore
/// applies to everything [`spec_parse`] produces.
pub proof fn lemma_parse_steps_wf(text: Seq<char>, k: int, j: int, i: int)
    requires
        0 <= k < spec_parse(text).len(),
        0 <= j < spec_parse(text)[k].scenarios.len(),
        0 <= i < spec_parse(text)[k].scenarios[j].steps.len(),
    ensures
        step_wf(spec_parse(text)[k].scenarios[j].steps[i]),
{
    let lines = spec_lines(text);
    crate::text::lemma_lines_no_newline(text);
    let fidx = header_idxs(lines, "Feature:"@);
    lemma_header_idxs_from(lines, "Feature:"@, 0);
    let block = if fidx.len() == 0 {
        lines
    } else {
        lines.subrange(
            fidx[k],
            if k + 1 < fidx.len() {
                fidx[k + 1]
            } else {
                lines.len() as int
            },
        )
    };
    if fidx.len() > 0 {
        let bend = if k + 1 < fidx.len() {
            fidx[k + 1]
        } else {
            lines.len() as int
        };
        assert(0 <= fidx[k] <= bend <= lines.len());
        assert(forall|x: int| 0 <= x < block.len() ==> block[x] == lines[fidx[k] + x]);
    }
    assert(forall|x: int, c: int|
        0 <= x < block.len() && 0 <= c < block[x].len() ==> block[x][c] != '\n');
    let f = spec_parse(text)[k];
    assert(f.scenarios == spec_feature(f.name, block).scenarios);
    let sidx = header_idxs(block, "Scenario:"@);
    lemma_header_idxs_from(block, "Scenario:"@, 0);
    let send = if j + 1 < sidx.len() {
        sidx[j + 1]
    } else {
        block.len() as int
    };
    let sub = block.subrange(sidx[j], send);
    assert(f.scenarios[j] == spec_scenario(sub));
    assert(0 <= sidx[j] < send <= block.len());
    assert(forall|x: int| 0 <= x < sub.len() ==> sub[x] == block[sidx[j] + x]);
    assert(forall|x: int, c: int| 0 <= x < sub.len() && 0 <= c < sub[x].len() ==> sub[x][c] != '\n');
    lemma_parsed_scenario_steps_wf(sub);
}

impl Step {
    /// Builds the step a line decomposes into, splitting at the first space.
    pub fn from_line(line: &str) -> (r: Step)
        ensures
            r@ == spec_step(line@),
    {
        let n = line.unicode_len();
        let mut i: usize = 0;
        while i < n && line.get_char(i) != ' '
            invariant
                0 <= i <= n,
                n == line@.len(),
                forall|k: int| 0 <= k < i ==> line@[k] != ' ',
            decreases n - i,
        {
            i = i + 1;
        }
        proof {
            lemma_find_char(line@, ' ');
            assert(find_char(line@, ' ') == i);
        }
        if i < n {
            let r = Step {
                keyword: line.substring_char(0, i).to_owned(),
                description: line.substring_char(i + 1, n).to_owned(),
            };
            proof {
                assert(line@.subrange(0, i as int) =~= line@.take(i as int));
                assert(line@.subrange(i as int + 1, n as int) =~= line@.skip(i as int + 1));
            }
            r
        } else {
            Step { keyword: String::new(), description: line.to_owned() }
        }
    }

    /// The line of text the step reconstructs to: `"{keyword} {description}"`.
    pub fn to_text(&self) -> (r: String)
        ensures
            r@ == step_text(self@),
    {
        let mut r = self.keyword.clone();
        r.append(" ");
        r.append(self.description.as_str());
        proof {
            reveal_strlit(" ");
            assert(" "@ =~= seq![' ']);
        }
        r
    }
}

/// The shape every step produced by parsing a non-blank line has: the
/// keyword holds no space (it ends at the first one) and no newline, it
/// starts with non-whitespace when present, the description is non-empty
/// and ends with non-whitespace (the line was trimmed) and holds no newline,
/// and an empty keyword means the line had no space at all.
pub open spec fn step_wf(st: StepView) -> bool {
    &&& forall|k: int|
        0 <= k < st.keyword.len() ==> #[trigger] st.keyword[k] != ' ' && st.keyword[k] != '\n'
    &&& st.keyword.len() > 0 ==> !is_wspace(st.keyword[0])
    &&& st.description.len() > 0
    &&& !is_wspace(st.description.last())
    &&& forall|k: int| 0 <= k < st.description.len() ==> #[trigger] st.description[k] != '\n'
    &&& st.keyword.len() == 0 ==> !is_wspace(st.description[0])
    &&& st.keyword.len() == 0 ==> forall|k: int|
        0 <= k < st.description.len() ==> #[trigger] st.description[k] != ' '
}

/// Round trip of one step: the line a well-formed step reconstructs to is
/// non-blank, safe to embed in newline-joined text, and parses back (trim,
/// then split at the first space) to the same step.
pub proof fn lemma_step_round_trip(st: StepView)
    requires
        step_wf(st),
    ensures
        step_text(st).len() > 0,
        forall|k: int| 0 <= k < step_text(st).len() ==> #[trigger] step_text(st)[k] != '\n',
        step_text(st).last() != '\r',
        spec_trim(step_text(st)).len() > 0,
        spec_step(spec_trim(step_text(st))) == st,
{
    let t = step_text(st);
    let kw = st.keyword;
    let d = st.description;
    assert(t.len() == kw.len() + 1 + d.len());
    assert(forall|k: int| 0 <= k < kw.len() ==> t[k] == kw[k]);
    assert(t[kw.len() as int] == ' ');
    assert(forall|k: int| 0 <= k < d.len() ==> t[kw.len() + 1 + k] == d[k]);
    assert(t.last() == d.last());
    if kw.len() > 0 {
        crate::text::lemma_trim_identity(t);
        assert(spec_trim(t) == t);
        lemma_find_char(t, ' ');
        let e = find_char(t, ' ');
        assert(e == kw.len()) by {
            if e < kw.len() {
                assert(t[e as int] == kw[e as int]);
            }
            if e > kw.len() {
                assert(t[kw.len() as int] != ' ');
            }
        }
        assert(t.take(e as int) =~= kw);
        assert(t.skip(e as int + 1) =~= d);
        assert(spec_step(spec_trim(t)) =~= st);
    } else {
        assert(t[0] == ' ');
        assert(is_wspace(t[0]));
        assert(t.drop_first() =~= d);
        assert(trim_start_rec(t) == trim_start_rec(d));
        assert(!is_wspace(d[0]));
        assert(trim_start_rec(d) == d);
        assert(!is_wspace(d.last()));
        assert(trim_end_rec(d) == d);
        assert(spec_trim(t) == d);
        lemma_find_char(d, ' ');
        let e = find_char(d, ' ');
        assert(e == d.len()) by {
            if e < d.len() {
                assert(d[e as int] == ' ');
            }
        }
        assert(spec_step(spec_trim(t)) =~= st);
    }
}

/// Every step the parser builds from a non-blank line without newlines is
/// well-formed in the sense of [`step_wf`].
pub proof fn lemma_parsed_step_wf(l: Seq<char>)
    requires
        spec_trim(l).len() > 0,
        forall|k: int| 0 <= k < l.len() ==> l[k] != '\n',
    ensures
        step_wf(spec_step(spec_trim(l))),
{
    let t = spec_trim(l);
    crate::text::lemma_trim_shape(l);
    crate::text::lemma_trim_no_char(l, '\n');
    lemma_find_char(t, ' ');
    let e = find_char(t, ' ');
    let st = spec_step(t);
    if e < t.len() {
        assert(e != 0) by {
            assert(!is_wspace(t[0]));
        }
        assert(e < t.len() - 1) by {
            if e == t.len() - 1 {
                assert(t.last() == ' ');
                assert(is_wspace(t.last()));
            }
        }
        assert(st.keyword == t.take(e as int));
        assert(st.description == t.skip(e as int + 1));
        assert(forall|k: int| 0 <= k < st.keyword.len() ==> st.keyword[k] == t[k]);
        assert(forall|k: int|
            0 <= k < st.description.len() ==> st.description[k] == t[e + 1 + k]);
        assert(st.description.last() == t.last());
        assert(!is_wspace(st.keyword[0]));
    } else {
        assert(st.keyword.len() == 0);
        assert(st.description == t);
    }
}

/// The indices of the lines of `lines` whose trimmed content starts with
/// `p`, in increasing order.
fn header_rows(lines: &[String], p: &str) -> (r: Vec<usize>)
    ensures
        r@.map_values(|u: usize| u as int) == header_idxs(strs_view(lines@), p@),
{
    let ghost lv = strs_view(lines@);
    let mut r: Vec<usize> = Vec::new();
    let mut i: usize = 0;
    proof {
        assert(r@.map_values(|u: usize| u as int) =~= Seq::<int>::empty());
    }
    while i < lines.len()
        invariant
            0 <= i <= lines@.len(),
            header_idxs(lv, p@) =~= r@.map_values(|u: usize| u as int) + header_idxs_from(
                lv,
                p@,
                i as int,
            ),
        decreases lines@.len() - i,
    {
        let ghost before = r@.map_values(|u: usize| u as int);
        let t = trim_str(lines[i].as_str());
        if str_starts_with(t, p) {
            r.push(i);
            proof {
                assert(r@.map_values(|u: usize| u as int) =~= before.push(i as int));
                assert(header_idxs_from(lv, p@, i as int) == seq![i as int] + header_idxs_from(
                    lv,
                    p@,
                    i as int + 1,
                ));
                assert(before + (seq![i as int] + header_idxs_from(lv, p@, i as int + 1))
                    =~= before.push(i as int) + header_idxs_from(lv, p@, i as int + 1));
            }
        } else {
            proof {
                assert(header_idxs_from(lv, p@, i as int) == header_idxs_from(lv, p@, i as int + 1));
            }
        }
        i = i + 1;
    }
    r
}

/// The name on a `Scenario:` header line, per [`spec_scenario_name`].
fn scenario_name_of(l: &str) -> (r: String)
    ensures
        r@ == spec_scenario_name(l@),
{
    let t = trim_str(l);
    if str_starts_with(t, "Scenario: ") {
        proof {
            reveal_strlit("Scenario: ");
        }
        let rest = t.substring_char(10, t.unicode_len());
        proof {
            assert(rest@ =~= t@.skip("Scenario: "@.len() as int));
        }
        let name = trim_str(rest);
        name.to_owned()
    } else {
        t.to_owned()
    }
}

/// The optional name on a `Feature:` header line, per [`spec_feature_name`].
fn feature_name_of(l: &str) -> (r: Option<String>)
    ensures
        opt_view(r) == spec_feature_name(l@),
{
    let t = trim_str(l);
    if str_starts_with(t, "Feature: ") {
        proof {
            reveal_strlit("Feature: ");
        }
        let rest = t.substring_char(9, t.unicode_len());
        proof {
            assert(rest@ =~= t@.skip("Feature: "@.len() as int));
        }
        let name = trim_str(rest);
        Some(name.to_owned())
    } else {
        None
    }
}

/// Parses one scenario block: the first line is the `Scenario:` header, and
/// every non-blank line after it becomes one step, in source order.
pub fn parse_scenario(block: &[String]) -> (r: Scenario)
    requires
        block@.len() >= 1,
    ensures
        r@ == spec_scenario(strs_view(block@)),
{
    let ghost bv = strs_view(block@);
    let name = scenario_name_of(block[0].as_str());
    let mut steps: Vec<Step> = Vec::new();
    let mut i: usize = 1;
    proof {
        assert(bv.drop_first().take(0) =~= Seq::<Seq<char>>::empty());
        assert(kept_lines(Seq::<Seq<char>>::empty()) =~= Seq::<Seq<char>>::empty());
        assert(steps@.map_values(|st: Step| st@) =~= Seq::<StepView>::empty());
    }
    while i < block.len()
        invariant
            1 <= i <= block@.len(),
            steps@.map_values(|st: Step| st@) =~= kept_lines(
                bv.drop_first().take(i - 1),
            ).map_values(|l: Seq<char>| spec_step(l)),
        decreases block@.len() - i,
    {
        let ghost done = bv.drop_first().take(i - 1);
        let ghost cur = bv.drop_first()[i - 1];
        let ghost steps_before = steps@.map_values(|st: Step| st@);
        let tl = trim_str(block[i].as_str());
        proof {
            assert(cur == bv[i as int]);
            assert(tl@ == spec_trim(cur));
        }
        if tl.unicode_len() > 0 {
            let st = Step::from_line(tl);
            steps.push(st);
            proof {
                assert(steps@.map_values(|st: Step| st@) =~= steps_before.push(spec_step(tl@)));
            }
        }
        proof {
            lemma_kept_lines_push(done, cur);
            assert(done.push(cur) =~= bv.drop_first().take(i as int));
            if spec_trim(cur).len() > 0 {
                assert(kept_lines(done).push(spec_trim(cur)).map_values(|l: Seq<char>| spec_step(l))
                    =~= kept_lines(done).map_values(|l: Seq<char>| spec_step(l)).push(
                    spec_step(spec_trim(cur))));
            }
        }
        i = i + 1;
    }
    proof {
        assert(bv.drop_first().take(block@.len() - 1) =~= bv.drop_first());
    }
    let r = Scenario { name, steps };
    proof {
        assert(r@ =~= spec_scenario(bv));
    }
    r
}

/// Parses one feature block, given the feature's already extracted optional
/// name: the lines between the header and the first `Scenario:` header form
/// the description, and the `Scenario:` headers partition the rest into
/// scenarios, in source order.
pub fn parse_feature(name: Option<String>, block: &[String]) -> (r: Feature)
    ensures
        r@ == spec_feature(opt_view(name), strs_view(block@)),
{
    let ghost bv = strs_view(block@);
    let n = block.len();
    let rows = header_rows(block, "Scenario:");
    let ghost sidx = header_idxs(bv, "Scenario:"@);
    proof {
        lemma_header_idxs_from(bv, "Scenario:"@, 0);
    }
    let desc_end: usize = if rows.len() == 0 {
        n
    } else {
        proof {
            assert(rows@.map_values(|u: usize| u as int)[0] == sidx[0]);
        }
        rows[0]
    };
    let ghost dlines: Seq<Seq<char>> = if desc_end >= 1 {
        bv.subrange(1, desc_end as int)
    } else {
        Seq::<Seq<char>>::empty()
    };
    let mut kept: Vec<String> = Vec::new();
    let mut i: usize = 1;
    proof {
        assert(kept.deep_view() =~= Seq::<Seq<char>>::empty());
        assert(kept_lines(Seq::<Seq<char>>::empty()) =~= Seq::<Seq<char>>::empty());
        if desc_end >= 1 {
            assert(dlines.take(0) =~= Seq::<Seq<char>>::empty());
        }
    }
    while i < desc_end
        invariant
            1 <= i,
            desc_end <= n == block@.len(),
            desc_end >= 1 ==> i <= desc_end,
            desc_end >= 1 ==> kept.deep_view() =~= kept_lines(dlines.take(i - 1)),
            desc_end == 0 ==> kept.deep_view() =~= Seq::<Seq<char>>::empty(),
        decreases desc_end - i,
    {
        let ghost done = dlines.take(i - 1);
        let ghost cur = dlines[i - 1];
        let ghost kept_before = kept.deep_view();
        let tl = trim_str(block[i].as_str());
        proof {
            assert(cur == bv[i as int]);
            assert(tl@ == spec_trim(cur));
        }
        if tl.unicode_len() > 0 {
            let owned = tl.to_owned();
            kept.push(owned);
            proof {
                assert(kept.deep_view() =~= kept_before.push(spec_trim(cur)));
            }
        }
        proof {
            lemma_kept_lines_push(done, cur);
            assert(done.push(cur) =~= dlines.take(i as int));
        }
        i = i + 1;
    }
    proof {
        if desc_end >= 1 {
            assert(dlines.take(desc_end - 1) =~= dlines);
        }
        assert(kept.deep_view() =~= kept_lines(dlines));
    }
    let description: Option<String> = if kept.len() > 0 {
        let joined = join_strs(&kept, "\n");
        proof {
            reveal_strlit("\n");
            assert("\n"@ =~= seq!['\n']);
        }
        Some(joined)
    } else {
        None
    };
    let mut scens: Vec<Scenario> = Vec::new();
    let mut j: usize = 0;
    proof {
        assert(scens@.map_values(|sc: Scenario| sc@) =~= Seq::<ScenarioView>::empty());
    }
    while j < rows.len()
        invariant
            0 <= j <= rows@.len(),
            rows@.len() == sidx.len(),
            scens@.map_values(|sc: Scenario| sc@) =~= Seq::new(
                j as nat,
                |jj: int|
                    spec_scenario(
                        bv.subrange(
                            sidx[jj],
                            if jj + 1 < sidx.len() {
                                sidx[jj + 1]
                            } else {
                                bv.len() as int
                            },
                        ),
                    ),
            ),
        decreases rows@.len() - j,
    {
        let ghost scens_before = scens@.map_values(|sc: Scenario| sc@);
        proof {
            assert(rows@.map_values(|u: usize| u as int)[j as int] == sidx[j as int]);
            if j + 1 < rows@.len() {
                assert(rows@.map_values(|u: usize| u as int)[j as int + 1] == sidx[j as int + 1]);
            }
        }
        let start = rows[j];
        let end = if j + 1 < rows.len() {
            rows[j + 1]
        } else {
            n
        };
        let sub = vstd::slice::slice_subrange(block, start, end);
        proof {
            assert(strs_view(sub@) =~= bv.subrange(start as int, end as int));
        }
        let sc = parse_scenario(sub);
        scens.push(sc);
        proof {
            assert(scens@.map_values(|sc: Scenario| sc@) =~= scens_before.push(sc@));
            assert(scens@.map_values(|sc: Scenario| sc@) =~= Seq::new(
                j as nat + 1,
                |jj: int|
                    spec_scenario(
                        bv.subrange(
                            sidx[jj],
                            if jj + 1 < sidx.len() {
                                sidx[jj + 1]
                            } else {
                                bv.len() as int
                            },
                        ),
                    ),
            ));
        }
        j = j + 1;
    }
    let r = Feature { name, description, scenarios: scens };
    proof {
        assert(r@ =~= spec_feature(opt_view(r.name), bv));
    }
    r
}

/// Parses a full input text into its features, per [`spec_parse`]: the
/// `Feature:` header lines partition the input's lines into blocks, one
/// feature each, in source order; an input without such a line is one
/// feature with an absent name.
pub fn parse_input(input: &str) -> (r: Vec<Feature>)
    ensures
        features_view(r@) == spec_parse(input@),
{
    let lines: Vec<String> = split_lines(input);
    let ghost lv = spec_lines(input@);
    proof {
        assert(strs_view(lines@) =~= lines.deep_view());
    }
    let rows = header_rows(lines.as_slice(), "Feature:");
    let ghost fidx = header_idxs(lv, "Feature:"@);
    proof {
        lemma_header_idxs_from(lv, "Feature:"@, 0);
    }
    let n = lines.len();
    let mut r: Vec<Feature> = Vec::new();
    if rows.len() == 0 {
        let f = parse_feature(None, lines.as_slice());
        r.push(f);
        proof {
            assert(features_view(r@) =~= seq![f@]);
        }
    } else {
        let mut k: usize = 0;
        proof {
            assert(features_view(r@) =~= Seq::<FeatureView>::empty());
        }
        while k < rows.len()
            invariant
                0 <= k <= rows@.len(),
                rows@.len() == fidx.len(),
                fidx.len() > 0,
                features_view(r@) =~= Seq::new(
                    k as nat,
                    |kk: int|
                        spec_feature(
                            spec_feature_name(lv[fidx[kk]]),
                            lv.subrange(
                                fidx[kk],
                                if kk + 1 < fidx.len() {
                                    fidx[kk + 1]
                                } else {
                                    lv.len() as int
                                },
                            ),
                        ),
                ),
            decreases rows@.len() - k,
        {
            let ghost before = features_view(r@);
            proof {
                assert(rows@.map_values(|u: usize| u as int)[k as int] == fidx[k as int]);
                if k + 1 < rows@.len() {
                    assert(rows@.map_values(|u: usize| u as int)[k as int + 1] == fidx[k as int
                        + 1]);
                }
            }
            let start = rows[k];
            let end = if k + 1 < rows.len() {
                rows[k + 1]
            } else {
                n
            };
            let name = feature_name_of(lines[start].as_str());
            let sub = vstd::slice::slice_subrange(lines.as_slice(), start, end);
            proof {
                assert(strs_view(sub@) =~= lv.subrange(start as int, end as int));
            }
            let f = parse_feature(name, sub);
            r.push(f);
            proof {
                assert(features_view(r@) =~= before.push(f@));
                assert(features_view(r@) =~= Seq::new(
                    k as nat + 1,
                    |kk: int|
                        spec_feature(
                            spec_feature_name(lv[fidx[kk]]),
                            lv.subrange(
                                fidx[kk],
                                if kk + 1 < fidx.len() {
                                    fidx[kk + 1]
                                } else {
                                    lv.len() as int
                                },
                            ),
                        ),
                ));
            }
            k = k + 1;
        }
    }
    r
}

} // verus!
