//! Selection between the two output dialects: a closed set of renderer
//! variants behind one `render` operation. An unrecognized selector is
//! reported by value; only an outermost entry point may turn that into a
//! process exit.

use vstd::prelude::*;

use crate::markdown_formatter;
use crate::markdown_formatter::md_output;
use crate::parser::Feature;
use crate::parser::features_view;
use crate::text::str_eq_str;
use crate::youtrack_formatter;
use crate::youtrack_formatter::yt_output;

verus! {

/// The closed set of output dialects.
#[derive(Clone, Copy, Debug, PartialEq, Eq, Structural)]
pub enum RenderFormat {
    Markdown,
    Youtrack,
}

/// Resolves a format selector: `"markdown"` and `"youtrack"` name the two
/// dialects; anything else is unrecognized and yields `None`.
pub fn parse_render_format(name: &str) -> (r: Option<RenderFormat>)
    ensures
        name@ == "markdown"@ ==> r == Some(RenderFormat::Markdown),
        name@ == "youtrack"@ ==> r == Some(RenderFormat::Youtrack),
        name@ != "markdown"@ && name@ != "youtrack"@ ==> r is None,
{
    proof {
        reveal_strlit("markdown");
        reveal_strlit("youtrack");
        assert("markdown"@ != "youtrack"@) by {
            assert("markdown"@[0] == 'm' && "youtrack"@[0] == 'y');
        }
    }
    if str_eq_str(name, "markdown") {
        Some(RenderFormat::Markdown)
    } else if str_eq_str(name, "youtrack") {
        Some(RenderFormat::Youtrack)
    } else {
        None
    }
}

/// Renders the features in the selected dialect.
pub fn render(format: RenderFormat, features: &Vec<Feature>) -> (r: String)
    ensures
        format == RenderFormat::Markdown ==> r@ == md_output(features_view(features@)),
        format == RenderFormat::Youtrack ==> r@ == yt_output(features_view(features@)),
{
    match format {
        RenderFormat::Markdown => markdown_formatter::format(features),
        RenderFormat::Youtrack => youtrack_formatter::format(features),
    }
}

} // verus!
