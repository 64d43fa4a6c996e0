use vstd::prelude::*;

use crate::markdown::chars::ascii_lower;
use crate::markdown::inline::lower_is;
use crate::text::chars_of;

verus! {

/// Where the rendered document goes: an HTML file or a PNG screenshot.
#[derive(Debug, PartialEq, Eq)]
pub enum OutputTarget {
    Html(String),
    Png(String),
}

/// The mathematical value of an [`OutputTarget`].
pub enum TargetM {
    Html(Seq<char>),
    Png(Seq<char>),
}

impl View for OutputTarget {
    type V = TargetM;

    open spec fn view(&self) -> TargetM {
        match self {
            OutputTarget::Html(p) => TargetM::Html(p@),
            OutputTarget::Png(p) => TargetM::Png(p@),
        }
    }
}

/// A path that ends in `.png`, letter case aside.
pub open spec fn png_path(p: Seq<char>) -> bool {
    &&& p.len() >= 4
    &&& p[p.len() - 4] == '.'
    &&& ascii_lower(p[p.len() - 3]) == 'p'
    &&& ascii_lower(p[p.len() - 2]) == 'n'
    &&& ascii_lower(p[p.len() - 1]) == 'g'
}

/// The targets of the render command, in order: `--html`, `--png`, then `--output`,
/// whose extension picks the format.
pub open spec fn targets_m(output: Option<String>, html: Option<String>, png: Option<String>) -> Seq<
    TargetM,
> {
    (match html {
        Some(p) => seq![TargetM::Html(p@)],
        None => Seq::empty(),
    }) + (match png {
        Some(p) => seq![TargetM::Png(p@)],
        None => Seq::empty(),
    }) + (match output {
        Some(p) => if png_path(p@) {
            seq![TargetM::Png(p@)]
        } else {
            seq![TargetM::Html(p@)]
        },
        None => Seq::empty(),
    })
}

/// Whether a path ends in `.png`, letter case aside.
pub fn is_png_path(path: &str) -> (b: bool)
    ensures
        b == png_path(path@),
{
    let chars = chars_of(path);
    let n = chars.len();
    n >= 4 && chars[n - 4] == '.' && lower_is(chars[n - 3], 'p') && lower_is(chars[n - 2], 'n')
        && lower_is(chars[n - 1], 'g')
}

/// Collects the render command's output targets.
pub fn resolve_targets(output: Option<String>, html: Option<String>, png: Option<String>) -> (r:
    Vec<OutputTarget>)
    ensures
        r@.map_values(|t: OutputTarget| t@) == targets_m(output, html, png),
{
    let ghost (o, h, p) = (output, html, png);
    let mut targets: Vec<OutputTarget> = Vec::new();
    if let Some(path) = html {
        targets.push(OutputTarget::Html(path));
    }
    if let Some(path) = png {
        targets.push(OutputTarget::Png(path));
    }
    if let Some(path) = output {
        if is_png_path(path.as_str()) {
            targets.push(OutputTarget::Png(path));
        } else {
            targets.push(OutputTarget::Html(path));
        }
    }
    assert(targets@.map_values(|t: OutputTarget| t@) =~= targets_m(o, h, p));
    targets
}

} // verus!
