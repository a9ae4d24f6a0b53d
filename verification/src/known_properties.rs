//! The vocabulary of CSS property names.
//!
//! The names, standard and legacy, are kept in ASCII lower case and grouped
//! by their first word: `border` with its endings `""`, `-block`,
//! `-block-color`, … stands for `border`, `border-block`,
//! `border-block-color`, ….

use vstd::prelude::*;

verus! {

/// Each group: a first word, and the endings that complete a property name
/// with it (the empty ending for the word alone).
pub open spec fn property_groups() -> Seq<(&'static str, Seq<&'static str>)> {
    seq![
        ("accent", seq!["-color"]),
        ("align", seq!["-content", "-items", "-self", "-tracks"]),
        ("alignment", seq!["-baseline"]),
        ("all", seq![""]),
        ("anchor", seq!["-name", "-scope"]),
        ("animation", seq![
            "", "-composition", "-delay", "-direction", "-duration", "-fill-mode",
            "-iteration-count", "-name", "-play-state", "-range", "-range-end", "-range-start",
            "-timeline", "-timing-function",
        ]),
        ("appearance", seq![""]),
        ("aspect", seq!["-ratio"]),
        ("azimuth", seq![""]),
        ("backdrop", seq!["-filter"]),
        ("backface", seq!["-visibility"]),
        ("background", seq![
            "", "-attachment", "-blend-mode", "-clip", "-color", "-image", "-origin", "-position",
            "-position-x", "-position-y", "-repeat", "-size",
        ]),
        ("baseline", seq!["-shift", "-source"]),
        ("block", seq![
            "-ellipsis", "-size", "-step", "-step-align", "-step-insert", "-step-round",
            "-step-size",
        ]),
        ("bookmark", seq!["-label", "-level", "-state"]),
        ("border", seq![
            "", "-block", "-block-color", "-block-end", "-block-end-color", "-block-end-style",
            "-block-end-width", "-block-start", "-block-start-color", "-block-start-style",
            "-block-start-width", "-block-style", "-block-width", "-bottom", "-bottom-color",
            "-bottom-left-radius", "-bottom-right-radius", "-bottom-style", "-bottom-width",
            "-boundary", "-collapse", "-color", "-end-end-radius", "-end-start-radius", "-image",
            "-image-outset", "-image-repeat", "-image-slice", "-image-source", "-image-width",
            "-inline", "-inline-color", "-inline-end", "-inline-end-color", "-inline-end-style",
            "-inline-end-width", "-inline-start", "-inline-start-color", "-inline-start-style",
            "-inline-start-width", "-inline-style", "-inline-width", "-left", "-left-color",
            "-left-style", "-left-width", "-radius", "-right", "-right-color", "-right-style",
            "-right-width", "-spacing", "-start-end-radius", "-start-start-radius", "-style",
            "-top", "-top-color", "-top-left-radius", "-top-right-radius", "-top-style",
            "-top-width", "-width",
        ]),
        ("bottom", seq![""]),
        ("box", seq!["-decoration-break", "-shadow", "-sizing", "-snap"]),
        ("break", seq!["-after", "-before", "-inside"]),
        ("caption", seq!["-side"]),
        ("caret", seq!["", "-color", "-shape"]),
        ("clear", seq![""]),
        ("clip", seq!["", "-path", "-rule"]),
        ("color", seq![
            "", "-adjust", "-interpolation", "-interpolation-filters", "-rendering", "-scheme",
        ]),
        ("column", seq![
            "-count", "-fill", "-gap", "-rule", "-rule-color", "-rule-style", "-rule-width",
            "-span", "-width",
        ]),
        ("columns", seq![""]),
        ("contain", seq![
            "", "-intrinsic-block-size", "-intrinsic-height", "-intrinsic-inline-size",
            "-intrinsic-size", "-intrinsic-width",
        ]),
        ("container", seq!["", "-name", "-type"]),
        ("content", seq!["", "-visibility"]),
        ("continue", seq![""]),
        ("counter", seq!["-increment", "-reset", "-set"]),
        ("cue", seq!["", "-after", "-before"]),
        ("cursor", seq![""]),
        ("cx", seq![""]),
        ("cy", seq![""]),
        ("d", seq![""]),
        ("direction", seq![""]),
        ("display", seq![""]),
        ("dominant", seq!["-baseline"]),
        ("elevation", seq![""]),
        ("empty", seq!["-cells"]),
        ("fill", seq![
            "", "-break", "-color", "-image", "-opacity", "-origin", "-position", "-repeat",
            "-rule", "-size",
        ]),
        ("filter", seq![""]),
        ("flex", seq!["", "-basis", "-direction", "-flow", "-grow", "-shrink", "-wrap"]),
        ("float", seq!["", "-defer", "-offset", "-reference"]),
        ("flood", seq!["-color", "-opacity"]),
        ("flow", seq!["-from", "-into"]),
        ("font", seq![
            "", "-family", "-feature-settings", "-kerning", "-language-override", "-optical-sizing",
            "-palette", "-size", "-size-adjust", "-smooth", "-stretch", "-style", "-synthesis",
            "-synthesis-position", "-synthesis-small-caps", "-synthesis-style", "-synthesis-weight",
            "-variant", "-variant-alternates", "-variant-caps", "-variant-east-asian",
            "-variant-emoji", "-variant-ligatures", "-variant-numeric", "-variant-position",
            "-variation-settings", "-weight", "-width",
        ]),
        ("footnote", seq!["-display", "-policy"]),
        ("forced", seq!["-color-adjust"]),
        ("gap", seq![""]),
        ("glyph", seq!["-orientation-horizontal", "-orientation-vertical"]),
        ("grid", seq![
            "", "-area", "-auto-columns", "-auto-flow", "-auto-rows", "-column", "-column-end",
            "-column-gap", "-column-start", "-gap", "-row", "-row-end", "-row-gap", "-row-start",
            "-template", "-template-areas", "-template-columns", "-template-rows",
        ]),
        ("hanging", seq!["-punctuation"]),
        ("height", seq![""]),
        ("hyphenate", seq![
            "-character", "-limit-chars", "-limit-last", "-limit-lines", "-limit-zone",
        ]),
        ("hyphens", seq![""]),
        ("image", seq!["-orientation", "-rendering", "-resolution"]),
        ("ime", seq!["-mode"]),
        ("initial", seq!["-letter", "-letter-align", "-letter-wrap"]),
        ("inline", seq!["-size", "-sizing"]),
        ("inset", seq![
            "", "-area", "-block", "-block-end", "-block-start", "-inline", "-inline-end",
            "-inline-start",
        ]),
        ("interpolate", seq!["-size"]),
        ("isolation", seq![""]),
        ("justify", seq!["-content", "-items", "-self", "-tracks"]),
        ("left", seq![""]),
        ("letter", seq!["-spacing"]),
        ("lighting", seq!["-color"]),
        ("line", seq![
            "-break", "-clamp", "-fit-edge", "-gap", "-grid", "-height", "-height-step", "-padding",
            "-snap",
        ]),
        ("list", seq!["-style", "-style-image", "-style-position", "-style-type"]),
        ("margin", seq![
            "", "-block", "-block-end", "-block-start", "-bottom", "-break", "-inline",
            "-inline-end", "-inline-start", "-left", "-right", "-top", "-trim",
        ]),
        ("marker", seq![
            "", "-end", "-knockout-left", "-knockout-right", "-mid", "-pattern", "-segment",
            "-side", "-start",
        ]),
        ("mask", seq![
            "", "-border", "-border-mode", "-border-outset", "-border-repeat", "-border-slice",
            "-border-source", "-border-width", "-clip", "-composite", "-image", "-mode", "-origin",
            "-position", "-repeat", "-size", "-type",
        ]),
        ("masonry", seq!["-auto-flow"]),
        ("math", seq!["-depth", "-shift", "-style"]),
        ("max", seq!["-block-size", "-height", "-inline-size", "-lines", "-width"]),
        ("min", seq!["-block-size", "-height", "-inline-size", "-intrinsic-sizing", "-width"]),
        ("mix", seq!["-blend-mode"]),
        ("nav", seq!["-down", "-left", "-right", "-up"]),
        ("object", seq!["-fit", "-position", "-view-box"]),
        ("offset", seq!["", "-anchor", "-distance", "-path", "-position", "-rotate"]),
        ("opacity", seq![""]),
        ("order", seq![""]),
        ("orphans", seq![""]),
        ("outline", seq!["", "-color", "-offset", "-style", "-width"]),
        ("overflow", seq![
            "", "-anchor", "-block", "-clip-margin", "-clip-margin-block", "-clip-margin-block-end",
            "-clip-margin-block-start", "-clip-margin-bottom", "-clip-margin-inline",
            "-clip-margin-inline-end", "-clip-margin-inline-start", "-clip-margin-left",
            "-clip-margin-right", "-clip-margin-top", "-inline", "-wrap", "-x", "-y",
        ]),
        ("overlay", seq![""]),
        ("overscroll", seq![
            "-behavior", "-behavior-block", "-behavior-inline", "-behavior-x", "-behavior-y",
        ]),
        ("padding", seq![
            "", "-block", "-block-end", "-block-start", "-bottom", "-inline", "-inline-end",
            "-inline-start", "-left", "-right", "-top",
        ]),
        ("page", seq!["", "-break-after", "-break-before", "-break-inside"]),
        ("paint", seq!["-order"]),
        ("pause", seq!["", "-after", "-before"]),
        ("perspective", seq!["", "-origin"]),
        ("pitch", seq!["", "-range"]),
        ("place", seq!["-content", "-items", "-self"]),
        ("play", seq!["-during"]),
        ("pointer", seq!["-events"]),
        ("position", seq![
            "", "-anchor", "-area", "-try", "-try-fallbacks", "-try-order", "-visibility",
        ]),
        ("print", seq!["-color-adjust"]),
        ("quotes", seq![""]),
        ("r", seq![""]),
        ("reading", seq!["-flow"]),
        ("region", seq!["-fragment"]),
        ("resize", seq![""]),
        ("rest", seq!["", "-after", "-before"]),
        ("richness", seq![""]),
        ("right", seq![""]),
        ("rotate", seq![""]),
        ("row", seq!["-gap"]),
        ("ruby", seq!["-align", "-merge", "-overhang", "-position"]),
        ("rx", seq![""]),
        ("ry", seq![""]),
        ("scale", seq![""]),
        ("scroll", seq![
            "-behavior", "-margin", "-margin-block", "-margin-block-end", "-margin-block-start",
            "-margin-bottom", "-margin-inline", "-margin-inline-end", "-margin-inline-start",
            "-margin-left", "-margin-right", "-margin-top", "-marker-group", "-padding",
            "-padding-block", "-padding-block-end", "-padding-block-start", "-padding-bottom",
            "-padding-inline", "-padding-inline-end", "-padding-inline-start", "-padding-left",
            "-padding-right", "-padding-top", "-snap-align", "-snap-stop", "-snap-type", "-start",
            "-start-target", "-timeline", "-timeline-axis", "-timeline-name",
        ]),
        ("scrollbar", seq!["-color", "-gutter", "-width"]),
        ("shape", seq![
            "-image-threshold", "-inside", "-margin", "-outside", "-padding", "-rendering",
            "-subtract",
        ]),
        ("speak", seq!["", "-as", "-header", "-numeral", "-punctuation"]),
        ("speech", seq!["-rate"]),
        ("stop", seq!["-color", "-opacity"]),
        ("stress", seq![""]),
        ("string", seq!["-set"]),
        ("stroke", seq![
            "", "-align", "-alignment", "-break", "-color", "-dash-corner", "-dash-justify",
            "-dashadjust", "-dasharray", "-dashcorner", "-dashoffset", "-image", "-linecap",
            "-linejoin", "-miterlimit", "-opacity", "-origin", "-position", "-repeat", "-size",
            "-width",
        ]),
        ("tab", seq!["-size"]),
        ("table", seq!["-layout"]),
        ("text", seq![
            "-align", "-align-all", "-align-last", "-anchor", "-autospace", "-box", "-box-edge",
            "-box-trim", "-combine-upright", "-decoration", "-decoration-color", "-decoration-line",
            "-decoration-skip", "-decoration-skip-box", "-decoration-skip-ink",
            "-decoration-skip-inset", "-decoration-skip-self", "-decoration-skip-spaces",
            "-decoration-style", "-decoration-thickness", "-emphasis", "-emphasis-color",
            "-emphasis-position", "-emphasis-skip", "-emphasis-style", "-group-align", "-indent",
            "-justify", "-orientation", "-overflow", "-rendering", "-shadow", "-size-adjust",
            "-spacing", "-spacing-trim", "-transform", "-underline-offset", "-underline-position",
            "-wrap", "-wrap-mode", "-wrap-style",
        ]),
        ("timeline", seq!["-scope"]),
        ("top", seq![""]),
        ("transform", seq!["", "-box", "-origin", "-style"]),
        ("transition", seq![
            "", "-behavior", "-delay", "-duration", "-property", "-timing-function",
        ]),
        ("translate", seq![""]),
        ("unicode", seq!["-bidi"]),
        ("user", seq!["-select"]),
        ("vector", seq!["-effect"]),
        ("vertical", seq!["-align"]),
        ("view", seq![
            "-timeline", "-timeline-axis", "-timeline-inset", "-timeline-name", "-transition-class",
            "-transition-name",
        ]),
        ("visibility", seq![""]),
        ("voice", seq![
            "-balance", "-duration", "-family", "-pitch", "-range", "-rate", "-stress", "-volume",
        ]),
        ("volume", seq![""]),
        ("white", seq!["-space", "-space-collapse", "-space-trim"]),
        ("widows", seq![""]),
        ("width", seq![""]),
        ("will", seq!["-change"]),
        ("word", seq!["-break", "-space-transform", "-spacing", "-wrap"]),
        ("wrap", seq!["-after", "-before", "-flow", "-inside", "-through"]),
        ("writing", seq!["-mode"]),
        ("x", seq![""]),
        ("y", seq![""]),
        ("z", seq!["-index"]),
        ("zoom", seq![""]),
    ]
}

/// `name` is a property CSS defines: some group's word followed by one of
/// its endings.
pub open spec fn is_known_property(name: Seq<char>) -> bool {
    exists|i: int, j: int|
        0 <= i < property_groups().len() && 0 <= j < property_groups()[i].1.len()
            && property_groups()[i].0@ + (#[trigger] property_groups()[i].1[j])@ == name
}

/// The table of [`property_groups`].
pub fn property_group_list() -> (r: Vec<(&'static str, Vec<&'static str>)>)
    ensures
        r@.len() == property_groups().len(),
        forall|i: int|
            0 <= i < r@.len() ==> (#[trigger] r@[i]).0 == property_groups()[i].0 && r@[i].1@
                == property_groups()[i].1,
{
    vec![
        ("accent", vec!["-color"]),
        ("align", vec!["-content", "-items", "-self", "-tracks"]),
        ("alignment", vec!["-baseline"]),
        ("all", vec![""]),
        ("anchor", vec!["-name", "-scope"]),
        ("animation", vec![
            "", "-composition", "-delay", "-direction", "-duration", "-fill-mode",
            "-iteration-count", "-name", "-play-state", "-range", "-range-end", "-range-start",
            "-timeline", "-timing-function",
        ]),
        ("appearance", vec![""]),
        ("aspect", vec!["-ratio"]),
        ("azimuth", vec![""]),
        ("backdrop", vec!["-filter"]),
        ("backface", vec!["-visibility"]),
        ("background", vec![
            "", "-attachment", "-blend-mode", "-clip", "-color", "-image", "-origin", "-position",
            "-position-x", "-position-y", "-repeat", "-size",
        ]),
        ("baseline", vec!["-shift", "-source"]),
        ("block", vec![
            "-ellipsis", "-size", "-step", "-step-align", "-step-insert", "-step-round",
            "-step-size",
        ]),
        ("bookmark", vec!["-label", "-level", "-state"]),
        ("border", vec![
            "", "-block", "-block-color", "-block-end", "-block-end-color", "-block-end-style",
            "-block-end-width", "-block-start", "-block-start-color", "-block-start-style",
            "-block-start-width", "-block-style", "-block-width", "-bottom", "-bottom-color",
            "-bottom-left-radius", "-bottom-right-radius", "-bottom-style", "-bottom-width",
            "-boundary", "-collapse", "-color", "-end-end-radius", "-end-start-radius", "-image",
            "-image-outset", "-image-repeat", "-image-slice", "-image-source", "-image-width",
            "-inline", "-inline-color", "-inline-end", "-inline-end-color", "-inline-end-style",
            "-inline-end-width", "-inline-start", "-inline-start-color", "-inline-start-style",
            "-inline-start-width", "-inline-style", "-inline-width", "-left", "-left-color",
            "-left-style", "-left-width", "-radius", "-right", "-right-color", "-right-style",
            "-right-width", "-spacing", "-start-end-radius", "-start-start-radius", "-style",
            "-top", "-top-color", "-top-left-radius", "-top-right-radius", "-top-style",
            "-top-width", "-width",
        ]),
        ("bottom", vec![""]),
        ("box", vec!["-decoration-break", "-shadow", "-sizing", "-snap"]),
        ("break", vec!["-after", "-before", "-inside"]),
        ("caption", vec!["-side"]),
        ("caret", vec!["", "-color", "-shape"]),
        ("clear", vec![""]),
        ("clip", vec!["", "-path", "-rule"]),
        ("color", vec![
            "", "-adjust", "-interpolation", "-interpolation-filters", "-rendering", "-scheme",
        ]),
        ("column", vec![
            "-count", "-fill", "-gap", "-rule", "-rule-color", "-rule-style", "-rule-width",
            "-span", "-width",
        ]),
        ("columns", vec![""]),
        ("contain", vec![
            "", "-intrinsic-block-size", "-intrinsic-height", "-intrinsic-inline-size",
            "-intrinsic-size", "-intrinsic-width",
        ]),
        ("container", vec!["", "-name", "-type"]),
        ("content", vec!["", "-visibility"]),
        ("continue", vec![""]),
        ("counter", vec!["-increment", "-reset", "-set"]),
        ("cue", vec!["", "-after", "-before"]),
        ("cursor", vec![""]),
        ("cx", vec![""]),
        ("cy", vec![""]),
        ("d", vec![""]),
        ("direction", vec![""]),
        ("display", vec![""]),
        ("dominant", vec!["-baseline"]),
        ("elevation", vec![""]),
        ("empty", vec!["-cells"]),
        ("fill", vec![
            "", "-break", "-color", "-image", "-opacity", "-origin", "-position", "-repeat",
            "-rule", "-size",
        ]),
        ("filter", vec![""]),
        ("flex", vec!["", "-basis", "-direction", "-flow", "-grow", "-shrink", "-wrap"]),
        ("float", vec!["", "-defer", "-offset", "-reference"]),
        ("flood", vec!["-color", "-opacity"]),
        ("flow", vec!["-from", "-into"]),
        ("font", vec![
            "", "-family", "-feature-settings", "-kerning", "-language-override", "-optical-sizing",
            "-palette", "-size", "-size-adjust", "-smooth", "-stretch", "-style", "-synthesis",
            "-synthesis-position", "-synthesis-small-caps", "-synthesis-style", "-synthesis-weight",
            "-variant", "-variant-alternates", "-variant-caps", "-variant-east-asian",
            "-variant-emoji", "-variant-ligatures", "-variant-numeric", "-variant-position",
            "-variation-settings", "-weight", "-width",
        ]),
        ("footnote", vec!["-display", "-policy"]),
        ("forced", vec!["-color-adjust"]),
        ("gap", vec![""]),
        ("glyph", vec!["-orientation-horizontal", "-orientation-vertical"]),
        ("grid", vec![
            "", "-area", "-auto-columns", "-auto-flow", "-auto-rows", "-column", "-column-end",
            "-column-gap", "-column-start", "-gap", "-row", "-row-end", "-row-gap", "-row-start",
            "-template", "-template-areas", "-template-columns", "-template-rows",
        ]),
        ("hanging", vec!["-punctuation"]),
        ("height", vec![""]),
        ("hyphenate", vec![
            "-character", "-limit-chars", "-limit-last", "-limit-lines", "-limit-zone",
        ]),
        ("hyphens", vec![""]),
        ("image", vec!["-orientation", "-rendering", "-resolution"]),
        ("ime", vec!["-mode"]),
        ("initial", vec!["-letter", "-letter-align", "-letter-wrap"]),
        ("inline", vec!["-size", "-sizing"]),
        ("inset", vec![
            "", "-area", "-block", "-block-end", "-block-start", "-inline", "-inline-end",
            "-inline-start",
        ]),
        ("interpolate", vec!["-size"]),
        ("isolation", vec![""]),
        ("justify", vec!["-content", "-items", "-self", "-tracks"]),
        ("left", vec![""]),
        ("letter", vec!["-spacing"]),
        ("lighting", vec!["-color"]),
        ("line", vec![
            "-break", "-clamp", "-fit-edge", "-gap", "-grid", "-height", "-height-step", "-padding",
            "-snap",
        ]),
        ("list", vec!["-style", "-style-image", "-style-position", "-style-type"]),
        ("margin", vec![
            "", "-block", "-block-end", "-block-start", "-bottom", "-break", "-inline",
            "-inline-end", "-inline-start", "-left", "-right", "-top", "-trim",
        ]),
        ("marker", vec![
            "", "-end", "-knockout-left", "-knockout-right", "-mid", "-pattern", "-segment",
            "-side", "-start",
        ]),
        ("mask", vec![
            "", "-border", "-border-mode", "-border-outset", "-border-repeat", "-border-slice",
            "-border-source", "-border-width", "-clip", "-composite", "-image", "-mode", "-origin",
            "-position", "-repeat", "-size", "-type",
        ]),
        ("masonry", vec!["-auto-flow"]),
        ("math", vec!["-depth", "-shift", "-style"]),
        ("max", vec!["-block-size", "-height", "-inline-size", "-lines", "-width"]),
        ("min", vec!["-block-size", "-height", "-inline-size", "-intrinsic-sizing", "-width"]),
        ("mix", vec!["-blend-mode"]),
        ("nav", vec!["-down", "-left", "-right", "-up"]),
        ("object", vec!["-fit", "-position", "-view-box"]),
        ("offset", vec!["", "-anchor", "-distance", "-path", "-position", "-rotate"]),
        ("opacity", vec![""]),
        ("order", vec![""]),
        ("orphans", vec![""]),
        ("outline", vec!["", "-color", "-offset", "-style", "-width"]),
        ("overflow", vec![
            "", "-anchor", "-block", "-clip-margin", "-clip-margin-block", "-clip-margin-block-end",
            "-clip-margin-block-start", "-clip-margin-bottom", "-clip-margin-inline",
            "-clip-margin-inline-end", "-clip-margin-inline-start", "-clip-margin-left",
            "-clip-margin-right", "-clip-margin-top", "-inline", "-wrap", "-x", "-y",
        ]),
        ("overlay", vec![""]),
        ("overscroll", vec![
            "-behavior", "-behavior-block", "-behavior-inline", "-behavior-x", "-behavior-y",
        ]),
        ("padding", vec![
            "", "-block", "-block-end", "-block-start", "-bottom", "-inline", "-inline-end",
            "-inline-start", "-left", "-right", "-top",
        ]),
        ("page", vec!["", "-break-after", "-break-before", "-break-inside"]),
        ("paint", vec!["-order"]),
        ("pause", vec!["", "-after", "-before"]),
        ("perspective", vec!["", "-origin"]),
        ("pitch", vec!["", "-range"]),
        ("place", vec!["-content", "-items", "-self"]),
        ("play", vec!["-during"]),
        ("pointer", vec!["-events"]),
        ("position", vec![
            "", "-anchor", "-area", "-try", "-try-fallbacks", "-try-order", "-visibility",
        ]),
        ("print", vec!["-color-adjust"]),
        ("quotes", vec![""]),
        ("r", vec![""]),
        ("reading", vec!["-flow"]),
        ("region", vec!["-fragment"]),
        ("resize", vec![""]),
        ("rest", vec!["", "-after", "-before"]),
        ("richness", vec![""]),
        ("right", vec![""]),
        ("rotate", vec![""]),
        ("row", vec!["-gap"]),
        ("ruby", vec!["-align", "-merge", "-overhang", "-position"]),
        ("rx", vec![""]),
        ("ry", vec![""]),
        ("scale", vec![""]),
        ("scroll", vec![
            "-behavior", "-margin", "-margin-block", "-margin-block-end", "-margin-block-start",
            "-margin-bottom", "-margin-inline", "-margin-inline-end", "-margin-inline-start",
            "-margin-left", "-margin-right", "-margin-top", "-marker-group", "-padding",
            "-padding-block", "-padding-block-end", "-padding-block-start", "-padding-bottom",
            "-padding-inline", "-padding-inline-end", "-padding-inline-start", "-padding-left",
            "-padding-right", "-padding-top", "-snap-align", "-snap-stop", "-snap-type", "-start",
            "-start-target", "-timeline", "-timeline-axis", "-timeline-name",
        ]),
        ("scrollbar", vec!["-color", "-gutter", "-width"]),
        ("shape", vec![
            "-image-threshold", "-inside", "-margin", "-outside", "-padding", "-rendering",
            "-subtract",
        ]),
        ("speak", vec!["", "-as", "-header", "-numeral", "-punctuation"]),
        ("speech", vec!["-rate"]),
        ("stop", vec!["-color", "-opacity"]),
        ("stress", vec![""]),
        ("string", vec!["-set"]),
        ("stroke", vec![
            "", "-align", "-alignment", "-break", "-color", "-dash-corner", "-dash-justify",
            "-dashadjust", "-dasharray", "-dashcorner", "-dashoffset", "-image", "-linecap",
            "-linejoin", "-miterlimit", "-opacity", "-origin", "-position", "-repeat", "-size",
            "-width",
        ]),
        ("tab", vec!["-size"]),
        ("table", vec!["-layout"]),
        ("text", vec![
            "-align", "-align-all", "-align-last", "-anchor", "-autospace", "-box", "-box-edge",
            "-box-trim", "-combine-upright", "-decoration", "-decoration-color", "-decoration-line",
            "-decoration-skip", "-decoration-skip-box", "-decoration-skip-ink",
            "-decoration-skip-inset", "-decoration-skip-self", "-decoration-skip-spaces",
            "-decoration-style", "-decoration-thickness", "-emphasis", "-emphasis-color",
            "-emphasis-position", "-emphasis-skip", "-emphasis-style", "-group-align", "-indent",
            "-justify", "-orientation", "-overflow", "-rendering", "-shadow", "-size-adjust",
            "-spacing", "-spacing-trim", "-transform", "-underline-offset", "-underline-position",
            "-wrap", "-wrap-mode", "-wrap-style",
        ]),
        ("timeline", vec!["-scope"]),
        ("top", vec![""]),
        ("transform", vec!["", "-box", "-origin", "-style"]),
        ("transition", vec![
            "", "-behavior", "-delay", "-duration", "-property", "-timing-function",
        ]),
        ("translate", vec![""]),
        ("unicode", vec!["-bidi"]),
        ("user", vec!["-select"]),
        ("vector", vec!["-effect"]),
        ("vertical", vec!["-align"]),
        ("view", vec![
            "-timeline", "-timeline-axis", "-timeline-inset", "-timeline-name", "-transition-class",
            "-transition-name",
        ]),
        ("visibility", vec![""]),
        ("voice", vec![
            "-balance", "-duration", "-family", "-pitch", "-range", "-rate", "-stress", "-volume",
        ]),
        ("volume", vec![""]),
        ("white", vec!["-space", "-space-collapse", "-space-trim"]),
        ("widows", vec![""]),
        ("width", vec![""]),
        ("will", vec!["-change"]),
        ("word", vec!["-break", "-space-transform", "-spacing", "-wrap"]),
        ("wrap", vec!["-after", "-before", "-flow", "-inside", "-through"]),
        ("writing", vec!["-mode"]),
        ("x", vec![""]),
        ("y", vec![""]),
        ("z", vec!["-index"]),
        ("zoom", vec![""]),
    ]
}

} // verus!
