//! Per-at-rule descriptor vocabularies. Each at-rule below defines its own
//! closed set of descriptor names, sorted.

use vstd::prelude::*;

use crate::text::{ascii_lowercase, str_eq};

verus! {

pub open spec fn counter_style_descriptors() -> Seq<&'static str> {
    seq!["additive-symbols", "fallback", "negative", "pad", "prefix", "range", "speak-as", "suffix", "symbols", "system"]
}

fn counter_style_descriptors_list() -> (r: Vec<&'static str>)
    ensures
        r@ == counter_style_descriptors(),
{
    vec!["additive-symbols", "fallback", "negative", "pad", "prefix", "range", "speak-as", "suffix", "symbols", "system"]
}

pub open spec fn font_face_descriptors() -> Seq<&'static str> {
    seq!["ascent-override", "descent-override", "font-display", "font-family", "font-feature-settings", "font-stretch", "font-style", "font-variation-settings", "font-weight", "line-gap-override", "size-adjust", "src", "unicode-range"]
}

fn font_face_descriptors_list() -> (r: Vec<&'static str>)
    ensures
        r@ == font_face_descriptors(),
{
    vec!["ascent-override", "descent-override", "font-display", "font-family", "font-feature-settings", "font-stretch", "font-style", "font-variation-settings", "font-weight", "line-gap-override", "size-adjust", "src", "unicode-range"]
}

pub open spec fn font_palette_values_descriptors() -> Seq<&'static str> {
    seq!["base-palette", "font-family", "override-colors"]
}

fn font_palette_values_descriptors_list() -> (r: Vec<&'static str>)
    ensures
        r@ == font_palette_values_descriptors(),
{
    vec!["base-palette", "font-family", "override-colors"]
}

pub open spec fn page_descriptors() -> Seq<&'static str> {
    seq!["bleed", "marks", "page-orientation", "size"]
}

fn page_descriptors_list() -> (r: Vec<&'static str>)
    ensures
        r@ == page_descriptors(),
{
    vec!["bleed", "marks", "page-orientation", "size"]
}

pub open spec fn property_descriptors() -> Seq<&'static str> {
    seq!["inherits", "initial-value", "syntax"]
}

fn property_descriptors_list() -> (r: Vec<&'static str>)
    ensures
        r@ == property_descriptors(),
{
    vec!["inherits", "initial-value", "syntax"]
}

pub open spec fn view_transition_descriptors() -> Seq<&'static str> {
    seq!["navigation", "types"]
}

fn view_transition_descriptors_list() -> (r: Vec<&'static str>)
    ensures
        r@ == view_transition_descriptors(),
{
    vec!["navigation", "types"]
}

/// The canonical at-rule name and its descriptor set, for a lower-cased
/// at-rule name (without the leading `@`). `None` for at-rules whose body is
/// not a descriptor list.
pub open spec fn descriptor_set(at_rule: Seq<char>) -> Option<(&'static str, Seq<&'static str>)> {
    if at_rule == "counter-style"@ {
        Some(("counter-style", counter_style_descriptors()))
    } else if at_rule == "font-face"@ {
        Some(("font-face", font_face_descriptors()))
    } else if at_rule == "font-palette-values"@ {
        Some(("font-palette-values", font_palette_values_descriptors()))
    } else if at_rule == "page"@ {
        Some(("page", page_descriptors()))
    } else if at_rule == "property"@ {
        Some(("property", property_descriptors()))
    } else if at_rule == "view-transition"@ {
        Some(("view-transition", view_transition_descriptors()))
    } else {
        None
    }
}

pub fn descriptors_for(at_rule: &str) -> (r: Option<(&'static str, Vec<&'static str>)>)
    ensures
        match r {
            Some((canon, set)) => descriptor_set(at_rule@) == Some((canon, set@)),
            None => descriptor_set(at_rule@) is None,
        },
{
    if str_eq(at_rule, "counter-style") {
        Some(("counter-style", counter_style_descriptors_list()))
    } else if str_eq(at_rule, "font-face") {
        Some(("font-face", font_face_descriptors_list()))
    } else if str_eq(at_rule, "font-palette-values") {
        Some(("font-palette-values", font_palette_values_descriptors_list()))
    } else if str_eq(at_rule, "page") {
        Some(("page", page_descriptors_list()))
    } else if str_eq(at_rule, "property") {
        Some(("property", property_descriptors_list()))
    } else if str_eq(at_rule, "view-transition") {
        Some(("view-transition", view_transition_descriptors_list()))
    } else {
        None
    }
}

/// `a` comes strictly before `b`, comparing code points from the left.
pub open spec fn name_before(a: Seq<char>, b: Seq<char>) -> bool
    decreases a.len(),
{
    if a.len() == 0 {
        b.len() > 0
    } else if b.len() == 0 {
        false
    } else if a[0] != b[0] {
        (a[0] as u32) < (b[0] as u32)
    } else {
        name_before(a.drop_first(), b.drop_first())
    }
}

/// Each name comes strictly before the next, and is in lower case.
pub open spec fn sorted_lowercase(names: Seq<&'static str>) -> bool {
    &&& forall|i: int| 0 <= i < names.len() - 1 ==> name_before((#[trigger] names[i])@, names[i + 1]@)
    &&& forall|i: int| 0 <= i < names.len() ==> ascii_lowercase((#[trigger] names[i])@) == names[i]@
}

proof fn lemma_counter_style_sorted()
    ensures
        sorted_lowercase(counter_style_descriptors()),
{
    reveal_with_fuel(name_before, 12);
    reveal_strlit("additive-symbols");
    reveal_strlit("fallback");
    reveal_strlit("negative");
    reveal_strlit("pad");
    reveal_strlit("prefix");
    reveal_strlit("range");
    reveal_strlit("speak-as");
    reveal_strlit("suffix");
    reveal_strlit("symbols");
    reveal_strlit("system");
    let n = counter_style_descriptors();
    assert(name_before(n[0]@, n[1]@));
    assert(name_before(n[1]@, n[2]@));
    assert(name_before(n[2]@, n[3]@));
    assert(name_before(n[3]@, n[4]@));
    assert(name_before(n[4]@, n[5]@));
    assert(name_before(n[5]@, n[6]@));
    assert(name_before(n[6]@, n[7]@));
    assert(name_before(n[7]@, n[8]@));
    assert(name_before(n[8]@, n[9]@));
    assert(ascii_lowercase(n[0]@) =~= n[0]@);
    assert(ascii_lowercase(n[1]@) =~= n[1]@);
    assert(ascii_lowercase(n[2]@) =~= n[2]@);
    assert(ascii_lowercase(n[3]@) =~= n[3]@);
    assert(ascii_lowercase(n[4]@) =~= n[4]@);
    assert(ascii_lowercase(n[5]@) =~= n[5]@);
    assert(ascii_lowercase(n[6]@) =~= n[6]@);
    assert(ascii_lowercase(n[7]@) =~= n[7]@);
    assert(ascii_lowercase(n[8]@) =~= n[8]@);
    assert(ascii_lowercase(n[9]@) =~= n[9]@);
}

proof fn lemma_font_face_sorted()
    ensures
        sorted_lowercase(font_face_descriptors()),
{
    reveal_with_fuel(name_before, 12);
    reveal_strlit("ascent-override");
    reveal_strlit("descent-override");
    reveal_strlit("font-display");
    reveal_strlit("font-family");
    reveal_strlit("font-feature-settings");
    reveal_strlit("font-stretch");
    reveal_strlit("font-style");
    reveal_strlit("font-variation-settings");
    reveal_strlit("font-weight");
    reveal_strlit("line-gap-override");
    reveal_strlit("size-adjust");
    reveal_strlit("src");
    reveal_strlit("unicode-range");
    let n = font_face_descriptors();
    assert(name_before(n[0]@, n[1]@));
    assert(name_before(n[1]@, n[2]@));
    assert(name_before(n[2]@, n[3]@));
    assert(name_before(n[3]@, n[4]@));
    assert(name_before(n[4]@, n[5]@));
    assert(name_before(n[5]@, n[6]@));
    assert(name_before(n[6]@, n[7]@));
    assert(name_before(n[7]@, n[8]@));
    assert(name_before(n[8]@, n[9]@));
    assert(name_before(n[9]@, n[10]@));
    assert(name_before(n[10]@, n[11]@));
    assert(name_before(n[11]@, n[12]@));
    assert(ascii_lowercase(n[0]@) =~= n[0]@);
    assert(ascii_lowercase(n[1]@) =~= n[1]@);
    assert(ascii_lowercase(n[2]@) =~= n[2]@);
    assert(ascii_lowercase(n[3]@) =~= n[3]@);
    assert(ascii_lowercase(n[4]@) =~= n[4]@);
    assert(ascii_lowercase(n[5]@) =~= n[5]@);
    assert(ascii_lowercase(n[6]@) =~= n[6]@);
    assert(ascii_lowercase(n[7]@) =~= n[7]@);
    assert(ascii_lowercase(n[8]@) =~= n[8]@);
    assert(ascii_lowercase(n[9]@) =~= n[9]@);
    assert(ascii_lowercase(n[10]@) =~= n[10]@);
    assert(ascii_lowercase(n[11]@) =~= n[11]@);
    assert(ascii_lowercase(n[12]@) =~= n[12]@);
}

proof fn lemma_font_palette_values_sorted()
    ensures
        sorted_lowercase(font_palette_values_descriptors()),
{
    reveal_with_fuel(name_before, 12);
    reveal_strlit("base-palette");
    reveal_strlit("font-family");
    reveal_strlit("override-colors");
    let n = font_palette_values_descriptors();
    assert(name_before(n[0]@, n[1]@));
    assert(name_before(n[1]@, n[2]@));
    assert(ascii_lowercase(n[0]@) =~= n[0]@);
    assert(ascii_lowercase(n[1]@) =~= n[1]@);
    assert(ascii_lowercase(n[2]@) =~= n[2]@);
}

proof fn lemma_page_sorted()
    ensures
        sorted_lowercase(page_descriptors()),
{
    reveal_with_fuel(name_before, 12);
    reveal_strlit("bleed");
    reveal_strlit("marks");
    reveal_strlit("page-orientation");
    reveal_strlit("size");
    let n = page_descriptors();
    assert(name_before(n[0]@, n[1]@));
    assert(name_before(n[1]@, n[2]@));
    assert(name_before(n[2]@, n[3]@));
    assert(ascii_lowercase(n[0]@) =~= n[0]@);
    assert(ascii_lowercase(n[1]@) =~= n[1]@);
    assert(ascii_lowercase(n[2]@) =~= n[2]@);
    assert(ascii_lowercase(n[3]@) =~= n[3]@);
}

proof fn lemma_property_sorted()
    ensures
        sorted_lowercase(property_descriptors()),
{
    reveal_with_fuel(name_before, 12);
    reveal_strlit("inherits");
    reveal_strlit("initial-value");
    reveal_strlit("syntax");
    let n = property_descriptors();
    assert(name_before(n[0]@, n[1]@));
    assert(name_before(n[1]@, n[2]@));
    assert(ascii_lowercase(n[0]@) =~= n[0]@);
    assert(ascii_lowercase(n[1]@) =~= n[1]@);
    assert(ascii_lowercase(n[2]@) =~= n[2]@);
}

proof fn lemma_view_transition_sorted()
    ensures
        sorted_lowercase(view_transition_descriptors()),
{
    reveal_with_fuel(name_before, 12);
    reveal_strlit("navigation");
    reveal_strlit("types");
    let n = view_transition_descriptors();
    assert(name_before(n[0]@, n[1]@));
    assert(ascii_lowercase(n[0]@) =~= n[0]@);
    assert(ascii_lowercase(n[1]@) =~= n[1]@);
}

/// Every descriptor set is sorted, each name strictly before the next (so
/// none occurs twice), and in lower case; and it is found under its own
/// canonical name.
pub proof fn lemma_descriptor_sets_sorted(at: Seq<char>)
    requires
        descriptor_set(at) is Some,
    ensures
        descriptor_set(at)->Some_0.0@ == at,
        sorted_lowercase(descriptor_set(at)->Some_0.1),
{
    lemma_counter_style_sorted();
    lemma_font_face_sorted();
    lemma_font_palette_values_sorted();
    lemma_page_sorted();
    lemma_property_sorted();
    lemma_view_transition_sorted();
}

} // verus!
