//! Semantic validation on top of the property-agnostic parser: it knows
//! which property and descriptor names CSS defines and reports the
//! declarations whose name it does not recognise, each pinned to the span of
//! the name.
//!
//! Declarations in qualified rules (`selector { … }`) are checked against
//! the properties, including qualified rules nested inside conditional group
//! rules — `@media`, `@supports`, `@container`, `@layer { … }`, `@scope` —
//! whose bodies are lists of rules: such a body is read again on its own, as
//! a stylesheet, and its findings moved back to where it stands in the text.
//! The declarations of a descriptor at-rule (`@font-face`,
//! `@counter-style`, `@property`, `@font-palette-values`,
//! `@view-transition`) are checked against that at-rule's own descriptors,
//! and those of `@page` against its descriptors and the properties, which
//! it mixes. Other at-rules (`@keyframes`, `@font-feature-values`, …) are
//! left alone.
//!
//! Failing to flag an unknown property is safe; flagging a real one is not,
//! so every exemption errs toward silence.

use vstd::prelude::*;

use crate::grammar::{
    block_matches, cv_end, cv_matches, decls_match, range_span, rules_match, run_end, vals_seg,
    Stop, Toks,
};
use crate::parse_laws::{
    cv_same, items_same, lemma_declarations_determined, lemma_rules_determined, lemma_seg_span,
    rule_same, rules_same, vals_same,
};
use crate::descriptors::{descriptor_set, descriptors_for};
use crate::known_properties::{is_known_property, property_group_list, property_groups};
use crate::scan;
use crate::span::{Span, Spanned};
use crate::spanned::{self, ComponentValue, DeclarationListItem, Rule, SimpleBlock};
use crate::parser::BlockKind;
use crate::text::{
    ascii_lower, ascii_lowercase, byte_len, byte_offset, char_index_of, chars_eq,
    chars_eq_ignore_ascii_case, eq_ignore_ascii_case, fits_usize, is_char_boundary,
    lemma_byte_offset_full, lemma_byte_offset_in_piece, lemma_byte_offset_mono,
    lemma_byte_offset_strict, str_to_chars, string_from_chars,
};
use crate::token::{SpecToken, Token};
use crate::tokenizer::{lemma_token_span_slices, read_from, tokenize, tokenize_stylesheet, tokens_view};

verus! {

/// One validation finding, located by the source [`Span`] it concerns.
#[derive(Debug, Clone, PartialEq, Eq)]
pub struct Diagnostic {
    /// The span to underline: the unknown property or descriptor name.
    pub span: Span,
    pub kind: DiagnosticKind,
    /// The offending text as the author wrote it (its case kept).
    pub name: String,
}

/// What a [`Diagnostic`] reports.
#[derive(Debug, Clone, PartialEq, Eq)]
pub enum DiagnosticKind {
    /// A declaration whose property name CSS does not define, and which is
    /// neither a custom property (`--*`) nor vendor-prefixed (`-webkit-…`).
    UnknownProperty,
    /// A declaration in the body of a descriptor at-rule whose name is none
    /// of that at-rule's descriptors (nor, in `@page`, a property), and
    /// which does not start with `-`. `at_rule` is the at-rule's name in
    /// lower case, without the `@`.
    UnknownDescriptor { at_rule: String },
}

/// What a kind says: the at-rule whose descriptor is unknown, or nothing
/// for an unknown property.
pub open spec fn kind_view(k: DiagnosticKind) -> Option<Seq<char>> {
    match k {
        DiagnosticKind::UnknownProperty => None,
        DiagnosticKind::UnknownDescriptor { at_rule } => Some(at_rule@),
    }
}

// ---------------------------------------------------------------------------
// What is reported
// ---------------------------------------------------------------------------


/// A declaration named `name` is reported: it does not start with `-` (the
/// custom and vendor-prefixed names), and in ASCII lower case it is not a
/// known property.
pub open spec fn property_flagged(name: Seq<char>) -> bool {
    &&& !(name.len() > 0 && name[0] == '-')
    &&& !is_known_property(ascii_lowercase(name))
}

/// Property names are ASCII case-insensitive: two names that differ only in
/// the case of ASCII letters are flagged alike.
pub proof fn lemma_flagged_ignores_case(a: Seq<char>, b: Seq<char>)
    requires
        eq_ignore_ascii_case(a, b),
    ensures
        property_flagged(a) == property_flagged(b),
{
    assert(ascii_lowercase(a) =~= ascii_lowercase(b)) by {
        assert forall|i: int| 0 <= i < a.len() implies #[trigger] ascii_lowercase(a)[i]
            == ascii_lowercase(b)[i] by {
            assert(crate::text::spec_ascii_lower(a[i]) == crate::text::spec_ascii_lower(b[i]));
        }
    }
    if a.len() > 0 {
        assert(crate::text::spec_ascii_lower(a[0]) == crate::text::spec_ascii_lower(b[0]));
    }
}

/// A name that starts with `-` (a custom property `--*`, or a
/// vendor-prefixed one such as `-webkit-…`) is never flagged.
pub proof fn lemma_dash_names_exempt(name: Seq<char>)
    requires
        name.len() > 0,
        name[0] == '-',
    ensures
        !property_flagged(name),
{
}

/// The descriptor names of the descriptor at-rule `at` (in lower case,
/// without the `@`); none for another at-rule.
pub open spec fn descriptor_names(at: Seq<char>) -> Seq<Seq<char>> {
    match descriptor_set(at) {
        Some((_, set)) => set.map_values(|d: &'static str| d@),
        None => seq![],
    }
}

/// A declaration named `name` in the body of the descriptor at-rule `at` is
/// reported: it does not start with `-`, and in ASCII lower case it is none
/// of `at`'s descriptors, nor, in `@page`, which mixes the two, a known
/// property.
pub open spec fn descriptor_flagged(at: Seq<char>, name: Seq<char>) -> bool {
    &&& !(name.len() > 0 && name[0] == '-')
    &&& !descriptor_names(at).contains(ascii_lowercase(name))
    &&& !(at == seq!['p', 'a', 'g', 'e'] && is_known_property(ascii_lowercase(name)))
}

/// A name that is, up to ASCII case, one of the descriptors listed for `at`
/// is not flagged in `at`'s body.
proof fn lemma_listed_descriptor_not_flagged(at: Seq<char>, name: Seq<char>, i: int)
    requires
        descriptor_set(at) is Some,
        0 <= i < descriptor_set(at)->Some_0.1.len(),
        eq_ignore_ascii_case(name, descriptor_set(at)->Some_0.1[i]@),
    ensures
        !descriptor_flagged(at, name),
{
    crate::descriptors::lemma_descriptor_sets_sorted(at);
    let set = descriptor_set(at)->Some_0.1;
    let lit = set[i]@;
    assert(ascii_lowercase(lit) == lit);
    assert(ascii_lowercase(name) =~= lit) by {
        assert forall|j: int| 0 <= j < lit.len() implies #[trigger] ascii_lowercase(name)[j] == lit[j] by {
            assert(crate::text::spec_ascii_lower(name[j]) == crate::text::spec_ascii_lower(lit[j]));
            assert(ascii_lowercase(lit)[j] == crate::text::spec_ascii_lower(lit[j]));
        }
    }
    assert(descriptor_names(at)[i] == lit);
}

/// Each descriptor of `@counter-style` is accepted in its body, in any ASCII case:
/// `additive-symbols`, `fallback`, `negative`, `pad`, `prefix`, `range`, `speak-as`, `suffix`, `symbols`, `system`.
pub proof fn lemma_counter_style_descriptors_accepted(name: Seq<char>)
    requires
        eq_ignore_ascii_case(name, "additive-symbols"@)
            || eq_ignore_ascii_case(name, "fallback"@)
            || eq_ignore_ascii_case(name, "negative"@)
            || eq_ignore_ascii_case(name, "pad"@)
            || eq_ignore_ascii_case(name, "prefix"@)
            || eq_ignore_ascii_case(name, "range"@)
            || eq_ignore_ascii_case(name, "speak-as"@)
            || eq_ignore_ascii_case(name, "suffix"@)
            || eq_ignore_ascii_case(name, "symbols"@)
            || eq_ignore_ascii_case(name, "system"@),
    ensures
        !descriptor_flagged("counter-style"@, name),
{
    reveal_strlit("counter-style");
    reveal_strlit("font-face");
    reveal_strlit("font-palette-values");
    reveal_strlit("page");
    reveal_strlit("property");
    reveal_strlit("view-transition");
    let at = "counter-style"@;
    assert(descriptor_set(at) == Some(("counter-style", crate::descriptors::counter_style_descriptors())));
    let set = crate::descriptors::counter_style_descriptors();
    if eq_ignore_ascii_case(name, "additive-symbols"@) {
        assert(set[0]@ == "additive-symbols"@);
        lemma_listed_descriptor_not_flagged(at, name, 0);
    }
    if eq_ignore_ascii_case(name, "fallback"@) {
        assert(set[1]@ == "fallback"@);
        lemma_listed_descriptor_not_flagged(at, name, 1);
    }
    if eq_ignore_ascii_case(name, "negative"@) {
        assert(set[2]@ == "negative"@);
        lemma_listed_descriptor_not_flagged(at, name, 2);
    }
    if eq_ignore_ascii_case(name, "pad"@) {
        assert(set[3]@ == "pad"@);
        lemma_listed_descriptor_not_flagged(at, name, 3);
    }
    if eq_ignore_ascii_case(name, "prefix"@) {
        assert(set[4]@ == "prefix"@);
        lemma_listed_descriptor_not_flagged(at, name, 4);
    }
    if eq_ignore_ascii_case(name, "range"@) {
        assert(set[5]@ == "range"@);
        lemma_listed_descriptor_not_flagged(at, name, 5);
    }
    if eq_ignore_ascii_case(name, "speak-as"@) {
        assert(set[6]@ == "speak-as"@);
        lemma_listed_descriptor_not_flagged(at, name, 6);
    }
    if eq_ignore_ascii_case(name, "suffix"@) {
        assert(set[7]@ == "suffix"@);
        lemma_listed_descriptor_not_flagged(at, name, 7);
    }
    if eq_ignore_ascii_case(name, "symbols"@) {
        assert(set[8]@ == "symbols"@);
        lemma_listed_descriptor_not_flagged(at, name, 8);
    }
    if eq_ignore_ascii_case(name, "system"@) {
        assert(set[9]@ == "system"@);
        lemma_listed_descriptor_not_flagged(at, name, 9);
    }
}

/// Each descriptor of `@font-face` is accepted in its body, in any ASCII case:
/// `ascent-override`, `descent-override`, `font-display`, `font-family`, `font-feature-settings`, `font-stretch`, `font-style`, `font-variation-settings`, `font-weight`, `line-gap-override`, `size-adjust`, `src`, `unicode-range`.
pub proof fn lemma_font_face_descriptors_accepted(name: Seq<char>)
    requires
        eq_ignore_ascii_case(name, "ascent-override"@)
            || eq_ignore_ascii_case(name, "descent-override"@)
            || eq_ignore_ascii_case(name, "font-display"@)
            || eq_ignore_ascii_case(name, "font-family"@)
            || eq_ignore_ascii_case(name, "font-feature-settings"@)
            || eq_ignore_ascii_case(name, "font-stretch"@)
            || eq_ignore_ascii_case(name, "font-style"@)
            || eq_ignore_ascii_case(name, "font-variation-settings"@)
            || eq_ignore_ascii_case(name, "font-weight"@)
            || eq_ignore_ascii_case(name, "line-gap-override"@)
            || eq_ignore_ascii_case(name, "size-adjust"@)
            || eq_ignore_ascii_case(name, "src"@)
            || eq_ignore_ascii_case(name, "unicode-range"@),
    ensures
        !descriptor_flagged("font-face"@, name),
{
    reveal_strlit("counter-style");
    reveal_strlit("font-face");
    reveal_strlit("font-palette-values");
    reveal_strlit("page");
    reveal_strlit("property");
    reveal_strlit("view-transition");
    let at = "font-face"@;
    assert(at.len() != "counter-style"@.len() || at[0] != "counter-style"@[0] || at[1] != "counter-style"@[1] || at[5] != "counter-style"@[5]);
    assert(descriptor_set(at) == Some(("font-face", crate::descriptors::font_face_descriptors())));
    let set = crate::descriptors::font_face_descriptors();
    if eq_ignore_ascii_case(name, "ascent-override"@) {
        assert(set[0]@ == "ascent-override"@);
        lemma_listed_descriptor_not_flagged(at, name, 0);
    }
    if eq_ignore_ascii_case(name, "descent-override"@) {
        assert(set[1]@ == "descent-override"@);
        lemma_listed_descriptor_not_flagged(at, name, 1);
    }
    if eq_ignore_ascii_case(name, "font-display"@) {
        assert(set[2]@ == "font-display"@);
        lemma_listed_descriptor_not_flagged(at, name, 2);
    }
    if eq_ignore_ascii_case(name, "font-family"@) {
        assert(set[3]@ == "font-family"@);
        lemma_listed_descriptor_not_flagged(at, name, 3);
    }
    if eq_ignore_ascii_case(name, "font-feature-settings"@) {
        assert(set[4]@ == "font-feature-settings"@);
        lemma_listed_descriptor_not_flagged(at, name, 4);
    }
    if eq_ignore_ascii_case(name, "font-stretch"@) {
        assert(set[5]@ == "font-stretch"@);
        lemma_listed_descriptor_not_flagged(at, name, 5);
    }
    if eq_ignore_ascii_case(name, "font-style"@) {
        assert(set[6]@ == "font-style"@);
        lemma_listed_descriptor_not_flagged(at, name, 6);
    }
    if eq_ignore_ascii_case(name, "font-variation-settings"@) {
        assert(set[7]@ == "font-variation-settings"@);
        lemma_listed_descriptor_not_flagged(at, name, 7);
    }
    if eq_ignore_ascii_case(name, "font-weight"@) {
        assert(set[8]@ == "font-weight"@);
        lemma_listed_descriptor_not_flagged(at, name, 8);
    }
    if eq_ignore_ascii_case(name, "line-gap-override"@) {
        assert(set[9]@ == "line-gap-override"@);
        lemma_listed_descriptor_not_flagged(at, name, 9);
    }
    if eq_ignore_ascii_case(name, "size-adjust"@) {
        assert(set[10]@ == "size-adjust"@);
        lemma_listed_descriptor_not_flagged(at, name, 10);
    }
    if eq_ignore_ascii_case(name, "src"@) {
        assert(set[11]@ == "src"@);
        lemma_listed_descriptor_not_flagged(at, name, 11);
    }
    if eq_ignore_ascii_case(name, "unicode-range"@) {
        assert(set[12]@ == "unicode-range"@);
        lemma_listed_descriptor_not_flagged(at, name, 12);
    }
}

/// Each descriptor of `@font-palette-values` is accepted in its body, in any ASCII case:
/// `base-palette`, `font-family`, `override-colors`.
pub proof fn lemma_font_palette_values_descriptors_accepted(name: Seq<char>)
    requires
        eq_ignore_ascii_case(name, "base-palette"@)
            || eq_ignore_ascii_case(name, "font-family"@)
            || eq_ignore_ascii_case(name, "override-colors"@),
    ensures
        !descriptor_flagged("font-palette-values"@, name),
{
    reveal_strlit("counter-style");
    reveal_strlit("font-face");
    reveal_strlit("font-palette-values");
    reveal_strlit("page");
    reveal_strlit("property");
    reveal_strlit("view-transition");
    let at = "font-palette-values"@;
    assert(at.len() != "counter-style"@.len() || at[0] != "counter-style"@[0] || at[1] != "counter-style"@[1] || at[5] != "counter-style"@[5]);
    assert(at.len() != "font-face"@.len() || at[0] != "font-face"@[0] || at[1] != "font-face"@[1] || at[5] != "font-face"@[5]);
    assert(descriptor_set(at) == Some(("font-palette-values", crate::descriptors::font_palette_values_descriptors())));
    let set = crate::descriptors::font_palette_values_descriptors();
    if eq_ignore_ascii_case(name, "base-palette"@) {
        assert(set[0]@ == "base-palette"@);
        lemma_listed_descriptor_not_flagged(at, name, 0);
    }
    if eq_ignore_ascii_case(name, "font-family"@) {
        assert(set[1]@ == "font-family"@);
        lemma_listed_descriptor_not_flagged(at, name, 1);
    }
    if eq_ignore_ascii_case(name, "override-colors"@) {
        assert(set[2]@ == "override-colors"@);
        lemma_listed_descriptor_not_flagged(at, name, 2);
    }
}

/// Each descriptor of `@page` is accepted in its body, in any ASCII case:
/// `bleed`, `marks`, `page-orientation`, `size`.
pub proof fn lemma_page_descriptors_accepted(name: Seq<char>)
    requires
        eq_ignore_ascii_case(name, "bleed"@)
            || eq_ignore_ascii_case(name, "marks"@)
            || eq_ignore_ascii_case(name, "page-orientation"@)
            || eq_ignore_ascii_case(name, "size"@),
    ensures
        !descriptor_flagged("page"@, name),
{
    reveal_strlit("counter-style");
    reveal_strlit("font-face");
    reveal_strlit("font-palette-values");
    reveal_strlit("page");
    reveal_strlit("property");
    reveal_strlit("view-transition");
    let at = "page"@;
    assert(at.len() != "counter-style"@.len() || at[0] != "counter-style"@[0] || at[1] != "counter-style"@[1] || at[5] != "counter-style"@[5]);
    assert(at.len() != "font-face"@.len() || at[0] != "font-face"@[0] || at[1] != "font-face"@[1] || at[5] != "font-face"@[5]);
    assert(at.len() != "font-palette-values"@.len() || at[0] != "font-palette-values"@[0] || at[1] != "font-palette-values"@[1] || at[5] != "font-palette-values"@[5]);
    assert(descriptor_set(at) == Some(("page", crate::descriptors::page_descriptors())));
    let set = crate::descriptors::page_descriptors();
    if eq_ignore_ascii_case(name, "bleed"@) {
        assert(set[0]@ == "bleed"@);
        lemma_listed_descriptor_not_flagged(at, name, 0);
    }
    if eq_ignore_ascii_case(name, "marks"@) {
        assert(set[1]@ == "marks"@);
        lemma_listed_descriptor_not_flagged(at, name, 1);
    }
    if eq_ignore_ascii_case(name, "page-orientation"@) {
        assert(set[2]@ == "page-orientation"@);
        lemma_listed_descriptor_not_flagged(at, name, 2);
    }
    if eq_ignore_ascii_case(name, "size"@) {
        assert(set[3]@ == "size"@);
        lemma_listed_descriptor_not_flagged(at, name, 3);
    }
}

/// Each descriptor of `@property` is accepted in its body, in any ASCII case:
/// `inherits`, `initial-value`, `syntax`.
pub proof fn lemma_property_descriptors_accepted(name: Seq<char>)
    requires
        eq_ignore_ascii_case(name, "inherits"@)
            || eq_ignore_ascii_case(name, "initial-value"@)
            || eq_ignore_ascii_case(name, "syntax"@),
    ensures
        !descriptor_flagged("property"@, name),
{
    reveal_strlit("counter-style");
    reveal_strlit("font-face");
    reveal_strlit("font-palette-values");
    reveal_strlit("page");
    reveal_strlit("property");
    reveal_strlit("view-transition");
    let at = "property"@;
    assert(at.len() != "counter-style"@.len() || at[0] != "counter-style"@[0] || at[1] != "counter-style"@[1] || at[5] != "counter-style"@[5]);
    assert(at.len() != "font-face"@.len() || at[0] != "font-face"@[0] || at[1] != "font-face"@[1] || at[5] != "font-face"@[5]);
    assert(at.len() != "font-palette-values"@.len() || at[0] != "font-palette-values"@[0] || at[1] != "font-palette-values"@[1] || at[5] != "font-palette-values"@[5]);
    assert(at.len() != "page"@.len() || at[0] != "page"@[0] || at[1] != "page"@[1] || at[5] != "page"@[5]);
    assert(descriptor_set(at) == Some(("property", crate::descriptors::property_descriptors())));
    let set = crate::descriptors::property_descriptors();
    if eq_ignore_ascii_case(name, "inherits"@) {
        assert(set[0]@ == "inherits"@);
        lemma_listed_descriptor_not_flagged(at, name, 0);
    }
    if eq_ignore_ascii_case(name, "initial-value"@) {
        assert(set[1]@ == "initial-value"@);
        lemma_listed_descriptor_not_flagged(at, name, 1);
    }
    if eq_ignore_ascii_case(name, "syntax"@) {
        assert(set[2]@ == "syntax"@);
        lemma_listed_descriptor_not_flagged(at, name, 2);
    }
}

/// Each descriptor of `@view-transition` is accepted in its body, in any ASCII case:
/// `navigation`, `types`.
pub proof fn lemma_view_transition_descriptors_accepted(name: Seq<char>)
    requires
        eq_ignore_ascii_case(name, "navigation"@)
            || eq_ignore_ascii_case(name, "types"@),
    ensures
        !descriptor_flagged("view-transition"@, name),
{
    reveal_strlit("counter-style");
    reveal_strlit("font-face");
    reveal_strlit("font-palette-values");
    reveal_strlit("page");
    reveal_strlit("property");
    reveal_strlit("view-transition");
    let at = "view-transition"@;
    assert(at.len() != "counter-style"@.len() || at[0] != "counter-style"@[0] || at[1] != "counter-style"@[1] || at[5] != "counter-style"@[5]);
    assert(at.len() != "font-face"@.len() || at[0] != "font-face"@[0] || at[1] != "font-face"@[1] || at[5] != "font-face"@[5]);
    assert(at.len() != "font-palette-values"@.len() || at[0] != "font-palette-values"@[0] || at[1] != "font-palette-values"@[1] || at[5] != "font-palette-values"@[5]);
    assert(at.len() != "page"@.len() || at[0] != "page"@[0] || at[1] != "page"@[1] || at[5] != "page"@[5]);
    assert(at.len() != "property"@.len() || at[0] != "property"@[0] || at[1] != "property"@[1] || at[5] != "property"@[5]);
    assert(descriptor_set(at) == Some(("view-transition", crate::descriptors::view_transition_descriptors())));
    let set = crate::descriptors::view_transition_descriptors();
    if eq_ignore_ascii_case(name, "navigation"@) {
        assert(set[0]@ == "navigation"@);
        lemma_listed_descriptor_not_flagged(at, name, 0);
    }
    if eq_ignore_ascii_case(name, "types"@) {
        assert(set[1]@ == "types"@);
        lemma_listed_descriptor_not_flagged(at, name, 1);
    }
}

/// A name that is, in ASCII lower case, one of the descriptors listed for
/// `at` is one of them up to ASCII case.
proof fn lemma_contained_descriptor_listed(at: Seq<char>, name: Seq<char>) -> (i: int)
    requires
        descriptor_set(at) is Some,
        descriptor_names(at).contains(ascii_lowercase(name)),
    ensures
        0 <= i < descriptor_set(at)->Some_0.1.len(),
        eq_ignore_ascii_case(name, descriptor_set(at)->Some_0.1[i]@),
{
    crate::descriptors::lemma_descriptor_sets_sorted(at);
    let set = descriptor_set(at)->Some_0.1;
    let names = descriptor_names(at);
    let i = choose|i: int| 0 <= i < names.len() && names[i] == ascii_lowercase(name);
    let lit = set[i]@;
    assert(names[i] == lit);
    assert(ascii_lowercase(lit) == lit);
    assert forall|j: int| 0 <= j < name.len() implies crate::text::spec_ascii_lower(#[trigger] name[j])
        == crate::text::spec_ascii_lower(lit[j]) by {
        assert(ascii_lowercase(name)[j] == crate::text::spec_ascii_lower(name[j]));
        assert(ascii_lowercase(lit)[j] == crate::text::spec_ascii_lower(lit[j]));
        assert(lit[j] == ascii_lowercase(lit)[j]);
        assert(crate::text::spec_ascii_lower(lit[j]) == lit[j]);
    }
    i
}

/// Nothing else is accepted in the body of `@counter-style`: a name that does not
/// start with `-`, is none of its descriptors in any ASCII case, is
/// flagged.
pub proof fn lemma_counter_style_descriptors_only(name: Seq<char>)
    requires
        !(name.len() > 0 && name[0] == '-'),
        !eq_ignore_ascii_case(name, "additive-symbols"@),
        !eq_ignore_ascii_case(name, "fallback"@),
        !eq_ignore_ascii_case(name, "negative"@),
        !eq_ignore_ascii_case(name, "pad"@),
        !eq_ignore_ascii_case(name, "prefix"@),
        !eq_ignore_ascii_case(name, "range"@),
        !eq_ignore_ascii_case(name, "speak-as"@),
        !eq_ignore_ascii_case(name, "suffix"@),
        !eq_ignore_ascii_case(name, "symbols"@),
        !eq_ignore_ascii_case(name, "system"@),
    ensures
        descriptor_flagged("counter-style"@, name),
{
    reveal_strlit("counter-style");
    reveal_strlit("font-face");
    reveal_strlit("font-palette-values");
    reveal_strlit("page");
    reveal_strlit("property");
    reveal_strlit("view-transition");
    let at = "counter-style"@;
    assert(descriptor_set(at) == Some(("counter-style", crate::descriptors::counter_style_descriptors())));
    let set = crate::descriptors::counter_style_descriptors();
    if descriptor_names(at).contains(ascii_lowercase(name)) {
        let i = lemma_contained_descriptor_listed(at, name);
        assert(set[0]@ == "additive-symbols"@);
        assert(set[1]@ == "fallback"@);
        assert(set[2]@ == "negative"@);
        assert(set[3]@ == "pad"@);
        assert(set[4]@ == "prefix"@);
        assert(set[5]@ == "range"@);
        assert(set[6]@ == "speak-as"@);
        assert(set[7]@ == "suffix"@);
        assert(set[8]@ == "symbols"@);
        assert(set[9]@ == "system"@);
        assert(false);
    }
}

/// Nothing else is accepted in the body of `@font-face`: a name that does not
/// start with `-`, is none of its descriptors in any ASCII case, is
/// flagged.
pub proof fn lemma_font_face_descriptors_only(name: Seq<char>)
    requires
        !(name.len() > 0 && name[0] == '-'),
        !eq_ignore_ascii_case(name, "ascent-override"@),
        !eq_ignore_ascii_case(name, "descent-override"@),
        !eq_ignore_ascii_case(name, "font-display"@),
        !eq_ignore_ascii_case(name, "font-family"@),
        !eq_ignore_ascii_case(name, "font-feature-settings"@),
        !eq_ignore_ascii_case(name, "font-stretch"@),
        !eq_ignore_ascii_case(name, "font-style"@),
        !eq_ignore_ascii_case(name, "font-variation-settings"@),
        !eq_ignore_ascii_case(name, "font-weight"@),
        !eq_ignore_ascii_case(name, "line-gap-override"@),
        !eq_ignore_ascii_case(name, "size-adjust"@),
        !eq_ignore_ascii_case(name, "src"@),
        !eq_ignore_ascii_case(name, "unicode-range"@),
    ensures
        descriptor_flagged("font-face"@, name),
{
    reveal_strlit("counter-style");
    reveal_strlit("font-face");
    reveal_strlit("font-palette-values");
    reveal_strlit("page");
    reveal_strlit("property");
    reveal_strlit("view-transition");
    let at = "font-face"@;
    assert(at.len() != "counter-style"@.len() || at[0] != "counter-style"@[0] || at[1] != "counter-style"@[1] || at[5] != "counter-style"@[5]);
    assert(descriptor_set(at) == Some(("font-face", crate::descriptors::font_face_descriptors())));
    let set = crate::descriptors::font_face_descriptors();
    if descriptor_names(at).contains(ascii_lowercase(name)) {
        let i = lemma_contained_descriptor_listed(at, name);
        assert(set[0]@ == "ascent-override"@);
        assert(set[1]@ == "descent-override"@);
        assert(set[2]@ == "font-display"@);
        assert(set[3]@ == "font-family"@);
        assert(set[4]@ == "font-feature-settings"@);
        assert(set[5]@ == "font-stretch"@);
        assert(set[6]@ == "font-style"@);
        assert(set[7]@ == "font-variation-settings"@);
        assert(set[8]@ == "font-weight"@);
        assert(set[9]@ == "line-gap-override"@);
        assert(set[10]@ == "size-adjust"@);
        assert(set[11]@ == "src"@);
        assert(set[12]@ == "unicode-range"@);
        assert(false);
    }
}

/// Nothing else is accepted in the body of `@font-palette-values`: a name that does not
/// start with `-`, is none of its descriptors in any ASCII case, is
/// flagged.
pub proof fn lemma_font_palette_values_descriptors_only(name: Seq<char>)
    requires
        !(name.len() > 0 && name[0] == '-'),
        !eq_ignore_ascii_case(name, "base-palette"@),
        !eq_ignore_ascii_case(name, "font-family"@),
        !eq_ignore_ascii_case(name, "override-colors"@),
    ensures
        descriptor_flagged("font-palette-values"@, name),
{
    reveal_strlit("counter-style");
    reveal_strlit("font-face");
    reveal_strlit("font-palette-values");
    reveal_strlit("page");
    reveal_strlit("property");
    reveal_strlit("view-transition");
    let at = "font-palette-values"@;
    assert(at.len() != "counter-style"@.len() || at[0] != "counter-style"@[0] || at[1] != "counter-style"@[1] || at[5] != "counter-style"@[5]);
    assert(at.len() != "font-face"@.len() || at[0] != "font-face"@[0] || at[1] != "font-face"@[1] || at[5] != "font-face"@[5]);
    assert(descriptor_set(at) == Some(("font-palette-values", crate::descriptors::font_palette_values_descriptors())));
    let set = crate::descriptors::font_palette_values_descriptors();
    if descriptor_names(at).contains(ascii_lowercase(name)) {
        let i = lemma_contained_descriptor_listed(at, name);
        assert(set[0]@ == "base-palette"@);
        assert(set[1]@ == "font-family"@);
        assert(set[2]@ == "override-colors"@);
        assert(false);
    }
}

/// Nothing else is accepted in the body of `@page`: a name that does not
/// start with `-`, is none of its descriptors in any ASCII case, nor (as `@page` mixes the two) a known property, is
/// flagged.
pub proof fn lemma_page_descriptors_only(name: Seq<char>)
    requires
        !(name.len() > 0 && name[0] == '-'),
        !eq_ignore_ascii_case(name, "bleed"@),
        !eq_ignore_ascii_case(name, "marks"@),
        !eq_ignore_ascii_case(name, "page-orientation"@),
        !eq_ignore_ascii_case(name, "size"@),
        !is_known_property(ascii_lowercase(name)),
    ensures
        descriptor_flagged("page"@, name),
{
    reveal_strlit("counter-style");
    reveal_strlit("font-face");
    reveal_strlit("font-palette-values");
    reveal_strlit("page");
    reveal_strlit("property");
    reveal_strlit("view-transition");
    let at = "page"@;
    assert(at.len() != "counter-style"@.len() || at[0] != "counter-style"@[0] || at[1] != "counter-style"@[1] || at[5] != "counter-style"@[5]);
    assert(at.len() != "font-face"@.len() || at[0] != "font-face"@[0] || at[1] != "font-face"@[1] || at[5] != "font-face"@[5]);
    assert(at.len() != "font-palette-values"@.len() || at[0] != "font-palette-values"@[0] || at[1] != "font-palette-values"@[1] || at[5] != "font-palette-values"@[5]);
    assert(descriptor_set(at) == Some(("page", crate::descriptors::page_descriptors())));
    let set = crate::descriptors::page_descriptors();
    if descriptor_names(at).contains(ascii_lowercase(name)) {
        let i = lemma_contained_descriptor_listed(at, name);
        assert(set[0]@ == "bleed"@);
        assert(set[1]@ == "marks"@);
        assert(set[2]@ == "page-orientation"@);
        assert(set[3]@ == "size"@);
        assert(false);
    }
}

/// Nothing else is accepted in the body of `@property`: a name that does not
/// start with `-`, is none of its descriptors in any ASCII case, is
/// flagged.
pub proof fn lemma_property_descriptors_only(name: Seq<char>)
    requires
        !(name.len() > 0 && name[0] == '-'),
        !eq_ignore_ascii_case(name, "inherits"@),
        !eq_ignore_ascii_case(name, "initial-value"@),
        !eq_ignore_ascii_case(name, "syntax"@),
    ensures
        descriptor_flagged("property"@, name),
{
    reveal_strlit("counter-style");
    reveal_strlit("font-face");
    reveal_strlit("font-palette-values");
    reveal_strlit("page");
    reveal_strlit("property");
    reveal_strlit("view-transition");
    let at = "property"@;
    assert(at.len() != "counter-style"@.len() || at[0] != "counter-style"@[0] || at[1] != "counter-style"@[1] || at[5] != "counter-style"@[5]);
    assert(at.len() != "font-face"@.len() || at[0] != "font-face"@[0] || at[1] != "font-face"@[1] || at[5] != "font-face"@[5]);
    assert(at.len() != "font-palette-values"@.len() || at[0] != "font-palette-values"@[0] || at[1] != "font-palette-values"@[1] || at[5] != "font-palette-values"@[5]);
    assert(at.len() != "page"@.len() || at[0] != "page"@[0] || at[1] != "page"@[1] || at[5] != "page"@[5]);
    assert(descriptor_set(at) == Some(("property", crate::descriptors::property_descriptors())));
    let set = crate::descriptors::property_descriptors();
    if descriptor_names(at).contains(ascii_lowercase(name)) {
        let i = lemma_contained_descriptor_listed(at, name);
        assert(set[0]@ == "inherits"@);
        assert(set[1]@ == "initial-value"@);
        assert(set[2]@ == "syntax"@);
        assert(false);
    }
}

/// Nothing else is accepted in the body of `@view-transition`: a name that does not
/// start with `-`, is none of its descriptors in any ASCII case, is
/// flagged.
pub proof fn lemma_view_transition_descriptors_only(name: Seq<char>)
    requires
        !(name.len() > 0 && name[0] == '-'),
        !eq_ignore_ascii_case(name, "navigation"@),
        !eq_ignore_ascii_case(name, "types"@),
    ensures
        descriptor_flagged("view-transition"@, name),
{
    reveal_strlit("counter-style");
    reveal_strlit("font-face");
    reveal_strlit("font-palette-values");
    reveal_strlit("page");
    reveal_strlit("property");
    reveal_strlit("view-transition");
    let at = "view-transition"@;
    assert(at.len() != "counter-style"@.len() || at[0] != "counter-style"@[0] || at[1] != "counter-style"@[1] || at[5] != "counter-style"@[5]);
    assert(at.len() != "font-face"@.len() || at[0] != "font-face"@[0] || at[1] != "font-face"@[1] || at[5] != "font-face"@[5]);
    assert(at.len() != "font-palette-values"@.len() || at[0] != "font-palette-values"@[0] || at[1] != "font-palette-values"@[1] || at[5] != "font-palette-values"@[5]);
    assert(at.len() != "page"@.len() || at[0] != "page"@[0] || at[1] != "page"@[1] || at[5] != "page"@[5]);
    assert(at.len() != "property"@.len() || at[0] != "property"@[0] || at[1] != "property"@[1] || at[5] != "property"@[5]);
    assert(descriptor_set(at) == Some(("view-transition", crate::descriptors::view_transition_descriptors())));
    let set = crate::descriptors::view_transition_descriptors();
    if descriptor_names(at).contains(ascii_lowercase(name)) {
        let i = lemma_contained_descriptor_listed(at, name);
        assert(set[0]@ == "navigation"@);
        assert(set[1]@ == "types"@);
        assert(false);
    }
}

/// What a declaration's name is checked against: the properties (`None`),
/// or the descriptors of the at-rule `Some(at)` whose body it stands in.
pub open spec fn name_flagged(ctx: Option<Seq<char>>, name: Seq<char>) -> bool {
    match ctx {
        None => property_flagged(name),
        Some(at) => descriptor_flagged(at, name),
    }
}

/// What a finding says: the name as written, its span, and what it was
/// checked against (as in [`kind_view`]).
pub type Finding = (Seq<char>, Span, Option<Seq<char>>);

pub open spec fn findings_view(ds: Seq<Diagnostic>) -> Seq<Finding> {
    ds.map_values(|d: Diagnostic| (d.name@, d.span, kind_view(d.kind)))
}

pub open spec fn value_is_ws(v: Spanned<ComponentValue>) -> bool {
    v.node matches ComponentValue::Token(Token::Whitespace)
}

pub open spec fn value_is_semicolon(v: Spanned<ComponentValue>) -> bool {
    v.node matches ComponentValue::Token(Token::Semicolon)
}

pub open spec fn value_is_colon(v: Spanned<ComponentValue>) -> bool {
    v.node matches ComponentValue::Token(Token::Colon)
}

/// Index past the whitespace values from `j`.
pub open spec fn skip_ws_values(vals: Seq<Spanned<ComponentValue>>, j: int) -> int
    decreases vals.len() - j,
{
    if 0 <= j < vals.len() && value_is_ws(vals[j]) {
        skip_ws_values(vals, j + 1)
    } else {
        j
    }
}

/// A nested at-rule inside a style block ends at its `;` or its block,
/// whichever comes first: the index past it.
pub open spec fn after_nested_at(vals: Seq<Spanned<ComponentValue>>, j: int) -> int
    decreases vals.len() - j,
{
    if j < 0 || j >= vals.len() {
        j
    } else if value_is_semicolon(vals[j]) || vals[j].node is Block {
        j + 1
    } else {
        after_nested_at(vals, j + 1)
    }
}

/// Index of the first `;` value from `j` (or the end).
pub open spec fn to_semicolon(vals: Seq<Spanned<ComponentValue>>, j: int) -> int
    decreases vals.len() - j,
{
    if j < 0 || j >= vals.len() {
        j
    } else if value_is_semicolon(vals[j]) {
        j
    } else {
        to_semicolon(vals, j + 1)
    }
}

/// The findings in a block's values from index `i`, its names checked as
/// `ctx` says: each value is split into declarations the way §5.4.2 and
/// §5.4.5 do, and a name is a declaration's only when a `:` follows it
/// (after whitespace).
pub open spec fn block_findings(vals: Seq<Spanned<ComponentValue>>, i: int, ctx: Option<Seq<char>>) -> Seq<Finding>
    decreases vals.len() - i,
{
    if i < 0 || i >= vals.len() {
        seq![]
    } else {
        match vals[i].node {
            ComponentValue::Token(Token::Whitespace) => block_findings(vals, i + 1, ctx),
            ComponentValue::Token(Token::Semicolon) => block_findings(vals, i + 1, ctx),
            ComponentValue::Token(Token::AtKeyword(_)) => {
                let j = after_nested_at(vals, i + 1);
                if i < j <= vals.len() {
                    block_findings(vals, j, ctx)
                } else {
                    seq![]
                }
            },
            ComponentValue::Token(Token::Ident(name)) => {
                let j = skip_ws_values(vals, i + 1);
                let here = if 0 <= j < vals.len() && value_is_colon(vals[j]) && name_flagged(ctx, name@) {
                    seq![(name@, vals[i].span, ctx)]
                } else {
                    seq![]
                };
                let e = to_semicolon(vals, j);
                if i < e <= vals.len() {
                    here + block_findings(vals, e, ctx)
                } else {
                    here
                }
            },
            _ => block_findings(vals, i + 1, ctx),
        }
    }
}

/// An at-rule named `name` holds a list of rules.
pub open spec fn is_conditional_group_name(name: Seq<char>) -> bool {
    ||| eq_ignore_ascii_case(name, seq!['m', 'e', 'd', 'i', 'a'])
    ||| eq_ignore_ascii_case(name, seq!['s', 'u', 'p', 'p', 'o', 'r', 't', 's'])
    ||| eq_ignore_ascii_case(name, seq!['c', 'o', 'n', 't', 'a', 'i', 'n', 'e', 'r'])
    ||| eq_ignore_ascii_case(name, seq!['l', 'a', 'y', 'e', 'r'])
    ||| eq_ignore_ascii_case(name, seq!['s', 'c', 'o', 'p', 'e'])
}

// ---------------------------------------------------------------------------
// Conditional group bodies, read again as stylesheets
// ---------------------------------------------------------------------------

/// The rule list the grammar builds from the tokens of `s`, read as a
/// stylesheet.
pub open spec fn sheet_of(s: Seq<char>) -> Seq<Spanned<Rule>> {
    choose|r: Seq<Spanned<Rule>>| rules_match(r, scan::stylesheet_tokens(s), 0, true)
}

/// Findings moved `d` bytes later in the text.
pub open spec fn shifted(fs: Seq<Finding>, d: int) -> Seq<Finding> {
    fs.map_values(
        |f: Finding| (f.0, Span { start: (f.1.start + d) as usize, end: (f.1.end + d) as usize }, f.2),
    )
}

/// Where the contents of a block start: the start of its first value.
pub open spec fn body_start(b: SimpleBlock) -> int {
    b.values@[0].span.start as int
}

/// Where the contents of a block end: the end of its last value.
pub open spec fn body_end(b: SimpleBlock) -> int {
    b.values@.last().span.end as int
}

/// The findings of the text `s` read as a stylesheet.
pub open spec fn text_findings(s: Seq<char>) -> Seq<Finding>
    decreases 2 * s.len() + 1, 0int,
{
    sheet_findings(s, sheet_of(s), sheet_of(s).len() as int)
}

/// The findings of the first `n` rules of a stylesheet read from `s`, in
/// order.
pub open spec fn sheet_findings(s: Seq<char>, rules: Seq<Spanned<Rule>>, n: int) -> Seq<Finding>
    decreases 2 * s.len(), n + 2,
{
    if n <= 0 {
        seq![]
    } else {
        sheet_findings(s, rules, n - 1) + rule_findings(s, rules[n - 1].node)
    }
}

/// The findings of one rule read from `s`: a qualified rule's block is
/// checked against the properties, the body of a conditional group rule is
/// read again, on its own, as a stylesheet, and the body of a descriptor
/// at-rule is checked against its descriptors. Other at-rules are left
/// alone.
pub open spec fn rule_findings(s: Seq<char>, r: Rule) -> Seq<Finding>
    decreases 2 * s.len(), 1int,
{
    match r {
        Rule::Qualified(q) => block_findings(q.block.node.values@, 0, None),
        Rule::At(a) => {
            if is_conditional_group_name(a.name@) {
                match a.block {
                    Some(b) => group_findings(s, b.node),
                    None => seq![],
                }
            } else {
                match (descriptor_set(ascii_lowercase(a.name@)), a.block) {
                    (Some(_), Some(b)) => block_findings(b.node.values@, 0, Some(ascii_lowercase(a.name@))),
                    _ => seq![],
                }
            }
        },
    }
}

/// The findings of a conditional group's body `b` in `s`: the text from the
/// start of its first value to the end of its last, read as a stylesheet,
/// with its findings moved to where that text stands in `s`.
pub open spec fn group_findings(s: Seq<char>, b: SimpleBlock) -> Seq<Finding>
    decreases 2 * s.len(), 0int,
{
    if b.values@.len() == 0 {
        seq![]
    } else {
        let i = char_index_of(s, body_start(b));
        let j = char_index_of(s, body_end(b));
        if 0 <= i <= j <= s.len() && j - i < s.len() {
            shifted(text_findings(s.subrange(i, j)), body_start(b))
        } else {
            seq![]
        }
    }
}

// ---------------------------------------------------------------------------
// Checking
// ---------------------------------------------------------------------------

/// `name` is one of the at-rules whose body is a list of rules, ASCII
/// case-insensitively.
fn is_conditional_group(name: &String) -> (r: bool)
    ensures
        r == is_conditional_group_name(name@),
{
    let c = str_to_chars(name.as_str());
    let media = vec!['m', 'e', 'd', 'i', 'a'];
    let supports = vec!['s', 'u', 'p', 'p', 'o', 'r', 't', 's'];
    let container = vec!['c', 'o', 'n', 't', 'a', 'i', 'n', 'e', 'r'];
    let layer = vec!['l', 'a', 'y', 'e', 'r'];
    let scope = vec!['s', 'c', 'o', 'p', 'e'];
    assert(media@ =~= seq!['m', 'e', 'd', 'i', 'a']);
    assert(supports@ =~= seq!['s', 'u', 'p', 'p', 'o', 'r', 't', 's']);
    assert(container@ =~= seq!['c', 'o', 'n', 't', 'a', 'i', 'n', 'e', 'r']);
    assert(layer@ =~= seq!['l', 'a', 'y', 'e', 'r']);
    assert(scope@ =~= seq!['s', 'c', 'o', 'p', 'e']);
    chars_eq_ignore_ascii_case(&c, &media) || chars_eq_ignore_ascii_case(&c, &supports)
        || chars_eq_ignore_ascii_case(&c, &container) || chars_eq_ignore_ascii_case(&c, &layer)
        || chars_eq_ignore_ascii_case(&c, &scope)
}

/// `v` with ASCII letters folded to lower case.
fn to_ascii_lowercase(v: &Vec<char>) -> (r: Vec<char>)
    ensures
        r@ == ascii_lowercase(v@),
{
    let mut out: Vec<char> = Vec::new();
    let mut i: usize = 0;
    while i < v.len()
        invariant
            0 <= i <= v.len(),
            out@ == ascii_lowercase(v@.take(i as int)),
        decreases v.len() - i,
    {
        out.push(ascii_lower(v[i]));
        assert(ascii_lowercase(v@.take(i + 1)) =~= ascii_lowercase(v@.take(i as int)).push(
            crate::text::spec_ascii_lower(v@[i as int]),
        ));
        i = i + 1;
    }
    assert(v@.take(v.len() as int) =~= v@);
    out
}

/// `name` is `w` followed by `e`.
fn is_joined(name: &Vec<char>, w: &Vec<char>, e: &Vec<char>) -> (r: bool)
    ensures
        r == (w@ + e@ == name@),
{
    if w.len() > name.len() || e.len() != name.len() - w.len() {
        assert((w@ + e@).len() != name@.len());
        return false;
    }
    let mut k: usize = 0;
    while k < name.len()
        invariant
            w.len() + e.len() == name.len(),
            0 <= k <= name.len(),
            forall|m: int| 0 <= m < k ==> (w@ + e@)[m] == #[trigger] name@[m],
        decreases name.len() - k,
    {
        let c = if k < w.len() { w[k] } else { e[k - w.len()] };
        if c != name[k] {
            assert((w@ + e@)[k as int] != name@[k as int]);
            return false;
        }
        k = k + 1;
    }
    assert(w@ + e@ =~= name@);
    true
}

/// `name` (in lower case) is a known property.
fn is_known(name: &Vec<char>) -> (r: bool)
    ensures
        r == is_known_property(name@),
{
    let groups = property_group_list();
    let mut i: usize = 0;
    while i < groups.len()
        invariant
            0 <= i <= groups.len(),
            groups@.len() == property_groups().len(),
            forall|g: int|
                0 <= g < groups@.len() ==> (#[trigger] groups@[g]).0 == property_groups()[g].0
                    && groups@[g].1@ == property_groups()[g].1,
            forall|g: int, j: int|
                0 <= g < i && 0 <= j < property_groups()[g].1.len() ==> property_groups()[g].0@
                    + (#[trigger] property_groups()[g].1[j])@ != name@,
        decreases groups.len() - i,
    {
        let w = str_to_chars(groups[i].0);
        let endings = &groups[i].1;
        let mut j: usize = 0;
        while j < endings.len()
            invariant
                0 <= i < groups.len(),
                0 <= j <= endings.len(),
                groups@.len() == property_groups().len(),
                endings@ == property_groups()[i as int].1,
                w@ == property_groups()[i as int].0@,
                forall|m: int|
                    0 <= m < j ==> property_groups()[i as int].0@ + (
                    #[trigger] property_groups()[i as int].1[m])@ != name@,
            decreases endings.len() - j,
        {
            let e = str_to_chars(endings[j]);
            if is_joined(name, &w, &e) {
                return true;
            }
            j = j + 1;
        }
        i = i + 1;
    }
    false
}

/// `name` is one of the descriptor names `set`.
fn names_contain(set: &Vec<&'static str>, name: &Vec<char>) -> (r: bool)
    ensures
        r == set@.map_values(|d: &'static str| d@).contains(name@),
{
    let ghost names = set@.map_values(|d: &'static str| d@);
    let mut k: usize = 0;
    while k < set.len()
        invariant
            0 <= k <= set.len(),
            names == set@.map_values(|d: &'static str| d@),
            forall|m: int| 0 <= m < k ==> (#[trigger] names[m]) != name@,
        decreases set.len() - k,
    {
        let d = str_to_chars(set[k]);
        if chars_eq(&d, name) {
            assert(names[k as int] == name@);
            return true;
        }
        k = k + 1;
    }
    false
}

/// What a block's names are checked against: nothing for the properties,
/// or the lower-case name and the descriptors of a descriptor at-rule.
pub type NameCheck = Option<(Vec<char>, Vec<&'static str>)>;

pub open spec fn check_view(c: NameCheck) -> Option<Seq<char>> {
    match c {
        Some((at, _)) => Some(at@),
        None => None,
    }
}

pub open spec fn check_ok(c: NameCheck) -> bool {
    match c {
        Some((at, set)) => descriptor_set(at@) is Some && descriptor_set(at@)->Some_0.1 == set@,
        None => true,
    }
}

/// The same kind, built anew.
fn copy_kind(k: &DiagnosticKind) -> (r: DiagnosticKind)
    ensures
        r == *k,
{
    match k {
        DiagnosticKind::UnknownProperty => DiagnosticKind::UnknownProperty,
        DiagnosticKind::UnknownDescriptor { at_rule } => DiagnosticKind::UnknownDescriptor {
            at_rule: at_rule.clone(),
        },
    }
}

/// Report `name` as unknown unless it is exempt (a leading `-`) or, in
/// lower case, a name of what `check` says: a known property, or one of the
/// at-rule's descriptors (in `@page`, a property too).
fn check_name(name: &String, span: Span, check: &NameCheck, out: &mut Vec<Diagnostic>)
    requires
        check_ok(*check),
    ensures
        findings_view(final(out)@) == findings_view(old(out)@) + if name_flagged(check_view(*check), name@) {
            seq![(name@, span, check_view(*check))]
        } else {
            seq![]
        },
{
    let c = str_to_chars(name.as_str());
    if c.len() > 0 && c[0] == '-' {
        assert(findings_view(out@) + Seq::<Finding>::empty() =~= findings_view(out@));
        return;
    }
    let lower = to_ascii_lowercase(&c);
    let flagged = match check {
        None => !is_known(&lower),
        Some((at, set)) => {
            let page = vec!['p', 'a', 'g', 'e'];
            assert(page@ =~= seq!['p', 'a', 'g', 'e']);
            !names_contain(set, &lower) && !(chars_eq(at, &page) && is_known(&lower))
        },
    };
    if flagged {
        let kind = match check {
            None => DiagnosticKind::UnknownProperty,
            Some((at, _)) => DiagnosticKind::UnknownDescriptor { at_rule: string_from_chars(at) },
        };
        let d = Diagnostic { span, kind, name: name.clone() };
        out.push(d);
        assert(findings_view(out@) =~= findings_view(old(out)@) + seq![(name@, span, check_view(*check))]);
    } else {
        assert(findings_view(out@) + Seq::<Finding>::empty() =~= findings_view(out@));
    }
}

fn skip_ws_values_from(vals: &Vec<Spanned<ComponentValue>>, j: usize) -> (r: usize)
    requires
        j <= vals.len(),
    ensures
        r == skip_ws_values(vals@, j as int),
        j <= r <= vals.len(),
{
    let mut k = j;
    while k < vals.len() && matches!(&vals[k].node, ComponentValue::Token(Token::Whitespace))
        invariant
            j <= k <= vals.len(),
            skip_ws_values(vals@, j as int) == skip_ws_values(vals@, k as int),
        decreases vals.len() - k,
    {
        k = k + 1;
    }
    k
}

fn after_nested_at_from(vals: &Vec<Spanned<ComponentValue>>, j: usize) -> (r: usize)
    requires
        j <= vals.len(),
    ensures
        r == after_nested_at(vals@, j as int),
        j <= r <= vals.len(),
{
    let mut k = j;
    while k < vals.len()
        invariant
            j <= k <= vals.len(),
            after_nested_at(vals@, j as int) == after_nested_at(vals@, k as int),
        decreases vals.len() - k,
    {
        if matches!(&vals[k].node, ComponentValue::Token(Token::Semicolon) | ComponentValue::Block(_)) {
            return k + 1;
        }
        k = k + 1;
    }
    k
}

fn to_semicolon_from(vals: &Vec<Spanned<ComponentValue>>, j: usize) -> (r: usize)
    requires
        j <= vals.len(),
    ensures
        r == to_semicolon(vals@, j as int),
        j <= r <= vals.len(),
{
    let mut k = j;
    while k < vals.len() && !matches!(&vals[k].node, ComponentValue::Token(Token::Semicolon))
        invariant
            j <= k <= vals.len(),
            to_semicolon(vals@, j as int) == to_semicolon(vals@, k as int),
        decreases vals.len() - k,
    {
        k = k + 1;
    }
    k
}

/// Walk a block's component values, splitting them into declarations the
/// way §5.4.2 and §5.4.5 do, and check each declaration's name as `check`
/// says.
fn check_block(block: &SimpleBlock, check: &NameCheck, out: &mut Vec<Diagnostic>)
    requires
        check_ok(*check),
    ensures
        findings_view(final(out)@) == findings_view(old(out)@) + block_findings(block.values@, 0, check_view(*check)),
{
    let ghost ctx = check_view(*check);
    let vals = &block.values;
    let ghost v = vals@;
    let mut i: usize = 0;
    while i < vals.len()
        invariant
            0 <= i <= vals.len(),
            v == vals@,
            check_ok(*check),
            ctx == check_view(*check),
            findings_view(old(out)@) + block_findings(v, 0, ctx) == findings_view(out@) + block_findings(
                v,
                i as int,
                ctx,
            ),
        decreases vals.len() - i,
    {
        let ghost before = findings_view(out@);
        match &vals[i].node {
            ComponentValue::Token(Token::Whitespace) | ComponentValue::Token(Token::Semicolon) => {
                i = i + 1;
            },
            ComponentValue::Token(Token::AtKeyword(_)) => {
                i = after_nested_at_from(vals, i + 1);
            },
            ComponentValue::Token(Token::Ident(name)) => {
                let j = skip_ws_values_from(vals, i + 1);
                let is_declaration = j < vals.len() && matches!(
                    &vals[j].node,
                    ComponentValue::Token(Token::Colon)
                );
                let ghost here = if 0 <= j < v.len() && value_is_colon(v[j as int]) && name_flagged(
                    ctx,
                    name@,
                ) {
                    seq![(name@, v[i as int].span, ctx)]
                } else {
                    seq![]
                };
                if is_declaration {
                    check_name(name, vals[i].span, check, out);
                } else {
                    assert(findings_view(out@) =~= before + here);
                }
                let e = to_semicolon_from(vals, j);
                proof {
                    assert(block_findings(v, i as int, ctx) == here + block_findings(v, e as int, ctx));
                    assert(before + (here + block_findings(v, e as int, ctx)) =~= (before + here)
                        + block_findings(v, e as int, ctx));
                }
                i = e;
            },
            _ => {
                i = i + 1;
            },
        }
    }
}

/// Read the body of a conditional group rule again, on its own, as a
/// stylesheet: the text from the start of its first value to the end of its
/// last. Its findings are moved back to where that text stands in `css`.
fn validate_group_body(block: &SimpleBlock, css: &str, out: &mut Vec<Diagnostic>)
    requires
        fits_usize(css@),
        body_located(css@, *block),
    ensures
        findings_view(final(out)@) == findings_view(old(out)@) + group_findings(css@, *block),
        findings_located(css@, group_findings(css@, *block)),
        block.values@.len() > 0 ==> ordered_in(group_findings(css@, *block), body_start(*block), body_end(*block)),
    decreases css@.len(), 0int,
{
    let n = block.values.len();
    if n == 0 {
        assert(findings_view(out@) + Seq::<Finding>::empty() =~= findings_view(out@));
        return;
    }
    let base = block.values[0].span.start;
    let end = block.values[n - 1].span.end;
    let ghost s = css@;
    let ghost i = char_index_of(s, base as int);
    let ghost j = char_index_of(s, end as int);
    proof {
        assert(body_start(*block) == base);
        assert(body_end(*block) == end);
        lemma_byte_offset_full(s);
        assert(byte_offset(s, i) == base);
        assert(byte_offset(s, j) == end);
        if i == 0 {
            assert(s.take(0) =~= Seq::<char>::empty());
        }
        if j < i {
            lemma_byte_offset_strict(s, j, i);
        }
    }
    let inner = Span::new(base, end).slice(css);
    proof {
        assert(inner@ == s.subrange(i, j));
        lemma_byte_offset_in_piece(s, i, j, 0);
        lemma_byte_offset_mono(s, j, s.len() as int);
    }
    let tokens = tokenize_stylesheet(inner);
    let sub = spanned::parse_stylesheet_tokens(&tokens);
    proof {
        let t = scan::stylesheet_tokens(inner@);
        assert forall|k: int| 0 <= k < t.len() implies read_from(inner@, (#[trigger] t[k]).0, t[k].1) by {
            assert(t[k] == (tokens@[k].node@, tokens@[k].span));
        }
        assert forall|x: int, y: int| 0 <= x < y < t.len() implies (#[trigger] t[x]).1.end <= (
        #[trigger] t[y]).1.start by {
            assert(t[x] == (tokens@[x].node@, tokens@[x].span));
            assert(t[y] == (tokens@[y].node@, tokens@[y].span));
        }
    }
    let mut found: Vec<Diagnostic> = Vec::new();
    validate_rules(&sub.rules, inner, &mut found);
    let ghost fs = sheet_findings(inner@, sub.rules@, sub.rules@.len() as int);
    proof {
        assert(findings_view(Seq::<Diagnostic>::empty()) =~= Seq::<Finding>::empty());
        assert(findings_view(found@) =~= fs);
        let t = scan::stylesheet_tokens(inner@);
        let so = sheet_of(inner@);
        assert(rules_match(so, t, 0, true));
        lemma_rules_determined(sub.rules@, so, t, 0, true);
        lemma_sheet_findings_same(inner@, sub.rules@, so, sub.rules@.len() as int);
        assert(text_findings(inner@) == fs);
        assert(group_findings(s, *block) == shifted(text_findings(s.subrange(i, j)), base as int));
        lemma_shift_located(s, i, j, fs);
    }
    let ghost g = shifted(fs, base as int);
    let ghost o = findings_view(out@);
    let mut k: usize = 0;
    while k < found.len()
        invariant
            0 <= k <= found.len(),
            findings_view(found@) == fs,
            g == shifted(fs, base as int),
            findings_view(out@) == o + g.take(k as int),
            findings_located(inner@, fs),
            byte_len(inner@) + base <= usize::MAX,
        decreases found.len() - k,
    {
        let d = &found[k];
        assert(fs[k as int] == (d.name@, d.span, kind_view(d.kind)));
        assert(fs[k as int].1.end <= byte_len(inner@));
        let nd = Diagnostic {
            span: Span::new(d.span.start + base, d.span.end + base),
            kind: copy_kind(&d.kind),
            name: d.name.clone(),
        };
        let ghost before = out@;
        out.push(nd);
        proof {
            assert(g[k as int] == (
                fs[k as int].0,
                Span {
                    start: (fs[k as int].1.start + base) as usize,
                    end: (fs[k as int].1.end + base) as usize,
                },
                fs[k as int].2,
            ));
            assert((nd.name@, nd.span, kind_view(nd.kind)) == g[k as int]);
            assert(findings_view(out@) =~= findings_view(before).push((nd.name@, nd.span, kind_view(nd.kind))));
            assert(g.take(k + 1) =~= g.take(k as int).push(g[k as int]));
        }
        assert(findings_view(out@) =~= o + g.take(k + 1));
        k = k + 1;
    }
    assert(g.take(found.len() as int) =~= g);
    proof {
        assert forall|y: int| 0 <= y < fs.len() implies (#[trigger] fs[y]).1.start <= fs[y].1.end by {
            assert(findings_located(inner@, fs));
        }
        lemma_shift_ordered(fs, 0, byte_len(inner@) as int, base as int);
    }
}

/// Check the body of a descriptor at-rule against its descriptors; leave
/// another at-rule alone.
fn check_descriptor_rule(at: &spanned::AtRule, css: &str, out: &mut Vec<Diagnostic>)
    requires
        fits_usize(css@),
        tokens_located(css@),
        rule_pinned(Rule::At(*at), scan::stylesheet_tokens(css@)),
        !is_conditional_group_name(at.name@),
    ensures
        findings_view(final(out)@) == findings_view(old(out)@) + rule_findings(css@, Rule::At(*at)),
        findings_located(css@, rule_findings(css@, Rule::At(*at))),
{
    let ghost toks = scan::stylesheet_tokens(css@);
    let lower = to_ascii_lowercase(&str_to_chars(at.name.as_str()));
    let lower_name = string_from_chars(&lower);
    match descriptors_for(lower_name.as_str()) {
        Some((_canon, set)) => {
            if let Some(block) = &at.block {
                let check: NameCheck = Some((lower, set));
                let ghost ctx = Some(ascii_lowercase(at.name@));
                assert(check_view(check) == ctx);
                check_block(&block.node, &check, out);
                proof {
                    lemma_block_findings_pinned(block.node.values@, 0, toks, ctx);
                    lemma_pinned_located(css@, block_findings(block.node.values@, 0, ctx));
                }
            } else {
                assert(findings_view(out@) + Seq::<Finding>::empty() =~= findings_view(out@));
            }
        },
        None => {
            assert(findings_view(out@) + Seq::<Finding>::empty() =~= findings_view(out@));
        },
    }
}

/// Check one rule of a stylesheet read from `css`: a qualified rule's block
/// against the properties, a conditional group's body read again as a
/// stylesheet, a descriptor at-rule's body against its descriptors.
fn validate_rule(rule: &Spanned<Rule>, css: &str, out: &mut Vec<Diagnostic>)
    requires
        fits_usize(css@),
        tokens_located(css@),
        rule_pinned(rule.node, scan::stylesheet_tokens(css@)),
        rule_in_order(*rule),
    ensures
        findings_view(final(out)@) == findings_view(old(out)@) + rule_findings(css@, rule.node),
        findings_located(css@, rule_findings(css@, rule.node)),
        ordered_in(rule_findings(css@, rule.node), rule.span.start as int, rule.span.end as int),
    decreases css@.len(), 1int,
{
    let ghost toks = scan::stylesheet_tokens(css@);
    match &rule.node {
        Rule::Qualified(q) => {
            check_block(&q.block.node, &None, out);
            proof {
                lemma_block_findings_pinned(q.block.node.values@, 0, toks, None);
                lemma_pinned_located(css@, block_findings(q.block.node.values@, 0, None));
                lemma_rule_ordered(css@, *rule);
            }
        },
        Rule::At(at) => {
            if is_conditional_group(&at.name) {
                if let Some(block) = &at.block {
                    proof {
                        let p = choose|p: int| #[trigger] block_matches(*block, toks, p);
                        lemma_body_located(css@, *block, p);
                    }
                    validate_group_body(&block.node, css, out);
                    proof {
                        lemma_rule_ordered(css@, *rule);
                    }
                } else {
                    assert(findings_view(out@) + Seq::<Finding>::empty() =~= findings_view(out@));
                    proof {
                        lemma_rule_ordered(css@, *rule);
                    }
                }
            } else {
                check_descriptor_rule(at, css, out);
                proof {
                    lemma_rule_ordered(css@, *rule);
                }
            }
        },
    }
}

/// Check every qualified rule of a stylesheet read from `css`, and read the
/// body of each conditional group rule again as a stylesheet of its own.
#[verifier::rlimit(40)]
fn validate_rules(rules: &Vec<Spanned<Rule>>, css: &str, out: &mut Vec<Diagnostic>)
    requires
        fits_usize(css@),
        tokens_located(css@),
        rules_match(rules@, scan::stylesheet_tokens(css@), 0, true),
    ensures
        findings_view(final(out)@) == findings_view(old(out)@) + sheet_findings(
            css@,
            rules@,
            rules@.len() as int,
        ),
        findings_located(css@, sheet_findings(css@, rules@, rules@.len() as int)),
        ordered_in(sheet_findings(css@, rules@, rules@.len() as int), 0, byte_len(css@) as int),
    decreases css@.len(), 2int,
{
    let ghost toks = scan::stylesheet_tokens(css@);
    proof {
        lemma_rules_pinned(rules@, toks, 0, true);
        lemma_located_in_order(css@);
        lemma_rules_in_order(rules@, toks, 0, true, byte_len(css@) as int);
    }
    let mut i: usize = 0;
    while i < rules.len()
        invariant
            0 <= i <= rules.len(),
            fits_usize(css@),
            tokens_located(css@),
            toks == scan::stylesheet_tokens(css@),
            forall|x: int| 0 <= x < rules@.len() ==> rule_pinned((#[trigger] rules@[x]).node, toks),
            findings_view(out@) == findings_view(old(out)@) + sheet_findings(css@, rules@, i as int),
            findings_located(css@, sheet_findings(css@, rules@, i as int)),
            forall|x: int| 0 <= x < rules@.len() ==> rule_in_order(#[trigger] rules@[x]) && rules@[x].span.end <= byte_len(css@),
            forall|x: int, y: int| 0 <= x < y < rules@.len() ==> (#[trigger] rules@[x]).span.end <= (#[trigger] rules@[y]).span.start,
            ordered_in(sheet_findings(css@, rules@, i as int), 0, if i == 0 { 0 } else { rules@[i - 1].span.end as int }),
        decreases rules.len() - i,
    {
        let ghost before = findings_view(out@);
        let ghost here = rule_findings(css@, rules@[i as int].node);
        assert(rule_pinned(rules@[i as int].node, toks));
        assert(rule_in_order(rules@[i as int]));
        validate_rule(&rules[i], css, out);
        proof {
            assert(findings_located(css@, here));
            lemma_located_concat(css@, sheet_findings(css@, rules@, i as int), here);
            assert(sheet_findings(css@, rules@, i + 1) == sheet_findings(css@, rules@, i as int) + here);
            assert(findings_view(out@) =~= findings_view(old(out)@) + sheet_findings(css@, rules@, i + 1));
            let r = rules@[i as int];
            assert(ordered_in(here, r.span.start as int, r.span.end as int));
            let bound = if i == 0 { 0 } else { rules@[i - 1].span.end as int };
            if i > 0 {
                assert(rules@[i - 1].span.end <= rules@[i as int].span.start);
            }
            lemma_ordered_concat(
                sheet_findings(css@, rules@, i as int),
                here,
                0,
                bound,
                r.span.start as int,
                r.span.end as int,
            );
        }
        i = i + 1;
    }
    proof {
        let n = rules@.len() as int;
        let fs = sheet_findings(css@, rules@, n);
        let bound = if n == 0 { 0 } else { rules@[n - 1].span.end as int };
        lemma_ordered_widen(fs, 0, bound, 0, byte_len(css@) as int);
    }
}

// ---------------------------------------------------------------------------
// Findings point at identifier tokens
// ---------------------------------------------------------------------------

/// Some token of `toks` is the identifier `name`, read from `span`.
pub open spec fn ident_token_in(toks: Toks, name: Seq<char>, span: Span) -> bool {
    exists|k: int| 0 <= k < toks.len() && #[trigger] toks[k] == (SpecToken::Ident(name), span)
}

/// Every identifier value in `vals`, at any depth inside blocks, is an
/// identifier token of `toks` with the same span.
pub open spec fn idents_pinned(vals: Seq<Spanned<ComponentValue>>, toks: Toks) -> bool
    decreases vals,
{
    forall|x: int|
        0 <= x < vals.len() ==> match (#[trigger] vals[x]).node {
            ComponentValue::Token(Token::Ident(n)) => ident_token_in(toks, n@, vals[x].span),
            ComponentValue::Block(b) => idents_pinned(b.values@, toks),
            _ => true,
        }
}

/// Every finding names an identifier token of `toks` and carries its span.
pub open spec fn findings_pinned(fs: Seq<Finding>, toks: Toks) -> bool {
    forall|y: int| 0 <= y < fs.len() ==> ident_token_in(toks, (#[trigger] fs[y]).0, fs[y].1)
}

proof fn lemma_pinned_concat(a: Seq<Finding>, b: Seq<Finding>, toks: Toks)
    requires
        findings_pinned(a, toks),
        findings_pinned(b, toks),
    ensures
        findings_pinned(a + b, toks),
{
    assert forall|y: int| 0 <= y < (a + b).len() implies ident_token_in(
        toks,
        (#[trigger] (a + b)[y]).0,
        (a + b)[y].1,
    ) by {
        if y < a.len() {
            assert((a + b)[y] == a[y]);
        } else {
            assert((a + b)[y] == b[y - a.len()]);
        }
    }
}

/// The values the grammar builds have their identifiers pinned to tokens.
proof fn lemma_seg_pinned(vals: Seq<Spanned<ComponentValue>>, toks: Toks, k: int, e: int, stop: Stop)
    requires
        vals_seg(vals, toks, k, e, stop),
    ensures
        idents_pinned(vals, toks),
    decreases vals,
{
    if vals.len() > 0 {
        let rest = vals.drop_first();
        lemma_seg_pinned(rest, toks, cv_end(toks, k), e, stop);
        let v = vals[0];
        assert(cv_matches(v, toks, k));
        match v.node {
            ComponentValue::Token(t) => {
                if t is Ident {
                    assert(cv_end(toks, k) == k + 1);
                    assert(range_span(toks, k, k + 1) == toks[k].1);
                    assert(toks[k] == (SpecToken::Ident(t->Ident_0@), v.span));
                }
            },
            ComponentValue::Block(b) => {
                lemma_seg_pinned(
                    b.values@,
                    toks,
                    k + 1,
                    run_end(toks, k + 1, Stop::Close(b.kind)),
                    Stop::Close(b.kind),
                );
            },
            _ => {},
        }
        assert forall|x: int| 0 <= x < vals.len() implies match (#[trigger] vals[x]).node {
            ComponentValue::Token(Token::Ident(n)) => ident_token_in(toks, n@, vals[x].span),
            ComponentValue::Block(b) => idents_pinned(b.values@, toks),
            _ => true,
        } by {
            if x > 0 {
                assert(vals[x] == rest[x - 1]);
            }
        }
    }
}

proof fn lemma_block_findings_pinned(vals: Seq<Spanned<ComponentValue>>, i: int, toks: Toks, ctx: Option<Seq<char>>)
    requires
        idents_pinned(vals, toks),
    ensures
        findings_pinned(block_findings(vals, i, ctx), toks),
    decreases vals.len() - i,
{
    if 0 <= i < vals.len() {
        match vals[i].node {
            ComponentValue::Token(Token::Whitespace) => lemma_block_findings_pinned(vals, i + 1, toks, ctx),
            ComponentValue::Token(Token::Semicolon) => lemma_block_findings_pinned(vals, i + 1, toks, ctx),
            ComponentValue::Token(Token::AtKeyword(_)) => {
                let j = after_nested_at(vals, i + 1);
                if i < j <= vals.len() {
                    lemma_block_findings_pinned(vals, j, toks, ctx);
                }
            },
            ComponentValue::Token(Token::Ident(name)) => {
                let j = skip_ws_values(vals, i + 1);
                let here = if 0 <= j < vals.len() && value_is_colon(vals[j]) && name_flagged(ctx, name@) {
                    seq![(name@, vals[i].span, ctx)]
                } else {
                    seq![]
                };
                assert(ident_token_in(toks, name@, vals[i].span));
                assert(findings_pinned(here, toks));
                let e = to_semicolon(vals, j);
                if i < e <= vals.len() {
                    lemma_block_findings_pinned(vals, e, toks, ctx);
                    lemma_pinned_concat(here, block_findings(vals, e, ctx), toks);
                }
            },
            _ => lemma_block_findings_pinned(vals, i + 1, toks, ctx),
        }
    }
}

/// The blocks of a rule are the ones the grammar builds at some token, and
/// their identifiers are pinned to tokens.
pub open spec fn rule_pinned(r: Rule, toks: Toks) -> bool {
    match r {
        Rule::Qualified(q) => {
            &&& idents_pinned(q.block.node.values@, toks)
            &&& exists|p: int| #[trigger] block_matches(q.block, toks, p)
        },
        Rule::At(a) => match a.block {
            Some(b) => {
                &&& idents_pinned(b.node.values@, toks)
                &&& exists|p: int| #[trigger] block_matches(b, toks, p)
            },
            None => true,
        },
    }
}

proof fn lemma_block_pinned(b: Spanned<SimpleBlock>, toks: Toks, p: int)
    requires
        block_matches(b, toks, p),
    ensures
        idents_pinned(b.node.values@, toks),
        exists|q: int| #[trigger] block_matches(b, toks, q),
{
    lemma_seg_pinned(
        b.node.values@,
        toks,
        p + 1,
        run_end(toks, p + 1, Stop::Close(b.node.kind)),
        Stop::Close(b.node.kind),
    );
}

proof fn lemma_rules_pinned(rules: Seq<Spanned<Rule>>, toks: Toks, k: int, top: bool)
    requires
        rules_match(rules, toks, k, top),
    ensures
        forall|x: int| 0 <= x < rules.len() ==> rule_pinned((#[trigger] rules[x]).node, toks),
    decreases toks.len() - k,
{
    if k < 0 || k >= toks.len() {
    } else if toks[k].0 is Whitespace || (top && (toks[k].0 is Cdo || toks[k].0 is Cdc)) {
        lemma_rules_pinned(rules, toks, k + 1, top);
    } else {
        let e = if toks[k].0 is AtKeyword {
            crate::grammar::at_rule_end(toks, k)
        } else {
            cv_end(toks, run_end(toks, k, Stop::OpenCurly))
        };
        if rules.len() > 0 {
            match rules[0].node {
                Rule::At(a) => {
                    let p = run_end(toks, k + 1, Stop::SemicolonOrCurly);
                    if p < toks.len() && toks[p].0 is LeftCurly {
                        lemma_block_pinned(a.block->Some_0, toks, p);
                    }
                },
                Rule::Qualified(q) => {
                    lemma_block_pinned(q.block, toks, run_end(toks, k, Stop::OpenCurly));
                },
            }
            if k < e <= toks.len() {
                lemma_rules_pinned(rules.drop_first(), toks, e, top);
                assert forall|x: int| 0 <= x < rules.len() implies rule_pinned(
                    (#[trigger] rules[x]).node,
                    toks,
                ) by {
                    if x > 0 {
                        assert(rules[x] == rules.drop_first()[x - 1]);
                    }
                }
            }
        }
    }
}

// ---------------------------------------------------------------------------
// Where a finding stands in the text
// ---------------------------------------------------------------------------

/// What validation relies on of the tokens of `s`: each was read from its
/// span, and the spans follow one another without overlapping.
pub open spec fn tokens_located(s: Seq<char>) -> bool {
    &&& forall|k: int|
        0 <= k < scan::stylesheet_tokens(s).len() ==> read_from(
            s,
            (#[trigger] scan::stylesheet_tokens(s)[k]).0,
            scan::stylesheet_tokens(s)[k].1,
        )
    &&& forall|i: int, j: int|
        0 <= i < j < scan::stylesheet_tokens(s).len() ==> (#[trigger] scan::stylesheet_tokens(s)[i]).1.end <= (
        #[trigger] scan::stylesheet_tokens(s)[j]).1.start
}

/// The identifier `name` was read from the span `sp` of `s`: either by the
/// tokenizer reading `s` itself, or, inside the body of a conditional group
/// rule, by reading that body's text again on its own.
pub open spec fn name_located(s: Seq<char>, name: Seq<char>, sp: Span) -> bool
    decreases s.len(),
{
    ||| read_from(s, SpecToken::Ident(name), sp)
    ||| exists|i: int, j: int|
        0 < i <= j <= s.len() && byte_offset(s, i) <= sp.start && sp.start <= sp.end && name_located(
            #[trigger] s.subrange(i, j),
            name,
            Span {
                start: (sp.start - byte_offset(s, i)) as usize,
                end: (sp.end - byte_offset(s, i)) as usize,
            },
        )
}

/// Every finding of `fs` was read from its span of `s`, which is non-empty
/// and within `s`.
pub open spec fn findings_located(s: Seq<char>, fs: Seq<Finding>) -> bool {
    forall|y: int|
        0 <= y < fs.len() ==> name_located(s, (#[trigger] fs[y]).0, fs[y].1) && fs[y].1.start
            < fs[y].1.end <= byte_len(s)
}

/// A located name's span can slice the text: both ends are character
/// boundaries, in order, within the text.
pub proof fn lemma_located_slices(s: Seq<char>, name: Seq<char>, sp: Span)
    requires
        fits_usize(s),
        name_located(s, name, sp),
    ensures
        is_char_boundary(s, sp.start as int),
        is_char_boundary(s, sp.end as int),
        sp.start < sp.end <= byte_len(s),
    decreases s.len(),
{
    if read_from(s, SpecToken::Ident(name), sp) {
        lemma_token_span_slices(s, SpecToken::Ident(name), sp);
        if sp.start == sp.end {
            assert(char_index_of(s, sp.start as int) == char_index_of(s, sp.end as int));
        }
    } else {
        let (i, j) = choose|i: int, j: int|
            0 < i <= j <= s.len() && byte_offset(s, i) <= sp.start && sp.start <= sp.end
                && name_located(
                #[trigger] s.subrange(i, j),
                name,
                Span {
                    start: (sp.start - byte_offset(s, i)) as usize,
                    end: (sp.end - byte_offset(s, i)) as usize,
                },
            );
        let sub = s.subrange(i, j);
        let off = byte_offset(s, i);
        let sp2 = Span { start: (sp.start - off) as usize, end: (sp.end - off) as usize };
        lemma_byte_offset_in_piece(s, i, j, 0);
        lemma_byte_offset_mono(s, j, s.len() as int);
        lemma_byte_offset_full(s);
        lemma_located_slices(sub, name, sp2);
        let a = choose|a: int| 0 <= a <= sub.len() && #[trigger] byte_offset(sub, a) == sp2.start;
        lemma_byte_offset_in_piece(s, i, j, a);
        assert(byte_offset(s, i + a) == sp.start);
        let e = choose|e: int| 0 <= e <= sub.len() && #[trigger] byte_offset(sub, e) == sp2.end;
        lemma_byte_offset_in_piece(s, i, j, e);
        assert(byte_offset(s, i + e) == sp.end);
    }
}

/// Findings located in a piece `s[i..j]` of a text, moved by where the piece
/// starts, are located in the text.
proof fn lemma_shift_located(s: Seq<char>, i: int, j: int, fs: Seq<Finding>)
    requires
        fits_usize(s),
        0 < i <= j <= s.len(),
        findings_located(s.subrange(i, j), fs),
    ensures
        findings_located(s, shifted(fs, byte_offset(s, i) as int)),
{
    let off = byte_offset(s, i) as int;
    let sub = s.subrange(i, j);
    lemma_byte_offset_in_piece(s, i, j, 0);
    lemma_byte_offset_mono(s, j, s.len() as int);
    lemma_byte_offset_full(s);
    let g = shifted(fs, off);
    assert forall|y: int| 0 <= y < g.len() implies name_located(s, (#[trigger] g[y]).0, g[y].1)
        && g[y].1.start < g[y].1.end <= byte_len(s) by {
        let f = fs[y];
        assert(g[y] == (f.0, Span { start: (f.1.start + off) as usize, end: (f.1.end + off) as usize }, f.2));
        assert(f.1.end + off <= byte_len(s));
        let sp = g[y].1;
        assert(Span { start: (sp.start - off) as usize, end: (sp.end - off) as usize } == f.1);
        assert(name_located(sub, f.0, f.1));
        assert(name_located(s, f.0, sp));
    }
}

// ---------------------------------------------------------------------------
// The same tree gives the same findings
// ---------------------------------------------------------------------------

proof fn lemma_walkers_same(a: Seq<Spanned<ComponentValue>>, b: Seq<Spanned<ComponentValue>>, j: int)
    requires
        vals_same(a, b),
    ensures
        skip_ws_values(a, j) == skip_ws_values(b, j),
        after_nested_at(a, j) == after_nested_at(b, j),
        to_semicolon(a, j) == to_semicolon(b, j),
    decreases a.len() - j,
{
    if 0 <= j < a.len() {
        assert(cv_same(a[j], b[j]));
        lemma_walkers_same(a, b, j + 1);
    }
}

proof fn lemma_block_findings_same(a: Seq<Spanned<ComponentValue>>, b: Seq<Spanned<ComponentValue>>, i: int, ctx: Option<Seq<char>>)
    requires
        vals_same(a, b),
    ensures
        block_findings(a, i, ctx) == block_findings(b, i, ctx),
    decreases a.len() - i,
{
    if 0 <= i < a.len() {
        assert(cv_same(a[i], b[i]));
        lemma_walkers_same(a, b, i + 1);
        let j = skip_ws_values(a, i + 1);
        lemma_walkers_same(a, b, j);
        if 0 <= j < a.len() {
            assert(cv_same(a[j], b[j]));
        }
        let e1 = after_nested_at(a, i + 1);
        let e2 = to_semicolon(a, j);
        if i < e1 <= a.len() {
            lemma_block_findings_same(a, b, e1, ctx);
        }
        if i < e2 <= a.len() {
            lemma_block_findings_same(a, b, e2, ctx);
        }
        lemma_block_findings_same(a, b, i + 1, ctx);
    }
}

proof fn lemma_sheet_findings_same(s: Seq<char>, a: Seq<Spanned<Rule>>, b: Seq<Spanned<Rule>>, n: int)
    requires
        rules_same(a, b),
        n <= a.len(),
    ensures
        sheet_findings(s, a, n) == sheet_findings(s, b, n),
    decreases n,
{
    if n > 0 {
        lemma_sheet_findings_same(s, a, b, n - 1);
        assert(rule_same(a[n - 1], b[n - 1]));
        match (a[n - 1].node, b[n - 1].node) {
            (Rule::Qualified(x), Rule::Qualified(y)) => {
                lemma_block_findings_same(x.block.node.values@, y.block.node.values@, 0, None);
            },
            (Rule::At(x), Rule::At(y)) => {
                match (x.block, y.block) {
                    (Some(bx), Some(by)) => {
                        if bx.node.values@.len() > 0 {
                            assert(cv_same(bx.node.values@[0], by.node.values@[0]));
                            let l = bx.node.values@.len() - 1;
                            assert(cv_same(bx.node.values@[l], by.node.values@[l]));
                            assert(body_start(bx.node) == body_start(by.node));
                            assert(body_end(bx.node) == body_end(by.node));
                        }
                        assert(group_findings(s, bx.node) == group_findings(s, by.node));
                        lemma_block_findings_same(
                            bx.node.values@,
                            by.node.values@,
                            0,
                            Some(ascii_lowercase(x.name@)),
                        );
                    },
                    _ => {},
                }
            },
            _ => {},
        }
        assert(rule_findings(s, a[n - 1].node) == rule_findings(s, b[n - 1].node));
    }
}

/// The contents of a block built from the tokens of `s` stand in `s`
/// between character boundaries, after the opening bracket.
pub open spec fn body_located(s: Seq<char>, b: SimpleBlock) -> bool {
    b.values@.len() > 0 ==> {
        &&& is_char_boundary(s, body_start(b))
        &&& is_char_boundary(s, body_end(b))
        &&& 0 < body_start(b) <= body_end(b) <= byte_len(s)
    }
}

/// What a token of `s` tells of its span: both ends are character
/// boundaries, in order, within `s`.
proof fn lemma_token_bounds(s: Seq<char>, k: int)
    requires
        fits_usize(s),
        tokens_located(s),
        0 <= k < scan::stylesheet_tokens(s).len(),
    ensures
        is_char_boundary(s, scan::stylesheet_tokens(s)[k].1.start as int),
        is_char_boundary(s, scan::stylesheet_tokens(s)[k].1.end as int),
        scan::stylesheet_tokens(s)[k].1.start < scan::stylesheet_tokens(s)[k].1.end <= byte_len(s),
{
    let t = scan::stylesheet_tokens(s)[k];
    assert(read_from(s, t.0, t.1));
    lemma_token_span_slices(s, t.0, t.1);
    if t.1.start == t.1.end {
        assert(char_index_of(s, t.1.start as int) == char_index_of(s, t.1.end as int));
    }
}

proof fn lemma_body_located(s: Seq<char>, b: Spanned<SimpleBlock>, p: int)
    requires
        fits_usize(s),
        tokens_located(s),
        block_matches(b, scan::stylesheet_tokens(s), p),
    ensures
        body_located(s, b.node),
{
    let toks = scan::stylesheet_tokens(s);
    let v = b.node.values@;
    if v.len() > 0 {
        let stop = Stop::Close(b.node.kind);
        let e = run_end(toks, p + 1, stop);
        lemma_seg_span(v, toks, p + 1, e, stop);
        lemma_token_bounds(s, p);
        lemma_token_bounds(s, p + 1);
        lemma_token_bounds(s, e - 1);
        assert(toks[p].1.end <= toks[p + 1].1.start);
        if p + 1 < e - 1 {
            assert(toks[p + 1].1.end <= toks[e - 1].1.start);
        }
    }
}

proof fn lemma_located_concat(s: Seq<char>, a: Seq<Finding>, b: Seq<Finding>)
    requires
        findings_located(s, a),
        findings_located(s, b),
    ensures
        findings_located(s, a + b),
{
    assert forall|y: int| 0 <= y < (a + b).len() implies name_located(s, (#[trigger] (a + b)[y]).0, (a
        + b)[y].1) && (a + b)[y].1.start < (a + b)[y].1.end <= byte_len(s) by {
        if y < a.len() {
            assert((a + b)[y] == a[y]);
        } else {
            assert((a + b)[y] == b[y - a.len()]);
        }
    }
}

/// Findings pinned to identifier tokens of `s` are located in `s`.
proof fn lemma_pinned_located(s: Seq<char>, fs: Seq<Finding>)
    requires
        fits_usize(s),
        tokens_located(s),
        findings_pinned(fs, scan::stylesheet_tokens(s)),
    ensures
        findings_located(s, fs),
{
    let toks = scan::stylesheet_tokens(s);
    assert forall|y: int| 0 <= y < fs.len() implies name_located(s, (#[trigger] fs[y]).0, fs[y].1)
        && fs[y].1.start < fs[y].1.end <= byte_len(s) by {
        assert(ident_token_in(toks, fs[y].0, fs[y].1));
        let k = choose|k: int| 0 <= k < toks.len() && #[trigger] toks[k] == (SpecToken::Ident(fs[y].0), fs[y].1);
        assert(read_from(s, toks[k].0, toks[k].1));
        lemma_token_span_slices(s, toks[k].0, toks[k].1);
        if fs[y].1.start == fs[y].1.end {
            assert(char_index_of(s, fs[y].1.start as int) == char_index_of(s, fs[y].1.end as int));
        }
    }
}

/// Validate a stylesheet's declarations, returning every finding in source
/// order: each declaration in a qualified rule whose name is not a known
/// property, each declaration in the body of a descriptor at-rule whose name
/// is not one of its descriptors, and, inside the body of a conditional
/// group rule, read again on its own as a stylesheet, the same. Each finding
/// is located: its span is the span of the name it was read from.
pub fn validate_stylesheet(css: &str) -> (r: Vec<Diagnostic>)
    requires
        fits_usize(css@),
    ensures
        rules_match(sheet_of(css@), scan::stylesheet_tokens(css@), 0, true),
        findings_view(r@) == text_findings(css@),
        forall|i: int| 0 <= i < r@.len() ==> name_located(css@, (#[trigger] r@[i]).name@, r@[i].span),
        forall|i: int| 0 <= i < r@.len() ==> (#[trigger] r@[i]).span.start < r@[i].span.end,
        forall|i: int, j: int| 0 <= i < j < r@.len() ==> (#[trigger] r@[i]).span.end <= (#[trigger] r@[j]).span.start,
{
    let tokens = tokenize_stylesheet(css);
    let sheet = spanned::parse_stylesheet_tokens(&tokens);
    proof {
        let t = scan::stylesheet_tokens(css@);
        assert forall|k: int| 0 <= k < t.len() implies read_from(css@, (#[trigger] t[k]).0, t[k].1) by {
            assert(t[k] == (tokens@[k].node@, tokens@[k].span));
        }
        assert forall|x: int, y: int| 0 <= x < y < t.len() implies (#[trigger] t[x]).1.end <= (
        #[trigger] t[y]).1.start by {
            assert(t[x] == (tokens@[x].node@, tokens@[x].span));
            assert(t[y] == (tokens@[y].node@, tokens@[y].span));
        }
    }
    let mut out: Vec<Diagnostic> = Vec::new();
    validate_rules(&sheet.rules, css, &mut out);
    proof {
        let fs = sheet_findings(css@, sheet.rules@, sheet.rules@.len() as int);
        assert(findings_view(Seq::<Diagnostic>::empty()) =~= Seq::<Finding>::empty());
        assert(findings_view(out@) =~= fs);
        let t = scan::stylesheet_tokens(css@);
        let so = sheet_of(css@);
        assert(rules_match(so, t, 0, true));
        lemma_rules_determined(sheet.rules@, so, t, 0, true);
        lemma_sheet_findings_same(css@, sheet.rules@, so, sheet.rules@.len() as int);
        assert forall|i: int| 0 <= i < out@.len() implies name_located(
            css@,
            (#[trigger] out@[i]).name@,
            out@[i].span,
        ) by {
            assert(fs[i] == (out@[i].name@, out@[i].span, kind_view(out@[i].kind)));
        }
        assert forall|i: int| 0 <= i < out@.len() implies (#[trigger] out@[i]).span.start < out@[i].span.end by {
            assert(fs[i] == (out@[i].name@, out@[i].span, kind_view(out@[i].kind)));
        }
        assert forall|i: int, j: int| 0 <= i < j < out@.len() implies (#[trigger] out@[i]).span.end <= (
        #[trigger] out@[j]).span.start by {
            assert(fs[i] == (out@[i].name@, out@[i].span, kind_view(out@[i].kind)));
            assert(fs[j] == (out@[j].name@, out@[j].span, kind_view(out@[j].kind)));
        }
    }
    out
}

// ---------------------------------------------------------------------------
// Every finding is a name that is reported where it stands
// ---------------------------------------------------------------------------

/// Each finding's name is reported against what its kind says: an unknown
/// property, or none of the descriptors of the at-rule it names.
pub open spec fn all_flagged(fs: Seq<Finding>) -> bool {
    forall|y: int| 0 <= y < fs.len() ==> name_flagged((#[trigger] fs[y]).2, fs[y].0)
}

proof fn lemma_flagged_concat(a: Seq<Finding>, b: Seq<Finding>)
    requires
        all_flagged(a),
        all_flagged(b),
    ensures
        all_flagged(a + b),
{
    assert forall|y: int| 0 <= y < (a + b).len() implies name_flagged((#[trigger] (a + b)[y]).2, (a
        + b)[y].0) by {
        if y < a.len() {
            assert((a + b)[y] == a[y]);
        } else {
            assert((a + b)[y] == b[y - a.len()]);
        }
    }
}

proof fn lemma_block_findings_flagged(vals: Seq<Spanned<ComponentValue>>, i: int, ctx: Option<Seq<char>>)
    ensures
        all_flagged(block_findings(vals, i, ctx)),
    decreases vals.len() - i,
{
    if 0 <= i < vals.len() {
        match vals[i].node {
            ComponentValue::Token(Token::Whitespace) => lemma_block_findings_flagged(vals, i + 1, ctx),
            ComponentValue::Token(Token::Semicolon) => lemma_block_findings_flagged(vals, i + 1, ctx),
            ComponentValue::Token(Token::AtKeyword(_)) => {
                let j = after_nested_at(vals, i + 1);
                if i < j <= vals.len() {
                    lemma_block_findings_flagged(vals, j, ctx);
                }
            },
            ComponentValue::Token(Token::Ident(name)) => {
                let j = skip_ws_values(vals, i + 1);
                let here = if 0 <= j < vals.len() && value_is_colon(vals[j]) && name_flagged(ctx, name@) {
                    seq![(name@, vals[i].span, ctx)]
                } else {
                    seq![]
                };
                assert(all_flagged(here));
                let e = to_semicolon(vals, j);
                if i < e <= vals.len() {
                    lemma_block_findings_flagged(vals, e, ctx);
                    lemma_flagged_concat(here, block_findings(vals, e, ctx));
                }
            },
            _ => lemma_block_findings_flagged(vals, i + 1, ctx),
        }
    }
}

proof fn lemma_text_findings_flagged(s: Seq<char>)
    ensures
        all_flagged(text_findings(s)),
    decreases 2 * s.len() + 1, 0int,
{
    lemma_sheet_findings_flagged(s, sheet_of(s), sheet_of(s).len() as int);
}

proof fn lemma_sheet_findings_flagged(s: Seq<char>, rules: Seq<Spanned<Rule>>, n: int)
    ensures
        all_flagged(sheet_findings(s, rules, n)),
    decreases 2 * s.len(), n + 2,
{
    if n > 0 {
        lemma_sheet_findings_flagged(s, rules, n - 1);
        lemma_rule_findings_flagged(s, rules[n - 1].node);
        lemma_flagged_concat(sheet_findings(s, rules, n - 1), rule_findings(s, rules[n - 1].node));
    }
}

proof fn lemma_rule_findings_flagged(s: Seq<char>, r: Rule)
    ensures
        all_flagged(rule_findings(s, r)),
    decreases 2 * s.len(), 1int,
{
    match r {
        Rule::Qualified(q) => lemma_block_findings_flagged(q.block.node.values@, 0, None),
        Rule::At(a) => {
            match a.block {
                Some(b) => {
                    lemma_group_findings_flagged(s, b.node);
                    lemma_block_findings_flagged(b.node.values@, 0, Some(ascii_lowercase(a.name@)));
                },
                None => {},
            }
        },
    }
}

proof fn lemma_group_findings_flagged(s: Seq<char>, b: SimpleBlock)
    ensures
        all_flagged(group_findings(s, b)),
    decreases 2 * s.len(), 0int,
{
    if b.values@.len() > 0 {
        let i = char_index_of(s, body_start(b));
        let j = char_index_of(s, body_end(b));
        if 0 <= i <= j <= s.len() && j - i < s.len() {
            let t = text_findings(s.subrange(i, j));
            lemma_text_findings_flagged(s.subrange(i, j));
            let g = shifted(t, body_start(b));
            assert forall|y: int| 0 <= y < g.len() implies name_flagged((#[trigger] g[y]).2, g[y].0) by {
                assert(g[y].0 == t[y].0 && g[y].2 == t[y].2);
            }
        }
    }
}

/// Every finding of a stylesheet reports a name that is flagged where it
/// stands: a name in a style rule is not a known property, a name in a
/// descriptor at-rule is none of that at-rule's descriptors, and neither
/// starts with `-`.
pub proof fn lemma_stylesheet_findings_flagged(s: Seq<char>)
    ensures
        forall|y: int|
            0 <= y < text_findings(s).len() ==> name_flagged(
                (#[trigger] text_findings(s)[y]).2,
                text_findings(s)[y].0,
            ),
{
    lemma_text_findings_flagged(s);
}

// ---------------------------------------------------------------------------
// Findings come in source order
// ---------------------------------------------------------------------------

/// The findings' spans lie within `[lo, hi]`, each ending before the next
/// one begins.
pub open spec fn ordered_in(fs: Seq<Finding>, lo: int, hi: int) -> bool {
    &&& forall|y: int| 0 <= y < fs.len() ==> lo <= (#[trigger] fs[y]).1.start && fs[y].1.end <= hi
    &&& forall|x: int, y: int| 0 <= x < y < fs.len() ==> (#[trigger] fs[x]).1.end <= (#[trigger] fs[y]).1.start
}

proof fn lemma_ordered_concat(a: Seq<Finding>, b: Seq<Finding>, lo: int, m1: int, m2: int, hi: int)
    requires
        ordered_in(a, lo, m1),
        ordered_in(b, m2, hi),
        lo <= m1 <= m2 <= hi,
    ensures
        ordered_in(a + b, lo, hi),
{
    let c = a + b;
    assert forall|y: int| 0 <= y < c.len() implies lo <= (#[trigger] c[y]).1.start && c[y].1.end <= hi by {
        if y < a.len() {
            assert(c[y] == a[y]);
        } else {
            assert(c[y] == b[y - a.len()]);
        }
    }
    assert forall|x: int, y: int| 0 <= x < y < c.len() implies (#[trigger] c[x]).1.end <= (
    #[trigger] c[y]).1.start by {
        if y < a.len() {
            assert(c[x] == a[x] && c[y] == a[y]);
        } else if x < a.len() {
            assert(c[x] == a[x] && c[y] == b[y - a.len()]);
        } else {
            assert(c[x] == b[x - a.len()] && c[y] == b[y - a.len()]);
        }
    }
}

proof fn lemma_ordered_widen(a: Seq<Finding>, lo: int, hi: int, lo2: int, hi2: int)
    requires
        ordered_in(a, lo, hi),
        lo2 <= lo,
        hi <= hi2,
    ensures
        ordered_in(a, lo2, hi2),
{
}

proof fn lemma_shift_ordered(fs: Seq<Finding>, lo: int, hi: int, d: int)
    requires
        ordered_in(fs, lo, hi),
        0 <= lo,
        0 <= d,
        hi + d <= usize::MAX,
        forall|y: int| 0 <= y < fs.len() ==> (#[trigger] fs[y]).1.start <= fs[y].1.end,
    ensures
        ordered_in(shifted(fs, d), lo + d, hi + d),
{
    let g = shifted(fs, d);
    assert forall|y: int| 0 <= y < g.len() implies lo + d <= (#[trigger] g[y]).1.start && g[y].1.end <= hi + d by {
        assert(g[y].1 == Span { start: (fs[y].1.start + d) as usize, end: (fs[y].1.end + d) as usize });
    }
    assert forall|x: int, y: int| 0 <= x < y < g.len() implies (#[trigger] g[x]).1.end <= (#[trigger] g[y]).1.start by {
        assert(g[x].1 == Span { start: (fs[x].1.start + d) as usize, end: (fs[x].1.end + d) as usize });
        assert(g[y].1 == Span { start: (fs[y].1.start + d) as usize, end: (fs[y].1.end + d) as usize });
        assert(fs[x].1.end <= fs[y].1.start);
    }
}

/// The tokens' spans are in order, each within `[0, hi]`.
pub open spec fn toks_in_order(toks: Toks, hi: int) -> bool {
    &&& forall|k: int| 0 <= k < toks.len() ==> (#[trigger] toks[k]).1.start <= toks[k].1.end <= hi
    &&& forall|i: int, j: int| 0 <= i < j < toks.len() ==> (#[trigger] toks[i]).1.end <= (#[trigger] toks[j]).1.start
}

/// The values' spans are in order: each ends before the next begins.
pub open spec fn vals_in_order(v: Seq<Spanned<ComponentValue>>) -> bool {
    &&& forall|x: int| 0 <= x < v.len() ==> (#[trigger] v[x]).span.start <= v[x].span.end
    &&& forall|x: int, y: int| 0 <= x < y < v.len() ==> (#[trigger] v[x]).span.end <= (#[trigger] v[y]).span.start
}

/// The values are in order and lie within `[lo, hi]`.
pub open spec fn vals_within(v: Seq<Spanned<ComponentValue>>, lo: int, hi: int) -> bool {
    &&& vals_in_order(v)
    &&& forall|x: int| 0 <= x < v.len() ==> lo <= (#[trigger] v[x]).span.start && v[x].span.end <= hi
}

proof fn lemma_seg_in_order(v: Seq<Spanned<ComponentValue>>, toks: Toks, k: int, e: int, stop: Stop, hi: int)
    requires
        vals_seg(v, toks, k, e, stop),
        toks_in_order(toks, hi),
    ensures
        v.len() > 0 ==> 0 <= k < e <= toks.len() && vals_within(v, toks[k].1.start as int, toks[e - 1].1.end as int),
    decreases v.len(),
{
    if v.len() > 0 {
        crate::parse_laws::lemma_cv_end_gt(toks, k);
        crate::parse_laws::lemma_cv_end_le(toks, k);
        let c = cv_end(toks, k);
        let rest = v.drop_first();
        assert(cv_matches(v[0], toks, k));
        lemma_seg_in_order(rest, toks, c, e, stop, hi);
        crate::parse_laws::lemma_seg_span(v, toks, k, e, stop);
        assert(v[0].span == range_span(toks, k, c));
        if c - 1 > k {
            assert(toks[k].1.end <= toks[c - 1].1.start);
        }
        assert(toks[k].1.start <= toks[k].1.end);
        if rest.len() > 0 {
            assert(toks[c - 1].1.end <= toks[c].1.start);
            assert(toks[c].1.start <= toks[c].1.end);
            if e - 1 > c {
                assert(toks[c].1.end <= toks[e - 1].1.start);
            }
        }
        assert forall|x: int| 0 <= x < v.len() implies toks[k].1.start <= (#[trigger] v[x]).span.start
            && v[x].span.end <= toks[e - 1].1.end && v[x].span.start <= v[x].span.end by {
            if x > 0 {
                assert(v[x] == rest[x - 1]);
            }
        }
        assert forall|x: int, y: int| 0 <= x < y < v.len() implies (#[trigger] v[x]).span.end <= (
        #[trigger] v[y]).span.start by {
            assert(v[y] == rest[y - 1]);
            if x > 0 {
                assert(v[x] == rest[x - 1]);
            }
        }
    }
}

/// A block the grammar builds at `p` has its values in order within its
/// own span.
proof fn lemma_block_in_order(b: Spanned<SimpleBlock>, toks: Toks, p: int, hi: int)
    requires
        block_matches(b, toks, p),
        toks_in_order(toks, hi),
    ensures
        vals_within(b.node.values@, b.span.start as int, b.span.end as int),
        b.span.start <= b.span.end,
        p < cv_end(toks, p) <= toks.len(),
{
    let stop = Stop::Close(b.node.kind);
    let r = run_end(toks, p + 1, stop);
    crate::parse_laws::lemma_cv_end_gt(toks, p);
    crate::parse_laws::lemma_cv_end_le(toks, p);
    crate::parse_laws::lemma_run_end_ge(toks, p + 1, stop);
    lemma_seg_in_order(b.node.values@, toks, p + 1, r, stop, hi);
    let c = cv_end(toks, p);
    assert(c == crate::grammar::past_closer(toks, r)) by {
        assert(crate::grammar::opens(toks[p].0) == Some(b.node.kind));
    }
    assert(toks[p].1.start <= toks[p].1.end);
    if c - 1 > p {
        assert(toks[p].1.end <= toks[c - 1].1.start);
    }
    if b.node.values@.len() > 0 {
        assert(toks[p].1.end <= toks[p + 1].1.start);
        if r - 1 < c - 1 {
            assert(toks[r - 1].1.end <= toks[c - 1].1.start);
            assert(toks[c - 1].1.start <= toks[c - 1].1.end);
        }
    }
}

/// Where the values from `i` on begin: the start of the value at `i`, or
/// the end of the last value once none is left.
pub open spec fn vals_lo(v: Seq<Spanned<ComponentValue>>, i: int) -> int {
    if 0 <= i < v.len() {
        v[i].span.start as int
    } else {
        vals_hi(v)
    }
}

/// Where the values end: the end of the last one.
pub open spec fn vals_hi(v: Seq<Spanned<ComponentValue>>) -> int {
    if v.len() > 0 {
        v.last().span.end as int
    } else {
        0
    }
}

proof fn lemma_vals_lo_mono(v: Seq<Spanned<ComponentValue>>, i: int, j: int)
    requires
        vals_in_order(v),
        0 <= i <= j,
    ensures
        vals_lo(v, i) <= vals_lo(v, j),
        vals_lo(v, i) <= vals_hi(v),
{
    if i < v.len() {
        let l = v.len() - 1;
        if i < l {
            assert(v[i].span.end <= v[l].span.start);
        }
        if j < v.len() && i < j {
            assert(v[i].span.end <= v[j].span.start);
        }
    }
}

proof fn lemma_block_findings_ordered(vals: Seq<Spanned<ComponentValue>>, i: int, ctx: Option<Seq<char>>)
    requires
        vals_in_order(vals),
        0 <= i,
    ensures
        ordered_in(block_findings(vals, i, ctx), vals_lo(vals, i), vals_hi(vals)),
    decreases vals.len() - i,
{
    if 0 <= i < vals.len() {
        match vals[i].node {
            ComponentValue::Token(Token::Whitespace) | ComponentValue::Token(Token::Semicolon) => {
                lemma_block_findings_ordered(vals, i + 1, ctx);
                lemma_vals_lo_mono(vals, i, i + 1);
            },
            ComponentValue::Token(Token::AtKeyword(_)) => {
                let j = after_nested_at(vals, i + 1);
                if i < j <= vals.len() {
                    lemma_block_findings_ordered(vals, j, ctx);
                    lemma_vals_lo_mono(vals, i, j);
                }
            },
            ComponentValue::Token(Token::Ident(name)) => {
                let j = skip_ws_values(vals, i + 1);
                let here = if 0 <= j < vals.len() && value_is_colon(vals[j]) && name_flagged(ctx, name@) {
                    seq![(name@, vals[i].span, ctx)]
                } else {
                    seq![]
                };
                let l = vals.len() - 1;
                if i < l {
                    assert(vals[i].span.end <= vals[l].span.start);
                }
                assert(ordered_in(here, vals[i].span.start as int, vals[i].span.end as int));
                let e = to_semicolon(vals, j);
                if i < e <= vals.len() {
                    lemma_block_findings_ordered(vals, e, ctx);
                    lemma_vals_lo_mono(vals, i, e);
                    if e < vals.len() {
                        assert(vals[i].span.end <= vals[e].span.start);
                    }
                    lemma_ordered_concat(
                        here,
                        block_findings(vals, e, ctx),
                        vals_lo(vals, i),
                        vals[i].span.end as int,
                        vals_lo(vals, e),
                        vals_hi(vals),
                    );
                }
            },
            _ => {
                lemma_block_findings_ordered(vals, i + 1, ctx);
                lemma_vals_lo_mono(vals, i, i + 1);
            },
        }
    }
}

/// A block's findings lie within any range its values lie within.
proof fn lemma_block_findings_within(vals: Seq<Spanned<ComponentValue>>, ctx: Option<Seq<char>>, lo: int, hi: int)
    requires
        vals_within(vals, lo, hi),
    ensures
        ordered_in(block_findings(vals, 0, ctx), lo, hi),
{
    lemma_block_findings_ordered(vals, 0, ctx);
    if vals.len() > 0 {
        assert(lo <= vals[0].span.start);
        assert(vals[vals.len() - 1].span.end <= hi);
    }
}

/// A rule's blocks lie within its span.
pub open spec fn rule_in_order(r: Spanned<Rule>) -> bool {
    &&& r.span.start <= r.span.end
    &&& match r.node {
        Rule::Qualified(q) => vals_within(q.block.node.values@, r.span.start as int, r.span.end as int),
        Rule::At(a) => match a.block {
            Some(b) => vals_within(b.node.values@, r.span.start as int, r.span.end as int),
            None => true,
        },
    }
}

proof fn lemma_rules_in_order(rules: Seq<Spanned<Rule>>, toks: Toks, k: int, top: bool, hi: int)
    requires
        rules_match(rules, toks, k, top),
        toks_in_order(toks, hi),
        0 <= k,
    ensures
        forall|x: int|
            0 <= x < rules.len() ==> rule_in_order(#[trigger] rules[x]) && k < toks.len() && toks[k].1.start
                <= rules[x].span.start && rules[x].span.end <= hi,
        forall|x: int, y: int| 0 <= x < y < rules.len() ==> (#[trigger] rules[x]).span.end <= (
        #[trigger] rules[y]).span.start,
    decreases toks.len() - k,
{
    if k < 0 || k >= toks.len() {
    } else if toks[k].0 is Whitespace || (top && (toks[k].0 is Cdo || toks[k].0 is Cdc)) {
        lemma_rules_in_order(rules, toks, k + 1, top, hi);
        if k + 1 < toks.len() {
            assert(toks[k].1.end <= toks[k + 1].1.start);
        }
    } else {
        let e = if toks[k].0 is AtKeyword {
            crate::grammar::at_rule_end(toks, k)
        } else {
            cv_end(toks, run_end(toks, k, Stop::OpenCurly))
        };
        if rules.len() > 0 && k < e <= toks.len() {
            let r0 = rules[0];
            assert(r0.span == range_span(toks, k, e));
            assert(toks[k].1.start <= toks[k].1.end);
            if e - 1 > k {
                assert(toks[k].1.end <= toks[e - 1].1.start);
            }
            match r0.node {
                Rule::At(a) => {
                    let p = run_end(toks, k + 1, Stop::SemicolonOrCurly);
                    crate::parse_laws::lemma_run_end_ge(toks, k + 1, Stop::SemicolonOrCurly);
                    if p < toks.len() && toks[p].0 is LeftCurly {
                        let b = a.block->Some_0;
                        lemma_block_in_order(b, toks, p, hi);
                        assert(toks[k].1.end <= toks[p].1.start);
                    }
                },
                Rule::Qualified(q) => {
                    let p = run_end(toks, k, Stop::OpenCurly);
                    crate::parse_laws::lemma_run_end_ge(toks, k, Stop::OpenCurly);
                    lemma_block_in_order(q.block, toks, p, hi);
                    if p > k {
                        assert(toks[k].1.end <= toks[p].1.start);
                    }
                },
            }
            assert(rule_in_order(r0));
            let rest = rules.drop_first();
            lemma_rules_in_order(rest, toks, e, top, hi);
            if e < toks.len() {
                assert(toks[e - 1].1.end <= toks[e].1.start);
            }
            assert forall|x: int| 0 <= x < rules.len() implies rule_in_order(#[trigger] rules[x]) && k
                < toks.len() && toks[k].1.start <= rules[x].span.start && rules[x].span.end <= hi by {
                if x > 0 {
                    assert(rules[x] == rest[x - 1]);
                    assert(toks[k].1.start <= toks[k].1.end);
                }
            }
            assert forall|x: int, y: int| 0 <= x < y < rules.len() implies (#[trigger] rules[x]).span.end
                <= (#[trigger] rules[y]).span.start by {
                assert(rules[y] == rest[y - 1]);
                if x > 0 {
                    assert(rules[x] == rest[x - 1]);
                }
            }
        }
    }
}

proof fn lemma_located_in_order(s: Seq<char>)
    requires
        fits_usize(s),
        tokens_located(s),
    ensures
        toks_in_order(scan::stylesheet_tokens(s), byte_len(s) as int),
{
    let t = scan::stylesheet_tokens(s);
    assert forall|k: int| 0 <= k < t.len() implies (#[trigger] t[k]).1.start <= t[k].1.end <= byte_len(s) by {
        lemma_token_bounds(s, k);
    }
}

/// A rule's findings lie within its span, in order, given that those of a
/// conditional group's body do within the body.
proof fn lemma_rule_ordered(s: Seq<char>, r: Spanned<Rule>)
    requires
        rule_in_order(r),
        match r.node {
            Rule::At(a) => match a.block {
                Some(b) => is_conditional_group_name(a.name@) && b.node.values@.len() > 0 ==> ordered_in(
                    group_findings(s, b.node),
                    body_start(b.node),
                    body_end(b.node),
                ),
                None => true,
            },
            _ => true,
        },
    ensures
        ordered_in(rule_findings(s, r.node), r.span.start as int, r.span.end as int),
{
    match r.node {
        Rule::Qualified(q) => {
            lemma_block_findings_within(q.block.node.values@, None, r.span.start as int, r.span.end as int);
        },
        Rule::At(a) => {
            match a.block {
                Some(b) => {
                    let v = b.node.values@;
                    if is_conditional_group_name(a.name@) {
                        if v.len() > 0 {
                            assert(r.span.start <= v[0].span.start);
                            assert(v[v.len() - 1].span.end <= r.span.end);
                        }
                    } else {
                        lemma_block_findings_within(v, Some(ascii_lowercase(a.name@)), r.span.start as int, r.span.end as int);
                    }
                },
                None => {},
            }
        },
    }
}

/// The declaration list the grammar builds from the tokens of `s`.
pub open spec fn declarations_of(s: Seq<char>) -> Seq<DeclarationListItem> {
    choose|d: Seq<DeclarationListItem>| decls_match(d, scan::tokenize(s), 0)
}

/// The findings of the first `n` items of a declaration list, in order:
/// each declaration whose name is reported as an unknown property. Nested
/// at-rules are left alone.
pub open spec fn list_findings(items: Seq<DeclarationListItem>, n: int) -> Seq<Finding>
    decreases n,
{
    if n <= 0 {
        seq![]
    } else {
        list_findings(items, n - 1) + match items[n - 1] {
            DeclarationListItem::Declaration(d) => {
                if property_flagged(d.node.name@) {
                    seq![(d.node.name@, d.node.name_span, None::<Seq<char>>)]
                } else {
                    seq![]
                }
            },
            DeclarationListItem::AtRule(_) => seq![],
        }
    }
}

proof fn lemma_list_findings_same(a: Seq<DeclarationListItem>, b: Seq<DeclarationListItem>, n: int)
    requires
        items_same(a, b),
        n <= a.len(),
    ensures
        list_findings(a, n) == list_findings(b, n),
    decreases n,
{
    if n > 0 {
        lemma_list_findings_same(a, b, n - 1);
        assert(crate::parse_laws::item_same(a[n - 1], b[n - 1]));
    }
}

/// A declaration of a list built from `toks` from `k` on is named by an
/// identifier token at or after `k`, with that token's span.
pub open spec fn decl_named(item: DeclarationListItem, toks: Toks, k: int) -> bool {
    match item {
        DeclarationListItem::Declaration(d) => exists|m: int|
            k <= m < toks.len() && #[trigger] toks[m] == (SpecToken::Ident(d.node.name@), d.node.name_span),
        DeclarationListItem::AtRule(_) => true,
    }
}

/// Of two declarations, the first one's name ends before the second's
/// begins.
pub open spec fn names_in_order(a: DeclarationListItem, b: DeclarationListItem) -> bool {
    match (a, b) {
        (DeclarationListItem::Declaration(x), DeclarationListItem::Declaration(y)) => x.node.name_span.end
            <= y.node.name_span.start,
        _ => true,
    }
}

/// A declaration's name ends by `lim`.
pub open spec fn name_ends_by(a: DeclarationListItem, lim: int) -> bool {
    match a {
        DeclarationListItem::Declaration(x) => x.node.name_span.start <= x.node.name_span.end <= lim,
        _ => true,
    }
}

proof fn lemma_decls_in_order(items: Seq<DeclarationListItem>, toks: Toks, k: int, hi: int)
    requires
        decls_match(items, toks, k),
        toks_in_order(toks, hi),
        0 <= k,
    ensures
        forall|x: int| 0 <= x < items.len() ==> decl_named(#[trigger] items[x], toks, k),
        forall|x: int| 0 <= x < items.len() ==> name_ends_by(#[trigger] items[x], hi),
        forall|x: int, y: int| 0 <= x < y < items.len() ==> names_in_order(#[trigger] items[x], #[trigger] items[y]),
    decreases toks.len() - k,
{
    if k < 0 || k >= toks.len() {
    } else if toks[k].0 is Whitespace || toks[k].0 is Semicolon {
        lemma_decls_in_order(items, toks, k + 1, hi);
        assert forall|x: int| 0 <= x < items.len() implies decl_named(#[trigger] items[x], toks, k) by {
            assert(decl_named(items[x], toks, k + 1));
        }
    } else {
        let e = if toks[k].0 is AtKeyword {
            crate::grammar::at_rule_end(toks, k)
        } else if toks[k].0 is Ident {
            if crate::grammar::has_colon(toks, k) {
                crate::grammar::decl_end(toks, k)
            } else {
                crate::grammar::skip_ws(toks, k + 1)
            }
        } else {
            cv_end(toks, k)
        };
        let dropped = !(toks[k].0 is AtKeyword) && !(toks[k].0 is Ident && crate::grammar::has_colon(toks, k));
        if k < e <= toks.len() {
            if dropped {
                lemma_decls_in_order(items, toks, e, hi);
                assert forall|x: int| 0 <= x < items.len() implies decl_named(#[trigger] items[x], toks, k) by {
                    assert(decl_named(items[x], toks, e));
                }
            } else {
                let rest = items.drop_first();
                lemma_decls_in_order(rest, toks, e, hi);
                assert forall|x: int| 0 <= x < items.len() implies decl_named(#[trigger] items[x], toks, k)
                    && name_ends_by(items[x], hi) by {
                    if x > 0 {
                        assert(items[x] == rest[x - 1]);
                        assert(decl_named(rest[x - 1], toks, e));
                    } else {
                        match items[0] {
                            DeclarationListItem::Declaration(d) => {
                                assert(toks[k] == (SpecToken::Ident(d.node.name@), d.node.name_span));
                            },
                            _ => {},
                        }
                    }
                }
                assert forall|x: int, y: int| 0 <= x < y < items.len() implies names_in_order(
                    #[trigger] items[x],
                    #[trigger] items[y],
                ) by {
                    assert(items[y] == rest[y - 1]);
                    if x > 0 {
                        assert(items[x] == rest[x - 1]);
                    } else {
                        match (items[0], items[y]) {
                            (DeclarationListItem::Declaration(a), DeclarationListItem::Declaration(b)) => {
                                assert(toks[k] == (SpecToken::Ident(a.node.name@), a.node.name_span));
                                assert(decl_named(rest[y - 1], toks, e));
                                let m = choose|m: int|
                                    e <= m < toks.len() && #[trigger] toks[m] == (
                                        SpecToken::Ident(b.node.name@),
                                        b.node.name_span,
                                    );
                                assert(toks[k].1.end <= toks[m].1.start);
                            },
                            _ => {},
                        }
                    }
                }
            }
        }
    }
}

/// The findings of the first `n` items come in order, within `[0, lim]`,
/// and each names an identifier token of `toks`.
proof fn lemma_list_findings_ordered(items: Seq<DeclarationListItem>, n: int, lim: int, toks: Toks)
    requires
        0 <= n <= items.len(),
        0 <= lim,
        forall|x: int| 0 <= x < items.len() ==> decl_named(#[trigger] items[x], toks, 0),
        forall|x: int| 0 <= x < n ==> name_ends_by(#[trigger] items[x], lim),
        forall|x: int, y: int| 0 <= x < y < items.len() ==> names_in_order(#[trigger] items[x], #[trigger] items[y]),
    ensures
        ordered_in(list_findings(items, n), 0, lim),
        findings_pinned(list_findings(items, n), toks),
    decreases n,
{
    if n > 0 {
        let it = items[n - 1];
        match it {
            DeclarationListItem::Declaration(d) => {
                let st = d.node.name_span.start as int;
                assert forall|x: int| 0 <= x < n - 1 implies name_ends_by(#[trigger] items[x], st) by {
                    assert(names_in_order(items[x], items[n - 1]));
                    assert(name_ends_by(items[x], lim));
                }
                lemma_list_findings_ordered(items, n - 1, st, toks);
                let here = if property_flagged(d.node.name@) {
                    seq![(d.node.name@, d.node.name_span, None::<Seq<char>>)]
                } else {
                    seq![]
                };
                assert(name_ends_by(items[n - 1], lim));
                assert(ordered_in(here, st, d.node.name_span.end as int));
                assert(decl_named(items[n - 1], toks, 0));
                assert(findings_pinned(here, toks));
                lemma_ordered_concat(list_findings(items, n - 1), here, 0, st, st, lim);
                lemma_pinned_concat(list_findings(items, n - 1), here, toks);
            },
            DeclarationListItem::AtRule(_) => {
                lemma_list_findings_ordered(items, n - 1, lim, toks);
                assert(list_findings(items, n) =~= list_findings(items, n - 1));
            },
        }
    }
}

/// Validate a bare declaration list, such as the contents of a `style="…"`
/// attribute: every declaration whose name is an unknown property, in
/// source order, located at its name.
pub fn validate_declaration_list(css: &str) -> (r: Vec<Diagnostic>)
    requires
        fits_usize(css@),
    ensures
        decls_match(declarations_of(css@), scan::tokenize(css@), 0),
        findings_view(r@) == list_findings(declarations_of(css@), declarations_of(css@).len() as int),
        forall|i: int| 0 <= i < r@.len() ==> read_from(css@, SpecToken::Ident((#[trigger] r@[i]).name@), r@[i].span),
        forall|i: int| 0 <= i < r@.len() ==> (#[trigger] r@[i]).span.start < r@[i].span.end,
        forall|i: int, j: int| 0 <= i < j < r@.len() ==> (#[trigger] r@[i]).span.end <= (#[trigger] r@[j]).span.start,
{
    let tokens = tokenize(css);
    let items = spanned::parse_declaration_list_tokens(&tokens);
    let mut out: Vec<Diagnostic> = Vec::new();
    let mut i: usize = 0;
    assert(findings_view(out@) =~= list_findings(items@, 0));
    while i < items.len()
        invariant
            0 <= i <= items.len(),
            findings_view(out@) == list_findings(items@, i as int),
        decreases items.len() - i,
    {
        let ghost before = findings_view(out@);
        match &items[i] {
            DeclarationListItem::Declaration(d) => {
                check_name(&d.node.name, d.node.name_span, &None, &mut out);
            },
            DeclarationListItem::AtRule(_) => {
                assert(findings_view(out@) + Seq::<Finding>::empty() =~= findings_view(out@));
            },
        }
        assert(findings_view(out@) =~= list_findings(items@, i + 1));
        i = i + 1;
    }
    proof {
        let t = scan::tokenize(css@);
        let d = declarations_of(css@);
        assert(decls_match(d, t, 0));
        lemma_declarations_determined(items@, d, t, 0);
        lemma_list_findings_same(items@, d, items@.len() as int);
        let hi = byte_len(css@) as int;
        assert forall|k: int| 0 <= k < t.len() implies (#[trigger] t[k]).1.start <= t[k].1.end <= hi by {
            assert(t[k] == (tokens@[k].node@, tokens@[k].span));
            assert(read_from(css@, t[k].0, t[k].1));
            lemma_token_span_slices(css@, t[k].0, t[k].1);
        }
        assert forall|x: int, y: int| 0 <= x < y < t.len() implies (#[trigger] t[x]).1.end <= (#[trigger] t[y]).1.start by {
            assert(t[x] == (tokens@[x].node@, tokens@[x].span));
            assert(t[y] == (tokens@[y].node@, tokens@[y].span));
        }
        assert(toks_in_order(t, hi));
        lemma_decls_in_order(items@, t, 0, hi);
        lemma_list_findings_ordered(items@, items@.len() as int, hi, t);
        let fs = list_findings(items@, items@.len() as int);
        assert forall|i: int| 0 <= i < out@.len() implies read_from(
            css@,
            SpecToken::Ident((#[trigger] out@[i]).name@),
            out@[i].span,
        ) && out@[i].span.start < out@[i].span.end by {
            assert(fs[i] == (out@[i].name@, out@[i].span, kind_view(out@[i].kind)));
            assert(ident_token_in(t, fs[i].0, fs[i].1));
            let m = choose|m: int| 0 <= m < t.len() && #[trigger] t[m] == (SpecToken::Ident(fs[i].0), fs[i].1);
            assert(t[m] == (tokens@[m].node@, tokens@[m].span));
            lemma_token_span_slices(css@, t[m].0, t[m].1);
            if fs[i].1.start == fs[i].1.end {
                assert(char_index_of(css@, fs[i].1.start as int) == char_index_of(css@, fs[i].1.end as int));
            }
        }
        assert forall|i: int, j: int| 0 <= i < j < out@.len() implies (#[trigger] out@[i]).span.end <= (
        #[trigger] out@[j]).span.start by {
            assert(fs[i] == (out@[i].name@, out@[i].span, kind_view(out@[i].kind)));
            assert(fs[j] == (out@[j].name@, out@[j].span, kind_view(out@[j].kind)));
        }
    }
    out
}

} // verus!
