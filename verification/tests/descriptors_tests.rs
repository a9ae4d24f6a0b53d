use styloria::descriptors::descriptors_for;

#[test]
fn every_descriptor_set_is_sorted_deduped_and_lowercase() {
    for at in [
        "counter-style",
        "font-face",
        "font-palette-values",
        "page",
        "property",
        "view-transition",
    ] {
        let (canon, set) = descriptors_for(at).expect("known at-rule");
        assert_eq!(canon, at);
        for pair in set.windows(2) {
            assert!(pair[0] < pair[1], "{at}: not sorted at {:?}", pair[0]);
        }
        for &d in set.iter() {
            assert_eq!(d, d.to_ascii_lowercase(), "{at}: not lowercase {d:?}");
        }
    }
}

#[test]
fn non_descriptor_at_rules_are_none() {
    for at in [
        "media",
        "supports",
        "font-feature-values",
        "keyframes",
        "import",
    ] {
        assert!(descriptors_for(at).is_none(), "{at} should be None");
    }
}

#[test]
fn descriptor_sets_have_their_members() {
    let (_, set) = descriptors_for("font-face").unwrap();
    assert_eq!(set.len(), 13);
    assert!(set.contains(&"src"));
    assert!(set.contains(&"unicode-range"));
    let (_, set) = descriptors_for("page").unwrap();
    assert_eq!(set, vec!["bleed", "marks", "page-orientation", "size"]);
    let (_, set) = descriptors_for("view-transition").unwrap();
    assert_eq!(set, vec!["navigation", "types"]);
}

#[test]
fn descriptor_lookup_is_exact() {
    assert!(descriptors_for("Font-Face").is_none());
    assert!(descriptors_for("").is_none());
    assert!(descriptors_for("@page").is_none());
}
