use pageprotect::side_metadata::{
    append_specs, SanityError, SideMetadataContext, SideMetadataSanity, SideMetadataSpec,
};

fn spec(id: u32, offset: usize, bytes: usize) -> SideMetadataSpec {
    SideMetadataSpec { id, offset, bytes }
}

fn context(global: Vec<SideMetadataSpec>, local: Vec<SideMetadataSpec>) -> SideMetadataContext {
    SideMetadataContext { global, local }
}

#[test]
fn specs_are_well_formed_when_not_empty_and_in_range() {
    assert!(spec(1, 0, 1).is_well_formed());
    assert!(spec(1, usize::MAX - 1, 1).is_well_formed());
    assert!(spec(1, 0, usize::MAX).is_well_formed());
    assert!(!spec(1, 0, 0).is_well_formed());
    assert!(!spec(1, usize::MAX, 1).is_well_formed());
    assert!(!spec(1, 2, usize::MAX - 1).is_well_formed());
}

#[test]
fn different_specs_conflict_when_they_share_storage() {
    let a = spec(1, 100, 10);
    assert!(a.conflicts(&spec(2, 100, 10)));
    assert!(a.conflicts(&spec(1, 100, 11)));
    assert!(a.conflicts(&spec(2, 109, 1)));
    assert!(a.conflicts(&spec(2, 90, 11)));
    assert!(a.conflicts(&spec(2, 0, 1000)));
    assert!(spec(2, 0, 1000).conflicts(&a));
    assert!(!a.conflicts(&spec(2, 110, 1)));
    assert!(!a.conflicts(&spec(2, 90, 10)));
    // A declaration does not conflict with itself.
    assert!(!a.conflicts(&a));
    assert!(!a.conflicts(&spec(1, 100, 10)));
}

#[test]
fn global_specs_keep_their_order() {
    let builtin = vec![spec(1, 0, 8), spec(2, 8, 8)];
    let added = vec![spec(3, 16, 8)];
    assert_eq!(
        SideMetadataContext::new_global_specs(&builtin, &added),
        vec![spec(1, 0, 8), spec(2, 8, 8), spec(3, 16, 8)]
    );
    assert_eq!(SideMetadataContext::new_global_specs(&builtin, &Vec::new()), builtin);
    let mut target = vec![spec(9, 90, 1)];
    append_specs(&mut target, &added);
    assert_eq!(target, vec![spec(9, 90, 1), spec(3, 16, 8)]);
}

#[test]
fn sound_context_is_registered() {
    let mut checker = SideMetadataSanity::new();
    assert!(!checker.is_registered(&spec(1, 0, 8)));
    let result = checker.verify_metadata_context(&context(vec![spec(1, 0, 8)], vec![spec(2, 8, 8)]));
    assert_eq!(result, Ok(()));
    assert!(checker.is_registered(&spec(1, 0, 8)));
    assert!(checker.is_registered(&spec(2, 8, 8)));
    assert!(!checker.is_registered(&spec(2, 8, 9)));
}

#[test]
fn the_same_context_is_accepted_again() {
    let mut checker = SideMetadataSanity::new();
    for _ in 0..3 {
        let result = checker.verify_metadata_context(&context(vec![spec(1, 0, 8)], vec![spec(2, 8, 8)]));
        assert_eq!(result, Ok(()));
    }
    let result = checker.verify_metadata_context(&context(vec![spec(1, 0, 8), spec(1, 0, 8)], Vec::new()));
    assert_eq!(result, Ok(()));
}

#[test]
fn overlap_within_a_context_is_refused() {
    let mut checker = SideMetadataSanity::new();
    let result = checker.verify_metadata_context(&context(vec![spec(1, 0, 8)], vec![spec(2, 7, 8)]));
    assert_eq!(result, Err(SanityError::Overlap));
    assert!(!checker.is_registered(&spec(1, 0, 8)));
    assert!(!checker.is_registered(&spec(2, 7, 8)));
    let result =
        checker.verify_metadata_context(&context(vec![spec(1, 0, 8), spec(3, 20, 4), spec(4, 23, 1)], Vec::new()));
    assert_eq!(result, Err(SanityError::Overlap));
}

#[test]
fn overlap_with_an_earlier_context_is_refused() {
    let mut checker = SideMetadataSanity::new();
    assert_eq!(checker.verify_metadata_context(&context(vec![spec(1, 0, 8)], Vec::new())), Ok(()));
    let result = checker.verify_metadata_context(&context(vec![spec(5, 100, 1)], vec![spec(2, 4, 1)]));
    assert_eq!(result, Err(SanityError::Overlap));
    // A refused context leaves nothing behind.
    assert!(!checker.is_registered(&spec(5, 100, 1)));
    assert!(checker.is_registered(&spec(1, 0, 8)));
    assert_eq!(checker.verify_metadata_context(&context(vec![spec(5, 100, 1)], vec![spec(2, 8, 1)])), Ok(()));
}

#[test]
fn malformed_spec_is_refused_first() {
    let mut checker = SideMetadataSanity::new();
    let result = checker.verify_metadata_context(&context(vec![spec(1, 0, 8), spec(2, 0, 8)], vec![spec(3, 50, 0)]));
    assert_eq!(result, Err(SanityError::Malformed));
    let result = checker.verify_metadata_context(&context(vec![spec(1, usize::MAX, 2)], Vec::new()));
    assert_eq!(result, Err(SanityError::Malformed));
    assert!(!checker.is_registered(&spec(1, 0, 8)));
}

#[test]
fn empty_context_is_sound() {
    let mut checker = SideMetadataSanity::new();
    assert_eq!(checker.verify_metadata_context(&context(Vec::new(), Vec::new())), Ok(()));
}
