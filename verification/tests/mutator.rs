use pageprotect::mutator::{create_allocator_mapping, AllocationSemantics, AllocatorSelector, SEMANTICS_COUNT};

#[test]
fn semantics_are_numbered_in_declaration_order() {
    assert_eq!(AllocationSemantics::Default.index(), 0);
    assert_eq!(AllocationSemantics::Immortal.index(), 1);
    assert_eq!(AllocationSemantics::Los.index(), 2);
    assert_eq!(AllocationSemantics::Code.index(), 3);
    assert_eq!(AllocationSemantics::ReadOnly.index(), 4);
    assert_eq!(AllocationSemantics::LargeCode.index(), 5);
    assert_eq!(AllocationSemantics::NonMoving.index(), 6);
    assert_eq!(SEMANTICS_COUNT, 7);
}

#[test]
fn default_selector_is_unmapped() {
    assert_eq!(AllocatorSelector::default(), AllocatorSelector::Unmapped);
}

#[test]
fn mapping_sends_every_semantic_to_the_first_large_object_allocator() {
    let mapping = create_allocator_mapping();
    assert_eq!(mapping.get(AllocationSemantics::Default), AllocatorSelector::LargeObject(0));
    assert_eq!(mapping.get(AllocationSemantics::Immortal), AllocatorSelector::LargeObject(0));
    assert_eq!(mapping.get(AllocationSemantics::Los), AllocatorSelector::LargeObject(0));
    assert_eq!(mapping.get(AllocationSemantics::Code), AllocatorSelector::LargeObject(0));
    assert_eq!(mapping.get(AllocationSemantics::ReadOnly), AllocatorSelector::LargeObject(0));
    assert_eq!(mapping.get(AllocationSemantics::LargeCode), AllocatorSelector::LargeObject(0));
    assert_eq!(mapping.get(AllocationSemantics::NonMoving), AllocatorSelector::LargeObject(0));
}
