use felt_dict::{
    DictManager, Felt, FeltMap, HintError, MaybeRelocatable, NewFelt, Relocatable, VirtualMachine,
};

fn reloc(segment_index: isize, offset: usize) -> Relocatable {
    Relocatable { segment_index, offset }
}

#[test]
fn taken_segment_fails_for_simple_and_default_owners() {
    // A colliding allocation fails the same way whether the present tracker
    // is simple or default, and for either creation entrypoint.
    let mut vm = VirtualMachine::new();
    let mut manager = DictManager::new();
    assert!(manager.new_dict(&mut vm, FeltMap::new()).is_ok());
    let mut vm2 = VirtualMachine::new();
    assert_eq!(
        manager.new_default_dict(&mut vm2, &Felt::new(3), None),
        Err(HintError::CantCreateDictionaryOnTakenSegment(0))
    );
    let mut vm3 = VirtualMachine::new();
    assert_eq!(
        manager.new_dict(&mut vm3, FeltMap::new()),
        Err(HintError::CantCreateDictionaryOnTakenSegment(0))
    );
}

#[test]
fn get_tracker_unknown_segment() {
    let mut vm = VirtualMachine::new();
    let mut manager = DictManager::new();
    assert!(manager.new_dict(&mut vm, FeltMap::new()).is_ok());
    assert_eq!(
        manager.get_tracker(&reloc(1, 0)).err(),
        Some(HintError::NoDictTracker(1))
    );
    assert_eq!(
        manager.get_tracker_mut(&reloc(1, 0)).err(),
        Some(HintError::NoDictTracker(1))
    );
}

#[test]
fn get_tracker_mismatched_pointer() {
    let mut vm = VirtualMachine::new();
    let mut manager = DictManager::new();
    assert!(manager.new_dict(&mut vm, FeltMap::new()).is_ok());
    assert_eq!(
        manager.get_tracker(&reloc(0, 5)).err(),
        Some(HintError::MismatchedDictPtr(reloc(0, 0), reloc(0, 5)))
    );
    assert_eq!(
        manager.get_tracker_mut(&reloc(0, 5)).err(),
        Some(HintError::MismatchedDictPtr(reloc(0, 0), reloc(0, 5)))
    );
    assert!(manager.get_tracker(&reloc(0, 0)).is_ok());
}

#[test]
fn default_dictionary_materializes_missed_key() {
    let mut vm = VirtualMachine::new();
    let mut manager = DictManager::new();
    let base = manager.new_default_dict(&mut vm, &Felt::new(7), None);
    assert_eq!(base, Ok(MaybeRelocatable::RelocatableValue(reloc(0, 0))));
    let tracker = manager.get_tracker_mut(&reloc(0, 0)).unwrap();
    assert_eq!(tracker.get_value(&Felt::new(1)), Ok(Felt::new(7)));
    let copy = tracker.get_dictionary_copy();
    assert_eq!(copy.get(&Felt::new(1)), Some(&Felt::new(7)));
}

#[test]
fn simple_dictionary_miss_leaves_map_unchanged() {
    let mut vm = VirtualMachine::new();
    let mut manager = DictManager::new();
    assert!(manager.new_dict(&mut vm, FeltMap::new()).is_ok());
    let tracker = manager.get_tracker_mut(&reloc(0, 0)).unwrap();
    assert_eq!(
        tracker.get_value(&Felt::new(1)),
        Err(HintError::NoValueForKey(Felt::new(1)))
    );
    let copy = tracker.get_dictionary_copy();
    assert_eq!(copy, FeltMap::new());
}

#[test]
fn insert_value_upserts_in_both_modes() {
    let mut vm = VirtualMachine::new();
    let mut manager = DictManager::new();
    assert!(manager.new_dict(&mut vm, FeltMap::new()).is_ok());
    assert!(manager.new_default_dict(&mut vm, &Felt::new(9), None).is_ok());
    let simple = manager.get_tracker_mut(&reloc(0, 0)).unwrap();
    simple.insert_value(&Felt::new(2), &Felt::new(3));
    simple.insert_value(&Felt::new(2), &Felt::new(4));
    assert_eq!(simple.get_value(&Felt::new(2)), Ok(Felt::new(4)));
    let dflt = manager.get_tracker_mut(&reloc(1, 0)).unwrap();
    dflt.insert_value(&Felt::new(2), &Felt::new(3));
    assert_eq!(dflt.get_value(&Felt::new(2)), Ok(Felt::new(3)));
}

#[test]
fn felt_map_equality_ignores_insertion_order() {
    let mut a = FeltMap::new();
    a.insert(Felt::new(1), Felt::new(10));
    a.insert(Felt::new(2), Felt::new(20));
    let mut b = FeltMap::new();
    b.insert(Felt::new(2), Felt::new(20));
    b.insert(Felt::new(1), Felt::new(10));
    assert_eq!(a, b);
    let mut c = FeltMap::new();
    c.insert(Felt::new(1), Felt::new(10));
    assert_ne!(a, c);
    c.insert(Felt::new(2), Felt::new(99));
    assert_ne!(a, c);
}

#[test]
fn allocator_hands_out_increasing_segments() {
    let mut vm = VirtualMachine::new();
    let mut manager = DictManager::new();
    assert_eq!(
        manager.new_dict(&mut vm, FeltMap::new()),
        Ok(MaybeRelocatable::RelocatableValue(reloc(0, 0)))
    );
    assert_eq!(
        manager.new_default_dict(&mut vm, &Felt::new(1), None),
        Ok(MaybeRelocatable::RelocatableValue(reloc(1, 0)))
    );
    assert_eq!(vm.segments.num_segments, 2);
    assert!(manager.trackers.contains_key(0));
    assert!(manager.trackers.contains_key(1));
}
