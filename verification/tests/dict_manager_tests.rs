use felt_dict::{
    DictManager, DictTracker, Dictionary, Felt, FeltMap, HintError, MaybeRelocatable, NewFelt,
    Relocatable, VirtualMachine,
};

fn reloc(segment_index: isize, offset: usize) -> Relocatable {
    Relocatable { segment_index, offset }
}

#[test]
fn create_dict_manager() {
    let dict_manager = DictManager::new();
    assert!(dict_manager.trackers.is_empty());
}

#[test]
fn create_dict_tracker_empty() {
    let dict_tracker = DictTracker::new_empty(&reloc(1, 0));
    assert_eq!(dict_tracker.data, Dictionary::SimpleDictionary(FeltMap::new()));
    assert_eq!(dict_tracker.current_ptr, reloc(1, 0));
}

#[test]
fn create_dict_tracker_default() {
    let dict_tracker = DictTracker::new_default_dict(&reloc(1, 0), &Felt::new(5), None);
    assert_eq!(
        dict_tracker.data,
        Dictionary::DefaultDictionary {
            dict: FeltMap::new(),
            default_value: Felt::new(5)
        }
    );
    assert_eq!(dict_tracker.current_ptr, reloc(1, 0));
}

#[test]
fn dict_manager_new_dict_empty() {
    let mut vm = VirtualMachine::new();
    let mut dict_manager = DictManager::new();
    let base = dict_manager.new_dict(&mut vm, FeltMap::new());
    assert_eq!(base, Ok(MaybeRelocatable::RelocatableValue(reloc(0, 0))));
    assert!(dict_manager.trackers.contains_key(0));
    assert_eq!(
        dict_manager.trackers.get(0),
        Some(&DictTracker::new_empty(&reloc(0, 0)))
    );
    assert_eq!(vm.segments.num_segments, 1);
}

#[test]
fn dict_manager_new_dict_default() {
    let mut dict_manager = DictManager::new();
    let mut vm = VirtualMachine::new();
    let base = dict_manager.new_default_dict(&mut vm, &Felt::new(5), None);
    assert_eq!(base, Ok(MaybeRelocatable::RelocatableValue(reloc(0, 0))));
    assert!(dict_manager.trackers.contains_key(0));
    assert_eq!(
        dict_manager.trackers.get(0),
        Some(&DictTracker::new_default_dict(&reloc(0, 0), &Felt::new(5), None))
    );
    assert_eq!(vm.segments.num_segments, 1);
}

#[test]
fn dict_manager_new_dict_with_initial_dict() {
    let mut dict_manager = DictManager::new();
    let mut vm = VirtualMachine::new();
    let mut initial_dict = FeltMap::new();
    initial_dict.insert(Felt::new(5), Felt::new(5));
    let base = dict_manager.new_dict(&mut vm, initial_dict.clone());
    assert_eq!(base, Ok(MaybeRelocatable::RelocatableValue(reloc(0, 0))));
    assert!(dict_manager.trackers.contains_key(0));
    assert_eq!(
        dict_manager.trackers.get(0),
        Some(&DictTracker::new_with_initial(&reloc(0, 0), initial_dict))
    );
    assert_eq!(vm.segments.num_segments, 1);
}

#[test]
fn dict_manager_new_default_dict_with_initial_dict() {
    let mut dict_manager = DictManager::new();
    let mut initial_dict = FeltMap::new();
    let mut vm = VirtualMachine::new();
    initial_dict.insert(Felt::new(5), Felt::new(5));
    let base = dict_manager.new_default_dict(&mut vm, &Felt::new(7), Some(initial_dict.clone()));
    assert_eq!(base, Ok(MaybeRelocatable::RelocatableValue(reloc(0, 0))));
    assert!(dict_manager.trackers.contains_key(0));
    assert_eq!(
        dict_manager.trackers.get(0),
        Some(&DictTracker::new_default_dict(
            &reloc(0, 0),
            &Felt::new(7),
            Some(initial_dict)
        ))
    );
    assert_eq!(vm.segments.num_segments, 1);
}

#[test]
fn dict_manager_new_dict_empty_same_segment() {
    let mut dict_manager = DictManager::new();
    dict_manager
        .trackers
        .insert(0, DictTracker::new_empty(&reloc(0, 0)));
    let mut vm = VirtualMachine::new();
    assert_eq!(
        dict_manager.new_dict(&mut vm, FeltMap::new()),
        Err(HintError::CantCreateDictionaryOnTakenSegment(0))
    );
}

#[test]
fn dict_manager_new_default_dict_empty_same_segment() {
    let mut dict_manager = DictManager::new();
    dict_manager.trackers.insert(
        0,
        DictTracker::new_default_dict(&reloc(0, 0), &Felt::new(6), None),
    );
    let mut vm = VirtualMachine::new();
    assert_eq!(
        dict_manager.new_dict(&mut vm, FeltMap::new()),
        Err(HintError::CantCreateDictionaryOnTakenSegment(0))
    );
}

#[test]
fn dictionary_get_insert_simple() {
    let mut dictionary = Dictionary::SimpleDictionary(FeltMap::new());
    dictionary.insert(&Felt::one(), &Felt::new(2));
    assert_eq!(dictionary.get(&Felt::one()), Some(Felt::new(2)));
    assert_eq!(dictionary.get(&Felt::new(2)), None);
}

#[test]
fn dictionary_get_insert_default() {
    let mut dictionary = Dictionary::DefaultDictionary {
        dict: FeltMap::new(),
        default_value: Felt::new(7),
    };
    dictionary.insert(&Felt::one(), &Felt::new(2));
    assert_eq!(dictionary.get(&Felt::one()), Some(Felt::new(2)));
    assert_eq!(dictionary.get(&Felt::new(2)), Some(Felt::new(7)));
}
