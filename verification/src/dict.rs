//! The segment-indexed dictionary manager: key/value stores over `Felt`,
//! owned by trackers, one per memory segment, resolved through validated
//! `Relocatable` pointers.

use vstd::prelude::*;
use crate::felt::Felt;

verus! {

/// An address in the segmented memory model: a segment index and an offset
/// within the segment. A negative segment index denotes a temporary segment,
/// which can never hold a dictionary.
#[derive(Clone, Copy, Debug, PartialEq, Eq, Structural)]
pub struct Relocatable {
    pub segment_index: isize,
    pub offset: usize,
}

/// Either a field element or an address.
#[derive(Clone, Debug, PartialEq)]
pub enum MaybeRelocatable {
    Int(Felt),
    RelocatableValue(Relocatable),
}

/// The failures dictionary manipulation can raise; each carries the
/// offending segment, pointer pair, or key.
#[derive(Debug, PartialEq)]
pub enum HintError {
    CantCreateDictionaryOnTakenSegment(isize),
    NoDictTracker(isize),
    MismatchedDictPtr(Relocatable, Relocatable),
    NoValueForKey(Felt),
    AddressInTemporarySegment(isize),
}

/// The allocator of memory segments: hands out fresh segments with strictly
/// increasing nonnegative indices, starting at zero.
#[derive(Debug)]
pub struct MemorySegmentManager {
    pub num_segments: usize,
}

/// The slice of the virtual machine the dictionary manager consumes: its
/// segment allocator.
#[derive(Debug)]
pub struct VirtualMachine {
    pub segments: MemorySegmentManager,
}

impl VirtualMachine {
    pub fn new() -> (r: VirtualMachine)
        ensures
            r.segments.num_segments == 0,
    {
        VirtualMachine { segments: MemorySegmentManager { num_segments: 0 } }
    }

    /// Allocates a fresh segment and returns its base address.
    pub fn add_memory_segment(&mut self) -> (r: Relocatable)
        requires
            old(self).segments.num_segments as int <= isize::MAX as int,
        ensures
            r.segment_index as int == old(self).segments.num_segments as int,
            r.offset == 0,
            final(self).segments.num_segments == old(self).segments.num_segments + 1,
    {
        let index = self.segments.num_segments as isize;
        self.segments.num_segments = self.segments.num_segments + 1;
        Relocatable { segment_index: index, offset: 0 }
    }
}

/// The mapping a run of key/value pairs denotes, later pairs overriding
/// earlier ones; keys and values are taken by their field-element value.
pub open spec fn entries_map(s: Seq<(Felt, Felt)>) -> Map<nat, nat>
    decreases s.len(),
{
    if s.len() == 0 {
        Map::empty()
    } else {
        entries_map(s.drop_last()).insert(s.last().0@, s.last().1@)
    }
}

proof fn lemma_entries_found(s: Seq<(Felt, Felt)>, i: int)
    requires
        0 <= i < s.len(),
        forall|j: int| i < j < s.len() ==> s[j].0@ != s[i].0@,
    ensures
        entries_map(s).contains_key(s[i].0@),
        entries_map(s)[s[i].0@] == s[i].1@,
    decreases s.len(),
{
    if i < s.len() - 1 {
        lemma_entries_found(s.drop_last(), i);
    }
}

proof fn lemma_entries_absent(s: Seq<(Felt, Felt)>, k: nat)
    requires
        forall|j: int| 0 <= j < s.len() ==> s[j].0@ != k,
    ensures
        !entries_map(s).contains_key(k),
    decreases s.len(),
{
    if s.len() > 0 {
        lemma_entries_absent(s.drop_last(), k);
    }
}

proof fn lemma_entries_dom(s: Seq<(Felt, Felt)>, k: nat)
    requires
        entries_map(s).contains_key(k),
    ensures
        exists|i: int| 0 <= i < s.len() && s[i].0@ == k,
    decreases s.len(),
{
    if s.len() > 0 {
        if s.last().0@ == k {
            assert(s[s.len() - 1].0@ == k);
        } else {
            lemma_entries_dom(s.drop_last(), k);
            let i = choose|i: int| 0 <= i < s.drop_last().len() && s.drop_last()[i].0@ == k;
            assert(s[i].0@ == k);
        }
    }
}

proof fn lemma_entries_congruent(s1: Seq<(Felt, Felt)>, s2: Seq<(Felt, Felt)>)
    requires
        s1.len() == s2.len(),
        forall|i: int| 0 <= i < s1.len() ==> s1[i].0@ == s2[i].0@ && s1[i].1@ == s2[i].1@,
    ensures
        entries_map(s1) == entries_map(s2),
    decreases s1.len(),
{
    if s1.len() > 0 {
        lemma_entries_congruent(s1.drop_last(), s2.drop_last());
    }
}

/// An unordered key/value map over field elements. Only membership and the
/// value mapped to each key are observable; no order is.
#[derive(Debug)]
pub struct FeltMap {
    entries: Vec<(Felt, Felt)>,
}

impl View for FeltMap {
    type V = Map<nat, nat>;

    closed spec fn view(&self) -> Map<nat, nat> {
        entries_map(self.entries@)
    }
}

impl FeltMap {
    /// An empty map.
    pub fn new() -> (r: FeltMap)
        ensures
            r@ == Map::<nat, nat>::empty(),
    {
        let r = FeltMap { entries: Vec::new() };
        proof {
            assert(r@ =~= Map::<nat, nat>::empty());
        }
        r
    }

    /// Upserts the pair, whether or not the key was present.
    pub fn insert(&mut self, key: Felt, value: Felt)
        ensures
            final(self)@ == old(self)@.insert(key@, value@),
    {
        let ghost olds = self.entries@;
        self.entries.push((key, value));
        proof {
            assert(self.entries@.drop_last() =~= olds);
        }
    }

    /// The value mapped to the key, if any.
    pub fn get(&self, key: &Felt) -> (r: Option<&Felt>)
        ensures
            (r matches Some(v) ==> self@.contains_key(key@) && v@ == self@[key@]),
            r is None <==> !self@.contains_key(key@),
    {
        let n = self.entries.len();
        let mut i: usize = n;
        while i > 0
            invariant
                i <= n,
                n == self.entries.len(),
                forall|j: int| i <= j < n ==> self.entries@[j].0@ != key@,
            decreases i,
        {
            i = i - 1;
            if self.entries[i].0 == *key {
                proof {
                    lemma_entries_found(self.entries@, i as int);
                }
                return Some(&self.entries[i].1);
            }
        }
        proof {
            lemma_entries_absent(self.entries@, key@);
        }
        None
    }

    /// Whether the key is present.
    pub fn contains_key(&self, key: &Felt) -> (r: bool)
        ensures
            r == self@.contains_key(key@),
    {
        match self.get(key) {
            Some(_) => true,
            None => false,
        }
    }
}

impl Clone for FeltMap {
    /// An equal map.
    fn clone(&self) -> (r: FeltMap)
        ensures
            r@ == self@,
    {
        let n = self.entries.len();
        let mut entries: Vec<(Felt, Felt)> = Vec::new();
        let mut i: usize = 0;
        while i < n
            invariant
                i <= n,
                n == self.entries.len(),
                entries@.len() == i,
                forall|j: int|
                    0 <= j < i ==> entries@[j].0@ == self.entries@[j].0@ && entries@[j].1@
                        == self.entries@[j].1@,
            decreases n - i,
        {
            let k = self.entries[i].0.clone();
            let v = self.entries[i].1.clone();
            entries.push((k, v));
            i = i + 1;
        }
        let r = FeltMap { entries };
        proof {
            lemma_entries_congruent(r.entries@, self.entries@);
        }
        r
    }
}

impl PartialEq for FeltMap {
    /// Equality of the denoted mappings, blind to insertion order.
    fn eq(&self, other: &FeltMap) -> (r: bool) {
        let n = self.entries.len();
        let m = other.entries.len();
        let mut i: usize = 0;
        while i < n
            invariant
                i <= n,
                n == self.entries.len(),
                forall|j: int|
                    0 <= j < i ==> other@.contains_key(#[trigger] self.entries@[j].0@)
                        && other@[self.entries@[j].0@] == self@[self.entries@[j].0@],
            decreases n - i,
        {
            let key = &self.entries[i].0;
            let mine = self.get(key);
            let theirs = other.get(key);
            match (mine, theirs) {
                (Some(a), Some(b)) => {
                    if !(*a == *b) {
                        proof {
                            assert(self@[key@] != other@[key@]);
                        }
                        return false;
                    }
                },
                (Some(_), None) => {
                    return false;
                },
                _ => {
                    proof {
                        lemma_entries_found_any(self.entries@, i as int);
                    }
                    assert(false);
                },
            }
            i = i + 1;
        }
        let mut i: usize = 0;
        while i < m
            invariant
                i <= m,
                m == other.entries.len(),
                n == self.entries.len(),
                forall|j: int|
                    0 <= j < n ==> other@.contains_key(#[trigger] self.entries@[j].0@)
                        && other@[self.entries@[j].0@] == self@[self.entries@[j].0@],
                forall|j: int| 0 <= j < i ==> self@.contains_key(#[trigger] other.entries@[j].0@),
            decreases m - i,
        {
            let key = &other.entries[i].0;
            if !self.contains_key(key) {
                proof {
                    lemma_entries_found_any(other.entries@, i as int);
                }
                return false;
            }
            i = i + 1;
        }
        proof {
            assert forall|k: nat| #[trigger] self@.dom().contains(k) implies other@.dom().contains(
                k,
            ) && other@[k] == self@[k] by {
                assert(self@.contains_key(k));
                lemma_entries_dom(self.entries@, k);
                let j = choose|j: int| 0 <= j < self.entries@.len() && self.entries@[j].0@ == k;
                assert(other@.contains_key(self.entries@[j].0@));
            }
            assert forall|k: nat| #[trigger] other@.dom().contains(k) implies self@.dom().contains(
                k,
            ) by {
                assert(other@.contains_key(k));
                lemma_entries_dom(other.entries@, k);
                let j = choose|j: int| 0 <= j < other.entries@.len() && other.entries@[j].0@ == k;
                assert(self@.contains_key(other.entries@[j].0@));
            }
            assert(self@.dom() =~= other@.dom());
            assert(self@ =~= other@);
        }
        true
    }
}

impl vstd::std_specs::cmp::PartialEqSpecImpl for FeltMap {
    open spec fn obeys_eq_spec() -> bool {
        true
    }

    open spec fn eq_spec(&self, other: &FeltMap) -> bool {
        self@ == other@
    }
}

/// A key/value store over field elements, in one of two modes: a plain map,
/// or a map that materializes a fixed default on a missed read.
#[derive(Debug)]
pub enum Dictionary {
    SimpleDictionary(FeltMap),
    DefaultDictionary { dict: FeltMap, default_value: Felt },
}

impl Dictionary {
    /// The mapping held, blind to the mode.
    pub open spec fn contents(&self) -> Map<nat, nat> {
        match self {
            Dictionary::SimpleDictionary(m) => m@,
            Dictionary::DefaultDictionary { dict, .. } => dict@,
        }
    }

    /// The default value, present exactly in default mode.
    pub open spec fn default_of(&self) -> Option<nat> {
        match self {
            Dictionary::SimpleDictionary(_) => None,
            Dictionary::DefaultDictionary { default_value, .. } => Some(default_value@),
        }
    }

    /// A read. In default mode a miss inserts the default under the key and
    /// returns it — a visible side effect; in simple mode a miss returns
    /// nothing and changes nothing.
    pub fn get(&mut self, key: &Felt) -> (r: Option<Felt>)
        ensures
            final(self).default_of() == old(self).default_of(),
            old(self).default_of() is None ==> final(self).contents() == old(self).contents()
                && (r matches Some(v) ==> old(self).contents().contains_key(key@)
                && v@ == old(self).contents()[key@])
                && (r is None <==> !old(self).contents().contains_key(key@)),
            (old(self).default_of() matches Some(d) ==> r is Some
                && (old(self).contents().contains_key(key@) ==> final(self).contents()
                    == old(self).contents() && (r matches Some(v) ==> v@
                    == old(self).contents()[key@]))
                && (!old(self).contents().contains_key(key@) ==> final(self).contents()
                    == old(self).contents().insert(key@, d) && (r matches Some(v) ==> v@ == d))),
    {
        match self {
            Dictionary::SimpleDictionary(m) => match m.get(key) {
                Some(v) => Some(v.clone()),
                None => None,
            },
            Dictionary::DefaultDictionary { dict, default_value } => {
                let found = match dict.get(key) {
                    Some(v) => Some(v.clone()),
                    None => None,
                };
                match found {
                    Some(v) => Some(v),
                    None => {
                        let d = default_value.clone();
                        dict.insert(key.clone(), d.clone());
                        Some(d)
                    },
                }
            },
        }
    }

    /// An upsert, the same in either mode.
    pub fn insert(&mut self, key: &Felt, value: &Felt)
        ensures
            final(self).contents() == old(self).contents().insert(key@, value@),
            final(self).default_of() == old(self).default_of(),
    {
        match self {
            Dictionary::SimpleDictionary(m) => m.insert(key.clone(), value.clone()),
            Dictionary::DefaultDictionary { dict, .. } => dict.insert(key.clone(), value.clone()),
        }
    }
}

impl PartialEq for Dictionary {
    /// Equality of mode, held mapping and (in default mode) default value;
    /// never of any insertion order.
    fn eq(&self, other: &Dictionary) -> (r: bool) {
        match (self, other) {
            (Dictionary::SimpleDictionary(a), Dictionary::SimpleDictionary(b)) => *a == *b,
            (
                Dictionary::DefaultDictionary { dict: a, default_value: da },
                Dictionary::DefaultDictionary { dict: b, default_value: db },
            ) => *a == *b && *da == *db,
            _ => false,
        }
    }
}

impl vstd::std_specs::cmp::PartialEqSpecImpl for Dictionary {
    open spec fn obeys_eq_spec() -> bool {
        true
    }

    open spec fn eq_spec(&self, other: &Dictionary) -> bool {
        self.contents() == other.contents() && self.default_of() == other.default_of()
    }
}

/// The owner of one segment's dictionary: its data, and the pointer value at
/// which the hint-visible cursor for that dictionary currently stands.
#[derive(Debug)]
pub struct DictTracker {
    pub data: Dictionary,
    pub current_ptr: Relocatable,
}

impl DictTracker {
    /// A tracker over an empty simple dictionary based at the given address.
    pub fn new_empty(base: &Relocatable) -> (r: DictTracker)
        ensures
            r.data.contents() == Map::<nat, nat>::empty(),
            r.data.default_of() is None,
            r.current_ptr == *base,
    {
        DictTracker { data: Dictionary::SimpleDictionary(FeltMap::new()), current_ptr: *base }
    }

    /// A tracker over a default dictionary, seeded with the initial map if
    /// one is given.
    pub fn new_default_dict(
        base: &Relocatable,
        default_value: &Felt,
        initial_dict: Option<FeltMap>,
    ) -> (r: DictTracker)
        ensures
            r.data.contents() == (match initial_dict {
                Some(m) => m@,
                None => Map::<nat, nat>::empty(),
            }),
            r.data.default_of() == Some(default_value@),
            r.current_ptr == *base,
    {
        let dict = match initial_dict {
            Some(m) => m,
            None => FeltMap::new(),
        };
        DictTracker {
            data: Dictionary::DefaultDictionary { dict, default_value: default_value.clone() },
            current_ptr: *base,
        }
    }

    /// A tracker over a simple dictionary seeded with the initial map.
    pub fn new_with_initial(base: &Relocatable, initial_dict: FeltMap) -> (r: DictTracker)
        ensures
            r.data.contents() == initial_dict@,
            r.data.default_of() is None,
            r.current_ptr == *base,
    {
        DictTracker { data: Dictionary::SimpleDictionary(initial_dict), current_ptr: *base }
    }

    /// A value copy of the held mapping; the mode that produced it is
    /// deliberately lost.
    pub fn get_dictionary_copy(&self) -> (r: FeltMap)
        ensures
            r@ == self.data.contents(),
    {
        match &self.data {
            Dictionary::SimpleDictionary(m) => m.clone(),
            Dictionary::DefaultDictionary { dict, .. } => dict.clone(),
        }
    }

    /// A read through the tracker; a simple-mode miss is the `NoValueForKey`
    /// failure, a default-mode miss materializes the default.
    pub fn get_value(&mut self, key: &Felt) -> (r: Result<Felt, HintError>)
        ensures
            final(self).current_ptr == old(self).current_ptr,
            final(self).data.default_of() == old(self).data.default_of(),
            old(self).data.default_of() is None ==> final(self).data.contents()
                == old(self).data.contents()
                && (r matches Ok(v) ==> old(self).data.contents().contains_key(key@)
                && v@ == old(self).data.contents()[key@])
                && (r is Err <==> !old(self).data.contents().contains_key(key@))
                && (r matches Err(e) ==> e matches HintError::NoValueForKey(k) && k@ == key@),
            (old(self).data.default_of() matches Some(d) ==> r is Ok
                && (old(self).data.contents().contains_key(key@) ==> final(self).data.contents()
                    == old(self).data.contents() && (r matches Ok(v) ==> v@
                    == old(self).data.contents()[key@]))
                && (!old(self).data.contents().contains_key(key@) ==> final(self).data.contents()
                    == old(self).data.contents().insert(key@, d)
                    && (r matches Ok(v) ==> v@ == d))),
    {
        match self.data.get(key) {
            Some(v) => Ok(v),
            None => Err(HintError::NoValueForKey(key.clone())),
        }
    }

    /// An upsert through the tracker, the same in either mode.
    pub fn insert_value(&mut self, key: &Felt, val: &Felt)
        ensures
            final(self).current_ptr == old(self).current_ptr,
            final(self).data.default_of() == old(self).data.default_of(),
            final(self).data.contents() == old(self).data.contents().insert(key@, val@),
    {
        self.data.insert(key, val)
    }
}

impl PartialEq for DictTracker {
    fn eq(&self, other: &DictTracker) -> (r: bool) {
        self.data == other.data && self.current_ptr == other.current_ptr
    }
}

impl vstd::std_specs::cmp::PartialEqSpecImpl for DictTracker {
    open spec fn obeys_eq_spec() -> bool {
        true
    }

    open spec fn eq_spec(&self, other: &DictTracker) -> bool {
        self.data.contents() == other.data.contents() && self.data.default_of()
            == other.data.default_of() && self.current_ptr == other.current_ptr
    }
}

/// Any entry's key is in the denoted map, with the value of its last
/// occurrence.
proof fn lemma_entries_found_any(s: Seq<(Felt, Felt)>, i: int)
    requires
        0 <= i < s.len(),
    ensures
        entries_map(s).contains_key(s[i].0@),
    decreases s.len(),
{
    if i == s.len() - 1 {
    } else if s.last().0@ == s[i].0@ {
    } else {
        lemma_entries_found_any(s.drop_last(), i);
    }
}

/// The mapping a run of segment/tracker pairs denotes, later pairs
/// overriding earlier ones.
pub open spec fn trackers_map(s: Seq<(isize, DictTracker)>) -> Map<int, DictTracker>
    decreases s.len(),
{
    if s.len() == 0 {
        Map::empty()
    } else {
        trackers_map(s.drop_last()).insert(s.last().0 as int, s.last().1)
    }
}

proof fn lemma_trackers_found(s: Seq<(isize, DictTracker)>, i: int)
    requires
        0 <= i < s.len(),
        forall|j: int| i < j < s.len() ==> s[j].0 != s[i].0,
    ensures
        trackers_map(s).contains_key(s[i].0 as int),
        trackers_map(s)[s[i].0 as int] == s[i].1,
    decreases s.len(),
{
    if i < s.len() - 1 {
        lemma_trackers_found(s.drop_last(), i);
    }
}

proof fn lemma_trackers_absent(s: Seq<(isize, DictTracker)>, k: isize)
    requires
        forall|j: int| 0 <= j < s.len() ==> s[j].0 != k,
    ensures
        !trackers_map(s).contains_key(k as int),
    decreases s.len(),
{
    if s.len() > 0 {
        lemma_trackers_absent(s.drop_last(), k);
    }
}

proof fn lemma_trackers_update(s: Seq<(isize, DictTracker)>, i: int, t: DictTracker)
    requires
        0 <= i < s.len(),
        forall|j: int| i < j < s.len() ==> s[j].0 != s[i].0,
    ensures
        trackers_map(s.update(i, (s[i].0, t))) == trackers_map(s).insert(s[i].0 as int, t),
    decreases s.len(),
{
    let upd = s.update(i, (s[i].0, t));
    if i == s.len() - 1 {
        assert(upd.drop_last() =~= s.drop_last());
        assert(trackers_map(upd) =~= trackers_map(s).insert(s[i].0 as int, t));
    } else {
        lemma_trackers_update(s.drop_last(), i, t);
        assert(upd.drop_last() =~= s.drop_last().update(i, (s[i].0, t)));
        assert(upd.last() == s.last());
        assert(trackers_map(upd) =~= trackers_map(s).insert(s[i].0 as int, t));
    }
}

/// The collection of all live trackers, one per segment index.
#[derive(Debug)]
pub struct TrackerMap {
    entries: Vec<(isize, DictTracker)>,
}

impl View for TrackerMap {
    type V = Map<int, DictTracker>;

    closed spec fn view(&self) -> Map<int, DictTracker> {
        trackers_map(self.entries@)
    }
}

impl TrackerMap {
    /// An empty collection.
    pub fn new() -> (r: TrackerMap)
        ensures
            r@ == Map::<int, DictTracker>::empty(),
    {
        let r = TrackerMap { entries: Vec::new() };
        proof {
            assert(r@ =~= Map::<int, DictTracker>::empty());
        }
        r
    }

    /// Whether no segment owns a tracker.
    pub fn is_empty(&self) -> (r: bool)
        ensures
            r == (self@ == Map::<int, DictTracker>::empty()),
    {
        if self.entries.len() == 0 {
            proof {
                assert(self@ =~= Map::<int, DictTracker>::empty());
            }
            true
        } else {
            proof {
                assert(self@.contains_key(self.entries@.last().0 as int));
            }
            false
        }
    }

    /// Upserts the tracker for a segment.
    pub fn insert(&mut self, key: isize, tracker: DictTracker)
        ensures
            final(self)@ == old(self)@.insert(key as int, tracker),
    {
        let ghost olds = self.entries@;
        self.entries.push((key, tracker));
        proof {
            assert(self.entries@.drop_last() =~= olds);
        }
    }

    /// The index of the governing entry for a segment, if any.
    fn find_last(&self, key: isize) -> (r: Option<usize>)
        ensures
            (r matches Some(i) ==> i < self.entries@.len() && self.entries@[i as int].0 == key
                && forall|j: int| i < j < self.entries@.len() ==> self.entries@[j].0 != key),
            r is None ==> forall|j: int| 0 <= j < self.entries@.len() ==> self.entries@[j].0 != key,
    {
        let n = self.entries.len();
        let mut i: usize = n;
        while i > 0
            invariant
                i <= n,
                n == self.entries.len(),
                forall|j: int| i <= j < n ==> self.entries@[j].0 != key,
            decreases i,
        {
            i = i - 1;
            if self.entries[i].0 == key {
                return Some(i);
            }
        }
        None
    }

    /// The tracker for a segment, if any.
    pub fn get(&self, key: isize) -> (r: Option<&DictTracker>)
        ensures
            (r matches Some(t) ==> self@.contains_key(key as int) && *t == self@[key as int]),
            r is None <==> !self@.contains_key(key as int),
    {
        match self.find_last(key) {
            Some(i) => {
                proof {
                    lemma_trackers_found(self.entries@, i as int);
                }
                Some(&self.entries[i].1)
            },
            None => {
                proof {
                    lemma_trackers_absent(self.entries@, key);
                }
                None
            },
        }
    }

    /// Whether a segment owns a tracker.
    pub fn contains_key(&self, key: isize) -> (r: bool)
        ensures
            r == self@.contains_key(key as int),
    {
        match self.get(key) {
            Some(_) => true,
            None => false,
        }
    }

    /// A mutable borrow of the tracker at a governing entry index.
    fn at_mut(&mut self, i: usize) -> (r: &mut DictTracker)
        requires
            i < old(self).entries@.len(),
        ensures
            *r == old(self).entries@[i as int].1,
            final(self).entries@ == old(self).entries@.update(
                i as int,
                (old(self).entries@[i as int].0, *final(r)),
            ),
    {
        let pair = &mut self.entries[i];
        &mut pair.1
    }
}

/// The sole entrypoint hint-execution code uses to create dictionaries and
/// resolve remembered pointers back to their trackers. Each segment index
/// owns at most one tracker, and a segment once claimed is never reused.
#[derive(Debug)]
pub struct DictManager {
    pub trackers: TrackerMap,
}

impl DictManager {
    pub fn new() -> (r: DictManager)
        ensures
            r.trackers@ == Map::<int, DictTracker>::empty(),
    {
        DictManager { trackers: TrackerMap::new() }
    }

    /// Creates a new simple dictionary seeded with `initial_dict` on a fresh
    /// segment and returns its base address. Fails with
    /// `CantCreateDictionaryOnTakenSegment` exactly when the allocator hands
    /// back a segment index that already owns a tracker.
    pub fn new_dict(&mut self, vm: &mut VirtualMachine, initial_dict: FeltMap) -> (r: Result<
        MaybeRelocatable,
        HintError,
    >)
        requires
            old(vm).segments.num_segments as int <= isize::MAX as int,
        ensures
            final(vm).segments.num_segments == old(vm).segments.num_segments + 1,
            old(self).trackers@.contains_key(old(vm).segments.num_segments as int) ==> (r matches
                Err(e) && e == HintError::CantCreateDictionaryOnTakenSegment(
                old(vm).segments.num_segments as isize,
            )) && final(self).trackers@ == old(self).trackers@,
            !old(self).trackers@.contains_key(old(vm).segments.num_segments as int) ==> (r matches
                Ok(b) && b == MaybeRelocatable::RelocatableValue(
                Relocatable {
                    segment_index: old(vm).segments.num_segments as isize,
                    offset: 0,
                },
            )) && final(self).trackers@.contains_key(old(vm).segments.num_segments as int)
                && final(self).trackers@ == old(self).trackers@.insert(
                old(vm).segments.num_segments as int,
                final(self).trackers@[old(vm).segments.num_segments as int],
            ) && final(self).trackers@[old(vm).segments.num_segments as int].data.contents()
                == initial_dict@ && final(self).trackers@[old(
                vm,
            ).segments.num_segments as int].data.default_of() is None && final(self).trackers@[old(
                vm,
            ).segments.num_segments as int].current_ptr == (Relocatable {
                segment_index: old(vm).segments.num_segments as isize,
                offset: 0,
            }),
    {
        let base = vm.add_memory_segment();
        if self.trackers.contains_key(base.segment_index) {
            return Err(HintError::CantCreateDictionaryOnTakenSegment(base.segment_index));
        }
        if base.segment_index < 0 {
            return Err(HintError::AddressInTemporarySegment(base.segment_index));
        }
        let tracker = DictTracker::new_with_initial(&base, initial_dict);
        self.trackers.insert(base.segment_index, tracker);
        Ok(MaybeRelocatable::RelocatableValue(base))
    }

    /// Creates a new default dictionary with the given default value, seeded
    /// with `initial_dict` if one is given, on a fresh segment. The same
    /// segment-collision guard as `new_dict`.
    pub fn new_default_dict(
        &mut self,
        vm: &mut VirtualMachine,
        default_value: &Felt,
        initial_dict: Option<FeltMap>,
    ) -> (r: Result<MaybeRelocatable, HintError>)
        requires
            old(vm).segments.num_segments as int <= isize::MAX as int,
        ensures
            final(vm).segments.num_segments == old(vm).segments.num_segments + 1,
            old(self).trackers@.contains_key(old(vm).segments.num_segments as int) ==> (r matches
                Err(e) && e == HintError::CantCreateDictionaryOnTakenSegment(
                old(vm).segments.num_segments as isize,
            )) && final(self).trackers@ == old(self).trackers@,
            !old(self).trackers@.contains_key(old(vm).segments.num_segments as int) ==> (r matches
                Ok(b) && b == MaybeRelocatable::RelocatableValue(
                Relocatable {
                    segment_index: old(vm).segments.num_segments as isize,
                    offset: 0,
                },
            )) && final(self).trackers@.contains_key(old(vm).segments.num_segments as int)
                && final(self).trackers@ == old(self).trackers@.insert(
                old(vm).segments.num_segments as int,
                final(self).trackers@[old(vm).segments.num_segments as int],
            ) && final(self).trackers@[old(vm).segments.num_segments as int].data.contents()
                == (match initial_dict {
                Some(m) => m@,
                None => Map::<nat, nat>::empty(),
            }) && final(self).trackers@[old(vm).segments.num_segments as int].data.default_of()
                == Some(default_value@) && final(self).trackers@[old(
                vm,
            ).segments.num_segments as int].current_ptr == (Relocatable {
                segment_index: old(vm).segments.num_segments as isize,
                offset: 0,
            }),
    {
        let base = vm.add_memory_segment();
        if self.trackers.contains_key(base.segment_index) {
            return Err(HintError::CantCreateDictionaryOnTakenSegment(base.segment_index));
        }
        let tracker = DictTracker::new_default_dict(&base, default_value, initial_dict);
        self.trackers.insert(base.segment_index, tracker);
        Ok(MaybeRelocatable::RelocatableValue(base))
    }

    /// Resolves a remembered pointer to its tracker for reading. Fails with
    /// `NoDictTracker` when the pointer's segment owns none, and with
    /// `MismatchedDictPtr` when the tracker's recorded cursor is not exactly
    /// the presented pointer.
    pub fn get_tracker(&self, dict_ptr: &Relocatable) -> (r: Result<&DictTracker, HintError>)
        ensures
            !self.trackers@.contains_key(dict_ptr.segment_index as int) ==> (r matches Err(e) && e
                == HintError::NoDictTracker(dict_ptr.segment_index)),
            self.trackers@.contains_key(dict_ptr.segment_index as int) && self.trackers@[
                dict_ptr.segment_index as int
            ].current_ptr != *dict_ptr ==> (r matches Err(e) && e == HintError::MismatchedDictPtr(
                self.trackers@[dict_ptr.segment_index as int].current_ptr,
                *dict_ptr,
            )),
            self.trackers@.contains_key(dict_ptr.segment_index as int) && self.trackers@[
                dict_ptr.segment_index as int
            ].current_ptr == *dict_ptr ==> (r matches Ok(t) && *t == self.trackers@[
                dict_ptr.segment_index as int
            ]),
    {
        match self.trackers.get(dict_ptr.segment_index) {
            None => Err(HintError::NoDictTracker(dict_ptr.segment_index)),
            Some(tracker) => {
                if tracker.current_ptr == *dict_ptr {
                    Ok(tracker)
                } else {
                    Err(HintError::MismatchedDictPtr(tracker.current_ptr, *dict_ptr))
                }
            },
        }
    }

    /// Resolves a remembered pointer to its tracker for writing, with the
    /// same validation as `get_tracker`; on success the map afterwards holds,
    /// under that segment, whatever the caller leaves behind the borrow.
    pub fn get_tracker_mut(&mut self, dict_ptr: &Relocatable) -> (r: Result<
        &mut DictTracker,
        HintError,
    >)
        ensures
            !old(self).trackers@.contains_key(dict_ptr.segment_index as int) ==> (r matches Err(e)
                && e == HintError::NoDictTracker(dict_ptr.segment_index)) && final(self).trackers@
                == old(self).trackers@,
            old(self).trackers@.contains_key(dict_ptr.segment_index as int) && old(self).trackers@[
                dict_ptr.segment_index as int
            ].current_ptr != *dict_ptr ==> (r matches Err(e) && e == HintError::MismatchedDictPtr(
                old(self).trackers@[dict_ptr.segment_index as int].current_ptr,
                *dict_ptr,
            )) && final(self).trackers@ == old(self).trackers@,
            old(self).trackers@.contains_key(dict_ptr.segment_index as int) && old(self).trackers@[
                dict_ptr.segment_index as int
            ].current_ptr == *dict_ptr ==> (r matches Ok(t) && *t == old(self).trackers@[
                dict_ptr.segment_index as int
            ] && final(self).trackers@ == old(self).trackers@.insert(
                dict_ptr.segment_index as int,
                *final(t),
            )),
    {
        let seg = dict_ptr.segment_index;
        match self.trackers.find_last(seg) {
            None => {
                proof {
                    lemma_trackers_absent(self.trackers.entries@, seg);
                }
                Err(HintError::NoDictTracker(seg))
            },
            Some(i) => {
                proof {
                    lemma_trackers_found(self.trackers.entries@, i as int);
                }
                let matches_ptr = {
                    let t = &self.trackers.entries[i].1;
                    t.current_ptr == *dict_ptr
                };
                if !matches_ptr {
                    let expected = self.trackers.entries[i].1.current_ptr;
                    return Err(HintError::MismatchedDictPtr(expected, *dict_ptr));
                }
                proof {
                    lemma_trackers_update(
                        self.trackers.entries@,
                        i as int,
                        self.trackers.entries@[i as int].1,
                    );
                }
                let ghost olds = self.trackers.entries@;
                let t = self.trackers.at_mut(i);
                proof {
                    lemma_trackers_update(olds, i as int, *final(t));
                }
                Ok(t)
            },
        }
    }
}

impl Default for DictManager {
    fn default() -> (r: DictManager)
        ensures
            r.trackers@ == Map::<int, DictTracker>::empty(),
    {
        DictManager::new()
    }
}

} // verus!
