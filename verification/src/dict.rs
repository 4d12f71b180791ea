use vstd::prelude::*;
use crate::names::{PanSpecMode, transform_name, transform_spec};

verus! {

/// One reference sequence: its name and its length in bases.
#[derive(PartialEq, Eq, Debug)]
pub struct RefEntry {
    pub name: String,
    pub length: u64,
}

/// The mathematical shape of a dictionary entry.
#[verifier::ext_equal]
pub struct RefEntryModel {
    pub name: Seq<char>,
    pub length: u64,
}

impl View for RefEntry {
    type V = RefEntryModel;

    open spec fn view(&self) -> RefEntryModel {
        RefEntryModel { name: self.name@, length: self.length }
    }
}

/// An ordered reference dictionary: a record's reference index is a
/// position in this sequence, so a transform must never reorder, drop or
/// duplicate entries — only the name at each position may change.
#[derive(PartialEq, Eq, Debug)]
pub struct ReferenceDictionary {
    pub entries: Vec<RefEntry>,
}

impl View for ReferenceDictionary {
    type V = Seq<RefEntryModel>;

    open spec fn view(&self) -> Seq<RefEntryModel> {
        self.entries@.map_values(|e: RefEntry| e@)
    }
}

/// The dictionary invariant callers maintain: entry names are unique.
pub open spec fn names_unique(dict: Seq<RefEntryModel>) -> bool {
    forall|i: int, j: int|
        0 <= i < j < dict.len() ==> (#[trigger] dict[i]).name != (#[trigger] dict[j]).name
}

impl ReferenceDictionary {
    /// An empty dictionary.
    pub fn new() -> (result: ReferenceDictionary)
        ensures
            result@.len() == 0,
    {
        ReferenceDictionary { entries: Vec::new() }
    }

    /// Append one entry; its position becomes the highest index.
    pub fn push_entry(&mut self, name: String, length: u64)
        ensures
            final(self)@ == old(self)@.push(RefEntryModel { name: name@, length: length }),
    {
        self.entries.push(RefEntry { name, length });
        proof {
            assert(self@ =~= old(self)@.push(RefEntryModel { name: name@, length: length }));
        }
    }

    /// How many entries the dictionary holds.
    pub fn len(&self) -> (result: usize)
        ensures
            result == self@.len(),
    {
        self.entries.len()
    }
}

/// Rewrite every entry's name under the given mode.  The index space is
/// unchanged: the result has the same number of entries, and the entry at
/// each position keeps its length — only its name is rewritten.
pub fn transform_dictionary(mode: &PanSpecMode, dict: &ReferenceDictionary) -> (result:
    ReferenceDictionary)
    ensures
        result@.len() == dict@.len(),
        forall|i: int| 0 <= i < dict@.len() ==> (#[trigger] result@[i]).length == dict@[i].length,
        forall|i: int| 0 <= i < dict@.len() ==> (#[trigger] result@[i]).name == transform_spec(
            *mode,
            dict@[i].name,
        ),
{
    let mut entries: Vec<RefEntry> = Vec::new();
    let mut i: usize = 0;
    while i < dict.entries.len()
        invariant
            i <= dict.entries.len(),
            entries@.len() == i,
            forall|k: int| 0 <= k < i ==> (#[trigger] entries@[k])@.length == dict@[k].length,
            forall|k: int| 0 <= k < i ==> (#[trigger] entries@[k])@.name == transform_spec(
                *mode,
                dict@[k].name,
            ),
        decreases dict.entries.len() - i,
    {
        let entry: &RefEntry = &dict.entries[i];
        let new_name = transform_name(mode, entry.name.as_str());
        entries.push(RefEntry { name: new_name, length: entry.length });
        i += 1;
    }
    ReferenceDictionary { entries }
}

/// Prepending one fixed prefix to every name keeps the dictionary
/// invariant: distinct names stay distinct, so a prefix transform can never
/// make two entries collide.
pub proof fn lemma_prefix_keeps_names_unique(
    prefix: Seq<char>,
    before: Seq<RefEntryModel>,
    after: Seq<RefEntryModel>,
)
    requires
        names_unique(before),
        after.len() == before.len(),
        forall|i: int| 0 <= i < before.len() ==> (#[trigger] after[i]).name == crate::names::prefix_spec(
            prefix,
            before[i].name,
        ),
    ensures
        names_unique(after),
{
    assert forall|i: int, j: int| 0 <= i < j < after.len() implies (#[trigger] after[i]).name != (
    #[trigger] after[j]).name by {
        if after[i].name == after[j].name {
            let a = before[i].name;
            let b = before[j].name;
            assert((prefix + a).len() == (prefix + b).len());
            assert forall|k: int| 0 <= k < a.len() implies a[k] == b[k] by {
                assert((prefix + a)[prefix.len() + k] == a[k]);
                assert((prefix + b)[prefix.len() + k] == b[k]);
            }
            assert(a =~= b);
        }
    }
}

} // verus!
