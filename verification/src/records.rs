use vstd::prelude::*;

verus! {

/// A two-character auxiliary tag key, e.g. `MM` or `ML`.
#[derive(Clone, Copy, PartialEq, Eq, Structural, Debug)]
pub struct TagKey {
    pub first: u8,
    pub second: u8,
}

impl TagKey {
    /// Build a key from its two characters.
    pub fn new(first: u8, second: u8) -> (result: TagKey)
        ensures
            result.first == first,
            result.second == second,
    {
        TagKey { first, second }
    }
}

/// The typed value of one auxiliary tag: a closed set of variants, so that
/// "already present" checks and verbatim copies are type-safe.
///
/// Floating-point values are carried as their raw bit patterns; this library
/// never interprets them, it only moves them between records.
#[derive(PartialEq, Eq, Debug)]
pub enum TagValue {
    /// A signed integer value.
    Int(i64),
    /// An unsigned integer value.
    UInt(u64),
    /// A single printable character.
    Character(u8),
    /// A text value, e.g. a base-modification string.
    Text(String),
    /// An array of signed integers (every fixed-width integer array fits).
    IntArray(Vec<i64>),
    /// A single-precision float, as its raw bits.
    FloatBits(u32),
    /// A double-precision float, as its raw bits.
    DoubleBits(u64),
    /// An array of single-precision floats, as raw bits.
    FloatArrayBits(Vec<u32>),
}

/// The mathematical shape of a tag value: sequences in place of vectors.
#[verifier::ext_equal]
pub enum TagValueModel {
    Int(i64),
    UInt(u64),
    Character(u8),
    Text(Seq<char>),
    IntArray(Seq<i64>),
    FloatBits(u32),
    DoubleBits(u64),
    FloatArrayBits(Seq<u32>),
}

impl View for TagValue {
    type V = TagValueModel;

    open spec fn view(&self) -> TagValueModel {
        match self {
            TagValue::Int(x) => TagValueModel::Int(*x),
            TagValue::UInt(x) => TagValueModel::UInt(*x),
            TagValue::Character(x) => TagValueModel::Character(*x),
            TagValue::Text(s) => TagValueModel::Text(s@),
            TagValue::IntArray(v) => TagValueModel::IntArray(v@),
            TagValue::FloatBits(x) => TagValueModel::FloatBits(*x),
            TagValue::DoubleBits(x) => TagValueModel::DoubleBits(*x),
            TagValue::FloatArrayBits(v) => TagValueModel::FloatArrayBits(v@),
        }
    }
}

/// One auxiliary tag: a key and its typed value.
#[derive(PartialEq, Eq, Debug)]
pub struct Tag {
    pub key: TagKey,
    pub value: TagValue,
}

/// The mathematical shape of a tag.
#[verifier::ext_equal]
pub struct TagModel {
    pub key: TagKey,
    pub value: TagValueModel,
}

impl View for Tag {
    type V = TagModel;

    open spec fn view(&self) -> TagModel {
        TagModel { key: self.key, value: self.value@ }
    }
}

/// One alignment record, reduced to the fields this library reads: the query
/// name, the reference index (`None` when unmapped), and the auxiliary tags.
/// Everything else an alignment format stores travels outside the library,
/// untouched.
#[derive(PartialEq, Eq, Debug)]
pub struct Record {
    pub qname: String,
    pub ref_index: Option<u32>,
    pub tags: Vec<Tag>,
}

/// The mathematical shape of a record.
#[verifier::ext_equal]
pub struct RecordModel {
    pub qname: Seq<char>,
    pub ref_index: Option<u32>,
    pub tags: Seq<TagModel>,
}

impl View for Record {
    type V = RecordModel;

    open spec fn view(&self) -> RecordModel {
        RecordModel {
            qname: self.qname@,
            ref_index: self.ref_index,
            tags: self.tags@.map_values(|t: Tag| t@),
        }
    }
}

/// The tag sequence of a tag vector, at the model level.
pub open spec fn tags_model(tags: Seq<Tag>) -> Seq<TagModel> {
    tags.map_values(|t: Tag| t@)
}

/// The record sequence of a record vector, at the model level.
pub open spec fn records_model(records: Seq<Record>) -> Seq<RecordModel> {
    records.map_values(|r: Record| r@)
}

/// Copy a vector of plain scalar values.
fn clone_scalars<T: Copy>(v: &Vec<T>) -> (result: Vec<T>)
    ensures
        result@ == v@,
{
    let mut result: Vec<T> = Vec::new();
    let mut i: usize = 0;
    while i < v.len()
        invariant
            i <= v.len(),
            result@ == v@.take(i as int),
        decreases v.len() - i,
    {
        result.push(v[i]);
        proof {
            assert(v@.take(i as int).push(v@[i as int]) =~= v@.take(i as int + 1));
        }
        i += 1;
    }
    proof {
        assert(v@.take(v@.len() as int) =~= v@);
    }
    result
}

impl Clone for TagValue {
    /// A verbatim copy: the copy has the same model as the original.
    fn clone(&self) -> (result: Self)
        ensures
            result@ == self@,
    {
        match self {
            TagValue::Int(x) => TagValue::Int(*x),
            TagValue::UInt(x) => TagValue::UInt(*x),
            TagValue::Character(x) => TagValue::Character(*x),
            TagValue::Text(s) => TagValue::Text(s.clone()),
            TagValue::IntArray(v) => TagValue::IntArray(clone_scalars(v)),
            TagValue::FloatBits(x) => TagValue::FloatBits(*x),
            TagValue::DoubleBits(x) => TagValue::DoubleBits(*x),
            TagValue::FloatArrayBits(v) => TagValue::FloatArrayBits(clone_scalars(v)),
        }
    }
}

impl Clone for Tag {
    /// A verbatim copy: the copy has the same model as the original.
    fn clone(&self) -> (result: Self)
        ensures
            result@ == self@,
    {
        Tag { key: self.key, value: self.value.clone() }
    }
}

/// Copy a vector of tags, preserving order and every key and value.
pub fn clone_tags(tags: &Vec<Tag>) -> (result: Vec<Tag>)
    ensures
        tags_model(result@) == tags_model(tags@),
{
    let mut result: Vec<Tag> = Vec::new();
    let mut i: usize = 0;
    while i < tags.len()
        invariant
            i <= tags.len(),
            result@.len() == i,
            forall|k: int| 0 <= k < i ==> (#[trigger] result@[k])@ == tags@[k]@,
        decreases tags.len() - i,
    {
        let t: &Tag = &tags[i];
        result.push(t.clone());
        i += 1;
    }
    proof {
        assert(tags_model(result@) =~= tags_model(tags@));
    }
    result
}

impl Clone for Record {
    /// A verbatim copy: the copy has the same model as the original.
    fn clone(&self) -> (result: Self)
        ensures
            result@ == self@,
    {
        let result = Record {
            qname: self.qname.clone(),
            ref_index: self.ref_index,
            tags: clone_tags(&self.tags),
        };
        proof {
            assert(result@ =~= self@);
        }
        result
    }
}

/// The position of the first tag carrying `key`, scanning left to right.
pub open spec fn find_tag(tags: Seq<TagModel>, key: TagKey) -> Option<int>
    decreases tags.len(),
{
    if tags.len() == 0 {
        None
    } else if tags[0].key == key {
        Some(0int)
    } else {
        match find_tag(tags.drop_first(), key) {
            Some(j) => Some(j + 1),
            None => None,
        }
    }
}

/// Whether some tag in the sequence carries `key`.
pub open spec fn tags_contain_key(tags: Seq<TagModel>, key: TagKey) -> bool {
    find_tag(tags, key) is Some
}

/// The value of the first tag carrying `key`.
pub open spec fn tag_value_of(tags: Seq<TagModel>, key: TagKey) -> TagValueModel {
    tags[find_tag(tags, key).unwrap()].value
}

/// What `find_tag` returns: a position in range that carries the key, with
/// no earlier position carrying it; or `None` exactly when no position does.
pub proof fn lemma_find_tag_properties(tags: Seq<TagModel>, key: TagKey)
    ensures
        match find_tag(tags, key) {
            Some(j) => 0 <= j < tags.len() && tags[j].key == key && forall|k: int|
                0 <= k < j ==> tags[k].key != key,
            None => forall|k: int| 0 <= k < tags.len() ==> tags[k].key != key,
        },
    decreases tags.len(),
{
    if tags.len() == 0 {
    } else if tags[0].key == key {
    } else {
        let rest = tags.drop_first();
        lemma_find_tag_properties(rest, key);
        assert(forall|k: int| 0 <= k < rest.len() ==> #[trigger] rest[k] == tags[k + 1]);
        match find_tag(rest, key) {
            Some(j) => {
                assert forall|k: int| 0 <= k < j + 1 implies tags[k].key != key by {
                    if k > 0 {
                        assert(rest[k - 1] == tags[k]);
                    }
                }
            },
            None => {
                assert forall|k: int| 0 <= k < tags.len() implies tags[k].key != key by {
                    if k > 0 {
                        assert(rest[k - 1] == tags[k]);
                    }
                }
            },
        }
    }
}

/// `find_tag` returns the position of the first match: if no position below
/// `i` carries the key and `i` does, the scan stops at `i`.
pub proof fn lemma_find_tag_at(tags: Seq<TagModel>, key: TagKey, i: int)
    requires
        0 <= i < tags.len(),
        tags[i].key == key,
        forall|k: int| 0 <= k < i ==> tags[k].key != key,
    ensures
        find_tag(tags, key) == Some(i),
    decreases i,
{
    if i == 0 {
    } else {
        lemma_find_tag_at(tags.drop_first(), key, i - 1);
    }
}

/// When no tag carries the key, the scan finds nothing.
pub proof fn lemma_find_tag_none(tags: Seq<TagModel>, key: TagKey)
    requires
        forall|k: int| 0 <= k < tags.len() ==> tags[k].key != key,
    ensures
        find_tag(tags, key) is None,
{
    lemma_find_tag_properties(tags, key);
    if find_tag(tags, key) is Some {
        assert(false);
    }
}

/// Whether a tag vector holds a tag with the given key.
pub fn tags_contain(tags: &Vec<Tag>, key: TagKey) -> (result: bool)
    ensures
        result == tags_contain_key(tags_model(tags@), key),
{
    let mut i: usize = 0;
    while i < tags.len()
        invariant
            i <= tags.len(),
            forall|k: int| 0 <= k < i ==> tags_model(tags@)[k].key != key,
        decreases tags.len() - i,
    {
        if tags[i].key == key {
            proof {
                lemma_find_tag_at(tags_model(tags@), key, i as int);
            }
            return true;
        }
        i += 1;
    }
    proof {
        lemma_find_tag_none(tags_model(tags@), key);
    }
    false
}

} // verus!
