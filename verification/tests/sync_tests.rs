use pg_fibertools::records::{Record, Tag, TagKey, TagValue};
use pg_fibertools::sync::{merge_missing_tags, synchronize, SyncStatus};

fn key(name: &str) -> TagKey {
    let bytes = name.as_bytes();
    TagKey::new(bytes[0], bytes[1])
}

fn text_tag(k: &str, v: &str) -> Tag {
    Tag { key: key(k), value: TagValue::Text(String::from(v)) }
}

fn record(qname: &str, tags: Vec<Tag>) -> Record {
    Record { qname: String::from(qname), ref_index: Some(0), tags }
}

#[test]
fn one_to_one_scenario() {
    let source = vec![record("r1", vec![text_tag("MM", "x")])];
    let dest = vec![record("r1", vec![])];
    let out = synchronize(&source, &dest);
    assert_eq!(out.records.len(), 1);
    assert_eq!(out.records[0].qname, "r1");
    assert_eq!(out.records[0].tags, vec![text_tag("MM", "x")]);
    // The whole destination stream was consumed, which the run reports.
    assert_eq!(out.status, SyncStatus::DestinationExhausted);
}

#[test]
fn empty_destination_scenario() {
    let source = vec![record("r1", vec![text_tag("MM", "x")])];
    let dest: Vec<Record> = vec![];
    let out = synchronize(&source, &dest);
    assert_eq!(out.records.len(), 0);
    assert_eq!(out.status, SyncStatus::EmptyDestination);
}

#[test]
fn name_mismatch_scenario() {
    let source = vec![record("r2", vec![text_tag("MM", "x")])];
    let dest = vec![record("r1", vec![])];
    let out = synchronize(&source, &dest);
    assert_eq!(out.records.len(), 0);
    assert_eq!(out.status, SyncStatus::Completed);
}

#[test]
fn copies_missing_tag() {
    let source = vec![record("r1", vec![text_tag("MM", "A+a,0,1")])];
    let dest = vec![record("r1", vec![text_tag("ML", "q")]), record("r2", vec![])];
    let out = synchronize(&source, &dest);
    assert_eq!(out.records.len(), 1);
    assert_eq!(out.records[0].tags, vec![text_tag("ML", "q"), text_tag("MM", "A+a,0,1")]);
    assert_eq!(out.status, SyncStatus::Completed);
}

#[test]
fn never_overwrites_existing_tag() {
    let source = vec![record("r1", vec![text_tag("MM", "from-source"), text_tag("ML", "new")])];
    let dest = vec![record("r1", vec![text_tag("MM", "kept")]), record("r2", vec![])];
    let out = synchronize(&source, &dest);
    assert_eq!(out.records.len(), 1);
    // The existing destination value survives; only the missing key is copied.
    assert_eq!(out.records[0].tags, vec![text_tag("MM", "kept"), text_tag("ML", "new")]);
}

#[test]
fn one_source_covers_whole_destination_group() {
    let source = vec![
        record("r1", vec![text_tag("AA", "first")]),
        record("r1", vec![text_tag("BB", "second")]),
    ];
    let dest = vec![record("r1", vec![]), record("r1", vec![]), record("r1", vec![])];
    let out = synchronize(&source, &dest);
    // The first source record's inner loop walks the whole matching group;
    // the second source record finds the cursor already past it.
    assert_eq!(out.records.len(), 3);
    for emitted in &out.records {
        assert_eq!(emitted.tags, vec![text_tag("AA", "first")]);
    }
    assert_eq!(out.status, SyncStatus::DestinationExhausted);
}

#[test]
fn unmatched_source_group_is_skipped() {
    let source = vec![
        record("r1", vec![text_tag("AA", "a")]),
        record("r1", vec![text_tag("BB", "b")]),
        record("r3", vec![text_tag("CC", "c")]),
    ];
    let dest = vec![record("r1", vec![]), record("r2", vec![])];
    let out = synchronize(&source, &dest);
    // r1 is merged once, the cursor stops on r2, and no later source record
    // matches it, so r2 is never emitted.
    assert_eq!(out.records.len(), 1);
    assert_eq!(out.records[0].qname, "r1");
    assert_eq!(out.records[0].tags, vec![text_tag("AA", "a")]);
    assert_eq!(out.status, SyncStatus::Completed);
}

#[test]
fn destination_fields_are_untouched() {
    let source = vec![record("r1", vec![text_tag("MM", "x")])];
    let mut dest_rec = record("r1", vec![]);
    dest_rec.ref_index = Some(17);
    let dest = vec![dest_rec, record("r2", vec![])];
    let out = synchronize(&source, &dest);
    assert_eq!(out.records[0].qname, "r1");
    assert_eq!(out.records[0].ref_index, Some(17));
}

#[test]
fn merge_copies_every_value_kind() {
    let source_tags = vec![
        Tag { key: key("AA"), value: TagValue::Int(-7) },
        Tag { key: key("BB"), value: TagValue::UInt(7) },
        Tag { key: key("CC"), value: TagValue::Character(b'c') },
        Tag { key: key("DD"), value: TagValue::Text(String::from("A+a,0,1")) },
        Tag { key: key("EE"), value: TagValue::IntArray(vec![1, -2, 3]) },
        Tag { key: key("FF"), value: TagValue::FloatBits(1.5f32.to_bits()) },
        Tag { key: key("GG"), value: TagValue::DoubleBits(2.5f64.to_bits()) },
        Tag { key: key("HH"), value: TagValue::FloatArrayBits(vec![1.0f32.to_bits()]) },
    ];
    let mut dest_tags = vec![Tag { key: key("AA"), value: TagValue::Int(42) }];
    merge_missing_tags(&mut dest_tags, &source_tags);
    assert_eq!(dest_tags.len(), 8);
    // The existing AA keeps its destination value.
    assert_eq!(dest_tags[0], Tag { key: key("AA"), value: TagValue::Int(42) });
    // Every missing tag is appended in source order, verbatim.
    assert_eq!(dest_tags[1..], source_tags[1..]);
}

#[test]
fn merge_into_empty_destination_tags() {
    let source_tags = vec![text_tag("MM", "x"), text_tag("ML", "y")];
    let mut dest_tags: Vec<Tag> = vec![];
    merge_missing_tags(&mut dest_tags, &source_tags);
    assert_eq!(dest_tags, source_tags);
}
