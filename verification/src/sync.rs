use vstd::prelude::*;
use crate::records::{
    Record, RecordModel, Tag, TagKey, TagModel, find_tag, lemma_find_tag_at,
    lemma_find_tag_none, lemma_find_tag_properties, records_model, tag_value_of, tags_contain,
    tags_contain_key, tags_model,
};

verus! {

/// The tag sequence a destination record carries after one merge step: the
/// destination's own tags, followed by every source tag whose key is absent
/// so far, copied in source order.  A tag already copied counts as present
/// for the source tags after it, so the first source occurrence of a key
/// wins; an existing destination tag is never replaced.
pub open spec fn merge_tags_spec(dest: Seq<TagModel>, source: Seq<TagModel>) -> Seq<TagModel>
    decreases source.len(),
{
    if source.len() == 0 {
        dest
    } else if tags_contain_key(dest, source[0].key) {
        merge_tags_spec(dest, source.drop_first())
    } else {
        merge_tags_spec(dest.push(source[0]), source.drop_first())
    }
}

/// Copy onto `dest` every tag of `source` whose key `dest` does not already
/// hold; existing tags of `dest` are left untouched, in place.
pub fn merge_missing_tags(dest: &mut Vec<Tag>, source: &Vec<Tag>)
    ensures
        tags_model(final(dest)@) == merge_tags_spec(tags_model(old(dest)@), tags_model(source@)),
{
    let ghost source_model = tags_model(source@);
    let mut i: usize = 0;
    proof {
        assert(source_model.skip(0) =~= source_model);
    }
    while i < source.len()
        invariant
            i <= source.len(),
            source_model == tags_model(source@),
            merge_tags_spec(tags_model(old(dest)@), source_model) == merge_tags_spec(
                tags_model(dest@),
                source_model.skip(i as int),
            ),
        decreases source.len() - i,
    {
        let ghost dest_before = tags_model(dest@);
        let ghost remaining = source_model.skip(i as int);
        proof {
            assert(remaining[0] == source_model[i as int]);
            assert(remaining.drop_first() =~= source_model.skip(i as int + 1));
        }
        let t: &Tag = &source[i];
        if !tags_contain(dest, t.key) {
            dest.push(t.clone());
            proof {
                assert(tags_model(dest@) =~= dest_before.push(source_model[i as int]));
            }
        }
        i += 1;
    }
    proof {
        assert(source_model.skip(source_model.len() as int) =~= Seq::<TagModel>::empty());
    }
}

/// An existing destination tag is never overwritten: whatever the source
/// holds under `key`, a key the destination already carries keeps exactly
/// the value it had.
pub proof fn lemma_merge_never_overwrites(
    dest: Seq<TagModel>,
    source: Seq<TagModel>,
    key: TagKey,
)
    requires
        tags_contain_key(dest, key),
    ensures
        tags_contain_key(merge_tags_spec(dest, source), key),
        tag_value_of(merge_tags_spec(dest, source), key) == tag_value_of(dest, key),
    decreases source.len(),
{
    if source.len() == 0 {
    } else if tags_contain_key(dest, source[0].key) {
        lemma_merge_never_overwrites(dest, source.drop_first(), key);
    } else {
        lemma_find_push(dest, source[0], key);
        lemma_find_tag_properties(dest, key);
        let j = find_tag(dest, key).unwrap();
        assert(dest.push(source[0])[j] == dest[j]);
        lemma_merge_never_overwrites(dest.push(source[0]), source.drop_first(), key);
    }
}

/// How the first-match scan behaves when one tag is appended: an existing
/// match is undisturbed, and an appended tag is found only if nothing
/// earlier carries its key.
proof fn lemma_find_push(tags: Seq<TagModel>, tag: TagModel, key: TagKey)
    ensures
        tags_contain_key(tags, key) ==> find_tag(tags.push(tag), key) == find_tag(tags, key),
        !tags_contain_key(tags, key) && tag.key == key ==> find_tag(tags.push(tag), key) == Some(
            tags.len() as int,
        ),
        !tags_contain_key(tags, key) && tag.key != key ==> find_tag(tags.push(tag), key) is None,
{
    lemma_find_tag_properties(tags, key);
    let pushed = tags.push(tag);
    assert(forall|k: int| 0 <= k < tags.len() ==> #[trigger] pushed[k] == tags[k]);
    match find_tag(tags, key) {
        Some(j) => {
            lemma_find_tag_at(pushed, key, j);
        },
        None => {
            if tag.key == key {
                lemma_find_tag_at(pushed, key, tags.len() as int);
            } else {
                lemma_find_tag_none(pushed, key);
            }
        },
    }
}

/// A key the destination lacks is copied from the source: after the merge
/// the destination carries it, with the value of the source's first tag
/// under that key.
pub proof fn lemma_merge_copies_missing(
    dest: Seq<TagModel>,
    source: Seq<TagModel>,
    key: TagKey,
)
    requires
        !tags_contain_key(dest, key),
        tags_contain_key(source, key),
    ensures
        tags_contain_key(merge_tags_spec(dest, source), key),
        tag_value_of(merge_tags_spec(dest, source), key) == tag_value_of(source, key),
    decreases source.len(),
{
    lemma_find_tag_properties(source, key);
    let rest = source.drop_first();
    if source[0].key == key {
        assert(find_tag(source, key) == Some(0int));
        assert(tag_value_of(source, key) == source[0].value);
        lemma_find_push(dest, source[0], key);
        let grown = dest.push(source[0]);
        assert(tag_value_of(grown, key) == source[0].value);
        lemma_merge_never_overwrites(grown, rest, key);
    } else {
        assert(find_tag(rest, key) is Some ==> find_tag(source, key) == Some(
            find_tag(rest, key).unwrap() + 1,
        ));
        lemma_find_tag_properties(rest, key);
        if find_tag(rest, key) is None {
            assert(find_tag(source, key) is None);
            assert(false);
        }
        assert(tag_value_of(source, key) == tag_value_of(rest, key)) by {
            let j = find_tag(rest, key).unwrap();
            assert(source[j + 1] == rest[j]);
        }
        if tags_contain_key(dest, source[0].key) {
            lemma_merge_copies_missing(dest, rest, key);
        } else {
            lemma_find_push(dest, source[0], key);
            lemma_merge_copies_missing(dest.push(source[0]), rest, key);
        }
    }
}

/// A merge invents no tags: the merged record carries a key exactly when
/// the destination or the source already carried it.
pub proof fn lemma_merge_key_origin(dest: Seq<TagModel>, source: Seq<TagModel>, key: TagKey)
    ensures
        tags_contain_key(merge_tags_spec(dest, source), key) <==> (tags_contain_key(dest, key)
            || tags_contain_key(source, key)),
    decreases source.len(),
{
    if source.len() == 0 {
    } else {
        let rest = source.drop_first();
        assert(tags_contain_key(source, key) <==> (source[0].key == key || tags_contain_key(
            rest,
            key,
        )));
        if tags_contain_key(dest, source[0].key) {
            lemma_merge_key_origin(dest, rest, key);
        } else {
            lemma_find_push(dest, source[0], key);
            lemma_merge_key_origin(dest.push(source[0]), rest, key);
        }
    }
}

/// The record a destination record becomes when one source record's tags
/// are merged onto it: same name, same reference index, merged tags.
pub open spec fn merge_record_spec(dest: RecordModel, source: RecordModel) -> RecordModel {
    RecordModel {
        qname: dest.qname,
        ref_index: dest.ref_index,
        tags: merge_tags_spec(dest.tags, source.tags),
    }
}

/// The inner matching loop for one source record: starting at destination
/// position `di`, every consecutive destination record whose name equals the
/// source record's name is merged with it and emitted, and the cursor stops
/// at the first position past the run.  Returns the emitted records and the
/// final cursor position.
pub open spec fn sync_group_spec(source_rec: RecordModel, dest: Seq<RecordModel>, di: int) -> (
    Seq<RecordModel>,
    int,
)
    decreases dest.len() - di,
{
    if di < 0 || di >= dest.len() || dest[di].qname != source_rec.qname {
        (Seq::empty(), di)
    } else {
        let step = sync_group_spec(source_rec, dest, di + 1);
        (seq![merge_record_spec(dest[di], source_rec)] + step.0, step.1)
    }
}

/// The outer loop from destination position `di` on: each source record in
/// turn drives the inner matching loop; a source record whose name does not
/// match the current destination cursor is skipped without effect.
pub open spec fn sync_from_spec(
    source: Seq<RecordModel>,
    dest: Seq<RecordModel>,
    di: int,
) -> Seq<RecordModel>
    decreases source.len(),
{
    if source.len() == 0 {
        Seq::empty()
    } else {
        let step = sync_group_spec(source[0], dest, di);
        step.0 + sync_from_spec(source.drop_first(), dest, step.1)
    }
}

/// Everything the synchronizer emits: the destination-driven merge-join over
/// the two name-grouped streams, started with the cursor on the first
/// destination record.
pub open spec fn synchronize_spec(
    source: Seq<RecordModel>,
    dest: Seq<RecordModel>,
) -> Seq<RecordModel> {
    sync_from_spec(source, dest, 0)
}

/// How a run ended.
#[derive(Clone, Copy, PartialEq, Eq, Structural, Debug)]
pub enum SyncStatus {
    /// Some destination records were never reached; nothing notable happened.
    Completed,
    /// The destination stream was empty at the start: nothing was emitted.
    /// Non-fatal; callers may log it.
    EmptyDestination,
    /// The destination stream ran out mid-merge: every destination record
    /// was emitted, and the remaining source records had no effect.
    /// Non-fatal; callers may log it.
    DestinationExhausted,
}

/// Which status a run reports, given the destination stream and what the run
/// emitted.
pub open spec fn sync_status_spec(dest: Seq<RecordModel>, emitted: Seq<RecordModel>) -> SyncStatus {
    if dest.len() == 0 {
        SyncStatus::EmptyDestination
    } else if emitted.len() == dest.len() {
        SyncStatus::DestinationExhausted
    } else {
        SyncStatus::Completed
    }
}

/// A synchronizer run's result: the emitted records and how the run ended.
pub struct SyncOutput {
    pub records: Vec<Record>,
    pub status: SyncStatus,
}

/// When the cursor starts at or past the end of the destination stream,
/// nothing is ever emitted.
proof fn lemma_sync_from_past_end(source: Seq<RecordModel>, dest: Seq<RecordModel>, di: int)
    requires
        di >= dest.len(),
    ensures
        sync_from_spec(source, dest, di) == Seq::<RecordModel>::empty(),
    decreases source.len(),
{
    if source.len() == 0 {
    } else {
        lemma_sync_from_past_end(source.drop_first(), dest, di);
        assert(sync_group_spec(source[0], dest, di).0 + sync_from_spec(
            source.drop_first(),
            dest,
            di,
        ) =~= Seq::<RecordModel>::empty());
    }
}

/// Shape of one inner-loop run: it consumes a contiguous block of
/// destination records, and each emitted record is the destination record
/// at the matching position merged with the driving source record.
pub proof fn lemma_sync_group_structure(source_rec: RecordModel, dest: Seq<RecordModel>, di: int)
    requires
        0 <= di <= dest.len(),
    ensures
        ({
            let step = sync_group_spec(source_rec, dest, di);
            &&& di <= step.1 <= dest.len()
            &&& step.0.len() == step.1 - di
            &&& forall|k: int|
                0 <= k < step.0.len() ==> step.0[k] == merge_record_spec(dest[di + k], source_rec)
                    && (#[trigger] dest[di + k]).qname == source_rec.qname
        }),
    decreases dest.len() - di,
{
    if di >= dest.len() || dest[di].qname != source_rec.qname {
    } else {
        lemma_sync_group_structure(source_rec, dest, di + 1);
        let step = sync_group_spec(source_rec, dest, di);
        let tail = sync_group_spec(source_rec, dest, di + 1);
        assert forall|k: int| 0 <= k < step.0.len() implies step.0[k] == merge_record_spec(
            dest[di + k],
            source_rec,
        ) && (#[trigger] dest[di + k]).qname == source_rec.qname by {
            if k > 0 {
                assert(step.0[k] == tail.0[k - 1]);
                assert(dest[(di + 1) + (k - 1)].qname == source_rec.qname);
            }
        }
    }
}

/// Shape of a whole run from cursor position `di`: the emitted records
/// cover a prefix of the remaining destination records in order, and each
/// emitted record is its destination record merged with some source record
/// that carries the same query name.
pub proof fn lemma_sync_from_structure(source: Seq<RecordModel>, dest: Seq<RecordModel>, di: int)
    requires
        0 <= di <= dest.len(),
    ensures
        ({
            let emitted = sync_from_spec(source, dest, di);
            &&& di + emitted.len() <= dest.len()
            &&& forall|k: int|
                0 <= k < emitted.len() ==> exists|si: int|
                    0 <= si < source.len() && #[trigger] emitted[k] == merge_record_spec(
                        dest[di + k],
                        source[si],
                    ) && source[si].qname == dest[di + k].qname
        }),
    decreases source.len(),
{
    if source.len() == 0 {
    } else {
        let emitted = sync_from_spec(source, dest, di);
        let step = sync_group_spec(source[0], dest, di);
        lemma_sync_group_structure(source[0], dest, di);
        let rest_src = source.drop_first();
        lemma_sync_from_structure(rest_src, dest, step.1);
        let rest = sync_from_spec(rest_src, dest, step.1);
        assert forall|k: int| 0 <= k < emitted.len() implies exists|si: int|
            0 <= si < source.len() && #[trigger] emitted[k] == merge_record_spec(
                dest[di + k],
                source[si],
            ) && source[si].qname == dest[di + k].qname by {
            if k < step.0.len() {
                assert(emitted[k] == step.0[k]);
                assert(0 <= 0 < source.len() && emitted[k] == merge_record_spec(
                    dest[di + k],
                    source[0],
                ) && source[0].qname == dest[di + k].qname);
            } else {
                assert(emitted[k] == rest[k - step.0.len()]);
                let rk = k - step.0.len();
                let rsi = choose|rsi: int|
                    0 <= rsi < rest_src.len() && #[trigger] rest[rk] == merge_record_spec(
                        dest[step.1 + rk],
                        rest_src[rsi],
                    ) && rest_src[rsi].qname == dest[step.1 + rk].qname;
                assert(rest_src[rsi] == source[rsi + 1]);
                assert(step.1 + rk == di + k);
                assert(0 <= rsi + 1 < source.len() && emitted[k] == merge_record_spec(
                    dest[di + k],
                    source[rsi + 1],
                ) && source[rsi + 1].qname == dest[di + k].qname);
            }
        }
    }
}

/// The synchronizer never overwrites: an emitted record stands at the same
/// position as the destination record it came from, and any tag key that
/// destination record already carried keeps exactly the value it had,
/// whatever any matched source record holds under that key.
pub proof fn lemma_sync_never_overwrites(
    source: Seq<RecordModel>,
    dest: Seq<RecordModel>,
    j: int,
    key: TagKey,
)
    requires
        0 <= j < synchronize_spec(source, dest).len(),
        j < dest.len() ==> tags_contain_key(dest[j].tags, key),
    ensures
        j < dest.len(),
        tags_contain_key(synchronize_spec(source, dest)[j].tags, key),
        tag_value_of(synchronize_spec(source, dest)[j].tags, key) == tag_value_of(
            dest[j].tags,
            key,
        ),
{
    lemma_sync_from_structure(source, dest, 0);
    let emitted = synchronize_spec(source, dest);
    let si = choose|si: int|
        0 <= si < source.len() && #[trigger] emitted[j] == merge_record_spec(dest[j], source[si])
            && source[si].qname == dest[j].qname;
    lemma_merge_never_overwrites(dest[j].tags, source[si].tags, key);
}

/// The synchronizer copies missing tags: an emitted record is its
/// destination record merged with one source record of the same query name,
/// and a key the destination record lacked is taken from that source record
/// when it carries it — with exactly that record's value.
pub proof fn lemma_sync_copies_missing(
    source: Seq<RecordModel>,
    dest: Seq<RecordModel>,
    j: int,
    key: TagKey,
)
    requires
        0 <= j < synchronize_spec(source, dest).len(),
        j < dest.len() ==> !tags_contain_key(dest[j].tags, key),
    ensures
        j < dest.len(),
        exists|si: int|
            0 <= si < source.len() && #[trigger] synchronize_spec(source, dest)[j]
                == merge_record_spec(dest[j], source[si]) && source[si].qname == dest[j].qname && (
            tags_contain_key(source[si].tags, key) ==> tags_contain_key(
                synchronize_spec(source, dest)[j].tags,
                key,
            ) && tag_value_of(synchronize_spec(source, dest)[j].tags, key) == tag_value_of(
                source[si].tags,
                key,
            )),
{
    lemma_sync_from_structure(source, dest, 0);
    let emitted = synchronize_spec(source, dest);
    let si = choose|si: int|
        0 <= si < source.len() && #[trigger] emitted[j] == merge_record_spec(dest[j], source[si])
            && source[si].qname == dest[j].qname;
    if tags_contain_key(source[si].tags, key) {
        lemma_merge_copies_missing(dest[j].tags, source[si].tags, key);
    }
    assert(0 <= si < source.len() && emitted[j] == merge_record_spec(dest[j], source[si])
        && source[si].qname == dest[j].qname && (tags_contain_key(source[si].tags, key)
        ==> tags_contain_key(emitted[j].tags, key) && tag_value_of(emitted[j].tags, key)
        == tag_value_of(source[si].tags, key)));
}

/// Whether two records carry the same query name.
pub fn names_match(a: &Record, b: &Record) -> (result: bool)
    ensures
        result == (a@.qname == b@.qname),
{
    a.qname == b.qname
}

/// Merge tags from a source stream of records onto a destination stream of
/// records, both grouped by query name, in one forward pass.
///
/// For each source record in order, while the destination cursor's name
/// equals the source record's name: the source record's missing tags are
/// copied onto the cursor record, the cursor record is emitted, and the
/// cursor advances.  A destination record once emitted is never revisited,
/// and destination records past the last emitted one are not emitted at all.
pub fn synchronize(source: &Vec<Record>, dest: &Vec<Record>) -> (result: SyncOutput)
    ensures
        records_model(result.records@) == synchronize_spec(
            records_model(source@),
            records_model(dest@),
        ),
        result.status == sync_status_spec(records_model(dest@), records_model(result.records@)),
        records_model(result.records@).len() <= records_model(dest@).len(),
        forall|j: int|
            0 <= j < records_model(result.records@).len() ==> (#[trigger] records_model(
                result.records@,
            )[j]).qname == records_model(dest@)[j].qname && records_model(
                result.records@,
            )[j].ref_index == records_model(dest@)[j].ref_index,
{
    let ghost src_model = records_model(source@);
    let ghost dest_model = records_model(dest@);
    let mut out: Vec<Record> = Vec::new();
    if dest.len() == 0 {
        proof {
            lemma_sync_from_past_end(src_model, dest_model, 0);
        }
        return SyncOutput { records: out, status: SyncStatus::EmptyDestination };
    }
    let mut si: usize = 0;
    let mut di: usize = 0;
    proof {
        assert(src_model.skip(0) =~= src_model);
    }
    while si < source.len()
        invariant
            si <= source.len(),
            di <= dest.len(),
            src_model == records_model(source@),
            dest_model == records_model(dest@),
            dest_model.len() > 0,
            out@.len() == di,
            synchronize_spec(src_model, dest_model) == records_model(out@) + sync_from_spec(
                src_model.skip(si as int),
                dest_model,
                di as int,
            ),
        decreases source.len() - si,
    {
        let ghost sv = src_model[si as int];
        let ghost gfin = sync_group_spec(sv, dest_model, di as int).1;
        let ghost rest_after = sync_from_spec(src_model.skip(si as int + 1), dest_model, gfin);
        proof {
            assert(src_model.skip(si as int)[0] == sv);
            assert(src_model.skip(si as int).drop_first() =~= src_model.skip(si as int + 1));
            assert(source@[si as int]@ == sv);
        }
        while di < dest.len() && names_match(&source[si], &dest[di])
            invariant
                si < source.len(),
                di <= dest.len(),
                src_model == records_model(source@),
                dest_model == records_model(dest@),
                sv == src_model[si as int],
                out@.len() == di,
                sync_group_spec(sv, dest_model, di as int).1 == gfin,
                rest_after == sync_from_spec(src_model.skip(si as int + 1), dest_model, gfin),
                synchronize_spec(src_model, dest_model) == records_model(out@)
                    + sync_group_spec(sv, dest_model, di as int).0 + rest_after,
            decreases dest.len() - di,
        {
            proof {
                assert(dest@[di as int]@ == dest_model[di as int]);
                assert(dest_model[di as int].qname == sv.qname);
            }
            let dref: &Record = &dest[di];
            let mut merged = dref.clone();
            let sref: &Record = &source[si];
            merge_missing_tags(&mut merged.tags, &sref.tags);
            proof {
                assert(merged@ =~= merge_record_spec(dest_model[di as int], sv));
            }
            let ghost out_before = records_model(out@);
            out.push(merged);
            proof {
                assert(records_model(out@) =~= out_before.push(
                    merge_record_spec(dest_model[di as int], sv),
                ));
                let step = sync_group_spec(sv, dest_model, di as int + 1);
                assert(sync_group_spec(sv, dest_model, di as int).0 =~= seq![
                    merge_record_spec(dest_model[di as int], sv),
                ] + step.0);
                assert(out_before + sync_group_spec(sv, dest_model, di as int).0 =~= records_model(
                    out@,
                ) + step.0);
                assert(out_before + sync_group_spec(sv, dest_model, di as int).0 + rest_after
                    =~= records_model(out@) + step.0 + rest_after);
            }
            di += 1;
        }
        proof {
            assert(sync_group_spec(sv, dest_model, di as int).0 =~= Seq::<RecordModel>::empty());
            assert(records_model(out@) + Seq::<RecordModel>::empty() + rest_after
                =~= records_model(out@) + rest_after);
        }
        si += 1;
    }
    proof {
        assert(src_model.skip(src_model.len() as int) =~= Seq::<RecordModel>::empty());
        assert(records_model(out@) + sync_from_spec(
            Seq::<RecordModel>::empty(),
            dest_model,
            di as int,
        ) =~= records_model(out@));
    }
    let status = if di == dest.len() {
        SyncStatus::DestinationExhausted
    } else {
        SyncStatus::Completed
    };
    proof {
        lemma_sync_from_structure(src_model, dest_model, 0);
        let emitted = synchronize_spec(src_model, dest_model);
        assert forall|j: int| 0 <= j < emitted.len() implies (#[trigger] emitted[j]).qname
            == dest_model[j].qname && emitted[j].ref_index == dest_model[j].ref_index by {
            let wi = choose|wi: int|
                0 <= wi < src_model.len() && #[trigger] emitted[j] == merge_record_spec(
                    dest_model[j],
                    src_model[wi],
                ) && src_model[wi].qname == dest_model[j].qname;
        }
    }
    SyncOutput { records: out, status }
}

} // verus!
