use vstd::prelude::*;
use crate::names::{PanSpecMode, prefix_spec, strip_spec, transform_spec};

verus! {

/// One `key:value` field of a header line, e.g. `SN:chr1` or `LN:248387328`.
#[derive(PartialEq, Eq, Debug)]
pub struct HeaderTag {
    pub key: String,
    pub value: String,
}

/// The mathematical shape of a header field.
#[verifier::ext_equal]
pub struct HeaderTagModel {
    pub key: Seq<char>,
    pub value: Seq<char>,
}

impl View for HeaderTag {
    type V = HeaderTagModel;

    open spec fn view(&self) -> HeaderTagModel {
        HeaderTagModel { key: self.key@, value: self.value@ }
    }
}

/// One header line: its record kind (e.g. `SQ`, `PG`, `RG`) and its fields
/// in order.
#[derive(PartialEq, Eq, Debug)]
pub struct HeaderLine {
    pub kind: String,
    pub tags: Vec<HeaderTag>,
}

/// The mathematical shape of a header line.
#[verifier::ext_equal]
pub struct HeaderLineModel {
    pub kind: Seq<char>,
    pub tags: Seq<HeaderTagModel>,
}

impl View for HeaderLine {
    type V = HeaderLineModel;

    open spec fn view(&self) -> HeaderLineModel {
        HeaderLineModel { kind: self.kind@, tags: self.tags@.map_values(|t: HeaderTag| t@) }
    }
}

/// The field sequence of a field vector, at the model level.
pub open spec fn header_tags_model(tags: Seq<HeaderTag>) -> Seq<HeaderTagModel> {
    tags.map_values(|t: HeaderTag| t@)
}

/// The line sequence of a header, at the model level.
pub open spec fn header_model(lines: Seq<HeaderLine>) -> Seq<HeaderLineModel> {
    lines.map_values(|line: HeaderLine| line@)
}

/// The record kind of reference-sequence dictionary lines.
pub open spec fn sq_kind() -> Seq<char> {
    "SQ"@
}

/// The field key that carries a reference sequence's name.
pub open spec fn sn_key() -> Seq<char> {
    "SN"@
}

/// The position of the first field carrying `key`, scanning left to right.
pub open spec fn find_header_tag(tags: Seq<HeaderTagModel>, key: Seq<char>) -> Option<int>
    decreases tags.len(),
{
    if tags.len() == 0 {
        None
    } else if tags[0].key == key {
        Some(0int)
    } else {
        match find_header_tag(tags.drop_first(), key) {
            Some(j) => Some(j + 1),
            None => None,
        }
    }
}

/// Whether a line is a reference-sequence dictionary entry.
pub open spec fn line_is_reference(line: HeaderLineModel) -> bool {
    line.kind == sq_kind()
}

/// A malformed dictionary line: a reference-sequence line with no name
/// field at all.
pub open spec fn line_lacks_name(line: HeaderLineModel) -> bool {
    line_is_reference(line) && find_header_tag(line.tags, sn_key()) is None
}

/// A header is well formed when every reference-sequence line carries a
/// name field.
pub open spec fn header_well_formed(lines: Seq<HeaderLineModel>) -> bool {
    forall|i: int| 0 <= i < lines.len() ==> !line_lacks_name(#[trigger] lines[i])
}

/// What one line becomes under a name rewrite `f`: a reference-sequence
/// line has the value of its first name field rewritten, and nothing else;
/// every other line passes through unmodified.
pub open spec fn transform_line_spec(
    f: spec_fn(Seq<char>) -> Seq<char>,
    line: HeaderLineModel,
) -> HeaderLineModel {
    if !line_is_reference(line) {
        line
    } else {
        match find_header_tag(line.tags, sn_key()) {
            None => line,
            Some(j) => HeaderLineModel {
                kind: line.kind,
                tags: line.tags.update(
                    j,
                    HeaderTagModel { key: line.tags[j].key, value: f(line.tags[j].value) },
                ),
            },
        }
    }
}

/// What a whole header becomes under a name rewrite: each line transformed
/// in place, with order and count preserved.
pub open spec fn transform_header_spec(
    f: spec_fn(Seq<char>) -> Seq<char>,
    lines: Seq<HeaderLineModel>,
) -> Seq<HeaderLineModel> {
    lines.map_values(|line: HeaderLineModel| transform_line_spec(f, line))
}

/// A fatal configuration error: the dictionary line at `line_index` is of
/// reference-sequence kind but lacks its name field.
#[derive(Clone, Copy, PartialEq, Eq, Structural, Debug)]
pub struct ConfigurationError {
    pub line_index: usize,
}

/// What `find_header_tag` returns: the first in-range position carrying
/// the key, or `None` exactly when no position does.
pub proof fn lemma_find_header_tag_properties(tags: Seq<HeaderTagModel>, key: Seq<char>)
    ensures
        match find_header_tag(tags, key) {
            Some(j) => 0 <= j < tags.len() && tags[j].key == key && forall|k: int|
                0 <= k < j ==> tags[k].key != key,
            None => forall|k: int| 0 <= k < tags.len() ==> tags[k].key != key,
        },
    decreases tags.len(),
{
    if tags.len() == 0 {
    } else if tags[0].key == key {
    } else {
        let rest = tags.drop_first();
        lemma_find_header_tag_properties(rest, key);
        assert(forall|k: int| 0 <= k < rest.len() ==> #[trigger] rest[k] == tags[k + 1]);
        match find_header_tag(rest, key) {
            Some(j) => {
                assert forall|k: int| 0 <= k < j + 1 implies tags[k].key != key by {
                    if k > 0 {
                        assert(rest[k - 1] == tags[k]);
                    }
                }
            },
            None => {
                assert forall|k: int| 0 <= k < tags.len() implies tags[k].key != key by {
                    if k > 0 {
                        assert(rest[k - 1] == tags[k]);
                    }
                }
            },
        }
    }
}

/// The first-match scan stops at `i` when nothing earlier matches and `i`
/// does.
proof fn lemma_find_header_tag_at(tags: Seq<HeaderTagModel>, key: Seq<char>, i: int)
    requires
        0 <= i < tags.len(),
        tags[i].key == key,
        forall|k: int| 0 <= k < i ==> tags[k].key != key,
    ensures
        find_header_tag(tags, key) == Some(i),
    decreases i,
{
    if i == 0 {
    } else {
        lemma_find_header_tag_at(tags.drop_first(), key, i - 1);
    }
}

/// When no field carries the key, the scan finds nothing.
proof fn lemma_find_header_tag_none(tags: Seq<HeaderTagModel>, key: Seq<char>)
    requires
        forall|k: int| 0 <= k < tags.len() ==> tags[k].key != key,
    ensures
        find_header_tag(tags, key) is None,
{
    lemma_find_header_tag_properties(tags, key);
    if find_header_tag(tags, key) is Some {
        assert(false);
    }
}

/// The position of the first field carrying `key`, or `None` when no field
/// does.
fn find_header_tag_index(tags: &Vec<HeaderTag>, key: &String) -> (result: Option<usize>)
    ensures
        match result {
            Some(j) => find_header_tag(header_tags_model(tags@), key@) == Some(j as int),
            None => find_header_tag(header_tags_model(tags@), key@) is None,
        },
{
    let mut i: usize = 0;
    while i < tags.len()
        invariant
            i <= tags.len(),
            forall|k: int| 0 <= k < i ==> header_tags_model(tags@)[k].key != key@,
        decreases tags.len() - i,
    {
        if tags[i].key == *key {
            proof {
                lemma_find_header_tag_at(header_tags_model(tags@), key@, i as int);
            }
            return Some(i);
        }
        i += 1;
    }
    proof {
        lemma_find_header_tag_none(header_tags_model(tags@), key@);
    }
    None
}

impl Clone for HeaderTag {
    /// A verbatim copy: the copy has the same model as the original.
    fn clone(&self) -> (result: Self)
        ensures
            result@ == self@,
    {
        HeaderTag { key: self.key.clone(), value: self.value.clone() }
    }
}

/// Copy a vector of header fields, preserving order, keys and values.
fn clone_header_tags(tags: &Vec<HeaderTag>) -> (result: Vec<HeaderTag>)
    ensures
        header_tags_model(result@) == header_tags_model(tags@),
{
    let mut result: Vec<HeaderTag> = Vec::new();
    let mut i: usize = 0;
    while i < tags.len()
        invariant
            i <= tags.len(),
            result@.len() == i,
            forall|k: int| 0 <= k < i ==> (#[trigger] result@[k])@ == tags@[k]@,
        decreases tags.len() - i,
    {
        let t: &HeaderTag = &tags[i];
        result.push(t.clone());
        i += 1;
    }
    proof {
        assert(header_tags_model(result@) =~= header_tags_model(tags@));
    }
    result
}

impl Clone for HeaderLine {
    /// A verbatim copy: the copy has the same model as the original.
    fn clone(&self) -> (result: Self)
        ensures
            result@ == self@,
    {
        let result = HeaderLine { kind: self.kind.clone(), tags: clone_header_tags(&self.tags) };
        proof {
            assert(result@ =~= self@);
        }
        result
    }
}

/// Rewrite one line under the given mode: on a reference-sequence line the
/// value of the first name field is rewritten; any other line is copied
/// unchanged.  Fails when a reference-sequence line has no name field.
fn transform_line(mode: &PanSpecMode, line: &HeaderLine, sq: &String, sn: &String) -> (result:
    Result<HeaderLine, ()>)
    requires
        sq@ == sq_kind(),
        sn@ == sn_key(),
    ensures
        match result {
            Ok(out) => !line_lacks_name(line@) && out@ == transform_line_spec(
                (|n: Seq<char>| transform_spec(*mode, n)),
                line@,
            ),
            Err(_) => line_lacks_name(line@),
        },
{
    let ghost f = (|n: Seq<char>| transform_spec(*mode, n));
    if !(line.kind == *sq) {
        return Ok(line.clone());
    }
    match find_header_tag_index(&line.tags, sn) {
        None => Err(()),
        Some(j) => {
            proof {
                lemma_find_header_tag_properties(line@.tags, sn_key());
            }
            let mut tags: Vec<HeaderTag> = Vec::new();
            let mut k: usize = 0;
            while k < line.tags.len()
                invariant
                    k <= line.tags.len(),
                    j < line.tags.len(),
                    find_header_tag(line@.tags, sn_key()) == Some(j as int),
                    tags@.len() == k,
                    forall|m: int| 0 <= m < k && m != j ==> (#[trigger] tags@[m])@ == line@.tags[m],
                    k > j ==> tags@[j as int]@ == (HeaderTagModel {
                        key: line@.tags[j as int].key,
                        value: transform_spec(*mode, line@.tags[j as int].value),
                    }),
                decreases line.tags.len() - k,
            {
                let t: &HeaderTag = &line.tags[k];
                if k == j {
                    let new_value = crate::names::transform_name(mode, t.value.as_str());
                    tags.push(HeaderTag { key: t.key.clone(), value: new_value });
                } else {
                    tags.push(t.clone());
                }
                k += 1;
            }
            let out = HeaderLine { kind: line.kind.clone(), tags };
            proof {
                assert(out@.tags =~= transform_line_spec(f, line@).tags);
                assert(out@ =~= transform_line_spec(f, line@));
            }
            Ok(out)
        },
    }
}

/// Rewrite every composite reference name in a header under the given mode.
///
/// On success the header comes back with each reference-sequence line's
/// name field rewritten and every other field, line, and position left
/// untouched.  When some reference-sequence line lacks a name field the
/// whole transform fails, before any output is produced, naming the first
/// such line.
pub fn transform_header(mode: &PanSpecMode, header: &Vec<HeaderLine>) -> (result: Result<
    Vec<HeaderLine>,
    ConfigurationError,
>)
    ensures
        match result {
            Ok(out) => header_well_formed(header_model(header@)) && header_model(out@)
                == transform_header_spec(
                (|n: Seq<char>| transform_spec(*mode, n)),
                header_model(header@),
            ),
            Err(e) => !header_well_formed(header_model(header@)) && e.line_index < header@.len()
                && line_lacks_name(header_model(header@)[e.line_index as int]) && forall|k: int|
                0 <= k < e.line_index ==> !line_lacks_name(
                #[trigger] header_model(header@)[k],
            ),
        },
{
    let ghost f = (|n: Seq<char>| transform_spec(*mode, n));
    let sq: String = "SQ".to_owned();
    let sn: String = "SN".to_owned();
    let mut out: Vec<HeaderLine> = Vec::new();
    let mut i: usize = 0;
    while i < header.len()
        invariant
            i <= header.len(),
            sq@ == sq_kind(),
            sn@ == sn_key(),
            out@.len() == i,
            forall|k: int| 0 <= k < i ==> !line_lacks_name(#[trigger] header_model(header@)[k]),
            forall|k: int| 0 <= k < i ==> (#[trigger] out@[k])@ == transform_line_spec(
                (|n: Seq<char>| transform_spec(*mode, n)),
                header_model(header@)[k],
            ),
        decreases header.len() - i,
    {
        let line: &HeaderLine = &header[i];
        match transform_line(mode, line, &sq, &sn) {
            Ok(new_line) => {
                out.push(new_line);
            },
            Err(_) => {
                proof {
                    assert(header_model(header@)[i as int] == header@[i as int]@);
                }
                return Err(ConfigurationError { line_index: i });
            },
        }
        i += 1;
    }
    proof {
        assert(header_model(out@) =~= transform_header_spec(f, header_model(header@)));
    }
    Ok(out)
}

/// Strip the leading `sample#haplotype#` fields from every reference name
/// in the header: reference-sequence name fields are rewritten, everything
/// else passes through unmodified.
pub fn strip_pan_spec_header(header: &Vec<HeaderLine>, pan_spec_delimiter: char) -> (result:
    Result<Vec<HeaderLine>, ConfigurationError>)
    ensures
        match result {
            Ok(out) => header_well_formed(header_model(header@)) && header_model(out@)
                == transform_header_spec(
                (|n: Seq<char>| strip_spec(pan_spec_delimiter, n)),
                header_model(header@),
            ),
            Err(e) => !header_well_formed(header_model(header@)) && e.line_index < header@.len()
                && line_lacks_name(header_model(header@)[e.line_index as int]),
        },
{
    let mode = PanSpecMode::Strip(pan_spec_delimiter);
    let result = transform_header(&mode, header);
    proof {
        let f = (|n: Seq<char>| transform_spec(mode, n));
        let g = (|n: Seq<char>| strip_spec(pan_spec_delimiter, n));
        assert(f =~= g);
    }
    result
}

/// Prepend a literal pangenome prefix (e.g. `"CHM13#0#"`) to every
/// reference name in the header: reference-sequence name fields are
/// rewritten, everything else passes through unmodified.
pub fn add_pan_spec_header(header: &Vec<HeaderLine>, pan_spec_prefix: &str) -> (result: Result<
    Vec<HeaderLine>,
    ConfigurationError,
>)
    ensures
        match result {
            Ok(out) => header_well_formed(header_model(header@)) && header_model(out@)
                == transform_header_spec(
                (|n: Seq<char>| prefix_spec(pan_spec_prefix@, n)),
                header_model(header@),
            ),
            Err(e) => !header_well_formed(header_model(header@)) && e.line_index < header@.len()
                && line_lacks_name(header_model(header@)[e.line_index as int]),
        },
{
    let mode = PanSpecMode::Prefix(pan_spec_prefix.to_owned());
    let result = transform_header(&mode, header);
    proof {
        let f = (|n: Seq<char>| transform_spec(mode, n));
        let g = (|n: Seq<char>| prefix_spec(pan_spec_prefix@, n));
        assert(f =~= g);
    }
    result
}

} // verus!
