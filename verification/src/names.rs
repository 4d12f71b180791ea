use vstd::prelude::*;
use vstd::string::StrSliceExecFns;
use vstd::string::StringExecFns;

verus! {

/// How composite reference names are rewritten during one run.
///
/// The two modes are mutually exclusive: a run either strips the leading
/// `sample#haplotype#` fields from every name or prepends a literal prefix,
/// never both.
pub enum PanSpecMode {
    /// Discard every character up to and including the second occurrence of
    /// the delimiter; keep the rest of the name verbatim.
    Strip(char),
    /// Prepend the literal prefix string; the caller supplies any trailing
    /// delimiters (e.g. `"CHM13#0#"`).
    Prefix(String),
}

/// The strip scan, part way through: `consumed` delimiters have already been
/// consumed, and `name` is what remains to scan.  Characters are discarded
/// until the count of consumed delimiters reaches two; everything after that
/// point is kept verbatim, further delimiters included.
pub open spec fn strip_scan(delimiter: char, name: Seq<char>, consumed: nat) -> Seq<char>
    decreases name.len(),
{
    if consumed >= 2 {
        name
    } else if name.len() == 0 {
        Seq::empty()
    } else if name[0] == delimiter {
        strip_scan(delimiter, name.drop_first(), (consumed + 1) as nat)
    } else {
        strip_scan(delimiter, name.drop_first(), consumed)
    }
}

/// What stripping leaves of a composite name: scanning left to right, every
/// character up to and including the second delimiter occurrence is dropped,
/// and all later characters are kept unchanged.
pub open spec fn strip_spec(delimiter: char, name: Seq<char>) -> Seq<char> {
    strip_scan(delimiter, name, 0)
}

/// What prefixing produces: the prefix, verbatim, followed by the name.
pub open spec fn prefix_spec(prefix: Seq<char>, name: Seq<char>) -> Seq<char> {
    prefix + name
}

/// How many times the delimiter occurs in a name.
pub open spec fn count_delimiters(delimiter: char, name: Seq<char>) -> nat
    decreases name.len(),
{
    if name.len() == 0 {
        0
    } else if name[0] == delimiter {
        count_delimiters(delimiter, name.drop_first()) + 1
    } else {
        count_delimiters(delimiter, name.drop_first())
    }
}

/// The name a given mode rewrites `name` to.
pub open spec fn transform_spec(mode: PanSpecMode, name: Seq<char>) -> Seq<char> {
    match mode {
        PanSpecMode::Strip(delimiter) => strip_spec(delimiter, name),
        PanSpecMode::Prefix(prefix) => prefix_spec(prefix@, name),
    }
}

/// Strip the two leading delimiter-separated fields from a composite name.
pub fn strip_name(delimiter: char, name: &str) -> (result: String)
    ensures
        result@ == strip_spec(delimiter, name@),
{
    let len = name.unicode_len();
    let mut i: usize = 0;
    let mut consumed: usize = 0;
    proof {
        assert(name@.skip(0) =~= name@);
    }
    while i < len && consumed < 2
        invariant
            i <= len,
            consumed <= 2,
            len == name@.len(),
            strip_spec(delimiter, name@) == strip_scan(delimiter, name@.skip(i as int), consumed as nat),
        decreases len - i,
    {
        let c = name.get_char(i);
        proof {
            assert(name@.skip(i as int)[0] == name@[i as int]);
            assert(name@.skip(i as int).drop_first() =~= name@.skip(i as int + 1));
        }
        if c == delimiter {
            consumed += 1;
        }
        i += 1;
    }
    if consumed == 2 {
        proof {
            assert(strip_scan(delimiter, name@.skip(i as int), 2) == name@.skip(i as int));
        }
        let tail = name.substring_char(i, len);
        let result = tail.to_owned();
        proof {
            assert(name@.subrange(i as int, len as int) =~= name@.skip(i as int));
        }
        result
    } else {
        proof {
            assert(name@.skip(i as int).len() == 0);
            assert(strip_scan(delimiter, name@.skip(i as int), consumed as nat) == Seq::<char>::empty());
        }
        String::new()
    }
}

/// Prepend a literal prefix to a name.
pub fn prefix_name(prefix: &str, name: &str) -> (result: String)
    ensures
        result@ == prefix_spec(prefix@, name@),
{
    prefix.to_owned().concat(name)
}

/// Rewrite one name under the given mode.
pub fn transform_name(mode: &PanSpecMode, name: &str) -> (result: String)
    ensures
        result@ == transform_spec(*mode, name@),
{
    match mode {
        PanSpecMode::Strip(delimiter) => strip_name(*delimiter, name),
        PanSpecMode::Prefix(prefix) => prefix_name(prefix.as_str(), name),
    }
}

/// When fewer delimiters remain in the name than the scan still has to
/// consume, the scan discards everything.
proof fn lemma_strip_scan_short(delimiter: char, name: Seq<char>, consumed: nat)
    requires
        count_delimiters(delimiter, name) + consumed < 2,
    ensures
        strip_scan(delimiter, name, consumed) == Seq::<char>::empty(),
    decreases name.len(),
{
    if name.len() == 0 {
    } else {
        lemma_strip_scan_short(
            delimiter,
            name.drop_first(),
            if name[0] == delimiter { (consumed + 1) as nat } else { consumed },
        );
    }
}

/// A name with fewer than two delimiter occurrences strips to the empty
/// name.
pub proof fn lemma_strip_below_threshold(delimiter: char, name: Seq<char>)
    requires
        count_delimiters(delimiter, name) < 2,
    ensures
        strip_spec(delimiter, name) == Seq::<char>::empty(),
{
    lemma_strip_scan_short(delimiter, name, 0);
}

/// Strip is idempotent on any name with fewer than two delimiter
/// occurrences: stripping a second time changes nothing.
pub proof fn lemma_strip_idempotent_below_threshold(delimiter: char, name: Seq<char>)
    requires
        count_delimiters(delimiter, name) < 2,
    ensures
        strip_spec(delimiter, strip_spec(delimiter, name)) == strip_spec(delimiter, name),
{
    lemma_strip_below_threshold(delimiter, name);
    lemma_strip_below_threshold(delimiter, strip_spec(delimiter, name));
}

/// Applying the same prefix twice stacks it: the result carries the prefix
/// duplicated in front of the original name.
pub proof fn lemma_prefix_compose(prefix: Seq<char>, name: Seq<char>)
    ensures
        prefix_spec(prefix, prefix_spec(prefix, name)) == prefix + prefix + name,
{
    assert(prefix + (prefix + name) =~= prefix + prefix + name);
}

/// Prefixing is never idempotent for a non-empty prefix: applying it twice
/// yields a strictly longer name than applying it once.
pub proof fn lemma_prefix_not_idempotent(prefix: Seq<char>, name: Seq<char>)
    requires
        prefix.len() != 0,
    ensures
        prefix_spec(prefix, prefix_spec(prefix, name)) != prefix_spec(prefix, name),
{
    assert(prefix_spec(prefix, prefix_spec(prefix, name)).len() != prefix_spec(
        prefix,
        name,
    ).len());
}

} // verus!
