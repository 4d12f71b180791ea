use pg_fibertools::dict::{transform_dictionary, ReferenceDictionary};
use pg_fibertools::names::{prefix_name, strip_name, transform_name, PanSpecMode};

#[test]
fn strip_exact_behavior() {
    assert_eq!(strip_name('#', "GM12878#1#chr1#100"), "chr1#100");
}

#[test]
fn strip_keeps_later_delimiters_verbatim() {
    assert_eq!(strip_name('#', "a#b#c#d#e"), "c#d#e");
}

#[test]
fn strip_consumes_everything_below_threshold() {
    // Fewer than two delimiters: the scan never reaches its threshold, so
    // every character is consumed.
    assert_eq!(strip_name('#', "chr1"), "");
    assert_eq!(strip_name('#', "sample#chr1"), "");
    assert_eq!(strip_name('#', ""), "");
}

#[test]
fn strip_idempotent_below_threshold() {
    for name in ["chr1", "sample#chr1", ""] {
        let once = strip_name('#', name);
        let twice = strip_name('#', &once);
        assert_eq!(twice, once);
    }
}

#[test]
fn strip_with_other_delimiter() {
    assert_eq!(strip_name(':', "GM12878:1:chr1#100"), "chr1#100");
}

#[test]
fn prefix_exact_behavior() {
    assert_eq!(prefix_name("CHM13#0#", "chr1"), "CHM13#0#chr1");
}

#[test]
fn prefix_twice_duplicates_prefix() {
    let once = prefix_name("CHM13#0#", "chr1");
    let twice = prefix_name("CHM13#0#", &once);
    assert_eq!(twice, "CHM13#0#CHM13#0#chr1");
    assert_ne!(twice, once);
}

#[test]
fn transform_name_follows_mode() {
    let strip = PanSpecMode::Strip('#');
    assert_eq!(transform_name(&strip, "GM12878#1#chr1"), "chr1");
    let prefix = PanSpecMode::Prefix(String::from("GM12878#1#"));
    assert_eq!(transform_name(&prefix, "chr1"), "GM12878#1#chr1");
}

#[test]
fn dictionary_transform_keeps_index_space() {
    let mut dict = ReferenceDictionary::new();
    dict.push_entry(String::from("GM12878#1#chr1"), 248_387_328);
    dict.push_entry(String::from("GM12878#1#chr2"), 242_696_752);
    dict.push_entry(String::from("GM12878#2#chr1"), 248_000_000);
    assert_eq!(dict.len(), 3);

    let stripped = transform_dictionary(&PanSpecMode::Strip('#'), &dict);
    assert_eq!(stripped.entries.len(), 3);
    assert_eq!(stripped.entries[0].name, "chr1");
    assert_eq!(stripped.entries[1].name, "chr2");
    assert_eq!(stripped.entries[2].name, "chr1");
    assert_eq!(stripped.entries[0].length, 248_387_328);
    assert_eq!(stripped.entries[1].length, 242_696_752);
    assert_eq!(stripped.entries[2].length, 248_000_000);
}

#[test]
fn dictionary_prefix_transform() {
    let mut dict = ReferenceDictionary::new();
    dict.push_entry(String::from("chr1"), 7);
    let prefixed = transform_dictionary(&PanSpecMode::Prefix(String::from("CHM13#0#")), &dict);
    assert_eq!(prefixed.entries.len(), 1);
    assert_eq!(prefixed.entries[0].name, "CHM13#0#chr1");
    assert_eq!(prefixed.entries[0].length, 7);
}
