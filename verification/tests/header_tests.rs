use pg_fibertools::header::{
    add_pan_spec_header, strip_pan_spec_header, transform_header, HeaderLine, HeaderTag,
};
use pg_fibertools::names::PanSpecMode;

fn tag(key: &str, value: &str) -> HeaderTag {
    HeaderTag { key: String::from(key), value: String::from(value) }
}

fn sq_line(name: &str, length: &str) -> HeaderLine {
    HeaderLine { kind: String::from("SQ"), tags: vec![tag("SN", name), tag("LN", length)] }
}

#[test]
fn strip_header_rewrites_only_names() {
    let header = vec![
        HeaderLine { kind: String::from("HD"), tags: vec![tag("VN", "1.6"), tag("SO", "unknown")] },
        sq_line("GM12878#1#chr1", "248387328"),
        sq_line("GM12878#1#chr2", "242696752"),
        HeaderLine { kind: String::from("PG"), tags: vec![tag("ID", "aligner")] },
    ];
    let out = strip_pan_spec_header(&header, '#').unwrap();
    assert_eq!(out.len(), 4);
    // Non-reference lines pass through unmodified.
    assert_eq!(out[0], header[0]);
    assert_eq!(out[3], header[3]);
    // Reference lines keep every field except the rewritten name value.
    assert_eq!(out[1].kind, "SQ");
    assert_eq!(out[1].tags[0], tag("SN", "chr1"));
    assert_eq!(out[1].tags[1], tag("LN", "248387328"));
    assert_eq!(out[2].tags[0], tag("SN", "chr2"));
    assert_eq!(out[2].tags[1], tag("LN", "242696752"));
}

#[test]
fn add_header_prepends_prefix() {
    let header = vec![sq_line("chr1", "248387328")];
    let out = add_pan_spec_header(&header, "CHM13#0#").unwrap();
    assert_eq!(out[0].tags[0], tag("SN", "CHM13#0#chr1"));
    assert_eq!(out[0].tags[1], tag("LN", "248387328"));
}

#[test]
fn missing_name_field_is_fatal() {
    let header = vec![
        sq_line("GM12878#1#chr1", "100"),
        HeaderLine { kind: String::from("SQ"), tags: vec![tag("LN", "200")] },
        sq_line("GM12878#1#chr3", "300"),
    ];
    let err = strip_pan_spec_header(&header, '#').unwrap_err();
    assert_eq!(err.line_index, 1);
    let err = add_pan_spec_header(&header, "CHM13#0#").unwrap_err();
    assert_eq!(err.line_index, 1);
}

#[test]
fn transform_header_with_mode_value() {
    let header = vec![sq_line("HG002#2#chrX", "154259566")];
    let out = transform_header(&PanSpecMode::Strip('#'), &header).unwrap();
    assert_eq!(out[0].tags[0], tag("SN", "chrX"));
    let out = transform_header(&PanSpecMode::Prefix(String::from("HG002#2#")), &header).unwrap();
    assert_eq!(out[0].tags[0], tag("SN", "HG002#2#HG002#2#chrX"));
}

#[test]
fn header_without_reference_lines_is_unchanged() {
    let header = vec![HeaderLine {
        kind: String::from("CO"),
        tags: vec![tag("XX", "a#b#c")],
    }];
    let out = strip_pan_spec_header(&header, '#').unwrap();
    assert_eq!(out, header);
}

#[test]
fn empty_header_transforms_to_empty() {
    let header: Vec<HeaderLine> = vec![];
    assert_eq!(strip_pan_spec_header(&header, '#').unwrap(), vec![]);
    assert_eq!(add_pan_spec_header(&header, "CHM13#0#").unwrap(), vec![]);
}
