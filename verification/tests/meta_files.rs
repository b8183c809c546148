use searchmonkey::meta::{SmGenerator, SmMeta, SmRange, SmRangeType, SmSource, SmText};

fn range(kind: SmRangeType, start: u64, end: u64) -> SmRange {
    SmRange {
        kind,
        start,
        end,
        index: None,
        page: None,
        level: None,
        label: None,
        hints: Vec::new(),
        confidence_ok: true,
    }
}

fn meta(ranges: Vec<SmRange>) -> SmMeta {
    SmMeta {
        schema: "sm.meta.v1".to_string(),
        source: SmSource {
            path: "/tmp/report.pdf".to_string(),
            size: 42,
            mtime: "2026-05-10T11:22:33Z".to_string(),
            hash: None,
        },
        generator: SmGenerator {
            plugin_id: "sm.plugin.pdf".to_string(),
            plugin_version: "1.2.3".to_string(),
            settings_hash: None,
            engine: None,
        },
        text: SmText {
            path: "/tmp/report.pdf.sm.txt".to_string(),
            encoding: "utf-8".to_string(),
            length_bytes: None,
            mtime: None,
            hash: None,
            offsets: Some("utf8-bytes".to_string()),
        },
        ranges,
        warnings: Vec::new(),
    }
}

#[test]
fn parses_valid_meta_and_picks_smallest_range() {
    let mut page = range(SmRangeType::Page, 0, 200);
    page.page = Some(7);
    let paragraph = range(SmRangeType::Paragraph, 20, 80);
    let mut block = range(SmRangeType::Block, 30, 40);
    block.index = Some(3);
    let meta = meta(vec![page, paragraph, block]);
    assert!(meta.validate().is_ok());

    let context = meta.context_for_offset(35).unwrap();
    assert_eq!(context.page.unwrap().page, Some(7));
    assert_eq!(context.smallest.kind, SmRangeType::Block);
    assert_eq!(context.smallest.index, Some(3));
}

#[test]
fn rejects_invalid_ranges() {
    let mut page = range(SmRangeType::Page, 40, 40);
    page.page = Some(1);
    let mut meta = meta(vec![page]);
    meta.text.offsets = None;
    let error = meta.validate().unwrap_err();
    assert!(error.contains("start < end"));
}

#[test]
fn reports_the_first_bad_range_by_index() {
    let good = range(SmRangeType::Block, 0, 5);
    let mut zero_page = range(SmRangeType::Page, 0, 9);
    zero_page.page = Some(0);
    let mut zero_level = range(SmRangeType::Heading, 0, 9);
    zero_level.level = Some(0);
    let meta1 = meta(vec![good, zero_page, zero_level]);
    assert_eq!(meta1.validate().unwrap_err(), "range 1 page must be >= 1");

    let mut unsure = range(SmRangeType::Block, 0, 9);
    unsure.confidence_ok = false;
    let meta2 = meta(vec![unsure]);
    assert_eq!(meta2.validate().unwrap_err(), "range 0 confidence must be between 0 and 1");
}

#[test]
fn checks_header_fields_in_order() {
    let mut m = meta(Vec::new());
    m.schema = "sm.meta.v2".to_string();
    assert_eq!(
        m.validate().unwrap_err(),
        "unsupported .sm.meta schema \"sm.meta.v2\"; expected sm.meta.v1"
    );

    let mut m = meta(Vec::new());
    m.source.mtime = "yesterday".to_string();
    assert_eq!(m.validate().unwrap_err(), "source.mtime must be RFC 3339");

    let mut m = meta(Vec::new());
    m.source.hash = Some("md5:abc".to_string());
    assert_eq!(m.validate().unwrap_err(), "source.hash must start with sha256:");

    let mut m = meta(Vec::new());
    m.generator.settings_hash = Some("sha256:abc".to_string());
    assert_eq!(
        m.validate().unwrap_err(),
        "generator.settings_hash must contain 64 hex characters"
    );

    let mut m = meta(Vec::new());
    m.text.hash = Some(format!("sha256:{}", "aB3".repeat(21) + "f"));
    assert!(m.validate().is_ok());

    let mut m = meta(Vec::new());
    m.text.encoding = "latin-1".to_string();
    assert_eq!(m.validate().unwrap_err(), "text.encoding must be utf-8");

    let mut m = meta(Vec::new());
    m.text.offsets = Some("chars".to_string());
    assert_eq!(m.validate().unwrap_err(), "text.offsets must be utf8-bytes when present");

    let mut m = meta(Vec::new());
    m.text.mtime = Some("2026-13-99".to_string());
    assert_eq!(m.validate().unwrap_err(), "text.mtime must be RFC 3339");

    let mut m = meta(Vec::new());
    m.generator.plugin_version = "  ".to_string();
    assert_eq!(m.validate().unwrap_err(), "generator.plugin_version must not be empty");
}

#[test]
fn context_prefers_specific_kinds_on_equal_lengths() {
    let section = range(SmRangeType::Section, 10, 20);
    let heading = range(SmRangeType::Heading, 10, 20);
    let m = meta(vec![section, heading]);
    let context = m.context_for_offset(15).unwrap();
    assert_eq!(context.smallest.kind, SmRangeType::Heading);
    assert!(context.page.is_none());
    assert!(m.context_for_offset(20).is_none());
}
