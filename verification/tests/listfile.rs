use wclean::listfile::parse_list;
use wclean::listfile::serialize_list;
use wclean::listfile::trim_str;
use wclean::xml::extract_records;
use wclean::xml::XmlRecord;

fn strings(v: &[&str]) -> Vec<String> {
    v.iter().map(|s| s.to_string()).collect()
}

#[test]
fn write_then_read_reproduces_the_list() {
    let list = strings(&["R\\Originals\\SFX\\a.wav", "R\\Originals\\Voices\\En\\b.wav"]);
    let text = serialize_list(&list);
    assert_eq!(text, "R\\Originals\\SFX\\a.wav\nR\\Originals\\Voices\\En\\b.wav");
    assert_eq!(parse_list(&text), list);
}

#[test]
fn empty_list_round_trips() {
    let text = serialize_list(&Vec::new());
    assert_eq!(text, "");
    assert_eq!(parse_list(&text), Vec::<String>::new());
}

#[test]
fn replay_list_is_read_line_by_line() {
    let entries = parse_list("R/Originals/SFX/exists.wav\nR/Originals/SFX/missing.wav");
    assert_eq!(
        entries,
        strings(&["R/Originals/SFX/exists.wav", "R/Originals/SFX/missing.wav"])
    );
}

#[test]
fn lines_are_trimmed_and_blanks_kept() {
    let entries = parse_list("  a.wav \r\n\nb.wav\n");
    assert_eq!(entries, strings(&["a.wav", "", "b.wav"]));
}

#[test]
fn trimming() {
    assert_eq!(trim_str("  spaced  "), "spaced");
    assert_eq!(trim_str("\t\r\n"), "");
    assert_eq!(trim_str("solid"), "solid");
    assert_eq!(trim_str("\u{2003}wide\u{3000}"), "wide");
}

fn elem(id: u32, parent: u32, tag: &str, text: Option<&str>) -> XmlRecord {
    XmlRecord {
        id,
        parent: Some(parent),
        is_element: true,
        tag: tag.to_string(),
        text: text.map(|s| s.to_string()),
    }
}

#[test]
fn extraction_over_flat_records() {
    // a document root holding two references, the second without any
    // language sibling
    let root = XmlRecord {
        id: 0,
        parent: None,
        is_element: false,
        tag: String::new(),
        text: None,
    };
    let recs = vec![
        root,
        elem(1, 0, "WorkUnit", None),
        elem(2, 1, "Sound", None),
        elem(3, 2, "Language", Some("Polish")),
        elem(4, 2, "AudioFile", Some("dlg/a.wav")),
        elem(5, 1, "Sound", None),
        elem(6, 5, "AudioFile", Some("orphan.wav")),
    ];
    let refs = extract_records("R", &recs);
    assert_eq!(refs, strings(&["R\\Originals\\Voices\\Polish\\dlg/a.wav"]));
}

#[test]
fn language_sibling_without_text_is_skipped() {
    let recs = vec![
        elem(1, 0, "WorkUnit", None),
        elem(2, 1, "Sound", None),
        elem(3, 2, "Language", None),
        elem(4, 2, "AudioFile", Some("a.wav")),
    ];
    // record 1's parent (id 0) is absent from the list, which also exercises
    // the missing-parent path for nothing-contributing records
    let refs = extract_records("R", &recs);
    assert_eq!(refs, Vec::<String>::new());
}
