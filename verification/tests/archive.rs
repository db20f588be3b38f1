use std::io::Read;
use mbxc::model::Settings;
use mbxc::reader::{FetchError, Reader};
use mbxc::writer::{build_container, convert_stream, fmt_msg_id, Conversion, ConvertOutcome,
    StepResult};

fn settings() -> Settings {
    Settings {
        zip_path: "a.mbxc".to_string(),
        filter_labels: Some(vec![]),
        special_labels: Some(vec![]),
        browser: None,
        source_path: None,
    }
}

fn three_message_mbox() -> Vec<u8> {
    let mut v = Vec::new();
    v.extend_from_slice(b"From a\nFrom: one@example.com\nSubject: first\n\nbody one\n");
    v.extend_from_slice(b"From b\nFrom: two@example.com\nSubject: second\n\nbody two\n");
    v.extend_from_slice(b"From c\nFrom: three@example.com\nSubject: third\n\nbody three\n");
    v
}

fn attachment_message() -> Vec<u8> {
    b"From s\n\
From: sender@example.com\n\
Subject: With file\n\
MIME-Version: 1.0\n\
Content-Type: multipart/mixed; boundary=\"XYZ\"\n\
\n\
--XYZ\n\
Content-Type: text/plain\n\
\n\
see attachment\n\
--XYZ\n\
Content-Type: application/pdf\n\
Content-Disposition: attachment; filename=\"report.pdf\"\n\
\n\
PDFDATA\n\
--XYZ--\n"
        .to_vec()
}

#[test]
fn message_id_formatting() {
    assert_eq!(fmt_msg_id(1), "msg_000001.eml");
    assert_eq!(fmt_msg_id(42), "msg_000042.eml");
    assert_eq!(fmt_msg_id(999999), "msg_999999.eml");
    assert_eq!(fmt_msg_id(1234567), "msg_1234567.eml");
}

#[test]
fn conversion_completes_without_cancellation() {
    let input = three_message_mbox();
    let flag = std::sync::atomic::AtomicBool::new(false);
    let (outcome, c) = convert_stream(&input, &flag);
    assert!(matches!(outcome, ConvertOutcome::Completed));
    assert_eq!(c.entries.len(), 3);
    assert_eq!(c.entries[0].id, "msg_000001.eml");
    assert_eq!(c.entries[2].id, "msg_000003.eml");
    let (done, total, count) = c.progress();
    assert_eq!(done, total);
    assert_eq!(count, 3);
}

#[test]
fn cancellation_after_first_message_truncates_archive() {
    // the scenario: the flag turns on after the first of three messages
    let input = three_message_mbox();
    let mut c = Conversion::start(&input);
    assert!(matches!(c.step(false), StepResult::Progressed));
    assert!(matches!(c.step(true), StepResult::Cancelled));
    assert_eq!(c.entries.len(), 1);
    assert_eq!(c.stored_blobs.len(), 1);
    assert_eq!(c.entries[0].id, "msg_000001.eml");

    let json = b"[]".to_vec();
    let db = b"not a real database".to_vec();
    let bytes = build_container(&c, &json, &db).expect("container");
    let mut za = zip::ZipArchive::new(std::io::Cursor::new(bytes)).expect("readable");
    let names: Vec<String> = za.file_names().map(|s| s.to_string()).collect();
    assert!(names.contains(&"msg_000001.eml".to_string()));
    assert!(!names.contains(&"msg_000002.eml".to_string()));
    assert!(names.contains(&"metadata.json".to_string()));
    assert!(names.contains(&"metadata.db".to_string()));
    let mut stored = Vec::new();
    za.by_name("msg_000001.eml").unwrap().read_to_end(&mut stored).unwrap();
    assert_eq!(stored, c.stored_blobs[0]);
}

#[test]
fn aborted_before_anything_stores_nothing() {
    let input = three_message_mbox();
    let flag = std::sync::atomic::AtomicBool::new(true);
    let (outcome, c) = convert_stream(&input, &flag);
    assert!(matches!(outcome, ConvertOutcome::Aborted));
    assert_eq!(c.entries.len(), 0);
}

#[test]
fn container_round_trips_messages_and_metadata_parts() {
    let input = three_message_mbox();
    let flag = std::sync::atomic::AtomicBool::new(false);
    let (_, c) = convert_stream(&input, &flag);
    let json = b"[{\"id\":\"x\"}]".to_vec();
    let db = mbxc::dbio::build_database(&c.entries).expect("database image");
    let bytes = build_container(&c, &json, &db).expect("container");

    let mut za = zip::ZipArchive::new(std::io::Cursor::new(bytes)).expect("readable");
    let mut got_json = Vec::new();
    za.by_name("metadata.json").unwrap().read_to_end(&mut got_json).unwrap();
    assert_eq!(got_json, json);
    let mut got_db = Vec::new();
    za.by_name("metadata.db").unwrap().read_to_end(&mut got_db).unwrap();
    assert_eq!(got_db, db);
    let mut first = Vec::new();
    za.by_name("msg_000001.eml").unwrap().read_to_end(&mut first).unwrap();
    assert!(first.starts_with(b"From a\n"));
}

#[test]
fn database_image_holds_one_row_per_entry() {
    let input = three_message_mbox();
    let flag = std::sync::atomic::AtomicBool::new(false);
    let (_, c) = convert_stream(&input, &flag);
    let db = mbxc::dbio::build_database(&c.entries).expect("database image");

    let mut conn = rusqlite::Connection::open_in_memory().unwrap();
    let len = db.len();
    conn.deserialize_read_exact(rusqlite::MAIN_DB, std::io::Cursor::new(db), len, true)
        .expect("image loads");
    let n: i64 = conn.query_row("SELECT COUNT(*) FROM messages", [], |r| r.get(0)).unwrap();
    assert_eq!(n, 3);
    let subj: String = conn
        .query_row("SELECT subject FROM messages WHERE id = 'msg_000002.eml'", [], |r| r.get(0))
        .unwrap();
    assert_eq!(subj, "second");
    let f: i64 = conn.query_row("SELECT COUNT(*) FROM messages_fts", [], |r| r.get(0)).unwrap();
    assert_eq!(f, 3);
}

#[test]
fn reader_serves_message_detail() {
    let input = three_message_mbox();
    let flag = std::sync::atomic::AtomicBool::new(false);
    let (_, c) = convert_stream(&input, &flag);
    let entries = c.entries.iter().map(mbxc::model::clone_entry).collect::<Vec<_>>();
    let bytes = build_container(&c, &b"[]".to_vec(), &b"db".to_vec()).expect("container");
    let mut rd = Reader::open(bytes, entries, settings()).expect("opens");

    let detail = rd.get_message(&"msg_000002.eml".to_string()).expect("found");
    assert_eq!(detail.subject, "second");
    assert_eq!(detail.from_line, "two@example.com <two@example.com>");
    // the parser offers an HTML rendering even for plain-text bodies
    assert!(detail.is_html);
    assert!(detail.body.contains("body two"));

    let missing = rd.get_message(&"msg_000009.eml".to_string());
    assert!(matches!(missing, Err(FetchError::NotFound)));
}

#[test]
fn attachment_lookup_not_found_is_not_a_fault() {
    // the scenario: asking for a filename the message does not carry
    let input = attachment_message();
    let flag = std::sync::atomic::AtomicBool::new(false);
    let (_, c) = convert_stream(&input, &flag);
    assert_eq!(c.entries.len(), 1);
    let entries = c.entries.iter().map(mbxc::model::clone_entry).collect::<Vec<_>>();
    let bytes = build_container(&c, &b"[]".to_vec(), &b"db".to_vec()).expect("container");
    let mut rd = Reader::open(bytes, entries, settings()).expect("opens");

    let id = "msg_000001.eml".to_string();
    let hit = rd.get_attachment(&id, &"report.pdf".to_string()).expect("attachment");
    assert_eq!(hit.content_type, "application");
    assert_eq!(hit.bytes, b"PDFDATA".to_vec());

    let miss = rd.get_attachment(&id, &"absent.bin".to_string());
    assert!(matches!(miss, Err(FetchError::NotFound)));

    let no_such_msg = rd.get_attachment(&"msg_000099.eml".to_string(), &"report.pdf".to_string());
    assert!(matches!(no_such_msg, Err(FetchError::NotFound)));
}

#[test]
fn reader_lists_labels_with_catch_all() {
    let raw = b"From a\nFrom: x@example.com\nSubject: s\nX-Gmail-Labels: Work\n\nhello\n".to_vec();
    let flag = std::sync::atomic::AtomicBool::new(false);
    let (_, c) = convert_stream(&raw, &flag);
    let entries = c.entries.iter().map(mbxc::model::clone_entry).collect::<Vec<_>>();
    let bytes = build_container(&c, &b"[]".to_vec(), &b"db".to_vec()).expect("container");
    let rd = Reader::open(bytes, entries, settings()).expect("opens");
    let labels = rd.list_labels();
    assert_eq!(labels, vec!["Alle Mails".to_string(), "Work".to_string()]);
}
