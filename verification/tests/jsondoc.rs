use mbxc::jsonout::json_metadata;
use mbxc::writer::convert_stream;

fn sample_archive_entries() -> Vec<mbxc::model::MetadataEntry> {
    let mut input = Vec::new();
    input.extend_from_slice(
        b"From a\nFrom: Alice <alice@example.com>\nTo: bob@example.com\nSubject: Hi \"you\"\nX-Gmail-Labels: Work\n\nhello\n",
    );
    input.extend_from_slice(
        b"From b\n\
From: sender@example.com\n\
Subject: file\n\
MIME-Version: 1.0\n\
Content-Type: multipart/mixed; boundary=\"QQ\"\n\
\n\
--QQ\n\
Content-Type: text/plain\n\
\n\
body\n\
--QQ\n\
Content-Type: application/pdf\n\
Content-Disposition: attachment; filename=\"r.pdf\"\n\
\n\
DATA\n\
--QQ--\n",
    );
    let flag = std::sync::atomic::AtomicBool::new(false);
    let (_, c) = convert_stream(&input, &flag);
    assert_eq!(c.entries.len(), 2);
    c.entries
}

#[test]
fn metadata_json_parses_and_mirrors_the_entries() {
    let entries = sample_archive_entries();
    let doc = json_metadata(&entries);
    let v: serde_json::Value = serde_json::from_str(&doc).expect("valid JSON");
    let arr = v.as_array().expect("array");
    assert_eq!(arr.len(), 2);

    assert_eq!(arr[0]["id"], "msg_000001.eml");
    assert_eq!(arr[0]["subject"], "Hi \"you\"");
    assert_eq!(arr[0]["sender_address"], "alice@example.com");
    assert_eq!(arr[0]["to_addresses"][0], "bob@example.com");
    assert_eq!(arr[0]["gmail_labels"][0], "Work");
    assert_eq!(arr[0]["has_attachment"], false);
    assert!(arr[0]["attachments"].is_null());
    assert!(arr[0]["cc_addresses"].is_null());
    assert_eq!(arr[0]["rfc822_size"].as_u64().unwrap(), entries[0].rfc822_size as u64);

    assert_eq!(arr[1]["id"], "msg_000002.eml");
    assert_eq!(arr[1]["has_attachment"], true);
    assert_eq!(arr[1]["attachments"][0]["filename"], "r.pdf");
    assert_eq!(arr[1]["attachments"][0]["size"].as_u64().unwrap(), 4);
}

#[test]
fn metadata_json_escapes_control_characters() {
    let mut entries = sample_archive_entries();
    entries.truncate(1);
    entries[0].subject = Some("a\"b\\c\nd\te\u{1}f".to_string());
    let doc = json_metadata(&entries);
    let v: serde_json::Value = serde_json::from_str(&doc).expect("valid JSON");
    assert_eq!(v[0]["subject"].as_str().unwrap(), "a\"b\\c\nd\te\u{1}f");
}

#[test]
fn metadata_json_of_empty_index_is_empty_array() {
    let entries: Vec<mbxc::model::MetadataEntry> = Vec::new();
    assert_eq!(json_metadata(&entries), "[]");
}
