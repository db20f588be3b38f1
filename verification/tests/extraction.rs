use mbxc::extract::extract_metadata;

fn plain_message() -> Vec<u8> {
    b"From alice@example.com Mon Jan  1 00:00:00 2024\n\
From: Alice Example <alice@example.com>\n\
To: Bob <bob@example.com>, Carol <carol@example.com>\n\
Cc: dave@example.com\n\
Subject: Hello\n\
X-Gmail-Labels: Work,Kategorie Foren,Friends\n\
Date: Mon, 01 Jan 2024 10:00:00 +0000\n\
Message-ID: <m1@example.com>\n\
Content-Type: text/plain; charset=utf-8\n\
\n\
Just a short body.\n"
        .to_vec()
}

fn attachment_message() -> Vec<u8> {
    b"From sender@example.com Mon Jan  1 00:00:00 2024\n\
From: sender@example.com\n\
Subject: With file\n\
MIME-Version: 1.0\n\
Content-Type: multipart/mixed; boundary=\"XYZ\"\n\
\n\
--XYZ\n\
Content-Type: text/plain\n\
\n\
see attachment\n\
--XYZ\n\
Content-Type: application/pdf\n\
Content-Disposition: attachment; filename=\"report.pdf\"\n\
\n\
PDFDATA\n\
--XYZ--\n"
        .to_vec()
}

#[test]
fn extract_subject_decodes_encoded_word() {
    // the scenario: an encoded-word subject decodes in the produced entry
    let raw = b"From a\nSubject: =?UTF-8?Q?Caf=C3=A9?=\n\n".to_vec();
    let e = extract_metadata(&raw, "msg_000001.eml".to_string()).expect("parses");
    assert_eq!(e.subject.as_deref(), Some("Café"));
}

#[test]
fn extract_rfc822_size_is_exact_byte_length() {
    let raw = plain_message();
    let e = extract_metadata(&raw, "msg_000001.eml".to_string()).expect("parses");
    assert_eq!(e.rfc822_size, raw.len());
}

#[test]
fn extract_addresses_and_labels() {
    let raw = plain_message();
    let e = extract_metadata(&raw, "msg_000001.eml".to_string()).expect("parses");
    assert_eq!(e.sender_address.as_deref(), Some("alice@example.com"));
    assert_eq!(
        e.to_addresses.clone().unwrap(),
        vec!["bob@example.com".to_string(), "carol@example.com".to_string()]
    );
    assert_eq!(e.cc_addresses.clone().unwrap(), vec!["dave@example.com".to_string()]);
    // the category-marker label is discarded, order kept
    assert_eq!(e.gmail_labels.clone().unwrap(), vec!["Work".to_string(), "Friends".to_string()]);
    assert_eq!(e.message_id.as_deref(), Some("m1@example.com"));
    assert!(e.date_sent_iso.is_some());
    assert_eq!(e.internal_date, e.date_sent_iso);
}

#[test]
fn extract_has_attachment_iff_attachments_nonempty() {
    let plain = extract_metadata(&plain_message(), "a".to_string()).expect("parses");
    assert!(!plain.has_attachment);
    assert!(plain.attachments.is_none());

    let with = extract_metadata(&attachment_message(), "b".to_string()).expect("parses");
    assert!(with.has_attachment);
    let atts = with.attachments.expect("attachment list");
    assert!(!atts.is_empty());
    assert_eq!(atts[0].filename.as_deref(), Some("report.pdf"));
    // the parser reports the major type of the declared content type
    assert_eq!(atts[0].mime, "application");
    assert_eq!(atts[0].size, b"PDFDATA".len());
}

#[test]
fn extract_snippet_from_html_body() {
    // the scenario: a short HTML body yields the tag-stripped snippet
    let raw = b"From a\n\
From: x@example.com\n\
Subject: s\n\
Content-Type: text/html\n\
\n\
<p>Hello <b>World</b></p>\n"
        .to_vec();
    let e = extract_metadata(&raw, "c".to_string()).expect("parses");
    assert_eq!(e.snippet.as_deref(), Some("Hello World"));
}

#[test]
fn extract_snippet_truncates_at_150_chars() {
    let mut body = String::new();
    for _ in 0..40 {
        body.push_str("abcde");
    }
    let raw = format!("From a\nSubject: s\nContent-Type: text/plain\n\n{}", body).into_bytes();
    let e = extract_metadata(&raw, "d".to_string()).expect("parses");
    let snip = e.snippet.expect("snippet");
    assert_eq!(snip.chars().count(), 153);
    assert!(snip.ends_with("..."));
}

#[test]
fn extract_empty_bytes_give_nothing() {
    let raw: Vec<u8> = Vec::new();
    let r = extract_metadata(&raw, "e".to_string());
    assert!(r.is_none());
}
