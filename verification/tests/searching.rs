use mbxc::model::{MetadataEntry, Settings};
use mbxc::search::{collect_labels, list_labels, search_messages, SearchQuery};

fn entry(id: &str, subject: &str, sender: &str, labels: Vec<&str>, date: &str) -> MetadataEntry {
    MetadataEntry {
        id: id.to_string(),
        subject: Some(subject.to_string()),
        sender_name: Some(sender.to_string()),
        sender_address: Some(format!("{}@example.com", sender.to_lowercase())),
        to_addresses: None,
        cc_addresses: None,
        date_sent_iso: Some(date.to_string()),
        internal_date: Some(date.to_string()),
        gmail_labels: Some(labels.into_iter().map(|l| l.to_string()).collect()),
        rfc822_size: 100,
        message_id: None,
        has_attachment: false,
        snippet: None,
        attachments: None,
    }
}

fn empty_query() -> SearchQuery {
    SearchQuery {
        any: None,
        sender: None,
        subject: None,
        label: None,
        has_attachment: None,
        date_from: None,
        date_to: None,
        limit: None,
        offset: None,
    }
}

fn settings(special: Vec<&str>, hidden: Vec<&str>) -> Settings {
    Settings {
        zip_path: "a.mbxc".to_string(),
        filter_labels: Some(hidden.into_iter().map(|l| l.to_string()).collect()),
        special_labels: Some(special.into_iter().map(|l| l.to_string()).collect()),
        browser: None,
        source_path: None,
    }
}

fn archive() -> Vec<MetadataEntry> {
    vec![
        entry("msg_000001.eml", "Invoice March", "Alice", vec!["Work"], "2024-01-05T10:00:00Z"),
        entry("msg_000002.eml", "lunch plans", "Bob", vec!["Friends"], "2024-02-10T10:00:00Z"),
        entry("msg_000003.eml", "Invoice April", "Alice", vec!["Work", "Billing"], "2024-03-15T10:00:00Z"),
        entry("msg_000004.eml", "win a prize", "Mallory", vec!["Spam"], "2024-04-20T10:00:00Z"),
    ]
}

#[test]
fn special_labels_excluded_unless_targeted() {
    // the scenario: a Spam-labeled and a Work-labeled message, Spam special
    let st = settings(vec!["Spam"], vec![]);
    let entries = vec![
        entry("msg_000001.eml", "buy now", "Mallory", vec!["Spam"], "2024-01-01T00:00:00Z"),
        entry("msg_000002.eml", "report", "Alice", vec!["Work"], "2024-01-02T00:00:00Z"),
    ];
    let r = search_messages(&entries, &empty_query(), &st);
    assert_eq!(r.total, 1);
    assert_eq!(r.messages[0].id, "msg_000002.eml");

    let mut q = empty_query();
    q.label = Some("Spam".to_string());
    let r2 = search_messages(&entries, &q, &st);
    assert_eq!(r2.total, 1);
    assert_eq!(r2.messages[0].id, "msg_000001.eml");
}

#[test]
fn adding_filters_never_increases_total() {
    let st = settings(vec!["Spam"], vec![]);
    let entries = archive();
    let base = search_messages(&entries, &empty_query(), &st).total;

    let mut q1 = empty_query();
    q1.any = Some("invoice".to_string());
    let t1 = search_messages(&entries, &q1, &st).total;
    assert!(t1 <= base);

    let mut q2 = q1;
    q2.date_from = Some("2024-02-01".to_string());
    let t2 = search_messages(&entries, &q2, &st).total;
    assert!(t2 <= t1);

    let mut q3 = q2;
    q3.subject = Some("april".to_string());
    let t3 = search_messages(&entries, &q3, &st).total;
    assert!(t3 <= t2);
    assert_eq!(t3, 1);
}

#[test]
fn pagination_tiles_the_filtered_result() {
    let st = settings(vec![], vec![]);
    let entries = archive();
    let mut all_q = empty_query();
    all_q.limit = Some(100);
    let everything = search_messages(&entries, &all_q, &st);
    assert_eq!(everything.total, 4);

    let mut seen: Vec<String> = Vec::new();
    let limit = 3usize;
    let mut offset = 0usize;
    loop {
        let mut q = empty_query();
        q.limit = Some(limit);
        q.offset = Some(offset);
        let page = search_messages(&entries, &q, &st);
        if page.messages.is_empty() {
            break;
        }
        for m in &page.messages {
            seen.push(m.id.clone());
        }
        offset += limit;
    }
    let expected: Vec<String> = everything.messages.iter().map(|m| m.id.clone()).collect();
    assert_eq!(seen, expected);
}

#[test]
fn case_insensitive_filters() {
    let st = settings(vec![], vec![]);
    let entries = archive();
    let mut q = empty_query();
    q.subject = Some("INVOICE".to_string());
    assert_eq!(search_messages(&entries, &q, &st).total, 2);

    let mut q2 = empty_query();
    q2.sender = Some("alice@".to_string());
    assert_eq!(search_messages(&entries, &q2, &st).total, 2);
}

#[test]
fn date_range_is_inclusive_lexical() {
    let st = settings(vec![], vec![]);
    let entries = archive();
    let mut q = empty_query();
    q.date_from = Some("2024-02-10T10:00:00Z".to_string());
    q.date_to = Some("2024-03-15T10:00:00Z".to_string());
    let r = search_messages(&entries, &q, &st);
    assert_eq!(r.total, 2);
}

#[test]
fn hidden_labels_are_stripped_from_results() {
    let st = settings(vec![], vec!["Billing"]);
    let entries = archive();
    let mut q = empty_query();
    q.subject = Some("invoice april".to_string());
    let r = search_messages(&entries, &q, &st);
    assert_eq!(r.total, 1);
    assert_eq!(r.messages[0].gmail_labels.clone().unwrap(), vec!["Work".to_string()]);
}

#[test]
fn label_catalogue_sorted_and_catch_all_first() {
    let entries = archive();
    let labels = collect_labels(&entries);
    assert_eq!(
        labels,
        vec!["Billing".to_string(), "Friends".to_string(), "Spam".to_string(), "Work".to_string()]
    );
    let st = settings(vec![], vec!["Spam"]);
    let listed = list_labels(&labels, &st);
    assert_eq!(
        listed,
        vec![
            "Alle Mails".to_string(),
            "Billing".to_string(),
            "Friends".to_string(),
            "Work".to_string()
        ]
    );
}

#[test]
fn catch_all_label_is_always_first() {
    // even when the archive itself carries the catch-all label, it is
    // offered first and only once
    let entries = vec![entry(
        "msg_000001.eml",
        "s",
        "Alice",
        vec!["AAA", "Alle Mails"],
        "2024-01-01T00:00:00Z",
    )];
    let labels = collect_labels(&entries);
    assert_eq!(labels, vec!["AAA".to_string(), "Alle Mails".to_string()]);
    let st = settings(vec![], vec![]);
    let listed = list_labels(&labels, &st);
    assert_eq!(listed, vec!["Alle Mails".to_string(), "AAA".to_string()]);
}
