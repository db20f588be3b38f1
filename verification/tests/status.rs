use mbxc::model::{ConversionStatus, Settings};
use mbxc::writer::should_report;

#[test]
fn progress_percent_is_bytes_over_total() {
    let mut st = ConversionStatus::default();
    assert_eq!(st.progress_percent, 0);
    assert!(!st.is_running);
    st.record_progress(50, 200, 7);
    assert_eq!(st.progress_percent, 25);
    assert_eq!(st.current_message, 7);
    assert_eq!(st.total_bytes_read, 50);
    assert_eq!(st.total_bytes, 200);
    st.record_progress(200, 200, 9);
    assert_eq!(st.progress_percent, 100);
}

#[test]
fn progress_percent_keeps_old_value_without_a_total() {
    let mut st = ConversionStatus::default();
    st.record_progress(10, 100, 1);
    assert_eq!(st.progress_percent, 10);
    st.record_progress(20, 0, 2);
    assert_eq!(st.progress_percent, 10);
    assert_eq!(st.current_message, 2);
}

#[test]
fn report_cadence_every_250th_or_at_the_end() {
    assert!(should_report(250, 10, 100));
    assert!(should_report(500, 10, 100));
    assert!(!should_report(251, 10, 100));
    assert!(should_report(3, 100, 100));
    assert!(should_report(3, 150, 100));
}

#[test]
fn built_in_settings_defaults() {
    let s = Settings::fallback_default();
    assert_eq!(s.zip_path, "data/md_data.mbxc");
    assert_eq!(s.filter_labels, Some(vec![]));
    assert_eq!(
        s.special_labels,
        Some(vec![
            "Spam".to_string(),
            "Papierkorb".to_string(),
            "Gelöscht".to_string(),
            "Gesendet".to_string()
        ])
    );
    assert!(s.browser.is_none());
    assert!(s.source_path.is_none());
}
