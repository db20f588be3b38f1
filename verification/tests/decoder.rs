use mbxc::headers::decode_header_robust;
use mbxc::extract::strip_html;

#[test]
fn decode_plain_value_unchanged() {
    assert_eq!(decode_header_robust("Hello World"), "Hello World");
    assert_eq!(decode_header_robust("Café déjà vu"), "Café déjà vu");
    assert_eq!(decode_header_robust(""), "");
}

#[test]
fn decode_is_idempotent_on_decoded_output() {
    let once = decode_header_robust("=?UTF-8?Q?Caf=C3=A9?=");
    assert_eq!(once, "Café");
    let twice = decode_header_robust(&once);
    assert_eq!(twice, once);
}

#[test]
fn decode_quoted_printable_word() {
    assert_eq!(decode_header_robust("=?UTF-8?Q?Hello_World?="), "Hello World");
    assert_eq!(decode_header_robust("=?utf-8?q?Caf=C3=A9?="), "Café");
}

#[test]
fn decode_base64_word() {
    // "SGVsbG8=" is the standard-alphabet encoding of "Hello"
    assert_eq!(decode_header_robust("=?UTF-8?B?SGVsbG8=?="), "Hello");
}

#[test]
fn decode_bad_base64_keeps_token() {
    let v = "=?UTF-8?B?!!!?=";
    assert_eq!(decode_header_robust(v), v);
}

#[test]
fn decode_unfolds_header_lines() {
    assert_eq!(decode_header_robust("Hello\r\n World"), "Hello World");
    assert_eq!(decode_header_robust("a\nb"), "ab");
}

#[test]
fn decode_collapses_space_between_encoded_words() {
    let v = "=?UTF-8?Q?Hello?= =?UTF-8?Q?World?=";
    assert_eq!(decode_header_robust(v), "HelloWorld");
}

#[test]
fn decode_malformed_word_missing_equals() {
    // the fallback pass still decodes a word whose leading `=` is missing
    assert_eq!(decode_header_robust("?UTF-8?Q?Caf=C3=A9?="), "Café");
}

#[test]
fn decode_mixed_text_around_word() {
    assert_eq!(decode_header_robust("Re: =?UTF-8?Q?Caf=C3=A9?= menu"), "Re: Café menu");
}

#[test]
fn strip_html_removes_tags() {
    assert_eq!(strip_html("<p>Hello <b>World</b></p>"), "Hello World");
}

#[test]
fn strip_html_removes_script_and_style_blocks() {
    assert_eq!(strip_html("a<script>alert(1)</script>b"), "ab");
    assert_eq!(strip_html("a<style>p{}</style>b"), "ab");
}

#[test]
fn strip_html_unescapes_entities() {
    assert_eq!(strip_html("a&nbsp;&amp;&lt;&gt;&quot;z"), "a &<>\"z");
}
