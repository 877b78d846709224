use wn_alerts::utils::html::{
    decode_html_entities, escape_html, format_parsed_date, format_pub_date, strip_html_tags,
    truncate_html_safe,
};

#[test]
fn decode_all_standard_entities() {
    let input = "&amp; &lt; &gt; &quot; &#39; &nbsp;";
    let expected = "& < > \" '  ";
    assert_eq!(decode_html_entities(input), expected);
}

#[test]
fn decode_plain_text_passes_through() {
    assert_eq!(decode_html_entities("No entities"), "No entities");
}

#[test]
fn escape_special_chars() {
    let input = "<b>hello & world</b>";
    let expected = "&lt;b&gt;hello &amp; world&lt;/b&gt;";
    assert_eq!(escape_html(input), expected);
}

#[test]
fn escape_plain_text_passes_through() {
    assert_eq!(escape_html("No special characters"), "No special characters");
}

#[test]
fn strip_inline_tags_preserves_text() {
    assert_eq!(strip_html_tags("<b>bold</b> and <i>italic</i>"), "bold and italic");
}

#[test]
fn strip_block_tags_adds_newlines() {
    assert_eq!(strip_html_tags("<p>First</p><p>Second</p>"), "First\n\nSecond");
}

#[test]
fn strip_br_adds_newline() {
    assert_eq!(strip_html_tags("line one<br>line two"), "line one\nline two");
    assert_eq!(strip_html_tags("line one<br />line two"), "line one\nline two");
}

#[test]
fn strip_decodes_entities_in_text() {
    assert_eq!(strip_html_tags("a &amp; b"), "a & b");
    assert_eq!(strip_html_tags("<p>a &amp; b</p>"), "a & b");
}

#[test]
fn strip_collapses_excessive_newlines() {
    let input = "<p>A</p><p></p><p></p><p>B</p>";
    let result = strip_html_tags(input);
    assert!(!result.contains("\n\n\n"));
}

#[test]
fn strip_var_tags_keeps_content() {
    let input = "Jun <var data-var='date'>29</var>, <var data-var='time'>06:00</var>";
    assert_eq!(strip_html_tags(input), "Jun 29, 06:00");
}

#[test]
fn strip_twilio_style_description() {
    let input = "<p><strong>SCHEDULED EVENT Jun <var data-var='date'>29</var></strong></p> \
                 <p><small>May 28</small><br>Maintenance window.</p>";
    let result = strip_html_tags(input);
    assert!(result.contains("SCHEDULED EVENT Jun 29"));
    assert!(result.contains("May 28"));
    assert!(result.contains("Maintenance window."));
    assert!(!result.contains('<'));
    assert!(!result.contains('>'));
}

#[test]
fn strip_empty_string() {
    assert_eq!(strip_html_tags(""), "");
}

#[test]
fn strip_plain_text_passes_through() {
    assert_eq!(strip_html_tags("No tags here"), "No tags here");
}

#[test]
fn truncate_under_limit_passes_through() {
    assert_eq!(truncate_html_safe("hello", 10), "hello");
    assert_eq!(truncate_html_safe("hello", 5), "hello");
}

#[test]
fn truncate_cuts_to_max_chars() {
    assert_eq!(truncate_html_safe("abcdef", 3), "abc");
}

#[test]
fn truncate_counts_chars_not_bytes() {
    assert_eq!(truncate_html_safe("éééé", 2), "éé");
}

#[test]
fn truncate_does_not_split_entity() {
    assert_eq!(truncate_html_safe("ab&amp;cd", 4), "ab");
    assert_eq!(truncate_html_safe("ab&amp;cd", 5), "ab");
    assert_eq!(truncate_html_safe("ab&amp;cd", 6), "ab");
}

#[test]
fn truncate_keeps_complete_entity() {
    assert_eq!(truncate_html_safe("ab&amp;cd", 7), "ab&amp;");
}

#[test]
fn strip_trims_surrounding_whitespace_and_unclosed_tag_text() {
    assert_eq!(strip_html_tags("  \u{a0}<div>x</div>\t"), "x");
    assert_eq!(strip_html_tags("kept <unclosed tag"), "kept");
}

#[test]
fn strip_heading_tags_break_lines() {
    assert_eq!(strip_html_tags("a<h1>b</h1>c"), "a\nb\nc");
    assert_eq!(strip_html_tags("<h6 class=x>t</h6>"), "t");
    assert_eq!(strip_html_tags("a<h7>b"), "ab");
}

#[test]
fn decode_runs_passes_in_order() {
    // `&amp;lt;` becomes `&lt;` in the first pass and `<` in the second.
    assert_eq!(decode_html_entities("&amp;lt;"), "<");
}

#[test]
fn escape_then_decode_restores_text_without_ampersands() {
    let text = "if a < b && c > d";
    let plain = "if a < b or c > d";
    assert_eq!(decode_html_entities(&escape_html(plain)), plain);
    assert_ne!(escape_html(text), text);
}

#[test]
fn format_valid_rfc2822() {
    let result = format_pub_date("Thu, 21 May 2026 18:00:00 GMT");
    assert_eq!(result, "2026-05-21 18:00 UTC");
}

#[test]
fn format_invalid_date_returns_original() {
    assert_eq!(format_pub_date("not a date"), "not a date");
}

#[test]
fn format_empty_string() {
    assert_eq!(format_pub_date(""), "");
}

#[test]
fn format_keeps_the_timestamps_own_offset() {
    assert_eq!(format_pub_date("Mon, 01 Jun 2026 09:05:00 +0200"), "2026-06-01 09:05 UTC");
    assert_eq!(format_pub_date("1 Jan 05 00:00 GMT"), "2005-01-01 00:00 UTC");
}

#[test]
fn formats_parsed_fields_with_padding() {
    assert_eq!(format_parsed_date("x", Some((2026, 5, 21, 18, 0))), "2026-05-21 18:00 UTC");
    assert_eq!(format_parsed_date("x", Some((987, 1, 2, 3, 4))), "0987-01-02 03:04 UTC");
    assert_eq!(format_parsed_date("x", Some((12345, 12, 31, 23, 59))), "+12345-12-31 23:59 UTC");
    assert_eq!(format_parsed_date("x", Some((-5, 1, 1, 0, 0))), "-0005-01-01 00:00 UTC");
    assert_eq!(format_parsed_date("as given", None), "as given");
}

#[test]
fn decoding_undoes_escaping_without_ampersands() {
    for s in ["<b>x</b> > y", "plain", "", "a<<>>b\"'"] {
        assert_eq!(decode_html_entities(&escape_html(s)), s);
    }
}

#[test]
fn stripping_twice_changes_nothing() {
    for s in ["<p>a</p>\n\n\n\n<br>b  ", "<div>x</div><li>y</li> > z", "  plain  ", "<unclosed"] {
        let once = strip_html_tags(s);
        assert_eq!(strip_html_tags(&once), once);
    }
}

#[test]
fn stripped_text_without_entities_has_no_markup() {
    for s in &["a < b <i>c</i>", "<p>x</p><", "1 <<br>> 2", "plain"] {
        let out = strip_html_tags(s);
        assert!(!out.contains('<'), "{:?} gave {:?}", s, out);
        assert!(!out.contains('&'));
    }
}
