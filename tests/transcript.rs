use hoover::journal::{file_name_for, header_for, minute_label_for, CivilDate, MarkdownWriter};
use hoover::transcript::{
    deduplicate_words, is_hallucinated_noise, is_noise_lowered, last_words_lowered, words,
};

fn strings(ws: &[&str]) -> Vec<String> {
    ws.iter().map(|w| w.to_string()).collect()
}

#[test]
fn deduplicates_overlap() {
    let writer = MarkdownWriter::with_trailing_words(true, strings(&["the", "quick", "brown", "fox"]));
    let result = writer.deduplicate_overlap("brown fox jumps over");
    assert_eq!(result, "jumps over");
}

#[test]
fn no_overlap_passes_through() {
    let writer = MarkdownWriter::with_trailing_words(true, strings(&["hello", "world"]));
    let result = writer.deduplicate_overlap("completely different text");
    assert_eq!(result, "completely different text");
}

#[test]
fn empty_trailing_passes_through() {
    let writer = MarkdownWriter::with_trailing_words(true, Vec::new());
    let result = writer.deduplicate_overlap("first segment");
    assert_eq!(result, "first segment");
}

#[test]
fn unrelated_text_written_verbatim() {
    let writer = MarkdownWriter::with_trailing_words(true, strings(&["the", "quick", "brown", "fox"]));
    assert_eq!(writer.deduplicate_overlap("completely different"), "completely different");
}

#[test]
fn overlap_ignores_case_and_spacing() {
    let writer = MarkdownWriter::with_trailing_words(true, strings(&["the", "quick", "brown", "fox"]));
    assert_eq!(writer.deduplicate_overlap("Brown   FOX jumps\tover"), "jumps over");
}

#[test]
fn largest_overlap_wins() {
    let writer = MarkdownWriter::with_trailing_words(true, strings(&["a", "b", "a", "b"]));
    assert_eq!(writer.deduplicate_overlap("a b a b c"), "c");
}

#[test]
fn repeated_tail_gives_nothing() {
    let writer = MarkdownWriter::with_trailing_words(true, strings(&["the", "quick", "brown", "fox"]));
    assert_eq!(writer.deduplicate_overlap("quick brown fox"), "");
}

#[test]
fn blank_text_gives_nothing() {
    let writer = MarkdownWriter::with_trailing_words(true, strings(&["fox"]));
    assert_eq!(writer.deduplicate_overlap("   "), "");
}

#[test]
fn dedup_on_given_words() {
    let trailing = strings(&["x", "y"]);
    let ws = strings(&["Y", "z"]);
    let lowered = strings(&["y", "z"]);
    assert_eq!(deduplicate_words(&trailing, &ws, &lowered, "Y z"), "z");
}

#[test]
fn words_split_on_whitespace() {
    assert_eq!(words(" a  b\nc "), strings(&["a", "b", "c"]));
}

#[test]
fn trailing_words_keep_last_twenty_lowercased() {
    let text: Vec<String> = (0..25).map(|i| format!("W{i}")).collect();
    let kept = last_words_lowered(&text.join(" "), 20);
    assert_eq!(kept.len(), 20);
    assert_eq!(kept[0], "w5");
    assert_eq!(kept[19], "w24");
}

#[test]
fn hallucinated_noise_detected() {
    assert!(is_hallucinated_noise("[Music]"));
    assert!(is_hallucinated_noise("(keyboard clicking)"));
    assert!(is_hallucinated_noise("Thank you."));
    assert!(!is_hallucinated_noise("thank you all for coming to this long meeting today"));
    assert!(is_hallucinated_noise("Thanks for watching!"));
    assert!(is_hallucinated_noise("Please SUBSCRIBE"));
    assert!(!is_hallucinated_noise("the build passed"));
    assert!(!is_noise_lowered("[unbalanced"));
}

fn date(year: i32, month: u32, day: u32) -> CivilDate {
    CivilDate { year, month, day }
}

#[test]
fn header_names_weekday_and_month() {
    assert_eq!(header_for(date(2026, 10, 19)), "# Mon, October 19, 2026\n\n");
    assert_eq!(header_for(date(2024, 2, 29)), "# Thu, February 29, 2024\n\n");
    assert_eq!(file_name_for(date(2026, 3, 7)), "2026-03-07.md");
    assert_eq!(minute_label_for(9, 5), "09:05");
}

#[test]
fn first_segment_of_day_brings_header() {
    let mut w = MarkdownWriter::new(true);
    let d = date(2026, 10, 19);
    let plan = w.plan_segment(d, 14, 3, "hello world", None);
    assert_eq!(plan.file_name, "2026-10-19.md");
    assert_eq!(plan.header.as_deref(), Some("# Mon, October 19, 2026\n\n"));
    assert_eq!(plan.entry.as_deref(), Some("## 14:03\n\nhello world\n"));
}

#[test]
fn same_minute_heading_once() {
    let mut w = MarkdownWriter::new(true);
    let d = date(2026, 10, 19);
    let first = w.plan_segment(d, 14, 3, "first", None);
    w.record_written(&first.text);
    let second = w.plan_segment(d, 14, 3, "second", None);
    assert!(second.header.is_none());
    assert_eq!(second.entry.as_deref(), Some("second\n"));
    let third = w.plan_segment(d, 14, 4, "third", Some("Erik"));
    assert_eq!(third.entry.as_deref(), Some("## 14:04\n\n**Erik:** third\n"));
}

#[test]
fn no_headings_without_timestamps() {
    let mut w = MarkdownWriter::new(false);
    let plan = w.plan_segment(date(2026, 1, 2), 1, 2, "note", Some("Ann"));
    assert_eq!(plan.entry.as_deref(), Some("**Ann:** note\n"));
}

#[test]
fn suffix_segment_writes_nothing() {
    let mut w = MarkdownWriter::new(true);
    let d = date(2026, 10, 19);
    let first = w.plan_segment(d, 8, 0, "The quick brown fox", None);
    w.record_written(&first.text);
    let again = w.plan_segment(d, 8, 1, "brown fox", None);
    assert!(again.entry.is_none());
    let next = w.plan_segment(d, 8, 1, "brown fox jumps over", None);
    assert_eq!(next.text, "jumps over");
}

#[test]
fn new_day_resets_state() {
    let mut w = MarkdownWriter::new(true);
    let first = w.plan_segment(date(2026, 10, 19), 23, 59, "good night", None);
    w.record_written(&first.text);
    let next = w.plan_segment(date(2026, 10, 20), 23, 59, "good night", None);
    assert_eq!(next.header.as_deref(), Some("# Tue, October 20, 2026\n\n"));
    assert_eq!(next.entry.as_deref(), Some("## 23:59\n\ngood night\n"));
}

#[test]
fn creates_daily_file_with_header() {
    let mut w = MarkdownWriter::new(true);
    let plan = w.plan_segment(date(2026, 10, 19), 10, 0, "hello world", None);
    let header = plan.header.unwrap_or_else(|| panic!("expected a header"));
    assert!(header.starts_with("# "));
    assert!(plan.entry.unwrap_or_default().contains("hello world"));
}

#[test]
fn writes_speaker_tag() {
    let mut w = MarkdownWriter::new(true);
    let plan = w.plan_segment(date(2026, 10, 19), 10, 0, "important note", Some("Erik"));
    assert!(plan.entry.unwrap_or_default().contains("Erik"));
}

#[test]
fn writes_time_heading() {
    let mut w = MarkdownWriter::new(true);
    let plan = w.plan_segment(date(2026, 10, 19), 7, 45, "first segment", None);
    let entry = plan.entry.unwrap_or_default();
    assert!(entry.contains("## 07:45"));
    assert!(entry.contains("first segment"));
}

#[test]
fn same_minute_no_duplicate_heading() {
    let mut w = MarkdownWriter::new(true);
    let mut content = String::new();
    for text in ["first", "second"] {
        let plan = w.plan_segment(date(2026, 10, 19), 7, 45, text, None);
        if let Some(h) = plan.header {
            content.push_str(&h);
        }
        content.push_str(&plan.entry.unwrap_or_default());
        w.record_written(&plan.text);
    }
    assert_eq!(content.matches("## 07:45").count(), 1);
    assert!(content.contains("first"));
    assert!(content.contains("second"));
}
