use spacefeeder::item_text;
use spacefeeder::text_utils;

#[test]
fn text_utils_test_get_short_description_exact_words() {
    let description = "This is a test description with exactly ten words here.".to_string();
    let result = text_utils::get_short_description(description.clone(), 10);
    assert_eq!(
        result,
        "This is a test description with exactly ten words here."
    );
}

#[test]
fn test_get_short_description_truncation() {
    let description = "This is a much longer description that definitely exceeds the word limit and should be truncated.".to_string();
    let result = text_utils::get_short_description(description, 5);
    assert_eq!(result, "This is a much longer...");
}

#[test]
fn test_extract_first_paragraph() {
    let text = "First paragraph here.\n\nSecond paragraph follows.";
    let result = text_utils::extract_first_paragraph(text);
    assert_eq!(result, Some("First paragraph here.".to_string()));
}

#[test]
fn test_extract_first_paragraph_sentence_ending() {
    let text = "This is the first sentence. This is the second sentence.";
    let result = text_utils::extract_first_paragraph(text);
    assert_eq!(result, Some("This is the first sentence.".to_string()));
}

#[test]
fn fetch_feeds_test_get_short_description_exact_words() {
    let description = "This is a test description with exactly ten words here.".to_string();
    let result = item_text::get_short_description(description.clone(), 10);
    assert_eq!(
        result,
        "This is a test description with exactly ten words here."
    );
}

#[test]
fn test_get_short_description_truncates() {
    let description = "This is a very long description that should be truncated after exactly five words but continues on and on.".to_string();
    let result = item_text::get_short_description(description, 5);
    assert_eq!(result, "This is a very long");
}

#[test]
fn test_get_short_description_empty() {
    let description = "".to_string();
    let result = item_text::get_short_description(description, 10);
    assert_eq!(result, "");
}

#[test]
fn test_get_short_description_whitespace() {
    let description = "   Multiple   spaces    between     words   ".to_string();
    let result = item_text::get_short_description(description, 3);
    assert_eq!(result, "Multiple spaces between");
}

#[test]
fn test_get_short_description_fewer_words() {
    let description = "Short text".to_string();
    let result = item_text::get_short_description(description, 10);
    assert_eq!(result, "Short text");
}

#[test]
fn test_html_tag_removal() {
    let html = "<p>This is <strong>bold</strong> and <em>italic</em> text.</p>";
    let result = item_text::strip_tags(html);
    assert_eq!(result, "This is bold and italic text.");
}

#[test]
fn test_html_tag_removal_nested() {
    let html = "<div><p>Nested <span>tags</span> here</p></div>";
    let result = item_text::strip_tags(html);
    assert_eq!(result, "Nested tags here");
}

#[test]
fn test_extract_first_paragraph_double_newline() {
    let text = "This is the first paragraph.\n\nThis is the second paragraph.";
    let result = item_text::extract_first_paragraph(text).unwrap();
    assert_eq!(result, "This is the first paragraph.");
}

#[test]
fn test_extract_first_paragraph_html() {
    let text = "<p>This is the first paragraph.</p><p>This is the second paragraph.</p>";
    let result = item_text::extract_first_paragraph(text).unwrap();
    assert_eq!(result, "<p>This is the first paragraph.");
}

#[test]
fn test_extract_first_paragraph_sentence_end() {
    let text = "This is the first sentence.\nThis is the second sentence.";
    let result = item_text::extract_first_paragraph(text).unwrap();
    assert_eq!(result, "This is the first sentence.");
}

#[test]
fn test_extract_first_paragraph_no_break() {
    let text = "This is just one paragraph with no breaks";
    let result = item_text::extract_first_paragraph(text).unwrap();
    assert_eq!(result, "This is just one paragraph with no breaks");
}

#[test]
fn test_get_short_description_uses_first_paragraph() {
    let text = "This is a reasonable first paragraph with enough content.\n\nThis is the second paragraph that should not be included.".to_string();
    let result = item_text::get_short_description(text, 150);
    assert_eq!(
        result,
        "This is a reasonable first paragraph with enough content."
    );
}

#[test]
fn test_get_short_description_truncates_long_paragraph() {
    let text = "This is a very long first paragraph that goes on and on and on with lots of words that exceed the maximum word count limit that we have set for descriptions.\n\nThis is the second paragraph.".to_string();
    let result = item_text::get_short_description(text, 10);
    assert_eq!(result, "This is a very long first paragraph that goes on");
}

#[test]
fn test_strip_tags_keeps_unclosed_angle_bracket() {
    assert_eq!(item_text::strip_tags("a < b and c"), "a < b and c");
    assert_eq!(item_text::strip_tags("x<y>z<unfinished"), "xz<unfinished");
}
