use autocrop::transcribe::{endpoint, first_text, image_request, Part, ENDPOINT, MIME_TYPE, PROMPT};

fn text(s: &str) -> Part {
    Part::Text(String::from(s))
}

fn image(s: &str) -> Part {
    Part::Image { mime_type: String::from("image/jpeg"), data: String::from(s) }
}

#[test]
fn endpoint_ends_with_the_key() {
    assert_eq!(
        endpoint("k-123"),
        "https://generativelanguage.googleapis.com/v1beta/models/gemini-1.5-flash:generateContent?key=k-123"
    );
    assert_eq!(endpoint(""), ENDPOINT);
}

#[test]
fn prompt_asks_for_two_labelled_lines() {
    assert!(PROMPT.starts_with("Describe this image in detail, focusing on the main subjects"));
    assert!(PROMPT.contains("markdown:\nDescription: [Your detailed description here]\nHebrew: "));
    assert!(PROMPT.ends_with("Hebrew: [The Hebrew translation here]"));
    assert_eq!(PROMPT.lines().count(), 3);
    assert_eq!(MIME_TYPE, "image/jpeg");
}

#[test]
fn request_holds_the_prompt_and_the_encoded_image() {
    let parts = image_request(b"hello world~");
    assert_eq!(parts, vec![text(PROMPT), image("aGVsbG8gd29ybGR+")]);
}

#[test]
fn request_pads_the_encoding() {
    assert_eq!(image_request(b"")[1], image(""));
    assert_eq!(image_request(b"a")[1], image("YQ=="));
    assert_eq!(image_request(b"ab")[1], image("YWI="));
    assert_eq!(image_request(b"abc")[1], image("YWJj"));
    assert_eq!(image_request(&[0xff, 0xfe, 0xfd, 0xfc])[1], image("//79/A=="));
}

#[test]
fn answer_opens_with_its_text() {
    let answer = vec![vec![text("Description: a cat"), text("more")], vec![text("other")]];
    assert_eq!(first_text(&answer), Some(String::from("Description: a cat")));
    assert_eq!(first_text(&vec![vec![text("")]]), Some(String::new()));
}

#[test]
fn answer_without_leading_text_holds_none() {
    assert_eq!(first_text(&Vec::new()), None);
    assert_eq!(first_text(&vec![Vec::new()]), None);
    assert_eq!(first_text(&vec![Vec::new(), vec![text("late")]]), None);
    assert_eq!(first_text(&vec![vec![image("YQ=="), text("late")]]), None);
}
