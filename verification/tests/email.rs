use server_game::email::{is_renderable, render, EmailConfig};

#[test]
fn render_substitutes_every_placeholder_in_subject_and_body() {
    let (subject, body) = render(
        "Subject: {{a}} says hi\n\nHello {{b}}, from {{a}}.\n",
        &[("a", "Alice"), ("b", "Bob")],
    );
    assert_eq!(subject, "Alice says hi");
    assert_eq!(body, "Hello Bob, from Alice.\n");
}

#[test]
fn render_keeps_unknown_placeholders_and_substitutes_in_order() {
    let (subject, body) = render("Subject: hi {{x}}\nbody {{y}} {{z}}", &[("y", "{{z}}"), ("z", "Z")]);
    assert_eq!(subject, "hi {{x}}");
    assert_eq!(body, "body Z Z");
}

#[test]
fn render_drops_every_blank_line_after_the_subject() {
    let (subject, body) = render("Subject: s\n\n\n\ntext\n\nmore", &[]);
    assert_eq!(subject, "s");
    assert_eq!(body, "text\n\nmore");
}

#[test]
fn templates_without_a_subject_line_are_not_renderable() {
    assert!(is_renderable("Subject: x\nbody"));
    assert!(is_renderable("Subject: \n"));
    assert!(!is_renderable("Subject: no newline"));
    assert!(!is_renderable("Topic: x\nbody"));
    assert!(!is_renderable("Subject:x\nbody"));
    assert!(!is_renderable(""));
}

#[test]
fn email_config_keeps_what_it_was_given() {
    let config = EmailConfig::new(Some("key".to_string()), "from@example.com".to_string());
    assert_eq!(config.api_key().as_deref(), Some("key"));
    assert_eq!(config.from_address(), "from@example.com");
    let none = EmailConfig::new(None, "x".to_string());
    assert!(none.api_key().is_none());
}
