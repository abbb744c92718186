use card_proxy::tags::{characters_of, is_scaffolding, ChatMessage};

fn msg(role: &str, content: &str) -> ChatMessage {
    ChatMessage { role: Some(role.to_string()), content: Some(content.to_string()) }
}

#[test]
fn extracts_character_tags() {
    let msgs = vec![
        msg(
            "system",
            &("<system>rules</system><Vivi>Zloekzot".to_string()
                + &"x".repeat(300)
                + "</Vivi><scenario>short</scenario>"),
        ),
        msg("user", "hi"),
    ];
    assert_eq!(characters_of(Some(&msgs)), vec!["Vivi".to_string()]);
}

#[test]
fn skips_non_character_tags() {
    let msgs = vec![msg("system", "<scenario>tiny</scenario>")];
    assert!(characters_of(Some(&msgs)).is_empty());
}

#[test]
fn messages_that_are_not_a_list_name_nobody() {
    assert!(characters_of(None).is_empty());
}

#[test]
fn only_system_messages_count() {
    let body = format!("<Mia>{}</Mia>", "y".repeat(250));
    let msgs = vec![
        msg("user", &body),
        msg("assistant", &body),
        ChatMessage { role: Some("system".to_string()), content: None },
        ChatMessage { role: None, content: Some(body.clone()) },
    ];
    assert!(characters_of(Some(&msgs)).is_empty());
}

#[test]
fn names_come_once_in_order_of_appearance() {
    let long = "z".repeat(201);
    let text = format!("<Bo>{long}</Bo><Al>{long}</Al><Bo>{long}</Bo>");
    let msgs = vec![msg("system", &text), msg("system", &format!("<Al>{long}</Al><Cy>{long}</Cy>"))];
    assert_eq!(characters_of(Some(&msgs)), vec!["Bo".to_string(), "Al".to_string(), "Cy".to_string()]);
}

#[test]
fn inner_text_must_exceed_two_hundred_characters() {
    let exactly = format!("<Ann>{}</Ann>", "a".repeat(200));
    let over = format!("<Ann>{}</Ann>", "a".repeat(201));
    assert!(characters_of(Some(&vec![msg("system", &exactly)])).is_empty());
    assert_eq!(characters_of(Some(&vec![msg("system", &over)])), vec!["Ann".to_string()]);
    // characters count, not bytes: 150 two-byte characters are too short
    let wide_short = format!("<Vivi>{}</Vivi>", "é".repeat(150));
    let wide_exact = format!("<Ann>{}</Ann>", "é".repeat(200));
    let wide_over = format!("<Ann>{}</Ann>", "é".repeat(201));
    assert!(characters_of(Some(&vec![msg("system", &wide_short)])).is_empty());
    assert!(characters_of(Some(&vec![msg("system", &wide_exact)])).is_empty());
    assert_eq!(characters_of(Some(&vec![msg("system", &wide_over)])), vec!["Ann".to_string()]);
}

#[test]
fn unicode_white_space_is_trimmed_from_tags() {
    let text = format!("<\u{3000}Vivi\u{a0}\u{2028}>{}</Vivi>", "x".repeat(300));
    assert_eq!(characters_of(Some(&vec![msg("system", &text)])), vec!["Vivi".to_string()]);
}

#[test]
fn tag_names_are_trimmed() {
    let text = format!("<  Vivi\t>{}</Vivi>", "x".repeat(300));
    assert_eq!(characters_of(Some(&vec![msg("system", &text)])), vec!["Vivi".to_string()]);
}

#[test]
fn scaffolding_names_are_skipped_in_any_case() {
    let long = "x".repeat(300);
    let text = format!(
        "<Scenario>{long}</Scenario><EXAMPLE_DIALOGS>{long}</EXAMPLE_DIALOGS><UserPersona>{long}</UserPersona><Roleplay_Guidelines>{long}</Roleplay_Guidelines><Kai>{long}</Kai>"
    );
    assert_eq!(characters_of(Some(&vec![msg("system", &text)])), vec!["Kai".to_string()]);
    assert!(is_scaffolding("scenario"));
    assert!(is_scaffolding("userpersona"));
    assert!(!is_scaffolding("Scenario"));
    assert!(!is_scaffolding("vivi"));
}

#[test]
fn system_blocks_are_removed_before_the_scan() {
    let long = "x".repeat(300);
    // the Eve block sits inside a system block and goes with it
    let text = format!("<system>a<Eve>{long}</Eve>b</system><Dan>{long}</Dan>");
    assert_eq!(characters_of(Some(&vec![msg("system", &text)])), vec!["Dan".to_string()]);
    // an unclosed system tag stops the removal and is itself passed over
    let open = format!("<system><Gus>{long}</Gus>");
    assert_eq!(characters_of(Some(&vec![msg("system", &open)])), vec!["Gus".to_string()]);
}

#[test]
fn unclosed_and_closing_tags_are_passed_over() {
    let long = "x".repeat(300);
    let text = format!("</Zed><Lone>{long}<Ivy>{long}</Ivy> a < b");
    assert_eq!(characters_of(Some(&vec![msg("system", &text)])), vec!["Ivy".to_string()]);
    let no_gt = format!("<Ivy>{long}</Ivy><broken");
    assert_eq!(characters_of(Some(&vec![msg("system", &no_gt)])), vec!["Ivy".to_string()]);
}

#[test]
fn joined_message_lists_add_only_new_names() {
    let long = "w".repeat(250);
    let a = vec![msg("system", &format!("<Al>{long}</Al><Bo>{long}</Bo>"))];
    let b = vec![msg("user", "hi"), msg("system", &format!("<Cy>{long}</Cy><Al>{long}</Al><Di>{long}</Di>"))];
    let mut both = vec![msg("system", &format!("<Al>{long}</Al><Bo>{long}</Bo>"))];
    both.push(msg("user", "hi"));
    both.push(msg("system", &format!("<Cy>{long}</Cy><Al>{long}</Al><Di>{long}</Di>")));
    let names_a = characters_of(Some(&a));
    let names_b = characters_of(Some(&b));
    let mut expected = names_a.clone();
    expected.extend(names_b.into_iter().filter(|n| !names_a.contains(n)));
    assert_eq!(characters_of(Some(&both)), expected);
    assert_eq!(expected, vec!["Al", "Bo", "Cy", "Di"]);
    let mut with_chat = vec![msg("system", &format!("<Al>{long}</Al>"))];
    with_chat.push(msg("assistant", &format!("<Zed>{long}</Zed>")));
    assert_eq!(characters_of(Some(&with_chat)), vec!["Al".to_string()]);
}
