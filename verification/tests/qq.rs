use qq_copilot_remote::json::Json;
use qq_copilot_remote::qq::{
    approval_buttons_payload, choice_buttons_payload, ApprovalButtons, ChoiceButton, ChoiceButtons,
};

fn elements(value: &Json) -> &Vec<Json> {
    match value {
        Json::Array(elements) => elements,
        _ => panic!("not an array"),
    }
}

fn buttons(payload: &Json) -> &Vec<Json> {
    let rows = payload
        .get("keyboard")
        .expect("keyboard")
        .get("content")
        .expect("content")
        .get("rows")
        .expect("rows");
    elements(elements(rows)[0].get("buttons").expect("buttons"))
}

fn permission(button: &Json) -> &Json {
    button
        .get("action")
        .expect("action")
        .get("permission")
        .expect("permission")
}

#[test]
fn c2c_approval_buttons_defer_identity_to_server_validation() {
    let payload = approval_buttons_payload(&ApprovalButtons {
        markdown: "approval".to_owned(),
        allow_button_data: "allow-token".to_owned(),
        deny_button_data: "deny-token".to_owned(),
    });
    let buttons = buttons(&payload);
    assert_eq!(buttons.len(), 2);
    assert!(
        buttons
            .iter()
            .all(|button| permission(button).get("type").expect("type").as_u64() == Some(2))
    );
    assert!(
        buttons
            .iter()
            .all(|button| permission(button).get("specify_user_ids").is_none())
    );
}

#[test]
fn choice_keyboard_limits_labels_and_uses_server_validated_callbacks() {
    let payload = choice_buttons_payload(&ChoiceButtons {
        markdown: "choose".to_owned(),
        button_id_prefix: "choice".to_owned(),
        choices: vec![
            ChoiceButton {
                label: "这是一个超过十字符的选项标签".to_owned(),
                button_data: "choice-a".to_owned(),
            },
            ChoiceButton {
                label: "第二项".to_owned(),
                button_data: "choice-b".to_owned(),
            },
        ],
    })
    .expect("choice payload");
    let buttons = buttons(&payload);
    assert_eq!(
        buttons[0]
            .get("render_data")
            .expect("render data")
            .get_text("label")
            .expect("label")
            .chars()
            .count(),
        10
    );
    assert!(
        buttons
            .iter()
            .all(|button| permission(button).get("type").expect("type").as_u64() == Some(2))
    );
}
