//! The messages that QQ is sent, what it answers, and the gateway by which it
//! tells of messages that come in.
use vstd::prelude::*;
use vstd::string::*;

use crate::config::{failure, Failure};
use crate::json::{
    canonical, canonical_json, compact, field, get_tree, is_record, lemma_trees_are, no_elements,
    no_members, number_of, number_tree, opt_tree, owed_text, read_number, read_text, text_tree,
    tree, with_element, with_member, Json, Tree,
};
use crate::messages::{resume_saved, runtime_set, sequence_too_great, GatewayResume};
use crate::store::{Database, GatewayState};
use crate::text::{
    cat, cat3, chars_of, decimal, decimal_text, opt_str_view, opt_view, owned, parse_number, parsed,
    slice_text, str_eq, truncate_chars,
};
use crate::urls::{percent_encoded, url_encode};

verus! {

broadcast use vstd::string::group_string_axioms;

/// Kinds of what the gateway sends and is sent.
pub const OP_DISPATCH: u64 = 0;

pub const OP_HEARTBEAT: u64 = 1;

pub const OP_IDENTIFY: u64 = 2;

pub const OP_RESUME: u64 = 6;

pub const OP_RECONNECT: u64 = 7;

pub const OP_INVALID_SESSION: u64 = 9;

pub const OP_HELLO: u64 = 10;

pub const OP_HEARTBEAT_ACK: u64 = 11;

/// The identifier that QQ gave to a message.
#[derive(Clone, Debug)]
pub struct SendReceipt {
    pub message_id: String,
}

/// A message with which the owner can approve or deny.
#[derive(Clone, Debug)]
pub struct ApprovalButtons {
    pub markdown: String,
    pub allow_button_data: String,
    pub deny_button_data: String,
}

/// A button by which the owner chooses.
#[derive(Clone, Debug)]
pub struct ChoiceButton {
    pub label: String,
    pub button_data: String,
}

/// A message with which the owner can choose.
#[derive(Clone, Debug)]
pub struct ChoiceButtons {
    pub markdown: String,
    pub button_id_prefix: String,
    pub choices: Vec<ChoiceButton>,
}

/// A message that was recorded instead of sent.
#[derive(Clone, Debug)]
pub struct MockSentMessage {
    pub kind: String,
    pub user_openid: String,
    pub content: String,
    pub reply_to_message_id: Option<String>,
    pub message_sequence: u32,
}

// ---------------------------------------------------------------------------
// What is sent

/// What a button does: it hands its data to the bridge, whoever presses it.
pub open spec fn button_action(data: Seq<char>, hint: Seq<char>) -> Tree {
    with_member(
        with_member(
            with_member(
                with_member(no_members(), "type"@, number_of(1)),
                "permission"@,
                with_member(no_members(), "type"@, number_of(2)),
            ),
            "data"@,
            Tree::Text(data),
        ),
        "unsupport_tips"@,
        Tree::Text(hint),
    )
}

/// A button.
pub open spec fn button(
    id: Seq<char>,
    label: Seq<char>,
    visited: Seq<char>,
    style: nat,
    data: Seq<char>,
    hint: Seq<char>,
) -> Tree {
    with_member(
        with_member(
            with_member(no_members(), "id"@, Tree::Text(id)),
            "render_data"@,
            with_member(
                with_member(
                    with_member(no_members(), "label"@, Tree::Text(label)),
                    "visited_label"@,
                    Tree::Text(visited),
                ),
                "style"@,
                number_of(style),
            ),
        ),
        "action"@,
        button_action(data, hint),
    )
}

/// A message with rows of buttons.
pub open spec fn keyboard_message(markdown: Seq<char>, rows: Tree) -> Tree {
    with_member(
        with_member(
            with_member(no_members(), "msg_type"@, number_of(2)),
            "markdown"@,
            with_member(no_members(), "content"@, Tree::Text(markdown)),
        ),
        "keyboard"@,
        with_member(
            no_members(),
            "content"@,
            with_member(no_members(), "rows"@, rows),
        ),
    )
}

/// A row of buttons.
pub open spec fn button_row(buttons: Tree) -> Tree {
    with_member(no_members(), "buttons"@, buttons)
}

/// The message with which the owner can approve or deny.
pub open spec fn approval_message(b: ApprovalButtons) -> Tree {
    keyboard_message(
        b.markdown@,
        with_element(
            no_elements(),
            button_row(
                with_element(
                    with_element(
                        no_elements(),
                        button(
                            "approve"@,
                            "批准一次"@,
                            "已批准"@,
                            1,
                            b.allow_button_data@,
                            "请使用 /allow 审批码"@,
                        ),
                    ),
                    button(
                        "deny"@,
                        "拒绝"@,
                        "已拒绝"@,
                        0,
                        b.deny_button_data@,
                        "请使用 /deny 审批码"@,
                    ),
                ),
            ),
        ),
    )
}

/// How many buttons stand in a row.
pub const ROW_BUTTONS: usize = 5;

/// How many buttons a message has at most.
pub const MAX_CHOICES: usize = 25;

/// How many characters of its label a button shows.
pub const LABEL_CHARS: usize = 10;

/// The first characters of a label, as many as a button shows.
pub open spec fn short_label(label: Seq<char>) -> Seq<char> {
    if label.len() <= LABEL_CHARS {
        label
    } else {
        label.take(LABEL_CHARS as int)
    }
}

/// The button for the choice in that place.
pub open spec fn choice_button(b: ChoiceButtons, i: int) -> Tree {
    button(
        b.button_id_prefix@ + "_"@ + decimal(i as nat),
        short_label(b.choices@[i].label@),
        "已选择"@,
        1,
        b.choices@[i].button_data@,
        "请直接回复选项文本"@,
    )
}

/// How many buttons the row has.
pub open spec fn row_width(n: nat, row: int) -> nat {
    if n - row * ROW_BUTTONS < ROW_BUTTONS {
        (n - row * ROW_BUTTONS) as nat
    } else {
        ROW_BUTTONS as nat
    }
}

/// A row of buttons for choices.
pub open spec fn choice_row(b: ChoiceButtons, row: int) -> Tree {
    button_row(
        Tree::Array(
            Seq::new(
                row_width(b.choices@.len(), row),
                |c: int| choice_button(b, row * ROW_BUTTONS + c),
            ),
        ),
    )
}

/// How many rows so many buttons have.
pub open spec fn row_count(n: nat) -> nat {
    ((n + ROW_BUTTONS - 1) / (ROW_BUTTONS as int)) as nat
}

/// The message with which the owner can choose.
pub open spec fn choice_message(b: ChoiceButtons) -> Tree {
    keyboard_message(
        b.markdown@,
        Tree::Array(Seq::new(row_count(b.choices@.len()), |r: int| choice_row(b, r))),
    )
}

/// Why the owner cannot be given these choices.
pub open spec fn choice_fault(b: ChoiceButtons) -> Option<Seq<char>> {
    if b.choices@.len() == 0 || b.choices@.len() > MAX_CHOICES {
        Some("QQ choice keyboard must contain 1 to 25 buttons"@)
    } else if b.button_id_prefix@ != "choice"@ && b.button_id_prefix@ != "session"@ {
        Some("QQ choice keyboard button prefix is invalid"@)
    } else {
        None
    }
}

/// The message as an answer to another.
pub open spec fn in_reply(body: Tree, reply_to: Option<Seq<char>>, sequence: u32) -> Tree {
    match reply_to {
        Some(id) => with_member(
            with_member(body, "msg_id"@, Tree::Text(id)),
            "msg_seq"@,
            number_of(sequence as nat),
        ),
        None => body,
    }
}

fn button_value(id: &str, label: &str, visited: &str, style: u64, data: &str, hint: &str) -> (r:
    Json)
    ensures
        r@ == button(id@, label@, visited@, style as nat, data@, hint@),
{
    let permission = Json::object().with("type", Json::number(2));
    let action = Json::object().with("type", Json::number(1)).with("permission", permission).with(
        "data",
        Json::text(data),
    ).with("unsupport_tips", Json::text(hint));
    let shown = Json::object().with("label", Json::text(label)).with(
        "visited_label",
        Json::text(visited),
    ).with("style", Json::number(style));
    Json::object().with("id", Json::text(id)).with("render_data", shown).with("action", action)
}

fn keyboard_value(markdown: &str, rows: Json) -> (r: Json)
    ensures
        r@ == keyboard_message(markdown@, rows@),
{
    let text = Json::object().with("content", Json::text(markdown));
    let keyboard = Json::object().with("content", Json::object().with("rows", rows));
    Json::object().with("msg_type", Json::number(2)).with("markdown", text).with(
        "keyboard",
        keyboard,
    )
}

/// The message with which the owner can approve or deny.
pub fn approval_buttons_payload(buttons: &ApprovalButtons) -> (r: Json)
    ensures
        r@ == approval_message(*buttons),
{
    let approve = button_value(
        "approve",
        "批准一次",
        "已批准",
        1,
        buttons.allow_button_data.as_str(),
        "请使用 /allow 审批码",
    );
    let deny = button_value(
        "deny",
        "拒绝",
        "已拒绝",
        0,
        buttons.deny_button_data.as_str(),
        "请使用 /deny 审批码",
    );
    let row = Json::object().with("buttons", Json::array().and(approve).and(deny));
    keyboard_value(buttons.markdown.as_str(), Json::array().and(row))
}

fn choice_row_value(buttons: &ChoiceButtons, row: usize) -> (r: Json)
    requires
        buttons.choices@.len() <= MAX_CHOICES,
        row * ROW_BUTTONS < buttons.choices@.len(),
    ensures
        r@ == choice_row(*buttons, row as int),
{
    let start: usize = row * ROW_BUTTONS;
    let left: usize = buttons.choices.len() - start;
    let width: usize = if left < ROW_BUTTONS {
        left
    } else {
        ROW_BUTTONS
    };
    let ghost all = Seq::new(
        row_width(buttons.choices@.len(), row as int),
        |c: int| choice_button(*buttons, row * ROW_BUTTONS + c),
    );
    let mut list: Vec<Json> = Vec::new();
    let mut c: usize = 0;
    while c < width
        invariant
            c <= width,
            width <= ROW_BUTTONS,
            start == row * ROW_BUTTONS,
            start + width <= buttons.choices@.len(),
            buttons.choices@.len() <= MAX_CHOICES,
            all.len() == width,
            all == Seq::new(
                row_width(buttons.choices@.len(), row as int),
                |c: int| choice_button(*buttons, row * ROW_BUTTONS + c),
            ),
            list@.len() == c,
            forall|k: int| 0 <= k < c ==> tree(#[trigger] list@[k]) == all[k],
        decreases width - c,
    {
        let choice = &buttons.choices[start + c];
        let number = decimal_text((start + c) as u64);
        let id = cat3(buttons.button_id_prefix.as_str(), "_", number.as_str());
        let label = truncate_chars(choice.label.as_str(), LABEL_CHARS);
        list.push(
            button_value(
                id.as_str(),
                label.as_str(),
                "已选择",
                1,
                choice.button_data.as_str(),
                "请直接回复选项文本",
            ),
        );
        assert(all[c as int] == choice_button(*buttons, start + c));
        c += 1;
    }
    proof {
        lemma_trees_are(list, all);
    }
    Json::object().with("buttons", Json::Array(list))
}

/// The message with which the owner can choose.
pub fn choice_buttons_payload(buttons: &ChoiceButtons) -> (r: Result<Json, Failure>)
    ensures
        match choice_fault(*buttons) {
            Some(message) => r matches Err(f) && f.message@ == message,
            None => r matches Ok(j) && j@ == choice_message(*buttons),
        },
{
    let n: usize = buttons.choices.len();
    if n == 0 || n > MAX_CHOICES {
        return Err(failure("QQ choice keyboard must contain 1 to 25 buttons"));
    }
    if !str_eq(buttons.button_id_prefix.as_str(), "choice") && !str_eq(
        buttons.button_id_prefix.as_str(),
        "session",
    ) {
        return Err(failure("QQ choice keyboard button prefix is invalid"));
    }
    let count: usize = (n + (ROW_BUTTONS - 1)) / ROW_BUTTONS;
    let ghost all = Seq::new(row_count(buttons.choices@.len()), |r: int| choice_row(*buttons, r));
    let mut rows: Vec<Json> = Vec::new();
    let mut i: usize = 0;
    while i < count
        invariant
            i <= count,
            n == buttons.choices@.len(),
            n <= MAX_CHOICES,
            count == (n + 4) / 5,
            all.len() == count,
            all == Seq::new(row_count(buttons.choices@.len()), |r: int| choice_row(*buttons, r)),
            rows@.len() == i,
            forall|k: int| 0 <= k < i ==> tree(#[trigger] rows@[k]) == all[k],
        decreases count - i,
    {
        assert(i * ROW_BUTTONS < n) by (nonlinear_arith)
            requires
                i < (n + 4) / 5,
                ROW_BUTTONS == 5,
        ;
        rows.push(choice_row_value(buttons, i));
        i += 1;
    }
    proof {
        lemma_trees_are(rows, all);
    }
    Ok(keyboard_value(buttons.markdown.as_str(), Json::Array(rows)))
}

/// The message as an answer to another.
pub fn reply_payload(body: Json, reply_to_message_id: Option<&str>, message_sequence: u32) -> (r:
    Json)
    ensures
        r@ == in_reply(body@, opt_str_view(reply_to_message_id), message_sequence),
{
    match reply_to_message_id {
        Some(id) => body.with("msg_id", Json::text(id)).with(
            "msg_seq",
            Json::number(message_sequence as u64),
        ),
        None => body,
    }
}

/// A message of text.
pub open spec fn text_message(content: Seq<char>) -> Tree {
    with_member(
        with_member(no_members(), "content"@, Tree::Text(content)),
        "msg_type"@,
        number_of(0),
    )
}

/// A message of text.
pub fn text_payload(content: &str, reply_to_message_id: Option<&str>, message_sequence: u32) -> (r:
    Json)
    ensures
        r@ == in_reply(
            text_message(content@),
            opt_str_view(reply_to_message_id),
            message_sequence,
        ),
{
    let body = Json::object().with("content", Json::text(content)).with(
        "msg_type",
        Json::number(0),
    );
    reply_payload(body, reply_to_message_id, message_sequence)
}

/// The sign that an answer is being written.
pub fn typing_payload(duration_seconds: u8) -> (r: Result<Json, Failure>)
    ensures
        if duration_seconds == 0 || duration_seconds > 60 {
            r matches Err(f) && f.message@
                == "QQ typing duration must be between 1 and 60 seconds"@
        } else {
            r matches Ok(j) && j@ == with_member(
                with_member(no_members(), "msg_type"@, number_of(6)),
                "input_notify"@,
                with_member(
                    with_member(no_members(), "input_type"@, number_of(1)),
                    "input_second"@,
                    number_of(duration_seconds as nat),
                ),
            )
        },
{
    if duration_seconds == 0 || duration_seconds > 60 {
        return Err(failure("QQ typing duration must be between 1 and 60 seconds"));
    }
    let notify = Json::object().with("input_type", Json::number(1)).with(
        "input_second",
        Json::number(duration_seconds as u64),
    );
    Ok(Json::object().with("msg_type", Json::number(6)).with("input_notify", notify))
}

/// The word that a button that was pressed has been heard.
pub fn acknowledgement_payload(code: u8) -> (r: Json)
    ensures
        r@ == with_member(no_members(), "code"@, number_of(code as nat)),
{
    Json::object().with("code", Json::number(code as u64))
}

/// What is sent for an access token.
pub fn token_payload(app_id: &str, app_secret: &str) -> (r: Json)
    ensures
        r@ == with_member(
            with_member(no_members(), "appId"@, Tree::Text(app_id@)),
            "clientSecret"@,
            Tree::Text(app_secret@),
        ),
{
    Json::object().with("appId", Json::text(app_id)).with("clientSecret", Json::text(app_secret))
}

/// The address without the slashes at its end.
pub open spec fn without_slashes(s: Seq<char>) -> Seq<char>
    decreases s.len(),
{
    if s.len() > 0 && s.last() == '/' {
        without_slashes(s.drop_last())
    } else {
        s
    }
}

fn trim_slashes(s: &str) -> (r: String)
    ensures
        r@ == without_slashes(s@),
{
    let chars = chars_of(s);
    let mut n: usize = chars.len();
    assert(chars@.take(n as int) =~= s@);
    while n > 0 && chars[n - 1] == '/'
        invariant
            n <= chars@.len(),
            without_slashes(chars@.take(n as int)) == without_slashes(s@),
        decreases n,
    {
        assert(chars@.take(n as int).drop_last() =~= chars@.take(n - 1));
        n -= 1;
    }
    assert(chars@.subrange(0, n as int) =~= chars@.take(n as int));
    slice_text(&chars, 0, n)
}

/// Where a message to the user is sent.
pub fn message_endpoint(api_base: &str, user_openid: &str) -> (r: String)
    ensures
        r@ == without_slashes(api_base@) + "/v2/users/"@ + percent_encoded(
            user_openid.spec_bytes(),
        ) + "/messages"@,
{
    let base = trim_slashes(api_base);
    let user = url_encode(user_openid);
    let start = cat3(base.as_str(), "/v2/users/", user.as_str());
    cat(start.as_str(), "/messages")
}

/// Where the word is sent that a button has been heard.
pub fn interaction_endpoint(api_base: &str, interaction_id: &str) -> (r: String)
    ensures
        r@ == without_slashes(api_base@) + "/interactions/"@ + percent_encoded(
            interaction_id.spec_bytes(),
        ),
{
    let base = trim_slashes(api_base);
    let id = url_encode(interaction_id);
    cat3(base.as_str(), "/interactions/", id.as_str())
}

/// How a request shows its access token.
pub fn authorization(token: &str) -> (r: String)
    ensures
        r@ == "QQBot "@ + token@,
{
    cat("QQBot ", token)
}

// ---------------------------------------------------------------------------
// What is answered

/// What to do after an answer of QQ.
#[derive(Clone, Copy, Debug, PartialEq, Eq, Structural)]
pub enum Verdict {
    /// The token is no longer good: try once more with a new one.
    Refresh,
    /// The request failed.
    Refused,
    /// The request was met.
    Accepted,
}

/// What to do after an answer with that status. A token is renewed once.
pub fn judge_status(attempt: u32, status: u16) -> (r: Verdict)
    ensures
        r == (if status == 401 && attempt == 0 {
            Verdict::Refresh
        } else if 200 <= status && status < 300 {
            Verdict::Accepted
        } else {
            Verdict::Refused
        }),
{
    if status == 401 && attempt == 0 {
        Verdict::Refresh
    } else if 200 <= status && status < 300 {
        Verdict::Accepted
    } else {
        Verdict::Refused
    }
}

/// The first of two members that is there.
pub open spec fn either(t: Tree, one: Seq<char>, other: Seq<char>) -> Option<Tree> {
    match get_tree(t, one) {
        Some(x) => Some(x),
        None => get_tree(t, other),
    }
}

fn get_either<'a>(j: &'a Json, one: &str, other: &str) -> (r: Option<&'a Json>)
    ensures
        opt_tree(r) == either(j@, one@, other@),
{
    match j.get(one) {
        Some(x) => Some(x),
        None => j.get(other),
    }
}

/// The number that is given as a number or as text.
pub open spec fn loose_number(t: Tree) -> Option<nat> {
    match number_tree(Some(t)) {
        Some(n) => Some(n),
        None => match t {
            Tree::Text(s) => parsed(s, u64::MAX as nat),
            _ => None,
        },
    }
}

/// The number that is given as a number or as text.
pub fn parse_u64(value: &Json) -> (r: Option<u64>)
    ensures
        match r {
            Some(n) => loose_number(value@) == Some(n as nat),
            None => loose_number(value@) is None,
        },
{
    match value.as_u64() {
        Some(n) => Some(n),
        None => match value {
            Json::Text(s) => parse_number(s.as_str(), u64::MAX),
            _ => None,
        },
    }
}

/// The access token that an answer gives, and for how many seconds it is used.
pub open spec fn token_given(body: Tree, skew: u64) -> Result<(Seq<char>, int), Seq<char>> {
    match text_tree(either(body, "access_token"@, "accessToken"@)) {
        Some(token) if token.len() > 0 => match either(body, "expires_in"@, "expiresIn"@) {
            None => Err("QQ App Access Token response omitted expires_in"@),
            Some(t) => match loose_number(t) {
                None => Err("QQ App Access Token expires_in was invalid"@),
                Some(n) => if n <= skew {
                    Err("QQ App Access Token expires too soon"@)
                } else {
                    Ok((token, n - skew))
                },
            },
        },
        _ => Err("QQ App Access Token response omitted access_token"@),
    }
}

/// Reads an access token, and for how many seconds it is used: it is renewed
/// before it ends.
pub fn read_token(body: &Json, refresh_skew_seconds: u64) -> (r: Result<(String, u64), Failure>)
    ensures
        match token_given(body@, refresh_skew_seconds) {
            Ok((token, seconds)) => r matches Ok((x, n)) && x@ == token && n == seconds,
            Err(message) => r matches Err(f) && f.message@ == message,
        },
{
    let token = match read_text(get_either(body, "access_token", "accessToken")) {
        None => {
            return Err(failure("QQ App Access Token response omitted access_token"));
        },
        Some(token) => token,
    };
    if token.as_str().is_empty() {
        return Err(failure("QQ App Access Token response omitted access_token"));
    }
    let value = match get_either(body, "expires_in", "expiresIn") {
        None => {
            return Err(failure("QQ App Access Token response omitted expires_in"));
        },
        Some(value) => value,
    };
    let seconds = match parse_u64(value) {
        None => {
            return Err(failure("QQ App Access Token expires_in was invalid"));
        },
        Some(seconds) => seconds,
    };
    if seconds <= refresh_skew_seconds {
        return Err(failure("QQ App Access Token expires too soon"));
    }
    Ok((token, seconds - refresh_skew_seconds))
}

/// Reads the address of the gateway.
pub fn read_gateway_url(body: &Json) -> (r: Result<String, Failure>)
    ensures
        match text_tree(get_tree(body@, "url"@)) {
            Some(url) => r matches Ok(x) && x@ == url,
            None => r matches Err(f) && f.message@ == "QQ Gateway URL response omitted url"@,
        },
{
    match body.get_text("url") {
        Some(url) => Ok(url),
        None => Err(failure("QQ Gateway URL response omitted url")),
    }
}

/// Reads the identifier that QQ gave to a message.
pub fn read_receipt(body: &Json) -> (r: Result<SendReceipt, Failure>)
    ensures
        match text_tree(either(body@, "id"@, "message_id"@)) {
            Some(id) => r matches Ok(x) && x.message_id@ == id,
            None => r matches Err(f) && f.message@ == "QQ message response omitted message ID"@,
        },
{
    match read_text(get_either(body, "id", "message_id")) {
        Some(message_id) => Ok(SendReceipt { message_id }),
        None => Err(failure("QQ message response omitted message ID")),
    }
}

/// The code of an error that QQ tells of: nothing where it tells of none.
pub open spec fn error_code(body: Tree) -> Option<Option<Seq<char>>> {
    if is_record(body, 1) {
        match field(body, 0, "code"@) {
            None => Some(None),
            Some(Tree::Null) => Some(None),
            Some(Tree::Text(s)) => Some(Some(s)),
            Some(t) => Some(Some(compact(canonical(t)))),
        }
    } else {
        None
    }
}

/// Reads the code of an error that QQ tells of.
pub fn read_error_code(body: &Json) -> (r: Option<Option<String>>)
    ensures
        match r {
            Some(code) => error_code(body@) == Some(opt_view(code)),
            None => error_code(body@) is None,
        },
{
    if !body.is_record(1) {
        return None;
    }
    match body.field(0, "code") {
        None => Some(None),
        Some(Json::Null) => Some(None),
        Some(Json::Text(s)) => Some(Some(s.clone())),
        Some(j) => Some(Some(canonical_json(j))),
    }
}

/// What is said of a message that QQ refused. `error` is what QQ told of it, if
/// that could be read.
pub fn delivery_failure(status: &str, error: Option<&Json>) -> (r: Failure)
    ensures
        r.message@ == "QQ message delivery failed with HTTP "@ + status@ + (match error {
            None => Seq::empty(),
            Some(body) => match error_code(body@) {
                None => Seq::empty(),
                Some(None) => ", code "@ + "unknown"@,
                Some(Some(code)) => ", code "@ + code,
            },
        }),
{
    let start = cat("QQ message delivery failed with HTTP ", status);
    let code = match error {
        None => None,
        Some(body) => read_error_code(body),
    };
    match code {
        None => {
            assert(start@ + Seq::<char>::empty() =~= start@);
            failure(start.as_str())
        },
        Some(None) => {
            let end = cat(", code ", "unknown");
            let message = cat(start.as_str(), end.as_str());
            failure(message.as_str())
        },
        Some(Some(code)) => {
            let end = cat(", code ", code.as_str());
            let message = cat(start.as_str(), end.as_str());
            failure(message.as_str())
        },
    }
}

// ---------------------------------------------------------------------------
// The gateway

/// What the gateway sends.
#[derive(Debug)]
pub struct GatewayPayload {
    pub id: Option<String>,
    pub op: u64,
    pub d: Option<Json>,
    pub s: Option<u64>,
    pub t: Option<String>,
}

/// A message that came in.
#[derive(Debug)]
pub struct C2cMessage {
    pub id: String,
    pub content: String,
    pub user_openid: String,
}

/// A button that was pressed.
#[derive(Debug)]
pub struct C2cInteraction {
    pub application_id: String,
    pub chat_type: u8,
    pub id: String,
    pub scene: String,
    pub interaction_type: u8,
    pub user_openid: String,
    pub data_type: u8,
    pub button_data: String,
    pub button_id: String,
}

/// A small number that a record has to have.
pub open spec fn owed_byte(t: Option<Tree>) -> Option<nat> {
    match number_tree(t) {
        Some(n) if n <= u8::MAX => Some(n),
        _ => None,
    }
}

/// Whether the value is this message.
pub open spec fn is_message(t: Tree, m: C2cMessage) -> bool {
    let author = field(t, 2, "author"@);
    &&& is_record(t, 3)
    &&& owed_text(field(t, 0, "id"@)) == Some(m.id@)
    &&& owed_text(field(t, 1, "content"@)) == Some(m.content@)
    &&& author matches Some(a) && is_record(a, 1) && owed_text(field(a, 0, "user_openid"@)) == Some(
        m.user_openid@,
    )
}

/// Whether the value is this button.
pub open spec fn is_interaction(t: Tree, x: C2cInteraction) -> bool {
    &&& is_record(t, 7)
    &&& owed_text(field(t, 0, "application_id"@)) == Some(x.application_id@)
    &&& owed_byte(field(t, 1, "chat_type"@)) == Some(x.chat_type as nat)
    &&& field(t, 2, "data"@) matches Some(d) && is_pressed(d, x)
    &&& owed_text(field(t, 3, "id"@)) == Some(x.id@)
    &&& owed_text(field(t, 4, "scene"@)) == Some(x.scene@)
    &&& owed_byte(field(t, 5, "type"@)) == Some(x.interaction_type as nat)
    &&& owed_text(field(t, 6, "user_openid"@)) == Some(x.user_openid@)
}

/// Whether the value tells that this button was pressed.
pub open spec fn is_pressed(d: Tree, x: C2cInteraction) -> bool {
    &&& is_record(d, 2)
    &&& field(d, 0, "resolved"@) matches Some(r) && is_record(r, 2) && owed_text(
        field(r, 0, "button_data"@),
    ) == Some(x.button_data@) && owed_text(field(r, 1, "button_id"@)) == Some(x.button_id@)
    &&& owed_byte(field(d, 1, "type"@)) == Some(x.data_type as nat)
}

fn read_byte(value: Option<&Json>) -> (r: Option<u8>)
    ensures
        match r {
            Some(n) => owed_byte(opt_tree(value)) == Some(n as nat),
            None => owed_byte(opt_tree(value)) is None,
        },
{
    match read_number(value) {
        Some(n) => if n <= u8::MAX as u64 {
            Some(n as u8)
        } else {
            None
        },
        None => None,
    }
}

impl C2cMessage {
    /// Reads a message that came in.
    pub fn read(value: &Json) -> (r: Option<C2cMessage>)
        ensures
            match r {
                Some(m) => is_message(value@, m),
                None => forall|m: C2cMessage| !#[trigger] is_message(value@, m),
            },
    {
        if !value.is_record(3) {
            return None;
        }
        let author = match value.field(2, "author") {
            None => {
                return None;
            },
            Some(author) => author,
        };
        if !author.is_record(1) {
            return None;
        }
        match (
            read_text(value.field(0, "id")),
            read_text(value.field(1, "content")),
            read_text(author.field(0, "user_openid")),
        ) {
            (Some(id), Some(content), Some(user_openid)) => Some(
                C2cMessage { id, content, user_openid },
            ),
            _ => None,
        }
    }
}

impl C2cInteraction {
    /// Reads of a button that was pressed.
    pub fn read(value: &Json) -> (r: Option<C2cInteraction>)
        ensures
            match r {
                Some(x) => is_interaction(value@, x),
                None => forall|x: C2cInteraction| !#[trigger] is_interaction(value@, x),
            },
    {
        if !value.is_record(7) {
            return None;
        }
        let data = match value.field(2, "data") {
            None => {
                return None;
            },
            Some(data) => data,
        };
        if !data.is_record(2) {
            return None;
        }
        let resolved = match data.field(0, "resolved") {
            None => {
                return None;
            },
            Some(resolved) => resolved,
        };
        if !resolved.is_record(2) {
            return None;
        }
        let (button_data, button_id, data_type) = match (
            read_text(resolved.field(0, "button_data")),
            read_text(resolved.field(1, "button_id")),
            read_byte(data.field(1, "type")),
        ) {
            (Some(button_data), Some(button_id), Some(data_type)) => (
                button_data,
                button_id,
                data_type,
            ),
            _ => {
                return None;
            },
        };
        let (application_id, chat_type, id) = match (
            read_text(value.field(0, "application_id")),
            read_byte(value.field(1, "chat_type")),
            read_text(value.field(3, "id")),
        ) {
            (Some(application_id), Some(chat_type), Some(id)) => (application_id, chat_type, id),
            _ => {
                return None;
            },
        };
        match (
            read_text(value.field(4, "scene")),
            read_byte(value.field(5, "type")),
            read_text(value.field(6, "user_openid")),
        ) {
            (Some(scene), Some(interaction_type), Some(user_openid)) => Some(
                C2cInteraction {
                    application_id,
                    chat_type,
                    id,
                    scene,
                    interaction_type,
                    user_openid,
                    data_type,
                    button_data,
                    button_id,
                },
            ),
            _ => None,
        }
    }
}

/// How long to wait before the gateway is tried again.
#[derive(Clone, Copy, Debug)]
pub struct GatewayRetry {
    pub seconds: u64,
}

/// How many seconds are waited at most.
pub const MAX_RETRY_SECONDS: u64 = 60;

impl GatewayRetry {
    /// Whether the wait is in its bounds.
    pub open spec fn wf(self) -> bool {
        1 <= self.seconds <= MAX_RETRY_SECONDS
    }

    /// The first wait.
    pub fn new() -> (r: GatewayRetry)
        ensures
            r.wf(),
            r.seconds == 1,
    {
        GatewayRetry { seconds: 1 }
    }

    /// After a failure: how many seconds to wait now; the next wait is twice as
    /// long.
    pub fn failed(&mut self) -> (r: u64)
        requires
            old(self).wf(),
        ensures
            final(self).wf(),
            r == old(self).seconds,
            final(self).seconds == (if 2 * old(self).seconds <= MAX_RETRY_SECONDS {
                2 * old(self).seconds
            } else {
                MAX_RETRY_SECONDS as int
            }),
    {
        let now: u64 = self.seconds;
        self.seconds = if now * 2 <= MAX_RETRY_SECONDS {
            now * 2
        } else {
            MAX_RETRY_SECONDS
        };
        now
    }

    /// After a connection that ended well.
    pub fn succeeded(&mut self)
        ensures
            final(self).wf(),
            final(self).seconds == 1,
    {
        self.seconds = 1;
    }
}

/// Where a connection to the gateway is made: where its session can be resumed,
/// if that is known.
pub fn resume_url(resume: &Option<GatewayResume>) -> (r: Option<String>)
    ensures
        r == (match *resume {
            Some(x) => x.resume_gateway_url,
            None => None,
        }),
{
    match resume {
        Some(x) => x.resume_gateway_url.clone(),
        None => None,
    }
}

/// A connection to the gateway.
#[derive(Debug)]
pub struct GatewayLink {
    pub session_id: Option<String>,
    pub sequence: Option<u64>,
    pub acknowledged: bool,
}

/// What comes of what the gateway sends.
#[derive(Debug)]
pub enum GatewayEvent {
    /// Nothing more.
    Quiet,
    /// A message came in.
    Message(C2cMessage),
    /// A button was pressed.
    Interaction { outer_event_id: String, interaction: C2cInteraction },
}

/// The number of milliseconds between two heartbeats that the gateway's first
/// word gives, or what is wrong with it.
pub open spec fn hello_heard(hello: GatewayPayload) -> Result<nat, Seq<char>> {
    let interval = match hello.d {
        Some(j) => number_tree(get_tree(j@, "heartbeat_interval"@)),
        None => None,
    };
    if hello.op != OP_HELLO {
        Err("QQ Gateway first payload was not Hello"@)
    } else {
        match interval {
            None => Err("QQ Gateway Hello omitted heartbeat_interval"@),
            Some(n) => if n < 1000 {
                Err("QQ Gateway heartbeat interval is unexpectedly short"@)
            } else {
                Ok(n)
            },
        }
    }
}

/// How a session of the gateway is resumed.
pub open spec fn resume_tree(token: Seq<char>, session: Seq<char>, sequence: nat) -> Tree {
    with_member(
        with_member(no_members(), "op"@, number_of(OP_RESUME as nat)),
        "d"@,
        with_member(
            with_member(
                with_member(no_members(), "token"@, Tree::Text("QQBot "@ + token)),
                "session_id"@,
                Tree::Text(session),
            ),
            "seq"@,
            number_of(sequence),
        ),
    )
}

/// How a session of the gateway is begun.
pub open spec fn identify_tree(token: Seq<char>, intents: nat) -> Tree {
    with_member(
        with_member(no_members(), "op"@, number_of(OP_IDENTIFY as nat)),
        "d"@,
        with_member(
            with_member(
                with_member(
                    with_member(no_members(), "token"@, Tree::Text("QQBot "@ + token)),
                    "intents"@,
                    number_of(intents),
                ),
                "shard"@,
                with_element(with_element(no_elements(), number_of(0)), number_of(1)),
            ),
            "properties"@,
            with_member(
                with_member(
                    with_member(no_members(), "$os"@, Tree::Text("windows"@)),
                    "$browser"@,
                    Tree::Text("qq-copilot-remote"@),
                ),
                "$device"@,
                Tree::Text("qq-copilot-remote"@),
            ),
        ),
    )
}

/// A heartbeat.
pub open spec fn heartbeat_tree(sequence: Option<u64>) -> Tree {
    with_member(
        with_member(no_members(), "op"@, number_of(OP_HEARTBEAT as nat)),
        "d"@,
        match sequence {
            Some(n) => number_of(n as nat),
            None => Tree::Null,
        },
    )
}

/// What comes of a heartbeat: it is sent where the last one was heard.
pub open spec fn beat_outcome(a: GatewayLink, b: GatewayLink, r: Result<Json, Failure>) -> bool {
    if a.acknowledged {
        &&& r matches Ok(j) && j@ == heartbeat_tree(a.sequence)
        &&& b == (GatewayLink { acknowledged: false, ..a })
    } else {
        &&& r matches Err(f) && f.message@
            == "QQ Gateway did not acknowledge the previous heartbeat"@
        &&& b == a
    }
}

/// Whether the connection goes on with the session that is to be resumed.
pub open spec fn goes_on(link: GatewayLink, resume: Option<GatewayResume>) -> bool {
    &&& link.acknowledged
    &&& match resume {
        Some(x) => opt_view(link.session_id) == Some(x.session_id@) && link.sequence == Some(
            x.sequence,
        ),
        None => link.session_id is None && link.sequence is None,
    }
}

/// The number of the last thing that the gateway sent.
pub open spec fn next_sequence(before: Option<u64>, p: GatewayPayload) -> Option<u64> {
    match p.s {
        Some(n) => Some(n),
        None => before,
    }
}

/// Whether `b` is `a` after the number of what the gateway sent was remembered.
pub open spec fn sequence_kept(
    a: Database,
    b: Database,
    session: Option<Seq<char>>,
    s: Option<u64>,
    now: i64,
) -> bool {
    match (session, s) {
        (Some(id), Some(n)) => n <= i64::MAX && resume_saved(a, b, id, n, None, now),
        _ => b == a,
    }
}

/// The number, or zero where there is none.
pub open spec fn number_or_zero(n: Option<u64>) -> u64 {
    match n {
        Some(n) => n,
        None => 0,
    }
}

/// Whether `b` is `a` with the session of the gateway that has begun.
pub open spec fn session_begun(
    a: Database,
    b: Database,
    session: Seq<char>,
    sequence: u64,
    url: Option<Seq<char>>,
    now: i64,
) -> bool {
    exists|x: Database| #[trigger]
        resume_saved(a, x, session, sequence, url, now) && runtime_set(
            x,
            b,
            "connected"@,
            true,
            now,
        )
}

/// What comes of the gateway's word that a session has begun. `d` is what it
/// tells of it, and `sequence` the number of the last thing that it sent.
pub open spec fn ready_outcome(
    m: Database,
    b: Database,
    acknowledged: bool,
    d: Option<Json>,
    sequence: Option<u64>,
    after: GatewayLink,
    now: i64,
    r: Result<GatewayEvent, Failure>,
) -> bool {
    let n = number_or_zero(sequence);
    match d {
        None => b == m && (r matches Err(f) && f.message@ == "READY omitted data"@),
        Some(data) => match text_tree(get_tree(data@, "session_id"@)) {
            None => b == m && (r matches Err(f) && f.message@ == "READY omitted session_id"@),
            Some(id) => if n > i64::MAX {
                b == m && (r matches Err(f) && f.message@ == sequence_too_great())
            } else {
                &&& r matches Ok(GatewayEvent::Quiet)
                &&& opt_view(after.session_id) == Some(id)
                &&& after.acknowledged == acknowledged
                &&& after.sequence == sequence
                &&& session_begun(
                    m,
                    b,
                    id,
                    n,
                    text_tree(get_tree(data@, "resume_gateway_url"@)),
                    now,
                )
            },
        },
    }
}

/// What comes of the gateway's word that something happened.
pub open spec fn dispatch_outcome(
    m: Database,
    b: Database,
    link: GatewayLink,
    p: GatewayPayload,
    sequence: Option<u64>,
    after: GatewayLink,
    now: i64,
    r: Result<GatewayEvent, Failure>,
) -> bool {
    let kind = opt_view(p.t);
    let same = GatewayLink { sequence, ..link };
    if kind == Some("READY"@) {
        ready_outcome(m, b, link.acknowledged, p.d, sequence, after, now, r)
    } else if kind == Some("RESUMED"@) {
        after == same && runtime_set(m, b, "connected"@, true, now) && (r matches Ok(
            GatewayEvent::Quiet,
        ))
    } else if kind == Some("C2C_MESSAGE_CREATE"@) {
        &&& b == m
        &&& match p.d {
            None => r matches Err(f) && f.message@ == "C2C message omitted data"@,
            Some(d) => match r {
                Ok(GatewayEvent::Message(x)) => after == same && is_message(d@, x),
                Ok(_) => false,
                Err(f) => f.message@ == "invalid C2C message payload"@ && forall|x: C2cMessage|
                    !#[trigger] is_message(d@, x),
            },
        }
    } else if kind == Some("INTERACTION_CREATE"@) {
        &&& b == m
        &&& match (p.id, p.d) {
            (None, _) => r matches Err(f) && f.message@
                == "interaction event omitted outer event ID"@,
            (Some(_), None) => r matches Err(f) && f.message@ == "interaction event omitted data"@,
            (Some(id), Some(d)) => match r {
                Ok(GatewayEvent::Interaction { outer_event_id, interaction }) => after == same
                    && outer_event_id@ == id@ && is_interaction(d@, interaction),
                Ok(_) => false,
                Err(f) => f.message@ == "invalid C2C interaction payload"@ && forall|
                    x: C2cInteraction,
                | !#[trigger] is_interaction(d@, x),
            },
        }
    } else {
        after == same && b == m && (r matches Ok(GatewayEvent::Quiet))
    }
}

/// What comes of what the gateway sends, once its number was remembered.
pub open spec fn payload_outcome(
    m: Database,
    b: Database,
    link: GatewayLink,
    p: GatewayPayload,
    after: GatewayLink,
    now: i64,
    r: Result<GatewayEvent, Failure>,
) -> bool {
    let sequence = next_sequence(link.sequence, p);
    if p.op == OP_DISPATCH {
        dispatch_outcome(m, b, link, p, sequence, after, now, r)
    } else if p.op == OP_HEARTBEAT_ACK {
        &&& runtime_set(m, b, "connected"@, true, now)
        &&& after == (GatewayLink { sequence, acknowledged: true, ..link })
        &&& r matches Ok(GatewayEvent::Quiet)
    } else if p.op == OP_RECONNECT {
        b == m && (r matches Err(f) && f.message@ == "QQ Gateway requested reconnect"@)
    } else if p.op == OP_INVALID_SESSION {
        b == (Database { gateway: None, ..m }) && (r matches Err(f) && f.message@
            == "QQ Gateway rejected the resumable session"@)
    } else {
        after == (GatewayLink { sequence, ..link }) && b == m && (r matches Ok(GatewayEvent::Quiet))
    }
}

/// What comes of what the gateway sends: its number is remembered first.
pub open spec fn heard_outcome(
    a: Database,
    b: Database,
    link: GatewayLink,
    p: GatewayPayload,
    after: GatewayLink,
    now: i64,
    r: Result<GatewayEvent, Failure>,
) -> bool {
    if link.session_id is Some && (p.s matches Some(n) && n > i64::MAX) {
        b == a && (r matches Err(f) && f.message@ == sequence_too_great())
    } else {
        exists|m: Database| #[trigger]
            sequence_kept(a, m, opt_view(link.session_id), p.s, now) && payload_outcome(
                m,
                b,
                link,
                p,
                after,
                now,
                r,
            )
    }
}

impl GatewayLink {
    /// Takes the gateway's first word: a connection that goes on with the session
    /// that is to be resumed, and the milliseconds between two heartbeats.
    pub fn open(hello: &GatewayPayload, resume: &Option<GatewayResume>) -> (r: Result<
        (GatewayLink, u64),
        Failure,
    >)
        ensures
            match hello_heard(*hello) {
                Ok(n) => r matches Ok((link, interval)) && interval == n && goes_on(link, *resume),
                Err(message) => r matches Err(f) && f.message@ == message,
            },
    {
        if hello.op != OP_HELLO {
            return Err(failure("QQ Gateway first payload was not Hello"));
        }
        let interval = match &hello.d {
            Some(j) => read_number(j.get("heartbeat_interval")),
            None => None,
        };
        let interval = match interval {
            None => {
                return Err(failure("QQ Gateway Hello omitted heartbeat_interval"));
            },
            Some(n) => n,
        };
        if interval < 1000 {
            return Err(failure("QQ Gateway heartbeat interval is unexpectedly short"));
        }
        let link = match resume {
            Some(x) => GatewayLink {
                session_id: Some(x.session_id.clone()),
                sequence: Some(x.sequence),
                acknowledged: true,
            },
            None => GatewayLink { session_id: None, sequence: None, acknowledged: true },
        };
        Ok((link, interval))
    }

    /// Sends a heartbeat, where the last one was heard.
    pub fn beat(&mut self) -> (r: Result<Json, Failure>)
        ensures
            beat_outcome(*old(self), *final(self), r),
    {
        if !self.acknowledged {
            return Err(failure("QQ Gateway did not acknowledge the previous heartbeat"));
        }
        let d = match self.sequence {
            Some(n) => Json::number(n),
            None => Json::Null,
        };
        self.acknowledged = false;
        Ok(Json::object().with("op", Json::number(OP_HEARTBEAT)).with("d", d))
    }

    /// Takes what the gateway sends.
    pub fn hear(&mut self, database: &mut Database, payload: GatewayPayload, now: i64) -> (r: Result<
        GatewayEvent,
        Failure,
    >)
        requires
            old(database).wf(),
        ensures
            final(database).wf(),
            heard_outcome(
                *old(database),
                *final(database),
                *old(self),
                payload,
                *final(self),
                now,
                r,
            ),
    {
        let ghost before = *self;
        let ghost a = *database;
        if let Some(n) = payload.s {
            self.sequence = Some(n);
            if let Some(id) = &self.session_id {
                if let Err(f) = database.save_gateway_resume(id.as_str(), n, None, now) {
                    return Err(f);
                }
            }
        }
        let ghost m = *database;
        assert(sequence_kept(a, m, opt_view(before.session_id), payload.s, now));
        let ghost sequence = next_sequence(before.sequence, payload);
        if payload.op == OP_DISPATCH {
            return self.dispatch(database, payload, now, Ghost(before));
        }
        if payload.op == OP_HEARTBEAT_ACK {
            self.acknowledged = true;
            note_connected(database, now);
            return Ok(GatewayEvent::Quiet);
        }
        if payload.op == OP_RECONNECT {
            return Err(failure("QQ Gateway requested reconnect"));
        }
        if payload.op == OP_INVALID_SESSION {
            database.clear_gateway_resume();
            return Err(failure("QQ Gateway rejected the resumable session"));
        }
        Ok(GatewayEvent::Quiet)
    }

    fn dispatch(
        &mut self,
        database: &mut Database,
        payload: GatewayPayload,
        now: i64,
        Ghost(before): Ghost<GatewayLink>,
    ) -> (r: Result<GatewayEvent, Failure>)
        requires
            old(database).wf(),
            *old(self) == (GatewayLink { sequence: old(self).sequence, ..before }),
        ensures
            final(database).wf(),
            dispatch_outcome(
                *old(database),
                *final(database),
                before,
                payload,
                old(self).sequence,
                *final(self),
                now,
                r,
            ),
    {
        let kind = match &payload.t {
            Some(t) => t.as_str(),
            None => {
                return Ok(GatewayEvent::Quiet);
            },
        };
        if str_eq(kind, "READY") {
            return self.ready(database, payload.d, now);
        }
        if str_eq(kind, "RESUMED") {
            note_connected(database, now);
            return Ok(GatewayEvent::Quiet);
        }
        if str_eq(kind, "C2C_MESSAGE_CREATE") {
            let d = match payload.d {
                None => {
                    return Err(failure("C2C message omitted data"));
                },
                Some(d) => d,
            };
            return match C2cMessage::read(&d) {
                None => Err(failure("invalid C2C message payload")),
                Some(x) => Ok(GatewayEvent::Message(x)),
            };
        }
        if str_eq(kind, "INTERACTION_CREATE") {
            let outer_event_id = match payload.id {
                None => {
                    return Err(failure("interaction event omitted outer event ID"));
                },
                Some(id) => id,
            };
            let d = match payload.d {
                None => {
                    return Err(failure("interaction event omitted data"));
                },
                Some(d) => d,
            };
            return match C2cInteraction::read(&d) {
                None => Err(failure("invalid C2C interaction payload")),
                Some(interaction) => Ok(
                    GatewayEvent::Interaction { outer_event_id, interaction },
                ),
            };
        }
        Ok(GatewayEvent::Quiet)
    }

    fn ready(&mut self, database: &mut Database, d: Option<Json>, now: i64) -> (r: Result<
        GatewayEvent,
        Failure,
    >)
        requires
            old(database).wf(),
        ensures
            final(database).wf(),
            ready_outcome(
                *old(database),
                *final(database),
                old(self).acknowledged,
                d,
                old(self).sequence,
                *final(self),
                now,
                r,
            ),
    {
        let data = match d {
            None => {
                return Err(failure("READY omitted data"));
            },
            Some(data) => data,
        };
        let session_id = match data.get_text("session_id") {
            None => {
                return Err(failure("READY omitted session_id"));
            },
            Some(id) => id,
        };
        let url = data.get_text("resume_gateway_url");
        let shown = match &url {
            Some(u) => Some(u.as_str()),
            None => None,
        };
        let n: u64 = match self.sequence {
            Some(n) => n,
            None => 0,
        };
        if let Err(f) = database.save_gateway_resume(session_id.as_str(), n, shown, now) {
            return Err(f);
        }
        let ghost x = *database;
        let ghost id = session_id@;
        self.session_id = Some(session_id);
        note_connected(database, now);
        assert(resume_saved(*old(database), x, id, n, opt_view(url), now));
        assert(session_begun(*old(database), *database, id, n, opt_view(url), now));
        Ok(GatewayEvent::Quiet)
    }
}

fn note_connected(database: &mut Database, now: i64)
    requires
        old(database).wf(),
    ensures
        final(database).wf(),
        runtime_set(*old(database), *final(database), "connected"@, true, now),
{
    let set = database.set_gateway_runtime("connected", true, now);
    assert(GatewayState::Connected.label() == "connected"@);
    assert(set is Ok);
}

/// What is sent to the gateway first: how its session is resumed, or begun.
pub fn authenticate(resume: &Option<GatewayResume>, token: &str, intents: u64) -> (r: Json)
    ensures
        r@ == (match *resume {
            Some(x) => resume_tree(token@, x.session_id@, x.sequence as nat),
            None => identify_tree(token@, intents as nat),
        }),
{
    let shown = authorization(token);
    match resume {
        Some(x) => {
            let d = Json::object().with("token", Json::text(shown.as_str())).with(
                "session_id",
                Json::text(x.session_id.as_str()),
            ).with("seq", Json::number(x.sequence));
            Json::object().with("op", Json::number(OP_RESUME)).with("d", d)
        },
        None => {
            let properties = Json::object().with("$os", Json::text("windows")).with(
                "$browser",
                Json::text("qq-copilot-remote"),
            ).with("$device", Json::text("qq-copilot-remote"));
            let shard = Json::array().and(Json::number(0)).and(Json::number(1));
            let d = Json::object().with("token", Json::text(shown.as_str())).with(
                "intents",
                Json::number(intents),
            ).with("shard", shard).with("properties", properties);
            Json::object().with("op", Json::number(OP_IDENTIFY)).with("d", d)
        },
    }
}

/// A connection that is not answered ends: where one heartbeat was not heard, no
/// second one is sent.
pub proof fn unheard_heartbeats_end_the_connection(
    one: GatewayLink,
    two: GatewayLink,
    three: GatewayLink,
    first_beat: Result<Json, Failure>,
    second_beat: Result<Json, Failure>,
)
    requires
        beat_outcome(one, two, first_beat),
        beat_outcome(two, three, second_beat),
    ensures
        second_beat is Err,
{
}

// ---------------------------------------------------------------------------
// A messenger that sends nothing

/// Whether that is what was sent.
pub open spec fn is_sent(
    m: MockSentMessage,
    kind: Seq<char>,
    user_openid: Seq<char>,
    content: Seq<char>,
    reply_to_message_id: Option<Seq<char>>,
    message_sequence: u32,
) -> bool {
    &&& m.kind@ == kind
    &&& m.user_openid@ == user_openid
    &&& m.content@ == content
    &&& opt_view(m.reply_to_message_id) == reply_to_message_id
    &&& m.message_sequence == message_sequence
}

/// A messenger that keeps what it is given to send, for use in place of QQ.
#[derive(Debug)]
pub struct MockQqMessenger {
    pub messages: Vec<MockSentMessage>,
    pub acknowledgements: Vec<(String, u8)>,
    pub fail_sends: bool,
}

impl Default for MockQqMessenger {
    fn default() -> (r: Self)
        ensures
            r.messages@.len() == 0 && r.acknowledgements@.len() == 0 && !r.fail_sends,
    {
        MockQqMessenger::new()
    }
}

/// What comes of the wish to send a text.
pub open spec fn text_kept(
    a: MockQqMessenger,
    b: MockQqMessenger,
    user: Seq<char>,
    content: Seq<char>,
    reply: Option<Seq<char>>,
    message_sequence: u32,
    r: Result<SendReceipt, Failure>,
) -> bool {
    if a.fail_sends {
        b == a && (r matches Err(f) && f.message@ == "mock QQ delivery failure"@)
    } else {
        &&& r matches Ok(x) && x.message_id@ == "message-"@ + decimal(b.messages@.len())
        &&& b == (MockQqMessenger {
            messages: b.messages,
            ..a
        })
        &&& b.messages@ == a.messages@.push(b.messages@.last())
        &&& is_sent(
            b.messages@.last(),
            "text"@,
            user,
            content,
            reply,
            message_sequence,
        )
    }
}

/// What comes of the wish to send the buttons of an approval.
pub open spec fn approval_kept(
    a: MockQqMessenger,
    b: MockQqMessenger,
    user: Seq<char>,
    markdown: Seq<char>,
    r: Result<SendReceipt, Failure>,
) -> bool {
    if a.fail_sends {
        b == a && (r matches Err(f) && f.message@ == "mock QQ button delivery failure"@)
    } else {
        &&& r matches Ok(x) && x.message_id@ == "message-"@ + decimal(b.messages@.len())
        &&& b == (MockQqMessenger {
            messages: b.messages,
            ..a
        })
        &&& b.messages@ == a.messages@.push(b.messages@.last())
        &&& is_sent(
            b.messages@.last(),
            "approval_buttons"@,
            user,
            markdown,
            None,
            0,
        )
    }
}

/// What comes of the wish to send the buttons of a choice.
pub open spec fn choice_kept(
    a: MockQqMessenger,
    b: MockQqMessenger,
    user: Seq<char>,
    markdown: Seq<char>,
    reply: Option<Seq<char>>,
    message_sequence: u32,
    r: Result<SendReceipt, Failure>,
) -> bool {
    if a.fail_sends {
        b == a && (r matches Err(f) && f.message@ == "mock QQ choice delivery failure"@)
    } else {
        &&& r matches Ok(x) && x.message_id@ == "message-"@ + decimal(b.messages@.len())
        &&& b == (MockQqMessenger {
            messages: b.messages,
            ..a
        })
        &&& b.messages@ == a.messages@.push(b.messages@.last())
        &&& is_sent(
            b.messages@.last(),
            "choice_buttons"@,
            user,
            markdown,
            reply,
            message_sequence,
        )
    }
}

/// What comes of the wish to show that something is written.
pub open spec fn typing_kept(
    a: MockQqMessenger,
    b: MockQqMessenger,
    user: Seq<char>,
    duration_seconds: u8,
    r: Result<(), Failure>,
) -> bool {
    if a.fail_sends {
        b == a && (r matches Err(f) && f.message@ == "mock QQ typing failure"@)
    } else {
        &&& r matches Ok(())
        &&& b == (MockQqMessenger {
            messages: b.messages,
            ..a
        })
        &&& b.messages@ == a.messages@.push(b.messages@.last())
        &&& is_sent(
            b.messages@.last(),
            "typing"@,
            user,
            decimal(duration_seconds as nat),
            None,
            0,
        )
    }
}

impl MockQqMessenger {
    /// A messenger that was given nothing.
    pub fn new() -> (r: MockQqMessenger)
        ensures
            r.messages@.len() == 0 && r.acknowledgements@.len() == 0 && !r.fail_sends,
    {
        MockQqMessenger {
            messages: Vec::new(),
            acknowledgements: Vec::new(),
            fail_sends: false,
        }
    }

    /// What it was given to send.
    pub fn messages(&self) -> (r: &Vec<MockSentMessage>)
        ensures
            *r == self.messages,
    {
        &self.messages
    }

    /// What it was given to acknowledge.
    pub fn acknowledgements(&self) -> (r: &Vec<(String, u8)>)
        ensures
            *r == self.acknowledgements,
    {
        &self.acknowledgements
    }

    /// Whether what it is given to send fails from now on.
    pub fn set_send_failure(&mut self, fail: bool)
        ensures
            *final(self) == (MockQqMessenger { fail_sends: fail, ..*old(self) }),
    {
        self.fail_sends = fail;
    }

    /// Takes a text.
    pub fn send_text(
        &mut self,
        user_openid: &str,
        content: &str,
        reply_to_message_id: Option<&str>,
        message_sequence: u32,
    ) -> (r: Result<SendReceipt, Failure>)
        ensures
            text_kept(
                *old(self),
                *final(self),
                user_openid@,
                content@,
                opt_str_view(reply_to_message_id),
                message_sequence,
                r,
            ),
    {
        if self.fail_sends {
            return Err(failure("mock QQ delivery failure"));
        }
        let sent = MockSentMessage {
            kind: "text".to_owned(),
            user_openid: user_openid.to_owned(),
            content: content.to_owned(),
            reply_to_message_id: owned(reply_to_message_id),
            message_sequence: message_sequence,
        };
        self.messages.push(sent);
        Ok(
            SendReceipt {
                message_id: cat("message-", decimal_text(self.messages.len() as u64).as_str()),
            },
        )
    }

    /// Takes buttons for an approval.
    pub fn send_approval_buttons(
        &mut self,
        user_openid: &str,
        buttons: &ApprovalButtons,
    ) -> (r: Result<SendReceipt, Failure>)
        ensures
            approval_kept(*old(self), *final(self), user_openid@, buttons.markdown@, r),
    {
        if self.fail_sends {
            return Err(failure("mock QQ button delivery failure"));
        }
        let sent = MockSentMessage {
            kind: "approval_buttons".to_owned(),
            user_openid: user_openid.to_owned(),
            content: buttons.markdown.clone(),
            reply_to_message_id: None,
            message_sequence: 0,
        };
        self.messages.push(sent);
        Ok(
            SendReceipt {
                message_id: cat("message-", decimal_text(self.messages.len() as u64).as_str()),
            },
        )
    }

    /// Takes buttons for a choice.
    pub fn send_choice_buttons(
        &mut self,
        user_openid: &str,
        buttons: &ChoiceButtons,
        reply_to_message_id: Option<&str>,
        message_sequence: u32,
    ) -> (r: Result<SendReceipt, Failure>)
        ensures
            choice_kept(
                *old(self),
                *final(self),
                user_openid@,
                buttons.markdown@,
                opt_str_view(reply_to_message_id),
                message_sequence,
                r,
            ),
    {
        if self.fail_sends {
            return Err(failure("mock QQ choice delivery failure"));
        }
        let sent = MockSentMessage {
            kind: "choice_buttons".to_owned(),
            user_openid: user_openid.to_owned(),
            content: buttons.markdown.clone(),
            reply_to_message_id: owned(reply_to_message_id),
            message_sequence: message_sequence,
        };
        self.messages.push(sent);
        Ok(
            SendReceipt {
                message_id: cat("message-", decimal_text(self.messages.len() as u64).as_str()),
            },
        )
    }

    /// Takes a sign that an answer is being written.
    pub fn send_typing(&mut self, user_openid: &str, duration_seconds: u8) -> (r: Result<(), Failure>)
        ensures
            typing_kept(*old(self), *final(self), user_openid@, duration_seconds, r),
    {
        if self.fail_sends {
            return Err(failure("mock QQ typing failure"));
        }
        let sent = MockSentMessage {
            kind: "typing".to_owned(),
            user_openid: user_openid.to_owned(),
            content: decimal_text(duration_seconds as u64),
            reply_to_message_id: None,
            message_sequence: 0,
        };
        self.messages.push(sent);
        Ok(())
    }

    /// Takes an acknowledgement.
    pub fn acknowledge_interaction(&mut self, interaction_id: &str, code: u8)
        ensures
            *final(self) == (MockQqMessenger {
                acknowledgements: final(self).acknowledgements,
                ..*old(self)
            }),
            final(self).acknowledgements@ == old(self).acknowledgements@.push(
                final(self).acknowledgements@.last(),
            ),
            final(self).acknowledgements@.last().0@ == interaction_id@,
            final(self).acknowledgements@.last().1 == code,
    {
        self.acknowledgements.push((interaction_id.to_owned(), code));
    }
}

} // verus!
