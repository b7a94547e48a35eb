use check_car_plates_telegram_bot::codec::render_car_info;
use check_car_plates_telegram_bot::session::{
    ContactInfo, Incoming, Markup, Outcome, QueryAnswer, StoreQuery, StoreWrite, TurnError,
};
use check_car_plates_telegram_bot::session::{plan_turn, step_turn};
use check_car_plates_telegram_bot::CarInfo;
use check_car_plates_telegram_bot::State;

const GUIDANCE: &str = "Просто надсилайте текстове повідомлення з номерними знаками і бот відповість чи є такий запис в базі.";

fn admin_contact() -> ContactInfo {
    ContactInfo {
        user_id: Some(77),
        phone_number: "380000000001".to_string(),
    }
}

fn awaiting(contact: ContactInfo) -> State {
    State::AwaitingRequests { contact }
}

fn text_message(text: &str) -> Incoming {
    Incoming {
        chat_id: 77,
        is_private: true,
        contact: None,
        text: Some(text.to_string()),
    }
}

fn contact_message(chat_id: i64, user_id: Option<i64>, phone: &str) -> Incoming {
    Incoming {
        chat_id,
        is_private: true,
        contact: Some(ContactInfo {
            user_id,
            phone_number: phone.to_string(),
        }),
        text: None,
    }
}

fn expect_ok(r: Result<Outcome, TurnError>) -> Outcome {
    match r {
        Ok(o) => o,
        Err(e) => panic!("turn failed: {e:?}"),
    }
}

#[test]
fn default_state_is_start() {
    assert!(matches!(State::default(), State::Start));
}

#[test]
fn start_without_contact_prompts_for_one() {
    let msg = Incoming {
        chat_id: 1,
        is_private: true,
        contact: None,
        text: Some("привіт".to_string()),
    };
    assert!(matches!(plan_turn(&State::Start, &msg), StoreQuery::NoQuery));
    let o = expect_ok(step_turn(&State::Start, &msg, &QueryAnswer::NoAnswer));
    let reply = o.reply.expect("prompt reply");
    assert_eq!(reply.markup, Markup::RequestContact);
    assert!(o.write.is_none());
    assert!(o.next_state.is_none());
}

#[test]
fn start_ignores_non_private_chats() {
    let mut msg = contact_message(1, Some(1), "380671234567");
    msg.is_private = false;
    assert!(matches!(plan_turn(&State::Start, &msg), StoreQuery::NoQuery));
    let o = expect_ok(step_turn(&State::Start, &msg, &QueryAnswer::NoAnswer));
    assert!(o.reply.is_none() && o.write.is_none() && o.next_state.is_none());
}

#[test]
fn start_rejects_someone_elses_contact() {
    let msg = contact_message(1, Some(2), "380671234567");
    assert!(matches!(plan_turn(&State::Start, &msg), StoreQuery::NoQuery));
    let o = expect_ok(step_turn(&State::Start, &msg, &QueryAnswer::NoAnswer));
    let reply = o.reply.expect("rejection reply");
    assert_eq!(reply.text, "Відправте свій контакт.");
    assert_eq!(reply.markup, Markup::RequestContact);
    assert!(o.next_state.is_none());
}

#[test]
fn start_rejects_number_not_on_allow_list() {
    let msg = contact_message(5, Some(5), "380671234567");
    match plan_turn(&State::Start, &msg) {
        StoreQuery::UserExists(key) => assert_eq!(key, "USER:380671234567"),
        q => panic!("unexpected query: {q:?}", q = query_name(&q)),
    }
    let o = expect_ok(step_turn(&State::Start, &msg, &QueryAnswer::Exists(false)));
    let reply = o.reply.expect("rejection reply");
    assert!(reply.text.starts_with("Нажаль"));
    assert_eq!(reply.markup, Markup::RequestContact);
    assert!(o.next_state.is_none());
}

fn query_name(q: &StoreQuery) -> &'static str {
    match q {
        StoreQuery::NoQuery => "NoQuery",
        StoreQuery::UserExists(_) => "UserExists",
        StoreQuery::AdminExists(_) => "AdminExists",
        StoreQuery::CarGet(_) => "CarGet",
    }
}

#[test]
fn adduser_then_contact_verification_succeeds() {
    // An admin adds a formatted phone number; the stored key holds only
    // its digits.
    let state = awaiting(admin_contact());
    let msg = text_message("/adduser +380 67 123 4567");
    match plan_turn(&state, &msg) {
        StoreQuery::AdminExists(key) => assert_eq!(key, "ADMIN:380000000001"),
        q => panic!("unexpected query: {}", query_name(&q)),
    }
    let o = expect_ok(step_turn(&state, &msg, &QueryAnswer::Exists(true)));
    let written_key = match o.write {
        Some(StoreWrite::Put { key, value }) => {
            assert_eq!(value, "");
            key
        }
        _ => panic!("expected an allow-list write"),
    };
    assert_eq!(written_key, "USER:380671234567");
    assert_eq!(
        o.reply.expect("confirmation").text,
        "Користувача з номером телефону 380671234567 додано."
    );

    // A contact sharing that exact digit sequence then verifies.
    let verify = contact_message(9, Some(9), "380671234567");
    match plan_turn(&State::Start, &verify) {
        StoreQuery::UserExists(key) => assert_eq!(key, "USER:380671234567"),
        q => panic!("unexpected query: {}", query_name(&q)),
    }
    let o2 = expect_ok(step_turn(&State::Start, &verify, &QueryAnswer::Exists(true)));
    match o2.next_state {
        Some(State::AwaitingRequests { contact }) => {
            assert_eq!(contact.phone_number, "380671234567")
        }
        _ => panic!("expected the verified transition"),
    }
    let reply = o2.reply.expect("confirmation");
    assert!(reply.text.starts_with("Ваш номер 380671234567 підтверджено."));
    assert_eq!(reply.markup, Markup::RemoveKeyboard);
}

#[test]
fn deluser_and_deladmin_remove_keys() {
    let state = awaiting(admin_contact());
    let o = expect_ok(step_turn(
        &state,
        &text_message("/deluser 380671234567"),
        &QueryAnswer::Exists(true),
    ));
    assert!(matches!(o.write, Some(StoreWrite::Remove { ref key }) if key == "USER:380671234567"));
    let o2 = expect_ok(step_turn(
        &state,
        &text_message("/deladmin 380671234567"),
        &QueryAnswer::Exists(true),
    ));
    assert!(
        matches!(o2.write, Some(StoreWrite::Remove { ref key }) if key == "ADMIN:380671234567")
    );
}

#[test]
fn addadmin_writes_admin_key() {
    let state = awaiting(admin_contact());
    let o = expect_ok(step_turn(
        &state,
        &text_message("/addadmin 380991112233"),
        &QueryAnswer::Exists(true),
    ));
    assert!(matches!(o.write, Some(StoreWrite::Put { ref key, .. }) if key == "ADMIN:380991112233"));
}

#[test]
fn non_admin_command_is_silent() {
    let state = awaiting(ContactInfo {
        user_id: Some(12),
        phone_number: "380991112233".to_string(),
    });
    let msg = text_message("/addadmin 380991112233");
    let o = expect_ok(step_turn(&state, &msg, &QueryAnswer::Exists(false)));
    assert!(o.reply.is_none());
    assert!(o.write.is_none());
    assert!(o.next_state.is_none());
}

#[test]
fn unrecognized_command_from_admin_is_silent() {
    let state = awaiting(admin_contact());
    let o = expect_ok(step_turn(
        &state,
        &text_message("/start"),
        &QueryAnswer::Exists(true),
    ));
    assert!(o.reply.is_none() && o.write.is_none());
}

#[test]
fn lookup_missing_record_is_not_found_not_error() {
    let state = awaiting(admin_contact());
    let msg = text_message("вт5527см");
    match plan_turn(&state, &msg) {
        StoreQuery::CarGet(key) => assert_eq!(key, "CAR:BT5527CM"),
        q => panic!("unexpected query: {}", query_name(&q)),
    }
    let o = expect_ok(step_turn(&state, &msg, &QueryAnswer::CarValue(None)));
    let reply = o.reply.expect("not-found reply");
    assert!(reply.text.contains("\"BT5527CM\" не знайдено"));
    assert!(o.write.is_none());
}

#[test]
fn admin_submission_stores_then_user_lookup_finds_it() {
    // The admin pastes the six-line rendering; the record is stored under
    // its normalized plate.
    let rec = CarInfo {
        reported_in_city: Some("Херсон".to_string()),
        car_brand: Some("Renault Trafic".to_string()),
        car_color: Some("Белый".to_string()),
        comment: Some("два з них символікою ССО".to_string()),
        number_of_people: None,
    };
    let submission = render_car_info(&rec, "ВТ5527СМ");
    assert!(submission.chars().count() >= 20);
    let admin_state = awaiting(admin_contact());
    let o = expect_ok(step_turn(
        &admin_state,
        &text_message(&submission),
        &QueryAnswer::Exists(true),
    ));
    let (key, stored) = match o.write {
        Some(StoreWrite::Put { key, value }) => (key, value),
        _ => panic!("expected the record write"),
    };
    assert_eq!(key, "CAR:BT5527CM");
    assert_eq!(
        o.reply.expect("ack").text,
        "Інформацію про авто з номерними знаками \"BT5527CM\" додано"
    );

    // A plain user then queries the plate in lowercase Cyrillic.
    let user_state = awaiting(ContactInfo {
        user_id: Some(33),
        phone_number: "380505050505".to_string(),
    });
    let query = text_message("вт5527см");
    let o2 = expect_ok(step_turn(
        &user_state,
        &query,
        &QueryAnswer::CarValue(Some(stored)),
    ));
    let reply = o2.reply.expect("exact-match reply");
    assert!(reply.text.starts_with("Є точний збіг!"));
    assert!(reply.text.contains("Renault Trafic"));
    assert!(reply.text.contains("Номерний знак: BT5527CM"));
    assert!(o2.write.is_none());
}

#[test]
fn non_admin_long_text_never_writes() {
    // Even a perfectly valid rendering is not stored when the sender is
    // not an admin at that moment.
    let rec = CarInfo {
        reported_in_city: None,
        car_brand: Some("Нива".to_string()),
        car_color: None,
        comment: None,
        number_of_people: Some(2),
    };
    let submission = render_car_info(&rec, "АА1234ВВ");
    let state = awaiting(ContactInfo {
        user_id: Some(5),
        phone_number: "380111111111".to_string(),
    });
    let o = expect_ok(step_turn(
        &state,
        &text_message(&submission),
        &QueryAnswer::Exists(false),
    ));
    assert!(o.write.is_none());
    assert_eq!(o.reply.expect("guidance").text, GUIDANCE);
}

#[test]
fn admin_malformed_submission_gets_diagnostic() {
    let state = awaiting(admin_contact());
    let long_text = "це довгий текст який точно не відповідає формі запису";
    let o = expect_ok(step_turn(
        &state,
        &text_message(long_text),
        &QueryAnswer::Exists(true),
    ));
    assert!(o.write.is_none());
    assert!(o.reply.expect("diagnostic").text.starts_with("Не вдалось розібрати"));
}

#[test]
fn admin_submission_count_overflow_aborts_turn() {
    let state = awaiting(admin_contact());
    let text = "Номерний знак: AA1111AA\nАвто: ?\nКолір авто: ?\nОсобливості: ?\nЧисельність ДРГ: 1000\nМісто де вперше було зафіксовано: ?";
    let r = step_turn(&state, &text_message(text), &QueryAnswer::Exists(true));
    assert_eq!(r.err(), Some(TurnError::CountOutOfRange));
}

#[test]
fn corrupt_stored_record_aborts_turn() {
    let state = awaiting(admin_contact());
    let r = step_turn(
        &state,
        &text_message("аа1111вв"),
        &QueryAnswer::CarValue(Some("сміття".to_string())),
    );
    assert_eq!(r.err(), Some(TurnError::StoredRecordCorrupt));
}

#[test]
fn message_without_text_gets_guidance() {
    let state = awaiting(admin_contact());
    let msg = Incoming {
        chat_id: 77,
        is_private: true,
        contact: None,
        text: None,
    };
    assert!(matches!(plan_turn(&state, &msg), StoreQuery::NoQuery));
    let o = expect_ok(step_turn(&state, &msg, &QueryAnswer::NoAnswer));
    assert_eq!(o.reply.expect("guidance").text, GUIDANCE);
    assert!(o.write.is_none() && o.next_state.is_none());
}
