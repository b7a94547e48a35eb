use check_car_plates_telegram_bot::codec::{parse_car_info, render_car_info, ParseError};
use check_car_plates_telegram_bot::CarInfo;
use check_car_plates_telegram_bot::PartialLicensePlatesCarInfo;

fn full_record() -> CarInfo {
    CarInfo {
        reported_in_city: Some("Херсон".to_string()),
        car_brand: Some("Renault Trafic".to_string()),
        car_color: Some("Белый".to_string()),
        comment: Some("два з них символікою ССО".to_string()),
        number_of_people: Some(4),
    }
}

fn all_absent() -> CarInfo {
    CarInfo {
        reported_in_city: None,
        car_brand: None,
        car_color: None,
        comment: None,
        number_of_people: None,
    }
}

#[test]
fn render_all_absent_has_six_placeholders() {
    let text = render_car_info(&all_absent(), "?");
    assert_eq!(
        text,
        "Номерний знак: ?\nАвто: ?\nКолір авто: ?\nОсобливості: ?\nЧисельність ДРГ: ?\nМісто де вперше було зафіксовано: ?"
    );
    assert_eq!(text.matches('?').count(), 6);
}

#[test]
fn all_absent_parses_back_all_absent() {
    let text = render_car_info(&all_absent(), "АА0000АА");
    let (plate, rec) = parse_car_info(&text).expect("rendering parses");
    assert_eq!(plate, "AA0000AA");
    assert_eq!(rec, all_absent());
}

#[test]
fn round_trip_full_record() {
    let rec = full_record();
    let text = render_car_info(&rec, "ВТ5527СМ");
    let (plate, parsed) = parse_car_info(&text).expect("rendering parses");
    assert_eq!(plate, "BT5527CM");
    assert_eq!(parsed, rec);
}

#[test]
fn render_format_is_exact() {
    let rec = CarInfo {
        reported_in_city: Some("Херсон".to_string()),
        car_brand: Some("Нива".to_string()),
        car_color: None,
        comment: None,
        number_of_people: Some(255),
    };
    assert_eq!(
        render_car_info(&rec, "BT5527CM"),
        "Номерний знак: BT5527CM\nАвто: Нива\nКолір авто: ?\nОсобливості: ?\nЧисельність ДРГ: 255\nМісто де вперше було зафіксовано: Херсон"
    );
}

#[test]
fn parse_rejects_free_text() {
    assert_eq!(
        parse_car_info("просто якийсь текст без жодної з міток"),
        Err(ParseError::Malformed)
    );
}

#[test]
fn parse_rejects_missing_line() {
    // The color line is missing entirely.
    let text = "Номерний знак: AA1111AA\nАвто: Нива\nОсобливості: ?\nЧисельність ДРГ: ?\nМісто де вперше було зафіксовано: ?";
    assert_eq!(parse_car_info(text), Err(ParseError::Malformed));
}

#[test]
fn parse_rejects_nondigit_count() {
    let text = "Номерний знак: AA1111AA\nАвто: ?\nКолір авто: ?\nОсобливості: ?\nЧисельність ДРГ: багато\nМісто де вперше було зафіксовано: ?";
    assert_eq!(parse_car_info(text), Err(ParseError::Malformed));
}

#[test]
fn parse_count_overflow_is_fatal() {
    let text = "Номерний знак: AA1111AA\nАвто: ?\nКолір авто: ?\nОсобливості: ?\nЧисельність ДРГ: 300\nМісто де вперше було зафіксовано: ?";
    assert_eq!(parse_car_info(text), Err(ParseError::CountOutOfRange));
}

#[test]
fn parse_count_overflow_on_long_digit_run() {
    let text = "Номерний знак: AA1111AA\nАвто: ?\nКолір авто: ?\nОсобливості: ?\nЧисельність ДРГ: 99999999999999999999\nМісто де вперше було зафіксовано: ?";
    assert_eq!(parse_car_info(text), Err(ParseError::CountOutOfRange));
}

#[test]
fn parse_reads_count_digits() {
    let text = "Номерний знак: AA1111AA\nАвто: ?\nКолір авто: ?\nОсобливості: ?\nЧисельність ДРГ: 007\nМісто де вперше було зафіксовано: ?";
    let (_, rec) = parse_car_info(text).expect("parses");
    assert_eq!(rec.number_of_people, Some(7));
}

#[test]
fn parse_normalizes_the_plate_capture() {
    let text = "Номерний знак: вт 55-27 см\nАвто: ?\nКолір авто: ?\nОсобливості: ?\nЧисельність ДРГ: ?\nМісто де вперше було зафіксовано: ?";
    let (plate, _) = parse_car_info(text).expect("parses");
    assert_eq!(plate, "BT5527CM");
}

#[test]
fn parse_accepts_text_before_the_first_label() {
    let rec = full_record();
    let rendered = render_car_info(&rec, "BT5527CM");
    let pasted = format!("Є точний збіг!\n\n{rendered}");
    let (plate, parsed) = parse_car_info(&pasted).expect("pasted reply parses");
    assert_eq!(plate, "BT5527CM");
    assert_eq!(parsed, rec);
}

#[test]
fn partial_plate_matches_substring() {
    let partial = PartialLicensePlatesCarInfo {
        partial_license_plate: "2333".to_string(),
        car_info: all_absent(),
    };
    assert!(partial.matches("AA2333BB"));
    assert!(!partial.matches("AA2334BB"));
}
