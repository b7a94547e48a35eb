use check_car_plates_telegram_bot::normalize_license_plate;

#[test]
fn normalize_mixed_script_cyrillic_suffix() {
    assert_eq!(normalize_license_plate("вт 12-34 см"), "BT1234CM");
}

#[test]
fn normalize_mixed_script_latin_suffix() {
    assert_eq!(normalize_license_plate("вт 12-34 cm"), "BT1234CM");
}

#[test]
fn normalize_is_idempotent_on_samples() {
    for raw in [
        "вт 12-34 см",
        "ВТ5527СМ",
        "ab-12-cd",
        "  в т ",
        "?",
        "Київ 777",
    ] {
        let once = normalize_license_plate(raw);
        let twice = normalize_license_plate(&once);
        assert_eq!(twice, once);
    }
}

#[test]
fn normalize_uppercases_latin() {
    assert_eq!(normalize_license_plate("abc123"), "ABC123");
}

#[test]
fn normalize_strips_punctuation_and_spaces() {
    assert_eq!(normalize_license_plate("a.b,c !-d"), "ABCD");
}

#[test]
fn normalize_keeps_cyrillic_outside_the_table() {
    // 'б' has no Latin look-alike in the table; it is uppercased and kept
    // between the mapped Latin letters.
    assert_eq!(normalize_license_plate("абв"), "A\u{411}B");
}

#[test]
fn normalize_empty_is_empty() {
    assert_eq!(normalize_license_plate(""), "");
}

#[test]
fn normalize_handles_multi_character_uppercase() {
    // One character may uppercase to several; all of them are kept.
    assert_eq!(normalize_license_plate("staße 7"), "STASSE7");
    let once = normalize_license_plate("staße 7");
    assert_eq!(normalize_license_plate(&once), once);
}

#[test]
fn normalize_uppercases_each_homoglyph() {
    // Lowercase Cyrillic homoglyphs go through uppercasing first, so the
    // table applies to all thirteen.
    assert_eq!(
        normalize_license_plate("а в е к м і н о р с т у х"),
        "ABEKMIHOPCTYX"
    );
}
