use mt_relay::parse::map_tr_to_arr;
use mt_relay::parse::string_to_temps;

const ADDRS: [u8; 3] = [0x48, 0x49, 0x4A];

#[test]
fn parses_canonical_line() {
    let r = string_to_temps("[48:1606][49:1665][4a:1314]");
    assert_eq!(r, Some([(0x48, 0x1606), (0x49, 0x1665), (0x4a, 0x1314)]));
}

#[test]
fn parses_uppercase_hex() {
    let r = string_to_temps("[4A:1FFE][48:00aB][49:FFFF]");
    assert_eq!(r, Some([(0x4a, 0x1ffe), (0x48, 0x00ab), (0x49, 0xffff)]));
}

#[test]
fn ignores_text_past_the_last_bracket() {
    let r = string_to_temps("[48:1606][49:1665][4a:1314]temp at 0x48");
    assert_eq!(r, Some([(0x48, 0x1606), (0x49, 0x1665), (0x4a, 0x1314)]));
}

#[test]
fn tolerates_trailing_line_terminator() {
    // everything past offset 26 is ignored, so an untrimmed terminator is
    // harmless; only leading whitespace shifts the brackets off their slots
    let r = string_to_temps("[48:1606][49:1665][4a:1314]\r\n");
    assert_eq!(r, Some([(0x48, 0x1606), (0x49, 0x1665), (0x4a, 0x1314)]));
    assert_eq!(string_to_temps(" [48:1606][49:1665][4a:1314]"), None);
}

#[test]
fn rejects_missing_opening_bracket() {
    assert_eq!(string_to_temps("48:1606][49:1665][4a:1314]"), None);
}

#[test]
fn rejects_missing_closing_bracket() {
    assert_eq!(string_to_temps("[48:1606][49:1665][4a:1314"), None);
}

#[test]
fn rejects_bracket_off_its_required_offset() {
    // one extra character shifts the terminal bracket away from offset 26
    assert_eq!(string_to_temps("[48:1606] [49:1665][4a:1314]"), None);
}

#[test]
fn rejects_non_hex_in_value_field() {
    assert_eq!(string_to_temps("[48:16g6][49:1665][4a:1314]"), None);
}

#[test]
fn rejects_non_hex_in_id_field() {
    assert_eq!(string_to_temps("[4z:1606][49:1665][4a:1314]"), None);
}

#[test]
fn rejects_empty_line() {
    assert_eq!(string_to_temps(""), None);
}

#[test]
fn maps_line_order_to_canonical_order() {
    let temps = [(0x49u8, 0x1665u16), (0x4a, 0x1314), (0x48, 0x1606)];
    assert_eq!(map_tr_to_arr(temps, ADDRS), Some([0x1606, 0x1665, 0x1314]));
}

#[test]
fn round_trip_reproduces_values_in_canonical_order() {
    let line = "[4a:1314][48:1606][49:1665]";
    let pairs = string_to_temps(line).expect("valid line");
    assert_eq!(map_tr_to_arr(pairs, ADDRS), Some([0x1606, 0x1665, 0x1314]));
}

#[test]
fn mapping_fails_when_a_sensor_is_missing() {
    let temps = [(0x48u8, 1u16), (0x49, 2), (0x47, 3)];
    assert_eq!(map_tr_to_arr(temps, ADDRS), None);
}

#[test]
fn duplicate_ids_inflate_the_match_count() {
    // Documented edge case: three matches in total are accepted even when
    // they all come from one canonical id.
    let temps = [(0x48u8, 1u16), (0x48, 2), (0x48, 3)];
    assert_eq!(map_tr_to_arr(temps, ADDRS), Some([1, 2, 3]));
    // Two matches for one id plus one for another overflow past three.
    let temps = [(0x48u8, 1u16), (0x48, 2), (0x49, 3)];
    assert_eq!(map_tr_to_arr(temps, ADDRS), Some([1, 2, 3]));
    // Four matches exceed the sensor count and are rejected.
    let temps = [(0x48u8, 1u16), (0x48, 2), (0x49, 3)];
    let addrs = [0x48, 0x48, 0x49];
    assert_eq!(map_tr_to_arr(temps, addrs), None);
}
