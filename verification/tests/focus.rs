use wmfocus::decimal::to_decimal;
use wmfocus::window::DesktopWindow;
use wmfocus::wm_i3::focus_window;

fn window(id: i64) -> DesktopWindow {
    DesktopWindow { id, title: String::from("any"), pos: (1, 2), size: (3, 4) }
}

#[test]
fn words_the_focus_command() {
    assert_eq!(focus_window(&window(94558)), "[con_id=\"94558\"] focus");
    assert_eq!(focus_window(&window(0)), "[con_id=\"0\"] focus");
    assert_eq!(focus_window(&window(7)), "[con_id=\"7\"] focus");
    assert_eq!(focus_window(&window(10)), "[con_id=\"10\"] focus");
}

#[test]
fn words_the_focus_command_for_a_negative_identifier() {
    assert_eq!(focus_window(&window(-1)), "[con_id=\"-1\"] focus");
    assert_eq!(focus_window(&window(-120)), "[con_id=\"-120\"] focus");
}

#[test]
fn words_the_focus_command_for_the_largest_identifiers() {
    assert_eq!(focus_window(&window(i64::MAX)), "[con_id=\"9223372036854775807\"] focus");
    assert_eq!(focus_window(&window(i64::MIN)), "[con_id=\"-9223372036854775808\"] focus");
}

#[test]
fn the_command_depends_on_the_identifier_alone() {
    let a = DesktopWindow { id: 5, title: String::from("a"), pos: (0, 0), size: (1, 1) };
    let b = DesktopWindow { id: 5, title: String::from("b"), pos: (9, 9), size: (2, 2) };
    assert_eq!(focus_window(&a), focus_window(&b));
}

#[test]
fn writes_numbers_in_decimal() {
    assert_eq!(to_decimal(0), "0");
    assert_eq!(to_decimal(9), "9");
    assert_eq!(to_decimal(10), "10");
    assert_eq!(to_decimal(1234567890), "1234567890");
    assert_eq!(to_decimal(-1), "-1");
    assert_eq!(to_decimal(-1000), "-1000");
    assert_eq!(to_decimal(i64::MAX), "9223372036854775807");
    assert_eq!(to_decimal(i64::MIN), "-9223372036854775808");
}

#[test]
fn writes_numbers_as_the_standard_library_does() {
    let mut v: i64 = -5000;
    while v <= 5000 {
        assert_eq!(to_decimal(v), v.to_string());
        v += 1;
    }
    let mut v: i64 = 1;
    while v < i64::MAX / 7 {
        assert_eq!(to_decimal(v), v.to_string());
        assert_eq!(to_decimal(-v), (-v).to_string());
        v *= 7;
    }
}

#[test]
fn different_identifiers_give_different_commands() {
    let ids: [i64; 8] = [0, 1, -1, 10, -10, 100, i64::MAX, i64::MIN];
    for a in ids {
        for b in ids {
            assert_eq!(focus_window(&window(a)) == focus_window(&window(b)), a == b);
        }
    }
}

#[test]
fn the_decimal_text_reads_back_as_the_number() {
    for v in [0i64, 5, 42, -42, 1000, -999, i64::MAX, i64::MIN] {
        assert_eq!(to_decimal(v).parse::<i64>(), Ok(v));
    }
}
