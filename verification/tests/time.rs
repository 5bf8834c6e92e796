use kanshi::time::format_duration;

#[test]
fn test_time_formatting() {
    assert_eq!("14d", format_duration(1_209_600));
    assert_eq!("1m", format_duration(60));
}

#[test]
fn zero_duration_shows_seconds() {
    assert_eq!("0s", format_duration(0));
}

#[test]
fn all_units_are_shown_in_order() {
    assert_eq!("1d 2h 3m 4s", format_duration(86_400 + 2 * 3_600 + 3 * 60 + 4));
}

#[test]
fn zero_units_in_between_are_left_out() {
    assert_eq!("1d 5s", format_duration(86_405));
    assert_eq!("2h", format_duration(7_200));
}

#[test]
fn largest_duration() {
    assert_eq!("213503982334601d 7h 15s", format_duration(u64::MAX));
}

fn read_back(text: &str) -> u64 {
    text.split(' ')
        .map(|tok| {
            let (digits, unit) = tok.split_at(tok.len() - 1);
            let v: u64 = digits.parse().unwrap();
            v * match unit {
                "d" => 86_400,
                "h" => 3_600,
                "m" => 60,
                _ => 1,
            }
        })
        .sum()
}

#[test]
fn formatted_durations_read_back() {
    for t in [0u64, 1, 59, 60, 61, 3_600, 3_661, 86_399, 86_400, 90_061, 1_209_600, 1_209_000, u64::MAX] {
        assert_eq!(t, read_back(&format_duration(t)));
    }
}
