use fail2banmonitoring::date::{date_from_clock, format_date, local_today, make_ban_token, Date};
use fail2banmonitoring::extract::{extract_bans, BanLogExtractor};

fn lines(ls: &[&str]) -> Vec<String> {
    ls.iter().map(|l| l.to_string()).collect()
}

fn date(y: u16, m: u8, d: u8) -> Date {
    Date { year: y, month: m, day: d }
}

#[test]
fn formats_dates_with_padding() {
    assert_eq!(format_date(&date(2024, 3, 5)), "2024-03-05");
    assert_eq!(format_date(&date(2024, 12, 31)), "2024-12-31");
    assert_eq!(format_date(&date(999, 1, 1)), "0999-01-01");
}

#[test]
fn builds_the_ban_token() {
    assert_eq!(make_ban_token(&date(2024, 3, 5)), "Ban 2024-03-05 ");
}

#[test]
fn concrete_ban_line_is_extracted() {
    let log = lines(&[
        "2024-03-05 10:00:00 fail2ban.actions [123]: NOTICE [sshd] Ban 2024-03-05 10:00:00 203.0.113.7",
    ]);
    let ex = extract_bans(&log, &date(2024, 3, 5));
    assert_eq!(ex.records.len(), 1);
    assert_eq!(ex.records[0].date, date(2024, 3, 5));
    assert_eq!(ex.records[0].address, "203.0.113.7");
    assert_eq!(ex.malformed, 0);
}

#[test]
fn extraction_windows_on_the_target_date() {
    let log = lines(&[
        "2024-01-01 08:00:00 fail2ban.actions [11]: NOTICE [sshd] Ban 2024-01-01 08:00:00 198.51.100.1",
        "2024-01-02 09:00:00 fail2ban.actions [11]: NOTICE [sshd] Ban 2024-01-02 09:00:00 198.51.100.2",
        "2024-01-02 10:00:00 fail2ban.actions [11]: NOTICE [sshd] Ban 2024-01-02 10:00:00 198.51.100.3",
        "2024-01-02 11:00:00 some unrelated chatter",
    ]);
    let ex = extract_bans(&log, &date(2024, 1, 2));
    let addrs: Vec<&str> = ex.records.iter().map(|r| r.address.as_str()).collect();
    assert_eq!(addrs, vec!["198.51.100.2", "198.51.100.3"]);
    assert_eq!(ex.malformed, 0);
}

#[test]
fn extraction_is_repeatable() {
    let log = lines(&[
        "a Ban 2024-01-02 x 198.51.100.2",
        "junk",
        "b Ban 2024-01-02 y 198.51.100.3",
    ]);
    let d = date(2024, 1, 2);
    let first = extract_bans(&log, &d);
    let second = extract_bans(&log, &d);
    assert_eq!(first.records.len(), second.records.len());
    for (x, y) in first.records.iter().zip(second.records.iter()) {
        assert_eq!(x.date, y.date);
        assert_eq!(x.address, y.address);
    }
    assert_eq!(first.malformed, second.malformed);
}

#[test]
fn empty_log_yields_nothing() {
    let log: Vec<String> = Vec::new();
    let ex = extract_bans(&log, &date(2024, 3, 5));
    assert_eq!(ex.records.len(), 0);
    assert_eq!(ex.malformed, 0);
}

#[test]
fn no_matching_lines_yields_nothing() {
    let log = lines(&["only chatter", "Ban 2024-03-06 10:00:00 203.0.113.9"]);
    let ex = extract_bans(&log, &date(2024, 3, 5));
    assert_eq!(ex.records.len(), 0);
    assert_eq!(ex.malformed, 0);
}

#[test]
fn matching_line_without_address_is_counted_malformed() {
    let log = lines(&[
        "x Ban 2024-03-05 ",
        "y Ban 2024-03-05    ",
        "z Ban 2024-03-05 203.0.113.7",
    ]);
    let ex = extract_bans(&log, &date(2024, 3, 5));
    assert_eq!(ex.records.len(), 1);
    assert_eq!(ex.records[0].address, "203.0.113.7");
    assert_eq!(ex.malformed, 2);
}

#[test]
fn token_requires_a_trailing_separator() {
    // the ban token ends in a space, so a line that ends right after the
    // date does not match at all
    let log = lines(&["x Ban 2024-03-05"]);
    let ex = extract_bans(&log, &date(2024, 3, 5));
    assert_eq!(ex.records.len(), 0);
    assert_eq!(ex.malformed, 0);
}

#[test]
fn streaming_extraction_matches_the_whole_pass() {
    let log = lines(&[
        "a Ban 2024-01-02 x 198.51.100.2",
        "x Ban 2024-01-02 ",
        "junk",
        "b Ban 2024-01-02 y 198.51.100.3",
    ]);
    let d = date(2024, 1, 2);
    let mut streamed = BanLogExtractor::new(&d);
    assert_eq!(streamed.seen, 0);
    for line in &log {
        streamed.feed_line(line.as_str());
    }
    assert_eq!(streamed.seen, 4);
    let streamed = streamed.finish();
    let whole = extract_bans(&log, &d);
    assert_eq!(streamed.records.len(), whole.records.len());
    for (x, y) in streamed.records.iter().zip(whole.records.iter()) {
        assert_eq!(x.date, y.date);
        assert_eq!(x.address, y.address);
    }
    assert_eq!(streamed.malformed, whole.malformed);
    assert_eq!(streamed.malformed, 1);
}

#[test]
fn clock_readings_become_dates_only_in_range() {
    assert_eq!(date_from_clock(2024, 3, 5), Some(date(2024, 3, 5)));
    assert_eq!(date_from_clock(0, 1, 1), Some(date(0, 1, 1)));
    assert_eq!(date_from_clock(9999, 12, 31), Some(date(9999, 12, 31)));
    assert_eq!(date_from_clock(-1, 3, 5), None);
    assert_eq!(date_from_clock(10000, 3, 5), None);
}

#[test]
fn today_is_a_renderable_date() {
    let d = local_today().expect("the local clock year fits four digits");
    assert!(d.year <= 9999);
    assert!((1..=12).contains(&d.month));
    assert!((1..=31).contains(&d.day));
    let s = format_date(&d);
    assert_eq!(s.len(), 10);
    assert_eq!(&s[4..5], "-");
    assert_eq!(&s[7..8], "-");
}
