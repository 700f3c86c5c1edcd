use my_daily_newspaper::clock::{
    day_label, local_time, long_date, long_date_or_given, scoreboard_lines_at, short_date, short_date_of,
    LocalTime,
};
use my_daily_newspaper::model::{GameLine, ScoreBug, TeamLine};
use my_daily_newspaper::render::{host_label, inline_svg_text, label_of_host, qr_svg, site_from_label};

fn reading(days: i64) -> LocalTime {
    LocalTime {
        days_from_today: days,
        weekday: "Sunday".into(),
        weekday_date: "Sun, Sep 20".into(),
        month_day: "Sep 20".into(),
        clock: "7:10 PM".into(),
    }
}

#[test]
fn dates_written_out_in_full() {
    assert_eq!(long_date("2026-09-20"), "Sunday, September 20, 2026");
    assert_eq!(long_date("2024-02-29"), "Thursday, February 29, 2024");
    assert_eq!(long_date("2026-13-01"), "2026-13-01");
    assert_eq!(long_date("someday"), "someday");
    assert_eq!(long_date_or_given(None, "someday"), "someday");
    assert_eq!(long_date_or_given(Some("Sunday, September 20, 2026".into()), "2026-09-20"), "Sunday, September 20, 2026");
}

#[test]
fn timestamps_read_locally() {
    let t = local_time("2026-09-19T17:00:00Z").expect("parses");
    assert!(t.clock.ends_with(" AM") || t.clock.ends_with(" PM"));
    assert!(t.month_day.starts_with("Sep ") || t.month_day.starts_with("Sept ") || t.month_day.starts_with("Sep"));
    assert!(local_time("yesterday").is_none());
    assert!(short_date(Some("2026-09-19T17:00:00+02:00")).is_some());
    assert_eq!(short_date(Some("2026-09-19")), None);
    assert_eq!(short_date(None), None);
}

#[test]
fn days_named_relative_to_today() {
    assert_eq!(day_label(&reading(0)), "Today");
    assert_eq!(day_label(&reading(1)), "Tomorrow");
    assert_eq!(day_label(&reading(-1)), "Yesterday");
    assert_eq!(day_label(&reading(2)), "Sunday");
    assert_eq!(day_label(&reading(6)), "Sunday");
    assert_eq!(day_label(&reading(7)), "Sun, Sep 20");
    assert_eq!(day_label(&reading(-2)), "Sun, Sep 20");
}

#[test]
fn scoreboard_from_known_readings() {
    let team = |name: &str, score: Option<u32>| TeamLine { abbr: String::new(), name: name.into(), score };
    let last = GameLine { game_pk: 1, state: "final".into(), detail: "Final".into(), start: String::new(), away: team("Giants", Some(3)), home: team("Dodgers", Some(5)), we_are_home: true, url: String::new(), tv: vec![], situation: None };
    let next = GameLine { game_pk: 2, state: "preview".into(), detail: String::new(), start: String::new(), away: team("Padres", None), home: team("Dodgers", None), we_are_home: true, url: String::new(), tv: vec!["SportsNet LA".into()], situation: None };
    let score = ScoreBug { game: Some(last), next: Some(next) };
    let lines = scoreboard_lines_at(&score, "PDT", &Some(reading(-1)), &Some(reading(1)));
    assert_eq!(lines, vec![
        "Final, Yesterday: Giants 3, Dodgers 5".to_string(),
        "Next: Dodgers vs. Padres \u{00b7} Tomorrow 7:10 PM PDT \u{00b7} SportsNet LA".to_string(),
    ]);
    let lines = scoreboard_lines_at(&score, "", &None, &Some(reading(3)));
    assert_eq!(lines[0], "Final, : Giants 3, Dodgers 5");
    assert_eq!(lines[1], "Next: Dodgers vs. Padres \u{00b7} Sunday 7:10 PM \u{00b7} SportsNet LA");
}

#[test]
fn qr_codes_are_inline_svg() {
    let svg = qr_svg("https://example.com/a").expect("short addresses encode");
    assert!(svg.starts_with("<svg"));
    assert!(!svg.contains("<?xml"));
    assert_eq!(qr_svg(&"a".repeat(8000)), None);
    assert_eq!(inline_svg_text("<?xml version=\"1.0\"?>\n<svg width=\"9\"/>".into()), "<svg width=\"9\"/>");
    assert_eq!(inline_svg_text("no drawing".into()), "no drawing");
}

#[test]
fn hosts_as_a_reader_says_them() {
    assert_eq!(host_label("https://www.dailywire.com/news/x"), "dailywire.com");
    assert_eq!(host_label("https://news.ycombinator.com/item?id=1"), "news.ycombinator.com");
    assert_eq!(host_label("mailto:someone@example.com"), "");
    assert_eq!(label_of_host(Some("www.a.com".into())), "a.com");
    assert_eq!(label_of_host(Some("wwwa.com".into())), "wwwa.com");
    assert_eq!(label_of_host(None), "");
    assert_eq!(site_from_label("m.youtube.com".into()), "YouTube");
    assert_eq!(site_from_label("twitter.com".into()), "X");
    assert_eq!(site_from_label("example.org".into()), "example.org");
}

const MONTHS: [&str; 12] = ["Jan", "Feb", "Mar", "Apr", "May", "Jun", "Jul", "Aug", "Sep", "Oct", "Nov", "Dec"];
const WEEKDAYS: [&str; 7] = ["Monday", "Tuesday", "Wednesday", "Thursday", "Friday", "Saturday", "Sunday"];

fn month_day_form(s: &str) -> bool {
    match s.split_once(' ') {
        Some((m, d)) => {
            MONTHS.contains(&m)
                && !d.starts_with('0')
                && d.parse::<u32>().map(|n| (1..=31).contains(&n)).unwrap_or(false)
                && d.chars().all(|c| c.is_ascii_digit())
        }
        None => false,
    }
}

fn clock_form(s: &str) -> bool {
    let (time, half) = match s.split_once(' ') {
        Some(p) => p,
        None => return false,
    };
    let (h, m) = match time.split_once(':') {
        Some(p) => p,
        None => return false,
    };
    (half == "AM" || half == "PM")
        && !h.starts_with('0')
        && h.parse::<u32>().map(|n| (1..=12).contains(&n)).unwrap_or(false)
        && m.len() == 2
        && m.parse::<u32>().map(|n| n < 60).unwrap_or(false)
}

#[test]
fn readings_have_the_printed_shapes() {
    for iso in ["2026-09-19T17:00:00Z", "2026-01-01T00:00:00+14:00", "2020-02-29T23:59:59-12:00", "1999-12-31T12:30:00Z"] {
        let t = local_time(iso).expect("parses");
        assert!(month_day_form(&t.month_day), "{}", t.month_day);
        assert!(WEEKDAYS.contains(&t.weekday.as_str()), "{}", t.weekday);
        assert_eq!(t.weekday_date, format!("{}, {}", &t.weekday[..3], t.month_day));
        assert!(clock_form(&t.clock), "{}", t.clock);
        let d = short_date(Some(iso)).expect("parses");
        assert!(month_day_form(&d));
        assert_eq!(d, t.month_day);
    }
    assert_eq!(short_date_of(Some(reading(0))).as_deref(), Some("Sep 20"));
    assert_eq!(short_date_of(None), None);
}
