use my_daily_newspaper::schedule::{
    agent_relative_path, carried_over_time, delivery_unsupported, registration_outcome, delivery_plist, parse_time, parse_uid, plist, schedule_info, xml_escape,
};

#[test]
fn plist_round_trips_and_escapes() {
    let text = plist("/Applications/My Daily Newspaper.app/Contents/MacOS/my-daily-newspaper", "/Users/r&d/Library/x.log", 6, 30);
    assert_eq!(parse_time(&text), Some((6, 30)));
    assert!(text.contains("<string>/Applications/My Daily Newspaper.app/Contents/MacOS/my-daily-newspaper</string>"));
    assert!(text.contains("<string>--refresh-only</string>"));
    assert!(text.contains("/Users/r&amp;d/Library/x.log"));
    assert!(!text.contains("r&d"));
}

#[test]
fn rejects_nonsense_times() {
    assert_eq!(parse_time("<key>Hour</key><integer>25</integer>"), None);
    assert_eq!(parse_time("no schedule here"), None);
    assert_eq!(parse_time("<key>Hour</key>\n <integer>7</integer>"), Some((7, 0)));
}

// ------------------------------------------------------------ more cases

#[test]
fn reads_the_first_entries_and_defaults_the_minute() {
    assert_eq!(parse_time("<key>Hour</key><integer>7</integer><key>Minute</key>\t<integer>05</integer>"), Some((7, 5)));
    assert_eq!(parse_time("<key>Hour</key><integer>7</integer><key>Minute</key><integer>75</integer>"), None);
    assert_eq!(parse_time("<key>Hour</key><integer>123</integer>"), None);
    assert_eq!(parse_time("<key>Hour</key><integer>x</integer><key>Hour</key><integer>8</integer>"), Some((8, 0)));
    assert_eq!(parse_time("<key>Hour</key><integer>23</integer><key>Minute</key><integer></integer>"), Some((23, 0)));
    assert_eq!(parse_time("<key>Hour</key><integer>\u{0663}</integer>"), None);
}

#[test]
fn every_delivery_time_reads_back() {
    for h in [0u32, 6, 9, 10, 23] {
        for m in [0u32, 5, 30, 59] {
            let text = plist("/a<b>&c", "/l", h, m);
            assert_eq!(parse_time(&text), Some((h, m)));
        }
    }
    assert_eq!(parse_time(&delivery_plist("/a", "/l", 99, 99)), Some((23, 59)));
}

#[test]
fn the_switch_shows_the_installed_schedule() {
    let on = schedule_info(true, Some(&plist("/a", "/l", 7, 15)));
    assert!(on.supported && on.enabled && on.hour == 7 && on.minute == 15);
    let off = schedule_info(true, None);
    assert!(off.supported && !off.enabled && off.hour == 6 && off.minute == 0);
    let elsewhere = schedule_info(false, Some(&plist("/a", "/l", 7, 15)));
    assert!(!elsewhere.supported && !elsewhere.enabled && elsewhere.hour == 6);
    assert_eq!(carried_over_time(false, &plist("/a", "/l", 5, 45)), Some((5, 45)));
    assert_eq!(carried_over_time(true, &plist("/a", "/l", 5, 45)), None);
}

#[test]
fn helpers_for_the_agent() {
    assert_eq!(xml_escape("a&b<c>d\"e"), "a&amp;b&lt;c&gt;d\"e");
    assert_eq!(agent_relative_path("com.x"), "Library/LaunchAgents/com.x.plist");
    assert_eq!(parse_uid(" 501\n"), Ok("501".to_string()));
    assert_eq!(parse_uid("abc"), Err("Couldn't work out your user id.".to_string()));
    assert_eq!(parse_uid("\n"), Err("Couldn't work out your user id.".to_string()));
}

#[test]
fn the_plist_holds_every_entry() {
    let text = plist("/Apps/A&B", "/logs/<x>.log", 7, 5);
    assert!(text.contains("<string>com.mydailynewspaper.refresh</string>"));
    assert!(text.contains("<string>/Apps/A&amp;B</string>"));
    assert!(text.contains("<string>--refresh-only</string>"));
    assert!(text.contains("<key>Hour</key>\n    <integer>7</integer>"));
    assert!(text.contains("<key>Minute</key>\n    <integer>5</integer>"));
    assert_eq!(text.matches("<string>/logs/&lt;x&gt;.log</string>").count(), 2);
    assert_eq!(text.matches('<').count(), plist("", "", 7, 5).matches('<').count());
}

#[test]
fn switching_delivery_on_and_registering_it() {
    assert_eq!(delivery_unsupported(true), None);
    assert_eq!(delivery_unsupported(false).as_deref(), Some("Morning delivery uses macOS's scheduler, so it only works on a Mac."));
    assert_eq!(registration_outcome(true, false, "ignored"), Ok(()));
    assert_eq!(registration_outcome(false, true, "Bootstrap failed: 5"), Ok(()));
    assert_eq!(
        registration_outcome(false, false, " Bootstrap failed: 5: Input/output error\n"),
        Err("macOS wouldn't register the schedule: Bootstrap failed: 5: Input/output error".to_string())
    );
}
