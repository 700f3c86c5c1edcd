use my_daily_newspaper::text::truncate;
use my_daily_newspaper::model::{Card, Edition, EditionStats, GameLine, ScoreBug, Settings, TeamLine};
use my_daily_newspaper::print::{
    lp_refusal, pdf_problem, print_file_expired,
    browser_args, browser_candidates, esc, lp_args, lp_confirmation, minutes_past, morning_outcome,
    morning_plan, named_printer, paragraphs, parse_default_printer, print_file_names, print_job_title,
    print_status, printer_from_list, render_html, roman, scoreboard_lines, site_name, stderr_tail,
    zone_from_date_output, MorningPlan, RenderOptions,
};
use my_daily_newspaper::print::{
    browser_for_pdf, browser_override, print_page_address, printer_choice, wants_scoreboard, PrinterChoice,
};
use my_daily_newspaper::render::{lead_html, story_html};

fn card(id: &str, kind: &str, size: &str, section: &str) -> Card {
    Card {
        id: id.into(),
        kind: kind.into(),
        size: size.into(),
        section: section.into(),
        headline: format!("Headline {id} <script>alert(1)</script>"),
        dek: "A \"quoted\" standfirst & more.".into(),
        story: Some("First paragraph.\n\nSecond paragraph.".into()),
        source: "Source & Co".into(),
        author: None,
        url: format!("https://example.com/{id}"),
        video_url: None,
        article_url: None,
        image: None,
        published: Some("2026-09-19T17:00:00Z".into()),
        why: None,
    }
}

fn edition() -> Edition {
    let mut lead = card("lead", "article", "lead", "Front Page");
    lead.video_url = Some("https://www.youtube.com/watch?v=abcdefghijk".into());
    lead.image = Some("https://img.example.com/a.jpg".into());
    Edition {
        date: "2026-09-20".into(),
        generated_at: "2026-09-20T06:02:00-07:00".into(),
        edition_no: 3,
        tagline: Some("All the news that's fit to print, literally".into()),
        sections: vec!["Front Page".into(), "Tech".into()],
        cards: vec![lead, card("f1", "video", "feature", "Front Page"), card("b1", "article", "brief", "Tech"), card("p1", "post", "brief", "Tech")],
        notes: vec![],
        stats: EditionStats::default(),
    }
}

#[test]
fn renders_every_story_escaped_with_qr_codes() {
    let html = render_html(&edition(), &RenderOptions::plain(false, true), &[], "");
    assert!(html.contains("Boise, Sunday, September 20, 2026"));
    assert!(html.contains("Priya\u{2019}s Daily</h1>"));
    assert!(!html.contains("Richard"));
    assert!(html.contains("Vol. I . . . No. 3"));
    assert!(html.contains("<body class=\"bw\">"));
    assert!(!html.contains("<script>alert(1)</script>"));
    assert!(html.contains("&lt;script&gt;"));
    assert!(html.contains("Source &amp; Co"));
    for id in ["lead", "f1", "b1"] {
        assert!(html.contains(&format!("Headline {id} ")), "missing {id}");
    }
    assert!(html.contains("Read more on example.com"));
    assert!(html.contains("See the video on YouTube"));
    assert!(!html.contains("example.com/lead"), "raw URLs don't belong on paper");
    // 4 primary links + the lead's video link
    assert_eq!(html.matches("<div class=\"qr\"><svg").count(), 5);
    assert!(html.contains("See the video"));
    assert!(html.contains("On X"));
    assert!(html.contains("<h2 class=\"desk\">Tech</h2>"));
    // the lead is not repeated inside its desk
    assert_eq!(html.matches("Headline lead").count(), 1);
}

#[test]
fn qr_and_colour_are_optional() {
    let html = render_html(&edition(), &RenderOptions::plain(true, false), &[], "");
    assert!(html.contains("<body>"));
    assert_eq!(html.matches("class=\"qr\"").count(), 0);
    assert!(html.contains("Read more"));
}

#[test]
fn printer_and_lp_arguments() {
    assert_eq!(parse_default_printer("system default destination: HP_LaserJet_M110w\n").as_deref(), Some("HP_LaserJet_M110w"));
    assert_eq!(parse_default_printer("no system default destination\n"), None);
    let s = Settings::default();
    let a = lp_args("HP", "/tmp/x y.pdf", "Sam's Daily 2026-09-20", &s);
    assert_eq!(a[0..2], ["-d".to_string(), "HP".to_string()]);
    assert!(a.contains(&"page-ranges=1-8".to_string()));
    assert!(a.contains(&"sides=two-sided-long-edge".to_string()));
    assert_eq!(a.last().unwrap(), "/tmp/x y.pdf");
}

#[test]
fn scoreboard_says_what_happened_and_what_is_next() {
    let team = |abbr: &str, name: &str, score: Option<u32>| TeamLine { abbr: abbr.into(), name: name.into(), score };
    let last = GameLine { game_pk: 1, state: "final".into(), detail: "Final/10".into(), start: "2020-01-01T02:10:00Z".into(), away: team("SF", "Giants", Some(3)), home: team("LAD", "Dodgers", Some(5)), we_are_home: true, url: String::new(), tv: vec![], situation: None };
    let next = GameLine { game_pk: 2, state: "preview".into(), detail: "Scheduled".into(), start: "2020-01-02T02:10:00Z".into(), away: team("LAD", "Dodgers", None), home: team("SD", "Padres", None), we_are_home: false, url: String::new(), tv: vec!["SportsNet LA".into(), "Apple TV+".into()], situation: None };
    let lines = scoreboard_lines(&ScoreBug { game: Some(last), next: Some(next) }, "PST");
    assert_eq!(lines.len(), 2);
    assert!(lines[0].starts_with("Final/10, "));
    assert!(lines[0].ends_with("Giants 3, Dodgers 5"));
    assert!(lines[1].starts_with("Next: Dodgers at Padres \u{00b7} "));
    assert!(lines[1].contains(" PST \u{00b7} SportsNet LA, Apple TV+"));
}

#[test]
fn links_are_named_not_spelled_out() {
    assert_eq!(site_name("https://www.youtube.com/watch?v=abcdefghijk"), "YouTube");
    assert_eq!(site_name("https://x.com/a/status/1"), "X");
    assert_eq!(site_name("https://www.dailywire.com/news/x"), "dailywire.com");
}

// ------------------------------------------------------------ more cases

#[test]
fn escapes_the_four_markup_characters() {
    assert_eq!(esc("a & b < c > d \"e\" 'f'"), "a &amp; b &lt; c &gt; d &quot;e&quot; 'f'");
    assert_eq!(esc(""), "");
    assert_eq!(esc("&amp;"), "&amp;amp;");
}

#[test]
fn escaped_text_has_no_markup() {
    let out = esc("<b onclick=\"x()\">&</b>");
    assert!(!out.contains('<') && !out.contains('>') && !out.contains('"'));
}

#[test]
fn roman_numerals_for_volumes() {
    assert_eq!(roman(1), "I");
    assert_eq!(roman(0), "I");
    assert_eq!(roman(4), "IV");
    assert_eq!(roman(9), "IX");
    assert_eq!(roman(14), "XIV");
    assert_eq!(roman(1994), "MCMXCIV");
    assert_eq!(roman(2026), "MMXXVI");
}

#[test]
fn paragraphs_split_at_blank_lines() {
    assert_eq!(paragraphs(Some("One.\n\n  Two. \n\n\n\nThree.")), vec!["One.", "Two.", "Three."]);
    assert_eq!(paragraphs(Some("a\n\n\nb")), vec!["a", "b"]);
    assert_eq!(paragraphs(Some("   ")), Vec::<String>::new());
    assert_eq!(paragraphs(None), Vec::<String>::new());
}

#[test]
fn site_names_fall_back_to_the_host() {
    assert_eq!(site_name("https://youtu.be/abc"), "YouTube");
    assert_eq!(site_name("https://twitter.com/a"), "X");
    assert_eq!(site_name("https://techcrunch.com/2026/x"), "techcrunch.com");
    assert_eq!(site_name("not a url"), "");
}

#[test]
fn scoreboard_without_games_is_empty() {
    let lines = scoreboard_lines(&ScoreBug { game: None, next: None }, "PST");
    assert!(lines.is_empty());
}

#[test]
fn scoreboard_before_first_pitch_shows_dashes_and_bad_times_stay_blank() {
    let team = |name: &str| TeamLine { abbr: String::new(), name: name.into(), score: None };
    let game = GameLine { game_pk: 1, state: "live".into(), detail: "Delayed".into(), start: "whenever".into(), away: team("Cubs"), home: team("Mets"), we_are_home: true, url: String::new(), tv: vec![], situation: None };
    let lines = scoreboard_lines(&ScoreBug { game: Some(game.clone()), next: Some(game) }, "");
    assert_eq!(lines, vec!["Delayed, : Cubs -, Mets -".to_string(), "Next: Mets vs. Cubs \u{00b7} ".to_string()]);
}

#[test]
fn press_room_ear_without_scoreboard_and_colophon() {
    let html = render_html(&edition(), &RenderOptions::plain(true, false), b"Man", "");
    assert!(html.contains("<span class=\"lab\">Press Room</span><b>4 stories</b>"));
    assert!(html.contains("0 searches"));
    assert!(html.contains("base64,TWFu) format"));
    assert!(html.contains("one subscriber</span><span>2026-09-20</span></div></body></html>"));
    assert!(html.contains("\u{201C}All the news that's fit to print, literally\u{201D}"));
}

#[test]
fn briefs_follow_the_other_stories_of_a_desk() {
    let mut e = edition();
    e.cards = vec![card("b1", "article", "brief", "Tech"), card("f2", "article", "feature", "Tech")];
    let html = render_html(&e, &RenderOptions::plain(true, false), &[], "");
    // b1 is the lead (first card), so only f2 is in the Tech desk.
    assert_eq!(html.matches("Headline b1").count(), 1);
    let mut e2 = edition();
    e2.cards = vec![card("l", "article", "lead", "Front Page"), card("b1", "article", "brief", "Tech"), card("f2", "article", "feature", "Tech")];
    let html2 = render_html(&e2, &RenderOptions::plain(true, false), &[], "");
    assert!(html2.find("Headline f2").unwrap() < html2.find("Headline b1").unwrap());
}

#[test]
fn unknown_dates_and_cities() {
    let mut e = edition();
    e.date = "someday".into();
    let mut o = RenderOptions::plain(true, false);
    o.city = "  ".into();
    let html = render_html(&e, &o, &[], "");
    assert!(html.contains("<span class=\"c\">someday</span>"));
    assert!(html.contains("Vol. I . . . No. 3"));
}

#[test]
fn zone_abbreviations_are_short() {
    assert_eq!(zone_from_date_output("PDT\n"), "PDT");
    assert_eq!(zone_from_date_output("  \n"), "");
    assert_eq!(zone_from_date_output("Pacific\n"), "");
    assert_eq!(zone_from_date_output("ÄÄÄ"), "");
}

#[test]
fn print_status_reports_the_first_problem() {
    let s = print_status(true, false, Ok("HP".into()));
    assert_eq!(s.problem.as_deref(), Some("Printing needs Google Chrome (or Edge / Brave) installed to make the PDF."));
    assert_eq!(s.printer.as_deref(), Some("HP"));
    let s = print_status(false, true, Err("no printer".into()));
    assert_eq!(s.problem.as_deref(), Some("no printer"));
    assert_eq!(s.printer, None);
    let s = print_status(false, true, Ok("HP".into()));
    assert_eq!(s.problem, None);
    assert!(s.browser_found && !s.print_daily);
}

#[test]
fn printers_from_the_list() {
    assert_eq!(printer_from_list("  \n"), Err("No printer is set up on this Mac (System Settings > Printers & Scanners).".to_string()));
    assert_eq!(printer_from_list(" HP \n"), Ok("HP".to_string()));
    assert_eq!(
        printer_from_list("A\r\nB\n"),
        Err("There are 2 printers and no default. Pick a default in System Settings > Printers & Scanners, or put one of these in settings.json as \"printer\": A, B".to_string())
    );
    let mut s = Settings::default();
    assert_eq!(named_printer(&s), None);
    s.printer = "  Office  ".into();
    assert_eq!(named_printer(&s).as_deref(), Some("Office"));
    assert_eq!(parse_default_printer("x\nsystem default destination:  Brother : extra\n").as_deref(), Some("Brother"));
    assert_eq!(parse_default_printer("system default destination:   \n"), None);
}

#[test]
fn lp_arguments_without_limit_or_duplex() {
    let mut s = Settings::default();
    s.print_max_pages = 0;
    s.print_duplex = false;
    let a = lp_args("P", "/x.pdf", "T", &s);
    assert_eq!(a, vec!["-d", "P", "-t", "T", "-o", "sides=one-sided", "-o", "media=Letter", "/x.pdf"]);
    assert_eq!(print_job_title("Sam's Daily", "2026-09-20"), "Sam's Daily 2026-09-20");
    assert_eq!(lp_confirmation("HP", " request id is HP-7 (1 file(s))\n"), "HP: request id is HP-7 (1 file(s))");
}

#[test]
fn browser_lookup_and_arguments() {
    let c = browser_candidates(Some("/Users/sam"));
    assert_eq!(c.len(), 13);
    assert_eq!(c[0], "/Applications/Google Chrome.app/Contents/MacOS/Google Chrome");
    assert_eq!(c[1], "/Users/sam/Applications/Google Chrome.app/Contents/MacOS/Google Chrome");
    assert_eq!(c[12], "/usr/bin/chromium-browser");
    assert_eq!(browser_candidates(None).len(), 8);
    let a = browser_args("/p", "/o.pdf", "file:///x.html", true);
    assert_eq!(a.len(), 13);
    assert_eq!(a[9], "--user-data-dir=/p");
    assert_eq!(a[10], "--print-to-pdf=/o.pdf");
    assert_eq!(a[11], "file:///x.html");
    assert_eq!(a[12], "--no-sandbox");
    assert_eq!(browser_args("/p", "/o.pdf", "u", false).len(), 12);
    let (h, p) = print_file_names("2026-09-20");
    assert_eq!(h, "2026-09-20.html");
    assert_eq!(p, "My Daily 2026-09-20.pdf");
    assert_eq!(stderr_tail("a\nb\nc\nd\n"), "d | c | b");
    assert_eq!(stderr_tail("only"), "only");
    assert_eq!(stderr_tail(""), "");
}

#[test]
fn morning_print_decisions() {
    assert_eq!(minutes_past(6, 30, 6, 0), 30);
    assert_eq!(minutes_past(5, 0, 6, 0), 23 * 60);
    assert_eq!(minutes_past(6, 0, 6, 0), 0);
    assert!(matches!(morning_plan(false, Some(false), None), MorningPlan::Quiet));
    assert!(matches!(morning_plan(true, None, None), MorningPlan::Quiet));
    match morning_plan(true, Some(true), Some(0)) {
        MorningPlan::Report(m) => assert_eq!(m, "Already printed today."),
        _ => panic!("expected a report"),
    }
    match morning_plan(true, Some(false), Some(7 * 60 + 5)) {
        MorningPlan::Report(m) => assert_eq!(m, "Not printing: this run is 7 hours past the delivery time. Use the Print button if you still want paper."),
        _ => panic!("expected a report"),
    }
    assert!(matches!(morning_plan(true, Some(false), Some(360)), MorningPlan::Print));
    assert!(matches!(morning_plan(true, Some(false), None), MorningPlan::Print));
    assert_eq!(morning_outcome(Ok("HP: ok".into())), "Sent to printer - HP: ok");
    assert_eq!(morning_outcome(Err("jam".into())), "Printing failed: jam");
}

#[test]
fn messages_are_cut_short() {
    assert_eq!(truncate("short", 10), "short");
    assert_eq!(truncate("exactly", 7), "exactly");
    assert_eq!(truncate("abcdefgh", 3), "abc\u{2026}");
    assert_eq!(truncate("\u{00e9}t\u{00e9} long", 2), "\u{00e9}t\u{2026}");
    let long = "x".repeat(300);
    let msg = lp_refusal("HP", &format!("  {long}\n"));
    assert_eq!(msg, format!("The printer \"HP\" refused the job: {}\u{2026}", "x".repeat(240)));
    assert_eq!(lp_refusal("HP", " paper jam \n"), "The printer \"HP\" refused the job: paper jam");
}

#[test]
fn small_pdfs_are_failures() {
    assert_eq!(pdf_problem(2_000, "whatever"), None);
    assert_eq!(pdf_problem(1_999, "one\ntwo\nthree\nfour\n").as_deref(), Some("The browser didn't produce a PDF. four | three | two"));
    assert_eq!(pdf_problem(0, "").as_deref(), Some("The browser didn't produce a PDF. "));
    assert!(print_file_expired(14 * 86_400 + 1));
    assert!(!print_file_expired(14 * 86_400));
    assert!(!print_file_expired(0));
}

#[test]
fn desks_follow_the_editor_then_the_stories() {
    let mut e = edition();
    e.sections = vec!["Tech".into(), "Front Page".into()];
    e.cards.push(card("s1", "article", "feature", "Sports"));
    e.cards.push(card("s2", "article", "feature", "Sports"));
    let html = render_html(&e, &RenderOptions::plain(true, false), &[], "");
    let tech = html.find("<h2 class=\"desk\">Tech</h2>").unwrap();
    let front = html.find("<h2 class=\"desk\">Front Page</h2>").unwrap();
    let sports = html.find("<h2 class=\"desk\">Sports</h2>").unwrap();
    assert!(tech < front && front < sports);
    assert_eq!(html.matches("<h2 class=\"desk\">Sports</h2>").count(), 1);
    for id in ["lead", "f1", "b1", "s1", "s2"] {
        assert_eq!(html.matches(&format!("Headline {id} ")).count(), 1, "{id}");
    }
    // A desk the editor names with no story in it prints nothing.
    e.sections.push("Weather".into());
    let html = render_html(&e, &RenderOptions::plain(true, false), &[], "");
    assert!(!html.contains("Weather"));
}

#[test]
fn every_story_carries_its_links_and_code() {
    let mut c = card("v", "video", "brief", "Tech");
    c.article_url = Some("https://news.example.org/a".into());
    for piece in [story_html(&c, &RenderOptions::plain(true, true)), lead_html(&c, &RenderOptions::plain(true, true))] {
        assert!(piece.contains("<b>See the video on example.com</b>"));
        assert!(piece.contains("<b>Read more on news.example.org</b>"));
        assert_eq!(piece.matches("<div class=\"qr\"><svg").count(), 2);
    }
    let plain = story_html(&c, &RenderOptions::plain(true, false));
    assert!(plain.contains("See the video on example.com") && !plain.contains("class=\"qr\""));
}

#[test]
fn printer_is_picked_one_step_at_a_time() {
    let mut s = Settings::default();
    assert!(matches!(printer_choice(&s, None, None), PrinterChoice::AskDefault));
    assert!(matches!(printer_choice(&s, Some("system default destination: HP\n"), None), PrinterChoice::Use(p) if p == "HP"));
    assert!(matches!(printer_choice(&s, Some("no system default destination\n"), None), PrinterChoice::AskList));
    assert!(matches!(printer_choice(&s, Some(""), Some("Only\n")), PrinterChoice::Use(p) if p == "Only"));
    assert!(matches!(printer_choice(&s, Some(""), Some("")), PrinterChoice::Refuse(e) if e.starts_with("No printer is set up")));
    s.printer = " Office ".into();
    assert!(matches!(printer_choice(&s, Some("system default destination: HP\n"), Some("A\nB\n")), PrinterChoice::Use(p) if p == "Office"));
}

#[test]
fn escaping_can_be_read_back() {
    let unesc = |t: &str| t.replace("&quot;", "\"").replace("&gt;", ">").replace("&lt;", "<").replace("&amp;", "&");
    for s in ["", "plain", "a & b", "<a href=\"x\">", "&amp; &lt;", "\"\"&&<<>>", "caf\u{00e9} \u{2019}"] {
        assert_eq!(unesc(&esc(s)), s);
    }
    assert_ne!(esc("&lt;"), esc("<"));
}

#[test]
fn browser_and_page_address_for_the_pdf() {
    assert_eq!(browser_override("  ~/bin/chrome \n").as_deref(), Some("~/bin/chrome"));
    assert_eq!(browser_override("   "), None);
    assert_eq!(browser_for_pdf(Some("/usr/bin/chromium".into())), Ok("/usr/bin/chromium".to_string()));
    assert_eq!(
        browser_for_pdf(None),
        Err("Printing needs Google Chrome (or Edge / Brave) to make the PDF, and I couldn't find one. Install Chrome, or set chromeBin in settings.json.".to_string())
    );
    assert!(wants_scoreboard(119));
    assert!(!wants_scoreboard(0));
    assert_eq!(print_page_address("/tmp/print/2026-09-20.html"), Ok("file:///tmp/print/2026-09-20.html".to_string()));
    assert_eq!(print_page_address("/tmp/x y.html"), Ok("file:///tmp/x%20y.html".to_string()));
    assert_eq!(print_page_address("relative/page.html"), Err("Couldn't build a file:// address for the print page.".to_string()));
}
