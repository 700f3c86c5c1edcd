//! Morning delivery: the launchd job that refreshes the paper once a day.
//!
//! The job's property list is the single record of whether delivery is on
//! and when. This module writes that property list, reads the delivery time
//! back out of it, and decides what the schedule switch reports.

use vstd::prelude::*;

use crate::text::{
    all_ascii_digits, breaks_off, chars_of, contains, count_char, decimal, is_ascii_digit, is_white_space,
    lemma_count_concat, lemma_decimal_count, lemma_decimal_parses, lemma_no_occurrence, lemma_opens_no_key, lemma_opens_no_key_concat,
    lemma_opens_no_key_free, matches_at, occurs_at, opens_no_key, opens_no_key_from, opt_str_view, opt_view,
    parse_u32, parse_u32_range, push_char, push_decimal, to_owned, trim, trimmed, white_space,
};

verus! {

/// The launchd label of the morning job.
pub const LABEL: &'static str = "com.mydailynewspaper.refresh";

/// What the job was called when the paper had its earlier name.
pub const LEGACY_LABEL: &'static str = "com.richardgarza.daily.refresh";

/// The command-line switch that makes the app refresh and quit.
pub const REFRESH_FLAG: &'static str = "--refresh-only";

/// Whether delivery is on and when, as the schedule switch shows it.
#[derive(Clone, Debug)]
pub struct ScheduleInfo {
    /// False anywhere but macOS.
    pub supported: bool,
    pub enabled: bool,
    pub hour: u32,
    pub minute: u32,
}

// ------------------------------------------------------------ xml escape

/// How one character is written inside a property-list string.
pub open spec fn xml_char(c: char) -> Seq<char> {
    if c == '&' {
        seq!['&', 'a', 'm', 'p', ';']
    } else if c == '<' {
        seq!['&', 'l', 't', ';']
    } else if c == '>' {
        seq!['&', 'g', 't', ';']
    } else {
        seq![c]
    }
}

/// `s` with `&`, `<` and `>` written as entities.
pub open spec fn xml_escaped(s: Seq<char>) -> Seq<char>
    decreases s.len(),
{
    if s.len() == 0 {
        seq![]
    } else {
        xml_escaped(s.drop_last()) + xml_char(s.last())
    }
}

/// Escapes `&`, `<` and `>` for a property-list string.
pub fn xml_escape(s: &str) -> (r: String)
    ensures
        r@ == xml_escaped(s@),
{
    let v = chars_of(s);
    let mut r = String::new();
    let mut i: usize = 0;
    while i < v.len()
        invariant
            i <= v@.len(),
            v@ == s@,
            r@ == xml_escaped(v@.take(i as int)),
        decreases v@.len() - i,
    {
        let c = v[i];
        proof {
            assert(v@.take(i + 1).drop_last() =~= v@.take(i as int));
        }
        if c == '&' {
            push_char(&mut r, '&');
            push_char(&mut r, 'a');
            push_char(&mut r, 'm');
            push_char(&mut r, 'p');
            push_char(&mut r, ';');
        } else if c == '<' {
            push_char(&mut r, '&');
            push_char(&mut r, 'l');
            push_char(&mut r, 't');
            push_char(&mut r, ';');
        } else if c == '>' {
            push_char(&mut r, '&');
            push_char(&mut r, 'g');
            push_char(&mut r, 't');
            push_char(&mut r, ';');
        } else {
            push_char(&mut r, c);
        }
        proof {
            assert(r@ =~= xml_escaped(v@.take(i + 1)));
        }
        i = i + 1;
    }
    proof {
        assert(v@.take(v@.len() as int) =~= v@);
    }
    r
}

// ------------------------------------------------------------ the plist

/// Opening of the property list, up to the job's label.
pub open spec fn plist_head() -> Seq<char> {
    plist_declaration() + plist_doctype() + plist_label()
}

/// The XML declaration.
pub open spec fn plist_declaration() -> Seq<char> {
    "<?xml version=\"1.0\" encoding=\"UTF-8\"?>\n"@
}

/// The property-list document type.
pub open spec fn plist_doctype() -> Seq<char> {
    "<!DOCTYPE plist PUBLIC \"-//Apple//DTD PLIST 1.0//EN\" "@ + plist_dtd()
}

/// Where the property-list document type is defined.
pub open spec fn plist_dtd() -> Seq<char> {
    "\"http://www.apple.com/DTDs/PropertyList-1.0.dtd\">\n"@
}

/// The opening of the job's dictionary, up to its label.
pub open spec fn plist_label() -> Seq<char> {
    "<plist version=\"1.0\">\n<dict>\n  <key>Label</key>\n  <string>"@
}

/// Between the label and the program's path.
pub open spec fn plist_program() -> Seq<char> {
    "</string>\n  <key>ProgramArguments</key>\n  <array>\n    <string>"@
}

/// Between the program's path and the refresh switch.
pub open spec fn plist_argument() -> Seq<char> {
    "</string>\n    <string>"@
}

/// Between the refresh switch and the delivery hour's key.
pub open spec fn plist_calendar() -> Seq<char> {
    "</string>\n  </array>\n  <key>StartCalendarInterval</key>\n  <dict>\n    "@
}

/// The line break and indent in front of each tag of the calendar entry.
pub open spec fn plist_indent() -> Seq<char> {
    "\n    "@
}

/// Opening tag of a number.
pub open spec fn integer_open() -> Seq<char> {
    "<integer>"@
}

/// Closing tag of a number.
pub open spec fn integer_close() -> Seq<char> {
    "</integer>"@
}

/// After the delivery minute's closing tag, up to the log's path.
pub open spec fn plist_output() -> Seq<char> {
    "\n  </dict>\n  <key>RunAtLoad</key>\n  <false/>\n  <key>StandardOutPath</key>\n  <string>"@
}

/// Between the two mentions of the log's path.
pub open spec fn plist_error() -> Seq<char> {
    "</string>\n  <key>StandardErrorPath</key>\n  <string>"@
}

/// Closing of the property list.
pub open spec fn plist_tail() -> Seq<char> {
    "</string>\n</dict>\n</plist>\n"@
}

/// Everything in front of the delivery hour's key.
pub open spec fn plist_before_hour(exe: Seq<char>) -> Seq<char> {
    plist_head() + LABEL@ + plist_program() + xml_escaped(exe) + plist_argument() + REFRESH_FLAG@
        + plist_calendar()
}

/// Everything in front of the delivery minute's key.
pub open spec fn plist_before_minute(exe: Seq<char>, hour: u32) -> Seq<char> {
    plist_before_hour(exe) + hour_key() + plist_indent() + integer_open() + decimal(hour as nat)
        + integer_close() + plist_indent()
}

/// The property list of the morning job: run the app at `exe` with the
/// refresh switch at `hour:minute` every day, logging to `log`.
pub open spec fn plist_text(exe: Seq<char>, log: Seq<char>, hour: u32, minute: u32) -> Seq<char> {
    plist_before_minute(exe, hour) + minute_key() + plist_indent() + integer_open() + decimal(
        minute as nat,
    ) + integer_close() + plist_output() + xml_escaped(log) + plist_error() + xml_escaped(log) + plist_tail()
}

/// The launchd property list for the morning job.
pub fn plist(exe: &str, log: &str, hour: u32, minute: u32) -> (r: String)
    ensures
        r@ == plist_text(exe@, log@, hour, minute),
{
    let exe_esc = xml_escape(exe);
    let log_esc = xml_escape(log);
    let mut r = String::new();
    r.append("<?xml version=\"1.0\" encoding=\"UTF-8\"?>\n");
    r.append("<!DOCTYPE plist PUBLIC \"-//Apple//DTD PLIST 1.0//EN\" ");
    r.append("\"http://www.apple.com/DTDs/PropertyList-1.0.dtd\">\n");
    r.append("<plist version=\"1.0\">\n<dict>\n  <key>Label</key>\n  <string>");
    r.append(LABEL);
    r.append("</string>\n  <key>ProgramArguments</key>\n  <array>\n    <string>");
    r.append(exe_esc.as_str());
    r.append("</string>\n    <string>");
    r.append(REFRESH_FLAG);
    r.append("</string>\n  </array>\n  <key>StartCalendarInterval</key>\n  <dict>\n    ");
    r.append("<key>Hour</key>");
    r.append("\n    ");
    r.append("<integer>");
    push_decimal(&mut r, hour as u64);
    r.append("</integer>");
    r.append("\n    ");
    r.append("<key>Minute</key>");
    r.append("\n    ");
    r.append("<integer>");
    push_decimal(&mut r, minute as u64);
    r.append("</integer>");
    r.append(
        "\n  </dict>\n  <key>RunAtLoad</key>\n  <false/>\n  <key>StandardOutPath</key>\n  <string>",
    );
    r.append(log_esc.as_str());
    r.append("</string>\n  <key>StandardErrorPath</key>\n  <string>");
    r.append(log_esc.as_str());
    r.append("</string>\n</dict>\n</plist>\n");
    proof {
        assert(r@ =~= plist_text(exe@, log@, hour, minute));
    }
    r
}

// --------------------------------------------------- reading the time back

/// Whether `c` is in the `\d` class of the regex crate, which the crate
/// documents as the Unicode decimal digits (`\p{Nd}`).
pub uninterp spec fn regex_decimal_digit(c: char) -> bool;

/// regex: `Regex::new(r"^\d$")` and `is_match` on the one-character text
/// `c`. Claimed: the result is `regex_decimal_digit(c)`, a function of the
/// character alone.
#[verifier::external_body]
fn in_regex_digit_class(c: char) -> (r: bool)
    ensures
        r == regex_decimal_digit(c),
{
    let mut buf = [0u8; 4];
    match regex::Regex::new(r"^\d$") {
        Ok(re) => re.is_match(c.encode_utf8(&mut buf)),
        Err(_) => false,
    }
}

/// A character the pattern's `\d` accepts. Among ASCII characters the
/// decimal digits are exactly '0' to '9'; whether any other character is one
/// is the regex crate's call.
pub open spec fn is_capture_digit(c: char) -> bool {
    if (c as u32) < 128 {
        is_ascii_digit(c)
    } else {
        regex_decimal_digit(c)
    }
}

fn capture_digit(c: char) -> (r: bool)
    ensures
        r == is_capture_digit(c),
{
    if (c as u32) < 128 {
        '0' <= c && c <= '9'
    } else {
        in_regex_digit_class(c)
    }
}

/// The key line that opens the delivery hour.
pub open spec fn hour_key() -> Seq<char> {
    "<key>Hour</key>"@
}

/// The key line that opens the delivery minute.
pub open spec fn minute_key() -> Seq<char> {
    "<key>Minute</key>"@
}

/// Number of white-space characters of `t` from `j` on.
pub open spec fn white_run(t: Seq<char>, j: int) -> nat
    decreases t.len() - j,
{
    if 0 <= j < t.len() && is_white_space(t[j]) {
        1 + white_run(t, j + 1)
    } else {
        0
    }
}

/// The digits that the pattern `{key}\s*<integer>(\d{1,2})</integer>`
/// captures when it matches `t` starting at `i`; `None` where it does not
/// match there.
pub open spec fn capture_at(t: Seq<char>, key: Seq<char>, i: int) -> Option<Seq<char>> {
    if !occurs_at(t, key, i) {
        None
    } else {
        let k = i + key.len() + white_run(t, i + key.len());
        let d = k + "<integer>"@.len();
        if !occurs_at(t, "<integer>"@, k) {
            None
        } else if d + 1 < t.len() && is_capture_digit(t[d]) && is_capture_digit(t[d + 1])
            && occurs_at(t, "</integer>"@, d + 2) {
            Some(t.subrange(d, d + 2))
        } else if d < t.len() && is_capture_digit(t[d]) && occurs_at(t, "</integer>"@, d + 1) {
            Some(t.subrange(d, d + 1))
        } else {
            None
        }
    }
}

/// The capture of the leftmost match of the pattern at or after `from`.
pub open spec fn first_capture(t: Seq<char>, key: Seq<char>, from: int) -> Option<Seq<char>>
    decreases t.len() + 1 - from,
{
    if from < 0 || from > t.len() {
        None
    } else {
        match capture_at(t, key, from) {
            Some(c) => Some(c),
            None => first_capture(t, key, from + 1),
        }
    }
}

/// The delivery time a property list holds: the hour from the first
/// `<key>Hour</key>` entry, the minute from the first `<key>Minute</key>`
/// entry (0 when there is none or it is no number), and only when the hour
/// is below 24 and the minute below 60.
pub open spec fn time_in(t: Seq<char>) -> Option<(u32, u32)> {
    match first_capture(t, hour_key(), 0) {
        None => None,
        Some(hc) => match parse_u32(hc) {
            None => None,
            Some(h) => {
                let m = match first_capture(t, minute_key(), 0) {
                    Some(mc) => match parse_u32(mc) {
                        Some(m) => m,
                        None => 0,
                    },
                    None => 0,
                };
                if h < 24 && m < 60 {
                    Some((h, m))
                } else {
                    None
                }
            },
        },
    }
}

fn white_run_from(t: &[char], j: usize) -> (n: usize)
    requires
        j <= t@.len(),
    ensures
        n == white_run(t@, j as int),
        j + n <= t@.len(),
{
    let mut k = j;
    while k < t.len() && white_space(t[k])
        invariant
            j <= k <= t@.len(),
            white_run(t@, j as int) == (k - j) + white_run(t@, k as int),
        decreases t@.len() - k,
    {
        k = k + 1;
    }
    k - j
}

/// Where the pattern's capture lies when it matches at `i`.
fn capture_bounds_at(t: &[char], key: &[char], integer_open: &[char], integer_close: &[char], i: usize) -> (r: Option<(usize, usize)>)
    requires
        integer_open@ == "<integer>"@,
        integer_close@ == "</integer>"@,
    ensures
        match r {
            Some((a, b)) => a <= b <= t@.len() && capture_at(t@, key@, i as int) == Some(
                t@.subrange(a as int, b as int),
            ),
            None => capture_at(t@, key@, i as int) is None,
        },
{
    let n = t.len();
    if !matches_at(t, key, i) {
        return None;
    }
    assert(i + key@.len() <= n);
    let j = i + key.len();
    let k = j + white_run_from(t, j);
    if !matches_at(t, integer_open, k) {
        return None;
    }
    assert(k + integer_open@.len() <= n);
    let d = k + integer_open.len();
    if n - d >= 2 && capture_digit(t[d]) && capture_digit(t[d + 1]) && matches_at(t, integer_close, d + 2) {
        return Some((d, d + 2));
    }
    if d < t.len() && capture_digit(t[d]) && matches_at(t, integer_close, d + 1) {
        return Some((d, d + 1));
    }
    None
}

/// Where the capture of the leftmost match lies.
fn first_capture_bounds(t: &[char], key: &[char]) -> (r: Option<(usize, usize)>)
    ensures
        match r {
            Some((a, b)) => a <= b <= t@.len() && first_capture(t@, key@, 0) == Some(
                t@.subrange(a as int, b as int),
            ),
            None => first_capture(t@, key@, 0) is None,
        },
{
    let integer_open = chars_of("<integer>");
    let integer_close = chars_of("</integer>");
    let mut i: usize = 0;
    loop
        invariant
            i <= t@.len(),
            integer_open@ == "<integer>"@,
            integer_close@ == "</integer>"@,
            first_capture(t@, key@, 0) == first_capture(t@, key@, i as int),
        decreases t@.len() - i,
    {
        match capture_bounds_at(t, key, &integer_open, &integer_close, i) {
            Some(b) => {
                return Some(b);
            },
            None => {},
        }
        if i == t.len() {
            proof {
                assert(first_capture(t@, key@, i + 1) is None);
            }
            return None;
        }
        i = i + 1;
    }
}

/// The delivery time written in a property list, if it holds a valid one.
pub fn parse_time(plist_text: &str) -> (r: Option<(u32, u32)>)
    ensures
        r == time_in(plist_text@),
{
    let t = chars_of(plist_text);
    let hour_key_chars = chars_of("<key>Hour</key>");
    let minute_key_chars = chars_of("<key>Minute</key>");
    let h = match first_capture_bounds(&t, &hour_key_chars) {
        None => {
            return None;
        },
        Some((a, b)) => match parse_u32_range(&t, a, b) {
            None => {
                return None;
            },
            Some(h) => h,
        },
    };
    let m = match first_capture_bounds(&t, &minute_key_chars) {
        Some((a, b)) => match parse_u32_range(&t, a, b) {
            Some(m) => m,
            None => 0,
        },
        None => 0,
    };
    if h < 24 && m < 60 {
        Some((h, m))
    } else {
        None
    }
}


// ------------------------------------------------------ the schedule switch

/// The delivery time the switch reports: the one in the job's property list
/// when the platform has one and the list holds a valid time.
pub open spec fn reported_time(supported: bool, text: Option<Seq<char>>) -> Option<(u32, u32)> {
    if !supported {
        None
    } else {
        match text {
            Some(t) => time_in(t),
            None => None,
        }
    }
}

/// What the schedule switch shows, given whether the platform has the
/// scheduler and the job's property list, if one is installed. Delivery is
/// on exactly when the list holds a valid time; otherwise the switch offers
/// 6:00.
pub fn schedule_info(supported: bool, plist_text: Option<&str>) -> (info: ScheduleInfo)
    ensures
        info.supported == supported,
        info.enabled == reported_time(supported, opt_str_view(plist_text)) is Some,
        match reported_time(supported, opt_str_view(plist_text)) {
            Some((h, m)) => info.hour == h && info.minute == m,
            None => info.hour == 6 && info.minute == 0,
        },
{
    let mut info = ScheduleInfo { supported, enabled: false, hour: 6, minute: 0 };
    if !supported {
        return info;
    }
    match plist_text {
        Some(text) => {
            match parse_time(text) {
                Some((h, m)) => {
                    info.enabled = true;
                    info.hour = h;
                    info.minute = m;
                },
                None => {},
            }
        },
        None => {},
    }
    info
}

/// The latest hour of the day.
pub open spec fn clamp_hour(hour: u32) -> u32 {
    if hour < 23 {
        hour
    } else {
        23
    }
}

/// The latest minute of the hour.
pub open spec fn clamp_minute(minute: u32) -> u32 {
    if minute < 59 {
        minute
    } else {
        59
    }
}

/// The property list that turning delivery on at `hour:minute` installs:
/// the hour is held to 23 and the minute to 59.
pub fn delivery_plist(exe: &str, log: &str, hour: u32, minute: u32) -> (r: String)
    ensures
        r@ == plist_text(exe@, log@, clamp_hour(hour), clamp_minute(minute)),
{
    let h = if hour < 23 {
        hour
    } else {
        23
    };
    let m = if minute < 59 {
        minute
    } else {
        59
    };
    plist(exe, log, h, m)
}

/// The time to carry over from the job's earlier name: the one in its old
/// property list, unless delivery is already on under the current name.
pub fn carried_over_time(delivery_on: bool, legacy_text: &str) -> (r: Option<(u32, u32)>)
    ensures
        r == (if delivery_on {
            None
        } else {
            time_in(legacy_text@)
        }),
{
    if delivery_on {
        None
    } else {
        parse_time(legacy_text)
    }
}

/// Where, under the home folder, the property list of the job `label` lives.
pub fn agent_relative_path(label: &str) -> (r: String)
    ensures
        r@ == "Library/LaunchAgents/"@ + label@ + ".plist"@,
{
    let mut r = String::new();
    r.append("Library/LaunchAgents/");
    r.append(label);
    r.append(".plist");
    r
}

/// The message when morning delivery is asked for where there is no launchd.
pub open spec fn no_scheduler() -> Seq<char> {
    "Morning delivery uses macOS's scheduler, so it only works on a Mac."@
}

/// Why delivery cannot be switched here, if it cannot: only macOS has the
/// scheduler it uses.
pub fn delivery_unsupported(supported: bool) -> (r: Option<String>)
    ensures
        opt_view(r) == (if supported {
            None
        } else {
            Some(no_scheduler())
        }),
{
    if supported {
        None
    } else {
        Some(to_owned("Morning delivery uses macOS's scheduler, so it only works on a Mac."))
    }
}

/// Whether macOS took the job: `launchctl bootstrap` succeeding, else the
/// older `launchctl load -w` succeeding; otherwise what `bootstrap` said,
/// trimmed.
pub fn registration_outcome(bootstrap_ok: bool, load_ok: bool, err: &str) -> (r: Result<(), String>)
    ensures
        match r {
            Ok(_) => bootstrap_ok || load_ok,
            Err(e) => !bootstrap_ok && !load_ok && e@ == "macOS wouldn't register the schedule: "@
                + trim(err@),
        },
{
    if bootstrap_ok || load_ok {
        Ok(())
    } else {
        let mut e = to_owned("macOS wouldn't register the schedule: ");
        let t = trimmed(err);
        e.append(t.as_str());
        Err(e)
    }
}

/// The message when `id -u` gives no user id.
pub open spec fn uid_error() -> Seq<char> {
    "Couldn't work out your user id."@
}

/// Reads the user id out of what `id -u` printed: the trimmed text, which
/// must be one or more ASCII digits.
pub fn parse_uid(output: &str) -> (r: Result<String, String>)
    ensures
        match r {
            Ok(uid) => uid@ == trim(output@) && trim(output@).len() > 0 && all_ascii_digits(
                trim(output@),
            ),
            Err(e) => e@ == uid_error() && !(trim(output@).len() > 0 && all_ascii_digits(
                trim(output@),
            )),
        },
{
    let uid = trimmed(output);
    let v = chars_of(uid.as_str());
    let mut i: usize = 0;
    while i < v.len()
        invariant
            i <= v@.len(),
            v@ == uid@,
            uid@ == trim(output@),
            forall|j: int| 0 <= j < i ==> is_ascii_digit(#[trigger] v@[j]),
        decreases v@.len() - i,
    {
        if !('0' <= v[i] && v[i] <= '9') {
            proof {
                assert(!is_ascii_digit(trim(output@)[i as int]));
            }
            return Err(to_owned("Couldn't work out your user id."));
        }
        i = i + 1;
    }
    if v.len() == 0 {
        return Err(to_owned("Couldn't work out your user id."));
    }
    Ok(uid)
}

// ------------------------------------------------------------------ laws

/// Escaped text holds no tag character: neither `<` nor `>`.
pub proof fn lemma_xml_escaped_no_markup(s: Seq<char>)
    ensures
        forall|i: int|
            0 <= i < xml_escaped(s).len() ==> #[trigger] xml_escaped(s)[i] != '<'
                && xml_escaped(s)[i] != '>',
    decreases s.len(),
{
    if s.len() > 0 {
        lemma_xml_escaped_no_markup(s.drop_last());
        let pre = xml_escaped(s.drop_last());
        let e = xml_escaped(s);
        assert forall|i: int| 0 <= i < e.len() implies #[trigger] e[i] != '<' && e[i] != '>' by {
            if i < pre.len() {
                assert(e[i] == pre[i]);
            } else {
                assert(e[i] == xml_char(s.last())[i - pre.len()]);
            }
        }
    }
}

/// The fixed pieces of the property list in front of the minute's key open
/// neither the hour's nor the minute's key.
proof fn lemma_plist_pieces_open_no_key(key: Seq<char>)
    requires
        key == hour_key() || key == minute_key(),
    ensures
        opens_no_key(plist_head(), key),
        opens_no_key(LABEL@, key),
        opens_no_key(plist_program(), key),
        opens_no_key(plist_argument(), key),
        opens_no_key(REFRESH_FLAG@, key),
        opens_no_key(plist_calendar(), key),
        opens_no_key(plist_indent(), key),
        opens_no_key(integer_open(), key),
        opens_no_key(integer_close(), key),
        key == minute_key() ==> opens_no_key(hour_key(), key),
{
    reveal_strlit("<key>Hour</key>");
    reveal_strlit("<key>Minute</key>");
    reveal_with_fuel(breaks_off, 8);
    assert(opens_no_key_from(plist_declaration(), key, 0)) by {
        reveal_strlit("<?xml version=\"1.0\" encoding=\"UTF-8\"?>\n");
        reveal_with_fuel(opens_no_key_from, 45);
    }
    lemma_opens_no_key(plist_declaration(), key);
    let doctype_start = "<!DOCTYPE plist PUBLIC \"-//Apple//DTD PLIST 1.0//EN\" "@;
    assert(opens_no_key_from(doctype_start, key, 0)) by {
        reveal_strlit("<!DOCTYPE plist PUBLIC \"-//Apple//DTD PLIST 1.0//EN\" ");
        reveal_with_fuel(opens_no_key_from, 60);
    }
    lemma_opens_no_key(doctype_start, key);
    assert(opens_no_key_from(plist_dtd(), key, 0)) by {
        reveal_strlit("\"http://www.apple.com/DTDs/PropertyList-1.0.dtd\">\n");
        reveal_with_fuel(opens_no_key_from, 60);
    }
    lemma_opens_no_key(plist_dtd(), key);
    lemma_opens_no_key_concat(doctype_start, plist_dtd(), key);
    assert(opens_no_key_from(plist_label(), key, 0)) by {
        reveal_strlit("<plist version=\"1.0\">\n<dict>\n  <key>Label</key>\n  <string>");
        reveal_with_fuel(opens_no_key_from, 60);
    }
    lemma_opens_no_key(plist_label(), key);
    lemma_opens_no_key_concat(plist_declaration(), plist_doctype(), key);
    lemma_opens_no_key_concat(plist_declaration() + plist_doctype(), plist_label(), key);
    assert(opens_no_key_from(LABEL@, key, 0)) by {
        reveal_strlit("com.mydailynewspaper.refresh");
        reveal_with_fuel(opens_no_key_from, 30);
    }
    lemma_opens_no_key(LABEL@, key);
    assert(opens_no_key_from(plist_program(), key, 0)) by {
        reveal_strlit("</string>\n  <key>ProgramArguments</key>\n  <array>\n    <string>");
        reveal_with_fuel(opens_no_key_from, 70);
    }
    lemma_opens_no_key(plist_program(), key);
    assert(opens_no_key_from(plist_argument(), key, 0)) by {
        reveal_strlit("</string>\n    <string>");
        reveal_with_fuel(opens_no_key_from, 30);
    }
    lemma_opens_no_key(plist_argument(), key);
    assert(opens_no_key_from(REFRESH_FLAG@, key, 0)) by {
        reveal_strlit("--refresh-only");
        reveal_with_fuel(opens_no_key_from, 20);
    }
    lemma_opens_no_key(REFRESH_FLAG@, key);
    assert(opens_no_key_from(plist_calendar(), key, 0)) by {
        reveal_strlit("</string>\n  </array>\n  <key>StartCalendarInterval</key>\n  <dict>\n    ");
        reveal_with_fuel(opens_no_key_from, 80);
    }
    lemma_opens_no_key(plist_calendar(), key);
    assert(opens_no_key_from(plist_indent(), key, 0)) by {
        reveal_strlit("\n    ");
        reveal_with_fuel(opens_no_key_from, 10);
    }
    lemma_opens_no_key(plist_indent(), key);
    assert(opens_no_key_from(integer_open(), key, 0)) by {
        reveal_strlit("<integer>");
        reveal_with_fuel(opens_no_key_from, 12);
    }
    lemma_opens_no_key(integer_open(), key);
    assert(opens_no_key_from(integer_close(), key, 0)) by {
        reveal_strlit("</integer>");
        reveal_with_fuel(opens_no_key_from, 12);
    }
    lemma_opens_no_key(integer_close(), key);
    if key == minute_key() {
        assert(opens_no_key_from(hour_key(), key, 0)) by {
            reveal_with_fuel(opens_no_key_from, 20);
        }
        lemma_opens_no_key(hour_key(), key);
    }
}


/// The leftmost match lies at or after `p` when none starts in `[from, p)`.
proof fn lemma_first_capture_skip(t: Seq<char>, key: Seq<char>, from: int, p: int)
    requires
        0 <= from <= p <= t.len(),
        forall|j: int| from <= j < p ==> #[trigger] capture_at(t, key, j) is None,
    ensures
        first_capture(t, key, from) == first_capture(t, key, p),
    decreases p - from,
{
    if from < p {
        lemma_first_capture_skip(t, key, from + 1, p);
    }
}

/// No match starts where the key does not stand.
proof fn lemma_capture_needs_key(t: Seq<char>, key: Seq<char>, j: int)
    requires
        !occurs_at(t, key, j),
    ensures
        capture_at(t, key, j) is None,
{
}

/// A key followed by an indented number of one or two digits is matched
/// right there, capturing the number's digits.
proof fn lemma_capture_number(pre: Seq<char>, key: Seq<char>, n: u32, post: Seq<char>)
    requires
        n < 100,
    ensures
        capture_at(
            pre + key + plist_indent() + integer_open() + decimal(n as nat) + integer_close() + post,
            key,
            pre.len() as int,
        ) == Some(decimal(n as nat)),
{
    reveal_strlit("\n    ");
    reveal_strlit("<integer>");
    reveal_strlit("</integer>");
    let d = decimal(n as nat);
    let t = pre + key + plist_indent() + integer_open() + d + integer_close() + post;
    let i = pre.len() as int;
    let p = i + key.len();
    let k = p + 5;
    let e = k + 9;
    assert(t.subrange(i, i + key.len()) =~= key);
    assert(white_run(t, p) == 5) by {
        reveal_with_fuel(white_run, 7);
        assert(t[p] == '\n');
        assert(t[p + 1] == ' ');
        assert(t[p + 2] == ' ');
        assert(t[p + 3] == ' ');
        assert(t[p + 4] == ' ');
        assert(t[p + 5] == '<');
    }
    assert(t.subrange(k, k + 9) =~= integer_open());
    lemma_decimal_parses(n as nat);
    assert(t.subrange(e, e + d.len()) =~= d);
    assert(t.subrange(e + d.len(), e + d.len() + 10) =~= integer_close());
    if n < 10 {
        assert(d.len() == 1);
        assert(t[e] == d[0]);
        assert(t[e + 2] == '/');
        assert(!occurs_at(t, integer_close(), e + 2));
        assert(t.subrange(e, e + 1) =~= d);
    } else {
        assert(decimal((n / 10) as nat).len() == 1);
        assert(d.len() == 2);
        assert(t[e] == d[0]);
        assert(t[e + 1] == d[1]);
        assert(t.subrange(e, e + 2) =~= d);
    }
}

/// The first match of a key that no earlier text opens is the one that
/// stands in front of the number, and captures its digits.
#[verifier::rlimit(60)]
proof fn lemma_first_capture_number(pre: Seq<char>, key: Seq<char>, n: u32, post: Seq<char>)
    requires
        n < 100,
        key.len() > 0,
        opens_no_key(pre, key),
    ensures
        first_capture(
            pre + key + plist_indent() + integer_open() + decimal(n as nat) + integer_close() + post,
            key,
            0,
        ) == Some(decimal(n as nat)),
{
    let rest = key + plist_indent() + integer_open() + decimal(n as nat) + integer_close() + post;
    let t = pre + key + plist_indent() + integer_open() + decimal(n as nat) + integer_close() + post;
    assert(t =~= pre + rest);
    lemma_no_occurrence(pre, rest, key);
    assert forall|j: int| 0 <= j < pre.len() implies #[trigger] capture_at(t, key, j) is None by {
        assert(!occurs_at(pre + rest, key, j));
        lemma_capture_needs_key(t, key, j);
    }
    lemma_first_capture_skip(t, key, 0, pre.len() as int);
    lemma_capture_number(pre, key, n, post);
}

/// Nothing in front of the hour's key opens either key.
proof fn lemma_before_hour_opens_no_key(exe: Seq<char>, key: Seq<char>)
    requires
        key == hour_key() || key == minute_key(),
    ensures
        opens_no_key(plist_before_hour(exe), key),
{
    reveal_strlit("<key>Hour</key>");
    reveal_strlit("<key>Minute</key>");
    lemma_plist_pieces_open_no_key(key);
    let esc_exe = xml_escaped(exe);
    lemma_xml_escaped_no_markup(exe);
    lemma_opens_no_key_free(esc_exe, key);
    let p1 = plist_head() + LABEL@;
    let p2 = p1 + plist_program();
    let p3 = p2 + esc_exe;
    let p4 = p3 + plist_argument();
    let p5 = p4 + REFRESH_FLAG@;
    lemma_opens_no_key_concat(plist_head(), LABEL@, key);
    lemma_opens_no_key_concat(p1, plist_program(), key);
    lemma_opens_no_key_concat(p2, esc_exe, key);
    lemma_opens_no_key_concat(p3, plist_argument(), key);
    lemma_opens_no_key_concat(p4, REFRESH_FLAG@, key);
    lemma_opens_no_key_concat(p5, plist_calendar(), key);
}

/// Nothing in front of the minute's key opens it.
proof fn lemma_before_minute_opens_no_key(exe: Seq<char>, hour: u32)
    ensures
        opens_no_key(plist_before_minute(exe, hour), minute_key()),
{
    reveal_strlit("<key>Minute</key>");
    let mk = minute_key();
    let hk = hour_key();
    let a = plist_before_hour(exe);
    lemma_before_hour_opens_no_key(exe, mk);
    lemma_plist_pieces_open_no_key(mk);
    let digits = decimal(hour as nat);
    lemma_decimal_parses(hour as nat);
    assert forall|i: int| 0 <= i < digits.len() implies digits[i] != mk[0] by {
        assert(is_ascii_digit(digits[i]));
    }
    lemma_opens_no_key_free(digits, mk);
    let q1 = a + hk;
    let q2 = q1 + plist_indent();
    let q3 = q2 + integer_open();
    let q4 = q3 + digits;
    let q5 = q4 + integer_close();
    lemma_opens_no_key_concat(a, hk, mk);
    lemma_opens_no_key_concat(q1, plist_indent(), mk);
    lemma_opens_no_key_concat(q2, integer_open(), mk);
    lemma_opens_no_key_concat(q3, digits, mk);
    lemma_opens_no_key_concat(q4, integer_close(), mk);
    lemma_opens_no_key_concat(q5, plist_indent(), mk);
}

/// What the morning job's property list says is the time it was written
/// with: reading the delivery time back from `plist(exe, log, hour, minute)`
/// gives `(hour, minute)`, for every valid time and every pair of paths.
#[verifier::rlimit(60)]
pub proof fn lemma_plist_time_round_trip(exe: Seq<char>, log: Seq<char>, hour: u32, minute: u32)
    requires
        hour < 24,
        minute < 60,
    ensures
        time_in(plist_text(exe, log, hour, minute)) == Some((hour, minute)),
{
    reveal_strlit("<key>Hour</key>");
    reveal_strlit("<key>Minute</key>");
    let t = plist_text(exe, log, hour, minute);
    let hk = hour_key();
    let mk = minute_key();
    lemma_decimal_parses(hour as nat);
    lemma_decimal_parses(minute as nat);
    let a = plist_before_hour(exe);
    lemma_before_hour_opens_no_key(exe, hk);
    let after_hour = plist_indent() + mk + plist_indent() + integer_open() + decimal(minute as nat)
        + integer_close() + plist_output() + xml_escaped(log) + plist_error() + xml_escaped(log)
        + plist_tail();
    assert(t =~= a + hk + plist_indent() + integer_open() + decimal(hour as nat) + integer_close()
        + after_hour);
    lemma_first_capture_number(a, hk, hour, after_hour);
    let b = plist_before_minute(exe, hour);
    lemma_before_minute_opens_no_key(exe, hour);
    let after_minute = plist_output() + xml_escaped(log) + plist_error() + xml_escaped(log)
        + plist_tail();
    assert(t =~= b + mk + plist_indent() + integer_open() + decimal(minute as nat) + integer_close()
        + after_minute);
    lemma_first_capture_number(b, mk, minute, after_minute);
}


/// What turning delivery on writes is what the switch then reads back: with
/// the scheduler present and the property list that `delivery_plist(exe, log,
/// hour, minute)` makes installed, delivery is on at the requested time, held
/// to 23:59.
pub proof fn lemma_delivery_reads_back(exe: Seq<char>, log: Seq<char>, hour: u32, minute: u32)
    ensures
        reported_time(true, Some(plist_text(exe, log, clamp_hour(hour), clamp_minute(minute))))
            == Some((clamp_hour(hour), clamp_minute(minute))),
{
    lemma_plist_time_round_trip(exe, log, clamp_hour(hour), clamp_minute(minute));
}


/// A property-list string entry: `<string>...</string>`.
pub open spec fn string_entry(s: Seq<char>) -> Seq<char> {
    "<string>"@ + s + "</string>"@
}

/// A calendar entry: its key, then on the next line the number.
pub open spec fn calendar_entry(key: Seq<char>, n: u32) -> Seq<char> {
    key + plist_indent() + integer_open() + decimal(n as nat) + integer_close()
}

/// The job's property list names the job by its label, runs the app at
/// `exe` with the refresh switch, holds the hour and the minute as given,
/// and sends both output and errors to the log, each path escaped.
#[verifier::rlimit(40)]
pub proof fn lemma_plist_entries(exe: Seq<char>, log: Seq<char>, hour: u32, minute: u32)
    ensures
        contains(plist_text(exe, log, hour, minute), string_entry(LABEL@)),
        contains(plist_text(exe, log, hour, minute), string_entry(xml_escaped(exe))),
        contains(plist_text(exe, log, hour, minute), string_entry(REFRESH_FLAG@)),
        contains(plist_text(exe, log, hour, minute), calendar_entry(hour_key(), hour)),
        contains(plist_text(exe, log, hour, minute), calendar_entry(minute_key(), minute)),
        exists|i: int, j: int|
            i < j && occurs_at(plist_text(exe, log, hour, minute), string_entry(xml_escaped(log)), i)
                && occurs_at(plist_text(exe, log, hour, minute), string_entry(xml_escaped(log)), j),
{
    reveal_strlit("<string>");
    reveal_strlit("</string>");
    reveal_strlit("<plist version=\"1.0\">\n<dict>\n  <key>Label</key>\n  <string>");
    reveal_strlit("</string>\n  <key>ProgramArguments</key>\n  <array>\n    <string>");
    reveal_strlit("</string>\n    <string>");
    reveal_strlit("</string>\n  </array>\n  <key>StartCalendarInterval</key>\n  <dict>\n    ");
    reveal_strlit(
        "\n  </dict>\n  <key>RunAtLoad</key>\n  <false/>\n  <key>StandardOutPath</key>\n  <string>",
    );
    reveal_strlit("</string>\n  <key>StandardErrorPath</key>\n  <string>");
    reveal_strlit("</string>\n</dict>\n</plist>\n");
    let t = plist_text(exe, log, hour, minute);
    let head = plist_declaration() + plist_doctype() + plist_label();
    let a = head + LABEL@ + plist_program();
    let b = a + xml_escaped(exe) + plist_argument();
    let c = b + REFRESH_FLAG@ + plist_calendar();
    assert(c == plist_before_hour(exe));
    let d = plist_before_minute(exe, hour);
    let e = d + minute_key() + plist_indent() + integer_open() + decimal(minute as nat)
        + integer_close() + plist_output();
    let f = e + xml_escaped(log) + plist_error();
    assert(t == f + xml_escaped(log) + plist_tail());

    let x = string_entry(LABEL@);
    assert(t.subrange(head.len() - 8, head.len() - 8 + x.len()) =~= x);
    assert(occurs_at(t, x, head.len() - 8));
    let x = string_entry(xml_escaped(exe));
    assert(t.subrange(a.len() - 8, a.len() - 8 + x.len()) =~= x);
    assert(occurs_at(t, x, a.len() - 8));
    let x = string_entry(REFRESH_FLAG@);
    assert(t.subrange(b.len() - 8, b.len() - 8 + x.len()) =~= x);
    assert(occurs_at(t, x, b.len() - 8));
    let x = calendar_entry(hour_key(), hour);
    assert(t.subrange(c.len() as int, (c.len() + x.len()) as int) =~= x);
    assert(occurs_at(t, x, c.len() as int));
    let x = calendar_entry(minute_key(), minute);
    assert(t.subrange(d.len() as int, (d.len() + x.len()) as int) =~= x);
    assert(occurs_at(t, x, d.len() as int));
    let x = string_entry(xml_escaped(log));
    assert(t.subrange(e.len() - 8, e.len() - 8 + x.len()) =~= x);
    assert(occurs_at(t, x, e.len() - 8));
    assert(t.subrange(f.len() - 8, f.len() - 8 + x.len()) =~= x);
    assert(occurs_at(t, x, f.len() - 8));
    assert(e.len() - 8 < f.len() - 8);
}

/// Escaped text holds no `<` at all.
proof fn lemma_xml_escaped_count(s: Seq<char>)
    ensures
        count_char(xml_escaped(s), '<') == 0,
    decreases s.len(),
{
    broadcast use lemma_count_concat;

    if s.len() > 0 {
        lemma_xml_escaped_count(s.drop_last());
        let x = xml_char(s.last());
        assert(count_char(x, '<') == 0) by {
            reveal_with_fuel(count_char, 7);
        }
    }
}

/// The paths bring no tags into the property list: it holds as many `<` as
/// the list for empty paths at the same time.
pub proof fn lemma_plist_paths_add_no_tags(exe: Seq<char>, log: Seq<char>, hour: u32, minute: u32)
    ensures
        count_char(plist_text(exe, log, hour, minute), '<') == count_char(
            plist_text(Seq::empty(), Seq::empty(), hour, minute),
            '<',
        ),
{
    broadcast use lemma_count_concat;

    lemma_xml_escaped_count(exe);
    lemma_xml_escaped_count(log);
    lemma_xml_escaped_count(Seq::empty());
}

/// The job's program arguments, in the order launchd runs them.
pub open spec fn program_arguments(exe: Seq<char>) -> Seq<char> {
    "<key>ProgramArguments</key>\n  <array>\n    "@ + string_entry(xml_escaped(exe)) + "\n    "@
        + string_entry(REFRESH_FLAG@) + "\n  </array>"@
}

/// launchd runs the app itself, with the refresh switch as its only
/// argument: the program arguments are the escaped path of the app, then
/// `--refresh-only`, and nothing else.
#[verifier::rlimit(40)]
pub proof fn lemma_plist_runs_the_app(exe: Seq<char>, log: Seq<char>, hour: u32, minute: u32)
    ensures
        contains(plist_text(exe, log, hour, minute), program_arguments(exe)),
{
    reveal_strlit("<string>");
    reveal_strlit("</string>");
    reveal_strlit("<key>ProgramArguments</key>\n  <array>\n    ");
    reveal_strlit("\n    ");
    reveal_strlit("\n  </array>");
    reveal_strlit("--refresh-only");
    reveal_strlit("</string>\n  <key>ProgramArguments</key>\n  <array>\n    <string>");
    reveal_strlit("</string>\n    <string>");
    reveal_strlit("</string>\n  </array>\n  <key>StartCalendarInterval</key>\n  <dict>\n    ");
    let t = plist_text(exe, log, hour, minute);
    let a = plist_head() + LABEL@;
    let e = xml_escaped(exe);
    let prog = "</string>\n  <key>ProgramArguments</key>\n  <array>\n    <string>"@;
    let arg = "</string>\n    <string>"@;
    let cal = "</string>\n  </array>\n  <key>StartCalendarInterval</key>\n  <dict>\n    "@;
    let w = a + prog + e + arg + REFRESH_FLAG@ + cal;
    assert(w == plist_before_hour(exe));
    let x = program_arguments(exe);
    let k: int = a.len() as int + 12;
    assert(x =~= prog.subrange(12, prog.len() as int) + e + arg + REFRESH_FLAG@ + cal.subrange(0, 20));
    assert(w.subrange(k, k + x.len() as int) =~= x);
    assert(t.subrange(k, k + x.len() as int) =~= x);
    assert(occurs_at(t, x, k));
}

} // verus!
