//! Dates and times on paper: the local reading of a timestamp, relative day
//! names ("Today", "Tomorrow", ...) and the ball-game scoreboard in the
//! masthead.
//!
//! What a timestamp reads as in the local time zone, and how many days it is
//! from today, depend on the machine's zone and clock: the library states of
//! them only what holds on every machine, and each function that renders them
//! has a variant that takes the reading as an argument and is exact.

use vstd::prelude::*;

use crate::model::{GameLine, ScoreBug};
use crate::text::{
    decimal, digit_char, ends_with, join, occurs_at, opt_view, push_decimal, push_joined, starts_with,
    to_owned, views,
};

verus! {

/// A timestamp as read in the local time zone, in the forms the paper prints.
#[derive(Clone, Debug)]
pub struct LocalTime {
    /// Calendar days from today's local date to the timestamp's.
    pub days_from_today: i64,
    /// Full weekday name: "Sunday".
    pub weekday: String,
    /// Short weekday, month and day: "Sun, Sep 20".
    pub weekday_date: String,
    /// Short month and day: "Sep 20".
    pub month_day: String,
    /// Twelve-hour clock: "6:02 AM".
    pub clock: String,
}

/// English short month names as chrono's `%b` prints them: 1 is "Jan".
pub open spec fn month_abbrev(m: int) -> Seq<char> {
    if m == 1 {
        "Jan"@
    } else if m == 2 {
        "Feb"@
    } else if m == 3 {
        "Mar"@
    } else if m == 4 {
        "Apr"@
    } else if m == 5 {
        "May"@
    } else if m == 6 {
        "Jun"@
    } else if m == 7 {
        "Jul"@
    } else if m == 8 {
        "Aug"@
    } else if m == 9 {
        "Sep"@
    } else if m == 10 {
        "Oct"@
    } else if m == 11 {
        "Nov"@
    } else {
        "Dec"@
    }
}

/// Month `m` and day `d` as `%b %-d` prints them: "Sep 20".
pub open spec fn month_day_text(m: int, d: int) -> Seq<char> {
    month_abbrev(m) + " "@ + decimal(d as nat)
}

/// Whether `s` reads like "Sep 20": a short month name, a space and a day
/// of the month from 1 to 31, not padded.
pub open spec fn month_day_form(s: Seq<char>) -> bool {
    exists|m: int, d: int| 1 <= m <= 12 && 1 <= d <= 31 && s == #[trigger] month_day_text(m, d)
}

/// English weekday names as chrono's `%A` prints them: 0 is "Monday".
pub open spec fn weekday_full(k: int) -> Seq<char> {
    if k == 0 {
        "Monday"@
    } else if k == 1 {
        "Tuesday"@
    } else if k == 2 {
        "Wednesday"@
    } else if k == 3 {
        "Thursday"@
    } else if k == 4 {
        "Friday"@
    } else if k == 5 {
        "Saturday"@
    } else {
        "Sunday"@
    }
}

/// Whether `w` is one of the seven weekday names.
pub open spec fn weekday_name(w: Seq<char>) -> bool {
    exists|k: int| 0 <= k < 7 && w == #[trigger] weekday_full(k)
}

/// A weekday name shortened as `%a` prints it: its first three letters.
pub open spec fn short_weekday(w: Seq<char>) -> Seq<char> {
    w.take(3)
}

/// A minute written with two digits: "05".
pub open spec fn two_digits(m: int) -> Seq<char> {
    seq![digit_char((m / 10) as nat), digit_char((m % 10) as nat)]
}

/// Hour `h`, minute `m` and the half of the day as `%-I:%M %p` prints them:
/// "6:02 AM".
pub open spec fn clock_text(h: int, m: int, pm: bool) -> Seq<char> {
    decimal(h as nat) + ":"@ + two_digits(m) + (if pm {
        " PM"@
    } else {
        " AM"@
    })
}

/// Whether `c` reads like "6:02 AM": an hour from 1 to 12 not padded, a
/// colon, two minute digits, then " AM" or " PM".
pub open spec fn clock_form(c: Seq<char>) -> bool {
    exists|h: int, m: int, pm: bool| 1 <= h <= 12 && 0 <= m < 60 && c == #[trigger] clock_text(h, m, pm)
}

/// The shape every local reading has, whatever the zone and the clock: a
/// weekday name, its short form with the month and day, and a twelve-hour
/// clock time.
pub open spec fn reading_form(t: LocalTime) -> bool {
    &&& month_day_form(t.month_day@)
    &&& weekday_name(t.weekday@)
    &&& t.weekday_date@ == short_weekday(t.weekday@) + ", "@ + t.month_day@
    &&& clock_form(t.clock@)
}

/// Whether chrono's `DateTime::parse_from_rfc3339` accepts `s`.
pub uninterp spec fn rfc3339_parses(s: Seq<char>) -> bool;

/// chrono: parses an RFC 3339 timestamp (`DateTime::parse_from_rfc3339`),
/// moves it to the local zone and formats it (`%A`, `%a, %b %-d`, `%b %-d`,
/// `%-I:%M %p`), counting days from today's local date
/// (`Local::now`). Claimed: a reading comes back exactly when the timestamp
/// parses, and it has the shape those patterns print in every zone
/// (`reading_form`). Which day, month, weekday and time it names, and the
/// count of days, depend on the machine's zone and clock and are not claimed.
#[verifier::external_body]
pub fn local_time(iso: &str) -> (r: Option<LocalTime>)
    ensures
        r is Some <==> rfc3339_parses(iso@),
        r matches Some(t) ==> reading_form(t),
{
    let t = chrono::DateTime::parse_from_rfc3339(iso).ok()?.with_timezone(&chrono::Local);
    let days = (t.date_naive() - chrono::Local::now().date_naive()).num_days();
    Some(LocalTime {
        days_from_today: days,
        weekday: t.format("%A").to_string(),
        weekday_date: t.format("%a, %b %-d").to_string(),
        month_day: t.format("%b %-d").to_string(),
        clock: t.format("%-I:%M %p").to_string(),
    })
}

/// What chrono makes of a "YYYY-MM-DD" date written out in full
/// ("Sunday, September 20, 2026"); `None` when it does not parse.
pub uninterp spec fn chrono_long_date(date: Seq<char>) -> Option<Seq<char>>;

/// chrono: `NaiveDate::parse_from_str(date, "%Y-%m-%d")`, formatted with
/// `"%A, %B %-d, %Y"`. Claimed: the result is `chrono_long_date` of the text,
/// a function of the text alone (no time zone is involved).
#[verifier::external_body]
fn format_long_date(date: &str) -> (r: Option<String>)
    ensures
        opt_view(r) == chrono_long_date(date@),
{
    match chrono::NaiveDate::parse_from_str(date, "%Y-%m-%d") {
        Ok(d) => Some(d.format("%A, %B %-d, %Y").to_string()),
        Err(_) => None,
    }
}

/// The edition's date written out in full, or as given when it is not a date.
pub open spec fn long_date_of(date: Seq<char>) -> Seq<char> {
    match chrono_long_date(date) {
        Some(s) => s,
        None => date,
    }
}

/// The date written out in full when chrono could, else the date as given.
pub fn long_date_or_given(formatted: Option<String>, date: &str) -> (r: String)
    ensures
        r@ == (match opt_view(formatted) {
            Some(s) => s,
            None => date@,
        }),
{
    match formatted {
        Some(s) => s,
        None => to_owned(date),
    }
}

/// The edition's date for the dateline: "Sunday, September 20, 2026".
pub fn long_date(date: &str) -> (r: String)
    ensures
        r@ == long_date_of(date@),
{
    long_date_or_given(format_long_date(date), date)
}

/// The month and day of a reading, for a byline.
pub fn short_date_of(t: Option<LocalTime>) -> (r: Option<String>)
    ensures
        opt_view(r) == (match t {
            Some(t) => Some(t.month_day@),
            None => None,
        }),
{
    match t {
        Some(t) => Some(t.month_day),
        None => None,
    }
}

/// A byline's date: "Sep 20"; none when there is no timestamp or it does not
/// parse.
pub fn short_date(iso: Option<&str>) -> (r: Option<String>)
    ensures
        r is Some <==> (match iso {
            Some(s) => rfc3339_parses(s@),
            None => false,
        }),
        r matches Some(d) ==> month_day_form(d@),
{
    match iso {
        Some(s) => short_date_of(local_time(s)),
        None => None,
    }
}

/// The day of a reading relative to today: "Today", "Tomorrow",
/// "Yesterday", the weekday within the coming week, else "Sun, Sep 20".
pub open spec fn day_label_of(t: LocalTime) -> Seq<char> {
    if t.days_from_today == 0 {
        "Today"@
    } else if t.days_from_today == 1 {
        "Tomorrow"@
    } else if t.days_from_today == -1 {
        "Yesterday"@
    } else if 2 <= t.days_from_today <= 6 {
        t.weekday@
    } else {
        t.weekday_date@
    }
}

/// Names the day of a reading relative to today.
pub fn day_label(t: &LocalTime) -> (r: String)
    ensures
        r@ == day_label_of(*t),
{
    let days = t.days_from_today;
    if days == 0 {
        to_owned("Today")
    } else if days == 1 {
        to_owned("Tomorrow")
    } else if days == -1 {
        to_owned("Yesterday")
    } else if 2 <= days && days <= 6 {
        t.weekday.clone()
    } else {
        t.weekday_date.clone()
    }
}

// --------------------------------------------------------------- scoreboard

/// Runs as printed: the number, or "-" before the game has started.
pub open spec fn points(n: Option<u32>) -> Seq<char> {
    match n {
        Some(v) => decimal(v as nat),
        None => "-"@,
    }
}

/// What happened: "Final/10, Yesterday: Giants 3, Dodgers 5".
pub open spec fn result_line(g: GameLine, t: Option<LocalTime>) -> Seq<char> {
    let day = match t {
        Some(t) => day_label_of(t),
        None => seq![],
    };
    g.detail@ + ", "@ + day + ": "@ + g.away.name@ + " "@ + points(g.away.score) + ", "@
        + g.home.name@ + " "@ + points(g.home.score)
}

/// When the next game starts: "Tomorrow 7:10 PM PST"; empty when its time
/// does not parse.
pub open spec fn start_words(t: Option<LocalTime>, zone: Seq<char>) -> Seq<char> {
    match t {
        Some(t) => day_label_of(t) + " "@ + t.clock@ + (if zone.len() == 0 {
            seq![]
        } else {
            " "@ + zone
        }),
        None => seq![],
    }
}

/// What's next and where to watch:
/// "Next: Dodgers at Padres · Tomorrow 7:10 PM PST · SportsNet LA, Apple TV+".
pub open spec fn next_line(n: GameLine, t: Option<LocalTime>, zone: Seq<char>) -> Seq<char> {
    let us = if n.we_are_home {
        n.home.name@
    } else {
        n.away.name@
    };
    let them = if n.we_are_home {
        n.away.name@
    } else {
        n.home.name@
    };
    let joiner = if n.we_are_home {
        "vs."@
    } else {
        "at"@
    };
    let tv = if n.tv.len() == 0 {
        seq![]
    } else {
        " \u{00b7} "@ + join(views(n.tv@), ", "@)
    };
    "Next: "@ + us + " "@ + joiner + " "@ + them + " \u{00b7} "@ + start_words(t, zone) + tv
}

/// The masthead's scoreboard: the last game's line, then the next game's,
/// each only when there is such a game.
pub open spec fn scoreboard_of(
    score: ScoreBug,
    zone: Seq<char>,
    game_time: Option<LocalTime>,
    next_time: Option<LocalTime>,
) -> Seq<Seq<char>> {
    let first = match score.game {
        Some(g) => seq![result_line(g, game_time)],
        None => Seq::<Seq<char>>::empty(),
    };
    let second = match score.next {
        Some(n) => seq![next_line(n, next_time, zone)],
        None => Seq::<Seq<char>>::empty(),
    };
    first + second
}

/// Whether a reading is what `local_time` can give for an optional game's
/// start: one comes exactly when there is a game and its start parses, and
/// it has a reading's shape.
pub open spec fn reading_fits(game: Option<GameLine>, t: Option<LocalTime>) -> bool {
    &&& (t is Some <==> (match game {
        Some(g) => rfc3339_parses(g.start@),
        None => false,
    }))
    &&& (t matches Some(t) ==> reading_form(t))
}

fn push_points(s: &mut String, n: Option<u32>)
    ensures
        final(s)@ == old(s)@ + points(n),
{
    match n {
        Some(v) => push_decimal(s, v as u64),
        None => s.append("-"),
    }
}

fn result_line_at(g: &GameLine, t: &Option<LocalTime>) -> (r: String)
    ensures
        r@ == result_line(*g, *t),
{
    let mut r = String::new();
    r.append(g.detail.as_str());
    r.append(", ");
    match t {
        Some(t) => {
            let day = day_label(t);
            r.append(day.as_str());
        },
        None => {},
    }
    r.append(": ");
    r.append(g.away.name.as_str());
    r.append(" ");
    push_points(&mut r, g.away.score);
    r.append(", ");
    r.append(g.home.name.as_str());
    r.append(" ");
    push_points(&mut r, g.home.score);
    proof {
        assert(r@ =~= result_line(*g, *t));
    }
    r
}

fn next_line_at(n: &GameLine, t: &Option<LocalTime>, zone: &str) -> (r: String)
    ensures
        r@ == next_line(*n, *t, zone@),
{
    let mut r = String::new();
    r.append("Next: ");
    if n.we_are_home {
        r.append(n.home.name.as_str());
        r.append(" ");
        r.append("vs.");
        r.append(" ");
        r.append(n.away.name.as_str());
    } else {
        r.append(n.away.name.as_str());
        r.append(" ");
        r.append("at");
        r.append(" ");
        r.append(n.home.name.as_str());
    }
    r.append(" \u{00b7} ");
    match t {
        Some(t) => {
            let day = day_label(t);
            r.append(day.as_str());
            r.append(" ");
            r.append(t.clock.as_str());
            if !zone.is_empty() {
                r.append(" ");
                r.append(zone);
            }
        },
        None => {},
    }
    if n.tv.len() != 0 {
        r.append(" \u{00b7} ");
        push_joined(&mut r, &n.tv, ", ");
    }
    proof {
        assert(r@ =~= next_line(*n, *t, zone@));
    }
    r
}

/// The scoreboard's lines, given the local readings of the two games'
/// starts.
pub fn scoreboard_lines_at(
    score: &ScoreBug,
    zone: &str,
    game_time: &Option<LocalTime>,
    next_time: &Option<LocalTime>,
) -> (lines: Vec<String>)
    ensures
        views(lines@) == scoreboard_of(*score, zone@, *game_time, *next_time),
{
    let mut lines: Vec<String> = Vec::new();
    match &score.game {
        Some(g) => {
            lines.push(result_line_at(g, game_time));
        },
        None => {},
    }
    match &score.next {
        Some(n) => {
            lines.push(next_line_at(n, next_time, zone));
        },
        None => {},
    }
    proof {
        assert(views(lines@) =~= scoreboard_of(*score, zone@, *game_time, *next_time));
    }
    lines
}

/// Two lines for the masthead: what happened, and what's next and where to
/// watch. The days and clock times are read in the local time zone.
pub fn scoreboard_lines(score: &ScoreBug, zone: &str) -> (lines: Vec<String>)
    ensures
        exists|game_time: Option<LocalTime>, next_time: Option<LocalTime>|
            reading_fits(score.game, game_time) && reading_fits(score.next, next_time) && views(
                lines@,
            ) == #[trigger] scoreboard_of(*score, zone@, game_time, next_time),
{
    let game_time = match &score.game {
        Some(g) => local_time(g.start.as_str()),
        None => None,
    };
    let next_time = match &score.next {
        Some(n) => local_time(n.start.as_str()),
        None => None,
    };
    let lines = scoreboard_lines_at(score, zone, &game_time, &next_time);
    proof {
        assert(reading_fits(score.game, game_time));
        assert(reading_fits(score.next, next_time));
    }
    lines
}

/// The start of the next game's line: our team first, then "vs." and the
/// visitors when we are at home, or "at" and the hosts when we travel.
pub open spec fn next_opening(n: GameLine) -> Seq<char> {
    if n.we_are_home {
        "Next: "@ + n.home.name@ + " vs. "@ + n.away.name@
    } else {
        "Next: "@ + n.away.name@ + " at "@ + n.home.name@
    }
}

/// The scoreboard has one line for the last game when there is one and one
/// for the next game when there is one, whatever the other: the last game's
/// line opens with how it stands and ends with the home side's runs, and
/// the next game's line comes last, names who plays whom, and ends with the
/// channels when there are any.
pub proof fn lemma_scoreboard_lines(
    score: ScoreBug,
    zone: Seq<char>,
    game_time: Option<LocalTime>,
    next_time: Option<LocalTime>,
)
    ensures
        scoreboard_of(score, zone, game_time, next_time).len() == (if score.game is Some {
            1int
        } else {
            0int
        }) + (if score.next is Some {
            1int
        } else {
            0int
        }),
        score.game matches Some(g) ==> starts_with(
            scoreboard_of(score, zone, game_time, next_time)[0],
            g.detail@ + ", "@,
        ) && ends_with(
            scoreboard_of(score, zone, game_time, next_time)[0],
            ", "@ + g.home.name@ + " "@ + points(g.home.score),
        ),
        score.next matches Some(n) ==> starts_with(
            scoreboard_of(score, zone, game_time, next_time).last(),
            next_opening(n),
        ),
        score.next matches Some(n) ==> (n.tv.len() > 0 ==> ends_with(
            scoreboard_of(score, zone, game_time, next_time).last(),
            " \u{00b7} "@ + join(views(n.tv@), ", "@),
        )),
{
    reveal_strlit("Next: ");
    reveal_strlit(" ");
    reveal_strlit(" vs. ");
    reveal_strlit(" at ");
    reveal_strlit("vs.");
    reveal_strlit("at");
    let lines = scoreboard_of(score, zone, game_time, next_time);
    match score.game {
        Some(g) => {
            let l = result_line(g, game_time);
            let day = match game_time {
                Some(t) => day_label_of(t),
                None => seq![],
            };
            let x = g.detail@ + ", "@;
            let rest = day + ": "@ + g.away.name@ + " "@ + points(g.away.score);
            let y = ", "@ + g.home.name@ + " "@ + points(g.home.score);
            assert(l =~= x + rest + y);
            assert(l.subrange(0, x.len() as int) =~= x);
            assert(l.subrange(l.len() - y.len(), l.len() as int) =~= y);
            assert(lines[0] == l);
        },
        None => {},
    }
    match score.next {
        Some(n) => {
            let l = next_line(n, next_time, zone);
            assert(lines.last() == l);
            let x = next_opening(n);
            let us = if n.we_are_home {
                n.home.name@
            } else {
                n.away.name@
            };
            let them = if n.we_are_home {
                n.away.name@
            } else {
                n.home.name@
            };
            let joiner = if n.we_are_home {
                "vs."@
            } else {
                "at"@
            };
            let tv = if n.tv.len() == 0 {
                seq![]
            } else {
                " \u{00b7} "@ + join(views(n.tv@), ", "@)
            };
            let rest = " \u{00b7} "@ + start_words(next_time, zone);
            assert(x =~= "Next: "@ + us + " "@ + joiner + " "@ + them);
            assert(l =~= x + rest + tv);
            assert(l.subrange(0, x.len() as int) =~= x);
            assert(l.subrange(l.len() - tv.len(), l.len() as int) =~= tv);
        },
        None => {},
    }
}

} // verus!
