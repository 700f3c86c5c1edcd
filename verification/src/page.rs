//! The whole print edition as one self-contained HTML document: masthead,
//! dateline, lead story, then each desk in the editor's order, and the
//! colophon.

use vstd::prelude::*;

use crate::clock::{
    local_time, long_date, long_date_of, reading_fits, reading_form, rfc3339_parses, scoreboard_lines,
    scoreboard_of, LocalTime,
};
use crate::model::{Card, Edition, ScoreBug};
use crate::render::{
    card_date, date_fits, escaped, lead_of, push_escaped, push_lead_dated, push_story_dated,
    roman, roman_numeral, story_of, RenderOptions,
};
use crate::text::{
    chars_of, contains, decimal, lemma_contains_concat, lemma_contains_self, lemma_contains_trans,
    opt_view, parse_u32, parse_u32_range, push_decimal, str_eq, trim, trimmed, views,
};

verus! {

/// The print stylesheet.
pub const CSS: &'static str = r#"
@page { size: Letter; margin: 0.5in 0.55in 0.6in; }
* { box-sizing: border-box; }
html { -webkit-print-color-adjust: exact; print-color-adjust: exact; }
body { margin: 0; color: #111; font: 9.4pt/1.33 Georgia, "Times New Roman", "Liberation Serif", serif; }
a { color: inherit; text-decoration: none; }

.masthead { display: grid; grid-template-columns: 1.55in 1fr 1.55in; align-items: center; gap: 0.15in; }
.nameplate { font-family: Chomsky, "Old English Text MT", Georgia, serif; font-size: 46pt; line-height: 1; text-align: center; white-space: nowrap; margin: 0; font-weight: 400; }
.ear { border: 0.6pt solid #111; padding: 5pt 6pt; font-size: 7.4pt; line-height: 1.3; }
.ear b { display: block; font-size: 8.4pt; }
.ear .lab, .sans { font-family: "Helvetica Neue", Helvetica, Arial, sans-serif; text-transform: uppercase; letter-spacing: 0.09em; }
.ear .lab { font-size: 6.2pt; border-bottom: 0.4pt solid #999; padding-bottom: 2pt; margin-bottom: 3pt; display: block; }
.ear i { color: #333; }
.dateline { display: grid; grid-template-columns: 1fr auto 1fr; gap: 10pt; align-items: baseline; margin-top: 7pt; padding: 3pt 0 3.5pt; border-top: 0.6pt solid #111; border-bottom: 2.2pt double #111; font-size: 6.8pt; }
.dateline .c { text-align: center; font-weight: 700; }
.dateline .r { text-align: right; font-family: Georgia, serif; text-transform: none; letter-spacing: 0; font-style: italic; font-size: 8pt; }

h2.desk { font-family: "Helvetica Neue", Helvetica, Arial, sans-serif; font-size: 7.6pt; font-weight: 700; letter-spacing: 0.2em; text-transform: uppercase; margin: 13pt 0 8pt; padding: 3pt 0 2.5pt; border-top: 2.2pt double #111; border-bottom: 0.6pt solid #111; break-after: avoid; }

.lead { margin-top: 10pt; }
.lead .top { display: grid; grid-template-columns: 1.08fr 1fr; gap: 0.2in; align-items: start; }
.lead.noimg .top { grid-template-columns: 1fr; }
.lead h1 { font-size: 23pt; line-height: 1.06; margin: 0 0 6pt; letter-spacing: -0.01em; }
.lead .dek { font-size: 11pt; line-height: 1.32; }
.lead .copy { column-count: 3; column-gap: 0.2in; column-rule: 0.4pt solid #aaa; margin-top: 8pt; font-size: 9.8pt; }
.lead .copy p:first-child::first-letter { float: left; font-weight: 700; font-size: 3.1em; line-height: 0.82; padding: 3pt 4pt 0 0; }

.cols { column-count: 3; column-gap: 0.2in; column-rule: 0.4pt solid #aaa; }
.story { margin: 0 0 11pt; padding: 0 0 9pt; border-bottom: 0.4pt solid #bbb; }
.story:last-child { border-bottom: 0; }
.story h3 { font-size: 12.2pt; line-height: 1.12; margin: 0 0 3pt; break-after: avoid; }
.story.brief h3 { font-size: 10.6pt; }
.kicker { font-family: "Helvetica Neue", Helvetica, Arial, sans-serif; font-size: 6.2pt; letter-spacing: 0.14em; text-transform: uppercase; color: #444; margin-bottom: 2pt; break-after: avoid; }
.dek { color: #222; margin: 0 0 4pt; font-size: 9.6pt; line-height: 1.3; break-after: avoid; }
.byline { font-family: "Helvetica Neue", Helvetica, Arial, sans-serif; font-size: 6.2pt; letter-spacing: 0.09em; text-transform: uppercase; color: #555; padding-bottom: 3pt; margin-bottom: 4pt; border-bottom: 0.4pt solid #ccc; break-after: avoid; }
.byline b { color: #111; font-weight: 600; }
.copy p { margin: 0 0 3pt; text-align: justify; hyphens: auto; -webkit-hyphens: auto; orphans: 2; widows: 2; }
.copy p + p { text-indent: 1.1em; }
.quote { font-style: italic; font-size: 10pt; line-height: 1.33; margin: 0 0 4pt; }
.quote::before { content: "\201C"; font-style: normal; font-weight: 700; font-size: 17pt; line-height: 0; vertical-align: -5pt; margin-right: 1pt; }

figure { margin: 0 0 6pt; break-inside: avoid; }
figure img { display: block; width: 100%; aspect-ratio: 16 / 9; object-fit: cover; }
.bw figure img { filter: grayscale(1) contrast(1.06); }
.vid figure { position: relative; }
.vid figure::after { content: "\25B6"; position: absolute; left: 5pt; bottom: 5pt; width: 15pt; height: 15pt; background: #111; color: #fff; font: 8pt/15pt Arial, sans-serif; text-align: center; padding-left: 1pt; }

.more { display: flex; align-items: center; gap: 6pt; margin-top: 5pt; break-inside: avoid; }
.more + .more { margin-top: 4pt; }
.qr svg { display: block; width: 0.44in; height: 0.44in; }
.more .txt { font-family: "Helvetica Neue", Helvetica, Arial, sans-serif; font-size: 6.4pt; line-height: 1.35; min-width: 0; }
.more .txt b { display: block; text-transform: uppercase; letter-spacing: 0.1em; color: #111; font-weight: 600; }

.notes { margin-top: 12pt; padding-top: 5pt; border-top: 0.6pt solid #111; font-size: 7.2pt; color: #555; }
.notes b { font-family: "Helvetica Neue", Helvetica, Arial, sans-serif; font-size: 6.2pt; letter-spacing: 0.14em; text-transform: uppercase; color: #111; }
.colophon { margin-top: 8pt; padding-top: 4pt; border-top: 2.2pt double #111; font-size: 6.2pt; color: #555; display: flex; justify-content: space-between; }
"#;

/// The digit of base64's standard alphabet for a six-bit value.
pub open spec fn base64_digit(v: nat) -> char {
    if v < 26 {
        (('A' as u32) + v) as char
    } else if v < 52 {
        (('a' as u32) + (v - 26)) as char
    } else if v < 62 {
        (('0' as u32) + (v - 52)) as char
    } else if v == 62 {
        '+'
    } else {
        '/'
    }
}

/// Base64 with the standard alphabet and `=` padding (RFC 4648): each three
/// bytes become four digits; a last group of one or two bytes is padded.
pub open spec fn base64_of(b: Seq<u8>) -> Seq<char>
    decreases b.len(),
{
    if b.len() == 0 {
        seq![]
    } else if b.len() == 1 {
        seq![base64_digit((b[0] / 4) as nat), base64_digit(((b[0] % 4) * 16) as nat), '=', '=']
    } else if b.len() == 2 {
        seq![
            base64_digit((b[0] / 4) as nat),
            base64_digit(((b[0] % 4) * 16 + b[1] / 16) as nat),
            base64_digit(((b[1] % 16) * 4) as nat),
            '=',
        ]
    } else {
        seq![
            base64_digit((b[0] / 4) as nat),
            base64_digit(((b[0] % 4) * 16 + b[1] / 16) as nat),
            base64_digit(((b[1] % 16) * 4 + b[2] / 64) as nat),
            base64_digit((b[2] % 64) as nat),
        ] + base64_of(b.subrange(3, b.len() as int))
    }
}

/// base64: `engine::general_purpose::STANDARD.encode`, which the crate
/// documents as the RFC 4648 standard alphabet with padding. Claimed: the
/// result is `base64_of` the bytes.
#[verifier::external_body]
fn base64_encode(bytes: &[u8]) -> (r: String)
    ensures
        r@ == base64_of(bytes@),
{
    base64::Engine::encode(&base64::engine::general_purpose::STANDARD, bytes)
}

// --------------------------------------------------------------- the head

/// The volume's year: the number the date starts with, or 2026 when it does
/// not start with one.
pub open spec fn year_of(date: Seq<char>) -> u32 {
    if date.len() >= 4 {
        match parse_u32(date.take(4)) {
            Some(y) => y,
            None => 2026,
        }
    } else {
        2026
    }
}

fn year_from(date: &str) -> (y: u32)
    ensures
        y == year_of(date@),
{
    let v = chars_of(date);
    if v.len() < 4 {
        return 2026;
    }
    proof {
        assert(v@.subrange(0, 4) =~= date@.take(4));
    }
    match parse_u32_range(&v, 0, 4) {
        Some(y) => y,
        None => 2026,
    }
}

/// The document's head and the opening of its body: title, the masthead's
/// font, the stylesheet, and black-and-white printing unless colour is on.
pub open spec fn head_of(e: Edition, opts: RenderOptions, font: Seq<u8>) -> Seq<char> {
    "<!doctype html><html lang=\"en\"><head><meta charset=\"utf-8\">"@ + "<title>"@ + escaped(opts.paper@)
        + " - "@ + escaped(e.date@) + "</title>"@
        + "<style>@font-face{font-family:Chomsky;src:url(data:font/woff2;base64,"@ + base64_of(font)
        + ") format(\"woff2\");}"@ + CSS@ + "</style></head>"@ + (if opts.color {
        "<body>"@
    } else {
        "<body class=\"bw\">"@
    })
}

fn push_head(out: &mut String, e: &Edition, opts: &RenderOptions, font: &[u8])
    ensures
        final(out)@ == old(out)@ + head_of(*e, *opts, font@),
{
    let ghost start = out@;
    out.append("<!doctype html><html lang=\"en\"><head><meta charset=\"utf-8\">");
    out.append("<title>");
    push_escaped(out, opts.paper.as_str());
    out.append(" - ");
    push_escaped(out, e.date.as_str());
    out.append("</title>");
    out.append("<style>@font-face{font-family:Chomsky;src:url(data:font/woff2;base64,");
    let encoded = base64_encode(font);
    out.append(encoded.as_str());
    out.append(") format(\"woff2\");}");
    out.append(CSS);
    out.append("</style></head>");
    if opts.color {
        out.append("<body>");
    } else {
        out.append("<body class=\"bw\">");
    }
    proof {
        assert(out@ =~= start + head_of(*e, *opts, font@));
    }
}

// ----------------------------------------------------------- the masthead

/// The scoreboard's lines in the right ear: the first in bold, the rest in
/// italics.
pub open spec fn ear_lines(lines: Seq<Seq<char>>) -> Seq<char>
    decreases lines.len(),
{
    if lines.len() == 0 {
        seq![]
    } else {
        ear_lines(lines.drop_last()) + (if lines.len() == 1 {
            "<b>"@ + escaped(lines.last()) + "</b>"@
        } else {
            "<i>"@ + escaped(lines.last()) + "</i>"@
        })
    }
}

/// The right ear: the scoreboard when there is one with something on it,
/// else the press room's count of stories and searches.
pub open spec fn right_ear_of(e: Edition, printed: Seq<char>, lines: Option<Seq<Seq<char>>>) -> Seq<char> {
    match lines {
        Some(ls) if ls.len() > 0 => "<div class=\"ear\"><span class=\"lab\">Scoreboard</span>"@
            + ear_lines(ls) + "</div>"@,
        _ => "<div class=\"ear\"><span class=\"lab\">Press Room</span><b>"@ + decimal(
            e.cards@.len(),
        ) + " stories</b><i>Printed "@ + escaped(printed) + " \u{b7} "@ + decimal(
            e.stats.searches as nat,
        ) + " searches</i></div>"@,
    }
}

/// The masthead: the left ear with the date, the nameplate, the right ear.
pub open spec fn masthead_of(
    e: Edition,
    opts: RenderOptions,
    printed: Seq<char>,
    lines: Option<Seq<Seq<char>>>,
) -> Seq<char> {
    "<header class=\"masthead\"><div class=\"ear\"><span class=\"lab\">Today's Edition</span><b>"@
        + escaped(long_date_of(e.date@)) + "</b><i>"@ + decimal(e.cards@.len())
        + " stories \u{b7} printed "@ + escaped(printed)
        + "</i></div><h1 class=\"nameplate\">"@ + escaped(opts.paper@) + "</h1>"@ + right_ear_of(
        e,
        printed,
        lines,
    ) + "</header>"@
}

fn push_ear_lines(out: &mut String, lines: &Vec<String>)
    ensures
        final(out)@ == old(out)@ + ear_lines(views(lines@)),
{
    let ghost start = out@;
    let mut i: usize = 0;
    while i < lines.len()
        invariant
            i <= lines@.len(),
            out@ == start + ear_lines(views(lines@).take(i as int)),
        decreases lines@.len() - i,
    {
        proof {
            assert(views(lines@).take(i + 1).drop_last() =~= views(lines@).take(i as int));
        }
        if i == 0 {
            out.append("<b>");
            push_escaped(out, lines[i].as_str());
            out.append("</b>");
        } else {
            out.append("<i>");
            push_escaped(out, lines[i].as_str());
            out.append("</i>");
        }
        proof {
            assert(out@ =~= start + ear_lines(views(lines@).take(i + 1)));
        }
        i = i + 1;
    }
    proof {
        assert(views(lines@).take(lines@.len() as int) =~= views(lines@));
    }
}

/// The view of optional scoreboard lines.
pub open spec fn opt_lines(lines: Option<Vec<String>>) -> Option<Seq<Seq<char>>> {
    match lines {
        Some(ls) => Some(views(ls@)),
        None => None,
    }
}

fn push_masthead(
    out: &mut String,
    e: &Edition,
    opts: &RenderOptions,
    printed: &str,
    lines: &Option<Vec<String>>,
)
    ensures
        final(out)@ == old(out)@ + masthead_of(*e, *opts, printed@, opt_lines(*lines)),
{
    let ghost start = out@;
    out.append(
        "<header class=\"masthead\"><div class=\"ear\"><span class=\"lab\">Today's Edition</span><b>",
    );
    let date = long_date(e.date.as_str());
    push_escaped(out, date.as_str());
    out.append("</b><i>");
    push_decimal(out, e.cards.len() as u64);
    out.append(" stories \u{b7} printed ");
    push_escaped(out, printed);
    out.append("</i></div><h1 class=\"nameplate\">");
    push_escaped(out, opts.paper.as_str());
    out.append("</h1>");
    let ghost mid = out@;
    let scoreboard = match lines {
        Some(ls) => ls.len() > 0,
        None => false,
    };
    if scoreboard {
        match lines {
            Some(ls) => {
                out.append("<div class=\"ear\"><span class=\"lab\">Scoreboard</span>");
                push_ear_lines(out, ls);
                out.append("</div>");
            },
            None => {},
        }
    } else {
        out.append("<div class=\"ear\"><span class=\"lab\">Press Room</span><b>");
        push_decimal(out, e.cards.len() as u64);
        out.append(" stories</b><i>Printed ");
        push_escaped(out, printed);
        out.append(" \u{b7} ");
        push_decimal(out, e.stats.searches as u64);
        out.append(" searches</i></div>");
    }
    proof {
        assert(out@ =~= mid + right_ear_of(*e, printed@, opt_lines(*lines)));
    }
    out.append("</header>");
    proof {
        assert(out@ =~= start + masthead_of(*e, *opts, printed@, opt_lines(*lines)));
    }
}

// ----------------------------------------------------------- the dateline

/// Where the paper is datelined: "Boise, Sunday, September 20, 2026", or
/// just the date when no city is set.
pub open spec fn place_of(city: Seq<char>, date: Seq<char>) -> Seq<char> {
    if trim(city).len() == 0 {
        long_date_of(date)
    } else {
        trim(city) + ", "@ + long_date_of(date)
    }
}

/// The volume counts years from 2025: volume I in 2026.
pub open spec fn volume_of(date: Seq<char>) -> u32 {
    if year_of(date) > 2025 {
        (year_of(date) - 2025) as u32
    } else {
        0
    }
}

/// The dateline: volume and number, place and date, the tagline in quotes.
pub open spec fn dateline_of(e: Edition, opts: RenderOptions) -> Seq<char> {
    "<div class=\"dateline sans\"><span>Vol. "@ + roman_numeral(volume_of(e.date@)) + " . . . No. "@
        + decimal(e.edition_no as nat) + "</span><span class=\"c\">"@ + escaped(
        place_of(opts.city@, e.date@),
    ) + "</span><span class=\"r\">"@ + (match e.tagline {
        Some(t) => "\u{201C}"@ + escaped(t@) + "\u{201D}"@,
        None => seq![],
    }) + "</span></div>"@
}

fn push_dateline(out: &mut String, e: &Edition, opts: &RenderOptions)
    ensures
        final(out)@ == old(out)@ + dateline_of(*e, *opts),
{
    let ghost start = out@;
    let year = year_from(e.date.as_str());
    let volume = if year > 2025 {
        year - 2025
    } else {
        0
    };
    out.append("<div class=\"dateline sans\"><span>Vol. ");
    let numeral = roman(volume);
    out.append(numeral.as_str());
    out.append(" . . . No. ");
    push_decimal(out, e.edition_no as u64);
    out.append("</span><span class=\"c\">");
    let date = long_date(e.date.as_str());
    let city = trimmed(opts.city.as_str());
    if city.as_str().is_empty() {
        push_escaped(out, date.as_str());
    } else {
        let mut place = city;
        place.append(", ");
        place.append(date.as_str());
        push_escaped(out, place.as_str());
    }
    out.append("</span><span class=\"r\">");
    match &e.tagline {
        Some(t) => {
            out.append("\u{201C}");
            push_escaped(out, t.as_str());
            out.append("\u{201D}");
        },
        None => {},
    }
    out.append("</span></div>");
    proof {
        assert(out@ =~= start + dateline_of(*e, *opts));
    }
}


// ------------------------------------------------------- lead and desks

/// The first card from `i` on that is sized as the lead.
pub open spec fn lead_from(cards: Seq<Card>, i: int) -> Option<int>
    decreases cards.len() - i,
{
    if i < 0 || i >= cards.len() {
        None
    } else if cards[i].size@ == "lead"@ {
        Some(i)
    } else {
        lead_from(cards, i + 1)
    }
}

/// The lead story: the first card sized as the lead, else the first card.
pub open spec fn lead_index(cards: Seq<Card>) -> Option<int> {
    match lead_from(cards, 0) {
        Some(i) => Some(i),
        None => if cards.len() > 0 {
            Some(0)
        } else {
            None
        },
    }
}

/// The lead story's id, empty when there is no story at all.
pub open spec fn lead_id_of(cards: Seq<Card>) -> Seq<char> {
    match lead_index(cards) {
        Some(i) => cards[i].id@,
        None => seq![],
    }
}

/// The days the stories' bylines print, one per card.
pub open spec fn date_views(dates: Seq<Option<String>>) -> Seq<Option<Seq<char>>> {
    dates.map_values(|d: Option<String>| opt_view(d))
}

/// The lead story, printed across the top.
pub open spec fn lead_part_of(cards: Seq<Card>, qr: bool, dates: Seq<Option<Seq<char>>>) -> Seq<char> {
    match lead_index(cards) {
        Some(i) => lead_of(cards[i], qr, dates[i]),
        None => seq![],
    }
}

/// The desks: the editor's, then each of those that only the stories name,
/// once, in the order the stories come.
pub open spec fn sections_from(list: Seq<Seq<char>>, cards: Seq<Card>, upto: int) -> Seq<Seq<char>>
    decreases upto,
{
    if upto <= 0 {
        list
    } else {
        let l = sections_from(list, cards, upto - 1);
        let s = cards[upto - 1].section@;
        if l.contains(s) {
            l
        } else {
            l.push(s)
        }
    }
}

/// All desks of an edition, in printing order.
pub open spec fn sections_of(e: Edition) -> Seq<Seq<char>> {
    sections_from(views(e.sections@), e.cards@, e.cards@.len() as int)
}

/// Whether a card runs in a desk: it is filed there and is not the lead.
pub open spec fn in_desk(c: Card, section: Seq<char>, lead_id: Seq<char>) -> bool {
    c.section@ == section && c.id@ != lead_id
}

/// A desk's stories among the first `upto` cards: the briefs, or the others.
pub open spec fn desk_stories(
    cards: Seq<Card>,
    dates: Seq<Option<Seq<char>>>,
    qr: bool,
    section: Seq<char>,
    lead_id: Seq<char>,
    brief: bool,
    upto: int,
) -> Seq<char>
    decreases upto,
{
    if upto <= 0 {
        seq![]
    } else {
        desk_stories(cards, dates, qr, section, lead_id, brief, upto - 1) + (if in_desk(
            cards[upto - 1],
            section,
            lead_id,
        ) && (cards[upto - 1].size@ == "brief"@) == brief {
            story_of(cards[upto - 1], qr, dates[upto - 1])
        } else {
            seq![]
        })
    }
}

/// Whether any card runs in a desk.
pub open spec fn desk_has_stories(cards: Seq<Card>, section: Seq<char>, lead_id: Seq<char>) -> bool {
    exists|i: int| 0 <= i < cards.len() && #[trigger] in_desk(cards[i], section, lead_id)
}

/// A desk: its heading, then its stories in columns, the others before the
/// briefs, each group in the edition's order; nothing when it has no story.
pub open spec fn desk_of(
    cards: Seq<Card>,
    dates: Seq<Option<Seq<char>>>,
    qr: bool,
    section: Seq<char>,
    lead_id: Seq<char>,
) -> Seq<char> {
    if desk_has_stories(cards, section, lead_id) {
        "<h2 class=\"desk\">"@ + escaped(section) + "</h2><div class=\"cols\">"@ + desk_stories(
            cards,
            dates,
            qr,
            section,
            lead_id,
            false,
            cards.len() as int,
        ) + desk_stories(cards, dates, qr, section, lead_id, true, cards.len() as int)
            + "</div>"@
    } else {
        seq![]
    }
}

/// The first `upto` desks.
pub open spec fn desks_of(
    sections: Seq<Seq<char>>,
    cards: Seq<Card>,
    dates: Seq<Option<Seq<char>>>,
    qr: bool,
    lead_id: Seq<char>,
    upto: int,
) -> Seq<char>
    decreases upto,
{
    if upto <= 0 {
        seq![]
    } else {
        desks_of(sections, cards, dates, qr, lead_id, upto - 1) + desk_of(
            cards,
            dates,
            qr,
            sections[upto - 1],
            lead_id,
        )
    }
}

/// Where the lead story is among the cards.
fn find_lead(cards: &Vec<Card>) -> (r: Option<usize>)
    ensures
        match r {
            Some(i) => lead_index(cards@) == Some(i as int) && i < cards@.len(),
            None => lead_index(cards@) is None,
        },
{
    let mut i: usize = 0;
    while i < cards.len()
        invariant
            i <= cards@.len(),
            lead_from(cards@, 0) == lead_from(cards@, i as int),
        decreases cards@.len() - i,
    {
        if str_eq(cards[i].size.as_str(), "lead") {
            return Some(i);
        }
        i = i + 1;
    }
    if cards.len() > 0 {
        Some(0)
    } else {
        None
    }
}

fn list_contains(list: &Vec<String>, s: &str) -> (r: bool)
    ensures
        r == views(list@).contains(s@),
{
    let mut i: usize = 0;
    while i < list.len()
        invariant
            i <= list@.len(),
            forall|j: int| 0 <= j < i ==> list@[j]@ != s@,
        decreases list@.len() - i,
    {
        if str_eq(list[i].as_str(), s) {
            proof {
                assert(views(list@)[i as int] == s@);
            }
            return true;
        }
        i = i + 1;
    }
    proof {
        if views(list@).contains(s@) {
            let j = choose|j: int| 0 <= j < views(list@).len() && views(list@)[j] == s@;
            assert(list@[j]@ == s@);
        }
    }
    false
}

/// The desks of an edition, in printing order.
fn all_sections(e: &Edition) -> (r: Vec<String>)
    ensures
        views(r@) == sections_of(*e),
{
    let mut list: Vec<String> = Vec::new();
    let mut i: usize = 0;
    while i < e.sections.len()
        invariant
            i <= e.sections@.len(),
            views(list@) == views(e.sections@).take(i as int),
        decreases e.sections@.len() - i,
    {
        let item = e.sections[i].clone();
        proof {
            assert(item@ == e.sections@[i as int]@);
        }
        list.push(item);
        proof {
            assert(views(list@).drop_last() =~= views(e.sections@).take(i as int));
            assert(views(list@) =~= views(e.sections@).take(i + 1));
        }
        i = i + 1;
    }
    proof {
        assert(views(e.sections@).take(e.sections@.len() as int) =~= views(e.sections@));
    }
    let mut k: usize = 0;
    while k < e.cards.len()
        invariant
            k <= e.cards@.len(),
            views(list@) == sections_from(views(e.sections@), e.cards@, k as int),
        decreases e.cards@.len() - k,
    {
        let section = e.cards[k].section.as_str();
        if !list_contains(&list, section) {
            list.push(e.cards[k].section.clone());
            proof {
                assert(views(list@) =~= sections_from(views(e.sections@), e.cards@, k + 1));
            }
        }
        k = k + 1;
    }
    list
}

fn push_desk_stories(
    out: &mut String,
    cards: &Vec<Card>,
    dates: &Vec<Option<String>>,
    opts: &RenderOptions,
    section: &str,
    lead_id: &str,
    brief: bool,
)
    requires
        dates@.len() == cards@.len(),
    ensures
        final(out)@ == old(out)@ + desk_stories(
            cards@,
            date_views(dates@),
            opts.qr,
            section@,
            lead_id@,
            brief,
            cards@.len() as int,
        ),
{
    let ghost start = out@;
    let ghost dv = date_views(dates@);
    let mut i: usize = 0;
    while i < cards.len()
        invariant
            i <= cards@.len(),
            dates@.len() == cards@.len(),
            dv == date_views(dates@),
            out@ == start + desk_stories(cards@, dv, opts.qr, section@, lead_id@, brief, i as int),
        decreases cards@.len() - i,
    {
        let c = &cards[i];
        let fits = str_eq(c.section.as_str(), section) && !str_eq(c.id.as_str(), lead_id) && (str_eq(
            c.size.as_str(),
            "brief",
        ) == brief);
        if fits {
            push_story_dated(out, c, opts, &dates[i]);
        }
        proof {
            assert(dv[i as int] == opt_view(dates@[i as int]));
            assert(out@ =~= start + desk_stories(
                cards@,
                dv,
                opts.qr,
                section@,
                lead_id@,
                brief,
                i + 1,
            ));
        }
        i = i + 1;
    }
}

fn push_desk(
    out: &mut String,
    cards: &Vec<Card>,
    dates: &Vec<Option<String>>,
    opts: &RenderOptions,
    section: &str,
    lead_id: &str,
)
    requires
        dates@.len() == cards@.len(),
    ensures
        final(out)@ == old(out)@ + desk_of(cards@, date_views(dates@), opts.qr, section@, lead_id@),
{
    let ghost start = out@;
    let mut any = false;
    let mut i: usize = 0;
    while i < cards.len()
        invariant
            i <= cards@.len(),
            any == exists|j: int| 0 <= j < i && #[trigger] in_desk(cards@[j], section@, lead_id@),
        decreases cards@.len() - i,
    {
        if str_eq(cards[i].section.as_str(), section) && !str_eq(cards[i].id.as_str(), lead_id) {
            any = true;
            proof {
                assert(in_desk(cards@[i as int], section@, lead_id@));
            }
        }
        i = i + 1;
    }
    if !any {
        proof {
            assert(out@ =~= start + desk_of(cards@, date_views(dates@), opts.qr, section@, lead_id@));
        }
        return;
    }
    out.append("<h2 class=\"desk\">");
    push_escaped(out, section);
    out.append("</h2><div class=\"cols\">");
    push_desk_stories(out, cards, dates, opts, section, lead_id, false);
    push_desk_stories(out, cards, dates, opts, section, lead_id, true);
    out.append("</div>");
    proof {
        assert(out@ =~= start + desk_of(cards@, date_views(dates@), opts.qr, section@, lead_id@));
    }
}

/// The colophon and the end of the document.
pub open spec fn colophon_of(e: Edition, opts: RenderOptions) -> Seq<char> {
    "<div class=\"colophon sans\"><span>"@ + escaped(opts.paper@)
        + " \u{b7} printed on demand \u{b7} one subscriber</span><span>"@ + escaped(e.date@)
        + "</span></div>"@ + "</body></html>"@
}

/// The whole document, given the local clock time it was put together at
/// (`printed`), the scoreboard's lines and each story's day.
pub open spec fn page_of(
    e: Edition,
    opts: RenderOptions,
    font: Seq<u8>,
    printed: Seq<char>,
    lines: Option<Seq<Seq<char>>>,
    dates: Seq<Option<Seq<char>>>,
) -> Seq<char> {
    head_of(e, opts, font) + masthead_of(e, opts, printed, lines) + dateline_of(e, opts)
        + lead_part_of(e.cards@, opts.qr, dates) + desks_of(
        sections_of(e),
        e.cards@,
        dates,
        opts.qr,
        lead_id_of(e.cards@),
        sections_of(e).len() as int,
    ) + colophon_of(e, opts)
}

/// The whole print edition as one self-contained HTML document, given the
/// local clock time it was put together at, the scoreboard's lines and each
/// story's day (one per card).
pub fn render_page(
    e: &Edition,
    opts: &RenderOptions,
    font: &[u8],
    printed: &str,
    lines: &Option<Vec<String>>,
    dates: &Vec<Option<String>>,
) -> (r: String)
    requires
        dates@.len() == e.cards@.len(),
    ensures
        r@ == page_of(*e, *opts, font@, printed@, opt_lines(*lines), date_views(dates@)),
{
    let mut out = String::new();
    push_head(&mut out, e, opts, font);
    push_masthead(&mut out, e, opts, printed, lines);
    push_dateline(&mut out, e, opts);
    let ghost before_lead = out@;
    let lead = find_lead(&e.cards);
    let lead_id: String = match lead {
        Some(i) => {
            push_lead_dated(&mut out, &e.cards[i], opts, &dates[i]);
            proof {
                assert(date_views(dates@)[i as int] == opt_view(dates@[i as int]));
            }
            e.cards[i].id.clone()
        },
        None => String::new(),
    };
    proof {
        assert(out@ == before_lead + lead_part_of(e.cards@, opts.qr, date_views(dates@)));
        assert(lead_id@ == lead_id_of(e.cards@));
    }
    let sections = all_sections(e);
    let ghost before_desks = out@;
    let mut k: usize = 0;
    while k < sections.len()
        invariant
            k <= sections@.len(),
            dates@.len() == e.cards@.len(),
            out@ == before_desks + desks_of(
                views(sections@),
                e.cards@,
                date_views(dates@),
                opts.qr,
                lead_id@,
                k as int,
            ),
        decreases sections@.len() - k,
    {
        push_desk(&mut out, &e.cards, dates, opts, sections[k].as_str(), lead_id.as_str());
        proof {
            assert(views(sections@)[k as int] == sections@[k as int]@);
            assert(out@ =~= before_desks + desks_of(
                views(sections@),
                e.cards@,
                date_views(dates@),
                opts.qr,
                lead_id@,
                k + 1,
            ));
        }
        k = k + 1;
    }
    let ghost before_colophon = out@;
    out.append("<div class=\"colophon sans\"><span>");
    push_escaped(&mut out, opts.paper.as_str());
    out.append(" \u{b7} printed on demand \u{b7} one subscriber</span><span>");
    push_escaped(&mut out, e.date.as_str());
    out.append("</span></div>");
    out.append("</body></html>");
    proof {
        assert(out@ =~= before_colophon + colophon_of(*e, *opts));
        assert(out@ =~= page_of(*e, *opts, font@, printed@, opt_lines(*lines), date_views(dates@)));
    }
    out
}


// ------------------------------------------------------------ the edition

/// The clock time of a local reading, empty when there is none.
pub open spec fn clock_of(t: Option<LocalTime>) -> Seq<char> {
    match t {
        Some(t) => t.clock@,
        None => seq![],
    }
}

/// The scoreboard's lines, when the options carry a scoreboard.
pub open spec fn score_lines_of(
    score: Option<ScoreBug>,
    zone: Seq<char>,
    game_time: Option<LocalTime>,
    next_time: Option<LocalTime>,
) -> Option<Seq<Seq<char>>> {
    match score {
        Some(sc) => Some(scoreboard_of(sc, zone, game_time, next_time)),
        None => None,
    }
}

/// Whether local readings and story days are ones the clock can give for
/// this edition: a reading of when it was put together, in a reading's
/// shape, exactly when that timestamp parses; readings of the games' starts
/// as `scoreboard_lines` takes them; and one day per story, like "Sep 20",
/// exactly when its timestamp parses.
pub open spec fn readings_fit(
    e: Edition,
    opts: RenderOptions,
    printed_time: Option<LocalTime>,
    game_time: Option<LocalTime>,
    next_time: Option<LocalTime>,
    dates: Seq<Option<Seq<char>>>,
) -> bool {
    &&& (printed_time is Some <==> rfc3339_parses(e.generated_at@))
    &&& (printed_time matches Some(t) ==> reading_form(t))
    &&& match opts.score {
        Some(sc) => reading_fits(sc.game, game_time) && reading_fits(sc.next, next_time),
        None => true,
    }
    &&& dates.len() == e.cards@.len()
    &&& forall|i: int| 0 <= i < dates.len() ==> date_fits(e.cards@[i], #[trigger] dates[i])
}

/// The whole print edition as one self-contained HTML document. `font` is
/// the masthead's typeface (WOFF2); `zone` names the local time zone for the
/// scoreboard ("PDT"). Times and days are read in the local time zone.
pub fn render_html(edition: &Edition, opts: &RenderOptions, font: &[u8], zone: &str) -> (r: String)
    ensures
        exists|
            printed_time: Option<LocalTime>,
            game_time: Option<LocalTime>,
            next_time: Option<LocalTime>,
            dates: Seq<Option<Seq<char>>>,
        |
            readings_fit(*edition, *opts, printed_time, game_time, next_time, dates) && r@
                == #[trigger] page_of(
                *edition,
                *opts,
                font@,
                clock_of(printed_time),
                score_lines_of(opts.score, zone@, game_time, next_time),
                dates,
            ),
{
    let printed_time = local_time(edition.generated_at.as_str());
    let printed = match &printed_time {
        Some(t) => t.clock.clone(),
        None => String::new(),
    };
    let lines = match &opts.score {
        Some(sc) => Some(scoreboard_lines(sc, zone)),
        None => None,
    };
    let mut dates: Vec<Option<String>> = Vec::new();
    let mut i: usize = 0;
    while i < edition.cards.len()
        invariant
            i <= edition.cards@.len(),
            dates@.len() == i,
            forall|j: int| 0 <= j < i ==> date_fits(edition.cards@[j], #[trigger] opt_view(dates@[j])),
        decreases edition.cards@.len() - i,
    {
        dates.push(card_date(&edition.cards[i]));
        i = i + 1;
    }
    let r = render_page(edition, opts, font, printed.as_str(), &lines, &dates);
    proof {
        let dv = date_views(dates@);
        assert forall|i: int| 0 <= i < dv.len() implies date_fits(edition.cards@[i], #[trigger] dv[i]) by {
            assert(dv[i] == opt_view(dates@[i]));
        }
        assert(printed@ == clock_of(printed_time));
        match &opts.score {
            Some(sc) => {
                let sc = *sc;
                let (gt, nt) = choose|gt: Option<LocalTime>, nt: Option<LocalTime>|
                    reading_fits(sc.game, gt) && reading_fits(sc.next, nt) && views(
                        lines->0@,
                    ) == #[trigger] scoreboard_of(sc, zone@, gt, nt);
                assert(opt_lines(lines) == score_lines_of(opts.score, zone@, gt, nt));
                assert(readings_fit(*edition, *opts, printed_time, gt, nt, dv));
                assert(r@ == page_of(
                    *edition,
                    *opts,
                    font@,
                    clock_of(printed_time),
                    score_lines_of(opts.score, zone@, gt, nt),
                    dv,
                ));
            },
            None => {
                assert(opt_lines(lines) == score_lines_of(opts.score, zone@, None, None));
                assert(readings_fit(*edition, *opts, printed_time, None, None, dv));
                assert(r@ == page_of(
                    *edition,
                    *opts,
                    font@,
                    clock_of(printed_time),
                    score_lines_of(opts.score, zone@, None, None),
                    dv,
                ));
            },
        }
    }
    r
}

// ------------------------------------------------------------------ laws

/// Every card's section is among the desks.
proof fn lemma_sections_cover(list: Seq<Seq<char>>, cards: Seq<Card>, upto: int)
    requires
        0 <= upto <= cards.len(),
    ensures
        forall|k: int| 0 <= k < upto ==> sections_from(list, cards, upto).contains(#[trigger] cards[k].section@),
    decreases upto,
{
    if upto > 0 {
        lemma_sections_cover(list, cards, upto - 1);
        let l = sections_from(list, cards, upto - 1);
        let s = cards[upto - 1].section@;
        assert forall|k: int| 0 <= k < upto implies sections_from(list, cards, upto).contains(
            #[trigger] cards[k].section@,
        ) by {
            if !l.contains(s) {
                if k < upto - 1 {
                    let j = choose|j: int| 0 <= j < l.len() && l[j] == cards[k].section@;
                    assert(l.push(s)[j] == l[j]);
                } else {
                    assert(l.push(s)[l.len() as int] == s);
                }
            }
        }
    }
}

/// The desk list grows only by desks it does not hold yet.
proof fn lemma_sections_grow(list: Seq<Seq<char>>, cards: Seq<Card>, upto: int)
    requires
        0 <= upto <= cards.len(),
    ensures
        sections_from(list, cards, upto).len() >= list.len(),
        sections_from(list, cards, upto).take(list.len() as int) == list,
        list.no_duplicates() ==> sections_from(list, cards, upto).no_duplicates(),
    decreases upto,
{
    if upto > 0 {
        lemma_sections_grow(list, cards, upto - 1);
        let l = sections_from(list, cards, upto - 1);
        let s = cards[upto - 1].section@;
        if !l.contains(s) {
            assert(l.push(s).take(list.len() as int) =~= l.take(list.len() as int));
            if list.no_duplicates() {
                assert forall|i: int, j: int|
                    0 <= i < l.push(s).len() && 0 <= j < l.push(s).len() && i != j implies l.push(s)[i]
                    != l.push(s)[j] by {
                    if i == l.len() {
                        assert(l[j] == l.push(s)[j]);
                    } else if j == l.len() {
                        assert(l[i] == l.push(s)[i]);
                    }
                }
            }
        }
    }
}

/// The desks run in the editor's order first; every story's section has a
/// desk; and when the editor names no desk twice, no desk is listed twice.
pub proof fn lemma_desk_order(e: Edition)
    ensures
        sections_of(e).take(e.sections@.len() as int) == views(e.sections@),
        forall|i: int| 0 <= i < e.cards@.len() ==> sections_of(e).contains(#[trigger] e.cards@[i].section@),
        views(e.sections@).no_duplicates() ==> sections_of(e).no_duplicates(),
{
    let list = views(e.sections@);
    lemma_sections_grow(list, e.cards@, e.cards@.len() as int);
    lemma_sections_cover(list, e.cards@, e.cards@.len() as int);
}

/// The printed desks hold each desk among them.
proof fn lemma_desks_hold(
    sections: Seq<Seq<char>>,
    cards: Seq<Card>,
    dates: Seq<Option<Seq<char>>>,
    qr: bool,
    lead_id: Seq<char>,
    upto: int,
    j: int,
)
    requires
        0 <= j < upto <= sections.len(),
    ensures
        contains(
            desks_of(sections, cards, dates, qr, lead_id, upto),
            desk_of(cards, dates, qr, sections[j], lead_id),
        ),
    decreases upto,
{
    let prev = desks_of(sections, cards, dates, qr, lead_id, upto - 1);
    let last = desk_of(cards, dates, qr, sections[upto - 1], lead_id);
    let want = desk_of(cards, dates, qr, sections[j], lead_id);
    if j == upto - 1 {
        lemma_contains_self(last);
        lemma_contains_concat(prev, last, last);
    } else {
        lemma_desks_hold(sections, cards, dates, qr, lead_id, upto - 1, j);
        lemma_contains_concat(prev, last, want);
    }
}

/// A desk's run of stories holds each story that runs there.
proof fn lemma_stories_hold(
    cards: Seq<Card>,
    dates: Seq<Option<Seq<char>>>,
    qr: bool,
    section: Seq<char>,
    lead_id: Seq<char>,
    brief: bool,
    upto: int,
    i: int,
)
    requires
        0 <= i < upto <= cards.len(),
        in_desk(cards[i], section, lead_id),
        (cards[i].size@ == "brief"@) == brief,
    ensures
        contains(
            desk_stories(cards, dates, qr, section, lead_id, brief, upto),
            story_of(cards[i], qr, dates[i]),
        ),
    decreases upto,
{
    let prev = desk_stories(cards, dates, qr, section, lead_id, brief, upto - 1);
    let last = if in_desk(cards[upto - 1], section, lead_id) && (cards[upto - 1].size@ == "brief"@)
        == brief {
        story_of(cards[upto - 1], qr, dates[upto - 1])
    } else {
        seq![]
    };
    let want = story_of(cards[i], qr, dates[i]);
    if i == upto - 1 {
        lemma_contains_self(want);
        lemma_contains_concat(prev, last, want);
    } else {
        lemma_stories_hold(cards, dates, qr, section, lead_id, brief, upto - 1, i);
        lemma_contains_concat(prev, last, want);
    }
}

/// Every story makes the paper: each card that does not share the lead's id
/// runs in the desk of its section, whatever its section and size.
pub proof fn lemma_every_story_printed(
    e: Edition,
    opts: RenderOptions,
    font: Seq<u8>,
    printed: Seq<char>,
    lines: Option<Seq<Seq<char>>>,
    dates: Seq<Option<Seq<char>>>,
    i: int,
)
    requires
        0 <= i < e.cards@.len(),
        dates.len() == e.cards@.len(),
        e.cards@[i].id@ != lead_id_of(e.cards@),
    ensures
        contains(page_of(e, opts, font, printed, lines, dates), story_of(e.cards@[i], opts.qr, dates[i])),
{
    let cards = e.cards@;
    let n = cards.len() as int;
    let lid = lead_id_of(cards);
    let qr = opts.qr;
    let section = cards[i].section@;
    let secs = sections_of(e);
    lemma_sections_cover(views(e.sections@), cards, n);
    assert(secs.contains(section));
    let j = choose|j: int| 0 <= j < secs.len() && secs[j] == section;
    lemma_desks_hold(secs, cards, dates, qr, lid, secs.len() as int, j);
    let desks = desks_of(secs, cards, dates, qr, lid, secs.len() as int);
    let desk = desk_of(cards, dates, qr, section, lid);
    assert(in_desk(cards[i], section, lid));
    assert(desk_has_stories(cards, section, lid));
    let brief = cards[i].size@ == "brief"@;
    lemma_stories_hold(cards, dates, qr, section, lid, brief, n, i);
    let story = story_of(cards[i], qr, dates[i]);
    let others = desk_stories(cards, dates, qr, section, lid, false, n);
    let briefs = desk_stories(cards, dates, qr, section, lid, true, n);
    let open = "<h2 class=\"desk\">"@ + escaped(section) + "</h2><div class=\"cols\">"@;
    assert(desk == open + others + briefs + "</div>"@);
    if brief {
        lemma_contains_concat(open + others, briefs, story);
    } else {
        lemma_contains_concat(open, others, story);
        lemma_contains_concat(open + others, briefs, story);
    }
    lemma_contains_concat(open + others + briefs, "</div>"@, story);
    lemma_contains_trans(desks, desk, story);
    let top = head_of(e, opts, font) + masthead_of(e, opts, printed, lines) + dateline_of(e, opts)
        + lead_part_of(cards, qr, dates);
    lemma_contains_concat(top, desks, story);
    lemma_contains_concat(top + desks, colophon_of(e, opts), story);
}

/// The lead story runs once, across the top: it is printed before the desks
/// and runs in none of them.
pub proof fn lemma_lead_printed_once(
    e: Edition,
    opts: RenderOptions,
    font: Seq<u8>,
    printed: Seq<char>,
    lines: Option<Seq<Seq<char>>>,
    dates: Seq<Option<Seq<char>>>,
    li: int,
)
    requires
        lead_index(e.cards@) == Some(li),
        dates.len() == e.cards@.len(),
    ensures
        contains(page_of(e, opts, font, printed, lines, dates), lead_of(e.cards@[li], opts.qr, dates[li])),
        forall|section: Seq<char>| !in_desk(e.cards@[li], section, lead_id_of(e.cards@)),
{
    let cards = e.cards@;
    let qr = opts.qr;
    let lead = lead_of(cards[li], qr, dates[li]);
    let pre = head_of(e, opts, font) + masthead_of(e, opts, printed, lines) + dateline_of(e, opts);
    let secs = sections_of(e);
    let desks = desks_of(secs, cards, dates, qr, lead_id_of(cards), secs.len() as int);
    assert(lead_part_of(cards, qr, dates) == lead);
    lemma_contains_self(lead);
    lemma_contains_concat(pre, lead, lead);
    lemma_contains_concat(pre + lead, desks, lead);
    lemma_contains_concat(pre + lead + desks, colophon_of(e, opts), lead);
}

} // verus!
