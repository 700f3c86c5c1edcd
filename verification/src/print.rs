//! The paper paper: edition -> print-layout HTML -> PDF (a headless
//! Chromium-family browser) -> printer (`lp`).
//!
//! The HTML lives in `render` and `page`; this module holds the decisions
//! around it: what the print switch reports, where to look for a browser and
//! what to tell it, which printer to use and what to tell `lp`, and whether
//! the morning run prints.

use vstd::prelude::*;

pub use crate::clock::scoreboard_lines;
pub use crate::page::render_html;
pub use crate::render::{
    byline, copy_html, esc, figure, lead_html, links, more_block, paragraphs, roman, site_name,
    story_html, RenderOptions,
};

use crate::model::Settings;
use crate::render::nonempty_trimmed;
use crate::text::{
    chars_of, contains, contains_str, decimal, find_char_from, find_char_in, join,
    lemma_find_char_from, lines, lines_of, opt_view, push_decimal, push_joined, string_of_range,
    to_owned, trim, trim_bounds, trimmed, truncate, truncated, utf8_len, utf8_len_at_most, views,
};

verus! {

// ------------------------------------------------------------------ status

/// What the print switch shows.
pub struct PrintStatus {
    /// Print automatically after the scheduled morning refresh.
    pub print_daily: bool,
    /// A Chromium-family browser was found to make the PDF.
    pub browser_found: bool,
    /// The printer that would be used, if one can be determined.
    pub printer: Option<String>,
    /// Why printing can't work right now, if it can't.
    pub problem: Option<String>,
}

/// The problem reported when no browser can make the PDF.
pub open spec fn browser_missing() -> Seq<char> {
    "Printing needs Google Chrome (or Edge / Brave) installed to make the PDF."@
}

/// What the print switch shows, given the reader's choice, whether a browser
/// was found, and the printer or why none can be picked. A missing browser is
/// the problem reported first; otherwise it is the printer's.
pub fn print_status(print_daily: bool, browser_found: bool, printer: Result<String, String>) -> (s:
    PrintStatus)
    ensures
        s.print_daily == print_daily,
        s.browser_found == browser_found,
        opt_view(s.printer) == (match printer {
            Ok(p) => Some(p@),
            Err(_) => None,
        }),
        opt_view(s.problem) == (if !browser_found {
            Some(browser_missing())
        } else {
            match printer {
                Ok(_) => None,
                Err(e) => Some(e@),
            }
        }),
{
    let problem = if !browser_found {
        Some(to_owned("Printing needs Google Chrome (or Edge / Brave) installed to make the PDF."))
    } else {
        match &printer {
            Ok(_) => None,
            Err(e) => Some(e.clone()),
        }
    };
    let printer = match printer {
        Ok(p) => Some(p),
        Err(_) => None,
    };
    PrintStatus { print_daily, browser_found, printer, problem }
}

// -------------------------------------------------------------- time zone

/// The time zone's abbreviation as `date +%Z` printed it: the trimmed text,
/// kept only when it is not empty and at most five bytes long.
pub open spec fn zone_of(output: Seq<char>) -> Seq<char> {
    let z = trim(output);
    if z.len() > 0 && utf8_len(z) <= 5 {
        z
    } else {
        seq![]
    }
}

/// Reads the time zone's abbreviation ("PDT") out of what `date +%Z` printed.
pub fn zone_from_date_output(output: &str) -> (r: String)
    ensures
        r@ == zone_of(output@),
{
    let z = trimmed(output);
    let v = chars_of(z.as_str());
    if v.len() > 0 && utf8_len_at_most(&v, 5) {
        z
    } else {
        String::new()
    }
}

// ------------------------------------------------------------ the browser

/// `Path::join` of a relative path: a separator goes between unless the
/// base is empty or already ends in one.
pub open spec fn path_join(base: Seq<char>, rel: Seq<char>) -> Seq<char> {
    if base.len() == 0 || base.last() == '/' {
        base + rel
    } else {
        base + "/"@ + rel
    }
}

fn join_path(base: &str, rel: &str) -> (r: String)
    ensures
        r@ == path_join(base@, rel@),
{
    let v = chars_of(base);
    let mut r = to_owned(base);
    if v.len() > 0 && v[v.len() - 1] != '/' {
        r.append("/");
    }
    r.append(rel);
    proof {
        if v@.len() > 0 {
            assert(v@.last() == base@.last());
        }
    }
    r
}

/// The browser applications looked for on a Mac, in order of preference.
pub open spec fn mac_browser(k: int) -> Seq<char> {
    if k == 0 {
        "Google Chrome.app/Contents/MacOS/Google Chrome"@
    } else if k == 1 {
        "Microsoft Edge.app/Contents/MacOS/Microsoft Edge"@
    } else if k == 2 {
        "Brave Browser.app/Contents/MacOS/Brave Browser"@
    } else if k == 3 {
        "Chromium.app/Contents/MacOS/Chromium"@
    } else {
        "Vivaldi.app/Contents/MacOS/Vivaldi"@
    }
}

/// The places for the first `k` Mac browsers: each in `/Applications`, then
/// in the home folder's `Applications` when there is a home folder.
pub open spec fn mac_candidates(home: Option<Seq<char>>, k: int) -> Seq<Seq<char>>
    decreases k,
{
    if k <= 0 {
        seq![]
    } else {
        let app = mac_browser(k - 1);
        let system = seq![path_join("/Applications"@, app)];
        let own = match home {
            Some(h) => seq![path_join(path_join(h, "Applications"@), app)],
            None => Seq::<Seq<char>>::empty(),
        };
        mac_candidates(home, k - 1) + system + own
    }
}

/// Every place a headless-capable browser is looked for, in order: the five
/// Mac browsers, then the usual Linux binaries.
pub open spec fn browser_candidates_of(home: Option<Seq<char>>) -> Seq<Seq<char>> {
    mac_candidates(home, 5) + seq![
        "/usr/bin/google-chrome"@,
        "/usr/bin/chromium"@,
        "/usr/bin/chromium-browser"@,
    ]
}

fn mac_browser_name(k: usize) -> (r: &'static str)
    requires
        k < 5,
    ensures
        r@ == mac_browser(k as int),
{
    if k == 0 {
        "Google Chrome.app/Contents/MacOS/Google Chrome"
    } else if k == 1 {
        "Microsoft Edge.app/Contents/MacOS/Microsoft Edge"
    } else if k == 2 {
        "Brave Browser.app/Contents/MacOS/Brave Browser"
    } else if k == 3 {
        "Chromium.app/Contents/MacOS/Chromium"
    } else {
        "Vivaldi.app/Contents/MacOS/Vivaldi"
    }
}

/// Where to look for a browser to make the PDF with, best first, given the
/// home folder when it is known.
pub fn browser_candidates(home: Option<&str>) -> (r: Vec<String>)
    ensures
        views(r@) == browser_candidates_of(crate::text::opt_str_view(home)),
{
    let ghost h = crate::text::opt_str_view(home);
    let mut r: Vec<String> = Vec::new();
    let mut k: usize = 0;
    while k < 5
        invariant
            k <= 5,
            h == crate::text::opt_str_view(home),
            views(r@) == mac_candidates(h, k as int),
        decreases 5 - k,
    {
        let app = mac_browser_name(k);
        r.push(join_path("/Applications", app));
        match home {
            Some(hd) => {
                let apps = join_path(hd, "Applications");
                r.push(join_path(apps.as_str(), app));
            },
            None => {},
        }
        proof {
            assert(views(r@) =~= mac_candidates(h, k + 1));
        }
        k = k + 1;
    }
    r.push(to_owned("/usr/bin/google-chrome"));
    r.push(to_owned("/usr/bin/chromium"));
    r.push(to_owned("/usr/bin/chromium-browser"));
    proof {
        assert(views(r@) =~= browser_candidates_of(h));
    }
    r
}

/// The browser the settings name (`chromeBin`), trimmed, when they name one;
/// otherwise the app looks for one.
pub fn browser_override(chrome_bin: &str) -> (r: Option<String>)
    ensures
        opt_view(r) == (if trim(chrome_bin@).len() > 0 {
            Some(trim(chrome_bin@))
        } else {
            None
        }),
{
    let b = trimmed(chrome_bin);
    if b.as_str().is_empty() {
        None
    } else {
        Some(b)
    }
}

/// The message when no browser can make the PDF.
pub open spec fn no_pdf_browser() -> Seq<char> {
    "Printing needs Google Chrome (or Edge / Brave) to make the PDF, and I couldn't find one. Install Chrome, or set chromeBin in settings.json."@
}

/// The browser a print run uses: the one found, else the reason printing
/// cannot go on.
pub fn browser_for_pdf(found: Option<String>) -> (r: Result<String, String>)
    ensures
        result_view(r) == (match found {
            Some(b) => Ok(b@),
            None => Err(no_pdf_browser()),
        }),
{
    match found {
        Some(b) => Ok(b),
        None => Err(
            to_owned(
                "Printing needs Google Chrome (or Edge / Brave) to make the PDF, and I couldn't find one. Install Chrome, or set chromeBin in settings.json.",
            ),
        ),
    }
}

/// Whether the page carries the reader's team's scoreboard: only when the
/// settings name a team (a team id of 0 names none).
pub fn wants_scoreboard(team_id: u32) -> (r: bool)
    ensures
        r == (team_id != 0),
{
    team_id != 0
}

/// The file:// address the url crate gives a path
/// (`Url::from_file_path`); `None` when it gives none, as for a relative
/// path.
pub uninterp spec fn file_url_of(path: Seq<char>) -> Option<Seq<char>>;

/// url: `Url::from_file_path` on the path, as text. Claimed: the result is
/// `file_url_of` of the path, a function of the path's text alone.
#[verifier::external_body]
fn file_url(path: &str) -> (r: Option<String>)
    ensures
        opt_view(r) == file_url_of(path@),
{
    match url::Url::from_file_path(std::path::Path::new(path)) {
        Ok(u) => Some(u.as_str().to_string()),
        Err(_) => None,
    }
}

/// The message when the print page has no file:// address.
pub open spec fn no_page_address() -> Seq<char> {
    "Couldn't build a file:// address for the print page."@
}

/// What the browser is sent to open: the print page's file:// address, or
/// why there is none.
pub fn print_page_address(html_path: &str) -> (r: Result<String, String>)
    ensures
        match r {
            Ok(u) => file_url_of(html_path@) == Some(u@),
            Err(e) => file_url_of(html_path@) is None && e@ == no_page_address(),
        },
{
    match file_url(html_path) {
        Some(u) => Ok(u),
        None => Err(to_owned("Couldn't build a file:// address for the print page.")),
    }
}

/// The files a print run writes for an edition's date: the page and the PDF.
pub fn print_file_names(date: &str) -> (r: (String, String))
    ensures
        r.0@ == date@ + ".html"@,
        r.1@ == "My Daily "@ + date@ + ".pdf"@,
{
    let mut html = to_owned(date);
    html.append(".html");
    let mut pdf = to_owned("My Daily ");
    pdf.append(date);
    pdf.append(".pdf");
    (html, pdf)
}

/// The browser's command line that prints the page at `file_url` to `pdf`,
/// headless, in its own profile; Linux adds `--no-sandbox`.
pub open spec fn browser_args_of(profile: Seq<char>, pdf: Seq<char>, file_url: Seq<char>, linux: bool) -> Seq<
    Seq<char>,
> {
    seq![
        "--headless=new"@,
        "--disable-gpu"@,
        "--no-first-run"@,
        "--no-default-browser-check"@,
        "--disable-extensions"@,
        "--hide-scrollbars"@,
        "--no-pdf-header-footer"@,
        "--print-to-pdf-no-header"@,
        "--virtual-time-budget=25000"@,
        "--user-data-dir="@ + profile,
        "--print-to-pdf="@ + pdf,
        file_url,
    ] + (if linux {
        seq!["--no-sandbox"@]
    } else {
        Seq::<Seq<char>>::empty()
    })
}

/// The browser's arguments for making the PDF.
pub fn browser_args(profile: &str, pdf: &str, file_url: &str, linux: bool) -> (r: Vec<String>)
    ensures
        views(r@) == browser_args_of(profile@, pdf@, file_url@, linux),
{
    let mut r: Vec<String> = Vec::new();
    r.push(to_owned("--headless=new"));
    r.push(to_owned("--disable-gpu"));
    r.push(to_owned("--no-first-run"));
    r.push(to_owned("--no-default-browser-check"));
    r.push(to_owned("--disable-extensions"));
    r.push(to_owned("--hide-scrollbars"));
    r.push(to_owned("--no-pdf-header-footer"));
    r.push(to_owned("--print-to-pdf-no-header"));
    r.push(to_owned("--virtual-time-budget=25000"));
    let mut profile_arg = to_owned("--user-data-dir=");
    profile_arg.append(profile);
    r.push(profile_arg);
    let mut pdf_arg = to_owned("--print-to-pdf=");
    pdf_arg.append(pdf);
    r.push(pdf_arg);
    r.push(to_owned(file_url));
    if linux {
        r.push(to_owned("--no-sandbox"));
    }
    proof {
        assert(views(r@) =~= browser_args_of(profile@, pdf@, file_url@, linux));
    }
    r
}


// ------------------------------------------------------------ the printer

/// The first of the lines from the `i`-th on that contains `pat`.
pub open spec fn first_line_containing(ls: Seq<Seq<char>>, pat: Seq<char>, i: int) -> Option<Seq<char>>
    decreases ls.len() - i,
{
    if i < 0 || i >= ls.len() {
        None
    } else if contains(ls[i], pat) {
        Some(ls[i])
    } else {
        first_line_containing(ls, pat, i + 1)
    }
}

/// `line.split(':').nth(1)`: the text after the first colon, up to the next.
pub open spec fn second_field(line: Seq<char>) -> Option<Seq<char>> {
    match find_char_from(line, ':', 0) {
        Some(i) => {
            let rest = line.subrange(i + 1, line.len() as int);
            match find_char_from(rest, ':', 0) {
                Some(j) => Some(rest.subrange(0, j)),
                None => Some(rest),
            }
        },
        None => None,
    }
}

/// The printer `lpstat -d` names: on the first line that says "default
/// destination:", the trimmed text after the colon, when it is not empty.
pub open spec fn default_printer_of(lpstat_d: Seq<char>) -> Option<Seq<char>> {
    match first_line_containing(lines(lpstat_d), "default destination:"@, 0) {
        Some(l) => match second_field(l) {
            Some(f) => if trim(f).len() > 0 {
                Some(trim(f))
            } else {
                None
            },
            None => None,
        },
        None => None,
    }
}

/// "system default destination: HP_LaserJet" -> "HP_LaserJet"
pub fn parse_default_printer(lpstat_d: &str) -> (r: Option<String>)
    ensures
        opt_view(r) == default_printer_of(lpstat_d@),
{
    let ls = lines_of(lpstat_d);
    let pat = chars_of("default destination:");
    let mut i: usize = 0;
    while i < ls.len()
        invariant
            i <= ls@.len(),
            views(ls@) == lines(lpstat_d@),
            pat@ == "default destination:"@,
            first_line_containing(lines(lpstat_d@), pat@, 0) == first_line_containing(
                lines(lpstat_d@),
                pat@,
                i as int,
            ),
        decreases ls@.len() - i,
    {
        let line = chars_of(ls[i].as_str());
        proof {
            assert(views(ls@)[i as int] == line@);
        }
        if contains_str(&line, &pat) {
            let c1 = match find_char_in(&line, ':', 0) {
                Some(c) => c,
                None => {
                    return None;
                },
            };
            proof {
                lemma_find_char_from(line@, ':', 0);
            }
            let rest_start = c1 + 1;
            let end = match find_char_in(&line, ':', rest_start) {
                Some(c2) => c2,
                None => line.len(),
            };
            proof {
                let rest = line@.subrange(rest_start as int, line@.len() as int);
                lemma_find_char_from(line@, ':', rest_start as int);
                lemma_find_char_from(rest, ':', 0);
                match find_char_from(rest, ':', 0) {
                    Some(j) => {
                        assert(rest[j] == line@[rest_start + j]);
                        assert(find_char_from(line@, ':', rest_start as int) == Some(rest_start + j)) by {
                            match find_char_from(line@, ':', rest_start as int) {
                                Some(k) => {
                                    if k < rest_start + j {
                                        assert(rest[k - rest_start] == line@[k]);
                                    }
                                },
                                None => {},
                            }
                        }
                        assert(rest.subrange(0, j) =~= line@.subrange(rest_start as int, end as int));
                    },
                    None => {
                        match find_char_from(line@, ':', rest_start as int) {
                            Some(k) => {
                                assert(rest[k - rest_start] == line@[k]);
                            },
                            None => {},
                        }
                        assert(rest =~= line@.subrange(rest_start as int, end as int));
                    },
                }
            }
            let (a, b) = trim_bounds(&line, rest_start, end);
            if a < b {
                return Some(string_of_range(&line, a, b));
            } else {
                return None;
            }
        }
        i = i + 1;
    }
    None
}

/// The printer the settings name, trimmed, when they name one.
pub fn named_printer(settings: &Settings) -> (r: Option<String>)
    ensures
        opt_view(r) == (if trim(settings.printer@).len() > 0 {
            Some(trim(settings.printer@))
        } else {
            None
        }),
{
    let p = trimmed(settings.printer.as_str());
    if p.as_str().is_empty() {
        None
    } else {
        Some(p)
    }
}

/// The message when no printer is set up.
pub open spec fn no_printer() -> Seq<char> {
    "No printer is set up on this Mac (System Settings > Printers & Scanners)."@
}

/// The message when there are several printers and no default.
pub open spec fn many_printers(printers: Seq<Seq<char>>) -> Seq<char> {
    "There are "@ + decimal(printers.len())
        + " printers and no default. Pick a default in System Settings > Printers & Scanners, or put one of these in settings.json as \"printer\": "@
        + join(printers, ", "@)
}

/// The printer to use when there is no default, from `lpstat -e`'s list (one
/// per line): the only one there is, else why none can be picked.
pub open spec fn printer_from_list_of(list: Seq<char>) -> Result<Seq<char>, Seq<char>> {
    let printers = nonempty_trimmed(lines(list));
    if printers.len() == 0 {
        Err(no_printer())
    } else if printers.len() == 1 {
        Ok(printers[0])
    } else {
        Err(many_printers(printers))
    }
}

/// The view of a result of strings.
pub open spec fn result_view(r: Result<String, String>) -> Result<Seq<char>, Seq<char>> {
    match r {
        Ok(s) => Ok(s@),
        Err(e) => Err(e@),
    }
}

/// Picks the printer from `lpstat -e`'s list when the system has no default
/// (macOS set to "Last Printer Used"): if there is exactly one, that's the
/// one.
pub fn printer_from_list(list: &str) -> (r: Result<String, String>)
    ensures
        result_view(r) == printer_from_list_of(list@),
{
    let ls = lines_of(list);
    let mut printers: Vec<String> = Vec::new();
    let mut i: usize = 0;
    while i < ls.len()
        invariant
            i <= ls@.len(),
            views(ls@) == lines(list@),
            views(printers@) == nonempty_trimmed(views(ls@).take(i as int)),
        decreases ls@.len() - i,
    {
        let t = trimmed(ls[i].as_str());
        proof {
            assert(views(ls@).take(i + 1).drop_last() =~= views(ls@).take(i as int));
            assert(views(ls@).take(i + 1).last() == ls@[i as int]@);
        }
        if !t.as_str().is_empty() {
            printers.push(t);
        }
        proof {
            assert(views(printers@) =~= nonempty_trimmed(views(ls@).take(i + 1)));
        }
        i = i + 1;
    }
    proof {
        assert(views(ls@).take(ls@.len() as int) =~= views(ls@));
    }
    if printers.len() == 0 {
        Err(to_owned("No printer is set up on this Mac (System Settings > Printers & Scanners)."))
    } else if printers.len() == 1 {
        let only = printers[0].clone();
        proof {
            assert(views(printers@)[0] == printers@[0]@);
        }
        Ok(only)
    } else {
        let mut msg = to_owned("There are ");
        push_decimal(&mut msg, printers.len() as u64);
        msg.append(
            " printers and no default. Pick a default in System Settings > Printers & Scanners, or put one of these in settings.json as \"printer\": ",
        );
        push_joined(&mut msg, &printers, ", ");
        proof {
            assert(msg@ =~= many_printers(views(printers@)));
        }
        Err(msg)
    }
}

/// `lp`'s arguments: printer and title, a page limit when one is set, one-
/// or two-sided, Letter paper, and the PDF.
pub open spec fn lp_args_of(printer: Seq<char>, pdf: Seq<char>, title: Seq<char>, settings: Settings) -> Seq<
    Seq<char>,
> {
    seq!["-d"@, printer, "-t"@, title] + (if settings.print_max_pages > 0 {
        seq!["-o"@, "page-ranges=1-"@ + decimal(settings.print_max_pages as nat)]
    } else {
        Seq::<Seq<char>>::empty()
    }) + seq![
        "-o"@,
        if settings.print_duplex {
            "sides=two-sided-long-edge"@
        } else {
            "sides=one-sided"@
        },
        "-o"@,
        "media=Letter"@,
        pdf,
    ]
}

/// The arguments for `lp` to print `pdf` on `printer` under `title`.
pub fn lp_args(printer: &str, pdf: &str, title: &str, settings: &Settings) -> (a: Vec<String>)
    ensures
        views(a@) == lp_args_of(printer@, pdf@, title@, *settings),
{
    let mut a: Vec<String> = Vec::new();
    a.push(to_owned("-d"));
    a.push(to_owned(printer));
    a.push(to_owned("-t"));
    a.push(to_owned(title));
    if settings.print_max_pages > 0 {
        a.push(to_owned("-o"));
        let mut range = to_owned("page-ranges=1-");
        push_decimal(&mut range, settings.print_max_pages as u64);
        a.push(range);
    }
    a.push(to_owned("-o"));
    if settings.print_duplex {
        a.push(to_owned("sides=two-sided-long-edge"));
    } else {
        a.push(to_owned("sides=one-sided"));
    }
    a.push(to_owned("-o"));
    a.push(to_owned("media=Letter"));
    a.push(to_owned(pdf));
    proof {
        assert(views(a@) =~= lp_args_of(printer@, pdf@, title@, *settings));
    }
    a
}

/// `lp`'s arguments are well formed: `-d` and the printer, `-t` and the
/// title, then options each given as `-o` followed by its value, and the PDF
/// last. The options are the page range when a page limit is set, the sides
/// (two-sided exactly when duplex is on) and Letter paper.
pub proof fn lemma_lp_args_shape(printer: Seq<char>, pdf: Seq<char>, title: Seq<char>, settings: Settings)
    ensures
        lp_args_of(printer, pdf, title, settings).len() >= 5,
        (lp_args_of(printer, pdf, title, settings).len() - 5) % 2 == 0,
        lp_args_of(printer, pdf, title, settings)[0] == "-d"@,
        lp_args_of(printer, pdf, title, settings)[1] == printer,
        lp_args_of(printer, pdf, title, settings)[2] == "-t"@,
        lp_args_of(printer, pdf, title, settings)[3] == title,
        lp_args_of(printer, pdf, title, settings).last() == pdf,
        forall|k: int|
            4 <= k < lp_args_of(printer, pdf, title, settings).len() - 1 && (k - 4) % 2 == 0
                ==> #[trigger] lp_args_of(printer, pdf, title, settings)[k] == "-o"@,
        settings.print_max_pages > 0 ==> lp_args_of(printer, pdf, title, settings).len() == 11
            && lp_args_of(printer, pdf, title, settings)[5] == "page-ranges=1-"@ + decimal(
            settings.print_max_pages as nat,
        ),
        settings.print_max_pages == 0 ==> lp_args_of(printer, pdf, title, settings).len() == 9,
        exists|k: int|
            5 <= k < lp_args_of(printer, pdf, title, settings).len() - 1 && (k - 5) % 2 == 0
                && #[trigger] lp_args_of(printer, pdf, title, settings)[k] == (if settings.print_duplex {
                "sides=two-sided-long-edge"@
            } else {
                "sides=one-sided"@
            }),
        exists|k: int|
            5 <= k < lp_args_of(printer, pdf, title, settings).len() - 1 && (k - 5) % 2 == 0
                && #[trigger] lp_args_of(printer, pdf, title, settings)[k] == "media=Letter"@,
{
    let a = lp_args_of(printer, pdf, title, settings);
    let n = a.len() as int;
    if settings.print_max_pages > 0 {
        assert(n == 11);
        assert(a[4] == "-o"@ && a[6] == "-o"@ && a[8] == "-o"@);
        assert(a[7] == (if settings.print_duplex {
            "sides=two-sided-long-edge"@
        } else {
            "sides=one-sided"@
        }));
        assert(a[9] == "media=Letter"@);
    } else {
        assert(n == 9);
        assert(a[4] == "-o"@ && a[6] == "-o"@);
        assert(a[5] == (if settings.print_duplex {
            "sides=two-sided-long-edge"@
        } else {
            "sides=one-sided"@
        }));
        assert(a[7] == "media=Letter"@);
    }
}

/// What picking a printer comes to, one step at a time.
pub enum PrinterChoice {
    /// Print on this printer.
    Use(String),
    /// No printer can be picked, for this reason.
    Refuse(String),
    /// Ask `lpstat -d` for the system's default and come back with its output.
    AskDefault,
    /// Ask `lpstat -e` for the printers there are and come back with its output.
    AskList,
}

/// The view of a printer choice.
pub open spec fn choice_view(c: PrinterChoice) -> (int, Seq<char>) {
    match c {
        PrinterChoice::Use(p) => (0, p@),
        PrinterChoice::Refuse(e) => (1, e@),
        PrinterChoice::AskDefault => (2, seq![]),
        PrinterChoice::AskList => (3, seq![]),
    }
}

/// The printer to use: the one the settings name, else the system's
/// default, else the only printer there is. `default_out` and `list_out` are
/// what `lpstat -d` and `lpstat -e` printed, once asked for.
pub open spec fn printer_choice_of(
    named: Seq<char>,
    default_out: Option<Seq<char>>,
    list_out: Option<Seq<char>>,
) -> (int, Seq<char>) {
    if trim(named).len() > 0 {
        (0, trim(named))
    } else {
        match default_out {
            None => (2, seq![]),
            Some(d) => match default_printer_of(d) {
                Some(p) => (0, p),
                None => match list_out {
                    None => (3, seq![]),
                    Some(l) => match printer_from_list_of(l) {
                        Ok(p) => (0, p),
                        Err(e) => (1, e),
                    },
                },
            },
        }
    }
}

/// Takes the next step in picking a printer: settings.json, then the
/// system's default, then the only printer there is.
pub fn printer_choice(settings: &Settings, default_out: Option<&str>, list_out: Option<&str>) -> (c:
    PrinterChoice)
    ensures
        choice_view(c) == printer_choice_of(
            settings.printer@,
            crate::text::opt_str_view(default_out),
            crate::text::opt_str_view(list_out),
        ),
{
    match named_printer(settings) {
        Some(p) => {
            return PrinterChoice::Use(p);
        },
        None => {},
    }
    let d = match default_out {
        Some(d) => d,
        None => {
            return PrinterChoice::AskDefault;
        },
    };
    match parse_default_printer(d) {
        Some(p) => {
            return PrinterChoice::Use(p);
        },
        None => {},
    }
    let l = match list_out {
        Some(l) => l,
        None => {
            return PrinterChoice::AskList;
        },
    };
    match printer_from_list(l) {
        Ok(p) => PrinterChoice::Use(p),
        Err(e) => PrinterChoice::Refuse(e),
    }
}

/// A printer named in the settings is the one used, whatever the system
/// says, and the system is not even asked.
pub proof fn lemma_named_printer_wins(
    named: Seq<char>,
    default_out: Option<Seq<char>>,
    list_out: Option<Seq<char>>,
)
    requires
        trim(named).len() > 0,
    ensures
        printer_choice_of(named, default_out, list_out) == (0int, trim(named)),
{
}

/// The system's default is used whenever `lpstat -d` names one, and the list
/// of printers is then not asked for.
pub proof fn lemma_default_before_list(
    named: Seq<char>,
    default_out: Seq<char>,
    list_out: Option<Seq<char>>,
)
    requires
        trim(named).len() == 0,
        default_printer_of(default_out) is Some,
    ensures
        printer_choice_of(named, Some(default_out), list_out) == (
            0int,
            default_printer_of(default_out)->0,
        ),
{
}

/// The print job's title: the paper's name and the edition's date.
pub fn print_job_title(paper: &str, date: &str) -> (r: String)
    ensures
        r@ == paper@ + " "@ + date@,
{
    let mut r = to_owned(paper);
    r.append(" ");
    r.append(date);
    r
}

/// What a queued job reports: the printer and `lp`'s confirmation, trimmed.
pub fn lp_confirmation(printer: &str, lp_output: &str) -> (r: String)
    ensures
        r@ == printer@ + ": "@ + trim(lp_output@),
{
    let mut r = to_owned(printer);
    r.append(": ");
    let t = trimmed(lp_output);
    r.append(t.as_str());
    r
}

/// The last `n` lines, last first.
pub open spec fn last_lines(ls: Seq<Seq<char>>, n: nat) -> Seq<Seq<char>>
    decreases n,
{
    if n == 0 || ls.len() == 0 {
        seq![]
    } else {
        seq![ls.last()] + last_lines(ls.drop_last(), (n - 1) as nat)
    }
}

/// What the browser said last when it made no PDF: its last three lines of
/// error output, last first, joined by " | ".
pub fn stderr_tail(err: &str) -> (r: String)
    ensures
        r@ == join(last_lines(lines(err@), 3), " | "@),
{
    let ls = lines_of(err);
    let mut tail: Vec<String> = Vec::new();
    let n = ls.len();
    let mut k: usize = 0;
    proof {
        assert(views(ls@).take(n as int) =~= views(ls@));
        assert(views(tail@) + last_lines(views(ls@), 3) =~= last_lines(views(ls@), 3));
    }
    while k < 3 && k < n
        invariant
            n == ls@.len(),
            k <= 3,
            k <= n,
            views(tail@) + last_lines(views(ls@).take(n - k), (3 - k) as nat) == last_lines(
                views(ls@),
                3,
            ),
        decreases 3 - k,
    {
        let line = ls[n - 1 - k].clone();
        proof {
            let rest = views(ls@).take(n - k);
            assert(rest.last() == ls@[n - 1 - k]@);
            assert(rest.drop_last() =~= views(ls@).take(n - k - 1));
            assert(last_lines(rest, (3 - k) as nat) == seq![rest.last()] + last_lines(
                rest.drop_last(),
                (3 - k - 1) as nat,
            ));
        }
        tail.push(line);
        proof {
            assert(views(tail@) + last_lines(views(ls@).take(n - k - 1), (3 - k - 1) as nat)
                =~= last_lines(views(ls@), 3));
        }
        k = k + 1;
    }
    proof {
        assert(views(ls@).take(n - k).len() == 0 || k == 3);
        assert(last_lines(views(ls@).take(n - k), (3 - k) as nat) =~= Seq::<Seq<char>>::empty());
        assert(views(tail@) =~= last_lines(views(ls@), 3));
    }
    let mut r = String::new();
    push_joined(&mut r, &tail, " | ");
    proof {
        assert(r@ =~= join(last_lines(lines(err@), 3), " | "@));
    }
    r
}

/// The message when the browser made no PDF worth the name.
pub open spec fn no_pdf(err: Seq<char>) -> Seq<char> {
    "The browser didn't produce a PDF. "@ + truncated(join(last_lines(lines(err), 3), " | "@), 300)
}

/// Whether the browser made the PDF: a file under 2,000 bytes is taken for
/// a failure, reported with the last of what the browser said.
pub fn pdf_problem(size: u64, err: &str) -> (r: Option<String>)
    ensures
        opt_view(r) == (if size < 2000 {
            Some(no_pdf(err@))
        } else {
            None
        }),
{
    if size < 2000 {
        let tail = stderr_tail(err);
        let cut = truncate(tail.as_str(), 300);
        let mut m = to_owned("The browser didn't produce a PDF. ");
        m.append(cut.as_str());
        Some(m)
    } else {
        None
    }
}

/// Whether a print file is old enough to clear away: print files are kept
/// for two weeks.
pub fn print_file_expired(age_secs: u64) -> (r: bool)
    ensures
        r == (age_secs > 14 * 86_400),
{
    age_secs > 14 * 86_400
}

/// What a printer's refusal of the job is reported as: its name and the
/// first 240 characters of what `lp` said, trimmed.
pub fn lp_refusal(printer: &str, err: &str) -> (r: String)
    ensures
        r@ == "The printer \""@ + printer@ + "\" refused the job: "@ + truncated(trim(err@), 240),
{
    let t = trimmed(err);
    let cut = truncate(t.as_str(), 240);
    let mut r = to_owned("The printer \"");
    r.append(printer);
    r.append("\" refused the job: ");
    r.append(cut.as_str());
    r
}

// ---------------------------------------------------------- morning print

/// `x.rem_euclid(m)` for a positive `m`.
pub open spec fn rem_euclid(x: int, m: int) -> int {
    x % m
}

/// Minutes since the delivery time, going round the clock: how late a run
/// at `now_hour:now_minute` is for delivery at `hour:minute`.
pub open spec fn minutes_late(now_hour: u32, now_minute: u32, hour: u32, minute: u32) -> int {
    rem_euclid((now_hour * 60 + now_minute) - (hour * 60 + minute), 1440)
}

/// Minutes between the scheduled delivery time and now, both as hour and
/// minute of the day.
pub fn minutes_past(now_hour: u32, now_minute: u32, hour: u32, minute: u32) -> (r: i64)
    requires
        now_hour * 60 + now_minute <= u32::MAX,
        hour * 60 + minute <= u32::MAX,
    ensures
        r == minutes_late(now_hour, now_minute, hour, minute),
        0 <= r < 24 * 60,
{
    let now_min = (now_hour * 60 + now_minute) as i64;
    let sched = (hour * 60 + minute) as i64;
    if now_min >= sched {
        let d = now_min - sched;
        d % 1440
    } else {
        let back = sched - now_min;
        let p = back % 1440;
        proof {
            lemma_negative_remainder(back as int, p as int);
        }
        if p == 0 {
            0
        } else {
            1440 - p
        }
    }
}

/// The remainder of a negative number: `(-x) % m` counts back from `m`.
proof fn lemma_negative_remainder(x: int, p: int)
    requires
        x > 0,
        p == x % 1440,
    ensures
        (-x) % 1440 == (if p == 0 {
            0
        } else {
            1440 - p
        }),
{
    let q = x / 1440;
    assert(x == q * 1440 + p) by (nonlinear_arith)
        requires
            q == x / 1440,
            p == x % 1440,
    ;
    if p == 0 {
        assert((-x) % 1440 == 0) by (nonlinear_arith)
            requires
                x == q * 1440,
        ;
    } else {
        assert((-x) % 1440 == 1440 - p) by (nonlinear_arith)
            requires
                x == q * 1440 + p,
                0 < p < 1440,
        ;
    }
}

/// What the morning run does about paper.
pub enum MorningPlan {
    /// Nothing to say: printing is off or there is nowhere to keep track.
    Quiet,
    /// Say this and print nothing.
    Report(String),
    /// Make the PDF and send it to the printer.
    Print,
}

/// The message when the run is so late that the morning is over.
pub open spec fn too_late(late: i64) -> Seq<char> {
    "Not printing: this run is "@ + decimal((late / 60) as nat)
        + " hours past the delivery time. Use the Print button if you still want paper."@
}

/// Whether the morning run prints: not when daily printing is off, nor when
/// there is nowhere to note that it printed, nor twice a day, nor when the
/// "morning" job runs more than six hours past the delivery time because the
/// Mac was asleep.
pub open spec fn morning_plan_of(print_daily: bool, printed_today: Option<bool>, late: Option<i64>) -> Option<
    Option<Seq<char>>,
> {
    if !print_daily {
        None
    } else {
        match printed_today {
            None => None,
            Some(true) => Some(Some("Already printed today."@)),
            Some(false) => match late {
                Some(l) if l > 6 * 60 => Some(Some(too_late(l))),
                _ => Some(None),
            },
        }
    }
}

/// The view of a plan: `None` to stay quiet, `Some(Some(m))` to report `m`,
/// `Some(None)` to print.
pub open spec fn plan_view(p: MorningPlan) -> Option<Option<Seq<char>>> {
    match p {
        MorningPlan::Quiet => None,
        MorningPlan::Report(m) => Some(Some(m@)),
        MorningPlan::Print => Some(None),
    }
}

/// Decides the morning run's printing, given whether daily printing is on,
/// whether today's edition was printed already (`None` when that cannot be
/// known), and how many minutes past the delivery time the run is (`None`
/// when delivery is off).
pub fn morning_plan(print_daily: bool, printed_today: Option<bool>, late: Option<i64>) -> (p: MorningPlan)
    ensures
        plan_view(p) == morning_plan_of(print_daily, printed_today, late),
{
    if !print_daily {
        return MorningPlan::Quiet;
    }
    match printed_today {
        None => MorningPlan::Quiet,
        Some(true) => MorningPlan::Report(to_owned("Already printed today.")),
        Some(false) => match late {
            Some(l) => {
                if l > 6 * 60 {
                    let mut m = to_owned("Not printing: this run is ");
                    push_decimal(&mut m, (l / 60) as u64);
                    m.append(
                        " hours past the delivery time. Use the Print button if you still want paper.",
                    );
                    MorningPlan::Report(m)
                } else {
                    MorningPlan::Print
                }
            },
            None => MorningPlan::Print,
        },
    }
}

/// What the morning run says after trying to print.
pub fn morning_outcome(result: Result<String, String>) -> (r: String)
    ensures
        r@ == (match result {
            Ok(msg) => "Sent to printer - "@ + msg@,
            Err(e) => "Printing failed: "@ + e@,
        }),
{
    match result {
        Ok(msg) => {
            let mut r = to_owned("Sent to printer - ");
            r.append(msg.as_str());
            r
        },
        Err(e) => {
            let mut r = to_owned("Printing failed: ");
            r.append(e.as_str());
            r
        },
    }
}


/// The morning run prints at most once a day: once today's edition was
/// printed, the plan never prints again.
pub proof fn lemma_prints_at_most_once(print_daily: bool, late: Option<i64>)
    ensures
        morning_plan_of(print_daily, Some(true), late) != Some(None::<Seq<char>>),
{
}

/// A "morning" job that runs more than six hours past the delivery time
/// (the Mac slept through the morning) does not print.
pub proof fn lemma_no_evening_paper(print_daily: bool, printed_today: Option<bool>, late: i64)
    requires
        late > 6 * 60,
    ensures
        morning_plan_of(print_daily, printed_today, Some(late)) != Some(None::<Seq<char>>),
{
}

} // verus!
