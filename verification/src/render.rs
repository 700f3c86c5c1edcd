//! The print edition as one self-contained HTML document.
//!
//! Every function here says, as a spec function, exactly which text it
//! produces. Text that comes from the stories is always escaped; links are
//! named ("Read more on example.com") and carried by a QR code, since nobody
//! types an address off paper.

use vstd::prelude::*;

use crate::clock::{month_day_form, rfc3339_parses, short_date};
use crate::model::{Card, ScoreBug};
use crate::text::{
    chars_of, contains, find, find_in, lemma_contains_concat, lemma_contains_end,
    lemma_contains_grows, lemma_contains_self,
    lemma_contains_trans, lemma_find_from, occurs_at, opt_view, push_char, starts_with,
    starts_with_str,
    str_eq, string_of_range, to_owned, trim, trim_bounds, views,
};

verus! {

// ------------------------------------------------------------------ escape

/// How one character is written in HTML text and attribute values.
pub open spec fn html_char(c: char) -> Seq<char> {
    if c == '&' {
        seq!['&', 'a', 'm', 'p', ';']
    } else if c == '<' {
        seq!['&', 'l', 't', ';']
    } else if c == '>' {
        seq!['&', 'g', 't', ';']
    } else if c == '"' {
        seq!['&', 'q', 'u', 'o', 't', ';']
    } else {
        seq![c]
    }
}

/// `s` with `&`, `<`, `>` and `"` written as entities.
pub open spec fn escaped(s: Seq<char>) -> Seq<char>
    decreases s.len(),
{
    if s.len() == 0 {
        seq![]
    } else {
        escaped(s.drop_last()) + html_char(s.last())
    }
}

/// Appends `s`, escaped for HTML, to `out`.
pub fn push_escaped(out: &mut String, s: &str)
    ensures
        final(out)@ == old(out)@ + escaped(s@),
{
    let ghost start = out@;
    let v = chars_of(s);
    let mut i: usize = 0;
    while i < v.len()
        invariant
            i <= v@.len(),
            v@ == s@,
            out@ == start + escaped(v@.take(i as int)),
        decreases v@.len() - i,
    {
        let c = v[i];
        proof {
            assert(v@.take(i + 1).drop_last() =~= v@.take(i as int));
        }
        if c == '&' {
            push_char(out, '&');
            push_char(out, 'a');
            push_char(out, 'm');
            push_char(out, 'p');
            push_char(out, ';');
        } else if c == '<' {
            push_char(out, '&');
            push_char(out, 'l');
            push_char(out, 't');
            push_char(out, ';');
        } else if c == '>' {
            push_char(out, '&');
            push_char(out, 'g');
            push_char(out, 't');
            push_char(out, ';');
        } else if c == '"' {
            push_char(out, '&');
            push_char(out, 'q');
            push_char(out, 'u');
            push_char(out, 'o');
            push_char(out, 't');
            push_char(out, ';');
        } else {
            push_char(out, c);
        }
        proof {
            assert(out@ =~= start + escaped(v@.take(i + 1)));
        }
        i = i + 1;
    }
    proof {
        assert(v@.take(v@.len() as int) =~= v@);
    }
}

/// Escapes `&`, `<`, `>` and `"` for HTML.
pub fn esc(s: &str) -> (r: String)
    ensures
        r@ == escaped(s@),
{
    let mut r = String::new();
    push_escaped(&mut r, s);
    proof {
        assert(r@ =~= escaped(s@));
    }
    r
}

/// Escaped text holds no markup character: no `<`, `>` or `"`, so nothing a
/// story says can open a tag or end an attribute.
pub proof fn lemma_escaped_no_markup(s: Seq<char>)
    ensures
        forall|i: int|
            0 <= i < escaped(s).len() ==> #[trigger] escaped(s)[i] != '<' && escaped(s)[i] != '>'
                && escaped(s)[i] != '"',
    decreases s.len(),
{
    if s.len() > 0 {
        lemma_escaped_no_markup(s.drop_last());
        let pre = escaped(s.drop_last());
        let e = escaped(s);
        assert forall|i: int| 0 <= i < e.len() implies #[trigger] e[i] != '<' && e[i] != '>' && e[i]
            != '"' by {
            if i < pre.len() {
                assert(e[i] == pre[i]);
            } else {
                assert(e[i] == html_char(s.last())[i - pre.len()]);
            }
        }
    }
}

// ------------------------------------------------------------------- roman

/// Values of the Roman numeral table, largest first.
pub open spec fn roman_value(k: nat) -> nat {
    if k == 0 {
        1000
    } else if k == 1 {
        900
    } else if k == 2 {
        500
    } else if k == 3 {
        400
    } else if k == 4 {
        100
    } else if k == 5 {
        90
    } else if k == 6 {
        50
    } else if k == 7 {
        40
    } else if k == 8 {
        10
    } else if k == 9 {
        9
    } else if k == 10 {
        5
    } else if k == 11 {
        4
    } else {
        1
    }
}

/// Symbols of the Roman numeral table, in the same order.
pub open spec fn roman_symbol(k: nat) -> Seq<char> {
    if k == 0 {
        "M"@
    } else if k == 1 {
        "CM"@
    } else if k == 2 {
        "D"@
    } else if k == 3 {
        "CD"@
    } else if k == 4 {
        "C"@
    } else if k == 5 {
        "XC"@
    } else if k == 6 {
        "L"@
    } else if k == 7 {
        "XL"@
    } else if k == 8 {
        "X"@
    } else if k == 9 {
        "IX"@
    } else if k == 10 {
        "V"@
    } else if k == 11 {
        "IV"@
    } else {
        "I"@
    }
}

/// `n` in Roman numerals, greedily from the `k`-th table entry on.
pub open spec fn roman_from(n: nat, k: nat) -> Seq<char>
    decreases 13 - k, n,
{
    if k >= 13 {
        seq![]
    } else if n >= roman_value(k) {
        roman_symbol(k) + roman_from((n - roman_value(k)) as nat, k)
    } else {
        roman_from(n, k + 1)
    }
}

/// The volume number in Roman numerals; anything below 1 counts as 1.
pub open spec fn roman_numeral(n: u32) -> Seq<char> {
    roman_from(
        if n < 1 {
            1
        } else {
            n as nat
        },
        0,
    )
}

fn roman_entry(k: usize) -> (r: (u32, &'static str))
    requires
        k < 13,
    ensures
        r.0 == roman_value(k as nat),
        r.1@ == roman_symbol(k as nat),
{
    if k == 0 {
        (1000, "M")
    } else if k == 1 {
        (900, "CM")
    } else if k == 2 {
        (500, "D")
    } else if k == 3 {
        (400, "CD")
    } else if k == 4 {
        (100, "C")
    } else if k == 5 {
        (90, "XC")
    } else if k == 6 {
        (50, "L")
    } else if k == 7 {
        (40, "XL")
    } else if k == 8 {
        (10, "X")
    } else if k == 9 {
        (9, "IX")
    } else if k == 10 {
        (5, "V")
    } else if k == 11 {
        (4, "IV")
    } else {
        (1, "I")
    }
}

/// Roman numerals for a volume number; values below 1 count as 1.
pub fn roman(n: u32) -> (r: String)
    ensures
        r@ == roman_numeral(n),
{
    let mut out = String::new();
    let mut m: u32 = if n < 1 {
        1
    } else {
        n
    };
    let ghost total = m as nat;
    let mut k: usize = 0;
    while k < 13
        invariant
            k <= 13,
            roman_from(total, 0) == out@ + roman_from(m as nat, k as nat),
        decreases 13 - k,
    {
        let (v, s) = roman_entry(k);
        while m >= v
            invariant
                k < 13,
                v == roman_value(k as nat),
                s@ == roman_symbol(k as nat),
                roman_from(total, 0) == out@ + roman_from(m as nat, k as nat),
            decreases m,
        {
            out.append(s);
            proof {
                assert(roman_from(m as nat, k as nat) == roman_symbol(k as nat) + roman_from(
                    (m - v) as nat,
                    k as nat,
                ));
                assert(roman_from(total, 0) =~= out@ + roman_from((m - v) as nat, k as nat));
            }
            m = m - v;
        }
        k = k + 1;
    }
    proof {
        assert(roman_from(total, 0) =~= out@);
    }
    out
}

// -------------------------------------------------------------- paragraphs

/// The pieces of `s[start..]` between occurrences of `sep` (`str::split`).
pub open spec fn split_from(s: Seq<char>, sep: Seq<char>, start: int) -> Seq<Seq<char>>
    decreases s.len() - start,
    when 0 <= start <= s.len() && sep.len() > 0
{
    match crate::text::find_from(s, sep, start) {
        Some(k) => {
            proof {
                lemma_find_from(s, sep, start);
            }
            seq![s.subrange(start, k)] + split_from(s, sep, k + sep.len())
        },
        None => seq![s.subrange(start, s.len() as int)],
    }
}

/// The trimmed pieces that are not empty, in order.
pub open spec fn nonempty_trimmed(parts: Seq<Seq<char>>) -> Seq<Seq<char>>
    decreases parts.len(),
{
    if parts.len() == 0 {
        seq![]
    } else {
        let rest = nonempty_trimmed(parts.drop_last());
        let t = trim(parts.last());
        if t.len() > 0 {
            rest.push(t)
        } else {
            rest
        }
    }
}

/// The paragraphs of a story: its text split at blank lines ("\n\n"), each
/// trimmed, the empty ones dropped.
pub open spec fn paragraphs_of(text: Option<Seq<char>>) -> Seq<Seq<char>> {
    match text {
        Some(t) => nonempty_trimmed(split_from(t, "\n\n"@, 0)),
        None => seq![],
    }
}

/// Splits a story's text into paragraphs.
pub fn paragraphs(text: Option<&str>) -> (r: Vec<String>)
    ensures
        views(r@) == paragraphs_of(crate::text::opt_str_view(text)),
{
    let mut out: Vec<String> = Vec::new();
    let t = match text {
        Some(t) => t,
        None => {
            proof {
                assert(views(out@) =~= Seq::<Seq<char>>::empty());
            }
            return out;
        },
    };
    proof {
        reveal_strlit("\n\n");
    }
    let v = chars_of(t);
    let sep = chars_of("\n\n");
    let mut start: usize = 0;
    let ghost mut done: Seq<Seq<char>> = seq![];
    loop
        invariant
            crate::text::opt_str_view(text) == Some(t@),
            v@ == t@,
            sep@ == "\n\n"@,
            sep@.len() == 2,
            start <= v@.len(),
            split_from(v@, sep@, 0) == done + split_from(v@, sep@, start as int),
            views(out@) == nonempty_trimmed(done),
        decreases v@.len() - start,
    {
        let found = find_in(&v, &sep, start);
        proof {
            lemma_find_from(v@, sep@, start as int);
        }
        let end: usize = match found {
            Some(k) => k,
            None => v.len(),
        };
        let (a, b) = trim_bounds(&v, start, end);
        let ghost piece = v@.subrange(start as int, end as int);
        if a < b {
            out.push(string_of_range(&v, a, b));
        }
        proof {
            let nd = done.push(piece);
            assert(nd.drop_last() =~= done);
            assert(views(out@) =~= nonempty_trimmed(nd));
            match found {
                Some(k) => {
                    assert(split_from(v@, sep@, start as int) == seq![piece] + split_from(
                        v@,
                        sep@,
                        k + 2,
                    ));
                    assert(done + split_from(v@, sep@, start as int) =~= nd + split_from(
                        v@,
                        sep@,
                        k + 2,
                    ));
                },
                None => {
                    assert(split_from(v@, sep@, start as int) == seq![piece]);
                    assert(done + split_from(v@, sep@, start as int) =~= nd);
                },
            }
            done = nd;
        }
        match found {
            Some(k) => {
                assert(k + 2 <= v.len());
                start = k + 2;
            },
            None => {
                proof {
                    assert(split_from(v@, sep@, 0) =~= done);
                    assert(paragraphs_of(crate::text::opt_str_view(text)) == nonempty_trimmed(
                        split_from(t@, "\n\n"@, 0),
                    ));
                }
                return out;
            },
        }
    }
}


// ----------------------------------------------------------------- options

/// How to print an edition.
pub struct RenderOptions {
    /// Print pictures in colour; otherwise in black and white.
    pub color: bool,
    /// Print a QR code beside each link.
    pub qr: bool,
    /// The nameplate: "Sam's Daily".
    pub paper: String,
    /// Dateline city; empty means none.
    pub city: String,
    /// Last game and next game for the owner's team, when there is one.
    pub score: Option<ScoreBug>,
}

impl RenderOptions {
    /// Options for a proof sheet: Priya's paper, datelined Boise, no
    /// scoreboard.
    pub fn plain(color: bool, qr: bool) -> (o: RenderOptions)
        ensures
            o.color == color,
            o.qr == qr,
            o.paper@ == "Priya\u{2019}s Daily"@,
            o.city@ == "Boise"@,
            o.score is None,
    {
        RenderOptions {
            color,
            qr,
            paper: to_owned("Priya\u{2019}s Daily"),
            city: to_owned("Boise"),
            score: None,
        }
    }
}

// ------------------------------------------------------------------- links

/// The QR code the qrcode crate draws for `url` (error correction level L,
/// at least 90 by 90, no quiet zone) as an SVG document; `None` when the
/// address is too long to encode.
pub uninterp spec fn qr_svg_document(url: Seq<char>) -> Option<Seq<char>>;

/// qrcode: `QrCode::with_error_correction_level(url, EcLevel::L)`, rendered
/// with `render::<svg::Color>().min_dimensions(90, 90).quiet_zone(false)`.
/// Claimed: the result is `qr_svg_document` of the address, a function of the
/// address alone. The drawing itself is not described.
#[verifier::external_body]
fn render_qr_svg(url: &str) -> (r: Option<String>)
    ensures
        opt_view(r) == qr_svg_document(url@),
{
    let code = match qrcode::QrCode::with_error_correction_level(url.as_bytes(), qrcode::EcLevel::L) {
        Ok(code) => code,
        Err(_) => return None,
    };
    Some(code.render::<qrcode::render::svg::Color>().min_dimensions(90, 90).quiet_zone(false).build())
}

/// An SVG document made inline: from its `<svg` tag on (the XML declaration
/// dropped).
pub open spec fn inline_svg(doc: Seq<char>) -> Seq<char> {
    match find(doc, "<svg"@) {
        Some(i) => doc.subrange(i, doc.len() as int),
        None => doc,
    }
}

/// The inline QR code for `url`, if it can be drawn.
pub open spec fn qr_markup(url: Seq<char>) -> Option<Seq<char>> {
    match qr_svg_document(url) {
        Some(doc) => Some(inline_svg(doc)),
        None => None,
    }
}

/// Makes an SVG document inline: drops what comes before its `<svg` tag.
pub fn inline_svg_text(doc: String) -> (r: String)
    ensures
        r@ == inline_svg(doc@),
{
    let v = chars_of(doc.as_str());
    let tag = chars_of("<svg");
    match find_in(&v, &tag, 0) {
        Some(i) => {
            proof {
                lemma_find_from(v@, tag@, 0);
            }
            string_of_range(&v, i, v.len())
        },
        None => doc,
    }
}

/// The QR code for a link, as inline SVG.
pub fn qr_svg(url: &str) -> (r: Option<String>)
    ensures
        opt_view(r) == qr_markup(url@),
{
    match render_qr_svg(url) {
        Some(doc) => Some(inline_svg_text(doc)),
        None => None,
    }
}

/// The host the url crate finds in an address (`Url::parse(..).host_str()`).
pub uninterp spec fn url_host(url: Seq<char>) -> Option<Seq<char>>;

/// url: `Url::parse(url)` and its `host_str()`. Claimed: the result is
/// `url_host` of the address, a function of the address alone.
#[verifier::external_body]
fn parse_url_host(url: &str) -> (r: Option<String>)
    ensures
        opt_view(r) == url_host(url@),
{
    match url::Url::parse(url) {
        Ok(u) => match u.host_str() {
            Some(h) => Some(h.to_string()),
            None => None,
        },
        Err(_) => None,
    }
}

/// A host without a leading "www."; empty when there is none.
pub open spec fn host_label_from(host: Option<Seq<char>>) -> Seq<char> {
    match host {
        Some(h) => if starts_with(h, "www."@) {
            h.subrange("www."@.len() as int, h.len() as int)
        } else {
            h
        },
        None => seq![],
    }
}

/// The host of an address without a leading "www."; empty when there is none.
pub open spec fn host_label_of(url: Seq<char>) -> Seq<char> {
    host_label_from(url_host(url))
}

/// A host as a reader would say it: without a leading "www.".
pub fn label_of_host(host: Option<String>) -> (r: String)
    ensures
        r@ == host_label_from(opt_view(host)),
{
    match host {
        Some(h) => {
            if starts_with_str(h.as_str(), "www.") {
                let v = chars_of(h.as_str());
                let p = chars_of("www.");
                proof {
                    assert(p@.len() <= v@.len());
                }
                string_of_range(&v, p.len(), v.len())
            } else {
                h
            }
        },
        None => String::new(),
    }
}

/// The host of an address, as a reader would say it: "techcrunch.com".
pub fn host_label(url: &str) -> (r: String)
    ensures
        r@ == host_label_of(url@),
{
    label_of_host(parse_url_host(url))
}

/// A site's name in words, from the host as a reader says it: "YouTube",
/// "X", else the host itself.
pub open spec fn site_of_label(host: Seq<char>) -> Seq<char> {
    if host == "youtube.com"@ || host == "youtu.be"@ || host == "m.youtube.com"@ {
        "YouTube"@
    } else if host == "x.com"@ || host == "twitter.com"@ {
        "X"@
    } else {
        host
    }
}

/// Where a link goes, in words: "YouTube", "X", else the host.
pub open spec fn site_name_of(url: Seq<char>) -> Seq<char> {
    site_of_label(host_label_of(url))
}

/// Names a site from its host label: "YouTube" for YouTube's hosts, "X" for
/// X's and Twitter's, else the label itself.
pub fn site_from_label(host: String) -> (r: String)
    ensures
        r@ == site_of_label(host@),
{
    let h = host.as_str();
    if str_eq(h, "youtube.com") || str_eq(h, "youtu.be") || str_eq(h, "m.youtube.com") {
        to_owned("YouTube")
    } else if str_eq(h, "x.com") || str_eq(h, "twitter.com") {
        to_owned("X")
    } else {
        host
    }
}

/// Where a link goes, in words: "YouTube", "X", "techcrunch.com". The
/// address itself lives in the QR code.
pub fn site_name(url: &str) -> (r: String)
    ensures
        r@ == site_name_of(url@),
{
    site_from_label(host_label(url))
}

/// A link block: the QR code (when codes are on and one can be drawn), the
/// label, and the site's name.
#[verifier::opaque]
pub open spec fn more_block_of(label: Seq<char>, url: Seq<char>, qr: bool) -> Seq<char> {
    let code = if qr {
        match qr_markup(url) {
            Some(svg) => "<div class=\"qr\">"@ + svg + "</div>"@,
            None => seq![],
        }
    } else {
        seq![]
    };
    let site = site_name_of(url);
    let on = if site.len() == 0 {
        seq![]
    } else {
        " on "@ + escaped(site)
    };
    "<div class=\"more\">"@ + code + "<div class=\"txt\"><b>"@ + escaped(label) + on
        + "</b></div></div>"@
}

/// Appends a link block to `out`.
pub fn push_more_block(out: &mut String, label: &str, url: &str, opts: &RenderOptions)
    ensures
        final(out)@ == old(out)@ + more_block_of(label@, url@, opts.qr),
{
    let ghost start = out@;
    out.append("<div class=\"more\">");
    if opts.qr {
        match qr_svg(url) {
            Some(svg) => {
                out.append("<div class=\"qr\">");
                out.append(svg.as_str());
                out.append("</div>");
            },
            None => {},
        }
    }
    out.append("<div class=\"txt\"><b>");
    push_escaped(out, label);
    let site = site_name(url);
    if !site.as_str().is_empty() {
        out.append(" on ");
        push_escaped(out, site.as_str());
    }
    out.append("</b></div></div>");
    proof {
        reveal(more_block_of);
        assert(out@ =~= start + more_block_of(label@, url@, opts.qr));
    }
}

/// A link block for printing: "Read more on example.com" with its QR code.
pub fn more_block(label: &str, url: &str, opts: &RenderOptions) -> (r: String)
    ensures
        r@ == more_block_of(label@, url@, opts.qr),
{
    let mut r = String::new();
    push_more_block(&mut r, label, url, opts);
    proof {
        assert(r@ =~= more_block_of(label@, url@, opts.qr));
    }
    r
}

/// What a story's main link says.
pub open spec fn primary_label(kind: Seq<char>) -> Seq<char> {
    if kind == "video"@ {
        "See the video"@
    } else if kind == "post"@ {
        "See the post"@
    } else {
        "Read more"@
    }
}

/// A story's links: its own, then the video of an article or the article of
/// a video when it has one.
#[verifier::opaque]
pub open spec fn links_of(card: Card, qr: bool) -> Seq<char> {
    let main = more_block_of(primary_label(card.kind@), card.url@, qr);
    let extra = if card.kind@ == "article"@ {
        match card.video_url {
            Some(v) => more_block_of("See the video"@, v@, qr),
            None => seq![],
        }
    } else if card.kind@ == "video"@ {
        match card.article_url {
            Some(a) => more_block_of("Read more"@, a@, qr),
            None => seq![],
        }
    } else {
        seq![]
    };
    main + extra
}

/// Appends a story's links to `out`.
pub fn push_links(out: &mut String, card: &Card, opts: &RenderOptions)
    ensures
        final(out)@ == old(out)@ + links_of(*card, opts.qr),
{
    let ghost start = out@;
    let kind = card.kind.as_str();
    let primary = if str_eq(kind, "video") {
        "See the video"
    } else if str_eq(kind, "post") {
        "See the post"
    } else {
        "Read more"
    };
    push_more_block(out, primary, card.url.as_str(), opts);
    if str_eq(kind, "article") {
        match &card.video_url {
            Some(v) => push_more_block(out, "See the video", v.as_str(), opts),
            None => {},
        }
    } else if str_eq(kind, "video") {
        match &card.article_url {
            Some(a) => push_more_block(out, "Read more", a.as_str(), opts),
            None => {},
        }
    }
    proof {
        reveal(links_of);
        assert(out@ =~= start + links_of(*card, opts.qr));
    }
}

/// A story's links for printing.
pub fn links(card: &Card, opts: &RenderOptions) -> (r: String)
    ensures
        r@ == links_of(*card, opts.qr),
{
    let mut r = String::new();
    push_links(&mut r, card, opts);
    proof {
        assert(r@ =~= links_of(*card, opts.qr));
    }
    r
}

// ------------------------------------------------------------ story pieces

/// A story's picture, when it has one on the web; it hides itself if it
/// fails to load.
#[verifier::opaque]
pub open spec fn figure_of(card: Card) -> Seq<char> {
    match card.image {
        Some(src) => if starts_with(src@, "http"@) {
            "<figure><img src=\""@ + escaped(src@)
                + "\" alt=\"\" referrerpolicy=\"no-referrer\" onerror=\"this.parentNode.style.display='none'\"></figure>"@
        } else {
            seq![]
        },
        None => seq![],
    }
}

/// A story's picture for printing.
pub fn figure(card: &Card) -> (r: String)
    ensures
        r@ == figure_of(*card),
{
    let mut r = String::new();
    match &card.image {
        Some(src) => {
            if starts_with_str(src.as_str(), "http") {
                r.append("<figure><img src=\"");
                push_escaped(&mut r, src.as_str());
                r.append(
                    "\" alt=\"\" referrerpolicy=\"no-referrer\" onerror=\"this.parentNode.style.display='none'\"></figure>",
                );
            }
        },
        None => {},
    }
    proof {
        reveal(figure_of);
        assert(r@ =~= figure_of(*card));
    }
    r
}

/// Who a byline names: a post's author ("X" when unknown), else the source.
pub open spec fn byline_name(card: Card) -> Seq<char> {
    if card.kind@ == "post"@ {
        match card.author {
            Some(a) => a@,
            None => "X"@,
        }
    } else {
        card.source@
    }
}

/// A byline: who, and the day it was published ("Sep 20") when known.
#[verifier::opaque]
pub open spec fn byline_of(card: Card, date: Option<Seq<char>>) -> Seq<char> {
    let when = match date {
        Some(d) => " &nbsp;\u{b7}&nbsp; "@ + escaped(d),
        None => seq![],
    };
    "<div class=\"byline\"><b>"@ + escaped(byline_name(card)) + "</b>"@ + when + "</div>"@
}

/// Whether `date` is what `short_date` can give for the card's timestamp:
/// a day like "Sep 20" exactly when the timestamp parses.
pub open spec fn date_fits(card: Card, date: Option<Seq<char>>) -> bool {
    &&& (date is Some <==> (match card.published {
        Some(p) => rfc3339_parses(p@),
        None => false,
    }))
    &&& (date matches Some(d) ==> month_day_form(d))
}

/// Appends a byline, given the story's day, to `out`.
pub fn push_byline_dated(out: &mut String, card: &Card, date: &Option<String>)
    ensures
        final(out)@ == old(out)@ + byline_of(*card, opt_view(*date)),
{
    let ghost start = out@;
    out.append("<div class=\"byline\"><b>");
    if str_eq(card.kind.as_str(), "post") {
        match &card.author {
            Some(a) => push_escaped(out, a.as_str()),
            None => push_escaped(out, "X"),
        }
    } else {
        push_escaped(out, card.source.as_str());
    }
    out.append("</b>");
    match date {
        Some(d) => {
            out.append(" &nbsp;\u{b7}&nbsp; ");
            push_escaped(out, d.as_str());
        },
        None => {},
    }
    out.append("</div>");
    proof {
        reveal(byline_of);
        assert(out@ =~= start + byline_of(*card, opt_view(*date)));
    }
}

/// The day a card was published, as a byline prints it.
pub fn card_date(card: &Card) -> (r: Option<String>)
    ensures
        date_fits(*card, opt_view(r)),
{
    match &card.published {
        Some(p) => short_date(Some(p.as_str())),
        None => None,
    }
}

/// A byline for printing; relative times mean nothing on paper, so the day
/// is printed as "Sep 20".
pub fn byline(card: &Card) -> (r: String)
    ensures
        exists|date: Option<Seq<char>>| date_fits(*card, date) && r@ == #[trigger] byline_of(*card, date),
{
    let date = card_date(card);
    let mut r = String::new();
    push_byline_dated(&mut r, card, &date);
    proof {
        assert(r@ =~= byline_of(*card, opt_view(date)));
    }
    r
}

/// Paragraphs as HTML.
pub open spec fn paragraphs_html(ps: Seq<Seq<char>>) -> Seq<char>
    decreases ps.len(),
{
    if ps.len() == 0 {
        seq![]
    } else {
        paragraphs_html(ps.drop_last()) + "<p>"@ + escaped(ps.last()) + "</p>"@
    }
}

/// A story's copy: its paragraphs in a copy block, or nothing when it has
/// none.
#[verifier::opaque]
pub open spec fn copy_of(card: Card) -> Seq<char> {
    let ps = paragraphs_of(opt_view(card.story));
    if ps.len() == 0 {
        seq![]
    } else {
        "<div class=\"copy\">"@ + paragraphs_html(ps) + "</div>"@
    }
}

/// The story's text, if any, as a slice.
fn story_text(card: &Card) -> (r: Option<&str>)
    ensures
        crate::text::opt_str_view(r) == opt_view(card.story),
{
    match &card.story {
        Some(s) => Some(s.as_str()),
        None => None,
    }
}

/// Appends a story's copy to `out`.
pub fn push_copy(out: &mut String, card: &Card)
    ensures
        final(out)@ == old(out)@ + copy_of(*card),
{
    let ghost start = out@;
    let paras = paragraphs(story_text(card));
    proof {
        reveal(copy_of);
    }
    if paras.len() == 0 {
        proof {
            assert(out@ =~= start + copy_of(*card));
        }
        return;
    }
    out.append("<div class=\"copy\">");
    let ghost mid = out@;
    let mut i: usize = 0;
    while i < paras.len()
        invariant
            i <= paras@.len(),
            out@ == mid + paragraphs_html(views(paras@).take(i as int)),
        decreases paras@.len() - i,
    {
        proof {
            assert(views(paras@).take(i + 1).drop_last() =~= views(paras@).take(
                i as int,
            ));
        }
        out.append("<p>");
        push_escaped(out, paras[i].as_str());
        out.append("</p>");
        proof {
            assert(out@ =~= mid + paragraphs_html(views(paras@).take(i + 1)));
        }
        i = i + 1;
    }
    out.append("</div>");
    proof {
        assert(views(paras@).take(paras@.len() as int) =~= views(paras@));
        assert(out@ =~= start + copy_of(*card));
    }
}

/// A story's copy for printing.
pub fn copy_html(card: &Card) -> (r: String)
    ensures
        r@ == copy_of(*card),
{
    let mut r = String::new();
    push_copy(&mut r, card);
    proof {
        assert(r@ =~= copy_of(*card));
    }
    r
}


// ----------------------------------------------------------------- stories

/// Whether a story has any copy to print.
pub open spec fn has_copy(card: Card) -> bool {
    paragraphs_of(opt_view(card.story)).len() > 0
}

/// A story in its desk. A post is printed as a quote; other stories get
/// their picture (features always, briefs only when they are videos), a
/// kicker for videos, the headline, the standfirst (briefs with copy leave it
/// out), byline, copy and links.
pub open spec fn story_of(card: Card, qr: bool, date: Option<Seq<char>>) -> Seq<char> {
    if card.kind@ == "post"@ {
        "<article class=\"story post\"><div class=\"kicker\">On X</div><p class=\"quote\">"@
            + escaped(
            if card.dek@.len() == 0 {
                card.headline@
            } else {
                card.dek@
            },
        ) + "</p>"@ + byline_of(card, date) + copy_of(card) + links_of(card, qr) + "</article>"@
    } else {
        let is_video = card.kind@ == "video"@;
        let brief = card.size@ == "brief"@;
        let fig = if !brief || is_video {
            figure_of(card)
        } else {
            seq![]
        };
        let dek = if card.dek@.len() > 0 && (!has_copy(card) || !brief) {
            "<p class=\"dek\">"@ + escaped(card.dek@) + "</p>"@
        } else {
            seq![]
        };
        "<article class=\"story "@ + escaped(card.size@) + (if is_video {
            " vid"@
        } else {
            seq![]
        }) + "\">"@ + fig + (if is_video {
            "<div class=\"kicker\">Video</div>"@
        } else {
            seq![]
        }) + "<h3>"@ + escaped(card.headline@) + "</h3>"@ + dek + byline_of(card, date) + copy_of(
            card,
        ) + links_of(card, qr) + "</article>"@
    }
}

/// Appends `piece` to `out`, which holds `start` followed by `acc`.
fn put(out: &mut String, piece: &str, Ghost(start): Ghost<Seq<char>>, Ghost(acc): Ghost<Seq<char>>)
    requires
        old(out)@ == start + acc,
    ensures
        final(out)@ == start + (acc + piece@),
{
    out.append(piece);
    proof {
        vstd::seq_lib::lemma_concat_associative(start, acc, piece@);
    }
}

/// Regrouping: `start + acc` followed by `piece` is `start` followed by `acc + piece`.
proof fn lemma_regroup(start: Seq<char>, acc: Seq<char>, piece: Seq<char>)
    ensures
        (start + acc) + piece == start + (acc + piece),
{
    vstd::seq_lib::lemma_concat_associative(start, acc, piece);
}

/// Appends a story, given its day, to `out`.
pub fn push_story_dated(out: &mut String, card: &Card, opts: &RenderOptions, date: &Option<String>)
    ensures
        final(out)@ == old(out)@ + story_of(*card, opts.qr, opt_view(*date)),
{
    let ghost start = out@;
    let ghost d = opt_view(*date);
    let ghost c = *card;
    let ghost mut acc: Seq<char> = seq![];
    assert(out@ == start + acc);
    if str_eq(card.kind.as_str(), "post") {
        put(
            out,
            "<article class=\"story post\"><div class=\"kicker\">On X</div><p class=\"quote\">",
            Ghost(start),
            Ghost(acc),
        );
        proof {
            acc = acc + "<article class=\"story post\"><div class=\"kicker\">On X</div><p class=\"quote\">"@;
        }
        let quote = if card.dek.as_str().is_empty() {
            card.headline.as_str()
        } else {
            card.dek.as_str()
        };
        push_escaped(out, quote);
        proof {
            lemma_regroup(start, acc, escaped(quote@));
            acc = acc + escaped(quote@);
        }
        put(out, "</p>", Ghost(start), Ghost(acc));
        proof {
            acc = acc + "</p>"@;
        }
        push_byline_dated(out, card, date);
        proof {
            lemma_regroup(start, acc, byline_of(c, d));
            acc = acc + byline_of(c, d);
        }
        push_copy(out, card);
        proof {
            lemma_regroup(start, acc, copy_of(c));
            acc = acc + copy_of(c);
        }
        push_links(out, card, opts);
        proof {
            lemma_regroup(start, acc, links_of(c, opts.qr));
            acc = acc + links_of(c, opts.qr);
        }
        put(out, "</article>", Ghost(start), Ghost(acc));
        proof {
            acc = acc + "</article>"@;
            assert(acc == story_of(c, opts.qr, d));
        }
        return;
    }
    let is_video = str_eq(card.kind.as_str(), "video");
    let brief = str_eq(card.size.as_str(), "brief");
    let copy_present = paragraphs(story_text(card)).len() > 0;
    put(out, "<article class=\"story ", Ghost(start), Ghost(acc));
    proof {
        acc = acc + "<article class=\"story "@;
    }
    push_escaped(out, card.size.as_str());
    proof {
        lemma_regroup(start, acc, escaped(c.size@));
        acc = acc + escaped(c.size@);
    }
    let vid = if is_video {
        " vid"
    } else {
        ""
    };
    put(out, vid, Ghost(start), Ghost(acc));
    proof {
        reveal_strlit("");
        assert(vid@ == (if is_video {
            " vid"@
        } else {
            seq![]
        }));
        acc = acc + vid@;
    }
    put(out, "\">", Ghost(start), Ghost(acc));
    proof {
        acc = acc + "\">"@;
    }
    let fig = if !brief || is_video {
        figure(card)
    } else {
        String::new()
    };
    put(out, fig.as_str(), Ghost(start), Ghost(acc));
    proof {
        acc = acc + fig@;
    }
    let kicker = if is_video {
        "<div class=\"kicker\">Video</div>"
    } else {
        ""
    };
    put(out, kicker, Ghost(start), Ghost(acc));
    proof {
        assert(kicker@ == (if is_video {
            "<div class=\"kicker\">Video</div>"@
        } else {
            seq![]
        }));
        acc = acc + kicker@;
    }
    put(out, "<h3>", Ghost(start), Ghost(acc));
    proof {
        acc = acc + "<h3>"@;
    }
    push_escaped(out, card.headline.as_str());
    proof {
        lemma_regroup(start, acc, escaped(c.headline@));
        acc = acc + escaped(c.headline@);
    }
    put(out, "</h3>", Ghost(start), Ghost(acc));
    proof {
        acc = acc + "</h3>"@;
    }
    let ghost dek_part = if c.dek@.len() > 0 && (!has_copy(c) || !(c.size@ == "brief"@)) {
        "<p class=\"dek\">"@ + escaped(c.dek@) + "</p>"@
    } else {
        seq![]
    };
    if !card.dek.as_str().is_empty() && (!copy_present || !brief) {
        let mut dek = String::new();
        dek.append("<p class=\"dek\">");
        push_escaped(&mut dek, card.dek.as_str());
        dek.append("</p>");
        put(out, dek.as_str(), Ghost(start), Ghost(acc));
        proof {
            assert(dek@ =~= dek_part);
        }
    } else {
        put(out, "", Ghost(start), Ghost(acc));
        proof {
            assert(""@ =~= dek_part);
        }
    }
    proof {
        acc = acc + dek_part;
    }
    push_byline_dated(out, card, date);
    proof {
        lemma_regroup(start, acc, byline_of(c, d));
        acc = acc + byline_of(c, d);
    }
    push_copy(out, card);
    proof {
        lemma_regroup(start, acc, copy_of(c));
        acc = acc + copy_of(c);
    }
    push_links(out, card, opts);
    proof {
        lemma_regroup(start, acc, links_of(c, opts.qr));
        acc = acc + links_of(c, opts.qr);
    }
    put(out, "</article>", Ghost(start), Ghost(acc));
    proof {
        acc = acc + "</article>"@;
        assert(fig@ == (if !(c.size@ == "brief"@) || c.kind@ == "video"@ {
            figure_of(c)
        } else {
            seq![]
        }));
        assert(acc == story_of(c, opts.qr, d));
    }
}

/// A story in its desk, for printing.
pub fn story_html(card: &Card, opts: &RenderOptions) -> (r: String)
    ensures
        exists|date: Option<Seq<char>>|
            date_fits(*card, date) && r@ == #[trigger] story_of(*card, opts.qr, date),
{
    let date = card_date(card);
    let mut r = String::new();
    push_story_dated(&mut r, card, opts, &date);
    proof {
        assert(r@ =~= story_of(*card, opts.qr, opt_view(date)));
    }
    r
}

/// The lead story across the top of the front page: picture beside the
/// headline (or no picture at all), standfirst and byline, then the copy
/// and links.
pub open spec fn lead_of(card: Card, qr: bool, date: Option<Seq<char>>) -> Seq<char> {
    let fig = figure_of(card);
    let is_video = card.kind@ == "video"@;
    let dek = if card.dek@.len() == 0 {
        seq![]
    } else {
        "<p class=\"dek\">"@ + escaped(card.dek@) + "</p>"@
    };
    "<section class=\"lead"@ + (if fig.len() == 0 {
        " noimg"@
    } else {
        seq![]
    }) + (if is_video {
        " vid"@
    } else {
        seq![]
    }) + "\"><div class=\"top\">"@ + fig + "<div>"@ + (if is_video {
        "<div class=\"kicker\">Video</div>"@
    } else {
        seq![]
    }) + "<h1>"@ + escaped(card.headline@) + "</h1>"@ + dek + byline_of(card, date)
        + "</div></div>"@ + copy_of(card) + links_of(card, qr) + "</section>"@
}

/// Appends the lead story, given its day, to `out`.
pub fn push_lead_dated(out: &mut String, card: &Card, opts: &RenderOptions, date: &Option<String>)
    ensures
        final(out)@ == old(out)@ + lead_of(*card, opts.qr, opt_view(*date)),
{
    let ghost start = out@;
    let ghost d = opt_view(*date);
    let ghost c = *card;
    let ghost mut acc: Seq<char> = seq![];
    assert(out@ == start + acc);
    proof {
        reveal_strlit("");
    }
    let fig = figure(card);
    let is_video = str_eq(card.kind.as_str(), "video");
    put(out, "<section class=\"lead", Ghost(start), Ghost(acc));
    proof {
        acc = acc + "<section class=\"lead"@;
    }
    let noimg = if fig.as_str().is_empty() {
        " noimg"
    } else {
        ""
    };
    put(out, noimg, Ghost(start), Ghost(acc));
    proof {
        assert(noimg@ == (if figure_of(c).len() == 0 {
            " noimg"@
        } else {
            seq![]
        }));
        acc = acc + noimg@;
    }
    let vid = if is_video {
        " vid"
    } else {
        ""
    };
    put(out, vid, Ghost(start), Ghost(acc));
    proof {
        assert(vid@ == (if is_video {
            " vid"@
        } else {
            seq![]
        }));
        acc = acc + vid@;
    }
    put(out, "\"><div class=\"top\">", Ghost(start), Ghost(acc));
    proof {
        acc = acc + "\"><div class=\"top\">"@;
    }
    put(out, fig.as_str(), Ghost(start), Ghost(acc));
    proof {
        acc = acc + fig@;
    }
    put(out, "<div>", Ghost(start), Ghost(acc));
    proof {
        acc = acc + "<div>"@;
    }
    let kicker = if is_video {
        "<div class=\"kicker\">Video</div>"
    } else {
        ""
    };
    put(out, kicker, Ghost(start), Ghost(acc));
    proof {
        assert(kicker@ == (if is_video {
            "<div class=\"kicker\">Video</div>"@
        } else {
            seq![]
        }));
        acc = acc + kicker@;
    }
    put(out, "<h1>", Ghost(start), Ghost(acc));
    proof {
        acc = acc + "<h1>"@;
    }
    push_escaped(out, card.headline.as_str());
    proof {
        lemma_regroup(start, acc, escaped(c.headline@));
        acc = acc + escaped(c.headline@);
    }
    put(out, "</h1>", Ghost(start), Ghost(acc));
    proof {
        acc = acc + "</h1>"@;
    }
    let ghost dek_part = if c.dek@.len() == 0 {
        seq![]
    } else {
        "<p class=\"dek\">"@ + escaped(c.dek@) + "</p>"@
    };
    if !card.dek.as_str().is_empty() {
        let mut dek = String::new();
        dek.append("<p class=\"dek\">");
        push_escaped(&mut dek, card.dek.as_str());
        dek.append("</p>");
        put(out, dek.as_str(), Ghost(start), Ghost(acc));
        proof {
            assert(dek@ =~= dek_part);
        }
    } else {
        put(out, "", Ghost(start), Ghost(acc));
        proof {
            assert(""@ =~= dek_part);
        }
    }
    proof {
        acc = acc + dek_part;
    }
    push_byline_dated(out, card, date);
    proof {
        lemma_regroup(start, acc, byline_of(c, d));
        acc = acc + byline_of(c, d);
    }
    put(out, "</div></div>", Ghost(start), Ghost(acc));
    proof {
        acc = acc + "</div></div>"@;
    }
    push_copy(out, card);
    proof {
        lemma_regroup(start, acc, copy_of(c));
        acc = acc + copy_of(c);
    }
    push_links(out, card, opts);
    proof {
        lemma_regroup(start, acc, links_of(c, opts.qr));
        acc = acc + links_of(c, opts.qr);
    }
    put(out, "</section>", Ghost(start), Ghost(acc));
    proof {
        acc = acc + "</section>"@;
        assert(acc == lead_of(c, opts.qr, d));
    }
}

/// The lead story, for printing.
pub fn lead_html(card: &Card, opts: &RenderOptions) -> (r: String)
    ensures
        exists|date: Option<Seq<char>>|
            date_fits(*card, date) && r@ == #[trigger] lead_of(*card, opts.qr, date),
{
    let date = card_date(card);
    let mut r = String::new();
    push_lead_dated(&mut r, card, opts, &date);
    proof {
        assert(r@ =~= lead_of(*card, opts.qr, opt_view(date)));
    }
    r
}

// ------------------------------------------------------------------ laws

/// Reads entities back: `&amp;`, `&lt;`, `&gt;` and `&quot;` become the
/// characters they stand for; every other character stands for itself.
pub open spec fn unescaped(t: Seq<char>) -> Seq<char>
    decreases t.len(),
{
    if t.len() == 0 {
        seq![]
    } else if t.len() >= 5 && t.take(5) == html_char('&') {
        seq!['&'] + unescaped(t.skip(5))
    } else if t.len() >= 4 && t.take(4) == html_char('<') {
        seq!['<'] + unescaped(t.skip(4))
    } else if t.len() >= 4 && t.take(4) == html_char('>') {
        seq!['>'] + unescaped(t.skip(4))
    } else if t.len() >= 6 && t.take(6) == html_char('"') {
        seq!['"'] + unescaped(t.skip(6))
    } else {
        seq![t[0]] + unescaped(t.skip(1))
    }
}

/// Escaping a text is escaping its first character, then the rest.
proof fn lemma_escaped_first(c: char, s: Seq<char>)
    ensures
        escaped(seq![c] + s) == html_char(c) + escaped(s),
    decreases s.len(),
{
    if s.len() == 0 {
        assert(seq![c] + s =~= seq![c]);
        assert(seq![c].drop_last() =~= Seq::<char>::empty());
        assert(escaped(seq![c]) == escaped(Seq::<char>::empty()) + html_char(c));
        assert(html_char(c) + escaped(s) =~= html_char(c));
        assert(escaped(seq![c]) =~= html_char(c));
    } else {
        let u = seq![c] + s;
        lemma_escaped_first(c, s.drop_last());
        assert(u.drop_last() =~= seq![c] + s.drop_last());
        assert(u.last() == s.last());
        assert(escaped(u) == escaped(u.drop_last()) + html_char(u.last()));
        assert(escaped(s) == escaped(s.drop_last()) + html_char(s.last()));
        assert(escaped(u) =~= html_char(c) + escaped(s));
    }
}

/// Escaping loses nothing: reading the entities back gives the text again.
pub proof fn lemma_unescape_escaped(s: Seq<char>)
    ensures
        unescaped(escaped(s)) == s,
    decreases s.len(),
{
    if s.len() > 0 {
        let c = s[0];
        let rest = s.skip(1);
        assert(s =~= seq![c] + rest);
        lemma_escaped_first(c, rest);
        lemma_unescape_escaped(rest);
        let e = html_char(c);
        let t = e + escaped(rest);
        assert(escaped(s) == t);
        assert(t.skip(e.len() as int) =~= escaped(rest));
        assert(t.take(e.len() as int) =~= e);
        if c == '&' {
            assert(unescaped(t) == seq!['&'] + unescaped(t.skip(5)));
        } else if c == '<' {
            assert(t[1] == 'l');
            assert(t.len() >= 5 ==> t.take(5)[1] != html_char('&')[1]);
            assert(unescaped(t) == seq!['<'] + unescaped(t.skip(4)));
        } else if c == '>' {
            assert(t[1] == 'g');
            assert(t.len() >= 5 ==> t.take(5)[1] != html_char('&')[1]);
            assert(t.take(4)[1] != html_char('<')[1]);
            assert(unescaped(t) == seq!['>'] + unescaped(t.skip(4)));
        } else if c == '"' {
            assert(t[1] == 'q');
            assert(t.len() >= 5 ==> t.take(5)[1] != html_char('&')[1]);
            assert(t.take(4)[1] != html_char('<')[1]);
            assert(t.take(4)[1] != html_char('>')[1]);
            assert(unescaped(t) == seq!['"'] + unescaped(t.skip(6)));
        } else {
            assert(t[0] == c);
            assert(t.len() >= 5 ==> t.take(5)[0] != html_char('&')[0]);
            assert(t.len() >= 4 ==> t.take(4)[0] != html_char('<')[0]);
            assert(t.len() >= 4 ==> t.take(4)[0] != html_char('>')[0]);
            assert(t.len() >= 6 ==> t.take(6)[0] != html_char('"')[0]);
            assert(unescaped(t) == seq![c] + unescaped(t.skip(1)));
        }
        assert(unescaped(t) =~= s);
    }
}

/// Two different texts never escape alike.
pub proof fn lemma_escape_injective(a: Seq<char>, b: Seq<char>)
    ensures
        escaped(a) == escaped(b) ==> a == b,
{
    lemma_unescape_escaped(a);
    lemma_unescape_escaped(b);
}

/// The QR code a link block shows: the inline drawing in its frame.
pub open spec fn qr_frame(svg: Seq<char>) -> Seq<char> {
    "<div class=\"qr\">"@ + svg + "</div>"@
}

/// A text holds whatever stands between two other texts in it.
proof fn lemma_contains_middle(a: Seq<char>, x: Seq<char>, b: Seq<char>)
    ensures
        contains(a + x + b, x),
{
    lemma_contains_self(x);
    lemma_contains_concat(a, x, x);
    lemma_contains_concat(a + x, b, x);
}

/// With QR codes on, a story's links show the code for its own address
/// whenever one can be drawn.
proof fn lemma_links_show_code(card: Card, svg: Seq<char>)
    requires
        qr_markup(card.url@) == Some(svg),
    ensures
        contains(links_of(card, true), qr_frame(svg)),
{
    reveal(links_of);
    reveal(more_block_of);
    let url = card.url@;
    let label = primary_label(card.kind@);
    let site = site_name_of(url);
    let on = if site.len() == 0 {
        seq![]
    } else {
        " on "@ + escaped(site)
    };
    let tail = "<div class=\"txt\"><b>"@ + escaped(label) + on + "</b></div></div>"@;
    let main = more_block_of(label, url, true);
    assert(main == "<div class=\"more\">"@ + qr_frame(svg) + "<div class=\"txt\"><b>"@ + escaped(label)
        + on + "</b></div></div>"@);
    assert(main =~= "<div class=\"more\">"@ + qr_frame(svg) + tail);
    lemma_contains_middle("<div class=\"more\">"@, qr_frame(svg), tail);
    let extra = links_of(card, true).subrange(main.len() as int, links_of(card, true).len() as int);
    assert(links_of(card, true) =~= main + extra);
    lemma_contains_concat(main, extra, qr_frame(svg));
}

/// A story in its desk, and the lead, carry the story's links.
proof fn lemma_pieces_carry_links(card: Card, qr: bool, date: Option<Seq<char>>)
    ensures
        contains(story_of(card, qr, date), links_of(card, qr)),
        contains(lead_of(card, qr, date), links_of(card, qr)),
{
    let links = links_of(card, qr);
    if card.kind@ == "post"@ {
        let p = "<article class=\"story post\"><div class=\"kicker\">On X</div><p class=\"quote\">"@
            + escaped(
            if card.dek@.len() == 0 {
                card.headline@
            } else {
                card.dek@
            },
        ) + "</p>"@ + byline_of(card, date) + copy_of(card);
        assert(story_of(card, qr, date) == p + links + "</article>"@);
        lemma_contains_middle(p, links, "</article>"@);
    } else {
        let is_video = card.kind@ == "video"@;
        let brief = card.size@ == "brief"@;
        let fig = if !brief || is_video {
            figure_of(card)
        } else {
            seq![]
        };
        let dek = if card.dek@.len() > 0 && (!has_copy(card) || !brief) {
            "<p class=\"dek\">"@ + escaped(card.dek@) + "</p>"@
        } else {
            seq![]
        };
        let p = "<article class=\"story "@ + escaped(card.size@) + (if is_video {
            " vid"@
        } else {
            seq![]
        }) + "\">"@ + fig + (if is_video {
            "<div class=\"kicker\">Video</div>"@
        } else {
            seq![]
        }) + "<h3>"@ + escaped(card.headline@) + "</h3>"@ + dek + byline_of(card, date) + copy_of(
            card,
        );
        assert(story_of(card, qr, date) == p + links + "</article>"@);
        lemma_contains_middle(p, links, "</article>"@);
    }
    let fig = figure_of(card);
    let is_video = card.kind@ == "video"@;
    let dek = if card.dek@.len() == 0 {
        seq![]
    } else {
        "<p class=\"dek\">"@ + escaped(card.dek@) + "</p>"@
    };
    let q = "<section class=\"lead"@ + (if fig.len() == 0 {
        " noimg"@
    } else {
        seq![]
    }) + (if is_video {
        " vid"@
    } else {
        seq![]
    }) + "\"><div class=\"top\">"@ + fig + "<div>"@ + (if is_video {
        "<div class=\"kicker\">Video</div>"@
    } else {
        seq![]
    }) + "<h1>"@ + escaped(card.headline@) + "</h1>"@ + dek + byline_of(card, date)
        + "</div></div>"@ + copy_of(card);
    assert(lead_of(card, qr, date) == q + links + "</section>"@);
    lemma_contains_middle(q, links, "</section>"@);
}

/// You can't click paper: every story, in its desk or as the lead, carries
/// its links ("Read more", "See the video", ...), and with QR codes on, the
/// code for its own address wherever one can be drawn.
pub proof fn lemma_stories_carry_links(card: Card, qr: bool, date: Option<Seq<char>>)
    ensures
        contains(story_of(card, qr, date), links_of(card, qr)),
        contains(lead_of(card, qr, date), links_of(card, qr)),
        qr && qr_markup(card.url@) is Some ==> contains(
            story_of(card, qr, date),
            qr_frame(qr_markup(card.url@)->0),
        ) && contains(lead_of(card, qr, date), qr_frame(qr_markup(card.url@)->0)),
{
    lemma_pieces_carry_links(card, qr, date);
    if qr && qr_markup(card.url@) is Some {
        let svg = qr_markup(card.url@)->0;
        lemma_links_show_code(card, svg);
        lemma_contains_trans(story_of(card, qr, date), links_of(card, qr), qr_frame(svg));
        lemma_contains_trans(lead_of(card, qr, date), links_of(card, qr), qr_frame(svg));
    }
}

/// A picture's tag as a story prints it: `<img src="...">`, the address escaped.
pub open spec fn image_tag(src: Seq<char>) -> Seq<char> {
    "<img src=\""@ + escaped(src) + "\""@
}

/// A paragraph as a story's copy prints it.
pub open spec fn paragraph_tag(p: Seq<char>) -> Seq<char> {
    "<p>"@ + escaped(p) + "</p>"@
}

/// Whether a story's picture is printed: it has one and its address is a
/// web address.
pub open spec fn has_web_image(card: Card) -> bool {
    card.image matches Some(src) && starts_with(src@, "http"@)
}

/// Each paragraph is among the printed paragraphs.
proof fn lemma_paragraphs_html_hold(ps: Seq<Seq<char>>, i: int)
    requires
        0 <= i < ps.len(),
    ensures
        contains(paragraphs_html(ps), paragraph_tag(ps[i])),
    decreases ps.len(),
{
    let prev = paragraphs_html(ps.drop_last());
    let last = paragraph_tag(ps.last());
    assert(paragraphs_html(ps) =~= prev + last);
    if i == ps.len() - 1 {
        lemma_contains_self(last);
        lemma_contains_concat(prev, last, last);
    } else {
        lemma_paragraphs_html_hold(ps.drop_last(), i);
        assert(ps.drop_last()[i] == ps[i]);
        lemma_contains_concat(prev, last, paragraph_tag(ps[i]));
    }
}

/// A story's copy block holds each of its paragraphs.
proof fn lemma_copy_holds_paragraphs(card: Card, i: int)
    requires
        0 <= i < paragraphs_of(opt_view(card.story)).len(),
    ensures
        contains(copy_of(card), paragraph_tag(paragraphs_of(opt_view(card.story))[i])),
{
    reveal(copy_of);
    let ps = paragraphs_of(opt_view(card.story));
    lemma_paragraphs_html_hold(ps, i);
    lemma_contains_concat("<div class=\"copy\">"@, paragraphs_html(ps), paragraph_tag(ps[i]));
    lemma_contains_concat(
        "<div class=\"copy\">"@ + paragraphs_html(ps),
        "</div>"@,
        paragraph_tag(ps[i]),
    );
}

/// A printed picture shows the story's image.
proof fn lemma_figure_shows_image(card: Card)
    requires
        has_web_image(card),
    ensures
        contains(figure_of(card), image_tag(card.image->0@)),
{
    reveal(figure_of);
    reveal_strlit("<figure><img src=\"");
    reveal_strlit("<img src=\"");
    reveal_strlit("\"");
    reveal_strlit(
        "\" alt=\"\" referrerpolicy=\"no-referrer\" onerror=\"this.parentNode.style.display='none'\"></figure>",
    );
    let src = card.image->0@;
    let open = "<figure><img src=\""@;
    let close = "\" alt=\"\" referrerpolicy=\"no-referrer\" onerror=\"this.parentNode.style.display='none'\"></figure>"@;
    let f = figure_of(card);
    assert(f == open + escaped(src) + close);
    let x = image_tag(src);
    assert(x.len() == 10 + escaped(src).len() + 1);
    assert forall|i: int| 0 <= i < x.len() implies f[8 + i] == x[i] by {
        if i < 10 {
            assert(f[8 + i] == open[8 + i]);
        } else if i < 10 + escaped(src).len() {
            assert(f[8 + i] == escaped(src)[i - 10]);
        } else {
            assert(f[8 + i] == close[0]);
        }
    }
    assert(f.subrange(8, (8 + x.len()) as int) =~= x);
    assert(occurs_at(f, x, 8));
}

/// The headline block of a story in its desk.
pub open spec fn story_headline(card: Card) -> Seq<char> {
    "<h3>"@ + escaped(card.headline@) + "</h3>"@
}

/// The headline block of the lead.
pub open spec fn lead_headline(card: Card) -> Seq<char> {
    "<h1>"@ + escaped(card.headline@) + "</h1>"@
}

/// Three pieces in a row, grouped as one.
proof fn lemma_contains_three(q: Seq<char>, x: Seq<char>, y: Seq<char>, z: Seq<char>)
    ensures
        contains(q + x + y + z, x + y + z),
{
    assert(q + x + y + z =~= q + (x + y + z));
    lemma_contains_end(q, x + y + z);
}

/// Two pieces in a row, grouped as one.
proof fn lemma_contains_two(q: Seq<char>, x: Seq<char>, y: Seq<char>)
    ensures
        contains(q + x + y, x + y),
{
    assert(q + x + y =~= q + (x + y));
    lemma_contains_end(q, x + y);
}

/// A story in its desk carries what it is made of: the headline (but for a
/// post, which is printed as a quote), the picture when it has a web image
/// and is not a brief, or is a video, every paragraph of its copy, its
/// byline, and its copy followed by its links.
pub proof fn lemma_story_parts(card: Card, qr: bool, date: Option<Seq<char>>)
    ensures
        card.kind@ != "post"@ ==> contains(story_of(card, qr, date), story_headline(card)),
        card.kind@ != "post"@ && (card.size@ != "brief"@ || card.kind@ == "video"@) && has_web_image(
            card,
        ) ==> contains(story_of(card, qr, date), image_tag(card.image->0@)),
        forall|i: int|
            0 <= i < paragraphs_of(opt_view(card.story)).len() ==> contains(
                story_of(card, qr, date),
                #[trigger] paragraph_tag(paragraphs_of(opt_view(card.story))[i]),
            ),
        contains(story_of(card, qr, date), byline_of(card, date)),
        contains(story_of(card, qr, date), copy_of(card) + links_of(card, qr)),
{
    broadcast use lemma_contains_grows;

    let st = story_of(card, qr, date);
    let by = byline_of(card, date);
    let co = copy_of(card);
    let li = links_of(card, qr);
    if card.kind@ == "post"@ {
        let p = "<article class=\"story post\"><div class=\"kicker\">On X</div><p class=\"quote\">"@
            + escaped(
            if card.dek@.len() == 0 {
                card.headline@
            } else {
                card.dek@
            },
        ) + "</p>"@;
        assert(st == p + by + co + li + "</article>"@);
        lemma_contains_end(p, by);
        lemma_contains_two(p + by, co, li);
        assert(contains(st, by));
        assert(contains(st, co + li));
        lemma_contains_end(p + by, co);
        assert(contains(st, co));
    } else {
        let is_video = card.kind@ == "video"@;
        let brief = card.size@ == "brief"@;
        let fig = if !brief || is_video {
            figure_of(card)
        } else {
            seq![]
        };
        let dek = if card.dek@.len() > 0 && (!has_copy(card) || !brief) {
            "<p class=\"dek\">"@ + escaped(card.dek@) + "</p>"@
        } else {
            seq![]
        };
        let a = "<article class=\"story "@ + escaped(card.size@) + (if is_video {
            " vid"@
        } else {
            seq![]
        }) + "\">"@;
        let k = if is_video {
            "<div class=\"kicker\">Video</div>"@
        } else {
            seq![]
        };
        let q = a + fig + k;
        let h = q + "<h3>"@ + escaped(card.headline@) + "</h3>"@;
        let b = h + dek + by;
        assert(st == b + co + li + "</article>"@);
        lemma_contains_three(q, "<h3>"@, escaped(card.headline@), "</h3>"@);
        assert(contains(st, story_headline(card)));
        lemma_contains_end(h + dek, by);
        assert(contains(st, by));
        lemma_contains_two(b, co, li);
        assert(contains(st, co + li));
        lemma_contains_end(b, co);
        assert(contains(st, co));
        if (!brief || is_video) && has_web_image(card) {
            lemma_figure_shows_image(card);
            lemma_contains_end(a, fig);
            lemma_contains_trans(a + fig, fig, image_tag(card.image->0@));
            assert(contains(st, image_tag(card.image->0@)));
        }
    }
    assert forall|i: int| 0 <= i < paragraphs_of(opt_view(card.story)).len() implies contains(
        st,
        #[trigger] paragraph_tag(paragraphs_of(opt_view(card.story))[i]),
    ) by {
        lemma_copy_holds_paragraphs(card, i);
        lemma_contains_trans(st, co, paragraph_tag(paragraphs_of(opt_view(card.story))[i]));
    }
}

/// The lead carries what it is made of: its headline, its picture whenever
/// it has a web image, its byline, every paragraph of its copy, and its copy
/// followed by its links.
pub proof fn lemma_lead_parts(card: Card, qr: bool, date: Option<Seq<char>>)
    ensures
        contains(lead_of(card, qr, date), lead_headline(card)),
        has_web_image(card) ==> contains(lead_of(card, qr, date), image_tag(card.image->0@)),
        forall|i: int|
            0 <= i < paragraphs_of(opt_view(card.story)).len() ==> contains(
                lead_of(card, qr, date),
                #[trigger] paragraph_tag(paragraphs_of(opt_view(card.story))[i]),
            ),
        contains(lead_of(card, qr, date), byline_of(card, date)),
        contains(lead_of(card, qr, date), copy_of(card) + links_of(card, qr)),
{
    broadcast use lemma_contains_grows;

    let ld = lead_of(card, qr, date);
    let fig = figure_of(card);
    let is_video = card.kind@ == "video"@;
    let dek = if card.dek@.len() == 0 {
        seq![]
    } else {
        "<p class=\"dek\">"@ + escaped(card.dek@) + "</p>"@
    };
    let by = byline_of(card, date);
    let co = copy_of(card);
    let li = links_of(card, qr);
    let a = "<section class=\"lead"@ + (if fig.len() == 0 {
        " noimg"@
    } else {
        seq![]
    }) + (if is_video {
        " vid"@
    } else {
        seq![]
    }) + "\"><div class=\"top\">"@;
    let q = a + fig + "<div>"@ + (if is_video {
        "<div class=\"kicker\">Video</div>"@
    } else {
        seq![]
    });
    let h = q + "<h1>"@ + escaped(card.headline@) + "</h1>"@;
    let b = h + dek + by + "</div></div>"@;
    assert(ld == b + co + li + "</section>"@);
    lemma_contains_three(q, "<h1>"@, escaped(card.headline@), "</h1>"@);
    assert(contains(ld, lead_headline(card)));
    lemma_contains_end(h + dek, by);
    assert(contains(ld, by));
    lemma_contains_two(b, co, li);
    assert(contains(ld, co + li));
    lemma_contains_end(b, co);
    assert(contains(ld, co));
    if has_web_image(card) {
        lemma_figure_shows_image(card);
        lemma_contains_end(a, fig);
        lemma_contains_trans(a + fig, fig, image_tag(card.image->0@));
        assert(contains(ld, image_tag(card.image->0@)));
    }
    assert forall|i: int| 0 <= i < paragraphs_of(opt_view(card.story)).len() implies contains(
        ld,
        #[trigger] paragraph_tag(paragraphs_of(opt_view(card.story))[i]),
    ) by {
        lemma_copy_holds_paragraphs(card, i);
        lemma_contains_trans(ld, co, paragraph_tag(paragraphs_of(opt_view(card.story))[i]));
    }
}

} // verus!
