//! The edition, its stories, the reader's settings and the ball-game
//! scoreboard, as the printing code reads them.

use vstd::prelude::*;

verus! {

/// One story of the edition.
#[derive(Clone, Debug)]
pub struct Card {
    pub id: String,
    /// "article", "video" or "post".
    pub kind: String,
    /// "lead", "feature" or "brief".
    pub size: String,
    /// The desk the story runs under.
    pub section: String,
    pub headline: String,
    /// Standfirst; empty when there is none.
    pub dek: String,
    /// Body copy, paragraphs separated by a blank line.
    pub story: Option<String>,
    pub source: String,
    pub author: Option<String>,
    pub url: String,
    pub video_url: Option<String>,
    pub article_url: Option<String>,
    pub image: Option<String>,
    /// When the story was published (RFC 3339).
    pub published: Option<String>,
    pub why: Option<String>,
}

/// Figures about how an edition was gathered.
#[derive(Clone, Debug)]
pub struct EditionStats {
    pub searches: u32,
}

impl EditionStats {
    /// No searches made.
    pub fn new() -> (s: EditionStats)
        ensures
            s.searches == 0,
    {
        EditionStats { searches: 0 }
    }
}

impl Default for EditionStats {
    fn default() -> (s: EditionStats)
        ensures
            s.searches == 0,
    {
        EditionStats::new()
    }
}

/// One day's paper.
#[derive(Clone, Debug)]
pub struct Edition {
    /// "YYYY-MM-DD".
    pub date: String,
    /// When it was put together (RFC 3339).
    pub generated_at: String,
    pub edition_no: u32,
    pub tagline: Option<String>,
    /// The desks, in the editor's order.
    pub sections: Vec<String>,
    pub cards: Vec<Card>,
    pub notes: Vec<String>,
    pub stats: EditionStats,
}

/// The reader's settings that printing consults.
#[derive(Clone, Debug)]
pub struct Settings {
    /// Print automatically after the scheduled morning refresh.
    pub print_daily: bool,
    pub print_color: bool,
    pub print_qr: bool,
    pub print_duplex: bool,
    /// Print at most this many pages; 0 means no limit.
    pub print_max_pages: u32,
    /// The printer to use; empty means the system's choice.
    pub printer: String,
    /// A browser to make the PDF with; empty means look for one.
    pub chrome_bin: String,
    /// Dateline city; empty means none.
    pub city: String,
    /// The reader's ball club; 0 means none.
    pub mlb_team_id: u32,
    /// The reader's first name, for the nameplate.
    pub owner_name: String,
}

impl Settings {
    /// The settings a new reader starts with.
    pub fn new() -> (s: Settings)
        ensures
            !s.print_daily,
            s.print_color,
            s.print_qr,
            s.print_duplex,
            s.print_max_pages == 8,
            s.printer@ == Seq::<char>::empty(),
            s.chrome_bin@ == Seq::<char>::empty(),
            s.city@ == Seq::<char>::empty(),
            s.mlb_team_id == 0,
            s.owner_name@ == Seq::<char>::empty(),
    {
        Settings {
            print_daily: false,
            print_color: true,
            print_qr: true,
            print_duplex: true,
            print_max_pages: 8,
            printer: String::new(),
            chrome_bin: String::new(),
            city: String::new(),
            mlb_team_id: 0,
            owner_name: String::new(),
        }
    }
}

impl Default for Settings {
    fn default() -> (s: Settings)
        ensures
            !s.print_daily,
            s.print_color,
            s.print_qr,
            s.print_duplex,
            s.print_max_pages == 8,
            s.printer@ == Seq::<char>::empty(),
            s.chrome_bin@ == Seq::<char>::empty(),
            s.city@ == Seq::<char>::empty(),
            s.mlb_team_id == 0,
            s.owner_name@ == Seq::<char>::empty(),
    {
        Settings::new()
    }
}

/// One club's line in a game.
#[derive(Clone, Debug)]
pub struct TeamLine {
    pub abbr: String,
    pub name: String,
    /// Runs, once the game has started.
    pub score: Option<u32>,
}

/// One game of the reader's club.
#[derive(Clone, Debug)]
pub struct GameLine {
    pub game_pk: u64,
    pub state: String,
    /// "Final", "Final/10", "Scheduled", ...
    pub detail: String,
    /// First pitch (RFC 3339).
    pub start: String,
    pub away: TeamLine,
    pub home: TeamLine,
    pub we_are_home: bool,
    pub url: String,
    /// Where to watch.
    pub tv: Vec<String>,
    pub situation: Option<String>,
}

/// The last game and the next one.
#[derive(Clone, Debug)]
pub struct ScoreBug {
    pub game: Option<GameLine>,
    pub next: Option<GameLine>,
}

} // verus!
