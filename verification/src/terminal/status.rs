//! The status bar in row 0: tabs on the left, the date on the right, system
//! information in between as far as there is room.

use vstd::prelude::*;
use vstd::string::*;

use chrono::DateTime;

use crate::text::{decimal, lemma_decimal_digits, push_decimal};

verus! {

/// A piece of text in the status bar.
pub struct Label {
    pub col: u32,
    pub text: String,
    /// Shown in inverse colours.
    pub highlighted: bool,
}

/// A piece of text in the status bar, as a mathematical value.
#[verifier::ext_equal]
pub struct Piece {
    pub col: int,
    pub text: Seq<char>,
    pub highlighted: bool,
}

impl View for Label {
    type V = Piece;

    open spec fn view(&self) -> Piece {
        Piece { col: self.col as int, text: self.text@, highlighted: self.highlighted }
    }
}

/// Labels as mathematical values.
pub open spec fn pieces(labels: Seq<Label>) -> Seq<Piece> {
    Seq::new(labels.len(), |i: int| labels[i]@)
}

/// The label of the tab with this index: its position, counted from 1, between
/// blanks. The id of the session is never shown.
pub open spec fn tab_text(index: nat) -> Seq<char> {
    seq![' '] + decimal(index + 1) + seq![' ']
}

/// The columns that the first `n` tabs take.
pub open spec fn tab_columns(n: nat) -> nat
    decreases n,
{
    if n == 0 {
        0
    } else {
        tab_columns((n - 1) as nat) + tab_text((n - 1) as nat).len()
    }
}

/// How many of `count` tabs fit into `total` columns; only whole tabs are shown.
pub open spec fn tabs_shown(count: nat, total: nat) -> nat
    decreases count,
{
    if count == 0 {
        0
    } else if tab_columns(count) <= total {
        count
    } else {
        tabs_shown((count - 1) as nat, total)
    }
}

/// The tabs that fit, side by side from column 0, the active one highlighted.
pub open spec fn tab_pieces(ids: Seq<u8>, active: u8, total: nat) -> Seq<Piece> {
    Seq::new(
        tabs_shown(ids.len(), total),
        |i: int|
            Piece {
                col: tab_columns(i as nat) as int,
                text: tab_text(i as nat),
                highlighted: ids[i] == active,
            },
    )
}

/// Where the date begins: at the right end if it fits behind the tabs with a
/// blank in between, else nowhere.
pub open spec fn date_column(length: nat, total: nat, used: nat) -> Option<int> {
    if length < total && total - length > used {
        Some(total - length)
    } else {
        None
    }
}

/// A number in at least two digits.
pub open spec fn two_digits(n: nat) -> Seq<char> {
    if n < 10 {
        seq!['0'] + decimal(n)
    } else {
        decimal(n)
    }
}

/// Hours, minutes and seconds.
pub open spec fn uptime_text(seconds: nat) -> Seq<char> {
    two_digits(seconds / 3600).push(':') + two_digits(seconds / 60 % 60).push(':') + two_digits(
        seconds % 60,
    )
}

/// What the status bar tells about the system.
pub struct SystemStatus {
    pub version: String,
    pub profile: String,
    pub uptime_seconds: u64,
    pub processes: usize,
    pub threads: usize,
}

/// The full text.
pub open spec fn full_info(s: SystemStatus) -> Seq<char> {
    "D³OS v"@ + s.version@ + " ("@ + s.profile@ + ") | Uptime: "@ + uptime_text(
        s.uptime_seconds as nat,
    ) + " | Processes: "@ + decimal(s.processes as nat) + " | Threads: "@ + decimal(
        s.threads as nat,
    )
}

/// A shorter text.
pub open spec fn medium_info(s: SystemStatus) -> Seq<char> {
    "Up "@ + uptime_text(s.uptime_seconds as nat) + " | P:"@ + decimal(s.processes as nat) + " T:"@
        + decimal(s.threads as nat)
}

/// The shortest text.
pub open spec fn short_info(s: SystemStatus) -> Seq<char> {
    "Up "@ + uptime_text(s.uptime_seconds as nat)
}

/// The most detailed text that fits.
pub open spec fn fitting_info(s: SystemStatus, room: int) -> Option<Seq<char>> {
    if full_info(s).len() <= room {
        Some(full_info(s))
    } else if medium_info(s).len() <= room {
        Some(medium_info(s))
    } else if short_info(s).len() <= room {
        Some(short_info(s))
    } else {
        None
    }
}

/// The system information: it begins one column behind the tabs and ends one
/// column in front of the date, or of the right end where no date is shown.
pub open spec fn info_piece(s: SystemStatus, used: int, date_start: int) -> Option<Piece> {
    let start = used + 1;
    let end = if date_start > 0 {
        date_start - 1
    } else {
        0
    };
    if end > start {
        match fitting_info(s, end - start) {
            Some(text) => Some(Piece { col: start, text, highlighted: false }),
            None => None,
        }
    } else {
        None
    }
}

proof fn lemma_tab_columns_grow(a: nat, b: nat)
    requires
        a <= b,
    ensures
        tab_columns(a) + 3 * (b - a) <= tab_columns(b),
    decreases b - a,
{
    if a < b {
        lemma_tab_columns_grow(a, (b - 1) as nat);
        lemma_decimal_digits(b);
        assert(tab_text((b - 1) as nat).len() == decimal(b).len() + 2);
    }
}

/// The shown tabs are those before the first that does not fit.
proof fn lemma_tabs_shown(count: nat, total: nat, n: nat)
    requires
        n <= count,
        tab_columns(n) <= total,
        n < count ==> tab_columns(n + 1) > total,
    ensures
        tabs_shown(count, total) == n,
    decreases count,
{
    if n < count {
        lemma_tab_columns_grow(n + 1, count);
        lemma_tabs_shown((count - 1) as nat, total, n);
    }
}

/// Lay out the tabs. Returns them and the columns they take.
pub fn status_tabs(ids: &Vec<u8>, active: u8, total_cols: u32) -> (r: (Vec<Label>, u32))
    ensures
        pieces(r.0@) == tab_pieces(ids@, active, total_cols as nat),
        r.1 == tab_columns(tabs_shown(ids@.len(), total_cols as nat)),
        r.1 <= total_cols,
{
    let mut labels: Vec<Label> = Vec::new();
    let mut used: u32 = 0;
    let mut i: usize = 0;
    while i < ids.len()
        invariant
            i <= ids@.len(),
            labels@.len() == i,
            used == tab_columns(i as nat),
            used <= total_cols,
            forall|k: int|
                0 <= k < i ==> (#[trigger] labels@[k])@ == (Piece {
                    col: tab_columns(k as nat) as int,
                    text: tab_text(k as nat),
                    highlighted: ids@[k] == active,
                }),
        decreases ids@.len() - i,
    {
        let mut text = String::new();
        text.push(' ');
        push_decimal(&mut text, i as u64 + 1);
        text.push(' ');
        proof {
            assert(text@ =~= tab_text(i as nat));
        }
        let width: usize = text.as_str().unicode_len();
        if width > (total_cols - used) as usize {
            proof {
                lemma_tabs_shown(ids@.len(), total_cols as nat, i as nat);
                assert(pieces(labels@) =~= tab_pieces(ids@, active, total_cols as nat));
            }
            return (labels, used);
        }
        labels.push(Label { col: used, text, highlighted: ids[i] == active });
        used = used + width as u32;
        i = i + 1;
    }
    proof {
        lemma_tabs_shown(ids@.len(), total_cols as nat, i as nat);
        assert(pieces(labels@) =~= tab_pieces(ids@, active, total_cols as nat));
    }
    (labels, used)
}

/// How the date is written: as `2024-01-31 23:59:59`.
pub const DATE_FORMAT: &'static str = "%Y-%m-%d %H:%M:%S";

/// The date and time at these seconds since 1970, written in a format, if they can
/// be told.
pub uninterp spec fn date_text(seconds: i64, format: Seq<char>) -> Option<Seq<char>>;

/// `chrono::DateTime::from_timestamp`, then `DateTime::format`.
///
/// Claimed: the text depends on the seconds and on the format alone, and there is
/// none where the seconds are out of the range of a date.
#[verifier::external_body]
fn format_date(seconds: i64, format: &str) -> (r: Option<String>)
    requires
        format@ == DATE_FORMAT@,
    ensures
        match date_text(seconds, format@) {
            Some(text) => r matches Some(s) && s@ == text,
            None => r is None,
        },
{
    match DateTime::from_timestamp(seconds, 0) {
        Some(date) => Some(date.format(format).to_string()),
        None => None,
    }
}

/// Place the date that is due at these seconds since 1970.
pub fn status_date(seconds: i64, total_cols: u32, used_cols: u32) -> (r: Option<Label>)
    ensures
        match date_text(seconds, DATE_FORMAT@) {
            Some(text) => match date_column(text.len(), total_cols as nat, used_cols as nat) {
                Some(col) => r matches Some(label) && label@ == (Piece {
                    col,
                    text,
                    highlighted: false,
                }),
                None => r is None,
            },
            None => r is None,
        },
{
    match format_date(seconds, DATE_FORMAT) {
        Some(text) => place_date(text, total_cols, used_cols),
        None => None,
    }
}

/// Place a date: right aligned, and only if it fits behind the tabs with at least
/// one blank in between.
pub fn place_date(text: String, total_cols: u32, used_cols: u32) -> (r: Option<Label>)
    ensures
        match date_column(text@.len(), total_cols as nat, used_cols as nat) {
            Some(col) => r matches Some(label) && label@ == (Piece {
                col,
                text: text@,
                highlighted: false,
            }),
            None => r is None,
        },
{
    let length: usize = text.as_str().unicode_len();
    if length < total_cols as usize {
        let start: u32 = total_cols - length as u32;
        if start > used_cols {
            return Some(Label { col: start, text, highlighted: false });
        }
    }
    None
}

fn push_two_digits(s: &mut String, n: u64)
    ensures
        final(s)@ == old(s)@ + two_digits(n as nat),
{
    if n < 10 {
        s.push('0');
    }
    push_decimal(s, n);
    proof {
        assert(s@ =~= old(s)@ + two_digits(n as nat));
    }
}

/// Hours, minutes and seconds.
pub fn format_uptime(seconds: u64) -> (r: String)
    ensures
        r@ == uptime_text(seconds as nat),
{
    let mut s = String::new();
    push_two_digits(&mut s, seconds / 3600);
    s.push(':');
    push_two_digits(&mut s, seconds / 60 % 60);
    s.push(':');
    push_two_digits(&mut s, seconds % 60);
    proof {
        assert(s@ =~= uptime_text(seconds as nat));
    }
    s
}

fn format_full(status: &SystemStatus, uptime: &String) -> (r: String)
    requires
        uptime@ == uptime_text(status.uptime_seconds as nat),
    ensures
        r@ == full_info(*status),
{
    let mut s = "D³OS v".to_owned();
    s.push_str(status.version.as_str());
    s.push_str(" (");
    s.push_str(status.profile.as_str());
    s.push_str(") | Uptime: ");
    s.push_str(uptime.as_str());
    s.push_str(" | Processes: ");
    push_decimal(&mut s, status.processes as u64);
    s.push_str(" | Threads: ");
    push_decimal(&mut s, status.threads as u64);
    s
}

fn format_medium(status: &SystemStatus, uptime: &String) -> (r: String)
    requires
        uptime@ == uptime_text(status.uptime_seconds as nat),
    ensures
        r@ == medium_info(*status),
{
    let mut s = "Up ".to_owned();
    s.push_str(uptime.as_str());
    s.push_str(" | P:");
    push_decimal(&mut s, status.processes as u64);
    s.push_str(" T:");
    push_decimal(&mut s, status.threads as u64);
    s
}

/// Place the system information between the tabs, which take `used_cols` columns,
/// and the date, which begins at `date_start`. Where no date is shown that is the
/// number of columns.
pub fn status_info(status: &SystemStatus, used_cols: u32, date_start: u32) -> (r: Option<Label>)
    requires
        used_cols < u32::MAX,
    ensures
        match info_piece(*status, used_cols as int, date_start as int) {
            Some(piece) => r matches Some(label) && label@ == piece,
            None => r is None,
        },
{
    let start: u32 = used_cols + 1;
    let end: u32 = if date_start > 0 { date_start - 1 } else { 0 };
    if end <= start {
        return None;
    }
    let room: usize = (end - start) as usize;
    let uptime = format_uptime(status.uptime_seconds);
    let full = format_full(status, &uptime);
    if full.as_str().unicode_len() <= room {
        return Some(Label { col: start, text: full, highlighted: false });
    }
    let medium = format_medium(status, &uptime);
    if medium.as_str().unicode_len() <= room {
        return Some(Label { col: start, text: medium, highlighted: false });
    }
    let mut short = "Up ".to_owned();
    short.push_str(uptime.as_str());
    if short.as_str().unicode_len() <= room {
        return Some(Label { col: start, text: short, highlighted: false });
    }
    None
}

/// What the status bar shows never overlaps: the tabs end before the date begins,
/// and the system information has a blank on either side.
pub proof fn law_status_bar_does_not_overlap(
    s: SystemStatus,
    count: nat,
    total: nat,
    date_length: nat,
)
    ensures
        ({
            let used = tab_columns(tabs_shown(count, total)) as int;
            let date = date_column(date_length, total, used as nat);
            let date_start = match date {
                Some(col) => col,
                None => total as int,
            };
            &&& used <= total
            &&& date matches Some(col) ==> used < col && col + date_length == total
            &&& info_piece(s, used, date_start) matches Some(piece) ==> {
                &&& used < piece.col
                &&& piece.col + piece.text.len() < date_start
            }
        }),
    decreases count,
{
    if count > 0 && tab_columns(count) > total {
        law_status_bar_does_not_overlap(s, (count - 1) as nat, total, date_length);
    }
}

/// The tabs stand side by side from the left end: each begins where the one before it
/// ends, shows its position between blanks, and is highlighted if it is the active one.
pub proof fn law_tabs_side_by_side(ids: Seq<u8>, active: u8, total: nat, i: int)
    requires
        0 <= i < tab_pieces(ids, active, total).len(),
    ensures
        ({
            let tabs = tab_pieces(ids, active, total);
            &&& tabs[0].col == 0
            &&& i > 0 ==> tabs[i].col == tabs[i - 1].col + tabs[i - 1].text.len()
            &&& tabs[i].text == seq![' '] + decimal((i + 1) as nat) + seq![' ']
            &&& tabs[i].highlighted <==> ids[i] == active
            &&& tabs[i].col + tabs[i].text.len() <= total
        }),
{
    let n = tabs_shown(ids.len(), total);
    lemma_shown_tabs_fit(ids.len(), total);
    lemma_tab_columns_grow((i + 1) as nat, n);
}

proof fn lemma_shown_tabs_fit(count: nat, total: nat)
    ensures
        tabs_shown(count, total) <= count,
        tab_columns(tabs_shown(count, total)) <= total,
        tabs_shown(count, total) < count ==> tab_columns(tabs_shown(count, total) + 1) > total,
    decreases count,
{
    if count > 0 && tab_columns(count) > total {
        lemma_shown_tabs_fit((count - 1) as nat, total);
    }
}

/// As many tabs are shown as fit: all of them, or so many that the next one would go
/// beyond the right end.
pub proof fn law_tabs_fill_row(ids: Seq<u8>, active: u8, total: nat)
    ensures
        ({
            let tabs = tab_pieces(ids, active, total);
            let used = if tabs.len() == 0 {
                0
            } else {
                tabs.last().col + tabs.last().text.len()
            };
            &&& tabs.len() <= ids.len()
            &&& tabs.len() < ids.len() ==> used + decimal(tabs.len() + 1).len() + 2 > total
        }),
{
    lemma_shown_tabs_fit(ids.len(), total);
}

/// A date that is shown ends at the right end and leaves a column free behind the tabs;
/// it is shown wherever it can be.
pub proof fn law_date_at_right_end(length: nat, total: nat, used: nat)
    ensures
        date_column(length, total, used) matches Some(col) ==> col + length == total && col > used
            && col > 0,
        date_column(length, total, used) is None ==> used + 1 + length > total || length == total,
{
}

/// The uptime is told in hours, minutes below 60 and seconds below 60 that together make
/// it up, each in two digits or more.
pub proof fn law_uptime(seconds: nat)
    ensures
        exists|h: nat, m: nat, s: nat|
            {
                &&& h * 3600 + m * 60 + s == seconds
                &&& m < 60
                &&& s < 60
                &&& uptime_text(seconds) == #[trigger] two_digits(h) + seq![':']
                    + #[trigger] two_digits(m) + seq![':'] + #[trigger] two_digits(s)
            },
{
    let (h, m, s) = (seconds / 3600, seconds / 60 % 60, seconds % 60);
    assert(h * 3600 + m * 60 + s == seconds);
    assert(uptime_text(seconds) =~= two_digits(h) + seq![':'] + two_digits(m) + seq![':']
        + two_digits(s));
}

/// A number in two digits has at least two, and a zero in front does not change its value.
pub proof fn law_two_digits(n: nat)
    ensures
        two_digits(n).len() >= 2,
        n < 100 ==> two_digits(n).len() == 2,
        n < 100 ==> two_digits(n)[0] as int == '0' as int + n / 10,
        n < 100 ==> two_digits(n)[1] as int == '0' as int + n % 10,
        n >= 10 ==> two_digits(n) == decimal(n),
{
    reveal_with_fuel(decimal, 3);
    lemma_decimal_digits(n / 10);
}

/// The most detailed of the three texts that fits the room is shown, and none if none
/// does.
pub proof fn law_info_fits(s: SystemStatus, room: int)
    ensures
        fitting_info(s, room) matches Some(text) ==> text.len() <= room,
        full_info(s).len() <= room ==> fitting_info(s, room) == Some(full_info(s)),
        full_info(s).len() > room && medium_info(s).len() <= room ==> fitting_info(s, room)
            == Some(medium_info(s)),
        full_info(s).len() > room && medium_info(s).len() > room && short_info(s).len() <= room
            ==> fitting_info(s, room) == Some(short_info(s)),
        full_info(s).len() > room && medium_info(s).len() > room && short_info(s).len() > room
            ==> fitting_info(s, room) is None,
{
}

/// Information that is shown leaves a column free on either side.
pub proof fn law_info_between(s: SystemStatus, used: int, date_start: int)
    requires
        used >= 0,
    ensures
        info_piece(s, used, date_start) matches Some(piece) ==> {
            &&& piece.col == used + 1
            &&& piece.col + piece.text.len() < date_start
            &&& !piece.highlighted
        },
{
}

} // verus!
