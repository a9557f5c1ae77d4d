//! The calendar core: year and month argument parsing, month lengths, and
//! the rendering of one month as a fixed-width grid of day numbers.

use vstd::prelude::*;
use vstd::string::StringExecFns;

use chrono::Datelike;
use chrono::NaiveDate;

use crate::chars::{
    chars_string, chars_vec, concat3, lower_of, lowercase, pad_left, pad_right, push_all,
    push_spaces, spaces,
};
use crate::numbers::{dec_digits, parse_int, push_decimal, push_padded_decimal, signed_value};

verus! {

/// A calendar date, as plain year, month and day numbers.
#[derive(Debug, PartialEq, Eq, Structural, Clone, Copy)]
pub struct Date {
    pub year: i32,
    pub month: u32,
    pub day: u32,
}

// ---------------------------------------------------------------------------
// Argument parsing
// ---------------------------------------------------------------------------

/// Parse a year argument: a signed integer in 1..=9999; everything else is
/// rejected, out-of-range integers naming the range and other text naming
/// the integer grammar.
pub fn parse_year(year: &str) -> (r: Result<i32, String>)
    ensures
        match r {
            Ok(y) => crate::numbers::is_signed_numeral(year@) && 1 <= signed_value(year@)
                <= 9999 && y as int == signed_value(year@),
            Err(e) => !(crate::numbers::is_signed_numeral(year@) && 1 <= signed_value(year@)
                <= 9999) && (e@ == "Invalid integer \""@ + year@ + "\""@ || e@
                == "year \""@ + year@ + "\" not in the range 1-9999"@),
        },
{
    match parse_int(year) {
        Ok(y) => {
            if 1 <= y && y <= 9999 {
                Ok(y as i32)
            } else {
                Err(concat3("year \"", year, "\" not in the range 1-9999"))
            }
        },
        Err(e) => Err(e),
    }
}

/// What a month name (or an accepted prefix of one) means, over the
/// lowercased input.
pub open spec fn month_from_name(s: Seq<char>) -> Option<u32> {
    if s == "ja"@ || s == "jan"@ || s == "january"@ {
        Some(1u32)
    } else if s == "f"@ || s == "feb"@ || s == "february"@ {
        Some(2u32)
    } else if s == "mar"@ || s == "march"@ {
        Some(3u32)
    } else if s == "ap"@ || s == "apr"@ || s == "april"@ {
        Some(4u32)
    } else if s == "may"@ {
        Some(5u32)
    } else if s == "jun"@ || s == "june"@ {
        Some(6u32)
    } else if s == "jul"@ || s == "july"@ {
        Some(7u32)
    } else if s == "au"@ || s == "aug"@ || s == "august"@ {
        Some(8u32)
    } else if s == "s"@ || s == "sep"@ || s == "september"@ {
        Some(9u32)
    } else if s == "o"@ || s == "oct"@ || s == "october"@ {
        Some(10u32)
    } else if s == "n"@ || s == "nov"@ || s == "november"@ {
        Some(11u32)
    } else if s == "d"@ || s == "dec"@ || s == "december"@ {
        Some(12u32)
    } else {
        None
    }
}

/// Whether the text is an unsigned numeral whose value fits `u32`.
pub open spec fn is_u32_numeral(s: Seq<char>) -> bool {
    crate::numbers::is_unsigned_numeral(s) && crate::numbers::unsigned_value(s) <= u32::MAX
}

/// Parse a month argument: a number in 1..=12, or a month name (matched
/// case-insensitively against the accepted names and prefixes). A number
/// out of range names the range; any other text is an invalid month.
pub fn parse_month(month: &str) -> (r: Result<u32, String>)
    ensures
        match r {
            Ok(m) => (is_u32_numeral(month@) && 1 <= crate::numbers::unsigned_value(month@)
                <= 12 && m as int == crate::numbers::unsigned_value(month@)) || (!is_u32_numeral(
                month@,
            ) && month_from_name(lower_of(month@)) == Some(m)),
            Err(e) => if is_u32_numeral(month@) {
                !(1 <= crate::numbers::unsigned_value(month@) <= 12) && e@
                    == "month \""@ + month@ + "\" not in the range 1-12"@
            } else {
                month_from_name(lower_of(month@)) is None && e@
                    == "Invalid month \""@ + month@ + "\""@
            },
        },
{
    let chars = chars_vec(month);
    let has_sign = chars.len() > 0 && chars[0] == '+';
    let start: usize = if has_sign {
        1
    } else {
        0
    };
    assert(chars@.skip(start as int) == crate::numbers::unsigned_digits(month@));
    match crate::numbers::parse_digits_u64(&chars, start, u32::MAX as u64) {
        Some(m) => {
            if 1 <= m && m <= 12 {
                Ok(m as u32)
            } else {
                Err(concat3("month \"", month, "\" not in the range 1-12"))
            }
        },
        None => {
            let lower = lowercase(month);
            match month_name_lookup(&lower) {
                Some(m) => Ok(m),
                None => Err(concat3("Invalid month \"", month, "\"")),
            }
        },
    }
}

/// Look a lowercased month name or accepted prefix up in the name table.
fn month_name_lookup(s: &String) -> (r: Option<u32>)
    ensures
        r == month_from_name(s@),
{
    let t = s.as_str();
    if str_is(t, "ja") || str_is(t, "jan") || str_is(t, "january") {
        Some(1)
    } else if str_is(t, "f") || str_is(t, "feb") || str_is(t, "february") {
        Some(2)
    } else if str_is(t, "mar") || str_is(t, "march") {
        Some(3)
    } else if str_is(t, "ap") || str_is(t, "apr") || str_is(t, "april") {
        Some(4)
    } else if str_is(t, "may") {
        Some(5)
    } else if str_is(t, "jun") || str_is(t, "june") {
        Some(6)
    } else if str_is(t, "jul") || str_is(t, "july") {
        Some(7)
    } else if str_is(t, "au") || str_is(t, "aug") || str_is(t, "august") {
        Some(8)
    } else if str_is(t, "s") || str_is(t, "sep") || str_is(t, "september") {
        Some(9)
    } else if str_is(t, "o") || str_is(t, "oct") || str_is(t, "october") {
        Some(10)
    } else if str_is(t, "n") || str_is(t, "nov") || str_is(t, "november") {
        Some(11)
    } else if str_is(t, "d") || str_is(t, "dec") || str_is(t, "december") {
        Some(12)
    } else {
        None
    }
}

/// Whether two string slices hold the same characters.
fn str_is(a: &str, b: &str) -> (r: bool)
    ensures
        r == (a@ == b@),
{
    let sa = a.to_owned();
    let sb = b.to_owned();
    sa == sb
}

// ---------------------------------------------------------------------------
// Month lengths
// ---------------------------------------------------------------------------

/// The Gregorian leap-year rule.
pub open spec fn is_leap_year(y: int) -> bool {
    y % 4 == 0 && (y % 100 != 0 || y % 400 == 0)
}

/// The number of days in a month of the Gregorian calendar.
pub open spec fn spec_days_in_month(y: int, m: int) -> int {
    if m == 2 {
        if is_leap_year(y) {
            29
        } else {
            28
        }
    } else if m == 4 || m == 6 || m == 9 || m == 11 {
        30
    } else {
        31
    }
}

/// Relies on `chrono::NaiveDate` date arithmetic: the day before the first
/// of the next month is the last day of this month, and its day number
/// follows the Gregorian month lengths and leap rule. The body also picks
/// which date to ask the library for (January of the next year after
/// December, the next month otherwise); that small step is inside the
/// trusted body, so the stated month-length claim covers it.
#[verifier::external_body]
fn month_length(year: i32, month: u32) -> (d: u32)
    requires
        1 <= year <= 9999,
        1 <= month <= 12,
    ensures
        d as int == spec_days_in_month(year as int, month as int),
{
    let (y, m) = if month == 12 {
        (year + 1, 1)
    } else {
        (year, month + 1)
    };
    NaiveDate::from_ymd_opt(y, m, 1).and_then(|d| d.pred_opt()).unwrap().day()
}

/// The weekday the given month starts on, numbered 1 (Sunday) through 7
/// (Saturday); a fixed function of the year and month.
pub uninterp spec fn first_weekday_of(year: int, month: int) -> u32;

/// Relies on `chrono::NaiveDate::weekday` and
/// `chrono::Weekday::number_from_sunday`: the weekday of the first of the
/// month, a function of year and month alone, numbered 1 (Sunday) through
/// 7 (Saturday).
#[verifier::external_body]
fn first_weekday_from_sunday(year: i32, month: u32) -> (wd: u32)
    requires
        1 <= year <= 9999,
        1 <= month <= 12,
    ensures
        wd == first_weekday_of(year as int, month as int),
        1 <= wd <= 7,
{
    NaiveDate::from_ymd_opt(year, month, 1).unwrap().weekday().number_from_sunday()
}

/// The last day of the given month.
pub fn last_day_in_month(year: i32, month: u32) -> (d: Date)
    requires
        1 <= year <= 9999,
        1 <= month <= 12,
    ensures
        d.year == year,
        d.month == month,
        d.day as int == spec_days_in_month(year as int, month as int),
{
    Date { year, month, day: month_length(year, month) }
}

// ---------------------------------------------------------------------------
// Rendering one month
// ---------------------------------------------------------------------------

/// Relies on `ansi_term::Style::reverse` and `paint`: the rendering wraps
/// the text in the reverse-video escape sequence and the reset sequence.
#[verifier::external_body]
fn reverse_video(s: &str) -> (r: String)
    ensures
        r@ == seq!['\u{1b}', '[', '7', 'm'] + s@ + seq!['\u{1b}', '[', '0', 'm'],
{
    ansi_term::Style::new().reverse().paint(s).to_string()
}

/// One day cell: the day number right-aligned in two columns, wrapped in
/// reverse video when it is to be highlighted.
pub open spec fn day_cell(day: int, highlight: bool) -> Seq<char> {
    let base = pad_left(dec_digits(day as nat), 2);
    if highlight {
        seq!['\u{1b}', '[', '7', 'm'] + base + seq!['\u{1b}', '[', '0', 'm']
    } else {
        base
    }
}

/// The cells of one month: a two-space blank for each weekday before the
/// first, then one cell per day, the day numbered `highlight_day`
/// highlighted (no day is, when it is zero).
pub open spec fn month_cells(wd: int, last: int, highlight_day: int) -> Seq<Seq<char>> {
    Seq::new((wd - 1) as nat, |i: int| seq![' ', ' ']) + Seq::new(
        last as nat,
        |d: int| day_cell(d + 1, d + 1 == highlight_day),
    )
}

/// Cells joined with single spaces.
pub open spec fn joined_cells(cells: Seq<Seq<char>>) -> Seq<char>
    decreases cells.len(),
{
    if cells.len() == 0 {
        Seq::<char>::empty()
    } else if cells.len() == 1 {
        cells[0]
    } else {
        joined_cells(cells.drop_last()) + seq![' '] + cells.last()
    }
}

/// The week rows: the cells in runs of seven, each run joined with spaces,
/// left-aligned to twenty columns, with two trailing spaces.
pub open spec fn week_rows(cells: Seq<Seq<char>>) -> Seq<Seq<char>>
    decreases cells.len(),
{
    if cells.len() == 0 {
        Seq::<Seq<char>>::empty()
    } else if cells.len() <= 7 {
        seq![pad_right(joined_cells(cells), 20) + seq![' ', ' ']]
    } else {
        seq![pad_right(joined_cells(cells.take(7)), 20) + seq![' ', ' ']] + week_rows(
            cells.skip(7),
        )
    }
}

/// The month's title text: its name, followed by the year when asked for.
pub open spec fn title_text(month: int, year: int, print_year: bool) -> Seq<char> {
    if print_year {
        month_name_chars(month) + seq![' '] + dec_digits(year as nat)
    } else {
        month_name_chars(month)
    }
}

/// Text centred in `w` columns, the left pad no larger than the right.
pub open spec fn pad_center(s: Seq<char>, w: nat) -> Seq<char> {
    if s.len() >= w {
        s
    } else {
        spaces(((w - s.len()) / 2) as nat) + s + spaces(
            (w - s.len() - (w - s.len()) / 2) as nat,
        )
    }
}

/// The full grid of one month: a centred title, the weekday header, the
/// week rows, padded with blank rows to eight lines of twenty-two columns
/// (a highlighted cell carries extra, invisible escape characters).
pub open spec fn month_grid(
    year: int,
    month: int,
    print_year: bool,
    wd: int,
    last: int,
    highlight_day: int,
) -> Seq<Seq<char>> {
    let head = seq![
        pad_center(title_text(month, year, print_year), 20) + seq![' ', ' '],
        "Su Mo Tu We Th Fr Sa  "@,
    ];
    let body = head + week_rows(month_cells(wd, last, highlight_day));
    if body.len() >= 8 {
        body
    } else {
        body + Seq::new((8 - body.len()) as nat, |i: int| spaces(22))
    }
}

/// The views of a vector of strings.
pub open spec fn views_of(v: Seq<String>) -> Seq<Seq<char>> {
    Seq::new(v.len(), |i: int| v[i]@)
}

/// The English month names.
pub open spec fn month_name_chars(m: int) -> Seq<char> {
    if m == 1 { "January"@ }
    else if m == 2 { "February"@ }
    else if m == 3 { "March"@ }
    else if m == 4 { "April"@ }
    else if m == 5 { "May"@ }
    else if m == 6 { "June"@ }
    else if m == 7 { "July"@ }
    else if m == 8 { "August"@ }
    else if m == 9 { "September"@ }
    else if m == 10 { "October"@ }
    else if m == 11 { "November"@ }
    else { "December"@ }
}

/// The English name of a month.
pub fn month_name(m: u32) -> (r: &'static str)
    requires
        1 <= m <= 12,
    ensures
        r@ == month_name_chars(m as int),
{
    if m == 1 { "January" }
    else if m == 2 { "February" }
    else if m == 3 { "March" }
    else if m == 4 { "April" }
    else if m == 5 { "May" }
    else if m == 6 { "June" }
    else if m == 7 { "July" }
    else if m == 8 { "August" }
    else if m == 9 { "September" }
    else if m == 10 { "October" }
    else if m == 11 { "November" }
    else { "December" }
}

/// Render one month as eight lines of twenty-two columns: a centred title
/// (with the year when `print_year` is set), a weekday header, and the day
/// numbers in week rows starting on the month's first weekday, with no day
/// highlighted.
pub fn format_month(year: i32, month: u32, print_year: bool) -> (out: Vec<String>)
    requires
        1 <= year <= 9999,
        1 <= month <= 12,
    ensures
        views_of(out@) == month_grid(
            year as int,
            month as int,
            print_year,
            first_weekday_of(year as int, month as int) as int,
            spec_days_in_month(year as int, month as int),
            0,
        ),
{
    render_month(year, month, print_year, 0)
}

/// Render one month like `format_month`, with today's day number shown in
/// reverse video when today falls in this month.
pub fn format_month_with_today(year: i32, month: u32, print_year: bool, today: Date) -> (out:
    Vec<String>)
    requires
        1 <= year <= 9999,
        1 <= month <= 12,
    ensures
        views_of(out@) == month_grid(
            year as int,
            month as int,
            print_year,
            first_weekday_of(year as int, month as int) as int,
            spec_days_in_month(year as int, month as int),
            if today.year == year && today.month == month {
                today.day as int
            } else {
                0
            },
        ),
{
    let highlight_day: u32 = if today.year == year && today.month == month {
        today.day
    } else {
        0
    };
    render_month(year, month, print_year, highlight_day)
}

/// The shared renderer behind both month formatters.
fn render_month(year: i32, month: u32, print_year: bool, highlight_day: u32) -> (out: Vec<
    String,
>)
    requires
        1 <= year <= 9999,
        1 <= month <= 12,
    ensures
        views_of(out@) == month_grid(
            year as int,
            month as int,
            print_year,
            first_weekday_of(year as int, month as int) as int,
            spec_days_in_month(year as int, month as int),
            highlight_day as int,
        ),
{
    let wd = first_weekday_from_sunday(year, month);
    let last = month_length(year, month);
    let ghost cells = month_cells(wd as int, last as int, highlight_day as int);

    // Build the cells.
    let mut cell_vec: Vec<Vec<char>> = Vec::new();
    let mut b: usize = 0;
    while b < (wd - 1) as usize
        invariant
            b <= wd - 1,
            1 <= wd <= 7,
            cell_vec@.len() == b,
            forall|i: int| 0 <= i < b ==> #[trigger] cell_vec@[i]@ == seq![' ', ' '],
        decreases wd - 1 - b,
    {
        let mut blank: Vec<char> = Vec::new();
        blank.push(' ');
        blank.push(' ');
        assert(blank@ =~= seq![' ', ' ']);
        cell_vec.push(blank);
        b = b + 1;
    }
    let mut d: usize = 1;
    while d <= last as usize
        invariant
            1 <= d <= last + 1,
            1 <= wd <= 7,
            last <= 31,
            cell_vec@.len() == wd - 1 + d - 1,
            forall|i: int| 0 <= i < wd - 1 ==> #[trigger] cell_vec@[i]@ == seq![' ', ' '],
            forall|i: int|
                wd - 1 <= i < cell_vec@.len() ==> #[trigger] cell_vec@[i]@ == day_cell(
                    i - (wd - 1) + 1,
                    i - (wd - 1) + 1 == highlight_day as int,
                ),
        decreases last + 1 - d,
    {
        let mut base: Vec<char> = Vec::new();
        push_padded_decimal(&mut base, d as u64, 2);
        if d as u32 == highlight_day {
            let painted = reverse_video(chars_string(&base).as_str());
            cell_vec.push(chars_vec(painted.as_str()));
        } else {
            cell_vec.push(base);
        }
        d = d + 1;
    }
    proof {
        assert(views_of_vecs(cell_vec@) =~= cells);
    }

    let mut out: Vec<String> = Vec::new();

    // Title line.
    let name = month_name(month);
    let mut title: Vec<char> = Vec::new();
    push_all(&mut title, &chars_vec(name));
    if print_year {
        title.push(' ');
        push_decimal(&mut title, year as u64);
    }
    assert(title@ =~= title_text(month as int, year as int, print_year));
    let mut line0: Vec<char> = Vec::new();
    if title.len() < 20 {
        let pad = 20 - title.len();
        push_spaces(&mut line0, pad / 2);
        push_all(&mut line0, &title);
        push_spaces(&mut line0, pad - pad / 2);
    } else {
        push_all(&mut line0, &title);
    }
    line0.push(' ');
    line0.push(' ');
    assert(line0@ =~= pad_center(title_text(month as int, year as int, print_year), 20) + seq![
        ' ',
        ' ',
    ]);
    out.push(chars_string(&line0));
    out.push("Su Mo Tu We Th Fr Sa  ".to_owned());

    // Week rows.
    let ghost grid = month_grid(
        year as int,
        month as int,
        print_year,
        wd as int,
        last as int,
        highlight_day as int,
    );
    let mut j: usize = 0;
    proof {
        assert(cells.skip(0) =~= cells);
        assert(out@.skip(2) =~= Seq::<String>::empty());
        assert(views_of(Seq::<String>::empty()) =~= Seq::<Seq<char>>::empty());
        assert(Seq::<Seq<char>>::empty() + week_rows(cells) =~= week_rows(cells));
    }
    while j < cell_vec.len()
        invariant
            j <= cell_vec@.len(),
            views_of_vecs(cell_vec@) == cells,
            cells.len() <= 37,
            out@.len() == 2 + week_rows(cells).len() - week_rows(cells.skip(j as int)).len(),
            j % 7 == 0 || j == cell_vec@.len(),
            j < cell_vec@.len() ==> j % 7 == 0,
            views_of(out@.skip(2)) + week_rows(cells.skip(j as int)) == week_rows(cells),
            out@.len() >= 2,
            out@[0]@ == pad_center(title_text(month as int, year as int, print_year), 20)
                + seq![' ', ' '],
            out@[1]@ == "Su Mo Tu We Th Fr Sa  "@,
        decreases cell_vec@.len() - j,
    {
        let hi = if j + 7 < cell_vec.len() {
            j + 7
        } else {
            cell_vec.len()
        };
        let ghost rest = cells.skip(j as int);
        let mut week: Vec<char> = Vec::new();
        let mut t = j;
        while t < hi
            invariant
                j <= t <= hi <= cell_vec@.len(),
                views_of_vecs(cell_vec@) == cells,
                week@ == joined_cells(cells.subrange(j as int, t as int)),
            decreases hi - t,
        {
            if t > j {
                week.push(' ');
            }
            push_all(&mut week, &cell_vec[t]);
            proof {
                let sub = cells.subrange(j as int, t + 1 as int);
                assert(sub.drop_last() =~= cells.subrange(j as int, t as int));
                assert(sub.last() == cells[t as int]);
                assert(cells[t as int] == cell_vec@[t as int]@);
            }
            t = t + 1;
        }
        let mut row: Vec<char> = Vec::new();
        if week.len() < 20 {
            push_all(&mut row, &week);
            push_spaces(&mut row, 20 - week.len());
        } else {
            push_all(&mut row, &week);
        }
        row.push(' ');
        row.push(' ');
        assert(row@ =~= pad_right(joined_cells(cells.subrange(j as int, hi as int)), 20) + seq![
            ' ',
            ' ',
        ]);
        out.push(chars_string(&row));
        proof {
            if rest.len() <= 7 {
                assert(cells.subrange(j as int, hi as int) =~= rest);
                assert(week_rows(rest).len() == 1);
            } else {
                assert(cells.subrange(j as int, hi as int) =~= rest.take(7));
                assert(rest.skip(7) =~= cells.skip(hi as int));
            }
            assert(views_of(out@.skip(2)) =~= views_of(out@.drop_last().skip(2)).push(
                row@,
            ));
            assert(views_of(out@.skip(2)) + week_rows(cells.skip(hi as int)) =~= week_rows(
                cells,
            ));
        }
        j = hi;
    }
    proof {
        assert(week_rows(cells.skip(cells.len() as int)) =~= Seq::<Seq<char>>::empty());
    }

    // Pad to eight lines.
    proof {
        lemma_week_rows_count(cells);
    }
    while out.len() < 8
        invariant
            2 <= out@.len() <= 8,
            week_rows(cells).len() <= 6,
            out@[0]@ == pad_center(title_text(month as int, year as int, print_year), 20)
                + seq![' ', ' '],
            out@[1]@ == "Su Mo Tu We Th Fr Sa  "@,
            views_of(out@.skip(2)) == (week_rows(cells) + Seq::new(
                (out@.len() - 2 - week_rows(cells).len()) as nat,
                |i: int| spaces(22),
            )),
            out@.len() - 2 >= week_rows(cells).len(),
        decreases 8 - out@.len(),
    {
        let mut blank: Vec<char> = Vec::new();
        push_spaces(&mut blank, 22);
        assert(blank@ =~= spaces(22));
        let ghost pre = out@;
        let filler = chars_string(&blank);
        out.push(filler);
        proof {
            assert(out@.skip(2) =~= pre.skip(2).push(filler));
            assert(views_of(out@.skip(2)) =~= views_of(pre.skip(2)).push(spaces(22)));
            assert(views_of(out@.skip(2)) =~= (week_rows(cells) + Seq::new(
                (out@.len() - 2 - week_rows(cells).len()) as nat,
                |i: int| spaces(22),
            )));
        }
    }
    proof {
        assert(out@.len() == 8);
        let head = seq![
            pad_center(title_text(month as int, year as int, print_year), 20) + seq![' ', ' '],
            "Su Mo Tu We Th Fr Sa  "@,
        ];
        let rows = week_rows(cells);
        let padding = Seq::new((6 - rows.len()) as nat, |i: int| spaces(22));
        assert(views_of(out@.skip(2)) == rows + padding);
        assert forall|i: int| 0 <= i < 8 implies views_of(out@)[i] == (head + rows + padding)[i] by {
            if i >= 2 {
                assert(out@.skip(2)[i - 2] == out@[i]);
                assert(views_of(out@.skip(2))[i - 2] == out@[i]@);
            }
        }
        assert(views_of(out@) =~= head + rows + padding);
        assert(grid =~= head + rows + padding);
        assert(views_of(out@) == month_grid(
            year as int,
            month as int,
            print_year,
            wd as int,
            last as int,
            highlight_day as int,
        ));
        assert(wd == first_weekday_of(year as int, month as int));
    }
    out
}

/// Helper view of a vector of character vectors.
pub open spec fn views_of_vecs(v: Seq<Vec<char>>) -> Seq<Seq<char>> {
    Seq::new(v.len(), |i: int| v[i]@)
}

/// A month of at most 37 cells fits in at most six week rows.
proof fn lemma_week_rows_count(cells: Seq<Seq<char>>)
    ensures
        cells.len() == 0 ==> week_rows(cells).len() == 0,
        cells.len() > 0 ==> week_rows(cells).len() == (cells.len() + 6) / 7,
    decreases cells.len(),
{
    if cells.len() > 7 {
        lemma_week_rows_count(cells.skip(7));
    }
}

} // verus!
