use textutils::cal::{format_month, format_month_with_today, last_day_in_month, parse_month, parse_year, Date};

#[test]
fn test_parse_year() {
    let res = parse_year("1");
    assert!(res.is_ok());
    assert_eq!(res.unwrap(), 1i32);

    let res = parse_year("9999");
    assert!(res.is_ok());
    assert_eq!(res.unwrap(), 9999i32);

    let res = parse_year("0");
    assert!(res.is_err());
    assert_eq!(res.unwrap_err().to_string(), "year \"0\" not in the range 1-9999");

    let res = parse_year("10000");
    assert!(res.is_err());
    assert_eq!(res.unwrap_err().to_string(), "year \"10000\" not in the range 1-9999");

    let res = parse_year("foo");
    assert!(res.is_err());
}

#[test]
fn test_parse_month() {
    let res = parse_month("1");
    assert!(res.is_ok());
    assert_eq!(res.unwrap(), 1u32);

    let res = parse_month("12");
    assert!(res.is_ok());
    assert_eq!(res.unwrap(), 12u32);

    let res = parse_month("january");
    assert!(res.is_ok());
    assert_eq!(res.unwrap(), 1u32);

    let res = parse_month("jan");
    assert!(res.is_ok());
    assert_eq!(res.unwrap(), 1u32);

    let res = parse_month("0");
    assert!(res.is_err());
    assert_eq!(res.unwrap_err().to_string(), "month \"0\" not in the range 1-12");

    let res = parse_month("13");
    assert!(res.is_err());
    assert_eq!(res.unwrap_err().to_string(), "month \"13\" not in the range 1-12");

    let res = parse_month("foo");
    assert!(res.is_err());
    assert_eq!(res.unwrap_err().to_string(), "Invalid month \"foo\"");
}

#[test]
fn parse_month_folds_case() {
    assert_eq!(parse_month("JANUARY").unwrap(), 1u32);
    assert_eq!(parse_month("May").unwrap(), 5u32);
    assert_eq!(parse_month("DEC").unwrap(), 12u32);
}

#[test]
fn test_format_month() {
    let leap_february = vec![
        "   February 2020      ",
        "Su Mo Tu We Th Fr Sa  ",
        "                   1  ",
        " 2  3  4  5  6  7  8  ",
        " 9 10 11 12 13 14 15  ",
        "16 17 18 19 20 21 22  ",
        "23 24 25 26 27 28 29  ",
        "                      ",
    ];
    assert_eq!(format_month(2020, 2, true), leap_february);

    let may = vec![
        "        May           ",
        "Su Mo Tu We Th Fr Sa  ",
        "                1  2  ",
        " 3  4  5  6  7  8  9  ",
        "10 11 12 13 14 15 16  ",
        "17 18 19 20 21 22 23  ",
        "24 25 26 27 28 29 30  ",
        "31                    ",
    ];
    assert_eq!(format_month(2020, 5, false), may);

    let april_hl = vec![
        "     April 2021       ",
        "Su Mo Tu We Th Fr Sa  ",
        "             1  2  3  ",
        " 4  5  6  7  8  9 10  ",
        "11 12 13 14 15 16 17  ",
        "18 19 20 21 22 23 24  ",
        "25 26 27 28 29 30     ",
        "                      ",
    ];
    assert_eq!(format_month(2021, 4, true), april_hl);
}

#[test]
fn format_month_highlights_today() {
    let today = Date { year: 2020, month: 5, day: 7 };
    let lines = format_month_with_today(2020, 5, false, today);
    assert!(lines[3].contains("\u{1b}[7m 7\u{1b}[0m"));

    // a date outside the rendered month changes nothing
    let elsewhere = Date { year: 2020, month: 1, day: 1 };
    assert_eq!(format_month_with_today(2020, 5, false, elsewhere), format_month(2020, 5, false));
}

#[test]
fn test_last_day_in_month() {
    assert_eq!(last_day_in_month(2020, 1), Date { year: 2020, month: 1, day: 31 });
    assert_eq!(last_day_in_month(2020, 2), Date { year: 2020, month: 2, day: 29 });
    assert_eq!(last_day_in_month(2020, 4), Date { year: 2020, month: 4, day: 30 });
}

#[test]
fn century_leap_rule() {
    assert_eq!(last_day_in_month(1900, 2).day, 28);
    assert_eq!(last_day_in_month(2000, 2).day, 29);
    assert_eq!(last_day_in_month(2021, 2).day, 28);
}
