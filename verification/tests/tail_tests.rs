use textutils::emit::{select_all, StreamEmitter};
use textutils::offset::{format_signed, parse_num, TakeValue};
use textutils::window::RetentionWindow;

#[test]
fn test_parse_num() {
    // All integers should be interpreted as negative numbers
    let res = parse_num("3");
    assert!(res.is_ok());
    assert_eq!(res.unwrap(), TakeValue::TakeNum(-3));

    // A leading "+" should result in a positive number
    let res = parse_num("+3");
    assert!(res.is_ok());
    assert_eq!(res.unwrap(), TakeValue::TakeNum(3));

    // An explicit "-" value should result in a negative number
    let res = parse_num("-3");
    assert!(res.is_ok());
    assert_eq!(res.unwrap(), TakeValue::TakeNum(-3));

    // Zero is zero
    let res = parse_num("0");
    assert!(res.is_ok());
    assert_eq!(res.unwrap(), TakeValue::TakeNum(0));

    // Plus zero is special
    let res = parse_num("+0");
    assert!(res.is_ok());
    assert_eq!(res.unwrap(), TakeValue::PlusZero);

    // Test boundaries
    let res = parse_num(&i64::MAX.to_string());
    assert!(res.is_ok());
    assert_eq!(res.unwrap(), TakeValue::TakeNum(i64::MIN + 1));

    let res = parse_num(&(i64::MIN + 1).to_string());
    assert!(res.is_ok());
    assert_eq!(res.unwrap(), TakeValue::TakeNum(i64::MIN + 1));

    let res = parse_num(&format!("+{}", i64::MAX));
    assert!(res.is_ok());
    assert_eq!(res.unwrap(), TakeValue::TakeNum(i64::MAX));

    let res = parse_num(&i64::MIN.to_string());
    assert!(res.is_ok());
    assert_eq!(res.unwrap(), TakeValue::TakeNum(i64::MIN));

    // A floating-point value is invalid
    let res = parse_num("3.14");
    assert!(res.is_err());
    assert_eq!(res.unwrap_err().literal, "3.14");

    // Any noninteger string is invalid
    let res = parse_num("foo");
    assert!(res.is_err());
    assert_eq!(res.unwrap_err().literal, "foo");
}

#[test]
fn format_rejection_keeps_literal() {
    for bad in ["", "3.14", "foo", "1-2"] {
        let res = parse_num(bad);
        assert!(res.is_err());
        assert_eq!(res.unwrap_err().literal, bad);
    }
}

#[test]
fn signed_format_round_trips() {
    for k in [0i64, 1, -1, 42, -42, i64::MAX, -i64::MAX] {
        let text = format_signed(k);
        let parsed = parse_num(&text).unwrap();
        if k == 0 {
            assert_eq!(parsed, TakeValue::PlusZero);
        } else {
            assert_eq!(parsed, TakeValue::TakeNum(k));
        }
    }
    assert_eq!(format_signed(5), "+5");
    assert_eq!(format_signed(-17), "-17");
}

#[test]
fn window_keeps_last_pushes() {
    let mut w: RetentionWindow<char> = RetentionWindow::new(3);
    for c in ['a', 'b', 'c', 'd', 'e'] {
        w.push(c);
    }
    assert_eq!(w.drain_ascending(), vec!['c', 'd', 'e']);
}

#[test]
fn window_shorter_than_capacity() {
    let mut w: RetentionWindow<u64> = RetentionWindow::new(10);
    w.push(1);
    w.push(2);
    assert_eq!(w.drain_ascending(), vec![1, 2]);
}

#[test]
fn zero_capacity_window_drains_empty() {
    let mut w: RetentionWindow<u64> = RetentionWindow::new(0);
    for n in 0..100u64 {
        w.push(n);
    }
    assert_eq!(w.len(), 0);
    assert_eq!(w.drain_ascending(), Vec::<u64>::new());
}

fn source() -> Vec<String> {
    ["a\n", "b\n", "c\n", "d\n", "e\n"].iter().map(|s| s.to_string()).collect()
}

#[test]
fn end_to_end_offsets() {
    // offset "-2": the last two lines
    let tv = parse_num("-2").unwrap();
    assert_eq!(select_all(source(), &tv), vec!["d\n", "e\n"]);

    // offset "+0": every line, unchanged and in order
    let tv = parse_num("+0").unwrap();
    assert_eq!(select_all(source(), &tv), source());

    // offset "3" (implicitly negative): the last three lines
    let tv = parse_num("3").unwrap();
    assert_eq!(select_all(source(), &tv), vec!["c\n", "d\n", "e\n"]);

    // offset "0": nothing
    let tv = parse_num("0").unwrap();
    assert_eq!(select_all(source(), &tv), Vec::<String>::new());
}

fn run_streaming(units: Vec<String>, tv: TakeValue) -> Vec<String> {
    let mut emitter: StreamEmitter<String> = StreamEmitter::new(tv);
    let mut got: Vec<String> = Vec::new();
    for u in units {
        if let Some(out) = emitter.offer(u) {
            got.push(out);
        }
    }
    got.extend(emitter.finish());
    got
}

#[test]
fn streaming_matches_materialised_slice() {
    let units = source();
    let m = units.len() as i64;
    for n in 0..=(m + 5) {
        let tv = TakeValue::TakeNum(n);
        let streamed = run_streaming(units.clone(), tv);
        // the naive strategy: materialise everything, then slice from n - 1
        let naive: Vec<String> = if n == 0 {
            Vec::new()
        } else {
            units.iter().skip(n as usize - 1).cloned().collect()
        };
        assert_eq!(streamed, naive);
        assert_eq!(select_all(units.clone(), &tv), naive);
    }
}

#[test]
fn streaming_windowed_mode() {
    let tv = parse_num("-2").unwrap();
    assert_eq!(run_streaming(source(), tv), vec!["d\n", "e\n"]);
}
