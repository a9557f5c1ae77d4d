use textutils::emit::{emit_sources, format_header};
use textutils::lines::{split_lines, LineIterator};
use textutils::offset::parse_num;

#[test]
fn sources_are_isolated() {
    let tv = parse_num("-1").unwrap();
    let first = vec!["a\n".to_string(), "b\n".to_string()];
    let third = vec!["x\n".to_string(), "y\n".to_string()];
    // the second source failed to open
    let sources = vec![Some(first.clone()), None, Some(third.clone())];
    let outs = emit_sources(sources, &tv);
    assert_eq!(outs.len(), 3);
    assert_eq!(outs[0], Some(vec!["b\n".to_string()]));
    assert_eq!(outs[1], None);
    assert_eq!(outs[2], Some(vec!["y\n".to_string()]));

    // the same sources with the failing one healthy: others unaffected
    let healthy = vec![
        Some(first.clone()),
        Some(vec!["q\n".to_string()]),
        Some(third.clone()),
    ];
    let outs2 = emit_sources(healthy, &tv);
    assert_eq!(outs2[0], outs[0]);
    assert_eq!(outs2[2], outs[2]);
}

#[test]
fn header_names_the_source() {
    assert_eq!(format_header("tests/inputs/one.txt"), "==> tests/inputs/one.txt <==");
}

#[test]
fn line_iterator_keeps_terminators() {
    let mut it = LineIterator::new(b"one\ntwo\r\nthree".to_vec());
    assert_eq!(it.next_line(), Some(b"one\n".to_vec()));
    assert_eq!(it.next_line(), Some(b"two\r\n".to_vec()));
    assert_eq!(it.next_line(), Some(b"three".to_vec()));
    assert_eq!(it.next_line(), None);
}

#[test]
fn split_lines_covers_edges() {
    assert_eq!(split_lines(Vec::new()), Vec::<Vec<u8>>::new());
    assert_eq!(split_lines(b"\n".to_vec()), vec![b"\n".to_vec()]);
    assert_eq!(split_lines(b"a\nb".to_vec()), vec![b"a\n".to_vec(), b"b".to_vec()]);
    assert_eq!(
        split_lines(b"a\n\nb\n".to_vec()),
        vec![b"a\n".to_vec(), b"\n".to_vec(), b"b\n".to_vec()]
    );
}
