use textutils::biggen::done_message;
use textutils::chars::join_spaced;
use textutils::findr::{name_matches, type_matches, EntryType};
use textutils::cat::number_lines;
use textutils::comm::comm_lines;
use textutils::fortune::{fortunes_from_text, pick_fortune, select_fortune_files, Fortune};
use textutils::grep::{find_lines, Pattern};
use textutils::head::{head_bytes, head_lines};
use textutils::uniq::{uniq_output, uniq_pairs};

#[test]
fn test_find_lines() {
    let lines: Vec<String> =
        vec!["Lorem".to_string(), "Ipsum".to_string(), "DOLOR".to_string()];

    // The pattern _or_ should match the one line, "Lorem"
    let re1 = Pattern::compile("or", false).unwrap();
    let matches = find_lines(&lines, &re1, false);
    assert_eq!(matches, vec!["Lorem"]);

    // When inverted, the function should match the other two lines
    let matches = find_lines(&lines, &re1, true);
    assert_eq!(matches, vec!["Ipsum", "DOLOR"]);

    // This regex will be case-insensitive
    let re2 = Pattern::compile("or", true).unwrap();

    // The two lines "Lorem" and "DOLOR" should match
    let matches = find_lines(&lines, &re2, false);
    assert_eq!(matches, vec!["Lorem", "DOLOR"]);

    // When inverted, the one remaining line should match
    let matches = find_lines(&lines, &re2, true);
    assert_eq!(matches, vec!["Ipsum"]);
}

#[test]
fn bad_pattern_is_rejected() {
    assert!(Pattern::compile("*.csv", false).is_err());
}

#[test]
fn test_pick_fortune() {
    let fortunes = vec![
        Fortune {
            source: "fortunes".to_string(),
            text: "You cannot achieve the impossible without attempting the absurd."
                .to_string(),
        },
        Fortune {
            source: "fortunes".to_string(),
            text: "Assumption is the mother of all screw-ups.".to_string(),
        },
        Fortune {
            source: "fortunes".to_string(),
            text: "Neckties strangle clear thinking.".to_string(),
        },
    ];
    // Pick a fortune with a seed
    assert_eq!(
        pick_fortune(&fortunes, Some(1)).unwrap(),
        &"Neckties strangle clear thinking.".to_string()
    );
}

#[test]
fn seeded_picks_are_reproducible() {
    let fortunes: Vec<Fortune> = (0..5)
        .map(|i| Fortune { source: "s".to_string(), text: format!("fortune {i}") })
        .collect();
    for seed in [0u64, 1, 7, 42] {
        let first = pick_fortune(&fortunes, Some(seed)).unwrap().clone();
        let second = pick_fortune(&fortunes, Some(seed)).unwrap().clone();
        assert_eq!(first, second);
    }
}

#[test]
fn fortune_files_are_selected_sorted_unique() {
    let paths: Vec<String> = vec![
        "./tests/inputs/jokes".to_string(),
        "./tests/inputs/ascii-art".to_string(),
        "./tests/inputs/jokes".to_string(),
    ];
    assert_eq!(
        select_fortune_files(&paths),
        vec!["./tests/inputs/ascii-art".to_string(), "./tests/inputs/jokes".to_string()]
    );

    // index files are dropped; a bare ".dat" name has no extension and stays
    let paths: Vec<String> = vec![
        "a/quotes.dat".to_string(),
        "a/quotes".to_string(),
        "a/.dat".to_string(),
    ];
    assert_eq!(
        select_fortune_files(&paths),
        vec!["a/.dat".to_string(), "a/quotes".to_string()]
    );
}

#[test]
fn fortunes_are_split_and_trimmed() {
    let content = "First fortune.\n%\nSecond\nfortune.\n%\n   \n%\nThird.";
    let fortunes = fortunes_from_text("quotes", content);
    assert_eq!(fortunes.len(), 3);
    assert_eq!(fortunes[0].text, "First fortune.");
    assert_eq!(fortunes[1].text, "Second\nfortune.");
    assert_eq!(fortunes[2].text, "Third.");
    assert!(fortunes.iter().all(|f| f.source == "quotes"));
}

#[test]
fn head_takes_prefixes() {
    let lines: Vec<String> = vec!["a\n".to_string(), "b\n".to_string(), "c\n".to_string()];
    assert_eq!(head_lines(lines.clone(), 2), vec!["a\n", "b\n"]);
    assert_eq!(head_lines(lines.clone(), 0), Vec::<String>::new());
    assert_eq!(head_lines(lines.clone(), 9), lines);
    assert_eq!(head_bytes(b"abcdef".to_vec(), 4), b"abcd".to_vec());
}

#[test]
fn numbering_lines() {
    let lines: Vec<String> = vec!["alpha".to_string(), "".to_string(), "beta".to_string()];
    assert_eq!(
        number_lines(&lines, true, false),
        vec!["     1\talpha", "     2\t", "     3\tbeta"]
    );
    assert_eq!(
        number_lines(&lines, false, true),
        vec!["     1\talpha", "", "     2\tbeta"]
    );
    assert_eq!(number_lines(&lines, false, false), lines);
}

#[test]
fn uniq_groups_runs() {
    let lines: Vec<String> = vec![
        "a\n".to_string(),
        "a\n".to_string(),
        "a\n".to_string(),
        "b\n".to_string(),
        "a\n".to_string(),
    ];
    let pairs = uniq_pairs(&lines);
    assert_eq!(
        pairs,
        vec![(3, "a\n".to_string()), (1, "b\n".to_string()), (1, "a\n".to_string())]
    );
    assert_eq!(uniq_output(&lines, false), vec!["a\n", "b\n", "a\n"]);
    assert_eq!(
        uniq_output(&lines, true),
        vec!["      3 a\n", "      1 b\n", "      1 a\n"]
    );
}

#[test]
fn uniq_compares_without_trailing_space() {
    let lines: Vec<String> = vec!["x  \n".to_string(), "x\n".to_string()];
    let pairs = uniq_pairs(&lines);
    // both lines are one group; the first one is kept verbatim
    assert_eq!(pairs, vec![(2, "x  \n".to_string())]);
}

#[test]
fn comm_merges_sorted_lines() {
    let a: Vec<String> = vec!["apple\n", "banana\n", "cherry\n"]
        .iter()
        .map(|s| s.to_string())
        .collect();
    let b: Vec<String> =
        vec!["banana\n", "date\n"].iter().map(|s| s.to_string()).collect();
    let out = comm_lines(&a, &b, true, true, true, "\t");
    assert_eq!(out, vec!["apple\n", "\t\tbanana\n", "cherry\n", "\tdate\n"]);

    // suppressing column one drops its lines and its indent
    let out = comm_lines(&a, &b, false, true, true, "\t");
    assert_eq!(out, vec!["", "\tbanana\n", "", "date\n"]);
}

#[test]
fn entry_filters_need_a_match() {
    let types = vec![EntryType::File, EntryType::Link];
    assert!(type_matches(EntryType::File, &types));
    assert!(!type_matches(EntryType::Dir, &types));
    assert!(!type_matches(EntryType::File, &Vec::new()));

    let names = vec![Pattern::compile(".*[.]csv", false).unwrap()];
    assert!(name_matches("table.csv", &names));
    assert!(!name_matches("table.tsv", &names));
    assert!(!name_matches("table.csv", &Vec::new()));
}

#[test]
fn echoed_words_are_joined() {
    let words = vec!["Hello".to_string(), "there".to_string()];
    assert_eq!(join_spaced(&words), "Hello there");
    assert_eq!(join_spaced(&Vec::new()), "");
}

#[test]
fn done_message_groups_thousands() {
    assert_eq!(
        done_message(1000000, "1M.txt"),
        "Done, wrote 1,000,000 lines to \"1M.txt\"."
    );
    assert_eq!(done_message(1, "out.txt"), "Done, wrote 1 line to \"out.txt\".");
}
