use snake_game::{parse_score_line, parse_usize, sort_scores_desc, ScoreEntry};

fn line(s: &str) -> Vec<u8> {
    s.as_bytes().to_vec()
}

#[test]
fn parses_a_plain_score_line() {
    let e = parse_score_line(&line("Bob: 42")).unwrap();
    assert_eq!(e.name, b"Bob".to_vec());
    assert_eq!(e.score, 42);
}

#[test]
fn parses_an_anonymous_line_and_an_empty_name() {
    let e = parse_score_line(&line("Anonymous: 7")).unwrap();
    assert_eq!(e.name, b"Anonymous".to_vec());
    assert_eq!(e.score, 7);
    let e = parse_score_line(&line(": 5")).unwrap();
    assert_eq!(e.name, b"".to_vec());
    assert_eq!(e.score, 5);
}

#[test]
fn a_colon_without_space_stays_in_the_name() {
    let e = parse_score_line(&line("a:b: 3")).unwrap();
    assert_eq!(e.name, b"a:b".to_vec());
    assert_eq!(e.score, 3);
}

#[test]
fn leading_plus_is_accepted_as_from_str_does() {
    let e = parse_score_line(&line("Bob: +7")).unwrap();
    assert_eq!(e.score, 7);
    assert_eq!(parse_usize(&line("+123")), Some(123));
}

#[test]
fn malformed_lines_are_skipped() {
    assert!(parse_score_line(&line("no separator 42")).is_none());
    assert!(parse_score_line(&line("a: b: 3")).is_none());
    assert!(parse_score_line(&line("Bob: 4x2")).is_none());
    assert!(parse_score_line(&line("Bob: ")).is_none());
    assert!(parse_score_line(&line("Bob: +")).is_none());
    assert!(parse_score_line(&line("Bob: -3")).is_none());
    assert!(parse_score_line(&line("")).is_none());
}

#[test]
fn oversized_numbers_are_rejected() {
    assert!(parse_score_line(&line("Bob: 99999999999999999999999999")).is_none());
    assert_eq!(parse_usize(&line("18446744073709551615")), Some(usize::MAX));
    assert!(parse_usize(&line("18446744073709551616")).is_none());
}

#[test]
fn parse_usize_rejects_what_is_not_a_literal() {
    assert!(parse_usize(&line("")).is_none());
    assert!(parse_usize(&line("+")).is_none());
    assert!(parse_usize(&line(" 1")).is_none());
    assert!(parse_usize(&line("1 ")).is_none());
    assert!(parse_usize(&line("++1")).is_none());
    assert_eq!(parse_usize(&line("0")), Some(0));
    assert_eq!(parse_usize(&line("007")), Some(7));
}

#[test]
fn sorts_highest_first_and_keeps_ties_in_order() {
    let entries = vec![
        ScoreEntry { name: b"a".to_vec(), score: 1 },
        ScoreEntry { name: b"b".to_vec(), score: 5 },
        ScoreEntry { name: b"c".to_vec(), score: 3 },
        ScoreEntry { name: b"d".to_vec(), score: 5 },
    ];
    let sorted = sort_scores_desc(entries);
    let flat: Vec<(Vec<u8>, usize)> = sorted.into_iter().map(|e| (e.name, e.score)).collect();
    assert_eq!(
        flat,
        vec![
            (b"b".to_vec(), 5),
            (b"d".to_vec(), 5),
            (b"c".to_vec(), 3),
            (b"a".to_vec(), 1),
        ]
    );
}

#[test]
fn sorting_an_empty_table_yields_an_empty_table() {
    let sorted = sort_scores_desc(Vec::new());
    assert!(sorted.is_empty());
}
