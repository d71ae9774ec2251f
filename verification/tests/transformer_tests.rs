use matrix_codec::codec::PayloadError;
use matrix_codec::line::{LineError, Mode};
use matrix_codec::transformer::{ConfigError, LineTransformer};

fn transformer(capacity: usize, mode: Mode) -> LineTransformer {
    LineTransformer::new(capacity, mode).unwrap()
}

#[test]
fn capacity_zero_is_refused() {
    assert_eq!(LineTransformer::new(0, Mode::Compress).err(), Some(ConfigError::ZeroCapacity));
    assert_eq!(LineTransformer::new(0, Mode::Decompress).err(), Some(ConfigError::ZeroCapacity));
}

#[test]
fn every_positive_capacity_is_accepted() {
    assert!(LineTransformer::new(1, Mode::Compress).is_ok());
    assert!(LineTransformer::new(1000, Mode::Decompress).is_ok());
    assert!(LineTransformer::new(usize::MAX, Mode::Compress).is_ok());
}

#[test]
fn new_transformer_remembers_nothing() {
    let t = transformer(4, Mode::Decompress);
    assert_eq!(t.len(), 0);
    assert_eq!(t.mode(), Mode::Decompress);
    assert!(!t.contains("2,2:41"));
}

#[test]
fn transform_compresses() {
    let mut t = transformer(10, Mode::Compress);
    assert_eq!(t.transform("2,2:01000001"), Ok(String::from("2,2:41")));
}

#[test]
fn transform_expands() {
    let mut t = transformer(10, Mode::Decompress);
    assert_eq!(t.transform("2,2:41"), Ok(String::from("2,2:01000001")));
}

#[test]
fn same_line_twice_gives_same_output_from_the_memo() {
    let mut t = transformer(10, Mode::Compress);
    assert!(!t.contains("2,2:01000001"));
    let first = t.transform("2,2:01000001");
    assert_eq!(first, Ok(String::from("2,2:41")));
    assert!(t.contains("2,2:01000001"));
    assert_eq!(t.len(), 1);
    let second = t.transform("2,2:01000001");
    assert_eq!(second, first);
    assert!(t.contains("2,2:01000001"));
    assert_eq!(t.len(), 1);
}

#[test]
fn memo_is_keyed_by_the_whole_line() {
    let mut t = transformer(10, Mode::Compress);
    assert_eq!(t.transform("A:0100"), Ok(String::from("A:4")));
    assert!(!t.contains("B:0100"));
    assert!(!t.contains("A:4"));
    assert_eq!(t.transform("B:0100"), Ok(String::from("B:4")));
    assert_eq!(t.len(), 2);
}

#[test]
fn first_line_is_evicted_after_capacity_plus_one_distinct_lines() {
    for capacity in 1..6usize {
        let mut t = transformer(capacity, Mode::Compress);
        let lines: Vec<String> = (0..capacity + 1).map(|i| format!("{}:0100", i)).collect();
        for line in &lines {
            assert_eq!(t.transform(line), Ok(format!("{}4", &line[..line.len() - 4])));
        }
        assert_eq!(t.len(), capacity);
        assert!(!t.contains(&lines[0]));
        for line in &lines[1..] {
            assert!(t.contains(line));
        }
        assert_eq!(t.transform(&lines[0]), Ok(String::from("0:4")));
        assert!(t.contains(&lines[0]));
        assert!(!t.contains(&lines[1]));
        assert_eq!(t.len(), capacity);
    }
}

#[test]
fn capacity_one_keeps_only_the_latest_line() {
    let mut t = transformer(1, Mode::Compress);
    assert_eq!(t.transform("A:0100"), Ok(String::from("A:4")));
    assert!(t.contains("A:0100"));
    assert_eq!(t.transform("A:0100"), Ok(String::from("A:4")));
    assert!(t.contains("A:0100"));
    assert_eq!(t.len(), 1);
    assert_eq!(t.transform("B:0101"), Ok(String::from("B:5")));
    assert!(t.contains("B:0101"));
    assert!(!t.contains("A:0100"));
    assert_eq!(t.len(), 1);
}

#[test]
fn a_hit_counts_as_a_use() {
    let mut t = transformer(2, Mode::Compress);
    t.transform("A:0100").unwrap();
    t.transform("B:0101").unwrap();
    assert_eq!(t.transform("A:0100"), Ok(String::from("A:4")));
    t.transform("C:0110").unwrap();
    assert!(t.contains("A:0100"));
    assert!(!t.contains("B:0101"));
    assert!(t.contains("C:0110"));
}

#[test]
fn asking_does_not_count_as_a_use() {
    let mut t = transformer(2, Mode::Compress);
    t.transform("A:0100").unwrap();
    t.transform("B:0101").unwrap();
    assert!(t.contains("A:0100"));
    t.transform("C:0110").unwrap();
    assert!(!t.contains("A:0100"));
    assert!(t.contains("B:0101"));
    assert!(t.contains("C:0110"));
}

#[test]
fn the_line_unused_longest_leaves_first() {
    let mut t = transformer(3, Mode::Decompress);
    t.transform("a:1").unwrap();
    t.transform("b:2").unwrap();
    t.transform("c:3").unwrap();
    t.transform("b:2").unwrap();
    t.transform("a:1").unwrap();
    t.transform("d:4").unwrap();
    assert!(!t.contains("c:3"));
    t.transform("e:5").unwrap();
    assert!(!t.contains("b:2"));
    assert!(t.contains("a:1"));
    assert!(t.contains("d:4"));
    assert!(t.contains("e:5"));
    assert_eq!(t.len(), 3);
}

#[test]
fn a_line_that_fails_is_not_remembered() {
    let mut t = transformer(2, Mode::Compress);
    t.transform("A:0100").unwrap();
    assert_eq!(t.transform("bad_line_no_colon"), Err(LineError::MissingSeparator));
    assert_eq!(t.transform("B:012"), Err(LineError::Payload(PayloadError::InvalidDigit)));
    assert_eq!(t.transform("C:010"), Err(LineError::Payload(PayloadError::MisalignedLength)));
    assert_eq!(t.len(), 1);
    assert!(t.contains("A:0100"));
    assert!(!t.contains("bad_line_no_colon"));
    assert!(!t.contains("B:012"));
    assert_eq!(t.transform("bad_line_no_colon"), Err(LineError::MissingSeparator));
    assert_eq!(t.transform("A:0100"), Ok(String::from("A:4")));
}

#[test]
fn a_line_that_fails_pushes_nothing_out() {
    let mut t = transformer(1, Mode::Compress);
    t.transform("A:0100").unwrap();
    assert!(t.transform("nothing").is_err());
    assert!(t.contains("A:0100"));
}

#[test]
fn transform_all_keeps_the_order() {
    let mut t = transformer(1, Mode::Compress);
    let lines = vec![String::from("A:0100"), String::from("A:0100"), String::from("B:0101")];
    let run = t.transform_all(&lines);
    assert_eq!(run.lines, vec![String::from("A:4"), String::from("A:4"), String::from("B:5")]);
    assert_eq!(run.failure, None);
    assert!(t.contains("B:0101"));
    assert!(!t.contains("A:0100"));
}

#[test]
fn transform_all_stops_at_the_first_failure() {
    let mut t = transformer(8, Mode::Compress);
    let lines = vec![
        String::from("A:0100"),
        String::from("B:0101"),
        String::from("bad_line_no_colon"),
        String::from("C:0110"),
        String::from("D:2"),
    ];
    let run = t.transform_all(&lines);
    assert_eq!(run.lines, vec![String::from("A:4"), String::from("B:5")]);
    assert_eq!(run.failure, Some(LineError::MissingSeparator));
    assert_eq!(t.len(), 2);
    assert!(!t.contains("C:0110"));
}

#[test]
fn transform_all_of_nothing() {
    let mut t = transformer(8, Mode::Decompress);
    let run = t.transform_all(&Vec::new());
    assert!(run.lines.is_empty());
    assert_eq!(run.failure, None);
    assert_eq!(t.len(), 0);
}

#[test]
fn memo_never_changes_an_answer() {
    let lines = ["a:00", "b:1f", "a:00", "c:", "b:1f", "d:G", "a:00", "e:ff", "f:0", "a:00"];
    for capacity in 1..5usize {
        let mut t = transformer(capacity, Mode::Decompress);
        let mut plain = transformer(1, Mode::Decompress);
        for line in lines {
            let fresh = plain.transform(line);
            plain = transformer(1, Mode::Decompress);
            assert_eq!(t.transform(line), fresh);
            assert!(t.len() <= capacity);
        }
    }
}
