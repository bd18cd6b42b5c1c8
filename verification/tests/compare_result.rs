use logsync::compare_result::CompareResult;

#[test]
fn stores_equal_length_columns_and_computes_length() {
    let result = CompareResult::new(
        vec![
            vec!["first".into()],
            vec!["second".into()],
            vec!["third".into()],
        ],
        vec!["timestamp".into()],
    )
    .unwrap();

    assert_eq!(result.containers()[0], ["first"]);
    assert_eq!(result.containers()[1], ["second"]);
    assert_eq!(result.containers()[2], ["third"]);
    assert_eq!(result.timestamps(), ["timestamp"]);
    assert_eq!(result.length(), 1);
    assert_eq!(result.max_timestamp_length(), 9);
}

#[test]
fn accepts_empty_columns() {
    for count in [0, 1, 2, 4] {
        let result = CompareResult::new(vec![vec![]; count], vec![]).unwrap();
        assert_eq!(result.containers().len(), count);
        assert!(result.containers().iter().all(Vec::is_empty));
        assert!(result.timestamps().is_empty());
        assert_eq!(result.length(), 0);
        assert_eq!(result.max_timestamp_length(), 0);
    }
}

#[test]
fn rejects_mismatched_lengths() {
    for containers in [
        vec![vec!["first".into()], vec![]],
        vec![vec![], vec!["second".into()]],
        vec![vec!["first".into()], vec!["second".into()], vec![]],
        vec![vec!["first".into()], vec!["second".into(), "extra".into()]],
    ] {
        assert!(CompareResult::new(containers, vec!["timestamp".into()]).is_err());
    }
}

#[test]
fn rejects_mismatched_timestamps() {
    for timestamps in [vec![], vec!["first".into(), "second".into()]] {
        assert!(
            CompareResult::new(vec![vec!["first".into()], vec!["second".into()]], timestamps)
                .is_err()
        );
    }
    assert!(CompareResult::new(vec![], vec!["timestamp".into()]).is_err());
}

#[test]
fn reports_the_first_column_of_the_wrong_length() {
    let err = CompareResult::new(
        vec![
            vec!["a".into(), "b".into()],
            vec!["c".into()],
            vec![],
        ],
        vec!["t1".into(), "t2".into()],
    )
    .err()
    .unwrap();
    assert_eq!(err, "Container 1 has length 1, expected 2");
}

#[test]
fn reports_a_timestamp_column_of_the_wrong_length() {
    let err = CompareResult::new(vec![vec!["a".into()]], vec![]).err().unwrap();
    assert_eq!(err, "Timestamp column has length 0, expected 1");
    let err = CompareResult::new(vec![], vec!["t".into()]).err().unwrap();
    assert_eq!(err, "Timestamp column has length 1, expected 0");
    let long: Vec<String> = (0..12).map(|i| format!("t{i}")).collect();
    let err = CompareResult::new(vec![vec![String::new(); 10]], long).err().unwrap();
    assert_eq!(err, "Timestamp column has length 12, expected 10");
}

#[test]
fn widest_timestamp_counts_characters_not_bytes() {
    let result = CompareResult::new(vec![vec!["m".into(), "n".into()]], vec!["ééé".into(), "ab".into()])
        .unwrap();
    assert_eq!(result.max_timestamp_length(), 3);
}
