use csvops::errors::OpError;
use csvops::merge_csv;
use csvops::split_csv;

#[test]
fn merge_concatenates_data_rows_in_order() {
    let files = vec![
        b"h1,h2\n1,2\n3,4\n".to_vec(),
        b"h1,h2\n5,6\n".to_vec(),
        b"h1,h2\n7,8\n9,0\n".to_vec(),
    ];
    let out = merge_csv(&files, b',', b',').unwrap();
    assert_eq!(out, b"h1,h2\n1,2\n3,4\n5,6\n7,8\n9,0\n".to_vec());
}

#[test]
fn merge_writes_the_first_header_once() {
    let files = vec![b"first,header\n1,2\n".to_vec(), b"other,names\n3,4\n".to_vec()];
    let out = merge_csv(&files, b',', b',').unwrap();
    assert_eq!(out, b"first,header\n1,2\n3,4\n".to_vec());
}

#[test]
fn merge_of_no_files_is_empty() {
    let files: Vec<Vec<u8>> = vec![];
    let out = merge_csv(&files, b',', b',').unwrap();
    assert_eq!(out, b"".to_vec());
}

#[test]
fn merge_skips_files_without_rows() {
    let files = vec![b"".to_vec(), b"h\n1\n".to_vec()];
    let out = merge_csv(&files, b',', b',').unwrap();
    assert_eq!(out, b"h\n1\n".to_vec());
}

#[test]
fn merge_propagates_a_format_error() {
    let files = vec![b"h1,h2\n1\n".to_vec()];
    let err = merge_csv(&files, b',', b',').unwrap_err();
    assert_eq!(err, OpError::Format);
}

#[test]
fn split_caps_rows_and_replicates_the_header() {
    let data = b"h1,h2\n1,2\n3,4\n5,6\n".to_vec();
    let stem = b"data".to_vec();
    let shards = split_csv(&data, b',', b',', 2, &stem).unwrap();
    assert_eq!(shards.len(), 2);
    assert_eq!(shards[0].0, b"data_1.csv".to_vec());
    assert_eq!(shards[0].1, b"h1,h2\n1,2\n3,4\n".to_vec());
    assert_eq!(shards[1].0, b"data_2.csv".to_vec());
    assert_eq!(shards[1].1, b"h1,h2\n5,6\n".to_vec());
}

#[test]
fn split_header_only_input_yields_one_header_shard() {
    let data = b"h1,h2\n".to_vec();
    let stem = b"only".to_vec();
    let shards = split_csv(&data, b',', b',', 5, &stem).unwrap();
    assert_eq!(shards.len(), 1);
    assert_eq!(shards[0].0, b"only_1.csv".to_vec());
    assert_eq!(shards[0].1, b"h1,h2\n".to_vec());
}

#[test]
fn split_exact_multiple_leaves_no_trailing_shard() {
    let data = b"h\n1\n2\n3\n4\n".to_vec();
    let stem = b"even".to_vec();
    let shards = split_csv(&data, b',', b',', 2, &stem).unwrap();
    assert_eq!(shards.len(), 2);
    assert_eq!(shards[1].1, b"h\n3\n4\n".to_vec());
}

#[test]
fn split_then_merge_restores_the_input() {
    let data = b"h1,h2\na,1\nb,2\nc,3\nd,4\ne,5\n".to_vec();
    let stem = b"rt".to_vec();
    let shards = split_csv(&data, b',', b',', 2, &stem).unwrap();
    let files: Vec<Vec<u8>> = shards.into_iter().map(|(_, bytes)| bytes).collect();
    let merged = merge_csv(&files, b',', b',').unwrap();
    assert_eq!(merged, data);
}

#[test]
fn split_of_unreadable_input_is_a_format_error() {
    let data = b"h1,h2\n1,2,3\n".to_vec();
    let stem = b"bad".to_vec();
    let err = split_csv(&data, b',', b',', 2, &stem).unwrap_err();
    assert_eq!(err, OpError::Format);
}

#[test]
fn split_reads_one_delimiter_and_writes_another() {
    let data = b"h1;h2\n1;2\n3;4\n".to_vec();
    let stem = b"conv".to_vec();
    let shards = split_csv(&data, b';', b',', 10, &stem).unwrap();
    assert_eq!(shards.len(), 1);
    assert_eq!(shards[0].1, b"h1,h2\n1,2\n3,4\n".to_vec());
}

#[test]
fn merge_respects_enumeration_order_for_row_content() {
    let a = b"h\n1\n2\n".to_vec();
    let b = b"h\n3\n".to_vec();
    let c = b"h\n4\n5\n".to_vec();
    let all = merge_csv(&vec![a.clone(), b.clone(), c.clone()], b',', b',').unwrap();
    let left = merge_csv(&vec![a, b], b',', b',').unwrap();
    let right = merge_csv(&vec![c], b',', b',').unwrap();
    // Data rows of the whole enumeration are the parts' data rows, concatenated.
    let data_of = |bytes: &[u8]| {
        bytes
            .split(|&x| x == b'\n')
            .skip(1)
            .filter(|r| !r.is_empty())
            .map(|r| r.to_vec())
            .collect::<Vec<_>>()
    };
    let mut joined = data_of(&left);
    joined.extend(data_of(&right));
    assert_eq!(data_of(&all), joined);
}
