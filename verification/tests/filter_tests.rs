use csvops::errors::OpError;
use csvops::filter_row;
use csvops::filter_rows;

#[test]
fn exact_match_scenario() {
    let data = b"a,b,c\n1,x,2\n2,y,2\n3,x,2\n".to_vec();
    let cond = b"x".to_vec();
    let out = filter_row(&data, b',', b',', 1, &cond, true).unwrap();
    assert_eq!(out, b"a,b,c\n1,x,2\n3,x,2\n".to_vec());
}

#[test]
fn substring_match_keeps_containing_rows() {
    let data = b"name,tag\nalpha,red-1\nbeta,blue-2\ngamma,red-3\n".to_vec();
    let cond = b"red".to_vec();
    let out = filter_row(&data, b',', b',', 1, &cond, false).unwrap();
    assert_eq!(out, b"name,tag\nalpha,red-1\ngamma,red-3\n".to_vec());
}

#[test]
fn exact_match_requires_whole_field() {
    let data = b"h\nxy\nx\n".to_vec();
    let cond = b"x".to_vec();
    let out = filter_row(&data, b',', b',', 0, &cond, true).unwrap();
    assert_eq!(out, b"h\nx\n".to_vec());
}

#[test]
fn header_passes_even_when_it_does_not_match() {
    let data = b"a,b\n1,x\n".to_vec();
    let cond = b"never".to_vec();
    let out = filter_row(&data, b',', b',', 1, &cond, true).unwrap();
    assert_eq!(out, b"a,b\n".to_vec());
}

#[test]
fn out_of_range_column_is_an_index_error() {
    let data = b"a,b,c\n1,x,2\n".to_vec();
    let cond = b"x".to_vec();
    let err = filter_row(&data, b',', b',', 7, &cond, true).unwrap_err();
    assert_eq!(err, OpError::Index);
}

#[test]
fn ragged_input_is_a_format_error() {
    let data = b"a,b,c\n1,2\n".to_vec();
    let cond = b"x".to_vec();
    let err = filter_row(&data, b',', b',', 0, &cond, true).unwrap_err();
    assert_eq!(err, OpError::Format);
}

#[test]
fn empty_input_filters_to_empty_output() {
    let data = b"".to_vec();
    let cond = b"x".to_vec();
    let out = filter_row(&data, b',', b',', 0, &cond, true).unwrap();
    assert_eq!(out, b"".to_vec());
}

#[test]
fn semicolon_in_pipe_out_changes_the_delimiter() {
    let data = b"a;b\n1;x\n2;y\n".to_vec();
    let cond = b"x".to_vec();
    let out = filter_row(&data, b';', b'|', 1, &cond, true).unwrap();
    assert_eq!(out, b"a|b\n1|x\n".to_vec());
}

#[test]
fn quoted_fields_survive_the_round_trip() {
    let data = b"h1,h2\n\"1,5\",x\n\"2,5\",y\n".to_vec();
    let cond = b"x".to_vec();
    let out = filter_row(&data, b',', b',', 1, &cond, true).unwrap();
    assert_eq!(out, b"h1,h2\n\"1,5\",x\n".to_vec());
}

#[test]
fn list_filter_matches_any_literal() {
    let list = b"red\nblue\n".to_vec();
    let data = b"name,tag\na,dark-red\nb,green\nc,light-blue\n".to_vec();
    let out = filter_rows(&list, &data, b',', b',', 1).unwrap();
    assert_eq!(out, b"name,tag\na,dark-red\nc,light-blue\n".to_vec());
}

#[test]
fn list_filter_handles_crlf_list_files() {
    let list = b"red\r\nblue\r\n".to_vec();
    let data = b"name,tag\na,red\nb,green\n".to_vec();
    let out = filter_rows(&list, &data, b',', b',', 1).unwrap();
    assert_eq!(out, b"name,tag\na,red\n".to_vec());
}

#[test]
fn list_filter_skips_narrow_rows_instead_of_failing() {
    let rows = vec![
        vec![b"a".to_vec(), b"b".to_vec()],
        vec![b"1".to_vec(), b"x".to_vec()],
        vec![b"9".to_vec()],
        vec![b"2".to_vec(), b"x".to_vec()],
    ];
    let lits = vec![b"x".to_vec()];
    let out = csvops::filter::filter_rows_records(&rows, 1, &lits);
    assert_eq!(
        out,
        vec![
            vec![b"a".to_vec(), b"b".to_vec()],
            vec![b"1".to_vec(), b"x".to_vec()],
            vec![b"2".to_vec(), b"x".to_vec()],
        ]
    );
}

#[test]
fn filtering_never_grows_the_output() {
    let data = b"a,b\n1,x\n2,y\n3,x\n4,z\n".to_vec();
    let cond = b"x".to_vec();
    let out = filter_row(&data, b',', b',', 1, &cond, true).unwrap();
    let in_rows = data.split(|&b| b == b'\n').filter(|r| !r.is_empty()).count();
    let out_rows = out.split(|&b| b == b'\n').filter(|r| !r.is_empty()).count();
    assert!(out_rows <= in_rows);
    for row in out.split(|&b| b == b'\n').skip(1).filter(|r| !r.is_empty()) {
        let fields: Vec<&[u8]> = row.split(|&b| b == b',').collect();
        assert_eq!(fields[1], b"x");
    }
}
