use ccx::frd::{
    chunk_node_ids, read_element_block, read_element_nodes, read_node_block, read_result_block,
    scan_frd, slice_bytes, utf8_length, NodeRecord,
};

fn lines(text: &str) -> Vec<String> {
    text.split_inclusive('\n').map(|l| l.to_string()).collect()
}

fn node_line(id: i32, x: &str, y: &str, z: &str) -> String {
    format!("{:>2}{:>10}{:>12}{:>12}{:>12}\n", "-1", id, x, y, z)
}

fn element_header(id: i32, code: i32) -> String {
    format!("{:>2}{:>10}{:>5}\n", "-1", id, code)
}

fn node_ids_line(ids: &[i32]) -> String {
    let mut s = "-2".to_string();
    for id in ids {
        s.push_str(&format!("{:>10}", id));
    }
    s.push('\n');
    s
}

#[test]
fn blocks_are_dispatched_to_their_readers() {
    let mut text = String::new();
    text.push_str("1UUSER header\n");
    text.push_str("    1C\n");
    text.push_str("\n");
    text.push_str("    2C                             2                                     1\n");
    text.push_str(&node_line(1, "0.00000E+00", "0.00000E+00", "0.00000E+00"));
    text.push_str(&node_line(2, "1.00000E+00", "0.00000E+00", "0.00000E+00"));
    text.push_str(" -3\n");
    text.push_str("  100CL  101 1.00000E+00\n");
    text.push_str(" -1         1 0.1\n");
    text.push_str(" -3\n");
    text.push_str("    3C                             1                                     1\n");
    text.push_str(&element_header(1, 11));
    text.push_str(&node_ids_line(&[1, 2]));
    text.push_str(" -3\n");
    text.push_str(" 9999\n");
    let scan = scan_frd(&lines(&text)).expect("readable");
    assert_eq!(scan.header.info, vec!["1UUSER header".to_string()]);
    assert!(scan.header.version.is_empty());
    assert!(scan.header.job_name.is_empty());
    assert_eq!(
        scan.nodes,
        vec![
            NodeRecord { id: 1, x: "0.00000E+00".into(), y: "0.00000E+00".into(), z: "0.00000E+00".into() },
            NodeRecord { id: 2, x: "1.00000E+00".into(), y: "0.00000E+00".into(), z: "0.00000E+00".into() },
        ]
    );
    assert_eq!(scan.elements.len(), 1);
    assert_eq!((scan.elements[0].id, scan.elements[0].element_type), (1, 11));
    assert_eq!(scan.elements[0].nodes, vec![1, 2]);
    assert_eq!(scan.result_blocks, 1);
}

#[test]
fn a_key_cut_inside_a_character_is_refused() {
    assert!(scan_frd(&lines("abcdé\n")).is_none());
    assert!(scan_frd(&lines("abcé\n")).is_some());
}

#[test]
fn node_block_reads_fixed_width_fields() {
    let ls = vec![
        node_line(1, "0.00000E+00", "1.00000E+00", "2.50000E+00"),
        "-1 too short\n".to_string(),
        node_line(7, "3.0", "4.0", "5.0"),
        " -3\n".to_string(),
        node_line(9, "1.0", "1.0", "1.0"),
    ];
    let (nodes, next) = read_node_block(&ls, 0).unwrap();
    assert_eq!(next, 4);
    assert_eq!(
        nodes,
        vec![
            NodeRecord { id: 1, x: "0.00000E+00".into(), y: "1.00000E+00".into(), z: "2.50000E+00".into() },
            NodeRecord { id: 7, x: "3.0".into(), y: "4.0".into(), z: "5.0".into() },
        ]
    );
    let (rest, end) = read_node_block(&ls, 4).unwrap();
    assert_eq!(rest.len(), 1);
    assert_eq!(end, 5);
}

#[test]
fn element_nodes_are_read_in_ten_byte_chunks() {
    let ls = vec![node_ids_line(&[1, 2, 3]), node_ids_line(&[4]), "-1 next\n".to_string(), "unread\n".to_string()];
    let (ids, next) = read_element_nodes(&ls, 0).unwrap();
    assert_eq!(ids, vec![1, 2, 3, 4]);
    assert_eq!(next, 3);
}

#[test]
fn the_line_that_ends_an_element_is_consumed() {
    let ls = vec![
        element_header(1, 1),
        node_ids_line(&[1, 2, 3, 4, 5, 6, 7, 8]),
        element_header(2, 1),
        node_ids_line(&[5, 6, 7, 8, 9, 10, 11, 12]),
        element_header(3, 3),
        node_ids_line(&[1, 2, 3, 4]),
        " -3\n".to_string(),
        "after\n".to_string(),
    ];
    let (elements, next) = read_element_block(&ls, 0).unwrap();
    let ids: Vec<(i32, i32)> = elements.iter().map(|e| (e.id, e.element_type)).collect();
    assert_eq!(ids, vec![(1, 1), (3, 3)]);
    assert_eq!(elements[0].nodes, vec![1, 2, 3, 4, 5, 6, 7, 8]);
    assert_eq!(elements[1].nodes, vec![1, 2, 3, 4]);
    assert_eq!(next, 8);
}

#[test]
fn result_block_ends_after_its_end_record() {
    let ls = lines(" -1         1 1.0\n -1         2 2.0\n -3\n    1C\n");
    assert_eq!(read_result_block(&ls, 0), 3);
    assert_eq!(read_result_block(&ls, 3), 4);
}

#[test]
fn byte_offsets_follow_utf8() {
    let s: Vec<char> = "aé-b".chars().collect();
    assert_eq!(utf8_length(&s), 5);
    assert_eq!(slice_bytes(&s, 1, 3), Some(vec!['é']));
    assert_eq!(slice_bytes(&s, 2, 4), None);
    assert_eq!(slice_bytes(&s, 0, 6), None);
    // Bytes 19..21 hold 'é', so the chunks 10..20 and 20..30 fall inside it.
    let text = format!("{:>10}{:>9}é2{:>8}3", 1, "", "");
    let data: Vec<char> = text.chars().collect();
    assert_eq!(utf8_length(&data), 31);
    assert_eq!(chunk_node_ids(&data), vec![1, 3]);
}
