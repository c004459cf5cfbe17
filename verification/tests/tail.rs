use tukituki::tail::{last_lines, lines_in_chunk, plan_read, split_lines, strip_nuls, tail_lines};

#[test]
fn logs_strips_null_bytes_from_file() {
    assert_eq!(tail_lines(b"a\0b\nc\0\n", 0), vec!["ab", "c"]);
}

#[test]
fn logs_tail_caps_output() {
    let data = b"1\n2\n3\n4\n5\n";
    assert_eq!(tail_lines(data, 2), vec!["4", "5"]);
    assert_eq!(tail_lines(data, 10), vec!["1", "2", "3", "4", "5"]);
}

#[test]
fn logs_tail_zero_prints_all() {
    assert_eq!(tail_lines(b"x\ny", 0), vec!["x", "y"]);
}

#[test]
fn chunks_split_on_newlines() {
    assert_eq!(lines_in_chunk(b"one\ntwo\n"), vec!["one", "two"]);
    assert_eq!(lines_in_chunk(b"\n"), vec![""]);
    assert!(lines_in_chunk(b"").is_empty());
    assert_eq!(lines_in_chunk(&[0xff, b'\n']), vec!["\u{fffd}"]);
    assert_eq!(split_lines("a\n\nb"), vec!["a", "", "b"]);
    assert_eq!(strip_nuls(&[0, 1, 0, 2]), vec![1, 2]);
}

#[test]
fn tailer_offsets() {
    assert_eq!(plan_read(0, 10), Some((0, 10)));
    assert_eq!(plan_read(10, 10), None);
    assert_eq!(plan_read(10, 15), Some((10, 5)));
    assert_eq!(plan_read(20, 5), Some((0, 5)), "a file that shrank is read from the start");
}

#[test]
fn last_lines_keeps_the_tail_of_a_buffer() {
    let lines: Vec<String> = ["1", "2", "3", "4"].iter().map(|s| s.to_string()).collect();
    assert_eq!(last_lines(&lines, 2), vec!["3", "4"]);
    assert_eq!(last_lines(&lines, 0), lines);
    assert_eq!(last_lines(&lines, 9), lines);
}
