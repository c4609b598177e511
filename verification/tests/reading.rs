use varlog::lines::NL;
use varlog::logs::{LogTail, LogsRequest, TailStep};
use varlog::rev_log::{RevLogIter, RevLogStep, BUFSIZE};

/// Drives the backwards reader over `file`, reading from it as asked.
fn read_backwards(file: &[u8]) -> Vec<Vec<u8>> {
    let mut it = RevLogIter::new(file.len() as u64);
    let mut out = Vec::new();
    loop {
        match it.step() {
            RevLogStep::Line(l) => out.push(l),
            RevLogStep::Read { start, len } => {
                let s = start as usize;
                it.supply(file[s..s + len as usize].to_vec());
            }
            RevLogStep::Finished => break,
        }
    }
    out
}

fn expected(text: &str) -> Vec<Vec<u8>> {
    let mut v: Vec<Vec<u8>> = text.lines().map(|l| l.as_bytes().to_vec()).collect();
    v.reverse();
    v
}

fn tail(file: &[u8], req: &LogsRequest) -> Vec<String> {
    let mut t = LogTail::new(file.len() as u64, req);
    loop {
        match t.step() {
            TailStep::Read { start, len } => {
                let s = start as usize;
                t.supply(file[s..s + len as usize].to_vec());
            }
            TailStep::Done(v) => return v,
        }
    }
}

#[test]
fn empty_file_has_no_lines() {
    assert!(read_backwards(b"").is_empty());
}

#[test]
fn lines_come_last_first() {
    let text = "one\ntwo\nthree\n";
    assert_eq!(read_backwards(text.as_bytes()), expected(text));
    assert_eq!(read_backwards(b"a\nb"), vec![b"b".to_vec(), b"a".to_vec()]);
}

#[test]
fn crlf_and_empty_lines() {
    let text = "x\r\n\r\n\ny\r\nz\r";
    assert_eq!(read_backwards(text.as_bytes()), expected(text));
    assert_eq!(read_backwards(b"\n"), vec![Vec::<u8>::new()]);
}

#[test]
fn large_file_across_many_chunks() {
    let mut text = String::new();
    for i in 0..5000 {
        text.push_str(&format!("line number {} {}\n", i, "x".repeat(i % 37)));
    }
    assert!(text.len() as u64 > 4 * BUFSIZE);
    assert_eq!(read_backwards(text.as_bytes()), expected(&text));
}

#[test]
fn lines_longer_than_a_chunk() {
    let long = "y".repeat(3 * BUFSIZE as usize + 17);
    let text = format!("first\n{}\nmiddle\n{}", long, long);
    assert_eq!(read_backwards(text.as_bytes()), expected(&text));
}

#[test]
fn first_read_is_the_last_chunk() {
    let file = vec![b'a'; 3 * BUFSIZE as usize];
    let mut it = RevLogIter::new(file.len() as u64);
    assert_eq!(it.step(), RevLogStep::Read { start: 2 * BUFSIZE, len: BUFSIZE });
    let small = RevLogIter::new(100).step();
    assert_eq!(small, RevLogStep::Read { start: 0, len: 100 });
    assert_eq!(NL, b'\n');
}

#[test]
fn tail_defaults_to_ten_newest_lines() {
    let mut text = String::new();
    for i in 0..25 {
        text.push_str(&format!("entry {}\n", i));
    }
    let req = LogsRequest { take: None, skip: None, pattern: None };
    let got = tail(text.as_bytes(), &req);
    let want: Vec<String> = (15..25).rev().map(|i| format!("entry {}", i)).collect();
    assert_eq!(got, want);
}

#[test]
fn tail_filters_skips_and_takes() {
    let text = "error a\ninfo b\nerror c\nerror d\ninfo e\nerror f\n";
    let req = LogsRequest { take: Some(2), skip: Some(1), pattern: Some("error".to_string()) };
    assert_eq!(tail(text.as_bytes(), &req), vec!["error d".to_string(), "error c".to_string()]);
    let none = LogsRequest { take: Some(0), skip: None, pattern: None };
    assert!(tail(text.as_bytes(), &none).is_empty());
    let past = LogsRequest { take: Some(5), skip: Some(10), pattern: None };
    assert!(tail(text.as_bytes(), &past).is_empty());
}

#[test]
fn tail_stops_at_a_line_that_is_not_text() {
    let mut file = b"good one\n".to_vec();
    file.extend_from_slice(&[0xff, 0xfe, b'\n']);
    file.extend_from_slice(b"newest\n");
    let req = LogsRequest { take: Some(5), skip: None, pattern: None };
    assert_eq!(tail(&file, &req), vec!["newest".to_string()]);
}

#[test]
fn reader_keeps_answering_finished() {
    let file = b"a\nb\nc\n";
    let mut it = RevLogIter::new(file.len() as u64);
    assert_eq!(it.step(), RevLogStep::Read { start: 0, len: 6 });
    it.supply(file.to_vec());
    assert_eq!(it.step(), RevLogStep::Line(b"c".to_vec()));
    assert_eq!(it.step(), RevLogStep::Line(b"b".to_vec()));
    assert_eq!(it.step(), RevLogStep::Line(b"a".to_vec()));
    assert_eq!(it.step(), RevLogStep::Finished);
    assert_eq!(it.step(), RevLogStep::Finished);
    assert_eq!(it.pos(), 0);
}

#[test]
fn empty_file_is_finished_at_once() {
    let mut it = RevLogIter::new(0);
    assert_eq!(it.step(), RevLogStep::Finished);
    assert_eq!(it.step(), RevLogStep::Finished);
}

#[test]
fn a_full_answer_reads_no_further() {
    let mut text = String::new();
    for i in 0..5000 {
        text.push_str(&format!("row {}\n", i));
    }
    let req = LogsRequest { take: Some(3), skip: Some(2), pattern: Some("7".to_string()) };
    let mut t = LogTail::new(text.len() as u64, &req);
    let mut reads = 0;
    let got = loop {
        match t.step() {
            TailStep::Read { start, len } => {
                reads += 1;
                let s = start as usize;
                t.supply(text.as_bytes()[s..s + len as usize].to_vec());
            }
            TailStep::Done(v) => break v,
        }
    };
    assert_eq!(reads, 1);
    assert_eq!(got, vec!["row 4979".to_string(), "row 4978".to_string(), "row 4977".to_string()]);
    assert!(matches!(t.step(), TailStep::Done(_)));
}

#[test]
fn tail_filter_comes_before_skip() {
    let text = "a1\na2\nb\n";
    let req = LogsRequest { take: None, skip: Some(1), pattern: Some("a".to_string()) };
    assert_eq!(tail(text.as_bytes(), &req), vec!["a1".to_string()]);
}

#[test]
fn lines_kept_so_far_can_be_had() {
    let req = LogsRequest { take: None, skip: None, pattern: None };
    let mut t = LogTail::new(4, &req);
    assert!(t.selection().is_empty());
    assert_eq!(t.step(), TailStep::Read { start: 0, len: 4 });
    t.supply(b"a\nb\n".to_vec());
    assert_eq!(t.step(), TailStep::Done(vec!["b".to_string(), "a".to_string()]));
    assert_eq!(t.selection(), vec!["b".to_string(), "a".to_string()]);
}
