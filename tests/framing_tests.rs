use remote_cmd::framing::LineBuffer;

#[test]
fn records_split_across_reads() {
    let mut b = LineBuffer::new();
    assert!(b.push(b"ab").is_empty());
    let lines = b.push(b"c\nde\n\nf");
    assert_eq!(lines, vec![b"abc".to_vec(), b"de".to_vec(), Vec::new()]);
    let lines = b.push(b"g\n");
    assert_eq!(lines, vec![b"fg".to_vec()]);
    assert_eq!(b.finish(), None);
}

#[test]
fn unterminated_tail_is_a_last_record() {
    let mut b = LineBuffer::new();
    assert_eq!(b.push(b"one\ntwo"), vec![b"one".to_vec()]);
    assert_eq!(b.finish(), Some(b"two".to_vec()));
}

#[test]
fn empty_stream() {
    let mut b = LineBuffer::new();
    assert!(b.push(b"").is_empty());
    assert_eq!(b.finish(), None);
}
