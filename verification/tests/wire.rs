use coredns_rust::wire::{announced_len, frame, question_name_of, question_type_of, skip_name};

fn query(name: &[u8], qtype: u16) -> Vec<u8> {
    let mut q = vec![0x12, 0x34, 1, 0, 0, 1, 0, 0, 0, 0, 0, 0];
    q.extend_from_slice(name);
    q.extend_from_slice(&qtype.to_be_bytes());
    q.extend_from_slice(&[0, 1]);
    q
}

#[test]
fn the_name_of_a_question() {
    let q = query(b"\x03www\x07example\x03org\x00", 1);
    assert_eq!(question_name_of(&q), Some("www.example.org".to_string()));
    assert_eq!(question_type_of(&q), Some(1));
    assert_eq!(skip_name(&q), Some(29));
}

#[test]
fn the_name_of_the_root() {
    assert_eq!(question_name_of(&query(b"\x00", 2)), Some(".".to_string()));
    assert_eq!(question_name_of(&[0; 12]), Some(".".to_string()));
    assert_eq!(question_name_of(&[0; 11]), None);
}

#[test]
fn a_label_that_runs_over_the_end_is_left_out() {
    let mut q = query(b"\x01a\x3f", 1);
    assert_eq!(question_name_of(&q), Some("a".to_string()));
    assert_eq!(question_type_of(&q), None);
    assert_eq!(skip_name(&q), None);
    q.truncate(13);
    assert_eq!(question_name_of(&q), Some(".".to_string()));
}

#[test]
fn a_label_that_is_not_text_is_left_out() {
    let q = query(b"\x02\xff\xfe\x03\xc3\xa9x\x00", 1);
    assert_eq!(question_name_of(&q), Some("éx".to_string()));
}

#[test]
fn a_missing_type() {
    let mut q = query(b"\x01a\x00", 28);
    q.truncate(16);
    assert_eq!(question_type_of(&q), None);
}

#[test]
fn frames_announce_their_length() {
    let m = vec![7u8; 300];
    let f = frame(&m);
    assert_eq!(f[..2], [1, 44]);
    assert_eq!(&f[2..], &m[..]);
    assert_eq!(announced_len(f[0], f[1]), 300);
    assert_eq!(frame(&[]), vec![0, 0]);
    let long = frame(&vec![1u8; 65537]);
    assert_eq!(announced_len(long[0], long[1]), 1);
    assert_eq!(long.len(), 65539);
}
