use bolt_routing::framing::{read_chunked_message, write_chunked_message, write_message};

#[test]
fn single_chunk_has_length_body_and_end() {
    assert_eq!(
        write_chunked_message(&[0xb1, 0x70, 0xa0]),
        vec![0, 3, 0xb1, 0x70, 0xa0, 0, 0]
    );
    assert_eq!(write_chunked_message(&[]), vec![0, 0, 0, 0]);
}

#[test]
fn single_chunk_length_wraps() {
    let wire = write_chunked_message(&vec![7; 65537]);
    assert_eq!(&wire[..3], &[0, 1, 7]);
    assert_eq!(wire.len(), 2 + 65537 + 2);
}

#[test]
fn message_is_read_back_whatever_follows() {
    for len in [0, 1, 3, 255, 256, 65534, 65535, 65536, 131070, 131071] {
        let payload: Vec<u8> = (0..len).map(|i: usize| (i % 251) as u8).collect();
        let mut wire = write_message(&payload);
        let used = wire.len();
        wire.extend([9, 9, 9]);
        assert_eq!(read_chunked_message(&wire), Some((payload, used)));
    }
}

#[test]
fn cut_message_is_incomplete() {
    let wire = write_message(&[1, 2, 3]);
    for cut in 0..wire.len() {
        assert_eq!(read_chunked_message(&wire[..cut]), None);
    }
}

#[test]
fn chunks_of_one_message_are_joined() {
    let wire = [0, 2, 1, 2, 0, 1, 3, 0, 0, 0, 1, 4, 0, 0];
    assert_eq!(read_chunked_message(&wire), Some((vec![1, 2, 3], 9)));
    assert_eq!(read_chunked_message(&wire[9..]), Some((vec![4], 5)));
}

#[test]
fn one_chunk_is_framed_alike_both_ways() {
    assert_eq!(write_chunked_message(&[5, 6]), write_message(&[5, 6]));
}
