use rhtar::error::HeaderError;
use rhtar::stream::{read_u64, read_u8, write_u64, write_u8, Stream, DEFAULT_BUFFER_SIZE};

#[test]
fn u8_and_u64_round_trip() {
    let mut out: Vec<u8> = Vec::new();
    write_u8(&mut out, 0xab);
    write_u64(&mut out, 0x0102030405060708);
    write_u64(&mut out, u64::MAX);
    write_u64(&mut out, 0);
    assert_eq!(&out[..9], &[0xab, 1, 2, 3, 4, 5, 6, 7, 8]);
    let mut stream = Stream::new(out);
    assert_eq!(read_u8(&mut stream), Ok(0xab));
    assert_eq!(read_u64(&mut stream), Ok(0x0102030405060708));
    assert_eq!(read_u64(&mut stream), Ok(u64::MAX));
    assert_eq!(read_u64(&mut stream), Ok(0));
    assert_eq!(stream.stream_position(), 25);
    assert_eq!(read_u8(&mut stream), Err(HeaderError::ShortRead));
    assert_eq!(read_u64(&mut stream), Err(HeaderError::ShortRead));
    assert_eq!(stream.stream_position(), 25);
    assert_eq!(DEFAULT_BUFFER_SIZE, 4096);
}

#[test]
fn reads_stop_at_the_end() {
    let mut stream = Stream::new((0..600).map(|i| (i % 251) as u8).collect());
    assert_eq!(stream.len(), 600);
    assert_eq!(stream.available(), 600);
    let (block, count) = stream.read();
    assert_eq!(count, 512);
    assert_eq!(block[511], (511 % 251) as u8);
    let (block, count) = stream.read();
    assert_eq!(count, 88);
    assert_eq!(block[0], (512 % 251) as u8);
    assert!(block[88..].iter().all(|b| *b == 0));
    let (_, count) = stream.read();
    assert_eq!(count, 0);
    stream.seek(100);
    assert_eq!(stream.read_block().err(), Some(HeaderError::ShortRead));
    assert_eq!(stream.pos, 100);
    assert_eq!(stream.read_bytes(500).unwrap().len(), 500);
    assert_eq!(stream.read_bytes(1).err(), Some(HeaderError::ShortRead));
    stream.seek(5000);
    assert_eq!(stream.available(), 0);
    assert_eq!(stream.read_bytes(0), Ok(Vec::new()));
}

#[test]
fn padded_reads_take_whole_blocks() {
    let mut stream = Stream::new(vec![5u8; 1024]);
    assert_eq!(stream.read_padded(513).unwrap().len(), 513);
    assert_eq!(stream.pos, 1024);
    let mut stream = Stream::new(vec![5u8; 1023]);
    assert_eq!(stream.read_padded(513).err(), Some(HeaderError::ShortRead));
    assert_eq!(stream.pos, 0);
    assert_eq!(stream.read_padded(512).unwrap().len(), 512);
    assert_eq!(stream.pos, 512);
    assert_eq!(stream.read_padded(0), Ok(Vec::new()));
    assert_eq!(stream.pos, 512);
    assert_eq!(stream.read_padded(u64::MAX).err(), Some(HeaderError::ShortRead));
}

#[test]
fn writes_replace_extend_and_fill() {
    let mut stream = Stream::new(vec![1, 2, 3, 4, 5]);
    stream.seek(1);
    stream.write_all(&[9, 9]);
    assert_eq!(stream.data, vec![1, 9, 9, 4, 5]);
    assert_eq!(stream.pos, 3);
    stream.write_all(&[7, 7, 7]);
    assert_eq!(stream.data, vec![1, 9, 9, 7, 7, 7]);
    stream.seek(8);
    stream.write_all(&[6]);
    assert_eq!(stream.data, vec![1, 9, 9, 7, 7, 7, 0, 0, 6]);
    assert_eq!(stream.pos, 9);
}
