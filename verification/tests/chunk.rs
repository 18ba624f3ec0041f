use portos_kernel::chunk::{
    copy_from_chunks, copy_into_chunks, finish, read_chunk, write_chunk, ByteCursor, ChunkError,
    ChunkReader, CHUNK_MAX, CHUNK_SIZE,
};

#[test]
fn roundtrip_and_terminator() {
    let payload = vec![7u8; 3 * CHUNK_SIZE + 123];
    let mut wire = Vec::new();
    copy_into_chunks(&mut ByteCursor::new(payload.clone()), &mut wire).unwrap();
    let mut out = Vec::new();
    let n = copy_from_chunks(&mut ByteCursor::new(wire), &mut out).unwrap();
    assert_eq!(n, payload.len() as u64);
    assert_eq!(out, payload);
}

#[test]
fn chunk_reader_streams_without_buffering_all() {
    let payload: Vec<u8> = (0..100_000u32).flat_map(|i| i.to_le_bytes()).collect();
    let mut wire = Vec::new();
    copy_into_chunks(&mut ByteCursor::new(payload.clone()), &mut wire).unwrap();
    let mut rd = ChunkReader::new(ByteCursor::new(wire));
    let mut out = Vec::new();
    loop {
        let piece = rd.read(8192).unwrap();
        if piece.is_empty() {
            break;
        }
        out.extend_from_slice(&piece);
    }
    assert_eq!(out, payload);
}

#[test]
fn rejects_oversize_chunk() {
    let mut wire = Vec::new();
    wire.extend_from_slice(&(CHUNK_MAX + 1).to_le_bytes());
    assert!(matches!(
        read_chunk(&mut ByteCursor::new(wire)),
        Err(ChunkError::TooLarge(_))
    ));
}

#[test]
fn a_chunk_is_its_length_and_its_bytes() {
    let mut wire = Vec::new();
    write_chunk(&mut wire, b"abc").unwrap();
    finish(&mut wire).unwrap();
    assert_eq!(wire, vec![3, 0, 0, 0, b'a', b'b', b'c', 0, 0, 0, 0]);
    let mut r = ByteCursor::new(wire);
    assert_eq!(read_chunk(&mut r), Ok(Some(b"abc".to_vec())));
    assert_eq!(read_chunk(&mut r), Ok(None));
    assert_eq!(read_chunk(&mut r), Err(ChunkError::Io));
}

#[test]
fn an_oversize_write_is_refused_and_writes_nothing() {
    let mut wire = Vec::new();
    let big = vec![0u8; CHUNK_MAX as usize + 1];
    assert_eq!(
        write_chunk(&mut wire, &big),
        Err(ChunkError::TooLarge(CHUNK_MAX + 1))
    );
    assert!(wire.is_empty());
    assert_eq!(ChunkError::TooLarge(5).message(), "chunk too large: 5");
}

#[test]
fn a_broken_stream_delivers_what_came_before() {
    let mut wire = Vec::new();
    write_chunk(&mut wire, b"first").unwrap();
    wire.extend_from_slice(&[9, 0, 0, 0, 1]);
    let mut out = Vec::new();
    assert_eq!(
        copy_from_chunks(&mut ByteCursor::new(wire), &mut out),
        Err(ChunkError::Io)
    );
    assert_eq!(out, b"first");
}

#[test]
fn drain_reads_to_the_end_and_keeps_what_is_buffered() {
    let mut wire = Vec::new();
    write_chunk(&mut wire, b"abcdef").unwrap();
    write_chunk(&mut wire, b"ghi").unwrap();
    finish(&mut wire).unwrap();
    let mut rd = ChunkReader::new(ByteCursor::new(wire));
    assert_eq!(rd.read(2).unwrap(), b"ab");
    rd.drain().unwrap();
    assert_eq!(rd.read(100).unwrap(), b"cdef");
    assert!(rd.read(100).unwrap().is_empty());
    let mut broken = ChunkReader::new(ByteCursor::new(vec![1, 0]));
    assert_eq!(broken.drain(), Err(ChunkError::Io));
}

#[test]
fn a_length_that_is_too_large_is_all_that_is_read() {
    let mut wire = (CHUNK_MAX + 1).to_le_bytes().to_vec();
    wire.extend_from_slice(b"rest");
    let mut r = ByteCursor::new(wire);
    assert_eq!(read_chunk(&mut r), Err(ChunkError::TooLarge(CHUNK_MAX + 1)));
    assert_eq!(r.read_up_to(100), b"rest");
    let mut r = ByteCursor::new(vec![9, 0, 0, 0, 1, 2]);
    assert_eq!(read_chunk(&mut r), Err(ChunkError::Io));
    assert!(r.read_up_to(100).is_empty());
}

#[test]
fn a_drain_leaves_what_follows_the_stream() {
    let mut wire = Vec::new();
    write_chunk(&mut wire, b"abcdef").unwrap();
    write_chunk(&mut wire, b"ghi").unwrap();
    finish(&mut wire).unwrap();
    wire.extend_from_slice(b"next");
    for reads in 0..6 {
        let mut rd = ChunkReader::new(ByteCursor::new(wire.clone()));
        for _ in 0..reads {
            rd.read(4).unwrap();
        }
        rd.drain().unwrap();
        rd.drain().unwrap();
        assert_eq!(rd.into_inner().read_up_to(100), b"next");
    }
}

#[test]
fn a_stream_can_come_in_pieces() {
    let mut rd = ChunkReader::new(ByteCursor::new(vec![]));
    assert!(rd.wants_more());
    rd.feed(&[3, 0, 0, 0]);
    rd.feed(b"abc");
    assert!(!rd.wants_more());
    assert_eq!(rd.read(2).unwrap(), b"ab");
    assert_eq!(rd.read(2).unwrap(), b"c");
    assert!(rd.wants_more());
    rd.feed(&[0, 0, 0, 0, 7]);
    assert!(!rd.at_end());
    assert!(rd.read(2).unwrap().is_empty());
    assert!(rd.at_end() && !rd.wants_more());
    assert!(rd.read(2).unwrap().is_empty());
    assert_eq!(rd.into_inner().read_up_to(9), [7]);
}

#[test]
fn a_fault_leaves_what_follows_it() {
    let mut wire = Vec::new();
    write_chunk(&mut wire, b"abc").unwrap();
    wire.extend_from_slice(&u32::MAX.to_le_bytes());
    wire.extend_from_slice(b"tail");
    let mut rd = ChunkReader::new(ByteCursor::new(wire.clone()));
    assert_eq!(rd.drain(), Err(ChunkError::TooLarge(u32::MAX)));
    assert!(!rd.at_end());
    assert_eq!(rd.into_inner().read_up_to(100), b"tail");
    let mut r = ByteCursor::new(wire);
    let mut out = Vec::new();
    assert_eq!(copy_from_chunks(&mut r, &mut out), Err(ChunkError::TooLarge(u32::MAX)));
    assert_eq!((out, r.read_up_to(100)), (b"abc".to_vec(), b"tail".to_vec()));
}
