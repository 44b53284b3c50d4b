use rwmem::codec::{encode_read_frame, encode_write_frame, finish_read, finish_write};
use rwmem::errors::Error;

#[test]
fn read_frame_layout() {
    let frame = encode_read_frame(0x1234, 0x12345678, 32);
    assert_eq!(frame.len(), 32);
    assert_eq!(&frame[0..8], &(0x1234i64).to_le_bytes());
    assert_eq!(&frame[8..16], &0x12345678u64.to_le_bytes());
    assert_eq!(frame[16], 0);
    assert!(frame[17..].iter().all(|&b| b == 0));
}

#[test]
fn read_frame_shorter_than_header() {
    let frame = encode_read_frame(1, 0x1000, 4);
    assert_eq!(frame.len(), 17);
}

#[test]
fn read_frame_negative_pid() {
    let frame = encode_read_frame(-2, 0, 17);
    assert_eq!(&frame[0..8], &(-2i64).to_le_bytes());
}

#[test]
fn write_frame_layout() {
    let data = vec![0xcc, 0xcc, 0xaa, 0x55];
    let frame = encode_write_frame(0x77, 0xdeadbeef, &data);
    assert_eq!(frame.len(), 21);
    assert_eq!(&frame[0..8], &(0x77i64).to_le_bytes());
    assert_eq!(&frame[8..16], &0xdeadbeefu64.to_le_bytes());
    assert_eq!(frame[16], 1);
    assert_eq!(&frame[17..], &data[..]);
}

#[test]
fn short_read_reports_both_counts() {
    let frame = vec![0u8; 17];
    let r = finish_read(8, Ok(5), frame);
    assert_eq!(r, Err(Error::ReadFailed(8, 5)));
}

#[test]
fn failed_read_carries_errno() {
    let frame = vec![0u8; 17];
    let r = finish_read(8, Err(9), frame);
    assert_eq!(r, Err(Error::Errno(9)));
}

#[test]
fn full_read_returns_prefix() {
    let frame = vec![7u8, 8, 9, 0, 0, 0, 0, 0, 0, 0, 0, 0, 0, 0, 0, 0, 0];
    let r = finish_read(3, Ok(3), frame);
    assert_eq!(r, Ok(vec![7u8, 8, 9]));
}

#[test]
fn short_write_reports_both_counts() {
    assert_eq!(finish_write(4, Ok(2)), Err(Error::WriteFailed(4, 2)));
    assert_eq!(finish_write(4, Err(5)), Err(Error::Errno(5)));
    assert_eq!(finish_write(4, Ok(4)), Ok(()));
}

/// A driver simulated as a flat byte store: what a write frames is stored,
/// and a later read of the same length hands the stored bytes back.
#[test]
fn write_then_read_round_trip() {
    let mut memory = vec![0u8; 0x100];
    let pid = 42;
    let addr = 0x20u64;
    let data = vec![0xde, 0xad, 0xbe, 0xef, 0x01];

    let frame = encode_write_frame(pid, addr, &data);
    let payload = &frame[17..];
    memory[addr as usize..addr as usize + payload.len()].copy_from_slice(payload);

    let mut response = encode_read_frame(pid, addr, data.len());
    let stored = &memory[addr as usize..addr as usize + data.len()];
    response[..data.len()].copy_from_slice(stored);
    let r = finish_read(data.len(), Ok(data.len()), response);
    assert_eq!(r, Ok(data));
}

/// A short transfer from the simulated driver is an error, never a partial
/// result.
#[test]
fn simulated_short_transfer_is_an_error() {
    let pid = 42;
    let addr = 0x20u64;
    let frame = encode_read_frame(pid, addr, 100);
    let r = finish_read(100, Ok(60), frame);
    assert_eq!(r, Err(Error::ReadFailed(100, 60)));

    let data = vec![1u8, 2, 3, 4];
    let _ = encode_write_frame(pid, addr, &data);
    assert_eq!(finish_write(data.len(), Ok(3)), Err(Error::WriteFailed(4, 3)));
}
