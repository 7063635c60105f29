use emberone_control::command::{Command, CommandInner, FamilyCommand};
use emberone_control::error::{CommandError, ControlTaskError, EndpointFault};
use emberone_control::reassembly::{ReadEvent, Reassembler, MIN_FRAME, REASSEMBLY_CAPACITY};
use emberone_control::response::encode_response;

#[derive(Debug, PartialEq, Eq, Clone)]
struct Raw(Vec<u8>);

impl FamilyCommand for Raw {
    fn from_bytes(payload: &[u8]) -> Result<Self, CommandError> {
        Ok(Raw(payload.to_vec()))
    }
}

type TestCommand = Command<Raw, Raw, Raw>;

fn frame(id: u8, bus: u8, tag: u8, payload: &[u8]) -> Vec<u8> {
    let total = 5 + payload.len();
    let mut bytes = vec![(total % 256) as u8, (total / 256) as u8, id, bus, tag];
    bytes.extend_from_slice(payload);
    bytes
}

fn led(id: i8, bus: u8, payload: &[u8]) -> TestCommand {
    Command { id, bus, inner: CommandInner::Led(Raw(payload.to_vec())) }
}

fn i2c(id: i8, bus: u8, payload: &[u8]) -> TestCommand {
    Command { id, bus, inner: CommandInner::I2c(Raw(payload.to_vec())) }
}

fn failure(err: CommandError) -> TestCommand {
    Command { id: -1, bus: 0, inner: CommandInner::Error(err) }
}

#[test]
fn sizes_are_fixed() {
    assert_eq!(REASSEMBLY_CAPACITY, 4098);
    assert_eq!(MIN_FRAME, 5);
    let r = Reassembler::new();
    assert_eq!(r.filled(), 0);
}

#[test]
fn led_frame_is_decoded_and_answered() {
    let mut r = Reassembler::new();
    let cmds: Vec<TestCommand> = r.feed(&[0x06, 0x00, 0x01, 0x03, 0x08, 0xaa]);
    assert_eq!(cmds, vec![led(1, 3, &[0xaa])]);
    assert_eq!(r.filled(), 0);
    let reply = encode_response(cmds[0].id, Ok(&[0x01]));
    assert_eq!(&reply[..], &[0x04, 0x00, 0x01, 0x01]);
}

#[test]
fn length_five_ends_the_frame_after_the_tag() {
    let mut r = Reassembler::new();
    let cmds: Vec<TestCommand> = r.feed(&[0x05, 0x00, 0x01, 0x03, 0x06, 0xaa]);
    assert_eq!(cmds, vec![Command { id: 1, bus: 3, inner: CommandInner::Gpio(Raw(vec![])) }]);
    assert_eq!(r.filled(), 1);
}

#[test]
fn one_byte_at_a_time() {
    let bytes = frame(0x21, 0x02, 0x05, &[1, 2, 3, 4, 5, 6, 7]);
    let mut r = Reassembler::new();
    let mut seen: Vec<TestCommand> = Vec::new();
    for (k, byte) in bytes.iter().enumerate() {
        let cmds: Vec<TestCommand> = r.feed(&[*byte]);
        if k + 1 < bytes.len() {
            assert!(cmds.is_empty());
            assert_eq!(r.filled(), k + 1);
        }
        seen.extend(cmds);
    }
    assert_eq!(seen, vec![i2c(0x21, 2, &[1, 2, 3, 4, 5, 6, 7])]);
    assert_eq!(r.filled(), 0);
}

#[test]
fn every_cut_in_two_gives_the_same_command() {
    let bytes = frame(0x07, 0x01, 0x08, &[9, 8, 7, 6]);
    for cut in 0..=bytes.len() {
        let mut r = Reassembler::new();
        let mut seen: Vec<TestCommand> = r.feed(&bytes[..cut]);
        seen.extend(r.feed::<Raw, Raw, Raw>(&bytes[cut..]));
        assert_eq!(seen, vec![led(7, 1, &[9, 8, 7, 6])]);
        assert_eq!(r.filled(), 0);
    }
}

#[test]
fn every_cut_in_three_gives_the_same_command() {
    let bytes = frame(0x07, 0x01, 0x05, &[9, 8]);
    for a in 0..=bytes.len() {
        for b in a..=bytes.len() {
            let mut r = Reassembler::new();
            let mut seen: Vec<TestCommand> = r.feed(&bytes[..a]);
            seen.extend(r.feed::<Raw, Raw, Raw>(&bytes[a..b]));
            seen.extend(r.feed::<Raw, Raw, Raw>(&bytes[b..]));
            assert_eq!(seen, vec![i2c(7, 1, &[9, 8])]);
        }
    }
}

#[test]
fn burst_gives_each_frame_in_order() {
    let mut burst = frame(1, 0, 0x05, &[0x11]);
    burst.extend(frame(2, 1, 0x08, &[]));
    burst.extend(frame(3, 2, 0x05, &[0x31, 0x32, 0x33]));
    let mut r = Reassembler::new();
    let cmds: Vec<TestCommand> = r.feed(&burst);
    assert_eq!(cmds, vec![i2c(1, 0, &[0x11]), led(2, 1, &[]), i2c(3, 2, &[0x31, 0x32, 0x33])]);
    assert_eq!(r.filled(), 0);
}

#[test]
fn burst_cut_anywhere_gives_each_frame_in_order() {
    let mut burst = frame(1, 0, 0x05, &[0x11]);
    burst.extend(frame(2, 1, 0x08, &[]));
    burst.extend(frame(3, 2, 0x05, &[0x31, 0x32, 0x33]));
    for cut in 0..=burst.len() {
        let mut r = Reassembler::new();
        let mut seen: Vec<TestCommand> = r.feed(&burst[..cut]);
        seen.extend(r.feed::<Raw, Raw, Raw>(&burst[cut..]));
        assert_eq!(
            seen,
            vec![i2c(1, 0, &[0x11]), led(2, 1, &[]), i2c(3, 2, &[0x31, 0x32, 0x33])]
        );
    }
}

#[test]
fn start_of_the_next_frame_is_kept() {
    let first = frame(1, 0, 0x05, &[0x11]);
    let second = frame(2, 0, 0x08, &[0x21, 0x22]);
    let mut read = first.clone();
    read.extend_from_slice(&second[..4]);
    let mut r = Reassembler::new();
    let cmds: Vec<TestCommand> = r.feed(&read);
    assert_eq!(cmds, vec![i2c(1, 0, &[0x11])]);
    assert_eq!(r.filled(), 4);
    let cmds: Vec<TestCommand> = r.feed(&second[4..]);
    assert_eq!(cmds, vec![led(2, 0, &[0x21, 0x22])]);
    assert_eq!(r.filled(), 0);
}

#[test]
fn timeout_abandons_the_partial_frame() {
    let mut r = Reassembler::new();
    let stale = frame(9, 9, 0x05, &[1, 2, 3, 4, 5, 6]);
    let cmds: Vec<TestCommand> = r.feed(&stale[..7]);
    assert!(cmds.is_empty());
    assert_eq!(r.filled(), 7);
    r.resynchronize();
    assert_eq!(r.filled(), 0);
    let cmds: Vec<TestCommand> = r.feed(&frame(4, 1, 0x08, &[0xaa, 0xbb]));
    assert_eq!(cmds, vec![led(4, 1, &[0xaa, 0xbb])]);
    assert_eq!(r.filled(), 0);
}

#[test]
fn without_timeout_the_partial_frame_swallows_what_follows() {
    let mut r = Reassembler::new();
    let stale = frame(9, 9, 0x05, &[1, 2, 3, 4, 5, 6]);
    let cmds: Vec<TestCommand> = r.feed(&stale[..7]);
    assert!(cmds.is_empty());
    let cmds: Vec<TestCommand> = r.feed(&frame(4, 1, 0x08, &[0xaa, 0xbb]));
    assert_eq!(cmds, vec![i2c(9, 9, &[1, 2, 0x07, 0x00, 0x04, 0x01])]);
    assert_eq!(r.filled(), 3);
}

#[test]
fn frame_at_the_capacity() {
    let payload: Vec<u8> = (0..4093u32).map(|n| (n % 251) as u8).collect();
    let bytes = frame(5, 1, 0x05, &payload);
    assert_eq!(bytes.len(), 4098);
    let mut r = Reassembler::new();
    let mut seen: Vec<TestCommand> = Vec::new();
    for chunk in bytes.chunks(64) {
        seen.extend(r.feed::<Raw, Raw, Raw>(chunk));
    }
    assert_eq!(seen, vec![i2c(5, 1, &payload)]);
    assert_eq!(r.filled(), 0);
}

#[test]
fn frame_over_the_capacity_is_overflow() {
    let mut r = Reassembler::new();
    let cmds: Vec<TestCommand> = r.feed(&[0x03, 0x10, 0x01, 0x00, 0x05, 0x01, 0x02]);
    assert_eq!(cmds, vec![failure(CommandError::BufferOverflow)]);
    assert_eq!(r.filled(), 0);
    let cmds: Vec<TestCommand> = r.feed(&frame(1, 0, 0x05, &[0x11]));
    assert_eq!(cmds, vec![i2c(1, 0, &[0x11])]);
}

#[test]
fn overflow_abandons_the_rest_of_the_read() {
    let mut read = frame(1, 0, 0x05, &[0x11]);
    read.extend_from_slice(&[0xff, 0xff, 0x01, 0x00, 0x05]);
    read.extend(frame(2, 0, 0x05, &[0x22]));
    let mut r = Reassembler::new();
    let cmds: Vec<TestCommand> = r.feed(&read);
    assert_eq!(cmds, vec![i2c(1, 0, &[0x11]), failure(CommandError::BufferOverflow)]);
    assert_eq!(r.filled(), 0);
}

#[test]
fn read_longer_than_the_buffer_is_taken_in_full() {
    let payload = [0x42u8; 1500];
    let mut burst = Vec::new();
    for id in 0..5u8 {
        burst.extend(frame(id, 0, 0x08, &payload));
    }
    assert!(burst.len() > REASSEMBLY_CAPACITY);
    let mut r = Reassembler::new();
    let cmds: Vec<TestCommand> = r.feed(&burst);
    let expected: Vec<TestCommand> = (0..5).map(|id| led(id, 0, &payload)).collect();
    assert_eq!(cmds, expected);
    assert_eq!(r.filled(), 0);
}

#[test]
fn declared_length_under_a_header_is_invalid() {
    let mut r = Reassembler::new();
    let cmds: Vec<TestCommand> = r.feed(&[0x04, 0x00, 0x01, 0x03, 0x06]);
    assert_eq!(cmds, vec![failure(CommandError::Invalid)]);
    assert_eq!(r.filled(), 1);
    r.resynchronize();
    let cmds: Vec<TestCommand> = r.feed(&[0x02, 0x00, 0x09, 0x09, 0x09]);
    assert_eq!(cmds, vec![failure(CommandError::Invalid)]);
    assert_eq!(r.filled(), 3);
}

#[test]
fn declared_length_under_the_length_field_takes_the_length_field() {
    let mut r = Reassembler::new();
    let mut read = vec![0x00, 0x00];
    read.extend(frame(3, 1, 0x05, &[0x33]));
    let cmds: Vec<TestCommand> = r.feed(&read);
    assert_eq!(cmds, vec![failure(CommandError::Invalid), i2c(3, 1, &[0x33])]);
    assert_eq!(r.filled(), 0);
    let mut read = vec![0x01, 0x00];
    read.extend(frame(4, 1, 0x05, &[0x44]));
    let cmds: Vec<TestCommand> = r.feed(&read);
    assert_eq!(cmds, vec![failure(CommandError::Invalid), i2c(4, 1, &[0x44])]);
}

#[test]
fn unknown_tag_is_invalid_and_the_stream_goes_on() {
    let mut read = frame(1, 3, 0xee, &[0xaa]);
    read.extend(frame(2, 0, 0x05, &[]));
    let mut r = Reassembler::new();
    let cmds: Vec<TestCommand> = r.feed(&read);
    assert_eq!(cmds, vec![failure(CommandError::Invalid), i2c(2, 0, &[])]);
}

#[test]
fn fewer_than_five_bytes_wait() {
    let mut r = Reassembler::new();
    let cmds: Vec<TestCommand> = r.feed(&[0x05, 0x00, 0x01, 0x03]);
    assert!(cmds.is_empty());
    assert_eq!(r.filled(), 4);
    assert_eq!(r.next_command::<Raw, Raw, Raw>(), None);
    assert!(!r.oversize());
}

#[test]
fn push_takes_what_fits() {
    let mut r = Reassembler::new();
    assert_eq!(r.push(&[0u8; 4000]), 4000);
    assert_eq!(r.filled(), 4000);
    assert_eq!(r.push(&[0u8; 200]), 98);
    assert_eq!(r.filled(), 4098);
    assert_eq!(r.push(&[1, 2, 3]), 0);
    assert_eq!(r.push(&[]), 0);
}

#[test]
fn next_command_cuts_one_frame_at_a_time() {
    let mut r = Reassembler::new();
    let mut burst = frame(1, 0, 0x05, &[0x11]);
    burst.extend(frame(2, 1, 0x08, &[0x21]));
    burst.extend_from_slice(&[0x09, 0x00]);
    assert_eq!(r.push(&burst), burst.len());
    assert_eq!(r.next_command::<Raw, Raw, Raw>(), Some(i2c(1, 0, &[0x11])));
    assert_eq!(r.filled(), 8);
    assert_eq!(r.next_command::<Raw, Raw, Raw>(), Some(led(2, 1, &[0x21])));
    assert_eq!(r.filled(), 2);
    assert_eq!(r.next_command::<Raw, Raw, Raw>(), None);
    assert_eq!(r.filled(), 2);
}

#[test]
fn oversize_is_seen_before_it_is_cut() {
    let mut r = Reassembler::new();
    assert_eq!(r.push(&[0x03, 0x10, 0, 0, 0]), 5);
    assert!(r.oversize());
    assert_eq!(
        r.next_command::<Raw, Raw, Raw>(),
        Some(failure(CommandError::BufferOverflow))
    );
    assert_eq!(r.filled(), 0);
    assert!(!r.oversize());
    assert_eq!(r.push(&[0x02, 0x10, 0, 0, 0]), 5);
    assert!(!r.oversize());
}

#[test]
fn read_events() {
    let mut r = Reassembler::new();
    let bytes = frame(1, 0, 0x05, &[0x11, 0x12]);
    let got: Result<Vec<TestCommand>, ControlTaskError> = r.handle(ReadEvent::Data(&bytes[..6]));
    assert_eq!(got, Ok(vec![]));
    assert_eq!(r.filled(), 6);
    let got: Result<Vec<TestCommand>, ControlTaskError> = r.handle(ReadEvent::TimedOut);
    assert_eq!(got, Ok(vec![]));
    assert_eq!(r.filled(), 0);
    let got: Result<Vec<TestCommand>, ControlTaskError> = r.handle(ReadEvent::Data(&bytes));
    assert_eq!(got, Ok(vec![i2c(1, 0, &[0x11, 0x12])]));
    let got: Result<Vec<TestCommand>, ControlTaskError> = r.handle(ReadEvent::Data(&bytes[..3]));
    assert_eq!(got, Ok(vec![]));
    let got: Result<Vec<TestCommand>, ControlTaskError> =
        r.handle(ReadEvent::Failed(EndpointFault::Disabled));
    assert_eq!(got, Err(ControlTaskError::Disconnected));
    assert_eq!(r.filled(), 3);
}

#[test]
fn disabled_endpoint_ends_the_session() {
    assert_eq!(
        ControlTaskError::from_fault(EndpointFault::Disabled),
        ControlTaskError::Disconnected
    );
}

#[test]
fn overflowing_packet_ends_the_session() {
    assert_eq!(
        ControlTaskError::from_fault(EndpointFault::BufferOverflow),
        ControlTaskError::Disconnected
    );
    let mut r = Reassembler::new();
    let bytes = frame(1, 0, 0x05, &[0x11, 0x12]);
    let got: Result<Vec<TestCommand>, ControlTaskError> = r.handle(ReadEvent::Data(&bytes[..4]));
    assert_eq!(got, Ok(vec![]));
    let got: Result<Vec<TestCommand>, ControlTaskError> =
        r.handle(ReadEvent::Failed(EndpointFault::BufferOverflow));
    assert_eq!(got, Err(ControlTaskError::Disconnected));
    assert_eq!(r.filled(), 4);
}
