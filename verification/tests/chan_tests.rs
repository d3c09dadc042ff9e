use eventgroup::chan::{mask_from_bytes, mask_to_bytes, Channel, EventBuffer};
use eventgroup::event::{Context, Event, EventError, Policy, ReadOutcome};

#[test]
fn mask_bytes_round_trip() {
    let m: u32 = 0x0102_a3f4;
    let bytes = mask_to_bytes(m);
    assert_eq!(bytes, vec![0xf4, 0xa3, 0x02, 0x01]);
    assert_eq!(mask_from_bytes(&bytes), m);
    assert_eq!(mask_from_bytes(&[0x78, 0x56, 0x34, 0x12]), 0x1234_5678);
}

#[test]
fn chan_write_sets_bits_from_buffer() {
    let mut e = Event::new();
    assert_eq!(e.chan_write(&[0b101, 0, 0, 0]), Ok(0));
    assert_eq!(e.size(), 2);
    assert_eq!(e.try_read(u32::MAX, Policy::WaitAny), Ok(Some(0b101)));
}

#[test]
fn chan_write_rejects_wrong_width() {
    let mut e = Event::new();
    assert_eq!(e.chan_write(&[1, 2, 3]), Err(EventError::InvalidMask));
    assert_eq!(e.chan_write(&[1, 2, 3, 4, 5]), Err(EventError::InvalidMask));
    assert_eq!(e.size(), 0);
}

#[test]
fn chan_write_reports_satisfied_waiters() {
    let mut e = Event::new();
    assert_eq!(e.read(Context::Task, 5, 0b1, Policy::WaitAny), Ok(ReadOutcome::Pending));
    assert_eq!(e.chan_write(&[0b1, 0, 0, 0]), Ok(1));
    assert_eq!(e.size(), 0);
}

#[test]
fn chan_read_consumes_all_bits_into_buffer() {
    let mut e = Event::new();
    e.write(0x0507);
    let mut buf: Vec<u8> = Vec::new();
    assert_eq!(e.chan_read(&mut buf), Ok(4));
    assert_eq!(buf, vec![0x07, 0x05, 0, 0]);
    assert_eq!(e.size(), 0);
}

#[test]
fn chan_read_would_block_on_empty_register() {
    let mut e = Event::new();
    let mut buf: Vec<u8> = vec![9];
    assert_eq!(e.chan_read(&mut buf), Err(EventError::WouldBlock));
    // nothing was touched
    assert_eq!(buf, vec![9]);
    assert_eq!(e.size(), 0);
}

#[test]
fn event_serves_the_uniform_channel_shape() {
    // drive the event purely through the trait, as a multiplexer would
    let mut e = Event::new();
    assert_eq!(Channel::size(&e), 0);
    let unit = mask_to_bytes(0b11);
    assert_eq!(Channel::write(&mut e, &unit), Ok(0));
    assert_eq!(Channel::size(&e), 2);
    let mut buf: Vec<u8> = Vec::new();
    assert_eq!(Channel::read(&mut e, &mut buf), Ok(4));
    assert_eq!(mask_from_bytes(&buf), 0b11);
    assert_eq!(Channel::size(&e), 0);
    assert_eq!(Channel::read(&mut e, &mut buf), Err(EventError::WouldBlock));
}

#[test]
fn u32_is_its_own_transfer_buffer() {
    let v: u32 = 0x0102_0304;
    assert_eq!(EventBuffer::len(&v), 4);
    assert_eq!(v.buf(), vec![0x04, 0x03, 0x02, 0x01]);

    // a u32 crosses the channel as one unit
    let mut e = Event::new();
    assert_eq!(e.chan_write(&v.buf()), Ok(0));
    assert_eq!(e.try_read(u32::MAX, Policy::WaitAny), Ok(Some(v)));
}
