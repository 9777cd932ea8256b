use feramdisk_firmware::backend::simulated::{MockEndpoint, USB_PACKET_SIZE};
use feramdisk_firmware::usb::bot::{send_in_data, DataEndpoint, EndpointError};
use feramdisk_firmware::usb::packets::PacketCursor;

fn bounds(len: usize, expected: u32, expects_in: bool) -> Vec<(usize, usize)> {
    let mut cursor = PacketCursor::new(len, expected, expects_in);
    let mut bounds = Vec::new();
    while let Some(packet) = cursor.next_packet() {
        bounds.push(packet);
    }
    bounds
}

#[test]
fn data_is_cut_into_full_packets_and_a_rest() {
    assert_eq!(bounds(150, 150, true), vec![(0, 64), (64, 128), (128, 150)]);
    assert_eq!(bounds(128, 128, true), vec![(0, 64), (64, 128)]);
    assert_eq!(bounds(0, 100, true), vec![]);
    assert_eq!(bounds(150, 70, true), vec![(0, 64), (64, 70)]);
}

#[test]
fn empty_packet_ends_a_short_aligned_phase_only() {
    assert_eq!(bounds(64, 65, true), vec![(0, 64), (64, 64)]);
    assert_eq!(bounds(64, 64, true), vec![(0, 64)]);
    assert_eq!(bounds(63, 65, true), vec![(0, 63)]);
    assert_eq!(bounds(64, 65, false), vec![(0, 64)]);
    assert_eq!(PacketCursor::new(64, 65, true).len(), 64);
}

#[test]
fn sent_packets_carry_the_data() {
    let data: Vec<u8> = (0..200u8).collect();
    let mut in_ep = MockEndpoint::new();
    assert_eq!(send_in_data(&mut in_ep, &data, 500, true), Ok(200));
    let joined: Vec<u8> = in_ep.writes().iter().flatten().copied().collect();
    assert_eq!(joined, data);
    assert!(in_ep.writes().iter().all(|packet| packet.len() <= USB_PACKET_SIZE));
}

#[test]
fn sending_stops_at_an_error() {
    let mut in_ep = MockEndpoint::new();
    in_ep.set_fail_next_write(EndpointError::Disabled);
    assert_eq!(
        send_in_data(&mut in_ep, &[1, 2, 3], 3, true),
        Err(EndpointError::Disabled)
    );
    assert!(in_ep.writes().is_empty());
}

#[test]
fn mock_endpoint_plays_the_host() {
    let mut ep = MockEndpoint::new();
    ep.queue_read_packet(vec![1, 2, 3]);
    ep.queue_read_packet(vec![0; 70]);
    let mut buf = [9u8; 64];
    assert_eq!(ep.endpoint_read(&mut buf, 10), Ok(Some(3)));
    assert_eq!(buf[..4], [1, 2, 3, 9]);
    assert_eq!(
        ep.endpoint_read(&mut buf, 10),
        Err(EndpointError::BufferOverflow)
    );
    assert_eq!(ep.endpoint_read(&mut buf, 10), Ok(None));
    ep.set_fail_next_read(EndpointError::Disabled);
    assert_eq!(ep.endpoint_read(&mut buf, 10), Err(EndpointError::Disabled));
    let mut ep = ep.disabled_when_empty(true);
    assert_eq!(ep.endpoint_read(&mut buf, 10), Err(EndpointError::Disabled));
    assert_eq!(ep.endpoint_write(&[5]), Ok(()));
    assert_eq!(ep.take_writes(), vec![vec![5u8]]);
    assert!(ep.writes().is_empty());
}
