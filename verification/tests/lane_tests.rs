//! Message-lane behaviour: nonce ordering, reward settlement, confirmation.

use bridge_engine::errors::OrderingError;
use bridge_engine::lane::Lane;

#[test]
fn generate_message_assigns_sequential_nonces() {
    let mut lane = Lane::new();
    assert_eq!(lane.generate_message(&b"first".to_vec()), 1);
    assert_eq!(lane.generate_message(&b"second".to_vec()), 2);
    assert_eq!(lane.generate_message(&b"third".to_vec()), 3);
    assert_eq!(lane.outbound.latest_generated_nonce, 3);
    assert_eq!(lane.outbound.latest_received_nonce, 0);
}

#[test]
fn deliver_enforces_nonce_contiguity() {
    // Fresh lane: deliver nonces one to three, then five to six must be
    // rejected as a gap; four to six is the correct continuation.
    let mut lane = Lane::new();
    assert_eq!(lane.deliver(1, 3, 7), Ok(()));
    assert_eq!(lane.inbound.latest_received_nonce, 3);

    assert_eq!(lane.deliver(5, 6, 7), Err(OrderingError::NonceGap));
    assert_eq!(lane.inbound.latest_received_nonce, 3);
    assert_eq!(lane.inbound.relayers.len(), 1);

    assert_eq!(lane.deliver(4, 6, 8), Ok(()));
    assert_eq!(lane.inbound.latest_received_nonce, 6);
    assert_eq!(lane.inbound.relayers.len(), 2);
}

#[test]
fn deliver_rejects_empty_and_repeated_ranges() {
    let mut lane = Lane::new();
    assert_eq!(lane.deliver(1, 0, 7), Err(OrderingError::NonceGap));
    assert_eq!(lane.deliver(0, 3, 7), Err(OrderingError::NonceGap));
    assert_eq!(lane.deliver(1, 2, 7), Ok(()));
    assert_eq!(lane.deliver(1, 2, 7), Err(OrderingError::NonceGap));
    assert_eq!(lane.inbound.latest_received_nonce, 2);
}

#[test]
fn confirm_delivery_settles_covered_relayers_in_order() {
    // Three relayers delivered 1..=2, 3..=3 and 4..=6; confirming up to
    // three settles the first two, in delivery order, with their message
    // counts, and leaves the third.
    let mut lane = Lane::new();
    lane.deliver(1, 2, 11).expect("first delivery");
    lane.deliver(3, 3, 12).expect("second delivery");
    lane.deliver(4, 6, 13).expect("third delivery");

    let settled = lane.confirm_delivery(3).expect("confirmation advances");
    assert_eq!(settled, vec![(11, 2), (12, 1)]);
    assert_eq!(lane.outbound.latest_received_nonce, 3);
    assert_eq!(lane.inbound.relayers.len(), 1);
    assert_eq!(lane.inbound.relayers[0].relayer, 13);
    assert_eq!(lane.inbound.relayers[0].begin, 4);
    assert_eq!(lane.inbound.relayers[0].end, 6);

    let rest = lane.confirm_delivery(6).expect("confirmation advances");
    assert_eq!(rest, vec![(13, 3)]);
    assert_eq!(lane.inbound.relayers.len(), 0);
}

#[test]
fn confirm_delivery_rejects_stale_confirmation() {
    let mut lane = Lane::new();
    lane.deliver(1, 4, 11).expect("delivery");
    lane.confirm_delivery(4).expect("confirmation advances");
    assert_eq!(lane.confirm_delivery(4), Err(OrderingError::AlreadyConfirmed));
    assert_eq!(lane.confirm_delivery(2), Err(OrderingError::AlreadyConfirmed));
    assert_eq!(lane.outbound.latest_received_nonce, 4);
}

#[test]
fn confirm_delivery_does_not_settle_uncovered_entries() {
    // An entry whose range ends past the confirmed nonce stays queued even
    // when the confirmation cuts into its range.
    let mut lane = Lane::new();
    lane.deliver(1, 5, 21).expect("delivery");
    let settled = lane.confirm_delivery(3).expect("confirmation advances");
    assert_eq!(settled, vec![]);
    assert_eq!(lane.inbound.relayers.len(), 1);
    assert_eq!(lane.outbound.latest_received_nonce, 3);
}
