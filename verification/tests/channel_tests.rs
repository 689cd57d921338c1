use divera_status::channel::{EventChannel, CHANNEL_CAPACITY};
use divera_status::types::Update;

#[test]
fn channel_delivers_in_fifo_order() {
    let mut ch = EventChannel::new();
    assert_eq!(ch.len(), 0);
    assert_eq!(ch.try_recv(), None);

    ch.try_send(Update::Reload).unwrap();
    ch.try_send(Update::StatusNext).unwrap();
    ch.try_send(Update::StatusPrev).unwrap();
    assert_eq!(ch.len(), 3);

    assert_eq!(ch.try_recv(), Some(Update::Reload));
    assert_eq!(ch.try_recv(), Some(Update::StatusNext));
    assert_eq!(ch.try_recv(), Some(Update::StatusPrev));
    assert_eq!(ch.try_recv(), None);
}

#[test]
fn full_channel_rejects_without_corruption() {
    let mut ch = EventChannel::new();
    for _ in 0..CHANNEL_CAPACITY {
        ch.try_send(Update::StatusNext).unwrap();
    }
    assert_eq!(ch.len(), CHANNEL_CAPACITY);

    // at capacity: rejected, nothing queued changes
    assert!(ch.try_send(Update::Reload).is_err());
    assert_eq!(ch.len(), CHANNEL_CAPACITY);

    // every accepted event comes out, in order, none replaced by the rejected one
    for _ in 0..CHANNEL_CAPACITY {
        assert_eq!(ch.try_recv(), Some(Update::StatusNext));
    }
    assert_eq!(ch.try_recv(), None);

    // after draining, sends are accepted again
    ch.try_send(Update::Reload).unwrap();
    assert_eq!(ch.try_recv(), Some(Update::Reload));
}
