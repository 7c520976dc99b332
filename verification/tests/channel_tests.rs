use microsched::SendError;
use microsched::channel::{Channel, RecvOutcome};

#[test]
fn fifo_single_producer() {
    let mut ch: Channel<usize> = Channel::new(8);
    assert!(ch.try_send(10).is_ok());
    assert!(ch.try_send(20).is_ok());
    assert!(ch.try_send(30).is_ok());
    assert!(matches!(ch.receive(), RecvOutcome::Item(10)));
    assert!(matches!(ch.receive(), RecvOutcome::Item(20)));
    assert!(matches!(ch.receive(), RecvOutcome::Item(30)));
    assert!(matches!(ch.receive(), RecvOutcome::Suspend));
}

#[test]
fn sends_beyond_capacity_reject_the_rest() {
    let mut ch: Channel<usize> = Channel::new(2);
    assert_eq!(ch.try_send(1), Ok(()));
    assert_eq!(ch.try_send(2), Ok(()));
    assert_eq!(ch.try_send(3), Err(SendError::Full));
    assert_eq!(ch.try_send(4), Err(SendError::Full));
    assert_eq!(ch.len(), 2);
    assert!(matches!(ch.receive(), RecvOutcome::Item(1)));
    assert!(matches!(ch.receive(), RecvOutcome::Item(2)));
    assert!(matches!(ch.receive(), RecvOutcome::Suspend));
}

#[test]
fn thirty_three_rapid_sends_into_capacity_thirty_two() {
    let mut ch: Channel<usize> = Channel::new(32);
    for v in 0..32usize {
        assert_eq!(ch.try_send(v), Ok(()));
    }
    assert_eq!(ch.try_send(32), Err(SendError::Full));
    assert_eq!(ch.len(), 32);
    for v in 0..32usize {
        match ch.receive() {
            RecvOutcome::Item(got) => assert_eq!(got, v),
            _ => panic!("queued value {} was lost", v),
        }
    }
    assert!(matches!(ch.receive(), RecvOutcome::Suspend));
}

#[test]
fn empty_open_channel_suspends_receiver() {
    let mut ch: Channel<u8> = Channel::new(4);
    assert!(matches!(ch.receive(), RecvOutcome::Suspend));
    assert_eq!(ch.len(), 0);
}

#[test]
fn closed_channel_drains_then_reports_closed() {
    let mut ch: Channel<u8> = Channel::new(4);
    assert!(ch.try_send(7).is_ok());
    ch.close();
    assert!(matches!(ch.receive(), RecvOutcome::Item(7)));
    assert!(matches!(ch.receive(), RecvOutcome::Closed));
}

#[test]
fn capacity_is_fixed_at_construction() {
    let ch: Channel<u64> = Channel::new(5);
    assert_eq!(ch.capacity(), 5);
    let mut full: Channel<u64> = Channel::new(0);
    assert_eq!(full.try_send(1), Err(SendError::Full));
}
