use scow::server::{AcceptRetry, Backoff, Shutdown, MAX_CONNECTIONS};

#[test]
fn waits_double_until_the_ceiling_then_give_up() {
    let mut b = Backoff::new();
    let mut waits = Vec::new();
    loop {
        match b.on_accept_error() {
            AcceptRetry::Wait(secs) => waits.push(secs),
            AcceptRetry::GiveUp => break,
        }
    }
    assert_eq!(waits, vec![1, 2, 4, 8, 16, 32, 64]);
    assert_eq!(b.on_accept_error(), AcceptRetry::GiveUp);
}

#[test]
fn connection_limit_is_one_hundred() {
    assert_eq!(MAX_CONNECTIONS, 100);
}

#[test]
fn shutdown_flag() {
    let mut s = Shutdown::new();
    assert!(!s.is_shutdown());
    s.notify();
    assert!(s.is_shutdown());
}
