use sonde::logger::{after_send, AppLogger, SendOutcome};
use std::collections::VecDeque;
use std::sync::mpsc::sync_channel;

#[test]
fn messages_wait_when_channel_is_full() {
    let (tx, rx) = sync_channel::<String>(1);
    let mut logger = AppLogger::new(tx);
    assert_eq!(logger.waiting_len(), 0);
    logger.log("a".to_string());
    assert_eq!(logger.waiting_len(), 0);
    logger.log("b".to_string());
    assert_eq!(logger.waiting_len(), 1);
    logger.log("c".to_string());
    assert_eq!(logger.waiting_len(), 2);
    assert_eq!(rx.recv().unwrap(), "a");
    logger.log("d".to_string());
    // "b" went out, "c" and "d" wait.
    assert_eq!(logger.waiting_len(), 2);
    assert_eq!(rx.recv().unwrap(), "b");
    logger.log("e".to_string());
    assert_eq!(rx.recv().unwrap(), "c");
    assert_eq!(logger.waiting_len(), 2);
    logger.log("f".to_string());
    assert_eq!(rx.recv().unwrap(), "d");
    logger.log("g".to_string());
    assert_eq!(rx.recv().unwrap(), "e");
    assert!(rx.try_recv().is_err());
}

#[test]
fn messages_are_dropped_when_receiver_is_gone() {
    let (tx, rx) = sync_channel::<String>(1);
    let mut logger = AppLogger::new(tx);
    logger.log("a".to_string());
    logger.log("b".to_string());
    assert_eq!(logger.waiting_len(), 1);
    drop(rx);
    logger.log("c".to_string());
    assert_eq!(logger.waiting_len(), 0);
}

#[test]
fn everything_goes_through_with_room() {
    let (tx, rx) = sync_channel::<String>(10);
    let mut logger = AppLogger::new(tx);
    for m in ["x", "y", "z"] {
        logger.log(m.to_string());
    }
    assert_eq!(logger.waiting_len(), 0);
    let got: Vec<String> = rx.try_iter().collect();
    assert_eq!(got, vec!["x", "y", "z"]);
}

#[test]
fn after_send_puts_refused_message_back_in_front() {
    let mut q: VecDeque<String> = VecDeque::new();
    q.push_back("later".to_string());
    assert!(!after_send(&mut q, SendOutcome::Full("first".to_string())));
    assert_eq!(q, VecDeque::from(vec!["first".to_string(), "later".to_string()]));
    assert!(after_send(&mut q, SendOutcome::Sent));
    assert!(after_send(&mut q, SendOutcome::Disconnected));
    assert_eq!(q.len(), 2);
}
