use rtftp::async_channel::{QueueError, SharedQueue};

#[test]
fn what_is_pushed_first_comes_out_first() {
    let arbitrary_values = vec![67, 78, 31];
    let mut queue = SharedQueue::<usize>::new();
    assert!(matches!(queue.pop_nowait(), Err(QueueError::NoData)));
    queue.push(arbitrary_values[0]);
    queue.push(arbitrary_values[1]);
    queue.register_waker(std::task::Waker::noop());
    queue.push(arbitrary_values[2]);
    assert_eq!(queue.pop_nowait().unwrap(), arbitrary_values[0]);
    assert_eq!(queue.pop_nowait().unwrap(), arbitrary_values[1]);
    assert_eq!(queue.pop_nowait().unwrap(), arbitrary_values[2]);
    assert!(queue.pop_nowait().is_err());
}
