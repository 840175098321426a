use rtinstrument::{init, move_out, recv, send, server, thread_ring, Request, RingTask};

#[test]
fn init_gives_an_empty_pipe() {
    let mut p = init();
    assert_eq!(recv(&mut p), None);
}

#[test]
fn recv_takes_the_newest_token() {
    let mut p = init();
    send(&mut p, 1);
    send(&mut p, 2);
    send(&mut p, 3);
    assert_eq!(recv(&mut p), Some(3));
    assert_eq!(recv(&mut p), Some(2));
    send(&mut p, 9);
    assert_eq!(recv(&mut p), Some(9));
    assert_eq!(recv(&mut p), Some(1));
    assert_eq!(recv(&mut p), None);
    assert_eq!(recv(&mut p), None);
}

#[test]
fn move_out_takes_any_value() {
    move_out(5usize);
    move_out(String::from("gone"));
    move_out(init());
}

#[test]
fn thread_ring_with_no_rounds_is_done_at_once() {
    let mut task = RingTask::new(3, 0);
    let mut chan = init();
    let mut port = init();
    send(&mut port, 77);
    assert!(thread_ring(&mut task, &mut chan, &mut port));
    assert_eq!(task.round, 0);
    assert!(!task.waiting);
    assert_eq!(recv(&mut chan), None);
    assert_eq!(recv(&mut port), Some(77));
}

#[test]
fn thread_ring_waits_on_an_empty_port() {
    let mut task = RingTask::new(3, 2);
    let mut chan = init();
    let mut port = init();
    assert!(!thread_ring(&mut task, &mut chan, &mut port));
    assert_eq!(task.round, 0);
    assert!(task.waiting);
    // the token of round 0 is sent once, not again on the next call
    assert!(!thread_ring(&mut task, &mut chan, &mut port));
    assert_eq!(recv(&mut chan), Some(0));
    assert_eq!(recv(&mut chan), None);
}

#[test]
fn thread_ring_takes_up_where_it_stopped() {
    let mut task = RingTask::new(3, 3);
    let mut chan = init();
    let mut port = init();
    assert!(!thread_ring(&mut task, &mut chan, &mut port));
    send(&mut port, 10);
    assert!(!thread_ring(&mut task, &mut chan, &mut port));
    assert_eq!(task.round, 1);
    assert!(task.waiting);
    send(&mut port, 11);
    send(&mut port, 12);
    send(&mut port, 13);
    assert!(thread_ring(&mut task, &mut chan, &mut port));
    assert_eq!(task.round, 3);
    assert!(!task.waiting);
    // one token is left in the port: the oldest of the three
    assert_eq!(recv(&mut port), Some(11));
    assert_eq!(recv(&mut port), None);
    // tokens sent: 3 * 0, 3 * 1, 3 * 2, newest on top
    assert_eq!(recv(&mut chan), Some(6));
    assert_eq!(recv(&mut chan), Some(3));
    assert_eq!(recv(&mut chan), Some(0));
    assert_eq!(recv(&mut chan), None);
}

#[test]
fn thread_ring_token_wraps() {
    let mut task = RingTask::new(usize::MAX, 3);
    let mut chan = init();
    let mut port = init();
    send(&mut port, 0);
    send(&mut port, 0);
    send(&mut port, 0);
    assert!(thread_ring(&mut task, &mut chan, &mut port));
    assert_eq!(recv(&mut chan), Some(usize::MAX.wrapping_mul(2)));
    assert_eq!(recv(&mut chan), Some(usize::MAX));
    assert_eq!(recv(&mut chan), Some(0));
}

#[test]
fn server_counts_and_answers() {
    let requests = vec![
        Request::Bytes(100),
        Request::GetCount,
        Request::Bytes(50),
        Request::Stop,
        Request::Bytes(1),
        Request::GetCount,
    ];
    let mut responses = vec![5];
    server(&requests, &mut responses);
    assert_eq!(responses, vec![5, 100, 151, 151]);
}

#[test]
fn server_with_no_request_sends_zero() {
    let mut responses = Vec::new();
    server(&Vec::new(), &mut responses);
    assert_eq!(responses, vec![0]);
}

#[test]
fn server_count_wraps() {
    let requests = vec![Request::Bytes(usize::MAX), Request::Bytes(3), Request::GetCount];
    let mut responses = Vec::new();
    server(&requests, &mut responses);
    assert_eq!(responses, vec![2, 2]);
}

#[test]
fn server_counts_what_the_workers_send() {
    // 4 workers send 10000 / 4 reports of 100 bytes each
    let size = 10000usize;
    let workers = 4usize;
    let mut requests = Vec::new();
    for _ in 0..workers {
        for _ in 0..size / workers {
            requests.push(Request::Bytes(100));
        }
    }
    requests.push(Request::Stop);
    let mut responses = Vec::new();
    server(&requests, &mut responses);
    assert_eq!(responses, vec![100 * size]);
}
