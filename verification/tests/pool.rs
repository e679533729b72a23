use image_uploader::pool::{Decision, Pool, MAX_IN_FLIGHT};

#[test]
fn the_limit_is_ten() {
    assert_eq!(MAX_IN_FLIGHT, 10);
}

#[test]
fn an_empty_run_is_done_at_once() {
    let mut pool = Pool::new(0);
    assert!(pool.is_done());
    assert_eq!(pool.poll(), Decision::Done);
    assert_eq!(pool.running(), 0);
    assert!(!pool.complete());
}

#[test]
fn starts_images_in_order() {
    let mut pool = Pool::new(3);
    assert!(!pool.is_done());
    assert_eq!(pool.poll(), Decision::Start(0));
    assert_eq!(pool.poll(), Decision::Start(1));
    assert_eq!(pool.poll(), Decision::Start(2));
    assert_eq!(pool.running(), 3);
    assert_eq!(pool.poll(), Decision::Wait);
    assert_eq!(pool.poll(), Decision::Wait);
    assert_eq!(pool.running(), 3);
}

#[test]
fn is_done_when_all_have_ended() {
    let mut pool = Pool::new(2);
    assert_eq!(pool.poll(), Decision::Start(0));
    assert_eq!(pool.poll(), Decision::Start(1));
    assert!(pool.complete());
    assert!(!pool.is_done());
    assert_eq!(pool.poll(), Decision::Wait);
    assert!(pool.complete());
    assert!(pool.is_done());
    assert_eq!(pool.poll(), Decision::Done);
    assert_eq!(pool.poll(), Decision::Done);
}

#[test]
fn admits_ten_and_no_more() {
    let mut pool = Pool::new(25);
    for position in 0..10 {
        assert_eq!(pool.poll(), Decision::Start(position));
    }
    assert_eq!(pool.running(), 10);
    assert_eq!(pool.poll(), Decision::Wait);
    assert_eq!(pool.running(), 10);
}

#[test]
fn a_freed_slot_is_taken_by_the_next_image() {
    let mut pool = Pool::new(12);
    for _ in 0..10 {
        pool.poll();
    }
    assert_eq!(pool.poll(), Decision::Wait);
    assert!(pool.complete());
    assert_eq!(pool.running(), 9);
    assert_eq!(pool.poll(), Decision::Start(10));
    assert_eq!(pool.poll(), Decision::Wait);
    assert!(pool.complete());
    assert!(pool.complete());
    assert_eq!(pool.poll(), Decision::Start(11));
    assert_eq!(pool.running(), 9);
    assert_eq!(pool.poll(), Decision::Wait);
}

#[test]
fn completing_with_none_in_flight_changes_nothing() {
    let mut pool = Pool::new(1);
    assert!(!pool.complete());
    assert_eq!(pool.running(), 0);
    assert_eq!(pool.poll(), Decision::Start(0));
    assert!(pool.complete());
    assert!(!pool.complete());
    assert!(pool.is_done());
    assert_eq!(pool.running(), 0);
}

#[test]
fn fifty_images_never_pass_the_limit() {
    let mut pool = Pool::new(50);
    let mut started = Vec::new();
    let mut ended = 0;
    let mut most = 0;
    let mut turn = 0usize;
    loop {
        match pool.poll() {
            Decision::Start(position) => started.push(position),
            Decision::Wait => {
                turn += 1;
                let ending = 1 + (turn * 7) % 4;
                for _ in 0..ending {
                    if pool.complete() {
                        ended += 1;
                    }
                }
            }
            Decision::Done => break,
        }
        assert!(pool.running() <= MAX_IN_FLIGHT);
        assert_eq!(pool.running(), started.len() - ended);
        most = most.max(pool.running());
    }
    assert_eq!(most, 10);
    assert_eq!(ended, 50);
    assert_eq!(started, (0..50).collect::<Vec<usize>>());
    assert!(pool.is_done());
}
