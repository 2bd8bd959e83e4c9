//! The broadcast ring.
use flashbook::event::{Event, EventKind};
use flashbook::ring::words::{to_event, to_words};
use flashbook::ring::{
    classify, lag_of, overrun, ring, settle, stores, subscribe_ring, Peek, Recv,
};

/// Event whose every field is derived from `s` — torn copies become
/// visible as broken relationships.
fn ev(s: u64) -> Event {
    Event {
        recv_mono_ns: s,
        recv_wall_ns: s.wrapping_mul(3),
        venue_ts_ns: s.wrapping_mul(5),
        venue_seq: s,
            price: s.wrapping_mul(7) as i64,
            qty: s.wrapping_mul(11) as i64,
        aux: s.wrapping_mul(13),
        instrument: 1,
        kind: EventKind::Trade.code(),
        venue: 1,
        flags: 0,
        rsvd: 0,
    }
}

fn check(e: &Event) {
    let s = e.recv_mono_ns;
    assert_eq!(e.recv_wall_ns, s.wrapping_mul(3), "torn read detected");
    assert_eq!(e.venue_ts_ns, s.wrapping_mul(5), "torn read detected");
    assert_eq!(e.venue_seq, s);
    assert_eq!(e.aux, s.wrapping_mul(13), "torn read detected");
}

#[test]
fn single_thread_fifo() {
    let mut p = ring(8);
    let mut c = p.subscribe();
    assert_eq!(c.try_next(), Recv::Empty);
    for i in 0..5 {
        p.publish(&ev(i));
    }
    for i in 0..5 {
        match c.try_next() {
            Recv::Event(e) => assert_eq!(e.recv_mono_ns, i),
            other => panic!("expected event {i}, got {other:?}"),
        }
    }
    assert_eq!(c.try_next(), Recv::Empty);
}

#[test]
fn capacity_rounds_to_power_of_two() {
    let p = ring(100);
    assert_eq!(p.capacity(), 128);
    let p = ring(0);
    assert_eq!(p.capacity(), 2);
}

#[test]
fn overrun_reports_loss_and_recovers() {
    let mut p = ring(4); // cap 4
    let mut c = p.subscribe();
    for i in 0..10 {
        p.publish(&ev(i));
    }
    // consumer expected seq 0; slots now hold 6..=9
    match c.try_next() {
        Recv::Lagged { lost } => assert_eq!(lost, 6, "seqs 0..6 overwritten"),
        other => panic!("expected lag, got {other:?}"),
    }
    // then reads 6..=9 in order
    for i in 6..10 {
        match c.try_next() {
            Recv::Event(e) => {
                check(&e);
                assert_eq!(e.recv_mono_ns, i);
            }
            other => panic!("expected event {i}, got {other:?}"),
        }
    }
    assert_eq!(c.try_next(), Recv::Empty);
    assert_eq!(c.lag(), 0);
}

#[test]
fn late_subscriber_sees_only_future() {
    let mut p = ring(8);
    for i in 0..5 {
        p.publish(&ev(i));
    }
    let mut c = p.subscribe();
    assert_eq!(c.try_next(), Recv::Empty);
    p.publish(&ev(100));
    match c.try_next() {
        Recv::Event(e) => assert_eq!(e.recv_mono_ns, 100),
        other => panic!("{other:?}"),
    }
}

#[test]
fn multi_consumer_independence() {
    let mut p = ring(16);
    let mut c1 = p.subscribe();
    let mut c2 = p.subscribe();
    for i in 0..8 {
        p.publish(&ev(i));
    }
    for i in 0..8 {
        assert!(matches!(c1.try_next(), Recv::Event(e) if e.recv_mono_ns == i));
    }
    // c2 unaffected by c1's progress
    for i in 0..8 {
        assert!(matches!(c2.try_next(), Recv::Event(e) if e.recv_mono_ns == i));
    }
}

#[test]
fn published_counts_and_cursors() {
    let mut p = ring(4);
    let arc = p.ring_arc();
    let mut c = subscribe_ring(&arc);
    assert_eq!(p.published(), 0);
    assert_eq!(p.publish(&ev(1)), 0);
    assert_eq!(p.publish(&ev(2)), 1);
    assert_eq!(p.published(), 2);
    assert_eq!((c.cursor(), c.lag()), (0, 2));
    assert_eq!(c.try_next(), Recv::Event(ev(1)));
    assert_eq!((c.cursor(), c.lag()), (1, 1));
}

#[test]
fn interleaved_polls_account_for_everything() {
    // every sequence is received once, in order, or counted as lost
    let mut p = ring(8);
    let mut c = p.subscribe();
    let (mut next, mut lost_total, mut got) = (0u64, 0u64, 0u64);
    for i in 0..1000u64 {
        p.publish(&ev(i));
        if i % 23 == 0 {
            loop {
                match c.try_next() {
                    Recv::Event(e) => {
                        check(&e);
                        assert_eq!(e.recv_mono_ns, next);
                        next += 1;
                        got += 1;
                    }
                    Recv::Lagged { lost } => {
                        next += lost;
                        lost_total += lost;
                    }
                    Recv::Empty => break,
                }
            }
            assert_eq!(got + lost_total, i + 1);
        }
    }
    assert!(lost_total > 0 && got > 0);
}

#[test]
fn slot_versions_and_words() {
    // sequence 5 of a ring of four slots is in its second lap
    assert_eq!(classify(5, 2, 4), Peek::Ready);
    assert_eq!(classify(5, 2, 3), Peek::NotYet);
    assert_eq!(classify(5, 2, 6), Peek::Lapped);
    assert_eq!(overrun(0, 4, 10), 6);
    assert_eq!(lag_of(10, 4), 6);
    assert_eq!(lag_of(4, 10), 0);
    let e = ev(77);
    assert_eq!(to_event(&to_words(&e)), e);
    // and is announced by the odd version below its own
    let st = stores(5, 2, &e);
    assert_eq!((st.busy, st.done), (3, 4));
    assert_eq!(to_event(&st.words), e);
}

#[test]
fn settle_says_what_a_poll_comes_to() {
    let e = ev(9);
    // four slots: sequence 5 is there once its slot has version 4
    assert_eq!(settle(5, 2, 2, e, 2, 5), (Recv::Empty, 5));
    assert_eq!(settle(5, 2, 3, e, 3, 5), (Recv::Empty, 5));
    assert_eq!(settle(5, 2, 4, e, 4, 6), (Recv::Event(e), 6));
    // overwritten during the copy
    assert_eq!(settle(5, 2, 4, e, 5, 9), (Recv::Lagged { lost: 1 }, 6));
    // overwritten before it: on to the oldest of the four that are left
    assert_eq!(settle(5, 2, 8, e, 8, 16), (Recv::Lagged { lost: 7 }, 12));
}

#[test]
fn a_run_of_polls_accounts_for_every_event() {
    let mut p = ring(4);
    for s in 0..3 {
        p.publish(&ev(s));
    }
    let mut c = p.subscribe();
    let mut other = p.subscribe();
    let (mut got, mut lost) = (Vec::new(), 0);
    for burst in [1u64, 0, 9, 3, 6, 2] {
        for _ in 0..burst {
            let s = p.published();
            p.publish(&ev(s));
        }
        // two polls a burst, while the other consumer takes one
        for _ in 0..2 {
            match c.try_next() {
                Recv::Event(e) => got.push(e.recv_mono_ns),
                Recv::Lagged { lost: n } => lost += n,
                Recv::Empty => {}
            }
        }
        other.try_next();
    }
    loop {
        match c.try_next() {
            Recv::Event(e) => got.push(e.recv_mono_ns),
            Recv::Lagged { lost: n } => lost += n,
            Recv::Empty => break,
        }
    }
    assert_eq!(got.len() as u64 + lost, p.published() - 3);
    assert!(got.windows(2).all(|w| w[0] < w[1]));
    assert!(got[0] >= 3 && lost > 0);
}
