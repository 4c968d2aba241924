use lamport_clock::process::{
    Event, Message, Process, StepOutcome, DRAW_BOUND, ITERATIONS, MODULUS_A, MODULUS_B,
};

#[test]
fn fresh_process_is_well_formed() {
    let p = Process::new(MODULUS_A);
    assert!(p.well_formed());
    assert_eq!(p.clock_value(), 0);
    assert_eq!(p.modulus(), MODULUS_A);
    assert!(p.log().is_empty());
}

#[test]
fn send_fires_on_cadence() {
    let mut p = Process::new(2);
    match p.step(None, 4) {
        StepOutcome::ToSend(m) => assert_eq!(m.tm, 1),
        other => panic!("expected a send, got {:?}", other),
    }
    assert_eq!(p.clock_value(), 1);
    assert_eq!(*p.log(), vec![Event::Send(1)]);
}

#[test]
fn idle_step_changes_nothing() {
    let mut p = Process::new(2);
    p.step(None, 4); // clock becomes 1
    let out = p.step(None, 3); // 3 % 2 != 0: idle
    assert_eq!(out, StepOutcome::Idled);
    assert_eq!(p.clock_value(), 1);
    assert_eq!(p.log().len(), 1);
}

#[test]
fn receive_has_priority_over_send() {
    let mut p = Process::new(2);
    // The draw would fire a send, but a pending message must be merged first.
    let out = p.step(Some(Message { tm: 7 }), 4);
    assert_eq!(out, StepOutcome::Received(8));
    assert_eq!(p.clock_value(), 8);
    assert_eq!(*p.log(), vec![Event::Recv(8)]);
}

#[test]
fn merge_dominated_by_received_timestamp() {
    // Process B at clock 2 merges timestamp 5: it must land on 6, not 3.
    let mut b = Process::new(1);
    b.step(None, 0);
    b.step(None, 0);
    assert_eq!(b.clock_value(), 2);
    let out = b.step(Some(Message { tm: 5 }), 0);
    assert_eq!(out, StepOutcome::Received(6));
    assert_eq!(b.clock_value(), 6);
}

#[test]
fn causal_order_across_one_message() {
    // C2: the send event's clock is strictly below the receive event's.
    let mut a = Process::new(MODULUS_A);
    let mut b = Process::new(MODULUS_B);
    b.step(None, 3); // b ticks to 1 on its own cadence
    let m = match a.step(None, 2) {
        StepOutcome::ToSend(m) => m,
        other => panic!("expected a send, got {:?}", other),
    };
    let recv = match b.step(Some(m), 1) {
        StepOutcome::Received(v) => v,
        other => panic!("expected a merge, got {:?}", other),
    };
    assert!(m.tm < recv);
}

#[test]
fn log_strictly_increases() {
    // C1 / monotonicity on a concrete interleaving.
    let mut p = Process::new(2);
    p.step(None, 0);
    p.step(Some(Message { tm: 10 }), 1);
    p.step(None, 5);
    p.step(None, 6);
    p.step(Some(Message { tm: 3 }), 0);
    let values: Vec<u32> = p.log().iter().map(|e| e.value()).collect();
    assert_eq!(values, vec![1, 11, 12, 13]);
    for w in values.windows(2) {
        assert!(w[0] < w[1]);
    }
    assert!(p.well_formed());
}

#[test]
fn quiet_run_leaves_clocks_at_zero() {
    // With the probabilistic branch never triggering and no inbound
    // messages, both processes end their run with clock value 0.
    let script: Vec<(Option<Message>, u32)> =
        (0..ITERATIONS).map(|_| (None, 1u32)).collect();
    let mut a = Process::new(MODULUS_A);
    let mut b = Process::new(MODULUS_B);
    let outs_a = a.run_script(&script);
    let outs_b = b.run_script(&script);
    assert_eq!(a.clock_value(), 0);
    assert_eq!(b.clock_value(), 0);
    assert!(a.log().is_empty());
    assert!(b.log().is_empty());
    assert!(outs_a.iter().all(|o| *o == StepOutcome::Idled));
    assert!(outs_b.iter().all(|o| *o == StepOutcome::Idled));
}

#[test]
fn both_arrival_orders_reach_max_plus_one() {
    // A sends timestamps 3 and 4; whichever order B merges them, its final
    // clock is at least max(3, 4) + 1 = 5.
    let mut b1 = Process::new(MODULUS_B);
    b1.step(Some(Message { tm: 3 }), 0);
    b1.step(Some(Message { tm: 4 }), 0);
    assert!(b1.clock_value() >= 5);
    assert_eq!(b1.clock_value(), 5);

    let mut b2 = Process::new(MODULUS_B);
    b2.step(Some(Message { tm: 4 }), 0);
    b2.step(Some(Message { tm: 3 }), 0);
    assert!(b2.clock_value() >= 5);
    assert_eq!(b2.clock_value(), 6);
}

#[test]
fn run_script_matches_the_model() {
    let script: Vec<(Option<Message>, u32)> = vec![
        (None, 2),                        // send: clock 1
        (Some(Message { tm: 10 }), 0),    // merge: max(1, 10) + 1 = 11
        (None, 1),                        // idle
        (None, 6),                        // send: clock 12
    ];
    let mut p = Process::new(2);
    let outs = p.run_script(&script);
    assert_eq!(p.clock_value(), 12);
    assert_eq!(
        *p.log(),
        vec![Event::Send(1), Event::Recv(11), Event::Send(12)]
    );
    assert_eq!(
        outs,
        vec![
            StepOutcome::ToSend(Message { tm: 1 }),
            StepOutcome::Received(11),
            StepOutcome::Idled,
            StepOutcome::ToSend(Message { tm: 12 }),
        ]
    );
    assert!(p.well_formed());
}

#[test]
fn step_random_merges_pending_message() {
    let mut p = Process::new(MODULUS_B);
    let out = p.step_random(Some(Message { tm: 4 }));
    assert_eq!(out, StepOutcome::Received(5));
    assert_eq!(p.clock_value(), 5);
}

#[test]
fn step_random_follows_the_policy() {
    // Whatever the draws, every outcome must obey the step contract; over
    // many draws against an even/odd cadence both branches must show up.
    let mut p = Process::new(2);
    let mut expected: u32 = 0;
    let mut sends: u32 = 0;
    let mut idles: u32 = 0;
    for _ in 0..200 {
        match p.step_random(None) {
            StepOutcome::ToSend(m) => {
                assert_eq!(m.tm, expected + 1);
                expected += 1;
                sends += 1;
            }
            StepOutcome::Idled => idles += 1,
            StepOutcome::Received(_) => panic!("no message was pending"),
        }
        assert_eq!(p.clock_value(), expected);
    }
    assert!(sends > 0);
    assert!(idles > 0);
    assert!(p.well_formed());
}

#[test]
fn fixed_constants() {
    assert_eq!(ITERATIONS, 21);
    assert_eq!(DRAW_BOUND, 100);
    assert_eq!(MODULUS_A, 2);
    assert_eq!(MODULUS_B, 3);
}
