use helloween::benchmark::{CloseLoop, Message, Workload};
use helloween::context::simulated::Host;
use helloween::context::{Addr, Receivers, TimerId};
use helloween::control::{
    egress_ids, hex_string, mean_latency, percentile_latency, weighted_latency, Egress,
    Workload as Timed,
};

#[test]
fn identifiers_are_shown_in_hexadecimal() {
    let mut id = [0u8; 32];
    id[0] = 0x0f;
    id[1] = 0xa9;
    id[31] = 0xff;
    let text = hex_string(&id);
    assert_eq!(text.len(), 64);
    assert!(text.starts_with("0fa900"));
    assert!(text.ends_with("00ff"));
}

#[test]
fn mean_is_rounded_down() {
    assert_eq!(mean_latency(&vec![3]), 3);
    assert_eq!(mean_latency(&vec![1, 2, 5]), 2);
    assert_eq!(mean_latency(&vec![0, 0, 5]), 1);
}

#[test]
fn percentile_of_latencies() {
    assert_eq!(percentile_latency(vec![]), 0);
    assert_eq!(percentile_latency(vec![5]), 5);
    assert_eq!(percentile_latency(vec![9, 1]), 9);
    assert_eq!(percentile_latency((0..100).rev().collect()), 99);
    assert_eq!(percentile_latency((0..200).rev().collect()), 198);
}

#[test]
fn egress_leaves_the_sender_out() {
    assert_eq!(egress_ids(4, 2, Egress::ToAll), vec![0, 1, 3]);
    assert_eq!(egress_ids(4, 9, Egress::ToAll), vec![0, 1, 2, 3]);
    assert_eq!(egress_ids(1, 0, Egress::ToAll), vec![]);
    assert_eq!(egress_ids(256, 0, Egress::ToAll), vec![]);
    assert_eq!(egress_ids(4, 2, Egress::To(3)), vec![3]);
}

#[test]
fn workload_takes_times() {
    let mut workload = Timed::new(100);
    workload.update(&vec![], 130);
    workload.update(&vec![], 135);
    assert_eq!(workload.latencies, vec![30, 5]);
    assert_eq!(workload.outstanding_start, 135);
    assert_eq!(workload.latencies.iter().sum::<u128>(), 35);
}

#[derive(Default)]
struct Counter {
    submitted: usize,
    log: Vec<String>,
}

impl Workload for Counter {
    fn submit(&mut self) {
        self.submitted += 1;
    }
}

impl Receivers for Counter {
    type Message = u8;

    fn handle(&mut self, _: Addr, remote: Addr, message: u8) {
        self.log.push(format!("{remote:?} {message}"))
    }

    fn handle_loopback(&mut self, _: Addr, message: u8) {
        self.log.push(format!("loopback {message}"))
    }

    fn on_timer(&mut self, _: Addr, id: TimerId) {
        self.log.push(format!("{id:?}"))
    }

    fn on_pace(&mut self) {
        self.log.push("pace".to_string())
    }
}

#[test]
fn close_loop_submits_after_completion() {
    let (a, b) = (Addr::Simulated(Host::Client(0)), Addr::Simulated(Host::Client(1)));
    let mut close_loop = CloseLoop {
        workloads: vec![(a, Counter::default()), (b, Counter::default())],
        latencies: vec![],
    };
    close_loop.bootstrap();
    close_loop.handle_loopback(b, Message::Complete(7));
    close_loop.handle_loopback(b, Message::Workload(1));
    close_loop.handle(a, Addr::Multicast, Message::Workload(2));
    close_loop.on_timer(a, TimerId::Simulated(4));
    close_loop.on_pace();
    assert_eq!(close_loop.latencies, vec![7]);
    assert_eq!(close_loop.workloads[0].1.submitted, 1);
    assert_eq!(close_loop.workloads[1].1.submitted, 2);
    assert_eq!(close_loop.workloads[0].1.log, vec!["Multicast 2", "Simulated(4)", "pace"]);
    assert_eq!(close_loop.workloads[1].1.log, vec!["loopback 1", "pace"]);
}

#[test]
fn latencies_count_by_their_weights() {
    assert_eq!(weighted_latency(&vec![1, 3], &vec![10, 20], 4), 17);
    assert_eq!(weighted_latency(&vec![0, 2], &vec![1000, 7], 2), 7);
    assert_eq!(weighted_latency(&vec![5], &vec![9], 6), 7);
    assert_eq!(weighted_latency(&vec![], &vec![], 1), 0);
}
