use zenohbench::codec::TimingRecord;
use zenohbench::sink::{latency, percentiles, Report, Sink};
use zenohbench::source::{inflated_payload, Source};

#[test]
fn latency_divides_by_stage_count() {
    assert_eq!(latency(21_000_000, 0, 20), 1_000_000);
    assert_eq!(latency(100, 100, 0), 0);
    assert_eq!(latency(10, 3, 1), 3);
    assert_eq!(latency(3, 10, 1), -3);
    assert_eq!(latency(i64::MAX, 0, 0), i64::MAX);
}

#[test]
fn percentiles_of_sorted_thousand() {
    let buf: Vec<i64> = (0..1000).map(|i| i * 1000 + 999).collect();
    let r = percentiles(&buf);
    assert_eq!(r, Report { p50_us: buf[500] / 1000, p90_us: buf[900] / 1000 });
    assert_eq!(r, Report { p50_us: 500, p90_us: 900 });
}

#[test]
fn percentiles_truncate_toward_zero() {
    assert_eq!(percentiles(&vec![-1999]), Report { p50_us: -1, p90_us: -1 });
    assert_eq!(percentiles(&vec![1999]), Report { p50_us: 1, p90_us: 1 });
}

fn run_cycle(sink: &mut Sink, samples: &[i64]) -> Option<Report> {
    let mut last = None;
    for (i, s) in samples.iter().enumerate() {
        last = sink.add_sample(*s);
        if i + 1 < samples.len() {
            assert_eq!(last, None);
        }
    }
    last
}

#[test]
fn cycle_reports_and_resets() {
    let mut sink = Sink::new(0, 10);
    let r = run_cycle(&mut sink, &[9000, 1000, 8000, 2000, 7000, 3000, 6000, 4000, 5000, 10000]);
    assert_eq!(r, Some(Report { p50_us: 6, p90_us: 10 }));
    assert_eq!(sink.pending(), 0);
    // the next cycle sees none of the previous samples
    let r = run_cycle(&mut sink, &[1; 10]);
    assert_eq!(r, Some(Report { p50_us: 0, p90_us: 0 }));
    assert_eq!(sink.pending(), 0);
}

#[test]
fn arrival_order_does_not_matter() {
    let a: Vec<i64> = (0..1000).map(|i| (i * 7919 % 1000) * 1000).collect();
    let mut b = a.clone();
    b.reverse();
    let mut s1 = Sink::new(20, 1000);
    let mut s2 = Sink::new(20, 1000);
    let r1 = run_cycle(&mut s1, &a);
    let r2 = run_cycle(&mut s2, &b);
    assert_eq!(r1, r2);
    assert_eq!(r1, Some(Report { p50_us: 500, p90_us: 900 }));
}

fn scenario(hops: u32, per_hop_nanos: i64) -> Report {
    let mut source = Source::new(1000);
    let mut sink = Sink::new(hops, 1000);
    let payload = "client".to_string();
    let mut report = None;
    let mut t: i64 = 0;
    while let Some(rec) = source.next_record(t, &payload) {
        let arrival = rec.origin_nanos + per_hop_nanos * (hops as i64 + 1);
        report = sink.receive(&rec, arrival);
        t += 1_000_000;
    }
    report.unwrap()
}

#[test]
fn zero_hops_zero_delay() {
    assert_eq!(scenario(0, 0), Report { p50_us: 0, p90_us: 0 });
}

#[test]
fn twenty_hops_one_millisecond_each() {
    assert_eq!(scenario(20, 1_000_000), Report { p50_us: 1000, p90_us: 1000 });
}

#[test]
fn receive_uses_hop_count() {
    let mut sink = Sink::new(1, 1);
    let rec = TimingRecord { msgid: 0, origin_nanos: 1_000, provenance: String::new() };
    assert_eq!(sink.receive(&rec, 4_001_000), Some(Report { p50_us: 2000, p90_us: 2000 }));
    assert_eq!(sink.hops(), 1);
    assert_eq!(sink.cycle_size(), 1);
}

#[test]
fn source_numbers_from_zero_and_stops() {
    let mut source = Source::new(3);
    let p = "p".to_string();
    for i in 0..3 {
        let rec = source.next_record(100 + i, &p).unwrap();
        assert_eq!(rec.msgid, i);
        assert_eq!(rec.origin_nanos, 100 + i);
        assert_eq!(rec.provenance, "p");
    }
    assert!(source.is_done());
    assert!(source.next_record(0, &p).is_none());
    assert_eq!(source.sent(), 3);
}

#[test]
fn payload_inflation() {
    assert_eq!(inflated_payload(25), "publisher publisher ");
    assert_eq!(inflated_payload(9), "");
    assert_eq!(inflated_payload(10_000).len(), 10_000);
}
