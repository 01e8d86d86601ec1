use std::sync::atomic::{AtomicBool, AtomicU32, Ordering};
use std::sync::Arc;
use std::time::Duration;

use audiophore::binary32::Double;
use audiophore::bus::Bus;
use audiophore::types::{ResolvedFrame, Rgb, ZoneId, ZonePayload};
use audiophore::zone_map::ZoneMap;

fn frame_with_tick(tick: u64) -> ResolvedFrame {
    let mut zones = ZoneMap::new();
    zones.insert(
        ZoneId("test".to_owned()),
        ZonePayload::Fixture(Rgb::default(), Rgb::default().r),
    );
    let t = tick as f64 / 60.0;
    ResolvedFrame { tick, t: Double { bits: t.to_bits() }, zones }
}

fn runtime() -> tokio::runtime::Runtime {
    tokio::runtime::Builder::new_multi_thread()
        .worker_threads(4)
        .enable_time()
        .build()
        .unwrap()
}

#[test]
fn empty_bus_yields_default_frame() {
    let bus = Bus::empty();
    let snap = bus.snapshot();
    assert_eq!(snap.tick, 0);
    assert!(snap.zones.is_empty());
}

#[test]
fn publish_then_snapshot_returns_latest() {
    let mut bus = Bus::empty();
    bus.publish(frame_with_tick(1));
    bus.publish(frame_with_tick(2));
    bus.publish(frame_with_tick(3));
    assert_eq!(bus.snapshot().tick, 3);
}

#[test]
fn snapshot_arc_outlives_subsequent_publishes() {
    let mut bus = Bus::empty();
    bus.publish(frame_with_tick(7));
    let pinned = bus.snapshot();
    for tick in 8..20 {
        bus.publish(frame_with_tick(tick));
    }
    assert_eq!(pinned.tick, 7);
    assert_eq!(bus.snapshot().tick, 19);
}

#[test]
fn multi_consumer_concurrent_read_sees_monotonic_frames() {
    let runtime = runtime();
    let mut bus = Bus::empty();
    bus.publish(frame_with_tick(1));

    let consumer_count = 8;
    let reads_per_consumer = 1_000;
    let mut handles = Vec::with_capacity(consumer_count);
    for _ in 0..consumer_count {
        let mut reader = bus.reader();
        handles.push(runtime.spawn_blocking(move || {
            let mut max_seen = 0u64;
            for _ in 0..reads_per_consumer {
                let snap = reader.snapshot();
                assert!(
                    snap.tick >= max_seen,
                    "non-monotonic snapshot: {} after {}",
                    snap.tick,
                    max_seen,
                );
                max_seen = snap.tick;
            }
            max_seen
        }));
    }

    for tick in 2..=200 {
        bus.publish(frame_with_tick(tick));
    }

    for h in handles {
        let max_seen = runtime.block_on(h).expect("consumer panicked");
        assert!(max_seen >= 1);
    }
    assert_eq!(bus.snapshot().tick, 200);
}

#[test]
fn slow_consumer_does_not_block_fast_consumer() {
    let runtime = runtime();
    let mut bus = Bus::empty();
    bus.publish(frame_with_tick(0));
    let stop = Arc::new(AtomicBool::new(false));

    let slow = {
        let (mut reader, stop) = (bus.reader(), Arc::clone(&stop));
        runtime.spawn(async move {
            let mut count = 0u32;
            while !stop.load(Ordering::Relaxed) {
                let _ = reader.snapshot();
                tokio::time::sleep(Duration::from_millis(50)).await;
                count += 1;
            }
            count
        })
    };

    let fast_count = Arc::new(AtomicU32::new(0));
    let fast = {
        let (mut reader, stop, counter) = (bus.reader(), Arc::clone(&stop), Arc::clone(&fast_count));
        runtime.spawn_blocking(move || {
            while !stop.load(Ordering::Relaxed) {
                let _ = reader.snapshot();
                counter.fetch_add(1, Ordering::Relaxed);
            }
        })
    };

    let producer = {
        let stop = Arc::clone(&stop);
        runtime.spawn(async move {
            let mut tick = 1u64;
            while !stop.load(Ordering::Relaxed) {
                bus.publish(frame_with_tick(tick));
                tick += 1;
                tokio::time::sleep(Duration::from_micros(100)).await;
            }
            tick
        })
    };

    runtime.block_on(async { tokio::time::sleep(Duration::from_millis(150)).await });
    stop.store(true, Ordering::Relaxed);

    let slow_reads = runtime.block_on(slow).expect("slow consumer panicked");
    runtime.block_on(fast).expect("fast consumer panicked");
    let final_tick = runtime.block_on(producer).expect("producer panicked");
    let fast_reads = fast_count.load(Ordering::Relaxed);

    assert!(
        fast_reads >= slow_reads.saturating_mul(10),
        "fast consumer ({fast_reads}) was not >=10x the slow one ({slow_reads})",
    );
    assert!(final_tick > 1);
}

#[test]
fn a_bus_starts_with_its_initial_frame() {
    let bus = Bus::new(frame_with_tick(5));
    assert_eq!(bus.snapshot().tick, 5);
    assert_eq!(bus.reader().snapshot().tick, 5);
    assert_eq!(Bus::default().snapshot().tick, 0);
}

#[test]
fn a_published_share_is_not_copied() {
    let mut bus = Bus::empty();
    let frame = Arc::new(frame_with_tick(9));
    bus.publish_arc(Arc::clone(&frame));
    assert!(Arc::ptr_eq(&frame, &bus.snapshot()));
}

#[test]
fn a_reader_follows_the_bus_that_it_was_made_from() {
    let mut bus = Bus::new(frame_with_tick(1));
    let mut other = Bus::new(frame_with_tick(100));
    let mut early = bus.reader();
    assert_eq!(early.snapshot().tick, 1);
    bus.publish(frame_with_tick(2));
    let mut late = bus.reader();
    other.publish(frame_with_tick(101));
    assert_eq!(early.snapshot().tick, 2);
    assert_eq!(late.snapshot().tick, 2);
    bus.publish_arc(Arc::new(frame_with_tick(3)));
    assert_eq!(early.snapshot().tick, 3);
    assert_eq!(other.reader().snapshot().tick, 101);
}

#[test]
fn a_reader_never_goes_back() {
    let mut bus = Bus::empty();
    let mut reader = bus.reader();
    let mut last = 0;
    for tick in 1..=50 {
        bus.publish(frame_with_tick(tick));
        for _ in 0..3 {
            let seen = reader.snapshot().tick;
            assert!(seen >= last);
            last = seen;
        }
    }
    assert_eq!(last, 50);
}

#[test]
fn a_snapshot_after_a_receipt_is_not_older() {
    let mut bus = Bus::empty();
    let mut reader = bus.reader();
    bus.publish(frame_with_tick(1));
    bus.publish(frame_with_tick(2));
    let receipt = bus.receipt();
    assert_eq!(reader.snapshot_after(&receipt).tick, 2);
    bus.publish(frame_with_tick(3));
    assert_eq!(reader.snapshot_after(&receipt).tick, 3);
    let other = Bus::new(frame_with_tick(50));
    assert_eq!(reader.snapshot_after(&other.receipt()).tick, 3);
}
