//! The log of deferred faults.

use backdrop_blur::error::BlurError;
use backdrop_blur::fault::{FaultLog, FaultSlot, PendingFault, SharedFaultLog};

fn pending(slot_kind: FaultSlot, generation: u64, message: &str) -> PendingFault {
    PendingFault {
        slot_kind,
        generation,
        message: message.to_owned(),
    }
}

#[test]
fn fold_report_is_latest_wins() {
    let mut log = FaultLog::default();
    log.fold_report(FaultSlot::Scratch, "first out of memory".to_owned());
    log.fold_report(
        FaultSlot::CompositePipeline,
        "second out of memory".to_owned(),
    );

    let report = log.take_report().expect("a report was folded");
    assert_eq!(report.slot, FaultSlot::CompositePipeline);
    assert_eq!(report.occurrences, 2);
    let source = report.error.source().expect("the flattened source");
    assert_eq!(source.to_string(), "second out of memory");
}

#[test]
fn fold_report_saturates_the_occurrence_count() {
    let mut log = FaultLog::default();
    log.fold_report(FaultSlot::Scratch, "oom".to_owned());
    // Force the counter to the ceiling, then fold once more: it must not wrap.
    if let Some(report) = log.report.as_mut() {
        report.occurrences = u32::MAX;
    }
    log.fold_report(FaultSlot::Scratch, "oom again".to_owned());
    let report = log.take_report().expect("a report was folded");
    assert_eq!(report.occurrences, u32::MAX);
}

#[test]
fn drain_where_partitions_and_keeps_the_rest() {
    let mut log = FaultLog::default();
    log.record(pending(FaultSlot::Scratch, 3, "scratch oom"));
    log.record(pending(FaultSlot::Intermediate, 4, "intermediate oom"));
    log.record(pending(FaultSlot::Pyramid, 5, "pyramid oom"));

    let drained = log.drain_where(|fault: &PendingFault| fault.slot_kind != FaultSlot::Intermediate);
    assert_eq!(drained.len(), 2);
    assert!(drained
        .iter()
        .all(|f| f.slot_kind != FaultSlot::Intermediate));

    let rest = log.drain_where(|_: &PendingFault| true);
    assert_eq!(rest.len(), 1);
    assert_eq!(rest[0].slot_kind, FaultSlot::Intermediate);
    assert_eq!(rest[0].generation, 4);
    assert_eq!(rest[0].message, "intermediate oom");
}

#[test]
fn shared_log_folds_through_any_handle() {
    let log = SharedFaultLog::default();
    let collector_handle = std::rc::Rc::clone(&log);
    collector_handle
        .borrow_mut()
        .fold_report(FaultSlot::BindGroup, "oom".to_owned());
    assert!(log.borrow_mut().take_report().is_some());
}

#[test]
fn take_report_clears() {
    let mut log = FaultLog::default();
    log.fold_report(FaultSlot::UniformBuffer, "oom".to_owned());
    assert!(log.take_report().is_some());
    assert!(log.take_report().is_none());
}

#[test]
fn draining_keeps_the_order_on_both_sides() {
    let mut log = FaultLog::default();
    for generation in 0..6 {
        log.record(pending(FaultSlot::Scratch, generation, "oom"));
    }
    let drained = log.drain_where(|f: &PendingFault| f.generation % 2 == 0);
    let generations: Vec<u64> = drained.iter().map(|f| f.generation).collect();
    assert_eq!(generations, vec![0, 2, 4]);
    let kept: Vec<u64> = log.pending.iter().map(|f| f.generation).collect();
    assert_eq!(kept, vec![1, 3, 5]);
}

#[test]
fn a_report_is_always_a_recoverable_fault() {
    let mut log = FaultLog::default();
    assert!(log.take_report().is_none());
    log.fold_report(FaultSlot::Intermediate, "texture".to_owned());
    assert_eq!(
        log.take_report().unwrap().error,
        BlurError::DeviceOutOfMemory {
            source: "texture".to_owned()
        }
    );
}
