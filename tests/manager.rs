use log_archive::manager::{
    collect_load_replies, effective_shard_count, plan_shards, shard_for, sum_find_replies, FindError,
    PoolInitError,
};
use log_archive::shard::ClientMessages;
use log_archive::stats::{LogFileStats, LogThreadStats};

fn found(c: u64) -> ClientMessages {
    ClientMessages::FoundNeedle("t".to_string(), "stdout".to_string(), "GET".to_string(), c)
}

fn not_found() -> ClientMessages {
    ClientMessages::NotFound("t".to_string(), "stdout".to_string(), "GET".to_string())
}

fn ack(files: usize) -> ClientMessages {
    let file_stats = (0..files)
        .map(|i| LogFileStats { fname: format!("f{}", i), size_bytes: 10, line_count: 2 })
        .collect();
    ClientMessages::ReadFiles(LogThreadStats { file_stats, time: 5 })
}

#[test]
fn four_shards_over_three_files() {
    assert_eq!(effective_shard_count(4, 3), 3);
    let plan = plan_shards(4, 3);
    assert_eq!(plan.shard_count, 3);
    assert_eq!(plan.assignment, vec![0, 1, 2]);
}

#[test]
fn round_robin_assignment() {
    assert_eq!(effective_shard_count(8, 20), 8);
    assert_eq!(effective_shard_count(3, 0), 0);
    let plan = plan_shards(2, 5);
    assert_eq!(plan.shard_count, 2);
    assert_eq!(plan.assignment, vec![0, 1, 0, 1, 0]);
    assert_eq!(shard_for(17, 8), 1);
    assert!(plan_shards(5, 0).assignment.is_empty());
}

#[test]
fn pool_starts_after_every_ack() {
    let r = collect_load_replies(vec![Some(ack(1)), Some(ack(1)), Some(ack(1))]);
    match r {
        Ok(stats) => {
            assert_eq!(stats.lts.len(), 3);
            assert_eq!(stats.file_count(), 3);
            assert_eq!(stats.line_count(), 6);
        }
        Err(_) => panic!("three acknowledgments start the pool"),
    }
}

#[test]
fn pool_reports_two_loaded_files() {
    let r = collect_load_replies(vec![Some(ack(2)), Some(ack(0))]);
    match r {
        Ok(stats) => {
            assert_eq!(stats.file_count(), 2);
            assert_eq!(stats.summary(), "2 files, 4 lines in 20 bytes.");
        }
        Err(_) => panic!("both shards acknowledged"),
    }
}

#[test]
fn pool_fails_without_every_ack() {
    let lost = collect_load_replies(vec![Some(ack(1)), None, Some(ack(1))]);
    assert!(matches!(lost, Err(PoolInitError::ShardLost)));
    let wrong = collect_load_replies(vec![Some(ack(1)), Some(not_found()), None]);
    assert!(matches!(wrong, Err(PoolInitError::Protocol)));
}

#[test]
fn replies_add_up_in_any_order() {
    let a = vec![found(5), not_found(), found(2)];
    let b = vec![found(2), found(5), not_found()];
    assert!(matches!(sum_find_replies(&a), Ok(7)));
    assert!(matches!(sum_find_replies(&b), Ok(7)));
    assert!(matches!(sum_find_replies(&vec![]), Ok(0)));
    assert!(matches!(sum_find_replies(&vec![not_found(), not_found()]), Ok(0)));
}

#[test]
fn reply_errors_surface() {
    let bad = ClientMessages::BadPattern("t".to_string(), "stdout".to_string(), "(".to_string());
    let r = sum_find_replies(&vec![found(1), bad]);
    assert!(matches!(r, Err(FindError::Pattern)));
    let r = sum_find_replies(&vec![found(1), ack(1)]);
    assert!(matches!(r, Err(FindError::Protocol)));
}

#[test]
fn huge_totals_saturate() {
    let r = sum_find_replies(&vec![found(u64::MAX), found(3)]);
    assert!(matches!(r, Ok(u64::MAX)));
}
