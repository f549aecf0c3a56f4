use log_archive::block::{LogFile, ReadError};
use log_archive::shard::{
    ClientMessages, LogFileThread, ManagerMessages, ShardPhase, ShardWorker, WorkerAction,
};

fn block_bytes(rows: &[Vec<&str>]) -> Vec<u8> {
    let mut message = capnp::message::Builder::new_default();
    {
        let mut list = message
            .initn_root::<capnp::list_list::Builder<capnp::text_list::Owned>>(rows.len() as u32);
        for (i, row) in rows.iter().enumerate() {
            let mut cells = list.reborrow().init(i as u32, row.len() as u32);
            for (j, c) in row.iter().enumerate() {
                cells.set(j as u32, *c);
            }
        }
    }
    let mut out = Vec::new();
    capnp::serialize_packed::write_message(&mut out, &message).unwrap();
    out
}

fn file_with(name: &str, lines: &[&str]) -> LogFile {
    let rows: Vec<Vec<&str>> = lines.iter().map(|l| vec!["1", "web", "stdout", *l]).collect();
    LogFile { fname: name.to_string(), content: block_bytes(&rows) }
}

fn ready_worker() -> ShardWorker {
    let mut w = ShardWorker::new("file-thread-0".to_string());
    w.on_message(ManagerMessages::QueueFile("a".to_string()));
    w.on_message(ManagerMessages::ReadFiles);
    let reads = vec![
        Ok(file_with("a", &["GET /a", "GET /b", "POST /c"])),
        Ok(file_with("b", &["GET /d"])),
    ];
    w.on_loaded(reads, 12);
    w
}

#[test]
fn shard_sums_over_its_blocks() {
    let t = LogFileThread {
        name: "t".to_string(),
        content: vec![file_with("a", &["GET /a", "POST /b"]), file_with("b", &["GET /c", "GET /d"])],
    };
    assert_eq!(t.find("stdout", "GET"), 3);
    assert!(matches!(t.rfind("stdout", "^GET /[ac]$"), Ok(2)));
    assert!(t.rfind("stdout", "*").is_err());
    assert_eq!(t.find("stdout", "DELETE"), 0);
}

#[test]
fn worker_queues_then_loads_in_order() {
    let mut w = ShardWorker::new("file-thread-1".to_string());
    assert!(w.phase == ShardPhase::Idle);
    assert!(matches!(w.on_message(ManagerMessages::QueueFile("x".to_string())), WorkerAction::Ignore));
    assert!(matches!(w.on_message(ManagerMessages::QueueFile("y".to_string())), WorkerAction::Ignore));
    match w.on_message(ManagerMessages::ReadFiles) {
        WorkerAction::Load(files) => assert_eq!(files, vec!["x".to_string(), "y".to_string()]),
        _ => panic!("the load must be asked for"),
    }
    assert!(w.phase == ShardPhase::Loading);
    assert!(w.queued.is_empty());
}

#[test]
fn unreadable_file_is_skipped_and_load_succeeds() {
    let mut w = ShardWorker::new("file-thread-2".to_string());
    w.on_message(ManagerMessages::ReadFiles);
    let reads = vec![
        Ok(file_with("one", &["GET /a", "GET /b"])),
        Err(ReadError::Io(std::io::Error::new(std::io::ErrorKind::NotFound, "gone"))),
        Ok(file_with("three", &["POST /c"])),
    ];
    match w.on_loaded(reads, 40) {
        ClientMessages::ReadFiles(ts) => {
            assert_eq!(ts.time, 40);
            assert_eq!(ts.file_stats.len(), 2);
            assert_eq!(ts.file_stats[0].fname, "one");
            assert_eq!(ts.file_stats[0].line_count, 2);
            assert_eq!(ts.file_stats[1].fname, "three");
            assert_eq!(ts.line_count(), 3);
        }
        _ => panic!("a load is answered with its statistics"),
    }
    assert!(w.phase == ShardPhase::Ready);
    assert_eq!(w.shard.content.len(), 2);
}

#[test]
fn undecodable_file_is_skipped() {
    let mut w = ShardWorker::new("file-thread-3".to_string());
    w.on_message(ManagerMessages::ReadFiles);
    let reads = vec![
        Ok(LogFile { fname: "bad".to_string(), content: vec![7, 7, 7] }),
        Ok(file_with("good", &["GET"])),
    ];
    match w.on_loaded(reads, 1) {
        ClientMessages::ReadFiles(ts) => {
            assert_eq!(ts.file_stats.len(), 1);
            assert_eq!(ts.file_stats[0].fname, "good");
        }
        _ => panic!("a load is answered with its statistics"),
    }
}

#[test]
fn ready_worker_answers_queries() {
    let mut w = ready_worker();
    match w.on_message(ManagerMessages::FindNeedle("stdout".to_string(), "GET".to_string(), false)) {
        WorkerAction::Reply(ClientMessages::FoundNeedle(name, field, needle, count)) => {
            assert_eq!(name, "file-thread-0");
            assert_eq!(field, "stdout");
            assert_eq!(needle, "GET");
            assert_eq!(count, 3);
        }
        _ => panic!("a hit is reported with its count"),
    }
    let miss = w.on_message(ManagerMessages::FindNeedle("stdout".to_string(), "PUT".to_string(), true));
    assert!(matches!(miss, WorkerAction::Reply(ClientMessages::NotFound(_, _, _))));
    let bad = w.on_message(ManagerMessages::FindNeedle("stdout".to_string(), "(".to_string(), true));
    assert!(matches!(bad, WorkerAction::Reply(ClientMessages::BadPattern(_, _, _))));
}

#[test]
fn repeated_query_gets_the_same_count() {
    let mut w = ready_worker();
    let mut counts = vec![];
    for _ in 0..3 {
        match w.on_message(ManagerMessages::FindNeedle("stdout".to_string(), "/[ab]".to_string(), true)) {
            WorkerAction::Reply(ClientMessages::FoundNeedle(_, _, _, c)) => counts.push(c),
            _ => panic!("expected a hit"),
        }
    }
    assert_eq!(counts, vec![2, 2, 2]);
}

#[test]
fn out_of_place_messages_are_ignored() {
    let mut w = ShardWorker::new("file-thread-4".to_string());
    let early = w.on_message(ManagerMessages::FindNeedle("stdout".to_string(), "GET".to_string(), false));
    assert!(matches!(early, WorkerAction::Unexpected));
    assert!(w.phase == ShardPhase::Idle);
    let mut w = ready_worker();
    assert!(matches!(w.on_message(ManagerMessages::ReadFiles), WorkerAction::Unexpected));
    assert!(matches!(w.on_message(ManagerMessages::QueueFile("late".to_string())), WorkerAction::Unexpected));
    assert!(w.phase == ShardPhase::Ready);
    assert!(w.queued.is_empty());
    assert_eq!(w.shard.content.len(), 2);
}

#[test]
fn nothing_is_processed_after_shutdown() {
    let mut w = ready_worker();
    assert!(matches!(w.on_message(ManagerMessages::Shutdown("done".to_string())), WorkerAction::Stop));
    assert!(w.phase == ShardPhase::Stopped);
    let after = w.on_message(ManagerMessages::FindNeedle("stdout".to_string(), "GET".to_string(), false));
    assert!(matches!(after, WorkerAction::Ignore));
    assert!(matches!(w.on_message(ManagerMessages::Shutdown("again".to_string())), WorkerAction::Ignore));
    assert!(matches!(w.on_message(ManagerMessages::ReadFiles), WorkerAction::Ignore));
    assert!(w.phase == ShardPhase::Stopped);
}
