//! The task scheduler: single-flight scan processing and shutdown.

use deaftone::scan::{DirReport, ScanService, ScanType, TagSource, TrackFile};
use deaftone::store::Store;
use deaftone::tag_helper::StreamInfo;
use deaftone::tags::TagBlock;
use deaftone::task::{handle_task, TaskAction, TaskQueryError, TaskService, TaskType};

fn one_dir_tree() -> Vec<DirReport> {
    let mut b = TagBlock::new();
    b.add("TITLE".to_string(), "T".to_string());
    b.add("ARTIST".to_string(), "X".to_string());
    b.add("ALBUMARTIST".to_string(), "X".to_string());
    b.add("ALBUM".to_string(), "A".to_string());
    let stream = StreamInfo {
        total_samples: 44100,
        sample_rate: 44100,
        bits_per_sample: 16,
        num_channels: 2,
    };
    vec![DirReport {
        path: "m/a".to_string(),
        present: true,
        mtime: 100,
        files: vec!["m/a/01.flac".to_string()],
        tracks: vec![TrackFile {
            path: "m/a/01.flac".to_string(),
            source: TagSource::Tags { tags: b, stream: Some(stream) },
        }],
    }]
}

#[test]
fn query_mapping() {
    assert_eq!(
        handle_task(&Some("scan_library_full".to_string())),
        Ok(TaskType::ScanLibrary(ScanType::FullScan))
    );
    assert_eq!(
        handle_task(&Some("scan_library_partial".to_string())),
        Ok(TaskType::ScanLibrary(ScanType::PartialScan))
    );
    assert_eq!(
        handle_task(&Some("scan_metadata".to_string())),
        Ok(TaskType::PopulateMetadata)
    );
    assert_eq!(
        handle_task(&Some("reindex".to_string())),
        Err(TaskQueryError::InvalidTaskType)
    );
    assert_eq!(handle_task(&None), Err(TaskQueryError::MissingParam));
}

#[test]
fn idle_on_empty_queue() {
    let mut svc = TaskService::new(ScanService::new(Store::new()));
    let tree = one_dir_tree();
    assert_eq!(svc.step(&tree), TaskAction::Idle);
}

#[test]
fn single_flight_scheduling() {
    // two scan requests back-to-back: the second begins only after the
    // first has completed and its in-progress flag cleared
    let mut svc = TaskService::new(ScanService::new(Store::new()));
    svc.enqueue(TaskType::ScanLibrary(ScanType::FullScan));
    svc.enqueue(TaskType::ScanLibrary(ScanType::FullScan));
    let tree = one_dir_tree();

    let first = svc.step(&tree);
    assert_eq!(first, TaskAction::RanScan(ScanType::FullScan));
    assert!(!svc.scan_status, "the flag is clear before the next task can start");
    assert_eq!(svc.task_queue.len(), 1, "the second request is still queued");
    assert_eq!(svc.scanner.store.songs.len(), 1);

    let second = svc.step(&tree);
    assert_eq!(second, TaskAction::RanScan(ScanType::FullScan));
    assert!(!svc.scan_status);
    assert_eq!(svc.task_queue.len(), 0);
}

#[test]
fn shutdown_drops_outstanding_tasks() {
    let mut svc = TaskService::new(ScanService::new(Store::new()));
    svc.enqueue(TaskType::Shutdown);
    svc.enqueue(TaskType::ScanLibrary(ScanType::PartialScan));
    let tree = one_dir_tree();
    assert_eq!(svc.step(&tree), TaskAction::Stop);
    assert_eq!(svc.task_queue.len(), 0, "tasks queued behind a shutdown are dropped");
}

#[test]
fn metadata_task_is_delegated() {
    let mut svc = TaskService::new(ScanService::new(Store::new()));
    svc.enqueue(TaskType::PopulateMetadata);
    let tree = one_dir_tree();
    assert_eq!(svc.step(&tree), TaskAction::RunMetadata);
    assert_eq!(svc.task_queue.len(), 0);
}

#[test]
fn partial_scan_task_runs() {
    let mut svc = TaskService::new(ScanService::new(Store::new()));
    let tree = one_dir_tree();
    svc.enqueue(TaskType::ScanLibrary(ScanType::FullScan));
    svc.step(&tree);
    svc.enqueue(TaskType::ScanLibrary(ScanType::PartialScan));
    assert_eq!(svc.step(&tree), TaskAction::RanScan(ScanType::PartialScan));
    assert_eq!(svc.scanner.store.songs.len(), 1);
}
