use nexus_core::digest::hash_key;
use nexus_core::persist::{
    check_project_id, snapshot_file_name, worker_step, CanvasError, PendingSaves, WorkerAction, WorkerEvent,
};

fn save(id: &str, v: u32) -> WorkerEvent<u32> {
    WorkerEvent::Save { project_id: id.to_string(), snapshot: v }
}

#[test]
fn sha256_hex_of_key() {
    assert_eq!(hash_key("abc"), "ba7816bf8f01cfea414140de5dae2223b00361a396177a9cb410ff61f20015ad");
}

#[test]
fn project_ids_must_not_be_blank() {
    assert_eq!(check_project_id(" \t"), Err(CanvasError::EmptyProjectId));
    assert_eq!(check_project_id(""), Err(CanvasError::EmptyProjectId));
    assert_eq!(check_project_id("proj-a"), Ok(()));
}

#[test]
fn snapshot_names() {
    assert_eq!(snapshot_file_name("abc"), "ba7816bf8f01cfea414140de5dae2223b00361a396177a9cb410ff61f20015ad.json");
}

#[test]
fn burst_of_saves_coalesces_into_one_write() {
    let mut p: PendingSaves<u32> = PendingSaves::new();
    for v in [1u32, 2, 3] {
        assert!(matches!(worker_step(&mut p, save("proj", v)), WorkerAction::Wait));
    }
    match worker_step(&mut p, WorkerEvent::Idle) {
        WorkerAction::Flush(batch) => {
            assert_eq!(batch.len(), 1);
            assert_eq!((batch[0].project_id.as_str(), batch[0].snapshot), ("proj", 3));
        }
        _ => panic!("expected a flush"),
    }
    assert_eq!(p.len(), 0);
    assert!(matches!(worker_step(&mut p, WorkerEvent::Idle), WorkerAction::Wait));
}

#[test]
fn projects_batch_in_arrival_order() {
    let mut p: PendingSaves<u32> = PendingSaves::new();
    worker_step(&mut p, save("a", 1));
    worker_step(&mut p, save("b", 2));
    worker_step(&mut p, save("a", 3));
    match worker_step(&mut p, WorkerEvent::Closed) {
        WorkerAction::Stop(batch) => {
            let got: Vec<(String, u32)> = batch.into_iter().map(|e| (e.project_id, e.snapshot)).collect();
            assert_eq!(got, vec![("a".to_string(), 3), ("b".to_string(), 2)]);
        }
        _ => panic!("expected a stop"),
    }
}

#[test]
fn close_with_nothing_pending_stops_empty() {
    let mut p: PendingSaves<u32> = PendingSaves::new();
    match worker_step(&mut p, WorkerEvent::Closed) {
        WorkerAction::Stop(batch) => assert!(batch.is_empty()),
        _ => panic!("expected a stop"),
    }
}
