use sona::fixed::VALUE_LIMIT;
use sona::trajectory::{Trajectory, TrajectoryBuffer, TrajectoryRecorder, TrajectoryStep};
use sona::SonaError;

fn closed(id: u64, score: i64) -> Trajectory {
    Trajectory { id, query_embedding: vec![0, 0], steps: Vec::new(), final_score: Some(score) }
}

#[test]
fn recorder_numbers_trajectories_from_one() {
    let mut recorder = TrajectoryRecorder::new(2);
    assert_eq!(recorder.begin(vec![1, 2]), Ok(1));
    assert_eq!(recorder.begin(vec![3, 4]), Ok(2));
    assert_eq!(recorder.open.len(), 2);
    assert_eq!(recorder.find(2), Some(1));
    assert_eq!(recorder.find(3), None);
}

#[test]
fn recorder_refuses_malformed_embeddings() {
    let mut recorder = TrajectoryRecorder::new(2);
    assert_eq!(recorder.begin(vec![1]), Err(SonaError::InvalidInput));
    assert_eq!(recorder.begin(vec![1, 2, 3]), Err(SonaError::InvalidInput));
    assert_eq!(recorder.begin(vec![0, VALUE_LIMIT + 1]), Err(SonaError::InvalidInput));
    assert_eq!(recorder.next_id, 1);
    assert_eq!(recorder.begin(vec![VALUE_LIMIT, -VALUE_LIMIT]), Ok(1));
}

#[test]
fn recorder_refuses_when_ids_are_exhausted() {
    let mut recorder = TrajectoryRecorder::new(1);
    recorder.next_id = u64::MAX;
    assert_eq!(recorder.begin(vec![0]), Err(SonaError::InvalidState));
    assert_eq!(recorder.next_id, u64::MAX);
}

#[test]
fn steps_are_appended_in_order() {
    let mut recorder = TrajectoryRecorder::new(1);
    let a = recorder.begin(vec![0]).unwrap();
    let b = recorder.begin(vec![1]).unwrap();
    assert_eq!(recorder.record_step(b, 7, 900_000, 100), Ok(()));
    assert_eq!(recorder.record_step(a, 8, 0, 5), Ok(()));
    assert_eq!(recorder.record_step(b, 9, 1_000_000, 200), Ok(()));
    let t = recorder.finish(b, 850_000).unwrap();
    assert_eq!(t.id, b);
    assert_eq!(t.query_embedding, vec![1]);
    assert_eq!(t.final_score, Some(850_000));
    assert_eq!(
        t.steps,
        vec![
            TrajectoryStep { node_id: 7, score: 900_000, latency_us: 100 },
            TrajectoryStep { node_id: 9, score: 1_000_000, latency_us: 200 },
        ]
    );
    assert_eq!(recorder.open.len(), 1);
    assert_eq!(recorder.open[0].id, a);
    assert_eq!(recorder.open[0].steps.len(), 1);
}

#[test]
fn recorder_tells_unknown_from_closed() {
    let mut recorder = TrajectoryRecorder::new(1);
    let id = recorder.begin(vec![0]).unwrap();
    assert_eq!(recorder.record_step(0, 1, 0, 0), Err(SonaError::NotFound));
    assert_eq!(recorder.record_step(id + 1, 1, 0, 0), Err(SonaError::NotFound));
    assert_eq!(recorder.record_step(id, 1, -1, 0), Err(SonaError::InvalidInput));
    assert_eq!(recorder.record_step(id, 1, 1_000_001, 0), Err(SonaError::InvalidInput));
    assert!(matches!(recorder.finish(id, 1_000_001), Err(SonaError::InvalidInput)));
    assert!(matches!(recorder.finish(id + 1, 0), Err(SonaError::NotFound)));
    assert!(recorder.finish(id, 0).is_ok());
    assert_eq!(recorder.record_step(id, 1, 0, 0), Err(SonaError::InvalidState));
    assert!(matches!(recorder.finish(id, 0), Err(SonaError::InvalidState)));
}

#[test]
fn buffer_evicts_the_oldest_when_full() {
    let mut buffer = TrajectoryBuffer::new(2, 2);
    assert!(!buffer.push(closed(1, 100)));
    assert!(!buffer.push(closed(2, 200)));
    assert_eq!(buffer.len(), 2);
    assert!(buffer.push(closed(3, 300)));
    assert_eq!(buffer.len(), 2);
    let ids: Vec<u64> = buffer.items.iter().map(|t| t.id).collect();
    assert_eq!(ids, vec![2, 3]);
}

#[test]
fn buffer_hands_out_and_takes_back() {
    let mut buffer = TrajectoryBuffer::new(2, 3);
    buffer.push(closed(1, 0));
    buffer.push(closed(2, 0));
    let batch = buffer.take();
    assert_eq!(batch.len(), 2);
    assert_eq!(buffer.len(), 0);
    buffer.push(closed(3, 0));
    buffer.push(closed(4, 0));
    let dropped = buffer.restore(batch);
    assert_eq!(dropped, 1);
    let ids: Vec<u64> = buffer.items.iter().map(|t| t.id).collect();
    assert_eq!(ids, vec![2, 3, 4]);
    buffer.clear();
    assert_eq!(buffer.len(), 0);
    assert_eq!(buffer.restore(Vec::new()), 0);
}
