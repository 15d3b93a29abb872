use world2::chunk::{ChunkKey, Face};
use world2::jobs::JobQueue;

#[test]
fn newer_requests_supersede_older_overlapping_jobs() {
    let parent = ChunkKey::new(Face::Pz, 1, 0, 0);
    let child = ChunkKey::new(Face::Pz, 2, 1, 1);
    let elsewhere = ChunkKey::new(Face::Pz, 2, 3, 3);
    let mut queue: JobQueue<&str> = JobQueue::new();

    assert_eq!(queue.submit_superseding(1, parent, "parent"), 0);
    assert_eq!(queue.submit_superseding(2, elsewhere, "elsewhere"), 0);
    assert_eq!(queue.submit_superseding(3, child, "child"), 1);
    assert_eq!(queue.len(), 2);
    // An older epoch supersedes nothing.
    assert_eq!(queue.submit_superseding(1, child, "late"), 0);
    assert_eq!(queue.len(), 3);

    let first = queue.pop_front().unwrap();
    assert_eq!((first.epoch, first.key, first.job), (2, elsewhere, "elsewhere"));
    let second = queue.pop_front().unwrap();
    assert_eq!((second.epoch, second.job), (3, "child"));
    let third = queue.pop_front().unwrap();
    assert_eq!((third.epoch, third.job), (1, "late"));
    assert!(queue.pop_front().is_none());
}

#[test]
fn metadata_requests_replace_queued_jobs_for_the_same_chunk() {
    let a = ChunkKey::new(Face::Nx, 2, 0, 0);
    let b = ChunkKey::new(Face::Nx, 2, 1, 0);
    let mut queue: JobQueue<u8> = JobQueue::new();
    queue.submit_replacing(1, a, 10);
    queue.submit_replacing(2, b, 20);
    queue.submit_replacing(3, a, 30);
    assert_eq!(queue.len(), 2);
    let first = queue.pop_front().unwrap();
    assert_eq!((first.epoch, first.key, first.job), (2, b, 20));
    let second = queue.pop_front().unwrap();
    assert_eq!((second.epoch, second.key, second.job), (3, a, 30));
}
