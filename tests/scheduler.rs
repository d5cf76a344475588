use raytrace::framebuffer::{Collector, PlacedPixel};
use raytrace::scheduler::{PixelJobs, WorkerAction, WorkerEvent, WorkerState};

#[test]
fn jobs_walk_rows_from_the_bottom() {
    let mut jobs = PixelJobs::new(3, 2);
    let mut got = Vec::new();
    while let Some(c) = jobs.next_job() {
        got.push(c);
    }
    assert_eq!(got, vec![(0, 0), (1, 0), (2, 0), (0, 1), (1, 1), (2, 1)]);
    assert_eq!(jobs.next_job(), None);
}

#[test]
fn jobs_cover_grid_exactly_once() {
    for &(w, h) in &[(1usize, 1usize), (7, 3), (20, 11), (4, 9)] {
        let mut jobs = PixelJobs::new(w, h);
        let mut seen = vec![0u32; w * h];
        let mut n = 0;
        while let Some((i, j)) = jobs.next_job() {
            assert!(i < w && j < h);
            seen[j * w + i] += 1;
            n += 1;
        }
        assert_eq!(n, w * h);
        assert!(seen.iter().all(|&c| c == 1));
    }
}

#[test]
fn empty_grid_has_no_jobs() {
    let mut jobs = PixelJobs::new(0, 4);
    assert_eq!(jobs.next_job(), None);
}

#[test]
fn worker_runs_jobs_until_terminated() {
    let s = WorkerState::Idle;
    let (s, a) = s.step(WorkerEvent::NewJob);
    assert_eq!((s, a), (WorkerState::Running, WorkerAction::RunJob));
    let (s, a) = s.step(WorkerEvent::ResultSent);
    assert_eq!((s, a), (WorkerState::Idle, WorkerAction::AwaitMessage));
    let (s, a) = s.step(WorkerEvent::Terminate);
    assert_eq!((s, a), (WorkerState::Terminated, WorkerAction::Exit));
}

fn render_with_workers(w: usize, h: usize, workers: usize) -> Vec<[u8; 4]> {
    // jobs are handed round-robin; each worker answers its own jobs last
    // first, so results arrive out of order
    let mut jobs = PixelJobs::new(w, h);
    let mut queues: Vec<Vec<(usize, usize)>> = vec![Vec::new(); workers];
    let mut n = 0;
    while let Some(c) = jobs.next_job() {
        queues[n % workers].push(c);
        n += 1;
    }
    let mut collector = Collector::new(w, h);
    let mut received = 0;
    for q in queues.iter_mut() {
        while let Some((i, j)) = q.pop() {
            assert!(!collector.is_done());
            collector.receive(Ok(PlacedPixel { i, j, color: [i as u8, j as u8, 1, 255] }));
            received += 1;
        }
    }
    assert_eq!(received, w * h);
    assert!(collector.is_done());
    collector.into_image()
}

#[test]
fn every_pixel_collected_once_with_one_worker() {
    let (w, h) = (20usize, 11usize);
    let image = render_with_workers(w, h, 1);
    for row in 0..h {
        for i in 0..w {
            let j = h - 1 - row;
            assert_eq!(image[row * w + i], [i as u8, j as u8, 1, 255]);
        }
    }
}

#[test]
fn every_pixel_collected_once_with_more_workers_than_pixels() {
    let (w, h) = (3usize, 2usize);
    let image = render_with_workers(w, h, 10);
    for row in 0..h {
        for i in 0..w {
            let j = h - 1 - row;
            assert_eq!(image[row * w + i], [i as u8, j as u8, 1, 255]);
        }
    }
}

#[test]
fn one_terminate_message_per_worker_stops_the_pool() {
    let mut pool = vec![WorkerState::Idle; 5];
    // two jobs for five workers
    for k in 0..2 {
        let (s, a) = pool[k].step(WorkerEvent::NewJob);
        assert_eq!(a, WorkerAction::RunJob);
        pool[k] = s.step(WorkerEvent::ResultSent).0;
    }
    // each terminate message is taken by a worker still listening
    for _ in 0..5 {
        let k = pool.iter().position(|s| *s == WorkerState::Idle).unwrap();
        let (s, a) = pool[k].step(WorkerEvent::Terminate);
        assert_eq!(a, WorkerAction::Exit);
        pool[k] = s;
    }
    assert!(pool.iter().all(|s| *s == WorkerState::Terminated));
}
