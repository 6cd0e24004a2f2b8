use raytracer::schedule::{PixelCursor, PixelJob, WorkPlan};

fn jobs_of(plan: WorkPlan) -> Vec<PixelJob> {
    let mut cursor = PixelCursor::new(plan);
    let mut jobs = Vec::new();
    while let Some(job) = cursor.next() {
        jobs.push(job);
        assert!(jobs.len() <= 1_000_000);
    }
    assert!(cursor.is_done());
    assert_eq!(cursor.next(), None);
    jobs
}

fn reference_jobs(id: usize, n: usize, w: usize, h: usize, spp: usize) -> Vec<PixelJob> {
    let mut jobs = Vec::new();
    for sample in 0..spp {
        for line in (id..h).step_by(n) {
            for col in 0..w {
                jobs.push(PixelJob { sample, line, col, row: h - 1 - line });
            }
        }
    }
    jobs
}

#[test]
fn a_plan_needs_a_worker_of_the_pool() {
    assert_eq!(
        WorkPlan::new(2, 4, 640, 360, 10),
        Some(WorkPlan { thread_id: 2, num_threads: 4, image_width: 640, image_height: 360, samples_per_px: 10 })
    );
    assert_eq!(WorkPlan::new(0, 0, 640, 360, 10), None);
    assert_eq!(WorkPlan::new(4, 4, 640, 360, 10), None);
    assert_eq!(WorkPlan::new(5, 4, 640, 360, 10), None);
    assert!(WorkPlan::new(0, 1, 0, 0, 0).is_some());
}

#[test]
fn jobs_of_one_worker_in_order() {
    let plan = WorkPlan::new(1, 3, 2, 5, 2).unwrap();
    let expected = vec![
        PixelJob { sample: 0, line: 1, col: 0, row: 3 },
        PixelJob { sample: 0, line: 1, col: 1, row: 3 },
        PixelJob { sample: 0, line: 4, col: 0, row: 0 },
        PixelJob { sample: 0, line: 4, col: 1, row: 0 },
        PixelJob { sample: 1, line: 1, col: 0, row: 3 },
        PixelJob { sample: 1, line: 1, col: 1, row: 3 },
        PixelJob { sample: 1, line: 4, col: 0, row: 0 },
        PixelJob { sample: 1, line: 4, col: 1, row: 0 },
    ];
    assert_eq!(jobs_of(plan), expected);
}

#[test]
fn jobs_agree_with_a_stepped_range() {
    for n in 1..6 {
        for id in 0..n {
            for h in 0..9 {
                for w in 0..4 {
                    for spp in 0..3 {
                        let plan = WorkPlan::new(id, n, w, h, spp).unwrap();
                        assert_eq!(jobs_of(plan), reference_jobs(id, n, w, h, spp), "{:?}", plan);
                    }
                }
            }
        }
    }
}

#[test]
fn a_worker_above_the_image_has_nothing_to_do() {
    let plan = WorkPlan::new(7, 8, 4, 3, 5).unwrap();
    let mut cursor = PixelCursor::new(plan);
    assert!(cursor.is_done());
    assert_eq!(cursor.next(), None);
}

#[test]
fn a_fresh_cursor_is_not_done_where_there_is_work() {
    let cursor = PixelCursor::new(WorkPlan::new(0, 1, 1, 1, 1).unwrap());
    assert!(!cursor.is_done());
}

#[test]
fn the_pool_traces_every_sample_once() {
    let (n, w, h, spp) = (4usize, 5usize, 7usize, 3usize);
    let mut seen = vec![0usize; w * h * spp];
    let mut total = 0usize;
    for id in 0..n {
        for job in jobs_of(WorkPlan::new(id, n, w, h, spp).unwrap()) {
            assert!(job.sample < spp && job.row < h && job.col < w);
            assert_eq!(job.row, h - 1 - job.line);
            assert_eq!(job.line % n, id);
            seen[(job.sample * h + job.row) * w + job.col] += 1;
            total += 1;
        }
    }
    assert_eq!(total, w * h * spp);
    assert!(seen.iter().all(|count| *count == 1));
}

#[test]
fn more_workers_than_lines_leave_some_idle() {
    let (n, w, h, spp) = (10usize, 2usize, 3usize, 1usize);
    let counts: Vec<usize> = (0..n).map(|id| jobs_of(WorkPlan::new(id, n, w, h, spp).unwrap()).len()).collect();
    assert_eq!(counts, vec![2, 2, 2, 0, 0, 0, 0, 0, 0, 0]);
}

#[test]
fn a_step_near_the_largest_word_does_not_wrap() {
    let plan = WorkPlan::new(1, usize::MAX, 1, 3, 1).unwrap();
    assert_eq!(jobs_of(plan), vec![PixelJob { sample: 0, line: 1, col: 0, row: 1 }]);
}
