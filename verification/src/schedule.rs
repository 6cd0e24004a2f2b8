//! How the samples of an image are shared out among the workers of a pool.
//!
//! Scanlines are dealt out round robin: worker `thread_id` of `num_threads`
//! traces the scanlines `thread_id`, `thread_id + num_threads`, ... below the
//! image height, once per sample, every column of each. Scanlines count from
//! the bottom of the image; the framebuffer row of scanline `line` is
//! `image_height - 1 - line`.

use vstd::prelude::*;
use vstd::arithmetic::div_mod::{
    lemma_fundamental_div_mod,
    lemma_fundamental_div_mod_converse,
    lemma_mod_pos_bound,
};

verus! {

/// One sample of one pixel, as a worker has to trace it.
#[derive(Clone, Copy, Debug, PartialEq, Eq, Structural)]
pub struct PixelJob {
    /// Which pass over the image this is, from 0.
    pub sample: usize,
    /// The scanline, counted from the bottom of the image.
    pub line: usize,
    /// The column, counted from the left.
    pub col: usize,
    /// The framebuffer row, counted from the top.
    pub row: usize,
}

/// The share of one worker in the rendering of one image.
#[derive(Clone, Copy, Debug, PartialEq, Eq, Structural)]
pub struct WorkPlan {
    pub thread_id: usize,
    pub num_threads: usize,
    pub image_width: usize,
    pub image_height: usize,
    pub samples_per_px: usize,
}

impl WorkPlan {
    /// A plan names one of the workers of a pool that is not empty.
    pub open spec fn wf(self) -> bool {
        self.thread_id < self.num_threads
    }

    /// Whether `line` is a scanline of the image that this worker traces.
    pub open spec fn owns_line(self, line: int) -> bool {
        0 <= line < self.image_height && line % (self.num_threads as int) == self.thread_id
    }

    /// The number of scanlines that this worker traces in one pass.
    pub open spec fn line_count(self) -> int {
        (self.image_height + self.num_threads - 1 - self.thread_id) / (self.num_threads as int)
    }

    /// The number of jobs in one pass over the worker's scanlines.
    pub open spec fn pass_len(self) -> int {
        self.line_count() * self.image_width
    }

    /// The number of jobs the worker has in all.
    pub open spec fn job_count(self) -> int {
        self.samples_per_px * self.pass_len()
    }

    /// The `k`-th job of the worker: passes in order, within a pass the
    /// worker's scanlines from the bottom up, within a scanline the columns
    /// from the left.
    pub open spec fn job_at(self, k: int) -> PixelJob {
        let in_pass = k % self.pass_len();
        let line = self.thread_id + (in_pass / (self.image_width as int)) * self.num_threads;
        PixelJob {
            sample: (k / self.pass_len()) as usize,
            line: line as usize,
            col: (in_pass % (self.image_width as int)) as usize,
            row: (self.image_height - 1 - line) as usize,
        }
    }

    /// All jobs of the worker, in the order in which it traces them.
    pub open spec fn jobs(self) -> Seq<PixelJob> {
        Seq::new(self.job_count() as nat, |k: int| self.job_at(k))
    }

    /// The plan of worker `thread_id` in a pool of `num_threads`, or `None`
    /// where the pool has no such worker.
    pub fn new(
        thread_id: usize,
        num_threads: usize,
        image_width: usize,
        image_height: usize,
        samples_per_px: usize,
    ) -> (plan: Option<WorkPlan>)
        ensures
            plan is Some <==> thread_id < num_threads,
            plan is Some ==> plan->0 == (WorkPlan {
                thread_id,
                num_threads,
                image_width,
                image_height,
                samples_per_px,
            }),
    {
        if thread_id < num_threads {
            Some(WorkPlan { thread_id, num_threads, image_width, image_height, samples_per_px })
        } else {
            None
        }
    }
}

/// Where a worker stands in its plan.
pub struct PixelCursor {
    plan: WorkPlan,
    sample: usize,
    line: usize,
    col: usize,
}

impl PixelCursor {
    /// The plan that the cursor walks through.
    pub closed spec fn plan(&self) -> WorkPlan {
        self.plan
    }

    /// The cursor stands on a job of its plan, or behind the last one.
    pub closed spec fn wf(&self) -> bool {
        &&& self.plan.wf()
        &&& self.sample <= self.plan.samples_per_px
        &&& self.sample < self.plan.samples_per_px ==> {
            &&& self.plan.thread_id <= self.line < self.plan.image_height
            &&& (self.line - self.plan.thread_id) % (self.plan.num_threads as int) == 0
            &&& self.col < self.plan.image_width
        }
    }

    /// The number of jobs handed out so far.
    pub closed spec fn emitted(&self) -> int {
        if self.sample < self.plan.samples_per_px {
            position(self.plan, self.sample as int, self.line as int, self.col as int)
        } else {
            self.plan.job_count()
        }
    }

    /// A cursor on the first job of `plan`.
    pub fn new(plan: WorkPlan) -> (cursor: PixelCursor)
        requires
            plan.wf(),
        ensures
            cursor.wf(),
            cursor.plan() == plan,
            cursor.emitted() == 0,
    {
        let empty = plan.samples_per_px == 0 || plan.image_width == 0 || plan.thread_id
            >= plan.image_height;
        let cursor = PixelCursor {
            plan,
            sample: if empty {
                plan.samples_per_px
            } else {
                0
            },
            line: plan.thread_id,
            col: 0,
        };
        proof {
            if empty {
                if plan.thread_id >= plan.image_height {
                    lemma_no_lines(plan);
                }
                assert(plan.job_count() == 0) by (nonlinear_arith)
                    requires
                        plan.samples_per_px == 0 || plan.image_width == 0 || plan.line_count()
                            == 0,
                        plan.job_count() == plan.samples_per_px * (plan.line_count()
                            * plan.image_width),
                ;
            } else {
                assert(0int % (plan.num_threads as int) == 0);
                assert(0int / (plan.num_threads as int) == 0);
                assert((0 * plan.line_count() + 0) * plan.image_width + 0 == 0)
                    by (nonlinear_arith);
            }
        }
        cursor
    }

    /// Whether every job of the plan has been handed out.
    pub fn is_done(&self) -> (done: bool)
        requires
            self.wf(),
        ensures
            done <==> self.emitted() == self.plan().job_count(),
    {
        proof {
            if self.sample < self.plan.samples_per_px {
                lemma_position(self.plan, self.sample as int, self.line as int, self.col as int);
            }
        }
        self.sample >= self.plan.samples_per_px
    }

    /// Hands out the next job of the plan, or `None` once all are out.
    pub fn next(&mut self) -> (job: Option<PixelJob>)
        requires
            old(self).wf(),
        ensures
            final(self).wf(),
            final(self).plan() == old(self).plan(),
            match job {
                Some(j) => {
                    &&& old(self).emitted() < old(self).plan().job_count()
                    &&& j == old(self).plan().jobs()[old(self).emitted() as int]
                    &&& final(self).emitted() == old(self).emitted() + 1
                },
                None => {
                    &&& old(self).emitted() == old(self).plan().job_count()
                    &&& *final(self) == *old(self)
                },
            },
    {
        let plan = self.plan;
        if self.sample >= plan.samples_per_px {
            return None;
        }
        let job = PixelJob {
            sample: self.sample,
            line: self.line,
            col: self.col,
            row: plan.image_height - 1 - self.line,
        };
        proof {
            lemma_position(plan, self.sample as int, self.line as int, self.col as int);
        }
        if self.col + 1 < plan.image_width {
            self.col = self.col + 1;
        } else if plan.num_threads < plan.image_height - self.line {
            proof {
                lemma_next_line(plan, self.sample as int, self.line as int);
            }
            self.line = self.line + plan.num_threads;
            self.col = 0;
        } else {
            proof {
                lemma_next_pass(plan, self.sample as int, self.line as int);
            }
            self.sample = self.sample + 1;
            self.line = plan.thread_id;
            self.col = 0;
        }
        Some(job)
    }
}

/// The place of the job `(sample, line, col)` in the order of a plan.
pub open spec fn position(plan: WorkPlan, sample: int, line: int, col: int) -> int {
    (sample * plan.line_count() + (line - plan.thread_id) / (plan.num_threads as int))
        * plan.image_width + col
}

/// A worker whose first scanline lies above the image has no scanline.
proof fn lemma_no_lines(plan: WorkPlan)
    requires
        plan.wf(),
        plan.thread_id >= plan.image_height,
    ensures
        plan.line_count() == 0,
{
    let n = plan.num_threads as int;
    let x = plan.image_height + plan.num_threads - 1 - plan.thread_id;
    assert(0 <= x < n);
    lemma_fundamental_div_mod_converse(x, n, 0, x);
}

/// The index, among the worker's own, of one of its scanlines is below the
/// number of its scanlines; and the scanline after the last is not in the image.
proof fn lemma_line_index(plan: WorkPlan, line: int)
    requires
        plan.wf(),
        plan.thread_id <= line,
        (line - plan.thread_id) % (plan.num_threads as int) == 0,
    ensures
        line == plan.thread_id + ((line - plan.thread_id) / (plan.num_threads as int))
            * plan.num_threads,
        0 <= (line - plan.thread_id) / (plan.num_threads as int),
        line < plan.image_height <==> (line - plan.thread_id) / (plan.num_threads as int)
            < plan.line_count(),
{
    let n = plan.num_threads as int;
    let d = line - plan.thread_id;
    let li = d / n;
    lemma_fundamental_div_mod(d, n);
    assert(d == n * li);
    assert(li >= 0) by (nonlinear_arith)
        requires
            n > 0,
            d >= 0,
            d == n * li,
    ;
    let x = plan.image_height + plan.num_threads - 1 - plan.thread_id;
    let count = x / n;
    lemma_fundamental_div_mod(x, n);
    lemma_mod_pos_bound(x, n);
    assert(x == n * count + x % n);
    // d < height - id  <==>  n * li <= x - n  <==>  li < count
    assert((n * li <= x - n) <==> li < count) by (nonlinear_arith)
        requires
            n > 0,
            x == n * count + x % n,
            0 <= x % n < n,
    ;
    assert(count >= 0) by (nonlinear_arith)
        requires
            n > 0,
            x >= 0,
            x == n * count + x % n,
            0 <= x % n < n,
    ;
    assert(n * li == li * n) by (nonlinear_arith);
}

/// A job of the plan stands at its position, which is below the job count.
proof fn lemma_position(plan: WorkPlan, sample: int, line: int, col: int)
    requires
        plan.wf(),
        0 <= sample < plan.samples_per_px,
        plan.thread_id <= line < plan.image_height,
        (line - plan.thread_id) % (plan.num_threads as int) == 0,
        0 <= col < plan.image_width,
    ensures
        0 <= position(plan, sample, line, col) < plan.job_count(),
        plan.job_at(position(plan, sample, line, col)) == (PixelJob {
            sample: sample as usize,
            line: line as usize,
            col: col as usize,
            row: (plan.image_height - 1 - line) as usize,
        }),
{
    let n = plan.num_threads as int;
    let w = plan.image_width as int;
    let count = plan.line_count();
    let pass = plan.pass_len();
    let li = (line - plan.thread_id) / n;
    lemma_line_index(plan, line);
    let in_pass = li * w + col;
    let k = position(plan, sample, line, col);
    assert(0 <= in_pass < pass) by (nonlinear_arith)
        requires
            0 <= li < count,
            0 <= col < w,
            in_pass == li * w + col,
            pass == count * w,
    ;
    assert(k == sample * pass + in_pass) by (nonlinear_arith)
        requires
            k == (sample * count + li) * w + col,
            in_pass == li * w + col,
            pass == count * w,
    ;
    assert(0 <= k < plan.samples_per_px * pass) by (nonlinear_arith)
        requires
            k == sample * pass + in_pass,
            0 <= in_pass < pass,
            0 <= sample < plan.samples_per_px,
    ;
    lemma_fundamental_div_mod_converse(k, pass, sample, in_pass);
    lemma_fundamental_div_mod_converse(in_pass, w, li, col);
}

/// Stepping from the last column of a scanline to the worker's next one.
proof fn lemma_next_line(plan: WorkPlan, sample: int, line: int)
    requires
        plan.wf(),
        plan.thread_id <= line,
        (line - plan.thread_id) % (plan.num_threads as int) == 0,
        0 < plan.image_width,
    ensures
        (line + plan.num_threads - plan.thread_id) % (plan.num_threads as int) == 0,
        (line + plan.num_threads - plan.thread_id) / (plan.num_threads as int) == (line
            - plan.thread_id) / (plan.num_threads as int) + 1,
        position(plan, sample, line + plan.num_threads, 0) == position(
            plan,
            sample,
            line,
            plan.image_width - 1,
        ) + 1,
{
    let n = plan.num_threads as int;
    let w = plan.image_width as int;
    let count = plan.line_count();
    let d = line - plan.thread_id;
    let li = d / n;
    lemma_fundamental_div_mod(d, n);
    assert(d + n == (li + 1) * n + 0) by (nonlinear_arith)
        requires
            d == n * li,
    ;
    lemma_fundamental_div_mod_converse(d + n, n, li + 1, 0);
    assert((sample * count + (li + 1)) * w + 0 == (sample * count + li) * w + (w - 1) + 1)
        by (nonlinear_arith);
}

/// Stepping from the last job of a pass to the first of the next.
proof fn lemma_next_pass(plan: WorkPlan, sample: int, line: int)
    requires
        plan.wf(),
        0 <= sample < plan.samples_per_px,
        plan.thread_id <= line < plan.image_height,
        (line - plan.thread_id) % (plan.num_threads as int) == 0,
        line + plan.num_threads >= plan.image_height,
        0 < plan.image_width,
    ensures
        (plan.thread_id - plan.thread_id) % (plan.num_threads as int) == 0,
        position(plan, sample + 1, plan.thread_id as int, 0) == position(
            plan,
            sample,
            line,
            plan.image_width - 1,
        ) + 1,
        sample + 1 == plan.samples_per_px ==> plan.job_count() == position(
            plan,
            sample,
            line,
            plan.image_width - 1,
        ) + 1,
{
    let n = plan.num_threads as int;
    let w = plan.image_width as int;
    let count = plan.line_count();
    let li = (line - plan.thread_id) / n;
    lemma_line_index(plan, line);
    lemma_next_line(plan, sample, line);
    lemma_line_index(plan, line + plan.num_threads);
    assert(li + 1 == count);
    assert(0int % n == 0);
    assert(0int / n == 0);
    assert(((sample + 1) * count + 0) * w + 0 == (sample * count + li) * w + (w - 1) + 1)
        by (nonlinear_arith)
        requires
            li + 1 == count,
    ;
    assert(plan.samples_per_px * (count * w) == (plan.samples_per_px * count + 0) * w + 0)
        by (nonlinear_arith);
}

/// The number of scanlines below `height` that worker `id` of `n` traces.
pub open spec fn lines_of(id: int, n: int, height: int) -> int {
    (height + n - 1 - id) / n
}

/// The scanlines of the workers `0 .. upto` of a pool of `n`, counted together.
pub open spec fn pool_line_count(n: int, height: int, upto: int) -> int
    decreases upto,
{
    if upto <= 0 {
        0
    } else {
        pool_line_count(n, height, upto - 1) + lines_of(upto - 1, n, height)
    }
}

/// The jobs of the workers `0 .. upto` of a pool, counted together.
pub open spec fn pool_job_count(plan: WorkPlan, upto: int) -> int
    decreases upto,
{
    if upto <= 0 {
        0
    } else {
        pool_job_count(plan, upto - 1) + (WorkPlan { thread_id: (upto - 1) as usize, ..plan })
            .job_count()
    }
}

/// Every job of a worker asks for a sample below the sample count, at a
/// column of the image, on a scanline that the worker owns, and names the
/// framebuffer row of that scanline.
pub proof fn lemma_job_in_frame(plan: WorkPlan, k: int)
    requires
        plan.wf(),
        0 <= k < plan.job_count(),
    ensures
        plan.job_at(k).sample < plan.samples_per_px,
        plan.job_at(k).col < plan.image_width,
        plan.owns_line(plan.job_at(k).line as int),
        plan.job_at(k).row == plan.image_height - 1 - plan.job_at(k).line,
        k == position(
            plan,
            plan.job_at(k).sample as int,
            plan.job_at(k).line as int,
            plan.job_at(k).col as int,
        ),
{
    let n = plan.num_threads as int;
    let w = plan.image_width as int;
    let count = plan.line_count();
    let pass = plan.pass_len();
    assert(0int % n == 0);
    lemma_line_index(plan, plan.thread_id as int);
    assert(pass > 0 && w > 0 && count > 0) by (nonlinear_arith)
        requires
            0 <= k < plan.samples_per_px * pass,
            pass == count * w,
            w >= 0,
            count >= 0,
    ;
    let sample = k / pass;
    let in_pass = k % pass;
    lemma_fundamental_div_mod(k, pass);
    lemma_mod_pos_bound(k, pass);
    assert(0 <= sample < plan.samples_per_px) by (nonlinear_arith)
        requires
            k == pass * sample + in_pass,
            0 <= in_pass < pass,
            0 <= k < plan.samples_per_px * pass,
    ;
    let li = in_pass / w;
    let col = in_pass % w;
    lemma_fundamental_div_mod(in_pass, w);
    lemma_mod_pos_bound(in_pass, w);
    assert(0 <= li < count) by (nonlinear_arith)
        requires
            in_pass == w * li + col,
            0 <= col < w,
            0 <= in_pass < count * w,
    ;
    let line = plan.thread_id + li * n;
    assert(line >= plan.thread_id) by (nonlinear_arith)
        requires
            line == plan.thread_id + li * n,
            li >= 0,
            n > 0,
    ;
    lemma_fundamental_div_mod_converse(line - plan.thread_id, n, li, 0);
    lemma_line_index(plan, line);
    lemma_fundamental_div_mod_converse(line, n, li, plan.thread_id as int);
    assert(k == (sample * count + li) * w + col) by (nonlinear_arith)
        requires
            k == pass * sample + in_pass,
            in_pass == w * li + col,
            pass == count * w,
    ;
}

/// Every sample of every pixel is a job of the worker that owns the pixel's
/// scanline, and stands in that worker's order at `position`.
pub proof fn lemma_pixel_has_job(plan: WorkPlan, sample: int, row: int, col: int)
    requires
        plan.wf(),
        0 <= sample < plan.samples_per_px,
        0 <= row < plan.image_height,
        0 <= col < plan.image_width,
        plan.thread_id == (plan.image_height - 1 - row) % (plan.num_threads as int),
    ensures
        0 <= position(plan, sample, plan.image_height - 1 - row, col) < plan.job_count(),
        plan.job_at(position(plan, sample, plan.image_height - 1 - row, col)) == (PixelJob {
            sample: sample as usize,
            line: (plan.image_height - 1 - row) as usize,
            col: col as usize,
            row: row as usize,
        }),
{
    let n = plan.num_threads as int;
    let line = plan.image_height - 1 - row;
    lemma_fundamental_div_mod(line, n);
    let q = line / n;
    assert(q >= 0) by (nonlinear_arith)
        requires
            line == n * q + plan.thread_id,
            line >= 0,
            n > plan.thread_id,
    ;
    assert(line >= plan.thread_id) by (nonlinear_arith)
        requires
            line == n * q + plan.thread_id,
            q >= 0,
            n > 0,
    ;
    assert(line - plan.thread_id == q * n + 0) by (nonlinear_arith)
        requires
            line == n * q + plan.thread_id,
    ;
    lemma_fundamental_div_mod_converse(line - plan.thread_id, n, q, 0);
    lemma_position(plan, sample, line, col);
}

/// No sample of a pixel is traced twice: two jobs of one image and one pool
/// that ask for the same sample of the same pixel are the same job of the
/// same worker.
pub proof fn lemma_jobs_never_repeat(a: WorkPlan, i: int, b: WorkPlan, j: int)
    requires
        a.wf(),
        b.wf(),
        a.num_threads == b.num_threads,
        a.image_width == b.image_width,
        a.image_height == b.image_height,
        a.samples_per_px == b.samples_per_px,
        0 <= i < a.job_count(),
        0 <= j < b.job_count(),
        a.job_at(i).sample == b.job_at(j).sample,
        a.job_at(i).row == b.job_at(j).row,
        a.job_at(i).col == b.job_at(j).col,
    ensures
        a == b,
        i == j,
{
    lemma_job_in_frame(a, i);
    lemma_job_in_frame(b, j);
}

/// Worker `id` gets one more scanline when the image grows by the scanline
/// `height`, if that scanline is its own, and none otherwise.
proof fn lemma_lines_step(id: int, n: int, height: int)
    requires
        0 <= id < n,
        0 <= height,
    ensures
        lines_of(id, n, height + 1) == lines_of(id, n, height) + if height % n == id {
            1int
        } else {
            0int
        },
        lines_of(id, n, 0) == 0,
{
    lemma_fundamental_div_mod_converse(n - 1 - id, n, 0, n - 1 - id);
    let x = height + n - 1 - id;
    let q = x / n;
    let r = x % n;
    lemma_fundamental_div_mod(x, n);
    lemma_mod_pos_bound(x, n);
    let hq = height / n;
    let hr = height % n;
    lemma_fundamental_div_mod(height, n);
    lemma_mod_pos_bound(height, n);
    if r == n - 1 {
        assert(x + 1 == (q + 1) * n + 0) by (nonlinear_arith)
            requires
                x == n * q + r,
                r == n - 1,
        ;
        lemma_fundamental_div_mod_converse(x + 1, n, q + 1, 0);
        // height - id == n * q, so height % n == id
        assert(height == q * n + id) by (nonlinear_arith)
            requires
                x == n * q + r,
                r == n - 1,
                x == height + n - 1 - id,
        ;
        lemma_fundamental_div_mod_converse(height, n, q, id);
    } else {
        assert(x + 1 == q * n + (r + 1)) by (nonlinear_arith)
            requires
                x == n * q + r,
        ;
        lemma_fundamental_div_mod_converse(x + 1, n, q, r + 1);
        if hr == id {
            assert(x == (hq + 1) * n + (-1)) by (nonlinear_arith)
                requires
                    height == n * hq + hr,
                    hr == id,
                    x == height + n - 1 - id,
            ;
            assert(x == hq * n + (n - 1)) by (nonlinear_arith)
                requires
                    x == (hq + 1) * n + (-1),
            ;
            lemma_fundamental_div_mod_converse(x, n, hq, n - 1);
        }
    }
}

/// The workers `0 .. upto` together get one more scanline when the image
/// grows by the scanline `height`, if its owner is among them.
proof fn lemma_pool_lines_step(n: int, height: int, upto: int)
    requires
        0 < n,
        0 <= upto <= n,
        0 <= height,
    ensures
        pool_line_count(n, height + 1, upto) == pool_line_count(n, height, upto) + if height % n
            < upto {
            1int
        } else {
            0int
        },
        pool_line_count(n, 0, upto) == 0,
    decreases upto,
{
    lemma_mod_pos_bound(height, n);
    if upto > 0 {
        lemma_pool_lines_step(n, height, upto - 1);
        lemma_lines_step(upto - 1, n, height);
    }
}

/// The workers of a pool own every scanline of the image between them, each
/// scanline once.
pub proof fn lemma_pool_owns_every_line(n: int, height: int)
    requires
        0 < n,
        0 <= height,
    ensures
        pool_line_count(n, height, n) == height,
    decreases height,
{
    if height == 0 {
        lemma_pool_lines_step(n, 0, n);
    } else {
        lemma_pool_owns_every_line(n, height - 1);
        lemma_pool_lines_step(n, height - 1, n);
        lemma_mod_pos_bound(height - 1, n);
    }
}

/// The jobs of the first workers of a pool are as many as their scanlines
/// times the width times the samples.
proof fn lemma_pool_jobs_upto(plan: WorkPlan, upto: int)
    requires
        0 <= upto <= plan.num_threads,
    ensures
        pool_job_count(plan, upto) == plan.samples_per_px * (pool_line_count(
            plan.num_threads as int,
            plan.image_height as int,
            upto,
        ) * plan.image_width),
    decreases upto,
{
    if upto > 0 {
        lemma_pool_jobs_upto(plan, upto - 1);
        let one = WorkPlan { thread_id: (upto - 1) as usize, ..plan };
        let rest = pool_line_count(plan.num_threads as int, plan.image_height as int, upto - 1);
        let spp = plan.samples_per_px as int;
        let w = plan.image_width as int;
        assert(one.line_count() == lines_of(
            upto - 1,
            plan.num_threads as int,
            plan.image_height as int,
        ));
        assert(spp * (rest * w) + spp * (one.line_count() * w) == spp * ((rest
            + one.line_count()) * w)) by (nonlinear_arith);
    } else {
        assert(plan.samples_per_px * (0 * plan.image_width) == 0) by (nonlinear_arith);
    }
}

/// The jobs of all workers of a pool are as many as the image has samples:
/// its height times its width times the samples of a pixel.
pub proof fn lemma_pool_traces_every_sample(plan: WorkPlan)
    requires
        0 < plan.num_threads,
    ensures
        pool_job_count(plan, plan.num_threads as int) == plan.samples_per_px * (plan.image_height
            * plan.image_width),
{
    lemma_pool_jobs_upto(plan, plan.num_threads as int);
    lemma_pool_owns_every_line(plan.num_threads as int, plan.image_height as int);
}

} // verus!
