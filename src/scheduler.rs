use crate::framebuffer::{
    all_in_grid, apply_results, blank, coords_distinct, in_grid, lemma_collect_complete, msg_color, msg_i,
    msg_j, msg_offset, placeholder, ResultMessage,
};
use vstd::prelude::*;
use vstd::set_lib::set_int_range;

verus! {

/// Pixel of the `k`-th job: jobs walk the grid row by row, starting at the
/// bottom row `j == 0`, and left to right within a row.
pub open spec fn job_coords(width: nat, k: nat) -> (nat, nat) {
    (k % width, k / width)
}

/// Position of pixel `(i, j)` in the order in which jobs are handed out.
pub open spec fn job_index(width: nat, i: nat, j: nat) -> nat {
    j * width + i
}

/// Hands out one job per pixel of a `width` by `height` grid.
pub struct PixelJobs {
    width: usize,
    height: usize,
    next: usize,
}

impl PixelJobs {
    pub closed spec fn width(&self) -> nat {
        self.width as nat
    }

    pub closed spec fn height(&self) -> nat {
        self.height as nat
    }

    /// How many jobs have been handed out.
    pub closed spec fn issued(&self) -> nat {
        self.next as nat
    }

    pub open spec fn total(&self) -> nat {
        self.width() * self.height()
    }

    pub closed spec fn wf(&self) -> bool {
        &&& self.width * self.height <= usize::MAX
        &&& self.next <= self.width * self.height
    }

    pub fn new(width: usize, height: usize) -> (r: PixelJobs)
        requires
            width * height <= usize::MAX,
        ensures
            r.wf(),
            r.width() == width,
            r.height() == height,
            r.issued() == 0,
    {
        PixelJobs { width, height, next: 0 }
    }

    /// The pixel of the next job, or `None` once every pixel has had one.
    pub fn next_job(&mut self) -> (r: Option<(usize, usize)>)
        requires
            old(self).wf(),
        ensures
            final(self).wf(),
            final(self).width() == old(self).width(),
            final(self).height() == old(self).height(),
            old(self).issued() < old(self).total() ==> {
                &&& final(self).issued() == old(self).issued() + 1
                &&& r matches Some(c) && (c.0 as nat, c.1 as nat) == job_coords(
                    old(self).width(),
                    old(self).issued(),
                )
            },
            old(self).issued() == old(self).total() ==> r is None && final(self).issued()
                == old(self).issued(),
    {
        if self.next < self.width * self.height {
            let k = self.next;
            self.next = self.next + 1;
            Some((k % self.width, k / self.width))
        } else {
            None
        }
    }
}

/// The jobs of a `width` by `height` grid name each of its pixels exactly
/// once: every job lies in the grid, no two jobs share a pixel, and every
/// pixel has a job.
pub proof fn lemma_jobs_cover_grid(width: nat, height: nat)
    ensures
        forall|k: nat|
            k < width * height ==> (#[trigger] job_coords(width, k)).0 < width && job_coords(
                width,
                k,
            ).1 < height,
        forall|k1: nat, k2: nat|
            k1 < width * height && k2 < width * height && k1 != k2 ==> #[trigger] job_coords(
                width,
                k1,
            ) != #[trigger] job_coords(width, k2),
        forall|i: nat, j: nat|
            i < width && j < height ==> #[trigger] job_index(width, i, j) < width * height
                && job_coords(width, job_index(width, i, j)) == (i, j),
{
    assert forall|k: nat| k < width * height implies (#[trigger] job_coords(width, k)).0 < width
        && job_coords(width, k).1 < height by {
        lemma_job_in_grid(width, height, k);
    }
    assert forall|k1: nat, k2: nat|
        k1 < width * height && k2 < width * height && k1 != k2 implies #[trigger] job_coords(
        width,
        k1,
    ) != #[trigger] job_coords(width, k2) by {
        lemma_job_in_grid(width, height, k1);
        lemma_job_in_grid(width, height, k2);
        let w = width as int;
        let (a, b) = (k1 as int, k2 as int);
        let (q1, r1, q2, r2) = (a / w, a % w, b / w, b % w);
        assert(a == q1 * w + r1 && b == q2 * w + r2) by (nonlinear_arith)
            requires
                w > 0,
                q1 == a / w,
                r1 == a % w,
                q2 == b / w,
                r2 == b % w,
        ;
    }
    assert forall|i: nat, j: nat| i < width && j < height implies #[trigger] job_index(width, i, j)
        < width * height && job_coords(width, job_index(width, i, j)) == (i, j) by {
        let w = width as int;
        let k: int = j * w + i;
        assert(k < w * height) by (nonlinear_arith)
            requires
                k == j * w + i,
                i < w,
                j < height,
        ;
        vstd::arithmetic::div_mod::lemma_fundamental_div_mod_converse(k, w, j as int, i as int);
        assert(job_coords(width, job_index(width, i, j)) == (i, j));
    }
}

/// A render is complete whatever the number of workers and the order in
/// which results come back: where the `k`-th result to arrive answers job
/// `order[k]`, and each job of the grid is answered exactly once, the
/// results name every pixel once and the framebuffer they fill has each
/// slot set by exactly one of them.
pub proof fn lemma_job_results_fill_grid(
    width: nat,
    height: nat,
    msgs: Seq<ResultMessage>,
    order: Seq<nat>,
)
    requires
        msgs.len() == width * height,
        order.len() == msgs.len(),
        order.no_duplicates(),
        forall|k: int| 0 <= k < order.len() ==> #[trigger] order[k] < width * height,
        forall|k: int|
            0 <= k < msgs.len() ==> (msg_i(#[trigger] msgs[k]), msg_j(msgs[k])) == job_coords(
                width,
                order[k],
            ),
    ensures
        all_in_grid(width, height, msgs),
        coords_distinct(msgs),
        msgs.map_values(|m: ResultMessage| msg_offset(width, height, m)).to_set() == set_int_range(
            0,
            (width * height) as int,
        ),
        forall|k: int|
            0 <= k < msgs.len() ==> apply_results(width, height, blank(width * height), msgs)[msg_offset(
                width,
                height,
                #[trigger] msgs[k],
            )] == msg_color(msgs[k], placeholder()),
{
    lemma_jobs_cover_grid(width, height);
    assert forall|k: int| 0 <= k < msgs.len() implies in_grid(
        width,
        height,
        msg_i(#[trigger] msgs[k]),
        msg_j(msgs[k]),
    ) by {
        assert(order[k] < width * height);
        let c = job_coords(width, order[k]);
        assert(c.0 < width && c.1 < height);
    }
    assert forall|a: int, b: int|
        0 <= a < msgs.len() && 0 <= b < msgs.len() && a != b implies (
        msg_i(#[trigger] msgs[a]),
        msg_j(msgs[a]),
    ) != (msg_i(#[trigger] msgs[b]), msg_j(msgs[b])) by {
        assert(order[a] != order[b]);
        assert(order[a] < width * height && order[b] < width * height);
        assert(job_coords(width, order[a]) != job_coords(width, order[b]));
    }
    lemma_collect_complete(width, height, msgs);
}

proof fn lemma_job_in_grid(width: nat, height: nat, k: nat)
    requires
        k < width * height,
    ensures
        width > 0,
        k % width < width,
        k / width < height,
{
    let w = width as int;
    let k = k as int;
    assert(w > 0) by (nonlinear_arith)
        requires
            k < w * height,
            k >= 0,
            w >= 0,
            height >= 0,
    ;
    let q = k / w;
    let r = k % w;
    assert(k == q * w + r && 0 <= r < w) by (nonlinear_arith)
        requires
            w > 0,
            q == k / w,
            r == k % w,
    ;
    assert(q < height) by (nonlinear_arith)
        requires
            k == q * w + r,
            0 <= r < w,
            k < w * height,
    ;
}

/// Where a worker thread stands.
#[derive(PartialEq, Eq, Structural, Clone, Copy, Debug)]
pub enum WorkerState {
    /// Waiting for the next message.
    Idle,
    /// Running a job; its result has not been sent yet.
    Running,
    /// Told to terminate; the thread has exited for good.
    Terminated,
}

/// What happens to a worker.
#[derive(PartialEq, Eq, Structural, Clone, Copy, Debug)]
pub enum WorkerEvent {
    /// A job was taken from the queue.
    NewJob,
    /// The running job's result went out to the collector.
    ResultSent,
    /// The terminate message was taken from the queue.
    Terminate,
}

/// What the worker thread does next.
#[derive(PartialEq, Eq, Structural, Clone, Copy, Debug)]
pub enum WorkerAction {
    /// Run the job just taken and send its result.
    RunJob,
    /// Take the next message from the queue.
    AwaitMessage,
    /// Leave the thread's loop.
    Exit,
}

/// The events a worker in `state` can meet: an idle worker takes messages,
/// a running one finishes its job, a terminated one meets nothing more.
pub open spec fn accepts(state: WorkerState, event: WorkerEvent) -> bool {
    match state {
        WorkerState::Idle => event != WorkerEvent::ResultSent,
        WorkerState::Running => event == WorkerEvent::ResultSent,
        WorkerState::Terminated => false,
    }
}

pub open spec fn worker_next(state: WorkerState, event: WorkerEvent) -> (WorkerState, WorkerAction) {
    match event {
        WorkerEvent::NewJob => (WorkerState::Running, WorkerAction::RunJob),
        WorkerEvent::ResultSent => (WorkerState::Idle, WorkerAction::AwaitMessage),
        WorkerEvent::Terminate => (WorkerState::Terminated, WorkerAction::Exit),
    }
}

impl WorkerState {
    /// One transition of a worker: `Idle` takes a job and runs it, `Running`
    /// returns to `Idle` once the result is sent, and the terminate message
    /// moves an idle worker to `Terminated`, which it never leaves.
    pub fn step(self, event: WorkerEvent) -> (r: (WorkerState, WorkerAction))
        requires
            accepts(self, event),
        ensures
            r == worker_next(self, event),
            r.0 == WorkerState::Terminated <==> r.1 == WorkerAction::Exit,
    {
        match event {
            WorkerEvent::NewJob => (WorkerState::Running, WorkerAction::RunJob),
            WorkerEvent::ResultSent => (WorkerState::Idle, WorkerAction::AwaitMessage),
            WorkerEvent::Terminate => (WorkerState::Terminated, WorkerAction::Exit),
        }
    }
}

} // verus!
