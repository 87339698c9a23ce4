//! The worker pool's protocol: what the pool decides when it is made, when
//! it is given work and when it shuts down, and what a worker does with the
//! message it took from the queue. The threads and the queue themselves
//! live outside this library.

use vstd::prelude::*;

verus! {

/// Why a pool could not be made or did not take a job.
#[derive(Debug)]
pub enum ThreadPoolError {
    /// A pool needs at least one worker.
    ZeroSize,
    /// The queue did not take the job; the text says why.
    ThreadExecution(String),
}

impl ThreadPoolError {
    /// The text under which an error is reported.
    pub open spec fn message_spec(&self) -> Seq<char> {
        match self {
            ThreadPoolError::ZeroSize => "thread pool size must be larger than zero"@,
            ThreadPoolError::ThreadExecution(details) => details@,
        }
    }

    /// The text under which the error is reported.
    pub fn message(&self) -> (text: String)
        ensures
            text@ == self.message_spec(),
    {
        match self {
            ThreadPoolError::ZeroSize => "thread pool size must be larger than zero".to_owned(),
            ThreadPoolError::ThreadExecution(details) => details.clone(),
        }
    }
}

/// Where a pool stands in its life.
#[derive(Debug, Clone, Copy, PartialEq, Eq, Structural)]
pub enum Lifecycle {
    /// The pool takes work.
    Running,
    /// The termination signals are out; the workers are being joined.
    ShuttingDown,
    /// Every worker has exited.
    Stopped,
}

/// What travels through the queue: a job, or the signal that tells one
/// worker to exit.
pub enum Message<J> {
    NewJob(J),
    Terminate,
}

/// What a worker does next.
pub enum Step<J> {
    /// Run the job to completion, then take the next message.
    Run(J),
    /// Leave the loop.
    Exit,
}

/// What a worker does with the message it took from the queue: it runs a
/// job, and exits on the termination signal.
pub fn worker_step<J>(message: Message<J>) -> (step: Step<J>)
    ensures
        step == match message {
            Message::NewJob(job) => Step::Run(job),
            Message::Terminate => Step::<J>::Exit,
        },
{
    match message {
        Message::NewJob(job) => Step::Run(job),
        Message::Terminate => Step::Exit,
    }
}

/// The text of the error for a job that came after shutdown had begun.
pub open spec fn closed_text() -> Seq<char> {
    "sending on a closed channel"@
}

/// The pool's own record of its size and of where it stands in its life.
#[derive(Debug)]
pub struct PoolControl {
    size: usize,
    lifecycle: Lifecycle,
}

/// A pool's record as contracts see it.
pub struct ControlView {
    pub size: nat,
    pub lifecycle: Lifecycle,
}

impl View for PoolControl {
    type V = ControlView;

    closed spec fn view(&self) -> ControlView {
        ControlView { size: self.size as nat, lifecycle: self.lifecycle }
    }
}

impl PoolControl {
    /// The record of a running pool of `size` workers; a pool of none is
    /// refused.
    pub fn new(size: usize) -> (made: Result<PoolControl, ThreadPoolError>)
        ensures
            size == 0 ==> made == Err::<PoolControl, ThreadPoolError>(ThreadPoolError::ZeroSize),
            size > 0 ==> made is Ok && made->Ok_0@ == (ControlView {
                size: size as nat,
                lifecycle: Lifecycle::Running,
            }),
    {
        if size > 0 {
            Ok(PoolControl { size, lifecycle: Lifecycle::Running })
        } else {
            Err(ThreadPoolError::ZeroSize)
        }
    }

    /// The number of workers.
    pub fn size(&self) -> (size: usize)
        ensures
            size == self@.size,
    {
        self.size
    }

    /// Where the pool stands in its life.
    pub fn lifecycle(&self) -> (lifecycle: Lifecycle)
        ensures
            lifecycle == self@.lifecycle,
    {
        self.lifecycle
    }

    /// Whether a job may be put in the queue: only while the pool runs.
    /// Once shutdown has begun the job is refused with an execution error.
    pub fn accept(&self) -> (accepted: Result<(), ThreadPoolError>)
        ensures
            self@.lifecycle == Lifecycle::Running ==> accepted is Ok,
            self@.lifecycle != Lifecycle::Running ==> (accepted matches Err(
                ThreadPoolError::ThreadExecution(details),
            ) && details@ == closed_text()),
    {
        match self.lifecycle {
            Lifecycle::Running => Ok(()),
            _ => Err(ThreadPoolError::ThreadExecution("sending on a closed channel".to_owned())),
        }
    }

    /// Begins shutdown and tells how many termination signals go into the
    /// queue: one for each worker the first time, none after that.
    pub fn begin_shutdown(&mut self) -> (signals: usize)
        ensures
            final(self)@.size == old(self)@.size,
            old(self)@.lifecycle == Lifecycle::Running ==> {
                &&& signals == old(self)@.size
                &&& final(self)@.lifecycle == Lifecycle::ShuttingDown
            },
            old(self)@.lifecycle != Lifecycle::Running ==> {
                &&& signals == 0
                &&& final(self)@ == old(self)@
            },
    {
        match self.lifecycle {
            Lifecycle::Running => {
                self.lifecycle = Lifecycle::ShuttingDown;
                self.size
            },
            _ => 0,
        }
    }

    /// Records that every worker has been joined.
    pub fn finish_shutdown(&mut self)
        ensures
            final(self)@.size == old(self)@.size,
            final(self)@.lifecycle == if old(self)@.lifecycle == Lifecycle::ShuttingDown {
                Lifecycle::Stopped
            } else {
                old(self)@.lifecycle
            },
    {
        match self.lifecycle {
            Lifecycle::ShuttingDown => {
                self.lifecycle = Lifecycle::Stopped;
            },
            _ => {},
        }
    }
}

/// The jobs that wait in `queue`, first in first.
pub open spec fn jobs_of<J>(queue: Seq<Message<J>>) -> Seq<J>
    decreases queue.len(),
{
    if queue.len() == 0 {
        Seq::empty()
    } else {
        match queue.last() {
            Message::NewJob(job) => jobs_of(queue.drop_last()).push(job),
            Message::Terminate => jobs_of(queue.drop_last()),
        }
    }
}

/// The number of termination signals that wait in `queue`.
pub open spec fn signals_of<J>(queue: Seq<Message<J>>) -> nat
    decreases queue.len(),
{
    if queue.len() == 0 {
        0
    } else {
        match queue.last() {
            Message::NewJob(_) => signals_of(queue.drop_last()),
            Message::Terminate => signals_of(queue.drop_last()) + 1,
        }
    }
}

/// Whether no job stands behind a termination signal in `queue`.
pub open spec fn jobs_first<J>(queue: Seq<Message<J>>) -> bool {
    forall|i: int, j: int|
        0 <= i < j < queue.len() && queue[i] is Terminate ==> queue[j] is Terminate
}

/// `n` termination signals.
pub open spec fn signals<J>(n: nat) -> Seq<Message<J>> {
    Seq::new(n, |i: int| Message::Terminate)
}

/// The pool as its protocol sees it: the queue that the workers share, and
/// what has been handed in and handed out so far.
pub struct PoolModel<J> {
    /// The number of workers the pool was made with.
    pub size: nat,
    pub lifecycle: Lifecycle,
    /// What waits in the queue, first in first.
    pub queue: Seq<Message<J>>,
    /// The number of workers that have not taken a termination signal.
    pub live: nat,
    /// Every job the pool has taken, in the order of submission.
    pub submitted: Seq<J>,
    /// Every job a worker has taken from the queue, in that order.
    pub ran: Seq<J>,
}

impl<J> PoolModel<J> {
    /// A pool of `size` workers that has taken no job yet.
    pub open spec fn init(size: nat) -> Self {
        PoolModel {
            size,
            lifecycle: Lifecycle::Running,
            queue: Seq::empty(),
            live: size,
            submitted: Seq::empty(),
            ran: Seq::empty(),
        }
    }

    /// The pool after it has taken `job`.
    pub open spec fn submit(self, job: J) -> Self {
        PoolModel {
            queue: self.queue.push(Message::NewJob(job)),
            submitted: self.submitted.push(job),
            ..self
        }
    }

    /// The pool after shutdown has begun: one termination signal for each
    /// worker stands at the end of the same queue.
    pub open spec fn begin_shutdown(self) -> Self {
        PoolModel {
            lifecycle: Lifecycle::ShuttingDown,
            queue: self.queue + signals(self.size),
            ..self
        }
    }

    /// The pool after a worker has taken the message at the head of the
    /// queue: a job is run, a termination signal ends the worker.
    pub open spec fn take(self) -> Self {
        match self.queue[0] {
            Message::NewJob(job) => PoolModel {
                queue: self.queue.drop_first(),
                ran: self.ran.push(job),
                ..self
            },
            Message::Terminate => PoolModel {
                queue: self.queue.drop_first(),
                live: (self.live - 1) as nat,
                ..self
            },
        }
    }

    /// The pool after its last worker has been joined.
    pub open spec fn finish(self) -> Self {
        PoolModel { lifecycle: Lifecycle::Stopped, ..self }
    }

    /// What holds of a pool at every moment of its life.
    ///
    /// No job is lost or doubled: the jobs taken by the pool are those
    /// handed to workers, followed by those that wait. No job waits behind a
    /// termination signal, and as many signals wait as workers live; while
    /// a job heads the queue, every worker lives.
    pub open spec fn inv(self) -> bool {
        &&& self.size > 0
        &&& self.live <= self.size
        &&& self.submitted == self.ran + jobs_of(self.queue)
        &&& jobs_first(self.queue)
        &&& self.lifecycle == Lifecycle::Running ==> self.live == self.size && signals_of(
            self.queue,
        ) == 0
        &&& self.lifecycle != Lifecycle::Running ==> signals_of(self.queue) == self.live
        &&& self.queue.len() > 0 && self.queue[0] is NewJob ==> self.live == self.size
        &&& self.lifecycle == Lifecycle::Stopped ==> self.live == 0
    }
}

/// What the head of a queue adds to its jobs and to its signals.
proof fn lemma_queue_head<J>(queue: Seq<Message<J>>)
    requires
        queue.len() > 0,
    ensures
        jobs_of(queue) == match queue[0] {
            Message::NewJob(job) => seq![job] + jobs_of(queue.drop_first()),
            Message::Terminate => jobs_of(queue.drop_first()),
        },
        signals_of(queue) == match queue[0] {
            Message::NewJob(_) => signals_of(queue.drop_first()),
            Message::Terminate => signals_of(queue.drop_first()) + 1,
        },
    decreases queue.len(),
{
    if queue.len() == 1 {
        assert(queue.drop_first() =~= Seq::empty());
        assert(queue.drop_last() =~= Seq::empty());
        assert(jobs_of(queue.drop_last()) =~= Seq::empty());
        assert(jobs_of(queue) =~= match queue[0] {
            Message::NewJob(job) => seq![job],
            Message::Terminate => Seq::empty(),
        });
    } else {
        lemma_queue_head(queue.drop_last());
        assert(queue.drop_last().drop_first() =~= queue.drop_first().drop_last());
        assert(queue.drop_first().last() == queue.last());
        assert(queue.drop_last()[0] == queue[0]);
        assert(jobs_of(queue) =~= match queue[0] {
            Message::NewJob(job) => seq![job] + jobs_of(queue.drop_first()),
            Message::Terminate => jobs_of(queue.drop_first()),
        });
    }
}

/// Termination signals at the end of a queue add no job.
proof fn lemma_signals_appended<J>(queue: Seq<Message<J>>, n: nat)
    ensures
        jobs_of(queue + signals(n)) == jobs_of(queue),
        signals_of(queue + signals(n)) == signals_of(queue) + n,
    decreases n,
{
    let whole = queue + signals::<J>(n);
    if n == 0 {
        assert(whole =~= queue);
    } else {
        lemma_signals_appended(queue, (n - 1) as nat);
        assert(whole.drop_last() =~= queue + signals::<J>((n - 1) as nat));
        assert(whole.last() == Message::<J>::Terminate);
    }
}

/// A new pool is in order.
pub proof fn lemma_init_holds<J>(size: nat)
    requires
        size > 0,
    ensures
        PoolModel::<J>::init(size).inv(),
{
    assert(Seq::<J>::empty() + jobs_of(Seq::<Message<J>>::empty()) =~= Seq::empty());
}

/// A running pool stays in order when it takes a job.
pub proof fn lemma_submit_holds<J>(pool: PoolModel<J>, job: J)
    requires
        pool.inv(),
        pool.lifecycle == Lifecycle::Running,
    ensures
        pool.submit(job).inv(),
{
    let after = pool.submit(job);
    assert(after.queue.drop_last() =~= pool.queue);
    assert(after.submitted =~= after.ran + jobs_of(after.queue));
    assert(jobs_first(after.queue)) by {
        assert forall|i: int| 0 <= i < pool.queue.len() implies !(pool.queue[i] is Terminate) by {
            lemma_no_signal(pool.queue, i);
        }
    }
    if pool.queue.len() > 0 {
        assert(after.queue[0] == pool.queue[0]);
    }
}

/// A queue without signals holds jobs only.
proof fn lemma_no_signal<J>(queue: Seq<Message<J>>, i: int)
    requires
        0 <= i < queue.len(),
        signals_of(queue) == 0,
    ensures
        !(queue[i] is Terminate),
    decreases queue.len(),
{
    if i < queue.len() - 1 {
        lemma_no_signal(queue.drop_last(), i);
    }
}

/// A running pool stays in order when shutdown begins, and every job that
/// it took before stands in the queue before every termination signal.
pub proof fn lemma_begin_shutdown_holds<J>(pool: PoolModel<J>)
    requires
        pool.inv(),
        pool.lifecycle == Lifecycle::Running,
    ensures
        pool.begin_shutdown().inv(),
        jobs_of(pool.begin_shutdown().queue) == jobs_of(pool.queue),
        signals_of(pool.begin_shutdown().queue) == pool.size,
{
    let after = pool.begin_shutdown();
    lemma_signals_appended(pool.queue, pool.size);
    assert(jobs_first(after.queue)) by {
        assert forall|i: int, j: int|
            0 <= i < j < after.queue.len() && after.queue[i] is Terminate implies after.queue[j] is Terminate by {
            if i < pool.queue.len() {
                lemma_no_signal(pool.queue, i);
            }
        }
    }
    if pool.queue.len() > 0 {
        assert(after.queue[0] == pool.queue[0]);
    }
}

/// While anything waits in the queue, a worker lives to take it.
pub proof fn lemma_work_finds_a_worker<J>(pool: PoolModel<J>)
    requires
        pool.inv(),
        pool.queue.len() > 0,
    ensures
        pool.live > 0,
{
    lemma_queue_head(pool.queue);
}

/// A pool stays in order when a worker takes the head of the queue: a job
/// at the head is run, and only a termination signal ends a worker.
pub proof fn lemma_take_holds<J>(pool: PoolModel<J>)
    requires
        pool.inv(),
        pool.queue.len() > 0,
    ensures
        pool.take().inv(),
        pool.take().submitted == pool.submitted,
{
    let after = pool.take();
    lemma_queue_head(pool.queue);
    lemma_work_finds_a_worker(pool);
    assert(jobs_first(after.queue)) by {
        assert forall|i: int, j: int|
            0 <= i < j < after.queue.len() && after.queue[i] is Terminate implies after.queue[j] is Terminate by {
            assert(after.queue[i] == pool.queue[i + 1]);
            assert(after.queue[j] == pool.queue[j + 1]);
        }
    }
    if after.queue.len() > 0 {
        assert(after.queue[0] == pool.queue[1]);
    }
    match pool.queue[0] {
        Message::NewJob(job) => {
            assert(after.submitted =~= after.ran + jobs_of(after.queue));
        },
        Message::Terminate => {},
    }
}

/// Once shutdown has begun and no worker lives, nothing waits in the queue
/// and every job that the pool took has been handed to a worker, once and
/// in the order of submission.
pub proof fn lemma_all_jobs_ran<J>(pool: PoolModel<J>)
    requires
        pool.inv(),
        pool.lifecycle != Lifecycle::Running,
        pool.live == 0,
    ensures
        pool.queue.len() == 0,
        pool.ran == pool.submitted,
{
    if pool.queue.len() > 0 {
        lemma_queue_head(pool.queue);
    }
    assert(pool.queue =~= Seq::empty());
    assert(pool.ran + jobs_of(pool.queue) =~= pool.ran);
}

/// What can happen to a pool.
pub enum Event<J> {
    /// The pool is given a job.
    Submit(J),
    /// Shutdown begins.
    BeginShutdown,
    /// A worker takes the head of the queue.
    Take,
    /// The last worker has been joined.
    Finish,
}

/// Whether `event` can happen to `pool`: work is taken only while the pool
/// runs, shutdown begins once, only a live worker takes from the queue, and
/// the pool is stopped when no worker lives.
pub open spec fn enabled<J>(pool: PoolModel<J>, event: Event<J>) -> bool {
    match event {
        Event::Submit(_) => pool.lifecycle == Lifecycle::Running,
        Event::BeginShutdown => pool.lifecycle == Lifecycle::Running,
        Event::Take => pool.queue.len() > 0 && pool.live > 0,
        Event::Finish => pool.lifecycle == Lifecycle::ShuttingDown && pool.live == 0,
    }
}

/// The pool after `event`.
pub open spec fn step<J>(pool: PoolModel<J>, event: Event<J>) -> PoolModel<J> {
    match event {
        Event::Submit(job) => pool.submit(job),
        Event::BeginShutdown => pool.begin_shutdown(),
        Event::Take => pool.take(),
        Event::Finish => pool.finish(),
    }
}

/// The pool of `size` workers after `events`, or `None` if one of them
/// could not happen when its turn came.
pub open spec fn run<J>(size: nat, events: Seq<Event<J>>) -> Option<PoolModel<J>>
    decreases events.len(),
{
    if events.len() == 0 {
        Some(PoolModel::init(size))
    } else {
        match run(size, events.drop_last()) {
            Some(pool) => if enabled(pool, events.last()) {
                Some(step(pool, events.last()))
            } else {
                None
            },
            None => None,
        }
    }
}

/// Whatever happens to a pool, in whatever order, it stays in order.
pub proof fn lemma_every_state_holds<J>(size: nat, events: Seq<Event<J>>)
    requires
        size > 0,
        run(size, events) is Some,
    ensures
        run(size, events)->0.inv(),
    decreases events.len(),
{
    if events.len() == 0 {
        lemma_init_holds::<J>(size);
    } else {
        lemma_every_state_holds(size, events.drop_last());
        let pool = run(size, events.drop_last())->0;
        match events.last() {
            Event::Submit(job) => lemma_submit_holds(pool, job),
            Event::BeginShutdown => lemma_begin_shutdown_holds(pool),
            Event::Take => lemma_take_holds(pool),
            Event::Finish => {
                lemma_all_jobs_ran(pool);
            },
        }
    }
}

/// When a pool has stopped, every job that was submitted before shutdown
/// began has been run exactly once, whatever the order in which the workers
/// took from the queue.
pub proof fn lemma_stopped_pool_ran_every_job<J>(size: nat, events: Seq<Event<J>>)
    requires
        size > 0,
        run(size, events) matches Some(pool) && pool.lifecycle == Lifecycle::Stopped,
    ensures
        run(size, events)->0.ran == run(size, events)->0.submitted,
        run(size, events)->0.queue.len() == 0,
{
    lemma_every_state_holds(size, events);
    lemma_all_jobs_ran(run(size, events)->0);
}

/// No job is taken once shutdown has begun: after that, no submission can
/// happen.
pub proof fn lemma_no_submission_after_shutdown<J>(size: nat, events: Seq<Event<J>>, i: int, j: int)
    requires
        run(size, events) is Some,
        0 <= i < j < events.len(),
        events[i] is BeginShutdown,
    ensures
        !(events[j] is Submit),
{
    lemma_closed_stays_closed(size, events.take(j), i);
    lemma_run_prefix(size, events, j + 1);
    assert(events.take(j + 1).drop_last() =~= events.take(j));
    assert(events.take(j + 1).last() == events[j]);
}

/// A run that can happen can happen up to each of its events.
proof fn lemma_run_prefix<J>(size: nat, events: Seq<Event<J>>, n: int)
    requires
        run(size, events) is Some,
        0 <= n <= events.len(),
    ensures
        run(size, events.take(n)) is Some,
    decreases events.len(),
{
    if n == events.len() {
        assert(events.take(n) =~= events);
    } else {
        lemma_run_prefix(size, events.drop_last(), n);
        assert(events.drop_last().take(n) =~= events.take(n));
    }
}

/// After shutdown has begun the pool never runs again.
proof fn lemma_closed_stays_closed<J>(size: nat, events: Seq<Event<J>>, i: int)
    requires
        0 <= i < events.len(),
        events[i] is BeginShutdown,
    ensures
        run(size, events) matches Some(pool) ==> pool.lifecycle != Lifecycle::Running,
    decreases events.len(),
{
    if i < events.len() - 1 {
        lemma_closed_stays_closed(size, events.drop_last(), i);
    }
}

} // verus!
