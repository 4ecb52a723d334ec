//! The callback dispatch protocol: callback workers send requests over one
//! shared channel, and a single owner of the scripting engine answers them.
//! The decisions of both sides are here; the channels and threads belong to
//! the host.

use vstd::prelude::*;
use crate::launch::{LaunchAction, LaunchStep, callback_count, callback_handles, plans};
use crate::stage::{StageModel, StageSpec, stage_models};
use crate::text::{chars_of, push_char, string_of};

verus! {

/// A message on the channel that all callback workers share.
#[derive(Debug)]
pub enum PipeMessage {
    /// Run callback `id` on one line of its input.
    Execute { id: u64, line: String },
    /// Callback `id` has reached the end of its input.
    Finished { id: u64 },
}

/// What the engine's owner does with a message.
#[derive(Debug)]
pub enum DispatchAction {
    /// Invoke the callable `handle` on `line` and send the reply to worker `id`.
    Invoke { id: u64, handle: u64, line: String },
    /// Worker `id` is done; it no longer counts as active.
    Retire { id: u64 },
    /// The message names no active callback; nothing is to be done.
    Ignore,
}

/// The routing table of the callbacks of one pipeline run.
pub struct Dispatcher {
    handles: Vec<u64>,
    live: Vec<bool>,
}

/// The routes of a run whose callback handles are `hs`, identifier `j + 1`
/// standing for `hs[j]`.
pub open spec fn routes(hs: Seq<u64>) -> Map<u64, u64> {
    Map::new(|id: u64| 1 <= id <= hs.len(), |id: u64| hs[id - 1])
}

impl Dispatcher {
    /// Every identifier has a handle and a liveness flag.
    pub closed spec fn wf(&self) -> bool {
        self.handles.len() == self.live.len()
    }

    /// The active callbacks: identifier to callable handle.
    pub closed spec fn active(&self) -> Map<u64, u64> {
        Map::new(
            |id: u64| 1 <= id <= self.handles.len() && self.live@[id - 1],
            |id: u64| self.handles@[id - 1],
        )
    }

    /// The routing table of a run of `stages`: every callback stage is
    /// active, under the identifier that the launch plan gives it.
    pub fn for_stages(stages: &Vec<StageSpec>) -> (d: Dispatcher)
        ensures
            d.wf(),
            d.active() == routes(callback_handles(stage_models(stages@))),
    {
        let ghost models = stage_models(stages@);
        let mut handles: Vec<u64> = Vec::new();
        let mut live: Vec<bool> = Vec::new();
        let mut i: usize = 0;
        while i < stages.len()
            invariant
                i <= stages.len(),
                models == stage_models(stages@),
                handles@ == callback_handles(models.take(i as int)),
                live.len() == handles.len(),
                forall|j: int| 0 <= j < live.len() ==> live@[j],
            decreases stages.len() - i,
        {
            assert(models.take(i + 1).drop_last() =~= models.take(i as int));
            assert(models[i as int] == stages@[i as int]@);
            if let StageSpec::Callback { handle } = &stages[i] {
                handles.push(*handle);
                live.push(true);
            }
            i = i + 1;
        }
        assert(models.take(stages.len() as int) =~= models);
        let d = Dispatcher { handles, live };
        assert(d.active() =~= routes(callback_handles(models)));
        d
    }

    /// Whether some callback is still active: the dispatch loop runs until
    /// this is false.
    pub fn is_running(&self) -> (r: bool)
        requires
            self.wf(),
        ensures
            r == exists|id: u64| self.active().contains_key(id),
    {
        let mut i: usize = 0;
        while i < self.live.len()
            invariant
                self.wf(),
                i <= self.live.len(),
                forall|j: int| 0 <= j < i ==> !self.live@[j],
            decreases self.live.len() - i,
        {
            if self.live[i] {
                assert(self.active().contains_key((i + 1) as u64));
                return true;
            }
            i = i + 1;
        }
        assert forall|id: u64| !self.active().contains_key(id) by {
            if 1 <= id <= self.handles.len() {
                assert(!self.live@[id - 1]);
            }
        }
        false
    }

    /// Decides what a message from a worker calls for: a request of an
    /// active callback is invoked with its line, and the end of an active
    /// callback retires it. Anything else is ignored.
    pub fn handle(&mut self, msg: PipeMessage) -> (a: DispatchAction)
        requires
            old(self).wf(),
        ensures
            final(self).wf(),
            match msg {
                PipeMessage::Execute { id, line } => {
                    &&& final(self).active() == old(self).active()
                    &&& if old(self).active().contains_key(id) {
                        a == (DispatchAction::Invoke { id, handle: old(self).active()[id], line })
                    } else {
                        a is Ignore
                    }
                },
                PipeMessage::Finished { id } => if old(self).active().contains_key(id) {
                    &&& a == (DispatchAction::Retire { id })
                    &&& final(self).active() == old(self).active().remove(id)
                } else {
                    &&& a is Ignore
                    &&& final(self).active() == old(self).active()
                },
            },
    {
        match msg {
            PipeMessage::Execute { id, line } => {
                if 1 <= id && id <= self.handles.len() as u64 && self.live[(id - 1) as usize] {
                    let handle = self.handles[(id - 1) as usize];
                    DispatchAction::Invoke { id, handle, line }
                } else {
                    DispatchAction::Ignore
                }
            },
            PipeMessage::Finished { id } => {
                if 1 <= id && id <= self.handles.len() as u64 && self.live[(id - 1) as usize] {
                    let ghost before = self.active();
                    self.live.set((id - 1) as usize, false);
                    assert(self.active() =~= before.remove(id));
                    DispatchAction::Retire { id }
                } else {
                    DispatchAction::Ignore
                }
            },
        }
    }
}

/// The reply to a worker: the callback's output on success, nothing when
/// it failed. A failure is absorbed here and never surfaces further.
pub fn reply_for<E>(outcome: Result<String, E>) -> (r: Option<String>)
    ensures
        match outcome {
            Ok(s) => r == Some(s),
            Err(_) => r is None,
        },
{
    match outcome {
        Ok(s) => Some(s),
        Err(_) => None,
    }
}

/// The text that a worker writes downstream for one reply.
pub open spec fn emitted(reply: Option<String>) -> Option<Seq<char>> {
    match reply {
        Some(s) => Some(s@.push('\n')),
        None => None,
    }
}

/// The text a worker writes downstream over a whole stream of replies: each
/// present reply followed by a newline, in order; a failed line adds nothing.
pub open spec fn stream_output(replies: Seq<Option<Seq<char>>>) -> Seq<char>
    decreases replies.len(),
{
    if replies.len() == 0 {
        seq![]
    } else {
        stream_output(replies.drop_last()) + match replies.last() {
            Some(s) => s.push('\n'),
            None => seq![],
        }
    }
}

/// The model of a reply.
pub open spec fn reply_text(reply: Option<String>) -> Option<Seq<char>> {
    match reply {
        Some(s) => Some(s@),
        None => None,
    }
}

/// The side of the protocol that one callback worker runs: at most one
/// request in flight, so replies come back in the order of its lines. It
/// keeps, as ghost state, the lines it requested, the replies it accepted
/// and the text it gave to write.
pub struct CallbackWorker {
    id: u64,
    awaiting: bool,
    requested: Ghost<Seq<Seq<char>>>,
    answered: Ghost<Seq<Option<Seq<char>>>>,
    written: Ghost<Seq<char>>,
}

impl CallbackWorker {
    /// The identifier the worker's requests carry.
    pub closed spec fn id_spec(&self) -> u64 {
        self.id
    }

    /// A request has been sent and its reply not yet accepted.
    pub closed spec fn awaiting_spec(&self) -> bool {
        self.awaiting
    }

    /// The lines requested so far, in order.
    pub closed spec fn requested(&self) -> Seq<Seq<char>> {
        self.requested@
    }

    /// The replies accepted so far, in order.
    pub closed spec fn answered(&self) -> Seq<Option<Seq<char>>> {
        self.answered@
    }

    /// The text given to write downstream so far.
    pub closed spec fn written(&self) -> Seq<char> {
        self.written@
    }

    /// Every request but the one in flight has its reply, and the text
    /// written is what those replies give.
    pub closed spec fn wf(&self) -> bool {
        &&& self.requested@.len() == self.answered@.len() + if self.awaiting {
            1int
        } else {
            0int
        }
        &&& self.written@ == stream_output(self.answered@)
    }

    /// A worker for callback `id`, with nothing in flight.
    pub fn new(id: u64) -> (w: CallbackWorker)
        ensures
            w.wf(),
            w.id_spec() == id,
            !w.awaiting_spec(),
            w.requested() == Seq::<Seq<char>>::empty(),
            w.answered() == Seq::<Option<Seq<char>>>::empty(),
            w.written() == Seq::<char>::empty(),
    {
        let ghost requested: Seq<Seq<char>> = Seq::empty();
        let ghost answered: Seq<Option<Seq<char>>> = Seq::empty();
        let ghost written: Seq<char> = Seq::empty();
        CallbackWorker {
            id,
            awaiting: false,
            requested: Ghost(requested),
            answered: Ghost(answered),
            written: Ghost(written),
        }
    }

    /// The identifier the worker's requests carry.
    pub fn id(&self) -> (r: u64)
        ensures
            r == self.id_spec(),
    {
        self.id
    }

    /// Whether a request is in flight.
    pub fn is_awaiting(&self) -> (r: bool)
        ensures
            r == self.awaiting_spec(),
    {
        self.awaiting
    }

    /// The request for one input line; the worker then waits for its reply.
    pub fn request(&mut self, line: String) -> (m: PipeMessage)
        requires
            old(self).wf(),
            !old(self).awaiting_spec(),
        ensures
            final(self).wf(),
            final(self).awaiting_spec(),
            final(self).id_spec() == old(self).id_spec(),
            final(self).requested() == old(self).requested().push(line@),
            final(self).answered() == old(self).answered(),
            final(self).written() == old(self).written(),
            m == (PipeMessage::Execute { id: old(self).id_spec(), line }),
    {
        self.awaiting = true;
        let ghost requested = self.requested@.push(line@);
        self.requested = Ghost(requested);
        PipeMessage::Execute { id: self.id, line }
    }

    /// Takes the reply to the request in flight, and gives the text to write
    /// downstream: the output followed by a newline, or nothing for a failed
    /// line.
    pub fn accept(&mut self, reply: Option<String>) -> (out: Option<String>)
        requires
            old(self).wf(),
            old(self).awaiting_spec(),
        ensures
            final(self).wf(),
            !final(self).awaiting_spec(),
            final(self).id_spec() == old(self).id_spec(),
            final(self).requested() == old(self).requested(),
            final(self).answered() == old(self).answered().push(reply_text(reply)),
            match out {
                Some(t) => emitted(reply) == Some(t@) && final(self).written() == old(
                    self,
                ).written() + t@,
                None => emitted(reply) is None && final(self).written() == old(self).written(),
            },
    {
        self.awaiting = false;
        let ghost answered = self.answered@.push(reply_text(reply));
        assert(answered.drop_last() =~= self.answered@);
        let out = match reply {
            Some(s) => {
                let mut t = s;
                push_char(&mut t, '\n');
                Some(t)
            },
            None => None,
        };
        let ghost written = match &out {
            Some(t) => self.written@ + t@,
            None => self.written@,
        };
        assert(stream_output(answered) =~= written);
        self.written = Ghost(written);
        self.answered = Ghost(answered);
        out
    }

    /// The notice that this worker's input has ended.
    pub fn finish(&self) -> (m: PipeMessage)
        requires
            !self.awaiting_spec(),
        ensures
            m == (PipeMessage::Finished { id: self.id_spec() }),
    {
        PipeMessage::Finished { id: self.id }
    }
}

/// Over a whole stream: a worker that has requested lines `l1..ln` and has
/// nothing in flight has accepted exactly `n` replies, one per line in the
/// same order, and the text it gave to write is the concatenation, in order,
/// of each present reply followed by a newline; a failed line adds nothing
/// and leaves the others as they are.
pub proof fn lemma_worker_stream(w: CallbackWorker)
    requires
        w.wf(),
        !w.awaiting_spec(),
    ensures
        w.answered().len() == w.requested().len(),
        w.written() == stream_output(w.answered()),
{
}

/// A line as read from a stream, without its line ending: a final newline
/// is dropped, and a carriage return just before it too.
pub open spec fn line_content(raw: Seq<char>) -> Seq<char> {
    if raw.len() > 0 && raw.last() == '\n' {
        let t = raw.drop_last();
        if t.len() > 0 && t.last() == '\r' {
            t.drop_last()
        } else {
            t
        }
    } else {
        raw
    }
}

/// Removes the line ending of a line read from a stream, whether it is a
/// newline or a carriage return and a newline.
pub fn strip_line_ending(raw: &str) -> (r: String)
    ensures
        r@ == line_content(raw@),
{
    let mut v = chars_of(raw);
    if v.len() > 0 && v[v.len() - 1] == '\n' {
        v.pop();
        if v.len() > 0 && v[v.len() - 1] == '\r' {
            v.pop();
        }
    }
    proof {
        assert(v@ =~= line_content(raw@));
    }
    string_of(&v)
}

proof fn lemma_handles_prefix(stages: Seq<StageModel>, k: int)
    requires
        0 <= k <= stages.len(),
    ensures
        callback_handles(stages.take(k)).len() <= callback_handles(stages).len(),
        forall|j: int|
            0 <= j < callback_handles(stages.take(k)).len() ==> callback_handles(stages)[j]
                == callback_handles(stages.take(k))[j],
    decreases stages.len(),
{
    if k == stages.len() {
        assert(stages.take(k) =~= stages);
    } else {
        let pre = stages.drop_last();
        lemma_handles_prefix(pre, k);
        assert(pre.take(k) =~= stages.take(k));
    }
}

proof fn lemma_handles_count(stages: Seq<StageModel>)
    ensures
        callback_handles(stages).len() == callback_count(stages),
    decreases stages.len(),
{
    if stages.len() > 0 {
        lemma_handles_count(stages.drop_last());
    }
}

/// Each callback worker that the launch plan starts is routed, by the
/// dispatcher of the same stages, to the callable of its own stage.
pub proof fn lemma_plan_matches_routes(stages: Seq<StageModel>, plan: Seq<LaunchStep>, i: int)
    requires
        plans(stages, plan),
        0 <= i < plan.len(),
    ensures
        match plan[i].action {
            LaunchAction::StartWorker { id, handle } => {
                &&& routes(callback_handles(stages)).contains_key(id)
                &&& routes(callback_handles(stages))[id] == handle
            },
            _ => true,
        },
{
    if let LaunchAction::StartWorker { id, handle } = plan[i].action {
        assert(stages[i] is Callback);
        let pre = stages.take(i);
        let next = stages.take(i + 1);
        assert(next.drop_last() =~= pre);
        assert(next.last() == stages[i]);
        lemma_handles_count(pre);
        lemma_handles_prefix(stages, i + 1);
        let c = callback_handles(pre).len();
        assert(callback_handles(next) == callback_handles(pre).push(handle));
        assert(callback_handles(stages)[c as int] == handle);
        assert(id == c + 1);
        assert(id <= u64::MAX);
    }
}

/// The dispatch loop of a run ends exactly when every callback has reported
/// the end of its input: once the identifiers in `done` are retired, no
/// route is left if and only if `done` holds every identifier of the run.
pub proof fn lemma_loop_ends_when_all_finished(hs: Seq<u64>, done: Set<u64>)
    ensures
        routes(hs).remove_keys(done).dom().is_empty() <==> (forall|id: u64|
            1 <= id <= hs.len() ==> done.contains(id)),
{
    let left = routes(hs).remove_keys(done);
    if left.dom().is_empty() {
        assert forall|id: u64| 1 <= id <= hs.len() implies done.contains(id) by {
            if !done.contains(id) {
                assert(left.dom().contains(id));
            }
        }
    } else {
        let id = left.dom().choose();
        assert(left.dom().contains(id));
    }
}

} // verus!
