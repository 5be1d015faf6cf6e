//! The handle through which a workflow body acts.
use crate::activity::error::ErrorView;
use crate::workflow::command::{command_views, Command, CommandView};
use crate::workflow::error::Error;
use crate::workflow::future::{ActivityFuture, ChildFuture, TimerFuture};
use crate::workflow::inbox::{arrived, buffered, received, Inbox};
use crate::workflow::info::{Info, InfoView};
use crate::workflow::result::{copy_result, result_view, CommandResult};
use crate::workflow::retry::{single_attempt, RetryPolicy};
use crate::workflow::signal::SignalChannel;
use crate::workflow::spawn::SpawnHandle;
use std::collections::{HashMap, HashSet};
use vstd::hash_set::StringHashSet;
use vstd::prelude::*;
use vstd::string::*;

verus! {

broadcast use vstd::std_specs::hash::group_hash_axioms;

/// Replay state of one run: what has been recorded for it, and what its body has
/// emitted in this life.
///
/// A context starts a life when it is made. Sequence numbers are given out at the
/// moment an awaitable is created, and a command goes out at the first poll that
/// finds no recorded outcome for it, at most once per sequence number.
pub struct Context {
    info: Info,
    next_seq: u64,
    results: HashMap<u64, CommandResult>,
    scheduled: HashSet<u64>,
    commands: Vec<Command>,
    fired: HashSet<u64>,
    next_branch: u64,
    new_spawns: Vec<u64>,
    signals: Inbox,
    child_results: HashMap<u64, Result<Vec<u8>, Error>>,
    patches: StringHashSet,
    patches_emitted: StringHashSet,
    replaying: bool,
}

/// The contents of a [`Context`].
#[verifier::ext_equal]
pub struct ContextView {
    pub info: InfoView,
    /// The sequence number that the next awaitable gets.
    pub next_seq: u64,
    /// Recorded outcomes of activities.
    pub results: Map<u64, Result<Seq<u8>, ErrorView>>,
    /// Sequence numbers whose command has gone out in this life.
    pub scheduled: Set<u64>,
    /// Commands that have gone out and have not been drained.
    pub commands: Seq<CommandView>,
    /// Timers that have fired.
    pub fired: Set<u64>,
    /// The number that the next detached branch gets.
    pub next_branch: u64,
    /// Detached branches that have not been taken up, in creation order.
    pub new_spawns: Seq<u64>,
    /// Signals that have arrived and have not been received, by name.
    pub signals: Map<Seq<char>, Seq<Seq<u8>>>,
    /// Recorded outcomes of children.
    pub child_results: Map<u64, Result<Seq<u8>, Seq<char>>>,
    /// Change markers recorded in the history.
    pub patches: Set<Seq<char>>,
    /// Change markers emitted in this life.
    pub patches_emitted: Set<Seq<char>>,
    /// Whether recorded events remain ahead of the current position.
    pub replaying: bool,
}

/// The number after `n`; the counters start over after the largest one.
pub open spec fn next_number(n: u64) -> u64 {
    if n == u64::MAX {
        0
    } else {
        (n + 1) as u64
    }
}

impl ContextView {
    /// The context of a new life of the run `info`: nothing recorded, nothing emitted.
    pub open spec fn fresh(info: InfoView) -> ContextView {
        ContextView {
            info,
            next_seq: 0,
            results: Map::empty(),
            scheduled: Set::empty(),
            commands: Seq::empty(),
            fired: Set::empty(),
            next_branch: 0,
            new_spawns: Seq::empty(),
            signals: Map::empty(),
            child_results: Map::empty(),
            patches: Set::empty(),
            patches_emitted: Set::empty(),
            replaying: false,
        }
    }

    /// With one more sequence number given out.
    pub open spec fn allocated(self) -> ContextView {
        ContextView { next_seq: next_number(self.next_seq), ..self }
    }

    /// With `command` emitted under `seq`, unless `seq` has gone out already.
    pub open spec fn emitted(self, seq: u64, command: CommandView) -> ContextView {
        if self.scheduled.contains(seq) {
            self
        } else {
            ContextView {
                scheduled: self.scheduled.insert(seq),
                commands: self.commands.push(command),
                ..self
            }
        }
    }

    /// With one more detached branch.
    pub open spec fn spawned(self) -> ContextView {
        ContextView {
            next_branch: next_number(self.next_branch),
            new_spawns: self.new_spawns.push(self.next_branch),
            ..self
        }
    }

    /// With the oldest signal under `name` received, if there is one.
    pub open spec fn signal_received(self, name: Seq<char>) -> ContextView {
        ContextView { signals: received(self.signals, name), ..self }
    }

    /// Whether the run is on the changed code path for `change_id`: the marker is
    /// recorded, or the history has been replayed to its end.
    pub open spec fn is_patched(self, change_id: Seq<char>) -> bool {
        self.patches.contains(change_id) || !self.replaying
    }

    /// With the marker for `change_id` asked for, where it is needed: at the end of
    /// the history, not recorded and not emitted in this life.
    pub open spec fn patch_asked(self, change_id: Seq<char>) -> ContextView {
        if self.patches.contains(change_id) || self.replaying || self.patches_emitted.contains(
            change_id,
        ) {
            self
        } else {
            ContextView {
                patches_emitted: self.patches_emitted.insert(change_id),
                commands: self.commands.push(CommandView::RecordPatch { change_id }),
                ..self
            }
        }
    }

    /// With no command left to drain.
    pub open spec fn drained(self) -> ContextView {
        ContextView { commands: Seq::empty(), ..self }
    }

    /// With no detached branch left to take up.
    pub open spec fn taken_up(self) -> ContextView {
        ContextView { new_spawns: Seq::empty(), ..self }
    }

    /// With an activity's outcome recorded.
    pub open spec fn with_result(self, seq: u64, result: Result<Seq<u8>, ErrorView>) -> ContextView {
        ContextView { results: self.results.insert(seq, result), ..self }
    }

    /// With a timer fired.
    pub open spec fn with_fired(self, seq: u64) -> ContextView {
        ContextView { fired: self.fired.insert(seq), ..self }
    }

    /// With a child's outcome recorded.
    pub open spec fn with_child_result(
        self,
        seq: u64,
        result: Result<Seq<u8>, Seq<char>>,
    ) -> ContextView {
        ContextView { child_results: self.child_results.insert(seq, result), ..self }
    }

    /// With a signal arrived.
    pub open spec fn with_signal(self, name: Seq<char>, payload: Seq<u8>) -> ContextView {
        ContextView { signals: arrived(self.signals, name, payload), ..self }
    }

    /// With a change marker recorded.
    pub open spec fn with_patch(self, change_id: Seq<char>) -> ContextView {
        ContextView { patches: self.patches.insert(change_id), ..self }
    }

    /// With the frontier flag set.
    pub open spec fn with_replaying(self, replaying: bool) -> ContextView {
        ContextView { replaying, ..self }
    }
}

/// The whole milliseconds of a time of `secs` seconds and `subsec_nanos` nanoseconds, as
/// a timer keeps them: in 64 bits.
pub open spec fn whole_millis(secs: u64, subsec_nanos: u32) -> int {
    (secs * 1000 + subsec_nanos as int / 1_000_000) % 0x1_0000_0000_0000_0000
}

/// The whole milliseconds of a time of `secs` seconds and `subsec_nanos` nanoseconds,
/// which [`Context::timer`] takes. More than fit into 64 bits are cut off at the top.
pub fn duration_ms(secs: u64, subsec_nanos: u32) -> (ms: u64)
    ensures
        ms == whole_millis(secs, subsec_nanos),
{
    let all: u128 = secs as u128 * 1000 + (subsec_nanos / 1_000_000) as u128;
    assert(all as u64 == all % 0x1_0000_0000_0000_0000u128) by (bit_vector);
    all as u64
}

impl View for Context {
    type V = ContextView;

    closed spec fn view(&self) -> ContextView {
        ContextView {
            info: self.info@,
            next_seq: self.next_seq,
            results: self.results@.map_values(|r: CommandResult| r@),
            scheduled: self.scheduled@,
            commands: command_views(self.commands@),
            fired: self.fired@,
            next_branch: self.next_branch,
            new_spawns: self.new_spawns@,
            signals: self.signals@,
            child_results: self.child_results@.map_values(
                |r: Result<Vec<u8>, Error>| result_view(r),
            ),
            patches: self.patches@,
            patches_emitted: self.patches_emitted@,
            replaying: self.replaying,
        }
    }
}

impl Context {
    /// The context of a new life of the run `info`.
    pub fn new(info: Info) -> (ctx: Self)
        ensures
            ctx@ == ContextView::fresh(info@),
    {
        let ctx = Context {
            info,
            next_seq: 0,
            results: HashMap::new(),
            scheduled: HashSet::new(),
            commands: Vec::new(),
            fired: HashSet::new(),
            next_branch: 0,
            new_spawns: Vec::new(),
            signals: Inbox::new(),
            child_results: HashMap::new(),
            patches: StringHashSet::new(),
            patches_emitted: StringHashSet::new(),
            replaying: false,
        };
        assert(ctx@ =~= ContextView::fresh(info@));
        ctx
    }

    /// What the workflow is told about its run.
    pub fn info(&self) -> (info: &Info)
        ensures
            info@ == self@.info,
    {
        &self.info
    }

    /// Gives out the next sequence number.
    fn allocate(&mut self) -> (seq: u64)
        ensures
            seq == old(self)@.next_seq,
            final(self)@ == old(self)@.allocated(),
    {
        let seq: u64 = self.next_seq;
        self.next_seq = if seq == u64::MAX {
            0
        } else {
            seq + 1
        };
        assert(self@ =~= old(self)@.allocated());
        seq
    }

    /// Emits `command` under `seq`, unless a command has gone out under it.
    pub(crate) fn emit(&mut self, seq: u64, command: Command)
        ensures
            final(self)@ == old(self)@.emitted(seq, command@),
    {
        let ghost before = self.commands@;
        if self.scheduled.insert(seq) {
            self.commands.push(command);
            assert(command_views(self.commands@) =~= command_views(before).push(command@));
        } else {
            assert(self.scheduled@ =~= old(self)@.scheduled);
        }
        assert(self@ =~= old(self)@.emitted(seq, command@));
    }

    /// The recorded outcome of the activity `seq`.
    pub(crate) fn result(&self, seq: u64) -> (result: Option<CommandResult>)
        ensures
            match result {
                Some(r) => self@.results.contains_key(seq) && self@.results[seq] == r@,
                None => !self@.results.contains_key(seq),
            },
    {
        match self.results.get(&seq) {
            Some(r) => Some(r.clone()),
            None => None,
        }
    }

    /// Whether the timer `seq` has fired.
    pub(crate) fn has_fired(&self, seq: u64) -> (fired: bool)
        ensures
            fired == self@.fired.contains(seq),
    {
        self.fired.contains(&seq)
    }

    /// The recorded outcome of the child `seq`.
    pub(crate) fn child_result(&self, seq: u64) -> (result: Option<Result<Vec<u8>, Error>>)
        ensures
            match result {
                Some(r) => self@.child_results.contains_key(seq) && self@.child_results[seq]
                    == result_view(r),
                None => !self@.child_results.contains_key(seq),
            },
    {
        match self.child_results.get(&seq) {
            Some(r) => Some(copy_result(r)),
            None => None,
        }
    }

    /// Receives the oldest signal under `name`.
    pub(crate) fn receive(&mut self, name: &String) -> (payload: Option<Vec<u8>>)
        ensures
            final(self)@ == old(self)@.signal_received(name@),
            match payload {
                Some(p) => buffered(old(self)@.signals, name@).len() > 0 && p@ == buffered(
                    old(self)@.signals,
                    name@,
                )[0],
                None => buffered(old(self)@.signals, name@).len() == 0,
            },
    {
        let payload = self.signals.pop(name);
        assert(self@ =~= old(self)@.signal_received(name@));
        payload
    }

    /// Schedules an activity. The sequence number is given out here; the command
    /// goes out when the future is first polled. One attempt, unless the future is
    /// given a retry policy.
    pub fn activity(&mut self, activity_type: &str, input: Vec<u8>) -> (future: ActivityFuture)
        ensures
            final(self)@ == old(self)@.allocated(),
            future.seq == old(self)@.next_seq,
            future.activity_type@ == activity_type@,
            future.input@ == input@,
            future.retry == single_attempt(),
    {
        let seq: u64 = self.allocate();
        ActivityFuture::new(seq, String::from_str(activity_type), input, RetryPolicy::none())
    }

    /// Starts a timer. The sequence number is given out here.
    pub fn timer(&mut self, duration_ms: u64) -> (future: TimerFuture)
        ensures
            final(self)@ == old(self)@.allocated(),
            future.seq == old(self)@.next_seq,
            future.duration_ms == duration_ms,
    {
        let seq: u64 = self.allocate();
        TimerFuture::new(seq, duration_ms)
    }

    /// Waits for a time: the same as [`Context::timer`].
    pub fn sleep(&mut self, duration_ms: u64) -> (future: TimerFuture)
        ensures
            final(self)@ == old(self)@.allocated(),
            future.seq == old(self)@.next_seq,
            future.duration_ms == duration_ms,
    {
        self.timer(duration_ms)
    }

    /// Starts a child workflow. The sequence number is given out here.
    pub fn child_workflow(&mut self, workflow_type: &str, input: Vec<u8>) -> (future: ChildFuture)
        ensures
            final(self)@ == old(self)@.allocated(),
            future.seq == old(self)@.next_seq,
            future.workflow_type@ == workflow_type@,
            future.input@ == input@,
    {
        let seq: u64 = self.allocate();
        ChildFuture::new(seq, String::from_str(workflow_type), input)
    }

    /// Starts a detached branch, which the driver polls every turn, in creation
    /// order, until it is done. Returns the handle that its output comes through.
    /// Neither a sequence number nor a command goes with it.
    pub fn spawn<T>(&mut self) -> (handle: SpawnHandle<T>)
        ensures
            final(self)@ == old(self)@.spawned(),
            handle.branch == old(self)@.next_branch,
            handle.slot is None,
    {
        let branch: u64 = self.next_branch;
        self.new_spawns.push(branch);
        self.next_branch = if branch == u64::MAX {
            0
        } else {
            branch + 1
        };
        assert(self@ =~= old(self)@.spawned());
        SpawnHandle { branch, slot: None }
    }

    /// The channel on which signals under `name` arrive. Channels of one name share
    /// one buffer. Neither a sequence number nor a command goes with it.
    pub fn signal_channel(&self, name: &str) -> (channel: SignalChannel)
        ensures
            channel.name@ == name@,
    {
        SignalChannel::new(String::from_str(name))
    }

    /// Whether this run is on the changed code path for `change_id`. New code that
    /// gets here at the end of the history asks once for a marker to be recorded;
    /// while older history is replayed, the answer is that of the marker.
    pub fn patched(&mut self, change_id: &str) -> (patched: bool)
        ensures
            patched == old(self)@.is_patched(change_id@),
            final(self)@ == old(self)@.patch_asked(change_id@),
    {
        if self.patches.contains(change_id) {
            return true;
        }
        if self.replaying {
            return false;
        }
        let ghost before = self.commands@;
        if self.patches_emitted.insert(String::from_str(change_id)) {
            self.commands.push(Command::RecordPatch { change_id: String::from_str(change_id) });
            assert(command_views(self.commands@) =~= command_views(before).push(
                CommandView::RecordPatch { change_id: change_id@ },
            ));
        } else {
            assert(self.patches_emitted@ =~= old(self)@.patches_emitted);
        }
        assert(self@ =~= old(self)@.patch_asked(change_id@));
        true
    }

    /// Records that a timer has fired.
    pub fn apply_timer_fired(&mut self, seq: u64)
        ensures
            final(self)@ == old(self)@.with_fired(seq),
    {
        self.fired.insert(seq);
        assert(self@ =~= old(self)@.with_fired(seq));
    }

    /// Records the outcome of an activity.
    pub fn apply_result(&mut self, seq: u64, result: CommandResult)
        ensures
            final(self)@ == old(self)@.with_result(seq, result@),
    {
        self.results.insert(seq, result);
        assert(self@ =~= old(self)@.with_result(seq, result@));
    }

    /// Records the outcome of a child.
    pub fn apply_child_result(&mut self, seq: u64, result: Result<Vec<u8>, Error>)
        ensures
            final(self)@ == old(self)@.with_child_result(seq, result_view(result)),
    {
        self.child_results.insert(seq, result);
        assert(self@ =~= old(self)@.with_child_result(seq, result_view(result)));
    }

    /// Records a change marker.
    pub fn apply_patch(&mut self, change_id: String)
        ensures
            final(self)@ == old(self)@.with_patch(change_id@),
    {
        self.patches.insert(change_id);
        assert(self@ =~= old(self)@.with_patch(change_id@));
    }

    /// Records the arrival of a signal.
    pub fn apply_signal(&mut self, name: String, payload: Vec<u8>)
        ensures
            final(self)@ == old(self)@.with_signal(name@, payload@),
    {
        self.signals.push(name, payload);
        assert(self@ =~= old(self)@.with_signal(name@, payload@));
    }

    /// Says whether recorded events remain ahead of the current position.
    pub fn set_replaying(&mut self, replaying: bool)
        ensures
            final(self)@ == old(self)@.with_replaying(replaying),
    {
        self.replaying = replaying;
        assert(self@ =~= old(self)@.with_replaying(replaying));
    }

    /// Takes the commands that have gone out since they were last taken.
    pub fn drain_commands(&mut self) -> (commands: Vec<Command>)
        ensures
            command_views(commands@) == old(self)@.commands,
            final(self)@ == old(self)@.drained(),
    {
        let mut commands: Vec<Command> = Vec::new();
        std::mem::swap(&mut commands, &mut self.commands);
        assert(self@ =~= old(self)@.drained());
        commands
    }

    /// Takes the detached branches that have been started since they were last taken.
    pub(crate) fn drain_new_spawns(&mut self) -> (branches: Vec<u64>)
        ensures
            branches@ == old(self)@.new_spawns,
            final(self)@ == old(self)@.taken_up(),
    {
        let mut branches: Vec<u64> = Vec::new();
        std::mem::swap(&mut branches, &mut self.new_spawns);
        assert(self@ =~= old(self)@.taken_up());
        branches
    }

    /// How many detached branches wait to be taken up.
    pub(crate) fn new_spawns_len(&self) -> (len: usize)
        ensures
            len == self@.new_spawns.len(),
    {
        self.new_spawns.len()
    }

    /// How many commands wait to be drained.
    pub fn commands_len(&self) -> (len: usize)
        ensures
            len == self@.commands.len(),
    {
        self.commands.len()
    }
}

} // verus!
