//! What a workflow body may do to its context.
use crate::workflow::command::CommandView;
use crate::workflow::context::ContextView;
use crate::workflow::inbox::{buffered, received};
use vstd::prelude::*;

verus! {

/// What makes a command unique in one life of a run: its sequence number, or the
/// change that it marks.
pub enum CommandKey {
    Number(u64),
    Marker(Seq<char>),
}

impl CommandView {
    /// What makes the command unique.
    pub open spec fn key(self) -> CommandKey {
        match self {
            CommandView::ScheduleActivity { seq, .. } => CommandKey::Number(seq),
            CommandView::StartTimer { seq, .. } => CommandKey::Number(seq),
            CommandView::StartChild { seq, .. } => CommandKey::Number(seq),
            CommandView::RecordPatch { change_id } => CommandKey::Marker(change_id),
        }
    }
}

/// The keys of a list of commands, in their order.
pub open spec fn keys(commands: Seq<CommandView>) -> Seq<CommandKey> {
    commands.map_values(|c: CommandView| c.key())
}

/// Whether no two of the commands have one key.
pub open spec fn each_once(commands: Seq<CommandView>) -> bool {
    keys(commands).no_duplicates()
}

impl ContextView {
    /// Whether a command with that key has gone out in this life.
    pub open spec fn has_emitted(self, key: CommandKey) -> bool {
        match key {
            CommandKey::Number(seq) => self.scheduled.contains(seq),
            CommandKey::Marker(change_id) => self.patches_emitted.contains(change_id),
        }
    }

    /// The commands that `after` holds beyond those of `self`.
    pub open spec fn new_commands(self, after: ContextView) -> Seq<CommandView> {
        after.commands.skip(self.commands.len() as int)
    }

    /// The detached branches that `after` holds beyond those of `self`.
    pub open spec fn new_branches(self, after: ContextView) -> Seq<u64> {
        after.new_spawns.skip(self.new_spawns.len() as int)
    }

    /// What a body may do in one poll. It leaves everything that the driver records
    /// alone. It may emit commands, each under a key that has not gone out before,
    /// and change markers only at the end of the history and where none is recorded.
    /// It may start branches and receive signals, oldest first.
    pub open spec fn leads_to(self, after: ContextView) -> bool {
        let new = self.new_commands(after);
        &&& after.info == self.info
        &&& after.results == self.results
        &&& after.fired == self.fired
        &&& after.child_results == self.child_results
        &&& after.patches == self.patches
        &&& after.replaying == self.replaying
        &&& self.commands.len() <= after.commands.len()
        &&& after.commands == self.commands + new
        &&& each_once(new)
        &&& forall|i: int|
            0 <= i < new.len() ==> !self.has_emitted(#[trigger] new[i].key()) && after.has_emitted(
                new[i].key(),
            )
        &&& forall|k: CommandKey| #[trigger]
            after.has_emitted(k) ==> self.has_emitted(k) || keys(new).contains(k)
        &&& forall|k: CommandKey| #[trigger] self.has_emitted(k) ==> after.has_emitted(k)
        &&& forall|i: int|
            0 <= i < new.len() && (#[trigger] new[i]) is RecordPatch ==> !self.replaying
                && !self.patches.contains(new[i]->change_id)
        &&& self.new_spawns.len() <= after.new_spawns.len()
        &&& after.new_spawns == self.new_spawns + self.new_branches(after)
        &&& forall|name: Seq<char>| #[trigger]
            remains(buffered(self.signals, name), buffered(after.signals, name))
    }
}

/// Whether `after` is what is left of `before` when some of its first items are gone.
pub open spec fn remains(before: Seq<Seq<u8>>, after: Seq<Seq<u8>>) -> bool {
    after.len() <= before.len() && after == before.skip(before.len() - after.len())
}

/// A body may do nothing.
pub proof fn nothing_leads(ctx: ContextView)
    ensures
        ctx.leads_to(ctx),
{
    assert(ctx.new_commands(ctx) =~= Seq::empty());
    assert(ctx.new_branches(ctx) =~= Seq::empty());
    assert(ctx.commands + ctx.new_commands(ctx) =~= ctx.commands);
    assert(ctx.new_spawns + ctx.new_branches(ctx) =~= ctx.new_spawns);
    assert forall|name: Seq<char>| #[trigger]
        remains(buffered(ctx.signals, name), buffered(ctx.signals, name)) by {
        assert(buffered(ctx.signals, name).skip(0) =~= buffered(ctx.signals, name));
    }
}

/// A body may do one thing after another.
pub proof fn leads_on(a: ContextView, b: ContextView, c: ContextView)
    requires
        a.leads_to(b),
        b.leads_to(c),
    ensures
        a.leads_to(c),
        a.new_commands(c) == a.new_commands(b) + b.new_commands(c),
        a.new_branches(c) == a.new_branches(b) + b.new_branches(c),
{
    let ab = a.new_commands(b);
    let bc = b.new_commands(c);
    let ac = a.new_commands(c);
    assert(ac =~= ab + bc);
    assert(a.new_branches(c) =~= a.new_branches(b) + b.new_branches(c));
    assert(c.commands =~= a.commands + ac);
    assert(c.new_spawns =~= a.new_spawns + a.new_branches(c));
    assert forall|i: int| 0 <= i < ac.len() implies !a.has_emitted(#[trigger] ac[i].key())
        && c.has_emitted(ac[i].key()) by {
        if i < ab.len() {
            assert(ac[i] == ab[i]);
            assert(b.has_emitted(ab[i].key()));
        } else {
            assert(ac[i] == bc[i - ab.len()]);
            assert(!b.has_emitted(bc[i - ab.len()].key()));
        }
    }
    assert forall|i: int, j: int| 0 <= i < j < ac.len() implies keys(ac)[i] != keys(ac)[j] by {
        if j < ab.len() {
            assert(keys(ab)[i] != keys(ab)[j]);
        } else if i >= ab.len() {
            assert(keys(bc)[i - ab.len()] != keys(bc)[j - ab.len()]);
            assert(ac[i] == bc[i - ab.len()]);
            assert(ac[j] == bc[j - ab.len()]);
        } else {
            assert(b.has_emitted(ab[i].key()));
            assert(ac[j] == bc[j - ab.len()]);
            assert(!b.has_emitted(bc[j - ab.len()].key()));
        }
    }
    assert forall|k: CommandKey| #[trigger] c.has_emitted(k) implies a.has_emitted(k) || keys(
        ac,
    ).contains(k) by {
        if !b.has_emitted(k) {
            let i = choose|i: int| 0 <= i < keys(bc).len() && keys(bc)[i] == k;
            assert(keys(bc).contains(k));
            assert(keys(ac)[i + ab.len()] == k);
        } else if !a.has_emitted(k) {
            assert(keys(ab).contains(k));
            let i = choose|i: int| 0 <= i < keys(ab).len() && keys(ab)[i] == k;
            assert(keys(ac)[i] == k);
        }
    }
    assert forall|k: CommandKey| #[trigger] a.has_emitted(k) implies c.has_emitted(k) by {
        assert(b.has_emitted(k));
    }
    assert forall|i: int| 0 <= i < ac.len() && (#[trigger] ac[i]) is RecordPatch implies
        !a.replaying && !a.patches.contains(ac[i]->change_id) by {
        if i < ab.len() {
            assert(ac[i] == ab[i]);
        } else {
            assert(ac[i] == bc[i - ab.len()]);
        }
    }
    assert forall|name: Seq<char>| #[trigger]
        remains(buffered(a.signals, name), buffered(c.signals, name)) by {
        let sa = buffered(a.signals, name);
        let sb = buffered(b.signals, name);
        let sc = buffered(c.signals, name);
        assert(remains(sa, sb));
        assert(remains(sb, sc));
        assert(sa.skip(sa.len() - sc.len()) =~= sc);
    }
}

/// A body may emit a command under a number, once.
pub proof fn emitting_leads(ctx: ContextView, seq: u64, command: CommandView)
    requires
        command.seq() == Some(seq),
    ensures
        ctx.leads_to(ctx.emitted(seq, command)),
        ctx.new_commands(ctx.emitted(seq, command)) == (if ctx.scheduled.contains(seq) {
            Seq::empty()
        } else {
            seq![command]
        }),
        ctx.new_branches(ctx.emitted(seq, command)) == Seq::<u64>::empty(),
{
    let after = ctx.emitted(seq, command);
    nothing_leads(ctx);
    assert(ctx.new_commands(ctx) =~= Seq::empty());
    assert(ctx.new_branches(after) =~= Seq::empty());
    if !ctx.scheduled.contains(seq) {
        let new = ctx.new_commands(after);
        assert(new =~= seq![command]);
        assert(after.commands =~= ctx.commands + new);
        assert(keys(new)[0] == CommandKey::Number(seq));
        assert forall|k: CommandKey| #[trigger] after.has_emitted(k) implies ctx.has_emitted(k)
            || keys(new).contains(k) by {}
        assert(after.new_spawns =~= ctx.new_spawns + ctx.new_branches(after));
        assert forall|name: Seq<char>| #[trigger]
            remains(buffered(ctx.signals, name), buffered(after.signals, name)) by {
            assert(remains(buffered(ctx.signals, name), buffered(ctx.signals, name)));
        }
    }
}

/// A body may ask for a change marker.
pub proof fn asking_leads(ctx: ContextView, change_id: Seq<char>)
    ensures
        ctx.leads_to(ctx.patch_asked(change_id)),
        ctx.new_commands(ctx.patch_asked(change_id)).len() <= 1,
        ctx.new_branches(ctx.patch_asked(change_id)) == Seq::<u64>::empty(),
{
    let after = ctx.patch_asked(change_id);
    nothing_leads(ctx);
    assert(ctx.new_branches(after) =~= Seq::empty());
    if after != ctx {
        let new = ctx.new_commands(after);
        assert(new =~= seq![CommandView::RecordPatch { change_id }]);
        assert(after.commands =~= ctx.commands + new);
        assert(keys(new)[0] == CommandKey::Marker(change_id));
        assert forall|k: CommandKey| #[trigger] after.has_emitted(k) implies ctx.has_emitted(k)
            || keys(new).contains(k) by {}
        assert(after.new_spawns =~= ctx.new_spawns + ctx.new_branches(after));
        assert forall|name: Seq<char>| #[trigger]
            remains(buffered(ctx.signals, name), buffered(after.signals, name)) by {
            assert(remains(buffered(ctx.signals, name), buffered(ctx.signals, name)));
        }
    }
}

/// A body may take a sequence number.
pub proof fn allocating_leads(ctx: ContextView)
    ensures
        ctx.leads_to(ctx.allocated()),
        ctx.new_commands(ctx.allocated()) == Seq::<CommandView>::empty(),
        ctx.new_branches(ctx.allocated()) == Seq::<u64>::empty(),
{
    let after = ctx.allocated();
    nothing_leads(ctx);
    assert(ctx.new_commands(after) =~= ctx.new_commands(ctx));
    assert(ctx.new_commands(after) =~= Seq::empty());
    assert(ctx.new_branches(after) =~= Seq::empty());
    assert forall|k: CommandKey| #[trigger] after.has_emitted(k) == ctx.has_emitted(k) by {}
    assert(after.new_spawns =~= ctx.new_spawns + ctx.new_branches(after));
    assert forall|name: Seq<char>| #[trigger]
        remains(buffered(ctx.signals, name), buffered(after.signals, name)) by {
        assert(remains(buffered(ctx.signals, name), buffered(ctx.signals, name)));
    }
}

/// A body may start a branch.
pub proof fn spawning_leads(ctx: ContextView)
    ensures
        ctx.leads_to(ctx.spawned()),
        ctx.new_commands(ctx.spawned()) == Seq::<CommandView>::empty(),
        ctx.new_branches(ctx.spawned()) == seq![ctx.next_branch],
{
    let after = ctx.spawned();
    nothing_leads(ctx);
    assert(ctx.new_commands(after) =~= ctx.new_commands(ctx));
    assert(ctx.new_commands(after) =~= Seq::empty());
    assert(ctx.new_branches(after) =~= seq![ctx.next_branch]);
    assert forall|k: CommandKey| #[trigger] after.has_emitted(k) == ctx.has_emitted(k) by {}
    assert(after.new_spawns =~= ctx.new_spawns + ctx.new_branches(after));
    assert forall|name: Seq<char>| #[trigger]
        remains(buffered(ctx.signals, name), buffered(after.signals, name)) by {
        assert(remains(buffered(ctx.signals, name), buffered(ctx.signals, name)));
    }
}

/// A body may receive a signal.
pub proof fn receiving_leads(ctx: ContextView, name: Seq<char>)
    ensures
        ctx.leads_to(ctx.signal_received(name)),
        ctx.new_commands(ctx.signal_received(name)) == Seq::<CommandView>::empty(),
        ctx.new_branches(ctx.signal_received(name)) == Seq::<u64>::empty(),
{
    let after = ctx.signal_received(name);
    nothing_leads(ctx);
    assert(ctx.new_commands(after) =~= ctx.new_commands(ctx));
    assert(ctx.new_commands(after) =~= Seq::empty());
    assert(ctx.new_branches(after) =~= Seq::empty());
    assert forall|k: CommandKey| #[trigger] after.has_emitted(k) == ctx.has_emitted(k) by {}
    assert(after.new_spawns =~= ctx.new_spawns + ctx.new_branches(after));
    assert forall|n: Seq<char>| #[trigger]
        remains(buffered(ctx.signals, n), buffered(after.signals, n)) by {
        let held = buffered(ctx.signals, n);
        assert(held.skip(0) =~= held);
        if n == name && held.len() > 0 {
            assert(received(ctx.signals, name)[n] == held.drop_first());
            assert(held.skip(1) =~= held.drop_first());
        }
    }
}

} // verus!
