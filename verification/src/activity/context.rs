//! The handle an activity attempt runs with.
use crate::activity::info::{Info, InfoView};
use vstd::prelude::*;
use vstd::string::*;

verus! {

/// Handle given to one activity attempt.
pub struct Context {
    info: Info,
}

impl View for Context {
    type V = InfoView;

    closed spec fn view(&self) -> InfoView {
        self.info@
    }
}

impl Clone for Context {
    fn clone(&self) -> (r: Self)
        ensures
            r@ == self@,
    {
        Context { info: self.info.clone() }
    }
}

/// `run_id`, a colon, then the activity id: the key under which an attempt's
/// side effect is made idempotent.
pub open spec fn idempotency_key(info: InfoView) -> Seq<char> {
    info.execution.run_id + ":"@ + info.activity_id
}

impl Context {
    /// The handle for the attempt that `info` describes.
    pub fn new(info: Info) -> (c: Self)
        ensures
            c@ == info@,
    {
        Context { info }
    }

    /// What the attempt is told about itself.
    pub fn info(&self) -> (i: &Info)
        ensures
            i@ == self@,
    {
        &self.info
    }

    /// The key that is the same for every attempt and redelivery of this
    /// activity.
    pub fn idempotency_key(&self) -> (key: String)
        ensures
            key@ == idempotency_key(self@),
    {
        self.info.execution.run_id.clone().concat(":").concat(self.info.activity_id.as_str())
    }
}

/// The idempotency key does not depend on the attempt: two attempts at one
/// activity of one run have the same key.
pub proof fn key_is_stable_across_attempts(first: InfoView, second: InfoView)
    requires
        first.execution.run_id == second.execution.run_id,
        first.activity_id == second.activity_id,
    ensures
        idempotency_key(first) == idempotency_key(second),
{
}

/// The key is the run's id and the activity's, with a colon between them, so that two
/// activities of one run never share a key.
pub proof fn keys_tell_activities_apart(first: InfoView, second: InfoView)
    requires
        first.execution.run_id == second.execution.run_id,
        first.activity_id != second.activity_id,
    ensures
        idempotency_key(first) != idempotency_key(second),
        idempotency_key(first) == first.execution.run_id + seq![':'] + first.activity_id,
{
    reveal_strlit(":");
    assert(":"@ =~= seq![':']);
    let before = first.execution.run_id + ":"@;
    if idempotency_key(first) == idempotency_key(second) {
        assert(idempotency_key(first).skip(before.len() as int) =~= first.activity_id);
        assert(idempotency_key(second).skip(before.len() as int) =~= second.activity_id);
    }
}

/// The key is that of the run: the same activity of another run of an id of the same
/// length has another key.
pub proof fn keys_tell_runs_apart(first: InfoView, second: InfoView)
    requires
        first.execution.run_id != second.execution.run_id,
        first.execution.run_id.len() == second.execution.run_id.len(),
    ensures
        idempotency_key(first) != idempotency_key(second),
{
    let n = first.execution.run_id.len() as int;
    if idempotency_key(first) == idempotency_key(second) {
        assert(idempotency_key(first).take(n) =~= first.execution.run_id);
        assert(idempotency_key(second).take(n) =~= second.execution.run_id);
    }
}

} // verus!
