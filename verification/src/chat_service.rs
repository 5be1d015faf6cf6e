//! The chat service's messages.
use vstd::prelude::*;

verus! {

/// A stored message. `seq` counts the messages of a conversation from 1.
#[derive(Debug, Clone, PartialEq, Eq)]
pub struct ChatMessage {
    pub conversation_id: String,
    pub message_id: String,
    pub role: String,
    pub content: String,
    pub status: String,
    pub seq: i64,
    pub created_at: i64,
}

/// The contents of a [`ChatMessage`].
#[verifier::ext_equal]
pub struct ChatMessageView {
    pub conversation_id: Seq<char>,
    pub message_id: Seq<char>,
    pub role: Seq<char>,
    pub content: Seq<char>,
    pub status: Seq<char>,
    pub seq: i64,
    pub created_at: i64,
}

impl View for ChatMessage {
    type V = ChatMessageView;

    open spec fn view(&self) -> ChatMessageView {
        ChatMessageView {
            conversation_id: self.conversation_id@,
            message_id: self.message_id@,
            role: self.role@,
            content: self.content@,
            status: self.status@,
            seq: self.seq,
            created_at: self.created_at,
        }
    }
}

/// A message to record. The service gives it its place and its time.
#[derive(Debug, Clone, PartialEq, Eq)]
pub struct RecordArgs {
    pub conversation_id: String,
    pub message_id: String,
    pub role: String,
    pub content: String,
    pub status: String,
}

/// The contents of a [`RecordArgs`].
#[verifier::ext_equal]
pub struct RecordArgsView {
    pub conversation_id: Seq<char>,
    pub message_id: Seq<char>,
    pub role: Seq<char>,
    pub content: Seq<char>,
    pub status: Seq<char>,
}

impl View for RecordArgs {
    type V = RecordArgsView;

    open spec fn view(&self) -> RecordArgsView {
        RecordArgsView {
            conversation_id: self.conversation_id@,
            message_id: self.message_id@,
            role: self.role@,
            content: self.content@,
            status: self.status@,
        }
    }
}

/// The message that is stored for `args` at place `seq`.
pub open spec fn stored(args: RecordArgsView, seq: i64, now: i64) -> ChatMessageView {
    ChatMessageView {
        conversation_id: args.conversation_id,
        message_id: args.message_id,
        role: args.role,
        content: args.content,
        status: args.status,
        seq,
        created_at: now,
    }
}

/// What recording a message stores: at the place after `last_seq`, the last of the
/// conversation, unless the conversation holds a message with that id.
pub open spec fn recorded_row(
    args: RecordArgsView,
    recorded: bool,
    last_seq: Option<i64>,
    now: i64,
) -> Option<ChatMessageView> {
    if recorded {
        None
    } else {
        Some(
            stored(
                args,
                match last_seq {
                    Some(last) => (last + 1) as i64,
                    None => 1,
                },
                now,
            ),
        )
    }
}

/// The contents of an optional message.
pub open spec fn message_view(row: Option<ChatMessage>) -> Option<ChatMessageView> {
    match row {
        Some(row) => Some(row@),
        None => None,
    }
}

/// What recording a message stores: at the place after `last_seq`, the last of the
/// conversation, unless the conversation holds a message with that id.
pub fn record_message(args: RecordArgs, recorded: bool, last_seq: Option<i64>, now: i64) -> (row:
    Option<ChatMessage>)
    requires
        last_seq matches Some(last) ==> last < i64::MAX,
    ensures
        message_view(row) == recorded_row(args@, recorded, last_seq, now),
        row is None <==> recorded,
        row matches Some(stored) ==> {
            &&& stored.conversation_id@ == args.conversation_id@
            &&& stored.message_id@ == args.message_id@
            &&& stored.role@ == args.role@
            &&& stored.content@ == args.content@
            &&& stored.status@ == args.status@
            &&& stored.created_at == now
            &&& stored.seq == match last_seq {
                Some(last) => last + 1,
                None => 1,
            }
        },
{
    if recorded {
        return None;
    }
    let seq: i64 = match last_seq {
        Some(last) => last + 1,
        None => 1,
    };
    Some(
        ChatMessage {
            conversation_id: args.conversation_id,
            message_id: args.message_id,
            role: args.role,
            content: args.content,
            status: args.status,
            seq,
            created_at: now,
        },
    )
}

/// A conversation: the messages that recordings have stored in it, in order.
pub open spec fn conversation(recordings: Seq<(RecordArgsView, i64)>) -> Seq<ChatMessageView>
    decreases recordings.len(),
{
    if recordings.len() == 0 {
        Seq::empty()
    } else {
        let before = conversation(recordings.drop_last());
        let (args, now) = recordings.last();
        if holds(before, args.message_id) {
            before
        } else {
            before.push(stored(args, (before.len() + 1) as i64, now))
        }
    }
}

/// Whether a conversation holds a message with that id.
pub open spec fn holds(messages: Seq<ChatMessageView>, message_id: Seq<char>) -> bool {
    exists|i: int| 0 <= i < messages.len() && (#[trigger] messages[i]).message_id == message_id
}

/// The places of a conversation count from 1 in the order of its messages, and no
/// message id occurs twice.
pub proof fn places_follow_the_order(recordings: Seq<(RecordArgsView, i64)>)
    requires
        recordings.len() < i64::MAX,
    ensures
        forall|i: int|
            0 <= i < conversation(recordings).len() ==> (#[trigger] conversation(
                recordings,
            )[i]).seq == i + 1,
        forall|i: int, j: int|
            0 <= i < j < conversation(recordings).len() ==> (#[trigger] conversation(
                recordings,
            )[i]).message_id != (#[trigger] conversation(recordings)[j]).message_id,
        conversation(recordings).len() <= recordings.len(),
    decreases recordings.len(),
{
    if recordings.len() > 0 {
        places_follow_the_order(recordings.drop_last());
    }
}

/// The last place of a conversation, if it has a message.
pub open spec fn last_place(messages: Seq<ChatMessageView>) -> Option<i64> {
    if messages.len() == 0 {
        None
    } else {
        Some(messages.last().seq)
    }
}

/// A conversation grows by what each recording stores, when the recording is told
/// whether the conversation holds its message already, and the last place in it. No
/// message has a place after that one.
pub proof fn conversations_grow_by_what_is_stored(
    recordings: Seq<(RecordArgsView, i64)>,
    args: RecordArgsView,
    now: i64,
)
    requires
        recordings.len() < i64::MAX,
    ensures
        ({
            let before = conversation(recordings);
            let after = conversation(recordings.push((args, now)));
            let last = last_place(before);
            &&& last matches Some(place) ==> place < i64::MAX && forall|i: int|
                0 <= i < before.len() ==> (#[trigger] before[i]).seq <= place
            &&& match recorded_row(args, holds(before, args.message_id), last, now) {
                Some(row) => after == before.push(row),
                None => after == before,
            }
        }),
{
    places_follow_the_order(recordings);
    assert(recordings.push((args, now)).drop_last() =~= recordings);
}

/// Recording a message again changes nothing.
pub proof fn recording_again_changes_nothing(
    recordings: Seq<(RecordArgsView, i64)>,
    args: RecordArgsView,
    now: i64,
    later: i64,
)
    ensures
        conversation(recordings.push((args, now)).push((args, later))) == conversation(
            recordings.push((args, now)),
        ),
{
    let once = recordings.push((args, now));
    let twice = once.push((args, later));
    assert(twice.drop_last() =~= once);
    assert(once.drop_last() =~= recordings);
    let c = conversation(once);
    let before = conversation(recordings);
    if holds(before, args.message_id) {
        assert(c == before);
    } else {
        assert(c[before.len() as int].message_id == args.message_id);
    }
}

/// A row holds what it was recorded with, field by field, the time of the recording
/// and the place after the last one; and a row is stored exactly for a message that is
/// not there yet.
pub proof fn rows_hold_what_is_recorded(
    args: RecordArgsView,
    recorded: bool,
    last_seq: Option<i64>,
    now: i64,
)
    requires
        last_seq matches Some(last) ==> last < i64::MAX,
    ensures
        recorded_row(args, recorded, last_seq, now) is None <==> recorded,
        recorded_row(args, recorded, last_seq, now) matches Some(row) ==> {
            &&& row.conversation_id == args.conversation_id
            &&& row.message_id == args.message_id
            &&& row.role == args.role
            &&& row.content == args.content
            &&& row.status == args.status
            &&& row.created_at == now
            &&& last_seq is None ==> row.seq == 1
            &&& last_seq matches Some(last) ==> row.seq == last + 1
        },
{
}

/// Nothing is lost and nothing made up: every recording's message is in the
/// conversation, and every message of the conversation is the first recording under its
/// id, field by field, with that recording's time.
pub proof fn conversations_hold_first_recordings(recordings: Seq<(RecordArgsView, i64)>)
    ensures
        forall|k: int|
            0 <= k < recordings.len() ==> holds(
                conversation(recordings),
                (#[trigger] recordings[k]).0.message_id,
            ),
        forall|i: int|
            0 <= i < conversation(recordings).len() ==> was_recorded(
                recordings,
                #[trigger] conversation(recordings)[i],
            ),
{
    assert forall|k: int| 0 <= k < recordings.len() implies holds(
        conversation(recordings),
        (#[trigger] recordings[k]).0.message_id,
    ) by {
        lemma_recording_is_held(recordings, k);
    }
    assert forall|i: int| 0 <= i < conversation(recordings).len() implies was_recorded(
        recordings,
        #[trigger] conversation(recordings)[i],
    ) by {
        lemma_message_was_recorded(recordings, i);
    }
}

proof fn lemma_recording_is_held(recordings: Seq<(RecordArgsView, i64)>, k: int)
    requires
        0 <= k < recordings.len(),
    ensures
        holds(conversation(recordings), recordings[k].0.message_id),
    decreases recordings.len(),
{
    let before = recordings.drop_last();
    let (args, now) = recordings.last();
    let old_rows = conversation(before);
    let rows = conversation(recordings);
    if k < before.len() {
        lemma_recording_is_held(before, k);
        let i = choose|i: int|
            0 <= i < old_rows.len() && (#[trigger] old_rows[i]).message_id
                == before[k].0.message_id;
        assert(rows[i].message_id == recordings[k].0.message_id);
    } else if !holds(old_rows, args.message_id) {
        assert(rows[old_rows.len() as int].message_id == args.message_id);
    }
}

proof fn lemma_message_was_recorded(recordings: Seq<(RecordArgsView, i64)>, i: int)
    requires
        0 <= i < conversation(recordings).len(),
    ensures
        was_recorded(recordings, conversation(recordings)[i]),
    decreases recordings.len(),
{
    let before = recordings.drop_last();
    let last = recordings.len() - 1;
    let (args, now) = recordings.last();
    let old_rows = conversation(before);
    let row = conversation(recordings)[i];
    if i < old_rows.len() {
        lemma_message_was_recorded(before, i);
        let k = choose|k: int| is_first_recording(before, k, old_rows[i]);
        assert forall|j: int| 0 <= j < k implies (#[trigger] recordings[j]).0.message_id
            != row.message_id by {
            assert(before[j] == recordings[j]);
        }
        assert(is_first_recording(recordings, k, row));
    } else {
        assert forall|j: int| 0 <= j < last implies (#[trigger] recordings[j]).0.message_id
            != row.message_id by {
            assert(before[j] == recordings[j]);
            lemma_recording_is_held(before, j);
        }
        assert(is_first_recording(recordings, last, row));
    }
}

/// Whether `row` is the first recording under its id.
pub open spec fn was_recorded(recordings: Seq<(RecordArgsView, i64)>, row: ChatMessageView) -> bool {
    exists|k: int| is_first_recording(recordings, k, row)
}

/// Whether `row` is recording `k`, field by field, and no recording before it has its
/// id.
pub open spec fn is_first_recording(
    recordings: Seq<(RecordArgsView, i64)>,
    k: int,
    row: ChatMessageView,
) -> bool {
    &&& 0 <= k < recordings.len()
    &&& row.conversation_id == recordings[k].0.conversation_id
    &&& row.message_id == recordings[k].0.message_id
    &&& row.role == recordings[k].0.role
    &&& row.content == recordings[k].0.content
    &&& row.status == recordings[k].0.status
    &&& row.created_at == recordings[k].1
    &&& forall|j: int| 0 <= j < k ==> (#[trigger] recordings[j]).0.message_id != row.message_id
}

} // verus!
