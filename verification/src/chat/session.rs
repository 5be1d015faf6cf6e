//! The chat session.
use crate::activity;
use crate::chat::types::{
    ChatSessionParams, ChatSessionResult, LlmParams, LlmResult, RecordResult, UserMessage,
};
use crate::chat_service::{RecordArgs, RecordArgsView};
use crate::workflow::context::Context;
use crate::workflow::error::Error;
use crate::workflow::inbox::buffered;
use crate::workflow::poll::Poll;
use crate::workflow::retry::RetryPolicy;
use vstd::prelude::*;
use vstd::string::*;

verus! {

/// The signal that carries a message.
pub const MESSAGE_SIGNAL: &'static str = "message";

/// The signal that ends a session.
pub const STOP_SIGNAL: &'static str = "stop";

/// What a session awaits.
pub enum Phase {
    /// Nothing yet.
    Start,
    /// The end, or a message; the end goes first if both are there.
    Waiting,
    /// The record of the user's message.
    Recording { message_id: String },
    /// The reply.
    Asking { message_id: String },
    /// The record of the reply.
    Replying,
    /// Nothing more.
    Over,
}

/// A session, between two events.
pub struct ChatSession {
    conversation_id: String,
    phase: Phase,
}

/// The contents of a [`Phase`].
pub enum PhaseView {
    Start,
    Waiting,
    Recording { message_id: Seq<char> },
    Asking { message_id: Seq<char> },
    Replying,
    Over,
}

/// The contents of a [`ChatSession`].
pub struct ChatSessionView {
    pub conversation_id: Seq<char>,
    pub phase: PhaseView,
}

impl View for Phase {
    type V = PhaseView;

    open spec fn view(&self) -> PhaseView {
        match *self {
            Phase::Start => PhaseView::Start,
            Phase::Waiting => PhaseView::Waiting,
            Phase::Recording { message_id } => PhaseView::Recording { message_id: message_id@ },
            Phase::Asking { message_id } => PhaseView::Asking { message_id: message_id@ },
            Phase::Replying => PhaseView::Replying,
            Phase::Over => PhaseView::Over,
        }
    }
}

impl View for ChatSession {
    type V = ChatSessionView;

    closed spec fn view(&self) -> ChatSessionView {
        ChatSessionView { conversation_id: self.conversation_id@, phase: self.phase@ }
    }
}

/// What has happened.
pub enum SessionEvent {
    /// The session starts.
    Begin,
    /// The end has come.
    Stopped,
    /// A message has come, or one that does not parse.
    Message(Result<UserMessage, Error>),
    /// A message is recorded, or cannot be.
    Recorded(Result<RecordResult, activity::Error>),
    /// The reply is there, or there is none.
    Replied(Result<LlmResult, activity::Error>),
}

/// What a session does.
pub enum SessionAction {
    /// Wait for the end or a message.
    Await,
    /// Record a message.
    Record(RecordArgs),
    /// Ask for a reply.
    Complete { params: LlmParams, retry: RetryPolicy },
    /// End.
    Finish(Result<ChatSessionResult, Error>),
}

/// What a session does, in contents.
pub enum SessionActionView {
    Await,
    Record(RecordArgsView),
    Complete { conversation_id: Seq<char>, retry: RetryPolicy },
    Finish(Result<(), Seq<char>>),
}

impl View for SessionAction {
    type V = SessionActionView;

    open spec fn view(&self) -> SessionActionView {
        match *self {
            SessionAction::Await => SessionActionView::Await,
            SessionAction::Record(args) => SessionActionView::Record(args@),
            SessionAction::Complete { params, retry } => SessionActionView::Complete {
                conversation_id: params.conversation_id@,
                retry,
            },
            SessionAction::Finish(Ok(_)) => SessionActionView::Finish(Ok(())),
            SessionAction::Finish(Err(error)) => SessionActionView::Finish(Err(error@)),
        }
    }
}

/// Whether a session in that phase can meet that event.
pub open spec fn meets(phase: PhaseView, event: SessionEvent) -> bool {
    match (phase, event) {
        (PhaseView::Start, SessionEvent::Begin) => true,
        (PhaseView::Waiting, SessionEvent::Stopped) => true,
        (PhaseView::Waiting, SessionEvent::Message(_)) => true,
        (PhaseView::Recording { .. }, SessionEvent::Recorded(_)) => true,
        (PhaseView::Asking { .. }, SessionEvent::Replied(_)) => true,
        (PhaseView::Replying, SessionEvent::Recorded(_)) => true,
        _ => false,
    }
}

/// The record of a message.
pub open spec fn record_of(
    conversation_id: Seq<char>,
    message_id: Seq<char>,
    role: Seq<char>,
    content: Seq<char>,
    status: Seq<char>,
) -> RecordArgsView {
    RecordArgsView { conversation_id, message_id, role, content, status }
}

/// What a session does on an event: it records a message, asks for a reply with four
/// attempts, records the reply, or the reason why there is none, and waits again. A
/// message that does not parse or cannot be recorded ends it; a missing reply does
/// not.
pub open spec fn session_step(session: ChatSessionView, event: SessionEvent) -> (
    PhaseView,
    SessionActionView,
) {
    let conversation_id = session.conversation_id;
    match (session.phase, event) {
        (PhaseView::Start, SessionEvent::Begin) => (PhaseView::Waiting, SessionActionView::Await),
        (PhaseView::Waiting, SessionEvent::Stopped) => (
            PhaseView::Over,
            SessionActionView::Finish(Ok(())),
        ),
        (PhaseView::Waiting, SessionEvent::Message(Ok(message))) => (
            PhaseView::Recording { message_id: message.message_id@ },
            SessionActionView::Record(
                record_of(
                    conversation_id,
                    message.message_id@,
                    "user"@,
                    message.text@,
                    "complete"@,
                ),
            ),
        ),
        (PhaseView::Waiting, SessionEvent::Message(Err(error))) => (
            PhaseView::Over,
            SessionActionView::Finish(Err(error@)),
        ),
        (PhaseView::Recording { message_id }, SessionEvent::Recorded(Ok(_))) => (
            PhaseView::Asking { message_id },
            SessionActionView::Complete {
                conversation_id,
                retry: RetryPolicy { max_attempts: 4, initial_ms: 100, multiplier: 2 },
            },
        ),
        (PhaseView::Asking { message_id }, SessionEvent::Replied(reply)) => (
            PhaseView::Replying,
            SessionActionView::Record(
                match reply {
                    Ok(reply) => record_of(
                        conversation_id,
                        message_id + "-reply"@,
                        "assistant"@,
                        reply.reply@,
                        "complete"@,
                    ),
                    Err(error) => record_of(
                        conversation_id,
                        message_id + "-reply"@,
                        "assistant"@,
                        error.message@,
                        "error"@,
                    ),
                },
            ),
        ),
        (PhaseView::Replying, SessionEvent::Recorded(Ok(_))) => (
            PhaseView::Waiting,
            SessionActionView::Await,
        ),
        (_, SessionEvent::Recorded(Err(error))) => (
            PhaseView::Over,
            SessionActionView::Finish(Err(error.message@)),
        ),
        _ => (PhaseView::Over, SessionActionView::Finish(Ok(()))),
    }
}

impl ChatSession {
    /// A session that has not started.
    pub fn new(params: ChatSessionParams) -> (session: Self)
        ensures
            session@ == (ChatSessionView {
                conversation_id: params.conversation_id@,
                phase: PhaseView::Start,
            }),
    {
        ChatSession { conversation_id: params.conversation_id, phase: Phase::Start }
    }

    fn record(&self, message_id: String, role: &str, content: String, status: &str) -> (args:
        RecordArgs)
        ensures
            args@ == record_of(self@.conversation_id, message_id@, role@, content@, status@),
    {
        RecordArgs {
            conversation_id: self.conversation_id.clone(),
            message_id,
            role: String::from_str(role),
            content,
            status: String::from_str(status),
        }
    }

    /// Takes the session one step further.
    pub fn run(&mut self, event: SessionEvent) -> (action: SessionAction)
        requires
            meets(old(self)@.phase, event),
        ensures
            final(self)@.conversation_id == old(self)@.conversation_id,
            (final(self)@.phase, action@) == session_step(old(self)@, event),
    {
        let mut phase = Phase::Over;
        std::mem::swap(&mut phase, &mut self.phase);
        match (phase, event) {
            (Phase::Start, SessionEvent::Begin) => {
                self.phase = Phase::Waiting;
                SessionAction::Await
            },
            (Phase::Waiting, SessionEvent::Stopped) => SessionAction::Finish(
                Ok(ChatSessionResult {  }),
            ),
            (Phase::Waiting, SessionEvent::Message(Ok(message))) => {
                self.phase = Phase::Recording { message_id: message.message_id.clone() };
                SessionAction::Record(
                    self.record(message.message_id, "user", message.text, "complete"),
                )
            },
            (Phase::Waiting, SessionEvent::Message(Err(error))) => SessionAction::Finish(
                Err(error),
            ),
            (Phase::Recording { message_id }, SessionEvent::Recorded(Ok(_))) => {
                self.phase = Phase::Asking { message_id };
                SessionAction::Complete {
                    params: LlmParams { conversation_id: self.conversation_id.clone() },
                    retry: RetryPolicy::exponential(4),
                }
            },
            (Phase::Asking { message_id }, SessionEvent::Replied(reply)) => {
                self.phase = Phase::Replying;
                let mut reply_id = message_id;
                reply_id.append("-reply");
                SessionAction::Record(
                    match reply {
                        Ok(reply) => self.record(reply_id, "assistant", reply.reply, "complete"),
                        Err(error) => self.record(reply_id, "assistant", error.message, "error"),
                    },
                )
            },
            (Phase::Replying, SessionEvent::Recorded(Ok(_))) => {
                self.phase = Phase::Waiting;
                SessionAction::Await
            },
            (_, SessionEvent::Recorded(Err(error))) => SessionAction::Finish(
                Err(Error::from(error)),
            ),
            _ => SessionAction::Finish(Ok(ChatSessionResult {  })),
        }
    }
}

/// What ends a session's wait.
pub enum Wake {
    /// The end has come.
    Stop,
    /// A message has come.
    Message(Vec<u8>),
}

/// Waits for the end or for a message. If both are there, the end goes first and the
/// message stays.
pub fn wait(ctx: &mut Context) -> (poll: Poll<Wake>)
    ensures
        ({
            let stops = buffered(old(ctx)@.signals, STOP_SIGNAL@);
            let messages = buffered(old(ctx)@.signals, MESSAGE_SIGNAL@);
            if stops.len() > 0 {
                &&& poll == Poll::Ready(Wake::Stop)
                &&& final(ctx)@ == old(ctx)@.signal_received(STOP_SIGNAL@)
            } else if messages.len() > 0 {
                &&& poll matches Poll::Ready(Wake::Message(payload)) && payload@ == messages[0]
                &&& final(ctx)@ == old(ctx)@.signal_received(MESSAGE_SIGNAL@)
            } else {
                &&& poll is Pending
                &&& final(ctx)@ == old(ctx)@
            }
        }),
{
    match ctx.signal_channel(STOP_SIGNAL).recv().poll(ctx) {
        Poll::Ready(_) => {
            return Poll::Ready(Wake::Stop);
        },
        Poll::Pending => {},
    }
    match ctx.signal_channel(MESSAGE_SIGNAL).recv().poll(ctx) {
        Poll::Ready(payload) => Poll::Ready(Wake::Message(payload)),
        Poll::Pending => Poll::Pending,
    }
}

/// A session without a reply goes on: the reason is recorded in its place, and the
/// session waits for the next message.
pub proof fn missing_reply_is_answered(
    session: ChatSessionView,
    error: activity::Error,
    recorded: RecordResult,
)
    requires
        session.phase is Asking,
    ensures
        ({
            let (phase, action) = session_step(session, SessionEvent::Replied(Err(error)));
            let next = ChatSessionView { phase, ..session };
            &&& action is Record
            &&& action->Record_0.status == "error"@
            &&& action->Record_0.content == error.message@
            &&& session_step(next, SessionEvent::Recorded(Ok(recorded))).0 is Waiting
        }),
{
}

/// A message runs through the session in five steps. It is recorded as the user's, with
/// its own id and text; a reply is asked for, for the same conversation and in four
/// attempts at most, of which the second comes after a tenth of a second and each
/// further one after twice the time; the reply is recorded as the assistant's, under an
/// id made from that of the message; and the session waits again. It is the same with
/// the reason why there is no reply, which is recorded as an error.
pub proof fn messages_are_recorded_and_answered(
    session: ChatSessionView,
    message: UserMessage,
    reply: Result<LlmResult, activity::Error>,
    recorded: RecordResult,
)
    requires
        session.phase is Waiting,
    ensures
        ({
            let (phase1, asked1) = session_step(session, SessionEvent::Message(Ok(message)));
            let (phase2, asked2) = session_step(
                ChatSessionView { phase: phase1, ..session },
                SessionEvent::Recorded(Ok(recorded)),
            );
            let (phase3, asked3) = session_step(
                ChatSessionView { phase: phase2, ..session },
                SessionEvent::Replied(reply),
            );
            let (phase4, asked4) = session_step(
                ChatSessionView { phase: phase3, ..session },
                SessionEvent::Recorded(Ok(recorded)),
            );
            &&& asked1 is Record
            &&& asked1->Record_0.conversation_id == session.conversation_id
            &&& asked1->Record_0.message_id == message.message_id@
            &&& asked1->Record_0.role == "user"@
            &&& asked1->Record_0.content == message.text@
            &&& asked1->Record_0.status == "complete"@
            &&& asked2 is Complete
            &&& asked2->Complete_conversation_id == session.conversation_id
            &&& asked2->Complete_retry.max_attempts == 4
            &&& asked2->Complete_retry.initial_ms == 100
            &&& asked2->Complete_retry.multiplier == 2
            &&& asked3 is Record
            &&& asked3->Record_0.conversation_id == session.conversation_id
            &&& asked3->Record_0.message_id == message.message_id@ + "-reply"@
            &&& asked3->Record_0.role == "assistant"@
            &&& match reply {
                Ok(reply) => asked3->Record_0.content == reply.reply@ && asked3->Record_0.status
                    == "complete"@,
                Err(error) => asked3->Record_0.content == error.message@
                    && asked3->Record_0.status == "error"@,
            }
            &&& asked4 is Await
            &&& phase4 is Waiting
            &&& meets(phase1, SessionEvent::Recorded(Ok(recorded)))
            &&& meets(phase2, SessionEvent::Replied(reply))
            &&& meets(phase3, SessionEvent::Recorded(Ok(recorded)))
        }),
{
}

/// A session starts by waiting. It ends well when it is told to, and badly when a message
/// does not parse or cannot be recorded, with the reason for that.
pub proof fn sessions_end_for_a_reason(
    session: ChatSessionView,
    wrong: Error,
    lost: activity::Error,
)
    ensures
        session.phase is Start ==> session_step(session, SessionEvent::Begin).0 is Waiting
            && session_step(session, SessionEvent::Begin).1 is Await,
        session.phase is Waiting ==> session_step(session, SessionEvent::Stopped).1 == (
        SessionActionView::Finish(Ok(()))),
        session.phase is Waiting ==> session_step(
            session,
            SessionEvent::Message(Err(wrong)),
        ).1 == (SessionActionView::Finish(Err(wrong.message@))),
        session.phase is Recording || session.phase is Replying ==> session_step(
            session,
            SessionEvent::Recorded(Err(lost)),
        ).1 == (SessionActionView::Finish(Err(lost.message@))),
{
}

/// What a session asks for can come: it is over when it ends, and until then it takes
/// what it waits for.
pub proof fn sessions_take_what_they_wait_for(
    session: ChatSessionView,
    event: SessionEvent,
    message: Result<UserMessage, Error>,
    recorded: Result<RecordResult, activity::Error>,
    reply: Result<LlmResult, activity::Error>,
)
    requires
        meets(session.phase, event),
    ensures
        ({
            let (phase, action) = session_step(session, event);
            match action {
                SessionActionView::Await => meets(phase, SessionEvent::Stopped) && meets(
                    phase,
                    SessionEvent::Message(message),
                ),
                SessionActionView::Record(_) => meets(phase, SessionEvent::Recorded(recorded)),
                SessionActionView::Complete { .. } => meets(phase, SessionEvent::Replied(reply)),
                SessionActionView::Finish(_) => phase is Over,
            }
        }),
        meets(PhaseView::Start, SessionEvent::Begin),
{
}

/// The two signals of a session have names of their own.
pub proof fn signals_have_names_of_their_own()
    ensures
        MESSAGE_SIGNAL@ == "message"@,
        STOP_SIGNAL@ == "stop"@,
        MESSAGE_SIGNAL@ != STOP_SIGNAL@,
{
    reveal_strlit("message");
    reveal_strlit("stop");
    assert("message"@.len() != "stop"@.len());
}

} // verus!
