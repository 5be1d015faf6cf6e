//! Receiving signals.
use crate::workflow::context::Context;
use crate::workflow::error::Error;
use crate::workflow::inbox::buffered;
use crate::workflow::poll::Poll;
use vstd::prelude::*;
use vstd::string::*;

verus! {

/// Signal channel, known by its name. It holds no buffer of its own: two channels
/// of one name are one channel.
pub struct SignalChannel {
    pub name: String,
}

impl SignalChannel {
    /// The channel of that name.
    pub fn new(name: String) -> (channel: Self)
        ensures
            channel.name@ == name@,
    {
        SignalChannel { name }
    }

    /// Awaits one signal.
    pub fn recv(&self) -> (recv: SignalRecv)
        ensures
            recv.name@ == self.name@,
    {
        SignalRecv { name: self.name.clone() }
    }
}

/// The wait for one signal.
pub struct SignalRecv {
    pub name: String,
}

/// The error text for a payload of the signal `name` that does not parse.
pub open spec fn signal_parse_failure(name: Seq<char>, reason: Seq<char>) -> Seq<char> {
    "signal '"@ + name + "' deserialize: "@ + reason
}

impl SignalRecv {
    /// Takes the oldest signal that has arrived under the name; parks while there
    /// is none.
    pub fn poll(&self, ctx: &mut Context) -> (poll: Poll<Vec<u8>>)
        ensures
            final(ctx)@ == old(ctx)@.signal_received(self.name@),
            match poll {
                Poll::Ready(payload) => buffered(old(ctx)@.signals, self.name@).len() > 0
                    && payload@ == buffered(old(ctx)@.signals, self.name@)[0],
                Poll::Pending => buffered(old(ctx)@.signals, self.name@).len() == 0,
            },
            poll matches Poll::Ready(payload) ==> old(ctx)@.signals.contains_key(self.name@)
                && payload@ == old(ctx)@.signals[self.name@][0],
            poll is Pending ==> !old(ctx)@.signals.contains_key(self.name@) || old(
                ctx,
            )@.signals[self.name@].len() == 0,
    {
        match ctx.receive(&self.name) {
            Some(payload) => Poll::Ready(payload),
            None => Poll::Pending,
        }
    }

    /// What the wait gives, once its payload has been parsed.
    pub fn decoded<T>(&self, parsed: Result<T, String>) -> (value: Result<T, Error>)
        ensures
            match parsed {
                Ok(v) => value == Ok::<T, Error>(v),
                Err(reason) => value matches Err(e) && e@ == signal_parse_failure(
                    self.name@,
                    reason@,
                ) && e@ == "signal '"@ + self.name@ + "' deserialize: "@ + reason@,
            },
    {
        match parsed {
            Ok(v) => Ok(v),
            Err(reason) => {
                let mut message = String::from_str("signal '");
                message.append(self.name.as_str());
                message.append("' deserialize: ");
                message.append(reason.as_str());
                Err(Error { message })
            },
        }
    }
}

} // verus!
