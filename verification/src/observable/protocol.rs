//! The mathematical model of one subscription: the notifications that have
//! reached its observer, in order, and whether it is closed.

use vstd::prelude::*;

verus! {

/// A notification as an observer receives it.
#[derive(Clone, Debug, PartialEq, Eq)]
pub enum Notification<T, E> {
    /// The subscription was made; nothing has been produced yet.
    Start,
    /// The next value of the stream.
    Next(T),
    /// The stream failed.
    Error(E),
    /// The stream ended.
    Complete,
}

impl<T, E> Notification<T, E> {
    /// `error` and `complete` end a stream.
    pub open spec fn is_terminal(self) -> bool {
        self is Error || self is Complete
    }
}

/// What a callback asks of the subscription that called it.
#[derive(Clone, Copy, PartialEq, Eq, Structural, Debug)]
pub enum Demand {
    /// Go on.
    Continue,
    /// Close the subscription now.
    Unsubscribe,
}

/// What a producer may have pushed through a gateway: values, then at most
/// one terminal notification, which is the last entry and has closed the
/// gateway. `Start` is never among them.
pub open spec fn sound<T, E>(accepted: Seq<Notification<T, E>>, closed: bool) -> bool {
    &&& forall|i: int| 0 <= i < accepted.len() ==> !(#[trigger] accepted[i] is Start)
    &&& forall|i: int|
        0 <= i < accepted.len() && (#[trigger] accepted[i]).is_terminal() ==> i == accepted.len() - 1
            && closed
}

/// How a gateway may move from (`before`, `was_closed`) to (`after`,
/// `is_closed`): it only gains notifications, a closed gateway gains none, and
/// it never reopens.
pub open spec fn extends<T, E>(
    before: Seq<Notification<T, E>>,
    was_closed: bool,
    after: Seq<Notification<T, E>>,
    is_closed: bool,
) -> bool {
    &&& before.is_prefix_of(after)
    &&& was_closed ==> is_closed && after == before
}

/// What has passed through a gateway, and whether it is closed.
pub struct Channel<T, E> {
    pub accepted: Seq<Notification<T, E>>,
    pub closed: bool,
}

/// A call that a producer makes on a gateway. A value comes with what the
/// observer asks in reply, should the value reach it.
pub enum Call<T, E> {
    Next(T, Demand),
    Error(E),
    Complete,
}

/// The channel after `call`. A closed channel stays as it is. An open one
/// gains the notification; it is closed by `error` and `complete`, and by a
/// value where the observer asks to unsubscribe in reply.
pub open spec fn after<T, E>(channel: Channel<T, E>, call: Call<T, E>) -> Channel<T, E> {
    if channel.closed {
        channel
    } else {
        match call {
            Call::Next(value, demand) => Channel {
                accepted: channel.accepted.push(Notification::Next(value)),
                closed: demand == Demand::Unsubscribe,
            },
            Call::Error(error) => Channel {
                accepted: channel.accepted.push(Notification::Error(error)),
                closed: true,
            },
            Call::Complete => Channel {
                accepted: channel.accepted.push(Notification::Complete),
                closed: true,
            },
        }
    }
}

/// The channel after `calls`, made one after the other.
pub open spec fn after_all<T, E>(channel: Channel<T, E>, calls: Seq<Call<T, E>>) -> Channel<T, E>
    decreases calls.len(),
{
    if calls.len() == 0 {
        channel
    } else {
        after(after_all(channel, calls.drop_last()), calls.last())
    }
}

/// The channel of a subscription through which nothing has passed.
pub open spec fn fresh<T, E>() -> Channel<T, E> {
    Channel { accepted: Seq::<Notification<T, E>>::empty(), closed: false }
}

/// Whatever a producer calls, and in whatever order: at most one of `error`
/// and `complete` passes, nothing passes after it, and the channel is then
/// closed.
pub proof fn law_calls_keep_sound<T, E>(channel: Channel<T, E>, calls: Seq<Call<T, E>>)
    requires
        sound(channel.accepted, channel.closed),
    ensures
        sound(after_all(channel, calls).accepted, after_all(channel, calls).closed),
    decreases calls.len(),
{
    if calls.len() > 0 {
        law_calls_keep_sound(channel, calls.drop_last());
        let before = after_all(channel, calls.drop_last());
        let now = after(before, calls.last());
        if !before.closed {
            assert forall|i: int| 0 <= i < now.accepted.len() implies !(
            #[trigger] now.accepted[i] is Start) by {
                if i < before.accepted.len() {
                    assert(now.accepted[i] == before.accepted[i]);
                }
            }
            assert forall|i: int|
                0 <= i < now.accepted.len() && (
                #[trigger] now.accepted[i]).is_terminal() implies i == now.accepted.len() - 1
                && now.closed by {
                if i < before.accepted.len() {
                    assert(now.accepted[i] == before.accepted[i]);
                }
            }
        }
    }
}

/// Once a channel is closed, no call changes it: nothing passes, and it
/// stays closed.
pub proof fn law_closed_is_silent<T, E>(channel: Channel<T, E>, calls: Seq<Call<T, E>>)
    requires
        channel.closed,
    ensures
        after_all(channel, calls) == channel,
    decreases calls.len(),
{
    if calls.len() > 0 {
        law_closed_is_silent(channel, calls.drop_last());
    }
}

/// A channel only gains notifications, and it never reopens.
pub proof fn law_calls_extend<T, E>(channel: Channel<T, E>, calls: Seq<Call<T, E>>)
    ensures
        extends(
            channel.accepted,
            channel.closed,
            after_all(channel, calls).accepted,
            after_all(channel, calls).closed,
        ),
    decreases calls.len(),
{
    if calls.len() > 0 {
        law_calls_extend(channel, calls.drop_last());
        if channel.closed {
            law_closed_is_silent(channel, calls.drop_last());
        }
    }
}

} // verus!
