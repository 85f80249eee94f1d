//! The outbound queue of a WebSocket connection: a bounded tokio channel
//! whose last free slot is kept for the close frame that ends a consumer
//! too slow to keep up.

use vstd::prelude::*;

use tokio::sync::mpsc::Sender;

verus! {

/// How many messages wait for a connection before it is closed.
pub const OUTBOUND_CAPACITY: usize = 64;

/// The close code for a consumer too slow to keep up.
pub const CLOSE_SLOW_CONSUMER: u16 = 4005;

#[verifier::external_type_specification]
#[verifier::external_body]
#[verifier::reject_recursive_types(T)]
pub struct ExSender<T>(Sender<T>);

/// A message for the socket: a text frame, or a close frame with its code
/// and reason.
#[derive(Debug, Clone)]
pub enum Outbound {
    Text(String),
    Close(u16, String),
}

/// `Sender::capacity` of tokio: the free slots of the channel when it is
/// called. Other handles of the channel change it at any time, so nothing
/// is stated of the result.
#[verifier::external_body]
fn sender_capacity<T>(sender: &Sender<T>) -> (res: usize) {
    sender.capacity()
}

/// `Sender::try_send` of tokio: whether `message` was queued. It is refused
/// when the channel is full or its receiver is gone, which other handles
/// decide, so nothing is stated of the result.
#[verifier::external_body]
fn sender_try_send<T>(sender: &Sender<T>, message: T) -> (res: bool) {
    sender.try_send(message).is_ok()
}

/// Whether `message` may take a slot when `capacity` slots are free: a
/// close frame always may, any other message only while more than one slot
/// is free, so that the last is left for the close frame.
pub open spec fn spec_output_admitted(message: Outbound, capacity: usize) -> bool {
    message is Close || capacity > 1
}

/// Whether `message` may take a slot when `capacity` slots are free.
pub fn output_admitted(message: &Outbound, capacity: usize) -> (res: bool)
    ensures
        res == spec_output_admitted(*message, capacity),
{
    match message {
        Outbound::Close(_, _) => true,
        Outbound::Text(_) => capacity > 1,
    }
}

/// The close frame for a slow consumer.
pub fn slow_consumer_close() -> (res: Outbound)
    ensures
        res matches Outbound::Close(code, reason) && code == CLOSE_SLOW_CONSUMER && reason@
            == "slow_consumer"@,
{
    Outbound::Close(CLOSE_SLOW_CONSUMER, "slow_consumer".to_owned())
}

/// What is handed to the channel for `message` when `capacity` slots are
/// free: the message itself when it may take a slot, else the close frame
/// for a slow consumer in its place.
pub fn outbound_message(message: Outbound, capacity: usize) -> (res: Outbound)
    ensures
        spec_output_admitted(message, capacity) ==> res == message,
        !spec_output_admitted(message, capacity) ==> (res matches Outbound::Close(code, reason) && code
            == CLOSE_SLOW_CONSUMER && reason@ == "slow_consumer"@),
{
    if output_admitted(&message, capacity) {
        message
    } else {
        slow_consumer_close()
    }
}

/// Queues `message` on `output`, which had `capacity` free slots: what
/// `outbound_message` gives is handed to the channel, so a message that may
/// not take a slot is withheld and the close frame for a slow consumer goes
/// in its place; whether `message` itself was queued. Whether the channel
/// takes what it is handed depends on its state, which other handles change.
pub fn queue_with_capacity(output: &Sender<Outbound>, message: Outbound, capacity: usize) -> (res: bool)
    ensures
        !spec_output_admitted(message, capacity) ==> !res,
{
    let admitted = output_admitted(&message, capacity);
    let to_send = outbound_message(message, capacity);
    let sent = sender_try_send(output, to_send);
    admitted && sent
}

/// Queues `message` on `output` as `queue_with_capacity` does, with the
/// free slots the channel has now; whether it was queued. Both the free
/// slots read and the channel's answer change with the other handles of
/// the channel, so no clause over the arguments holds of every outcome:
/// what is handed to the channel is fixed by `outbound_message`.
pub fn queue_output(output: &Sender<Outbound>, message: Outbound) -> (res: bool) {
    let capacity = sender_capacity(output);
    queue_with_capacity(output, message, capacity)
}

} // verus!
