//! The two lock-free queues between the control side and the audio side.
//!
//! Both are single-producer, single-consumer ring buffers whose other end
//! belongs to another thread, so nothing is promised of what a call finds in
//! them: the functions here are the calls themselves, with no contract.

use vstd::prelude::*;
use crate::input::Event;
use crate::output::ControlMessage;

verus! {

/// The reading end of an `rtrb` ring buffer, carried as an opaque value.
#[verifier::external_type_specification]
#[verifier::external_body]
#[verifier::reject_recursive_types(T)]
pub struct ExConsumer<T>(rtrb::Consumer<T>);

/// The writing end of an `rtrb` ring buffer, carried as an opaque value.
#[verifier::external_type_specification]
#[verifier::external_body]
#[verifier::reject_recursive_types(T)]
pub struct ExProducer<T>(rtrb::Producer<T>);

/// `rtrb::Consumer::pop`: the oldest message if there is one, `None` when
/// the queue is found empty. It never waits. Nothing is claimed of which
/// of the two happens.
#[verifier::external_body]
pub(crate) fn pop_message(receiver: &mut rtrb::Consumer<ControlMessage>) -> (message: Option<ControlMessage>) {
    receiver.pop().ok()
}

/// `rtrb::Producer::push`: moves the event into the queue and answers
/// `true`, or answers `false` when the queue is found full and the event is
/// lost. It never waits. Nothing is claimed of which of the two happens.
#[verifier::external_body]
pub(crate) fn push_event<const IN: usize>(sender: &mut rtrb::Producer<Event<IN>>, event: Event<IN>) -> (sent: bool) {
    sender.push(event).is_ok()
}

} // verus!
