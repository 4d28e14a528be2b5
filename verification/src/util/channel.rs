//! Passing values between threads: what this library asks of the queues that
//! it is handed.
//!
//! What a queue yields depends on what other threads have put into it, so
//! nothing is promised of it.

use crossbeam_channel::Receiver;
use crossbeam_channel::Select;
use crossbeam_channel::Sender;
use vstd::prelude::*;

verus! {

/// `crossbeam_channel::unbounded`: the two ends of a new queue without a
/// bound.
#[verifier::external_body]
pub(crate) fn unbounded<T>() -> (r: (Sender<T>, Receiver<T>)) {
    crossbeam_channel::unbounded()
}

/// `crossbeam_channel::Receiver::try_recv`: a value that is waiting in the
/// queue, without blocking; `None` where none is waiting or the senders are
/// gone.
#[verifier::external_body]
pub(crate) fn try_recv<T>(rx: &Receiver<T>) -> (r: Option<T>) {
    rx.try_recv().ok()
}

/// `crossbeam_channel::Sender::try_send`: puts the value into the queue,
/// without blocking; whether the queue took it.
#[verifier::external_body]
pub(crate) fn try_send<T>(tx: &Sender<T>, value: T) -> (r: bool) {
    tx.try_send(value).is_ok()
}

/// `crossbeam_channel::Sender::send`: puts the value into the queue, waiting
/// for room where the queue has a bound; whether the queue took it.
#[verifier::external_body]
pub(crate) fn send<T>(tx: &Sender<T>, value: T) -> (r: bool) {
    tx.send(value).is_ok()
}

/// `crossbeam_channel::Select` over the receivers, with `try_select`: a
/// value that is waiting in one of the queues, with the place of that queue,
/// without blocking; `None` where none is waiting.
#[verifier::external_body]
pub(crate) fn try_recv_multiple<T>(rs: &Vec<&Receiver<T>>) -> (r: Option<(usize, T)>)
    ensures
        r matches Some((i, _)) ==> i < rs@.len(),
{
    let mut sel = Select::new();
    for r in rs.iter() {
        sel.recv(r);
    }
    let oper = sel.try_select().ok()?;
    let index = oper.index();
    oper.recv(rs[index]).ok().map(|value| (index, value))
}

/// Whether `taken` is what came of sending `value` through `tx`: whether the
/// queue took it.
pub closed spec fn is_sent<T>(tx: Sender<T>, value: T, taken: bool) -> bool {
    call_ensures(send::<T>, (&tx, value), taken)
}

/// Sends `value` through `tx`; the answer is whether the queue took it.
pub(crate) fn send_through<T>(tx: &Sender<T>, value: T) -> (taken: bool)
    ensures
        is_sent(*tx, value, taken),
{
    send(tx, value)
}

/// Whether `taken` is what came of offering `value` to the queue of `tx`
/// without waiting for room: whether the queue took it.
pub closed spec fn is_offered<T>(tx: Sender<T>, value: T, taken: bool) -> bool {
    call_ensures(try_send::<T>, (&tx, value), taken)
}

/// Offers `value` to the queue of `tx`, without waiting for room; the answer
/// is whether the queue took it.
pub(crate) fn offer_through<T>(tx: &Sender<T>, value: T) -> (taken: bool)
    ensures
        is_offered(*tx, value, taken),
{
    try_send(tx, value)
}

/// Whether `received` is what came of looking into the queue of `rx`: a
/// value that was waiting, or none.
pub closed spec fn is_received<T>(rx: Receiver<T>, received: Option<T>) -> bool {
    call_ensures(try_recv::<T>, (&rx,), received)
}

/// Looks into the queue of `rx`, without blocking.
pub(crate) fn receive_from<T>(rx: &Receiver<T>) -> (received: Option<T>)
    ensures
        is_received(*rx, received),
{
    try_recv(rx)
}

/// The queues that `rs` refer to, in order.
pub open spec fn queues<T>(rs: Seq<&Receiver<T>>) -> Seq<Receiver<T>> {
    Seq::new(rs.len(), |i: int| *rs[i])
}

/// Whether `received` is what came of looking into the queues `rs`: a value
/// that was waiting in one of them, with the place of that queue, or none.
pub closed spec fn is_received_among<T>(rs: Seq<Receiver<T>>, received: Option<(usize, T)>) -> bool {
    &&& received matches Some((at, _)) ==> at < rs.len()
    &&& exists|refs: Vec<&Receiver<T>>|
        queues(refs@) == rs && #[trigger] call_ensures(try_recv_multiple::<T>, (&refs,), received)
}

/// A queue that has nothing waiting yields nothing; and what is received
/// comes from one of the queues.
pub proof fn lemma_received_among<T>(rs: Seq<Receiver<T>>, received: Option<(usize, T)>)
    requires
        is_received_among(rs, received),
    ensures
        received matches Some((at, _)) ==> at < rs.len(),
{
}

/// Looks into the queues `rs`, without blocking.
pub(crate) fn receive_among<T>(rs: &Vec<&Receiver<T>>) -> (received: Option<(usize, T)>)
    ensures
        is_received_among(queues(rs@), received),
        received matches Some((at, _)) ==> at < rs@.len(),
{
    try_recv_multiple(rs)
}

} // verus!
