//! The crate's trusted surface: declarations of outside types and thin
//! wrappers around the few outside calls the verified code makes. Every
//! contract here is believed, not proved; each doc comment names the
//! function relied on.

use vstd::prelude::*;

verus! {

/// The sending half of a bounded tokio channel carrying outbound frames.
#[verifier::external_type_specification]
#[verifier::external_body]
#[verifier::reject_recursive_types(T)]
pub struct ExSender<T>(tokio::sync::mpsc::Sender<T>);

/// The receiving half of a bounded tokio channel carrying outbound frames.
#[verifier::external_type_specification]
#[verifier::external_body]
#[verifier::reject_recursive_types(T)]
pub struct ExReceiver<T>(tokio::sync::mpsc::Receiver<T>);

/// Relies on `tokio::sync::mpsc::channel`: a fresh bounded channel with
/// a capacity of 1024 frames; nothing is promised of the handles.
#[verifier::external_body]
pub fn outbound_channel<T>() -> (tokio::sync::mpsc::Sender<T>, tokio::sync::mpsc::Receiver<T>) {
    tokio::sync::mpsc::channel(1024)
}

/// Relies on `tokio::sync::mpsc::Sender::try_send`: the value is queued
/// unless the channel is full or closed. Whether it was queued cannot be
/// observed from the registry, so only the attempt's outcome is returned.
#[verifier::external_body]
pub fn try_send_frame<T>(tx: &tokio::sync::mpsc::Sender<T>, frame: T) -> bool {
    tx.try_send(frame).is_ok()
}

/// Relies on `tokio::sync::mpsc::Sender::clone`: the clone sends into the
/// same channel; nothing further is promised of it.
#[verifier::external_body]
pub fn clone_sender<T>(tx: &tokio::sync::mpsc::Sender<T>) -> tokio::sync::mpsc::Sender<T> {
    tx.clone()
}

/// Relies on `nanoid::format` with the default URL-safe alphabet: the
/// result has exactly 21 characters, drawn from that alphabet.
#[verifier::external_body]
pub fn fresh_connection_id() -> (r: String)
    ensures
        r@.len() == 21,
{
    nanoid::format(nanoid::rngs::default, &nanoid::alphabet::SAFE, 21)
}

/// Relies on `String::from_iter` over `Vec::into_iter`: the string holds
/// exactly the vector's characters, in order.
#[verifier::external_body]
pub fn chars_to_string(v: &Vec<char>) -> (r: String)
    ensures
        r@ == v@,
{
    v.iter().collect()
}

pub assume_specification [ char::from_u32 ](i: u32) -> (r: Option<char>)
    ensures
        r == (if i < 0xD800 || (0xE000 <= i && i <= 0x10FFFF) {
            Some(i as char)
        } else {
            None::<char>
        }),
;

} // verus!
