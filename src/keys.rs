//! The two random session keys a client gets on connect.
use vstd::prelude::*;
use crate::block::KEY_LEN;

verus! {

/// Relies on `rand::random::<u8>` (rand 0.8): one byte from the thread-local
/// generator. Nothing is known of its value. It takes no input; it panics only
/// where the operating system's entropy source cannot seed or reseed that
/// generator.
#[verifier::external_body]
fn random_byte() -> (r: u8) {
    rand::random::<u8>()
}

/// A fresh session key of `KEY_LEN` random bytes.
pub fn session_key() -> (r: Vec<u8>)
    ensures
        r@.len() == KEY_LEN,
{
    let mut key: Vec<u8> = Vec::new();
    let mut i: usize = 0;
    while i < KEY_LEN
        invariant
            i <= KEY_LEN,
            key@.len() == i,
        decreases KEY_LEN - i,
    {
        key.push(random_byte());
        i = i + 1;
    }
    key
}

} // verus!
