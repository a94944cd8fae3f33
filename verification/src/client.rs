//! What a fetch that came back leads to.

use crate::store::{saved, Action, ActionView, Store};
use vstd::prelude::*;

verus! {

/// The one status with which a fetch counts as a success.
pub const OK: u16 = 200;

/// Why a fetch gave nothing.
#[derive(Debug)]
pub enum Error {
    /// The request could not be made or its answer not be read.
    Http,
    /// The blob could not be stored.
    Store(crate::store::Error),
}

/// Fetches blobs into a store.
#[derive(Clone, Debug)]
pub struct Client {
    store: Store,
}

/// What an answer with the status `status` and the body `bytes` leads to:
/// the body is saved where the status is 200; any other status comes back
/// as it is, and nothing is saved.
pub open spec fn downloaded(
    base: Seq<char>,
    lengths: Seq<usize>,
    status: u16,
    bytes: Seq<u8>,
    exists: bool,
) -> Result<ActionView, u16> {
    if status == OK {
        Ok(saved(base, lengths, bytes, exists))
    } else {
        Err(status)
    }
}

pub open spec fn download_view(result: Result<Action, u16>) -> Result<ActionView, u16> {
    match result {
        Ok(action) => Ok(action@),
        Err(status) => Err(status),
    }
}

impl Client {
    /// The store that blobs are fetched into.
    pub closed spec fn blobs(&self) -> Store {
        self.store
    }

    #[must_use]
    pub fn new(store: Store) -> (client: Self)
        ensures
            client.blobs() == store,
    {
        Self { store }
    }

    /// The store that blobs are fetched into.
    pub fn store(&self) -> (store: &Store)
        ensures
            *store == self.blobs(),
    {
        &self.store
    }

    /// Whether an answer with the status `status` carries a blob to save.
    pub fn accepts(status: u16) -> (accepted: bool)
        ensures
            accepted == (status == OK),
    {
        status == OK
    }

    /// What the answer to a fetch leads to, where `exists` says whether the
    /// file that the body would be saved in is there already.
    pub fn download(&self, status: u16, bytes: &[u8], exists: bool) -> (result: Result<Action, u16>)
        requires
            self.blobs().wf(),
        ensures
            download_view(result) == downloaded(
                self.blobs().base@,
                self.blobs().prefix_part_lengths@,
                status,
                bytes@,
                exists,
            ),
    {
        if Self::accepts(status) {
            Ok(self.store.save(bytes, exists))
        } else {
            Err(status)
        }
    }
}

} // verus!
