use vstd::prelude::*;
use crate::manager::MessagesManager;
use crate::queue_model::QueueState;

verus! {

/// Front for the account and device registry, which lives in the database.
#[derive(Clone, Copy, Debug)]
pub struct AccountManager {}

impl AccountManager {
    pub fn new() -> (r: AccountManager) {
        AccountManager {}
    }
}

/// Front for pre-key storage, which lives in the database.
#[derive(Clone, Copy, Debug)]
pub struct KeyManager {}

impl KeyManager {
    pub fn new() -> (r: KeyManager) {
        KeyManager {}
    }
}

/// The server's shared state: a database handle, the message queues, and the
/// account and key managers.
pub struct SignalServerState<T> {
    db: T,
    messages: MessagesManager,
    account_manager: AccountManager,
    key_manager: KeyManager,
}

impl<T: Copy> SignalServerState<T> {
    pub closed spec fn db_handle(self) -> T {
        self.db
    }

    pub closed spec fn messages_spec(self) -> MessagesManager {
        self.messages
    }

    /// State over the database `db`, with no queued mail and no listener.
    pub fn new(db: T) -> (r: SignalServerState<T>)
        ensures
            r.db_handle() == db,
            r.messages_spec().wf(),
            forall|a: u128, b: u32| #[trigger] r.messages_spec().state(a, b) == QueueState::empty(),
            forall|a: u128, b: u32| #[trigger] r.messages_spec().listener(a, b) is None,
    {
        SignalServerState {
            db,
            messages: MessagesManager::new(),
            account_manager: AccountManager::new(),
            key_manager: KeyManager::new(),
        }
    }

    /// The database handle.
    pub fn database(&self) -> (r: T)
        ensures
            r == self.db_handle(),
    {
        self.db
    }

    /// The message queues.
    pub fn messages(&self) -> (r: &MessagesManager)
        ensures
            *r == self.messages_spec(),
    {
        &self.messages
    }

    /// The message queues, for changing.
    pub fn messages_mut(&mut self) -> (r: &mut MessagesManager)
        ensures
            *r == old(self).messages_spec(),
            final(self).db_handle() == old(self).db_handle(),
            final(self).messages_spec() == *final(r),
    {
        &mut self.messages
    }
}

} // verus!
