use vstd::prelude::*;
use crate::domain::{DomainError, PubKey, Registration};
use crate::events::{registration_error, RegistrationEventContent};
use crate::storage::{after_save, StoreError, TransactionProvider};

verus! {

/// The command to store a registration.
pub struct Register {
    pub registration: Registration,
}

/// Stores registrations, each in a transaction of its own.
pub struct RegisterHandler {}

impl RegisterHandler {
    pub fn new() -> (r: RegisterHandler) {
        RegisterHandler {  }
    }

    /// Stores the registration and commits: it replaces any earlier one of
    /// the same identity.
    pub fn handle(&self, provider: &mut TransactionProvider, cmd: &Register) -> (r: Result<
        (),
        StoreError,
    >)
        requires
            old(provider).wf(),
        ensures
            final(provider).wf(),
            r is Ok <==> old(provider).has_schema() && old(provider).version() < u64::MAX,
            r is Ok ==> final(provider).has_schema() && final(provider).committed() == after_save(
                old(provider).committed(),
                cmd.registration@,
            ) && final(provider).version() == old(provider).version() + 1,
            r is Err ==> *final(provider) == *old(provider),
            !old(provider).has_schema() ==> r == Err::<(), StoreError>(StoreError::MissingSchema),
            old(provider).has_schema() && old(provider).version() == u64::MAX ==> r == Err::<
                (),
                StoreError,
            >(StoreError::Exhausted),
    {
        let mut transaction = provider.start_transaction()?;
        transaction.adapters_mut().registrations.save(&cmd.registration)?;
        transaction.commit(provider)
    }
}

/// The commands the service accepts.
pub struct Commands {
    pub register: RegisterHandler,
}

impl Commands {
    pub fn new(register: RegisterHandler) -> (r: Commands)
        ensures
            r.register == register,
    {
        Commands { register }
    }
}

/// The queries the service answers; there are none yet.
pub struct Queries {}

impl Queries {
    pub fn new() -> (r: Queries) {
        Queries {  }
    }
}

/// The service's commands and queries.
pub struct Application {
    pub commands: Commands,
    pub queries: Queries,
}

impl Application {
    pub fn new(commands: Commands, queries: Queries) -> (r: Application)
        ensures
            r.commands == commands,
            r.queries == queries,
    {
        Application { commands, queries }
    }
}

/// Why an inbound registration was not stored.
#[derive(Debug, Clone, Copy, PartialEq, Eq, Structural)]
pub enum HandleError {
    Invalid(DomainError),
    Store(StoreError),
}

/// Serves the application to clients.
pub struct Server {
    app: Application,
}

impl Server {
    pub closed spec fn application(&self) -> Application {
        self.app
    }

    pub fn new(app: Application) -> (r: Server)
        ensures
            r.application() == app,
    {
        Server { app }
    }

    pub fn app(&self) -> (r: &Application)
        ensures
            *r == self.application(),
    {
        &self.app
    }

    /// Turns a registration event of `pub_key` into a registration and
    /// stores it.
    pub fn handle_registration(
        &self,
        provider: &mut TransactionProvider,
        pub_key: PubKey,
        content: RegistrationEventContent,
    ) -> (r: Result<(), HandleError>)
        requires
            old(provider).wf(),
        ensures
            final(provider).wf(),
            registration_error(content.apns_token@, content.relay_texts(), content.locale@) is Some
                ==> r == Err::<(), HandleError>(
                HandleError::Invalid(
                    registration_error(
                        content.apns_token@,
                        content.relay_texts(),
                        content.locale@,
                    )->Some_0,
                ),
            ) && *final(provider) == *old(provider),
            registration_error(content.apns_token@, content.relay_texts(), content.locale@) is None
                ==> {
                &&& r is Ok <==> old(provider).has_schema() && old(provider).version() < u64::MAX
                &&& r is Ok ==> final(provider).committed() == after_save(
                    old(provider).committed(),
                    crate::domain::RegistrationView {
                        pub_key: pub_key@,
                        apns_token: content.apns_token@,
                        locale: content.locale@,
                        relays: content.relay_texts(),
                    },
                )
                &&& r is Err ==> *final(provider) == *old(provider)
            },
    {
        let registration = match content.into_registration(pub_key) {
            Ok(registration) => registration,
            Err(e) => {
                return Err(HandleError::Invalid(e));
            },
        };
        let cmd = Register { registration };
        match self.app.commands.register.handle(provider, &cmd) {
            Ok(()) => Ok(()),
            Err(e) => Err(HandleError::Store(e)),
        }
    }
}

} // verus!
