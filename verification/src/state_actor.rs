//! The single writer: the state of all services and the requests that read
//! and change it.
//!
//! A [`StateActor`] owns the store of service records. Requests reach it one
//! at a time, as [`StateActorMessage`]s; each is applied whole or not at
//! all, and answered by a [`StateActorReply`]. What a request does is stated
//! over the map from names to records that the actor stands for.
use crate::buffer::{nearest, StatusBuffer, Strategy};
use crate::service::{Service, ServiceAction, ServiceModel};
use crate::spec::Spec;
use crate::status::TimedStatus;
use crate::store::ServiceMap;
use crate::time::Timestamp;
use vstd::prelude::*;
use vstd::string::*;

verus! {

/// Why a write was refused.
#[derive(Debug, Clone, Copy, PartialEq, Eq, Structural)]
pub enum WriteError {
    /// No service of that name is watched.
    NotFound,
    /// A service of that name is watched already.
    NameConflict,
}

/// No service of that name is watched.
#[derive(Debug, Clone, Copy, PartialEq, Eq, Structural)]
pub struct ServiceNotFoundError;

impl ServiceNotFoundError {
    /// The error in words.
    pub fn to_string(&self) -> (s: String)
        ensures
            s@ == "Service not found"@,
    {
        String::from_str("Service not found")
    }
}

/// A write error in words.
pub open spec fn write_error_text(e: WriteError) -> Seq<char> {
    match e {
        WriteError::NotFound => "Service not found"@,
        WriteError::NameConflict => "Service name conflict"@,
    }
}

impl WriteError {
    /// The error in words.
    pub fn to_string(&self) -> (s: String)
        ensures
            s@ == write_error_text(*self),
    {
        match self {
            Self::NotFound => ServiceNotFoundError.to_string(),
            Self::NameConflict => String::from_str("Service name conflict"),
        }
    }
}

/// The records of all services, by name.
pub type State = Map<Seq<char>, ServiceModel>;

/// The answer to `action` on the service `name` in `state`.
pub open spec fn write_result(state: State, name: Seq<char>, action: ServiceAction) -> Result<
    (),
    WriteError,
> {
    match action {
        ServiceAction::CreateService(_) => if state.contains_key(name) {
            Err(WriteError::NameConflict)
        } else {
            Ok(())
        },
        ServiceAction::DeleteService => if state.contains_key(name) {
            Ok(())
        } else {
            Err(WriteError::NotFound)
        },
        ServiceAction::AddStatus(_) => if state.contains_key(name) {
            Ok(())
        } else {
            Err(WriteError::NotFound)
        },
    }
}

/// The state after `action` on the service `name` in `state`, where new
/// services get histories of capacity `cap`. A refused action leaves the
/// state as it was.
pub open spec fn write_state<S: Strategy>(
    state: State,
    cap: nat,
    name: Seq<char>,
    action: ServiceAction,
) -> State {
    if write_result(state, name, action) is Err {
        state
    } else {
        match action {
            ServiceAction::CreateService(spec) => state.insert(
                name,
                ServiceModel { spec, history: Seq::empty(), capacity: cap },
            ),
            ServiceAction::DeleteService => state.remove(name),
            ServiceAction::AddStatus(status) => state.insert(
                name,
                ServiceModel {
                    spec: state[name].spec,
                    history: S::pushed(state[name].history, state[name].capacity, status),
                    capacity: state[name].capacity,
                },
            ),
        }
    }
}

/// The spec of the service `name` in `state`.
pub open spec fn spec_of(state: State, name: Seq<char>) -> Result<Spec, ServiceNotFoundError> {
    if state.contains_key(name) {
        Ok(state[name].spec)
    } else {
        Err(ServiceNotFoundError)
    }
}

/// The history of the service `name` in `state`.
pub open spec fn statuses_of(state: State, name: Seq<char>) -> Result<
    Seq<TimedStatus>,
    ServiceNotFoundError,
> {
    if state.contains_key(name) {
        Ok(state[name].history)
    } else {
        Err(ServiceNotFoundError)
    }
}

/// The status of the service `name` in `state` that is nearest to `time`.
pub open spec fn status_at(state: State, name: Seq<char>, time: Timestamp) -> Result<
    Option<TimedStatus>,
    ServiceNotFoundError,
> {
    if state.contains_key(name) {
        Ok(nearest(state[name].history, time))
    } else {
        Err(ServiceNotFoundError)
    }
}

/// The owner of the state of all services.
#[derive(Debug)]
pub struct StateActor<B: StatusBuffer> {
    services: ServiceMap<B>,
    cap: usize,
}

impl<B: StatusBuffer> View for StateActor<B> {
    type V = State;

    closed spec fn view(&self) -> State {
        self.services@
    }
}

impl<B: StatusBuffer> StateActor<B> {
    /// The actor's internal invariant: that of its store.
    pub closed spec fn wf(&self) -> bool {
        self.services.wf()
    }

    /// The capacity of the histories of the services that this actor
    /// creates.
    pub closed spec fn capacity(&self) -> nat {
        self.cap as nat
    }

    /// An actor that starts from the given records and gives the services it
    /// creates histories of capacity `cap`.
    pub fn new(services: ServiceMap<B>, cap: usize) -> (actor: Self)
        requires
            services.wf(),
        ensures
            actor.wf(),
            actor@ == services@,
            actor.capacity() == cap,
    {
        Self { services, cap }
    }

    /// Runs `msg` on the service `name`.
    ///
    /// A service is created only under a name that is free, and deleted or
    /// given a status only under a name that is taken; a refused action
    /// changes nothing.
    pub fn handle_write(&mut self, name: String, msg: ServiceAction) -> (r: Result<(), WriteError>)
        requires
            old(self).wf(),
        ensures
            final(self).wf(),
            final(self).capacity() == old(self).capacity(),
            r == write_result(old(self)@, name@, msg),
            final(self)@ == write_state::<B>(old(self)@, old(self).capacity(), name@, msg),
    {
        match msg {
            ServiceAction::CreateService(spec) => {
                if self.services.contains_key(name.as_str()) {
                    return Err(WriteError::NameConflict);
                }
                self.services.insert(name, Service::new(spec, self.cap));
                Ok(())
            },
            ServiceAction::DeleteService => match self.services.remove(name.as_str()) {
                Some(_) => Ok(()),
                None => {
                    assert(old(self)@.remove(name@) =~= old(self)@);
                    Err(WriteError::NotFound)
                },
            },
            ServiceAction::AddStatus(s) => match self.services.get_mut(name.as_str()) {
                Some(service) => {
                    service.statuses.push(s);
                    Ok(())
                },
                None => Err(WriteError::NotFound),
            },
        }
    }

    /// The spec of the service `name`.
    pub fn handle_get_spec(&self, name: &str) -> (r: Result<Spec, ServiceNotFoundError>)
        requires
            self.wf(),
        ensures
            r == spec_of(self@, name@),
    {
        match self.services.get(name) {
            Some(service) => Ok(service.spec.clone()),
            None => Err(ServiceNotFoundError),
        }
    }

    /// A copy of the history of the service `name`, in the order of its
    /// storage strategy.
    pub fn handle_get_statuses(&self, name: &str) -> (r: Result<
        Vec<TimedStatus>,
        ServiceNotFoundError,
    >)
        requires
            self.wf(),
        ensures
            match r {
                Ok(statuses) => statuses_of(self@, name@) == Ok::<_, ServiceNotFoundError>(
                    statuses@,
                ),
                Err(e) => statuses_of(self@, name@) == Err::<Seq<TimedStatus>, _>(e),
            },
    {
        match self.services.get(name) {
            Some(service) => Ok(service.statuses.as_vec()),
            None => Err(ServiceNotFoundError),
        }
    }

    /// The status of the service `name` that is nearest in time to `time`;
    /// none if its history is empty.
    pub fn handle_get_status_at(&self, name: &str, time: Timestamp) -> (r: Result<
        Option<TimedStatus>,
        ServiceNotFoundError,
    >)
        requires
            self.wf(),
        ensures
            r == status_at(self@, name@, time),
    {
        match self.services.get(name) {
            Some(service) => Ok(service.statuses.nearest(time)),
            None => Err(ServiceNotFoundError),
        }
    }
}

/// A request to the actor.
#[derive(Debug, PartialEq, Eq)]
pub enum StateActorMessage {
    /// Run `action` on the service `name`.
    Write { name: String, action: ServiceAction },
    /// Read the history of the service `name`.
    GetStatuses { name: String },
    /// Read the status of the service `name` nearest to `time`.
    GetStatusAt { name: String, time: Timestamp },
    /// Read the spec of the service `name`.
    GetSpec { name: String },
}

/// The actor's answer to a request, of the same kind as the request.
#[derive(Debug, PartialEq, Eq)]
pub enum StateActorReply {
    Write(Result<(), WriteError>),
    GetStatuses(Result<Vec<TimedStatus>, ServiceNotFoundError>),
    GetStatusAt(Result<Option<TimedStatus>, ServiceNotFoundError>),
    GetSpec(Result<Spec, ServiceNotFoundError>),
}

/// What an answer says.
pub enum ReplyModel {
    Write(Result<(), WriteError>),
    GetStatuses(Result<Seq<TimedStatus>, ServiceNotFoundError>),
    GetStatusAt(Result<Option<TimedStatus>, ServiceNotFoundError>),
    GetSpec(Result<Spec, ServiceNotFoundError>),
}

impl View for StateActorReply {
    type V = ReplyModel;

    open spec fn view(&self) -> ReplyModel {
        match *self {
            StateActorReply::Write(r) => ReplyModel::Write(r),
            StateActorReply::GetStatuses(r) => ReplyModel::GetStatuses(
                match r {
                    Ok(statuses) => Ok(statuses@),
                    Err(e) => Err(e),
                },
            ),
            StateActorReply::GetStatusAt(r) => ReplyModel::GetStatusAt(r),
            StateActorReply::GetSpec(r) => ReplyModel::GetSpec(r),
        }
    }
}

/// The answer to `msg` in `state`.
pub open spec fn reply_to(state: State, msg: StateActorMessage) -> ReplyModel {
    match msg {
        StateActorMessage::Write { name, action } => ReplyModel::Write(
            write_result(state, name@, action),
        ),
        StateActorMessage::GetStatuses { name } => ReplyModel::GetStatuses(
            statuses_of(state, name@),
        ),
        StateActorMessage::GetStatusAt { name, time } => ReplyModel::GetStatusAt(
            status_at(state, name@, time),
        ),
        StateActorMessage::GetSpec { name } => ReplyModel::GetSpec(spec_of(state, name@)),
    }
}

/// The state after `msg` in `state`: a write changes it as [`write_state`]
/// says, a read leaves it as it was.
pub open spec fn state_after<S: Strategy>(state: State, cap: nat, msg: StateActorMessage) -> State {
    match msg {
        StateActorMessage::Write { name, action } => write_state::<S>(state, cap, name@, action),
        _ => state,
    }
}

/// Whether `msg` is accepted in `state` as a change to it.
pub open spec fn accepted(state: State, msg: StateActorMessage) -> bool {
    reply_to(state, msg) == ReplyModel::Write(Ok(()))
}

impl<B: StatusBuffer> StateActor<B> {
    /// Applies one request and answers it.
    ///
    /// This is one turn of the actor's loop: the caller takes the next
    /// request from its queue, hands it over, and sends the answer back.
    pub fn handle(&mut self, msg: StateActorMessage) -> (reply: StateActorReply)
        requires
            old(self).wf(),
        ensures
            final(self).wf(),
            final(self).capacity() == old(self).capacity(),
            reply@ == reply_to(old(self)@, msg),
            final(self)@ == state_after::<B>(old(self)@, old(self).capacity(), msg),
    {
        match msg {
            StateActorMessage::Write { name, action } => StateActorReply::Write(
                self.handle_write(name, action),
            ),
            StateActorMessage::GetStatuses { name } => StateActorReply::GetStatuses(
                self.handle_get_statuses(name.as_str()),
            ),
            StateActorMessage::GetStatusAt { name, time } => StateActorReply::GetStatusAt(
                self.handle_get_status_at(name.as_str(), time),
            ),
            StateActorMessage::GetSpec { name } => StateActorReply::GetSpec(
                self.handle_get_spec(name.as_str()),
            ),
        }
    }
}

/// What is published once a write has been answered: the name and the
/// action if the write was accepted, nothing if it was refused.
pub fn notification(name: String, action: ServiceAction, response: &Result<(), WriteError>) -> (n:
    Option<(String, ServiceAction)>)
    ensures
        n == if *response is Ok {
            Some((name, action))
        } else {
            None
        },
{
    match response {
        Ok(_) => Some((name, action)),
        Err(_) => None,
    }
}

/// A service created under a free name has the spec it was created with.
pub proof fn lemma_create_then_get_spec<S: Strategy>(
    state: State,
    cap: nat,
    name: Seq<char>,
    spec: Spec,
)
    requires
        !state.contains_key(name),
    ensures
        write_result(state, name, ServiceAction::CreateService(spec)) == Ok::<(), WriteError>(()),
        spec_of(
            write_state::<S>(state, cap, name, ServiceAction::CreateService(spec)),
            name,
        ) == Ok::<Spec, ServiceNotFoundError>(spec),
{
}

/// After a create of a name, whether accepted or not, another create of
/// that name is refused as a conflict and changes nothing.
pub proof fn lemma_create_twice_conflicts<S: Strategy>(
    state: State,
    cap: nat,
    name: Seq<char>,
    first: Spec,
    second: Spec,
)
    ensures
        ({
            let once = write_state::<S>(state, cap, name, ServiceAction::CreateService(first));
            &&& write_result(once, name, ServiceAction::CreateService(second)) == Err::<
                (),
                WriteError,
            >(WriteError::NameConflict)
            &&& write_state::<S>(once, cap, name, ServiceAction::CreateService(second)) == once
        }),
{
}

/// A delete of a name that is not watched is refused and changes nothing; a
/// delete of a watched name is accepted, and the spec of that name is then
/// not found.
pub proof fn lemma_delete<S: Strategy>(state: State, cap: nat, name: Seq<char>)
    ensures
        ({
            let after = write_state::<S>(state, cap, name, ServiceAction::DeleteService);
            let result = write_result(state, name, ServiceAction::DeleteService);
            &&& !state.contains_key(name) ==> result == Err::<(), WriteError>(WriteError::NotFound)
                && after == state
            &&& state.contains_key(name) ==> result == Ok::<(), WriteError>(()) && spec_of(
                after,
                name,
            ) == Err::<Spec, ServiceNotFoundError>(ServiceNotFoundError)
        }),
{
}

/// The state after the requests `msgs`, applied in order from `state`.
pub open spec fn state_after_all<S: Strategy>(
    state: State,
    cap: nat,
    msgs: Seq<StateActorMessage>,
) -> State
    decreases msgs.len(),
{
    if msgs.len() == 0 {
        state
    } else {
        state_after::<S>(state_after_all::<S>(state, cap, msgs.drop_last()), cap, msgs.last())
    }
}

/// Whether `msg` asks to create the service `name`.
pub open spec fn creates(msg: StateActorMessage, name: Seq<char>) -> bool {
    msg matches StateActorMessage::Write { name: n, action: ServiceAction::CreateService(_) }
        && n@ == name
}

/// Whether `msg` asks to delete the service `name`.
pub open spec fn deletes(msg: StateActorMessage, name: Seq<char>) -> bool {
    msg matches StateActorMessage::Write { name: n, action: ServiceAction::DeleteService } && n@
        == name
}

/// Whether the request at position `i` of `msgs` is accepted as a change,
/// when the requests are applied in order from the empty state.
pub open spec fn accepted_at<S: Strategy>(cap: nat, msgs: Seq<StateActorMessage>, i: int) -> bool {
    accepted(state_after_all::<S>(Map::empty(), cap, msgs.take(i)), msgs[i])
}

/// Whether the request at position `i` of `msgs` is an accepted create of
/// `name` that no accepted delete of `name` follows.
pub open spec fn created_at<S: Strategy>(
    cap: nat,
    msgs: Seq<StateActorMessage>,
    name: Seq<char>,
    i: int,
) -> bool {
    &&& 0 <= i < msgs.len()
    &&& creates(msgs[i], name)
    &&& accepted_at::<S>(cap, msgs, i)
    &&& forall|j: int|
        i < j < msgs.len() ==> !(deletes(msgs[j], name) && #[trigger] accepted_at::<S>(
            cap,
            msgs,
            j,
        ))
}

/// However requests of any kind and on any names follow one another, a name
/// is watched at the end exactly if a create of it was accepted and no
/// delete of it was accepted since.
pub proof fn lemma_watched_iff_created_and_not_deleted<S: Strategy>(
    cap: nat,
    msgs: Seq<StateActorMessage>,
    name: Seq<char>,
)
    ensures
        state_after_all::<S>(Map::empty(), cap, msgs).contains_key(name) <==> exists|i: int|
            #[trigger] created_at::<S>(cap, msgs, name, i),
    decreases msgs.len(),
{
    let end = state_after_all::<S>(Map::empty(), cap, msgs);
    if msgs.len() == 0 {
    } else {
        let front = msgs.drop_last();
        let last = msgs.len() - 1;
        let before = state_after_all::<S>(Map::empty(), cap, front);
        lemma_watched_iff_created_and_not_deleted::<S>(cap, front, name);
        assert(msgs.take(last) == front);
        assert forall|i: int| 0 <= i < last implies accepted_at::<S>(cap, msgs, i)
            == accepted_at::<S>(cap, front, i) by {
            assert(msgs.take(i) == front.take(i));
        }
        let m = msgs[last];
        if creates(m, name) && accepted(before, m) {
            assert(created_at::<S>(cap, msgs, name, last));
        } else if deletes(m, name) && accepted(before, m) {
            assert forall|i: int| !created_at::<S>(cap, msgs, name, i) by {
                if 0 <= i < last {
                    assert(accepted_at::<S>(cap, msgs, last));
                }
            }
        } else {
            assert(end.contains_key(name) == before.contains_key(name));
            if exists|i: int| #[trigger] created_at::<S>(cap, front, name, i) {
                let i = choose|i: int| #[trigger] created_at::<S>(cap, front, name, i);
                assert forall|j: int| i < j < msgs.len() implies !(deletes(msgs[j], name)
                    && #[trigger] accepted_at::<S>(cap, msgs, j)) by {
                    if j < last {
                        assert(!(deletes(front[j], name) && accepted_at::<S>(cap, front, j)));
                    }
                }
                assert(created_at::<S>(cap, msgs, name, i));
            }
            if exists|i: int| #[trigger] created_at::<S>(cap, msgs, name, i) {
                let i = choose|i: int| #[trigger] created_at::<S>(cap, msgs, name, i);
                assert(i < last);
                assert forall|j: int| i < j < front.len() implies !(deletes(front[j], name)
                    && #[trigger] accepted_at::<S>(cap, front, j)) by {
                    assert(!(deletes(msgs[j], name) && accepted_at::<S>(cap, msgs, j)));
                }
                assert(created_at::<S>(cap, front, name, i));
            }
        }
    }
}

} // verus!
