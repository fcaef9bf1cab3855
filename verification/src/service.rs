//! Service records and the actions that change them.
use crate::buffer::StatusBuffer;
use crate::spec::Spec;
use crate::status::TimedStatus;
use vstd::prelude::*;

verus! {

/// What a service record holds, apart from how its history is stored.
pub struct ServiceModel {
    pub spec: Spec,
    pub history: Seq<TimedStatus>,
    pub capacity: nat,
}

/// A service that is being watched: its spec and the history of its
/// statuses.
#[derive(Debug)]
pub struct Service<B: StatusBuffer> {
    pub statuses: B,
    pub spec: Spec,
}

impl<B: StatusBuffer> View for Service<B> {
    type V = ServiceModel;

    open spec fn view(&self) -> ServiceModel {
        ServiceModel {
            spec: self.spec,
            history: self.statuses.entries(),
            capacity: self.statuses.capacity(),
        }
    }
}

impl<B: StatusBuffer> Service<B> {
    /// The record's internal invariant: that of its history.
    pub open spec fn wf(&self) -> bool {
        self.statuses.wf()
    }

    /// A service with the given spec and an empty history that will hold at
    /// most `cap` statuses.
    pub fn new(spec: Spec, cap: usize) -> (service: Self)
        ensures
            service.wf(),
            service@ == (ServiceModel { spec, history: Seq::empty(), capacity: cap as nat }),
    {
        Self { statuses: B::from_vec(Vec::new(), cap), spec }
    }

    /// A service with the given spec and the given history.
    pub fn with_statuses(spec: Spec, statuses: B) -> (service: Self)
        requires
            statuses.wf(),
        ensures
            service.wf(),
            service.spec == spec,
            service.statuses == statuses,
    {
        Self { statuses, spec }
    }
}

/// The spec of a service, under the name that the callers of the state
/// actor know it by.
pub type ServiceSpec = Spec;

/// A change to the service of a given name.
#[derive(Debug, PartialEq, Eq)]
pub enum ServiceAction {
    /// Start watching a service, with this spec.
    CreateService(Spec),
    /// Stop watching the service and forget its history.
    DeleteService,
    /// Record one more status of the service.
    AddStatus(TimedStatus),
}

impl Clone for ServiceAction {
    fn clone(&self) -> (res: Self)
        ensures
            res == *self,
    {
        match self {
            ServiceAction::CreateService(spec) => ServiceAction::CreateService(spec.clone()),
            ServiceAction::DeleteService => ServiceAction::DeleteService,
            ServiceAction::AddStatus(status) => ServiceAction::AddStatus(status.clone()),
        }
    }
}

} // verus!
