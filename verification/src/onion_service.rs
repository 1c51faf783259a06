//! Serving the shared files: which requests are taken, and when the service stops.

use vstd::prelude::*;

verus! {

/// The name of the onion service.
pub const NICKNAME: &'static str = "orange-electron";

/// The directory whose files are served.
pub const SHARED_DIRECTORY: &'static str = "shared_files";

/// The route under which the files are served.
pub const STATIC_ROUTE: &'static str = "/static";

/// The port of the onion service.
pub const SERVICE_PORT: u16 = 80;

/// What a client of the onion service asks for.
#[derive(Debug, Clone, Copy, PartialEq, Eq, Structural)]
pub enum StreamRequest {
    /// To connect to a port.
    Begin { port: u16 },
    /// Anything else.
    Other,
}

/// What becomes of the request of a client.
#[derive(Debug, Clone, Copy, PartialEq, Eq, Structural)]
pub enum StreamVerdict {
    /// It is accepted, and files are served on the stream.
    Serve,
    /// The circuit that it came over is shut down.
    ShutDownCircuit,
}

/// Decides about the request of a client: only connections to the service's own port are taken.
pub fn judge_stream(request: StreamRequest) -> (verdict: StreamVerdict)
    ensures
        verdict == if request == (StreamRequest::Begin { port: SERVICE_PORT }) {
            StreamVerdict::Serve
        } else {
            StreamVerdict::ShutDownCircuit
        },
        verdict == verdict_on(request),
{
    match request {
        StreamRequest::Begin { port } if port == SERVICE_PORT => StreamVerdict::Serve,
        _ => StreamVerdict::ShutDownCircuit,
    }
}

/// Whether to wait for another status of the service that was just launched, given whether it is
/// fully reachable, or that no more will come.
pub fn keeps_waiting(fully_reachable: Option<bool>) -> (waits: bool)
    ensures
        waits == (fully_reachable == Some(false)),
{
    match fully_reachable {
        Some(reachable) => !reachable,
        None => false,
    }
}

/// What happens to a running service.
#[derive(Debug, Clone, Copy, PartialEq, Eq, Structural)]
pub enum ServiceEvent {
    /// A client asks for a stream.
    Requested,
    /// No more clients will come.
    Ended,
    /// The application is about to stop.
    ShutdownSignal,
}

/// What a running service does next.
#[derive(Debug, Clone, Copy, PartialEq, Eq, Structural)]
pub enum ServiceAction {
    /// It handles the request beside others, and goes on.
    Handle,
    /// It stops.
    Stop,
    /// It says that it was told to stop, and stops.
    SayAndStop,
}

/// Decides what a running service does next.
pub fn service_step(event: ServiceEvent) -> (action: ServiceAction)
    ensures
        action == match event {
            ServiceEvent::Requested => ServiceAction::Handle,
            ServiceEvent::Ended => ServiceAction::Stop,
            ServiceEvent::ShutdownSignal => ServiceAction::SayAndStop,
        },
{
    match event {
        ServiceEvent::Requested => ServiceAction::Handle,
        ServiceEvent::Ended => ServiceAction::Stop,
        ServiceEvent::ShutdownSignal => ServiceAction::SayAndStop,
    }
}

/// The verdict on the request of a client.
pub open spec fn verdict_on(request: StreamRequest) -> StreamVerdict {
    match request {
        StreamRequest::Begin { port } => if port == SERVICE_PORT {
            StreamVerdict::Serve
        } else {
            StreamVerdict::ShutDownCircuit
        },
        StreamRequest::Other => StreamVerdict::ShutDownCircuit,
    }
}

/// Of all ports only the one for HTTP is served, and nothing but a connection is.
pub proof fn law_only_http_is_served(request: StreamRequest)
    ensures
        verdict_on(request) is Serve <==> request == (StreamRequest::Begin { port: 80 }),
        verdict_on(request) is ShutDownCircuit <==> request != (StreamRequest::Begin { port: 80 }),
{
}

} // verus!
