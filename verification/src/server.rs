use vstd::prelude::*;

use crate::session::Session;
use crate::session::SessionV;
use crate::session::session_init;

verus! {

/// One event from the connection source: a newly accepted transport
/// connection together with the handler factory's outcome for it, the
/// source's exhaustion, or a fatal source failure.
pub enum SourceEvent {
    Connection(Result<(), Vec<u8>>),
    Closed,
    Failed(Vec<u8>),
}

/// The mathematical value of a `SourceEvent`.
pub enum SourceEventV {
    Connection { built: Result<(), Seq<u8>> },
    Closed,
    Failed { error: Seq<u8> },
}

impl View for SourceEvent {
    type V = SourceEventV;

    open spec fn view(&self) -> SourceEventV {
        match self {
            SourceEvent::Connection(built) => SourceEventV::Connection {
                built: match built {
                    Ok(u) => Ok(*u),
                    Err(e) => Err(e@),
                },
            },
            SourceEvent::Closed => SourceEventV::Closed,
            SourceEvent::Failed(error) => SourceEventV::Failed { error: error@ },
        }
    }
}

/// How one source event changes the listener's state: an accepted connection
/// never changes it — in particular a factory failure there is absorbed —
/// while exhaustion of the source ends it and a source failure is fatal.
pub open spec fn server_step(s: Server, ev: SourceEventV) -> Server {
    match ev {
        SourceEventV::Connection { .. } => s,
        SourceEventV::Closed => Server { done: true, failed: s.failed },
        SourceEventV::Failed { .. } => Server { done: s.done, failed: true },
    }
}

/// Whether one source event starts a session: exactly the accepted
/// connections whose handler instance the factory built.
pub open spec fn server_spawns(s: Server, ev: SourceEventV) -> bool {
    ev matches SourceEventV::Connection { built: Ok(_) }
}

/// The listener: accepts transport connections from an external source, has a
/// handler instance built for each, and starts one independent session per
/// connection whose handler could be built. It stops only when the source is
/// exhausted or the source itself fails.
#[derive(Clone, Copy, PartialEq, Eq, Structural, Debug)]
pub struct Server {
    pub done: bool,
    pub failed: bool,
}

impl Server {
    /// A listener that has just been bound to its source: accepting.
    pub fn new() -> (s: Server)
        ensures
            !s.done,
            !s.failed,
    {
        Server { done: false, failed: false }
    }

    /// Normalize one handler-factory outcome. A factory failure is absorbed
    /// here — the connection it belonged to is discarded, nothing escalates.
    pub fn spawn_service(&self, built: Result<(), Vec<u8>>) -> (r: Result<(), ()>)
        ensures
            r is Ok <==> built is Ok,
    {
        match built {
            Ok(u) => Ok(u),
            Err(_) => Err(()),
        }
    }

    /// One accepted connection: where the factory built a handler instance,
    /// start one fresh independent session for it; where it failed, discard
    /// the connection. Either way the listener keeps accepting.
    pub fn spawn(&mut self, built: Result<(), Vec<u8>>) -> (r: Option<Session>)
        requires
            !old(self).done,
            !old(self).failed,
        ensures
            *final(self) == *old(self),
            r is Some <==> built is Ok,
            r matches Some(sess) ==> sess@ == session_init(),
    {
        match self.spawn_service(built) {
            Ok(_) => Some(Session::spawn()),
            Err(()) => None,
        }
    }

    /// One scheduling pass of the listener: consume one source event. An
    /// accepted connection yields a session exactly when its handler was
    /// built; source exhaustion ends the listener cleanly; a source failure
    /// is fatal and is the only error this operation propagates.
    pub fn poll(&mut self, event: SourceEvent) -> (r: Result<Option<Session>, Vec<u8>>)
        requires
            !old(self).done,
            !old(self).failed,
        ensures
            *final(self) == server_step(*old(self), event@),
            (r is Ok <==> !(event is Failed)),
            r matches Ok(opt) ==> {
                &&& (opt is Some <==> server_spawns(*old(self), event@))
                &&& (opt matches Some(sess) ==> sess@ == session_init())
            },
            r matches Err(e) ==> event matches SourceEvent::Failed(err) && e@ == err@,
    {
        match event {
            SourceEvent::Connection(built) => {
                let sess = self.spawn(built);
                Ok(sess)
            },
            SourceEvent::Closed => {
                self.done = true;
                Ok(None)
            },
            SourceEvent::Failed(e) => {
                self.failed = true;
                Err(e)
            },
        }
    }
}

/// A handler-factory failure on one accepted connection is absorbed: the
/// listener is still accepting afterwards, that connection starts no session,
/// and the next accepted connection whose handler is built starts one.
pub proof fn lemma_factory_failure_isolated(s0: Server, e: Seq<u8>)
    requires
        !s0.done,
        !s0.failed,
    ensures
        ({
            let s1 = server_step(s0, SourceEventV::Connection { built: Err(e) });
            &&& !s1.done && !s1.failed
            &&& !server_spawns(s0, SourceEventV::Connection { built: Err(e) })
            &&& server_spawns(s1, SourceEventV::Connection { built: Ok(()) })
        }),
{
}

} // verus!
