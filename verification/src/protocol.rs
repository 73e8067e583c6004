//! The per-connection protocol state machine: the strict SYN, DAT, STA
//! handshake, the post-start polling phase, and the shared completion
//! counter that decides when the result may be streamed back.

use vstd::prelude::*;
use vstd::string::StringSliceAdditionalSpecFns;

use crate::matrix::Matrix;
use crate::matrix::MatrixSlice;
use crate::matrix::slices_rows;
use crate::matrix::spec_deserialize;
use crate::matrix::spec_serialize;
use crate::matrix::spec_size;

verus! {

/// A client command: one of the four 3-byte ASCII tokens.
#[derive(Debug, PartialEq, Eq, Structural, Clone, Copy)]
pub enum Request {
    Syn,
    Data,
    Start,
    Poll,
}

/// A server reply token.
#[derive(Debug, PartialEq, Eq, Structural, Clone, Copy)]
pub enum Response {
    SynAck,
    DataAck,
    StartAck,
    NotYet,
    Done,
    IncorrectMethod,
    IncorrectData,
}

/// The command named by a 3-byte token, if any: `SYN`, `DAT`, `STA` or `POL`.
pub open spec fn spec_request(b: Seq<u8>) -> Option<Request> {
    if b == seq![83u8, 89u8, 78u8] {
        Some(Request::Syn)
    } else if b == seq![68u8, 65u8, 84u8] {
        Some(Request::Data)
    } else if b == seq![83u8, 84u8, 65u8] {
        Some(Request::Start)
    } else if b == seq![80u8, 79u8, 76u8] {
        Some(Request::Poll)
    } else {
        None
    }
}

/// The reply token's characters on the wire.
pub open spec fn spec_response_str(resp: Response) -> Seq<char> {
    match resp {
        Response::SynAck => "SYN"@,
        Response::DataAck => "DAT"@,
        Response::StartAck => "STA"@,
        Response::NotYet => "NOT"@,
        Response::Done => "DON"@,
        Response::IncorrectMethod => "INM"@,
        Response::IncorrectData => "IND"@,
    }
}

impl Request {
    /// Parses a command token; any string other than the four commands,
    /// including one of the wrong length, is unknown.
    pub fn from_str(method: &str) -> (r: Option<Request>)
        ensures
            r == spec_request(method.spec_bytes()),
    {
        let b = method.as_bytes();
        if b.len() != 3 {
            return None;
        }
        let b0 = b[0];
        let b1 = b[1];
        let b2 = b[2];
        proof {
            assert(method.spec_bytes() =~= seq![b0, b1, b2]);
        }
        if b0 == 83 && b1 == 89 && b2 == 78 {
            Some(Request::Syn)
        } else if b0 == 68 && b1 == 65 && b2 == 84 {
            Some(Request::Data)
        } else if b0 == 83 && b1 == 84 && b2 == 65 {
            Some(Request::Start)
        } else if b0 == 80 && b1 == 79 && b2 == 76 {
            Some(Request::Poll)
        } else {
            None
        }
    }
}

impl Response {
    /// The 3-byte ASCII token written to the client for this reply.
    pub fn as_str(&self) -> (r: &'static str)
        ensures
            r@ == spec_response_str(*self),
    {
        match self {
            Response::SynAck => "SYN",
            Response::DataAck => "DAT",
            Response::StartAck => "STA",
            Response::NotYet => "NOT",
            Response::Done => "DON",
            Response::IncorrectMethod => "INM",
            Response::IncorrectData => "IND",
        }
    }
}

/// Where a session stands in the protocol.
#[derive(Debug, PartialEq, Eq, Structural, Clone, Copy)]
pub enum Phase {
    /// Waiting for the opening `SYN`.
    AwaitSyn,
    /// Waiting for `DAT` and its payload.
    AwaitData,
    /// Waiting for `STA`.
    AwaitStart,
    /// Workers run; polls are answered `NotYet` until all report done.
    Polling,
    /// `Done` was sent; the result may be streamed.
    Finished,
    /// A fatal payload error ended the session.
    Failed,
}

/// What the connection loop must do next.
#[derive(Debug, PartialEq, Eq, Structural, Clone, Copy)]
pub enum SessionAction {
    /// Send this reply token.
    Reply(Response),
    /// Read the `DAT` payload (worker count and encoded matrix), then hand
    /// it to `on_data`.
    ReadData,
}

/// One connection's session: its ordinal identifier, the negotiated worker
/// count, the in-flight matrix, and the completion counter.
pub struct Session {
    id: usize,
    phase: Phase,
    started: bool,
    thread_num: u32,
    work: Matrix,
    result: Matrix,
    completed: u32,
}

impl Session {
    /// The connection identifier the dispatcher assigned.
    pub closed spec fn spec_id(&self) -> int {
        self.id as int
    }

    /// The protocol phase.
    pub closed spec fn spec_phase(&self) -> Phase {
        self.phase
    }

    /// Whether the workers have been handed their slices.
    pub closed spec fn spec_started(&self) -> bool {
        self.started
    }

    /// The negotiated worker count.
    pub closed spec fn spec_thread_num(&self) -> u32 {
        self.thread_num
    }

    /// The decoded matrix awaiting computation; emptied when the slices are
    /// handed out.
    pub closed spec fn spec_work(&self) -> Seq<Seq<i32>> {
        self.work@
    }

    /// The matrix the finished slices are installed into.
    pub closed spec fn spec_result(&self) -> Seq<Seq<i32>> {
        self.result@
    }

    /// How many workers have reported completion.
    pub closed spec fn spec_completed(&self) -> u32 {
        self.completed
    }

    /// The session invariant: matrices square, the counter never above the
    /// worker count, and in each phase the data that phase relies on.
    pub closed spec fn wf(&self) -> bool {
        &&& self.work.wf()
        &&& self.result.wf()
        &&& self.completed <= self.thread_num
        &&& match self.phase {
            Phase::AwaitSyn | Phase::AwaitData => !self.started && self.completed == 0,
            Phase::AwaitStart => !self.started && self.completed == 0 && 1 <= self.thread_num
                && self.thread_num as int <= self.work@.len() && self.work@.len() <= u32::MAX
                && spec_size(self.work@.len() as int) <= usize::MAX,
            Phase::Polling => if self.started {
                &&& 1 <= self.thread_num
                &&& self.thread_num as int <= self.result@.len()
                &&& self.result@.len() <= u32::MAX
                &&& spec_size(self.result@.len() as int) <= usize::MAX
            } else {
                &&& self.completed == 0
                &&& 1 <= self.thread_num
                &&& self.thread_num as int <= self.work@.len()
                &&& self.work@.len() <= u32::MAX
                &&& spec_size(self.work@.len() as int) <= usize::MAX
            },
            Phase::Finished => self.result@.len() <= u32::MAX && spec_size(
                self.result@.len() as int,
            ) <= usize::MAX,
            Phase::Failed => true,
        }
    }

    /// Everything but the phase is the same in both states.
    pub open spec fn same_data(self, other: Session) -> bool {
        &&& self.spec_id() == other.spec_id()
        &&& self.spec_started() == other.spec_started()
        &&& self.spec_thread_num() == other.spec_thread_num()
        &&& self.spec_work() == other.spec_work()
        &&& self.spec_result() == other.spec_result()
        &&& self.spec_completed() == other.spec_completed()
    }

    /// A fresh session for connection `id`, waiting for `SYN` with the
    /// counter at zero.
    pub fn new(id: usize) -> (s: Session)
        ensures
            s.wf(),
            s.spec_id() == id,
            s.spec_phase() == Phase::AwaitSyn,
            !s.spec_started(),
            s.spec_completed() == 0,
    {
        Session {
            id,
            phase: Phase::AwaitSyn,
            started: false,
            thread_num: 0,
            work: Matrix::empty(),
            result: Matrix::empty(),
            completed: 0,
        }
    }

    pub fn get_id(&self) -> (r: usize)
        ensures
            r == self.spec_id(),
    {
        self.id
    }

    pub fn get_phase(&self) -> (r: Phase)
        ensures
            r == self.spec_phase(),
    {
        self.phase
    }

    pub fn get_thread_num(&self) -> (r: u32)
        ensures
            r == self.spec_thread_num(),
    {
        self.thread_num
    }

    pub fn get_completed(&self) -> (r: u32)
        ensures
            r == self.spec_completed(),
    {
        self.completed
    }

    /// Feeds one parsed command (or `None` for an unreadable token) to the
    /// state machine. The handshake advances only on the one command its
    /// phase expects; anything else is answered `IncorrectMethod` and
    /// changes nothing. In the polling phase, `POL` is answered `NotYet`
    /// until every worker has reported, then `Done` exactly once.
    pub fn on_command(&mut self, req: Option<Request>) -> (act: SessionAction)
        requires
            old(self).wf(),
        ensures
            final(self).wf(),
            match (old(self).spec_phase(), req) {
                (Phase::AwaitSyn, Some(Request::Syn)) => act == SessionAction::Reply(
                    Response::SynAck,
                ) && final(self).spec_phase() == Phase::AwaitData && final(self).same_data(
                    *old(self),
                ),
                (Phase::AwaitData, Some(Request::Data)) => act == SessionAction::ReadData && *final(self) == *old(self),
                (Phase::AwaitStart, Some(Request::Start)) => act == SessionAction::Reply(
                    Response::StartAck,
                ) && final(self).spec_phase() == Phase::Polling && final(self).same_data(
                    *old(self),
                ),
                (Phase::Polling, Some(Request::Poll)) => if old(self).spec_completed() == old(self).spec_thread_num() {
                    act == SessionAction::Reply(Response::Done) && final(self).spec_phase()
                        == Phase::Finished && final(self).same_data(*old(self))
                } else {
                    act == SessionAction::Reply(Response::NotYet) && *final(self) == *old(self)
                },
                _ => act == SessionAction::Reply(Response::IncorrectMethod) && *final(self) == *old(self),
            },
    {
        match (self.phase, req) {
            (Phase::AwaitSyn, Some(Request::Syn)) => {
                self.phase = Phase::AwaitData;
                SessionAction::Reply(Response::SynAck)
            },
            (Phase::AwaitData, Some(Request::Data)) => SessionAction::ReadData,
            (Phase::AwaitStart, Some(Request::Start)) => {
                self.phase = Phase::Polling;
                SessionAction::Reply(Response::StartAck)
            },
            (Phase::Polling, Some(Request::Poll)) => {
                if self.completed == self.thread_num {
                    self.phase = Phase::Finished;
                    SessionAction::Reply(Response::Done)
                } else {
                    SessionAction::Reply(Response::NotYet)
                }
            },
            _ => SessionAction::Reply(Response::IncorrectMethod),
        }
    }

    /// Takes the `DAT` payload: the worker count, then the encoded matrix.
    /// A payload that does not decode, or a worker count of zero or above
    /// the matrix dimension, is fatal: `IncorrectData` and the session
    /// fails. Otherwise `DataAck`, and the session waits for `STA`.
    pub fn on_data(&mut self, thread_num: u32, payload: &[u8]) -> (resp: Response)
        requires
            old(self).wf(),
            old(self).spec_phase() == Phase::AwaitData,
        ensures
            final(self).wf(),
            final(self).spec_id() == old(self).spec_id(),
            match spec_deserialize(payload@) {
                Some(rows) => if 1 <= thread_num && thread_num as int <= rows.len() {
                    &&& resp == Response::DataAck
                    &&& final(self).spec_phase() == Phase::AwaitStart
                    &&& final(self).spec_work() == rows
                    &&& final(self).spec_thread_num() == thread_num
                    &&& final(self).spec_completed() == 0
                    &&& !final(self).spec_started()
                } else {
                    resp == Response::IncorrectData && final(self).spec_phase() == Phase::Failed
                },
                None => resp == Response::IncorrectData && final(self).spec_phase()
                    == Phase::Failed,
            },
    {
        let decoded = Matrix::deserialize(payload);
        match decoded {
            Some(m) => {
                let dim = m.get_dim();
                if thread_num == 0 || (thread_num as usize) > dim {
                    self.phase = Phase::Failed;
                    return Response::IncorrectData;
                }
                let plen = payload.len();
                proof {
                    assert(plen == payload@.len());
                }
                self.thread_num = thread_num;
                self.work = m;
                self.phase = Phase::AwaitStart;
                Response::DataAck
            },
            None => {
                self.phase = Phase::Failed;
                Response::IncorrectData
            },
        }
    }

    /// Hands out the row slices for the workers, once, after `STA`: the
    /// work matrix is cloned into the result buffer and split into
    /// `thread_num` disjoint, covering slices. `None` at any other moment.
    pub fn take_work(&mut self) -> (r: Option<Vec<MatrixSlice>>)
        requires
            old(self).wf(),
        ensures
            final(self).wf(),
            r is Some <==> (old(self).spec_phase() == Phase::Polling && !old(self).spec_started()),
            r is None ==> *final(self) == *old(self),
            r is Some ==> {
                &&& final(self).spec_phase() == Phase::Polling
                &&& final(self).spec_started()
                &&& final(self).spec_id() == old(self).spec_id()
                &&& final(self).spec_thread_num() == old(self).spec_thread_num()
                &&& final(self).spec_completed() == old(self).spec_completed()
                &&& final(self).spec_result() == old(self).spec_work()
                &&& final(self).spec_work().len() == 0
                &&& r.unwrap()@.len() == old(self).spec_thread_num()
                &&& slices_rows(r.unwrap()@) == old(self).spec_work()
                &&& (forall|k: int|
                    0 <= k < r.unwrap()@.len() ==> (#[trigger] r.unwrap()@[k]).wf()
                        && r.unwrap()@[k].spec_width() == old(self).spec_work().len()
                        && r.unwrap()@[k].spec_start() + r.unwrap()@[k].spec_rows().len() <= old(self).spec_work().len())
            },
    {
        if !(matches!(self.phase, Phase::Polling) && !self.started) {
            return None;
        }
        self.started = true;
        self.result = self.work.clone();
        let parts = self.thread_num as usize;
        let slices = self.work.split(parts);
        Some(slices)
    }

    /// One worker hands back its finished slice: the slice's rows are
    /// installed at their absolute positions and the completion counter
    /// rises by exactly one. Rejected (and nothing changes) unless the
    /// session is computing, the counter is still below the worker count,
    /// and the slice fits the result matrix.
    pub fn worker_done(&mut self, slice: &MatrixSlice) -> (accepted: bool)
        requires
            old(self).wf(),
        ensures
            final(self).wf(),
            accepted <==> (old(self).spec_phase() == Phase::Polling && old(self).spec_started()
                && old(self).spec_completed() < old(self).spec_thread_num() && slice.wf()
                && slice.spec_width() == old(self).spec_result().len() && slice.spec_start()
                + slice.spec_rows().len() <= old(self).spec_result().len()),
            !accepted ==> *final(self) == *old(self),
            accepted ==> {
                &&& final(self).spec_completed() == old(self).spec_completed() + 1
                &&& final(self).spec_completed() <= final(self).spec_thread_num()
                &&& final(self).spec_phase() == Phase::Polling
                &&& final(self).spec_started()
                &&& final(self).spec_id() == old(self).spec_id()
                &&& final(self).spec_thread_num() == old(self).spec_thread_num()
                &&& final(self).spec_work() == old(self).spec_work()
                &&& final(self).spec_result().len() == old(self).spec_result().len()
                &&& (forall|k: int|
                    0 <= k < old(self).spec_result().len() ==> (#[trigger] final(self).spec_result()[k]) == (if slice.spec_start() <= k < slice.spec_start()
                        + slice.spec_rows().len() {
                        slice.spec_rows()[k - slice.spec_start()]
                    } else {
                        old(self).spec_result()[k]
                    }))
            },
    {
        if !(matches!(self.phase, Phase::Polling) && self.started) {
            return false;
        }
        if self.completed >= self.thread_num {
            return false;
        }
        let dim = self.result.get_dim();
        if !slice.fits(dim) {
            return false;
        }
        self.result.install_slice(slice);
        self.completed = self.completed + 1;
        true
    }

    /// The encoded result matrix, available exactly once the `Done` reply
    /// has been issued.
    pub fn result_bytes(&self) -> (r: Option<Vec<u8>>)
        requires
            self.wf(),
        ensures
            r is Some <==> self.spec_phase() == Phase::Finished,
            r is Some ==> r.unwrap()@ == spec_serialize(self.spec_result()),
    {
        if matches!(self.phase, Phase::Finished) {
            Some(self.result.serialize())
        } else {
            None
        }
    }
}

/// The completion counter never exceeds the negotiated worker count, in any
/// reachable session state.
pub proof fn lemma_counter_bounded(s: Session)
    requires
        s.wf(),
    ensures
        s.spec_completed() <= s.spec_thread_num(),
{
}

} // verus!
