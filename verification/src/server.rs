//! The daemon's side of a session, as a state machine.
//!
//! A [`Server`] holds one session and a record for each attached client. It
//! does no I/O. The loop that owns the listener, the terminal and the client
//! streams tells it what happened (a client connected, the terminal produced
//! output, a read or a write returned) and carries out what it answers.

use crate::event::{ReadOutcome, WriteOutcome};
use crate::proto::server::{EXIT, OUTPUT, SCROLLBACK};
use crate::proto::{
    encode, frame, i32_le, i32_to_le_bytes, leftover, lemma_frames_rebuild, starts_with_frame,
    take_frames, whole_frames,
};
use crate::request::{request_views, requests_from, requests_of, ClientRequest, RequestView};
use crate::sanitize::{sanitize_scrollback_for_replay, sanitized};
use crate::session::{exit_code_of, ChildStatus, Session};
use std::collections::HashMap;
use vstd::prelude::*;
use vstd::std_specs::hash::spec_keys_iter;
use vstd::std_specs::iter::IteratorSpec;

verus! {

broadcast use vstd::std_specs::hash::group_hash_axioms;

/// The token under which the listener is registered with the multiplexer.
pub const LISTENER: usize = 0;

/// The token under which the terminal is registered.
pub const PTY_BASE: usize = 0x1000_0000;

/// The token of the client with id 0; client `id` has `CLIENT_BASE + id`.
pub const CLIENT_BASE: usize = 0x2000_0000;

/// What an event's token stands for.
#[derive(Clone, Copy, Debug, PartialEq, Eq)]
pub enum Source {
    Listener,
    Pty,
    /// The client with this id.
    Client(usize),
    /// Nothing that the server registered.
    Unknown,
}

/// The source that a token stands for.
pub open spec fn source_of_token(token: usize) -> Source {
    if token == LISTENER {
        Source::Listener
    } else if token >= CLIENT_BASE {
        Source::Client((token - CLIENT_BASE) as usize)
    } else if token == PTY_BASE {
        Source::Pty
    } else {
        Source::Unknown
    }
}

/// Tells which source an event's token stands for.
pub fn source_of(token: usize) -> (source: Source)
    ensures
        source == source_of_token(token),
{
    if token == LISTENER {
        Source::Listener
    } else if token >= CLIENT_BASE {
        Source::Client(token - CLIENT_BASE)
    } else if token == PTY_BASE {
        Source::Pty
    } else {
        Source::Unknown
    }
}

/// The token under which the client `id` is registered.
pub fn client_token(id: usize) -> (token: usize)
    requires
        id <= usize::MAX - CLIENT_BASE,
    ensures
        token == CLIENT_BASE + id,
        source_of_token(token) == Source::Client(id),
{
    CLIENT_BASE + id
}

/// The record of one attached client.
pub struct Client {
    /// Bytes received that do not make up a whole frame yet.
    pub recv_buf: Vec<u8>,
    /// Bytes that wait to be written to the client.
    pub send_buf: Vec<u8>,
}

/// What a [`Client`] stands for.
pub struct ClientView {
    pub recv: Seq<u8>,
    pub send: Seq<u8>,
}

impl View for Client {
    type V = ClientView;

    open spec fn view(&self) -> ClientView {
        ClientView { recv: self.recv_buf@, send: self.send_buf@ }
    }
}

/// What to do next about a client's stream after a read.
#[derive(Clone, Copy, Debug, PartialEq, Eq)]
pub enum ReadNext {
    /// Read again.
    Again,
    /// Wait until the stream is readable again.
    Wait,
    /// The stream is closed; the client was removed.
    Closed,
    /// No client with this id is attached.
    Gone,
}

/// The answer to a read from a client's stream.
pub struct ClientStep {
    /// What the client asks for, in the order of its frames.
    pub requests: Vec<ClientRequest>,
    /// What to do next about the stream.
    pub next: ReadNext,
}

/// What to do next about a client's outbound queue.
#[derive(Clone, Copy, Debug, PartialEq, Eq)]
pub enum FlushStep {
    /// Write what waits for the client to its stream, and report the outcome.
    Write,
    /// Stop writing for now. Watch the stream for input, and for room to
    /// write as well if `writable`.
    Idle { writable: bool },
    /// The stream is closed; the client was removed.
    Closed,
    /// No client with this id is attached.
    Gone,
}

/// What the child's state means for the clients.
pub struct ExitCheck {
    /// The exit code, once the child has ended.
    pub code: Option<i32>,
    /// Whether this check was the first to see the child's end, so that an
    /// EXIT frame now waits for every client.
    pub announced: bool,
}

/// What a newly attached client is sent of the scrollback: one SCROLLBACK
/// frame with the sanitised scrollback, or nothing where that is empty.
pub open spec fn replay_bytes(scrollback: Seq<u8>) -> Seq<u8> {
    if sanitized(scrollback).len() == 0 {
        Seq::empty()
    } else {
        frame(SCROLLBACK, sanitized(scrollback))
    }
}

/// The EXIT frame for the exit code of a session whose child has ended;
/// nothing for one whose child still runs.
pub open spec fn exit_bytes(exited: Option<i32>) -> Seq<u8> {
    match exited {
        Some(code) => frame(EXIT, i32_le(code)),
        None => Seq::empty(),
    }
}

/// What waits for a client right after it has attached: the scrollback
/// replay, then the EXIT frame if the other clients were told of the child's
/// end already.
pub open spec fn greeting(scrollback: Seq<u8>, exited: Option<i32>, exit_announced: bool) -> Seq<
    u8,
> {
    if exit_announced {
        replay_bytes(scrollback) + exit_bytes(exited)
    } else {
        replay_bytes(scrollback)
    }
}

/// The clients after `bytes` were appended to what waits for each of them.
pub open spec fn enqueued(clients: Map<usize, ClientView>, bytes: Seq<u8>) -> Map<
    usize,
    ClientView,
> {
    clients.map_values(|c: ClientView| ClientView { recv: c.recv, send: c.send + bytes })
}

/// The bytes that a read from the terminal brought.
pub open spec fn output_of(event: ReadOutcome<'_>) -> Seq<u8> {
    match event {
        ReadOutcome::Data(data) => data@,
        _ => Seq::empty(),
    }
}

/// What to do next about the terminal after a read from it reported `event`:
/// read again after bytes came or a signal interrupted, else wait.
pub open spec fn next_after_output(event: ReadOutcome<'_>) -> ReadNext {
    match event {
        ReadOutcome::Data(data) => if data@.len() == 0 {
            ReadNext::Wait
        } else {
            ReadNext::Again
        },
        ReadOutcome::Interrupted => ReadNext::Again,
        _ => ReadNext::Wait,
    }
}

/// The clients after a read from the stream of client `id` reported `event`.
pub open spec fn clients_after_read(
    clients: Map<usize, ClientView>,
    id: usize,
    event: ReadOutcome<'_>,
) -> Map<usize, ClientView> {
    if !clients.contains_key(id) {
        clients
    } else {
        match event {
            ReadOutcome::Data(data) => if data@.len() == 0 {
                clients.remove(id)
            } else {
                clients.insert(
                    id,
                    ClientView {
                        recv: leftover(clients[id].recv + data@),
                        send: clients[id].send,
                    },
                )
            },
            ReadOutcome::Failed => clients.remove(id),
            _ => clients,
        }
    }
}

/// The requests that client `id` makes when a read from its stream reported
/// `event`.
pub open spec fn requests_after_read(
    clients: Map<usize, ClientView>,
    id: usize,
    event: ReadOutcome<'_>,
) -> Seq<RequestView> {
    match event {
        ReadOutcome::Data(data) => if clients.contains_key(id) && data@.len() > 0 {
            requests_of(whole_frames(clients[id].recv + data@))
        } else {
            Seq::empty()
        },
        _ => Seq::empty(),
    }
}

/// What to do next when a read from the stream of client `id` reported
/// `event`.
pub open spec fn next_after_read(
    clients: Map<usize, ClientView>,
    id: usize,
    event: ReadOutcome<'_>,
) -> ReadNext {
    if !clients.contains_key(id) {
        ReadNext::Gone
    } else {
        match event {
            ReadOutcome::Data(data) => if data@.len() == 0 {
                ReadNext::Closed
            } else {
                ReadNext::Again
            },
            ReadOutcome::Interrupted => ReadNext::Again,
            ReadOutcome::WouldBlock => ReadNext::Wait,
            ReadOutcome::Failed => ReadNext::Closed,
        }
    }
}

/// The clients after a write to the stream of client `id` reported `outcome`.
pub open spec fn clients_after_write(
    clients: Map<usize, ClientView>,
    id: usize,
    outcome: Option<WriteOutcome>,
) -> Map<usize, ClientView> {
    if !clients.contains_key(id) {
        clients
    } else {
        match outcome {
            Some(WriteOutcome::Wrote(n)) => if n == 0 {
                clients.remove(id)
            } else {
                clients.insert(
                    id,
                    ClientView {
                        recv: clients[id].recv,
                        send: clients[id].send.skip(
                            if n < clients[id].send.len() {
                                n as int
                            } else {
                                clients[id].send.len() as int
                            },
                        ),
                    },
                )
            },
            Some(WriteOutcome::Failed) => clients.remove(id),
            _ => clients,
        }
    }
}

/// The step that follows a write to the stream of client `id` that reported
/// `outcome`; `None` stands for the time before the first write.
pub open spec fn flush_step_after(
    clients: Map<usize, ClientView>,
    id: usize,
    outcome: Option<WriteOutcome>,
) -> FlushStep {
    let after = clients_after_write(clients, id, outcome);
    if !clients.contains_key(id) {
        FlushStep::Gone
    } else if !after.contains_key(id) {
        FlushStep::Closed
    } else if after[id].send.len() == 0 {
        FlushStep::Idle { writable: false }
    } else if outcome == Some(WriteOutcome::WouldBlock) {
        FlushStep::Idle { writable: true }
    } else {
        FlushStep::Write
    }
}

/// The daemon's state: the session, the attached clients and the id that the
/// next client gets.
pub struct Server {
    session: Session,
    clients: HashMap<usize, Client>,
    next_client_id: usize,
    exit_announced: bool,
}

impl Server {
    /// The session that the server owns.
    pub closed spec fn spec_session(&self) -> &Session {
        &self.session
    }

    /// The session that the server owns.
    #[verifier::when_used_as_spec(spec_session)]
    pub fn session(&self) -> (session: &Session)
        ensures
            session == self.session(),
    {
        &self.session
    }

    /// The attached clients, by id.
    pub closed spec fn clients(&self) -> Map<usize, ClientView> {
        self.clients@.map_values(|c: Client| c@)
    }

    /// The id that the next client gets. Ids count up and are never reused.
    pub closed spec fn spec_next_client_id(&self) -> usize {
        self.next_client_id
    }

    /// The id that the next client gets. Ids count up and are never reused.
    #[verifier::when_used_as_spec(spec_next_client_id)]
    pub fn next_client_id(&self) -> (id: usize)
        ensures
            id == self.next_client_id(),
    {
        self.next_client_id
    }

    /// Whether the clients were told that the child has ended.
    pub closed spec fn exit_announced(&self) -> bool {
        self.exit_announced
    }

    /// The invariant of the server's state.
    pub open spec fn wf(&self) -> bool {
        &&& self.session().wf()
        &&& self.session().scrollback.capacity() <= u32::MAX
        &&& self.next_client_id() <= usize::MAX - CLIENT_BASE
        &&& self.clients().dom().finite()
        &&& forall|id: usize| #[trigger]
            self.clients().contains_key(id) ==> id < self.next_client_id()
                && !starts_with_frame(self.clients()[id].recv)
        &&& self.exit_announced() ==> self.session().exited is Some
    }

    /// A server for `session` with no client attached.
    pub fn new(session: Session) -> (server: Self)
        requires
            session.wf(),
            session.scrollback.capacity() <= u32::MAX,
        ensures
            server.wf(),
            server.session() == session,
            server.clients() == Map::<usize, ClientView>::empty(),
            server.next_client_id() == 0,
            !server.exit_announced(),
    {
        let server = Server {
            session,
            clients: HashMap::new(),
            next_client_id: 0,
            exit_announced: false,
        };
        assert(server.clients() =~= Map::<usize, ClientView>::empty());
        server
    }

    /// Attaches a client and returns its id. The client's first frame is the
    /// scrollback replay, unless that is empty; a client that attaches after
    /// the others were told of the child's end is told so next.
    pub fn accept_client(&mut self) -> (id: usize)
        requires
            old(self).wf(),
            old(self).next_client_id() < usize::MAX - CLIENT_BASE,
        ensures
            final(self).wf(),
            id == old(self).next_client_id(),
            !old(self).clients().contains_key(id),
            final(self).next_client_id() == id + 1,
            final(self).clients() == old(self).clients().insert(
                id,
                ClientView {
                    recv: Seq::empty(),
                    send: greeting(
                        old(self).session().scrollback@,
                        old(self).session().exited,
                        old(self).exit_announced(),
                    ),
                },
            ),
            final(self).session() == old(self).session(),
            final(self).exit_announced() == old(self).exit_announced(),
    {
        let id: usize = self.next_client_id;
        self.next_client_id = id + 1;
        let contents = self.session.scrollback.get_contents();
        let replay = sanitize_scrollback_for_replay(contents.as_slice());
        let mut send_buf: Vec<u8> = Vec::new();
        if !replay.is_empty() {
            send_buf = encode(SCROLLBACK, replay.as_slice());
        }
        if self.exit_announced {
            match self.session.exited {
                Some(code) => {
                    let code_bytes = i32_to_le_bytes(code);
                    let exit_frame = encode(EXIT, code_bytes.as_slice());
                    send_buf.extend_from_slice(exit_frame.as_slice());
                },
                None => {},
            }
        }
        assert(send_buf@ =~= greeting(
            self.session.scrollback@,
            self.session.exited,
            self.exit_announced,
        ));
        let client = Client { recv_buf: Vec::new(), send_buf };
        self.clients.insert(id, client);
        proof {
            assert(self.clients() =~= old(self).clients().insert(id, client@));
        }
        id
    }

    /// The ids of the attached clients, in no particular order.
    pub fn client_ids(&self) -> (ids: Vec<usize>)
        ensures
            ids@.no_duplicates(),
            ids@.to_set() == self.clients().dom(),
    {
        let mut ids: Vec<usize> = Vec::new();
        let ghost keys = spec_keys_iter(&self.clients).remaining();
        for id in it: self.clients.keys()
            invariant
                it.seq() == keys,
                ids@ == keys.take(it.index() as int).unref(),
        {
            ids.push(*id);
            assert(keys.take(it.index() + 1).unref() =~= keys.take(it.index() as int).unref().push(
                *id,
            ));
        }
        proof {
            assert(keys.take(keys.len() as int) =~= keys);
            assert(self.clients().dom() =~= self.clients@.dom());
            assert forall|i: int, j: int|
                0 <= i < ids@.len() && 0 <= j < ids@.len() && i != j implies ids@[i] != ids@[j] by {
                assert(keys[i] != keys[j]);
            }
        }
        ids
    }

    /// The bytes that wait to be written to the client `id`, if it is
    /// attached.
    pub fn send_buf(&self, id: usize) -> (pending: Option<&Vec<u8>>)
        ensures
            match pending {
                Some(bytes) => self.clients().contains_key(id) && bytes@ == self.clients()[id].send,
                None => !self.clients().contains_key(id),
            },
    {
        match self.clients.get(&id) {
            Some(client) => Some(&client.send_buf),
            None => None,
        }
    }

    /// Appends `bytes` to what waits to be written to each client.
    fn enqueue_for_all(&mut self, bytes: &[u8])
        ensures
            final(self).clients() == enqueued(old(self).clients(), bytes@),
            final(self).session == old(self).session,
            final(self).next_client_id == old(self).next_client_id,
            final(self).exit_announced == old(self).exit_announced,
    {
        let ids = self.client_ids();
        let ghost before = self.clients@;
        assert(self.clients().dom() =~= before.dom());
        let mut k: usize = 0;
        while k < ids.len()
            invariant
                k <= ids@.len(),
                ids@.no_duplicates(),
                ids@.to_set() == before.dom(),
                self.session == old(self).session,
                self.next_client_id == old(self).next_client_id,
                self.exit_announced == old(self).exit_announced,
                self.clients@.dom() == before.dom(),
                forall|j: int|
                    0 <= j < k ==> (#[trigger] self.clients@[ids@[j]])@ == (ClientView {
                        recv: before[ids@[j]]@.recv,
                        send: before[ids@[j]]@.send + bytes@,
                    }),
                forall|j: int| k <= j < ids@.len() ==> #[trigger] self.clients@[ids@[j]] == before[ids@[j]],
            decreases ids@.len() - k,
        {
            let id: usize = ids[k];
            let ghost current = self.clients@;
            assert(ids@.to_set().contains(ids@[k as int]));
            match self.clients.remove(&id) {
                Some(client) => {
                    let mut client = client;
                    client.send_buf.extend_from_slice(bytes);
                    assert(client.send_buf@ =~= before[id]@.send + bytes@);
                    self.clients.insert(id, client);
                },
                None => {},
            }
            proof {
                assert(self.clients@.dom() =~= before.dom());
                assert forall|j: int| 0 <= j < k + 1 implies (#[trigger] self.clients@[ids@[j]])@
                    == (ClientView {
                    recv: before[ids@[j]]@.recv,
                    send: before[ids@[j]]@.send + bytes@,
                }) by {
                    if j < k {
                        assert(ids@[j] != ids@[k as int]);
                        assert(self.clients@[ids@[j]] == current[ids@[j]]);
                    }
                }
                assert forall|j: int| k + 1 <= j < ids@.len() implies #[trigger] self.clients@[ids@[j]]
                    == before[ids@[j]] by {
                    assert(ids@[j] != ids@[k as int]);
                    assert(self.clients@[ids@[j]] == current[ids@[j]]);
                }
            }
            k = k + 1;
        }
        proof {
            assert forall|id: usize| before.contains_key(id) implies (#[trigger] self.clients@[id])@
                == (ClientView { recv: before[id]@.recv, send: before[id]@.send + bytes@ }) by {
                assert(ids@.to_set().contains(id));
                let j = choose|j: int| 0 <= j < ids@.len() && ids@[j] == id;
                assert((self.clients@[ids@[j]])@ == (ClientView {
                    recv: before[ids@[j]]@.recv,
                    send: before[ids@[j]]@.send + bytes@,
                }));
            }
            assert(self.clients() =~= enqueued(old(self).clients(), bytes@));
        }
    }

    /// Takes in what a read from the terminal reported. Bytes that were read
    /// go to the scrollback, and one OUTPUT frame with them goes to every
    /// client; anything else changes nothing. The terminal is read again
    /// until nothing more comes for now; an error does not end the session.
    pub fn handle_pty_output(&mut self, event: ReadOutcome<'_>) -> (next: ReadNext)
        requires
            old(self).wf(),
            output_of(event).len() <= u32::MAX,
            old(self).session().scrollback.history().len() + output_of(event).len() <= u64::MAX,
        ensures
            final(self).wf(),
            final(self).session().scrollback.history() == old(self).session().scrollback.history()
                + output_of(event),
            final(self).session().scrollback.capacity() == old(
                self,
            ).session().scrollback.capacity(),
            final(self).session().name == old(self).session().name,
            final(self).session().exited == old(self).session().exited,
            final(self).clients() == (if output_of(event).len() == 0 {
                old(self).clients()
            } else {
                enqueued(old(self).clients(), frame(OUTPUT, output_of(event)))
            }),
            final(self).clients().dom() == old(self).clients().dom(),
            final(self).next_client_id() == old(self).next_client_id(),
            final(self).exit_announced() == old(self).exit_announced(),
            next == next_after_output(event),
    {
        match event {
            ReadOutcome::Data(data) => {
                let n: usize = self.session.read_pty(data);
                if n > 0 {
                    let msg = encode(OUTPUT, data);
                    self.enqueue_for_all(msg.as_slice());
                    proof {
                        lemma_enqueued_keeps_recv(old(self).clients(), msg@);
                    }
                    ReadNext::Again
                } else {
                    ReadNext::Wait
                }
            },
            ReadOutcome::Interrupted => {
                assert(self.session.scrollback.history() + output_of(event)
                    =~= self.session.scrollback.history());
                ReadNext::Again
            },
            _ => {
                assert(self.session.scrollback.history() + output_of(event)
                    =~= self.session.scrollback.history());
                ReadNext::Wait
            },
        }
    }

    /// Goes on with writing out what waits for the client `id`. `outcome` is
    /// what the last write to the client's stream reported, `None` before the
    /// first one. What was written leaves the queue. A stream that took
    /// nothing or failed is closed, and its client is removed.
    pub fn flush_client_send_buf(&mut self, id: usize, outcome: Option<WriteOutcome>) -> (step:
        FlushStep)
        requires
            old(self).wf(),
        ensures
            final(self).wf(),
            final(self).clients() == clients_after_write(old(self).clients(), id, outcome),
            step == flush_step_after(old(self).clients(), id, outcome),
            final(self).session() == old(self).session(),
            final(self).next_client_id() == old(self).next_client_id(),
            final(self).exit_announced() == old(self).exit_announced(),
    {
        let ghost before = self.clients();
        match self.clients.remove(&id) {
            None => {
                assert(self.clients() =~= before);
                FlushStep::Gone
            },
            Some(client) => {
                let mut client = client;
                assert(client@ == before[id]);
                match outcome {
                    Some(WriteOutcome::Wrote(n)) => {
                        if n == 0 {
                            assert(self.clients() =~= before.remove(id));
                            return FlushStep::Closed;
                        }
                        let len: usize = client.send_buf.len();
                        let sent: usize = if n < len {
                            n
                        } else {
                            len
                        };
                        let rest: Vec<u8> = client.send_buf.split_off(sent);
                        client.send_buf = rest;
                        assert(client.send_buf@ =~= before[id].send.skip(sent as int));
                    },
                    Some(WriteOutcome::Failed) => {
                        assert(self.clients() =~= before.remove(id));
                        return FlushStep::Closed;
                    },
                    _ => {},
                }
                let pending: bool = !client.send_buf.is_empty();
                let blocked: bool = match outcome {
                    Some(WriteOutcome::WouldBlock) => true,
                    _ => false,
                };
                self.clients.insert(id, client);
                assert(self.clients() =~= clients_after_write(before, id, outcome));
                if pending && !blocked {
                    FlushStep::Write
                } else {
                    FlushStep::Idle { writable: pending }
                }
            },
        }
    }

    /// Takes in what a read from the stream of client `id` reported. Bytes
    /// received join what was left of earlier reads; every whole frame among
    /// them is taken off and answered with the request it makes, and the rest
    /// waits for more. A stream at its end or in error is closed, and its
    /// client is removed.
    pub fn handle_client_data(&mut self, id: usize, event: ReadOutcome<'_>) -> (step: ClientStep)
        requires
            old(self).wf(),
        ensures
            final(self).wf(),
            final(self).clients() == clients_after_read(old(self).clients(), id, event),
            request_views(step.requests@) == requests_after_read(old(self).clients(), id, event),
            step.next == next_after_read(old(self).clients(), id, event),
            final(self).session() == old(self).session(),
            final(self).next_client_id() == old(self).next_client_id(),
            final(self).exit_announced() == old(self).exit_announced(),
    {
        let ghost before = self.clients();
        let mut requests: Vec<ClientRequest> = Vec::new();
        assert(request_views(requests@) =~= Seq::<RequestView>::empty());
        match self.clients.remove(&id) {
            None => {
                assert(self.clients() =~= before);
                ClientStep { requests, next: ReadNext::Gone }
            },
            Some(client) => {
                let mut client = client;
                assert(client@ == before[id]);
                match event {
                    ReadOutcome::Data(data) => {
                        if data.len() == 0 {
                            assert(self.clients() =~= before.remove(id));
                            return ClientStep { requests, next: ReadNext::Closed };
                        }
                        client.recv_buf.extend_from_slice(data);
                        assert(client.recv_buf@ =~= before[id].recv + data@);
                        let frames = take_frames(&mut client.recv_buf);
                        requests = requests_from(&frames);
                        proof {
                            lemma_frames_rebuild(before[id].recv + data@);
                        }
                        self.clients.insert(id, client);
                        assert(self.clients() =~= clients_after_read(before, id, event));
                        ClientStep { requests, next: ReadNext::Again }
                    },
                    ReadOutcome::Interrupted => {
                        self.clients.insert(id, client);
                        assert(self.clients() =~= before);
                        ClientStep { requests, next: ReadNext::Again }
                    },
                    ReadOutcome::WouldBlock => {
                        self.clients.insert(id, client);
                        assert(self.clients() =~= before);
                        ClientStep { requests, next: ReadNext::Wait }
                    },
                    ReadOutcome::Failed => {
                        assert(self.clients() =~= before.remove(id));
                        ClientStep { requests, next: ReadNext::Closed }
                    },
                }
            },
        }
    }

    /// Takes in what waiting on the child reported and returns the exit code,
    /// if the child has ended. When the end is first observed, one EXIT frame
    /// with the code goes to every client.
    pub fn check_exit(&mut self, status: ChildStatus) -> (check: ExitCheck)
        requires
            old(self).wf(),
            old(self).session().exited is None ==> match exit_code_of(status) {
                Some(c) => c <= i32::MAX,
                None => true,
            },
        ensures
            final(self).wf(),
            check.code == final(self).session().exited,
            old(self).session().exited is Some ==> check.code == old(self).session().exited,
            old(self).session().exited is None ==> match exit_code_of(status) {
                Some(c) => check.code == Some(c as i32),
                None => check.code is None,
            },
            final(self).session().name == old(self).session().name,
            final(self).session().scrollback == old(self).session().scrollback,
            check.announced == (check.code is Some && !old(self).exit_announced()),
            final(self).exit_announced() == (check.code is Some),
            final(self).clients() == (if check.announced {
                enqueued(old(self).clients(), exit_bytes(check.code))
            } else {
                old(self).clients()
            }),
            final(self).clients().dom() == old(self).clients().dom(),
            final(self).next_client_id() == old(self).next_client_id(),
    {
        match self.session.check_exit(status) {
            None => ExitCheck { code: None, announced: false },
            Some(code) => {
                if self.exit_announced {
                    ExitCheck { code: Some(code), announced: false }
                } else {
                    let code_bytes = i32_to_le_bytes(code);
                    let msg = encode(EXIT, code_bytes.as_slice());
                    self.enqueue_for_all(msg.as_slice());
                    self.exit_announced = true;
                    proof {
                        lemma_enqueued_keeps_recv(old(self).clients(), msg@);
                    }
                    ExitCheck { code: Some(code), announced: true }
                }
            },
        }
    }

    /// Whether the session is over: the child has ended and no client is
    /// attached any more.
    pub fn should_stop(&self) -> (stop: bool)
        ensures
            stop == (self.session().exited is Some && self.clients().dom().is_empty()),
    {
        assert(self.clients().dom() =~= self.clients@.dom());
        self.session.exited.is_some() && self.clients.is_empty()
    }
}

/// Appending to what waits for the clients changes neither who is attached
/// nor what was received from them.
pub proof fn lemma_enqueued_keeps_recv(clients: Map<usize, ClientView>, bytes: Seq<u8>)
    ensures
        enqueued(clients, bytes).dom() == clients.dom(),
        forall|id: usize| #[trigger]
            clients.contains_key(id) ==> enqueued(clients, bytes)[id].recv == clients[id].recv
                && enqueued(clients, bytes)[id].send == clients[id].send + bytes,
{
    assert(enqueued(clients, bytes).dom() =~= clients.dom());
}

/// A client's queue is first in, first out: what was written leaves at the
/// front and what is enqueued joins at the back, so that writing and
/// enqueueing may happen in either order.
pub proof fn lemma_send_queue_is_fifo(
    clients: Map<usize, ClientView>,
    id: usize,
    n: usize,
    bytes: Seq<u8>,
)
    requires
        clients.contains_key(id),
        0 < n <= clients[id].send.len(),
    ensures
        clients_after_write(enqueued(clients, bytes), id, Some(WriteOutcome::Wrote(n)))
            == enqueued(clients_after_write(clients, id, Some(WriteOutcome::Wrote(n))), bytes),
{
    let first = clients_after_write(enqueued(clients, bytes), id, Some(WriteOutcome::Wrote(n)));
    let second = enqueued(clients_after_write(clients, id, Some(WriteOutcome::Wrote(n))), bytes);
    lemma_enqueued_keeps_recv(clients, bytes);
    assert(first.dom() =~= second.dom());
    assert forall|k: usize| first.contains_key(k) implies first[k] == second[k] by {
        if k == id {
            assert((clients[id].send + bytes).skip(n as int) =~= clients[id].send.skip(n as int)
                + bytes);
        }
    }
    assert(first =~= second);
}

} // verus!
