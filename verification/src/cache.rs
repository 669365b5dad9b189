//! What the server remembers of each client: its session and the responses it
//! was given.
//!
//! A client that gets no answer sends its request again, under the same
//! number. Where the server is to carry out no request twice, it keeps the
//! response to each request and answers a repetition from memory. Where that
//! is not asked for, nothing is kept and every datagram is carried out.
//!
//! A session begins with a handshake and ends with a disconnect, or with a
//! handshake that bears another identifier: the client has then started anew,
//! and what was kept for it is of no use.

use crate::address::ClientAddress;
use crate::keyed::{
    lemma_position_at, lemma_position_push, lemma_position_remove, lemma_positions, position,
};
use crate::wire::{ResponseMarshal, ResponseView};
use vstd::prelude::*;

verus! {

/// The response that was given to one request.
struct Saved {
    req_no: u32,
    response: ResponseMarshal,
}

/// What is remembered of one client.
struct Client {
    addr: ClientAddress,
    session: Option<u32>,
    saved: Vec<Saved>,
}

/// The memory of sessions and responses.
pub struct ResponseManager {
    at_most_once: bool,
    clients: Vec<Client>,
}

/// The addresses of the clients, in the order of their records.
spec fn addresses(clients: Seq<Client>) -> Seq<ClientAddress> {
    Seq::new(clients.len(), |i: int| clients[i].addr)
}

/// The numbers of the requests whose responses are kept, in the order of their records.
spec fn numbers(saved: Seq<Saved>) -> Seq<u32> {
    Seq::new(saved.len(), |i: int| saved[i].req_no)
}

/// No client has two records, and no request of a client has two responses.
spec fn tidy(clients: Seq<Client>) -> bool {
    &&& addresses(clients).no_duplicates()
    &&& forall|i: int|
        0 <= i < clients.len() ==> numbers((#[trigger] clients[i]).saved@).no_duplicates()
}

/// The session of the client at `addr`.
spec fn session_of(clients: Seq<Client>, addr: ClientAddress) -> Option<u32> {
    match position(addresses(clients), addr) {
        Some(i) => clients[i].session,
        None => None,
    }
}

/// The response kept among `saved` for request `req_no`.
spec fn saved_for(saved: Seq<Saved>, req_no: u32) -> Option<ResponseView> {
    match position(numbers(saved), req_no) {
        Some(j) => Some(saved[j].response@),
        None => None,
    }
}

/// The response kept for request `req_no` of the client at `addr`.
spec fn response_of(clients: Seq<Client>, addr: ClientAddress, req_no: u32) -> Option<ResponseView> {
    match position(addresses(clients), addr) {
        Some(i) => saved_for(clients[i].saved@, req_no),
        None => None,
    }
}

impl ResponseManager {
    /// Whether responses are kept, so that no request is carried out twice.
    pub closed spec fn at_most_once(&self) -> bool {
        self.at_most_once
    }

    /// The session of each client that has one.
    pub closed spec fn sessions(&self) -> Map<ClientAddress, u32> {
        Map::new(
            |addr: ClientAddress| session_of(self.clients@, addr) is Some,
            |addr: ClientAddress| session_of(self.clients@, addr)->0,
        )
    }

    /// The responses that are kept, by client and request number.
    pub closed spec fn responses(&self) -> Map<(ClientAddress, u32), ResponseView> {
        Map::new(
            |k: (ClientAddress, u32)| response_of(self.clients@, k.0, k.1) is Some,
            |k: (ClientAddress, u32)| response_of(self.clients@, k.0, k.1)->0,
        )
    }

    /// The invariant of the memory.
    pub closed spec fn wf(&self) -> bool {
        &&& tidy(self.clients@)
        &&& !self.at_most_once ==> forall|i: int|
            0 <= i < self.clients@.len() ==> (#[trigger] self.clients@[i]).saved@.len() == 0
    }

    /// Where nothing is to be kept, nothing is kept.
    pub proof fn lemma_at_least_once_keeps_nothing(&self)
        requires
            self.wf(),
            !self.at_most_once(),
        ensures
            self.responses() == Map::<(ClientAddress, u32), ResponseView>::empty(),
    {
        lemma_positions(addresses(self.clients@));
        assert forall|k: (ClientAddress, u32)| response_of(self.clients@, k.0, k.1) is None by {
            match position(addresses(self.clients@), k.0) {
                Some(i) => {
                    lemma_positions(numbers(self.clients@[i].saved@));
                },
                None => {},
            }
        }
        assert(self.responses() =~= Map::<(ClientAddress, u32), ResponseView>::empty());
    }

    /// An empty memory. With `at_most_once` it will keep responses; without, it never does.
    pub fn new(at_most_once: bool) -> (manager: Self)
        ensures
            manager.wf(),
            manager.at_most_once() == at_most_once,
            manager.sessions() == Map::<ClientAddress, u32>::empty(),
            manager.responses() == Map::<(ClientAddress, u32), ResponseView>::empty(),
    {
        let manager = ResponseManager { at_most_once, clients: Vec::new() };
        proof {
            lemma_positions(addresses(manager.clients@));
            assert(manager.sessions() =~= Map::<ClientAddress, u32>::empty());
            assert(manager.responses() =~= Map::<(ClientAddress, u32), ResponseView>::empty());
        }
        manager
    }

    /// Whether responses are kept.
    pub fn is_at_most_once(&self) -> (r: bool)
        ensures
            r == self.at_most_once(),
    {
        self.at_most_once
    }

    /// Where the record of the client at `addr` is.
    fn find_client(&self, addr: ClientAddress) -> (r: Option<usize>)
        requires
            tidy(self.clients@),
        ensures
            match r {
                Some(k) => position(addresses(self.clients@), addr) == Some(k as int) && k
                    < self.clients@.len() && self.clients@[k as int].addr == addr,
                None => position(addresses(self.clients@), addr) is None,
            },
    {
        let mut i: usize = 0;
        while i < self.clients.len()
            invariant
                i <= self.clients@.len(),
                tidy(self.clients@),
                forall|m: int| 0 <= m < i ==> addresses(self.clients@)[m] != addr,
            decreases self.clients@.len() - i,
        {
            if self.clients[i].addr == addr {
                proof {
                    assert(addresses(self.clients@)[i as int] == addr);
                    lemma_position_at(addresses(self.clients@), i as int);
                }
                return Some(i);
            }
            i = i + 1;
        }
        proof {
            lemma_positions(addresses(self.clients@));
        }
        None
    }

    /// The session of the client at `addr`, if it has one.
    pub fn session(&self, addr: ClientAddress) -> (r: Option<u32>)
        requires
            self.wf(),
        ensures
            r is Some <==> self.sessions().contains_key(addr),
            r is Some ==> r->0 == self.sessions()[addr],
    {
        match self.find_client(addr) {
            Some(k) => self.clients[k].session,
            None => None,
        }
    }

    /// Whether a response is kept for request `req_no` of the client at `addr`.
    /// Where nothing is to be kept, there never is one.
    pub fn has_entry(&self, addr: ClientAddress, req_no: u32) -> (r: bool)
        requires
            self.wf(),
        ensures
            r == (self.at_most_once() && self.responses().contains_key((addr, req_no))),
    {
        if !self.at_most_once {
            return false;
        }
        match self.find_client(addr) {
            Some(k) => find_saved(&self.clients[k].saved, req_no).is_some(),
            None => false,
        }
    }

    /// The response kept for request `req_no` of the client at `addr`.
    pub fn get_entry(&self, addr: ClientAddress, req_no: u32) -> (response: &ResponseMarshal)
        requires
            self.wf(),
            self.responses().contains_key((addr, req_no)),
        ensures
            response@ == self.responses()[(addr, req_no)],
    {
        let found = self.find_client(addr);
        assert(found is Some);
        let k = found.unwrap();
        let at = find_saved(&self.clients[k].saved, req_no);
        assert(at is Some);
        &self.clients[k].saved[at.unwrap()].response
    }

    /// Keeps `response` as the response to request `req_no` of the client at
    /// `addr`, in place of an older one if there is one. Where nothing is to be
    /// kept, this does nothing.
    pub fn add_entry(&mut self, addr: ClientAddress, req_no: u32, response: ResponseMarshal)
        requires
            old(self).wf(),
        ensures
            final(self).wf(),
            final(self).at_most_once() == old(self).at_most_once(),
            final(self).sessions() == old(self).sessions(),
            final(self).responses() == if old(self).at_most_once() {
                old(self).responses().insert((addr, req_no), response@)
            } else {
                old(self).responses()
            },
    {
        if !self.at_most_once {
            return ;
        }
        let ghost before = self.clients@;
        match self.find_client(addr) {
            Some(k) => {
                let ghost kept = self.clients@[k as int].saved@;
                match find_saved(&self.clients[k].saved, req_no) {
                    Some(j) => {
                        self.clients[k].saved[j].response = response;
                        proof {
                            assert(numbers(self.clients@[k as int].saved@) =~= numbers(kept));
                            lemma_positions(numbers(kept));
                        }
                    },
                    None => {
                        self.clients[k].saved.push(Saved { req_no, response });
                        proof {
                            lemma_positions(numbers(kept));
                            lemma_position_push(numbers(kept), req_no);
                            assert(numbers(self.clients@[k as int].saved@) =~= numbers(kept).push(
                                req_no,
                            ));
                        }
                    },
                }
                proof {
                    let after = self.clients@;
                    assert(addresses(after) =~= addresses(before));
                    lemma_positions(addresses(before));
                    assert forall|n: u32| #[trigger]
                        saved_for(after[k as int].saved@, n) == if n == req_no {
                            Some(response@)
                        } else {
                            saved_for(kept, n)
                        } by {
                        lemma_positions(numbers(after[k as int].saved@));
                        lemma_positions(numbers(kept));
                    }
                    assert(tidy(after));
                    assert(self.sessions() =~= old(self).sessions());
                    assert(self.responses() =~= old(self).responses().insert(
                        (addr, req_no),
                        response@,
                    ));
                }
            },
            None => {
                let mut saved: Vec<Saved> = Vec::new();
                saved.push(Saved { req_no, response });
                let ghost kept = saved@;
                self.clients.push(Client { addr, session: None, saved });
                proof {
                    let after = self.clients@;
                    lemma_positions(addresses(before));
                    lemma_position_push(addresses(before), addr);
                    assert(addresses(after) =~= addresses(before).push(addr));
                    assert(numbers(kept) =~= seq![req_no]);
                    lemma_positions(numbers(kept));
                    lemma_position_at(numbers(kept), 0);
                    assert(tidy(after));
                    assert(self.sessions() =~= old(self).sessions());
                    assert(self.responses() =~= old(self).responses().insert(
                        (addr, req_no),
                        response@,
                    ));
                }
            },
        }
    }

    /// Forgets the session of the client at `addr` and every response kept for it.
    pub fn flush_client(&mut self, addr: ClientAddress)
        requires
            old(self).wf(),
        ensures
            final(self).wf(),
            final(self).at_most_once() == old(self).at_most_once(),
            final(self).sessions() == old(self).sessions().remove(addr),
            final(self).responses() == without_client(old(self).responses(), addr),
            forall|req_no: u32| !final(self).responses().contains_key((addr, req_no)),
    {
        let ghost before = self.clients@;
        match self.find_client(addr) {
            Some(k) => {
                self.clients.remove(k);
                proof {
                    let after = self.clients@;
                    lemma_positions(addresses(before));
                    lemma_position_remove(addresses(before), k as int);
                    assert(addresses(after) =~= addresses(before).remove(k as int));
                    assert(tidy(after));
                }
            },
            None => {
                proof {
                    lemma_positions(addresses(before));
                }
            },
        }
        proof {
            assert(self.sessions() =~= old(self).sessions().remove(addr));
            assert(self.responses() =~= without_client(old(self).responses(), addr));
        }
    }

    /// Begins the session `session_id` of the client at `addr`. If the client
    /// had a session with another identifier, that one is over and the
    /// responses kept for the client are forgotten. If it had none, or this
    /// very one, the responses stay.
    pub fn begin_session(&mut self, addr: ClientAddress, session_id: u32)
        requires
            old(self).wf(),
        ensures
            final(self).wf(),
            final(self).at_most_once() == old(self).at_most_once(),
            final(self).sessions() == old(self).sessions().insert(addr, session_id),
            final(self).responses() == responses_after_handshake(
                old(self).sessions(),
                old(self).responses(),
                addr,
                session_id,
            ),
    {
        let ghost before = self.clients@;
        match self.find_client(addr) {
            Some(k) => {
                match self.clients[k].session {
                    Some(previous) => {
                        if previous != session_id {
                            self.clients[k].session = Some(session_id);
                            self.clients[k].saved = Vec::new();
                            proof {
                                lemma_positions(numbers(self.clients@[k as int].saved@));
                            }
                        }
                    },
                    None => {
                        self.clients[k].session = Some(session_id);
                    },
                }
                proof {
                    let after = self.clients@;
                    assert(addresses(after) =~= addresses(before));
                    lemma_positions(addresses(before));
                    assert(tidy(after));
                }
            },
            None => {
                self.clients.push(Client { addr, session: Some(session_id), saved: Vec::new() });
                proof {
                    let after = self.clients@;
                    lemma_positions(addresses(before));
                    lemma_position_push(addresses(before), addr);
                    assert(addresses(after) =~= addresses(before).push(addr));
                    lemma_positions(numbers(after[before.len() as int].saved@));
                    assert(tidy(after));
                }
            },
        }
        proof {
            assert(self.sessions() =~= old(self).sessions().insert(addr, session_id));
            assert(self.responses() =~= if starts_anew(old(self).sessions(), addr, session_id) {
                without_client(old(self).responses(), addr)
            } else {
                old(self).responses()
            });
        }
    }
}

/// `responses` without those of the client at `addr`.
pub open spec fn without_client(
    responses: Map<(ClientAddress, u32), ResponseView>,
    addr: ClientAddress,
) -> Map<(ClientAddress, u32), ResponseView> {
    Map::new(
        |k: (ClientAddress, u32)| responses.contains_key(k) && k.0 != addr,
        |k: (ClientAddress, u32)| responses[k],
    )
}

/// Whether a handshake of the client at `addr` with `session_id` ends an
/// older session: the client has one, and it bears another identifier.
pub open spec fn starts_anew(
    sessions: Map<ClientAddress, u32>,
    addr: ClientAddress,
    session_id: u32,
) -> bool {
    sessions.contains_key(addr) && sessions[addr] != session_id
}

/// Where the response to request `req_no` is kept among `saved`.
fn find_saved(saved: &Vec<Saved>, req_no: u32) -> (r: Option<usize>)
    requires
        numbers(saved@).no_duplicates(),
    ensures
        match r {
            Some(j) => position(numbers(saved@), req_no) == Some(j as int) && j < saved@.len()
                && saved@[j as int].req_no == req_no,
            None => position(numbers(saved@), req_no) is None,
        },
{
    let mut i: usize = 0;
    while i < saved.len()
        invariant
            i <= saved@.len(),
            numbers(saved@).no_duplicates(),
            forall|m: int| 0 <= m < i ==> numbers(saved@)[m] != req_no,
        decreases saved@.len() - i,
    {
        if saved[i].req_no == req_no {
            proof {
                assert(numbers(saved@)[i as int] == req_no);
                lemma_position_at(numbers(saved@), i as int);
            }
            return Some(i);
        }
        i = i + 1;
    }
    proof {
        lemma_positions(numbers(saved@));
    }
    None
}

// ---------------------------------------------------------------------------
// Laws
// ---------------------------------------------------------------------------

/// The responses that are kept once the client at `addr` has begun the
/// session `session_id`.
pub open spec fn responses_after_handshake(
    sessions: Map<ClientAddress, u32>,
    responses: Map<(ClientAddress, u32), ResponseView>,
    addr: ClientAddress,
    session_id: u32,
) -> Map<(ClientAddress, u32), ResponseView> {
    if starts_anew(sessions, addr, session_id) {
        without_client(responses, addr)
    } else {
        responses
    }
}

/// After a handshake of a client and then another that bears another
/// identifier, no response is kept for the client, whatever its number.
pub proof fn lemma_new_session_forgets(
    sessions: Map<ClientAddress, u32>,
    responses: Map<(ClientAddress, u32), ResponseView>,
    addr: ClientAddress,
    first: u32,
    second: u32,
    req_no: u32,
)
    requires
        first != second,
    ensures
        !responses_after_handshake(
            sessions.insert(addr, first),
            responses_after_handshake(sessions, responses, addr, first),
            addr,
            second,
        ).contains_key((addr, req_no)),
{
}

/// A handshake that repeats the identifier of the session the client has
/// changes nothing: not the sessions, not the responses.
pub proof fn lemma_repeated_handshake_changes_nothing(
    sessions: Map<ClientAddress, u32>,
    responses: Map<(ClientAddress, u32), ResponseView>,
    addr: ClientAddress,
    session_id: u32,
)
    requires
        sessions.contains_key(addr),
        sessions[addr] == session_id,
    ensures
        sessions.insert(addr, session_id) == sessions,
        responses_after_handshake(sessions, responses, addr, session_id) == responses,
{
    assert(sessions.insert(addr, session_id) =~= sessions);
}

/// A response that was kept is found again, and is the one that was kept.
pub proof fn lemma_kept_response_is_found(
    responses: Map<(ClientAddress, u32), ResponseView>,
    addr: ClientAddress,
    req_no: u32,
    response: ResponseView,
)
    ensures
        responses.insert((addr, req_no), response).contains_key((addr, req_no)),
        responses.insert((addr, req_no), response)[(addr, req_no)] == response,
{
}

} // verus!
