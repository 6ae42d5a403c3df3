use vstd::prelude::*;

use crate::peer::Peer;

verus! {

/// The first frame on a new connection: the sender's public key, its
/// descriptor and its half of the key agreement.
#[derive(Clone, Debug, PartialEq, Eq)]
pub struct RemotePublic(pub Vec<u8>, pub Peer, pub Vec<u8>);

/// A `RemotePublic` as plain values.
pub struct RemotePublicView {
    pub key: Seq<u8>,
    pub peer: Peer,
    pub dh: Seq<u8>,
}

impl View for RemotePublic {
    type V = RemotePublicView;

    open spec fn view(&self) -> RemotePublicView {
        RemotePublicView { key: self.0@, peer: self.1, dh: self.2@ }
    }
}

/// What the node keeps of a session key. The secret itself stays with the
/// keystore, which finds it by `name`; here are the half of the key
/// agreement that goes out, whether the agreement is complete, and the
/// frame counters of both directions.
#[derive(Clone, Debug, PartialEq, Eq)]
pub struct SessionKey {
    name: u64,
    out: Vec<u8>,
    complete: bool,
    sent: u64,
    received: Option<u64>,
}

/// A `SessionKey` as plain values.
pub struct SessionKeyView {
    pub name: u64,
    pub out: Seq<u8>,
    pub complete: bool,
    /// The number of frames sent.
    pub sent: u64,
    /// The sequence number of the last frame accepted.
    pub received: Option<u64>,
}

impl View for SessionKey {
    type V = SessionKeyView;

    closed spec fn view(&self) -> SessionKeyView {
        SessionKeyView {
            name: self.name,
            out: self.out@,
            complete: self.complete,
            sent: self.sent,
            received: self.received,
        }
    }
}

/// Whether a key that has accepted frame `last` accepts frame `seq`.
pub open spec fn in_order(last: Option<u64>, seq: u64) -> bool {
    match last {
        Some(p) => p < seq,
        None => true,
    }
}

/// The last frame accepted after the frames `seqs` arrived in this order.
pub open spec fn last_accepted(complete: bool, last: Option<u64>, seqs: Seq<u64>) -> Option<u64>
    decreases seqs.len(),
{
    if seqs.len() == 0 {
        last
    } else {
        let before = last_accepted(complete, last, seqs.drop_last());
        if complete && in_order(before, seqs.last()) {
            Some(seqs.last())
        } else {
            before
        }
    }
}

/// Whether the frame that arrives after `seqs` is accepted.
pub open spec fn accepts_next(complete: bool, last: Option<u64>, seqs: Seq<u64>, seq: u64) -> bool {
    complete && in_order(last_accepted(complete, last, seqs), seq)
}

/// The frames that are accepted of `seqs`, in the order of arrival.
pub open spec fn accepted_of(complete: bool, last: Option<u64>, seqs: Seq<u64>) -> Seq<u64>
    decreases seqs.len(),
{
    if seqs.len() == 0 {
        Seq::empty()
    } else {
        let before = accepted_of(complete, last, seqs.drop_last());
        if accepts_next(complete, last, seqs.drop_last(), seqs.last()) {
            before.push(seqs.last())
        } else {
            before
        }
    }
}

impl SessionKey {
    /// A half-open key: the agreement has gone out and is not answered.
    pub fn half_open(name: u64, out: Vec<u8>) -> (key: SessionKey)
        ensures
            key@ == (SessionKeyView { name, out: out@, complete: false, sent: 0, received: None }),
    {
        SessionKey { name, out, complete: false, sent: 0, received: None }
    }

    /// A key whose agreement the keystore completed on the spot, as the
    /// accepting side does.
    pub fn completed(name: u64, out: Vec<u8>) -> (key: SessionKey)
        ensures
            key@ == (SessionKeyView { name, out: out@, complete: true, sent: 0, received: None }),
    {
        SessionKey { name, out, complete: true, sent: 0, received: None }
    }

    /// The name under which the keystore keeps the secret.
    pub fn name(&self) -> (name: u64)
        ensures
            name == self@.name,
    {
        self.name
    }

    /// The half of the key agreement that goes to the peer.
    pub fn out_bytes(&self) -> (out: Vec<u8>)
        ensures
            out@ == self@.out,
    {
        crate::message::copy_bytes(&self.out)
    }

    /// Whether the key agreement is complete.
    pub fn is_complete(&self) -> (complete: bool)
        ensures
            complete == self@.complete,
    {
        self.complete
    }

    /// Records the keystore's verdict on the peer's half of the agreement.
    /// A key that was refused stays half-open for good.
    pub fn complete(&mut self, verified: bool) -> (complete: bool)
        ensures
            complete == (old(self)@.complete || verified),
            final(self)@ == (SessionKeyView { complete, ..old(self)@ }),
    {
        if verified {
            self.complete = true;
        }
        self.complete
    }

    /// The sequence number for the next frame to send: one more than the
    /// last. `None` for a half-open key and when the numbers are used up.
    pub fn next_sequence(&mut self) -> (seq: Option<u64>)
        ensures
            old(self)@.complete && old(self)@.sent < u64::MAX ==> seq == Some(
                (old(self)@.sent + 1) as u64,
            ) && final(self)@ == (SessionKeyView {
                sent: (old(self)@.sent + 1) as u64,
                ..old(self)@
            }),
            !(old(self)@.complete && old(self)@.sent < u64::MAX) ==> seq is None && final(self)@
                == old(self)@,
    {
        if self.complete && self.sent < u64::MAX {
            self.sent = self.sent + 1;
            Some(self.sent)
        } else {
            None
        }
    }

    /// Decides on a frame that was decrypted with sequence number `seq`:
    /// it is accepted only by a complete key and only if `seq` is above
    /// the last accepted one.
    pub fn accept(&mut self, seq: u64) -> (accepted: bool)
        ensures
            accepted == (old(self)@.complete && in_order(old(self)@.received, seq)),
            accepted ==> final(self)@ == (SessionKeyView { received: Some(seq), ..old(self)@ }),
            !accepted ==> final(self)@ == old(self)@,
    {
        let fresh = match self.received {
            Some(p) => p < seq,
            None => true,
        };
        if self.complete && fresh {
            self.received = Some(seq);
            true
        } else {
            false
        }
    }
}

/// The accepted frames always have rising sequence numbers, the last of
/// them is the last one accepted, and a half-open key accepts none.
pub proof fn lemma_accepted_rising(complete: bool, seqs: Seq<u64>)
    ensures
        forall|i: int, j: int|
            0 <= i < j < accepted_of(complete, None, seqs).len() ==> accepted_of(
                complete,
                None,
                seqs,
            )[i] < accepted_of(complete, None, seqs)[j],
        accepted_of(complete, None, seqs).len() > 0 ==> last_accepted(complete, None, seqs)
            == Some(accepted_of(complete, None, seqs).last()),
        accepted_of(complete, None, seqs).len() == 0 ==> last_accepted(complete, None, seqs)
            is None,
        !complete ==> accepted_of(complete, None, seqs).len() == 0,
    decreases seqs.len(),
{
    if seqs.len() > 0 {
        lemma_accepted_rising(complete, seqs.drop_last());
    }
}

} // verus!
