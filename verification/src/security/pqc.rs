//! Post-quantum secure channel: the parts of the protocol that decide.
//!
//! The channel authenticates both ends with ML-DSA-65 signatures checked
//! against verifying keys pinned at pairing, agrees a key with hybrid
//! ML-KEM-768 + X25519, and protects records with XChaCha20-Poly1305. The
//! cryptography runs elsewhere; this module holds what the protocol decides
//! around it: pin checks, the direction of each record key, the key-derivation
//! input, the record sequence numbers bound into every record as associated
//! data, and the encodings of pairing material.
use vstd::prelude::*;
use vstd::string::*;
use crate::text::{push_char, trim, trim_end_spec, trim_start_spec};

verus! {

/// Length in bytes of an ML-DSA-65 verifying key.
pub const VERIFYING_KEY_LEN: usize = 1952;

/// Iterations used to stretch the out-of-band pairing secret into the key that
/// wraps the verifying keys exchanged at pairing.
pub const PAIRING_STRETCH_ITERS: u64 = 200_000;

/// Domain label of the client-to-server record key.
pub const LABEL_C2S: &'static str = "simple-network/pqc/key/client-to-server/v1";

/// Domain label of the server-to-client record key.
pub const LABEL_S2C: &'static str = "simple-network/pqc/key/server-to-client/v1";

/// Why a step of the secure channel was refused.
#[derive(Debug, Clone, Copy, PartialEq, Eq, Structural)]
pub enum PqcError {
    /// The peer presented a verifying key other than the pinned one.
    PinMismatch,
    /// The send sequence number cannot advance any further.
    SendExhausted,
    /// The receive sequence number cannot advance any further.
    RecvExhausted,
    /// The key received at pairing is not an ML-DSA-65 verifying key.
    PeerKeySize,
}

/// The text of a refusal.
pub open spec fn pqc_error_text(e: PqcError) -> Seq<char> {
    match e {
        PqcError::PinMismatch => "peer identity does not match pinned key"@,
        PqcError::SendExhausted => "send sequence exhausted; rekey required"@,
        PqcError::RecvExhausted => "recv sequence exhausted; rekey required"@,
        PqcError::PeerKeySize => "paired peer key has unexpected size"@,
    }
}

impl PqcError {
    /// The refusal as text.
    pub fn to_string(&self) -> (s: String)
        ensures
            s@ == pqc_error_text(*self),
    {
        match self {
            PqcError::PinMismatch => "peer identity does not match pinned key".to_owned(),
            PqcError::SendExhausted => "send sequence exhausted; rekey required".to_owned(),
            PqcError::RecvExhausted => "recv sequence exhausted; rekey required".to_owned(),
            PqcError::PeerKeySize => "paired peer key has unexpected size".to_owned(),
        }
    }
}

/// Which end of the handshake a session belongs to.
#[derive(Debug, Clone, Copy, PartialEq, Eq, Structural)]
pub enum Role {
    Initiator,
    Responder,
}

/// The lowercase hexadecimal digit of `n` (below 16).
pub open spec fn hex_digit(n: u8) -> char {
    if n < 10 {
        ((n + 48) as u32) as char
    } else {
        ((n + 87) as u32) as char
    }
}

/// Lowercase hexadecimal of `b`, two digits per byte, high digit first.
pub open spec fn hex_spec(b: Seq<u8>) -> Seq<char>
    decreases b.len(),
{
    if b.len() == 0 {
        Seq::empty()
    } else {
        hex_spec(b.drop_last()).push(hex_digit(b.last() / 16)).push(hex_digit(b.last() % 16))
    }
}

/// The hexadecimal digit of a nibble.
fn hex_digit_char(n: u8) -> (c: char)
    requires
        n < 16,
    ensures
        c == hex_digit(n),
{
    if n < 10 {
        (48u8 + n) as char
    } else {
        (87u8 + n) as char
    }
}

/// Lowercase hexadecimal of `b` (the form pairing secrets are shown in).
pub fn to_hex(b: &[u8]) -> (s: String)
    ensures
        s@ == hex_spec(b@),
{
    let mut s = String::new();
    let mut i: usize = 0;
    while i < b.len()
        invariant
            i <= b@.len(),
            s@ == hex_spec(b@.take(i as int)),
        decreases b@.len() - i,
    {
        let x = b[i];
        push_char(&mut s, hex_digit_char(x / 16));
        push_char(&mut s, hex_digit_char(x % 16));
        proof {
            let t = b@.take(i + 1);
            assert(t.drop_last() =~= b@.take(i as int));
            assert(t.last() == x);
        }
        i = i + 1;
    }
    proof {
        assert(b@.take(b@.len() as int) =~= b@);
    }
    s
}

/// Accepts the peer only when it presents exactly the pinned verifying key.
pub fn check_pin(presented: &[u8], pinned: &[u8]) -> (r: Result<(), PqcError>)
    ensures
        r is Ok <==> presented@ == pinned@,
        r is Err ==> r == Err::<(), PqcError>(PqcError::PinMismatch),
{
    if presented.len() != pinned.len() {
        return Err(PqcError::PinMismatch);
    }
    let mut i: usize = 0;
    while i < presented.len()
        invariant
            i <= presented@.len(),
            presented@.len() == pinned@.len(),
            forall|j: int| 0 <= j < i ==> presented@[j] == pinned@[j],
        decreases presented@.len() - i,
    {
        if presented[i] != pinned[i] {
            return Err(PqcError::PinMismatch);
        }
        i = i + 1;
    }
    proof {
        assert(presented@ =~= pinned@);
    }
    Ok(())
}

/// Accepts a key received at pairing only when it has the size of an ML-DSA-65 verifying key.
pub fn check_peer_key(peer: &[u8]) -> (r: Result<(), PqcError>)
    ensures
        r is Ok <==> peer@.len() == VERIFYING_KEY_LEN,
        r is Err ==> r == Err::<(), PqcError>(PqcError::PeerKeySize),
{
    if peer.len() != VERIFYING_KEY_LEN {
        return Err(PqcError::PeerKeySize);
    }
    Ok(())
}

/// The labels of the key a role sends with and the key it receives with:
/// the initiator sends client-to-server and receives server-to-client, the
/// responder the other way round.
pub open spec fn direction_labels_spec(role: Role) -> (Seq<char>, Seq<char>) {
    match role {
        Role::Initiator => (LABEL_C2S@, LABEL_S2C@),
        Role::Responder => (LABEL_S2C@, LABEL_C2S@),
    }
}

/// The (send, receive) key labels of `role`.
pub fn direction_labels(role: Role) -> (r: (&'static str, &'static str))
    ensures
        (r.0@, r.1@) == direction_labels_spec(role),
{
    match role {
        Role::Initiator => (LABEL_C2S, LABEL_S2C),
        Role::Responder => (LABEL_S2C, LABEL_C2S),
    }
}

/// The input the record key of one direction is derived from: the KEM
/// shared secret, then the direction's label.
pub fn key_input(raw: &[u8], label: &str) -> (input: Vec<u8>)
    ensures
        input@ == raw@ + label.spec_bytes(),
{
    let l = label.as_bytes();
    let mut input: Vec<u8> = Vec::new();
    let mut i: usize = 0;
    while i < raw.len()
        invariant
            i <= raw@.len(),
            input@ == raw@.take(i as int),
        decreases raw@.len() - i,
    {
        input.push(raw[i]);
        proof {
            assert(raw@.take(i + 1) =~= raw@.take(i as int).push(raw@[i as int]));
        }
        i = i + 1;
    }
    proof {
        assert(raw@.take(raw@.len() as int) =~= raw@);
    }
    let mut j: usize = 0;
    while j < l.len()
        invariant
            j <= l@.len(),
            input@ == raw@ + l@.take(j as int),
        decreases l@.len() - j,
    {
        input.push(l[j]);
        proof {
            assert(l@.take(j + 1) =~= l@.take(j as int).push(l@[j as int]));
        }
        j = j + 1;
    }
    proof {
        assert(l@.take(l@.len() as int) =~= l@);
    }
    input
}

/// The 8 little-endian bytes of `n`.
pub open spec fn le_bytes_spec(n: u64) -> Seq<u8> {
    seq![
        (n & 0xff) as u8,
        ((n >> 8) & 0xff) as u8,
        ((n >> 16) & 0xff) as u8,
        ((n >> 24) & 0xff) as u8,
        ((n >> 32) & 0xff) as u8,
        ((n >> 40) & 0xff) as u8,
        ((n >> 48) & 0xff) as u8,
        ((n >> 56) & 0xff) as u8,
    ]
}

/// The 8 little-endian bytes of `n` (`u64::to_le_bytes`).
pub fn le_bytes(n: u64) -> (b: [u8; 8])
    ensures
        b@ == le_bytes_spec(n),
{
    let b = [
        (n & 0xff) as u8,
        ((n >> 8) & 0xff) as u8,
        ((n >> 16) & 0xff) as u8,
        ((n >> 24) & 0xff) as u8,
        ((n >> 32) & 0xff) as u8,
        ((n >> 40) & 0xff) as u8,
        ((n >> 48) & 0xff) as u8,
        ((n >> 56) & 0xff) as u8,
    ];
    assert(b@ =~= le_bytes_spec(n));
    b
}

/// The record sequence numbers of a session, one per direction. Each record
/// is sealed or opened with its direction's number as associated data, and
/// the number then advances, so a replayed or reordered record fails to open.
pub struct RecordSequence {
    pub send_seq: u64,
    pub recv_seq: u64,
}

impl RecordSequence {
    /// A fresh session: both directions at 0.
    pub fn new() -> (s: Self)
        ensures
            s.send_seq == 0,
            s.recv_seq == 0,
    {
        RecordSequence { send_seq: 0, recv_seq: 0 }
    }

    /// Associated data of the next record sent.
    pub fn send_aad(&self) -> (aad: [u8; 8])
        ensures
            aad@ == le_bytes_spec(self.send_seq),
    {
        le_bytes(self.send_seq)
    }

    /// Associated data of the next record received.
    pub fn recv_aad(&self) -> (aad: [u8; 8])
        ensures
            aad@ == le_bytes_spec(self.recv_seq),
    {
        le_bytes(self.recv_seq)
    }

    /// Moves past a sealed record; refused once the number cannot grow.
    pub fn advance_send(&mut self) -> (r: Result<(), PqcError>)
        ensures
            final(self).recv_seq == old(self).recv_seq,
            old(self).send_seq < u64::MAX ==> r is Ok && final(self).send_seq == old(self).send_seq + 1,
            old(self).send_seq == u64::MAX ==> r == Err::<(), PqcError>(PqcError::SendExhausted)
                && final(self).send_seq == old(self).send_seq,
    {
        match self.send_seq.checked_add(1) {
            Some(n) => {
                self.send_seq = n;
                Ok(())
            },
            None => Err(PqcError::SendExhausted),
        }
    }

    /// Moves past an opened record; refused once the number cannot grow.
    pub fn advance_recv(&mut self) -> (r: Result<(), PqcError>)
        ensures
            final(self).send_seq == old(self).send_seq,
            old(self).recv_seq < u64::MAX ==> r is Ok && final(self).recv_seq == old(self).recv_seq + 1,
            old(self).recv_seq == u64::MAX ==> r == Err::<(), PqcError>(PqcError::RecvExhausted)
                && final(self).recv_seq == old(self).recv_seq,
    {
        match self.recv_seq.checked_add(1) {
            Some(n) => {
                self.recv_seq = n;
                Ok(())
            },
            None => Err(PqcError::RecvExhausted),
        }
    }
}

/// The pairing code as used for key stretching: the secret without
/// surrounding white space.
pub fn pairing_code(secret: &str) -> (code: &str)
    ensures
        code@ == trim_start_spec(trim_end_spec(secret@)),
{
    trim(secret)
}

/// Channel law: the key one side sends with is the key the other side
/// receives with, and no side receives with its own sending key, so a record
/// cannot be reflected back to its sender.
pub proof fn law_directions_pair_up()
    ensures
        direction_labels_spec(Role::Initiator).0 == direction_labels_spec(Role::Responder).1,
        direction_labels_spec(Role::Responder).0 == direction_labels_spec(Role::Initiator).1,
        direction_labels_spec(Role::Initiator).0 != direction_labels_spec(Role::Initiator).1,
        direction_labels_spec(Role::Responder).0 != direction_labels_spec(Role::Responder).1,
{
    reveal_strlit("simple-network/pqc/key/client-to-server/v1");
    reveal_strlit("simple-network/pqc/key/server-to-client/v1");
    assert(LABEL_C2S@[23] != LABEL_S2C@[23]);
}

/// Channel law: different sequence numbers give different associated data,
/// so a record sealed under one number never opens under another.
pub proof fn law_sequence_aad_injective(a: u64, b: u64)
    requires
        a != b,
    ensures
        le_bytes_spec(a) != le_bytes_spec(b),
{
    if le_bytes_spec(a) == le_bytes_spec(b) {
        assert(le_bytes_spec(a)[0] == le_bytes_spec(b)[0]);
        assert(le_bytes_spec(a)[1] == le_bytes_spec(b)[1]);
        assert(le_bytes_spec(a)[2] == le_bytes_spec(b)[2]);
        assert(le_bytes_spec(a)[3] == le_bytes_spec(b)[3]);
        assert(le_bytes_spec(a)[4] == le_bytes_spec(b)[4]);
        assert(le_bytes_spec(a)[5] == le_bytes_spec(b)[5]);
        assert(le_bytes_spec(a)[6] == le_bytes_spec(b)[6]);
        assert(le_bytes_spec(a)[7] == le_bytes_spec(b)[7]);
        assert(a == b) by (bit_vector)
            requires
                (a & 0xff) as u8 == (b & 0xff) as u8,
                ((a >> 8) & 0xff) as u8 == ((b >> 8) & 0xff) as u8,
                ((a >> 16) & 0xff) as u8 == ((b >> 16) & 0xff) as u8,
                ((a >> 24) & 0xff) as u8 == ((b >> 24) & 0xff) as u8,
                ((a >> 32) & 0xff) as u8 == ((b >> 32) & 0xff) as u8,
                ((a >> 40) & 0xff) as u8 == ((b >> 40) & 0xff) as u8,
                ((a >> 48) & 0xff) as u8 == ((b >> 48) & 0xff) as u8,
                ((a >> 56) & 0xff) as u8 == ((b >> 56) & 0xff) as u8,
        ;
    }
}

} // verus!
