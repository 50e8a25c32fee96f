//! The echo packet builder: one in-flight ICMP echo probe and the
//! exact bytes of the request datagram it emits.

use vstd::prelude::*;
use crate::addr::Address;

verus! {

/// The ICMPv4 echo-request type value.
pub const ECHO_REQUEST_V4: u8 = 8;

/// The ICMPv6 echo-request type value.
pub const ECHO_REQUEST_V6: u8 = 128;

/// One in-flight ICMP echo probe: an identifier and sequence pair for
/// a resolved target, and whether a matching reply has been seen.
pub struct ICMP {
    id: u16,
    address: Address,
    sequence: u16,
    pub seen: bool,
}

/// Relies on rand::random: draws a value from the thread-local
/// generator; nothing is promised of the value drawn.
#[verifier::external_body]
fn random_u16() -> u16 {
    rand::random::<u16>()
}

/// The 16-bit internet checksum that pnet::util::checksum computes
/// over `data`, skipping the 16-bit word at index `skipword`: a
/// function of the bytes and the skipped index alone.
pub uninterp spec fn inet_checksum(data: Seq<u8>, skipword: int) -> u16;

/// Relies on pnet::util::checksum: the ones-complement checksum used
/// by ICMP, computed from the bytes and the skipped word alone. The
/// bound on the buffer, ample for any IP datagram, keeps the word
/// summation inside `u32` in builds that check overflow.
#[verifier::external_body]
fn checksum_of(data: &Vec<u8>, skipword: usize) -> (r: u16)
    requires
        data@.len() <= 65536,
    ensures
        r == inet_checksum(data@, skipword as int),
{
    pnet::util::checksum(data.as_slice(), skipword)
}

/// The 64 echo-request bytes before the checksum is placed: the type
/// in byte 0, the identifier in bytes 4 and 5 and the sequence number
/// in bytes 6 and 7, both big-endian, zeros elsewhere.
pub open spec fn echo_bytes(ty: u8, id: u16, seq: u16) -> Seq<u8> {
    Seq::new(
        64,
        |i: int|
            if i == 0 {
                ty
            } else if i == 4 {
                (id / 256) as u8
            } else if i == 5 {
                (id % 256) as u8
            } else if i == 6 {
                (seq / 256) as u8
            } else if i == 7 {
                (seq % 256) as u8
            } else {
                0u8
            },
    )
}

/// The finished echo-request bytes: `echo_bytes` with its checksum,
/// skipping word 1, placed big-endian in bytes 2 and 3.
pub open spec fn request_bytes(ty: u8, id: u16, seq: u16) -> Seq<u8> {
    let pre = echo_bytes(ty, id, seq);
    let ck = inet_checksum(pre, 1);
    pre.update(2, (ck / 256) as u8).update(3, (ck % 256) as u8)
}

/// Fills in the identifier, sequence number and checksum of an
/// echo-request buffer of type `ty`.
fn build_request(ty: u8, id: u16, seq: u16) -> (r: Vec<u8>)
    ensures
        r@ == request_bytes(ty, id, seq),
{
    let mut buf: Vec<u8> = Vec::new();
    let mut i: usize = 0;
    while i < 64
        invariant
            i <= 64,
            buf@ == Seq::<u8>::new(i as nat, |j: int| 0u8),
        decreases 64 - i,
    {
        buf.push(0);
        i = i + 1;
        proof {
            assert(buf@ =~= Seq::<u8>::new(i as nat, |j: int| 0u8));
        }
    }
    buf[0] = ty;
    buf[4] = (id / 256) as u8;
    buf[5] = (id % 256) as u8;
    buf[6] = (seq / 256) as u8;
    buf[7] = (seq % 256) as u8;
    proof {
        assert(buf@ =~= echo_bytes(ty, id, seq));
    }
    let ck = checksum_of(&buf, 1);
    buf[2] = (ck / 256) as u8;
    buf[3] = (ck % 256) as u8;
    proof {
        assert(buf@ =~= request_bytes(ty, id, seq));
    }
    buf
}

impl ICMP {
    /// The probe's identifier.
    pub closed spec fn spec_id(&self) -> u16 {
        self.id
    }

    /// The probe's target address.
    pub closed spec fn spec_address(&self) -> Address {
        self.address
    }

    /// The probe's current sequence number.
    pub closed spec fn spec_sequence(&self) -> u16 {
        self.sequence
    }

    /// Whether a matching reply has been seen.
    pub closed spec fn spec_seen(&self) -> bool {
        self.seen
    }

    /// Makes a fresh probe for `address`: sequence number zero, reply
    /// not yet seen, and an identifier drawn at random for an IPv4
    /// target and fixed at zero for an IPv6 one.
    pub fn new(address: Address) -> (r: ICMP)
        ensures
            r.spec_address() == address,
            r.spec_sequence() == 0,
            r.spec_seen() == false,
            address is V6 ==> r.spec_id() == 0,
    {
        let mut id: u16 = 0;
        if address.is_v4() {
            id = random_u16();
        }
        ICMP { id, address, sequence: 0, seen: false }
    }

    /// The identifier this probe stamps into IPv4 requests.
    pub fn get_id(&mut self) -> (r: u16)
        ensures
            *final(self) == *old(self),
            r == old(self).spec_id(),
    {
        self.id
    }

    /// The address this probe targets.
    pub fn get_address(&mut self) -> (r: Address)
        ensures
            *final(self) == *old(self),
            r == old(self).spec_address(),
    {
        self.address
    }

    /// The sequence number most recently used, zero before any send.
    pub fn get_sequence(&mut self) -> (r: u16)
        ensures
            *final(self) == *old(self),
            r == old(self).spec_sequence(),
    {
        self.sequence
    }

    /// Advances the sequence number by exactly one and returns it.
    pub fn next(&mut self) -> (r: u16)
        requires
            old(self).spec_sequence() < 0xFFFF,
        ensures
            final(self).spec_sequence() == old(self).spec_sequence() + 1,
            r == final(self).spec_sequence(),
            final(self).spec_id() == old(self).spec_id(),
            final(self).spec_address() == old(self).spec_address(),
            final(self).spec_seen() == old(self).spec_seen(),
    {
        self.sequence = self.sequence + 1;
        self.sequence
    }

    /// Builds the IPv4 echo-request datagram for this probe, advancing
    /// the sequence number first, as one transmission does.
    pub fn build_v4(&mut self) -> (r: Vec<u8>)
        requires
            old(self).spec_sequence() < 0xFFFF,
        ensures
            final(self).spec_sequence() == old(self).spec_sequence() + 1,
            final(self).spec_id() == old(self).spec_id(),
            final(self).spec_address() == old(self).spec_address(),
            final(self).spec_seen() == old(self).spec_seen(),
            r@ == request_bytes(ECHO_REQUEST_V4, old(self).spec_id(), (old(self).spec_sequence()
                + 1) as u16),
    {
        let seq_no = self.next();
        build_request(ECHO_REQUEST_V4, self.id, seq_no)
    }

    /// Builds the IPv6 echo-request datagram for this probe. The
    /// identifier and sequence fields stay zero on this path; the
    /// sequence counter is not advanced.
    pub fn build_v6(&mut self) -> (r: Vec<u8>)
        ensures
            *final(self) == *old(self),
            r@ == request_bytes(ECHO_REQUEST_V6, 0, 0),
    {
        build_request(ECHO_REQUEST_V6, 0, 0)
    }
}

/// The sequence-number law: a probe carries sequence number zero at
/// construction, and its first advance, the only one a ping performs,
/// carries exactly one.
pub proof fn lemma_first_advance(fresh: ICMP, advanced: ICMP)
    requires
        fresh.spec_sequence() == 0,
        advanced.spec_sequence() == fresh.spec_sequence() + 1,
    ensures
        advanced.spec_sequence() == 1,
{
}

} // verus!
