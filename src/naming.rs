use vstd::prelude::*;
use vstd::bytes::{lemma_auto_spec_u64_to_from_le_bytes, spec_u64_to_le_bytes, u64_to_le_bytes};
use vstd::utf8::{encode_utf8, encode_utf8_decode_utf8};

verus! {

/// The SHA-256 digest of a byte sequence.
pub uninterp spec fn sha256_of(data: Seq<u8>) -> Seq<u8>;

/// Relies on sha2's `Sha256` (through `Digest::digest`): the SHA-256 digest of
/// `data`, which is always 32 bytes long.
#[verifier::external_body]
fn sha256(data: &[u8]) -> (r: Vec<u8>)
    ensures
        r@ == sha256_of(data@),
        r@.len() == 32,
{
    <sha2::Sha256 as sha2::Digest>::digest(data).to_vec()
}

/// Content-addressed identifier of a peer on the overlay network.
#[derive(Debug)]
pub struct PeerName {
    pub bytes: Vec<u8>,
}

impl View for PeerName {
    type V = Seq<u8>;

    open spec fn view(&self) -> Seq<u8> {
        self.bytes@
    }
}

/// The ASCII lower-case hexadecimal digit of a value below sixteen.
pub open spec fn hex_digit(v: u8) -> u8 {
    if v < 10 {
        (48 + v) as u8
    } else {
        (87 + v) as u8
    }
}

/// The bytes written as lower-case hexadecimal, two digits each, high digit
/// first.
pub open spec fn hex_of(bytes: Seq<u8>) -> Seq<u8>
    decreases bytes.len(),
{
    if bytes.len() == 0 {
        Seq::empty()
    } else {
        hex_of(bytes.drop_last()) + seq![hex_digit(bytes.last() / 16), hex_digit(bytes.last() % 16)]
    }
}

fn hex_digit_exec(v: u8) -> (r: u8)
    requires
        v < 16,
    ensures
        r == hex_digit(v),
{
    if v < 10 {
        48 + v
    } else {
        87 + v
    }
}

impl PeerName {
    /// The name as the transport takes it: its bytes in lower-case
    /// hexadecimal, as ASCII.
    pub fn to_hex(&self) -> (r: Vec<u8>)
        ensures
            r@ == hex_of(self@),
    {
        let mut out: Vec<u8> = Vec::new();
        let mut i: usize = 0;
        while i < self.bytes.len()
            invariant
                i <= self.bytes@.len(),
                out@ == hex_of(self.bytes@.subrange(0, i as int)),
            decreases self.bytes@.len() - i,
        {
            let b = self.bytes[i];
            out.push(hex_digit_exec(b / 16));
            out.push(hex_digit_exec(b % 16));
            proof {
                assert(self.bytes@.subrange(0, i + 1).drop_last() =~= self.bytes@.subrange(0, i as int));
            }
            i = i + 1;
        }
        proof {
            assert(self.bytes@.subrange(0, self.bytes@.len() as int) =~= self.bytes@);
        }
        out
    }

    /// A copy of the name.
    pub fn clone_name(&self) -> (r: PeerName)
        ensures
            r@ == self@,
    {
        let mut bytes: Vec<u8> = Vec::new();
        append_bytes(&mut bytes, self.bytes.as_slice());
        PeerName { bytes }
    }
}

/// Version of the layout that peer names are hashed from. Peers agree on a
/// name only when they use the same layout.
pub const PEER_NAME_FORMAT: u8 = 1;

/// A byte string preceded by its length, as eight little-endian bytes.
pub open spec fn length_prefixed(bytes: Seq<u8>) -> Seq<u8> {
    spec_u64_to_le_bytes(bytes.len() as u64) + bytes
}

/// The bytes a topic's peer name is hashed from: the layout version, the
/// length-prefixed UTF-8 topic name, the length-prefixed UTF-8 topic type,
/// then the certificate.
pub open spec fn name_preimage(topic_name: Seq<char>, topic_type: Seq<char>, certificate: Seq<u8>) -> Seq<u8> {
    seq![PEER_NAME_FORMAT] + length_prefixed(encode_utf8(topic_name)) + length_prefixed(encode_utf8(topic_type))
        + certificate
}

/// The peer name of a topic identity.
pub open spec fn peer_name_of(topic_name: Seq<char>, topic_type: Seq<char>, certificate: Seq<u8>) -> Seq<u8> {
    sha256_of(name_preimage(topic_name, topic_type, certificate))
}

pub(crate) fn append_bytes(out: &mut Vec<u8>, data: &[u8])
    ensures
        final(out)@ == old(out)@ + data@,
{
    let mut i: usize = 0;
    while i < data.len()
        invariant
            i <= data@.len(),
            out@ == old(out)@ + data@.subrange(0, i as int),
        decreases data@.len() - i,
    {
        out.push(data[i]);
        i = i + 1;
        assert(data@.subrange(0, i as int) == data@.subrange(0, i - 1) + seq![data@[i - 1]]);
    }
    assert(data@.subrange(0, data@.len() as int) == data@);
}

/// Derives the peer name of a topic from its name, its type and the
/// certificate of this host. Equal inputs give equal names on every host.
pub fn derive_peer_name(topic_name: &str, topic_type: &str, certificate: &[u8]) -> (r: PeerName)
    ensures
        r@ == peer_name_of(topic_name@, topic_type@, certificate@),
        r@.len() == 32,
{
    let name_bytes = topic_name.as_bytes();
    let type_bytes = topic_type.as_bytes();
    let mut preimage: Vec<u8> = Vec::new();
    preimage.push(PEER_NAME_FORMAT);
    append_bytes(&mut preimage, u64_to_le_bytes(name_bytes.len() as u64).as_slice());
    append_bytes(&mut preimage, name_bytes);
    append_bytes(&mut preimage, u64_to_le_bytes(type_bytes.len() as u64).as_slice());
    append_bytes(&mut preimage, type_bytes);
    append_bytes(&mut preimage, certificate);
    proof {
        assert(preimage@ =~= name_preimage(topic_name@, topic_type@, certificate@));
    }
    PeerName { bytes: sha256(preimage.as_slice()) }
}

/// Deriving a peer name is a function of the topic identity: two derivations
/// from the same name, type and certificate give the same peer name.
pub proof fn lemma_peer_name_deterministic(
    name1: Seq<char>, type1: Seq<char>, cert1: Seq<u8>,
    name2: Seq<char>, type2: Seq<char>, cert2: Seq<u8>,
)
    requires
        name1 == name2,
        type1 == type2,
        cert1 == cert2,
    ensures
        peer_name_of(name1, type1, cert1) == peer_name_of(name2, type2, cert2),
{
}

/// The layout is unambiguous: equal preimages come from equal topic names,
/// equal topic types and equal certificates. Distinct topic identities
/// therefore hash distinct inputs, and share a peer name only through a
/// collision of SHA-256 itself.
pub proof fn lemma_preimage_injective(
    name1: Seq<char>, type1: Seq<char>, cert1: Seq<u8>,
    name2: Seq<char>, type2: Seq<char>, cert2: Seq<u8>,
)
    requires
        encode_utf8(name1).len() <= u64::MAX,
        encode_utf8(type1).len() <= u64::MAX,
        encode_utf8(name2).len() <= u64::MAX,
        encode_utf8(type2).len() <= u64::MAX,
        name_preimage(name1, type1, cert1) == name_preimage(name2, type2, cert2),
    ensures
        name1 == name2,
        type1 == type2,
        cert1 == cert2,
{
    lemma_auto_spec_u64_to_from_le_bytes();
    let p = name_preimage(name1, type1, cert1);
    let (n1, n2) = (encode_utf8(name1), encode_utf8(name2));
    let (t1, t2) = (encode_utf8(type1), encode_utf8(type2));
    let (ln1, ln2) = (spec_u64_to_le_bytes(n1.len() as u64), spec_u64_to_le_bytes(n2.len() as u64));
    let (lt1, lt2) = (spec_u64_to_le_bytes(t1.len() as u64), spec_u64_to_le_bytes(t2.len() as u64));
    assert(ln1.len() == 8 && ln2.len() == 8 && lt1.len() == 8 && lt2.len() == 8);
    assert(p.subrange(1, 9) =~= ln1);
    assert(name_preimage(name2, type2, cert2).subrange(1, 9) =~= ln2);
    assert(n1.len() == n2.len());
    let a: int = 9 + n1.len() as int;
    assert(p.subrange(9, a) =~= n1);
    assert(name_preimage(name2, type2, cert2).subrange(9, a) =~= n2);
    encode_utf8_decode_utf8(name1);
    encode_utf8_decode_utf8(name2);
    assert(p.subrange(a, a + 8) =~= lt1);
    assert(name_preimage(name2, type2, cert2).subrange(a, a + 8) =~= lt2);
    assert(t1.len() == t2.len());
    let b: int = a + 8 + t1.len() as int;
    assert(p.subrange(a + 8, b) =~= t1);
    assert(name_preimage(name2, type2, cert2).subrange(a + 8, b) =~= t2);
    encode_utf8_decode_utf8(type1);
    encode_utf8_decode_utf8(type2);
    assert(p.subrange(b, p.len() as int) =~= cert1);
    assert(name_preimage(name2, type2, cert2).subrange(b, p.len() as int) =~= cert2);
}

} // verus!
