//! Packets of the line protocol between two players: a key, a colon and a
//! value, closed by a semicolon.
use vstd::prelude::*;

verus! {

/// The byte that ends the key of a packet.
pub const COLON: u8 = 58;

/// The byte that closes a packet.
pub const SEMICOLON: u8 = 59;

/// Something went wrong, so that the connection should be dropped.
#[derive(Debug, Clone, Copy, PartialEq, Eq, Structural)]
pub struct NetworkError;

/// The bytes of all the parts, one part after the other.
pub open spec fn joined(parts: Seq<Seq<u8>>) -> Seq<u8>
    decreases parts.len(),
{
    if parts.len() == 0 {
        Seq::empty()
    } else {
        joined(parts.drop_last()) + parts.last()
    }
}

/// A whole packet: some bytes without a semicolon, then one semicolon.
pub open spec fn is_packet(bytes: Seq<u8>) -> bool {
    &&& bytes.len() > 0
    &&& bytes.last() == SEMICOLON
    &&& !bytes.drop_last().contains(SEMICOLON)
}

/// The bytes that the vectors hold.
pub open spec fn contents(parts: Seq<Vec<u8>>) -> Seq<Seq<u8>> {
    Seq::new(parts.len(), |i: int| parts[i]@)
}

/// Divides a packet at its first colon into the key before the colon and
/// the value, which starts with the colon. A packet without a colon is an
/// error.
pub fn split_packet(packet: &[u8]) -> (r: Result<(&[u8], &[u8]), NetworkError>)
    ensures
        match r {
            Ok((key, value)) => {
                &&& key@ + value@ == packet@
                &&& !key@.contains(COLON)
                &&& value@.len() > 0
                &&& value@[0] == COLON
            },
            Err(_) => !packet@.contains(COLON),
        },
{
    let mut i: usize = 0;
    while i < packet.len()
        invariant
            i <= packet.len(),
            forall|j: int| 0 <= j < i ==> packet@[j] != COLON,
        decreases packet.len() - i,
    {
        if packet[i] == COLON {
            let (key, value) = packet.split_at(i);
            proof {
                assert(key@ + value@ =~= packet@);
                assert forall|j: int| 0 <= j < key@.len() implies key@[j] != COLON by {
                    assert(key@[j] == packet@[j]);
                }
                assert(value@[0] == packet@[i as int]);
            }
            return Ok((key, value));
        }
        i += 1;
    }
    Err(NetworkError)
}

/// Divides what was read into the whole packets that it holds, in order,
/// and what is left after the last of them: the beginning of a packet that
/// has not been closed yet.
pub fn split_packets(data: &[u8]) -> (r: (Vec<Vec<u8>>, Vec<u8>))
    ensures
        joined(contents(r.0@)) + r.1@ == data@,
        forall|i: int| 0 <= i < r.0@.len() ==> is_packet(#[trigger] r.0@[i]@),
        !r.1@.contains(SEMICOLON),
{
    let mut packets: Vec<Vec<u8>> = Vec::new();
    let mut cur: Vec<u8> = Vec::new();
    let mut i: usize = 0;
    assert(joined(contents(packets@)) + cur@ =~= data@.take(0));
    while i < data.len()
        invariant
            i <= data.len(),
            joined(contents(packets@)) + cur@ == data@.take(i as int),
            forall|k: int| 0 <= k < packets@.len() ==> is_packet(#[trigger] packets@[k]@),
            !cur@.contains(SEMICOLON),
        decreases data.len() - i,
    {
        let b = data[i];
        let ghost done = contents(packets@);
        let ghost part = cur@;
        assert(data@.take(i + 1) =~= data@.take(i as int).push(b));
        cur.push(b);
        if b == SEMICOLON {
            proof {
                assert(cur@.drop_last() =~= part);
            }
            let ghost closed = cur@;
            packets.push(cur);
            cur = Vec::new();
            proof {
                assert(contents(packets@) =~= done.push(closed));
                assert(contents(packets@).drop_last() =~= done);
                assert(joined(contents(packets@)) == joined(done) + closed);
                assert(joined(done) + closed =~= (joined(done) + part).push(b));
                assert(joined(contents(packets@)) + cur@ =~= data@.take(i + 1));
            }
        } else {
            proof {
                assert(joined(done) + cur@ =~= (joined(done) + part).push(b));
                assert forall|k: int| 0 <= k < cur@.len() implies cur@[k] != SEMICOLON by {
                    if k < part.len() {
                        assert(part.contains(part[k]) ==> part[k] != SEMICOLON);
                        assert(cur@[k] == part[k]);
                        assert(part.contains(part[k]));
                    }
                }
            }
        }
        i += 1;
    }
    proof {
        assert(data@.take(i as int) == data@);
    }
    (packets, cur)
}

/// Whether the key is the one of a packet that holds a move: `move`.
pub fn is_move_key(key: &[u8]) -> (b: bool)
    ensures
        b == (key@ == seq![109u8, 111u8, 118u8, 101u8]),
{
    let hit = key.len() == 4 && key[0] == 109 && key[1] == 111 && key[2] == 118 && key[3] == 101;
    proof {
        if hit {
            assert(key@ =~= seq![109u8, 111u8, 118u8, 101u8]);
        }
    }
    hit
}

} // verus!
