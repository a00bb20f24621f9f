//! Publish/subscribe over network peers: a publication is framed with its
//! topic and sent to every peer; peers that could not be reached are dropped.
//! The sending and local fan-out run elsewhere.
use vstd::prelude::*;
use vstd::string::*;

verus! {

/// A publication on the wire: one byte holding the topic's length in bytes
/// (modulo 256), the topic's UTF-8 bytes, then the message.
pub open spec fn publication_spec(topic: Seq<u8>, message: Seq<u8>) -> Seq<u8> {
    seq![(topic.len() % 256) as u8] + topic + message
}

/// The items of `s` whose flag in `keep` is set, in order.
pub open spec fn kept<P>(s: Seq<P>, keep: Seq<bool>) -> Seq<P>
    decreases s.len(),
{
    if s.len() == 0 {
        Seq::empty()
    } else if keep[0] {
        seq![s[0]] + kept(s.drop_first(), keep.drop_first())
    } else {
        kept(s.drop_first(), keep.drop_first())
    }
}

pub struct PubSub;

impl PubSub {
    /// Frames `message` published on `topic`.
    pub fn frame_publication(topic: &str, message: &[u8]) -> (framed: Vec<u8>)
        ensures
            framed@ == publication_spec(topic.spec_bytes(), message@),
    {
        let t = topic.as_bytes();
        let mut framed: Vec<u8> = Vec::new();
        framed.push((t.len() % 256) as u8);
        let mut i: usize = 0;
        while i < t.len()
            invariant
                i <= t@.len(),
                framed@ == seq![(t@.len() % 256) as u8] + t@.take(i as int),
            decreases t@.len() - i,
        {
            framed.push(t[i]);
            proof {
                assert(t@.take(i + 1) =~= t@.take(i as int).push(t@[i as int]));
            }
            i = i + 1;
        }
        let ghost head = framed@;
        proof {
            assert(t@.take(t@.len() as int) =~= t@);
        }
        let mut j: usize = 0;
        while j < message.len()
            invariant
                j <= message@.len(),
                framed@ == head + message@.take(j as int),
            decreases message@.len() - j,
        {
            framed.push(message[j]);
            proof {
                assert(message@.take(j + 1) =~= message@.take(j as int).push(message@[j as int]));
            }
            j = j + 1;
        }
        proof {
            assert(message@.take(message@.len() as int) =~= message@);
            assert(framed@ =~= publication_spec(topic.spec_bytes(), message@));
        }
        framed
    }

    /// Drops the peers that a publication could not reach: keeps, in order,
    /// the peers whose `delivered` flag is set.
    pub fn retain_delivered<P>(peers: &mut Vec<P>, delivered: &Vec<bool>)
        requires
            old(peers)@.len() == delivered@.len(),
        ensures
            final(peers)@ == kept(old(peers)@, delivered@),
    {
        let ghost s = peers@;
        let ghost d = delivered@;
        let mut i: usize = peers.len();
        proof {
            assert(s.skip(s.len() as int) =~= Seq::<P>::empty());
            assert(s.take(s.len() as int) =~= s);
            assert(peers@ =~= s.take(i as int) + kept(s.skip(i as int), d.skip(i as int)));
        }
        while i > 0
            invariant
                i <= s.len(),
                s.len() == d.len(),
                d == delivered@,
                peers@ == s.take(i as int) + kept(s.skip(i as int), d.skip(i as int)),
            decreases i,
        {
            let k = i - 1;
            proof {
                assert(s.skip(k as int).drop_first() =~= s.skip(i as int));
                assert(d.skip(k as int).drop_first() =~= d.skip(i as int));
                assert(s.skip(k as int)[0] == s[k as int]);
                assert(d.skip(k as int)[0] == d[k as int]);
            }
            if !delivered[k] {
                peers.remove(k);
                proof {
                    assert(peers@ =~= s.take(k as int) + kept(s.skip(k as int), d.skip(k as int)));
                }
            } else {
                proof {
                    assert(peers@ =~= s.take(k as int) + kept(s.skip(k as int), d.skip(k as int)));
                }
            }
            i = k;
        }
        proof {
            assert(s.skip(0) =~= s);
            assert(d.skip(0) =~= d);
            assert(peers@ =~= kept(s, d));
        }
    }
}

} // verus!
