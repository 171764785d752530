//! The UNSUBSCRIBE packet: a packet identifier, properties, and topic
//! filters until the remaining length is used up.

use vstd::prelude::*;

use bytes::BytesMut;

use crate::bytebuf::bytes_view;
use crate::error::DecodeError;
use crate::error::EncodeError;
use crate::property::view_props;
use crate::property::Property;
use crate::property::PropertyV;
use crate::types::DecodedPacket;
use crate::bytebuf::buf_put_u16;
use crate::bytebuf::buf_len;
use crate::bytebuf::u16_be_bytes;
use crate::property::parse_properties;
use crate::property::props_block_bytes;
use crate::property::props_bytes;
use crate::property::props_enc_err;
use crate::property::props_wf;
use crate::utils::decode_utf8;
use crate::utils::encode_utf8;
use crate::utils::parse_str;
use crate::utils::utf8_frame_bytes;
use crate::variable_integer::VLI_MAX;
use crate::wire::read_u16;
use crate::wire::parse_u16;
use crate::wire::PRes;

verus! {

broadcast use
    vstd::seq_lib::lemma_seq_skip_of_skip,
    vstd::seq_lib::lemma_seq_skip_len,
    vstd::seq_lib::lemma_seq_skip_index,
;

/// A request to drop subscriptions.
#[derive(Clone, Debug, PartialEq)]
pub struct UnsubscribePacket {
    pub packet_id: u16,
    pub topics: Vec<String>,
    pub properties: Vec<Property>,
}

/// The mathematical shape of an UNSUBSCRIBE packet.
pub struct UnsubscribePacketV {
    pub packet_id: u16,
    pub topics: Seq<Seq<char>>,
    pub properties: Seq<PropertyV>,
}

impl View for UnsubscribePacket {
    type V = UnsubscribePacketV;

    open spec fn view(&self) -> UnsubscribePacketV {
        UnsubscribePacketV {
            packet_id: self.packet_id,
            topics: self.topics@.map_values(|t: String| t@),
            properties: view_props(self.properties@),
        }
    }
}

/// The concatenated framed topic filters from index `i` on.
pub open spec fn topics_bytes_from(ts: Seq<Seq<char>>, i: int) -> Seq<u8>
    decreases ts.len() - i,
{
    if i < 0 || i >= ts.len() {
        Seq::empty()
    } else {
        utf8_frame_bytes(ts[i]) + topics_bytes_from(ts, i + 1)
    }
}

/// The concatenated framed topic filters.
pub open spec fn topics_bytes(ts: Seq<Seq<char>>) -> Seq<u8> {
    topics_bytes_from(ts, 0)
}

/// The tail of the concatenated topic bytes is the concatenation for the
/// tail of the list.
pub proof fn lemma_topics_bytes_from_skip(ts: Seq<Seq<char>>, i: int)
    requires
        0 <= i <= ts.len(),
    ensures
        topics_bytes_from(ts, i) == topics_bytes(ts.skip(i)),
    decreases ts.len() - i,
{
    if i == ts.len() {
        assert(topics_bytes(ts.skip(i)) =~= Seq::<u8>::empty());
    } else {
        lemma_topics_bytes_from_skip(ts, i + 1);
        assert(ts.skip(i)[0] == ts[i]);
        assert(ts.skip(i).skip(1) =~= ts.skip(i + 1));
        assert(topics_bytes(ts.skip(i)) == utf8_frame_bytes(ts.skip(i)[0]) + topics_bytes_from(
            ts.skip(i),
            1,
        ));
        lemma_topics_bytes_from_skip(ts.skip(i), 1);
        assert(topics_bytes(ts.skip(i).skip(1)) == topics_bytes(ts.skip(i + 1)));
    }
}

/// Framed topic filters read one after another until exactly `budget` bytes
/// are consumed.
pub open spec fn parse_topic_items(s: Seq<u8>, budget: int, acc: Seq<Seq<char>>) -> Result<
    Seq<Seq<char>>,
    DecodeError,
>
    decreases budget,
{
    if budget <= 0 {
        if budget == 0 {
            Ok(acc)
        } else {
            Err(DecodeError::FormatError)
        }
    } else {
        match parse_str(s) {
            PRes::Fail { e } => Err(e),
            PRes::Got { v, used } => {
                if used < 1 || used > budget {
                    Err(DecodeError::FormatError)
                } else {
                    parse_topic_items(s.skip(used), budget - used, acc.push(v))
                }
            },
        }
    }
}

/// Every topic filter in the list fits its 2-byte length prefix.
pub open spec fn topics_wf(ts: Seq<Seq<char>>) -> bool {
    forall|i: int|
        0 <= i < ts.len() ==> vstd::utf8::encode_utf8(#[trigger] ts[i]).len() < 0x10000
}

/// Reading the bytes of a framed topic list, whatever follows them, collects
/// exactly those topics.
pub proof fn lemma_topic_items_round_trip(ts: Seq<Seq<char>>, acc: Seq<Seq<char>>, rest: Seq<u8>)
    requires
        topics_wf(ts),
    ensures
        parse_topic_items(topics_bytes(ts) + rest, topics_bytes(ts).len() as int, acc) == Ok::<
            Seq<Seq<char>>,
            DecodeError,
        >(acc + ts),
    decreases ts.len(),
{
    if ts.len() == 0 {
        assert(topics_bytes(ts) =~= Seq::<u8>::empty());
        assert(acc + ts =~= acc);
    } else {
        let t0 = ts[0];
        let tail = ts.skip(1);
        lemma_topics_bytes_from_skip(ts, 1);
        let f0 = utf8_frame_bytes(t0);
        let ft = topics_bytes(tail);
        assert(topics_bytes(ts) == f0 + ft);
        assert(topics_bytes(ts) + rest =~= f0 + (ft + rest));
        crate::utils::lemma_str_round_trip(t0, ft + rest);
        assert(forall|j: int| 0 <= j < tail.len() ==> vstd::utf8::encode_utf8(
            #[trigger] tail[j],
        ).len() < 0x10000);
        lemma_topic_items_round_trip(tail, acc.push(t0), rest);
        assert((topics_bytes(ts) + rest).skip(f0.len() as int) =~= ft + rest);
        assert(acc.push(t0) + tail =~= acc + ts);
    }
}

/// The body bytes of an UNSUBSCRIBE packet.
pub open spec fn unsubscribe_bytes(p: UnsubscribePacketV) -> Seq<u8> {
    u16_be_bytes(p.packet_id) + props_block_bytes(p.properties) + topics_bytes(p.topics)
}

/// A packet identifier and properties, then framed topic filters until the
/// declared remaining length is used up.
#[verifier::opaque]
pub open spec fn parse_unsubscribe(s: Seq<u8>, remaining: int) -> PRes<UnsubscribePacketV> {
    match parse_u16(s) {
        PRes::Fail { e } => PRes::Fail { e },
        PRes::Got { v: id, used: u0 } => {
            match parse_properties(s.skip(u0)) {
                PRes::Fail { e } => PRes::Fail { e },
                PRes::Got { v: ps, used: u1 } => {
                    if u0 + u1 > remaining {
                        PRes::Fail { e: DecodeError::FormatError }
                    } else {
                        match parse_topic_items(
                            s.skip(u0 + u1),
                            remaining - u0 - u1,
                            Seq::empty(),
                        ) {
                            Err(e) => PRes::Fail { e },
                            Ok(ts) => PRes::Got {
                                v: UnsubscribePacketV { packet_id: id, topics: ts, properties: ps },
                                used: remaining,
                            },
                        }
                    }
                },
            }
        },
    }
}

impl UnsubscribePacket {
    /// Appends this packet's body: the identifier, the property block, and
    /// the framed topic filters.
    pub fn encode(&self, buffer: &mut BytesMut) -> (r: Result<(), EncodeError>)
        ensures
            match props_enc_err(self@.properties) {
                Some(e) => r == Err::<(), EncodeError>(e),
                None => r == Ok::<(), EncodeError>(()) && bytes_view(*final(buffer)) == bytes_view(
                    *old(buffer),
                ) + unsubscribe_bytes(self@),
            },
    {
        buf_put_u16(buffer, self.packet_id);
        match Property::encode(buffer, &self.properties) {
            Ok(u) => u,
            Err(e) => { return Err(e) },
        };
        let ghost mid = bytes_view(*buffer);
        let ghost tv = self@.topics;
        let mut i: usize = 0;
        while i < self.topics.len()
            invariant
                tv == self@.topics,
                i <= self.topics.len(),
                tv.len() == self.topics.len(),
                mid + topics_bytes_from(tv, 0) == bytes_view(*buffer) + topics_bytes_from(
                    tv,
                    i as int,
                ),
            decreases self.topics.len() - i,
        {
            let ghost before = bytes_view(*buffer);
            encode_utf8(buffer, self.topics[i].as_str());
            proof {
                assert(tv[i as int] == self.topics@[i as int]@);
                assert(mid + topics_bytes_from(tv, 0) =~= bytes_view(*buffer) + topics_bytes_from(
                    tv,
                    i as int + 1,
                ));
            }
            i = i + 1;
        }
        proof {
            assert(topics_bytes_from(tv, tv.len() as int) =~= Seq::<u8>::empty());
            assert(bytes_view(*buffer) =~= bytes_view(*old(buffer)) + unsubscribe_bytes(self@));
        }
        Ok(())
    }

    /// Reads this packet's body under the declared remaining length.  A
    /// topic that ends past the declared boundary is a format error.
    pub fn decode(buffer: &mut BytesMut, remaining_length: usize) -> (r: Result<
        DecodedPacket,
        DecodeError,
    >)
        ensures
            match parse_unsubscribe(bytes_view(*old(buffer)), remaining_length as int) {
                PRes::Got { v, used } => r matches Ok(DecodedPacket::Unsubscribe(p)) && p@ == v
                    && 1 <= used <= bytes_view(*old(buffer)).len() && bytes_view(*final(buffer))
                    == bytes_view(*old(buffer)).skip(used),
                PRes::Fail { e } => r matches Err(e2) && e2 == e,
            },
    {
        proof {
            reveal(parse_unsubscribe);
        }
        let ghost s = bytes_view(*buffer);
        let len0 = buf_len(buffer);
        let packet_id = match read_u16(buffer) {
            Ok(v) => v,
            Err(e) => { return Err(e) },
        };
        let properties = match Property::decode(buffer) {
            Ok(ps) => ps,
            Err(e) => { return Err(e) },
        };
        let len1 = buf_len(buffer);
        let consumed = len0 - len1;
        if consumed > remaining_length {
            return Err(DecodeError::FormatError);
        }
        let mut budget = remaining_length - consumed;
        let ghost u01 = consumed as int;
        let ghost budget0 = budget as int;
        let ghost t1 = bytes_view(*buffer);
        let mut topics: Vec<String> = Vec::new();
        proof {
            assert(topics@.map_values(|t: String| t@) =~= Seq::<Seq<char>>::empty());
            assert(t1.skip(0) =~= t1);
            assert(t1 =~= s.skip(u01));
        }
        while budget > 0
            invariant
                s == bytes_view(*old(buffer)),
                budget <= budget0,
                t1 == s.skip(u01),
                0 <= u01 <= s.len(),
                u01 + budget0 == remaining_length as int,
                bytes_view(*buffer) == t1.skip(budget0 - budget as int),
                budget0 - budget as int <= t1.len(),
                parse_topic_items(t1, budget0, Seq::empty()) == parse_topic_items(
                    bytes_view(*buffer),
                    budget as int,
                    topics@.map_values(|t: String| t@),
                ),
                ({
                    let items = parse_topic_items(t1, budget0, Seq::empty());
                    parse_unsubscribe(s, remaining_length as int) == (match items {
                        Ok(ts) => PRes::Got {
                            v: UnsubscribePacketV {
                                packet_id,
                                topics: ts,
                                properties: view_props(properties@),
                            },
                            used: remaining_length as int,
                        },
                        Err(e) => PRes::Fail { e },
                    })
                }),
            decreases budget,
        {
            let ghost cur = bytes_view(*buffer);
            let ghost acc = topics@.map_values(|t: String| t@);
            let before = buf_len(buffer);
            let topic = match decode_utf8(buffer) {
                Ok(t) => t,
                Err(e) => { return Err(e) },
            };
            let after = buf_len(buffer);
            let used = before - after;
            if used > budget {
                return Err(DecodeError::FormatError);
            }
            budget = budget - used;
            topics.push(topic);
            proof {
                assert(topics@.map_values(|t: String| t@) =~= acc.push(topic@));
                assert(bytes_view(*buffer) =~= t1.skip(budget0 - budget as int));
            }
        }
        proof {
            assert(bytes_view(*buffer) =~= s.skip(remaining_length as int));
        }
        Ok(DecodedPacket::Unsubscribe(UnsubscribePacket { packet_id, topics, properties }))
    }
}

/// An UNSUBSCRIBE body that encodes and decodes back to itself under its own
/// length.
pub open spec fn unsubscribe_wf(p: UnsubscribePacketV) -> bool {
    props_wf(p.properties) && props_bytes(p.properties).len() <= VLI_MAX && topics_wf(p.topics)
}

/// Decoding the body bytes of a well-formed UNSUBSCRIBE packet under their
/// own length, whatever follows them, gives back the packet and consumes
/// exactly the body.
pub proof fn lemma_unsubscribe_round_trip(p: UnsubscribePacketV, rest: Seq<u8>)
    requires
        unsubscribe_wf(p),
    ensures
        parse_unsubscribe(unsubscribe_bytes(p) + rest, unsubscribe_bytes(p).len() as int) == (
        PRes::Got { v: p, used: unsubscribe_bytes(p).len() as int }),
{
    reveal(parse_unsubscribe);
    let s = unsubscribe_bytes(p) + rest;
    let block = props_block_bytes(p.properties);
    let tail = topics_bytes(p.topics);
    crate::wire::lemma_u16_be_parse(p.packet_id, block + tail + rest);
    assert(s =~= u16_be_bytes(p.packet_id) + (block + tail + rest));
    assert(s.skip(2) =~= block + (tail + rest));
    crate::property::lemma_props_round_trip(p.properties, tail + rest);
    assert(s.skip(2 + block.len() as int) =~= tail + rest);
    lemma_topic_items_round_trip(p.topics, Seq::empty(), rest);
    assert(Seq::<Seq<char>>::empty() + p.topics =~= p.topics);
}

} // verus!
