//! The SUBSCRIBE packet: a packet identifier, properties, and topic filters
//! with per-filter options until the remaining length is used up.

use vstd::prelude::*;

use bytes::BytesMut;

use crate::bytebuf::bytes_view;
use crate::error::DecodeError;
use crate::error::EncodeError;
use crate::property::view_props;
use crate::property::Property;
use crate::property::PropertyV;
use crate::types::DecodedPacket;
use crate::bytebuf::buf_put_u8;
use crate::bytebuf::buf_put_u16;
use crate::bytebuf::buf_len;
use crate::bytebuf::u16_be_bytes;
use crate::property::parse_properties;
use crate::property::props_block_bytes;
use crate::property::props_bytes;
use crate::property::props_enc_err;
use crate::property::props_wf;
use crate::utils::decode_utf8;
use crate::utils::encode_utf8;
use crate::utils::parse_str;
use crate::utils::utf8_frame_bytes;
use crate::variable_integer::VLI_MAX;
use crate::wire::read_u8;
use crate::wire::read_u16;
use crate::wire::parse_u8;
use crate::wire::parse_u16;
use crate::wire::PRes;

verus! {

broadcast use
    vstd::seq_lib::lemma_seq_skip_of_skip,
    vstd::seq_lib::lemma_seq_skip_len,
    vstd::seq_lib::lemma_seq_skip_index,
;

/// A request to add subscriptions.
#[derive(Clone, Debug, PartialEq)]
pub struct SubscribePacket {
    pub packet_id: u16,
    pub subscriptions: Vec<SubscriptionConfig>,
    pub properties: Vec<Property>,
}

/// One requested subscription: a topic filter and its options byte, unpacked.
#[derive(Clone, Debug, PartialEq)]
pub struct SubscriptionConfig {
    pub topic: String,
    pub retain_handling: u8,
    pub rap: bool,
    pub nl: bool,
    pub qos: u8,
}

/// The mathematical shape of one subscription.
pub struct SubscriptionConfigV {
    pub topic: Seq<char>,
    pub retain_handling: u8,
    pub rap: bool,
    pub nl: bool,
    pub qos: u8,
}

impl View for SubscriptionConfig {
    type V = SubscriptionConfigV;

    open spec fn view(&self) -> SubscriptionConfigV {
        SubscriptionConfigV {
            topic: self.topic@,
            retain_handling: self.retain_handling,
            rap: self.rap,
            nl: self.nl,
            qos: self.qos,
        }
    }
}

/// The mathematical shape of a SUBSCRIBE packet.
pub struct SubscribePacketV {
    pub packet_id: u16,
    pub subscriptions: Seq<SubscriptionConfigV>,
    pub properties: Seq<PropertyV>,
}

impl View for SubscribePacket {
    type V = SubscribePacketV;

    open spec fn view(&self) -> SubscribePacketV {
        SubscribePacketV {
            packet_id: self.packet_id,
            subscriptions: self.subscriptions@.map_values(|c: SubscriptionConfig| c@),
            properties: view_props(self.properties@),
        }
    }
}

/// The options byte of one subscription: retain handling in bits 4-5, RAP
/// in bit 3, NL in bit 2, QoS in bits 0-1.
pub open spec fn sub_opts_byte(c: SubscriptionConfigV) -> u8 {
    (c.retain_handling as int * 16 + (if c.rap {
        8int
    } else {
        0int
    }) + (if c.nl {
        4int
    } else {
        0int
    }) + c.qos as int) as u8
}

/// The wire bytes of one subscription: the framed topic filter, then the
/// options byte.
pub open spec fn sub_bytes(c: SubscriptionConfigV) -> Seq<u8> {
    utf8_frame_bytes(c.topic) + seq![sub_opts_byte(c)]
}

/// The concatenated subscriptions from index `i` on.
pub open spec fn subs_bytes_from(ss: Seq<SubscriptionConfigV>, i: int) -> Seq<u8>
    decreases ss.len() - i,
{
    if i < 0 || i >= ss.len() {
        Seq::empty()
    } else {
        sub_bytes(ss[i]) + subs_bytes_from(ss, i + 1)
    }
}

/// The concatenated subscriptions.
pub open spec fn subs_bytes(ss: Seq<SubscriptionConfigV>) -> Seq<u8> {
    subs_bytes_from(ss, 0)
}

/// The tail of the concatenated subscription bytes is the concatenation for
/// the tail of the list.
pub proof fn lemma_subs_bytes_from_skip(ss: Seq<SubscriptionConfigV>, i: int)
    requires
        0 <= i <= ss.len(),
    ensures
        subs_bytes_from(ss, i) == subs_bytes(ss.skip(i)),
    decreases ss.len() - i,
{
    if i == ss.len() {
        assert(subs_bytes(ss.skip(i)) =~= Seq::<u8>::empty());
    } else {
        lemma_subs_bytes_from_skip(ss, i + 1);
        assert(ss.skip(i)[0] == ss[i]);
        assert(ss.skip(i).skip(1) =~= ss.skip(i + 1));
        assert(subs_bytes(ss.skip(i)) == sub_bytes(ss.skip(i)[0]) + subs_bytes_from(ss.skip(i), 1));
        lemma_subs_bytes_from_skip(ss.skip(i), 1);
        assert(subs_bytes(ss.skip(i).skip(1)) == subs_bytes(ss.skip(i + 1)));
    }
}

/// The retain-handling, RAP, NL and QoS fields of an options byte whose two
/// reserved top bits are clear.
pub open spec fn sub_config_of(topic: Seq<char>, b: u8) -> SubscriptionConfigV {
    SubscriptionConfigV {
        topic,
        retain_handling: ((b as int / 16) % 4) as u8,
        rap: (b as int / 8) % 2 == 1,
        nl: (b as int / 4) % 2 == 1,
        qos: (b as int % 4) as u8,
    }
}

/// Framed topic filters, each followed by an options byte with clear top
/// bits, until exactly `budget` bytes are consumed.
pub open spec fn parse_sub_items(s: Seq<u8>, budget: int, acc: Seq<SubscriptionConfigV>) -> Result<
    Seq<SubscriptionConfigV>,
    DecodeError,
>
    decreases budget,
{
    if budget <= 0 {
        if budget == 0 {
            Ok(acc)
        } else {
            Err(DecodeError::FormatError)
        }
    } else {
        match parse_str(s) {
            PRes::Fail { e } => Err(e),
            PRes::Got { v: topic, used: u } => {
                match parse_u8(s.skip(u)) {
                    PRes::Fail { e } => Err(e),
                    PRes::Got { v: b, used: _ } => {
                        if (b as int / 64) % 4 != 0 {
                            Err(DecodeError::FormatError)
                        } else if u + 1 < 1 || u + 1 > budget {
                            Err(DecodeError::FormatError)
                        } else {
                            parse_sub_items(
                                s.skip(u + 1),
                                budget - u - 1,
                                acc.push(sub_config_of(topic, b)),
                            )
                        }
                    },
                }
            },
        }
    }
}

/// Every subscription fits its fields: the topic fits its length prefix and
/// the two 2-bit fields hold 2-bit values.
pub open spec fn subs_wf(ss: Seq<SubscriptionConfigV>) -> bool {
    forall|i: int|
        0 <= i < ss.len() ==> {
            &&& vstd::utf8::encode_utf8((#[trigger] ss[i]).topic).len() < 0x10000
            &&& ss[i].retain_handling <= 3
            &&& ss[i].qos <= 3
        }
}

/// Reading the bytes of a subscription list, whatever follows them, collects
/// exactly those subscriptions.
#[verifier::rlimit(100)]
#[verifier::spinoff_prover]
pub proof fn lemma_sub_items_round_trip(
    ss: Seq<SubscriptionConfigV>,
    acc: Seq<SubscriptionConfigV>,
    rest: Seq<u8>,
)
    requires
        subs_wf(ss),
    ensures
        parse_sub_items(subs_bytes(ss) + rest, subs_bytes(ss).len() as int, acc) == Ok::<
            Seq<SubscriptionConfigV>,
            DecodeError,
        >(acc + ss),
    decreases ss.len(),
{
    if ss.len() == 0 {
        assert(subs_bytes(ss) =~= Seq::<u8>::empty());
        assert(acc + ss =~= acc);
    } else {
        let c0 = ss[0];
        let tail = ss.skip(1);
        lemma_subs_bytes_from_skip(ss, 1);
        let f0 = utf8_frame_bytes(c0.topic);
        let b0 = sub_opts_byte(c0);
        let ft = subs_bytes(tail);
        assert(subs_bytes(ss) == (f0 + seq![b0]) + ft);
        let s = subs_bytes(ss) + rest;
        assert(s =~= f0 + (seq![b0] + (ft + rest)));
        crate::utils::lemma_str_round_trip(c0.topic, seq![b0] + (ft + rest));
        assert(s.skip(f0.len() as int) =~= seq![b0] + (ft + rest));
        assert(s.skip(f0.len() as int)[0] == b0);
        assert(b0 as int == c0.retain_handling as int * 16 + (if c0.rap {
            8int
        } else {
            0int
        }) + (if c0.nl {
            4int
        } else {
            0int
        }) + c0.qos as int);
        assert(sub_config_of(c0.topic, b0) == c0);
        assert(forall|j: int| 0 <= j < tail.len() ==> tail[j] == ss[j + 1]);
        lemma_sub_items_round_trip(tail, acc.push(c0), rest);
        assert(s.skip(f0.len() as int + 1) =~= ft + rest);
        assert(acc.push(c0) + tail =~= acc + ss);
    }
}

/// The body bytes of a SUBSCRIBE packet.
pub open spec fn subscribe_bytes(p: SubscribePacketV) -> Seq<u8> {
    u16_be_bytes(p.packet_id) + props_block_bytes(p.properties) + subs_bytes(p.subscriptions)
}

/// A packet identifier and properties, then subscriptions until the declared
/// remaining length is used up.
#[verifier::opaque]
pub open spec fn parse_subscribe(s: Seq<u8>, remaining: int) -> PRes<SubscribePacketV> {
    match parse_u16(s) {
        PRes::Fail { e } => PRes::Fail { e },
        PRes::Got { v: id, used: u0 } => {
            match parse_properties(s.skip(u0)) {
                PRes::Fail { e } => PRes::Fail { e },
                PRes::Got { v: ps, used: u1 } => {
                    if u0 + u1 > remaining {
                        PRes::Fail { e: DecodeError::FormatError }
                    } else {
                        match parse_sub_items(s.skip(u0 + u1), remaining - u0 - u1, Seq::empty()) {
                            Err(e) => PRes::Fail { e },
                            Ok(ss) => PRes::Got {
                                v: SubscribePacketV {
                                    packet_id: id,
                                    subscriptions: ss,
                                    properties: ps,
                                },
                                used: remaining,
                            },
                        }
                    }
                },
            }
        },
    }
}

impl SubscribePacket {
    /// Packs one subscription's options into its byte and appends it after
    /// the framed topic filter.
    fn encode_subscription_options(subscription: &SubscriptionConfig, buffer: &mut BytesMut)
        requires
            subscription.retain_handling <= 3,
            subscription.qos <= 3,
        ensures
            bytes_view(*final(buffer)) == bytes_view(*old(buffer)).push(
                sub_opts_byte(subscription@),
            ),
    {
        let mut subscription_options: u8 = subscription.retain_handling * 16;
        if subscription.rap {
            subscription_options = subscription_options + 8;
        }
        if subscription.nl {
            subscription_options = subscription_options + 4;
        }
        subscription_options = subscription_options + subscription.qos;
        buf_put_u8(buffer, subscription_options);
    }

    /// Unpacks one options byte; set reserved top bits are a format error.
    pub fn decode_subscription_options(subscription_options: u8) -> (r: Result<
        (u8, bool, bool, u8),
        DecodeError,
    >)
        ensures
            (subscription_options as int / 64) % 4 != 0 ==> r == Err::<
                (u8, bool, bool, u8),
                DecodeError,
            >(DecodeError::FormatError),
            (subscription_options as int / 64) % 4 == 0 ==> (r matches Ok((rh, rap, nl, qos))
                && ({
                let c = sub_config_of(Seq::empty(), subscription_options);
                rh == c.retain_handling && rap == c.rap && nl == c.nl && qos == c.qos
            })),
    {
        if (subscription_options / 64) % 4 != 0 {
            return Err(DecodeError::FormatError);
        }
        let retain_handling = (subscription_options / 16) % 4;
        let rap = (subscription_options / 8) % 2 == 1;
        let nl = (subscription_options / 4) % 2 == 1;
        let qos = subscription_options % 4;
        Ok((retain_handling, rap, nl, qos))
    }

    /// Appends this packet's body: the identifier, the property block, and
    /// each framed topic filter with its options byte.
    pub fn encode(&self, buffer: &mut BytesMut) -> (r: Result<(), EncodeError>)
        requires
            forall|i: int|
                0 <= i < self.subscriptions@.len() ==> {
                    &&& (#[trigger] self.subscriptions@[i]).retain_handling <= 3
                    &&& self.subscriptions@[i].qos <= 3
                },
        ensures
            match props_enc_err(self@.properties) {
                Some(e) => r == Err::<(), EncodeError>(e),
                None => r == Ok::<(), EncodeError>(()) && bytes_view(*final(buffer)) == bytes_view(
                    *old(buffer),
                ) + subscribe_bytes(self@),
            },
    {
        buf_put_u16(buffer, self.packet_id);
        match Property::encode(buffer, &self.properties) {
            Ok(u) => u,
            Err(e) => { return Err(e) },
        };
        let ghost mid = bytes_view(*buffer);
        let ghost sv = self@.subscriptions;
        let mut i: usize = 0;
        while i < self.subscriptions.len()
            invariant
                sv == self@.subscriptions,
                forall|j: int|
                    0 <= j < self.subscriptions@.len() ==> {
                        &&& (#[trigger] self.subscriptions@[j]).retain_handling <= 3
                        &&& self.subscriptions@[j].qos <= 3
                    },
                i <= self.subscriptions.len(),
                sv.len() == self.subscriptions.len(),
                mid + subs_bytes_from(sv, 0) == bytes_view(*buffer) + subs_bytes_from(sv, i as int),
            decreases self.subscriptions.len() - i,
        {
            encode_utf8(buffer, self.subscriptions[i].topic.as_str());
            Self::encode_subscription_options(&self.subscriptions[i], buffer);
            proof {
                assert(sv[i as int] == self.subscriptions@[i as int]@);
                assert(mid + subs_bytes_from(sv, 0) =~= bytes_view(*buffer) + subs_bytes_from(
                    sv,
                    i as int + 1,
                ));
            }
            i = i + 1;
        }
        proof {
            assert(subs_bytes_from(sv, sv.len() as int) =~= Seq::<u8>::empty());
            assert(bytes_view(*buffer) =~= bytes_view(*old(buffer)) + subscribe_bytes(self@));
        }
        Ok(())
    }

    /// Reads this packet's body under the declared remaining length.  A
    /// subscription that ends past the declared boundary is a format error.
    #[verifier::rlimit(100)]
    #[verifier::spinoff_prover]
    pub fn decode(buffer: &mut BytesMut, remaining_length: usize) -> (r: Result<
        DecodedPacket,
        DecodeError,
    >)
        ensures
            match parse_subscribe(bytes_view(*old(buffer)), remaining_length as int) {
                PRes::Got { v, used } => r matches Ok(DecodedPacket::Subscribe(p)) && p@ == v && 1
                    <= used <= bytes_view(*old(buffer)).len() && bytes_view(*final(buffer))
                    == bytes_view(*old(buffer)).skip(used),
                PRes::Fail { e } => r matches Err(e2) && e2 == e,
            },
    {
        proof {
            reveal(parse_subscribe);
        }
        let ghost s = bytes_view(*buffer);
        let len0 = buf_len(buffer);
        let packet_id = match read_u16(buffer) {
            Ok(v) => v,
            Err(e) => { return Err(e) },
        };
        let properties = match Property::decode(buffer) {
            Ok(ps) => ps,
            Err(e) => { return Err(e) },
        };
        let len1 = buf_len(buffer);
        let consumed = len0 - len1;
        if consumed > remaining_length {
            return Err(DecodeError::FormatError);
        }
        let mut budget = remaining_length - consumed;
        let ghost u01 = consumed as int;
        let ghost budget0 = budget as int;
        let ghost t1 = bytes_view(*buffer);
        let mut subscriptions: Vec<SubscriptionConfig> = Vec::new();
        proof {
            assert(subscriptions@.map_values(|c: SubscriptionConfig| c@) =~= Seq::<
                SubscriptionConfigV,
            >::empty());
            assert(t1.skip(0) =~= t1);
            assert(t1 =~= s.skip(u01));
        }
        while budget > 0
            invariant
                s == bytes_view(*old(buffer)),
                budget <= budget0,
                t1 == s.skip(u01),
                0 <= u01 <= s.len(),
                u01 + budget0 == remaining_length as int,
                bytes_view(*buffer) == t1.skip(budget0 - budget as int),
                budget0 - budget as int <= t1.len(),
                parse_sub_items(t1, budget0, Seq::empty()) == parse_sub_items(
                    bytes_view(*buffer),
                    budget as int,
                    subscriptions@.map_values(|c: SubscriptionConfig| c@),
                ),
                ({
                    let items = parse_sub_items(t1, budget0, Seq::empty());
                    parse_subscribe(s, remaining_length as int) == (match items {
                        Ok(ss) => PRes::Got {
                            v: SubscribePacketV {
                                packet_id,
                                subscriptions: ss,
                                properties: view_props(properties@),
                            },
                            used: remaining_length as int,
                        },
                        Err(e) => PRes::Fail { e },
                    })
                }),
            decreases budget,
        {
            let ghost cur = bytes_view(*buffer);
            let ghost acc = subscriptions@.map_values(|c: SubscriptionConfig| c@);
            let before = buf_len(buffer);
            let topic = match decode_utf8(buffer) {
                Ok(t) => t,
                Err(e) => { return Err(e) },
            };
            let opts = match read_u8(buffer) {
                Ok(b) => b,
                Err(e) => { return Err(e) },
            };
            let (retain_handling, rap, nl, qos) = match Self::decode_subscription_options(opts) {
                Ok(f) => f,
                Err(e) => { return Err(e) },
            };
            let after = buf_len(buffer);
            let used = before - after;
            if used > budget {
                return Err(DecodeError::FormatError);
            }
            let config = SubscriptionConfig { topic, retain_handling, rap, nl, qos };
            subscriptions.push(config);
            budget = budget - used;
            proof {
                assert(config@ == sub_config_of(topic@, opts));
                assert(subscriptions@.map_values(|c: SubscriptionConfig| c@) =~= acc.push(
                    config@,
                ));
                assert(bytes_view(*buffer) =~= t1.skip(budget0 - budget as int));
            }
        }
        proof {
            assert(bytes_view(*buffer) =~= s.skip(remaining_length as int));
        }
        Ok(DecodedPacket::Subscribe(SubscribePacket { packet_id, subscriptions, properties }))
    }
}

/// A SUBSCRIBE body that encodes and decodes back to itself under its own
/// length.
pub open spec fn subscribe_wf(p: SubscribePacketV) -> bool {
    props_wf(p.properties) && props_bytes(p.properties).len() <= VLI_MAX && subs_wf(
        p.subscriptions,
    )
}

/// Decoding the body bytes of a well-formed SUBSCRIBE packet under their own
/// length, whatever follows them, gives back the packet and consumes exactly
/// the body.
#[verifier::rlimit(100)]
#[verifier::spinoff_prover]
pub proof fn lemma_subscribe_round_trip(p: SubscribePacketV, rest: Seq<u8>)
    requires
        subscribe_wf(p),
    ensures
        parse_subscribe(subscribe_bytes(p) + rest, subscribe_bytes(p).len() as int) == (PRes::Got {
            v: p,
            used: subscribe_bytes(p).len() as int,
        }),
{
    reveal(parse_subscribe);
    let s = subscribe_bytes(p) + rest;
    let block = props_block_bytes(p.properties);
    let tail = subs_bytes(p.subscriptions);
    crate::wire::lemma_u16_be_parse(p.packet_id, block + tail + rest);
    assert(s =~= u16_be_bytes(p.packet_id) + (block + tail + rest));
    assert(s.skip(2) =~= block + (tail + rest));
    crate::property::lemma_props_round_trip(p.properties, tail + rest);
    assert(s.skip(2 + block.len() as int) =~= tail + rest);
    lemma_sub_items_round_trip(p.subscriptions, Seq::empty(), rest);
    assert(Seq::<SubscriptionConfigV>::empty() + p.subscriptions =~= p.subscriptions);
}

} // verus!
