//! The CONNECT packet: the protocol name and level, the connect flags, the
//! keep-alive, properties, the client identifier, and the optional will,
//! username and password, each gated by its flag bit.

use vstd::prelude::*;

use bytes::BytesMut;

use crate::bytebuf::bytes_view;
use crate::error::DecodeError;
use crate::error::EncodeError;
use crate::property::view_props;
use crate::property::Property;
use crate::property::PropertyV;
use crate::types::DecodedPacket;
use crate::bytebuf::buf_put_u8;
use crate::bytebuf::buf_put_u16;
use crate::bytebuf::u16_be_bytes;
use crate::property::parse_properties;
use crate::property::props_block_bytes;
use crate::property::props_bytes;
use crate::property::props_enc_err;
use crate::property::props_wf;
use crate::utils::decode_utf8;
use crate::utils::encode_utf8;
use crate::utils::parse_str;
use crate::utils::utf8_frame_bytes;
use crate::variable_integer::VLI_MAX;
use crate::wire::read_u8;
use crate::wire::read_u16;
use crate::wire::parse_u8;
use crate::wire::parse_u16;
use crate::wire::PRes;

verus! {

broadcast use
    vstd::seq_lib::lemma_seq_skip_of_skip,
    vstd::seq_lib::lemma_seq_skip_len,
    vstd::seq_lib::lemma_seq_skip_index,
;

/// A connection request.
#[derive(Clone, Debug, PartialEq)]
pub struct ConnectPacket {
    pub client_id: String,
    pub clean_start: bool,
    pub will_config: Option<WillConfig>,
    pub keep_alive: u16,
    pub username: Option<String>,
    pub password: Option<String>,
    pub properties: Vec<Property>,
}

/// The message published on the client's behalf when it goes away.
#[derive(Clone, Debug, PartialEq)]
pub struct WillConfig {
    pub topic: String,
    pub payload: String,
    pub retain: bool,
    pub qos: u8,
    pub properties: Vec<Property>,
}

/// The mathematical shape of a will.
pub struct WillConfigV {
    pub topic: Seq<char>,
    pub payload: Seq<char>,
    pub retain: bool,
    pub qos: u8,
    pub properties: Seq<PropertyV>,
}

impl View for WillConfig {
    type V = WillConfigV;

    open spec fn view(&self) -> WillConfigV {
        WillConfigV {
            topic: self.topic@,
            payload: self.payload@,
            retain: self.retain,
            qos: self.qos,
            properties: view_props(self.properties@),
        }
    }
}

/// The mathematical shape of a CONNECT packet.
pub struct ConnectPacketV {
    pub client_id: Seq<char>,
    pub clean_start: bool,
    pub will_config: Option<WillConfigV>,
    pub keep_alive: u16,
    pub username: Option<Seq<char>>,
    pub password: Option<Seq<char>>,
    pub properties: Seq<PropertyV>,
}

impl View for ConnectPacket {
    type V = ConnectPacketV;

    open spec fn view(&self) -> ConnectPacketV {
        ConnectPacketV {
            client_id: self.client_id@,
            clean_start: self.clean_start,
            will_config: match &self.will_config {
                Some(w) => Some(w@),
                None => None,
            },
            keep_alive: self.keep_alive,
            username: match &self.username {
                Some(u) => Some(u@),
                None => None,
            },
            password: match &self.password {
                Some(p) => Some(p@),
                None => None,
            },
            properties: view_props(self.properties@),
        }
    }
}

/// The protocol name every CONNECT packet must open with.
pub open spec fn protocol_name() -> Seq<char> {
    "MQTT"@
}

/// The connect flags byte: username bit 7, password bit 6, will retain bit
/// 5, will QoS bits 3-4, will bit 2, clean start bit 1; bit 0 is reserved.
pub open spec fn connect_flags_byte(p: ConnectPacketV) -> u8 {
    ((if p.username is Some {
        128int
    } else {
        0int
    }) + (if p.password is Some {
        64int
    } else {
        0int
    }) + (match p.will_config {
        Some(w) => (if w.retain {
            32int
        } else {
            0int
        }) + w.qos as int * 8 + 4,
        None => 0int,
    }) + (if p.clean_start {
        2int
    } else {
        0int
    })) as u8
}

/// The will section's bytes: its properties, then its framed topic and
/// payload; nothing when there is no will.
pub open spec fn will_bytes(w: Option<WillConfigV>) -> Seq<u8> {
    match w {
        Some(w) => props_block_bytes(w.properties) + utf8_frame_bytes(w.topic) + utf8_frame_bytes(
            w.payload,
        ),
        None => Seq::empty(),
    }
}

/// An optional trailing string's bytes: its frame, or nothing.
pub open spec fn opt_str_bytes(t: Option<Seq<char>>) -> Seq<u8> {
    match t {
        Some(t) => utf8_frame_bytes(t),
        None => Seq::empty(),
    }
}

/// The body bytes of a CONNECT packet after the protocol header.
pub open spec fn connect_rest_bytes(p: ConnectPacketV) -> Seq<u8> {
    seq![connect_flags_byte(p)] + u16_be_bytes(p.keep_alive) + props_block_bytes(p.properties)
        + utf8_frame_bytes(p.client_id) + will_bytes(p.will_config) + opt_str_bytes(p.username)
        + opt_str_bytes(p.password)
}

/// The body bytes of a CONNECT packet.
pub open spec fn connect_bytes(p: ConnectPacketV) -> Seq<u8> {
    utf8_frame_bytes(protocol_name()) + seq![5u8] + connect_rest_bytes(p)
}

/// The framed protocol name, which must be "MQTT", and the version byte,
/// which must be 5.  Anything else — a missing or different name, bytes that
/// run out, another version — is a protocol-not-supported error.
pub open spec fn parse_protocol(s: Seq<u8>) -> PRes<()> {
    match parse_str(s) {
        PRes::Fail { e } => PRes::Fail { e: DecodeError::ProtocolNotSupportedError },
        PRes::Got { v: name, used: u0 } => {
            if name != protocol_name() {
                PRes::Fail { e: DecodeError::ProtocolNotSupportedError }
            } else {
                match parse_u8(s.skip(u0)) {
                    PRes::Fail { e } => PRes::Fail { e: DecodeError::ProtocolNotSupportedError },
                    PRes::Got { v: ver, used: _ } => {
                        if ver != 5 {
                            PRes::Fail { e: DecodeError::ProtocolNotSupportedError }
                        } else {
                            PRes::Got { v: (), used: u0 + 1 }
                        }
                    },
                }
            }
        },
    }
}

/// An optional framed string, read only when its flag bit was set.
pub open spec fn parse_opt_str(s: Seq<u8>, present: bool) -> PRes<Option<Seq<char>>> {
    if !present {
        PRes::Got { v: None, used: 0 }
    } else {
        match parse_str(s) {
            PRes::Fail { e } => PRes::Fail { e },
            PRes::Got { v, used } => PRes::Got { v: Some(v), used },
        }
    }
}

/// The will section, read only when the will flag was set: properties, then
/// the framed topic and payload, joined with the retain and QoS flag bits.
pub open spec fn parse_will(s: Seq<u8>, flag: bool, retain: bool, qos: u8) -> PRes<
    Option<WillConfigV>,
> {
    if !flag {
        PRes::Got { v: None, used: 0 }
    } else {
        match parse_properties(s) {
            PRes::Fail { e } => PRes::Fail { e },
            PRes::Got { v: wps, used: u0 } => {
                match parse_str(s.skip(u0)) {
                    PRes::Fail { e } => PRes::Fail { e },
                    PRes::Got { v: topic, used: u1 } => {
                        match parse_str(s.skip(u0 + u1)) {
                            PRes::Fail { e } => PRes::Fail { e },
                            PRes::Got { v: payload, used: u2 } => PRes::Got {
                                v: Some(
                                    WillConfigV { topic, payload, retain, qos, properties: wps },
                                ),
                                used: u0 + u1 + u2,
                            },
                        }
                    },
                }
            },
        }
    }
}

/// The flag-gated trailer: the will section, the username, the password.
pub open spec fn parse_connect_tail(
    s: Seq<u8>,
    username_flag: bool,
    password_flag: bool,
    will_retain: bool,
    will_qos: u8,
    will_flag: bool,
) -> PRes<(Option<WillConfigV>, Option<Seq<char>>, Option<Seq<char>>)> {
    match parse_will(s, will_flag, will_retain, will_qos) {
        PRes::Fail { e } => PRes::Fail { e },
        PRes::Got { v: w, used: u3 } => {
            match parse_opt_str(s.skip(u3), username_flag) {
                PRes::Fail { e } => PRes::Fail { e },
                PRes::Got { v: username, used: u4 } => {
                    match parse_opt_str(s.skip(u3 + u4), password_flag) {
                        PRes::Fail { e } => PRes::Fail { e },
                        PRes::Got { v: password, used: u5 } => PRes::Got {
                            v: (w, username, password),
                            used: u3 + u4 + u5,
                        },
                    }
                },
            }
        },
    }
}

/// Everything after the protocol header: the flags byte, whose reserved low
/// bit must be clear, the keep-alive, properties, the client identifier, and
/// the flag-gated will, username and password.
pub open spec fn parse_connect_rest(s: Seq<u8>) -> PRes<ConnectPacketV> {
    match parse_u8(s) {
        PRes::Fail { e } => PRes::Fail { e },
        PRes::Got { v: flags, used: _ } => {
            if flags as int % 2 != 0 {
                PRes::Fail { e: DecodeError::FormatError }
            } else {
                let username_flag = (flags as int / 128) % 2 == 1;
                let password_flag = (flags as int / 64) % 2 == 1;
                let will_retain = (flags as int / 32) % 2 == 1;
                let will_qos = ((flags as int / 8) % 4) as u8;
                let will_flag = (flags as int / 4) % 2 == 1;
                let clean_start = (flags as int / 2) % 2 == 1;
                match parse_u16(s.skip(1)) {
                    PRes::Fail { e } => PRes::Fail { e },
                    PRes::Got { v: keep_alive, used: _ } => {
                        match parse_properties(s.skip(3)) {
                            PRes::Fail { e } => PRes::Fail { e },
                            PRes::Got { v: ps, used: u1 } => {
                                match parse_str(s.skip(3 + u1)) {
                                    PRes::Fail { e } => PRes::Fail { e },
                                    PRes::Got { v: client_id, used: u2 } => {
                                        match parse_connect_tail(
                                            s.skip(3 + u1 + u2),
                                            username_flag,
                                            password_flag,
                                            will_retain,
                                            will_qos,
                                            will_flag,
                                        ) {
                                            PRes::Fail { e } => PRes::Fail { e },
                                            PRes::Got { v: tail, used: u3 } => PRes::Got {
                                                v: ConnectPacketV {
                                                    client_id,
                                                    clean_start,
                                                    will_config: tail.0,
                                                    keep_alive,
                                                    username: tail.1,
                                                    password: tail.2,
                                                    properties: ps,
                                                },
                                                used: 3 + u1 + u2 + u3,
                                            },
                                        }
                                    },
                                }
                            },
                        }
                    },
                }
            }
        },
    }
}

/// A whole CONNECT body: the protocol header, then the rest.
#[verifier::opaque]
pub open spec fn parse_connect(s: Seq<u8>) -> PRes<ConnectPacketV> {
    match parse_protocol(s) {
        PRes::Fail { e } => PRes::Fail { e },
        PRes::Got { v: _, used: u0 } => {
            match parse_connect_rest(s.skip(u0)) {
                PRes::Fail { e } => PRes::Fail { e },
                PRes::Got { v, used } => PRes::Got { v, used: u0 + used },
            }
        },
    }
}

impl ConnectPacket {
    /// Appends this packet's body, each optional section gated by its flag
    /// bit in the connect flags byte.
    #[verifier::rlimit(100)]
    #[verifier::spinoff_prover]
    pub fn encode(&self, buffer: &mut BytesMut) -> (r: Result<(), EncodeError>)
        requires
            self.will_config matches Some(w) ==> w.qos <= 3,
        ensures
            ({
                let err = match props_enc_err(self@.properties) {
                    Some(e) => Some(e),
                    None => match self@.will_config {
                        Some(w) => props_enc_err(w.properties),
                        None => None,
                    },
                };
                match err {
                    Some(e) => r == Err::<(), EncodeError>(e),
                    None => r == Ok::<(), EncodeError>(()) && bytes_view(*final(buffer))
                        == bytes_view(*old(buffer)) + connect_bytes(self@),
                }
            }),
    {
        encode_utf8(buffer, "MQTT");
        buf_put_u8(buffer, 5);
        self.encode_connect(buffer);
        buf_put_u16(buffer, self.keep_alive);
        let ghost head = utf8_frame_bytes(protocol_name()) + seq![5u8] + seq![
            connect_flags_byte(self@),
        ] + u16_be_bytes(self.keep_alive);
        proof {
            assert("MQTT"@ == protocol_name());
            assert(bytes_view(*buffer) =~= bytes_view(*old(buffer)) + head);
        }
        match Property::encode(buffer, &self.properties) {
            Ok(u) => u,
            Err(e) => { return Err(e) },
        };
        encode_utf8(buffer, self.client_id.as_str());
        let ghost head2 = head + props_block_bytes(self@.properties) + utf8_frame_bytes(
            self@.client_id,
        );
        proof {
            assert(bytes_view(*buffer) =~= bytes_view(*old(buffer)) + head2);
        }
        match self.encode_trailer(buffer) {
            Ok(u) => u,
            Err(e) => { return Err(e) },
        };
        proof {
            assert(head2 + will_bytes(self@.will_config) + opt_str_bytes(self@.username)
                + opt_str_bytes(self@.password) =~= connect_bytes(self@));
            assert(bytes_view(*buffer) =~= bytes_view(*old(buffer)) + connect_bytes(self@));
        }
        Ok(())
    }

    /// Appends the flag-gated trailing sections: the will, the username, the
    /// password.
    fn encode_trailer(&self, buffer: &mut BytesMut) -> (r: Result<(), EncodeError>)
        ensures
            ({
                let err = match self@.will_config {
                    Some(w) => props_enc_err(w.properties),
                    None => None,
                };
                match err {
                    Some(e) => r == Err::<(), EncodeError>(e),
                    None => r == Ok::<(), EncodeError>(()) && bytes_view(*final(buffer))
                        == bytes_view(*old(buffer)) + will_bytes(self@.will_config)
                        + opt_str_bytes(self@.username) + opt_str_bytes(self@.password),
                }
            }),
    {
        match &self.will_config {
            Some(will_config) => {
                match Property::encode(buffer, &will_config.properties) {
                    Ok(u) => u,
                    Err(e) => { return Err(e) },
                };
                encode_utf8(buffer, will_config.topic.as_str());
                encode_utf8(buffer, will_config.payload.as_str());
            },
            None => {},
        }
        let ghost head3 = bytes_view(*old(buffer)) + will_bytes(self@.will_config);
        proof {
            assert(bytes_view(*buffer) =~= head3);
        }
        match &self.username {
            Some(username) => encode_utf8(buffer, username.as_str()),
            None => {},
        }
        match &self.password {
            Some(password) => encode_utf8(buffer, password.as_str()),
            None => {},
        }
        proof {
            assert(bytes_view(*buffer) =~= head3 + opt_str_bytes(self@.username) + opt_str_bytes(
                self@.password,
            ));
        }
        Ok(())
    }

    /// Packs the flag-gated sections' presence, the will's retain and QoS,
    /// and clean start into the connect flags byte and appends it.
    fn encode_connect(&self, buffer: &mut BytesMut)
        requires
            self.will_config matches Some(w) ==> w.qos <= 3,
        ensures
            bytes_view(*final(buffer)) == bytes_view(*old(buffer)).push(connect_flags_byte(self@)),
    {
        let mut connect_flags: u8 = 0;
        if self.username.is_some() {
            connect_flags = connect_flags + 128;
        }
        if self.password.is_some() {
            connect_flags = connect_flags + 64;
        }
        match &self.will_config {
            Some(will_config) => {
                connect_flags = connect_flags + 4;
                if will_config.retain {
                    connect_flags = connect_flags + 32;
                }
                connect_flags = connect_flags + will_config.qos * 8;
            },
            None => {},
        }
        if self.clean_start {
            connect_flags = connect_flags + 2;
        }
        buf_put_u8(buffer, connect_flags);
    }

    /// Reads and checks the protocol header: the framed name "MQTT" and the
    /// version byte 5.  Anything else cannot be spoken here.
    fn check_protocol(buffer: &mut BytesMut) -> (r: Result<(), DecodeError>)
        ensures
            match parse_protocol(bytes_view(*old(buffer))) {
                PRes::Got { v: _, used } => r == Ok::<(), DecodeError>(()) && 3 <= used
                    <= bytes_view(*old(buffer)).len() && bytes_view(*final(buffer)) == bytes_view(
                    *old(buffer),
                ).skip(used),
                PRes::Fail { e } => r == Err::<(), DecodeError>(e),
            },
    {
        let name = match decode_utf8(buffer) {
            Ok(s) => s,
            Err(_) => { return Err(DecodeError::ProtocolNotSupportedError) },
        };
        let expected: String = "MQTT".to_owned();
        if !(name == expected) {
            return Err(DecodeError::ProtocolNotSupportedError);
        }
        let version = match read_u8(buffer) {
            Ok(b) => b,
            Err(_) => { return Err(DecodeError::ProtocolNotSupportedError) },
        };
        if version != 5 {
            return Err(DecodeError::ProtocolNotSupportedError);
        }
        Ok(())
    }

    /// Unpacks the connect flags byte; a set reserved low bit is a format
    /// error.  The fields come out in wire order: username, password, will
    /// retain, will QoS, will flag, clean start.
    pub fn decode_connect_flags(connect_flags: u8) -> (r: Result<
        (bool, bool, bool, u8, bool, bool),
        DecodeError,
    >)
        ensures
            connect_flags as int % 2 != 0 ==> r == Err::<
                (bool, bool, bool, u8, bool, bool),
                DecodeError,
            >(DecodeError::FormatError),
            connect_flags as int % 2 == 0 ==> r == Ok::<
                (bool, bool, bool, u8, bool, bool),
                DecodeError,
            >(
                (
                    (connect_flags as int / 128) % 2 == 1,
                    (connect_flags as int / 64) % 2 == 1,
                    (connect_flags as int / 32) % 2 == 1,
                    (((connect_flags as int / 8) % 4) as u8),
                    (connect_flags as int / 4) % 2 == 1,
                    (connect_flags as int / 2) % 2 == 1,
                ),
            ),
    {
        if connect_flags % 2 != 0 {
            return Err(DecodeError::FormatError);
        }
        let username_flag = (connect_flags / 128) % 2 == 1;
        let password_flag = (connect_flags / 64) % 2 == 1;
        let will_retain = (connect_flags / 32) % 2 == 1;
        let will_qos = (connect_flags / 8) % 4;
        let will_flag = (connect_flags / 4) % 2 == 1;
        let clean_start = (connect_flags / 2) % 2 == 1;
        Ok((username_flag, password_flag, will_retain, will_qos, will_flag, clean_start))
    }

    /// Reads the will section when its flag was set.
    fn decode_will(buffer: &mut BytesMut, flag: bool, retain: bool, qos: u8) -> (r: Result<
        Option<WillConfig>,
        DecodeError,
    >)
        ensures
            match parse_will(bytes_view(*old(buffer)), flag, retain, qos) {
                PRes::Got { v, used } => r matches Ok(w) && (match (w, v) {
                    (Some(wc), Some(wv)) => wc@ == wv,
                    (None, None) => true,
                    _ => false,
                }) && 0 <= used <= bytes_view(*old(buffer)).len() && bytes_view(*final(buffer))
                    == bytes_view(*old(buffer)).skip(used),
                PRes::Fail { e } => r matches Err(e2) && e2 == e,
            },
    {
        if !flag {
            proof {
                assert(bytes_view(*buffer).skip(0) =~= bytes_view(*buffer));
            }
            return Ok(None);
        }
        let will_properties = match Property::decode(buffer) {
            Ok(ps) => ps,
            Err(e) => { return Err(e) },
        };
        let topic = match decode_utf8(buffer) {
            Ok(t) => t,
            Err(e) => { return Err(e) },
        };
        let payload = match decode_utf8(buffer) {
            Ok(p) => p,
            Err(e) => { return Err(e) },
        };
        Ok(Some(WillConfig { topic, payload, retain, qos, properties: will_properties }))
    }

    /// Reads one optional trailing string when its flag was set.
    fn decode_opt_str(buffer: &mut BytesMut, present: bool) -> (r: Result<
        Option<String>,
        DecodeError,
    >)
        ensures
            match parse_opt_str(bytes_view(*old(buffer)), present) {
                PRes::Got { v, used } => r matches Ok(w) && (match (w, v) {
                    (Some(sw), Some(sv)) => sw@ == sv,
                    (None, None) => true,
                    _ => false,
                }) && 0 <= used <= bytes_view(*old(buffer)).len() && bytes_view(*final(buffer))
                    == bytes_view(*old(buffer)).skip(used),
                PRes::Fail { e } => r matches Err(e2) && e2 == e,
            },
    {
        if !present {
            proof {
                assert(bytes_view(*buffer).skip(0) =~= bytes_view(*buffer));
            }
            return Ok(None);
        }
        match decode_utf8(buffer) {
            Ok(s) => Ok(Some(s)),
            Err(e) => Err(e),
        }
    }

    /// Reads the flag-gated trailer: the will section, the username, the
    /// password.
    fn decode_tail(
        buffer: &mut BytesMut,
        username_flag: bool,
        password_flag: bool,
        will_retain: bool,
        will_qos: u8,
        will_flag: bool,
    ) -> (r: Result<(Option<WillConfig>, Option<String>, Option<String>), DecodeError>)
        ensures
            match parse_connect_tail(
                bytes_view(*old(buffer)),
                username_flag,
                password_flag,
                will_retain,
                will_qos,
                will_flag,
            ) {
                PRes::Got { v, used } => r matches Ok((w, u, pw)) && (match (w, v.0) {
                    (Some(wc), Some(wv)) => wc@ == wv,
                    (None, None) => true,
                    _ => false,
                }) && (match (u, v.1) {
                    (Some(sw), Some(sv)) => sw@ == sv,
                    (None, None) => true,
                    _ => false,
                }) && (match (pw, v.2) {
                    (Some(sw), Some(sv)) => sw@ == sv,
                    (None, None) => true,
                    _ => false,
                }) && 0 <= used <= bytes_view(*old(buffer)).len() && bytes_view(*final(buffer))
                    == bytes_view(*old(buffer)).skip(used),
                PRes::Fail { e } => r matches Err(e2) && e2 == e,
            },
    {
        let will_config = match Self::decode_will(buffer, will_flag, will_retain, will_qos) {
            Ok(w) => w,
            Err(e) => { return Err(e) },
        };
        let username = match Self::decode_opt_str(buffer, username_flag) {
            Ok(u) => u,
            Err(e) => { return Err(e) },
        };
        let password = match Self::decode_opt_str(buffer, password_flag) {
            Ok(p) => p,
            Err(e) => { return Err(e) },
        };
        Ok((will_config, username, password))
    }

    /// Reads everything after the protocol header.
    #[verifier::rlimit(100)]
    #[verifier::spinoff_prover]
    fn decode_rest(buffer: &mut BytesMut) -> (r: Result<ConnectPacket, DecodeError>)
        ensures
            match parse_connect_rest(bytes_view(*old(buffer))) {
                PRes::Got { v, used } => r matches Ok(p) && p@ == v && 1 <= used <= bytes_view(
                    *old(buffer),
                ).len() && bytes_view(*final(buffer)) == bytes_view(*old(buffer)).skip(used),
                PRes::Fail { e } => r matches Err(e2) && e2 == e,
            },
    {
        let flags_byte = match read_u8(buffer) {
            Ok(b) => b,
            Err(e) => { return Err(e) },
        };
        let (username_flag, password_flag, will_retain, will_qos, will_flag, clean_start) =
            match Self::decode_connect_flags(flags_byte) {
            Ok(f) => f,
            Err(e) => { return Err(e) },
        };
        let keep_alive = match read_u16(buffer) {
            Ok(v) => v,
            Err(e) => { return Err(e) },
        };
        let properties = match Property::decode(buffer) {
            Ok(ps) => ps,
            Err(e) => { return Err(e) },
        };
        let client_id = match decode_utf8(buffer) {
            Ok(c) => c,
            Err(e) => { return Err(e) },
        };
        let (will_config, username, password) = match Self::decode_tail(
            buffer,
            username_flag,
            password_flag,
            will_retain,
            will_qos,
            will_flag,
        ) {
            Ok(tail) => tail,
            Err(e) => { return Err(e) },
        };
        let packet = ConnectPacket {
            client_id,
            clean_start,
            will_config,
            keep_alive,
            username,
            password,
            properties,
        };
        Ok(packet)
    }

    /// Reads this packet's body.
    pub fn decode(buffer: &mut BytesMut) -> (r: Result<DecodedPacket, DecodeError>)
        ensures
            match parse_connect(bytes_view(*old(buffer))) {
                PRes::Got { v, used } => r matches Ok(DecodedPacket::Connect(p)) && p@ == v && 1
                    <= used <= bytes_view(*old(buffer)).len() && bytes_view(*final(buffer))
                    == bytes_view(*old(buffer)).skip(used),
                PRes::Fail { e } => r matches Err(e2) && e2 == e,
            },
    {
        proof {
            reveal(parse_connect);
        }
        match Self::check_protocol(buffer) {
            Ok(u) => u,
            Err(e) => { return Err(e) },
        };
        match Self::decode_rest(buffer) {
            Ok(p) => Ok(DecodedPacket::Connect(p)),
            Err(e) => Err(e),
        }
    }
}

/// A CONNECT body that encodes and decodes back to itself: every string
/// fits its length prefix, both property lists are encodable, and a will's
/// QoS fits its two flag bits.
pub open spec fn connect_wf(p: ConnectPacketV) -> bool {
    &&& props_wf(p.properties)
    &&& props_bytes(p.properties).len() <= VLI_MAX
    &&& vstd::utf8::encode_utf8(p.client_id).len() < 0x10000
    &&& (match p.will_config {
        Some(w) => {
            &&& props_wf(w.properties)
            &&& props_bytes(w.properties).len() <= VLI_MAX
            &&& vstd::utf8::encode_utf8(w.topic).len() < 0x10000
            &&& vstd::utf8::encode_utf8(w.payload).len() < 0x10000
            &&& w.qos <= 3
        },
        None => true,
    })
    &&& (match p.username {
        Some(u) => vstd::utf8::encode_utf8(u).len() < 0x10000,
        None => true,
    })
    &&& (match p.password {
        Some(w) => vstd::utf8::encode_utf8(w).len() < 0x10000,
        None => true,
    })
}

/// The framed protocol name and version byte parse back as they were
/// written.
#[verifier::rlimit(100)]
#[verifier::spinoff_prover]
proof fn lemma_protocol_round_trip(rest: Seq<u8>)
    ensures
        utf8_frame_bytes(protocol_name()).len() == 6,
        parse_protocol((utf8_frame_bytes(protocol_name()) + seq![5u8]) + rest) == (PRes::Got {
            v: (),
            used: 7,
        }),
{
    broadcast use vstd::utf8::is_ascii_chars_encode_utf8;

    reveal_strlit("MQTT");
    assert(vstd::utf8::is_ascii_chars(protocol_name()));
    assert(vstd::utf8::encode_utf8(protocol_name()).len() == 4);
    let s = (utf8_frame_bytes(protocol_name()) + seq![5u8]) + rest;
    crate::utils::lemma_str_round_trip(protocol_name(), seq![5u8] + rest);
    assert(s =~= utf8_frame_bytes(protocol_name()) + (seq![5u8] + rest));
    assert(s.skip(6)[0] == 5u8);
}

/// The flag bits of a well-formed packet's flags byte unpack to its fields.
#[verifier::rlimit(100)]
#[verifier::spinoff_prover]
proof fn lemma_connect_flags_round_trip(p: ConnectPacketV)
    requires
        connect_wf(p),
    ensures
        ({
            let fb = connect_flags_byte(p) as int;
            &&& fb % 2 == 0
            &&& ((fb / 128) % 2 == 1 <==> p.username is Some)
            &&& ((fb / 64) % 2 == 1 <==> p.password is Some)
            &&& ((fb / 4) % 2 == 1 <==> p.will_config is Some)
            &&& ((fb / 2) % 2 == 1 <==> p.clean_start)
            &&& (match p.will_config {
                Some(w) => ((fb / 32) % 2 == 1 <==> w.retain) && ((fb / 8) % 4) as u8 == w.qos,
                None => true,
            })
        }),
{
    let uf: int = if p.username is Some {
        128
    } else {
        0
    };
    let pf: int = if p.password is Some {
        64
    } else {
        0
    };
    let wfv: int = match p.will_config {
        Some(w) => (if w.retain {
            32int
        } else {
            0int
        }) + w.qos as int * 8 + 4,
        None => 0,
    };
    let cs: int = if p.clean_start {
        2
    } else {
        0
    };
    assert(connect_flags_byte(p) as int == uf + pf + wfv + cs);
}

/// Decoding the will bytes of a well-formed will, whatever follows them,
/// gives back the will and consumes exactly its bytes.
#[verifier::rlimit(100)]
#[verifier::spinoff_prover]
proof fn lemma_will_round_trip(w: WillConfigV, rest: Seq<u8>)
    requires
        props_wf(w.properties),
        props_bytes(w.properties).len() <= VLI_MAX,
        vstd::utf8::encode_utf8(w.topic).len() < 0x10000,
        vstd::utf8::encode_utf8(w.payload).len() < 0x10000,
    ensures
        parse_will(will_bytes(Some(w)) + rest, true, w.retain, w.qos) == (PRes::Got {
            v: Some(w),
            used: will_bytes(Some(w)).len() as int,
        }),
{
    let s = will_bytes(Some(w)) + rest;
    let wblock = props_block_bytes(w.properties);
    let wt = utf8_frame_bytes(w.topic);
    let wp = utf8_frame_bytes(w.payload);
    assert(s =~= wblock + (wt + wp + rest));
    crate::property::lemma_props_round_trip(w.properties, wt + wp + rest);
    assert(s.skip(wblock.len() as int) =~= wt + (wp + rest));
    crate::utils::lemma_str_round_trip(w.topic, wp + rest);
    assert(s.skip(wblock.len() as int).skip(wt.len() as int) =~= wp + rest);
    crate::utils::lemma_str_round_trip(w.payload, rest);
}

/// Decoding the bytes after the protocol header of a well-formed packet,
/// whatever follows them, gives back the packet and consumes exactly those
/// bytes.
/// Decoding the trailer bytes of a well-formed packet, whatever follows
/// them, gives back the will, username and password.
#[verifier::rlimit(100)]
#[verifier::spinoff_prover]
proof fn lemma_connect_tail_round_trip(p: ConnectPacketV, rest: Seq<u8>)
    requires
        connect_wf(p),
    ensures
        ({
            let wb = will_bytes(p.will_config);
            let ub = opt_str_bytes(p.username);
            let pb = opt_str_bytes(p.password);
            let fb = connect_flags_byte(p) as int;
            parse_connect_tail(
                (wb + ub + pb) + rest,
                (fb / 128) % 2 == 1,
                (fb / 64) % 2 == 1,
                (fb / 32) % 2 == 1,
                ((fb / 8) % 4) as u8,
                (fb / 4) % 2 == 1,
            ) == (PRes::Got {
                v: (p.will_config, p.username, p.password),
                used: (wb + ub + pb).len() as int,
            })
        }),
{
    let wb = will_bytes(p.will_config);
    let ub = opt_str_bytes(p.username);
    let pb = opt_str_bytes(p.password);
    let s = (wb + ub + pb) + rest;
    let s6 = pb + rest;
    let s5 = ub + s6;
    assert(s =~= wb + s5);
    lemma_connect_flags_round_trip(p);
    match p.will_config {
        Some(w) => {
            lemma_will_round_trip(w, s5);
        },
        None => {
            assert(wb =~= Seq::<u8>::empty());
        },
    }
    crate::wire::lemma_concat_skip(wb, s5);
    assert(s.skip(wb.len() as int) == s5);
    match p.username {
        Some(u) => {
            crate::utils::lemma_str_round_trip(u, s6);
        },
        None => {
            assert(ub =~= Seq::<u8>::empty());
        },
    }
    crate::wire::lemma_concat_skip(ub, s6);
    assert(s.skip(wb.len() as int).skip(ub.len() as int) == s.skip(
        wb.len() as int + ub.len() as int,
    ));
    assert(s.skip(wb.len() as int + ub.len() as int) == s6);
    match p.password {
        Some(w) => {
            crate::utils::lemma_str_round_trip(w, rest);
        },
        None => {},
    }
}

/// Evaluates the post-header grammar once its pieces are known: given what
/// each field of `t` parses to, the whole parses to the packet.
#[verifier::rlimit(100)]
#[verifier::spinoff_prover]
proof fn lemma_connect_rest_eval(t: Seq<u8>, p: ConnectPacketV, u1: int, u2: int, u3: int)
    requires
        t.len() >= 1,
        t[0] == connect_flags_byte(p),
        ({
            let fb = connect_flags_byte(p) as int;
            &&& fb % 2 == 0
            &&& ((fb / 128) % 2 == 1 <==> p.username is Some)
            &&& ((fb / 64) % 2 == 1 <==> p.password is Some)
            &&& ((fb / 4) % 2 == 1 <==> p.will_config is Some)
            &&& ((fb / 2) % 2 == 1 <==> p.clean_start)
        }),
        crate::wire::parse_u16(t.skip(1)) == (PRes::Got { v: p.keep_alive, used: 2int }),
        parse_properties(t.skip(3)) == (PRes::Got { v: p.properties, used: u1 }),
        parse_str(t.skip(3 + u1)) == (PRes::Got { v: p.client_id, used: u2 }),
        ({
            let fb = connect_flags_byte(p) as int;
            parse_connect_tail(
                t.skip(3 + u1 + u2),
                (fb / 128) % 2 == 1,
                (fb / 64) % 2 == 1,
                (fb / 32) % 2 == 1,
                ((fb / 8) % 4) as u8,
                (fb / 4) % 2 == 1,
            ) == (PRes::Got { v: (p.will_config, p.username, p.password), used: u3 })
        }),
        ({
            let fb = connect_flags_byte(p) as int;
            match p.will_config {
                Some(w) => ((fb / 32) % 2 == 1 <==> w.retain) && ((fb / 8) % 4) as u8 == w.qos,
                None => true,
            }
        }),
    ensures
        parse_connect_rest(t) == (PRes::Got { v: p, used: 3 + u1 + u2 + u3 }),
{
    match p.will_config {
        Some(w) => {},
        None => {},
    }
}

#[verifier::rlimit(100)]
#[verifier::spinoff_prover]
proof fn lemma_connect_rest_round_trip(p: ConnectPacketV, rest: Seq<u8>)
    requires
        connect_wf(p),
    ensures
        parse_connect_rest(connect_rest_bytes(p) + rest) == (PRes::Got {
            v: p,
            used: connect_rest_bytes(p).len() as int,
        }),
{
    let fb = connect_flags_byte(p);
    let ka = u16_be_bytes(p.keep_alive);
    let block = props_block_bytes(p.properties);
    let cid = utf8_frame_bytes(p.client_id);
    let wb = will_bytes(p.will_config);
    let ub = opt_str_bytes(p.username);
    let pb = opt_str_bytes(p.password);
    let tail = wb + ub + pb;
    let s3 = tail + rest;
    let s2 = block + (cid + s3);
    let s1 = ka + s2;
    let t = connect_rest_bytes(p) + rest;
    let u1 = block.len() as int;
    let u2 = cid.len() as int;
    let u3 = tail.len() as int;
    assert(t =~= seq![fb] + s1);
    assert(t[0] == fb);
    lemma_connect_flags_round_trip(p);
    crate::wire::lemma_u16_be_parse(p.keep_alive, s2);
    crate::wire::lemma_concat_skip(seq![fb], s1);
    assert(t.skip(1) == s1);
    crate::wire::lemma_concat_skip(ka, s2);
    assert(t.skip(1).skip(2) == t.skip(3));
    assert(t.skip(3) == s2);
    crate::property::lemma_props_round_trip(p.properties, cid + s3);
    crate::wire::lemma_concat_skip(block, cid + s3);
    assert(t.skip(3).skip(u1) == t.skip(3 + u1));
    assert(t.skip(3 + u1) == cid + s3);
    crate::utils::lemma_str_round_trip(p.client_id, s3);
    crate::wire::lemma_concat_skip(cid, s3);
    assert(t.skip(3 + u1).skip(u2) == t.skip(3 + u1 + u2));
    assert(t.skip(3 + u1 + u2) == s3);
    assert(s3 =~= (wb + ub + pb) + rest);
    lemma_connect_tail_round_trip(p, rest);
    assert(3 + u1 + u2 + u3 == connect_rest_bytes(p).len());
    lemma_connect_rest_eval(t, p, u1, u2, u3);
}

/// Decoding the body bytes of a well-formed CONNECT packet, whatever
/// follows them, gives back the packet and consumes exactly the body.
#[verifier::rlimit(100)]
#[verifier::spinoff_prover]
pub proof fn lemma_connect_round_trip(p: ConnectPacketV, rest: Seq<u8>)
    requires
        connect_wf(p),
    ensures
        parse_connect(connect_bytes(p) + rest) == (PRes::Got {
            v: p,
            used: connect_bytes(p).len() as int,
        }),
{
    reveal(parse_connect);
    let s = connect_bytes(p) + rest;
    let tail0 = connect_rest_bytes(p) + rest;
    assert(s =~= (utf8_frame_bytes(protocol_name()) + seq![5u8]) + tail0);
    lemma_protocol_round_trip(tail0);
    assert(s.skip(7) =~= tail0);
    lemma_connect_rest_round_trip(p, rest);
}

} // verus!
