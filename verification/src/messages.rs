//! Protocol messages
//!
//! The main type `Message` and the types in its fields are plain
//! containers, which are not responsible for any protocol logic except for
//! syntactic validation, including the validation of `PublicKey` and
//! `SecretKey` fields.  Consequently, all fields of `Message` and all fields
//! of its contained types such as `Header` and `Payload` are public.
//!
//! For transmission every message is laid out as described in the module
//! `wire`: the header, the index of the payload's variant, and the fields of
//! the payload.

pub use crate::keys::{PublicKey, SecretKey};

use crate::field::Fp;
use crate::wire::{lemma_join, lemma_split, Layout, Wire};
use crate::{PeerIndex, SequenceNum, SessionId, SymmetricKey};
use vstd::bytes::{lemma_auto_spec_u32_to_from_le_bytes, spec_u32_to_le_bytes};
use vstd::prelude::*;

verus! {

/// A protocol message
///
/// Protocol messages consist of a header and a payload.
#[derive(Clone, PartialEq, Eq, Debug)]
pub struct Message {
    pub header: Header,
    pub payload: Payload,
}

#[derive(Clone, PartialEq, Eq, Debug)]
pub struct Header {
    pub session_id: SessionId,  // just for consistency checks
    pub peer_index: PeerIndex,
    pub sequence_num: SequenceNum,  // just for consistency checks
}

#[derive(Clone, PartialEq, Eq, Debug)]
pub enum Payload {
    KeyExchange(KeyExchange),
    DcExponential(DcExponential),
    DcMain(DcMain),
    Blame(Blame),
    Confirm(Confirm),
    Reveal(Reveal),
}

/// The variants of a payload.
#[derive(Clone, Copy, PartialEq, Eq, Structural, Debug)]
pub enum PayloadKind {
    KeyExchange,
    DcExponential,
    DcMain,
    Blame,
    Confirm,
    Reveal,
}

impl Payload {
    /// The variant of the payload.
    pub open spec fn kind_of(&self) -> PayloadKind {
        match self {
            Payload::KeyExchange(_) => PayloadKind::KeyExchange,
            Payload::DcExponential(_) => PayloadKind::DcExponential,
            Payload::DcMain(_) => PayloadKind::DcMain,
            Payload::Blame(_) => PayloadKind::Blame,
            Payload::Confirm(_) => PayloadKind::Confirm,
            Payload::Reveal(_) => PayloadKind::Reveal,
        }
    }

    /// The variant of the payload.
    pub fn kind(&self) -> (kind: PayloadKind)
        ensures
            kind == self.kind_of(),
    {
        match self {
            Payload::KeyExchange(_) => PayloadKind::KeyExchange,
            Payload::DcExponential(_) => PayloadKind::DcExponential,
            Payload::DcMain(_) => PayloadKind::DcMain,
            Payload::Blame(_) => PayloadKind::Blame,
            Payload::Confirm(_) => PayloadKind::Confirm,
            Payload::Reveal(_) => PayloadKind::Reveal,
        }
    }
}

#[derive(Clone, PartialEq, Eq, Debug)]
pub struct KeyExchange {
    pub ke_pk: PublicKey,
}

#[derive(Clone, PartialEq, Eq, Debug)]
pub struct DcExponential {
    pub commitment: [u8; 32],
    pub dc_exp: Vec<Fp>,
}

#[derive(Clone, PartialEq, Eq, Debug)]
pub struct DcMain {
    pub ok: bool,
    pub dc_xor: Vec<Vec<u8>>,
    pub ke_pk: PublicKey,
    pub extension: Extension,
}

#[derive(Clone, Copy, PartialEq, Eq, Debug)]
pub enum Extension {
    NoExtension,
    DcAddSecp256k1Scalar,
}

#[derive(Clone, PartialEq, Eq, Debug)]
pub struct Blame {
    pub ke_sk: SecretKey,
}

#[derive(Clone, PartialEq, Eq, Debug)]
pub struct Confirm {
    pub data: Vec<u8>,
}

#[derive(Clone, PartialEq, Eq, Debug)]
pub struct Reveal {
    pub keys: Vec<(PeerIndex, SymmetricKey)>,
}

/// The fields of a header in the order of the layout.
pub type HeaderFields = ([u8; 32], (u32, u32));

/// The fields of an exponential DC-net payload in the order of the layout.
pub type DcExponentialFields = ([u8; 32], Vec<Fp>);

/// The fields of a main DC-net payload in the order of the layout.
pub type DcMainFields = (bool, (Vec<Vec<u8>>, (PublicKey, Extension)));

/// The entries of a reveal payload.
pub type RevealFields = Vec<(u32, [u8; 32])>;

/// The model of a header: session identifier, peer index, sequence number.
pub type HeaderModel = (Seq<u8>, (u32, u32));

/// The model of a message.
pub type MessageModel = (HeaderModel, PayloadModel);

/// The model of a payload: the variant with the models of its fields in
/// the order of the layout.
pub enum PayloadModel {
    /// The ephemeral public key.
    KeyExchange(Seq<u8>),
    /// The commitment and the canonical integers of the vector.
    DcExponential((Seq<u8>, Seq<u128>)),
    /// The flag, the slots, the next ephemeral public key, the extension.
    DcMain((bool, (Seq<Seq<u8>>, (Seq<u8>, Extension)))),
    /// The ephemeral secret key.
    Blame(Seq<u8>),
    /// The confirmation data.
    Confirm(Seq<u8>),
    /// The revealed keys with the peer index of each.
    Reveal(Seq<(u32, Seq<u8>)>),
}

impl Layout for Extension {
    type Model = Extension;

    open spec fn model(&self) -> Extension {
        *self
    }

    open spec fn encodable(v: Extension) -> bool {
        true
    }

    open spec fn encoding(v: Extension) -> Seq<u8> {
        match v {
            Extension::NoExtension => spec_u32_to_le_bytes(0),
            Extension::DcAddSecp256k1Scalar => spec_u32_to_le_bytes(1),
        }
    }

    open spec fn parse(bytes: Seq<u8>, at: int) -> Option<(Extension, int)> {
        match u32::parse(bytes, at) {
            Some((index, end)) => if index == 0 {
                Some((Extension::NoExtension, end))
            } else if index == 1 {
                Some((Extension::DcAddSecp256k1Scalar, end))
            } else {
                None
            },
            None => None,
        }
    }
}

impl Wire for Extension {
    fn write(&self, out: &mut Vec<u8>) {
        match self {
            Extension::NoExtension => 0u32.write(out),
            Extension::DcAddSecp256k1Scalar => 1u32.write(out),
        }
    }

    fn read(bytes: &[u8], at: usize) -> (r: Option<(Extension, usize)>) {
        match u32::read(bytes, at) {
            Some((index, end)) => if index == 0 {
                Some((Extension::NoExtension, end))
            } else if index == 1 {
                Some((Extension::DcAddSecp256k1Scalar, end))
            } else {
                None
            },
            None => None,
        }
    }

    proof fn lemma_parse_encoding(v: Extension, bytes: Seq<u8>, at: int) {
        match v {
            Extension::NoExtension => u32::lemma_parse_encoding(0, bytes, at),
            Extension::DcAddSecp256k1Scalar => u32::lemma_parse_encoding(1, bytes, at),
        }
    }

    proof fn lemma_parse_sound(bytes: Seq<u8>, at: int) {
        u32::lemma_parse_sound(bytes, at);
    }
}

impl Extension {
    /// The variant of the extension, without its data.
    pub fn variant(&self) -> (v: crate::ExtensionVariant)
        ensures
            v == match *self {
                Extension::NoExtension => crate::ExtensionVariant::NoExtension,
                Extension::DcAddSecp256k1Scalar => crate::ExtensionVariant::DcAddSecp256k1Scalar,
            },
    {
        match self {
            Extension::NoExtension => crate::ExtensionVariant::NoExtension,
            Extension::DcAddSecp256k1Scalar => crate::ExtensionVariant::DcAddSecp256k1Scalar,
        }
    }
}

impl Layout for Header {
    type Model = HeaderModel;

    open spec fn model(&self) -> HeaderModel {
        (self.session_id@, (self.peer_index, self.sequence_num))
    }

    open spec fn encodable(v: HeaderModel) -> bool {
        HeaderFields::encodable(v)
    }

    open spec fn encoding(v: HeaderModel) -> Seq<u8> {
        HeaderFields::encoding(v)
    }

    open spec fn parse(bytes: Seq<u8>, at: int) -> Option<(HeaderModel, int)> {
        HeaderFields::parse(bytes, at)
    }
}

impl Wire for Header {
    fn write(&self, out: &mut Vec<u8>) {
        self.session_id.write(out);
        self.peer_index.write(out);
        self.sequence_num.write(out);
        assert(out@ =~= old(out)@ + Self::encoding(self.model()));
    }

    fn read(bytes: &[u8], at: usize) -> (r: Option<(Header, usize)>) {
        match HeaderFields::read(bytes, at) {
            Some(((session_id, (peer_index, sequence_num)), end)) => Some(
                (Header { session_id, peer_index, sequence_num }, end),
            ),
            None => None,
        }
    }

    proof fn lemma_parse_encoding(v: HeaderModel, bytes: Seq<u8>, at: int) {
        HeaderFields::lemma_parse_encoding(v, bytes, at);
    }

    proof fn lemma_parse_sound(bytes: Seq<u8>, at: int) {
        HeaderFields::lemma_parse_sound(bytes, at);
    }
}

impl PayloadModel {
    /// The index of the variant in the layout.
    pub open spec fn index(self) -> u32 {
        match self {
            PayloadModel::KeyExchange(_) => 0,
            PayloadModel::DcExponential(_) => 1,
            PayloadModel::DcMain(_) => 2,
            PayloadModel::Blame(_) => 3,
            PayloadModel::Confirm(_) => 4,
            PayloadModel::Reveal(_) => 5,
        }
    }

    /// The encoding of the fields of the variant.
    pub open spec fn fields(self) -> Seq<u8> {
        match self {
            PayloadModel::KeyExchange(v) => PublicKey::encoding(v),
            PayloadModel::DcExponential(v) => DcExponentialFields::encoding(v),
            PayloadModel::DcMain(v) => DcMainFields::encoding(v),
            PayloadModel::Blame(v) => SecretKey::encoding(v),
            PayloadModel::Confirm(v) => Vec::<u8>::encoding(v),
            PayloadModel::Reveal(v) => RevealFields::encoding(v),
        }
    }
}

impl Layout for Payload {
    type Model = PayloadModel;

    open spec fn model(&self) -> PayloadModel {
        match self {
            Payload::KeyExchange(p) => PayloadModel::KeyExchange(p.ke_pk.model()),
            Payload::DcExponential(p) => PayloadModel::DcExponential(
                (p.commitment.model(), p.dc_exp.model()),
            ),
            Payload::DcMain(p) => PayloadModel::DcMain(
                (p.ok, (p.dc_xor.model(), (p.ke_pk.model(), p.extension))),
            ),
            Payload::Blame(p) => PayloadModel::Blame(p.ke_sk.model()),
            Payload::Confirm(p) => PayloadModel::Confirm(p.data.model()),
            Payload::Reveal(p) => PayloadModel::Reveal(p.keys.model()),
        }
    }

    open spec fn encodable(v: PayloadModel) -> bool {
        match v {
            PayloadModel::KeyExchange(v) => PublicKey::encodable(v),
            PayloadModel::DcExponential(v) => DcExponentialFields::encodable(v),
            PayloadModel::DcMain(v) => DcMainFields::encodable(v),
            PayloadModel::Blame(v) => SecretKey::encodable(v),
            PayloadModel::Confirm(v) => Vec::<u8>::encodable(v),
            PayloadModel::Reveal(v) => RevealFields::encodable(v),
        }
    }

    /// The index of the variant, then its fields.
    open spec fn encoding(v: PayloadModel) -> Seq<u8> {
        spec_u32_to_le_bytes(v.index()) + v.fields()
    }

    open spec fn parse(bytes: Seq<u8>, at: int) -> Option<(PayloadModel, int)> {
        match u32::parse(bytes, at) {
            Some((index, start)) => if index == 0 {
                match PublicKey::parse(bytes, start) {
                    Some((v, end)) => Some((PayloadModel::KeyExchange(v), end)),
                    None => None,
                }
            } else if index == 1 {
                match DcExponentialFields::parse(bytes, start) {
                    Some((v, end)) => Some((PayloadModel::DcExponential(v), end)),
                    None => None,
                }
            } else if index == 2 {
                match DcMainFields::parse(bytes, start) {
                    Some((v, end)) => Some((PayloadModel::DcMain(v), end)),
                    None => None,
                }
            } else if index == 3 {
                match SecretKey::parse(bytes, start) {
                    Some((v, end)) => Some((PayloadModel::Blame(v), end)),
                    None => None,
                }
            } else if index == 4 {
                match Vec::<u8>::parse(bytes, start) {
                    Some((v, end)) => Some((PayloadModel::Confirm(v), end)),
                    None => None,
                }
            } else if index == 5 {
                match RevealFields::parse(bytes, start) {
                    Some((v, end)) => Some((PayloadModel::Reveal(v), end)),
                    None => None,
                }
            } else {
                None
            },
            None => None,
        }
    }
}

impl Wire for Payload {
    fn write(&self, out: &mut Vec<u8>) {
        match self {
            Payload::KeyExchange(p) => {
                0u32.write(out);
                p.ke_pk.write(out);
            },
            Payload::DcExponential(p) => {
                1u32.write(out);
                p.commitment.write(out);
                p.dc_exp.write(out);
            },
            Payload::DcMain(p) => {
                2u32.write(out);
                p.ok.write(out);
                p.dc_xor.write(out);
                p.ke_pk.write(out);
                p.extension.write(out);
            },
            Payload::Blame(p) => {
                3u32.write(out);
                p.ke_sk.write(out);
            },
            Payload::Confirm(p) => {
                4u32.write(out);
                p.data.write(out);
            },
            Payload::Reveal(p) => {
                5u32.write(out);
                p.keys.write(out);
            },
        }
        assert(out@ =~= old(out)@ + Self::encoding(self.model()));
    }

    fn read(bytes: &[u8], at: usize) -> (r: Option<(Payload, usize)>) {
        match u32::read(bytes, at) {
            None => None,
            Some((index, start)) => {
                proof {
                    u32::lemma_parse_sound(bytes@, at as int);
                }
                if index == 0 {
                    match PublicKey::read(bytes, start) {
                        Some((ke_pk, end)) => Some(
                            (Payload::KeyExchange(KeyExchange { ke_pk }), end),
                        ),
                        None => None,
                    }
                } else if index == 1 {
                    match DcExponentialFields::read(bytes, start) {
                        Some(((commitment, dc_exp), end)) => Some(
                            (Payload::DcExponential(DcExponential { commitment, dc_exp }), end),
                        ),
                        None => None,
                    }
                } else if index == 2 {
                    match DcMainFields::read(bytes, start) {
                        Some(((ok, (dc_xor, (ke_pk, extension))), end)) => Some(
                            (Payload::DcMain(DcMain { ok, dc_xor, ke_pk, extension }), end),
                        ),
                        None => None,
                    }
                } else if index == 3 {
                    match SecretKey::read(bytes, start) {
                        Some((ke_sk, end)) => Some((Payload::Blame(Blame { ke_sk }), end)),
                        None => None,
                    }
                } else if index == 4 {
                    match Vec::<u8>::read(bytes, start) {
                        Some((data, end)) => Some((Payload::Confirm(Confirm { data }), end)),
                        None => None,
                    }
                } else if index == 5 {
                    match RevealFields::read(bytes, start) {
                        Some((keys, end)) => Some((Payload::Reveal(Reveal { keys }), end)),
                        None => None,
                    }
                } else {
                    None
                }
            },
        }
    }

    proof fn lemma_parse_encoding(v: PayloadModel, bytes: Seq<u8>, at: int) {
        lemma_auto_spec_u32_to_from_le_bytes();
        lemma_split(bytes, at, spec_u32_to_le_bytes(v.index()), v.fields());
        u32::lemma_parse_encoding(v.index(), bytes, at);
        match v {
            PayloadModel::KeyExchange(f) => PublicKey::lemma_parse_encoding(f, bytes, at + 4),
            PayloadModel::DcExponential(f) => DcExponentialFields::lemma_parse_encoding(
                f,
                bytes,
                at + 4,
            ),
            PayloadModel::DcMain(f) => DcMainFields::lemma_parse_encoding(f, bytes, at + 4),
            PayloadModel::Blame(f) => SecretKey::lemma_parse_encoding(f, bytes, at + 4),
            PayloadModel::Confirm(f) => Vec::<u8>::lemma_parse_encoding(f, bytes, at + 4),
            PayloadModel::Reveal(f) => RevealFields::lemma_parse_encoding(f, bytes, at + 4),
        }
    }

    proof fn lemma_parse_sound(bytes: Seq<u8>, at: int) {
        lemma_auto_spec_u32_to_from_le_bytes();
        u32::lemma_parse_sound(bytes, at);
        let (index, start) = u32::parse(bytes, at)->0;
        let (v, end) = Self::parse(bytes, at)->0;
        if index == 0 {
            PublicKey::lemma_parse_sound(bytes, start);
        } else if index == 1 {
            DcExponentialFields::lemma_parse_sound(bytes, start);
        } else if index == 2 {
            DcMainFields::lemma_parse_sound(bytes, start);
        } else if index == 3 {
            SecretKey::lemma_parse_sound(bytes, start);
        } else if index == 4 {
            Vec::<u8>::lemma_parse_sound(bytes, start);
        } else {
            RevealFields::lemma_parse_sound(bytes, start);
        }
        lemma_join(bytes, at, start, end);
    }
}

impl Layout for Message {
    type Model = MessageModel;

    open spec fn model(&self) -> MessageModel {
        (self.header.model(), self.payload.model())
    }

    open spec fn encodable(v: MessageModel) -> bool {
        <(Header, Payload)>::encodable(v)
    }

    open spec fn encoding(v: MessageModel) -> Seq<u8> {
        <(Header, Payload)>::encoding(v)
    }

    open spec fn parse(bytes: Seq<u8>, at: int) -> Option<(MessageModel, int)> {
        <(Header, Payload)>::parse(bytes, at)
    }
}

impl Wire for Message {
    fn write(&self, out: &mut Vec<u8>) {
        self.header.write(out);
        self.payload.write(out);
        assert(out@ =~= old(out)@ + Self::encoding(self.model()));
    }

    fn read(bytes: &[u8], at: usize) -> (r: Option<(Message, usize)>) {
        match <(Header, Payload)>::read(bytes, at) {
            Some(((header, payload), end)) => Some((Message { header, payload }, end)),
            None => None,
        }
    }

    proof fn lemma_parse_encoding(v: MessageModel, bytes: Seq<u8>, at: int) {
        <(Header, Payload)>::lemma_parse_encoding(v, bytes, at);
    }

    proof fn lemma_parse_sound(bytes: Seq<u8>, at: int) {
        <(Header, Payload)>::lemma_parse_sound(bytes, at);
    }
}

/// The session identifier in the header of a message.
pub open spec fn session_of(message: MessageModel) -> Seq<u8> {
    let (header, _) = message;
    let (session_id, _) = header;
    session_id
}

/// The peer index in the header of a message.
pub open spec fn peer_index_of(message: MessageModel) -> u32 {
    let (header, _) = message;
    let (_, numbers) = header;
    let (peer_index, _) = numbers;
    peer_index
}

/// The sequence number in the header of a message.
pub open spec fn sequence_num_of(message: MessageModel) -> u32 {
    let (header, _) = message;
    let (_, numbers) = header;
    let (_, sequence_num) = numbers;
    sequence_num
}

/// The payload of a message.
pub open spec fn payload_of(message: MessageModel) -> PayloadModel {
    let (_, payload) = message;
    payload
}

/// The message that `bytes` are the encoding of, if they are one: the
/// message that is encoded from the first byte on and ends with the last.
pub open spec fn decoded(bytes: Seq<u8>) -> Option<MessageModel> {
    match Message::parse(bytes, 0) {
        Some((v, end)) => if end == bytes.len() {
            Some(v)
        } else {
            None
        },
        None => None,
    }
}

impl Message {
    /// The bytes of the message.
    pub fn encode(&self) -> (bytes: Vec<u8>)
        ensures
            bytes@ == Message::encoding(self.model()),
    {
        let mut out: Vec<u8> = Vec::new();
        self.write(&mut out);
        assert(out@ =~= Message::encoding(self.model()));
        out
    }

    /// The message that `bytes` encode.  Bytes behind the message are not
    /// accepted.
    pub fn decode(bytes: &[u8]) -> (r: Option<Message>)
        ensures
            match r {
                Some(message) => decoded(bytes@) == Some(message.model()),
                None => decoded(bytes@) is None,
            },
    {
        match Message::read(bytes, 0) {
            Some((message, end)) => if end == bytes.len() {
                Some(message)
            } else {
                None
            },
            None => None,
        }
    }
}

/// Every encodable message is decoded from its encoding.
pub proof fn lemma_decode_encode(v: MessageModel)
    requires
        Message::encodable(v),
    ensures
        decoded(Message::encoding(v)) == Some(v),
{
    let bytes = Message::encoding(v);
    assert(bytes.subrange(0, bytes.len() as int) =~= bytes);
    Message::lemma_parse_encoding(v, bytes, 0);
}

/// Bytes decode to a message only if they are its encoding, so no two
/// byte strings decode to the same message and no byte string to two.
pub proof fn lemma_encode_decode(bytes: Seq<u8>)
    requires
        decoded(bytes) is Some,
    ensures
        Message::encodable(decoded(bytes)->0),
        Message::encoding(decoded(bytes)->0) == bytes,
{
    Message::lemma_parse_sound(bytes, 0);
    assert(bytes.subrange(0, bytes.len() as int) =~= bytes);
}

} // verus!
