//! Messages from the server to its clients, and their binary encoding.
//!
//! A message is its variant index as a variable-length integer, followed by its
//! fields in order: identifiers as variable-length integers, each coordinate as
//! four little-endian bytes, text as its byte length followed by its UTF-8 bytes,
//! and a sequence as its length followed by its items.
use crate::bytes::{
    holds_at, le_bytes, le_value, lemma_holds_split, lemma_le_bytes_len, lemma_le_round_trip,
    lemma_pow256_values, lemma_varint_round_trip, push_le, push_varint, read_le, read_varint,
    read_varint_at, varint,
};
use vstd::prelude::*;
use vstd::utf8::{decode_utf8, encode_utf8, encode_utf8_decode_utf8, encode_utf8_valid_utf8, valid_utf8};

verus! {

/// A position in the world; each coordinate is the bit pattern of a 32-bit float.
#[derive(Clone, Copy, Debug, PartialEq, Eq, Structural)]
pub struct Translation {
    pub x: u32,
    pub y: u32,
    pub z: u32,
}

/// A message from the server, carried on the reliable ordered server channel.
#[derive(Clone, Debug, PartialEq, Eq)]
pub enum ServerMessages {
    /// A player exists: its entity on the server, its connection and its spawn position.
    PlayerCreate { entity: u64, id: u64, translation: Translation },
    /// The player of this connection no longer exists.
    PlayerRemove { id: u64 },
    /// Made locally when bytes could not be decoded; never sent by a peer.
    Error { message: String },
}

/// What a [`ServerMessages`] value is, with its text as characters.
pub enum MessageModel {
    PlayerCreate { entity: u64, id: u64, translation: Translation },
    PlayerRemove { id: u64 },
    Error { message: Seq<char> },
}

impl View for ServerMessages {
    type V = MessageModel;

    open spec fn view(&self) -> MessageModel {
        match self {
            ServerMessages::PlayerCreate { entity, id, translation } => MessageModel::PlayerCreate {
                entity: *entity,
                id: *id,
                translation: *translation,
            },
            ServerMessages::PlayerRemove { id } => MessageModel::PlayerRemove { id: *id },
            ServerMessages::Error { message } => MessageModel::Error { message: message@ },
        }
    }
}

/// A snapshot of positions, carried on the unreliable channel: the entity at
/// index `i` of `entities` is at index `i` of `translations`.
#[derive(Clone, Debug, PartialEq, Eq, Default)]
pub struct NetworkedEntities {
    pub entities: Vec<u64>,
    pub translations: Vec<Translation>,
}

pub open spec fn translation_bytes(t: Translation) -> Seq<u8> {
    le_bytes(t.x as nat, 4) + le_bytes(t.y as nat, 4) + le_bytes(t.z as nat, 4)
}

pub open spec fn read_translation(b: Seq<u8>, pos: int) -> Option<(Translation, int)> {
    if 0 <= pos && pos + 12 <= b.len() {
        Some(
            (
                Translation {
                    x: le_value(b, pos, 4) as u32,
                    y: le_value(b, pos + 4, 4) as u32,
                    z: le_value(b, pos + 8, 4) as u32,
                },
                pos + 12,
            ),
        )
    } else {
        None
    }
}

pub open spec fn text_bytes(s: Seq<char>) -> Seq<u8> {
    varint(encode_utf8(s).len() as u64) + encode_utf8(s)
}

pub open spec fn read_text(b: Seq<u8>, pos: int) -> Option<(Seq<char>, int)> {
    match read_varint(b, pos) {
        Some((n, p)) => if p + n <= b.len() && valid_utf8(b.subrange(p, p + n)) {
            Some((decode_utf8(b.subrange(p, p + n)), p + n))
        } else {
            None
        },
        None => None,
    }
}

/// The encoding of a message.
pub open spec fn message_bytes(m: MessageModel) -> Seq<u8> {
    match m {
        MessageModel::PlayerCreate { entity, id, translation } => varint(0) + varint(entity)
            + varint(id) + translation_bytes(translation),
        MessageModel::PlayerRemove { id } => varint(1) + varint(id),
        MessageModel::Error { message } => varint(2) + text_bytes(message),
    }
}

/// Reads a message at the start of `b`: the message and the number of bytes it took.
pub open spec fn read_message(b: Seq<u8>) -> Option<(MessageModel, int)> {
    match read_varint(b, 0) {
        Some((tag, p)) => if tag == 0 {
            match read_varint(b, p) {
                Some((entity, p1)) => match read_varint(b, p1) {
                    Some((id, p2)) => match read_translation(b, p2) {
                        Some((translation, p3)) => Some(
                            (MessageModel::PlayerCreate { entity, id, translation }, p3),
                        ),
                        None => None,
                    },
                    None => None,
                },
                None => None,
            }
        } else if tag == 1 {
            match read_varint(b, p) {
                Some((id, p1)) => Some((MessageModel::PlayerRemove { id }, p1)),
                None => None,
            }
        } else if tag == 2 {
            match read_text(b, p) {
                Some((message, p1)) => Some((MessageModel::Error { message }, p1)),
                None => None,
            }
        } else {
            None
        },
        None => None,
    }
}

pub open spec fn ids_bytes(s: Seq<u64>) -> Seq<u8>
    decreases s.len(),
{
    if s.len() == 0 {
        Seq::empty()
    } else {
        ids_bytes(s.drop_last()) + varint(s.last())
    }
}

pub open spec fn translations_bytes(s: Seq<Translation>) -> Seq<u8>
    decreases s.len(),
{
    if s.len() == 0 {
        Seq::empty()
    } else {
        translations_bytes(s.drop_last()) + translation_bytes(s.last())
    }
}

/// Reads `n` identifiers one after the other from `pos`.
pub open spec fn read_ids(b: Seq<u8>, pos: int, n: nat) -> Option<(Seq<u64>, int)>
    decreases n,
{
    if n == 0 {
        Some((Seq::empty(), pos))
    } else {
        match read_ids(b, pos, (n - 1) as nat) {
            Some((s, p)) => match read_varint(b, p) {
                Some((v, q)) => Some((s.push(v), q)),
                None => None,
            },
            None => None,
        }
    }
}

/// Reads `n` positions one after the other from `pos`.
pub open spec fn read_translations(b: Seq<u8>, pos: int, n: nat) -> Option<(Seq<Translation>, int)>
    decreases n,
{
    if n == 0 {
        Some((Seq::empty(), pos))
    } else {
        match read_translations(b, pos, (n - 1) as nat) {
            Some((s, p)) => match read_translation(b, p) {
                Some((t, q)) => Some((s.push(t), q)),
                None => None,
            },
            None => None,
        }
    }
}

/// The encoding of a snapshot.
pub open spec fn snapshot_bytes(entities: Seq<u64>, translations: Seq<Translation>) -> Seq<u8> {
    varint(entities.len() as u64) + ids_bytes(entities) + varint(translations.len() as u64)
        + translations_bytes(translations)
}

/// Reads a snapshot at the start of `b`.
pub open spec fn read_snapshot(b: Seq<u8>) -> Option<(Seq<u64>, Seq<Translation>, int)> {
    match read_varint(b, 0) {
        Some((n, p)) => match read_ids(b, p, n as nat) {
            Some((entities, p1)) => match read_varint(b, p1) {
                Some((m, p2)) => match read_translations(b, p2, m as nat) {
                    Some((translations, p3)) => Some((entities, translations, p3)),
                    None => None,
                },
                None => None,
            },
            None => None,
        },
        None => None,
    }
}

pub proof fn lemma_translation_round_trip(b: Seq<u8>, pos: int, t: Translation)
    requires
        holds_at(b, pos, translation_bytes(t)),
    ensures
        translation_bytes(t).len() == 12,
        read_translation(b, pos) == Some((t, pos + 12)),
{
    lemma_pow256_values();
    lemma_le_bytes_len(t.x as nat, 4);
    lemma_le_bytes_len(t.y as nat, 4);
    lemma_le_bytes_len(t.z as nat, 4);
    let bx = le_bytes(t.x as nat, 4);
    let by = le_bytes(t.y as nat, 4);
    let bz = le_bytes(t.z as nat, 4);
    lemma_holds_split(b, pos, bx + by, bz);
    lemma_holds_split(b, pos, bx, by);
    lemma_le_round_trip(b, pos, t.x as nat, 4);
    lemma_le_round_trip(b, pos + 4, t.y as nat, 4);
    lemma_le_round_trip(b, pos + 8, t.z as nat, 4);
}

pub proof fn lemma_ids_round_trip(b: Seq<u8>, pos: int, s: Seq<u64>)
    requires
        holds_at(b, pos, ids_bytes(s)),
    ensures
        read_ids(b, pos, s.len()) == Some((s, pos + ids_bytes(s).len())),
    decreases s.len(),
{
    if s.len() > 0 {
        let init = s.drop_last();
        lemma_holds_split(b, pos, ids_bytes(init), varint(s.last()));
        lemma_ids_round_trip(b, pos, init);
        lemma_varint_round_trip(b, pos + ids_bytes(init).len(), s.last());
        assert(init.push(s.last()) =~= s);
    }
}

pub proof fn lemma_translations_round_trip(b: Seq<u8>, pos: int, s: Seq<Translation>)
    requires
        holds_at(b, pos, translations_bytes(s)),
    ensures
        read_translations(b, pos, s.len()) == Some((s, pos + translations_bytes(s).len())),
    decreases s.len(),
{
    if s.len() > 0 {
        let init = s.drop_last();
        lemma_holds_split(b, pos, translations_bytes(init), translation_bytes(s.last()));
        lemma_translations_round_trip(b, pos, init);
        lemma_translation_round_trip(b, pos + translations_bytes(init).len(), s.last());
        assert(init.push(s.last()) =~= s);
    }
}

/// Decoding the encoding of any message gives that message back, and all of
/// its bytes are taken.
pub proof fn lemma_message_round_trip(m: MessageModel)
    requires
        m matches MessageModel::Error { message } ==> encode_utf8(message).len() < 0x1_0000_0000_0000_0000,
    ensures
        read_message(message_bytes(m)) == Some((m, message_bytes(m).len() as int)),
{
    let b = message_bytes(m);
    assert(b.subrange(0, b.len() as int) =~= b);
    match m {
        MessageModel::PlayerCreate { entity, id, translation } => {
            let b0 = varint(0);
            let b1 = varint(entity);
            let b2 = varint(id);
            let b3 = translation_bytes(translation);
            lemma_holds_split(b, 0, b0 + b1 + b2, b3);
            lemma_holds_split(b, 0, b0 + b1, b2);
            lemma_holds_split(b, 0, b0, b1);
            lemma_varint_round_trip(b, 0, 0);
            lemma_varint_round_trip(b, b0.len() as int, entity);
            lemma_varint_round_trip(b, (b0.len() + b1.len()) as int, id);
            lemma_translation_round_trip(b, (b0.len() + b1.len() + b2.len()) as int, translation);
        },
        MessageModel::PlayerRemove { id } => {
            lemma_holds_split(b, 0, varint(1), varint(id));
            lemma_varint_round_trip(b, 0, 1);
            lemma_varint_round_trip(b, varint(1).len() as int, id);
        },
        MessageModel::Error { message } => {
            let text = encode_utf8(message);
            let b0 = varint(2);
            let bn = varint(text.len() as u64);
            lemma_holds_split(b, 0, b0, bn + text);
            lemma_holds_split(b, b0.len() as int, bn, text);
            lemma_varint_round_trip(b, 0, 2);
            lemma_varint_round_trip(b, b0.len() as int, text.len() as u64);
            encode_utf8_valid_utf8(message);
            encode_utf8_decode_utf8(message);
        },
    }
}

/// Decoding the encoding of any snapshot gives its two sequences back.
pub proof fn lemma_snapshot_round_trip(entities: Seq<u64>, translations: Seq<Translation>)
    requires
        entities.len() < 0x1_0000_0000_0000_0000,
        translations.len() < 0x1_0000_0000_0000_0000,
    ensures
        read_snapshot(snapshot_bytes(entities, translations)) == Some(
            (entities, translations, snapshot_bytes(entities, translations).len() as int),
        ),
{
    let b = snapshot_bytes(entities, translations);
    assert(b.subrange(0, b.len() as int) =~= b);
    let b0 = varint(entities.len() as u64);
    let b1 = ids_bytes(entities);
    let b2 = varint(translations.len() as u64);
    let b3 = translations_bytes(translations);
    lemma_holds_split(b, 0, b0 + b1 + b2, b3);
    lemma_holds_split(b, 0, b0 + b1, b2);
    lemma_holds_split(b, 0, b0, b1);
    lemma_varint_round_trip(b, 0, entities.len() as u64);
    lemma_ids_round_trip(b, b0.len() as int, entities);
    lemma_varint_round_trip(b, (b0.len() + b1.len()) as int, translations.len() as u64);
    lemma_translations_round_trip(b, (b0.len() + b1.len() + b2.len()) as int, translations);
}

pub proof fn lemma_read_ids_stays_none(b: Seq<u8>, pos: int, k: nat, n: nat)
    requires
        k <= n,
        read_ids(b, pos, k) is None,
    ensures
        read_ids(b, pos, n) is None,
    decreases n,
{
    if k < n {
        lemma_read_ids_stays_none(b, pos, k, (n - 1) as nat);
    }
}

pub proof fn lemma_read_translations_stays_none(b: Seq<u8>, pos: int, k: nat, n: nat)
    requires
        k <= n,
        read_translations(b, pos, k) is None,
    ensures
        read_translations(b, pos, n) is None,
    decreases n,
{
    if k < n {
        lemma_read_translations_stays_none(b, pos, k, (n - 1) as nat);
    }
}

/// Relies on `String::from_utf8`: it accepts exactly the well-formed UTF-8 byte
/// sequences, and the string it returns holds the characters those bytes encode.
#[verifier::external_body]
fn string_from_utf8(bytes: Vec<u8>) -> (r: Option<String>)
    ensures
        r is Some <==> valid_utf8(bytes@),
        r matches Some(s) ==> s@ == decode_utf8(bytes@),
{
    String::from_utf8(bytes).ok()
}

fn push_translation(out: &mut Vec<u8>, t: Translation)
    ensures
        final(out)@ == old(out)@ + translation_bytes(t),
{
    let ghost start = out@;
    push_le(out, t.x as u64, 4);
    push_le(out, t.y as u64, 4);
    push_le(out, t.z as u64, 4);
    assert(final(out)@ =~= start + translation_bytes(t));
}

fn read_translation_at(b: &[u8], pos: usize) -> (r: Option<(Translation, usize)>)
    ensures
        r is Some <==> read_translation(b@, pos as int) is Some,
        r matches Some((t, q)) ==> read_translation(b@, pos as int) == Some((t, q as int)),
{
    if b.len() < 12 || pos > b.len() - 12 {
        return None;
    }
    proof {
        lemma_pow256_values();
        crate::bytes::lemma_le_value_bound(b@, pos as int, 4);
        crate::bytes::lemma_le_value_bound(b@, pos + 4, 4);
        crate::bytes::lemma_le_value_bound(b@, pos + 8, 4);
    }
    let x: u64 = read_le(b, pos, 4);
    let y: u64 = read_le(b, pos + 4, 4);
    let z: u64 = read_le(b, pos + 8, 4);
    Some((Translation { x: x as u32, y: y as u32, z: z as u32 }, pos + 12))
}

/// Encodes a server message.
pub fn serialize_server_message(message: &ServerMessages) -> (r: Vec<u8>)
    ensures
        r@ == message_bytes(message@),
{
    let mut out: Vec<u8> = Vec::new();
    match message {
        ServerMessages::PlayerCreate { entity, id, translation } => {
            push_varint(&mut out, 0);
            push_varint(&mut out, *entity);
            push_varint(&mut out, *id);
            push_translation(&mut out, *translation);
            assert(out@ =~= message_bytes(message@));
        },
        ServerMessages::PlayerRemove { id } => {
            push_varint(&mut out, 1);
            push_varint(&mut out, *id);
            assert(out@ =~= message_bytes(message@));
        },
        ServerMessages::Error { message: text } => {
            let raw: &[u8] = text.as_str().as_bytes();
            push_varint(&mut out, 2);
            push_varint(&mut out, raw.len() as u64);
            let ghost head = out@;
            let mut i: usize = 0;
            while i < raw.len()
                invariant
                    i <= raw@.len(),
                    out@ == head + raw@.subrange(0, i as int),
                decreases raw@.len() - i,
            {
                out.push(raw[i]);
                i = i + 1;
                assert(out@ =~= head + raw@.subrange(0, i as int));
            }
            assert(raw@.subrange(0, raw@.len() as int) =~= raw@);
            assert(out@ =~= message_bytes(message@));
        },
    }
    out
}

fn read_text_at(b: &[u8], pos: usize) -> (r: Option<(String, usize)>)
    ensures
        r is Some <==> read_text(b@, pos as int) is Some,
        r matches Some((s, q)) ==> read_text(b@, pos as int) == Some((s@, q as int)),
{
    match read_varint_at(b, pos) {
        None => None,
        Some((n, p)) => {
            if n > (b.len() - p) as u64 {
                return None;
            }
            let end: usize = p + n as usize;
            let mut raw: Vec<u8> = Vec::new();
            let mut i: usize = p;
            while i < end
                invariant
                    p <= i <= end,
                    end <= b@.len(),
                    raw@ == b@.subrange(p as int, i as int),
                decreases end - i,
            {
                raw.push(b[i]);
                i = i + 1;
                assert(raw@ =~= b@.subrange(p as int, i as int));
            }
            match string_from_utf8(raw) {
                Some(s) => Some((s, end)),
                None => None,
            }
        },
    }
}

/// Decodes a server message at the start of `bytes`, with the number of bytes
/// it took. Bytes that hold no message give an `Error` message and 0.
pub fn deserialize_server_message(bytes: &[u8]) -> (r: (ServerMessages, usize))
    ensures
        match read_message(bytes@) {
            Some((m, n)) => r.0@ == m && r.1 == n,
            None => r.0 is Error && r.1 == 0,
        },
{
    let parsed: Option<(ServerMessages, usize)> = match read_varint_at(bytes, 0) {
        None => None,
        Some((tag, p)) => {
            if tag == 0 {
                match read_varint_at(bytes, p) {
                    None => None,
                    Some((entity, p1)) => match read_varint_at(bytes, p1) {
                        None => None,
                        Some((id, p2)) => match read_translation_at(bytes, p2) {
                            None => None,
                            Some((translation, p3)) => Some(
                                (ServerMessages::PlayerCreate { entity, id, translation }, p3),
                            ),
                        },
                    },
                }
            } else if tag == 1 {
                match read_varint_at(bytes, p) {
                    None => None,
                    Some((id, p1)) => Some((ServerMessages::PlayerRemove { id }, p1)),
                }
            } else if tag == 2 {
                match read_text_at(bytes, p) {
                    None => None,
                    Some((message, p1)) => Some((ServerMessages::Error { message }, p1)),
                }
            } else {
                None
            }
        },
    };
    match parsed {
        Some(r) => r,
        None => (ServerMessages::Error { message: String::from_str("malformed server message") }, 0),
    }
}

/// Encodes a snapshot.
pub fn serialize_networked_entities(snapshot: &NetworkedEntities) -> (r: Vec<u8>)
    ensures
        r@ == snapshot_bytes(snapshot.entities@, snapshot.translations@),
{
    let mut out: Vec<u8> = Vec::new();
    push_varint(&mut out, snapshot.entities.len() as u64);
    let ghost head = out@;
    let mut i: usize = 0;
    while i < snapshot.entities.len()
        invariant
            i <= snapshot.entities@.len(),
            out@ == head + ids_bytes(snapshot.entities@.subrange(0, i as int)),
        decreases snapshot.entities@.len() - i,
    {
        push_varint(&mut out, snapshot.entities[i]);
        i = i + 1;
        assert(snapshot.entities@.subrange(0, i as int).drop_last() =~= snapshot.entities@.subrange(0, i - 1));
        assert(out@ =~= head + ids_bytes(snapshot.entities@.subrange(0, i as int)));
    }
    assert(snapshot.entities@.subrange(0, i as int) =~= snapshot.entities@);
    push_varint(&mut out, snapshot.translations.len() as u64);
    let ghost mid = out@;
    let mut j: usize = 0;
    while j < snapshot.translations.len()
        invariant
            j <= snapshot.translations@.len(),
            out@ == mid + translations_bytes(snapshot.translations@.subrange(0, j as int)),
        decreases snapshot.translations@.len() - j,
    {
        push_translation(&mut out, snapshot.translations[j]);
        j = j + 1;
        assert(snapshot.translations@.subrange(0, j as int).drop_last() =~= snapshot.translations@.subrange(0, j - 1));
        assert(out@ =~= mid + translations_bytes(snapshot.translations@.subrange(0, j as int)));
    }
    assert(snapshot.translations@.subrange(0, j as int) =~= snapshot.translations@);
    assert(out@ =~= snapshot_bytes(snapshot.entities@, snapshot.translations@));
    out
}

fn read_ids_at(b: &[u8], pos: usize, n: u64) -> (r: Option<(Vec<u64>, usize)>)
    ensures
        r is Some <==> read_ids(b@, pos as int, n as nat) is Some,
        r matches Some((v, q)) ==> read_ids(b@, pos as int, n as nat) == Some((v@, q as int)),
{
    let mut out: Vec<u64> = Vec::new();
    let mut p: usize = pos;
    let mut i: u64 = 0;
    while i < n
        invariant
            i <= n,
            read_ids(b@, pos as int, i as nat) == Some((out@, p as int)),
        decreases n - i,
    {
        match read_varint_at(b, p) {
            None => {
                proof {
                    lemma_read_ids_stays_none(b@, pos as int, (i + 1) as nat, n as nat);
                }
                return None;
            },
            Some((v, q)) => {
                out.push(v);
                p = q;
                i = i + 1;
            },
        }
    }
    Some((out, p))
}

fn read_translations_at(b: &[u8], pos: usize, n: u64) -> (r: Option<(Vec<Translation>, usize)>)
    ensures
        r is Some <==> read_translations(b@, pos as int, n as nat) is Some,
        r matches Some((v, q)) ==> read_translations(b@, pos as int, n as nat) == Some(
            (v@, q as int),
        ),
{
    let mut out: Vec<Translation> = Vec::new();
    let mut p: usize = pos;
    let mut i: u64 = 0;
    while i < n
        invariant
            i <= n,
            read_translations(b@, pos as int, i as nat) == Some((out@, p as int)),
        decreases n - i,
    {
        match read_translation_at(b, p) {
            None => {
                proof {
                    lemma_read_translations_stays_none(b@, pos as int, (i + 1) as nat, n as nat);
                }
                return None;
            },
            Some((t, q)) => {
                out.push(t);
                p = q;
                i = i + 1;
            },
        }
    }
    Some((out, p))
}

/// Decodes a snapshot at the start of `bytes`; `None` where the bytes hold none.
/// The two sequences are returned as they were read, even when their lengths differ.
pub fn deserialize_networked_entities(bytes: &[u8]) -> (r: Option<(NetworkedEntities, usize)>)
    ensures
        match read_snapshot(bytes@) {
            Some((entities, translations, n)) => r matches Some((s, k)) && s.entities@ == entities
                && s.translations@ == translations && k == n,
            None => r is None,
        },
{
    match read_varint_at(bytes, 0) {
        None => None,
        Some((n, p)) => match read_ids_at(bytes, p, n) {
            None => None,
            Some((entities, p1)) => match read_varint_at(bytes, p1) {
                None => None,
                Some((m, p2)) => match read_translations_at(bytes, p2, m) {
                    None => None,
                    Some((translations, p3)) => Some((NetworkedEntities { entities, translations }, p3)),
                },
            },
        },
    }
}

} // verus!
