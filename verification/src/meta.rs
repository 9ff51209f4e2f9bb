//! The concrete metadata carried with each submitted image, and its
//! serialized side-record format.
//!
//! A side record holds the image's file name followed by the submitting
//! user and the message that carried the image. The format is
//! self-delimiting: each character of the file name is stored as its scalar
//! value in four little-endian bytes, the name is closed by a four-byte end
//! marker that is not a valid scalar value, and the two identifiers follow
//! as eight little-endian bytes each. Encoding and decoding are verified to
//! be mutually inverse, so a record written by [`Metadata::encode_record`]
//! always decodes, and whatever decodes re-encodes to the very same bytes.

use vstd::bytes::{
    lemma_auto_spec_u32_to_from_le_bytes, lemma_auto_spec_u64_to_from_le_bytes,
    spec_u32_from_le_bytes, spec_u32_to_le_bytes, spec_u64_from_le_bytes, spec_u64_to_le_bytes,
    u32_from_le_bytes, u32_to_le_bytes, u64_from_le_bytes, u64_to_le_bytes,
};
use vstd::prelude::*;
use vstd::slice::slice_subrange;
use vstd::string::StrSliceExecFns;
use vstd::string::StringExecFns;
use vstd::utf8::{char_is_scalar, char_u32_cast};

use crate::image::Metadata;

verus! {

/// The four-byte marker closing the file-name portion of a side record.
/// It is not a valid Unicode scalar value, so it can never collide with an
/// encoded character.
pub const NAME_END_MARK: u32 = 0xFFFF_FFFF;

/// Relies on `char::from_u32`: it returns the character with the given
/// scalar value, and `None` exactly for surrogates and values above the
/// Unicode maximum.
pub assume_specification[ char::from_u32 ](v: u32) -> (r: Option<char>)
    ensures
        r is Some <==> (v < 0xD800 || (0xE000 <= v && v <= 0x10FFFF)),
        r matches Some(c) ==> c as u32 == v,
;

/// Relies on `String::push`: it appends the given character to the end of
/// the string.
pub assume_specification[ String::push ](s: &mut String, c: char)
    ensures
        final (s)@ == old(s)@.push(c),
;

/// Whether a four-byte group holds a valid Unicode scalar value.
pub open spec fn valid_scalar(v: u32) -> bool {
    v < 0xD800 || (0xE000 <= v && v <= 0x10FFFF)
}

/// The encoding of a file name: each character as its scalar value in four
/// little-endian bytes, in order.
pub open spec fn chars_bytes(name: Seq<char>) -> Seq<u8>
    decreases name.len(),
{
    if name.len() == 0 {
        Seq::empty()
    } else {
        spec_u32_to_le_bytes(name[0] as u32) + chars_bytes(name.drop_first())
    }
}

/// Parses the file-name portion of a side record: the characters up to the
/// end marker, and the bytes that follow it. `None` if the bytes run out
/// before the marker or a group is not a valid scalar value.
pub open spec fn parse_name(b: Seq<u8>) -> Option<(Seq<char>, Seq<u8>)>
    decreases b.len(),
{
    if b.len() < 4 {
        None
    } else {
        let v = spec_u32_from_le_bytes(b.subrange(0, 4));
        if v == NAME_END_MARK {
            Some((Seq::empty(), b.skip(4)))
        } else if valid_scalar(v) {
            match parse_name(b.skip(4)) {
                None => None,
                Some(p) => Some((seq![v as char] + p.0, p.1)),
            }
        } else {
            None
        }
    }
}

/// The full side record of a metadata value.
pub open spec fn meta_record(name: Seq<char>, user_id: i64, message_id: i64) -> Seq<u8> {
    chars_bytes(name) + spec_u32_to_le_bytes(NAME_END_MARK) + spec_u64_to_le_bytes(
        user_id as u64,
    ) + spec_u64_to_le_bytes(message_id as u64)
}

/// A name encoding is four bytes per character.
pub proof fn lemma_chars_bytes_len(name: Seq<char>)
    ensures
        chars_bytes(name).len() == 4 * name.len(),
    decreases name.len(),
{
    lemma_auto_spec_u32_to_from_le_bytes();
    if name.len() > 0 {
        lemma_chars_bytes_len(name.drop_first());
    }
}

/// Appending a character to a name appends its four bytes to the encoding.
pub proof fn lemma_chars_bytes_push(name: Seq<char>, c: char)
    ensures
        chars_bytes(name.push(c)) == chars_bytes(name) + spec_u32_to_le_bytes(c as u32),
    decreases name.len(),
{
    if name.len() == 0 {
        assert(name.push(c)[0] == c);
        assert(name.push(c).drop_first() =~= Seq::<char>::empty());
        assert(chars_bytes(Seq::<char>::empty()) =~= Seq::<u8>::empty());
        assert(name =~= Seq::<char>::empty());
        assert(chars_bytes(name.push(c)) =~= chars_bytes(name) + spec_u32_to_le_bytes(c as u32));
    } else {
        assert(name.push(c).drop_first() =~= name.drop_first().push(c));
        lemma_chars_bytes_push(name.drop_first(), c);
        assert(chars_bytes(name.push(c)) =~= chars_bytes(name) + spec_u32_to_le_bytes(c as u32));
    }
}

/// Round trip of the name parser: parsing an encoded name followed by the
/// end marker yields exactly that name and the remaining bytes.
pub proof fn lemma_parse_round_trip(name: Seq<char>, rest: Seq<u8>)
    ensures
        parse_name(chars_bytes(name) + spec_u32_to_le_bytes(NAME_END_MARK) + rest) == Some(
            (name, rest),
        ),
    decreases name.len(),
{
    lemma_auto_spec_u32_to_from_le_bytes();
    let b = chars_bytes(name) + spec_u32_to_le_bytes(NAME_END_MARK) + rest;
    if name.len() == 0 {
        assert(b.subrange(0, 4) =~= spec_u32_to_le_bytes(NAME_END_MARK));
        assert(b.skip(4) =~= rest);
        assert(parse_name(b) == Some((Seq::<char>::empty(), rest)));
        assert(name =~= Seq::<char>::empty());
    } else {
        let c = name[0];
        char_is_scalar(c);
        char_u32_cast(c, c as u32);
        lemma_chars_bytes_len(name);
        assert(b.subrange(0, 4) =~= spec_u32_to_le_bytes(c as u32));
        assert(b.skip(4) =~= chars_bytes(name.drop_first()) + spec_u32_to_le_bytes(
            NAME_END_MARK,
        ) + rest);
        lemma_parse_round_trip(name.drop_first(), rest);
        let v = spec_u32_from_le_bytes(b.subrange(0, 4));
        assert(v == c as u32);
        assert(valid_scalar(v));
        assert(v != NAME_END_MARK);
        assert(seq![v as char] + name.drop_first() =~= name);
    }
}

/// Soundness of the name parser: whatever it accepts is the encoding of the
/// parsed name, the end marker, and the parsed remainder.
pub proof fn lemma_parse_sound(b: Seq<u8>)
    ensures
        parse_name(b) matches Some(p) ==> b =~= chars_bytes(p.0) + spec_u32_to_le_bytes(
            NAME_END_MARK,
        ) + p.1,
    decreases b.len(),
{
    lemma_auto_spec_u32_to_from_le_bytes();
    if b.len() >= 4 {
        let v = spec_u32_from_le_bytes(b.subrange(0, 4));
        if v == NAME_END_MARK {
            assert(spec_u32_to_le_bytes(v) =~= b.subrange(0, 4));
            assert(b =~= b.subrange(0, 4) + b.skip(4));
            assert(chars_bytes(Seq::<char>::empty()) =~= Seq::<u8>::empty());
        } else if valid_scalar(v) {
            lemma_parse_sound(b.skip(4));
            match parse_name(b.skip(4)) {
                None => {},
                Some(p2) => {
                    let name = seq![v as char] + p2.0;
                    char_u32_cast(v as char, v);
                    assert(name[0] == v as char);
                    assert((name[0] as u32) == v);
                    assert(name.drop_first() =~= p2.0);
                    assert(spec_u32_to_le_bytes(v) =~= b.subrange(0, 4));
                    assert(chars_bytes(name) =~= b.subrange(0, 4) + chars_bytes(p2.0));
                    assert(b.skip(4) =~= chars_bytes(p2.0) + spec_u32_to_le_bytes(
                        NAME_END_MARK,
                    ) + p2.1);
                    assert(b =~= b.subrange(0, 4) + b.skip(4));
                },
            }
        }
    }
}

/// The metadata carried with each image the duplicate-detection service
/// sees: the storage file name, the submitting user, and the message that
/// carried the image.
#[derive(Debug, Clone, PartialEq)]
pub struct ImageMetadata {
    pub file_name: String,
    pub user_id: i64,
    pub message_id: i64,
}

impl ImageMetadata {
    /// Packs the three fields into a metadata value.
    pub fn new(file_name: String, user_id: i64, message_id: i64) -> (r: Self)
        ensures
            r.file_name@ == file_name@,
            r.user_id == user_id,
            r.message_id == message_id,
    {
        Self { file_name, user_id, message_id }
    }
}

impl Metadata for ImageMetadata {
    open spec fn key(&self) -> Seq<char> {
        self.file_name@
    }

    open spec fn record_of(&self) -> Seq<u8> {
        meta_record(self.file_name@, self.user_id, self.message_id)
    }

    fn file_name(&self) -> (r: &str) {
        self.file_name.as_str()
    }

    fn dup(&self) -> (r: Self) {
        ImageMetadata {
            file_name: self.file_name.clone(),
            user_id: self.user_id,
            message_id: self.message_id,
        }
    }

    fn encode_record(&self) -> (r: Vec<u8>) {
        let name = self.file_name.as_str();
        let n = name.unicode_len();
        let mut out: Vec<u8> = Vec::new();
        let mut i: usize = 0;
        while i < n
            invariant
                i <= n,
                n == name@.len(),
                name@ == self.file_name@,
                out@ == chars_bytes(name@.take(i as int)),
            decreases n - i,
        {
            let c = name.get_char(i);
            let mut group = u32_to_le_bytes(c as u32);
            proof {
                lemma_chars_bytes_push(name@.take(i as int), c);
                assert(name@.take(i as int).push(c) =~= name@.take(i + 1));
            }
            out.append(&mut group);
            i = i + 1;
        }
        proof {
            assert(name@.take(n as int) =~= name@);
        }
        let mut mark = u32_to_le_bytes(NAME_END_MARK);
        out.append(&mut mark);
        let mut user = u64_to_le_bytes(self.user_id as u64);
        out.append(&mut user);
        let mut message = u64_to_le_bytes(self.message_id as u64);
        out.append(&mut message);
        proof {
            assert(out@ =~= self.record_of());
        }
        out
    }

    fn decode_record(bytes: &[u8]) -> (r: Option<Self>) {
        let mut name = String::new();
        let mut pos: usize = 0;
        proof {
            assert(bytes@.skip(0) =~= bytes@);
            match parse_name(bytes@) {
                None => {},
                Some(p) => {
                    assert(name@ + p.0 =~= p.0);
                },
            }
        }
        loop
            invariant_except_break
                pos <= bytes@.len(),
                parse_name(bytes@.skip(pos as int)) is None ==> parse_name(bytes@) is None,
                parse_name(bytes@.skip(pos as int)) matches Some(p) ==> parse_name(bytes@)
                    == Some((name@ + p.0, p.1)),
            ensures
                pos <= bytes@.len(),
                parse_name(bytes@) == Some((name@, bytes@.skip(pos as int))),
            decreases bytes@.len() - pos,
        {
            if bytes.len() - pos < 4 {
                proof {
                    lemma_none_means_no_record(bytes@);
                }
                return None;
            }
            let group = slice_subrange(bytes, pos, pos + 4);
            let v = u32_from_le_bytes(group);
            proof {
                assert(group@ =~= bytes@.skip(pos as int).subrange(0, 4));
            }
            if v == NAME_END_MARK {
                proof {
                    assert(bytes@.skip(pos as int).skip(4) =~= bytes@.skip(pos as int + 4));
                    assert(parse_name(bytes@.skip(pos as int)) == Some(
                        (Seq::<char>::empty(), bytes@.skip(pos as int + 4)),
                    ));
                    assert(name@ + Seq::<char>::empty() =~= name@);
                }
                pos = pos + 4;
                break ;
            }
            match char::from_u32(v) {
                None => {
                    proof {
                        assert(parse_name(bytes@.skip(pos as int)) is None);
                        lemma_none_means_no_record(bytes@);
                    }
                    return None;
                },
                Some(c) => {
                    proof {
                        char_u32_cast(c, v);
                        let tail = bytes@.skip(pos as int);
                        assert(tail.skip(4) =~= bytes@.skip(pos as int + 4));
                        match parse_name(tail.skip(4)) {
                            None => {},
                            Some(p2) => {
                                assert(parse_name(tail) == Some(
                                    (seq![v as char] + p2.0, p2.1),
                                ));
                                assert(name@.push(c) + p2.0 =~= name@ + (seq![v as char]
                                    + p2.0));
                            },
                        }
                    }
                    name.push(c);
                    pos = pos + 4;
                },
            }
        }
        if bytes.len() - pos != 16 {
            proof {
                lemma_wrong_tail_means_no_record(bytes@, name@, bytes@.skip(pos as int));
            }
            return None;
        }
        let user_id = u64_from_le_bytes(slice_subrange(bytes, pos, pos + 8)) as i64;
        let message_id = u64_from_le_bytes(slice_subrange(bytes, pos + 8, pos + 16)) as i64;
        let r = ImageMetadata { file_name: name, user_id, message_id };
        proof {
            lemma_auto_spec_u64_to_from_le_bytes();
            let rest = bytes@.skip(pos as int);
            lemma_parse_sound(bytes@);
            assert(rest.subrange(0, 8) =~= bytes@.subrange(pos as int, pos as int + 8));
            assert(rest.subrange(8, 16) =~= bytes@.subrange(pos as int + 8, pos as int + 16));
            assert(rest =~= rest.subrange(0, 8) + rest.subrange(8, 16));
            let u = spec_u64_from_le_bytes(rest.subrange(0, 8));
            let m = spec_u64_from_le_bytes(rest.subrange(8, 16));
            lemma_u64_i64_round(u);
            lemma_u64_i64_round(m);
            assert(spec_u64_to_le_bytes(r.user_id as u64) == rest.subrange(0, 8));
            assert(spec_u64_to_le_bytes(r.message_id as u64) == rest.subrange(8, 16));
            assert(r.record_of() =~= bytes@);
        }
        Some(r)
    }

    proof fn lemma_record_determines_key(&self, other: &Self) {
        lemma_meta_record_parses(self.file_name@, self.user_id, self.message_id);
        lemma_meta_record_parses(other.file_name@, other.user_id, other.message_id);
    }
}

/// Casting a `u64` to an `i64` and back yields the original value.
pub proof fn lemma_u64_i64_round(x: u64)
    ensures
        (x as i64) as u64 == x,
{
    assert((x as i64) as u64 == x) by (bit_vector);
}

/// A full side record parses to its name and a sixteen-byte remainder.
pub proof fn lemma_meta_record_parses(name: Seq<char>, user_id: i64, message_id: i64)
    ensures
        parse_name(meta_record(name, user_id, message_id)) matches Some(p) && p.0 == name
            && p.1.len() == 16,
{
    lemma_auto_spec_u64_to_from_le_bytes();
    let tail = spec_u64_to_le_bytes(user_id as u64) + spec_u64_to_le_bytes(message_id as u64);
    assert(meta_record(name, user_id, message_id) =~= chars_bytes(name) + spec_u32_to_le_bytes(
        NAME_END_MARK,
    ) + tail);
    lemma_parse_round_trip(name, tail);
}

/// If the name parser rejects some bytes, they are no metadata record.
proof fn lemma_none_means_no_record(b: Seq<u8>)
    requires
        parse_name(b) is None,
    ensures
        forall|m: ImageMetadata| #[trigger] m.record_of() != b,
{
    assert forall|m: ImageMetadata| #[trigger] m.record_of() != b by {
        if m.record_of() == b {
            lemma_meta_record_parses(m.file_name@, m.user_id, m.message_id);
        }
    }
}

/// If the bytes after the name are not exactly sixteen, the bytes are no
/// metadata record.
proof fn lemma_wrong_tail_means_no_record(b: Seq<u8>, name: Seq<char>, rest: Seq<u8>)
    requires
        parse_name(b) == Some((name, rest)),
        rest.len() != 16,
    ensures
        forall|m: ImageMetadata| #[trigger] m.record_of() != b,
{
    assert forall|m: ImageMetadata| #[trigger] m.record_of() != b by {
        if m.record_of() == b {
            lemma_meta_record_parses(m.file_name@, m.user_id, m.message_id);
        }
    }
}

} // verus!
