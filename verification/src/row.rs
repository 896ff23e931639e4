//! The fixed-width row and its binary form.

use crate::codec::{
    be_bytes, be_u32, copy_range, lemma_be_round_trip, overlay, read_u32_be, text_from_utf8,
    write_range, write_u32_be, zeroed,
};
use crate::error::StorageError;
use vstd::prelude::*;
use vstd::string::*;
use vstd::utf8::*;

verus! {

/// Width of the serialized id.
pub const ID_SIZE: usize = 4;

/// Width of the username field.
pub const USERNAME_SIZE: usize = 32;

/// Width of the email field.
pub const EMAIL_SIZE: usize = 256;

/// Where the username field starts.
pub const USERNAME_OFFSET: usize = 4;

/// Where the email field starts.
pub const EMAIL_OFFSET: usize = 36;

/// Width of a serialized row: the id and the two text fields.
pub const ROW_SIZE: usize = 292;

/// One record of the table.
#[derive(Clone, Debug, PartialEq, Eq)]
pub struct Row {
    pub id: u32,
    pub username: String,
    pub email: String,
}

/// What a row holds, as plain values.
pub struct RowView {
    pub id: u32,
    pub username: Seq<char>,
    pub email: Seq<char>,
}

impl View for Row {
    type V = RowView;

    open spec fn view(&self) -> RowView {
        RowView { id: self.id, username: self.username@, email: self.email@ }
    }
}

/// `text` followed by zero bytes up to `width`.
pub open spec fn padded(text: Seq<u8>, width: int) -> Seq<u8>
    recommends
        text.len() <= width,
{
    Seq::new(
        width as nat,
        |i: int|
            if i < text.len() {
                text[i]
            } else {
                0u8
            },
    )
}

/// Whether `field[n]` ends the text in `field`: nothing before it is zero, and
/// it is a zero byte or the end of the field.
pub open spec fn is_text_end(field: Seq<u8>, n: int) -> bool {
    &&& 0 <= n <= field.len()
    &&& forall|i: int| 0 <= i < n ==> field[i] != 0
    &&& (n < field.len() ==> field[n] == 0)
}

/// Length of the text in a field: the position of the first zero byte, or
/// the field's width where there is none.
pub open spec fn text_len(field: Seq<u8>) -> int
    decreases field.len(),
{
    if field.len() == 0 || field[0] == 0 {
        0
    } else {
        1 + text_len(field.drop_first())
    }
}

/// The text in a field: its bytes before the first zero byte.
pub open spec fn text_of(field: Seq<u8>) -> Seq<u8> {
    field.subrange(0, text_len(field))
}

/// `text_len` is the one position that ends the text.
pub proof fn lemma_text_len(field: Seq<u8>, n: int)
    requires
        is_text_end(field, n),
    ensures
        text_len(field) == n,
    decreases field.len(),
{
    if field.len() == 0 || field[0] == 0 {
    } else {
        let rest = field.drop_first();
        assert forall|i: int| 0 <= i < n - 1 implies rest[i] != 0 by {
            assert(rest[i] == field[i + 1]);
        }
        lemma_text_len(rest, n - 1);
    }
}

/// The text in a padded field is the text that was padded, where that holds
/// no zero byte.
pub proof fn lemma_text_of_padded(text: Seq<u8>, width: int)
    requires
        text.len() <= width,
        forall|i: int| 0 <= i < text.len() ==> text[i] != 0,
    ensures
        text_of(padded(text, width)) == text,
{
    lemma_text_len(padded(text, width), text.len() as int);
    assert(padded(text, width).subrange(0, text.len() as int) =~= text);
}

/// Whether a field holds well-formed text.
pub open spec fn field_ok(field: Seq<u8>) -> bool {
    valid_utf8(text_of(field))
}

/// The username field of a serialized row.
pub open spec fn username_field(bytes: Seq<u8>) -> Seq<u8> {
    bytes.subrange(4, 36)
}

/// The email field of a serialized row.
pub open spec fn email_field(bytes: Seq<u8>) -> Seq<u8> {
    bytes.subrange(36, 292)
}

/// Whether a serialized row decodes: both of its text fields are well formed.
pub open spec fn decodable(bytes: Seq<u8>) -> bool {
    field_ok(username_field(bytes)) && field_ok(email_field(bytes))
}

/// The row that a serialized row stands for.
pub open spec fn decoded(bytes: Seq<u8>) -> RowView
    recommends
        bytes.len() == 292,
        decodable(bytes),
{
    RowView {
        id: be_u32(bytes),
        username: decode_utf8(text_of(username_field(bytes))),
        email: decode_utf8(text_of(email_field(bytes))),
    }
}

/// The serialized form of a row: the id, most significant byte first, then
/// each text field padded with zero bytes to its width.
pub open spec fn encoded(row: RowView) -> Seq<u8> {
    be_bytes(row.id) + padded(encode_utf8(row.username), 32) + padded(
        encode_utf8(row.email),
        256,
    )
}

/// Whether each text of the row fits its field.
pub open spec fn storable(row: RowView) -> bool {
    encode_utf8(row.username).len() <= 32 && encode_utf8(row.email).len() <= 256
}

/// Whether no text of the row holds a zero byte, which would end it early.
pub open spec fn zero_free(row: RowView) -> bool {
    &&& forall|i: int|
        0 <= i < encode_utf8(row.username).len() ==> encode_utf8(row.username)[i] != 0
    &&& forall|i: int| 0 <= i < encode_utf8(row.email).len() ==> encode_utf8(row.email)[i] != 0
}

/// A row that fits its fields and holds no zero byte decodes from its
/// serialized form to itself.
pub proof fn lemma_round_trip(row: RowView)
    requires
        storable(row),
        zero_free(row),
    ensures
        encoded(row).len() == 292,
        decodable(encoded(row)),
        decoded(encoded(row)) == row,
{
    let bytes = encoded(row);
    let name = encode_utf8(row.username);
    let mail = encode_utf8(row.email);
    lemma_be_round_trip(row.id);
    assert(username_field(bytes) =~= padded(name, 32));
    assert(email_field(bytes) =~= padded(mail, 256));
    lemma_text_of_padded(name, 32);
    lemma_text_of_padded(mail, 256);
    encode_utf8_valid_utf8(row.username);
    encode_utf8_valid_utf8(row.email);
    encode_utf8_decode_utf8(row.username);
    encode_utf8_decode_utf8(row.email);
    assert(be_u32(bytes) == be_u32(be_bytes(row.id))) by {
        assert(bytes[0] == be_bytes(row.id)[0]);
        assert(bytes[1] == be_bytes(row.id)[1]);
        assert(bytes[2] == be_bytes(row.id)[2]);
        assert(bytes[3] == be_bytes(row.id)[3]);
    }
}

/// A text field of exactly its width's length, with no zero byte, is read
/// back whole.
pub proof fn lemma_full_width_text(text: Seq<u8>)
    requires
        forall|i: int| 0 <= i < text.len() ==> text[i] != 0,
    ensures
        text_of(padded(text, text.len() as int)) == text,
{
    lemma_text_of_padded(text, text.len() as int);
}

impl Row {
    /// Whether each text of the row fits its field.
    pub fn is_storable(&self) -> (ok: bool)
        ensures
            ok == storable(self@),
    {
        self.username.as_str().as_bytes().len() <= USERNAME_SIZE
            && self.email.as_str().as_bytes().len() <= EMAIL_SIZE
    }

    /// The row in its binary form.
    pub fn serialize(&self) -> (buf: Vec<u8>)
        requires
            storable(self@),
        ensures
            buf@ == encoded(self@),
    {
        let mut buf = zeroed(ROW_SIZE);
        write_u32_be(&mut buf, self.id);
        Row::write_string(&mut buf, USERNAME_OFFSET, USERNAME_SIZE, &self.username);
        Row::write_string(&mut buf, EMAIL_OFFSET, EMAIL_SIZE, &self.email);
        assert(buf@ =~= encoded(self@));
        buf
    }

    /// Reads a row from its binary form. Fails with `CorruptRecord` exactly
    /// where one of the two text fields is not well-formed text.
    pub fn deserialize(buf: Vec<u8>) -> (r: Result<Row, StorageError>)
        requires
            buf@.len() == ROW_SIZE,
        ensures
            r is Ok <==> decodable(buf@),
            r is Ok ==> r->Ok_0@ == decoded(buf@),
            r is Err ==> r->Err_0 == StorageError::CorruptRecord,
    {
        let id = read_u32_be(buf.as_slice());
        let username = match Row::read_string(&buf, USERNAME_OFFSET, USERNAME_SIZE) {
            Ok(s) => s,
            Err(e) => {
                return Err(e);
            },
        };
        let email = match Row::read_string(&buf, EMAIL_OFFSET, EMAIL_SIZE) {
            Ok(s) => s,
            Err(e) => {
                return Err(e);
            },
        };
        Ok(Row { id, username, email })
    }

    /// Writes `s` into the field of `buf` that starts at `pos` and is
    /// `max_len` bytes wide, and fills the rest of the field with zero bytes.
    pub fn write_string(buf: &mut Vec<u8>, pos: usize, max_len: usize, s: &String)
        requires
            pos + max_len <= old(buf)@.len(),
            encode_utf8(s@).len() <= max_len,
        ensures
            final(buf)@ == overlay(old(buf)@, pos as int, padded(encode_utf8(s@), max_len as int)),
    {
        let ghost before = buf@;
        let ghost text = encode_utf8(s@);
        let bytes = s.as_str().as_bytes();
        let len = buf.len();
        let mut i: usize = 0;
        while i < bytes.len()
            invariant
                i <= bytes@.len() <= max_len,
                bytes@ == text,
                pos + max_len <= len == before.len() == buf@.len(),
                buf@ == overlay(before, pos as int, text.subrange(0, i as int)),
            decreases bytes@.len() - i,
        {
            buf.set(pos + i, bytes[i]);
            i += 1;
            assert(buf@ =~= overlay(before, pos as int, text.subrange(0, i as int)));
        }
        while i < max_len
            invariant
                text.len() <= i <= max_len,
                pos + max_len <= len == before.len() == buf@.len(),
                buf@ == overlay(before, pos as int, padded(text, i as int)),
            decreases max_len - i,
        {
            buf.set(pos + i, 0u8);
            i += 1;
            assert(buf@ =~= overlay(before, pos as int, padded(text, i as int)));
        }
    }

    /// Reads the text in the field of `buf` that starts at `pos` and is
    /// `max_len` bytes wide: the bytes up to the first zero byte or the end of
    /// the field. Fails with `CorruptRecord` exactly where they are not
    /// well-formed text.
    pub fn read_string(buf: &Vec<u8>, pos: usize, max_len: usize) -> (r: Result<
        String,
        StorageError,
    >)
        requires
            pos + max_len <= buf@.len(),
        ensures
            r is Ok <==> field_ok(buf@.subrange(pos as int, pos + max_len)),
            r is Ok ==> r->Ok_0@ == decode_utf8(
                text_of(buf@.subrange(pos as int, pos + max_len)),
            ),
            r is Err ==> r->Err_0 == StorageError::CorruptRecord,
    {
        let ghost field = buf@.subrange(pos as int, pos + max_len);
        let len = buf.len();
        let mut end: usize = pos;
        while end < max_len + pos && buf[end] != 0
            invariant
                pos <= end <= pos + max_len <= len == buf@.len(),
                forall|i: int| pos <= i < end ==> buf@[i] != 0,
            decreases pos + max_len - end,
        {
            end += 1;
        }
        proof {
            lemma_text_len(field, end - pos);
            assert(text_of(field) =~= buf@.subrange(pos as int, end as int));
        }
        let bytes = copy_range(buf, pos, end);
        match text_from_utf8(bytes) {
            Some(s) => Ok(s),
            None => Err(StorageError::CorruptRecord),
        }
    }
}

} // verus!
