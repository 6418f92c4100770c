//! The byte protocol between the client and the daemon.
//!
//! A size is 8 bytes, big-endian. A string is its UTF-8 byte length as a
//! size, then its bytes. A list of strings is its length as a size, then its
//! strings. A response is a tag byte, 0 for a success (followed by its
//! message and its warning) or 1 for an error (followed by its message).

use std::io;
use std::string::FromUtf8Error;

use vstd::prelude::*;
use vstd::string::*;
use vstd::utf8::*;

use crate::outcome::{ActionPerformError, ActionResult, ActionSuccess};
use crate::text::{digit_char, push_char, views};
use crate::warning::Warning;

verus! {

#[verifier::external_type_specification]
#[verifier::external_body]
pub struct ExIoError(io::Error);

#[verifier::external_type_specification]
#[verifier::external_body]
pub struct ExFromUtf8Error(FromUtf8Error);

/// The error that `read_exact` reports when the input ends too early.
///
/// Trusted: `io::Error::from(io::ErrorKind::UnexpectedEof)`; nothing is
/// claimed of the value.
#[verifier::external_body]
fn unexpected_eof() -> io::Error {
    io::Error::from(io::ErrorKind::UnexpectedEof)
}

/// Decodes UTF-8.
///
/// Trusted: `String::from_utf8` succeeds exactly on valid UTF-8, and the
/// string it returns has the given bytes.
#[verifier::external_body]
fn string_from_utf8(bytes: Vec<u8>) -> (res: Result<String, FromUtf8Error>)
    ensures
        res is Ok <==> valid_utf8(bytes@),
        res matches Ok(s) ==> encode_utf8(s@) == bytes@,
{
    String::from_utf8(bytes)
}

/// Why reading a message failed.
#[derive(Debug)]
pub enum ReadError {
    Io(io::Error),
    FromUtf8(FromUtf8Error),
    InvalidResponse(String),
    EmptyPackage,
}

impl ReadError {
    /// An invalid-response error with `message`.
    pub fn invalid_response(message: String) -> (e: Self)
        ensures
            e matches ReadError::InvalidResponse(m) && m@ == message@,
    {
        ReadError::InvalidResponse(message)
    }
}

// ------------------------------------------------------------------------------------------
// The format
// ------------------------------------------------------------------------------------------

/// The big-endian value of eight bytes.
pub open spec fn be_u64(b: Seq<u8>) -> u64
    recommends
        b.len() == 8,
{
    ((b[0] as u64) << 56u64) | ((b[1] as u64) << 48u64) | ((b[2] as u64) << 40u64) | ((
    b[3] as u64) << 32u64) | ((b[4] as u64) << 24u64) | ((b[5] as u64) << 16u64) | ((
    b[6] as u64) << 8u64) | (b[7] as u64)
}

/// The eight big-endian bytes of `n`.
pub open spec fn encode_size(n: u64) -> Seq<u8> {
    seq![
        (n >> 56u64) as u8,
        (n >> 48u64) as u8,
        (n >> 40u64) as u8,
        (n >> 32u64) as u8,
        (n >> 24u64) as u8,
        (n >> 16u64) as u8,
        (n >> 8u64) as u8,
        n as u8,
    ]
}

/// How reading can fail.
pub enum WireError {
    Eof,
    Utf8,
    EmptyPackage,
    InvalidTag(u8),
}

/// A size read from the front of `b`, and what follows it.
pub open spec fn parse_size(b: Seq<u8>) -> Option<(usize, Seq<u8>)> {
    if b.len() < 8 {
        None
    } else {
        Some((be_u64(b.take(8)) as usize, b.skip(8)))
    }
}

/// A string read from the front of `b`, and what follows it.
pub open spec fn parse_string(b: Seq<u8>) -> Result<(Seq<char>, Seq<u8>), WireError> {
    match parse_size(b) {
        None => Err(WireError::Eof),
        Some((n, r)) => if r.len() < n {
            Err(WireError::Eof)
        } else if !valid_utf8(r.take(n as int)) {
            Err(WireError::Utf8)
        } else {
            Ok((decode_utf8(r.take(n as int)), r.skip(n as int)))
        },
    }
}

/// `pre` put in front of the strings of a successful result.
pub open spec fn prepend(pre: Seq<Seq<char>>, r: Result<(Seq<Seq<char>>, Seq<u8>), WireError>) -> Result<
    (Seq<Seq<char>>, Seq<u8>),
    WireError,
> {
    match r {
        Ok((ss, rest)) => Ok((pre + ss, rest)),
        Err(e) => Err(e),
    }
}

/// `count` strings read one after another from the front of `b`.
pub open spec fn parse_strings(b: Seq<u8>, count: nat) -> Result<
    (Seq<Seq<char>>, Seq<u8>),
    WireError,
>
    decreases count,
{
    if count == 0 {
        Ok((Seq::empty(), b))
    } else {
        match parse_string(b) {
            Err(e) => Err(e),
            Ok((s, r)) => prepend(seq![s], parse_strings(r, (count - 1) as nat)),
        }
    }
}

/// A non-empty list of strings read from the front of `b`.
pub open spec fn parse_string_vec(b: Seq<u8>) -> Result<(Seq<Seq<char>>, Seq<u8>), WireError> {
    match parse_size(b) {
        None => Err(WireError::Eof),
        Some((n, r)) => if n == 0 {
            Err(WireError::EmptyPackage)
        } else {
            parse_strings(r, n as nat)
        },
    }
}

/// The lower-case hexadecimal digit of `d < 16`.
pub open spec fn hex_digit(d: nat) -> char {
    if d < 10 {
        digit_char(d)
    } else if d == 10 {
        'a'
    } else if d == 11 {
        'b'
    } else if d == 12 {
        'c'
    } else if d == 13 {
        'd'
    } else if d == 14 {
        'e'
    } else {
        'f'
    }
}

/// The message of an unknown response tag, as `{tag:#04x}` prints it.
pub open spec fn invalid_tag_message(tag: u8) -> Seq<char> {
    "Invalid enum tag in daemon response: 0x"@ + seq![
        hex_digit((tag / 16) as nat),
        hex_digit((tag % 16) as nat),
    ] + ". Expected 0x00 or 0x01"@
}

/// A response read from the front of `b`: a success with its message and
/// warning, or a failure with its message.
pub open spec fn parse_response(b: Seq<u8>) -> Result<
    (Result<(Seq<char>, Seq<char>), Seq<char>>, Seq<u8>),
    WireError,
> {
    if b.len() == 0 {
        Err(WireError::Eof)
    } else if b[0] == 0 {
        match parse_string(b.drop_first()) {
            Err(e) => Err(e),
            Ok((message, r)) => match parse_string(r) {
                Err(e) => Err(e),
                Ok((warning, r2)) => Ok((Ok((message, warning)), r2)),
            },
        }
    } else if b[0] == 1 {
        match parse_string(b.drop_first()) {
            Err(e) => Err(e),
            Ok((message, r)) => Ok((Err(message), r)),
        }
    } else {
        Err(WireError::InvalidTag(b[0]))
    }
}

/// `err` is the read error that stands for `e`.
pub open spec fn read_error_is(err: ReadError, e: WireError) -> bool {
    match e {
        WireError::Eof => err is Io,
        WireError::Utf8 => err is FromUtf8,
        WireError::EmptyPackage => err is EmptyPackage,
        WireError::InvalidTag(t) => err matches ReadError::InvalidResponse(m) && m@
            == invalid_tag_message(t),
    }
}

/// The bytes of a string on the wire.
pub open spec fn encode_string(s: Seq<char>) -> Seq<u8> {
    encode_size(encode_utf8(s).len() as u64) + encode_utf8(s)
}

/// The bytes of strings written one after another.
pub open spec fn encode_strings(v: Seq<Seq<char>>) -> Seq<u8>
    decreases v.len(),
{
    if v.len() == 0 {
        Seq::empty()
    } else {
        encode_string(v[0]) + encode_strings(v.drop_first())
    }
}

/// The bytes of a list of strings on the wire.
pub open spec fn encode_string_vec(v: Seq<Seq<char>>) -> Seq<u8> {
    encode_size(v.len() as u64) + encode_strings(v)
}

/// The bytes of a success response.
pub open spec fn encode_ok(message: Seq<char>, warning: Seq<char>) -> Seq<u8> {
    seq![0u8] + encode_string(message) + encode_string(warning)
}

/// The bytes of an error response.
pub open spec fn encode_error(message: Seq<char>) -> Seq<u8> {
    seq![1u8] + encode_string(message)
}

// ------------------------------------------------------------------------------------------
// Reading
// ------------------------------------------------------------------------------------------

/// A cursor over received bytes.
pub struct ByteReader {
    bytes: Vec<u8>,
    pos: usize,
}

impl View for ByteReader {
    type V = Seq<u8>;

    /// The bytes not read yet.
    closed spec fn view(&self) -> Seq<u8> {
        self.bytes@.subrange(self.pos as int, self.bytes@.len() as int)
    }
}

impl ByteReader {
    #[verifier::type_invariant]
    spec fn inv(self) -> bool {
        self.pos <= self.bytes@.len()
    }

    /// A reader over `bytes`.
    pub fn new(bytes: Vec<u8>) -> (r: Self)
        ensures
            r@ == bytes@,
    {
        let r = ByteReader { bytes, pos: 0 };
        assert(r.bytes@.subrange(0, r.bytes@.len() as int) == r.bytes@);
        r
    }

    /// The number of bytes not read yet.
    pub fn remaining_len(&self) -> (n: usize)
        ensures
            n == self@.len(),
    {
        proof {
            use_type_invariant(self);
        }
        self.bytes.len() - self.pos
    }

    /// Reads the next `n` bytes; fails as `read_exact` does when fewer are left,
    /// and then reads nothing.
    fn read_exact(&mut self, n: usize) -> (res: Result<Vec<u8>, ReadError>)
        ensures
            old(self)@.len() < n ==> (res matches Err(ReadError::Io(_)) && final(self)@ == old(
                self,
            )@),
            old(self)@.len() >= n ==> (res matches Ok(v) && v@ == old(self)@.take(n as int)
                && final(self)@ == old(self)@.skip(n as int)),
    {
        proof {
            use_type_invariant(&*self);
        }
        if self.bytes.len() - self.pos < n {
            return Err(ReadError::Io(unexpected_eof()));
        }
        let ghost before = self@;
        let start = self.pos;
        let mut out: Vec<u8> = Vec::new();
        let mut i: usize = 0;
        while i < n
            invariant
                start == self.pos,
                start + n <= self.bytes.len(),
                i <= n,
                out@ == self.bytes@.subrange(start as int, start + i),
            decreases n - i,
        {
            out.push(self.bytes[start + i]);
            assert(self.bytes@.subrange(start as int, start + i + 1) == self.bytes@.subrange(
                start as int,
                start + i,
            ).push(self.bytes@[start + i]));
            i = i + 1;
        }
        self.pos = self.pos + n;
        assert(out@ == before.take(n as int));
        assert(self@ == before.skip(n as int));
        Ok(out)
    }
}

/// Reads one byte.
pub fn read_u8(reader: &mut ByteReader) -> (res: Result<u8, ReadError>)
    ensures
        old(reader)@.len() == 0 ==> (res matches Err(ReadError::Io(_)) && final(reader)@ == old(
            reader,
        )@),
        old(reader)@.len() > 0 ==> res == Ok::<u8, ReadError>(old(reader)@[0]) && final(reader)@
            == old(reader)@.drop_first(),
{
    let v = reader.read_exact(1)?;
    assert(old(reader)@.skip(1) == old(reader)@.drop_first());
    Ok(v[0])
}

/// Reads a size.
pub fn read_size(reader: &mut ByteReader) -> (res: Result<usize, ReadError>)
    ensures
        match parse_size(old(reader)@) {
            None => res matches Err(ReadError::Io(_)) && final(reader)@ == old(reader)@,
            Some((n, rest)) => res == Ok::<usize, ReadError>(n) && final(reader)@ == rest,
        },
{
    let b = reader.read_exact(8)?;
    let v: u64 = ((b[0] as u64) << 56u64) | ((b[1] as u64) << 48u64) | ((b[2] as u64) << 40u64)
        | ((b[3] as u64) << 32u64) | ((b[4] as u64) << 24u64) | ((b[5] as u64) << 16u64) | ((
    b[6] as u64) << 8u64) | (b[7] as u64);
    Ok(v as usize)
}

/// Reads a string.
pub fn read_string(reader: &mut ByteReader) -> (res: Result<String, ReadError>)
    ensures
        match parse_string(old(reader)@) {
            Ok((s, rest)) => res matches Ok(v) && v@ == s && final(reader)@ == rest,
            Err(e) => res matches Err(err) && read_error_is(err, e),
        },
        exists|k: int| 0 <= k <= old(reader)@.len() && final(reader)@ == old(reader)@.skip(k),
{
    let ghost b0 = old(reader)@;
    let len = match read_size(reader) {
        Ok(len) => len,
        Err(e) => {
            assert(b0.skip(0) == b0);
            return Err(e);
        },
    };
    let ghost b1 = reader@;
    let bytes = match reader.read_exact(len) {
        Ok(bytes) => bytes,
        Err(e) => {
            assert(b1 == b0.skip(8));
            return Err(e);
        },
    };
    assert(reader@ == b0.skip(8).skip(len as int));
    assert(b0.skip(8).skip(len as int) == b0.skip(8 + len));
    assert(reader@ == b0.skip(8 + len));
    match string_from_utf8(bytes) {
        Ok(s) => {
            proof {
                encode_utf8_decode_utf8(s@);
            }
            Ok(s)
        },
        Err(e) => Err(ReadError::FromUtf8(e)),
    }
}

proof fn lemma_prepend_push(pre: Seq<Seq<char>>, s: Seq<char>, r: Result<(Seq<Seq<char>>, Seq<u8>), WireError>)
    ensures
        prepend(pre, prepend(seq![s], r)) == prepend(pre.push(s), r),
{
    match r {
        Ok((ss, rest)) => {
            assert(pre + (seq![s] + ss) == pre.push(s) + ss);
        },
        Err(_) => {},
    }
}

/// Reads a non-empty list of strings.
pub fn read_string_vec(reader: &mut ByteReader) -> (res: Result<Vec<String>, ReadError>)
    ensures
        match parse_string_vec(old(reader)@) {
            Ok((v, rest)) => res matches Ok(out) && views(out@) == v && final(reader)@ == rest,
            Err(e) => res matches Err(err) && read_error_is(err, e),
        },
{
    let ghost b0 = reader@;
    let size = read_size(reader)?;
    if size == 0 {
        return Err(ReadError::EmptyPackage);
    }
    let ghost b1 = reader@;
    let mut vec: Vec<String> = Vec::new();
    let mut i: usize = 0;
    assert(prepend(Seq::empty(), parse_strings(b1, size as nat)) == parse_strings(b1, size as nat))
        by {
        match parse_strings(b1, size as nat) {
            Ok((ss, rest)) => {
                assert(Seq::<Seq<char>>::empty() + ss == ss);
            },
            Err(_) => {},
        }
    }
    assert(views(vec@) == Seq::<Seq<char>>::empty());
    while i < size
        invariant
            i <= size,
            b0 == old(reader)@,
            parse_string_vec(b0) == parse_strings(b1, size as nat),
            parse_strings(b1, size as nat) == prepend(
                views(vec@),
                parse_strings(reader@, (size - i) as nat),
            ),
        decreases size - i,
    {
        let ghost cur = reader@;
        let ghost pre = views(vec@);
        let s = match read_string(reader) {
            Ok(s) => s,
            Err(e) => {
                assert(parse_string(cur) is Err);
                assert(parse_strings(cur, (size - i) as nat) == Err::<(Seq<Seq<char>>, Seq<u8>), WireError>(parse_string(cur)->Err_0));
                return Err(e);
            },
        };
        proof {
            lemma_prepend_push(pre, s@, parse_strings(reader@, (size - i - 1) as nat));
            assert(views(vec@.push(s)) == pre.push(s@));
        }
        vec.push(s);
        i = i + 1;
    }
    proof {
        match parse_strings(b1, size as nat) {
            Ok((ss, rest)) => {
                assert(views(vec@) + Seq::<Seq<char>>::empty() == views(vec@));
            },
            Err(_) => {},
        }
    }
    Ok(vec)
}

fn hex_digit_exec(d: u8) -> (c: char)
    requires
        d < 16,
    ensures
        c == hex_digit(d as nat),
{
    if d == 0 { '0' }
    else if d == 1 { '1' }
    else if d == 2 { '2' }
    else if d == 3 { '3' }
    else if d == 4 { '4' }
    else if d == 5 { '5' }
    else if d == 6 { '6' }
    else if d == 7 { '7' }
    else if d == 8 { '8' }
    else if d == 9 { '9' }
    else if d == 10 { 'a' }
    else if d == 11 { 'b' }
    else if d == 12 { 'c' }
    else if d == 13 { 'd' }
    else if d == 14 { 'e' }
    else { 'f' }
}

/// The message of an unknown response tag.
fn invalid_tag_message_exec(tag: u8) -> (s: String)
    ensures
        s@ == invalid_tag_message(tag),
{
    let mut s = String::from_str("Invalid enum tag in daemon response: 0x");
    push_char(&mut s, hex_digit_exec(tag / 16));
    push_char(&mut s, hex_digit_exec(tag % 16));
    s.append(". Expected 0x00 or 0x01");
    s
}

/// Reads a response of the daemon.
pub fn read_response(reader: &mut ByteReader) -> (res: Result<ActionResult, ReadError>)
    ensures
        match parse_response(old(reader)@) {
            Ok((Ok((message, warning)), rest)) => res matches Ok(Ok(success))
                && success.message@ == message && success.warning.message@ == warning
                && final(reader)@ == rest,
            Ok((Err(message), rest)) => res matches Ok(Err(error)) && error.message@ == message
                && final(reader)@ == rest,
            Err(e) => res matches Err(err) && read_error_is(err, e),
        },
{
    let enum_tag = read_u8(reader)?;
    if enum_tag == 0 {
        let message = read_string(reader)?;
        let warning = read_string(reader)?;
        Ok(Ok(ActionSuccess { message, warning: Warning::from_message(warning) }))
    } else if enum_tag == 1 {
        let message = read_string(reader)?;
        Ok(Err(ActionPerformError::new(message)))
    } else {
        Err(ReadError::invalid_response(invalid_tag_message_exec(enum_tag)))
    }
}

// ------------------------------------------------------------------------------------------
// Writing
// ------------------------------------------------------------------------------------------

/// Writes a size.
pub fn write_size(out: &mut Vec<u8>, n: u64)
    ensures
        final(out)@ == old(out)@ + encode_size(n),
{
    out.push((n >> 56u64) as u8);
    out.push((n >> 48u64) as u8);
    out.push((n >> 40u64) as u8);
    out.push((n >> 32u64) as u8);
    out.push((n >> 24u64) as u8);
    out.push((n >> 16u64) as u8);
    out.push((n >> 8u64) as u8);
    out.push(n as u8);
    assert(out@ == old(out)@ + encode_size(n));
}

/// Writes the bytes of `b`.
fn write_bytes(out: &mut Vec<u8>, b: &[u8])
    ensures
        final(out)@ == old(out)@ + b@,
{
    let mut i: usize = 0;
    while i < b.len()
        invariant
            i <= b@.len(),
            out@ == old(out)@ + b@.take(i as int),
        decreases b@.len() - i,
    {
        out.push(b[i]);
        assert(b@.take(i + 1) == b@.take(i as int).push(b@[i as int]));
        i = i + 1;
    }
    assert(b@.take(b@.len() as int) == b@);
}

/// Writes a string.
pub fn write_string(out: &mut Vec<u8>, s: &str)
    ensures
        final(out)@ == old(out)@ + encode_string(s@),
{
    let b = s.as_bytes();
    write_size(out, b.len() as u64);
    write_bytes(out, b);
    assert(old(out)@ + encode_size(b@.len() as u64) + b@ == old(out)@ + encode_string(s@));
}

/// Writes a list of strings.
pub fn write_string_vec(out: &mut Vec<u8>, v: &Vec<String>)
    ensures
        final(out)@ == old(out)@ + encode_string_vec(views(v@)),
{
    write_size(out, v.len() as u64);
    let ghost o1 = out@;
    assert(views(v@).skip(0) == views(v@));
    let mut i: usize = 0;
    while i < v.len()
        invariant
            i <= v@.len(),
            o1 + encode_strings(views(v@)) == out@ + encode_strings(views(v@).skip(i as int)),
        decreases v@.len() - i,
    {
        let ghost rest = views(v@).skip(i as int);
        assert(rest.drop_first() == views(v@).skip(i + 1));
        assert(rest[0] == v@[i as int]@);
        write_string(out, v[i].as_str());
        i = i + 1;
    }
    assert(views(v@).skip(v@.len() as int) == Seq::<Seq<char>>::empty());
    assert(views(v@).skip(0) == views(v@));
    assert(views(v@).len() == v@.len());
}

/// Writes a success response.
pub fn write_ok(out: &mut Vec<u8>, success: &ActionSuccess)
    ensures
        final(out)@ == old(out)@ + encode_ok(success.message@, success.warning.message@),
{
    out.push(0u8);
    write_string(out, success.message.as_str());
    write_string(out, success.warning.message());
    assert(old(out)@.push(0u8) + encode_string(success.message@) + encode_string(
        success.warning.message@,
    ) == old(out)@ + encode_ok(success.message@, success.warning.message@));
}

/// Writes an error response.
pub fn write_error(out: &mut Vec<u8>, message: &str)
    ensures
        final(out)@ == old(out)@ + encode_error(message@),
{
    out.push(1u8);
    write_string(out, message);
    assert(old(out)@.push(1u8) + encode_string(message@) == old(out)@ + encode_error(message@));
}


// ------------------------------------------------------------------------------------------
// What a read gives back of a write
// ------------------------------------------------------------------------------------------

proof fn lemma_size_roundtrip(n: u64)
    ensures
        be_u64(encode_size(n)) == n,
{
    let b = encode_size(n);
    let b0 = (n >> 56u64) as u8;
    let b1 = (n >> 48u64) as u8;
    let b2 = (n >> 40u64) as u8;
    let b3 = (n >> 32u64) as u8;
    let b4 = (n >> 24u64) as u8;
    let b5 = (n >> 16u64) as u8;
    let b6 = (n >> 8u64) as u8;
    let b7 = n as u8;
    assert(b[0] == b0 && b[1] == b1 && b[2] == b2 && b[3] == b3);
    assert(b[4] == b4 && b[5] == b5 && b[6] == b6 && b[7] == b7);
    assert(((b0 as u64) << 56u64) | ((b1 as u64) << 48u64) | ((b2 as u64) << 40u64) | ((
    b3 as u64) << 32u64) | ((b4 as u64) << 24u64) | ((b5 as u64) << 16u64) | ((b6 as u64)
        << 8u64) | (b7 as u64) == n) by (bit_vector)
        requires
            b0 == (n >> 56u64) as u8,
            b1 == (n >> 48u64) as u8,
            b2 == (n >> 40u64) as u8,
            b3 == (n >> 32u64) as u8,
            b4 == (n >> 24u64) as u8,
            b5 == (n >> 16u64) as u8,
            b6 == (n >> 8u64) as u8,
            b7 == n as u8,
    ;
}

proof fn lemma_parse_size_encoded(n: u64, rest: Seq<u8>)
    requires
        n <= usize::MAX,
    ensures
        parse_size(encode_size(n) + rest) == Some((n as usize, rest)),
{
    let b = encode_size(n) + rest;
    assert(b.take(8) == encode_size(n));
    assert(b.skip(8) == rest);
    lemma_size_roundtrip(n);
}

proof fn lemma_string_roundtrip(s: Seq<char>, rest: Seq<u8>)
    requires
        encode_utf8(s).len() <= usize::MAX,
    ensures
        parse_string(encode_string(s) + rest) == Ok::<(Seq<char>, Seq<u8>), WireError>((s, rest)),
{
    let e = encode_utf8(s);
    let n = e.len() as u64;
    assert(encode_string(s) + rest == encode_size(n) + (e + rest));
    lemma_parse_size_encoded(n, e + rest);
    assert((e + rest).take(e.len() as int) == e);
    assert((e + rest).skip(e.len() as int) == rest);
    encode_utf8_valid_utf8(s);
    encode_utf8_decode_utf8(s);
}

/// Every string of `v` has a UTF-8 encoding whose length fits in `usize`,
/// as the length of every `String` does.
pub open spec fn strings_fit(v: Seq<Seq<char>>) -> bool {
    forall|i: int| 0 <= i < v.len() ==> #[trigger] encode_utf8(v[i]).len() <= usize::MAX
}

proof fn lemma_strings_roundtrip(v: Seq<Seq<char>>, rest: Seq<u8>)
    requires
        strings_fit(v),
    ensures
        parse_strings(encode_strings(v) + rest, v.len()) == Ok::<
            (Seq<Seq<char>>, Seq<u8>),
            WireError,
        >((v, rest)),
    decreases v.len(),
{
    if v.len() == 0 {
        assert(encode_strings(v) + rest == rest);
        assert(v == Seq::<Seq<char>>::empty());
    } else {
        let tail = v.drop_first();
        assert(strings_fit(tail)) by {
            assert forall|i: int| 0 <= i < tail.len() implies #[trigger] encode_utf8(tail[i]).len()
                <= usize::MAX by {
                assert(tail[i] == v[i + 1]);
            }
        }
        assert(encode_utf8(v[0]).len() <= usize::MAX);
        lemma_strings_roundtrip(tail, rest);
        assert(encode_strings(v) + rest == encode_string(v[0]) + (encode_strings(tail) + rest));
        lemma_string_roundtrip(v[0], encode_strings(tail) + rest);
        assert(((v.len() - 1) as nat) == tail.len());
        assert(parse_strings(encode_strings(v) + rest, v.len()) == prepend(
            seq![v[0]],
            parse_strings(encode_strings(tail) + rest, tail.len()),
        ));
        assert(seq![v[0]] + tail == v);
    }
}

/// Reading a list of strings gives back the non-empty list that was written,
/// and leaves whatever followed it.
pub proof fn string_vec_roundtrip(v: Seq<Seq<char>>, rest: Seq<u8>)
    requires
        0 < v.len() <= usize::MAX,
        strings_fit(v),
    ensures
        parse_string_vec(encode_string_vec(v) + rest) == Ok::<
            (Seq<Seq<char>>, Seq<u8>),
            WireError,
        >((v, rest)),
{
    assert(encode_string_vec(v) + rest == encode_size(v.len() as u64) + (encode_strings(v) + rest));
    lemma_parse_size_encoded(v.len() as u64, encode_strings(v) + rest);
    lemma_strings_roundtrip(v, rest);
}

proof fn lemma_string_prefix_eof(s: Seq<char>, k: int)
    requires
        encode_utf8(s).len() <= usize::MAX,
        0 <= k < encode_string(s).len(),
    ensures
        parse_string(encode_string(s).take(k)) == Err::<(Seq<char>, Seq<u8>), WireError>(
            WireError::Eof,
        ),
{
    let e = encode_utf8(s);
    let n = e.len() as u64;
    let p = encode_string(s).take(k);
    if k >= 8 {
        assert(p == encode_size(n) + e.take(k - 8));
        lemma_parse_size_encoded(n, e.take(k - 8));
    }
}

proof fn lemma_strings_prefix_eof(v: Seq<Seq<char>>, k: int)
    requires
        strings_fit(v),
        0 <= k < encode_strings(v).len(),
    ensures
        parse_strings(encode_strings(v).take(k), v.len()) == Err::<
            (Seq<Seq<char>>, Seq<u8>),
            WireError,
        >(WireError::Eof),
    decreases v.len(),
{
    if v.len() == 0 {
        assert(encode_strings(v).len() == 0);
    } else {
        let tail = v.drop_first();
        assert(strings_fit(tail)) by {
            assert forall|i: int| 0 <= i < tail.len() implies #[trigger] encode_utf8(tail[i]).len()
                <= usize::MAX by {
                assert(tail[i] == v[i + 1]);
            }
        }
        assert(encode_utf8(v[0]).len() <= usize::MAX);
        let e0 = encode_string(v[0]);
        let t = encode_strings(tail);
        assert(encode_strings(v) == e0 + t);
        let p = encode_strings(v).take(k);
        assert(((v.len() - 1) as nat) == tail.len());
        if k < e0.len() {
            assert(p == e0.take(k));
            lemma_string_prefix_eof(v[0], k);
        } else {
            let t2 = t.take(k - e0.len());
            assert(p == e0 + t2);
            lemma_string_roundtrip(v[0], t2);
            lemma_strings_prefix_eof(tail, k - e0.len());
        }
    }
}

/// A list of strings cut short, anywhere before its last byte, is read as
/// an end-of-input error.
pub proof fn string_vec_prefix_is_eof(v: Seq<Seq<char>>, k: int)
    requires
        0 < v.len() <= usize::MAX,
        strings_fit(v),
        0 <= k < encode_string_vec(v).len(),
    ensures
        parse_string_vec(encode_string_vec(v).take(k)) == Err::<
            (Seq<Seq<char>>, Seq<u8>),
            WireError,
        >(WireError::Eof),
{
    let p = encode_string_vec(v).take(k);
    if k >= 8 {
        let b = encode_strings(v).take(k - 8);
        assert(p == encode_size(v.len() as u64) + b);
        lemma_parse_size_encoded(v.len() as u64, b);
        lemma_strings_prefix_eof(v, k - 8);
    }
}

/// An empty list is written, but is read as an empty-package error.
pub proof fn empty_string_vec_is_refused(rest: Seq<u8>)
    ensures
        parse_string_vec(encode_string_vec(Seq::empty()) + rest) == Err::<
            (Seq<Seq<char>>, Seq<u8>),
            WireError,
        >(WireError::EmptyPackage),
{
    let v = Seq::<Seq<char>>::empty();
    assert(encode_strings(v) == Seq::<u8>::empty());
    assert(encode_string_vec(v) + rest == encode_size(0) + rest);
    lemma_parse_size_encoded(0, rest);
}

/// Reading a string gives back the string that was written.
pub proof fn string_roundtrip(s: Seq<char>, rest: Seq<u8>)
    requires
        encode_utf8(s).len() <= usize::MAX,
    ensures
        parse_string(encode_string(s) + rest) == Ok::<(Seq<char>, Seq<u8>), WireError>((s, rest)),
{
    lemma_string_roundtrip(s, rest);
}

/// Reading a success response gives back its message and warning.
pub proof fn ok_response_roundtrip(message: Seq<char>, warning: Seq<char>, rest: Seq<u8>)
    requires
        encode_utf8(message).len() <= usize::MAX,
        encode_utf8(warning).len() <= usize::MAX,
    ensures
        parse_response(encode_ok(message, warning) + rest) == Ok::<
            (Result<(Seq<char>, Seq<char>), Seq<char>>, Seq<u8>),
            WireError,
        >((Ok((message, warning)), rest)),
{
    let b = encode_ok(message, warning) + rest;
    assert(b[0] == 0u8);
    assert(b.drop_first() == encode_string(message) + (encode_string(warning) + rest));
    lemma_string_roundtrip(message, encode_string(warning) + rest);
    lemma_string_roundtrip(warning, rest);
}

/// Reading an error response gives back its message.
pub proof fn error_response_roundtrip(message: Seq<char>, rest: Seq<u8>)
    requires
        encode_utf8(message).len() <= usize::MAX,
    ensures
        parse_response(encode_error(message) + rest) == Ok::<
            (Result<(Seq<char>, Seq<char>), Seq<char>>, Seq<u8>),
            WireError,
        >((Err(message), rest)),
{
    let b = encode_error(message) + rest;
    assert(b[0] == 1u8);
    assert(b.drop_first() == encode_string(message) + rest);
    lemma_string_roundtrip(message, rest);
}

} // verus!
