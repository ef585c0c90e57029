//! Very simple binary format of an encrypted file.
//! The len fields are stored big endian.
//!
//! ```text
//!  0 1 2 3 4 5 6 7 8 ...
//! +-+-------+-------->
//! │V│ nonce │ nonce ->
//! │E│   len │
//! │R│       │
//! │S│       │
//! │I│       │
//! │O│       │
//! │N│       │
//!
//!  0 1 2 3 4 5 6 7 ...
//! +-------+------->
//! │  salt │ salt ->
//! │   len │
//!
//!  0 1 2 3 4 5 6 7 ...
//! +-------+------------->
//! │cipher │ ciphertext ->
//! │  text │
//! │   len │
//! ```
use vstd::prelude::*;

verus! {

/// The parts of an encrypted vault file.
pub struct Model {
    pub version: u8,
    pub nonce: Vec<u8>,
    pub salt: Vec<u8>,
    pub ciphertext: Vec<u8>,
}

/// The mathematical value of a [`Model`].
pub struct ModelView {
    pub version: u8,
    pub nonce: Seq<u8>,
    pub salt: Seq<u8>,
    pub ciphertext: Seq<u8>,
}

impl View for Model {
    type V = ModelView;

    open spec fn view(&self) -> ModelView {
        ModelView {
            version: self.version,
            nonce: self.nonce@,
            salt: self.salt@,
            ciphertext: self.ciphertext@,
        }
    }
}

/// The four big-endian bytes of `n`.
pub open spec fn be32_bytes(n: u32) -> Seq<u8> {
    seq![(n >> 24u32) as u8, (n >> 16u32) as u8, (n >> 8u32) as u8, n as u8]
}

/// The number that the first four bytes of `b` encode, big endian.
pub open spec fn be32_value(b: Seq<u8>) -> int
    recommends
        b.len() >= 4,
{
    b[0] * 0x1000000 + b[1] * 0x10000 + b[2] * 0x100 + b[3]
}

/// An array as it is written: its length (truncated to 32 bits), then its bytes.
pub open spec fn length_prefixed(bytes: Seq<u8>) -> Seq<u8> {
    be32_bytes(bytes.len() as u32) + bytes
}

/// The bytes that [`Model::serialize`] writes for `m`.
pub open spec fn spec_serialize(m: ModelView) -> Seq<u8> {
    seq![m.version] + length_prefixed(m.nonce) + length_prefixed(m.salt) + length_prefixed(
        m.ciphertext,
    )
}

/// Reads one length-prefixed array from the front of `bytes`: the array and
/// what follows it, or `None` where the length field or the array is cut short.
pub open spec fn read_array(bytes: Seq<u8>) -> Option<(Seq<u8>, Seq<u8>)> {
    if bytes.len() < 4 {
        None
    } else {
        let len = be32_value(bytes);
        if len > bytes.len() - 4 {
            None
        } else {
            Some((bytes.subrange(4, 4 + len), bytes.subrange(4 + len, bytes.len() as int)))
        }
    }
}

/// The version mark and the part of `bytes` that holds the three arrays.
/// A first byte of 0 is no version mark: version 0 files start with the
/// nonce length, whose first byte is 0.
pub open spec fn split_version(bytes: Seq<u8>) -> (u8, Seq<u8>)
    recommends
        bytes.len() > 0,
{
    if bytes[0] == 0 {
        (0u8, bytes)
    } else {
        (bytes[0], bytes.subrange(1, bytes.len() as int))
    }
}

/// The model that [`Model::deserialize`] reads from `bytes`, or `None` where
/// the content is invalid (empty, or an array cut short). Bytes after the
/// third array are ignored.
pub open spec fn spec_deserialize(bytes: Seq<u8>) -> Option<ModelView> {
    if bytes.len() == 0 {
        None
    } else {
        let (version, body) = split_version(bytes);
        match read_array(body) {
            None => None,
            Some((nonce, rest1)) => match read_array(rest1) {
                None => None,
                Some((salt, rest2)) => match read_array(rest2) {
                    None => None,
                    Some((ciphertext, _rest3)) => Some(
                        ModelView { version, nonce, salt, ciphertext },
                    ),
                },
            },
        }
    }
}

/// Appends `bytes` to `buffer`, preceded by its length as four big-endian bytes.
fn write_array(buffer: &mut Vec<u8>, bytes: &Vec<u8>)
    ensures
        final(buffer)@ == old(buffer)@ + length_prefixed(bytes@),
{
    let n: u32 = bytes.len() as u32;
    buffer.push((n >> 24u32) as u8);
    buffer.push((n >> 16u32) as u8);
    buffer.push((n >> 8u32) as u8);
    buffer.push(n as u8);
    let ghost start = buffer@;
    let mut i: usize = 0;
    while i < bytes.len()
        invariant
            i <= bytes.len(),
            buffer@ == start + bytes@.subrange(0, i as int),
        decreases bytes.len() - i,
    {
        buffer.push(bytes[i]);
        i = i + 1;
        assert(bytes@.subrange(0, i as int) == bytes@.subrange(0, i - 1) + seq![bytes@[i - 1]]);
    }
    assert(bytes@.subrange(0, i as int) == bytes@);
    assert(start == old(buffer)@ + be32_bytes(n));
}


/// The number that the four bytes at `pos` encode, big endian.
fn read_be32(bytes: &[u8], pos: usize) -> (n: u32)
    requires
        pos + 4 <= bytes@.len(),
    ensures
        n == be32_value(bytes@.subrange(pos as int, bytes@.len() as int)),
{
    let b0: u32 = bytes[pos] as u32;
    let b1: u32 = bytes[pos + 1] as u32;
    let b2: u32 = bytes[pos + 2] as u32;
    let b3: u32 = bytes[pos + 3] as u32;
    b0 * 0x1000000 + b1 * 0x10000 + b2 * 0x100 + b3
}

/// Reads the length-prefixed array that starts at `pos`; on success returns
/// the array and the position just after it.
fn read_array_at(bytes: &[u8], pos: usize) -> (res: Option<(Vec<u8>, usize)>)
    requires
        pos <= bytes@.len(),
    ensures
        match read_array(bytes@.subrange(pos as int, bytes@.len() as int)) {
            None => res is None,
            Some((array, rest)) => res matches Some((v, next)) && v@ == array && next
                <= bytes@.len() && rest == bytes@.subrange(next as int, bytes@.len() as int),
        },
{
    let ghost tail = bytes@.subrange(pos as int, bytes@.len() as int);
    if bytes.len() - pos < 4 {
        return None;
    }
    let len: usize = read_be32(bytes, pos) as usize;
    assert(len == be32_value(tail));
    if len > bytes.len() - pos - 4 {
        return None;
    }
    let start: usize = pos + 4;
    let end: usize = start + len;
    let mut array: Vec<u8> = Vec::new();
    let mut i: usize = start;
    while i < end
        invariant
            start <= i <= end <= bytes@.len(),
            array@ == bytes@.subrange(start as int, i as int),
        decreases end - i,
    {
        array.push(bytes[i]);
        i = i + 1;
    }
    assert(tail.subrange(4, 4 + len) == bytes@.subrange(start as int, end as int));
    assert(tail.subrange(4 + len, tail.len() as int) == bytes@.subrange(
        end as int,
        bytes@.len() as int,
    ));
    Some((array, end))
}

impl Model {
    /// Writes the version byte, then nonce, salt and ciphertext, each preceded
    /// by its length (the length is truncated to 32 bits).
    pub fn serialize(&self) -> (buffer: Vec<u8>)
        ensures
            buffer@ == spec_serialize(self@),
    {
        let mut buffer: Vec<u8> = Vec::new();
        buffer.push(self.version);
        write_array(&mut buffer, &self.nonce);
        write_array(&mut buffer, &self.salt);
        write_array(&mut buffer, &self.ciphertext);
        buffer
    }

    /// Reads a model from `bytes`; `None` where the content is invalid.
    pub fn try_deserialize(bytes: &[u8]) -> (res: Option<Model>)
        ensures
            match spec_deserialize(bytes@) {
                None => res is None,
                Some(m) => res matches Some(model) && model@ == m,
            },
    {
        if bytes.len() == 0 {
            return None;
        }
        let version: u8;
        let start: usize;
        if bytes[0] == 0 {
            // Version 0 did not have a version mark. This works because nonce length fits in 3 bytes.
            version = 0;
            start = 0;
        } else {
            version = bytes[0];
            start = 1;
        }
        assert(split_version(bytes@) == (version, bytes@.subrange(start as int, bytes@.len() as int)))
            by {
            assert(bytes@.subrange(0, bytes@.len() as int) == bytes@);
        }
        let (nonce, p1) = match read_array_at(bytes, start) {
            Some(r) => r,
            None => return None,
        };
        let (salt, p2) = match read_array_at(bytes, p1) {
            Some(r) => r,
            None => return None,
        };
        let (ciphertext, _p3) = match read_array_at(bytes, p2) {
            Some(r) => r,
            None => return None,
        };
        Some(Model { version, nonce, salt, ciphertext })
    }

    /// Reads a model from `bytes`, which must hold valid content.
    pub fn deserialize(bytes: &[u8]) -> (model: Model)
        requires
            spec_deserialize(bytes@) is Some,
        ensures
            spec_deserialize(bytes@) == Some(model@),
    {
        Model::try_deserialize(bytes).unwrap()
    }
}

/// The big-endian bytes of a 32-bit number encode that number.
pub proof fn lemma_be32_roundtrip(n: u32)
    ensures
        be32_value(be32_bytes(n)) == n,
{
    let b0: u8 = (n >> 24u32) as u8;
    let b1: u8 = (n >> 16u32) as u8;
    let b2: u8 = (n >> 8u32) as u8;
    let b3: u8 = n as u8;
    assert(b0 * 0x1000000 + b1 * 0x10000 + b2 * 0x100 + b3 == n) by (bit_vector)
        requires
            b0 == (n >> 24u32) as u8,
            b1 == (n >> 16u32) as u8,
            b2 == (n >> 8u32) as u8,
            b3 == n as u8,
    ;
}

/// Reading a length-prefixed array gives back the array and what followed it.
proof fn lemma_read_length_prefixed(array: Seq<u8>, rest: Seq<u8>)
    requires
        array.len() <= u32::MAX,
    ensures
        read_array(length_prefixed(array) + rest) == Some((array, rest)),
{
    let s = length_prefixed(array) + rest;
    lemma_be32_roundtrip(array.len() as u32);
    assert(be32_value(s) == be32_value(be32_bytes(array.len() as u32)));
    assert(s.subrange(4, 4 + array.len() as int) == array);
    assert(s.subrange(4 + array.len() as int, s.len() as int) == rest);
}

/// Deserializing what `serialize` wrote gives back the model, for every model
/// with a version mark (version 0 has none) and arrays whose length fits the
/// 32-bit length field.
pub proof fn lemma_deserialize_serialize(m: ModelView)
    requires
        m.version != 0,
        m.nonce.len() <= u32::MAX,
        m.salt.len() <= u32::MAX,
        m.ciphertext.len() <= u32::MAX,
    ensures
        spec_deserialize(spec_serialize(m)) == Some(m),
{
    let s = spec_serialize(m);
    let c = length_prefixed(m.ciphertext);
    let r2 = c;
    let r1 = length_prefixed(m.salt) + r2;
    let body = length_prefixed(m.nonce) + r1;
    assert(s == seq![m.version] + body);
    assert(split_version(s) == (m.version, body));
    lemma_read_length_prefixed(m.nonce, r1);
    lemma_read_length_prefixed(m.salt, r2);
    lemma_read_length_prefixed(m.ciphertext, Seq::<u8>::empty());
    assert(c + Seq::<u8>::empty() == c);
}

/// Files of version 0 carry no version mark: the three arrays start at the
/// first byte. Such a file reads as version 0 as long as the nonce length
/// fits in 3 bytes.
pub proof fn lemma_unversioned_layout(nonce: Seq<u8>, salt: Seq<u8>, ciphertext: Seq<u8>)
    requires
        nonce.len() < 0x1000000,
        salt.len() <= u32::MAX,
        ciphertext.len() <= u32::MAX,
    ensures
        spec_deserialize(
            length_prefixed(nonce) + length_prefixed(salt) + length_prefixed(ciphertext),
        ) == Some(ModelView { version: 0, nonce, salt, ciphertext }),
{
    let c = length_prefixed(ciphertext);
    let r1 = length_prefixed(salt) + c;
    let s = length_prefixed(nonce) + r1;
    assert(s == length_prefixed(nonce) + length_prefixed(salt) + length_prefixed(ciphertext));
    let n: u32 = nonce.len() as u32;
    assert((n >> 24u32) as u8 == 0) by (bit_vector)
        requires
            n < 0x1000000u32,
    ;
    assert(s[0] == 0);
    assert(split_version(s) == (0u8, s));
    lemma_read_length_prefixed(nonce, r1);
    lemma_read_length_prefixed(salt, c);
    lemma_read_length_prefixed(ciphertext, Seq::<u8>::empty());
    assert(c + Seq::<u8>::empty() == c);
}

/// The big-endian bytes of the number that four bytes encode are those bytes.
proof fn lemma_be32_value_roundtrip(b: Seq<u8>)
    requires
        b.len() >= 4,
    ensures
        0 <= be32_value(b) <= u32::MAX,
        be32_bytes(be32_value(b) as u32) == b.subrange(0, 4),
{
    let b0 = b[0];
    let b1 = b[1];
    let b2 = b[2];
    let b3 = b[3];
    let n: u32 = (b0 * 0x1000000 + b1 * 0x10000 + b2 * 0x100 + b3) as u32;
    assert(0 <= b0 * 0x1000000 + b1 * 0x10000 + b2 * 0x100 + b3 <= u32::MAX);
    assert((n >> 24u32) as u8 == b0 && (n >> 16u32) as u8 == b1 && (n >> 8u32) as u8 == b2
        && n as u8 == b3) by (bit_vector)
        requires
            n == b0 * 0x1000000 + b1 * 0x10000 + b2 * 0x100 + b3,
    ;
    assert(be32_bytes(n) == b.subrange(0, 4));
}

/// Where `read_array` succeeds, the bytes it consumed are the array written
/// back with its length prefix.
proof fn lemma_read_array_prefix(bytes: Seq<u8>)
    requires
        read_array(bytes) is Some,
    ensures
        ({
            let (array, rest) = read_array(bytes).unwrap();
            &&& array.len() <= u32::MAX
            &&& bytes == length_prefixed(array) + rest
        }),
{
    let (array, rest) = read_array(bytes).unwrap();
    lemma_be32_value_roundtrip(bytes);
    assert(array.len() == be32_value(bytes));
    assert(bytes == bytes.subrange(0, 4) + array + rest);
}

/// A file that starts with a version mark and reads as a model begins with
/// exactly the bytes that `serialize` writes for that model; reading ignores
/// only what follows.
pub proof fn lemma_serialize_deserialize(bytes: Seq<u8>)
    requires
        spec_deserialize(bytes) is Some,
        bytes[0] != 0,
    ensures
        ({
            let written = spec_serialize(spec_deserialize(bytes).unwrap());
            written.len() <= bytes.len() && written == bytes.subrange(0, written.len() as int)
        }),
{
    let m = spec_deserialize(bytes).unwrap();
    let body = bytes.subrange(1, bytes.len() as int);
    assert(split_version(bytes) == (bytes[0], body));
    let (nonce, r1) = read_array(body).unwrap();
    let (salt, r2) = read_array(r1).unwrap();
    let (ciphertext, r3) = read_array(r2).unwrap();
    assert(m == ModelView { version: bytes[0], nonce, salt, ciphertext });
    let ln = length_prefixed(nonce);
    let ls = length_prefixed(salt);
    let lc = length_prefixed(ciphertext);
    assert(body == ln + (ls + (lc + r3))) by {
        lemma_read_array_prefix(body);
        lemma_read_array_prefix(r1);
        lemma_read_array_prefix(r2);
    }
    lemma_concat_prefix(bytes, body, ln, ls, lc, r3);
}

proof fn lemma_concat_prefix(
    bytes: Seq<u8>,
    body: Seq<u8>,
    ln: Seq<u8>,
    ls: Seq<u8>,
    lc: Seq<u8>,
    r3: Seq<u8>,
)
    requires
        bytes.len() > 0,
        body == bytes.subrange(1, bytes.len() as int),
        body == ln + (ls + (lc + r3)),
    ensures
        ({
            let written = seq![bytes[0]] + ln + ls + lc;
            written.len() <= bytes.len() && written == bytes.subrange(0, written.len() as int)
        }),
{
    let written = seq![bytes[0]] + ln + ls + lc;
    assert(bytes =~= seq![bytes[0]] + body);
    assert(bytes =~= written + r3);
    assert(written =~= bytes.subrange(0, written.len() as int));
}

/// The arrays of a model read from a file fit the 32-bit length field.
pub proof fn lemma_deserialized_lengths(bytes: Seq<u8>)
    requires
        spec_deserialize(bytes) is Some,
    ensures
        spec_deserialize(bytes).unwrap().nonce.len() <= u32::MAX,
        spec_deserialize(bytes).unwrap().salt.len() <= u32::MAX,
        spec_deserialize(bytes).unwrap().ciphertext.len() <= u32::MAX,
{
    let body = split_version(bytes).1;
    lemma_read_array_prefix(body);
    let (nonce, r1) = read_array(body).unwrap();
    lemma_read_array_prefix(r1);
    let (salt, r2) = read_array(r1).unwrap();
    lemma_read_array_prefix(r2);
}

/// The length field is big endian: byte `k` of the four carries the weight
/// `256^(3-k)` of the length.
pub proof fn lemma_be32_bytes_big_endian(n: u32)
    ensures
        be32_bytes(n) == seq![
            (n / 0x1000000) as u8,
            (n / 0x10000 % 0x100) as u8,
            (n / 0x100 % 0x100) as u8,
            (n % 0x100) as u8,
        ],
{
    assert((n >> 24u32) as u8 == (n / 0x1000000) as u8) by (bit_vector);
    assert((n >> 16u32) as u8 == (n / 0x10000 % 0x100) as u8) by (bit_vector);
    assert((n >> 8u32) as u8 == (n / 0x100 % 0x100) as u8) by (bit_vector);
    assert(n as u8 == (n % 0x100) as u8) by (bit_vector);
    assert(be32_bytes(n) =~= seq![
        (n / 0x1000000) as u8,
        (n / 0x10000 % 0x100) as u8,
        (n / 0x100 % 0x100) as u8,
        (n % 0x100) as u8,
    ]);
}

/// A written array starts with its length in four big-endian bytes.
pub proof fn lemma_length_prefix_big_endian(bytes: Seq<u8>)
    requires
        bytes.len() <= u32::MAX,
    ensures
        ({
            let w = length_prefixed(bytes);
            let n = bytes.len();
            &&& w.len() == n + 4
            &&& w[0] == n / 0x1000000
            &&& w[1] == n / 0x10000 % 0x100
            &&& w[2] == n / 0x100 % 0x100
            &&& w[3] == n % 0x100
            &&& w.subrange(4, w.len() as int) == bytes
        }),
{
    let n: u32 = bytes.len() as u32;
    lemma_be32_bytes_big_endian(n);
    let w = length_prefixed(bytes);
    assert(w.subrange(4, w.len() as int) =~= bytes);
}

/// Reading an array takes its length from four big-endian bytes: where it
/// succeeds, the array holds `b0 * 256^3 + b1 * 256^2 + b2 * 256 + b3` bytes,
/// those right after the length field.
pub proof fn lemma_read_array_big_endian(bytes: Seq<u8>)
    requires
        read_array(bytes) is Some,
    ensures
        ({
            let n = bytes[0] as int * 16777216 + bytes[1] as int * 65536 + bytes[2] as int * 256
                + bytes[3] as int;
            let (array, rest) = read_array(bytes).unwrap();
            &&& 4 + n <= bytes.len()
            &&& array == bytes.subrange(4, 4 + n)
            &&& rest == bytes.subrange(4 + n, bytes.len() as int)
        }),
{
}

/// A length field that does not fit what follows makes reading fail.
pub proof fn lemma_read_array_too_short(bytes: Seq<u8>)
    requires
        bytes.len() >= 4,
        bytes[0] as int * 16777216 + bytes[1] as int * 65536 + bytes[2] as int * 256
            + bytes[3] as int > bytes.len() - 4,
    ensures
        read_array(bytes) is None,
{
}

} // verus!
