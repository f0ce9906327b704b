//! Wire codec for the message bus.
//!
//! Every value on the wire is written in a length- and type-directed binary
//! form: integers as big-endian bytes, booleans as a single byte (`1` is
//! true), strings as a byte count followed by UTF-8 bytes, and lists as an
//! element count followed by the elements.
//!
//! The mathematical form of the encoding is given by the `enc_*` spec
//! functions, and of the parser by the `dec_*` spec functions.  A parser
//! takes the byte sequence that remains in the input and returns the decoded
//! value together with the number of bytes consumed, or `None` when the input
//! does not begin with a well-formed encoding.

use vstd::prelude::*;
use vstd::utf8::{decode_utf8, encode_utf8, valid_utf8};

verus! {

broadcast use vstd::utf8::group_utf8_lib;

/// Upper bound of the `u32` length fields used on the wire.
pub open spec fn max_len() -> int {
    0xffff_ffff
}

// ---------------------------------------------------------------------------
// Encodings of the primitives
// ---------------------------------------------------------------------------
pub open spec fn enc_u8(v: u8) -> Seq<u8> {
    seq![v]
}

pub open spec fn enc_bool(v: bool) -> Seq<u8> {
    seq![if v { 1u8 } else { 0u8 }]
}

pub open spec fn enc_u32(v: u32) -> Seq<u8> {
    seq![
        ((v >> 24) & 0xff) as u8,
        ((v >> 16) & 0xff) as u8,
        ((v >> 8) & 0xff) as u8,
        (v & 0xff) as u8,
    ]
}

pub open spec fn enc_i32(v: i32) -> Seq<u8> {
    enc_u32(v as u32)
}

/// The `u32` value read back from four big-endian bytes.
pub open spec fn word_of(b0: u8, b1: u8, b2: u8, b3: u8) -> u32 {
    ((b0 as u32) << 24) | ((b1 as u32) << 16) | ((b2 as u32) << 8) | (b3 as u32)
}

// ---------------------------------------------------------------------------
// Parsers of the primitives
// ---------------------------------------------------------------------------
pub open spec fn dec_u8(b: Seq<u8>) -> Option<(u8, int)> {
    if b.len() >= 1 {
        Some((b[0], 1int))
    } else {
        None
    }
}

pub open spec fn dec_bool(b: Seq<u8>) -> Option<(bool, int)> {
    if b.len() >= 1 {
        Some((b[0] == 1, 1int))
    } else {
        None
    }
}

pub open spec fn dec_u32(b: Seq<u8>) -> Option<(u32, int)> {
    if b.len() >= 4 {
        Some((word_of(b[0], b[1], b[2], b[3]), 4int))
    } else {
        None
    }
}

pub open spec fn dec_i32(b: Seq<u8>) -> Option<(i32, int)> {
    match dec_u32(b) {
        Some((v, n)) => Some((v as i32, n)),
        None => None,
    }
}

// ---------------------------------------------------------------------------
// Round-trip facts for the primitives
// ---------------------------------------------------------------------------
pub proof fn lemma_u32_bytes_round(v: u32)
    by (bit_vector)
    ensures
        ((((v >> 24) & 0xff) as u8 as u32) << 24) | ((((v >> 16) & 0xff) as u8 as u32) << 16) | ((((
        v >> 8) & 0xff) as u8 as u32) << 8) | ((v & 0xff) as u8 as u32) == v,
{
}

pub proof fn lemma_dec_enc_u32(v: u32, rest: Seq<u8>)
    ensures
        dec_u32(enc_u32(v) + rest) == Some((v, 4int)),
{
    let b = enc_u32(v) + rest;
    assert(b[0] == ((v >> 24) & 0xff) as u8);
    assert(b[1] == ((v >> 16) & 0xff) as u8);
    assert(b[2] == ((v >> 8) & 0xff) as u8);
    assert(b[3] == (v & 0xff) as u8);
    lemma_u32_bytes_round(v);
}

pub proof fn lemma_i32_cast_round(v: i32)
    by (bit_vector)
    ensures
        (v as u32) as i32 == v,
{
}

pub proof fn lemma_dec_enc_i32(v: i32, rest: Seq<u8>)
    ensures
        dec_i32(enc_i32(v) + rest) == Some((v, 4int)),
{
    lemma_dec_enc_u32(v as u32, rest);
    lemma_i32_cast_round(v);
}

/// Dropping a concatenation's first part leaves its second part.
pub proof fn lemma_concat_skip(a: Seq<u8>, b: Seq<u8>)
    ensures
        (a + b).skip(a.len() as int) == b,
{
    assert((a + b).skip(a.len() as int) =~= b);
}

/// Two successive skips are one skip.
pub proof fn lemma_skip_skip(b: Seq<u8>, i: int, j: int)
    requires
        0 <= i <= j <= b.len(),
    ensures
        b.skip(i).skip(j - i) == b.skip(j),
{
    assert(b.skip(i).skip(j - i) =~= b.skip(j));
}

// ---------------------------------------------------------------------------
// The serialization interface
// ---------------------------------------------------------------------------
/// A value that can be written to and read back from the wire.
///
/// `enc` gives the wire bytes of a value's mathematical model, `enc_ok` says
/// when the value fits the format (every length fits a `u32` field), and
/// `dec` parses a prefix of a byte sequence.  `lemma_dec_enc` is the
/// round-trip law: parsing an encoding, followed by anything at all, yields
/// exactly the encoded value.
pub trait Serializable: Sized + DeepView {
    spec fn enc(v: Self::V) -> Seq<u8>;

    spec fn enc_ok(v: Self::V) -> bool;

    spec fn dec(b: Seq<u8>) -> Option<(Self::V, int)>;

    /// Every successful parse consumes at least one byte and no more than
    /// the input.
    proof fn lemma_dec_bounds(b: Seq<u8>)
        ensures
            Self::dec(b) matches Some((v, n)) ==> 1 <= n <= b.len(),
    ;

    /// Round trip: the encoding of a well-formed value, followed by any
    /// bytes, parses back to that value.
    proof fn lemma_dec_enc(v: Self::V, rest: Seq<u8>)
        requires
            Self::enc_ok(v),
        ensures
            Self::dec(Self::enc(v) + rest) == Some((v, Self::enc(v).len() as int)),
    ;

    /// Appends the encoding of `self` to `out`; leaves `out` unchanged and
    /// reports failure when the value does not fit the format.
    fn serialize(&self, out: &mut Vec<u8>) -> (ok: bool)
        ensures
            ok == Self::enc_ok(self.deep_view()),
            ok ==> final(out)@ == old(out)@ + Self::enc(self.deep_view()),
            !ok ==> final(out)@ == old(out)@,
    ;

    /// Parses one value from `buf` starting at `*pos`, advancing `*pos` past
    /// the bytes consumed; returns `None`, leaving `*pos` unchanged, when no
    /// well-formed encoding starts there.
    fn deserialize(buf: &Vec<u8>, pos: &mut usize) -> (r: Option<Self>)
        requires
            *old(pos) <= buf@.len(),
        ensures
            match r {
                Some(v) => {
                    &&& *old(pos) <= *final(pos) <= buf@.len()
                    &&& Self::dec(buf@.skip(*old(pos) as int)) == Some(
                        (v.deep_view(), *final(pos) - *old(pos)),
                    )
                },
                None => {
                    &&& Self::dec(buf@.skip(*old(pos) as int)) is None
                    &&& *final(pos) == *old(pos)
                },
            },
    ;
}

impl Serializable for u8 {
    open spec fn enc(v: u8) -> Seq<u8> {
        enc_u8(v)
    }

    open spec fn enc_ok(v: u8) -> bool {
        true
    }

    open spec fn dec(b: Seq<u8>) -> Option<(u8, int)> {
        dec_u8(b)
    }

    proof fn lemma_dec_bounds(b: Seq<u8>) {
    }

    proof fn lemma_dec_enc(v: u8, rest: Seq<u8>) {
        assert(dec_u8(enc_u8(v) + rest) == Some((v, 1int)));
    }

    fn serialize(&self, out: &mut Vec<u8>) -> (ok: bool) {
        out.push(*self);
        proof {
            assert(out@ =~= old(out)@ + enc_u8(*self));
        }
        true
    }

    fn deserialize(buf: &Vec<u8>, pos: &mut usize) -> (r: Option<u8>) {
        if *pos < buf.len() {
            let v = buf[*pos];
            *pos = *pos + 1;
            Some(v)
        } else {
            None
        }
    }
}

impl Serializable for bool {
    open spec fn enc(v: bool) -> Seq<u8> {
        enc_bool(v)
    }

    open spec fn enc_ok(v: bool) -> bool {
        true
    }

    open spec fn dec(b: Seq<u8>) -> Option<(bool, int)> {
        dec_bool(b)
    }

    proof fn lemma_dec_bounds(b: Seq<u8>) {
    }

    proof fn lemma_dec_enc(v: bool, rest: Seq<u8>) {
        assert(dec_bool(enc_bool(v) + rest) == Some((v, 1int)));
    }

    fn serialize(&self, out: &mut Vec<u8>) -> (ok: bool) {
        out.push(if *self { 1u8 } else { 0u8 });
        proof {
            assert(out@ =~= old(out)@ + enc_bool(*self));
        }
        true
    }

    fn deserialize(buf: &Vec<u8>, pos: &mut usize) -> (r: Option<bool>) {
        if *pos < buf.len() {
            let v = buf[*pos];
            *pos = *pos + 1;
            Some(v == 1)
        } else {
            None
        }
    }
}

impl Serializable for u32 {
    open spec fn enc(v: u32) -> Seq<u8> {
        enc_u32(v)
    }

    open spec fn enc_ok(v: u32) -> bool {
        true
    }

    open spec fn dec(b: Seq<u8>) -> Option<(u32, int)> {
        dec_u32(b)
    }

    proof fn lemma_dec_bounds(b: Seq<u8>) {
    }

    proof fn lemma_dec_enc(v: u32, rest: Seq<u8>) {
        lemma_dec_enc_u32(v, rest);
    }

    fn serialize(&self, out: &mut Vec<u8>) -> (ok: bool) {
        let v = *self;
        proof {
            lemma_byte_masks_fit(v);
        }
        out.push(((v >> 24) & 0xff) as u8);
        out.push(((v >> 16) & 0xff) as u8);
        out.push(((v >> 8) & 0xff) as u8);
        out.push((v & 0xff) as u8);
        proof {
            assert(out@ =~= old(out)@ + enc_u32(v));
        }
        true
    }

    fn deserialize(buf: &Vec<u8>, pos: &mut usize) -> (r: Option<u32>) {
        if buf.len() - *pos >= 4 {
            let b0 = buf[*pos];
            let b1 = buf[*pos + 1];
            let b2 = buf[*pos + 2];
            let b3 = buf[*pos + 3];
            let v = ((b0 as u32) << 24) | ((b1 as u32) << 16) | ((b2 as u32) << 8) | (b3 as u32);
            proof {
                let tail = buf@.skip(*old(pos) as int);
                assert(tail[0] == b0 && tail[1] == b1 && tail[2] == b2 && tail[3] == b3);
            }
            *pos = *pos + 4;
            Some(v)
        } else {
            None
        }
    }
}

proof fn lemma_byte_masks_fit(v: u32)
    by (bit_vector)
    ensures
        (v >> 24) & 0xff <= 0xff,
        (v >> 16) & 0xff <= 0xff,
        (v >> 8) & 0xff <= 0xff,
        v & 0xff <= 0xff,
{
}

/// Relies on `String::from_utf8`: it succeeds exactly on valid UTF-8 input
/// and returns the string holding those bytes, i.e. the decoded characters.
#[verifier::external_body]
pub(crate) fn string_from_utf8(bytes: Vec<u8>) -> (r: Option<String>)
    ensures
        r is Some <==> valid_utf8(bytes@),
        r matches Some(s) ==> s@ == decode_utf8(bytes@),
{
    String::from_utf8(bytes).ok()
}

/// Strings travel as a `u32` byte count followed by the UTF-8 bytes.
pub open spec fn enc_str(v: Seq<char>) -> Seq<u8> {
    enc_u32(encode_utf8(v).len() as u32) + encode_utf8(v)
}

pub open spec fn dec_str(b: Seq<u8>) -> Option<(Seq<char>, int)> {
    match dec_u32(b) {
        Some((len, _)) => {
            if b.len() >= 4 + len {
                let bytes = b.subrange(4, 4 + len);
                if valid_utf8(bytes) {
                    Some((decode_utf8(bytes), 4 + len))
                } else {
                    None
                }
            } else {
                None
            }
        },
        None => None,
    }
}

impl Serializable for String {
    open spec fn enc(v: Seq<char>) -> Seq<u8> {
        enc_str(v)
    }

    open spec fn enc_ok(v: Seq<char>) -> bool {
        encode_utf8(v).len() <= max_len()
    }

    open spec fn dec(b: Seq<u8>) -> Option<(Seq<char>, int)> {
        dec_str(b)
    }

    proof fn lemma_dec_bounds(b: Seq<u8>) {
    }

    proof fn lemma_dec_enc(v: Seq<char>, rest: Seq<u8>) {
        let bytes = encode_utf8(v);
        let whole = enc_str(v) + rest;
        lemma_dec_enc_u32(bytes.len() as u32, bytes + rest);
        assert(whole =~= enc_u32(bytes.len() as u32) + (bytes + rest));
        assert(whole.subrange(4, 4 + bytes.len() as int) =~= bytes);
    }

    fn serialize(&self, out: &mut Vec<u8>) -> (ok: bool) {
        let bytes: &[u8] = self.as_str().as_bytes();
        let n: usize = bytes.len();
        if n > 0xffff_ffffusize {
            false
        } else {
            let _ = (n as u32).serialize(out);
            out.extend_from_slice(bytes);
            proof {
                assert(out@ =~= old(out)@ + enc_str(self@));
            }
            true
        }
    }

    fn deserialize(buf: &Vec<u8>, pos: &mut usize) -> (r: Option<String>) {
        let start: usize = *pos;
        match u32::deserialize(buf, pos) {
            None => None,
            Some(len32) => {
                let len = len32 as usize;
                if buf.len() - *pos < len {
                    *pos = start;
                    None
                } else {
                    let bytes = vstd::slice::slice_to_vec(
                        vstd::slice::slice_subrange(buf.as_slice(), *pos, *pos + len),
                    );
                    proof {
                        assert(bytes@ =~= buf@.skip(start as int).subrange(4, 4 + len as int));
                    }
                    match string_from_utf8(bytes) {
                        Some(s) => {
                            *pos = *pos + len;
                            Some(s)
                        },
                        None => {
                            *pos = start;
                            None
                        },
                    }
                }
            },
        }
    }
}

// ---------------------------------------------------------------------------
// Lists: a `u32` element count, then the elements one after another
// ---------------------------------------------------------------------------
pub open spec fn enc_list<T: Serializable>(s: Seq<T::V>) -> Seq<u8>
    decreases s.len(),
{
    if s.len() == 0 {
        Seq::empty()
    } else {
        T::enc(s[0]) + enc_list::<T>(s.drop_first())
    }
}

pub open spec fn dec_list<T: Serializable>(b: Seq<u8>, n: nat) -> Option<(Seq<T::V>, int)>
    decreases n,
{
    if n == 0 {
        Some((Seq::empty(), 0int))
    } else {
        match T::dec(b) {
            Some((v, used)) => match dec_list::<T>(b.skip(used), (n - 1) as nat) {
                Some((vs, used2)) => Some((seq![v] + vs, used + used2)),
                None => None,
            },
            None => None,
        }
    }
}

pub proof fn lemma_dec_list_bounds<T: Serializable>(b: Seq<u8>, n: nat)
    ensures
        dec_list::<T>(b, n) matches Some((vs, used)) ==> 0 <= used <= b.len() && vs.len() == n,
    decreases n,
{
    if n > 0 {
        T::lemma_dec_bounds(b);
        match T::dec(b) {
            Some((v, used)) => {
                lemma_dec_list_bounds::<T>(b.skip(used), (n - 1) as nat);
            },
            None => {},
        }
    }
}

pub proof fn lemma_enc_list_snoc<T: Serializable>(s: Seq<T::V>, v: T::V)
    ensures
        enc_list::<T>(s + seq![v]) == enc_list::<T>(s) + T::enc(v),
    decreases s.len(),
{
    if s.len() == 0 {
        let s2 = s + seq![v];
        assert(s2[0] == v);
        assert(s2.drop_first() =~= Seq::<T::V>::empty());
        assert(enc_list::<T>(s2.drop_first()) == Seq::<u8>::empty());
        assert(enc_list::<T>(s2) == T::enc(v) + Seq::<u8>::empty());
        assert(enc_list::<T>(s) == Seq::<u8>::empty());
        assert(T::enc(v) + Seq::<u8>::empty() =~= Seq::<u8>::empty() + T::enc(v));
    } else {
        let s2 = s + seq![v];
        assert(s2[0] == s[0]);
        assert(s2.drop_first() =~= s.drop_first() + seq![v]);
        lemma_enc_list_snoc::<T>(s.drop_first(), v);
        assert(enc_list::<T>(s2) == T::enc(s[0]) + (enc_list::<T>(s.drop_first()) + T::enc(v)));
        assert(T::enc(s[0]) + (enc_list::<T>(s.drop_first()) + T::enc(v)) =~= (T::enc(s[0])
            + enc_list::<T>(s.drop_first())) + T::enc(v));
    }
}

pub proof fn lemma_dec_enc_list<T: Serializable>(s: Seq<T::V>, rest: Seq<u8>)
    requires
        forall|i: int| 0 <= i < s.len() ==> T::enc_ok(#[trigger] s[i]),
    ensures
        dec_list::<T>(enc_list::<T>(s) + rest, s.len() as nat) == Some(
            (s, enc_list::<T>(s).len() as int),
        ),
    decreases s.len(),
{
    if s.len() == 0 {
        assert(enc_list::<T>(s) + rest =~= rest);
        assert(s =~= Seq::<T::V>::empty());
    } else {
        let head = s[0];
        let tail = s.drop_first();
        let whole = enc_list::<T>(s) + rest;
        T::lemma_dec_enc(head, enc_list::<T>(tail) + rest);
        assert(whole =~= T::enc(head) + (enc_list::<T>(tail) + rest));
        assert(whole.skip(T::enc(head).len() as int) =~= enc_list::<T>(tail) + rest);
        lemma_dec_enc_list::<T>(tail, rest);
        assert(seq![head] + tail =~= s);
    }
}

/// Joins an already-parsed prefix with the parse of the remaining elements.
pub open spec fn prepend_parsed<V>(vs: Seq<V>, used: int, r: Option<(Seq<V>, int)>) -> Option<
    (Seq<V>, int),
> {
    match r {
        Some((vs2, used2)) => Some((vs + vs2, used + used2)),
        None => None,
    }
}

impl<T: Serializable> Serializable for Vec<T> {
    open spec fn enc(v: Seq<T::V>) -> Seq<u8> {
        enc_u32(v.len() as u32) + enc_list::<T>(v)
    }

    open spec fn enc_ok(v: Seq<T::V>) -> bool {
        v.len() <= max_len() && forall|i: int| 0 <= i < v.len() ==> T::enc_ok(#[trigger] v[i])
    }

    open spec fn dec(b: Seq<u8>) -> Option<(Seq<T::V>, int)> {
        match dec_u32(b) {
            Some((cnt, _)) => match dec_list::<T>(b.skip(4), cnt as nat) {
                Some((vs, used)) => Some((vs, 4 + used)),
                None => None,
            },
            None => None,
        }
    }

    proof fn lemma_dec_bounds(b: Seq<u8>) {
        match dec_u32(b) {
            Some((cnt, _)) => {
                lemma_dec_list_bounds::<T>(b.skip(4), cnt as nat);
            },
            None => {},
        }
    }

    proof fn lemma_dec_enc(v: Seq<T::V>, rest: Seq<u8>) {
        let body = enc_list::<T>(v);
        let whole = Self::enc(v) + rest;
        lemma_dec_enc_u32(v.len() as u32, body + rest);
        assert(whole =~= enc_u32(v.len() as u32) + (body + rest));
        assert(whole.skip(4) =~= body + rest);
        lemma_dec_enc_list::<T>(v, rest);
        assert(v.len() as u32 as nat == v.len());
    }

    fn serialize(&self, out: &mut Vec<u8>) -> (ok: bool) {
        let ghost orig = out@;
        let ghost dv = self.deep_view();
        let orig_len: usize = out.len();
        let n: usize = self.len();
        if n > 0xffff_ffffusize {
            return false;
        }
        let _ = (n as u32).serialize(out);
        proof {
            assert(out@ =~= orig + enc_u32(n as u32) + enc_list::<T>(dv.take(0)));
        }
        let mut i: usize = 0;
        while i < n
            invariant
                i <= n,
                n == dv.len(),
                n <= max_len(),
                dv == self.deep_view(),
                orig == old(out)@,
                out@ == orig + enc_u32(n as u32) + enc_list::<T>(dv.take(i as int)),
                orig.len() == orig_len,
                forall|j: int| 0 <= j < i ==> T::enc_ok(#[trigger] dv[j]),
            decreases n - i,
        {
            let ok = self[i].serialize(out);
            if !ok {
                out.truncate(orig_len);
                proof {
                    assert(out@ =~= orig);
                    assert(dv[i as int] == self@[i as int].deep_view());
                    assert(!Self::enc_ok(dv)) by {
                        assert(!T::enc_ok(dv[i as int]));
                    }
                }
                return false;
            }
            proof {
                lemma_enc_list_snoc::<T>(dv.take(i as int), dv[i as int]);
                assert(dv.take(i as int) + seq![dv[i as int]] =~= dv.take(i + 1));
                assert(out@ =~= orig + enc_u32(n as u32) + enc_list::<T>(dv.take(i + 1)));
            }
            i = i + 1;
        }
        proof {
            assert(dv.take(n as int) =~= dv);
        }
        true
    }

    fn deserialize(buf: &Vec<u8>, pos: &mut usize) -> (r: Option<Vec<T>>) {
        let start: usize = *pos;
        match u32::deserialize(buf, pos) {
            None => None,
            Some(count32) => {
                let ghost start4 = *pos as int;
                let count = count32 as usize;
                let mut result: Vec<T> = Vec::new();
                let mut i: usize = 0;
                while i < count
                    invariant
                        i <= count,
                        start == *old(pos),
                        start4 == start + 4,
                        start + 4 <= *pos <= buf@.len(),
                        result.deep_view().len() == i,
                        dec_u32(buf@.skip(start as int)) == Some((count32, 4int)),
                        count == count32 as usize,
                        dec_list::<T>(buf@.skip(start4), count as nat) == prepend_parsed(
                            result.deep_view(),
                            *pos - start4,
                            dec_list::<T>(buf@.skip(*pos as int), (count - i) as nat),
                        ),
                    decreases count - i,
                {
                    let ghost pos0 = *pos as int;
                    let ghost rdv0 = result.deep_view();
                    match T::deserialize(buf, pos) {
                        Some(v) => {
                            result.push(v);
                            proof {
                                assert(result.deep_view() =~= rdv0 + seq![v.deep_view()]);
                                assert(buf@.skip(pos0).skip(*pos - pos0) =~= buf@.skip(
                                    *pos as int,
                                ));
                                assert(dec_list::<T>(buf@.skip(pos0), (count - i) as nat)
                                    == prepend_parsed(
                                    seq![v.deep_view()],
                                    *pos - pos0,
                                    dec_list::<T>(buf@.skip(*pos as int), (count - i - 1) as nat),
                                ));
                                assert forall|vs2: Seq<T::V>|
                                    rdv0 + (seq![v.deep_view()] + vs2) =~= (rdv0 + seq![
                                        v.deep_view(),
                                    ]) + vs2 by {}
                            }
                            i = i + 1;
                        },
                        None => {
                            proof {
                                assert(dec_list::<T>(buf@.skip(pos0), (count - i) as nat) is None);
                                assert(buf@.skip(start as int).skip(4) =~= buf@.skip(start4));
                            }
                            *pos = start;
                            return None;
                        },
                    }
                }
                proof {
                    assert(dec_list::<T>(buf@.skip(*pos as int), 0nat) == Some(
                        (Seq::<T::V>::empty(), 0int),
                    ));
                    assert(result.deep_view() + Seq::<T::V>::empty() =~= result.deep_view());
                    assert(buf@.skip(start as int).skip(4) =~= buf@.skip(start4));
                    assert(dec_list::<T>(buf@.skip(start4), count as nat) == Some(
                        (result.deep_view(), *pos - start4),
                    ));
                    assert(count32 as nat == count as nat);
                    assert(Self::dec(buf@.skip(start as int)) == Some(
                        (result.deep_view(), *pos - start),
                    ));
                }
                Some(result)
            },
        }
    }
}

impl Serializable for i32 {
    open spec fn enc(v: i32) -> Seq<u8> {
        enc_i32(v)
    }

    open spec fn enc_ok(v: i32) -> bool {
        true
    }

    open spec fn dec(b: Seq<u8>) -> Option<(i32, int)> {
        dec_i32(b)
    }

    proof fn lemma_dec_bounds(b: Seq<u8>) {
    }

    proof fn lemma_dec_enc(v: i32, rest: Seq<u8>) {
        lemma_dec_enc_i32(v, rest);
    }

    fn serialize(&self, out: &mut Vec<u8>) -> (ok: bool) {
        let v = #[verifier::truncate] (*self as u32);
        let ok = v.serialize(out);
        proof {
            assert(enc_i32(*self) == enc_u32(*self as u32));
        }
        ok
    }

    fn deserialize(buf: &Vec<u8>, pos: &mut usize) -> (r: Option<i32>) {
        match u32::deserialize(buf, pos) {
            Some(v) => Some(#[verifier::truncate] (v as i32)),
            None => None,
        }
    }
}

} // verus!
