use vstd::prelude::*;
use vstd::utf8::encode_utf8;

use ark_ff::{BigInteger, PrimeField};
use ark_std::rand::rngs::OsRng;
use num_bigint::RandBigInt;

use crate::errors::GrapevineError;

verus! {

/// Number of field elements that carry a phrase.
pub const SECRET_FIELD_LENGTH: usize = 6;

/// Longest phrase, in bytes, that fits in the phrase elements.
pub const MAX_SECRET_LENGTH: usize = 180;

/// Longest username, in bytes, that fits in one element.
pub const MAX_USERNAME_LENGTH: usize = 30;

/// `256` raised to `n`.
pub open spec fn pow256(n: nat) -> nat
    decreases n,
{
    if n == 0 {
        1
    } else {
        256 * pow256((n - 1) as nat)
    }
}

/// The non-negative integer that a big-endian byte string denotes.
pub open spec fn be_value(s: Seq<u8>) -> nat
    decreases s.len(),
{
    if s.len() == 0 {
        0
    } else {
        be_value(s.drop_last()) * 256 + s.last() as nat
    }
}

/// The order of the scalar field of the Pallas curve,
/// `0x40000000000000000000000000000000224698fc0994a8dd8c46eb2100000001`
/// (28948022309329048855892746252171976963363056481941647379679742748393362948097).
pub open spec fn modulus() -> nat {
    64 * pow256(31) + 0x224698fc0994a8dd8c46eb2100000001nat
}

/// The UTF-8 bytes of a string.
pub open spec fn text_bytes(s: &String) -> Seq<u8> {
    encode_utf8(s@)
}

/// A string with every leading zero byte removed.
pub open spec fn strip_leading_zeros(s: Seq<u8>) -> Seq<u8>
    decreases s.len(),
{
    if s.len() == 0 {
        s
    } else if s[0] == 0 {
        strip_leading_zeros(s.drop_first())
    } else {
        s
    }
}

/// A byte string that is empty or does not start with a zero byte.
pub open spec fn no_leading_zero(s: Seq<u8>) -> bool {
    s.len() == 0 || s[0] != 0
}

/// A string with every trailing zero byte removed.
pub open spec fn strip_trailing_zeros(s: Seq<u8>) -> Seq<u8>
    decreases s.len(),
{
    if s.len() == 0 {
        s
    } else if s.last() == 0 {
        strip_trailing_zeros(s.drop_last())
    } else {
        s
    }
}

/// A byte string that is empty or does not end in a zero byte.
pub open spec fn no_trailing_zero(s: Seq<u8>) -> bool {
    s.len() == 0 || s.last() != 0
}

/// Element `i` of an encoded phrase: a zero byte, then bytes `31 i .. 31 i + 31`
/// of the phrase, with zeros where the phrase has ended.
pub open spec fn phrase_chunk(b: Seq<u8>, i: int) -> Seq<u8> {
    Seq::new(
        32,
        |k: int|
            if 1 <= k && 31 * i + k - 1 < b.len() {
                b[31 * i + k - 1]
            } else {
                0u8
            },
    )
}

/// The six elements of an encoded phrase, as byte strings.
pub open spec fn phrase_chunks(b: Seq<u8>) -> Seq<Seq<u8>> {
    Seq::new(6, |i: int| phrase_chunk(b, i))
}

/// An encoded username: the username's bytes right-aligned in 32 bytes,
/// behind zeros (at least one leading zero byte for a name of at most 30 bytes).
pub open spec fn username_chunk(b: Seq<u8>) -> Seq<u8> {
    Seq::new(32, |k: int| if k >= 32 - b.len() { b[k - (32 - b.len())] } else { 0u8 })
}

/// The payload bytes of a sequence of elements: bytes `1 .. 32` of each, in order.
pub open spec fn payload(cs: Seq<Seq<u8>>) -> Seq<u8> {
    Seq::new(31 * cs.len(), |k: int| cs[k / 31][k % 31 + 1])
}

/// The bytes that a sequence of encoded phrase elements carries.
pub open spec fn phrase_decoding(cs: Seq<Seq<u8>>) -> Seq<u8> {
    strip_trailing_zeros(payload(cs))
}

/// The bytes that an encoded username carries: all but its leading zeros.
pub open spec fn username_decoding(c: Seq<u8>) -> Seq<u8> {
    strip_leading_zeros(c)
}

/// An element of the Pallas scalar field, held as its 32-byte big-endian
/// canonical representative.
#[derive(Debug)]
pub struct FieldElement {
    pub bytes: Vec<u8>,
}

impl FieldElement {
    /// The element's value in `[0, modulus)`.
    pub open spec fn value(&self) -> nat {
        be_value(self.bytes@)
    }

    /// Exactly 32 bytes, denoting a value below the modulus.
    pub open spec fn wf(&self) -> bool {
        &&& self.bytes@.len() == 32
        &&& self.value() < modulus()
    }
}

/// The byte strings of a sequence of field elements.
pub open spec fn chunk_bytes(s: Seq<FieldElement>) -> Seq<Seq<u8>> {
    Seq::new(s.len(), |i: int| s[i].bytes@)
}

/// The values of a sequence of field elements.
pub open spec fn values(s: Seq<FieldElement>) -> Seq<nat> {
    Seq::new(s.len(), |i: int| s[i].value())
}

/// Every element of the sequence is well formed.
pub open spec fn all_wf(s: Seq<FieldElement>) -> bool {
    forall|i: int| 0 <= i < s.len() ==> #[trigger] s[i].wf()
}

/// Appending big-endian strings shifts the first by the length of the second.
pub proof fn lemma_be_append(a: Seq<u8>, b: Seq<u8>)
    ensures
        be_value(a + b) == be_value(a) * pow256(b.len()) + be_value(b),
    decreases b.len(),
{
    if b.len() == 0 {
        assert(a + b =~= a);
        assert(be_value(b) == 0);
        assert(pow256(0) == 1);
    } else {
        let b1 = b.drop_last();
        assert((a + b).drop_last() =~= a + b1);
        assert((a + b).last() == b.last());
        lemma_be_append(a, b1);
        let x = be_value(a);
        let p = pow256(b1.len());
        let y = be_value(b1);
        assert(be_value(a + b) == be_value(a + b1) * 256 + b.last());
        assert(be_value(b) == y * 256 + b.last());
        assert(pow256(b.len()) == 256 * p);
        assert((x * p + y) * 256 + b.last() == x * (256 * p) + (y * 256 + b.last()))
            by (nonlinear_arith);
    }
}

/// A big-endian string of `n` bytes denotes less than `256^n`.
pub proof fn lemma_be_bound(s: Seq<u8>)
    ensures
        be_value(s) < pow256(s.len()),
    decreases s.len(),
{
    if s.len() > 0 {
        lemma_be_bound(s.drop_last());
        let y = be_value(s.drop_last());
        let p = pow256((s.len() - 1) as nat);
        assert(y * 256 + s.last() < 256 * p) by (nonlinear_arith)
            requires
                y < p,
                s.last() < 256,
        ;
    }
}

/// A big-endian string denotes zero exactly when each of its bytes is zero.
pub proof fn lemma_be_zero(s: Seq<u8>)
    ensures
        be_value(s) == 0 <==> (forall|k: int| 0 <= k < s.len() ==> s[k] == 0),
    decreases s.len(),
{
    if s.len() > 0 {
        lemma_be_zero(s.drop_last());
        if be_value(s) == 0 {
            assert forall|k: int| 0 <= k < s.len() implies s[k] == 0 by {
                if k < s.len() - 1 {
                    assert(s[k] == s.drop_last()[k]);
                }
            }
        }
        if forall|k: int| 0 <= k < s.len() ==> s[k] == 0 {
            assert forall|k: int| 0 <= k < s.drop_last().len() implies s.drop_last()[k] == 0 by {
                assert(s[k] == 0);
            }
            assert(s[s.len() - 1] == 0);
        }
    }
}

/// A leading zero byte does not change the value.
pub proof fn lemma_be_leading_zero(s: Seq<u8>)
    requires
        s.len() >= 1,
        s[0] == 0,
    ensures
        be_value(s) == be_value(s.subrange(1, s.len() as int)),
{
    let head = s.subrange(0, 1);
    let tail = s.subrange(1, s.len() as int);
    assert(head + tail =~= s);
    lemma_be_append(head, tail);
    lemma_be_zero(head);
}

/// The modulus lies strictly between `256^31` and `256^32`.
pub proof fn lemma_modulus_bounds()
    ensures
        pow256(31) < modulus() < pow256(32),
{
    reveal_with_fuel(pow256, 33);
}

/// Relies on `ark_pallas::Fr::from_bigint`, which refuses exactly the values at
/// or above the modulus, reached through `num_bigint::BigUint::from_bytes_be`
/// and `ark_ff::BigInt::<4>::try_from` (which refuses values of more than 256 bits).
#[verifier::external_body]
fn below_modulus(bytes: &Vec<u8>) -> (r: bool)
    ensures
        r == (be_value(bytes@) < modulus()),
{
    match ark_ff::BigInt::<4>::try_from(num_bigint::BigUint::from_bytes_be(bytes)) {
        Ok(b) => ark_pallas::Fr::from_bigint(b).is_some(),
        Err(_) => false,
    }
}

/// Relies on `num_bigint::RandBigInt::gen_bigint_range` over the operating
/// system's generator: a value in `[0, modulus)`, handed back as the big-endian
/// magnitude that `BigInt::to_bytes_be` gives.
#[verifier::external_body]
fn random_below_modulus() -> (r: Vec<u8>)
    ensures
        be_value(r@) < modulus(),
{
    let upper = num_bigint::BigInt::from_bytes_be(
        num_bigint::Sign::Plus,
        &ark_pallas::Fr::MODULUS.to_bytes_be(),
    );
    OsRng.gen_bigint_range(&num_bigint::BigInt::from(0u8), &upper).to_bytes_be().1
}

/// The same value as exactly 32 big-endian bytes.
fn fit_field_width(bytes: &Vec<u8>) -> (r: Vec<u8>)
    requires
        be_value(bytes@) < pow256(32),
    ensures
        r@.len() == 32,
        be_value(r@) == be_value(bytes@),
{
    let n = bytes.len();
    let mut r: Vec<u8> = Vec::new();
    if n <= 32 {
        let pad: usize = 32 - n;
        let mut k: usize = 0;
        while k < 32
            invariant
                k <= 32,
                n == bytes@.len(),
                pad == 32 - n,
                r@.len() == k,
                forall|m: int| 0 <= m < k ==> r@[m] == (if m < pad { 0u8 } else { bytes@[m - pad] }),
            decreases 32 - k,
        {
            if k < pad {
                r.push(0);
            } else {
                r.push(bytes[k - pad]);
            }
            k += 1;
        }
        proof {
            let zeros = r@.subrange(0, pad as int);
            assert(r@ =~= zeros + bytes@);
            lemma_be_append(zeros, bytes@);
            lemma_be_zero(zeros);
        }
    } else {
        let start: usize = n - 32;
        let mut k: usize = start;
        while k < n
            invariant
                start <= k <= n,
                n == bytes@.len(),
                r@ =~= bytes@.subrange(start as int, k as int),
            decreases n - k,
        {
            r.push(bytes[k]);
            k += 1;
        }
        proof {
            let pre = bytes@.subrange(0, start as int);
            assert(bytes@ =~= pre + r@);
            lemma_be_append(pre, r@);
            lemma_be_bound(r@);
            let x = be_value(pre);
            let p = pow256(32);
            let y = be_value(r@);
            assert(x == 0) by (nonlinear_arith)
                requires
                    x * p + y < p,
                    y < p,
                    y >= 0,
                    x >= 0,
            ;
        }
    }
    r
}

/// Removes every trailing zero byte.
fn strip_zeros(s: &Vec<u8>) -> (r: Vec<u8>)
    ensures
        r@ == strip_trailing_zeros(s@),
{
    let mut n: usize = s.len();
    assert(s@.subrange(0, n as int) =~= s@);
    while n > 0 && s[n - 1] == 0
        invariant
            n <= s@.len(),
            strip_trailing_zeros(s@.subrange(0, n as int)) == strip_trailing_zeros(s@),
        decreases n,
    {
        assert(s@.subrange(0, n as int).drop_last() =~= s@.subrange(0, n - 1));
        n -= 1;
    }
    let mut r: Vec<u8> = Vec::new();
    let mut k: usize = 0;
    while k < n
        invariant
            k <= n <= s@.len(),
            r@ =~= s@.subrange(0, k as int),
        decreases n - k,
    {
        r.push(s[k]);
        k += 1;
    }
    r
}

/// Trailing zeros added to a string without one are exactly what stripping removes.
pub proof fn lemma_strip_padding(b: Seq<u8>, z: Seq<u8>)
    requires
        no_trailing_zero(b),
        forall|k: int| 0 <= k < z.len() ==> z[k] == 0,
    ensures
        strip_trailing_zeros(b + z) == b,
    decreases z.len(),
{
    if z.len() == 0 {
        assert(b + z =~= b);
    } else {
        assert((b + z).drop_last() =~= b + z.drop_last());
        lemma_strip_padding(b, z.drop_last());
    }
}

impl FieldElement {
    /// The zero element.
    pub fn zero() -> (r: FieldElement)
        ensures
            r.wf(),
            r.value() == 0,
    {
        let mut bytes: Vec<u8> = Vec::new();
        let mut k: usize = 0;
        while k < 32
            invariant
                k <= 32,
                bytes@.len() == k,
                forall|m: int| 0 <= m < k ==> bytes@[m] == 0,
            decreases 32 - k,
        {
            bytes.push(0);
            k += 1;
        }
        proof {
            lemma_be_zero(bytes@);
            lemma_modulus_bounds();
        }
        FieldElement { bytes }
    }

    /// The element whose value a big-endian byte string of any length
    /// denotes, or `None` where that value is not below the modulus.
    pub fn from_bytes_be(bytes: &Vec<u8>) -> (r: Option<FieldElement>)
        ensures
            r.is_some() <==> be_value(bytes@) < modulus(),
            r matches Some(f) ==> f.wf() && f.value() == be_value(bytes@),
    {
        if below_modulus(bytes) {
            proof {
                lemma_modulus_bounds();
            }
            Some(FieldElement { bytes: fit_field_width(bytes) })
        } else {
            None
        }
    }

    /// The element's 32-byte big-endian representation.
    pub fn to_bytes_be(&self) -> (r: Vec<u8>)
        ensures
            r@ == self.bytes@,
    {
        self.bytes.clone()
    }

    /// A second element equal to this one.
    pub fn duplicate(&self) -> (r: FieldElement)
        ensures
            r.bytes@ == self.bytes@,
    {
        FieldElement { bytes: self.bytes.clone() }
    }

    /// Whether two elements are the same.
    pub fn equals(&self, other: &FieldElement) -> (r: bool)
        ensures
            r == (self.bytes@ == other.bytes@),
    {
        if self.bytes.len() != other.bytes.len() {
            return false;
        }
        let mut k: usize = 0;
        while k < self.bytes.len()
            invariant
                k <= self.bytes@.len() == other.bytes@.len(),
                forall|m: int| 0 <= m < k ==> self.bytes@[m] == other.bytes@[m],
            decreases self.bytes@.len() - k,
        {
            if self.bytes[k] != other.bytes[k] {
                return false;
            }
            k += 1;
        }
        assert(self.bytes@ =~= other.bytes@);
        true
    }
}

/// A field element drawn uniformly at random below the modulus from the
/// operating system's generator, for slots that carry no real value.
pub fn random_f_bigint() -> (r: FieldElement)
    ensures
        r.wf(),
{
    let bytes = random_below_modulus();
    proof {
        lemma_modulus_bounds();
    }
    FieldElement { bytes: fit_field_width(&bytes) }
}

/// Encodes a phrase of at most 180 bytes as six field elements: element `i`
/// holds bytes `31 i .. 31 i + 31` after one zero byte, zero-filled past the end.
pub fn serialize_phrase(phrase: &String) -> (r: Result<Vec<FieldElement>, GrapevineError>)
    ensures
        r is Err <==> text_bytes(phrase).len() > MAX_SECRET_LENGTH,
        r matches Err(e) ==> e == GrapevineError::LengthExceeded,
        r matches Ok(cs) ==> cs@.len() == SECRET_FIELD_LENGTH && all_wf(cs@) && chunk_bytes(cs@) == phrase_chunks(text_bytes(phrase)),
{
    let bytes = phrase.as_str().as_bytes();
    let ghost b = text_bytes(phrase);
    assert(bytes@ == b);
    let n = bytes.len();
    if n > MAX_SECRET_LENGTH {
        return Err(GrapevineError::LengthExceeded);
    }
    let mut chunks: Vec<FieldElement> = Vec::new();
    let mut i: usize = 0;
    while i < SECRET_FIELD_LENGTH
        invariant
            i <= 6,
            n == b.len() <= 180,
            bytes@ == b,
            chunks@.len() == i,
            forall|j: int| 0 <= j < i ==> (#[trigger] chunks@[j]).wf() && chunks@[j].bytes@ == phrase_chunk(b, j),
        decreases 6 - i,
    {
        let mut chunk: Vec<u8> = Vec::new();
        chunk.push(0);
        let mut k: usize = 1;
        while k < 32
            invariant
                1 <= k <= 32,
                i < 6,
                n == b.len() <= 180,
                bytes@ == b,
                chunk@.len() == k,
                forall|m: int| 0 <= m < k ==> chunk@[m] == phrase_chunk(b, i as int)[m],
            decreases 32 - k,
        {
            let pos: usize = 31 * i + k - 1;
            if pos < n {
                chunk.push(bytes[pos]);
            } else {
                chunk.push(0);
            }
            k += 1;
        }
        proof {
            assert(chunk@ =~= phrase_chunk(b, i as int));
            lemma_be_leading_zero(chunk@);
            lemma_be_bound(chunk@.subrange(1, 32));
            lemma_modulus_bounds();
        }
        chunks.push(FieldElement { bytes: chunk });
        i += 1;
    }
    assert(chunk_bytes(chunks@) =~= phrase_chunks(b));
    Ok(chunks)
}

/// Encodes a username of at most 30 bytes as one field element: the
/// username's bytes right-aligned behind zeros, so that the element's value is
/// the username read as a big-endian integer.
pub fn serialize_username(username: &String) -> (r: Result<FieldElement, GrapevineError>)
    ensures
        r is Err <==> text_bytes(username).len() > MAX_USERNAME_LENGTH,
        r matches Err(e) ==> e == GrapevineError::LengthExceeded,
        r matches Ok(f) ==> f.wf() && f.bytes@ == username_chunk(text_bytes(username)),
        r matches Ok(f) ==> f.value() == be_value(text_bytes(username)),
{
    let bytes = username.as_str().as_bytes();
    let ghost b = text_bytes(username);
    assert(bytes@ == b);
    let n = bytes.len();
    if n > MAX_USERNAME_LENGTH {
        return Err(GrapevineError::LengthExceeded);
    }
    let pad: usize = 32 - n;
    let mut chunk: Vec<u8> = Vec::new();
    let mut k: usize = 0;
    while k < 32
        invariant
            k <= 32,
            n == b.len() <= 30,
            pad == 32 - n,
            bytes@ == b,
            chunk@.len() == k,
            forall|m: int| 0 <= m < k ==> chunk@[m] == username_chunk(b)[m],
        decreases 32 - k,
    {
        if k < pad {
            chunk.push(0);
        } else {
            chunk.push(bytes[k - pad]);
        }
        k += 1;
    }
    proof {
        assert(chunk@ =~= username_chunk(b));
        let zeros = chunk@.subrange(0, pad as int);
        assert(chunk@ =~= zeros + b);
        lemma_be_append(zeros, b);
        lemma_be_zero(zeros);
        assert(be_value(chunk@) == be_value(b));
        lemma_be_leading_zero(chunk@);
        lemma_be_bound(chunk@.subrange(1, 32));
        lemma_modulus_bounds();
    }
    Ok(FieldElement { bytes: chunk })
}

/// The bytes that encoded phrase elements carry: bytes `1 .. 32` of each
/// element in order, with the trailing zero padding removed.
pub fn deserialize_phrase(chunks: &Vec<FieldElement>) -> (r: Vec<u8>)
    requires
        all_wf(chunks@),
        chunks@.len() <= SECRET_FIELD_LENGTH,
    ensures
        r@ == phrase_decoding(chunk_bytes(chunks@)),
{
    let ghost cs = chunk_bytes(chunks@);
    let mut out: Vec<u8> = Vec::new();
    let mut i: usize = 0;
    while i < chunks.len()
        invariant
            i <= chunks@.len() <= 6,
            all_wf(chunks@),
            cs == chunk_bytes(chunks@),
            out@.len() == 31 * i,
            forall|m: int| 0 <= m < 31 * i ==> out@[m] == #[trigger] payload(cs)[m],
        decreases chunks@.len() - i,
    {
        let c = &chunks[i];
        assert(c.wf());
        let mut k: usize = 1;
        while k < 32
            invariant
                1 <= k <= 32,
                i < chunks@.len() <= 6,
                *c == chunks@[i as int],
                c.bytes@.len() == 32,
                cs == chunk_bytes(chunks@),
                out@.len() == 31 * i + k - 1,
                forall|m: int| 0 <= m < 31 * i + k - 1 ==> out@[m] == #[trigger] payload(cs)[m],
            decreases 32 - k,
        {
            out.push(c.bytes[k]);
            proof {
                let m = 31 * i + k - 1;
                assert(m / 31 == i as int && m % 31 == k - 1) by (nonlinear_arith)
                    requires
                        m == 31 * i + k - 1,
                        1 <= k < 32,
                ;
            }
            k += 1;
        }
        i += 1;
    }
    assert(out@ =~= payload(cs));
    strip_zeros(&out)
}

/// The bytes that an encoded username carries: its bytes without the
/// leading zeros.
pub fn deserialize_username(f: &FieldElement) -> (r: Vec<u8>)
    requires
        f.wf(),
    ensures
        r@ == username_decoding(f.bytes@),
{
    let mut n: usize = 0;
    assert(f.bytes@.subrange(0, f.bytes@.len() as int) =~= f.bytes@);
    while n < f.bytes.len() && f.bytes[n] == 0
        invariant
            n <= f.bytes@.len(),
            strip_leading_zeros(f.bytes@.subrange(n as int, f.bytes@.len() as int))
                == strip_leading_zeros(f.bytes@),
        decreases f.bytes@.len() - n,
    {
        assert(f.bytes@.subrange(n as int, f.bytes@.len() as int).drop_first()
            =~= f.bytes@.subrange(n + 1, f.bytes@.len() as int));
        n += 1;
    }
    let mut out: Vec<u8> = Vec::new();
    let mut k: usize = n;
    while k < f.bytes.len()
        invariant
            n <= k <= f.bytes@.len(),
            out@ =~= f.bytes@.subrange(n as int, k as int),
        decreases f.bytes@.len() - k,
    {
        out.push(f.bytes[k]);
        k += 1;
    }
    out
}

/// Leading zeros put before a string that starts without one are exactly
/// what stripping removes.
pub proof fn lemma_strip_leading_padding(z: Seq<u8>, b: Seq<u8>)
    requires
        no_leading_zero(b),
        forall|k: int| 0 <= k < z.len() ==> z[k] == 0,
    ensures
        strip_leading_zeros(z + b) == b,
    decreases z.len(),
{
    if z.len() == 0 {
        assert(z + b =~= b);
    } else {
        assert((z + b).drop_first() =~= z.drop_first() + b);
        lemma_strip_leading_padding(z.drop_first(), b);
    }
}

/// Decoding an encoded phrase gives back its bytes, for every phrase of at
/// most 180 bytes that does not end in a zero byte.
pub proof fn lemma_phrase_round_trip(phrase: Seq<char>)
    requires
        encode_utf8(phrase).len() <= MAX_SECRET_LENGTH,
        no_trailing_zero(encode_utf8(phrase)),
    ensures
        phrase_decoding(phrase_chunks(encode_utf8(phrase))) == encode_utf8(phrase),
{
    let b = encode_utf8(phrase);
    let cs = phrase_chunks(b);
    let z = Seq::new((186 - b.len()) as nat, |k: int| 0u8);
    assert forall|k: int| 0 <= k < 186 implies #[trigger] payload(cs)[k] == (b + z)[k] by {
        assert(k == 31 * (k / 31) + k % 31 && 0 <= k % 31 < 31 && 0 <= k / 31 < 6) by (nonlinear_arith)
            requires
                0 <= k < 186,
        ;
    }
    assert(payload(cs) =~= b + z);
    lemma_strip_padding(b, z);
}

/// Decoding an encoded username gives back its bytes, for every username of
/// at most 30 bytes that does not start with a zero byte.
pub proof fn lemma_username_round_trip(username: Seq<char>)
    requires
        encode_utf8(username).len() <= MAX_USERNAME_LENGTH,
        no_leading_zero(encode_utf8(username)),
    ensures
        username_decoding(username_chunk(encode_utf8(username))) == encode_utf8(username),
{
    let b = encode_utf8(username);
    let z = Seq::new((32 - b.len()) as nat, |k: int| 0u8);
    assert(username_chunk(b) =~= z + b);
    lemma_strip_leading_padding(z, b);
}

} // verus!
