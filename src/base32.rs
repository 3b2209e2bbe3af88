//! RFC 4648 base32 decoding of user-supplied secrets.
use vstd::prelude::*;

verus! {

/// Bit `t` (0 = most significant) of a byte.
pub open spec fn byte_bit(b: u8, t: int) -> bool {
    (b >> ((7 - t) as u8)) & 1u8 == 1u8
}

/// The low `width` bits of `v`, most significant first.
pub open spec fn data_bits(v: u8, width: nat) -> Seq<bool> {
    Seq::new(width, |i: int| (v >> ((width - 1 - i) as u8)) & 1u8 == 1u8)
}

/// All bits of a byte string, most significant bit of each byte first.
pub open spec fn bytes_bits(bs: Seq<u8>) -> Seq<bool> {
    Seq::new(8 * bs.len(), |i: int| byte_bit(bs[i / 8], i % 8))
}

/// The byte spelled by the eight bits of `bits` that start at `s`.
#[verifier::opaque]
pub open spec fn byte_at(bits: Seq<bool>, s: int) -> u8 {
    ((if bits[s] { 128u8 } else { 0u8 }) + (if bits[s + 1] { 64u8 } else { 0u8 }) + (if bits[s
        + 2] { 32u8 } else { 0u8 }) + (if bits[s + 3] { 16u8 } else { 0u8 }) + (if bits[s + 4] {
        8u8
    } else { 0u8 }) + (if bits[s + 5] { 4u8 } else { 0u8 }) + (if bits[s + 6] { 2u8 } else {
        0u8
    }) + (if bits[s + 7] { 1u8 } else { 0u8 })) as u8
}

/// A bit string cut into bytes; a trailing group of fewer than eight bits is dropped.
pub open spec fn pack(bits: Seq<bool>) -> Seq<u8> {
    Seq::new(bits.len() / 8, |j: int| byte_at(bits, 8 * j))
}

/// The value of a base32 symbol, case-insensitively; `None` outside the alphabet.
pub open spec fn symbol_value(c: char) -> Option<u8> {
    let code = c as u32;
    if 65 <= code <= 90 {
        Some((code - 65) as u8)
    } else if 97 <= code <= 122 {
        Some((code - 97) as u8)
    } else if 50 <= code <= 55 {
        Some((code - 24) as u8)
    } else {
        None
    }
}

/// The five bits of each symbol of `cs`, concatenated.
pub open spec fn symbol_bits(cs: Seq<char>) -> Seq<bool> {
    Seq::new(
        5 * cs.len(),
        |i: int| (symbol_value(cs[i / 5])->0 >> ((4 - i % 5) as u8)) & 1u8 == 1u8,
    )
}

/// The part of the text before its first `=`; all of it when it holds none.
pub open spec fn payload(s: Seq<char>) -> Seq<char>
    decreases s.len(),
{
    if s.len() == 0 {
        s
    } else if s[0] == '=' {
        Seq::empty()
    } else {
        seq![s[0]] + payload(s.drop_first())
    }
}

/// Every character of `s` is a base32 symbol.
pub open spec fn all_symbols(s: Seq<char>) -> bool {
    forall|i: int| 0 <= i < s.len() ==> (#[trigger] symbol_value(s[i])) is Some
}

/// The bytes that `s` stands for, or `None` when a character before the first `=` is outside
/// the alphabet.
pub open spec fn decode_spec(s: Seq<char>) -> Option<Seq<u8>> {
    if all_symbols(payload(s)) {
        Some(pack(symbol_bits(payload(s))))
    } else {
        None
    }
}

/// Writes bit strings of up to eight bits into bytes, most significant bit first.
pub struct BitBuffer {
    bit_offset: u8,
    bytes: Vec<u8>,
}

impl View for BitBuffer {
    type V = Seq<bool>;

    /// The bits written so far, in order.
    closed spec fn view(&self) -> Seq<bool> {
        bytes_bits(self.bytes@).take(self.bit_len())
    }
}

impl BitBuffer {
    /// Number of bits written so far.
    pub closed spec fn bit_len(&self) -> int {
        if self.bit_offset == 0 {
            (8 * self.bytes@.len()) as int
        } else {
            8 * (self.bytes@.len() - 1) + self.bit_offset
        }
    }

    /// The last byte holds `bit_offset` written bits followed by zeros.
    pub closed spec fn wf(&self) -> bool {
        &&& self.bit_offset < 8
        &&& self.bit_offset > 0 ==> self.bytes@.len() > 0
        &&& self.bit_offset > 0 ==> self.bytes@.last() & (0xffu8 >> self.bit_offset) == 0
    }

    pub fn new() -> (r: Self)
        ensures
            r.wf(),
            r@ == Seq::<bool>::empty(),
    {
        BitBuffer { bit_offset: 0u8, bytes: Vec::new() }
    }

    /// Appends the low `bits` bits of `data`, most significant first.
    pub fn write(&mut self, data: u8, bits: u8)
        requires
            old(self).wf(),
            0 < bits <= 8,
        ensures
            final(self).wf(),
            final(self)@ == old(self)@ + data_bits(data, bits as nat),
        decreases bits,
    {
        if self.bit_offset + bits > 8 {
            let second_write_bits = (self.bit_offset + bits) % 8;
            let first_write_bits = bits - second_write_bits;
            self.write(data >> second_write_bits, first_write_bits);
            self.write(data, second_write_bits);
            proof {
                lemma_split_bits(data, first_write_bits, second_write_bits);
            }
            return;
        }
        let ghost old_bytes = self.bytes@;
        let ghost off = self.bit_offset;
        if self.bit_offset == 0 {
            self.bytes.push(data << (8 - bits));
            self.bit_offset = bits % 8;
            proof {
                lemma_fresh_byte(old_bytes, data, bits);
            }
        } else {
            let byte_offset = self.bytes.len() - 1;
            let old_byte = self.bytes[byte_offset];
            self.bytes.set(
                byte_offset,
                old_byte | ((data & (0xffu8 >> (8 - bits))) << (8 - bits - self.bit_offset)),
            );
            self.bit_offset = (self.bit_offset + bits) % 8;
            proof {
                lemma_or_byte(old_bytes, data, bits, off);
            }
        }
    }

    /// The complete bytes written; a last byte that is not full is dropped.
    pub fn into_bytes(self) -> (r: Vec<u8>)
        requires
            self.wf(),
        ensures
            r@ == pack(self@),
    {
        let mut bytes = self.bytes;
        if self.bit_offset != 0 {
            bytes.pop();
        }
        proof {
            lemma_pack_prefix(self.bytes@, self.bit_len(), bytes@);
        }
        bytes
    }
}

proof fn lemma_split_bits(data: u8, a: u8, b: u8)
    requires
        0 < a,
        0 < b,
        a + b <= 8,
    ensures
        data_bits(data >> b, a as nat) + data_bits(data, b as nat) =~= data_bits(
            data,
            (a + b) as nat,
        ),
{
    assert forall|i: int| 0 <= i < a implies #[trigger] data_bits(data >> b, a as nat)[i]
        == data_bits(data, (a + b) as nat)[i] by {
        let t = i as u8;
        assert(((data >> b) >> ((a - 1 - t) as u8)) & 1u8 == (data >> ((a + b - 1 - t) as u8))
            & 1u8) by (bit_vector)
            requires
                t < a,
                a + b <= 8,
        ;
    }
}

proof fn lemma_fresh_byte(old_bytes: Seq<u8>, data: u8, bits: u8)
    requires
        0 < bits <= 8,
    ensures
        ({
            let nb = data << ((8 - bits) as u8);
            &&& bytes_bits(old_bytes.push(nb)).take(8 * old_bytes.len() + bits) =~= bytes_bits(
                old_bytes,
            ) + data_bits(data, bits as nat)
            &&& bits < 8 ==> nb & (0xffu8 >> bits) == 0
        }),
{
    let nb = data << ((8 - bits) as u8);
    let nbs = old_bytes.push(nb);
    let n = old_bytes.len();
    assert forall|i: int| 0 <= i < 8 * n + bits implies #[trigger] bytes_bits(nbs)[i] == (
    bytes_bits(old_bytes) + data_bits(data, bits as nat))[i] by {
        if i < 8 * n {
            assert(i / 8 < n);
        } else {
            let t = (i - 8 * n) as u8;
            assert(i / 8 == n);
            assert(i % 8 == t);
            assert((nb >> ((7 - t) as u8)) & 1u8 == (data >> ((bits - 1 - t) as u8)) & 1u8)
                by (bit_vector)
                requires
                    nb == data << ((8 - bits) as u8),
                    t < bits,
                    bits <= 8,
            ;
        }
    }
    assert(bits < 8 ==> nb & (0xffu8 >> bits) == 0) by (bit_vector)
        requires
            nb == data << ((8 - bits) as u8),
            0 < bits,
    ;
}

proof fn lemma_or_byte(old_bytes: Seq<u8>, data: u8, bits: u8, off: u8)
    requires
        0 < bits,
        0 < off,
        off + bits <= 8,
        old_bytes.len() > 0,
        old_bytes.last() & (0xffu8 >> off) == 0,
    ensures
        ({
            let ob = old_bytes.last();
            let nb = ob | ((data & (0xffu8 >> ((8 - bits) as u8))) << ((8 - bits - off) as u8));
            let nbs = old_bytes.update(old_bytes.len() - 1, nb);
            let n = old_bytes.len() - 1;
            &&& bytes_bits(nbs).take(8 * n + off + bits) =~= bytes_bits(old_bytes).take(
                8 * n + off,
            ) + data_bits(data, bits as nat)
            &&& off + bits < 8 ==> nb & (0xffu8 >> ((off + bits) as u8)) == 0
        }),
{
    let ob = old_bytes.last();
    let nb = ob | ((data & (0xffu8 >> ((8 - bits) as u8))) << ((8 - bits - off) as u8));
    let nbs = old_bytes.update(old_bytes.len() - 1, nb);
    let n = old_bytes.len() - 1;
    assert forall|i: int| 0 <= i < 8 * n + off + bits implies #[trigger] bytes_bits(nbs)[i] == (
    bytes_bits(old_bytes).take(8 * n + off) + data_bits(data, bits as nat))[i] by {
        if i < 8 * n {
            assert(i / 8 < n);
        } else {
            let t = (i - 8 * n) as u8;
            assert(i / 8 == n);
            assert(i % 8 == t);
            if t < off {
                assert((nb >> ((7 - t) as u8)) & 1u8 == (ob >> ((7 - t) as u8)) & 1u8)
                    by (bit_vector)
                    requires
                        nb == ob | ((data & (0xffu8 >> ((8 - bits) as u8))) << ((8 - bits
                            - off) as u8)),
                        t < off,
                        off + bits <= 8,
                        0 < bits,
                ;
            } else {
                assert((nb >> ((7 - t) as u8)) & 1u8 == (data >> ((bits - 1 - (t - off))
                    as u8)) & 1u8) by (bit_vector)
                    requires
                        nb == ob | ((data & (0xffu8 >> ((8 - bits) as u8))) << ((8 - bits
                            - off) as u8)),
                        off <= t < off + bits,
                        off + bits <= 8,
                        ob & (0xffu8 >> off) == 0,
                ;
            }
        }
    }
    assert(off + bits < 8 ==> nb & (0xffu8 >> ((off + bits) as u8)) == 0) by (bit_vector)
        requires
            nb == ob | ((data & (0xffu8 >> ((8 - bits) as u8))) << ((8 - bits - off) as u8)),
            ob & (0xffu8 >> off) == 0,
            0 < off,
            0 < bits,
            off + bits <= 8,
    ;
}

/// A byte is the sum of its bits' weights.
proof fn lemma_byte_value(b: u8)
    ensures
        byte_at(Seq::new(8, |t: int| byte_bit(b, t)), 0) == b,
{
    let s = Seq::new(8, |t: int| byte_bit(b, t));
    reveal(byte_at);
    assert(((if (b >> 7u8) & 1u8 == 1u8 { 128u8 } else { 0u8 }) + (if (b >> 6u8) & 1u8 == 1u8 {
        64u8
    } else { 0u8 }) + (if (b >> 5u8) & 1u8 == 1u8 { 32u8 } else { 0u8 }) + (if (b >> 4u8) & 1u8
        == 1u8 { 16u8 } else { 0u8 }) + (if (b >> 3u8) & 1u8 == 1u8 { 8u8 } else { 0u8 }) + (if (b
        >> 2u8) & 1u8 == 1u8 { 4u8 } else { 0u8 }) + (if (b >> 1u8) & 1u8 == 1u8 { 2u8 } else {
        0u8
    }) + (if (b >> 0u8) & 1u8 == 1u8 { 1u8 } else { 0u8 })) as u8 == b) by (bit_vector);
    assert(s[0] == byte_bit(b, 0));
    assert(s[7] == byte_bit(b, 7));
}

/// Cutting the bits of whole bytes gives the bytes back, and a partial last byte is dropped.
proof fn lemma_pack_prefix(bs: Seq<u8>, len: int, r: Seq<u8>)
    requires
        (len == 8 * bs.len() && r == bs) || (bs.len() > 0 && 8 * (bs.len() - 1) < len < 8
            * bs.len() && r == bs.drop_last()),
    ensures
        r == pack(bytes_bits(bs).take(len)),
{
    let bits = bytes_bits(bs).take(len);
    assert(len / 8 == r.len());
    assert forall|j: int| 0 <= j < r.len() implies #[trigger] pack(bits)[j] == r[j] by {
        lemma_byte_value(r[j]);
        let s = Seq::new(8, |t: int| byte_bit(r[j], t));
        assert forall|t: int| 0 <= t < 8 implies bits[8 * j + t] == s[t] by {
            assert((8 * j + t) / 8 == j);
            assert((8 * j + t) % 8 == t);
        }
        reveal(byte_at);
        assert(bits[8 * j] == s[0]);
        assert(bits[8 * j + 1] == s[1]);
        assert(bits[8 * j + 2] == s[2]);
        assert(bits[8 * j + 3] == s[3]);
        assert(bits[8 * j + 4] == s[4]);
        assert(bits[8 * j + 5] == s[5]);
        assert(bits[8 * j + 6] == s[6]);
        assert(bits[8 * j + 7] == s[7]);
    }
    assert(pack(bits) =~= r);
}

proof fn lemma_symbol_bits_push(cs: Seq<char>, c: char)
    ensures
        symbol_bits(cs.push(c)) =~= symbol_bits(cs) + data_bits(symbol_value(c)->0, 5),
{
    let n = cs.len();
    assert forall|i: int| 0 <= i < 5 * n + 5 implies #[trigger] symbol_bits(cs.push(c))[i] == (
    symbol_bits(cs) + data_bits(symbol_value(c)->0, 5))[i] by {
        if i < 5 * n {
            assert(i / 5 < n);
        } else {
            assert(i / 5 == n);
            assert(i % 5 == i - 5 * n);
        }
    }
}

proof fn lemma_payload(s: Seq<char>, k: int)
    requires
        0 <= k <= s.len(),
        forall|i: int| 0 <= i < k ==> s[i] != '=',
        k == s.len() || s[k] == '=',
    ensures
        payload(s) == s.take(k),
    decreases k,
{
    if k == 0 {
        assert(s.take(0) =~= Seq::<char>::empty());
        if s.len() > 0 {
            assert(s[0] == '=');
        }
    } else {
        lemma_payload(s.drop_first(), k - 1);
        assert(s.take(k) =~= seq![s[0]] + s.drop_first().take(k - 1));
    }
}

const CAPITAL_A: u32 = 65;

const SMALL_A: u32 = 97;

const DIGIT_2_MINUS_26: u32 = 24;

proof fn lemma_payload_prefix(s: Seq<char>, k: int)
    requires
        0 <= k < s.len(),
        forall|i: int| 0 <= i <= k ==> s[i] != '=',
    ensures
        payload(s).len() > k,
        forall|i: int| 0 <= i <= k ==> payload(s)[i] == s[i],
    decreases k,
{
    if k > 0 {
        lemma_payload_prefix(s.drop_first(), k - 1);
        assert forall|i: int| 0 <= i <= k implies payload(s)[i] == s[i] by {
            if i > 0 {
                assert(s.drop_first()[i - 1] == s[i]);
            }
        }
    }
}

/// Decodes base32 text: case-insensitive, ending at the first `=`, and `None` when a
/// character before it is outside the alphabet.
pub fn decode(base32: &str) -> (r: Option<Vec<u8>>)
    ensures
        match r {
            Some(v) => decode_spec(base32@) == Some(v@),
            None => decode_spec(base32@) is None,
        },
{
    let mut buffer = BitBuffer::new();
    let ghost s = base32@;
    for c in iter: base32.chars()
        invariant
            buffer.wf(),
            iter.seq() == s,
            s == base32@,
            forall|i: int| 0 <= i < iter.index() ==> s[i] != '=',
            all_symbols(s.take(iter.index() as int)),
            buffer@ == symbol_bits(s.take(iter.index() as int)),
    {
        let ghost k = iter.index() as int;
        assert(c == s[k]);
        let code = c as u32;
        let bits: u8 = if CAPITAL_A <= code && code <= CAPITAL_A + 25 {
            (code - CAPITAL_A) as u8
        } else if SMALL_A <= code && code <= SMALL_A + 25 {
            (code - SMALL_A) as u8
        } else if DIGIT_2_MINUS_26 + 26 <= code && code <= DIGIT_2_MINUS_26 + 31 {
            (code - DIGIT_2_MINUS_26) as u8
        } else if c == '=' {
            let r = buffer.into_bytes();
            proof {
                lemma_payload(s, k);
            }
            return Some(r);
        } else {
            proof {
                lemma_payload_prefix(s, k);
                assert(payload(s)[k] == c);
                assert(symbol_value(c) is None);
            }
            return None;
        };
        buffer.write(bits, 5);
        proof {
            lemma_symbol_bits_push(s.take(k), c);
            assert(s.take(k + 1) =~= s.take(k).push(c));
        }
    }
    proof {
        lemma_payload(s, s.len() as int);
        assert(s.take(s.len() as int) =~= s);
    }
    Some(buffer.into_bytes())
}

/// The base32 symbol for a value below 32.
pub open spec fn symbol_char(v: u8) -> char {
    if v < 26 {
        (v + 65) as char
    } else {
        (v + 24) as char
    }
}

/// The value of the five bits of `bits` that start at `s`.
pub open spec fn group_value(bits: Seq<bool>, s: int) -> u8 {
    ((if bits[s] { 16u8 } else { 0u8 }) + (if bits[s + 1] { 8u8 } else { 0u8 }) + (if bits[s
        + 2] { 4u8 } else { 0u8 }) + (if bits[s + 3] { 2u8 } else { 0u8 }) + (if bits[s + 4] {
        1u8
    } else { 0u8 })) as u8
}

/// Standard base32 encoding: the bits of `bs` are zero-padded to whole five-bit groups, one
/// symbol per group, and `=` pads the text to a multiple of eight characters.
pub open spec fn base32_encode(bs: Seq<u8>) -> Seq<char> {
    let bits = bytes_bits(bs);
    let n = (bits.len() + 4) / 5;
    let padded = bits + Seq::new((5 * n - bits.len()) as nat, |i: int| false);
    Seq::new(n, |j: int| symbol_char(group_value(padded, 5 * j))) + Seq::new(
        ((8 - n % 8) % 8) as nat,
        |i: int| '=',
    )
}

/// ASCII letters of `s` turned to upper case.
pub open spec fn ascii_upper(s: Seq<char>) -> Seq<char> {
    s.map_values(|c: char| if 97 <= c as u32 <= 122 { ((c as u32) - 32) as char } else { c })
}

proof fn lemma_group_bits(b0: bool, b1: bool, b2: bool, b3: bool, b4: bool)
    ensures
        ({
            let v = ((if b0 { 16u8 } else { 0u8 }) + (if b1 { 8u8 } else { 0u8 }) + (if b2 {
                4u8
            } else { 0u8 }) + (if b3 { 2u8 } else { 0u8 }) + (if b4 { 1u8 } else { 0u8 })) as u8;
            &&& v < 32
            &&& ((v >> 4u8) & 1u8 == 1u8) == b0
            &&& ((v >> 3u8) & 1u8 == 1u8) == b1
            &&& ((v >> 2u8) & 1u8 == 1u8) == b2
            &&& ((v >> 1u8) & 1u8 == 1u8) == b3
            &&& ((v >> 0u8) & 1u8 == 1u8) == b4
        }),
{
    assert({
        let v = ((if b0 { 16u8 } else { 0u8 }) + (if b1 { 8u8 } else { 0u8 }) + (if b2 {
            4u8
        } else { 0u8 }) + (if b3 { 2u8 } else { 0u8 }) + (if b4 { 1u8 } else { 0u8 })) as u8;
        &&& v < 32
        &&& ((v >> 4u8) & 1u8 == 1u8) == b0
        &&& ((v >> 3u8) & 1u8 == 1u8) == b1
        &&& ((v >> 2u8) & 1u8 == 1u8) == b2
        &&& ((v >> 1u8) & 1u8 == 1u8) == b3
        &&& ((v >> 0u8) & 1u8 == 1u8) == b4
    }) by (bit_vector);
}

proof fn lemma_encoded_symbols(padded: Seq<bool>, n: nat)
    requires
        padded.len() == 5 * n,
    ensures
        ({
            let symbols = Seq::new(n, |j: int| symbol_char(group_value(padded, 5 * j)));
            &&& all_symbols(symbols)
            &&& symbol_bits(symbols) == padded
            &&& forall|i: int| 0 <= i < n ==> symbols[i] != '='
        }),
{
    let symbols = Seq::new(n, |j: int| symbol_char(group_value(padded, 5 * j)));
    assert forall|j: int| 0 <= j < n implies symbol_value(#[trigger] symbols[j]) == Some(
        group_value(padded, 5 * j),
    ) by {
        lemma_group_bits(
            padded[5 * j],
            padded[5 * j + 1],
            padded[5 * j + 2],
            padded[5 * j + 3],
            padded[5 * j + 4],
        );
    }
    assert forall|i: int| 0 <= i < 5 * n implies #[trigger] symbol_bits(symbols)[i] == padded[i] by {
        let j = i / 5;
        let t = i % 5;
        assert(i == 5 * j + t);
        assert(symbol_value(symbols[j]) == Some(group_value(padded, 5 * j)));
        lemma_group_bits(
            padded[5 * j],
            padded[5 * j + 1],
            padded[5 * j + 2],
            padded[5 * j + 3],
            padded[5 * j + 4],
        );
    }
    assert(symbol_bits(symbols) =~= padded);
    assert forall|i: int| 0 <= i < n implies symbols[i] != '=' by {
        assert(symbol_value(symbols[i]) is Some);
    }
}

proof fn lemma_pack_agree(a: Seq<bool>, b: Seq<bool>)
    requires
        a.len() / 8 == b.len() / 8,
        forall|k: int| 0 <= k < 8 * (a.len() / 8) ==> a[k] == b[k],
    ensures
        pack(a) == pack(b),
{
    assert forall|j: int| 0 <= j < a.len() / 8 implies #[trigger] pack(a)[j] == pack(b)[j] by {
        reveal(byte_at);
        assert(a[8 * j] == b[8 * j]);
        assert(a[8 * j + 1] == b[8 * j + 1]);
        assert(a[8 * j + 2] == b[8 * j + 2]);
        assert(a[8 * j + 3] == b[8 * j + 3]);
        assert(a[8 * j + 4] == b[8 * j + 4]);
        assert(a[8 * j + 5] == b[8 * j + 5]);
        assert(a[8 * j + 6] == b[8 * j + 6]);
        assert(a[8 * j + 7] == b[8 * j + 7]);
    }
    assert(pack(a) =~= pack(b));
}

proof fn lemma_pack_padded(bs: Seq<u8>, padded: Seq<bool>)
    requires
        padded.len() >= 8 * bs.len(),
        padded.len() < 8 * bs.len() + 8,
        padded.take((8 * bs.len()) as int) == bytes_bits(bs),
    ensures
        pack(padded) == bs,
{
    let bits = bytes_bits(bs);
    assert(padded.len() / 8 == bs.len());
    lemma_pack_prefix(bs, (8 * bs.len()) as int, bs);
    assert(bits.take((8 * bs.len()) as int) =~= bits);
    assert forall|k: int| 0 <= k < 8 * bs.len() implies padded[k] == bits[k] by {
        assert(padded.take((8 * bs.len()) as int)[k] == padded[k]);
    }
    lemma_pack_agree(padded, bits);
}

/// Decoding undoes standard base32 encoding.
pub proof fn lemma_decode_encode(bs: Seq<u8>)
    ensures
        decode_spec(base32_encode(bs)) == Some(bs),
{
    let bits = bytes_bits(bs);
    let n = (bits.len() + 4) / 5;
    let padded = bits + Seq::new((5 * n - bits.len()) as nat, |i: int| false);
    let symbols = Seq::new(n, |j: int| symbol_char(group_value(padded, 5 * j)));
    let text = base32_encode(bs);
    lemma_encoded_symbols(padded, n);
    assert(text.take(n as int) =~= symbols);
    assert forall|i: int| 0 <= i < n implies text[i] != '=' by {
        assert(text[i] == symbols[i]);
    }
    lemma_payload(text, n as int);
    assert(padded.take((8 * bs.len()) as int) =~= bits);
    lemma_pack_padded(bs, padded);
}

/// Decoding ends at the first `=`: what follows it is never read.
pub proof fn lemma_decode_stops_at_padding(p: Seq<char>, rest: Seq<char>)
    requires
        forall|i: int| 0 <= i < p.len() ==> p[i] != '=',
    ensures
        decode_spec(p + seq!['='] + rest) == decode_spec(p),
{
    let t = p + seq!['='] + rest;
    lemma_payload(t, p.len() as int);
    assert(t.take(p.len() as int) =~= p);
    lemma_payload(p, p.len() as int);
    assert(p.take(p.len() as int) =~= p);
}

/// A character outside the alphabet before the first `=` makes decoding fail.
pub proof fn lemma_decode_rejects_invalid(p: Seq<char>, c: char, rest: Seq<char>)
    requires
        forall|i: int| 0 <= i < p.len() ==> p[i] != '=',
        c != '=',
        symbol_value(c) is None,
    ensures
        decode_spec(p + seq![c] + rest) is None,
{
    let t = p + seq![c] + rest;
    assert(t[p.len() as int] == c);
    lemma_payload_prefix(t, p.len() as int);
    assert(payload(t)[p.len() as int] == c);
}

proof fn lemma_payload_upper(s: Seq<char>)
    ensures
        payload(ascii_upper(s)) == ascii_upper(payload(s)),
    decreases s.len(),
{
    if s.len() > 0 {
        assert(ascii_upper(s).drop_first() =~= ascii_upper(s.drop_first()));
        lemma_payload_upper(s.drop_first());
        if s[0] != '=' {
            assert(ascii_upper(seq![s[0]] + payload(s.drop_first())) =~= seq![ascii_upper(s)[0]]
                + ascii_upper(payload(s.drop_first())));
        } else {
            assert(ascii_upper(Seq::<char>::empty()) =~= Seq::<char>::empty());
        }
    } else {
        assert(ascii_upper(s) =~= s);
    }
}

/// Decoding does not depend on the case of letters.
pub proof fn lemma_decode_case_insensitive(s: Seq<char>)
    ensures
        decode_spec(ascii_upper(s)) == decode_spec(s),
{
    lemma_payload_upper(s);
    let p = payload(s);
    let q = payload(ascii_upper(s));
    assert forall|i: int| 0 <= i < p.len() implies symbol_value(#[trigger] q[i]) == symbol_value(
        p[i],
    ) by {
        assert(q[i] == ascii_upper(p)[i]);
    }
    assert(q.len() == p.len());
    if all_symbols(p) {
        assert forall|i: int| 0 <= i < q.len() implies (#[trigger] symbol_value(q[i])) is Some by {
            assert(symbol_value(p[i]) is Some);
        }
    }
    if all_symbols(q) {
        assert forall|i: int| 0 <= i < p.len() implies (#[trigger] symbol_value(p[i])) is Some by {
            assert(symbol_value(q[i]) is Some);
        }
    }
    assert(symbol_bits(q) =~= symbol_bits(p));
}

} // verus!
