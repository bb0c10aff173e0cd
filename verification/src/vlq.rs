use crate::error::ParseError;
use vstd::prelude::*;
use vstd::string::StringSliceAdditionalSpecFns;
use vstd::utf8::decode_utf8;
use vstd::utf8::valid_utf8;
use crate::text::bytes_to_string;


verus! {

broadcast use vstd::seq_lib::group_seq_lib_default, vstd::seq::group_seq_axioms;

/// Byte values of the characters the codec works with.
pub const UPPER_A: u8 = 65;

pub const UPPER_Z: u8 = 90;

pub const LOWER_A: u8 = 97;

pub const LOWER_Z: u8 = 122;

pub const DIGIT_0: u8 = 48;

pub const DIGIT_9: u8 = 57;

pub const PLUS: u8 = 43;

pub const SLASH: u8 = 47;


/// The value of a byte in the base64 alphabet `A-Z a-z 0-9 + /`, or -1 when
/// the byte is not in the alphabet.
pub open spec fn b64_value(b: u8) -> int {
    if UPPER_A <= b && b <= UPPER_Z {
        b - UPPER_A
    } else if LOWER_A <= b && b <= LOWER_Z {
        b - LOWER_A + 26
    } else if DIGIT_0 <= b && b <= DIGIT_9 {
        b - DIGIT_0 + 52
    } else if b == PLUS {
        62
    } else if b == SLASH {
        63
    } else {
        -1
    }
}

/// The base64 alphabet character for a value below 64.
pub open spec fn b64_char(v: nat) -> u8 {
    if v < 26 {
        (v + UPPER_A) as u8
    } else if v < 52 {
        (v - 26 + LOWER_A) as u8
    } else if v < 62 {
        (v - 52 + DIGIT_0) as u8
    } else if v == 62 {
        PLUS
    } else {
        SLASH
    }
}

pub proof fn lemma_b64_char_value(v: nat)
    requires
        v < 64,
    ensures
        b64_value(b64_char(v)) == v,
{
}

/// Removes the sign bit of a reassembled VLQ value: the low bit set means the
/// remaining bits hold the magnitude of a negative number.
pub open spec fn zigzag_decode(v: nat) -> int {
    if v % 2 == 1 {
        -((v / 2) as int)
    } else {
        (v / 2) as int
    }
}

/// Folds a delta into the VLQ sign-bit form.
pub open spec fn zigzag_encode(d: int) -> nat {
    if d < 0 {
        (2 * -d + 1) as nat
    } else {
        (2 * d) as nat
    }
}

/// One step short of `vlq_values`: decodes the byte sequence `rem`, starting
/// inside a group whose bits so far reassemble to `cur`, with `mul` the weight
/// of the next 5-bit digit, and `vals` the values already produced.
///
/// Decoding fails (None) when a byte is outside the alphabet, when the
/// reassembled value no longer fits in 64 bits, or when the last group does
/// not terminate.
pub open spec fn vlq_fold(rem: Seq<u8>, cur: nat, mul: nat, vals: Seq<int>) -> Option<Seq<int>>
    decreases rem.len(),
{
    if rem.len() == 0 {
        if mul == 1 {
            Some(vals)
        } else {
            None
        }
    } else {
        let v = b64_value(rem[0]);
        if v < 0 {
            None
        } else {
            let cur2 = (cur + (v % 32) * mul) as nat;
            if cur2 > u64::MAX {
                None
            } else if v >= 32 {
                if mul * 32 > u64::MAX {
                    None
                } else {
                    vlq_fold(rem.skip(1), cur2, mul * 32, vals)
                }
            } else {
                vlq_fold(rem.skip(1), 0, 1, vals.push(zigzag_decode(cur2)))
            }
        }
    }
}

/// The decoded numbers of an i64 vector, as mathematical integers.
pub open spec fn ints_of(v: Seq<i64>) -> Seq<int> {
    v.map_values(|x: i64| x as int)
}

/// The numbers encoded by one segment of a mapping string, or None when the
/// segment is not a well-formed VLQ run of exactly 1, 4 or 5 numbers.
pub open spec fn vlq_values(s: Seq<u8>) -> Option<Seq<int>> {
    match vlq_fold(s, 0, 1, Seq::empty()) {
        Some(vals) => if vals.len() == 1 || vals.len() == 4 || vals.len() == 5 {
            Some(vals)
        } else {
            None
        },
        None => None,
    }
}

/// The base64 digits, low bits first, of a non-negative value, with the
/// continuation bit (value 32) set on every digit but the last.
pub open spec fn vlq_digits(n: nat) -> Seq<u8>
    decreases n,
{
    if n < 32 {
        seq![b64_char(n)]
    } else {
        seq![b64_char(n % 32 + 32)] + vlq_digits(n / 32)
    }
}

/// The bytes that encode the delta `cur - prev` as a VLQ group.
pub open spec fn vlq_encode_bytes(prev: u32, cur: u32) -> Seq<u8> {
    vlq_digits(zigzag_encode(cur - prev))
}

/// Reads one number from a segment of base64 characters.
pub struct VlqDecoder {
    _private: (),
}

impl VlqDecoder {
    pub fn new() -> (r: Self) {
        Self { _private: () }
    }

    /// Decodes a whole segment into its 1, 4 or 5 numbers; any other shape of
    /// input is malformed.
    pub fn decode(&mut self, segment: &str) -> (r: Result<Vec<i64>, ParseError>)
        ensures
            match r {
                Ok(vals) => {
                    &&& vlq_values(segment.spec_bytes()) matches Some(sp)
                    &&& vals@.len() == sp.len()
                    &&& forall|j: int| 0 <= j < sp.len() ==> vals@[j] as int == sp[j]
                },
                Err(e) => {
                    &&& vlq_values(segment.spec_bytes()) is None
                    &&& e matches ParseError::MappingMalformed(t) && t@ == segment@
                },
            },
    {
        let r = self.decode_bytes(segment.as_bytes());
        proof {
            broadcast use vstd::utf8::encode_utf8_valid_utf8, vstd::utf8::encode_utf8_decode_utf8;

            assert(valid_utf8(segment.spec_bytes()));
            assert(decode_utf8(segment.spec_bytes()) == segment@);
        }
        r
    }

    /// Decodes a whole segment, given as bytes, into its 1, 4 or 5 numbers.
    pub(crate) fn decode_bytes(&mut self, segment: &[u8]) -> (r: Result<Vec<i64>, ParseError>)
        ensures
            match r {
                Ok(vals) => {
                    &&& vlq_values(segment@) matches Some(sp)
                    &&& vals@.len() == sp.len()
                    &&& forall|j: int| 0 <= j < sp.len() ==> vals@[j] as int == sp[j]
                },
                Err(e) => {
                    &&& vlq_values(segment@) is None
                    &&& e matches ParseError::MappingMalformed(t) && (valid_utf8(segment@)
                        ==> t@ == decode_utf8(segment@))
                },
            },
    {
        let bytes = segment;
        let ghost s = segment@;
        let mut vals: Vec<i64> = Vec::new();
        let mut cur: u64 = 0;
        let mut mul: u64 = 1;
        let mut i: usize = 0;

        proof {
            assert(s.skip(0) =~= s);
            assert(ints_of(vals@) =~= Seq::<int>::empty());
        }
        while i < bytes.len()
            invariant
                s == segment@,
                bytes@ == s,
                i <= s.len(),
                mul >= 1,
                vlq_fold(s, 0, 1, Seq::empty()) == vlq_fold(
                    s.skip(i as int),
                    cur as nat,
                    mul as nat,
                    ints_of(vals@),
                ),
            decreases s.len() - i,
        {
            let ghost rem = s.skip(i as int);
            let ghost vals_m = ints_of(vals@);
            let ghost cur0 = cur as nat;
            let ghost mul0 = mul as nat;
            proof {
                assert(rem.len() > 0);
                assert(rem[0] == s[i as int]);
                assert(rem.skip(1) =~= s.skip(i + 1));
            }
            let b = bytes[i];
            let v = base64_value(b);
            if v < 0 {
                proof {
                    assert(vlq_fold(rem, cur0, mul0, vals_m) is None);
                    assert(vlq_values(s) is None);
                }
                return Err(ParseError::MappingMalformed(bytes_to_string(segment)));
            }
            let bits: u64 = (v % 32) as u64;
            proof {
                assert(bits == b64_value(rem[0]) % 32);
            }
            let prod = match bits.checked_mul(mul) {
                Some(p) => p,
                None => {
                    proof {
                        assert(cur0 + (b64_value(rem[0]) % 32) * mul0 > u64::MAX);
                        assert(vlq_fold(rem, cur0, mul0, vals_m) is None);
                    }
                    return Err(ParseError::MappingMalformed(bytes_to_string(segment)));
                },
            };
            cur = match cur.checked_add(prod) {
                Some(c) => c,
                None => {
                    proof {
                        assert(cur0 + (b64_value(rem[0]) % 32) * mul0 > u64::MAX);
                        assert(vlq_fold(rem, cur0, mul0, vals_m) is None);
                    }
                    return Err(ParseError::MappingMalformed(bytes_to_string(segment)));
                },
            };
            proof {
                assert(cur as nat == cur0 + (b64_value(rem[0]) % 32) * mul0);
            }
            if v >= 32 {
                mul = match mul.checked_mul(32) {
                    Some(m) => m,
                    None => {
                        proof {
                            assert(mul0 * 32 > u64::MAX);
                            assert(vlq_fold(rem, cur0, mul0, vals_m) is None);
                        }
                        return Err(ParseError::MappingMalformed(bytes_to_string(segment)));
                    },
                };
                proof {
                    assert(vlq_fold(rem, cur0, mul0, vals_m) == vlq_fold(
                        rem.skip(1),
                        cur as nat,
                        mul as nat,
                        vals_m,
                    ));
                }
            } else {
                let neg = cur % 2 == 1;
                let mag = cur / 2;
                let val: i64 = if neg {
                    -(mag as i64)
                } else {
                    mag as i64
                };
                proof {
                    assert(val as int == zigzag_decode(cur as nat));
                    assert(ints_of(vals@.push(val)) =~= vals_m.push(
                        zigzag_decode(cur as nat),
                    ));
                    assert(vlq_fold(rem, cur0, mul0, vals_m) == vlq_fold(
                        rem.skip(1),
                        0,
                        1,
                        vals_m.push(zigzag_decode(cur as nat)),
                    ));
                }
                vals.push(val);
                cur = 0;
                mul = 1;
            }
            i = i + 1;
        }
        proof {
            assert(s.skip(i as int) =~= Seq::<u8>::empty());
        }
        if mul != 1 {
            return Err(ParseError::MappingMalformed(bytes_to_string(segment)));
        }
        let n = vals.len();
        if n == 1 || n == 4 || n == 5 {
            Ok(vals)
        } else {
            Err(ParseError::MappingMalformed(bytes_to_string(segment)))
        }
    }
}

/// The value of a byte in the base64 alphabet, or -1.
fn base64_value(b: u8) -> (r: i8)
    ensures
        r as int == b64_value(b),
{
    if UPPER_A <= b && b <= UPPER_Z {
        (b - UPPER_A) as i8
    } else if LOWER_A <= b && b <= LOWER_Z {
        (b - LOWER_A + 26) as i8
    } else if DIGIT_0 <= b && b <= DIGIT_9 {
        (b - DIGIT_0 + 52) as i8
    } else if b == PLUS {
        62
    } else if b == SLASH {
        63
    } else {
        -1
    }
}

/// The base64 alphabet character for a value below 64.
fn base64_char(v: u8) -> (r: u8)
    requires
        v < 64,
    ensures
        r == b64_char(v as nat),
{
    if v < 26 {
        v + UPPER_A
    } else if v < 52 {
        v - 26 + LOWER_A
    } else if v < 62 {
        v - 52 + DIGIT_0
    } else if v == 62 {
        PLUS
    } else {
        SLASH
    }
}

/// Writes numbers as VLQ groups of base64 characters.
pub struct VlqEncoder {
    _private: (),
}

impl VlqEncoder {
    pub fn new() -> (r: Self) {
        Self { _private: () }
    }

    /// Appends the VLQ group for the delta `cur - prev` to `out`.
    pub fn encode(&mut self, out: &mut Vec<u8>, prev: u32, cur: u32)
        ensures
            final(out)@ == old(out)@ + vlq_encode_bytes(prev, cur),
    {
        let delta: i64 = cur as i64 - prev as i64;
        let mut num: u64 = if delta < 0 {
            ((-delta) as u64) * 2 + 1
        } else {
            (delta as u64) * 2
        };
        let ghost num0 = num as nat;
        let ghost mut emitted: Seq<u8> = Seq::empty();
        proof {
            assert(num0 == zigzag_encode(cur - prev));
            assert(out@ =~= old(out)@ + emitted);
            assert(vlq_digits(num0) =~= emitted + vlq_digits(num as nat));
        }
        loop
            invariant
                num0 == zigzag_encode(cur - prev),
                out@ == old(out)@ + emitted,
                vlq_digits(num0) == emitted + vlq_digits(num as nat),
            decreases num,
        {
            let digit: u8 = (num % 32) as u8;
            let next = num / 32;
            let ghost prev_out = out@;
            let ghost prev_num = num as nat;
            if next != 0 {
                let c = base64_char(digit + 32);
                out.push(c);
                proof {
                    assert(prev_num >= 32);
                    assert(vlq_digits(prev_num) =~= seq![b64_char(prev_num % 32 + 32)]
                        + vlq_digits(prev_num / 32));
                    emitted = emitted.push(c);
                    assert(out@ =~= old(out)@ + emitted);
                    assert(vlq_digits(num0) =~= emitted + vlq_digits(next as nat));
                }
                num = next;
            } else {
                let c = base64_char(digit);
                out.push(c);
                proof {
                    assert(prev_num < 32);
                    assert(vlq_digits(prev_num) =~= seq![b64_char(prev_num)]);
                    emitted = emitted.push(c);
                    assert(out@ =~= old(out)@ + emitted);
                    assert(emitted =~= vlq_digits(num0));
                }
                return ;
            }
        }
    }
}


/// Decoding a full VLQ group consumes exactly its digits and yields the value
/// they weigh up to, whatever state the group starts in.
proof fn lemma_fold_digits(n: nat, cur: nat, mul: nat, vals: Seq<int>, rest: Seq<u8>)
    requires
        mul >= 1,
        cur + n * mul <= u64::MAX,
    ensures
        vlq_fold(vlq_digits(n) + rest, cur, mul, vals) == vlq_fold(
            rest,
            0,
            1,
            vals.push(zigzag_decode((cur + n * mul) as nat)),
        ),
    decreases n,
{
    let d = vlq_digits(n);
    let full = d + rest;
    if n < 32 {
        lemma_b64_char_value(n);
        assert(full[0] == b64_char(n));
        assert(b64_value(full[0]) == n);
        assert(n % 32 == n);
        assert(full.skip(1) =~= rest);
        assert(vlq_fold(full, cur, mul, vals) == vlq_fold(
            rest,
            0,
            1,
            vals.push(zigzag_decode((cur + n * mul) as nat)),
        ));
    } else {
        lemma_b64_char_value(n % 32 + 32);
        assert(full[0] == b64_char(n % 32 + 32));
        let v = b64_value(full[0]);
        assert(v == n % 32 + 32);
        assert(v % 32 == n % 32);
        assert((n % 32) * mul <= n * mul && 32 * mul <= n * mul) by (nonlinear_arith)
            requires n >= 32, mul >= 1;
        let cur2 = (cur + (n % 32) * mul) as nat;
        assert(cur2 <= u64::MAX);
        assert(mul * 32 <= u64::MAX);
        assert(full.skip(1) =~= vlq_digits(n / 32) + rest);
        assert(cur2 + (n / 32) * (mul * 32) == cur + n * mul) by (nonlinear_arith)
            requires cur2 == cur + (n % 32) * mul, n >= 32, mul >= 1;
        assert(cur2 + (n / 32) * (mul * 32) <= u64::MAX);
        lemma_fold_digits(n / 32, cur2, mul * 32, vals, rest);
        assert(vlq_fold(full, cur, mul, vals) == vlq_fold(
            full.skip(1),
            cur2,
            mul * 32,
            vals,
        ));
    }
}

/// The VLQ round trip: decoding the group that encodes the delta
/// `cur - prev` yields exactly that delta, for every pair of positions.
pub proof fn lemma_vlq_round_trip(prev: u32, cur: u32)
    ensures
        vlq_values(vlq_encode_bytes(prev, cur)) == Some(seq![cur - prev]),
{
    let d = cur - prev;
    let n = zigzag_encode(d);
    assert(n <= u64::MAX);
    assert(vlq_digits(n) + Seq::<u8>::empty() =~= vlq_encode_bytes(prev, cur));
    lemma_fold_digits(n, 0, 1, Seq::empty(), Seq::empty());
    assert(0 + n * 1 == n) by (nonlinear_arith);
    assert(zigzag_decode(n) == d);
    assert(vlq_fold(Seq::<u8>::empty(), 0, 1, Seq::<int>::empty().push(d)) == Some(
        Seq::<int>::empty().push(d),
    ));
    assert(Seq::<int>::empty().push(d) =~= seq![d]);
}

/// A segment holding any byte outside the base64 alphabet never decodes,
/// whatever state the scan is in when it reaches that byte.
proof fn lemma_fold_bad_char(s: Seq<u8>, cur: nat, mul: nat, vals: Seq<int>, i: int)
    requires
        0 <= i < s.len(),
        b64_value(s[i]) < 0,
    ensures
        vlq_fold(s, cur, mul, vals) is None,
    decreases i,
{
    if i == 0 {
        assert(vlq_fold(s, cur, mul, vals) is None);
    } else {
        let v = b64_value(s[0]);
        if v < 0 {
        } else {
            let cur2 = (cur + (v % 32) * mul) as nat;
            if cur2 > u64::MAX {
            } else {
                assert(s.skip(1)[i - 1] == s[i]);
                if v >= 32 {
                    if mul * 32 <= u64::MAX {
                        lemma_fold_bad_char(s.skip(1), cur2, mul * 32, vals, i - 1);
                    }
                } else {
                    lemma_fold_bad_char(s.skip(1), 0, 1, vals.push(zigzag_decode(cur2)), i - 1);
                }
            }
        }
    }
}

/// Decode rejects a segment holding a byte outside the base64 alphabet.
pub proof fn lemma_vlq_rejects_bad_char(s: Seq<u8>, i: int)
    requires
        0 <= i < s.len(),
        b64_value(s[i]) < 0,
    ensures
        vlq_values(s) is None,
{
    lemma_fold_bad_char(s, 0, 1, Seq::empty(), i);
}

/// Decode rejects the empty segment: it holds no value at all.
pub proof fn lemma_vlq_rejects_empty()
    ensures
        vlq_values(Seq::<u8>::empty()) is None,
{
    assert(vlq_fold(Seq::<u8>::empty(), 0, 1, Seq::<int>::empty()) == Some(
        Seq::<int>::empty(),
    ));
}

/// A segment whose last group never terminates (its final byte carries the
/// continuation bit) never decodes, whatever state the scan starts in.
proof fn lemma_fold_unterminated(s: Seq<u8>, cur: nat, mul: nat, vals: Seq<int>)
    requires
        s.len() > 0,
        b64_value(s.last()) >= 32,
        mul >= 1,
    ensures
        vlq_fold(s, cur, mul, vals) is None,
    decreases s.len(),
{
    let v = b64_value(s[0]);
    if v < 0 {
    } else {
        let cur2 = (cur + (v % 32) * mul) as nat;
        if cur2 > u64::MAX {
        } else {
            if s.len() == 1 {
                assert(s[0] == s.last());
                assert(v >= 32);
                if mul * 32 <= u64::MAX {
                    assert(s.skip(1) =~= Seq::<u8>::empty());
                    assert(mul * 32 != 1);
                    assert(vlq_fold(s.skip(1), cur2, mul * 32, vals) is None);
                }
            } else {
                assert(s.skip(1).last() == s.last());
                if v >= 32 {
                    if mul * 32 <= u64::MAX {
                        lemma_fold_unterminated(s.skip(1), cur2, mul * 32, vals);
                    }
                } else {
                    lemma_fold_unterminated(s.skip(1), 0, 1, vals.push(zigzag_decode(cur2)));
                }
            }
        }
    }
}

/// Decode rejects a segment whose continuation-bit run never terminates.
pub proof fn lemma_vlq_rejects_unterminated(s: Seq<u8>)
    requires
        s.len() > 0,
        b64_value(s.last()) >= 32,
    ensures
        vlq_values(s) is None,
{
    lemma_fold_unterminated(s, 0, 1, Seq::empty());
}

} // verus!
