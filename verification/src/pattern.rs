//! IDA-style pattern: compilation of a textual or literal signature
//! into padded `data`/`mask` byte buffers.

use vstd::prelude::*;
use vstd::string::StrSliceExecFns;
use vstd::string::StringSliceAdditionalSpecFns;

verus! {

/// Vector width of the widest matching tier; both pattern buffers are
/// padded to a multiple of this many bytes so every tier can load full
/// windows near the tail.
pub const ALIGNMENT: usize = 32;

/// `n` rounded up to the next multiple of 32.
pub open spec fn pad32(n: int) -> int {
    ((n + 31) / 32) * 32
}

pub proof fn lemma_pad32_props(n: int)
    requires
        0 <= n,
    ensures
        n <= pad32(n) < n + 32,
        pad32(n) % 32 == 0,
        pad32(n) % 16 == 0,
        n >= 1 ==> pad32(n) >= 32,
{
    let q = (n + 31) / 32;
    vstd::arithmetic::div_mod::lemma_fundamental_div_mod(n + 31, 32);
    assert(pad32(n) == q * 32);
    assert(n <= q * 32 < n + 32);
    vstd::arithmetic::div_mod::lemma_mod_multiples_basic(q, 32);
    assert((q * 32) % 16 == 0) by {
        assert(q * 32 == (2 * q) * 16) by (nonlinear_arith);
        vstd::arithmetic::div_mod::lemma_mod_multiples_basic(2 * q, 16);
    };
}

/// A sequence of `n` zero bytes.
pub open spec fn zeros(n: int) -> Seq<u8> {
    Seq::new(n as nat, |i: int| 0u8)
}

/// Value of one signature character as a hex nibble. Characters
/// outside the hex alphabet degrade silently to nibble 0: no error is
/// ever raised for a malformed token.
pub open spec fn nib(c: char) -> u8 {
    let v = c as u32;
    if 97 <= v && v <= 102 {
        // 'a' ..= 'f'
        (v - 97 + 10) as u8
    } else if 65 <= v && v <= 70 {
        // 'A' ..= 'F'
        (v - 65 + 10) as u8
    } else if 48 <= v && v <= 57 {
        // '0' ..= '9'
        (v - 48) as u8
    } else {
        0u8
    }
}

/// The byte a two-character token encodes: high nibble in the top
/// half, low nibble in the bottom half.
pub open spec fn hex_byte(c1: char, c2: char) -> u8 {
    (nib(c1) << 4) | nib(c2)
}

/// The `(data, mask)` pairs emitted by scanning the signature text
/// left to right from position `i`: spaces are skipped, `?` and `??`
/// each emit one wildcard pair `(0, 0)`, and any other character
/// starts a two-character token emitting `(hex_byte, 0xff)`. A token
/// cut short by the end of the text reads `'\0'` for its missing
/// second character.
pub open spec fn tok(s: Seq<char>, i: int) -> Seq<(u8, u8)>
    decreases s.len() - i,
{
    if i < 0 || i >= s.len() {
        Seq::empty()
    } else if s[i] == ' ' {
        tok(s, i + 1)
    } else if s[i] == '?' {
        if i + 1 < s.len() && s[i + 1] == '?' {
            seq![(0u8, 0u8)] + tok(s, i + 2)
        } else {
            seq![(0u8, 0u8)] + tok(s, i + 1)
        }
    } else {
        let c2 = if i + 1 < s.len() {
            s[i + 1]
        } else {
            '\0'
        };
        let ni = if i + 2 <= s.len() {
            i + 2
        } else {
            s.len() as int
        };
        seq![(hex_byte(s[i], c2), 0xffu8)] + tok(s, ni)
    }
}

/// Data bytes of a pair sequence.
pub open spec fn datas(ps: Seq<(u8, u8)>) -> Seq<u8> {
    ps.map_values(|p: (u8, u8)| p.0)
}

/// Mask bytes of a pair sequence.
pub open spec fn masks(ps: Seq<(u8, u8)>) -> Seq<u8> {
    ps.map_values(|p: (u8, u8)| p.1)
}

/// Every pair the tokenizer emits is either a wildcard `(0, 0)` or a
/// constrained byte with mask `0xff`.
pub proof fn lemma_tok_pairs(s: Seq<char>, i: int)
    ensures
        forall|k: int|
            0 <= k < tok(s, i).len() ==> ((#[trigger] tok(s, i)[k]).1 == 0u8 ==> tok(s, i)[k].0
                == 0u8) && (tok(s, i)[k].1 == 0u8 || tok(s, i)[k].1 == 0xffu8),
    decreases s.len() - i,
{
    if i < 0 || i >= s.len() {
        assert(tok(s, i).len() == 0);
    } else if s[i] == ' ' {
        lemma_tok_pairs(s, i + 1);
        assert(tok(s, i) == tok(s, i + 1));
        assert forall|k: int| 0 <= k < tok(s, i).len() implies ((#[trigger] tok(s, i)[k]).1 == 0u8
            ==> tok(s, i)[k].0 == 0u8) && (tok(s, i)[k].1 == 0u8 || tok(s, i)[k].1 == 0xffu8) by {
            assert(tok(s, i)[k] == tok(s, i + 1)[k]);
        }
    } else if s[i] == '?' {
        let ni = if i + 1 < s.len() && s[i + 1] == '?' {
            i + 2
        } else {
            i + 1
        };
        lemma_tok_pairs(s, ni);
        let pair = (0u8, 0u8);
        assert(tok(s, i) == seq![pair] + tok(s, ni));
        assert forall|k: int| 0 <= k < tok(s, i).len() implies ((#[trigger] tok(s, i)[k]).1 == 0u8
            ==> tok(s, i)[k].0 == 0u8) && (tok(s, i)[k].1 == 0u8 || tok(s, i)[k].1 == 0xffu8) by {
            if k == 0 {
                assert(tok(s, i)[k] == pair);
            } else {
                assert(tok(s, i)[k] == tok(s, ni)[k - 1]);
            }
        }
    } else {
        let c2 = if i + 1 < s.len() {
            s[i + 1]
        } else {
            '\0'
        };
        let ni = if i + 2 <= s.len() {
            i + 2
        } else {
            s.len() as int
        };
        lemma_tok_pairs(s, ni);
        let pair = (hex_byte(s[i], c2), 0xffu8);
        assert(tok(s, i) == seq![pair] + tok(s, ni));
        assert forall|k: int| 0 <= k < tok(s, i).len() implies ((#[trigger] tok(s, i)[k]).1 == 0u8
            ==> tok(s, i)[k].0 == 0u8) && (tok(s, i)[k].1 == 0u8 || tok(s, i)[k].1 == 0xffu8) by {
            if k == 0 {
                assert(tok(s, i)[k] == pair);
            } else {
                assert(tok(s, i)[k] == tok(s, ni)[k - 1]);
            }
        }
    }
}

/// Well-formedness of a compiled pattern over its raw contents:
/// buffers of equal length, padded to a 32-byte multiple of the
/// logical size, the padding fully unconstrained, every wildcard
/// position carrying data byte 0, and every mask byte either 0x00 or
/// 0xff (so testing a mask byte against zero agrees with the hardware
/// blend's test of its high bit).
pub open spec fn pat_wf(data: Seq<u8>, mask: Seq<u8>, unpadded: int) -> bool {
    &&& 0 <= unpadded <= data.len()
    &&& mask.len() == data.len()
    &&& data.len() == pad32(unpadded)
    &&& forall|j: int| unpadded <= j < data.len() ==> #[trigger] mask[j] == 0u8 && data[j] == 0u8
    &&& forall|j: int| 0 <= j < data.len() && #[trigger] mask[j] == 0u8 ==> data[j] == 0u8
    &&& forall|j: int| 0 <= j < mask.len() ==> #[trigger] mask[j] == 0u8 || mask[j] == 0xffu8
}

/// Every character encodes to at least one byte, so a text never has
/// more characters than UTF-8 bytes.
proof fn lemma_utf8_len_at_least_chars(cs: Seq<char>)
    ensures
        vstd::utf8::encode_utf8(cs).len() >= cs.len(),
    decreases cs.len(),
{
    if cs.len() == 0 {
    } else {
        lemma_utf8_len_at_least_chars(cs.drop_first());
        assert(vstd::utf8::encode_scalar(cs[0] as u32).len() >= 1);
    }
}

/// Sizes of a compiled textual pattern: the unpadded size is the
/// emitted token count (each wildcard counts as one byte), and both
/// buffers are exactly that count rounded up to the next 32-byte
/// multiple.
pub proof fn lemma_compiled_sizes(p: Pattern, s: Seq<char>)
    requires
        compiled_text(p, s),
    ensures
        p.spec_unpadded() == tok(s, 0).len(),
        p.spec_data().len() == pad32(tok(s, 0).len() as int),
        p.spec_mask().len() == pad32(tok(s, 0).len() as int),
{
    lemma_pad32_props(tok(s, 0).len() as int);
}

/// An IDA-style binary pattern: byte values to match, a same-length
/// mask (0xff = must match, 0x00 = wildcard), and the logical
/// signature length before padding.
pub struct Pattern {
    pub(crate) data: Vec<u8>,
    pub(crate) mask: Vec<u8>,
    pub(crate) unpadded_size: usize,
}

/// The pattern `p` is what compiling the signature text `s` yields.
pub open spec fn compiled_text(p: Pattern, s: Seq<char>) -> bool {
    &&& p.spec_unpadded() == tok(s, 0).len()
    &&& p.spec_data() == datas(tok(s, 0)) + zeros(pad32(tok(s, 0).len() as int) - tok(s, 0).len())
    &&& p.spec_mask() == masks(tok(s, 0)) + zeros(pad32(tok(s, 0).len() as int) - tok(s, 0).len())
}

/// The pattern `p` is what compiling the literal byte string `b`
/// yields: the bytes themselves, each constrained by a full mask.
pub open spec fn compiled_literal(p: Pattern, b: Seq<u8>) -> bool {
    &&& p.spec_unpadded() == b.len()
    &&& p.spec_data() == b + zeros(pad32(b.len() as int) - b.len())
    &&& p.spec_mask() == Seq::new(b.len(), |i: int| 0xffu8) + zeros(
        pad32(b.len() as int) - b.len(),
    )
}

impl Pattern {
    /// Byte values of the padded pattern buffer.
    pub closed spec fn spec_data(&self) -> Seq<u8> {
        self.data@
    }

    /// Mask values of the padded pattern buffer.
    pub closed spec fn spec_mask(&self) -> Seq<u8> {
        self.mask@
    }

    /// Logical signature length before padding.
    pub closed spec fn spec_unpadded(&self) -> int {
        self.unpadded_size as int
    }

    pub open spec fn wf(&self) -> bool {
        pat_wf(self.spec_data(), self.spec_mask(), self.spec_unpadded())
    }

    /// Length of the padded buffers.
    pub fn len(&self) -> (n: usize)
        ensures
            n == self.spec_data().len(),
    {
        self.data.len()
    }

    /// Logical signature length before padding.
    pub fn unpadded_size(&self) -> (n: usize)
        ensures
            n == self.spec_unpadded(),
    {
        self.unpadded_size
    }

    /// Pattern byte at position `i`.
    pub fn data_at(&self, i: usize) -> (b: u8)
        requires
            i < self.spec_data().len(),
        ensures
            b == self.spec_data()[i as int],
    {
        self.data[i]
    }

    /// Mask byte at position `i`.
    pub fn mask_at(&self, i: usize) -> (b: u8)
        requires
            i < self.spec_mask().len(),
        ensures
            b == self.spec_mask()[i as int],
    {
        self.mask[i]
    }

    fn char_to_byte(c: char) -> (b: u8)
        ensures
            b == nib(c),
            b <= 0xf,
    {
        let v = c as u32;
        if 97 <= v && v <= 102 {
            (v - 97 + 10) as u8
        } else if 65 <= v && v <= 70 {
            (v - 65 + 10) as u8
        } else if 48 <= v && v <= 57 {
            (v - 48) as u8
        } else {
            0
        }
    }

    /// Pad `data` and `mask` (built with `unpadded` meaningful bytes)
    /// with zero pairs up to the next 32-byte multiple and assemble
    /// the pattern.
    fn assemble(data: Vec<u8>, mask: Vec<u8>, unpadded: usize) -> (p: Pattern)
        requires
            data@.len() == unpadded,
            mask@.len() == unpadded,
            unpadded + 32 <= usize::MAX,
        ensures
            p.spec_unpadded() == unpadded,
            p.spec_data() == data@ + zeros(pad32(unpadded as int) - unpadded),
            p.spec_mask() == mask@ + zeros(pad32(unpadded as int) - unpadded),
    {
        proof {
            lemma_pad32_props(unpadded as int);
        }
        let rem = unpadded % ALIGNMENT;
        let padded = if rem == 0 {
            unpadded
        } else {
            unpadded + (ALIGNMENT - rem)
        };
        proof {
            vstd::arithmetic::div_mod::lemma_fundamental_div_mod(unpadded as int, 32);
            vstd::arithmetic::div_mod::lemma_fundamental_div_mod(unpadded as int + 31, 32);
            assert(padded == pad32(unpadded as int)) by (nonlinear_arith)
                requires
                    rem == unpadded as int % 32,
                    padded == if rem == 0 { unpadded as int } else { unpadded as int + 32 - rem },
                    0 <= unpadded as int,
            ;
        }
        let mut data = data;
        let mut mask = mask;
        let ghost base_d = data@;
        let ghost base_m = mask@;
        while data.len() < padded
            invariant
                unpadded <= data@.len() <= padded,
                mask@.len() == data@.len(),
                data@ == base_d + zeros(data@.len() - unpadded),
                mask@ == base_m + zeros(mask@.len() - unpadded),
                base_d.len() == unpadded,
                base_m.len() == unpadded,
            decreases padded - data@.len(),
        {
            data.push(0);
            mask.push(0);
            proof {
                assert(data@ =~= base_d + zeros(data@.len() - unpadded));
                assert(mask@ =~= base_m + zeros(mask@.len() - unpadded));
            }
        }
        Pattern { data, mask, unpadded_size: unpadded }
    }

    /// Create a new IDA-style [`Pattern`] instance from a textual
    /// signature: tokens separated by spaces, `?`/`??` for a wildcard
    /// byte, two hex characters for a constrained byte.
    pub fn new(pattern: &str) -> (p: Pattern)
        requires
            pattern@.len() + 32 <= usize::MAX,
        ensures
            p.wf(),
            compiled_text(p, pattern@),
    {
        let ghost s = pattern@;
        let n = pattern.unicode_len();
        let mut data: Vec<u8> = Vec::new();
        let mut mask: Vec<u8> = Vec::new();
        let ghost mut emitted: Seq<(u8, u8)> = Seq::empty();
        let mut i: usize = 0;
        proof {
            assert(tok(s, 0) =~= emitted + tok(s, 0));
        }
        while i < n
            invariant
                s == pattern@,
                n == s.len(),
                n + 32 <= usize::MAX,
                data@ == datas(emitted),
                mask@ == masks(emitted),
                emitted.len() <= i,
                emitted.len() <= n,
                tok(s, 0) == emitted + tok(s, i as int),
            decreases n + 1 - i,
        {
            let c = pattern.get_char(i);
            let has_next = i + 1 < n;
            let next_c: char = if has_next {
                pattern.get_char(i + 1)
            } else {
                '\0'
            };
            let ghost i0 = i as int;
            if c == ' ' {
                i = i + 1;
                proof {
                    assert(tok(s, i0) == tok(s, i0 + 1));
                }
            } else if c == '?' {
                data.push(0x00);
                mask.push(0x00);
                proof {
                    let ghost pair = (0u8, 0u8);
                    assert(datas(emitted.push(pair)) =~= datas(emitted).push(pair.0));
                    assert(masks(emitted.push(pair)) =~= masks(emitted).push(pair.1));
                    emitted = emitted.push(pair);
                }
                if has_next && next_c == '?' {
                    i = i + 2;
                    proof {
                        assert(tok(s, i0) == seq![(0u8, 0u8)] + tok(s, i0 + 2));
                        assert(emitted + tok(s, i0 + 2) =~= (emitted.drop_last() + seq![
                            (0u8, 0u8),
                        ]) + tok(s, i0 + 2));
                        assert(tok(s, 0) =~= emitted + tok(s, i as int));
                    }
                } else {
                    i = i + 1;
                    proof {
                        assert(tok(s, i0) == seq![(0u8, 0u8)] + tok(s, i0 + 1));
                        assert(tok(s, 0) =~= emitted + tok(s, i as int));
                    }
                }
            } else {
                let b = (Self::char_to_byte(c) << 4u8) | Self::char_to_byte(next_c);
                data.push(b);
                mask.push(0xff);
                proof {
                    let ghost pair = (b, 0xffu8);
                    assert(datas(emitted.push(pair)) =~= datas(emitted).push(pair.0));
                    assert(masks(emitted.push(pair)) =~= masks(emitted).push(pair.1));
                    emitted = emitted.push(pair);
                }
                i = i + 2;
                proof {
                    let c2 = if i0 + 1 < s.len() {
                        s[i0 + 1]
                    } else {
                        '\0'
                    };
                    assert(next_c == c2);
                    assert(b == hex_byte(s[i0], c2));
                    let ni = if i0 + 2 <= s.len() {
                        i0 + 2
                    } else {
                        s.len() as int
                    };
                    assert(tok(s, i0) == seq![(hex_byte(s[i0], c2), 0xffu8)] + tok(s, ni));
                    assert(tok(s, ni) == tok(s, i as int));
                    assert(tok(s, 0) =~= emitted + tok(s, i as int));
                }
            }
        }
        proof {
            assert(tok(s, i as int) =~= Seq::<(u8, u8)>::empty());
            assert(tok(s, 0) =~= emitted);
            assert(datas(emitted).len() == emitted.len());
        }
        let unpadded = data.len();
        let p = Self::assemble(data, mask, unpadded);
        proof {
            lemma_tok_pairs(s, 0);
            lemma_pad32_props(unpadded as int);
            assert forall|j: int| 0 <= j < p.spec_data().len() && p.spec_mask()[j] == 0u8 implies p.spec_data()[j]
                == 0u8 by {
                if j < unpadded {
                    assert(p.spec_mask()[j] == tok(s, 0)[j].1);
                    assert(p.spec_data()[j] == tok(s, 0)[j].0);
                }
            }
        }
        p
    }

    /// Create a new [`Pattern`] instance from a string literal: every
    /// byte of the UTF-8 encoding of `string` is emitted with a full
    /// mask.
    pub fn new_string(string: &str) -> (p: Pattern)
        requires
            string.spec_bytes().len() + 32 <= usize::MAX,
        ensures
            p.wf(),
            compiled_literal(p, string.spec_bytes()),
    {
        let bytes: &[u8] = string.as_bytes();
        let unpadded = bytes.len();
        let data: Vec<u8> = vstd::slice::slice_to_vec(bytes);
        let mut mask: Vec<u8> = Vec::new();
        let mut k: usize = 0;
        while k < unpadded
            invariant
                k <= unpadded,
                mask@ =~= Seq::new(k as nat, |i: int| 0xffu8),
            decreases unpadded - k,
        {
            mask.push(0xff);
            k = k + 1;
            proof {
                assert(mask@ =~= Seq::new(k as nat, |i: int| 0xffu8));
            }
        }
        let p = Self::assemble(data, mask, unpadded);
        proof {
            lemma_pad32_props(unpadded as int);
            assert(p.spec_data() == string.spec_bytes() + zeros(
                pad32(unpadded as int) - unpadded,
            ));
            assert forall|j: int| 0 <= j < p.spec_data().len() && p.spec_mask()[j] == 0u8 implies p.spec_data()[j]
                == 0u8 by {
                if j < unpadded {
                    assert(p.spec_mask()[j] == 0xffu8);
                }
            }
        }
        p
    }
}

impl From<&str> for Pattern {
    /// Compile the textual signature, like [`Pattern::new`]. `From`
    /// cannot carry that function's size precondition, so this impl
    /// states no contract (`obeys_from_spec` is false); callers that
    /// need the compiled pattern pinned down call [`Pattern::new`]. A
    /// text whose padded buffer length would not be representable —
    /// impossible for a string held in memory — compiles as the empty
    /// signature instead of aborting.
    fn from(value: &str) -> (p: Pattern) {
        let nbytes = value.as_bytes().len();
        if nbytes <= usize::MAX - 32 {
            proof {
                lemma_utf8_len_at_least_chars(value@);
            }
            Pattern::new(value)
        } else {
            proof {
                reveal_strlit("");
            }
            Pattern::new("")
        }
    }
}

impl vstd::std_specs::convert::FromSpecImpl<&str> for Pattern {
    open spec fn obeys_from_spec() -> bool {
        false
    }

    open spec fn from_spec(value: &str) -> Pattern {
        choose|p: Pattern| p.wf() && compiled_text(p, value@)
    }
}

} // verus!

