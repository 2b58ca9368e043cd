//! GGML tensor element types and their block layouts.
//!
//! Quantized GGML types are **block** formats: `block_elems` weights share one packed
//! record of `block_bytes`. Everything `sift` does with byte offsets — in particular
//! locating one expert inside a stacked expert tensor — depends on getting these two
//! numbers right, so they are exhaustive and tested rather than approximated.

use vstd::arithmetic::div_mod::*;
use vstd::prelude::*;
use crate::ratio::Ratio;

verus! {

/// A GGML tensor element type, as stored in a GGUF tensor directory.
#[derive(Debug, Clone, Copy, PartialEq, Eq, Structural)]
pub struct GgmlType(pub u32);

/// Block geometry for a quantized (or plain) GGML type.
#[derive(Debug, Clone, Copy, PartialEq, Eq, Structural)]
pub struct BlockLayout {
    /// Number of weights per block.
    pub elems: u64,
    /// Bytes per block.
    pub bytes: u64,
}

/// The element types that GGML defines: for each number its name, the weights in one block
/// and the bytes that one block takes.
pub open spec fn known_type(ty: u32) -> Option<(&'static str, u64, u64)> {
    match ty {
        0 => Some(("F32", 1, 4)),
        1 => Some(("F16", 1, 2)),
        2 => Some(("Q4_0", 32, 18)),
        3 => Some(("Q4_1", 32, 20)),
        6 => Some(("Q5_0", 32, 22)),
        7 => Some(("Q5_1", 32, 24)),
        8 => Some(("Q8_0", 32, 34)),
        9 => Some(("Q8_1", 32, 36)),
        10 => Some(("Q2_K", 256, 82)),
        11 => Some(("Q3_K", 256, 110)),
        12 => Some(("Q4_K", 256, 144)),
        13 => Some(("Q5_K", 256, 176)),
        14 => Some(("Q6_K", 256, 210)),
        15 => Some(("Q8_K", 256, 292)),
        16 => Some(("IQ2_XXS", 256, 66)),
        17 => Some(("IQ2_XS", 256, 74)),
        18 => Some(("IQ3_XXS", 256, 98)),
        19 => Some(("IQ1_S", 256, 50)),
        20 => Some(("IQ4_NL", 32, 18)),
        21 => Some(("IQ3_S", 256, 110)),
        22 => Some(("IQ2_S", 256, 82)),
        23 => Some(("IQ4_XS", 256, 136)),
        24 => Some(("I8", 1, 1)),
        25 => Some(("I16", 1, 2)),
        26 => Some(("I32", 1, 4)),
        27 => Some(("I64", 1, 8)),
        28 => Some(("F64", 1, 8)),
        29 => Some(("IQ1_M", 256, 56)),
        30 => Some(("BF16", 1, 2)),
        39 => Some(("MXFP4", 32, 17)),
        _ => None,
    }
}

impl BlockLayout {
    /// Average bits per weight for this layout.
    pub fn bits_per_weight(&self) -> (r: Ratio)
        ensures
            r.numer == self.bytes * 8,
            r.denom == self.elems,
    {
        Ratio { numer: self.bytes as u128 * 8, denom: self.elems as u128 }
    }
}

impl GgmlType {
    /// The block layout of this type, if it is a known one.
    pub open spec fn layout(self) -> Option<BlockLayout> {
        match known_type(self.0) {
            Some((_, elems, bytes)) => Some(BlockLayout { elems, bytes }),
            None => None,
        }
    }

    /// The name of this type; `"unknown"` when it is none of the known ones.
    pub open spec fn label(self) -> Seq<char> {
        match known_type(self.0) {
            Some((name, _, _)) => name@,
            None => "unknown"@,
        }
    }

    /// Bytes that `n` weights of this type take, if that is a whole number of blocks.
    pub open spec fn size_of(self, n: int) -> Option<int> {
        match self.layout() {
            Some(l) => if n % (l.elems as int) == 0 {
                Some(n / (l.elems as int) * l.bytes)
            } else {
                None
            },
            None => None,
        }
    }

    /// Human-readable name, or `"unknown"` for types this build does not model.
    pub fn name(self) -> (r: &'static str)
        ensures
            r@ == self.label(),
    {
        match self.0 {
            0 => "F32",
            1 => "F16",
            2 => "Q4_0",
            3 => "Q4_1",
            6 => "Q5_0",
            7 => "Q5_1",
            8 => "Q8_0",
            9 => "Q8_1",
            10 => "Q2_K",
            11 => "Q3_K",
            12 => "Q4_K",
            13 => "Q5_K",
            14 => "Q6_K",
            15 => "Q8_K",
            16 => "IQ2_XXS",
            17 => "IQ2_XS",
            18 => "IQ3_XXS",
            19 => "IQ1_S",
            20 => "IQ4_NL",
            21 => "IQ3_S",
            22 => "IQ2_S",
            23 => "IQ4_XS",
            24 => "I8",
            25 => "I16",
            26 => "I32",
            27 => "I64",
            28 => "F64",
            29 => "IQ1_M",
            30 => "BF16",
            39 => "MXFP4",
            _ => "unknown",
        }
    }

    /// Block geometry, or `None` if this build does not know the type.
    ///
    /// Returning `None` rather than guessing matters: a wrong block size silently
    /// produces wrong byte offsets, which reads the wrong expert and yields plausible
    /// garbage instead of an error.
    pub fn block_layout(self) -> (r: Option<BlockLayout>)
        ensures
            r == self.layout(),
    {
        let (elems, bytes): (u64, u64) = match self.0 {
            0 => (1, 4),
            1 => (1, 2),
            2 => (32, 18),
            3 => (32, 20),
            6 => (32, 22),
            7 => (32, 24),
            8 => (32, 34),
            9 => (32, 36),
            10 => (256, 82),
            11 => (256, 110),
            12 => (256, 144),
            13 => (256, 176),
            14 => (256, 210),
            15 => (256, 292),
            16 => (256, 66),
            17 => (256, 74),
            18 => (256, 98),
            19 => (256, 50),
            20 => (32, 18),
            21 => (256, 110),
            22 => (256, 82),
            23 => (256, 136),
            24 => (1, 1),
            25 => (1, 2),
            26 => (1, 4),
            27 => (1, 8),
            28 => (1, 8),
            29 => (256, 56),
            30 => (1, 2),
            // 32 4-bit weights and one E8M0 scale byte.
            39 => (32, 17),
            _ => return None,
        };
        Some(BlockLayout { elems, bytes })
    }

    /// Bytes needed to store `n_elems` weights of this type.
    ///
    /// Returns `None` if the type is unknown, or if `n_elems` is not a whole number of
    /// blocks — a partial block means our understanding of the tensor is wrong, and
    /// rounding it would corrupt every subsequent offset.
    pub fn bytes_for(self, n_elems: u64) -> (r: Option<u64>)
        requires
            self.size_of(n_elems as int) matches Some(n) ==> n <= u64::MAX,
        ensures
            match r {
                Some(n) => self.size_of(n_elems as int) == Some(n as int),
                None => self.size_of(n_elems as int) is None,
            },
    {
        match self.block_layout() {
            Some(layout) => {
                if n_elems % layout.elems != 0 {
                    return None;
                }
                Some(n_elems / layout.elems * layout.bytes)
            },
            None => None,
        }
    }

    /// Bytes needed to store `n_elems` weights of this type, or `None` where
    /// [`GgmlType::bytes_for`] has no answer or its answer exceeds 64 bits.
    pub fn checked_bytes_for(self, n_elems: u64) -> (r: Option<u64>)
        ensures
            match r {
                Some(n) => self.size_of(n_elems as int) == Some(n as int),
                None => self.size_of(n_elems as int) matches Some(n) ==> n > u64::MAX,
            },
    {
        match self.block_layout() {
            Some(layout) => {
                if n_elems % layout.elems != 0 {
                    return None;
                }
                (n_elems / layout.elems).checked_mul(layout.bytes)
            },
            None => None,
        }
    }
}

/// A type has a name of its own exactly when its block layout is known, and every known
/// layout has at least one weight and one byte to a block.
pub proof fn lemma_known_types(ty: GgmlType)
    ensures
        ty.layout() is None <==> ty.label() == "unknown"@,
        ty.layout() matches Some(l) ==> l.elems >= 1 && l.bytes >= 1,
{
    reveal_strlit("unknown");
    reveal_strlit("F32");
    reveal_strlit("F16");
    reveal_strlit("Q4_0");
    reveal_strlit("Q4_1");
    reveal_strlit("Q5_0");
    reveal_strlit("Q5_1");
    reveal_strlit("Q8_0");
    reveal_strlit("Q8_1");
    reveal_strlit("Q2_K");
    reveal_strlit("Q3_K");
    reveal_strlit("Q4_K");
    reveal_strlit("Q5_K");
    reveal_strlit("Q6_K");
    reveal_strlit("Q8_K");
    reveal_strlit("IQ2_XXS");
    reveal_strlit("IQ2_XS");
    reveal_strlit("IQ3_XXS");
    reveal_strlit("IQ1_S");
    reveal_strlit("IQ4_NL");
    reveal_strlit("IQ3_S");
    reveal_strlit("IQ2_S");
    reveal_strlit("IQ4_XS");
    reveal_strlit("I8");
    reveal_strlit("I16");
    reveal_strlit("I32");
    reveal_strlit("I64");
    reveal_strlit("F64");
    reveal_strlit("IQ1_M");
    reveal_strlit("BF16");
    reveal_strlit("MXFP4");
    assert("unknown"@[0] == 'u');
    if let Some((name, _, _)) = known_type(ty.0) {
        assert(name@[0] != 'u');
    }
}

/// Whole blocks add up: storing two runs of weights, each a whole number of blocks, takes
/// what storing them as one run takes.
pub proof fn lemma_sizes_add(ty: GgmlType, a: int, b: int)
    requires
        a >= 0,
        b >= 0,
        ty.size_of(a) is Some,
        ty.size_of(b) is Some,
    ensures
        ty.size_of(a + b) == Some(ty.size_of(a)->0 + ty.size_of(b)->0),
{
    let l = ty.layout()->0;
    lemma_known_types(ty);
    let e = l.elems as int;
    let bytes = l.bytes as int;
    lemma_fundamental_div_mod(a, e);
    lemma_fundamental_div_mod(b, e);
    assert(e * (a / e) + e * (b / e) == (a / e + b / e) * e) by (nonlinear_arith);
    lemma_fundamental_div_mod_converse(a + b, e, a / e + b / e, 0);
    assert((a / e + b / e) * bytes == a / e * bytes + b / e * bytes) by (nonlinear_arith);
}

/// A run of weights with a partial block stays one, whatever whole blocks are put before it.
pub proof fn lemma_partial_blocks_stay_partial(ty: GgmlType, a: int, b: int)
    requires
        a >= 0,
        b >= 0,
        ty.size_of(a) is Some,
        ty.size_of(b) is None,
    ensures
        ty.size_of(a + b) is None,
{
    lemma_known_types(ty);
    let e = ty.layout()->0.elems as int;
    lemma_mod_bound(b, e);
    assert(0 < b % e < e);
    lemma_fundamental_div_mod(a, e);
    lemma_fundamental_div_mod(b, e);
    assert(e * (a / e) + e * (b / e) == (a / e + b / e) * e) by (nonlinear_arith);
    lemma_fundamental_div_mod_converse(a + b, e, a / e + b / e, b % e);
}

/// The code of a character of a name, nothing behind its end.
spec fn code(s: Seq<char>, i: int) -> int {
    if i < s.len() {
        s[i] as int
    } else {
        0
    }
}

/// A name of up to seven ASCII characters as a number.
spec fn name_key(s: Seq<char>) -> int {
    code(s, 0) + 128 * code(s, 1) + 16384 * code(s, 2) + 2097152 * code(s, 3) + 268435456 * code(
        s,
        4,
    ) + 34359738368 * code(s, 5) + 4398046511104 * code(s, 6)
}

/// The names of the known types as numbers.
spec fn known_key(n: u32) -> int {
    match n {
        0 => 825798,
        1 => 891078,
        2 => 102226513,
        3 => 104323665,
        6 => 102226641,
        7 => 104323793,
        8 => 102227025,
        9 => 104324177,
        10 => 158849361,
        11 => 158849489,
        12 => 158849617,
        13 => 158849745,
        14 => 158849873,
        15 => 158850129,
        16 => 368085339777225,
        17 => 2875680663753,
        18 => 368085339793609,
        19 => 22480185545,
        20 => 2632478173385,
        21 => 22480218313,
        22 => 22480201929,
        23 => 2875680696521,
        24 => 7241,
        25 => 891081,
        26 => 825801,
        27 => 858953,
        28 => 858950,
        29 => 20869572809,
        30 => 114058050,
        39 => 14127574093,
        _ => 0,
    }
}

proof fn lemma_known_key(n: u32)
    requires
        known_type(n) is Some,
    ensures
        name_key(GgmlType(n).label()) == known_key(n),
{
    if n == 0 {
        reveal_strlit("F32");
        assert(name_key("F32"@) == 825798);
    } else if n == 1 {
        reveal_strlit("F16");
        assert(name_key("F16"@) == 891078);
    } else if n == 2 {
        reveal_strlit("Q4_0");
        assert(name_key("Q4_0"@) == 102226513);
    } else if n == 3 {
        reveal_strlit("Q4_1");
        assert(name_key("Q4_1"@) == 104323665);
    } else if n == 6 {
        reveal_strlit("Q5_0");
        assert(name_key("Q5_0"@) == 102226641);
    } else if n == 7 {
        reveal_strlit("Q5_1");
        assert(name_key("Q5_1"@) == 104323793);
    } else if n == 8 {
        reveal_strlit("Q8_0");
        assert(name_key("Q8_0"@) == 102227025);
    } else if n == 9 {
        reveal_strlit("Q8_1");
        assert(name_key("Q8_1"@) == 104324177);
    } else if n == 10 {
        reveal_strlit("Q2_K");
        assert(name_key("Q2_K"@) == 158849361);
    } else if n == 11 {
        reveal_strlit("Q3_K");
        assert(name_key("Q3_K"@) == 158849489);
    } else if n == 12 {
        reveal_strlit("Q4_K");
        assert(name_key("Q4_K"@) == 158849617);
    } else if n == 13 {
        reveal_strlit("Q5_K");
        assert(name_key("Q5_K"@) == 158849745);
    } else if n == 14 {
        reveal_strlit("Q6_K");
        assert(name_key("Q6_K"@) == 158849873);
    } else if n == 15 {
        reveal_strlit("Q8_K");
        assert(name_key("Q8_K"@) == 158850129);
    } else if n == 16 {
        reveal_strlit("IQ2_XXS");
        assert(name_key("IQ2_XXS"@) == 368085339777225);
    } else if n == 17 {
        reveal_strlit("IQ2_XS");
        assert(name_key("IQ2_XS"@) == 2875680663753);
    } else if n == 18 {
        reveal_strlit("IQ3_XXS");
        assert(name_key("IQ3_XXS"@) == 368085339793609);
    } else if n == 19 {
        reveal_strlit("IQ1_S");
        assert(name_key("IQ1_S"@) == 22480185545);
    } else if n == 20 {
        reveal_strlit("IQ4_NL");
        assert(name_key("IQ4_NL"@) == 2632478173385);
    } else if n == 21 {
        reveal_strlit("IQ3_S");
        assert(name_key("IQ3_S"@) == 22480218313);
    } else if n == 22 {
        reveal_strlit("IQ2_S");
        assert(name_key("IQ2_S"@) == 22480201929);
    } else if n == 23 {
        reveal_strlit("IQ4_XS");
        assert(name_key("IQ4_XS"@) == 2875680696521);
    } else if n == 24 {
        reveal_strlit("I8");
        assert(name_key("I8"@) == 7241);
    } else if n == 25 {
        reveal_strlit("I16");
        assert(name_key("I16"@) == 891081);
    } else if n == 26 {
        reveal_strlit("I32");
        assert(name_key("I32"@) == 825801);
    } else if n == 27 {
        reveal_strlit("I64");
        assert(name_key("I64"@) == 858953);
    } else if n == 28 {
        reveal_strlit("F64");
        assert(name_key("F64"@) == 858950);
    } else if n == 29 {
        reveal_strlit("IQ1_M");
        assert(name_key("IQ1_M"@) == 20869572809);
    } else if n == 30 {
        reveal_strlit("BF16");
        assert(name_key("BF16"@) == 114058050);
    } else if n == 39 {
        reveal_strlit("MXFP4");
        assert(name_key("MXFP4"@) == 14127574093);
    }
}

/// Known types have different names.
pub proof fn lemma_names_tell_types(a: GgmlType, b: GgmlType)
    requires
        a.layout() is Some,
        b.layout() is Some,
        a.label() == b.label(),
    ensures
        a == b,
{
    lemma_known_key(a.0);
    lemma_known_key(b.0);
}

/// How a block is stored: the weights in it, the bits that each of them has of its own, and the
/// bytes that all of them share.
pub open spec fn stored_as(ty: u32) -> Option<(int, int, int)> {
    if ty == 0 || ty == 26 {
        Some((1, 32, 0))
    } else if ty == 1 || ty == 25 || ty == 30 {
        Some((1, 16, 0))
    } else if ty == 24 {
        Some((1, 8, 0))
    } else if ty == 27 || ty == 28 {
        Some((1, 64, 0))
    } else if ty == 2 || ty == 20 {
        Some((32, 4, 2))
    } else if ty == 3 {
        Some((32, 4, 4))
    } else if ty == 6 {
        Some((32, 5, 2))
    } else if ty == 7 {
        Some((32, 5, 4))
    } else if ty == 8 {
        Some((32, 8, 2))
    } else if ty == 9 {
        Some((32, 8, 4))
    } else if ty == 39 {
        Some((32, 4, 1))
    } else if ty == 10 || ty == 22 {
        Some((256, 2, 18))
    } else if ty == 11 || ty == 21 {
        Some((256, 3, 14))
    } else if ty == 12 {
        Some((256, 4, 16))
    } else if ty == 13 {
        Some((256, 5, 16))
    } else if ty == 14 {
        Some((256, 6, 18))
    } else if ty == 15 {
        Some((256, 8, 36))
    } else if ty == 16 {
        Some((256, 2, 2))
    } else if ty == 17 {
        Some((256, 2, 10))
    } else if ty == 18 {
        Some((256, 3, 2))
    } else if ty == 19 {
        Some((256, 1, 18))
    } else if ty == 23 {
        Some((256, 4, 8))
    } else if ty == 29 {
        Some((256, 1, 24))
    } else {
        None
    }
}

/// A block takes the bits of its weights and the bytes that they share, for every type that is
/// known, and no other type is.
pub proof fn lemma_blocks_hold_their_weights(ty: GgmlType)
    ensures
        ty.layout() is Some <==> stored_as(ty.0) is Some,
        ty.layout() matches Some(l) ==> (stored_as(ty.0) matches Some((weights, bits, shared))
            && l.elems == weights && l.bytes * 8 == weights * bits + 8 * shared),
{
}

/// Storing weights takes as many blocks as they fill: the bytes are to the weights as a block's
/// bytes are to its weights. Weights that do not fill whole blocks have no size, and neither
/// have weights of an unknown type.
pub proof fn lemma_sizes_are_whole_blocks(ty: GgmlType, n: int)
    requires
        n >= 0,
    ensures
        match ty.size_of(n) {
            Some(size) => ty.layout() matches Some(l) && n % (l.elems as int) == 0 && size * l.elems
                == n * l.bytes,
            None => ty.layout() matches Some(l) ==> n % (l.elems as int) != 0,
        },
{
    lemma_known_types(ty);
    if let Some(l) = ty.layout() {
        let e = l.elems as int;
        let b = l.bytes as int;
        lemma_fundamental_div_mod(n, e);
        if n % e == 0 {
            assert((n / e * b) * e == (e * (n / e)) * b) by (nonlinear_arith);
        }
    }
}

} // verus!
