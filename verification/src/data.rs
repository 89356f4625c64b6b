//! The cached data word of levels and expressions.
//!
//! A level's word holds its hash (bits 0..32), whether it has a universe
//! metavariable (bit 32) or a universe parameter (bit 33), and its depth
//! (bits 40..64).  An expression's word holds its hash (bits 0..32), an
//! approximate depth (bits 32..40), four flags (bits 40..44: free variable,
//! expression metavariable, universe metavariable, universe parameter) and
//! its loose bound variable range (bits 44..64).
use vstd::prelude::*;
use crate::bitfield::{get, get_bit, get_spec, get_bit_spec, mask_spec};
use crate::ptr::{LeanPtr, is_scalar_spec, unbox_spec};
use crate::object::{LeanObj, LeanRef, data_for, data_for_spec, has_data_word};

verus! {

pub const LEVEL_HASH_SHIFT: u32 = 0;
pub const LEVEL_HASH_WIDTH: u32 = 32;
pub const LEVEL_HAS_MVAR_SHIFT: u32 = 32;
pub const LEVEL_HAS_PARAM_SHIFT: u32 = 33;
pub const LEVEL_DEPTH_SHIFT: u32 = 40;
pub const LEVEL_DEPTH_WIDTH: u32 = 24;
pub const EXPR_HASH_SHIFT: u32 = 0;
pub const EXPR_HASH_WIDTH: u32 = 32;
pub const EXPR_APPROX_DEPTH_SHIFT: u32 = 32;
pub const EXPR_APPROX_DEPTH_WIDTH: u32 = 8;
pub const EXPR_HAS_FVAR_SHIFT: u32 = 40;
pub const EXPR_HAS_EXPR_MVAR_SHIFT: u32 = 41;
pub const EXPR_HAS_LEVEL_MVAR_SHIFT: u32 = 42;
pub const EXPR_HAS_LEVEL_PARAM_SHIFT: u32 = 43;
pub const EXPR_BVAR_RANGE_SHIFT: u32 = 44;
pub const EXPR_BVAR_RANGE_WIDTH: u32 = 20;
/// The four flag bits of an expression word.
pub const EXPR_FLAGS_MASK: u64 = 0xf00_0000_0000;
/// The largest level depth a level word holds.
pub const MAX_LEVEL_DEPTH: usize = 16777215;
/// The largest loose bound variable range an expression word holds.
pub const MAX_EXPR_BVAR_RANGE: usize = 1048575;
/// The largest approximate depth an expression word holds.
pub const MAX_APPROX_DEPTH: u32 = 255;

/// The data word of a level.
#[derive(Clone, Copy, PartialEq, Eq, Structural, Debug)]
pub struct LevelData(pub u64);

/// The level word that holds `hash`, `depth` (its low 24 bits) and the two
/// flags, with every other bit clear.
pub open spec fn level_pack_spec(hash: u32, depth: u32, has_mvar: bool, has_param: bool) -> u64 {
    (hash as u64) | ((if has_mvar {
        1u64
    } else {
        0u64
    }) << 32u64) | ((if has_param {
        1u64
    } else {
        0u64
    }) << 33u64) | (((depth as u64) & 0xff_ffffu64) << 40u64)
}

impl LevelData {
    /// The hash (bits 0..32).
    pub fn hash(self) -> (r: u32)
        ensures
            r == get_spec(LEVEL_HASH_SHIFT, LEVEL_HASH_WIDTH, self.0),
            r == self.0 % 0x1_0000_0000,
    {
        let v = self.0;
        assert((v >> 0u32) & (((1u64 << 32u32) - 1) as u64) == v % 0x1_0000_0000) by (bit_vector);
        get(LEVEL_HASH_SHIFT, LEVEL_HASH_WIDTH, self.0) as u32
    }

    /// The depth (bits 40..64).
    pub fn depth(self) -> (r: u32)
        ensures
            r == get_spec(LEVEL_DEPTH_SHIFT, LEVEL_DEPTH_WIDTH, self.0),
            r == self.0 / 0x100_0000_0000,
    {
        let v = self.0;
        assert((v >> 40u32) & (((1u64 << 24u32) - 1) as u64) == v / 0x100_0000_0000)
            by (bit_vector);
        get(LEVEL_DEPTH_SHIFT, LEVEL_DEPTH_WIDTH, self.0) as u32
    }

    /// 1 when the level has a universe metavariable (bit 32), else 0.
    pub fn has_mvar(self) -> (r: u8)
        ensures
            r == (if get_bit_spec(LEVEL_HAS_MVAR_SHIFT, self.0) {
                1u8
            } else {
                0u8
            }),
    {
        if get_bit(LEVEL_HAS_MVAR_SHIFT, self.0) {
            1
        } else {
            0
        }
    }

    /// 1 when the level has a universe parameter (bit 33), else 0.
    pub fn has_param(self) -> (r: u8)
        ensures
            r == (if get_bit_spec(LEVEL_HAS_PARAM_SHIFT, self.0) {
                1u8
            } else {
                0u8
            }),
    {
        if get_bit(LEVEL_HAS_PARAM_SHIFT, self.0) {
            1
        } else {
            0
        }
    }

    /// The level word of `hash`, `depth` (its low 24 bits) and the flags.
    pub fn pack(hash: u32, depth: u32, has_mvar: bool, has_param: bool) -> (r: u64)
        ensures
            r == level_pack_spec(hash, depth, has_mvar, has_param),
    {
        let mut v = 0u64;
        v = crate::bitfield::set(LEVEL_HASH_SHIFT, LEVEL_HASH_WIDTH, v, hash as u64);
        let m: u64 = if has_mvar {
            1
        } else {
            0
        };
        let p: u64 = if has_param {
            1
        } else {
            0
        };
        v = crate::bitfield::set(LEVEL_HAS_MVAR_SHIFT, 1, v, m);
        v = crate::bitfield::set(LEVEL_HAS_PARAM_SHIFT, 1, v, p);
        let r = crate::bitfield::set(LEVEL_DEPTH_SHIFT, LEVEL_DEPTH_WIDTH, v, depth as u64);
        proof {
            let h = hash as u64;
            let d = depth as u64;
            assert(h <= 0xffff_ffff);
            assert(m <= 1 && p <= 1);
            assert(d <= 0xffff_ffff);
            assert({
                let v0 = (0u64 & !((((1u64 << 32u32) - 1) as u64) << 0u32)) | ((h & (((1u64
                    << 32u32) - 1) as u64)) << 0u32);
                let v1 = (v0 & !((((1u64 << 1u32) - 1) as u64) << 32u32)) | ((m & (((1u64
                    << 1u32) - 1) as u64)) << 32u32);
                let v2 = (v1 & !((((1u64 << 1u32) - 1) as u64) << 33u32)) | ((p & (((1u64
                    << 1u32) - 1) as u64)) << 33u32);
                (v2 & !((((1u64 << 24u32) - 1) as u64) << 40u32)) | ((d & (((1u64 << 24u32)
                    - 1) as u64)) << 40u32)
            } == h | (m << 32u64) | (p << 33u64) | ((d & 0xff_ffffu64) << 40u64))
                by (bit_vector)
                requires
                    h <= 0xffff_ffff,
                    m <= 1,
                    p <= 1,
            ;
        }
        r
    }
}

/// A packed level word reads back what was packed.
pub proof fn lemma_level_pack_reads_back(hash: u32, depth: u32, has_mvar: bool, has_param: bool)
    ensures
        ({
            let w = level_pack_spec(hash, depth, has_mvar, has_param);
            &&& w % 0x1_0000_0000 == hash
            &&& (depth <= MAX_LEVEL_DEPTH ==> w / 0x100_0000_0000 == depth)
            &&& get_bit_spec(LEVEL_HAS_MVAR_SHIFT, w) == has_mvar
            &&& get_bit_spec(LEVEL_HAS_PARAM_SHIFT, w) == has_param
        }),
{
    let h = hash as u64;
    let d = depth as u64;
    let m: u64 = if has_mvar {
        1
    } else {
        0
    };
    let p: u64 = if has_param {
        1
    } else {
        0
    };
    assert((h | (m << 32u64) | (p << 33u64) | ((d & 0xff_ffffu64) << 40u64)) % 0x1_0000_0000 == h)
        by (bit_vector)
        requires
            h <= 0xffff_ffff,
            m <= 1,
            p <= 1,
    ;
    assert(d <= 0xff_ffff ==> (h | (m << 32u64) | (p << 33u64) | ((d & 0xff_ffffu64) << 40u64))
        / 0x100_0000_0000 == d) by (bit_vector)
        requires
            h <= 0xffff_ffff,
            m <= 1,
            p <= 1,
    ;
    assert((((h | (m << 32u64) | (p << 33u64) | ((d & 0xff_ffffu64) << 40u64)) >> 32u32) & 1
        != 0) == (m == 1)) by (bit_vector)
        requires
            h <= 0xffff_ffff,
            m <= 1,
            p <= 1,
    ;
    assert((((h | (m << 32u64) | (p << 33u64) | ((d & 0xff_ffffu64) << 40u64)) >> 33u32) & 1
        != 0) == (p == 1)) by (bit_vector)
        requires
            h <= 0xffff_ffff,
            m <= 1,
            p <= 1,
    ;
}

/// The data word of an expression.
#[derive(Clone, Copy, PartialEq, Eq, Structural, Debug)]
pub struct ExprData(pub u64);

/// The expression word that holds `hash`, `depth` (its low 8 bits), `range`
/// (its low 20 bits) and the flag bits of `flags`, with every other bit
/// clear.
pub open spec fn expr_pack_spec(hash: u32, range: u32, depth: u32, flags: u64) -> u64 {
    (hash as u64) | (((depth as u64) & 0xffu64) << 32u64) | (flags & EXPR_FLAGS_MASK) | (((
    range as u64) & 0xf_ffffu64) << 44u64)
}

impl ExprData {
    /// The hash (bits 0..32).
    pub fn hash(self) -> (r: u32)
        ensures
            r == get_spec(EXPR_HASH_SHIFT, EXPR_HASH_WIDTH, self.0),
            r == self.0 % 0x1_0000_0000,
    {
        let v = self.0;
        assert((v >> 0u32) & (((1u64 << 32u32) - 1) as u64) == v % 0x1_0000_0000) by (bit_vector);
        get(EXPR_HASH_SHIFT, EXPR_HASH_WIDTH, self.0) as u32
    }

    /// The approximate depth (bits 32..40).
    pub fn approx_depth(self) -> (r: u32)
        ensures
            r == get_spec(EXPR_APPROX_DEPTH_SHIFT, EXPR_APPROX_DEPTH_WIDTH, self.0),
            r == self.0 / 0x1_0000_0000 % 0x100,
    {
        let v = self.0;
        assert((v >> 32u32) & (((1u64 << 8u32) - 1) as u64) == v / 0x1_0000_0000 % 0x100)
            by (bit_vector);
        get(EXPR_APPROX_DEPTH_SHIFT, EXPR_APPROX_DEPTH_WIDTH, self.0) as u32
    }

    /// The loose bound variable range (bits 44..64).
    pub fn loose_bvar_range(self) -> (r: u32)
        ensures
            r == get_spec(EXPR_BVAR_RANGE_SHIFT, EXPR_BVAR_RANGE_WIDTH, self.0),
            r == self.0 / 0x1000_0000_0000,
    {
        let v = self.0;
        assert((v >> 44u32) & (((1u64 << 20u32) - 1) as u64) == v / 0x1000_0000_0000)
            by (bit_vector);
        get(EXPR_BVAR_RANGE_SHIFT, EXPR_BVAR_RANGE_WIDTH, self.0) as u32
    }

    /// 1 when the expression has a free variable (bit 40), else 0.
    pub fn has_fvar(self) -> (r: u8)
        ensures
            r == (if get_bit_spec(EXPR_HAS_FVAR_SHIFT, self.0) {
                1u8
            } else {
                0u8
            }),
    {
        if get_bit(EXPR_HAS_FVAR_SHIFT, self.0) {
            1
        } else {
            0
        }
    }

    /// 1 when the expression has an expression metavariable (bit 41), else 0.
    pub fn has_expr_mvar(self) -> (r: u8)
        ensures
            r == (if get_bit_spec(EXPR_HAS_EXPR_MVAR_SHIFT, self.0) {
                1u8
            } else {
                0u8
            }),
    {
        if get_bit(EXPR_HAS_EXPR_MVAR_SHIFT, self.0) {
            1
        } else {
            0
        }
    }

    /// 1 when the expression has a universe metavariable (bit 42), else 0.
    pub fn has_level_mvar(self) -> (r: u8)
        ensures
            r == (if get_bit_spec(EXPR_HAS_LEVEL_MVAR_SHIFT, self.0) {
                1u8
            } else {
                0u8
            }),
    {
        if get_bit(EXPR_HAS_LEVEL_MVAR_SHIFT, self.0) {
            1
        } else {
            0
        }
    }

    /// 1 when the expression has a universe parameter (bit 43), else 0.
    pub fn has_level_param(self) -> (r: u8)
        ensures
            r == (if get_bit_spec(EXPR_HAS_LEVEL_PARAM_SHIFT, self.0) {
                1u8
            } else {
                0u8
            }),
    {
        if get_bit(EXPR_HAS_LEVEL_PARAM_SHIFT, self.0) {
            1
        } else {
            0
        }
    }

    /// The four flag bits, in place.
    pub fn flags(self) -> (r: u64)
        ensures
            r == self.0 & EXPR_FLAGS_MASK,
    {
        self.0 & EXPR_FLAGS_MASK
    }

    /// The expression word of `hash`, `range`, `depth` and the flag bits of
    /// `flags`.
    pub fn pack_with_flags(hash: u32, range: u32, depth: u32, flags: u64) -> (r: u64)
        ensures
            r == expr_pack_spec(hash, range, depth, flags),
    {
        let mut v = 0u64;
        v = crate::bitfield::set(EXPR_HASH_SHIFT, EXPR_HASH_WIDTH, v, hash as u64);
        v = crate::bitfield::set(EXPR_APPROX_DEPTH_SHIFT, EXPR_APPROX_DEPTH_WIDTH, v, depth as u64);
        v = crate::bitfield::set(EXPR_BVAR_RANGE_SHIFT, EXPR_BVAR_RANGE_WIDTH, v, range as u64);
        let r = v | (flags & EXPR_FLAGS_MASK);
        proof {
            let h = hash as u64;
            let d = depth as u64;
            let g = range as u64;
            assert(h <= 0xffff_ffff);
            assert({
                let v0 = (0u64 & !((((1u64 << 32u32) - 1) as u64) << 0u32)) | ((h & (((1u64
                    << 32u32) - 1) as u64)) << 0u32);
                let v1 = (v0 & !((((1u64 << 8u32) - 1) as u64) << 32u32)) | ((d & (((1u64
                    << 8u32) - 1) as u64)) << 32u32);
                let v2 = (v1 & !((((1u64 << 20u32) - 1) as u64) << 44u32)) | ((g & (((1u64
                    << 20u32) - 1) as u64)) << 44u32);
                v2 | (flags & 0xf00_0000_0000u64)
            } == h | ((d & 0xffu64) << 32u64) | (flags & 0xf00_0000_0000u64) | ((g & 0xf_ffffu64)
                << 44u64)) by (bit_vector)
                requires
                    h <= 0xffff_ffff,
            ;
        }
        r
    }
}

/// A packed expression word reads back what was packed.
pub proof fn lemma_expr_pack_reads_back(hash: u32, range: u32, depth: u32, flags: u64)
    ensures
        ({
            let w = expr_pack_spec(hash, range, depth, flags);
            &&& w % 0x1_0000_0000 == hash
            &&& (depth <= MAX_APPROX_DEPTH ==> w / 0x1_0000_0000 % 0x100 == depth)
            &&& (range <= MAX_EXPR_BVAR_RANGE ==> w / 0x1000_0000_0000 == range)
            &&& w & EXPR_FLAGS_MASK == flags & EXPR_FLAGS_MASK
        }),
{
    let h = hash as u64;
    let d = depth as u64;
    let g = range as u64;
    assert((h | ((d & 0xffu64) << 32u64) | (flags & 0xf00_0000_0000u64) | ((g & 0xf_ffffu64)
        << 44u64)) % 0x1_0000_0000 == h) by (bit_vector)
        requires
            h <= 0xffff_ffff,
    ;
    assert(d <= 255 ==> (h | ((d & 0xffu64) << 32u64) | (flags & 0xf00_0000_0000u64) | ((g
        & 0xf_ffffu64) << 44u64)) / 0x1_0000_0000 % 0x100 == d) by (bit_vector)
        requires
            h <= 0xffff_ffff,
    ;
    assert(g <= 1048575 ==> (h | ((d & 0xffu64) << 32u64) | (flags & 0xf00_0000_0000u64) | ((g
        & 0xf_ffffu64) << 44u64)) / 0x1000_0000_0000 == g) by (bit_vector)
        requires
            h <= 0xffff_ffff,
    ;
    assert((h | ((d & 0xffu64) << 32u64) | (flags & 0xf00_0000_0000u64) | ((g & 0xf_ffffu64)
        << 44u64)) & 0xf00_0000_0000u64 == flags & 0xf00_0000_0000u64) by (bit_vector)
        requires
            h <= 0xffff_ffff,
    ;
}

/// The data word of a new level: `hash` (its low 32 bits), the depth (a
/// Lean natural number, a boxed scalar no larger than `MAX_LEVEL_DEPTH`) and
/// the two flags (set when not 0).
pub fn lean_level_mk_data_rs(hash: u64, depth: LeanPtr, has_mvar: u8, has_param: u8) -> (r: u64)
    requires
        is_scalar_spec(depth.0),
        unbox_spec(depth.0) <= MAX_LEVEL_DEPTH,
    ensures
        r == level_pack_spec(hash as u32, unbox_spec(depth.0) as u32, has_mvar != 0, has_param != 0),
{
    let d = depth.unbox_scalar();
    LevelData::pack(hash as u32, d as u32, has_mvar != 0, has_param != 0)
}

/// The flag bits of an expression word for the four flags (each set when
/// not 0).
pub open spec fn expr_flags_spec(has_fvar: u8, has_expr_mvar: u8, has_level_mvar: u8, has_level_param: u8) -> u64 {
    (if has_fvar != 0 {
        1u64 << 40u64
    } else {
        0u64
    }) | (if has_expr_mvar != 0 {
        1u64 << 41u64
    } else {
        0u64
    }) | (if has_level_mvar != 0 {
        1u64 << 42u64
    } else {
        0u64
    }) | (if has_level_param != 0 {
        1u64 << 43u64
    } else {
        0u64
    })
}

/// Each flag of a new expression word is set exactly when it was given as
/// not 0, at the bit that `ExprData` reads it from, and the hash, depth and
/// range read back as given.
pub proof fn lemma_expr_mk_data_reads_back(
    hash: u32,
    range: u32,
    depth: u32,
    has_fvar: u8,
    has_expr_mvar: u8,
    has_level_mvar: u8,
    has_level_param: u8,
)
    requires
        depth <= MAX_APPROX_DEPTH,
        range <= MAX_EXPR_BVAR_RANGE,
    ensures
        ({
            let w = expr_pack_spec(
                hash,
                range,
                depth,
                expr_flags_spec(has_fvar, has_expr_mvar, has_level_mvar, has_level_param),
            );
            &&& get_bit_spec(EXPR_HAS_FVAR_SHIFT, w) == (has_fvar != 0)
            &&& get_bit_spec(EXPR_HAS_EXPR_MVAR_SHIFT, w) == (has_expr_mvar != 0)
            &&& get_bit_spec(EXPR_HAS_LEVEL_MVAR_SHIFT, w) == (has_level_mvar != 0)
            &&& get_bit_spec(EXPR_HAS_LEVEL_PARAM_SHIFT, w) == (has_level_param != 0)
            &&& get_spec(EXPR_HASH_SHIFT, EXPR_HASH_WIDTH, w) == hash
            &&& get_spec(EXPR_APPROX_DEPTH_SHIFT, EXPR_APPROX_DEPTH_WIDTH, w) == depth
            &&& get_spec(EXPR_BVAR_RANGE_SHIFT, EXPR_BVAR_RANGE_WIDTH, w) == range
        }),
{
    let h = hash as u64;
    let d = depth as u64;
    let g = range as u64;
    let fl = expr_flags_spec(has_fvar, has_expr_mvar, has_level_mvar, has_level_param);
    let a: u64 = if has_fvar != 0 { 1 } else { 0 };
    let b: u64 = if has_expr_mvar != 0 { 1 } else { 0 };
    let c: u64 = if has_level_mvar != 0 { 1 } else { 0 };
    let e: u64 = if has_level_param != 0 { 1 } else { 0 };
    assert(fl == (a << 40u64) | (b << 41u64) | (c << 42u64) | (e << 43u64)) by {
        assert((0u64 << 40u64) == 0u64) by (bit_vector);
        assert((0u64 << 41u64) == 0u64) by (bit_vector);
        assert((0u64 << 42u64) == 0u64) by (bit_vector);
        assert((0u64 << 43u64) == 0u64) by (bit_vector);
    }
    let w = h | ((d & 0xffu64) << 32u64) | (fl & 0xf00_0000_0000u64) | ((g & 0xf_ffffu64) << 44u64);
    assert(w == expr_pack_spec(hash, range, depth, fl));
    assert({
        let w2 = h | ((d & 0xffu64) << 32u64) | (((a << 40u64) | (b << 41u64) | (c << 42u64) | (e
            << 43u64)) & 0xf00_0000_0000u64) | ((g & 0xf_ffffu64) << 44u64);
        &&& ((w2 >> 40u64) & 1u64 != 0) == (a == 1)
        &&& ((w2 >> 41u64) & 1u64 != 0) == (b == 1)
        &&& ((w2 >> 42u64) & 1u64 != 0) == (c == 1)
        &&& ((w2 >> 43u64) & 1u64 != 0) == (e == 1)
        &&& (w2 >> 0u64) & 0xffff_ffffu64 == h
        &&& (w2 >> 32u64) & 0xffu64 == d
        &&& (w2 >> 44u64) & 0xf_ffffu64 == g
    }) by (bit_vector)
        requires
            h <= 0xffff_ffff,
            d <= 255,
            g <= 1048575,
            a <= 1,
            b <= 1,
            c <= 1,
            e <= 1,
    ;
    assert(mask_spec(32) == 0xffff_ffffu64) by (bit_vector);
    assert(mask_spec(8) == 0xffu64) by (bit_vector);
    assert(mask_spec(20) == 0xf_ffffu64) by (bit_vector);
}

/// The data word of a new expression: `hash` (its low 32 bits), the loose
/// bound variable range (a Lean natural number, a boxed scalar no larger
/// than `MAX_EXPR_BVAR_RANGE`), the approximate depth (at most 255) and the
/// four flags.
pub fn lean_expr_mk_data_rs(
    hash: u64,
    bvar_range: LeanPtr,
    approx_depth: u32,
    has_fvar: u8,
    has_expr_mvar: u8,
    has_level_mvar: u8,
    has_level_param: u8,
) -> (r: u64)
    requires
        is_scalar_spec(bvar_range.0),
        unbox_spec(bvar_range.0) <= MAX_EXPR_BVAR_RANGE,
    ensures
        r == expr_pack_spec(
            hash as u32,
            unbox_spec(bvar_range.0) as u32,
            if approx_depth > MAX_APPROX_DEPTH {
                MAX_APPROX_DEPTH
            } else {
                approx_depth
            },
            expr_flags_spec(has_fvar, has_expr_mvar, has_level_mvar, has_level_param),
        ),
        get_bit_spec(EXPR_HAS_FVAR_SHIFT, r) == (has_fvar != 0),
        get_bit_spec(EXPR_HAS_EXPR_MVAR_SHIFT, r) == (has_expr_mvar != 0),
        get_bit_spec(EXPR_HAS_LEVEL_MVAR_SHIFT, r) == (has_level_mvar != 0),
        get_bit_spec(EXPR_HAS_LEVEL_PARAM_SHIFT, r) == (has_level_param != 0),
        get_spec(EXPR_HASH_SHIFT, EXPR_HASH_WIDTH, r) == hash as u32,
        get_spec(EXPR_BVAR_RANGE_SHIFT, EXPR_BVAR_RANGE_WIDTH, r) == unbox_spec(bvar_range.0),
{
    let depth = if approx_depth > MAX_APPROX_DEPTH {
        MAX_APPROX_DEPTH
    } else {
        approx_depth
    };
    let range = bvar_range.unbox_scalar();
    let f1: u64 = if has_fvar != 0 {
        1u64 << 40u64
    } else {
        0
    };
    let f2: u64 = if has_expr_mvar != 0 {
        1u64 << 41u64
    } else {
        0
    };
    let f3: u64 = if has_level_mvar != 0 {
        1u64 << 42u64
    } else {
        0
    };
    let f4: u64 = if has_level_param != 0 {
        1u64 << 43u64
    } else {
        0
    };
    let flags = f1 | f2 | f3 | f4;
    proof {
        lemma_expr_mk_data_reads_back(
            hash as u32,
            range as u32,
            depth,
            has_fvar,
            has_expr_mvar,
            has_level_mvar,
            has_level_param,
        );
    }
    ExprData::pack_with_flags(hash as u32, range as u32, depth, flags)
}

/// The data word of an application from those of its function and
/// argument: depth one more than the deeper (at most 255), range and flags
/// those of both, and the hash `mixed_hash` that Lean's hash mixer gives for
/// the two words (its low 32 bits).
pub fn lean_expr_mk_app_data_rs(f_data: u64, a_data: u64, mixed_hash: u64) -> (r: u64)
    ensures
        r == expr_pack_spec(
            mixed_hash as u32,
            if f_data / 0x1000_0000_0000 >= a_data / 0x1000_0000_0000 {
                (f_data / 0x1000_0000_0000) as u32
            } else {
                (a_data / 0x1000_0000_0000) as u32
            },
            if f_data / 0x1_0000_0000 % 0x100 >= a_data / 0x1_0000_0000 % 0x100 {
                if f_data / 0x1_0000_0000 % 0x100 + 1 > MAX_APPROX_DEPTH {
                    MAX_APPROX_DEPTH
                } else {
                    (f_data / 0x1_0000_0000 % 0x100 + 1) as u32
                }
            } else {
                if a_data / 0x1_0000_0000 % 0x100 + 1 > MAX_APPROX_DEPTH {
                    MAX_APPROX_DEPTH
                } else {
                    (a_data / 0x1_0000_0000 % 0x100 + 1) as u32
                }
            },
            (f_data | a_data) & EXPR_FLAGS_MASK,
        ),
{
    let f = ExprData(f_data);
    let a = ExprData(a_data);
    let fd = f.approx_depth();
    let ad = a.approx_depth();
    let mut depth = if fd >= ad {
        fd + 1
    } else {
        ad + 1
    };
    if depth > MAX_APPROX_DEPTH {
        depth = MAX_APPROX_DEPTH;
    }
    let fr = f.loose_bvar_range();
    let ar = a.loose_bvar_range();
    let range = if fr >= ar {
        fr
    } else {
        ar
    };
    let flags = f.flags() | a.flags();
    proof {
        assert((f_data & 0xf00_0000_0000u64) | (a_data & 0xf00_0000_0000u64) == (f_data | a_data)
            & 0xf00_0000_0000u64) by (bit_vector);
    }
    ExprData::pack_with_flags(mixed_hash as u32, range, depth, flags)
}

/// The tag of a lambda object.
pub const EXPR_LAM_TAG: u8 = 6;
/// The tag of a forall object.
pub const EXPR_FORALL_TAG: u8 = 7;
/// The tag of a let object.
pub const EXPR_LET_TAG: u8 = 8;
/// The number of bytes of the data word, which comes first in the scalar
/// area of an expression object.
pub const EXPR_DATA_BYTES: usize = 8;

/// The hash of the level `o` (2221 for null or a boxed scalar).
pub fn lean_level_hash_rs(o: &LeanRef) -> (r: u32)
    requires
        has_data_word(*o),
    ensures
        r == (match data_for_spec(*o) {
            None => 2221,
            Some(d) => d % 0x1_0000_0000,
        }),
{
    match data_for(o) {
        None => 2221,
        Some(data) => LevelData(data).hash(),
    }
}

/// The depth of the level `o` (0 for null or a boxed scalar).
pub fn lean_level_depth_rs(o: &LeanRef) -> (r: u32)
    requires
        has_data_word(*o),
    ensures
        r == (match data_for_spec(*o) {
            None => 0,
            Some(d) => d / 0x100_0000_0000,
        }),
{
    match data_for(o) {
        None => 0,
        Some(data) => LevelData(data).depth(),
    }
}

/// 1 when the level `o` has a universe metavariable, else 0.
pub fn lean_level_has_mvar_rs(o: &LeanRef) -> (r: u8)
    requires
        has_data_word(*o),
    ensures
        r == (match data_for_spec(*o) {
            Some(d) => if get_bit_spec(LEVEL_HAS_MVAR_SHIFT, d) {
                1u8
            } else {
                0u8
            },
            None => 0u8,
        }),
{
    match data_for(o) {
        None => 0,
        Some(data) => LevelData(data).has_mvar(),
    }
}

/// 1 when the level `o` has a universe parameter, else 0.
pub fn lean_level_has_param_rs(o: &LeanRef) -> (r: u8)
    requires
        has_data_word(*o),
    ensures
        r == (match data_for_spec(*o) {
            Some(d) => if get_bit_spec(LEVEL_HAS_PARAM_SHIFT, d) {
                1u8
            } else {
                0u8
            },
            None => 0u8,
        }),
{
    match data_for(o) {
        None => 0,
        Some(data) => LevelData(data).has_param(),
    }
}

/// The hash of the expression `o` (0 for null or a boxed scalar).
pub fn lean_expr_hash_rs(o: &LeanRef) -> (r: u64)
    requires
        has_data_word(*o),
    ensures
        r == (match data_for_spec(*o) {
            None => 0,
            Some(d) => d % 0x1_0000_0000,
        }),
{
    match data_for(o) {
        None => 0,
        Some(data) => ExprData(data).hash() as u64,
    }
}

/// 1 when the expression `o` has a free variable, else 0.
pub fn lean_expr_has_fvar_rs(o: &LeanRef) -> (r: u8)
    requires
        has_data_word(*o),
    ensures
        r == (match data_for_spec(*o) {
            Some(d) => if get_bit_spec(EXPR_HAS_FVAR_SHIFT, d) {
                1u8
            } else {
                0u8
            },
            None => 0u8,
        }),
{
    match data_for(o) {
        None => 0,
        Some(data) => ExprData(data).has_fvar(),
    }
}

/// 1 when the expression `o` has an expression metavariable, else 0.
pub fn lean_expr_has_expr_mvar_rs(o: &LeanRef) -> (r: u8)
    requires
        has_data_word(*o),
    ensures
        r == (match data_for_spec(*o) {
            Some(d) => if get_bit_spec(EXPR_HAS_EXPR_MVAR_SHIFT, d) {
                1u8
            } else {
                0u8
            },
            None => 0u8,
        }),
{
    match data_for(o) {
        None => 0,
        Some(data) => ExprData(data).has_expr_mvar(),
    }
}

/// 1 when the expression `o` has a universe metavariable, else 0.
pub fn lean_expr_has_level_mvar_rs(o: &LeanRef) -> (r: u8)
    requires
        has_data_word(*o),
    ensures
        r == (match data_for_spec(*o) {
            Some(d) => if get_bit_spec(EXPR_HAS_LEVEL_MVAR_SHIFT, d) {
                1u8
            } else {
                0u8
            },
            None => 0u8,
        }),
{
    match data_for(o) {
        None => 0,
        Some(data) => ExprData(data).has_level_mvar(),
    }
}

/// 1 when the expression `o` has a universe parameter, else 0.
pub fn lean_expr_has_level_param_rs(o: &LeanRef) -> (r: u8)
    requires
        has_data_word(*o),
    ensures
        r == (match data_for_spec(*o) {
            Some(d) => if get_bit_spec(EXPR_HAS_LEVEL_PARAM_SHIFT, d) {
                1u8
            } else {
                0u8
            },
            None => 0u8,
        }),
{
    match data_for(o) {
        None => 0,
        Some(data) => ExprData(data).has_level_param(),
    }
}

/// The loose bound variable range of the expression `o` (0 for null or a
/// boxed scalar).
pub fn lean_expr_loose_bvar_range_rs(o: &LeanRef) -> (r: u32)
    requires
        has_data_word(*o),
    ensures
        r == (match data_for_spec(*o) {
            None => 0,
            Some(d) => d / 0x1000_0000_0000,
        }),
{
    match data_for(o) {
        None => 0,
        Some(data) => ExprData(data).loose_bvar_range(),
    }
}

/// The binder annotation byte of the lambda or forall `o` (the byte after
/// its data word); 0 for anything else.
pub fn lean_expr_binder_info_rs(o: &LeanRef) -> (r: u8)
    requires
        *o is Obj && (o->Obj_0.header.tag == EXPR_LAM_TAG || o->Obj_0.header.tag
            == EXPR_FORALL_TAG) ==> o->Obj_0.scalars@.len() > EXPR_DATA_BYTES,
    ensures
        r == (match *o {
            LeanRef::Obj(b) => if b.header.tag == EXPR_LAM_TAG || b.header.tag == EXPR_FORALL_TAG {
                b.scalars@[EXPR_DATA_BYTES as int]
            } else {
                0u8
            },
            _ => 0u8,
        }),
{
    let obj = match LeanObj::new(o) {
        Some(x) => x,
        None => {
            return 0;
        },
    };
    if obj.is_scalar() {
        return 0;
    }
    let tag = obj.ctor_tag();
    if tag != EXPR_LAM_TAG && tag != EXPR_FORALL_TAG {
        return 0;
    }
    obj.ctor_scalar_get_u8(EXPR_DATA_BYTES)
}

/// The "have" flag byte of the let `o` (the byte after its data word); 0
/// for anything else.
pub fn lean_expr_is_have_rs(o: &LeanRef) -> (r: u8)
    requires
        *o is Obj && o->Obj_0.header.tag == EXPR_LET_TAG ==> o->Obj_0.scalars@.len()
            > EXPR_DATA_BYTES,
    ensures
        r == (match *o {
            LeanRef::Obj(b) => if b.header.tag == EXPR_LET_TAG {
                b.scalars@[EXPR_DATA_BYTES as int]
            } else {
                0u8
            },
            _ => 0u8,
        }),
{
    let obj = match LeanObj::new(o) {
        Some(x) => x,
        None => {
            return 0;
        },
    };
    if obj.is_scalar() {
        return 0;
    }
    if obj.ctor_tag() != EXPR_LET_TAG {
        return 0;
    }
    obj.ctor_scalar_get_u8(EXPR_DATA_BYTES)
}

} // verus!
