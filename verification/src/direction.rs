//! Base writing direction of a line.

use vstd::prelude::*;

verus! {

/// `kCTParagraphStyleSpecifierBaseWritingDirection`.
pub const K_CT_PARAGRAPH_STYLE_SPECIFIER_BASE_WRITING_DIRECTION: u32 = 13;

/// `kCTWritingDirectionLeftToRight`.
pub const CT_WRITING_DIRECTION_LTR: i8 = 0;

/// `kCTWritingDirectionRightToLeft`.
pub const CT_WRITING_DIRECTION_RTL: i8 = 1;

/// A paragraph style setting with a one-byte value.
#[derive(Clone, Copy, Debug, PartialEq, Eq, Structural)]
pub struct ParagraphSetting {
    pub specifier: u32,
    pub value: i8,
}

/// The setting that gives a line its base writing direction.
pub open spec fn direction_setting(rtl: bool) -> ParagraphSetting {
    ParagraphSetting {
        specifier: K_CT_PARAGRAPH_STYLE_SPECIFIER_BASE_WRITING_DIRECTION,
        value: if rtl {
            CT_WRITING_DIRECTION_RTL
        } else {
            CT_WRITING_DIRECTION_LTR
        },
    }
}

/// Whether a run of bidi level `level` goes from right to left: it does at the
/// odd levels.
pub fn is_rtl(level: u8) -> (rtl: bool)
    ensures
        rtl == (level % 2 == 1),
{
    proof {
        assert((level & 1 == 1) == (level % 2 == 1)) by (bit_vector);
    }
    level & 1 == 1
}

/// The setting that gives a line the explicit base writing direction.
pub fn base_direction(rtl: bool) -> (setting: ParagraphSetting)
    ensures
        setting == direction_setting(rtl),
{
    let value: i8 = if rtl {
        CT_WRITING_DIRECTION_RTL
    } else {
        CT_WRITING_DIRECTION_LTR
    };
    ParagraphSetting {
        specifier: K_CT_PARAGRAPH_STYLE_SPECIFIER_BASE_WRITING_DIRECTION,
        value,
    }
}

} // verus!
