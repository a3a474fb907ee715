//! Human-readable byte counts on decimal (power-of-1000) unit boundaries.

use vstd::prelude::*;

use crate::decimal::{format_scaled, spec_dec, spec_scaled, u64_to_string};

verus! {

pub const KB: u64 = 1000;

pub const MB: u64 = 1000000;

pub const GB: u64 = 1000000000;

/// A byte count rendered against decimal unit thresholds: the largest unit
/// whose threshold the value reaches, with a truncated two-digit fraction
/// when the value is not a whole multiple of the unit.
pub open spec fn spec_format_decimal(v: int) -> Seq<char> {
    if v >= GB {
        spec_scaled(v, GB as int, seq!['G', 'B'])
    } else if v >= MB {
        spec_scaled(v, MB as int, seq!['M', 'B'])
    } else if v >= KB {
        spec_scaled(v, KB as int, seq!['K', 'B'])
    } else {
        spec_dec(v) + seq![' ', 'B']
    }
}

/// A byte count, displayed against decimal (1000-based) unit scales.
#[derive(Debug, Clone, Copy)]
pub struct Byteable {
    pub val: u64,
}

impl Byteable {
    /// Renders the byte count with its unit, for example `"999.99 KB"`.
    pub fn to_string(&self) -> (r: String)
        ensures
            r@ == spec_format_decimal(self.val as int),
    {
        proof {
            reveal_strlit("GB");
            reveal_strlit("MB");
            reveal_strlit("KB");
            reveal_strlit(" B");
        }
        if self.val >= GB {
            let r = format_scaled(self.val, GB, "GB");
            proof {
                assert(r@ =~= spec_format_decimal(self.val as int));
            }
            r
        } else if self.val >= MB {
            let r = format_scaled(self.val, MB, "MB");
            proof {
                assert(r@ =~= spec_format_decimal(self.val as int));
            }
            r
        } else if self.val >= KB {
            let r = format_scaled(self.val, KB, "KB");
            proof {
                assert(r@ =~= spec_format_decimal(self.val as int));
            }
            r
        } else {
            let mut r = u64_to_string(self.val);
            r.append(" B");
            proof {
                assert(r@ =~= spec_format_decimal(self.val as int));
            }
            r
        }
    }
}

/// Law: a byte count below the smallest unit threshold is always rendered
/// as its bare digits followed by `" B"`, with no decimals.
pub proof fn lemma_small_count_renders_as_bytes(v: int)
    requires
        0 <= v < 1000,
    ensures
        spec_format_decimal(v) == spec_dec(v) + seq![' ', 'B'],
{
}

} // verus!
