//! Fixed-point arithmetic and pool invariant math for weighted and stable
//! automated market makers, computed in integers with explicit rounding.
//!
//! - `u192`, `safe_math`: a 192-bit integer and multiply-divide with a
//!   rounding direction;
//! - `fixed_exp`, `fixed_math`: fixed-point powers and the scalar operations
//!   on values scaled by 10^9;
//! - `base_pool_math`, `weighted_math`, `stable_math`, `swap_fee_math`: the
//!   pool engines;
//! - `layout`, `scaling`, `stable_pool`, `weighted_pool`, `vault`: pool state
//!   read from account data, and swap quotes on it.

pub mod u192;
pub mod safe_math;
pub mod fixed_exp;
pub mod fixed_math;
pub mod error;
pub mod base_pool_math;
pub mod weighted_math;
pub mod stable_math;
pub mod swap_fee_math;
pub mod layout;
pub mod scaling;
pub mod stable_pool;
pub mod weighted_pool;
pub mod vault;
