//! Classification of damped-spring motion, shared with the animation layer.
//! The spring simulation itself works on floating-point positions and
//! velocities and lives with the rendering shell; only the discrete
//! classification of its solution belongs to the core.

use vstd::prelude::*;

verus! {

/// The kind of solution a damped spring settles into, decided by the sign of
/// the discriminant of its characteristic equation.
pub enum SpringType {
    /// Returns to rest in the shortest possible time, without bouncing.
    CriticallyDamped,
    /// Bounces around its rest position before settling.
    UnderDamped,
    /// Returns to rest without bouncing, but slower than a critically damped
    /// spring.
    OverDamped,
}

} // verus!
