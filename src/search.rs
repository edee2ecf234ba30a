//! Options of an atlas run, and the arithmetic of the search for an atlas size:
//! how many bins to offer the packer and how a candidate size grows.

use vstd::prelude::*;

verus! {

/// A growth factor `numer / denom`, kept as a fraction so that each step is
/// exact integer arithmetic.
#[derive(Debug, Clone, Copy, PartialEq, Eq, Structural)]
pub struct StepFactor {
    pub numer: u32,
    pub denom: u32,
}

/// Options passed to the atlassing function.
#[derive(Debug, Clone, Copy, PartialEq, Eq, Structural)]
pub struct AtlasOptions {
    /// The width of resulting atlantes.
    pub width: u32,
    /// The height of resulting atlantes.
    pub height: u32,
    /// The margin to add around every image by repeating the outer pixels.
    pub margin: u32,
    /// The maximum amount of atlas textures to create from the supplied images.
    pub max_atlantes: u32,
    /// If set, the search starts at the size of the largest padded image and
    /// grows by this factor until the images fit; width and height then only
    /// act as upper bounds.
    pub try_smaller: Option<StepFactor>,
    /// If enabled, each atlas is cut down to the part that its images use.
    pub cut_down: bool,
}

/// `ceil(2 * n * a / b)`, or 0 where `b` is 0.
pub open spec fn ceil_share(n: int, a: int, b: int) -> int {
    if b == 0 {
        0
    } else {
        (2 * n * a + b - 1) / b
    }
}

/// An upper bound on the atlases that `n` images need, the largest of which
/// is `mw` by `mh`, in atlases of `ow` by `oh`.
pub open spec fn bin_bound(n: int, mw: int, mh: int, ow: int, oh: int) -> int {
    let a = ceil_share(n, mh, oh);
    let b = ceil_share(n, mw, ow);
    if a >= b {
        a
    } else {
        b
    }
}

/// The number of bins offered to the packer: the bound, but at most `max_atlantes`.
pub open spec fn usable_bins(n: int, mw: int, mh: int, o: AtlasOptions) -> int {
    let b = bin_bound(n, mw, mh, o.width as int, o.height as int);
    if b <= o.max_atlantes {
        b
    } else {
        o.max_atlantes as int
    }
}

fn ceil_share_exec(n: usize, a: u32, b: u32) -> (r: u128)
    requires
        a <= b,
    ensures
        r == ceil_share(n as int, a as int, b as int),
        r <= 2 * n,
{
    if b == 0 {
        0
    } else {
        proof {
            assert(2 * (n as int) * (a as int) <= 2 * (usize::MAX as int) * (u32::MAX as int)) by (nonlinear_arith)
                requires
                    n <= usize::MAX,
                    a <= u32::MAX,
            ;
        }
        let t = 2 * (n as u128) * (a as u128);
        proof {
            assert(2 * (n as int) * (a as int) <= 2 * (n as int) * (b as int)) by (nonlinear_arith)
                requires
                    a <= b,
            ;
            assert((2 * (n as int) * (a as int) + b - 1) / (b as int) <= 2 * (n as int)) by (nonlinear_arith)
                requires
                    2 * (n as int) * (a as int) <= 2 * (n as int) * (b as int),
                    b > 0,
            ;
        }
        (t + b as u128 - 1) / (b as u128)
    }
}

/// How many bins to offer the packer for `n` images whose largest padded
/// sizes are `mw` and `mh`.
pub fn bin_count(n: usize, mw: u32, mh: u32, options: &AtlasOptions) -> (r: u32)
    requires
        mw <= options.width,
        mh <= options.height,
    ensures
        r == usable_bins(n as int, mw as int, mh as int, *options),
{
    let a = ceil_share_exec(n, mh, options.height);
    let b = ceil_share_exec(n, mw, options.width);
    let bound = if a >= b {
        a
    } else {
        b
    };
    if bound <= options.max_atlantes as u128 {
        bound as u32
    } else {
        options.max_atlantes
    }
}

/// The next candidate after `cur` on the way to `cap`: `ceil(cur * f)`, but at
/// least one more than `cur` and at most `cap`.
pub open spec fn grown(cur: int, cap: int, f: StepFactor) -> int {
    let step = if f.denom == 0 {
        cur
    } else {
        (cur * f.numer + f.denom - 1) / (f.denom as int)
    };
    let up = if step > cur {
        step
    } else {
        cur + 1
    };
    if up <= cap {
        up
    } else {
        cap
    }
}

/// Grows one side of the candidate atlas size.
pub fn grow(cur: u32, cap: u32, f: StepFactor) -> (r: u32)
    requires
        cur < cap,
    ensures
        r == grown(cur as int, cap as int, f),
        cur < r <= cap,
{
    let step: u128 = if f.denom == 0 {
        cur as u128
    } else {
        proof {
            assert((cur as int) * (f.numer as int) <= (u32::MAX as int) * (u32::MAX as int)) by (nonlinear_arith)
                requires
                    cur <= u32::MAX,
                    f.numer <= u32::MAX,
            ;
        }
        ((cur as u128) * (f.numer as u128) + f.denom as u128 - 1) / (f.denom as u128)
    };
    let up: u128 = if step > cur as u128 {
        step
    } else {
        cur as u128 + 1
    };
    if up <= cap as u128 {
        up as u32
    } else {
        cap
    }
}

/// The next candidate for one side: grown while below the cap, else kept.
pub open spec fn next_side(cur: int, cap: int, f: StepFactor) -> int {
    if cur < cap {
        grown(cur, cap, f)
    } else {
        cur
    }
}

/// The largest width (`horizontal`) or height among `sizes`, 0 where none.
pub open spec fn max_side(sizes: Seq<(u32, u32)>, horizontal: bool) -> int
    decreases sizes.len(),
{
    if sizes.len() == 0 {
        0
    } else {
        let rest = max_side(sizes.drop_last(), horizontal);
        let v = if horizontal {
            sizes.last().0 as int
        } else {
            sizes.last().1 as int
        };
        if v > rest {
            v
        } else {
            rest
        }
    }
}

} // verus!
