use vstd::prelude::*;
use crate::error::{Result, config_error};

pub mod pm;
pub mod parks_mcclellan;

verus! {

/// Finite impulse response filter prototype shapes.
#[derive(Debug, Clone, Copy, PartialEq, Eq, Structural)]
pub enum FirFilterShape {
    /// Nyquist Kaiser filter
    Kaiser,
    /// Parks-McClellan filter
    Pm,
    /// Raised-cosine filter
    Rcos,
    /// Flipped exponential filter
    Fexp,
    /// Flipped hyperbolic secant filter
    Fsech,
    /// Flipped arc-hyperbolic secant filter
    Farcsech,
    /// Root-Nyquist Kaiser (approximate optimum)
    Arkaiser,
    /// Root-Nyquist Kaiser (true optimum)
    Rkaiser,
    /// Root raised-cosine filter
    Rrcos,
    /// Harris-Moerder-3 filter
    Hm3,
    /// GMSK transmit filter
    Gmsktx,
    /// GMSK receive filter
    Gmskrx,
    /// Root flipped exponential filter
    Rfexp,
    /// Root flipped hyperbolic secant filter
    Rfsech,
    /// Root flipped arc-hyperbolic secant filter
    Rfarcsech,
}

/// Short and long names of a filter shape.
#[derive(Debug, Clone, Copy, PartialEq)]
pub struct FilterInfo {
    short_name: &'static str,
    long_name: &'static str,
}

/// Number of filter shapes.
pub const NUM_FILTER_SHAPES: usize = 15;

/// Position of `shape` in the table of shapes.
pub open spec fn shape_index(shape: FirFilterShape) -> int {
    match shape {
        FirFilterShape::Kaiser => 0,
        FirFilterShape::Pm => 1,
        FirFilterShape::Rcos => 2,
        FirFilterShape::Fexp => 3,
        FirFilterShape::Fsech => 4,
        FirFilterShape::Farcsech => 5,
        FirFilterShape::Arkaiser => 6,
        FirFilterShape::Rkaiser => 7,
        FirFilterShape::Rrcos => 8,
        FirFilterShape::Hm3 => 9,
        FirFilterShape::Gmsktx => 10,
        FirFilterShape::Gmskrx => 11,
        FirFilterShape::Rfexp => 12,
        FirFilterShape::Rfsech => 13,
        FirFilterShape::Rfarcsech => 14,
    }
}

/// The shape at position `i` of the table of shapes.
pub open spec fn shape_at_index(i: int) -> FirFilterShape {
    if i == 0 { FirFilterShape::Kaiser }
    else if i == 1 { FirFilterShape::Pm }
    else if i == 2 { FirFilterShape::Rcos }
    else if i == 3 { FirFilterShape::Fexp }
    else if i == 4 { FirFilterShape::Fsech }
    else if i == 5 { FirFilterShape::Farcsech }
    else if i == 6 { FirFilterShape::Arkaiser }
    else if i == 7 { FirFilterShape::Rkaiser }
    else if i == 8 { FirFilterShape::Rrcos }
    else if i == 9 { FirFilterShape::Hm3 }
    else if i == 10 { FirFilterShape::Gmsktx }
    else if i == 11 { FirFilterShape::Gmskrx }
    else if i == 12 { FirFilterShape::Rfexp }
    else if i == 13 { FirFilterShape::Rfsech }
    else { FirFilterShape::Rfarcsech }
}

/// The name `from_str` recognizes for `shape`.
pub open spec fn shape_name(shape: FirFilterShape) -> Seq<char> {
    match shape {
        FirFilterShape::Kaiser => "kaiser"@,
        FirFilterShape::Pm => "pm"@,
        FirFilterShape::Rcos => "rcos"@,
        FirFilterShape::Fexp => "fexp"@,
        FirFilterShape::Fsech => "fsech"@,
        FirFilterShape::Farcsech => "farcsech"@,
        FirFilterShape::Arkaiser => "arkaiser"@,
        FirFilterShape::Rkaiser => "rkaiser"@,
        FirFilterShape::Rrcos => "rrcos"@,
        FirFilterShape::Hm3 => "hm3"@,
        FirFilterShape::Gmsktx => "gmsktx"@,
        FirFilterShape::Gmskrx => "gmskrx"@,
        FirFilterShape::Rfexp => "rfexp"@,
        FirFilterShape::Rfsech => "rfsech"@,
        FirFilterShape::Rfarcsech => "rfarcsech"@,
    }
}

/// The table of shapes lists every shape once, in declaration order.
pub proof fn lemma_shape_index(shape: FirFilterShape)
    ensures
        0 <= shape_index(shape) < NUM_FILTER_SHAPES,
        shape_at_index(shape_index(shape)) == shape,
{
}

/// No two shapes share a name.
pub proof fn lemma_shape_names_distinct(a: FirFilterShape, b: FirFilterShape)
    ensures
        shape_name(a) == shape_name(b) ==> a == b,
{
    reveal_strlit("kaiser");
    reveal_strlit("pm");
    reveal_strlit("rcos");
    reveal_strlit("fexp");
    reveal_strlit("fsech");
    reveal_strlit("farcsech");
    reveal_strlit("arkaiser");
    reveal_strlit("rkaiser");
    reveal_strlit("rrcos");
    reveal_strlit("hm3");
    reveal_strlit("gmsktx");
    reveal_strlit("gmskrx");
    reveal_strlit("rfexp");
    reveal_strlit("rfsech");
    reveal_strlit("rfarcsech");
    if shape_name(a) == shape_name(b) {
        assert(shape_name(a).len() == shape_name(b).len());
        assert(shape_name(a)[0] == shape_name(b)[0]);
        assert(shape_name(a)[1] == shape_name(b)[1]);
        if shape_name(a).len() > 4 {
            assert(shape_name(a)[4] == shape_name(b)[4]);
        }
    }
}

/// The short and long names of `shape`.
fn filter_info(shape: FirFilterShape) -> (info: FilterInfo)
    ensures
        info.short_name@ == shape_name(shape),
{
    match shape {
        FirFilterShape::Kaiser => FilterInfo { short_name: "kaiser", long_name: "Nyquist Kaiser filter" },
        FirFilterShape::Pm => FilterInfo { short_name: "pm", long_name: "Parks-McClellan filter" },
        FirFilterShape::Rcos => FilterInfo { short_name: "rcos", long_name: "raised-cosine filter" },
        FirFilterShape::Fexp => FilterInfo { short_name: "fexp", long_name: "flipped exponential" },
        FirFilterShape::Fsech => FilterInfo { short_name: "fsech", long_name: "flipped hyperbolic secant" },
        FirFilterShape::Farcsech => FilterInfo { short_name: "farcsech", long_name: "flipped arc-hyperbolic secant" },
        FirFilterShape::Arkaiser => FilterInfo { short_name: "arkaiser", long_name: "root-Nyquist Kaiser (approximate optimum)" },
        FirFilterShape::Rkaiser => FilterInfo { short_name: "rkaiser", long_name: "root-Nyquist Kaiser (true optimum)" },
        FirFilterShape::Rrcos => FilterInfo { short_name: "rrcos", long_name: "root raised-cosine filter" },
        FirFilterShape::Hm3 => FilterInfo { short_name: "hm3", long_name: "Harris-Moerder-3 filter" },
        FirFilterShape::Gmsktx => FilterInfo { short_name: "gmsktx", long_name: "GMSK transmit filter" },
        FirFilterShape::Gmskrx => FilterInfo { short_name: "gmskrx", long_name: "GMSK receive filter" },
        FirFilterShape::Rfexp => FilterInfo { short_name: "rfexp", long_name: "root flipped exponential" },
        FirFilterShape::Rfsech => FilterInfo { short_name: "rfsech", long_name: "root flipped hyperbolic secant" },
        FirFilterShape::Rfarcsech => FilterInfo { short_name: "rfarcsech", long_name: "root flipped arc-hyperbolic secant" },
    }
}

/// The shape at position `i` of the table of shapes.
fn shape_at(i: usize) -> (shape: FirFilterShape)
    requires
        i < NUM_FILTER_SHAPES,
    ensures
        shape == shape_at_index(i as int),
{
    if i == 0 { FirFilterShape::Kaiser }
    else if i == 1 { FirFilterShape::Pm }
    else if i == 2 { FirFilterShape::Rcos }
    else if i == 3 { FirFilterShape::Fexp }
    else if i == 4 { FirFilterShape::Fsech }
    else if i == 5 { FirFilterShape::Farcsech }
    else if i == 6 { FirFilterShape::Arkaiser }
    else if i == 7 { FirFilterShape::Rkaiser }
    else if i == 8 { FirFilterShape::Rrcos }
    else if i == 9 { FirFilterShape::Hm3 }
    else if i == 10 { FirFilterShape::Gmsktx }
    else if i == 11 { FirFilterShape::Gmskrx }
    else if i == 12 { FirFilterShape::Rfexp }
    else if i == 13 { FirFilterShape::Rfsech }
    else { FirFilterShape::Rfarcsech }
}

impl FirFilterShape {
    /// The shape whose short name is `s` (the first in table order). Fails with
    /// `Config` if no shape has that name.
    pub fn from_str(s: &str) -> (r: Result<FirFilterShape>)
        ensures
            r is Ok <==> exists|shape: FirFilterShape| #[trigger] shape_name(shape) == s@,
            forall|shape: FirFilterShape| #[trigger] shape_name(shape) == s@ ==> r == Ok::<FirFilterShape, crate::error::Error>(shape),
            r matches Ok(shape) ==> shape_name(shape) == s@
                && forall|other: FirFilterShape| shape_index(other) < shape_index(shape)
                    ==> #[trigger] shape_name(other) != s@,
            r is Err ==> r->Err_0 is Config,
    {
        let target = s.to_owned();
        let mut i: usize = 0;
        while i < NUM_FILTER_SHAPES
            invariant
                i <= NUM_FILTER_SHAPES,
                target@ == s@,
                forall|other: FirFilterShape| shape_index(other) < i ==> #[trigger] shape_name(other) != s@,
            decreases NUM_FILTER_SHAPES - i,
        {
            let shape = shape_at(i);
            let info = filter_info(shape);
            if info.short_name.to_owned() == target {
                proof {
                    lemma_shape_index(shape);
                    assert forall|other: FirFilterShape| #[trigger] shape_name(other) == s@ implies other == shape by {
                        lemma_shape_names_distinct(other, shape);
                    }
                }
                return Ok(shape);
            }
            proof {
                assert forall|other: FirFilterShape| shape_index(other) < i + 1 implies #[trigger] shape_name(other) != s@ by {
                    lemma_shape_index(other);
                    if shape_index(other) == i {
                        assert(other == shape);
                    }
                }
            }
            i = i + 1;
        }
        proof {
            assert forall|shape: FirFilterShape| #[trigger] shape_name(shape) != s@ by {
                lemma_shape_index(shape);
            }
        }
        Err(config_error("Unknown filter type"))
    }
}

} // verus!
