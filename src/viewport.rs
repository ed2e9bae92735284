//! The output frame: the viewport rectangle from the drawing's limits, the
//! vertical flip into output space, and the whole conversion of a drawing.
use vstd::prelude::*;
use crate::transform::{Step, Transform};
use crate::drawing::{Drawing, Header};
use crate::flatten::{Diagnostic, FlattenError, LinePrimitive, diag_views, flat_list, flatten, prim_views};

verus! {

/// The output rectangle.
#[derive(Clone, Copy, Debug, PartialEq, Eq, Structural)]
pub struct Viewport {
    pub origin_x: i64,
    pub origin_y: i64,
    pub width: i64,
    pub height: i64,
}

#[derive(Clone, Copy, Debug, PartialEq, Eq, Structural)]
pub enum ViewportError {
    /// The limits enclose no area: zero or negative width or height.
    Degenerate,
    /// A limit lies outside the coordinate range.
    OutOfRange,
}

/// The viewport spanned by the header's limits, and the transform into
/// output space: `y' = min_y + max_y - y`, which is `2 min_y + height - y`.
pub open spec fn viewport_of(h: Header) -> Result<(Viewport, Seq<Step>), ViewportError> {
    let lo = h.minimum_drawing_limits;
    let hi = h.maximum_drawing_limits;
    if !(lo.in_range() && hi.in_range()) {
        Err(ViewportError::OutOfRange)
    } else if hi.x - lo.x <= 0 || hi.y - lo.y <= 0 {
        Err(ViewportError::Degenerate)
    } else {
        Ok(
            (
                Viewport {
                    origin_x: lo.x,
                    origin_y: lo.y,
                    width: (hi.x - lo.x) as i64,
                    height: (hi.y - lo.y) as i64,
                },
                seq![Step::FlipY { axis: (lo.y + hi.y) as i64 }],
            ),
        )
    }
}

/// Derives the viewport and the root transform from the drawing's limits.
pub fn compute_viewport(h: &Header) -> (r: Result<(Viewport, Transform), ViewportError>)
    ensures
        match viewport_of(*h) {
            Ok((v, s)) => r matches Ok((v2, t)) && v2 == v && t@ == s,
            Err(e) => r matches Err(x) && x == e,
        },
{
    let lo = h.minimum_drawing_limits;
    let hi = h.maximum_drawing_limits;
    if !(lo.in_range_exec() && hi.in_range_exec()) {
        return Err(ViewportError::OutOfRange);
    }
    let width = hi.x - lo.x;
    let height = hi.y - lo.y;
    if width <= 0 || height <= 0 {
        return Err(ViewportError::Degenerate);
    }
    let v = Viewport { origin_x: lo.x, origin_y: lo.y, width, height };
    Ok((v, Transform::flip_y(lo.y + hi.y)))
}

/// A converted drawing.
#[derive(Debug)]
pub struct Conversion {
    pub viewport: Viewport,
    pub primitives: Vec<LinePrimitive>,
    pub diagnostics: Vec<Diagnostic>,
}

/// A failure that aborts the conversion.
#[derive(Clone, Copy, Debug, PartialEq, Eq, Structural)]
pub enum ConvertError {
    Viewport(ViewportError),
    Flatten(FlattenError),
}

/// Converts a drawing: its viewport, then its top-level entities flattened
/// under the viewport's flip.
pub fn convert(d: &Drawing) -> (r: Result<Conversion, ConvertError>)
    ensures
        match viewport_of(d.header) {
            Err(e) => r == Err::<Conversion, ConvertError>(ConvertError::Viewport(e)),
            Ok((v, s)) => match flat_list(d.blocks@, d.entities@, s, Seq::empty()) {
                Ok((ps, ds)) => r matches Ok(c) && c.viewport == v && prim_views(c.primitives@) == ps
                    && diag_views(c.diagnostics@) == ds,
                Err(e) => r == Err::<Conversion, ConvertError>(ConvertError::Flatten(e)),
            },
        },
{
    let (viewport, root) = match compute_viewport(&d.header) {
        Ok(x) => x,
        Err(e) => {
            return Err(ConvertError::Viewport(e));
        },
    };
    match flatten(d, &root) {
        Ok((primitives, diagnostics)) => Ok(Conversion { viewport, primitives, diagnostics }),
        Err(e) => Err(ConvertError::Flatten(e)),
    }
}

} // verus!
