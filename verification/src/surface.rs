//! A headless desktop surface: the life cycle every display backend
//! follows (bounds, visibility, frames, click regions, destruction),
//! without a window behind it.
use crate::display::{edge_bits, margins_for, Anchor, BackendType, DisplayError, Layer, LayerShellAnchor, SurfaceBounds};
use crate::render::hit_mask::{AlphaHitMask, PixelRect};
use vstd::prelude::*;

verus! {

/// A surface that records what it is asked to show.
#[derive(Debug, Clone)]
pub struct MockDesktopSurface {
    pub id: String,
    pub bounds: SurfaceBounds,
    pub visible: bool,
    pub destroyed: bool,
    pub update_count: usize,
    pub last_surface_size: Option<(u32, u32)>,
    pub damage_history: Vec<PixelRect>,
    pub hit_mask_rects: Vec<PixelRect>,
}

/// The state of a surface as values.
pub struct SurfaceView {
    pub id: Seq<char>,
    pub bounds: SurfaceBounds,
    pub visible: bool,
    pub destroyed: bool,
    pub update_count: usize,
    pub last_surface_size: Option<(u32, u32)>,
    pub damage: Seq<PixelRect>,
    pub hit_rects: Seq<PixelRect>,
}

impl View for MockDesktopSurface {
    type V = SurfaceView;

    open spec fn view(&self) -> SurfaceView {
        SurfaceView {
            id: self.id@,
            bounds: self.bounds,
            visible: self.visible,
            destroyed: self.destroyed,
            update_count: self.update_count,
            last_surface_size: self.last_surface_size,
            damage: self.damage_history@,
            hit_rects: self.hit_mask_rects@,
        }
    }
}

/// The rectangles describe the mask exactly, as `to_rectangles` gives
/// them: each is solid, no two overlap, every solid pixel lies in one, and
/// no such list is shorter.
pub open spec fn describes(m: AlphaHitMask, rects: Seq<PixelRect>) -> bool {
    m.minimum_cover(rects)
}

/// What an operation answers on a destroyed surface.
pub open spec fn refused() -> Result<(), DisplayError> {
    Err(DisplayError::SurfaceDestroyed)
}

/// Moving or resizing: refused once destroyed.
pub open spec fn set_bounds_step(s: SurfaceView, b: SurfaceBounds) -> (SurfaceView, Result<(), DisplayError>) {
    if s.destroyed {
        (s, refused())
    } else {
        (SurfaceView { bounds: b, ..s }, Ok(()))
    }
}

/// Showing or hiding: refused once destroyed.
pub open spec fn set_visible_step(s: SurfaceView, v: bool) -> (SurfaceView, Result<(), DisplayError>) {
    if s.destroyed {
        (s, refused())
    } else {
        (SurfaceView { visible: v, ..s }, Ok(()))
    }
}

/// Presenting a frame of `w` by `h` with click regions `rects`: the
/// surface takes the frame's size, records it as damaged whole, counts
/// the frame (wrapping) and takes the regions; refused once destroyed.
pub open spec fn update_surface_step(s: SurfaceView, w: u32, h: u32, rects: Seq<PixelRect>) -> (
    SurfaceView,
    Result<(), DisplayError>,
) {
    if s.destroyed {
        (s, refused())
    } else {
        (
            SurfaceView {
                bounds: SurfaceBounds { width: w, height: h, ..s.bounds },
                last_surface_size: Some((w, h)),
                damage: s.damage.push(PixelRect { x: 0, y: 0, width: w, height: h }),
                update_count: vstd::wrapping::usize_specs::wrapping_add(s.update_count, 1),
                hit_rects: rects,
                ..s
            },
            Ok(()),
        )
    }
}

/// Taking new click regions: refused once destroyed.
pub open spec fn update_hit_mask_step(s: SurfaceView, rects: Seq<PixelRect>) -> (SurfaceView, Result<(), DisplayError>) {
    if s.destroyed {
        (s, refused())
    } else {
        (SurfaceView { hit_rects: rects, ..s }, Ok(()))
    }
}

/// Destroying: the surface drops its click regions; always accepted.
pub open spec fn destroy_step(s: SurfaceView) -> SurfaceView {
    SurfaceView { destroyed: true, hit_rects: Seq::empty(), ..s }
}

impl MockDesktopSurface {
    /// A visible surface that has shown nothing yet.
    pub fn new(id: &str, bounds: SurfaceBounds) -> (r: Self)
        ensures
            r@ == (SurfaceView {
                id: id@,
                bounds,
                visible: true,
                destroyed: false,
                update_count: 0,
                last_surface_size: None,
                damage: Seq::empty(),
                hit_rects: Seq::empty(),
            }),
    {
        MockDesktopSurface {
            id: id.to_string(),
            bounds,
            visible: true,
            destroyed: false,
            update_count: 0,
            last_surface_size: None,
            damage_history: Vec::new(),
            hit_mask_rects: Vec::new(),
        }
    }

    pub fn id(&self) -> (r: &str)
        ensures
            r@ == self.id@,
    {
        self.id.as_str()
    }

    pub fn backend_type(&self) -> (r: BackendType)
        ensures
            r == BackendType::Mock,
    {
        BackendType::Mock
    }

    pub fn bounds(&self) -> (r: SurfaceBounds)
        ensures
            r == self.bounds,
    {
        self.bounds
    }

    /// Shown: made visible and not destroyed.
    pub fn is_visible(&self) -> (r: bool)
        ensures
            r == (self.visible && !self.destroyed),
    {
        self.visible && !self.destroyed
    }

    pub fn is_destroyed(&self) -> (r: bool)
        ensures
            r == self.destroyed,
    {
        self.destroyed
    }

    pub fn update_count(&self) -> (r: usize)
        ensures
            r == self.update_count,
    {
        self.update_count
    }

    pub fn last_surface_size(&self) -> (r: Option<(u32, u32)>)
        ensures
            r == self.last_surface_size,
    {
        self.last_surface_size
    }

    pub fn damage_history(&self) -> (r: &Vec<PixelRect>)
        ensures
            r@ == self.damage_history@,
    {
        &self.damage_history
    }

    pub fn hit_mask_rectangles(&self) -> (r: &Vec<PixelRect>)
        ensures
            r@ == self.hit_mask_rects@,
    {
        &self.hit_mask_rects
    }

    pub fn set_bounds(&mut self, bounds: SurfaceBounds) -> (r: Result<(), DisplayError>)
        ensures
            (final(self)@, r) == set_bounds_step(old(self)@, bounds),
    {
        if self.destroyed {
            return Err(DisplayError::SurfaceDestroyed);
        }
        self.bounds = bounds;
        Ok(())
    }

    pub fn set_visible(&mut self, visible: bool) -> (r: Result<(), DisplayError>)
        ensures
            (final(self)@, r) == set_visible_step(old(self)@, visible),
    {
        if self.destroyed {
            return Err(DisplayError::SurfaceDestroyed);
        }
        self.visible = visible;
        Ok(())
    }

    /// Presents a frame of `width` by `height` whose click regions are the
    /// solid pixels of `hit_mask`.
    pub fn update_surface(&mut self, width: u32, height: u32, hit_mask: &AlphaHitMask) -> (r: Result<
        (),
        DisplayError,
    >)
        requires
            hit_mask.wf(),
        ensures
            (final(self)@, r) == update_surface_step(old(self)@, width, height, final(self).hit_mask_rects@),
            !old(self).destroyed ==> describes(*hit_mask, final(self).hit_mask_rects@),
    {
        if self.destroyed {
            return Err(DisplayError::SurfaceDestroyed);
        }
        self.last_surface_size = Some((width, height));
        self.bounds.width = width;
        self.bounds.height = height;
        self.hit_mask_rects = hit_mask.to_rectangles();
        self.damage_history.push(PixelRect { x: 0, y: 0, width, height });
        self.update_count = self.update_count.wrapping_add(1);
        Ok(())
    }

    /// Takes the solid pixels of `hit_mask` as the click regions.
    pub fn update_hit_mask(&mut self, hit_mask: &AlphaHitMask) -> (r: Result<(), DisplayError>)
        requires
            hit_mask.wf(),
        ensures
            (final(self)@, r) == update_hit_mask_step(old(self)@, final(self).hit_mask_rects@),
            !old(self).destroyed ==> describes(*hit_mask, final(self).hit_mask_rects@),
    {
        if self.destroyed {
            return Err(DisplayError::SurfaceDestroyed);
        }
        self.hit_mask_rects = hit_mask.to_rectangles();
        Ok(())
    }

    pub fn destroy(&mut self) -> (r: Result<(), DisplayError>)
        ensures
            final(self)@ == destroy_step(old(self)@),
            r is Ok,
    {
        self.destroyed = true;
        self.hit_mask_rects.clear();
        Ok(())
    }

    /// Forgets the recorded damage.
    pub fn clear_damage(&mut self)
        ensures
            final(self)@ == (SurfaceView { damage: Seq::empty(), ..old(self)@ }),
    {
        self.damage_history.clear();
    }
}

/// Once destroyed, a surface refuses every change and stays as it is;
/// destroying it again changes nothing.
pub proof fn law_destroyed_surface_is_inert(
    s: SurfaceView,
    b: SurfaceBounds,
    v: bool,
    w: u32,
    h: u32,
    rects: Seq<PixelRect>,
)
    ensures
        ({
            let d = destroy_step(s);
            &&& set_bounds_step(d, b) == (d, refused())
            &&& set_visible_step(d, v) == (d, refused())
            &&& update_surface_step(d, w, h, rects) == (d, refused())
            &&& update_hit_mask_step(d, rects) == (d, refused())
            &&& destroy_step(d) == d
        }),
{
    let d = destroy_step(s);
    assert(destroy_step(d).hit_rects =~= d.hit_rects);
}

/// On a live surface each setter's value is read back, and each frame adds
/// one damage record of the frame's size.
pub proof fn law_live_surface_reads_back(s: SurfaceView, b: SurfaceBounds, v: bool, w: u32, h: u32, rects: Seq<PixelRect>)
    requires
        !s.destroyed,
    ensures
        set_bounds_step(s, b).0.bounds == b,
        set_bounds_step(s, b).1 is Ok,
        set_visible_step(s, v).0.visible == v,
        update_surface_step(s, w, h, rects).0.damage.len() == s.damage.len() + 1,
        update_surface_step(s, w, h, rects).0.damage.last() == (PixelRect { x: 0, y: 0, width: w, height: h }),
        update_surface_step(s, w, h, rects).0.last_surface_size == Some((w, h)),
        update_surface_step(s, w, h, rects).0.bounds.width == w,
        update_surface_step(s, w, h, rects).0.bounds.height == h,
        update_hit_mask_step(s, rects).0.hit_rects == rects,
{
}

/// A surface placed by the compositor's `wlr-layer-shell`: on a layer of
/// an output, anchored to edges with margins.
#[derive(Debug)]
pub struct LayerShellSurface {
    pub id: String,
    pub bounds: SurfaceBounds,
    pub layer: Layer,
    pub output: String,
    pub anchor: Anchor,
    pub margin: (i32, i32),
    pub namespace: String,
    pub visible: bool,
    pub destroyed: bool,
    pub input_region_rects: Vec<PixelRect>,
    pub damage_rects: Vec<PixelRect>,
}

/// The changing state of a layer-shell surface as values.
pub struct LayerSurfaceView {
    pub id: Seq<char>,
    pub layer: Layer,
    pub output: Seq<char>,
    pub anchor: Anchor,
    pub margin: (i32, i32),
    pub bounds: SurfaceBounds,
    pub namespace: Seq<char>,
    pub visible: bool,
    pub destroyed: bool,
    pub input_region: Seq<PixelRect>,
    pub damage: Seq<PixelRect>,
}

impl View for LayerShellSurface {
    type V = LayerSurfaceView;

    open spec fn view(&self) -> LayerSurfaceView {
        LayerSurfaceView {
            id: self.id@,
            layer: self.layer,
            output: self.output@,
            anchor: self.anchor,
            margin: self.margin,
            bounds: self.bounds,
            namespace: self.namespace@,
            visible: self.visible,
            destroyed: self.destroyed,
            input_region: self.input_region_rects@,
            damage: self.damage_rects@,
        }
    }
}

impl LayerShellSurface {
    /// A visible surface in the `pluvia` namespace.
    pub fn new(id: &str, bounds: SurfaceBounds, layer: Layer, output: &str, anchor: Anchor, margin: (i32, i32)) -> (r: Self)
        ensures
            r.id@ == id@,
            r.layer == layer,
            r.output@ == output@,
            r.anchor == anchor,
            r.margin == margin,
            r@ == (LayerSurfaceView {
                id: id@,
                layer,
                output: output@,
                anchor,
                margin,
                bounds,
                namespace: "pluvia"@,
                visible: true,
                destroyed: false,
                input_region: Seq::empty(),
                damage: Seq::empty(),
            }),
    {
        LayerShellSurface {
            id: id.to_string(),
            bounds,
            layer,
            output: output.to_string(),
            anchor,
            margin,
            namespace: "pluvia".to_string(),
            visible: true,
            destroyed: false,
            input_region_rects: Vec::new(),
            damage_rects: Vec::new(),
        }
    }

    pub fn id(&self) -> (r: &str)
        ensures
            r@ == self.id@,
    {
        self.id.as_str()
    }

    pub fn backend_type(&self) -> (r: BackendType)
        ensures
            r == BackendType::WlrLayerShell,
    {
        BackendType::WlrLayerShell
    }

    pub fn layer(&self) -> (r: Layer)
        ensures
            r == self.layer,
    {
        self.layer
    }

    pub fn output(&self) -> (r: &str)
        ensures
            r@ == self.output@,
    {
        self.output.as_str()
    }

    pub fn namespace(&self) -> (r: &str)
        ensures
            r@ == self.namespace@,
    {
        self.namespace.as_str()
    }

    pub fn set_namespace(&mut self, namespace: &str)
        ensures
            final(self)@ == (LayerSurfaceView { namespace: namespace@, ..old(self)@ }),
            final(self).id == old(self).id && final(self).layer == old(self).layer,
            final(self).output == old(self).output && final(self).anchor == old(self).anchor,
            final(self).margin == old(self).margin,
    {
        self.namespace = namespace.to_string();
    }

    /// The edges the surface's anchor pins it to.
    pub fn layer_shell_anchors(&self) -> (r: LayerShellAnchor)
        ensures
            r.0 == edge_bits(self.anchor),
    {
        self.anchor.layer_shell_edges()
    }

    /// The margins (top, right, bottom, left) the anchor and offsets give.
    pub fn margins(&self) -> (r: (i32, i32, i32, i32))
        ensures
            r == margins_for(self.anchor, self.margin.0, self.margin.1),
    {
        self.anchor.layer_shell_margins(self.margin)
    }

    pub fn bounds(&self) -> (r: SurfaceBounds)
        ensures
            r == self.bounds,
    {
        self.bounds
    }

    pub fn is_visible(&self) -> (r: bool)
        ensures
            r == (self.visible && !self.destroyed),
    {
        self.visible && !self.destroyed
    }

    pub fn is_destroyed(&self) -> (r: bool)
        ensures
            r == self.destroyed,
    {
        self.destroyed
    }

    pub fn input_region_rects(&self) -> (r: &Vec<PixelRect>)
        ensures
            r@ == self.input_region_rects@,
    {
        &self.input_region_rects
    }

    pub fn damage_rects(&self) -> (r: &Vec<PixelRect>)
        ensures
            r@ == self.damage_rects@,
    {
        &self.damage_rects
    }

    pub fn set_bounds(&mut self, bounds: SurfaceBounds) -> (r: Result<(), DisplayError>)
        ensures
            old(self).destroyed ==> r == refused() && final(self)@ == old(self)@,
            !old(self).destroyed ==> r is Ok && final(self)@ == (LayerSurfaceView { bounds, ..old(self)@ }),
            final(self).anchor == old(self).anchor && final(self).margin == old(self).margin,
    {
        if self.destroyed {
            return Err(DisplayError::SurfaceDestroyed);
        }
        self.bounds = bounds;
        Ok(())
    }

    pub fn set_visible(&mut self, visible: bool) -> (r: Result<(), DisplayError>)
        ensures
            old(self).destroyed ==> r == refused() && final(self)@ == old(self)@,
            !old(self).destroyed ==> r is Ok && final(self)@ == (LayerSurfaceView { visible, ..old(self)@ }),
            final(self).anchor == old(self).anchor && final(self).margin == old(self).margin,
    {
        if self.destroyed {
            return Err(DisplayError::SurfaceDestroyed);
        }
        self.visible = visible;
        Ok(())
    }

    /// Presents a frame of `width` by `height`: the solid pixels of
    /// `hit_mask` become the input region and the whole frame is damaged.
    pub fn update_surface(&mut self, width: u32, height: u32, hit_mask: &AlphaHitMask) -> (r: Result<
        (),
        DisplayError,
    >)
        requires
            hit_mask.wf(),
        ensures
            old(self).destroyed ==> r == refused() && final(self)@ == old(self)@,
            !old(self).destroyed ==> r is Ok && describes(*hit_mask, final(self).input_region_rects@)
                && final(self)@ == (LayerSurfaceView {
                bounds: SurfaceBounds { width, height, ..old(self).bounds },
                input_region: final(self).input_region_rects@,
                damage: old(self).damage_rects@.push(PixelRect { x: 0, y: 0, width, height }),
                ..old(self)@
            }),
            final(self).anchor == old(self).anchor && final(self).margin == old(self).margin,
    {
        if self.destroyed {
            return Err(DisplayError::SurfaceDestroyed);
        }
        self.input_region_rects = hit_mask.to_rectangles();
        self.bounds.width = width;
        self.bounds.height = height;
        self.damage_rects.push(PixelRect { x: 0, y: 0, width, height });
        Ok(())
    }

    /// Takes the solid pixels of `hit_mask` as the input region.
    pub fn update_hit_mask(&mut self, hit_mask: &AlphaHitMask) -> (r: Result<(), DisplayError>)
        requires
            hit_mask.wf(),
        ensures
            old(self).destroyed ==> r == refused() && final(self)@ == old(self)@,
            !old(self).destroyed ==> r is Ok && describes(*hit_mask, final(self).input_region_rects@)
                && final(self)@ == (LayerSurfaceView { input_region: final(self).input_region_rects@, ..old(self)@ }),
            final(self).anchor == old(self).anchor && final(self).margin == old(self).margin,
    {
        if self.destroyed {
            return Err(DisplayError::SurfaceDestroyed);
        }
        self.input_region_rects = hit_mask.to_rectangles();
        Ok(())
    }

    /// Destroys the surface, dropping its input region; always accepted.
    pub fn destroy(&mut self) -> (r: Result<(), DisplayError>)
        ensures
            r is Ok,
            final(self)@ == (LayerSurfaceView { destroyed: true, input_region: Seq::empty(), ..old(self)@ }),
            final(self).anchor == old(self).anchor && final(self).margin == old(self).margin,
    {
        self.destroyed = true;
        self.input_region_rects.clear();
        Ok(())
    }
}

} // verus!
