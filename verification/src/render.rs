//! Rendering layers into one image: for each pixel, which layers take part,
//! from the top one down, until a layer's pixel hides everything below it.
//! How the pixels found are blended is left to the caller.
use vstd::prelude::*;

use crate::channel::{lemma_rgba_image_len, rgba_image, rgba_len, rgba_ok};
use crate::layer::{BlendMode, LayerPropertiesView, PsdLayer};

verus! {

/// The four bytes of the pixel at (`left`, `top`) of an RGBA image `width`
/// pixels wide.
pub open spec fn pixel_at(rgba: Seq<u8>, width: int, left: int, top: int) -> Seq<u8> {
    let k = (width * top + left) * 4;
    rgba.subrange(k, k + 4)
}

/// (`left`, `top`) lies within a layer's bounds, both taken as `i32`.
pub open spec fn layer_covers(p: LayerPropertiesView, left: usize, top: usize) -> bool {
    !((left as i32) < p.layer_left || (left as i32) > p.layer_right || (top as i32) < p.layer_top
        || (top as i32) > p.layer_bottom)
}

/// The pixel of `layer` at (`left`, `top`), where its RGBA image can be
/// generated and holds that pixel.
pub open spec fn layer_pixel(layer: PsdLayer, width: int, left: int, top: int) -> Option<Seq<u8>> {
    if rgba_ok(&layer) && (width * top + left) * 4 + 4 <= rgba_len(&layer) {
        Some(pixel_at(rgba_image(&layer), width, left, top))
    } else {
        None
    }
}

/// The pixels that take part in the flattened pixel at (`left`, `top`), from
/// the top layer down: each layer that covers the pixel gives its pixel
/// (before its opacity applies), its blend mode and its opacity, until a
/// layer whose pixel and opacity are both fully opaque. `None` where a layer
/// that is reached cannot give its pixel.
pub open spec fn pixel_stack(layers: Seq<PsdLayer>, width: int, left: usize, top: usize) -> Option<
    Seq<(Seq<u8>, BlendMode, u8)>,
>
    decreases layers.len(),
{
    if layers.len() == 0 {
        Some(Seq::empty())
    } else {
        let l = layers[0];
        let rest = pixel_stack(layers.skip(1), width, left, top);
        if !layer_covers(l@.properties, left, top) {
            rest
        } else {
            match layer_pixel(l, width, left as int, top as int) {
                None => None,
                Some(px) => {
                    let entry = (px, l@.properties.blend_mode, l@.properties.opacity);
                    if px[3] == 255 && l@.properties.opacity == 255 {
                        Some(seq![entry])
                    } else {
                        match rest {
                            None => None,
                            Some(r) => Some(seq![entry] + r),
                        }
                    }
                },
            }
        }
    }
}

/// The stack of pixels to blend ends only at a fully opaque pixel: every
/// entry before the last has a pixel alpha or an opacity below 255.
pub proof fn lemma_pixel_stack_only_ends_at_opaque(
    layers: Seq<PsdLayer>,
    width: int,
    left: usize,
    top: usize,
)
    ensures
        pixel_stack(layers, width, left, top) matches Some(st) ==> forall|i: int|
            0 <= i < st.len() - 1 ==> !(#[trigger] st[i].0[3] == 255 && st[i].2 == 255),
    decreases layers.len(),
{
    if layers.len() > 0 {
        lemma_pixel_stack_only_ends_at_opaque(layers.skip(1), width, left, top);
    }
}

/// A top layer that covers the pixel, whose pixel or opacity is not fully
/// opaque, does not hide the layers below: the stack is its pixel, blend
/// mode and opacity, then the stack of the layers below it. A top layer
/// whose pixel and opacity are both fully opaque is the whole stack.
pub proof fn lemma_pixel_stack_top_layer(
    layers: Seq<PsdLayer>,
    width: int,
    left: usize,
    top: usize,
)
    requires
        layers.len() > 0,
        layer_covers(layers[0]@.properties, left, top),
        layer_pixel(layers[0], width, left as int, top as int) is Some,
    ensures
        ({
            let px = layer_pixel(layers[0], width, left as int, top as int)->0;
            let p = layers[0]@.properties;
            let entry = (px, p.blend_mode, p.opacity);
            &&& !(px[3] == 255 && p.opacity == 255) ==> match pixel_stack(
                layers.skip(1),
                width,
                left,
                top,
            ) {
                Some(below) => pixel_stack(layers, width, left, top) == Some(seq![entry] + below),
                None => pixel_stack(layers, width, left, top) is None,
            }
            &&& px[3] == 255 && p.opacity == 255 ==> pixel_stack(layers, width, left, top) == Some(
                seq![entry],
            )
        }),
{
}

/// Renders layers pixel by pixel, generating each layer's RGBA pixels the
/// first time they are needed.
#[derive(Debug)]
pub struct Renderer<'a> {
    layers_to_flatten_top_down: Vec<&'a PsdLayer>,
    cached_layer_rgba: Vec<Option<Vec<u8>>>,
    width: usize,
}

impl<'a> Renderer<'a> {
    /// The layers, from the top one down.
    pub closed spec fn layers(&self) -> Seq<PsdLayer> {
        self.layers_to_flatten_top_down@.map_values(|l: &PsdLayer| *l)
    }

    /// The width of the image in pixels.
    pub closed spec fn width(&self) -> int {
        self.width as int
    }

    /// Each cached RGBA image is the RGBA image of its layer.
    pub closed spec fn wf(&self) -> bool {
        &&& self.cached_layer_rgba@.len() == self.layers_to_flatten_top_down@.len()
        &&& forall|i: int|
            0 <= i < self.cached_layer_rgba@.len() ==> (#[trigger] self.cached_layer_rgba@[i]
                matches Some(v) ==> rgba_ok(self.layers_to_flatten_top_down@[i]) && v@
                == rgba_image(self.layers_to_flatten_top_down@[i]))
    }

    /// A renderer of `layers_to_flatten_top_down`, in an image `width`
    /// pixels wide.
    pub fn new(layers_to_flatten_top_down: &[&'a PsdLayer], width: usize) -> (r: Renderer<'a>)
        ensures
            r.wf(),
            r.layers() == layers_to_flatten_top_down@.map_values(|l: &PsdLayer| *l),
            r.width() == width,
    {
        let mut layers: Vec<&'a PsdLayer> = Vec::new();
        let mut cached: Vec<Option<Vec<u8>>> = Vec::new();
        let mut i: usize = 0;
        while i < layers_to_flatten_top_down.len()
            invariant
                i <= layers_to_flatten_top_down@.len(),
                layers@ == layers_to_flatten_top_down@.take(i as int),
                cached@.len() == i,
                forall|k: int| 0 <= k < i ==> (#[trigger] cached@[k]) is None,
            decreases layers_to_flatten_top_down@.len() - i,
        {
            layers.push(layers_to_flatten_top_down[i]);
            cached.push(None);
            i += 1;
            assert(layers@ =~= layers_to_flatten_top_down@.take(i as int));
        }
        assert(layers@ =~= layers_to_flatten_top_down@);
        Renderer { layers_to_flatten_top_down: layers, cached_layer_rgba: cached, width }
    }

    /// The pixel at `pixel_coord` (left, top) of the layer at `idx`, before
    /// the layer's opacity applies; `None` where the layer's RGBA image cannot
    /// be generated or does not hold that pixel.
    pub fn pixel_rgba_for_layer(&mut self, flattened_layer_top_down_idx: usize, pixel_coord: (
        usize,
        usize,
    )) -> (r: Option<[u8; 4]>)
        requires
            old(self).wf(),
            flattened_layer_top_down_idx < old(self).layers().len(),
        ensures
            final(self).wf(),
            final(self).layers() == old(self).layers(),
            final(self).width() == old(self).width(),
            match layer_pixel(
                old(self).layers()[flattened_layer_top_down_idx as int],
                old(self).width(),
                pixel_coord.0 as int,
                pixel_coord.1 as int,
            ) {
                Some(px) => r matches Some(p) && p@ == px,
                None => r is None,
            },
    {
        let idx = flattened_layer_top_down_idx;
        let layer = self.layers_to_flatten_top_down[idx];
        let cached = self.cached_layer_rgba[idx].is_some();
        if !cached {
            if !layer.rgba_fits() {
                return None;
            }
            let pixels = match layer.rgba() {
                Ok(v) => v,
                Err(_) => {
                    return None;
                },
            };
            self.cached_layer_rgba.set(idx, Some(pixels));
        }
        proof {
            lemma_rgba_image_len(layer);
            assert(self.layers()[idx as int] == *layer);
            assert(self.cached_layer_rgba@[idx as int] matches Some(v) ==> rgba_ok(layer) && v@
                == rgba_image(layer));
        }
        let layer_rgba = match &self.cached_layer_rgba[idx] {
            Some(v) => v,
            None => {
                return None;
            },
        };
        let (pixel_left, pixel_top) = pixel_coord;
        let w = self.width;
        assert((w as u128) * (pixel_top as u128) <= 0xffff_ffff_ffff_fffe_0000_0000_0000_0001)
            by (nonlinear_arith)
            requires
                w <= 0xffff_ffff_ffff_ffff,
                pixel_top <= 0xffff_ffff_ffff_ffff,
        ;
        let base: u128 = (w as u128) * (pixel_top as u128) + (pixel_left as u128);
        if base + 1 > (layer_rgba.len() as u128) / 4 {
            return None;
        }
        let start = (base as usize) * 4;
        Some([layer_rgba[start], layer_rgba[start + 1], layer_rgba[start + 2], layer_rgba[start + 3]])
    }

    /// The pixels that take part in the flattened pixel at `pixel_coord`
    /// (left, top), from the top layer down, each with its layer's blend mode
    /// and opacity: the layers that cover the pixel, until one whose pixel
    /// and opacity are both fully opaque. `None` where a layer that is
    /// reached cannot give its pixel.
    pub fn pixel_stack(&mut self, pixel_coord: (usize, usize)) -> (r: Option<
        Vec<([u8; 4], BlendMode, u8)>,
    >)
        requires
            old(self).wf(),
        ensures
            final(self).wf(),
            final(self).layers() == old(self).layers(),
            final(self).width() == old(self).width(),
            match pixel_stack(old(self).layers(), old(self).width(), pixel_coord.0, pixel_coord.1) {
                Some(v) => r matches Some(out) && stack_view(out@) == v,
                None => r is None,
            },
    {
        let ghost all = self.layers();
        let (pixel_left, pixel_top) = pixel_coord;
        let mut pixels: Vec<([u8; 4], BlendMode, u8)> = Vec::new();
        let n = self.layers_to_flatten_top_down.len();
        let mut idx: usize = 0;
        assert(all.skip(0) =~= all);
        while idx < n
            invariant
                self.wf(),
                self.layers() == all,
                all == old(self).layers(),
                pixel_coord == (pixel_left, pixel_top),
                self.width() == old(self).width(),
                n == all.len(),
                idx <= n,
                pixel_stack(all, self.width(), pixel_left, pixel_top) == match pixel_stack(
                    all.skip(idx as int),
                    self.width(),
                    pixel_left,
                    pixel_top,
                ) {
                    Some(rest) => Some(stack_view(pixels@) + rest),
                    None => None::<Seq<(Seq<u8>, BlendMode, u8)>>,
                },
            decreases n - idx,
        {
            let ghost rest = all.skip(idx as int);
            assert(rest.skip(1) =~= all.skip(idx + 1));
            let layer = self.layers_to_flatten_top_down[idx];
            assert(rest[0] == *layer);
            let (top, left, bottom, right) = layer.properties().bounds();
            let left_i32 = #[verifier::truncate] (pixel_left as i32);
            let top_i32 = #[verifier::truncate] (pixel_top as i32);
            if left_i32 < left || left_i32 > right || top_i32 < top || top_i32 > bottom {
                idx += 1;
                continue;
            }
            assert(layer_covers(rest[0]@.properties, pixel_left, pixel_top));
            let pixel = match self.pixel_rgba_for_layer(idx, pixel_coord) {
                Some(p) => p,
                None => {
                    assert(pixel_stack(rest, self.width(), pixel_left, pixel_top) is None);
                    return None;
                },
            };
            let blend_mode = layer.properties().blend_mode();
            let opacity = layer.properties().opacity();
            let ghost before = stack_view(pixels@);
            pixels.push((pixel, blend_mode, opacity));
            assert(stack_view(pixels@) =~= before + seq![(pixel@, blend_mode, opacity)]);
            if pixel[3] == 255 && opacity == 255 {
                assert(pixel_stack(rest, self.width(), pixel_left, pixel_top) == Some(
                    seq![(pixel@, blend_mode, opacity)],
                ));
                return Some(pixels);
            }
            idx += 1;
        }
        assert(all.skip(n as int) =~= Seq::<PsdLayer>::empty());
        assert(stack_view(pixels@) + Seq::empty() =~= stack_view(pixels@));
        Some(pixels)
    }
}

/// The view of the pixels that take part in a flattened pixel.
pub open spec fn stack_view(v: Seq<([u8; 4], BlendMode, u8)>) -> Seq<(Seq<u8>, BlendMode, u8)> {
    v.map_values(|e: ([u8; 4], BlendMode, u8)| (e.0@, e.1, e.2))
}

/// Whether a layer is drawn when layers are flattened: it is visible and not
/// fully transparent, or it is a clipping mask.
pub fn layer_is_drawn(layer: &PsdLayer) -> (r: bool)
    ensures
        r == ((layer@.properties.opacity > 0 && layer@.properties.visible)
            || layer@.properties.clipping_mask),
{
    let p = layer.properties();
    (p.opacity() > 0 && p.visible()) || p.is_clipping_mask()
}

} // verus!
