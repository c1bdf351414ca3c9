//! The interface between widgets and the backends that draw them.
use vstd::prelude::*;

use crate::geometry::{Color, Rectangle, Scalar, Size, Transformation, Vector, SIXTEEN_BITS};
use crate::layer::LayerId;
use crate::recording;
use crate::recording::Recorded;
use crate::texture_cache::{CacheFlags, TextureCache};

verus! {

/// Whether primitive coordinates should be snapped to the pixel grid by default
/// to avoid anti-aliasing.
pub const CRISP: bool = false;

/// A border.
#[derive(Debug, Clone, Copy, PartialEq)]
pub struct Border {
    pub color: Color,
    pub width: Scalar,
    pub radius: Radius,
}

/// The radii of the corners of a border.
#[derive(Debug, Clone, Copy, PartialEq)]
pub struct Radius {
    pub top_left: Scalar,
    pub top_right: Scalar,
    pub bottom_right: Scalar,
    pub bottom_left: Scalar,
}

impl Radius {
    /// The radii of a border without rounding.
    pub open spec fn zero_spec() -> Radius {
        Radius {
            top_left: Scalar::zero_spec(),
            top_right: Scalar::zero_spec(),
            bottom_right: Scalar::zero_spec(),
            bottom_left: Scalar::zero_spec(),
        }
    }

    /// Returns the radii of a border without rounding.
    pub fn zero() -> (r: Radius)
        ensures
            r == Radius::zero_spec(),
    {
        let o = Scalar::zero();
        Radius { top_left: o, top_right: o, bottom_right: o, bottom_left: o }
    }
}

/// A shadow.
#[derive(Debug, Clone, Copy, PartialEq)]
pub struct Shadow {
    pub color: Color,
    pub offset: Vector,
    pub blur_radius: Scalar,
}

/// What a shape is filled with.
#[derive(Debug, Clone, Copy, PartialEq)]
pub enum Background {
    /// A solid color.
    Color(Color),
    /// A linear gradient between two colors, at an angle in radians.
    Gradient { angle: Scalar, start: Color, end: Color },
}

/// A polygon with four sides.
#[derive(Debug, Clone, Copy, PartialEq)]
pub struct Quad {
    /// The bounds of the [`Quad`].
    pub bounds: Rectangle,
    /// The border of the [`Quad`], drawn on its inside.
    pub border: Border,
    /// The shadow of the [`Quad`].
    pub shadow: Shadow,
    /// Whether the [`Quad`] should be snapped to the pixel grid.
    pub snap: bool,
}

impl Border {
    /// The border without color, width and rounding.
    pub open spec fn default_spec() -> Border {
        Border {
            color: Color::transparent_spec(),
            width: Scalar::zero_spec(),
            radius: Radius::zero_spec(),
        }
    }
}

impl Default for Border {
    fn default() -> (r: Border)
        ensures
            r == Border::default_spec(),
    {
        Border { color: Color::transparent(), width: Scalar::zero(), radius: Radius::zero() }
    }
}

impl Shadow {
    /// The shadow that cannot be seen.
    pub open spec fn default_spec() -> Shadow {
        Shadow {
            color: Color::transparent_spec(),
            offset: Vector { x: Scalar::zero_spec(), y: Scalar::zero_spec() },
            blur_radius: Scalar::zero_spec(),
        }
    }
}

impl Default for Shadow {
    fn default() -> (r: Shadow)
        ensures
            r == Shadow::default_spec(),
    {
        let o = Scalar::zero();
        Shadow { color: Color::transparent(), offset: Vector { x: o, y: o }, blur_radius: o }
    }
}

impl Default for Quad {
    fn default() -> (r: Quad)
        ensures
            r.bounds == Rectangle::with_size_spec(Size::<Scalar>::zero_spec()),
            r.border == Border::default_spec(),
            r.shadow == Shadow::default_spec(),
            r.snap == CRISP,
    {
        Quad {
            bounds: Rectangle::with_size(Size::zero()),
            border: Border::default(),
            shadow: Shadow::default(),
            snap: CRISP,
        }
    }
}

/// The styling attributes of a [`Renderer`].
#[derive(Debug, Clone, Copy, PartialEq)]
pub struct Style {
    /// The text color.
    pub text_color: Color,
}

impl Default for Style {
    fn default() -> (r: Style)
        ensures
            r.text_color == Color::black_spec(),
    {
        Style { text_color: Color::black() }
    }
}

/// A font family.
#[derive(Debug, Clone, Copy, PartialEq, Eq, Structural)]
pub enum Family {
    Serif,
    SansSerif,
    Cursive,
    Fantasy,
    Monospace,
}

/// The weight of a font.
#[derive(Debug, Clone, Copy, PartialEq, Eq, Structural)]
pub enum Weight {
    Thin,
    ExtraLight,
    Light,
    Normal,
    Medium,
    Semibold,
    Bold,
    ExtraBold,
    Black,
}

/// A font.
#[derive(Debug, Clone, Copy, PartialEq, Eq, Structural)]
pub struct Font {
    pub family: Family,
    pub weight: Weight,
    pub italic: bool,
}

/// The settings of a [`Renderer`].
#[derive(Debug, Clone, Copy, PartialEq)]
pub struct Settings {
    /// The default font to use.
    pub default_font: Font,
    /// The default size of text, in logical pixels.
    ///
    /// By default, it is `16.0`.
    pub default_text_size: Scalar,
}

impl Default for Settings {
    fn default() -> (r: Settings)
        ensures
            r.default_font == (Font {
                family: Family::SansSerif,
                weight: Weight::Normal,
                italic: false,
            }),
            r.default_text_size == (Scalar { bits: SIXTEEN_BITS }),
    {
        Settings {
            default_font: Font { family: Family::SansSerif, weight: Weight::Normal, italic: false },
            default_text_size: Scalar { bits: SIXTEEN_BITS },
        }
    }
}

/// One recorded drawing operation. `P` is what a backend draws besides quads and
/// cached textures: text, meshes, images and shaders.
#[derive(Debug, PartialEq)]
pub enum Command<P> {
    /// Starts a layer that clips its contents to the bounds.
    StartLayer(Rectangle),
    /// Ends the innermost layer.
    EndLayer,
    /// Applies a transformation to what follows, inside those already applied.
    StartTransformation(Transformation),
    /// Ends the innermost transformation.
    EndTransformation,
    /// Fills a quad.
    FillQuad(Quad, Background),
    /// Writes the name of a layer above its bounds.
    FillLayerLabel(LayerId, Rectangle, Color),
    /// Composites the backing store with the given cache id into the bounds.
    DrawCachedTexture(u64, Rectangle),
    /// Draws a primitive of the backend.
    Draw(P),
}

/// A target whose recording is suspended while a cache is recorded.
#[verifier::ext_equal]
pub ghost struct Suspended<P> {
    /// The id of the cache.
    pub id: u64,
    /// Whether what is recorded for the cache will be kept.
    pub keep: bool,
    /// What has been recorded for the target.
    pub recorded: Recorded<P>,
}

/// What a renderer has been asked to draw so far.
#[verifier::ext_equal]
pub ghost struct Drawing<P> {
    /// The bounds of the current target.
    pub bounds: Rectangle,
    /// The operations recorded for the current target.
    pub commands: Seq<Command<P>>,
    /// The targets whose recording is suspended, outermost first.
    pub suspended: Seq<Suspended<P>>,
    /// What has been recorded for caches and waits to be rendered, by cache id.
    pub waiting: Seq<(u64, Recorded<P>)>,
    /// The ids of the caches that have a backing store.
    pub stored: Set<u64>,
    /// The ids of those of them that have been recorded.
    pub backed: Set<u64>,
}

impl<P> Drawing<P> {
    /// What is recorded for the current target.
    pub open spec fn recorded(self) -> Recorded<P> {
        Recorded { bounds: self.bounds, commands: self.commands }
    }

    /// With one more operation.
    pub open spec fn record(self, command: Command<P>) -> Drawing<P> {
        Drawing { commands: self.commands.push(command), ..self }
    }

    /// With more operations.
    pub open spec fn extend(self, commands: Seq<Command<P>>) -> Drawing<P> {
        Drawing { commands: self.commands + commands, ..self }
    }

    /// With the current target suspended and nothing recorded yet for a cache. The
    /// cache has a backing store if what is recorded will be kept.
    pub open spec fn suspend(self, id: u64, keep: bool, bounds: Rectangle) -> Drawing<P> {
        Drawing {
            bounds,
            commands: Seq::empty(),
            suspended: self.suspended.push(Suspended { id, keep, recorded: self.recorded() }),
            stored: if keep {
                self.stored.insert(id)
            } else {
                self.stored
            },
            ..self
        }
    }

    /// Back at the target that was suspended last, if there is one. What was recorded
    /// meanwhile waits to be rendered if it is to be kept, in place of an earlier
    /// recording of the same cache, and the cache has been recorded then.
    pub open spec fn resume(self) -> Drawing<P> {
        if self.suspended.len() == 0 {
            self
        } else {
            let last = self.suspended.last();
            Drawing {
                bounds: last.recorded.bounds,
                commands: last.recorded.commands,
                suspended: self.suspended.drop_last(),
                waiting: if last.keep {
                    recording::enqueued(self.waiting, last.id, self.recorded())
                } else {
                    self.waiting
                },
                backed: if last.keep && self.stored.contains(last.id) {
                    self.backed.insert(last.id)
                } else {
                    self.backed
                },
                ..self
            }
        }
    }
}

/// When the operations of a recording are wanted.
#[derive(Debug, Clone, Copy, PartialEq, Eq, Structural)]
pub enum TextureRecordMode {
    /// Only if the backing store of the cache must be rendered (again).
    Flush,
    /// Always, to reach what is nested inside: without rendering the backing store
    /// of the cache if it is fresh.
    TraverseOnly,
}

/// The backing store that a recording asks for.
#[derive(Debug, Clone, Copy, PartialEq)]
pub struct RecordTarget {
    /// The size of the recorded contents, in logical pixels.
    pub size: Size<u32>,
    /// The same size, as floating-point numbers.
    pub extent: Size,
    /// The size of the recorded contents, in physical pixels.
    pub physical_size: Size<u32>,
    /// The physical pixels per logical pixel.
    pub scale_factor: Scalar,
    /// Whether `scale_factor` is further than the machine epsilon from the scale
    /// factor that the cache was last recorded with. Of no account for a cache
    /// that has no backing store.
    pub scale_changed: bool,
}

impl RecordTarget {
    /// The same target for a cache that has been recorded for it.
    pub open spec fn settled(self) -> RecordTarget {
        RecordTarget { scale_changed: false, ..self }
    }
}

/// A component that widgets use to draw themselves.
pub trait Renderer: Sized {
    /// What the renderer draws besides quads and cached textures.
    type Primitive;

    /// The memory behind a cache.
    type Backing;

    /// What drawing leaves alone.
    type Kept;

    /// What the renderer has been asked to draw so far.
    spec fn drawing(&self) -> Drawing<Self::Primitive>;

    /// What drawing leaves alone: backing stores, finished recordings, settings.
    spec fn kept(&self) -> Self::Kept;

    /// The scale factor of the last hint, if there was one.
    spec fn hinted(&self) -> Option<Scalar>;

    /// The renderer's own invariant.
    spec fn wf(&self) -> bool;

    /// Whether a backing store for the given target can be had.
    spec fn can_record(&self, target: RecordTarget) -> bool;

    /// Whether the cache with the given id must be recorded (again) for the given
    /// target. `invalidated` is the cache's own flag.
    spec fn is_stale(&self, id: u64, invalidated: bool, target: RecordTarget) -> bool;

    /// The size that the backing store of the given cache was last asked for with, in
    /// logical and in physical pixels, if it has one.
    spec fn stored_size(&self, id: u64) -> Option<(Size<u32>, Size<u32>)>;

    /// A cache is fresh exactly if it has not been invalidated and has a backing store
    /// that was asked for with the same width and the same height, in logical and in
    /// physical pixels, and at the same scale factor.
    proof fn law_a_fresh_cache_has_the_size_of_its_target(
        &self,
        id: u64,
        invalidated: bool,
        target: RecordTarget,
    )
        ensures
            !self.is_stale(id, invalidated, target) <==> {
                &&& !invalidated
                &&& !target.scale_changed
                &&& self.stored_size(id) matches Some((size, physical_size)) && {
                    &&& size.width == target.size.width
                    &&& size.height == target.size.height
                    &&& physical_size.width == target.physical_size.width
                    &&& physical_size.height == target.physical_size.height
                }
            },
    ;

    /// Drawing leaves alone which caches are stale. Invalidated caches are.
    proof fn law_drawing_keeps_caches_fresh(
        &self,
        drawn: &Self,
        id: u64,
        invalidated: bool,
        target: RecordTarget,
    )
        ensures
            drawn.kept() == self.kept() ==> drawn.is_stale(id, invalidated, target)
                == self.is_stale(id, invalidated, target),
            invalidated ==> self.is_stale(id, invalidated, target),
    ;

    /// Whether a backing store can be had is up to the target.
    proof fn law_targets_stay_recordable(&self, later: &Self, target: RecordTarget)
        ensures
            self.can_record(target) ==> self.wf(),
            self.can_record(target) && later.wf() ==> later.can_record(target),
    ;

    /// Starts recording a new layer.
    fn start_layer(&mut self, bounds: Rectangle)
        ensures
            final(self).drawing() == old(self).drawing().record(Command::StartLayer(bounds)),
            final(self).kept() == old(self).kept(),
            final(self).hinted() == old(self).hinted(),
            old(self).wf() ==> final(self).wf(),
    ;

    /// Ends the layer started last.
    fn end_layer(&mut self)
        ensures
            final(self).drawing() == old(self).drawing().record(Command::EndLayer),
            final(self).kept() == old(self).kept(),
            final(self).hinted() == old(self).hinted(),
            old(self).wf() ==> final(self).wf(),
    ;

    /// Draws the primitives recorded in the given closure in a new layer, which
    /// clips its contents to the provided bounds.
    fn with_layer<F: FnOnce(&mut Self)>(&mut self, bounds: Rectangle, f: F)
        requires
            forall|r: &mut Self|
                r.drawing() == old(self).drawing().record(Command::StartLayer(bounds)) && r.kept()
                    == old(self).kept() && r.hinted() == old(self).hinted() && (old(self).wf()
                    ==> r.wf()) ==> #[trigger] call_requires(f, (r,)),
        ensures
            exists|r: &mut Self|
                {
                    &&& r.drawing() == old(self).drawing().record(Command::StartLayer(bounds))
                    &&& r.kept() == old(self).kept()
                    &&& r.hinted() == old(self).hinted()
                    &&& old(self).wf() ==> r.wf()
                    &&& #[trigger] call_ensures(f, (r,), ())
                    &&& final(self).drawing() == final(r).drawing().record(Command::EndLayer)
                    &&& final(self).kept() == final(r).kept()
                    &&& final(self).hinted() == final(r).hinted()
                    &&& final(r).wf() ==> final(self).wf()
                },
    {
        self.start_layer(bounds);
        f(self);
        self.end_layer();
    }

    /// Starts recording with a new transformation.
    fn start_transformation(&mut self, transformation: Transformation)
        ensures
            final(self).drawing() == old(self).drawing().record(
                Command::StartTransformation(transformation),
            ),
            final(self).kept() == old(self).kept(),
            final(self).hinted() == old(self).hinted(),
            old(self).wf() ==> final(self).wf(),
    ;

    /// Ends the transformation started last.
    fn end_transformation(&mut self)
        ensures
            final(self).drawing() == old(self).drawing().record(Command::EndTransformation),
            final(self).kept() == old(self).kept(),
            final(self).hinted() == old(self).hinted(),
            old(self).wf() ==> final(self).wf(),
    ;

    /// Applies a transformation to the primitives recorded in the given closure.
    fn with_transformation<F: FnOnce(&mut Self)>(&mut self, transformation: Transformation, f: F)
        requires
            forall|r: &mut Self|
                r.drawing() == old(self).drawing().record(
                    Command::StartTransformation(transformation),
                ) && r.kept() == old(self).kept() && r.hinted() == old(self).hinted() && (old(self).wf()
                    ==> r.wf()) ==> #[trigger] call_requires(f, (r,)),
        ensures
            exists|r: &mut Self|
                {
                    &&& r.drawing() == old(self).drawing().record(
                        Command::StartTransformation(transformation),
                    )
                    &&& r.kept() == old(self).kept()
                    &&& r.hinted() == old(self).hinted()
                    &&& old(self).wf() ==> r.wf()
                    &&& #[trigger] call_ensures(f, (r,), ())
                    &&& final(self).drawing() == final(r).drawing().record(
                        Command::EndTransformation,
                    )
                    &&& final(self).kept() == final(r).kept()
                    &&& final(self).hinted() == final(r).hinted()
                    &&& final(r).wf() ==> final(self).wf()
                },
    {
        self.start_transformation(transformation);
        f(self);
        self.end_transformation();
    }

    /// Applies a translation to the primitives recorded in the given closure.
    fn with_translation<F: FnOnce(&mut Self)>(&mut self, translation: Vector, f: F)
        requires
            forall|r: &mut Self, transformation: Transformation|
                #[trigger] transformation.is_translation(translation.x, translation.y)
                    && r.drawing() == old(self).drawing().record(
                    Command::StartTransformation(transformation),
                ) && r.kept() == old(self).kept() && r.hinted() == old(self).hinted() && (old(self).wf()
                    ==> r.wf()) ==> #[trigger] call_requires(f, (r,)),
        ensures
            exists|r: &mut Self, transformation: Transformation|
                {
                    &&& #[trigger] transformation.is_translation(translation.x, translation.y)
                    &&& r.drawing() == old(self).drawing().record(
                        Command::StartTransformation(transformation),
                    )
                    &&& r.kept() == old(self).kept()
                    &&& r.hinted() == old(self).hinted()
                    &&& old(self).wf() ==> r.wf()
                    &&& #[trigger] call_ensures(f, (r,), ())
                    &&& final(self).drawing() == final(r).drawing().record(
                        Command::EndTransformation,
                    )
                    &&& final(self).kept() == final(r).kept()
                    &&& final(self).hinted() == final(r).hinted()
                    &&& final(r).wf() ==> final(self).wf()
                },
    {
        let transformation = Transformation::translate(translation.x, translation.y);
        self.with_transformation(transformation, f);
    }

    /// Fills a [`Quad`] with the provided [`Background`].
    fn fill_quad(&mut self, quad: Quad, background: Background)
        ensures
            final(self).drawing() == old(self).drawing().record(
                Command::FillQuad(quad, background),
            ),
            final(self).kept() == old(self).kept(),
            final(self).hinted() == old(self).hinted(),
            old(self).wf() ==> final(self).wf(),
    ;

    /// Writes the name of a layer above its bounds.
    fn fill_layer_label(&mut self, id: LayerId, bounds: Rectangle, color: Color)
        ensures
            final(self).drawing() == old(self).drawing().record(
                Command::FillLayerLabel(id, bounds, color),
            ),
            final(self).kept() == old(self).kept(),
            final(self).hinted() == old(self).hinted(),
            old(self).wf() ==> final(self).wf(),
    ;

    /// Begins recording into the backing store of the given cache.
    ///
    /// Returns `true` if the renderer is now in recording mode and the caller
    /// should issue the operations that should be cached. Returns `false` if the
    /// cache is still fresh: then there is nothing to record.
    ///
    /// `allocate` provides a backing store of the given dimensions where a new one
    /// is needed. Every `true` must be paired with a call of
    /// [`end_recording_texture`](Self::end_recording_texture).
    fn start_recording_texture<A: FnOnce(Size<u32>) -> Self::Backing>(
        &mut self,
        flags: &mut CacheFlags,
        cache: &TextureCache,
        target: RecordTarget,
        allocate: A,
    ) -> (r: bool)
        requires
            old(flags).wf(),
            old(flags).contains(*cache),
            old(self).can_record(target),
            old(self).is_stale(cache@, old(flags)@[cache@], target) ==> forall|size: Size<u32>|
                #[trigger] call_requires(allocate, (size,)),
        ensures
            r == old(self).is_stale(cache@, old(flags)@[cache@], target),
            r ==> final(self).drawing() == old(self).drawing().suspend(
                cache@,
                true,
                Rectangle::with_size_spec(target.extent),
            ),
            !r ==> final(self).drawing() == old(self).drawing(),
            !r ==> final(self).kept() == old(self).kept(),
            r ==> !final(self).is_stale(cache@, false, target.settled()),
            r ==> final(self).stored_size(cache@) == Some((target.size, target.physical_size)),
            forall|id: u64, invalidated: bool, target: RecordTarget|
                id != cache@ || !r ==> #[trigger] final(self).is_stale(id, invalidated, target)
                    == old(self).is_stale(id, invalidated, target),
            final(self).hinted() == old(self).hinted(),
            old(self).wf() ==> final(self).wf(),
            final(flags).wf(),
            final(flags)@ == old(flags)@.insert(cache@, false),
            final(flags).next_id() == old(flags).next_id(),
    ;

    /// Ends the recording started last. Does nothing outside a recording.
    fn end_recording_texture(&mut self)
        ensures
            final(self).drawing() == old(self).drawing().resume(),
            old(self).drawing().suspended.len() == 0 ==> final(self).kept() == old(self).kept(),
            forall|id: u64, invalidated: bool, target: RecordTarget| #[trigger]
                final(self).is_stale(id, invalidated, target) == old(self).is_stale(
                    id,
                    invalidated,
                    target,
                ),
            final(self).hinted() == old(self).hinted(),
            old(self).wf() ==> final(self).wf(),
    ;

    /// Records the operations performed in the given closure into the backing
    /// store of the given cache.
    ///
    /// If the cache is fresh the closure is not called, and the existing backing
    /// store is kept. Otherwise what the closure draws waits to be rendered into the
    /// backing store, provided the closure ends the recordings it begins.
    fn draw_to_texture<A: FnOnce(Size<u32>) -> Self::Backing, F: FnOnce(&mut Self)>(
        &mut self,
        flags: &mut CacheFlags,
        cache: &TextureCache,
        target: RecordTarget,
        allocate: A,
        f: F,
    )
        requires
            old(flags).wf(),
            old(flags).contains(*cache),
            old(self).can_record(target),
            old(self).is_stale(cache@, old(flags)@[cache@], target) ==> forall|size: Size<u32>|
                #[trigger] call_requires(allocate, (size,)),
            old(self).is_stale(cache@, old(flags)@[cache@], target) ==> forall|r: &mut Self|
                r.drawing() == old(self).drawing().suspend(
                    cache@,
                    true,
                    Rectangle::with_size_spec(target.extent),
                ) && r.hinted() == old(self).hinted() && !r.is_stale(
                    cache@,
                    false,
                    target.settled(),
                ) && (old(self).wf() ==> r.wf()) ==> #[trigger] call_requires(f, (r,)),
        ensures
            !old(self).is_stale(cache@, old(flags)@[cache@], target) ==> {
                &&& final(self).drawing() == old(self).drawing()
                &&& final(self).kept() == old(self).kept()
                &&& final(self).hinted() == old(self).hinted()
                &&& old(self).wf() ==> final(self).wf()
            },
            old(self).is_stale(cache@, old(flags)@[cache@], target) ==> exists|r: &mut Self|
                {
                    &&& r.drawing() == old(self).drawing().suspend(
                        cache@,
                        true,
                        Rectangle::with_size_spec(target.extent),
                    )
                    &&& r.hinted() == old(self).hinted()
                    &&& !r.is_stale(cache@, false, target.settled())
                    &&& old(self).wf() ==> r.wf()
                    &&& #[trigger] call_ensures(f, (r,), ())
                    &&& final(self).drawing() == final(r).drawing().resume()
                    &&& forall|id: u64, invalidated: bool, target: RecordTarget| #[trigger]
                        final(self).is_stale(id, invalidated, target) == final(r).is_stale(
                            id,
                            invalidated,
                            target,
                        )
                    &&& final(self).hinted() == final(r).hinted()
                    &&& final(r).drawing().suspended == r.drawing().suspended ==> {
                        &&& final(self).drawing().waiting.last() == (
                            cache@,
                            final(r).drawing().recorded(),
                        )
                        &&& final(self).drawing().recorded() == old(self).drawing().recorded()
                        &&& final(self).drawing().suspended == old(self).drawing().suspended
                    }
                    &&& final(r).wf() ==> final(self).wf()
                },
            final(flags).wf(),
            final(flags)@ == old(flags)@.insert(cache@, false),
            final(flags).next_id() == old(flags).next_id(),
    {
        if self.start_recording_texture(flags, cache, target, allocate) {
            f(self);
            self.end_recording_texture();
        }
    }

    /// Composites a previously recorded cache into the current target at the given
    /// bounds. Does nothing if no recording of the cache has been finished.
    ///
    /// The current transformation applies, so wrap the call with
    /// [`with_transformation`](Self::with_transformation) to animate the cached
    /// contents without recording them again.
    fn draw_cached_texture(&mut self, cache: &TextureCache, bounds: Rectangle)
        ensures
            final(self).drawing() == (if old(self).drawing().backed.contains(cache@) {
                old(self).drawing().record(Command::DrawCachedTexture(cache@, bounds))
            } else {
                old(self).drawing()
            }),
            final(self).kept() == old(self).kept(),
            final(self).hinted() == old(self).hinted(),
            old(self).wf() ==> final(self).wf(),
    ;

    /// Hints at the scale factor of the target that will be rendered to.
    ///
    /// A renderer may use it to improve the quality of what it draws.
    fn hint(&mut self, scale_factor: Scalar)
        ensures
            final(self).drawing() == old(self).drawing(),
            final(self).hinted() == Some(scale_factor),
            old(self).wf() ==> final(self).wf(),
    ;

    /// Returns the scale factor of the last [`hint`](Self::hint).
    fn scale_factor(&self) -> (r: Option<Scalar>)
        ensures
            r == self.hinted(),
    ;

    /// Resets the renderer to start drawing in the new bounds from scratch.
    fn reset(&mut self, new_bounds: Rectangle)
        ensures
            final(self).drawing() == (Drawing {
                bounds: new_bounds,
                commands: Seq::empty(),
                ..old(self).drawing()
            }),
            final(self).kept() == old(self).kept(),
            final(self).hinted() == old(self).hinted(),
            old(self).wf() ==> final(self).wf(),
    ;

    /// Polls any concurrent computations that may be pending.
    ///
    /// By default, it does nothing.
    fn tick(&mut self)
        ensures
            final(self).drawing() == old(self).drawing(),
            final(self).kept() == old(self).kept(),
            final(self).hinted() == old(self).hinted(),
            old(self).wf() ==> final(self).wf(),
    {
    }
}

/// A recording leaves the target that it interrupts as it was, whatever is recorded.
/// If it is kept, what was recorded is the last to wait for being rendered, and the
/// cache has been recorded; otherwise nothing changes at all. Recordings can be nested.
pub proof fn law_a_recording_leaves_the_target_alone<P>(
    drawing: Drawing<P>,
    id: u64,
    keep: bool,
    bounds: Rectangle,
    recorded: Seq<Command<P>>,
)
    ensures
        drawing.suspend(id, keep, bounds).extend(recorded).resume() == (if keep {
            Drawing {
                waiting: recording::enqueued(
                    drawing.waiting,
                    id,
                    Recorded { bounds, commands: recorded },
                ),
                stored: drawing.stored.insert(id),
                backed: drawing.backed.insert(id),
                ..drawing
            }
        } else {
            drawing
        }),
{
    let inside = drawing.suspend(id, keep, bounds).extend(recorded);
    assert(inside.commands =~= recorded);
    assert(inside.resume().suspended =~= drawing.suspended);
}

/// A cache that is recorded for the first time is not drawn before its recording has
/// been finished, and is drawn afterwards.
pub proof fn law_a_cache_is_drawn_once_it_is_recorded<P>(
    drawing: Drawing<P>,
    id: u64,
    bounds: Rectangle,
    recorded: Seq<Command<P>>,
)
    requires
        !drawing.backed.contains(id),
    ensures
        !drawing.suspend(id, true, bounds).extend(recorded).backed.contains(id),
        drawing.suspend(id, true, bounds).extend(recorded).resume().backed.contains(id),
{
}

/// Recording an operation appends it, and changes nothing else. Recording several is
/// recording them one after the other.
pub proof fn law_operations_are_appended<P>(
    drawing: Drawing<P>,
    command: Command<P>,
    commands: Seq<Command<P>>,
)
    ensures
        ({
            let after = drawing.record(command);
            &&& after.commands.len() == drawing.commands.len() + 1
            &&& after.commands.last() == command
            &&& after.commands.drop_last() == drawing.commands
            &&& after.bounds == drawing.bounds
            &&& after.suspended == drawing.suspended
            &&& after.waiting == drawing.waiting
            &&& after.stored == drawing.stored
            &&& after.backed == drawing.backed
        }),
        drawing.extend(commands).record(command) == drawing.extend(commands.push(command)),
        drawing.extend(Seq::empty()) == drawing,
{
    assert(drawing.record(command).commands.drop_last() =~= drawing.commands);
    assert(drawing.extend(commands).record(command) =~= drawing.extend(commands.push(command)));
    assert(drawing.extend(Seq::empty()) =~= drawing);
}

/// While a cache is recorded, what has been drawn before is put aside as it is, and the
/// recording starts with nothing in it. When it ends, the target it interrupted is
/// back, and what was recorded is the last to wait if it is kept. Recordings of other
/// caches that waited still wait, and those of the same cache do not.
pub proof fn law_a_recording_is_put_aside_and_taken_back<P>(
    drawing: Drawing<P>,
    id: u64,
    keep: bool,
    bounds: Rectangle,
    recorded: Seq<Command<P>>,
    other: u64,
)
    requires
        recording::distinct_pending(drawing.waiting),
    ensures
        ({
            let begun = drawing.suspend(id, keep, bounds);
            &&& begun.commands.len() == 0
            &&& begun.bounds == bounds
            &&& begun.suspended.last().id == id
            &&& begun.suspended.last().keep == keep
            &&& begun.suspended.last().recorded.commands == drawing.commands
            &&& begun.suspended.last().recorded.bounds == drawing.bounds
            &&& begun.waiting == drawing.waiting
            &&& begun.backed == drawing.backed
            &&& begun.stored.contains(other) <==> (drawing.stored.contains(other) || (keep && other
                == id))
        }),
        ({
            let ended = drawing.suspend(id, keep, bounds).extend(recorded).resume();
            &&& ended.commands == drawing.commands
            &&& ended.bounds == drawing.bounds
            &&& ended.suspended == drawing.suspended
            &&& !keep ==> ended.waiting == drawing.waiting
            &&& keep ==> ended.waiting.last().0 == id
            &&& keep ==> ended.waiting.last().1.commands == recorded
            &&& keep ==> ended.waiting.last().1.bounds == bounds
            &&& forall|i: int|
                0 <= i < drawing.waiting.len() && (#[trigger] drawing.waiting[i]).0 != id
                    ==> ended.waiting.contains(drawing.waiting[i])
            &&& forall|i: int, j: int|
                0 <= i < j < ended.waiting.len() ==> (#[trigger] ended.waiting[i]).0 != (
                #[trigger] ended.waiting[j]).0
            &&& ended.backed.contains(other) <==> (drawing.backed.contains(other) || (keep && other
                == id))
        }),
{
    law_a_recording_leaves_the_target_alone(drawing, id, keep, bounds, recorded);
    let ended = drawing.suspend(id, keep, bounds).extend(recorded).resume();
    let kept = Recorded { bounds, commands: recorded };
    recording::law_enqueued_is_pending(drawing.waiting, id, kept, other);
    assert forall|i: int|
        0 <= i < drawing.waiting.len() && (#[trigger] drawing.waiting[i]).0 != id implies
        ended.waiting.contains(drawing.waiting[i]) by {
        if keep {
            let that = drawing.waiting[i].0;
            recording::law_enqueued_is_pending(drawing.waiting, id, kept, that);
            assert(recording::pending_at(drawing.waiting, that, i));
        }
    }
}

/// Unless something else is asked for, a quad has no border and no shadow that can be
/// seen.
pub proof fn law_defaults_paint_nothing()
    ensures
        Border::default_spec().width.bits == 0,
        Border::default_spec().color.a.bits == 0,
        Border::default_spec().radius == Radius::zero_spec(),
        Shadow::default_spec().color.a.bits == 0,
        Shadow::default_spec().blur_radius.bits == 0,
        Shadow::default_spec().offset.x.bits == 0,
        Shadow::default_spec().offset.y.bits == 0,
        Radius::zero_spec().top_left.bits == 0,
        Radius::zero_spec().top_right.bits == 0,
        Radius::zero_spec().bottom_left.bits == 0,
        Radius::zero_spec().bottom_right.bits == 0,
{
}

/// Ending a recording where none is does nothing. A target that has been recorded for
/// is the same but for the scale factor, which is no longer a change.
pub proof fn law_what_is_settled_stays<P>(drawing: Drawing<P>, target: RecordTarget)
    ensures
        drawing.suspended.len() == 0 ==> drawing.resume() == drawing,
        target.settled().size == target.size,
        target.settled().physical_size == target.physical_size,
        target.settled().extent == target.extent,
        target.settled().scale_factor == target.scale_factor,
        !target.settled().scale_changed,
{
}

} // verus!
