//! What the renderer works out before it talks to the graphics device.

use vstd::prelude::*;

verus! {

/// The size of a texture, in pixels.
#[derive(Debug, Copy, Clone, PartialEq, Eq, Structural)]
pub struct TextureInfo {
    pub width: u32,
    pub height: u32,
}

impl TextureInfo {
    pub fn new(width: u32, height: u32) -> (r: TextureInfo)
        ensures
            r == (TextureInfo { width, height }),
    {
        TextureInfo { width, height }
    }
}

impl Default for TextureInfo {
    fn default() -> (r: TextureInfo)
        ensures
            r == (TextureInfo { width: 0, height: 0 }),
    {
        TextureInfo { width: 0, height: 0 }
    }
}

/// The two off-screen buffers that take turns as the screen. `T` is what
/// the application keeps for a buffer.
pub struct MainRenderViews<T> {
    buffers: [T; 2],
    main: usize,
}

/// The render views as mathematical values.
pub struct ViewsModel<T> {
    pub buffers: Seq<T>,
    /// Which of the two buffers is the screen: 0 or 1.
    pub main: int,
}

impl<T> View for MainRenderViews<T> {
    type V = ViewsModel<T>;

    closed spec fn view(&self) -> ViewsModel<T> {
        ViewsModel { buffers: self.buffers@, main: self.main as int }
    }
}

impl<T> MainRenderViews<T> {
    #[verifier::type_invariant]
    spec fn inv(self) -> bool {
        self.main < 2
    }

    /// The views over two buffers; the first is the screen.
    pub fn new(buffer_a: T, buffer_b: T) -> (r: Self)
        ensures
            r@.buffers == seq![buffer_a, buffer_b],
            r@.main == 0,
    {
        let r = MainRenderViews { buffers: [buffer_a, buffer_b], main: 0 };
        assert(r.buffers@ =~= seq![buffer_a, buffer_b]);
        r
    }

    /// The buffer that is the screen.
    pub fn get_screen(&self) -> (r: &T)
        ensures
            0 <= self@.main < 2,
            self@.buffers.len() == 2,
            *r == self@.buffers[self@.main],
    {
        proof {
            use_type_invariant(self);
        }
        &self.buffers[self.main]
    }

    /// Makes the other buffer the screen. Returns the buffer that was the
    /// screen, to read the last frame from, and the one that is now.
    pub fn swap_screen(&mut self) -> (r: (&T, &T))
        ensures
            0 <= old(self)@.main < 2,
            old(self)@.buffers.len() == 2,
            *r.0 == old(self)@.buffers[old(self)@.main],
            *r.1 == old(self)@.buffers[1 - old(self)@.main],
            final(self)@.main == 1 - old(self)@.main,
            final(self)@.buffers == old(self)@.buffers,
    {
        proof {
            use_type_invariant(&*self);
        }
        let src = self.main;
        self.main = 1 - self.main;
        let dst = self.main;
        (&self.buffers[src], &self.buffers[dst])
    }
}

/// How many waves the water effect shows at most.
pub const WAVE_SLOTS: u16 = 8;

/// The place within one wave's four corners of the `k`-th index of its two
/// triangles.
pub open spec fn corner(k: int) -> int {
    if k == 0 {
        0
    } else if k == 1 || k == 3 {
        1
    } else if k == 2 || k == 4 {
        2
    } else {
        3
    }
}

/// The `k`-th entry of the water effect's index buffer: six indices for
/// each wave, which make two triangles of the wave's four vertices.
pub open spec fn wave_index(k: int) -> int {
    (k / 6) * 4 + corner(k % 6)
}

/// The index buffer of the water effect.
pub fn wave_indices() -> (r: Vec<u16>)
    ensures
        r@.len() == 6 * WAVE_SLOTS,
        forall|k: int| 0 <= k < r@.len() ==> r@[k] == wave_index(k),
{
    let mut indices: Vec<u16> = Vec::new();
    let mut slot: u16 = 0;
    while slot < WAVE_SLOTS
        invariant
            slot <= WAVE_SLOTS,
            indices@.len() == 6 * slot,
            forall|k: int| 0 <= k < indices@.len() ==> indices@[k] == wave_index(k),
        decreases WAVE_SLOTS - slot,
    {
        let base: u16 = slot * 4;
        indices.push(base);
        indices.push(base + 1);
        indices.push(base + 2);
        indices.push(base + 1);
        indices.push(base + 2);
        indices.push(base + 3);
        slot += 1;
    }
    indices
}

/// The number of bytes that a screenshot of the given size takes, four for
/// each pixel.
pub fn screenshot_len(width: u32, height: u32) -> (r: u64)
    requires
        width as int * height as int * 4 <= u64::MAX,
    ensures
        r == width as int * height as int * 4,
{
    assert(width as int * height as int <= 0xffff_fffe_0000_0001) by (nonlinear_arith)
        requires
            width <= 0xffff_ffff,
            height <= 0xffff_ffff,
    ;
    (width as u64) * (height as u64) * 4
}

/// The number of bytes in one row of a screenshot, where the device can
/// take it: not for a width of zero, nor for one whose row does not fit a
/// u32.
pub fn bytes_per_row(width: u32) -> (r: Option<u32>)
    ensures
        r == (if 0 < width && width as int * 4 <= u32::MAX {
            Some((width * 4) as u32)
        } else {
            None
        }),
{
    if width == 0 || width > u32::MAX / 4 {
        None
    } else {
        Some(width * 4)
    }
}

} // verus!
