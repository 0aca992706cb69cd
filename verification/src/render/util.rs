use vstd::prelude::*;
use crate::render::mesh::quad::TexelTexture;
use crate::render::texture::AtlasRect;

verus! {

/// The outcome of presenting a frame.
#[derive(Copy, Clone, Debug, PartialEq, Eq, Structural)]
pub enum RenderState {
    Optimal,
    Suboptimal,
    OutOfDate,
}

/// `<[T]>::reverse` from std, which reverses the order of the elements in place.
#[verifier::external_body]
fn reverse_array<T, const N: usize>(a: &mut [T; N])
    ensures
        final(a)@ == old(a)@.reverse(),
{
    a.reverse()
}

/// An array with its elements in the opposite order.
pub trait Reversed: Sized {
    fn reversed(self) -> Self;
}

impl<T, const N: usize> Reversed for [T; N] {
    fn reversed(self) -> (r: Self)
        ensures
            r@ == self@.reverse(),
    {
        let mut a = self;
        reverse_array(&mut a);
        a
    }
}

#[verifier::external_type_specification]
#[verifier::external_body]
pub struct ExSystemTimeError(std::time::SystemTimeError);

/// `SystemTime::elapsed` from std, on the Unix epoch: the time since then by
/// the system clock, or an error when the clock stands before it. What comes
/// back depends on the clock, so nothing is said of it.
#[verifier::external_body]
fn time_since_epoch() -> (r: Result<std::time::Duration, std::time::SystemTimeError>) {
    std::time::UNIX_EPOCH.elapsed()
}

/// The part of a duration below a whole second, in nanoseconds, as
/// `Duration::subsec_nanos` gives it.
pub uninterp spec fn duration_subsec_nanos(d: std::time::Duration) -> u32;

/// `Duration::subsec_nanos` from std: the part of the duration below a whole
/// second, in nanoseconds, so less than a second.
#[verifier::external_body]
fn subsec_nanos(d: &std::time::Duration) -> (n: u32)
    ensures
        n == duration_subsec_nanos(*d),
        n < 1_000_000_000,
{
    d.subsec_nanos()
}

/// The place of an atlas rectangle as the shaders read it.
pub trait BoxToUV {
    fn to_quad_uv(self) -> TexelTexture;
}

impl BoxToUV for AtlasRect {
    /// The corner and the extent, each coordinate cut to its low 16 bits.
    fn to_quad_uv(self) -> (r: TexelTexture)
        ensures
            r.offset == [self.min_x as u16, self.min_y as u16],
            r.size == [(self.max_x - self.min_x) as u16, (self.max_y - self.min_y) as u16],
    {
        let width = (self.max_x as i64 - self.min_x as i64) as u16;
        let height = (self.max_y as i64 - self.min_y as i64) as u16;
        TexelTexture::new([self.min_x as u16, self.min_y as u16], [width, height])
    }
}

/// Per-frame values handed to the shaders.
#[derive(Copy, Clone, Debug)]
pub struct ProgramInfo {
    pub frame_number: u32,
    pub start: u32,
}

impl ProgramInfo {
    /// Frame zero, with the nanoseconds of the current second as a seed (zero
    /// when the system clock stands before the Unix epoch).
    pub fn new() -> (r: Self)
        ensures
            r.frame_number == 0,
            r.start < 1_000_000_000,
    {
        Self::from_elapsed(time_since_epoch())
    }

    /// Frame zero, seeded by the time since the Unix epoch: the nanoseconds of
    /// its last second, or zero when the clock stood before the epoch.
    pub fn from_elapsed(elapsed: Result<std::time::Duration, std::time::SystemTimeError>) -> (r: Self)
        ensures
            r.frame_number == 0,
            r.start == match elapsed {
                Ok(d) => duration_subsec_nanos(d),
                Err(_) => 0u32,
            },
            r.start < 1_000_000_000,
    {
        let start = match elapsed {
            Ok(d) => subsec_nanos(&d),
            Err(_) => 0,
        };
        Self { frame_number: 0, start }
    }
}

impl Default for ProgramInfo {
    fn default() -> (r: Self)
        ensures
            r.frame_number == 0,
            r.start < 1_000_000_000,
    {
        ProgramInfo::new()
    }
}

} // verus!
