use voxel::render::util::{ProgramInfo, RenderState, Reversed};
use voxel::server::components::{Gravity, PhysicsEntity};
use voxel::util::int_vec::{IVec2, IVec3, UVec2, UVec3};
use voxel::util::more_vec::{UsizeVec2, UsizeVec3};
use voxel::util::nd_array::{CubeArray, SquareArray};
use voxel::util::util::{AdditionalSwizzles, Axis, Facing, Sign, UVecToSigned};

#[test]
fn facing_numbers_round_trip() {
    for n in 0..6 {
        assert_eq!(Facing::from_num(n).to_num(), n);
    }
    assert_eq!(Facing::right().to_num(), 0);
    assert_eq!(Facing::left().to_num(), 1);
    assert_eq!(Facing::up().to_num(), 2);
    assert_eq!(Facing::down().to_num(), 3);
    assert_eq!(Facing::forward().to_num(), 4);
    assert_eq!(Facing::back().to_num(), 5);
    assert_eq!(Facing::new(Axis::Y, Sign::Negative).to_num(), 3);
}

#[test]
fn facing_opposite_is_an_involution() {
    for n in 0..6 {
        let f = Facing::from_num(n);
        let o = f.opposite();
        assert_eq!(o.axis, f.axis);
        assert_ne!(o.sign, f.sign);
        assert_eq!(o.opposite(), f);
    }
    assert_eq!(Facing::up().opposite(), Facing::down());
}

#[test]
fn swizzles_and_signs() {
    assert_eq!(IVec3::new(1, 2, 3).xz(), IVec2::new(1, 3));
    assert_eq!(UVec3::new(4, 5, 6).signed(), IVec3::new(4, 5, 6));
    assert_eq!(UVec2::new(7, 8).signed(), IVec2::new(7, 8));
    assert_eq!(UVec2::new(u32::MAX, 0).signed(), IVec2::new(-1, 0));
}

#[test]
fn usize_vectors() {
    let t3 = |v: UsizeVec3| (v.x, v.y, v.z);
    let t2 = |v: UsizeVec2| (v.x, v.y);
    let v = UsizeVec3::new(1, 2, 3);
    assert_eq!(t3(v * 2), (2, 4, 6));
    assert_eq!(t3(v + UsizeVec3::new(1, 1, 1)), (2, 3, 4));
    assert_eq!(t3(UsizeVec3::from((7, 8, 9))), (7, 8, 9));
    assert_eq!(t3(UsizeVec3::from(UVec3::new(1, 0, 2))), (1, 0, 2));
    assert_eq!(t2(UsizeVec2::new(3, 4) * 3), (9, 12));
    assert_eq!(t2(UsizeVec2::from((5, 6))), (5, 6));
}

#[test]
fn nd_arrays() {
    let c: CubeArray<u8, 3> = CubeArray::fill_copy(5);
    assert_eq!(*c.index(UsizeVec3::new(2, 1, 0)), 5);
    let mut inner = [[[0u8; 2]; 2]; 2];
    inner[1][0][1] = 9;
    let c = CubeArray::from(inner);
    assert_eq!(*c.index(UsizeVec3::new(1, 0, 1)), 9);
    let s: SquareArray<u16, 4> = SquareArray::fill_copy(2);
    assert_eq!(*s.index(UsizeVec2::new(3, 3)), 2);
    let mut sq = [[0u16; 2]; 2];
    sq[0][1] = 4;
    assert_eq!(*SquareArray::from(sq).index(UsizeVec2::new(0, 1)), 4);
}

#[test]
fn reversed_arrays() {
    assert_eq!([1, 2, 3].reversed(), [3, 2, 1]);
    assert_eq!([true; 0].reversed(), [true; 0]);
}

#[test]
fn program_info_starts_at_frame_zero() {
    let p = ProgramInfo::new();
    assert_eq!(p.frame_number, 0);
    assert!(p.start < 1_000_000_000);
    let d = ProgramInfo::default();
    assert_eq!(d.frame_number, 0);
}

#[test]
fn program_info_seed_is_the_sub_second_part() {
    let p = ProgramInfo::from_elapsed(Ok(std::time::Duration::new(5, 123_456)));
    assert_eq!(p.frame_number, 0);
    assert_eq!(p.start, 123_456);
    let later = std::time::UNIX_EPOCH + std::time::Duration::from_secs(10);
    let before = std::time::UNIX_EPOCH.duration_since(later);
    assert!(before.is_err());
    let q = ProgramInfo::from_elapsed(before);
    assert_eq!((q.frame_number, q.start), (0, 0));
}

#[test]
fn render_states_differ() {
    assert_ne!(RenderState::Optimal, RenderState::Suboptimal);
    assert_ne!(RenderState::Suboptimal, RenderState::OutOfDate);
}

#[test]
fn components_are_markers() {
    let _ = (PhysicsEntity, Gravity);
}
