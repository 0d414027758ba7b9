use mapgen::bitmap::Bitmap;
use mapgen::coast::{
    any_surrounding, build_coastline_map, coastline_points, flow_action, neighbour_offset, ocean_neighbours, FlowAction,
};
use mapgen::color::Rgb;
use mapgen::grid::{GridError, Wrapping2DArray};
use mapgen::upscale::{upscale, Block};
use mapgen::vectors::Vec2;

#[test]
fn integer_vectors() {
    let a = Vec2::new(3, -4);
    let b = Vec2::new(2, 5);
    assert_eq!(a.dot(&b), -14);
    assert_eq!(a.length_sqr(), 25);
    assert_eq!(a.scale(-2), Vec2::new(-6, 8));
    assert_eq!(Vec2::<i32>::zero(), Vec2::new(0, 0));
    assert_eq!(Vec2::<i32>::unit_x(), Vec2::new(1, 0));
    assert_eq!(Vec2::<i32>::unit_y(), Vec2::new(0, 1));
    let m = Vec2::new(i32::MIN, i32::MIN);
    assert_eq!(m.length_sqr(), 2 * (1i128 << 62));
}

#[test]
fn colour_tuple() {
    let c = Rgb { r: 0x9F, g: 0x81, b: 0x70 };
    assert_eq!(c.to_tuple(), (0x9F, 0x81, 0x70));
}

#[test]
fn bitmap_pixels_and_file() {
    let mut bmp = Bitmap::new(2, 2);
    bmp.set_pixel(0, 0, Rgb { r: 1, g: 2, b: 3 });
    bmp.set_pixel(1, 1, Rgb { r: 4, g: 5, b: 6 });
    let bytes = bmp.file_bytes();
    // two rows of 2 * 3 bytes, each padded by 2 bytes
    assert_eq!(bytes.len(), 54 + 16);
    assert_eq!(&bytes[0..2], b"BM");
    assert_eq!(&bytes[2..6], &[70, 0, 0, 0]);
    assert_eq!(&bytes[10..14], &[54, 0, 0, 0]);
    assert_eq!(&bytes[14..18], &[40, 0, 0, 0]);
    assert_eq!(&bytes[18..22], &[2, 0, 0, 0]);
    assert_eq!(&bytes[22..26], &[2, 0, 0, 0]);
    assert_eq!(&bytes[26..30], &[1, 0, 24, 0]);
    assert_eq!(&bytes[34..38], &[16, 0, 0, 0]);
    assert_eq!(&bytes[38..42], &[72, 0, 0, 0]);
    // the bottom row comes first
    assert_eq!(&bytes[54..62], &[0, 0, 0, 6, 5, 4, 0, 0]);
    assert_eq!(&bytes[62..70], &[3, 2, 1, 0, 0, 0, 0, 0]);
}

#[test]
fn bitmap_width_multiple_of_four_has_no_padding() {
    let bmp = Bitmap::new(4, 1);
    assert_eq!((bmp.width(), bmp.height()), (4, 1));
    assert_eq!(bmp.file_bytes().len(), 54 + 12);
}

fn island() -> Wrapping2DArray<bool> {
    // 5 by 4 grid: land ('#') in the middle, sea around it
    let rows = [".....", ".##..", ".###.", "....."];
    Wrapping2DArray::from_fn(5, 4, |x, y| rows[y as usize].as_bytes()[x as usize] == b'.').unwrap()
}

#[test]
fn neighbourhood_offsets_in_order() {
    let all: Vec<(i32, i32)> = (0..9).map(|k| neighbour_offset(k)).map(|v| (v.x, v.y)).collect();
    assert_eq!(all, vec![(-1, -1), (0, -1), (1, -1), (-1, 0), (0, 0), (1, 0), (-1, 1), (0, 1), (1, 1)]);
}

#[test]
fn ocean_neighbours_wrap_around() {
    let sea = island();
    let around: Vec<(i32, i32)> = ocean_neighbours(&sea, 2, 2).iter().map(|v| (v.x, v.y)).collect();
    assert_eq!(around, vec![(1, -1), (-1, 1), (0, 1), (1, 1)]);
    let corner: Vec<(i32, i32)> = ocean_neighbours(&sea, 0, 0).iter().map(|v| (v.x, v.y)).collect();
    assert_eq!(corner, vec![(-1, -1), (0, -1), (1, -1), (-1, 0), (0, 0), (1, 0), (-1, 1), (0, 1)]);
}

#[test]
fn surrounding_is_clipped_to_the_grid() {
    let mut sea = Wrapping2DArray::from_elem(3, 3, false).unwrap();
    sea.set(2, 2, true);
    assert!(!any_surrounding(&sea, 0, 0));
    assert!(any_surrounding(&sea, 1, 1));
    assert!(any_surrounding(&sea, 2, 2));
    let mut wrapped = Wrapping2DArray::from_elem(3, 3, false).unwrap();
    wrapped.set(2, 0, true);
    assert!(!any_surrounding(&wrapped, 0, 0));
}

#[test]
fn coastline_is_every_land_cell_beside_sea() {
    let sea = island();
    assert_eq!(coastline_points(&sea), vec![(1, 1), (2, 1), (1, 2), (2, 2), (3, 2)]);
    let tree = build_coastline_map(&sea).unwrap();
    assert_eq!(tree.find_nearest(&(0, 0)), Some((1, 1)));
    assert_eq!(tree.find_nearest(&(4, 3)), Some((3, 2)));
    let all_sea = Wrapping2DArray::from_elem(3, 3, true).unwrap();
    assert!(coastline_points(&all_sea).is_empty());
    assert!(build_coastline_map(&all_sea).is_none());
}

fn bilinear(b: Block<i64>, fx: i32, fy: i32, d: i32) -> i64 {
    let (fx, fy, d) = (fx as i64, fy as i64, d as i64);
    (b.x0y0 * (d - fx) * (d - fy) + b.x1y0 * fx * (d - fy) + b.x0y1 * (d - fx) * fy + b.x1y1 * fx * fy) / (d * d)
}

#[test]
fn upscale_by_one_is_identity() {
    let g = Wrapping2DArray::from_fn(4, 3, |x, y| (x * 7 + y * 3) as i64).unwrap();
    let up = upscale(&g, 1, bilinear).unwrap();
    assert_eq!(up.width(), 4);
    assert_eq!(up.height(), 3);
    assert_eq!(up.iter().copied().collect::<Vec<i64>>(), g.iter().copied().collect::<Vec<i64>>());
}

#[test]
fn upscale_interpolates_between_cells() {
    let g = Wrapping2DArray::from_fn(2, 1, |x, _| (x * 8) as i64).unwrap();
    let up = upscale(&g, 2, bilinear).unwrap();
    assert_eq!((up.width(), up.height()), (4, 2));
    assert_eq!(up.iter().copied().collect::<Vec<i64>>(), vec![0, 4, 8, 4, 0, 4, 8, 4]);
    assert_eq!(upscale(&g, 0, bilinear).err(), Some(GridError::NonPositiveDimensions));
    assert_eq!(upscale(&g, i32::MAX, bilinear).err(), Some(GridError::TooLarge));
}

#[test]
fn flow_decisions() {
    let sea = island();
    assert_eq!(flow_action(&sea, 2, 2, false), FlowAction::Still);
    assert_eq!(flow_action(&sea, 0, 0, true), FlowAction::Advect);
    assert_eq!(
        flow_action(&sea, 2, 2, true),
        FlowAction::Push(vec![Vec2::new(1, -1), Vec2::new(-1, 1), Vec2::new(0, 1), Vec2::new(1, 1)])
    );
    let land = Wrapping2DArray::from_elem(3, 3, false).unwrap();
    assert_eq!(flow_action(&land, 1, 1, true), FlowAction::Trapped);
}
