//! Output transforms.

use xwlrvnc::util::transform::Transform;

const W: i32 = 4;
const H: i32 = 2;
const TL: (i32, i32) = (0, 0);
const TR: (i32, i32) = (W - 1, 0);
const BL: (i32, i32) = (0, H - 1);
const BR: (i32, i32) = (W - 1, H - 1);

fn corners(t: Transform) -> [(i32, i32); 4] {
    [TL, TR, BL, BR].map(|(x, y)| t.point(x, y, W, H))
}

#[test]
fn size_swaps_for_quarter_turns() {
    assert_eq!(Transform::Normal.size(4, 2), (4, 2));
    assert_eq!(Transform::Rotate90.size(4, 2), (2, 4));
    assert_eq!(Transform::Rotate180.size(4, 2), (4, 2));
    assert_eq!(Transform::Flipped270.size(4, 2), (2, 4));
}

#[test]
fn rotate90_turns_the_buffer_clockwise_on_screen() {
    // the content was turned 90 counter-clockwise into the buffer, so the
    // buffer turns clockwise to show it: top-left ends up top-right
    assert_eq!(corners(Transform::Rotate90), [(1, 0), (1, 3), (0, 0), (0, 3)]);
}

#[test]
fn rotate270_turns_the_buffer_counter_clockwise_on_screen() {
    assert_eq!(corners(Transform::Rotate270), [(0, 3), (0, 0), (1, 3), (1, 0)]);
}

#[test]
fn rotate180_mirrors_both_axes() {
    assert_eq!(corners(Transform::Rotate180), [(3, 1), (0, 1), (3, 0), (0, 0)]);
}

#[test]
fn flipped_mirrors_horizontally() {
    assert_eq!(corners(Transform::Flipped), [(3, 0), (0, 0), (3, 1), (0, 1)]);
    assert_eq!(corners(Transform::Flipped180), [(0, 1), (3, 1), (0, 0), (3, 0)]);
}

#[test]
fn flipped_quarter_turns_transpose() {
    assert_eq!(corners(Transform::Flipped90), [(0, 0), (0, 3), (1, 0), (1, 3)]);
    assert_eq!(corners(Transform::Flipped270), [(1, 3), (1, 0), (0, 3), (0, 0)]);
}

fn all() -> [Transform; 8] {
    [
        Transform::Normal,
        Transform::Rotate90,
        Transform::Rotate180,
        Transform::Rotate270,
        Transform::Flipped,
        Transform::Flipped90,
        Transform::Flipped180,
        Transform::Flipped270,
    ]
}

#[test]
fn every_transform_is_a_bijection_onto_the_transformed_size() {
    for t in all() {
        let (tw, th) = t.size(W as u32, H as u32);
        let mut seen = vec![false; (tw * th) as usize];
        for y in 0..H {
            for x in 0..W {
                let (dx, dy) = t.point(x, y, W, H);
                assert!(dx >= 0 && dx < tw as i32 && dy >= 0 && dy < th as i32, "{t:?}");
                let i = (dy * tw as i32 + dx) as usize;
                assert!(!seen[i], "{t:?} maps two pixels to {dx},{dy}");
                seen[i] = true;
            }
        }
    }
}

#[test]
fn rect_covers_its_points() {
    let t = Transform::Rotate90;
    let (x, y, w, h) = t.rect((1, 0, 2, 1), W, H);
    // the two pixels (1,0) and (2,0) land at (1,1) and (1,2)
    assert_eq!(t.point(1, 0, W, H), (1, 1));
    assert_eq!(t.point(2, 0, W, H), (1, 2));
    assert_eq!((x, y, w, h), (1, 1, 1, 2));
}

#[test]
fn the_pixel_under_a_point_is_the_one_that_lands_there() {
    for t in all() {
        for y in 0..H {
            for x in 0..W {
                let (dx, dy) = t.point(x, y, W, H);
                assert_eq!(
                    t.point_under(dx as u32, dy as u32, W as u32, H as u32),
                    (x as u32, y as u32),
                    "{t:?}"
                );
            }
        }
    }
}
