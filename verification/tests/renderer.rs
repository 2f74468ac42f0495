use neuroevolution::renderer::Renderer;

fn first_octant(radius: i32) -> Vec<(i32, i32)> {
    Renderer::draw_circle(0, 0, radius).chunks(8).map(|c| c[0]).collect()
}

#[test]
fn circle_of_negative_radius_has_no_pixels() {
    assert_eq!(Renderer::draw_circle(10, 10, -1), vec![]);
    assert_eq!(Renderer::draw_circle(0, 0, i32::MIN), vec![]);
}

#[test]
fn circle_of_radius_zero_is_its_centre() {
    assert_eq!(Renderer::draw_circle(3, -4, 0), vec![(3, -4); 8]);
}

#[test]
fn circle_of_radius_one() {
    assert_eq!(
        Renderer::draw_circle(0, 0, 1),
        vec![(1, 0), (0, 1), (-1, 0), (0, 1), (-1, 0), (0, -1), (1, 0), (0, -1)]
    );
}

#[test]
fn circle_of_radius_three_about_a_centre() {
    assert_eq!(
        Renderer::draw_circle(10, 20, 3),
        vec![
            (13, 20), (10, 23), (7, 20), (10, 23), (7, 20), (10, 17), (13, 20), (10, 17),
            (13, 21), (11, 23), (7, 21), (9, 23), (7, 19), (9, 17), (13, 19), (11, 17),
            (12, 22), (12, 22), (8, 22), (8, 22), (8, 18), (8, 18), (12, 18), (12, 18),
        ]
    );
}

#[test]
fn first_octant_of_some_circles() {
    assert_eq!(first_octant(2), vec![(2, 0), (2, 1)]);
    assert_eq!(first_octant(4), vec![(4, 0), (4, 1), (3, 2), (3, 3)]);
    assert_eq!(first_octant(12).len(), 9);
}

#[test]
fn every_pixel_lies_within_half_a_pixel_of_the_circle() {
    for radius in 0..200 {
        let points = Renderer::draw_circle(0, 0, radius);
        assert_eq!(points.len() % 8, 0);
        assert!(!points.is_empty());
        for (row, chunk) in points.chunks(8).enumerate() {
            let (x, y) = chunk[0];
            assert_eq!(y as usize, row);
            assert!(x >= y);
            let miss = (x as i64) * (x as i64) + (y as i64) * (y as i64) - (radius as i64) * (radius as i64);
            assert!(-(x as i64) <= miss && miss <= x as i64);
            assert_eq!(
                chunk.to_vec(),
                vec![(x, y), (y, x), (-x, y), (-y, x), (-x, -y), (-y, -x), (x, -y), (y, -x)]
            );
        }
    }
}

#[test]
fn circle_at_the_edge_of_the_coordinates() {
    let points = Renderer::draw_circle(i32::MAX - 5, i32::MIN + 5, 5);
    assert_eq!(points[0], (i32::MAX, i32::MIN + 5));
    assert_eq!(points[5], (i32::MAX - 5, i32::MIN));
}
