use raytracer::bvh::BvhLayout;
use raytracer::camera::RenderSettings;
use raytracer::checkered::checker_cell_is_even;
use raytracer::color::ppm_color_line;
use raytracer::text::{decimal_len, push_decimal, push_zero_padded};
use raytracer::utils::random_int_range;

fn collect_objects(layout: &BvhLayout, out: &mut Vec<usize>) {
    match layout {
        BvhLayout::Leaf { first, second } => {
            out.push(*first);
            if second != first {
                out.push(*second);
            }
        }
        BvhLayout::Split { left, right, .. } => {
            collect_objects(left, out);
            collect_objects(right, out);
        }
    }
}

fn depth(layout: &BvhLayout) -> usize {
    match layout {
        BvhLayout::Leaf { .. } => 1,
        BvhLayout::Split { left, right, .. } => 1 + depth(left).max(depth(right)),
    }
}

fn settings(width: usize, prefix: &str) -> RenderSettings {
    let mut settings = RenderSettings::default();
    settings.image_width = width;
    settings.samples_per_pixel = 50;
    settings.max_depth = 50;
    settings.filename_prefix = prefix.to_string();
    settings.output_dir = "output/".to_string();
    settings
}

#[test]
fn decimal_text_of_numbers() {
    let mut s = String::new();
    push_decimal(&mut s, 0);
    assert_eq!(s, "0");
    let mut s = String::from("x");
    push_decimal(&mut s, 1920);
    assert_eq!(s, "x1920");
    let mut s = String::new();
    push_decimal(&mut s, u64::MAX);
    assert_eq!(s, u64::MAX.to_string());
    assert_eq!(decimal_len(0), 1);
    assert_eq!(decimal_len(9), 1);
    assert_eq!(decimal_len(10), 2);
    assert_eq!(decimal_len(u64::MAX), 20);
}

#[test]
fn zero_padded_text_matches_format_width_four() {
    for n in [0u64, 7, 42, 999, 1000, 9999, 10000, 123456] {
        let mut s = String::new();
        push_zero_padded(&mut s, n, 4);
        assert_eq!(s, format!("{:04}", n));
    }
}

#[test]
fn ppm_color_line_lists_channels() {
    assert_eq!(ppm_color_line(255, 0, 17), "255 0 17\n");
    assert_eq!(ppm_color_line(0, 0, 0), "0 0 0\n");
}

#[test]
fn checker_picks_by_parity_of_cell_sum() {
    assert!(checker_cell_is_even(0, 0, 0));
    assert!(!checker_cell_is_even(1, 0, 0));
    assert!(!checker_cell_is_even(-1, 0, 0));
    assert!(checker_cell_is_even(-1, -1, 0));
    assert!(!checker_cell_is_even(-3, 0, 0));
    assert!(checker_cell_is_even(3, 4, -7));
}

#[test]
fn checker_neighbours_alternate() {
    for x in -3..3 {
        for y in -3..3 {
            for z in -3..3 {
                let here = checker_cell_is_even(x, y, z);
                assert_ne!(here, checker_cell_is_even(x + 1, y, z));
                assert_ne!(here, checker_cell_is_even(x, y + 1, z));
                assert_ne!(here, checker_cell_is_even(x, y, z + 1));
            }
        }
    }
}

#[test]
fn bvh_single_object_is_doubled_leaf() {
    let layout = BvhLayout::new(1);
    assert!(matches!(layout, BvhLayout::Leaf { first: 0, second: 0 }));
}

#[test]
fn bvh_two_objects_share_a_leaf() {
    let layout = BvhLayout::new(2);
    assert!(matches!(layout, BvhLayout::Leaf { first: 0, second: 1 }));
}

#[test]
fn bvh_five_objects_split_in_halves() {
    let layout = BvhLayout::new_span(3, 8);
    match layout {
        BvhLayout::Split { start, end, left, right } => {
            assert_eq!((start, end), (3, 8));
            assert!(matches!(*left, BvhLayout::Leaf { first: 3, second: 4 }));
            match *right {
                BvhLayout::Split { start, end, left, right } => {
                    assert_eq!((start, end), (5, 8));
                    assert!(matches!(*left, BvhLayout::Leaf { first: 5, second: 5 }));
                    assert!(matches!(*right, BvhLayout::Leaf { first: 6, second: 7 }));
                }
                _ => panic!("expected a split"),
            }
        }
        _ => panic!("expected a split"),
    }
}

#[test]
fn bvh_covers_every_object_once_and_is_balanced() {
    for n in 1..200usize {
        let layout = BvhLayout::new(n);
        let mut objects = Vec::new();
        collect_objects(&layout, &mut objects);
        assert_eq!(objects, (0..n).collect::<Vec<_>>());
        let d = depth(&layout);
        if n >= 2 {
            assert!(1usize << (d - 1) < n);
        } else {
            assert_eq!(d, 1);
        }
    }
}

#[test]
fn initialize_fills_defaults() {
    let mut s = settings(400, "test_image");
    s.initialize(225);
    assert_eq!(s.num_frames, 1);
    assert_eq!(s.file_extension, "ppm");
    assert_eq!(s.image_height, 225);
    assert!(s.initialized);
    assert_eq!(s.image_width, 400);
}

#[test]
fn initialize_keeps_given_values_and_height_at_least_one() {
    let mut s = settings(10, "clip");
    s.num_frames = 5;
    s.file_extension = "txt".to_string();
    s.initialize(0);
    assert_eq!(s.num_frames, 5);
    assert_eq!(s.file_extension, "txt");
    assert_eq!(s.image_height, 1);
}

#[test]
fn default_settings_are_empty() {
    let s = RenderSettings::default();
    assert_eq!(s.image_width, 0);
    assert_eq!(s.num_frames, 0);
    assert_eq!(s.image_height, 0);
    assert!(!s.initialized);
    assert!(s.filename_prefix.is_empty());
}

#[test]
fn single_frame_file_name_has_no_number() {
    let mut s = settings(400, "test_image");
    s.initialize(225);
    assert_eq!(s.frame_file_name(0), "test_image.ppm");
}

#[test]
fn movie_frame_file_names_are_numbered() {
    let mut s = settings(400, "test_image");
    s.num_frames = 5;
    s.initialize(225);
    assert_eq!(s.frame_file_name(0), "test_image_0000.ppm");
    assert_eq!(s.frame_file_name(3), "test_image_0003.ppm");
    assert_eq!(s.frame_file_name(12345), "test_image_12345.ppm");
}

#[test]
fn movie_frame_file_names_are_distinct() {
    let mut s = settings(4, "f");
    s.num_frames = 20000;
    s.initialize(2);
    let mut names: Vec<String> = (0..20000).map(|f| s.frame_file_name(f)).collect();
    names.sort();
    names.dedup();
    assert_eq!(names.len(), 20000);
}

#[test]
fn ppm_header_text() {
    let mut s = settings(1920, "many_spheres");
    s.initialize(1080);
    assert_eq!(s.ppm_header(), "P3\n1920 1080\n255\n");
}

#[test]
fn pixel_count_is_width_times_height() {
    let mut s = settings(400, "x");
    s.initialize(225);
    assert_eq!(s.pixel_count(), 90000);
}

#[test]
fn pixel_coords_are_row_major() {
    let mut s = settings(4, "x");
    s.initialize(3);
    assert_eq!(s.pixel_coords(0), (0, 0));
    assert_eq!(s.pixel_coords(3), (3, 0));
    assert_eq!(s.pixel_coords(4), (0, 1));
    assert_eq!(s.pixel_coords(11), (3, 2));
}

#[test]
fn pixel_coords_visit_every_pixel_once_in_scan_order() {
    let mut s = settings(7, "x");
    s.initialize(5);
    let mut expected = Vec::new();
    for j in 0..5 {
        for i in 0..7 {
            expected.push((i, j));
        }
    }
    let got: Vec<(usize, usize)> = (0..s.pixel_count()).map(|k| s.pixel_coords(k)).collect();
    assert_eq!(got, expected);
}

#[test]
fn random_int_range_stays_in_range() {
    for _ in 0..1000 {
        let v = random_int_range(10, 12);
        assert!(v == 10 || v == 11);
    }
    assert_eq!(random_int_range(-5, -4), -5);
}
