//! Runtime checks of the effect stages on small concrete rasters.

use ortho_filter::raster::Raster;
use ortho_filter::noise::adjust_noise;

fn solid(width: u32, height: u32, r: u8, g: u8, b: u8, a: u8) -> Raster {
    let n = (width as usize) * (height as usize);
    let mut data: Vec<u8> = Vec::with_capacity(4 * n);
    for _ in 0..n {
        data.push(r);
        data.push(g);
        data.push(b);
        data.push(a);
    }
    Raster::from_raw(width, height, data)
}

#[test]
fn color_filter_white_2x2() {
    let mut r = solid(2, 2, 255, 255, 255, 255);
    r.apply_color_filter();
    for y in 0..2 {
        for x in 0..2 {
            assert_eq!(r.pixel(x, y), (225, 225, 225, 255));
        }
    }
}

#[test]
fn color_filter_greyscale_and_alpha() {
    let data: Vec<u8> = vec![
        10, 200, 30, 7, //
        255, 0, 0, 0, //
        100, 100, 100, 128, //
        0, 0, 0, 255,
    ];
    let mut r = Raster::from_raw(4, 1, data);
    r.apply_color_filter();
    let alphas = [7u8, 0, 128, 255];
    for x in 0..4 {
        let (pr, pg, pb, pa) = r.pixel(x, 0);
        assert_eq!(pr, pg);
        assert_eq!(pg, pb);
        assert_eq!(pa, alphas[x as usize]);
    }
    // (10, 200, 30): red reduced to 0, grey = (0 + 200 + 30) / 3 = 76
    assert_eq!(r.pixel(0, 0), (76, 76, 76, 7));
    // (255, 0, 0): red reduced to 165, grey = 165 / 3 = 55
    assert_eq!(r.pixel(1, 0), (55, 55, 55, 0));
    // (100, 100, 100): grey = (10 + 100 + 100) / 3 = 70
    assert_eq!(r.pixel(2, 0), (70, 70, 70, 128));
}

#[test]
fn color_filter_saturating_red() {
    let data: Vec<u8> = vec![
        90, 0, 0, 7, //
        93, 0, 0, 9,
    ];
    let mut r = Raster::from_raw(2, 1, data);
    r.apply_color_filter();
    assert_eq!(r.pixel(0, 0), (0, 0, 0, 7));
    assert_eq!(r.pixel(1, 0), (1, 1, 1, 9));
}

#[test]
fn vignette_center_even() {
    let mut r = solid(2, 2, 100, 100, 100, 255);
    r.apply_vignette();
    // center pixel of an even-sized image: distance 0, factor 1
    assert_eq!(r.pixel(1, 1), (100, 100, 100, 255));
    // corner: num = 8, den = 8, factor = 1 - 0.77 = 0.23 -> 23
    assert_eq!(r.pixel(0, 0), (23, 23, 23, 255));
    // edge pixels: num = 4, factor = 1 - 0.385 = 0.615 -> 61
    assert_eq!(r.pixel(1, 0), (61, 61, 61, 255));
    assert_eq!(r.pixel(0, 1), (61, 61, 61, 255));
}

#[test]
fn vignette_1x1() {
    let mut r = solid(1, 1, 255, 255, 255, 255);
    r.apply_vignette();
    // the single pixel sits a full corner distance from the center:
    // factor = 1 - 0.77 = 0.23, 255 * 0.23 = 58.65 -> 58
    assert_eq!(r.pixel(0, 0), (58, 58, 58, 255));
    assert_eq!(r.width(), 1);
    assert_eq!(r.height(), 1);
}

#[test]
fn vignette_monotone_row() {
    let mut r = solid(5, 1, 200, 200, 200, 255);
    r.apply_vignette();
    let expected = [46u8, 140, 188, 188, 140];
    let mut row = Vec::new();
    for x in 0..5 {
        let (pr, _, _, pa) = r.pixel(x, 0);
        assert_eq!(pa, 255);
        row.push(pr);
    }
    assert_eq!(row, expected);
    // darkening does not decrease as the distance from the center grows
    assert!(row[0] <= row[1] && row[1] <= row[2]);
    assert!(row[4] <= row[3] && row[3] <= row[2]);
}

#[test]
fn grain_bounds_mid_grey() {
    let mut r = solid(16, 16, 128, 128, 128, 255);
    r.add_film_grain();
    assert_eq!(r.width(), 16);
    assert_eq!(r.height(), 16);
    let mut all_low = true;
    let mut all_high = true;
    for y in 0..16 {
        for x in 0..16 {
            let (pr, pg, pb, pa) = r.pixel(x, y);
            assert_eq!(pa, 255);
            for c in [pr, pg, pb] {
                assert!((103..=152).contains(&c), "channel {c} out of noise reach");
                if c != 103 {
                    all_low = false;
                }
                if c != 152 {
                    all_high = false;
                }
            }
        }
    }
    // 768 independent draws collapsing to one end of the range would mean
    // the generator handed back a constant
    assert!(!all_low && !all_high);
}

#[test]
fn grain_damped_at_extremes() {
    let mut black = solid(8, 8, 0, 0, 0, 31);
    black.add_film_grain();
    for y in 0..8 {
        for x in 0..8 {
            let (pr, pg, pb, pa) = black.pixel(x, y);
            assert_eq!(pa, 31);
            for c in [pr, pg, pb] {
                assert!(c <= 12, "halved noise on a 0 channel stays within 12");
            }
        }
    }
    let mut white = solid(8, 8, 255, 255, 255, 255);
    white.add_film_grain();
    for y in 0..8 {
        for x in 0..8 {
            let (pr, pg, pb, pa) = white.pixel(x, y);
            assert_eq!(pa, 255);
            for c in [pr, pg, pb] {
                assert!(c >= 242, "halved noise on a 255 channel stays within 13");
            }
        }
    }
}

#[test]
fn dimension_invariance() {
    let mut r = solid(3, 5, 50, 90, 130, 200);
    r.add_film_grain();
    assert_eq!((r.width(), r.height()), (3, 5));
    r.apply_color_filter();
    assert_eq!((r.width(), r.height()), (3, 5));
    r.apply_vignette();
    assert_eq!((r.width(), r.height()), (3, 5));
    assert_eq!(r.into_raw().len(), 4 * 3 * 5);
}

#[test]
fn finishing_stages_compose_in_order() {
    let mut staged = solid(2, 2, 255, 255, 255, 255);
    staged.apply_color_filter();
    staged.apply_vignette();
    let mut composed = solid(2, 2, 255, 255, 255, 255);
    composed.apply_finishing_stages();
    assert_eq!(staged.into_raw(), composed.into_raw());
}

#[test]
fn finishing_stages_white_2x2() {
    let mut r = solid(2, 2, 255, 255, 255, 255);
    r.apply_finishing_stages();
    // grey 225 everywhere, then the vignette of each position
    assert_eq!(r.pixel(0, 0), (51, 51, 51, 255));
    assert_eq!(r.pixel(1, 0), (138, 138, 138, 255));
    assert_eq!(r.pixel(0, 1), (138, 138, 138, 255));
    assert_eq!(r.pixel(1, 1), (225, 225, 225, 255));
}

#[test]
fn raw_roundtrip() {
    let data: Vec<u8> = vec![1, 2, 3, 4, 5, 6, 7, 8];
    let r = Raster::from_raw(2, 1, data.clone());
    assert_eq!(r.pixel(0, 0), (1, 2, 3, 4));
    assert_eq!(r.pixel(1, 0), (5, 6, 7, 8));
    assert_eq!(r.into_raw(), data);
}

#[test]
fn adjust_noise_values() {
    // draw 0 stands for -24.2, draw 483 for 24.1, draw 242 for 0.0
    assert_eq!(adjust_noise(128, 0), -25);
    assert_eq!(adjust_noise(128, 483), 24);
    assert_eq!(adjust_noise(128, 242), 0);
    // at the extremes the noise is halved before it is floored
    assert_eq!(adjust_noise(0, 0), -13);
    assert_eq!(adjust_noise(0, 242), 0);
    assert_eq!(adjust_noise(255, 483), 12);
}

#[test]
fn empty_raster_stages() {
    let mut r = Raster::from_raw(0, 0, Vec::new());
    r.add_film_grain();
    r.apply_color_filter();
    r.apply_vignette();
    assert_eq!((r.width(), r.height()), (0, 0));
    assert_eq!(r.into_raw().len(), 0);
}
