use rsmb::blur::motion_blur;
use rsmb::boxsum::box_filter;
use rsmb::flow::{build_pyramid, estimable, optical_flow, upscale_flow};
use rsmb::formulas::{Formulas, Scalar};
use rsmb::frames::{choose_path, frame_flow, negate_flow, process_frame, Path, Role, Settings};
use rsmb::image::{blur_horiz, blur_vert, downsample, gaussian_blur, FlowField, Gray};
use rsmb::lucas_kanade::{lk_level, mismatch, refine, tensor};
use rsmb::median::{float_rank, is_ordered, median_filter, median_flow};
use rsmb::numerics::Numerics;
use rsmb::session::{is_truncated, number_or, Event, Failure, Phase, Session};

/// Single precision floats.
struct Single;

impl Scalar for Single {
    type T = f32;

    fn constant(&self, num: i64, den: u32) -> f32 {
        (num as f64 / den as f64) as f32
    }

    fn of_index(&self, i: usize) -> f32 {
        i as f32
    }

    fn of_byte(&self, b: u8) -> f32 {
        b as f32
    }

    fn plus(&self, a: f32, b: f32) -> f32 {
        a + b
    }

    fn minus(&self, a: f32, b: f32) -> f32 {
        a - b
    }

    fn times(&self, a: f32, b: f32) -> f32 {
        a * b
    }

    fn over(&self, a: f32, b: f32) -> f32 {
        a / b
    }

    fn opposite(&self, a: f32) -> f32 {
        -a
    }

    fn less(&self, a: f32, b: f32) -> bool {
        a < b
    }

    fn at_most(&self, a: f32, b: f32) -> bool {
        a <= b
    }

    fn whole(&self, a: f32) -> usize {
        a.floor() as usize
    }

    fn nearest_byte(&self, a: f32) -> u8 {
        a.round().clamp(0.0, 255.0) as u8
    }

    fn is_number(&self, a: f32) -> bool {
        !a.is_nan()
    }

    fn bits(&self, a: f32) -> u32 {
        a.to_bits()
    }
}

const K: Formulas<Single> = Formulas(Single);

#[test]
fn constants_are_the_nearest_floats() {
    for (num, den, value) in [
        (299, 1000, 0.299f32),
        (587, 1000, 0.587),
        (114, 1000, 0.114),
        (1, 16, 0.0625),
        (1, 4, 0.25),
        (3, 8, 0.375),
        (1, 2, 0.5),
        (1, 1000, 1e-3),
        (1, 1_000_000_000, 1e-9),
        (1, 10_000, 1e-4),
        (5, 1, 5.0),
        (360, 1, 360.0),
        (2, 1, 2.0),
        (1, 1, 1.0),
        (1001, 1000, 1.001),
        (0, 1, 0.0),
    ] {
        assert_eq!(Single.constant(num, den), value);
    }
}

#[test]
fn simple_formulas() {
    assert_eq!(K.zero(), 0.0);
    assert_eq!(K.plus(1.5, 2.0), 3.5);
    assert_eq!(K.minus(1.5, 2.0), -0.5);
    assert_eq!(K.times(1.5, 2.0), 3.0);
    assert_eq!(K.negated(1.5), -1.5);
    assert_eq!(K.doubled(1.5), 3.0);
    assert_eq!(K.slope(5.0, 2.0), 1.5);
    assert_eq!(K.shifted(3, -0.25), 2.75);
    assert_eq!(K.twice(3), 6.0);
    assert_eq!(K.half(3), 1.5);
}

#[test]
fn the_brightness_formula() {
    assert_eq!(K.luma(10, 20, 30), 0.299 * 10.0 + 0.587 * 20.0 + 0.114 * 30.0);
    assert!((K.luma(77, 77, 77) - 77.0).abs() < 1e-4);
}

#[test]
fn the_gaussian_formula() {
    assert_eq!(K.gauss5(16.0, 16.0, 16.0, 16.0, 16.0), 16.0);
    assert_eq!(K.gauss5(16.0, 0.0, 0.0, 0.0, 0.0), 1.0);
    assert_eq!(K.gauss5(0.0, 16.0, 0.0, 16.0, 0.0), 8.0);
    assert_eq!(K.gauss5(0.0, 0.0, 16.0, 0.0, 16.0), 7.0);
}

#[test]
fn cells_and_fractions() {
    assert_eq!(K.cell(2.5, 9), (2, 0.5));
    assert_eq!(K.cell(-3.0, 9), (0, 0.0));
    assert_eq!(K.cell(30.0, 9), (8, 0.0));
    assert_eq!(K.cell(7.75, 9), (7, 0.75));
    assert_eq!(K.cell_below(1.25, 9), (1, 0.25));
    assert_eq!(K.cell_below(8.5, 9), (7, (9.0f32 - 1.001) - 7.0));
}

#[test]
fn the_bilinear_formula() {
    assert_eq!(K.bilinear(1.0, 3.0, 5.0, 7.0, 0.5, 0.5), 4.0);
    assert_eq!(K.bilinear(1.0, 3.0, 5.0, 7.0, 0.0, 0.0), 1.0);
    assert_eq!(K.bilinear(1.0, 3.0, 5.0, 7.0, 0.25, 0.0), 1.5);
    assert_eq!(K.bilinear(2.0, 2.0, 2.0, 2.0, 0.25, 0.75), 2.0);
    assert_eq!(K.blend_bytes(0, 100, 200, 100, 0.5, 0.5), 100.0);
    assert_eq!(K.blend_bytes(10, 20, 30, 40, 1.0, 0.0), 20.0);
}

#[test]
fn the_update_solves_the_normal_equations() {
    let (xx, yy, xy, xt, yt) = (4.0f32, 3.0, 1.0, -2.0, 0.5);
    let (u, v) = K.solve(xx, yy, xy, xt, yt).unwrap();
    assert!(((xx + 1e-3) * u + xy * v + xt).abs() < 1e-5);
    assert!((xy * u + (yy + 1e-3) * v + yt).abs() < 1e-5);
}

#[test]
fn the_update_is_bounded() {
    assert_eq!(K.solve(1.0, 1.0, 0.0, -100.0, 100.0), Some((5.0, -5.0)));
    assert_eq!(K.solve(0.0, 0.0, 1e-3, 1.0, 1.0), None);
    assert_eq!(K.solve(0.0, 0.0, 0.0, 0.0, 0.0), Some((0.0, 0.0)));
}

#[test]
fn the_shutter_formula() {
    assert_eq!(K.span(360.0), 0.5);
    assert_eq!(K.span(180.0), 0.25);
    assert_eq!(K.span(0.0), 0.0);
    assert_eq!(K.span(-90.0), 0.0);
    assert_eq!(K.span(720.0), 0.5);
    assert!(K.shutter_closed(0.0));
    assert!(K.shutter_closed(-1.0));
    assert!(!K.shutter_closed(0.5));
    assert!(!K.shutter_closed(f32::NAN));
}

#[test]
fn the_stillness_formula() {
    assert!(K.is_still(0.0, 0.0, 0.0, 0.0));
    assert!(K.is_still(0.005, 0.0, 0.0, 0.005));
    assert!(!K.is_still(0.0, 0.01, 0.01, 0.0));
}

#[test]
fn taps_lie_evenly() {
    assert_eq!(K.tap_offset(0, 2, 4.0), 2.0);
    assert_eq!(K.tap_offset(1, 2, 4.0), 2.0);
    assert_eq!(K.tap_offset(0, 4, -8.0), -6.0);
    assert_eq!(K.tap_offset(3, 4, -8.0), -6.0);
    assert_eq!(K.tap_offset(1, 3, 8.0), 0.0);
}

#[test]
fn means_round_to_bytes() {
    assert_eq!(K.mean_byte(400.0, 4), 100);
    assert_eq!(K.mean_byte(5.0, 2), 3);
    assert_eq!(K.mean_byte(4.8, 2), 2);
    assert_eq!(K.mean_byte(9999.0, 2), 255);
    assert_eq!(K.mean_byte(-4.0, 2), 0);
}

fn gray(w: usize, h: usize, data: Vec<f32>) -> Gray<f32> {
    assert_eq!(data.len(), w * h);
    Gray { w, h, data }
}

fn still(w: usize, h: usize, u: f32, v: f32) -> FlowField<f32> {
    FlowField { w, h, u: vec![u; w * h], v: vec![v; w * h] }
}

fn settings(flow_cache: bool) -> Settings<f32> {
    Settings { shutter: 360.0, samples: 8, window: 2, iters: 2, levels: 1, flow_cache }
}

#[test]
fn brightness_weighs_the_channels() {
    let g = Gray::from_rgb(&K, &[10, 20, 30, 255, 255, 255, 0, 0, 0], 3, 1);
    assert_eq!((g.w, g.h), (3, 1));
    assert_eq!(g.data[0], 0.299 * 10.0 + 0.587 * 20.0 + 0.114 * 30.0);
    assert!((g.data[1] - 255.0).abs() < 1e-3);
    assert_eq!(g.data[2], 0.0);
}

#[test]
fn pixels_are_converted_in_order() {
    let rgb: Vec<u8> = (0..600).map(|i| (i * 7 % 256) as u8).collect();
    let g = Gray::from_rgb(&K, &rgb, 20, 10);
    for i in 0..200 {
        assert_eq!(g.data[i], K.luma(rgb[3 * i], rgb[3 * i + 1], rgb[3 * i + 2]));
    }
}

#[test]
fn at_reads_row_by_row() {
    let g = gray(3, 2, vec![1.0, 2.0, 3.0, 4.0, 5.0, 6.0]);
    assert_eq!(g.at(0, 0), 1.0);
    assert_eq!(g.at(2, 0), 3.0);
    assert_eq!(g.at(1, 1), 5.0);
}

#[test]
fn samples_mix_four_cells() {
    let g = gray(2, 2, vec![0.0, 10.0, 20.0, 30.0]);
    assert_eq!(g.sample(&K, 0.5, 0.5), 15.0);
    assert_eq!(g.sample(&K, 0.5, 0.0), 5.0);
    assert_eq!(g.sample(&K, -4.0, -4.0), 0.0);
    assert_eq!(g.sample(&K, 9.0, 9.0), 30.0);
}

#[test]
fn samples_hit_every_cell() {
    let g = gray(2, 2, vec![0.0, 1000.0, 0.0, 1000.0]);
    assert_eq!(g.sample(&K, 1.0, 0.0), 1000.0);
    let g = gray(5, 4, (0..20).map(|i| (i * i) as f32).collect());
    for y in 0..4 {
        for x in 0..5 {
            assert_eq!(g.sample(&K, x as f32, y as f32), g.at(x, y));
        }
    }
}

#[test]
fn samples_stop_at_the_border() {
    let g = gray(5, 4, (0..20).map(|i| (i * i) as f32).collect());
    for y in [-7.5f32, 0.25, 1.5, 2.75, 99.0] {
        assert_eq!(g.sample(&K, -3.0, y), g.sample(&K, 0.0, y));
        assert_eq!(g.sample(&K, 4.5, y), g.sample(&K, 4.0, y));
        assert_eq!(g.sample(&K, y, -0.5), g.sample(&K, y, 0.0));
        assert_eq!(g.sample(&K, y, 70.0), g.sample(&K, y, 3.0));
        for x in [-1.0f32, 0.3, 2.2, 3.9, 8.0] {
            let s = g.sample(&K, x, y);
            assert!((0.0..=361.0).contains(&s));
        }
    }
}

#[test]
fn a_duplicate_is_equal() {
    let g = gray(2, 2, vec![0.0, 10.0, 20.0, 30.0]);
    let d = g.duplicate();
    assert_eq!((d.w, d.h), (2, 2));
    assert_eq!(d.data, g.data);
}

#[test]
fn a_zero_field_is_zero() {
    let f: FlowField<f32> = FlowField::zeros(&K, 3, 2);
    assert_eq!((f.w, f.h), (3, 2));
    assert_eq!(f.u, vec![0.0; 6]);
    assert_eq!(f.v, vec![0.0; 6]);
}

#[test]
fn an_impulse_spreads_like_the_gaussian_row() {
    let row = [0.0, 0.0, 16.0, 0.0, 0.0];
    assert_eq!(blur_horiz(&K, &row, 5, 1), vec![1.0, 4.0, 6.0, 4.0, 1.0]);
    assert_eq!(blur_vert(&K, &row, 1, 5), vec![1.0, 4.0, 6.0, 4.0, 1.0]);
    // At the border the first cell stands for those before it.
    let edge = [16.0, 0.0, 0.0, 0.0, 0.0];
    assert_eq!(blur_horiz(&K, &edge, 5, 1), vec![11.0, 5.0, 1.0, 0.0, 0.0]);
}

#[test]
fn the_gaussian_blur_has_two_passes() {
    let mut data = vec![0.0; 25];
    data[12] = 256.0;
    let b = gaussian_blur(&K, &gray(5, 5, data));
    assert_eq!(b.data[12], 36.0);
    assert_eq!(b.data[11], 24.0);
    assert_eq!(b.data[0], 1.0);
    assert_eq!(b.data[2], 6.0);
}

#[test]
fn halving_keeps_a_flat_image_flat() {
    let d = downsample(&K, &gray(5, 4, vec![8.0; 20]));
    assert_eq!((d.w, d.h), (2, 2));
    assert_eq!(d.data, vec![8.0; 4]);
}

#[test]
fn halving_takes_every_other_cell_of_the_blurred_image() {
    let img = gray(8, 8, (0..64).map(|i| (i * i % 37) as f32).collect());
    let blurred = gaussian_blur(&K, &img);
    let d = downsample(&K, &img);
    assert_eq!((d.w, d.h), (4, 4));
    for y in 0..4 {
        for x in 0..4 {
            assert_eq!(d.at(x, y), blurred.at(2 * x, 2 * y));
        }
    }
}

#[test]
fn level_zero_of_a_pyramid_is_the_image() {
    let img = gray(9, 7, (0..63).map(|i| (i * 5 % 23) as f32).collect());
    let p = build_pyramid(&K, &img, 3);
    assert_eq!(p.len(), 3);
    assert_eq!(p[0].data, img.data);
    assert_eq!((p[1].w, p[1].h), (4, 3));
    assert_eq!(p[1].data, downsample(&K, &img).data);
    assert_eq!((p[2].w, p[2].h), (2, 1));
}

#[test]
fn a_pyramid_has_at_least_one_level() {
    let img = gray(2, 1, vec![1.0, 2.0]);
    assert_eq!(build_pyramid(&K, &img, 0).len(), 1);
}

#[test]
fn the_box_filter_sums_the_window() {
    let (w, h, r) = (6, 5, 1);
    let src: Vec<f32> = (0..30).map(|i| (i * 3 % 11) as f32).collect();
    let out = box_filter(&K, &src, w, h, r);
    for y in 0..h {
        for x in 0..w {
            let mut sum = 0.0;
            for yy in y.saturating_sub(r)..=(y + r).min(h - 1) {
                for xx in x.saturating_sub(r)..=(x + r).min(w - 1) {
                    sum += src[yy * w + xx];
                }
            }
            assert_eq!(out[y * w + x], sum);
        }
    }
}

#[test]
fn a_box_of_radius_zero_changes_nothing() {
    let src = vec![3.0, 1.0, 4.0, 1.0, 5.0, 9.0];
    assert_eq!(box_filter(&K, &src, 3, 2, 0), src);
}

#[test]
fn a_huge_box_sums_everything() {
    let src = vec![3.0, 1.0, 4.0, 1.0, 5.0, 9.0];
    assert_eq!(box_filter(&K, &src, 3, 2, usize::MAX), vec![23.0; 6]);
}

#[test]
fn ranks_order_floats() {
    let order = [f32::NEG_INFINITY, -2.0, -1.0, -1e-30, 0.0, 1e-30, 1.0, 2.0, f32::INFINITY];
    for pair in order.windows(2) {
        assert!(float_rank(pair[0].to_bits()) < float_rank(pair[1].to_bits()));
    }
    assert_eq!(float_rank((0.0f32).to_bits()), float_rank((-0.0f32).to_bits()));
}

#[test]
fn the_median_drops_an_outlier() {
    let mut src = vec![1.0; 25];
    src[12] = 1000.0;
    assert_eq!(median_filter(&K, &src, 5, 5), vec![1.0; 25]);
}

#[test]
fn the_median_is_the_fifth_of_nine() {
    let src = vec![9.0, -1.0, 3.0, 7.0, 5.0, 8.0, 2.0, 6.0, 4.0];
    let out = median_filter(&K, &src, 3, 3);
    assert_eq!(out[4], 5.0);
    // Window of the top left cell: 9 9 -1 9 9 -1 7 7 5.
    assert_eq!(out[0], 7.0);
}

#[test]
fn the_median_keeps_a_motion_boundary() {
    let src: Vec<f32> = (0..36).map(|i| if i % 6 < 3 { 0.0 } else { 4.0 }).collect();
    assert_eq!(median_filter(&K, &src, 6, 6), src);
}

#[test]
fn both_components_are_median_filtered() {
    let mut f = still(3, 3, 1.0, -2.0);
    f.u[4] = 50.0;
    f.v[4] = 50.0;
    let m = median_flow(&K, &f);
    assert_eq!(m.u, vec![1.0; 9]);
    assert_eq!(m.v, vec![-2.0; 9]);
    assert_eq!((m.w, m.h), (3, 3));
}

#[test]
fn a_finer_grid_doubles_the_motion() {
    let f = upscale_flow(&K, &still(2, 2, 1.5, -0.5), 5, 4);
    assert_eq!((f.w, f.h), (5, 4));
    assert_eq!((f.u.len(), f.v.len()), (20, 20));
    assert!(f.u.iter().all(|u| (u - 3.0).abs() < 1e-5));
    assert!(f.v.iter().all(|v| (v + 1.0).abs() < 1e-5));
}

#[test]
fn a_finer_grid_interpolates() {
    let f = FlowField { w: 2, h: 2, u: vec![0.0, 4.0, 0.0, 4.0], v: vec![0.0, 0.0, 4.0, 4.0] };
    let up = upscale_flow(&K, &f, 3, 3);
    assert_eq!(up.u[0], 0.0);
    assert_eq!(up.u[1], 4.0);
    assert_eq!(up.v[3], 4.0);
    assert!((up.u[2] - 7.992).abs() < 1e-4);
    assert!((up.v[6] - 7.992).abs() < 1e-4);
}

#[test]
fn the_tensor_of_a_ramp() {
    let a = gray(5, 5, (0..25).map(|i| (2 * (i % 5)) as f32).collect());
    let t = tensor(&K, &a, 1);
    assert_eq!(t.ix[12], 2.0);
    assert_eq!(t.ix[10], 1.0);
    assert_eq!(t.iy[12], 0.0);
    assert_eq!(t.xx[12], 36.0);
    assert_eq!(t.yy[12], 0.0);
    assert_eq!(t.xy[12], 0.0);
}

#[test]
fn mismatch_is_the_warped_image_minus_the_other() {
    let a = gray(4, 4, vec![1.0; 16]);
    let b = gray(4, 4, (0..16).map(|i| (i % 4) as f32).collect());
    let d = mismatch(&K, &a, &b, &still(4, 4, 0.5, 0.0));
    assert_eq!(d[1], 0.5);
    assert_eq!(d[0], -0.5);
}

#[test]
fn one_refinement_finds_the_shift_of_a_ramp() {
    // Image b is image a moved to the right by half a cell.
    let a = gray(9, 9, (0..81).map(|i| (4 * (i % 9)) as f32).collect());
    let b = gray(9, 9, (0..81).map(|i| (4 * (i % 9)) as f32 - 2.0).collect());
    let t = tensor(&K, &a, 1);
    let mut f = still(9, 9, 0.0, 0.0);
    refine(&K, &t, &a, &b, &mut f, 1);
    assert!((f.u[40] - 0.5).abs() < 1e-2);
    assert_eq!(f.v[40], 0.0);
}

#[test]
fn no_iterations_change_nothing() {
    let a = gray(4, 4, (0..16).map(|i| i as f32).collect());
    let b = gray(4, 4, vec![0.0; 16]);
    let mut f = still(4, 4, 1.0, 2.0);
    lk_level(&K, &a, &b, &mut f, 2, 0);
    assert_eq!(f.u, vec![1.0; 16]);
    assert_eq!(f.v, vec![2.0; 16]);
}

#[test]
fn iterations_add_up() {
    let a = gray(12, 10, (0..120).map(|i| (i * i % 41) as f32).collect());
    let b = gray(12, 10, (0..120).map(|i| (i * i % 43) as f32).collect());
    let mut parted = still(12, 10, 0.5, -0.5);
    lk_level(&K, &a, &b, &mut parted, 2, 2);
    lk_level(&K, &a, &b, &mut parted, 2, 3);
    let mut whole = still(12, 10, 0.5, -0.5);
    lk_level(&K, &a, &b, &mut whole, 2, 5);
    assert_eq!(parted.u, whole.u);
    assert_eq!(parted.v, whole.v);
    assert!(whole.u.iter().all(|u| (u - 0.5).abs() <= 25.001));
    assert!(whole.v.iter().all(|v| (v + 0.5).abs() <= 25.001));
}

#[test]
fn more_levels_keep_the_finer_ones() {
    let img = gray(40, 36, (0..1440).map(|i| (i * i % 97) as f32).collect());
    let few = build_pyramid(&K, &img, 2);
    let many = build_pyramid(&K, &img, 4);
    for l in 0..2 {
        assert_eq!((few[l].w, few[l].h), (many[l].w, many[l].h));
        assert_eq!(few[l].data, many[l].data);
    }
    assert_eq!(many[3].data, downsample(&K, &many[2]).data);
}

#[test]
fn the_median_commutes_with_negation() {
    let f = FlowField {
        w: 6,
        h: 5,
        u: (0..30).map(|i| ((i * 17 % 23) as f32) - 11.5).collect(),
        v: (0..30).map(|i| ((i * 13 % 29) as f32) - 14.5).collect(),
    };
    let one = median_flow(&K, &negate_flow(&K, &f));
    let two = negate_flow(&K, &median_flow(&K, &f));
    assert_eq!(one.u, two.u);
    assert_eq!(one.v, two.v);
}

#[test]
fn the_median_of_both_zeros_turns_its_rank() {
    let src: Vec<f32> = (0..20).map(|i| if i % 3 == 0 { 0.0 } else { -0.0 }).collect();
    let turned: Vec<f32> = src.iter().map(|a| -a).collect();
    let one = median_filter(&K, &src, 5, 4);
    let two = median_filter(&K, &turned, 5, 4);
    for (a, b) in one.iter().zip(&two) {
        assert_eq!(K.rank(*b), -K.rank(*a));
    }
}

#[test]
fn turning_the_sign_turns_the_rank() {
    for a in [0.0f32, 1e-40, 1.0, 1.5, 1e30, f32::INFINITY] {
        assert_eq!(float_rank((-a).to_bits()), -float_rank(a.to_bits()));
        assert_eq!(float_rank(a.to_bits()), -float_rank((-a).to_bits()));
    }
}

#[test]
fn values_that_are_no_numbers_are_found_out() {
    assert!(is_ordered(&K, &vec![0.0, -1.0, f32::INFINITY, f32::NEG_INFINITY]));
    assert!(!is_ordered(&K, &vec![0.0, f32::NAN, 1.0]));
    assert!(is_ordered(&K, &Vec::new()));
}

#[test]
fn infinities_are_ordered_like_any_number() {
    let inf = f32::INFINITY;
    let src = vec![inf, inf, inf, -inf, 2.0, inf, -inf, -inf, -inf];
    assert_eq!(median_filter(&K, &src, 3, 3)[4], 2.0);
}

#[test]
fn motion_that_is_no_number_is_not_filtered() {
    let (w, h) = (24, 20);
    let rgb = texture(1);
    let cur = Gray::from_rgb(&K, &rgb, w, h);
    let mut bad = Gray::from_rgb(&K, &rgb, w, h);
    bad.data[100] = f32::NAN;
    let s = settings(false);
    assert!(frame_flow(&K, &s, &cur, &cur).is_some());
    assert!(frame_flow(&K, &s, &cur, &bad).is_none());
    assert!(process_frame(&K, &s, Role::Middle, &rgb, &cur, &cur, &bad, None).is_none());
    assert!(process_frame(&K, &s, Role::Middle, &rgb, &cur, &bad, &cur, None).is_none());
    assert!(process_frame(&K, &s, Role::Last, &rgb, &cur, &cur, &bad, None).is_some());
}

#[test]
fn channels_are_blurred_alike() {
    let (w, h) = (7, 5);
    let frame: Vec<u8> = (0..105).map(|i| (i * 37 % 256) as u8).collect();
    let swap = |f: &Vec<u8>| -> Vec<u8> {
        f.chunks(3).flat_map(|c| [c[2], c[1], c[0]]).collect()
    };
    let (f, b) = (still(w, h, 3.0, 1.0), still(w, h, -2.0, 1.5));
    let out = motion_blur(&K, &frame, w, h, &f, &b, 300.0, 9);
    assert_ne!(out, frame);
    assert_eq!(motion_blur(&K, &swap(&frame), w, h, &f, &b, 300.0, 9), swap(&out));
}

#[test]
fn the_blur_makes_up_no_colours() {
    let (w, h) = (7, 5);
    let frame: Vec<u8> = (0..105).map(|i| if i % 3 == 1 { 200 } else { 50 + (i % 60) as u8 }).collect();
    let (f, b) = (still(w, h, 3.0, 1.0), still(w, h, -2.0, 1.5));
    let out = motion_blur(&K, &frame, w, h, &f, &b, 300.0, 9);
    for p in out.chunks(3) {
        assert_eq!(p[1], 200);
        assert!(p[0] >= 50 && p[0] <= 109 && p[2] >= 50 && p[2] <= 109);
    }
}

#[test]
fn equal_images_do_not_move() {
    let a = gray(60, 50, (0..3000).map(|i| (i * i % 101) as f32).collect());
    let f = optical_flow(&K, &a, &a, 3, 3, 0);
    assert_eq!((f.w, f.h), (60, 50));
    assert!(f.u.iter().all(|u| u.abs() < 1e-2));
    assert!(f.v.iter().all(|v| v.abs() < 1e-2));
}

#[test]
fn too_many_levels_for_a_small_image_are_found_out() {
    assert!(estimable(2, 2, 5, 0));
    assert!(estimable(1920, 1080, 5, 6));
    assert!(!estimable(2, 2, 5, 2));
    assert!(!estimable(1, 4, 5, 1));
    assert!(estimable(1, 4, 0, 1));
    assert!(!estimable(0, 4, 0, 1));
}

const W: usize = 200;
const H: usize = 120;

/// A bright square on a dark gradient.
fn square(cx: usize, cy: usize) -> Vec<u8> {
    let mut img = vec![30u8; W * H * 3];
    for y in 0..H {
        for x in 0..W {
            let i = (y * W + x) * 3;
            img[i] = 30 + (y * 40 / H) as u8;
            img[i + 1] = 30 + (y * 40 / H) as u8;
            img[i + 2] = 40 + (y * 40 / H) as u8;
        }
    }
    for y in cy..cy + 24 {
        for x in cx..cx + 24 {
            let i = (y * W + x) * 3;
            img[i] = 240;
            img[i + 1] = 220;
            img[i + 2] = 60;
        }
    }
    img
}

#[test]
fn a_moving_square_smears_along_its_motion() {
    let (prev, cur, next) = (square(30, 24), square(40, 30), square(50, 36));
    let g_prev = Gray::from_rgb(&K, &prev, W, H);
    let g_cur = Gray::from_rgb(&K, &cur, W, H);
    let g_next = Gray::from_rgb(&K, &next, W, H);
    let fwd = median_flow(&K, &optical_flow(&K, &g_cur, &g_next, 7, 5, 0));
    let bwd = median_flow(&K, &optical_flow(&K, &g_cur, &g_prev, 7, 5, 0));
    let mut sum = [0.0f32; 4];
    for y in 34..50 {
        for x in 44..60 {
            let i = y * W + x;
            sum[0] += fwd.u[i];
            sum[1] += fwd.v[i];
            sum[2] += bwd.u[i];
            sum[3] += bwd.v[i];
        }
    }
    let mean = sum.map(|s| s / 256.0);
    assert!((mean[0] - 10.0).abs() < 0.1);
    assert!((mean[1] - 6.0).abs() < 3.0);
    assert!((mean[2] + 10.0).abs() < 0.1);
    assert!((mean[3] + 6.0).abs() < 3.0);
    let out = motion_blur(&K, &cur, W, H, &fwd, &bwd, 360.0, 16);
    assert_eq!(out.len(), cur.len());
    assert_ne!(out, cur);
    // Far from the square nothing happens.
    assert_eq!(out[(110 * W + 190) * 3], cur[(110 * W + 190) * 3]);
}

fn spot(w: usize, h: usize, x: usize) -> Vec<u8> {
    let mut img = vec![0u8; w * h * 3];
    for y in 0..h {
        let i = (y * w + x) * 3;
        img[i] = 200;
        img[i + 1] = 100;
        img[i + 2] = 50;
    }
    img
}

#[test]
fn the_exposure_reaches_out_on_both_sides() {
    let (w, h) = (9, 3);
    let frame = spot(w, h, 4);
    let out = motion_blur(
        &K,
        &frame,
        w,
        h,
        &still(w, h, 4.0, 0.0),
        &still(w, h, -4.0, 0.0),
        360.0,
        2,
    );
    let row: Vec<u8> = (0..w).map(|x| out[(w + x) * 3]).collect();
    assert_eq!(row, vec![0, 0, 0, 100, 0, 100, 0, 0, 0]);
    assert_eq!(out[(w + 3) * 3 + 1], 50);
    assert_eq!(out[(w + 3) * 3 + 2], 25);
}

#[test]
fn early_taps_follow_the_backward_motion() {
    let (w, h) = (9, 3);
    let frame = spot(w, h, 4);
    let out = motion_blur(
        &K,
        &frame,
        w,
        h,
        &still(w, h, 0.0, 0.0),
        &still(w, h, -4.0, 0.0),
        360.0,
        2,
    );
    let row: Vec<u8> = (0..w).map(|x| out[(w + x) * 3]).collect();
    assert_eq!(row, vec![0, 0, 0, 0, 100, 100, 0, 0, 0]);
}

#[test]
fn shutter_and_taps_have_limits() {
    let (w, h) = (9, 3);
    let frame = spot(w, h, 4);
    let (f, b) = (still(w, h, 4.0, 0.0), still(w, h, -4.0, 0.0));
    let full = motion_blur(&K, &frame, w, h, &f, &b, 360.0, 2);
    assert_eq!(motion_blur(&K, &frame, w, h, &f, &b, 720.0, 2), full);
    assert_eq!(motion_blur(&K, &frame, w, h, &f, &b, 360.0, 0), full);
    assert_eq!(motion_blur(&K, &frame, w, h, &f, &b, -5.0, 2), frame);
    // Half the shutter angle exposes half the motion.
    let (f, b) = (still(w, h, 8.0, 0.0), still(w, h, -8.0, 0.0));
    assert_eq!(motion_blur(&K, &frame, w, h, &f, &b, 180.0, 2), full);
}

#[test]
fn still_pixels_keep_their_colour() {
    let (w, h) = (7, 5);
    let frame: Vec<u8> = (0..105).map(|i| (i * 13 % 256) as u8).collect();
    let f = still(w, h, 0.001, 0.0);
    assert_eq!(motion_blur(&K, &frame, w, h, &f, &f, 360.0, 16), frame);
}

#[test]
fn a_motion_field_turns_round() {
    let n = negate_flow(&K, &still(2, 2, 1.5, -2.0));
    assert_eq!(n.u, vec![-1.5; 4]);
    assert_eq!(n.v, vec![2.0; 4]);
    assert_eq!((n.w, n.h), (2, 2));
}

#[test]
fn a_closed_shutter_copies_the_frame() {
    let (w, h) = (6, 5);
    let rgb: Vec<u8> = (0..90).map(|i| i as u8).collect();
    let g = Gray::from_rgb(&K, &rgb, w, h);
    let mut s = settings(true);
    s.shutter = 0.0;
    let (out, kept) = process_frame(&K, &s, Role::Middle, &rgb, &g, &g, &g, None).unwrap();
    assert_eq!(out, rgb);
    assert!(kept.is_none());
    assert_eq!(choose_path(&K, 0.0, true), Path::Copy);
    assert_eq!(choose_path(&K, 90.0, true), Path::Gpu);
    assert_eq!(choose_path(&K, 90.0, false), Path::Cpu);
}

fn texture(shift: usize) -> Vec<u8> {
    let (w, h) = (24, 20);
    let mut rgb = Vec::new();
    for y in 0..h {
        for x in 0..w {
            let v = (128.0 + 100.0 * ((x + 40 - shift) as f32 * 0.7).sin() * (y as f32 * 0.5).cos())
                as u8;
            rgb.push(v);
            rgb.push(v / 2);
            rgb.push(255 - v);
        }
    }
    rgb
}

#[test]
fn the_cache_stands_in_for_the_backward_motion() {
    let (w, h) = (24, 20);
    let rgb = texture(1);
    let cur = Gray::from_rgb(&K, &rgb, w, h);
    let prev = Gray::from_rgb(&K, &texture(0), w, h);
    let next = Gray::from_rgb(&K, &texture(2), w, h);
    let s = settings(true);
    let ahead = still(w, h, 3.0, 1.0);
    let (out, kept) =
        process_frame(&K, &s, Role::Middle, &rgb, &cur, &prev, &next, Some(still(w, h, 3.0, 1.0)))
            .unwrap();
    let fwd = frame_flow(&K, &s, &cur, &next).unwrap();
    let bwd = negate_flow(&K, &ahead);
    assert_eq!(out, motion_blur(&K, &rgb, w, h, &fwd, &bwd, s.shutter, s.samples));
    let kept = kept.unwrap();
    assert_eq!(kept.u, fwd.u);
    assert_eq!(kept.v, fwd.v);
}

#[test]
fn a_frame_has_one_outcome() {
    let (w, h) = (24, 20);
    let rgb = texture(1);
    let cur = Gray::from_rgb(&K, &rgb, w, h);
    let prev = Gray::from_rgb(&K, &texture(0), w, h);
    let next = Gray::from_rgb(&K, &texture(2), w, h);
    let s = settings(true);
    let (out, kept) = process_frame(&K, &s, Role::Middle, &rgb, &cur, &prev, &next, None).unwrap();
    let kept = kept.unwrap();
    for _ in 0..3 {
        let (again, more) =
            process_frame(&K, &s, Role::Middle, &rgb, &cur, &prev, &next, None).unwrap();
        let more = more.unwrap();
        assert_eq!(again, out);
        assert_eq!((more.u, more.v), (kept.u.clone(), kept.v.clone()));
    }
}

#[test]
fn without_cache_both_motions_are_estimated() {
    let (w, h) = (24, 20);
    let rgb = texture(1);
    let cur = Gray::from_rgb(&K, &rgb, w, h);
    let prev = Gray::from_rgb(&K, &texture(0), w, h);
    let next = Gray::from_rgb(&K, &texture(2), w, h);
    let s = settings(false);
    let (out, kept) = process_frame(&K, &s, Role::Middle, &rgb, &cur, &prev, &next, None).unwrap();
    let fwd = frame_flow(&K, &s, &cur, &next).unwrap();
    let bwd = frame_flow(&K, &s, &cur, &prev).unwrap();
    assert_ne!(fwd.u, bwd.u);
    assert_eq!(out, motion_blur(&K, &rgb, w, h, &fwd, &bwd, s.shutter, s.samples));
    assert!(kept.is_none());
}

#[test]
fn the_last_frame_is_its_own_successor() {
    let (w, h) = (24, 20);
    let rgb = texture(1);
    let cur = Gray::from_rgb(&K, &rgb, w, h);
    let prev = Gray::from_rgb(&K, &texture(0), w, h);
    let next = Gray::from_rgb(&K, &texture(2), w, h);
    let s = settings(true);
    let (out, kept) =
        process_frame(&K, &s, Role::Last, &rgb, &cur, &prev, &next, Some(still(w, h, 3.0, 1.0)))
            .unwrap();
    let fwd = frame_flow(&K, &s, &cur, &cur).unwrap();
    let bwd = frame_flow(&K, &s, &cur, &prev).unwrap();
    assert_eq!(out, motion_blur(&K, &rgb, w, h, &fwd, &bwd, s.shutter, s.samples));
    assert!(kept.is_none());
}

fn flat(v: u8) -> Vec<u8> {
    vec![v; 12]
}

fn first(g: &Gray<f32>) -> u8 {
    g.data[0].round() as u8
}

#[test]
fn a_video_goes_through_frame_by_frame() {
    let k = K;
    let mut s = Session::new(&k, 2, 2);
    assert_eq!(s.phase(), Phase::Empty);
    assert!(s.receive(&k, Event::Frame(flat(10))).is_none());
    assert_eq!(s.phase(), Phase::One);
    let mut seen = Vec::new();
    let mut retired = Vec::new();
    for v in [20u8, 30, 40, 50] {
        if let Some(b) = s.receive(&k, Event::Frame(flat(v))) {
            retired.push(b);
        }
        assert_eq!(s.phase(), Phase::Ready(Role::Middle));
        let (cur, prev, next) = s.images(&k);
        seen.push((s.frame(&k)[0], first(cur), first(prev), first(next)));
        s.mark_sent(&k);
        assert_eq!(s.phase(), Phase::Waiting);
    }
    assert!(s.receive(&k, Event::End).is_none());
    assert_eq!(s.phase(), Phase::Ready(Role::Last));
    let (cur, prev, _) = s.images(&k);
    assert_eq!((s.frame(&k)[0], first(cur), first(prev)), (50, 50, 40));
    assert_eq!(s.copy_frame(&k), flat(50));
    s.mark_sent(&k);
    assert_eq!(s.phase(), Phase::Finished);
    assert_eq!(s.count(), 5);
    assert_eq!(
        seen,
        vec![(10, 10, 10, 20), (20, 20, 10, 30), (30, 30, 20, 40), (40, 40, 30, 50)]
    );
    assert_eq!(retired, vec![flat(0), flat(10), flat(20)]);
}

#[test]
fn a_single_frame_is_its_own_neighbour() {
    let k = K;
    for end in [Event::End, Event::Lost] {
        let mut s = Session::new(&k, 2, 2);
        s.receive(&k, Event::Frame(flat(7)));
        s.receive(&k, end);
        assert_eq!(s.phase(), Phase::Ready(Role::Only));
        let (cur, prev, next) = s.images(&k);
        assert_eq!((first(cur), first(prev), first(next)), (7, 7, 7));
        s.mark_sent(&k);
        assert_eq!(s.phase(), Phase::Finished);
        assert_eq!(s.count(), 1);
    }
}

#[test]
fn an_empty_video_is_an_error() {
    let k = K;
    let mut s = Session::new(&k, 2, 2);
    s.receive(&k, Event::End);
    assert_eq!(s.phase(), Phase::Failed(Failure::NoFrames));
    let mut s = Session::new(&k, 2, 2);
    s.receive(&k, Event::Lost);
    assert_eq!(s.phase(), Phase::Failed(Failure::DecoderFailed));
}

#[test]
fn a_lost_decoder_stops_the_work() {
    let k = K;
    let mut s = Session::new(&k, 2, 2);
    s.receive(&k, Event::Frame(flat(1)));
    s.receive(&k, Event::Frame(flat(2)));
    s.mark_sent(&k);
    s.receive(&k, Event::Lost);
    assert_eq!(s.phase(), Phase::Failed(Failure::DecoderFailed));
    assert_eq!(s.count(), 1);
}

#[test]
fn a_closed_encoder_stops_the_work() {
    let k = K;
    let mut s = Session::new(&k, 2, 2);
    s.receive(&k, Event::Frame(flat(1)));
    s.receive(&k, Event::Frame(flat(2)));
    s.mark_refused(&k);
    assert_eq!(s.phase(), Phase::Failed(Failure::EncoderClosed));
    assert_eq!(s.count(), 0);
}

#[test]
fn a_session_blurs_with_the_right_neighbours() {
    let k = K;
    let (w, h) = (24, 20);
    let st = settings(true);
    let frames: Vec<Vec<u8>> = (0..4).map(|i| texture(2 * i)).collect();
    let grays: Vec<Gray<f32>> = frames.iter().map(|f| Gray::from_rgb(&k, f, w, h)).collect();
    let mut s = Session::new(&k, w, h);
    let mut cache = None;
    let mut outs = Vec::new();
    s.receive(&k, Event::Frame(frames[0].clone()));
    for i in 1..=4 {
        let event = if i < 4 { Event::Frame(frames[i].clone()) } else { Event::End };
        s.receive(&k, event);
        let (out, kept) = s.blur(&k, &st, cache).unwrap();
        cache = kept;
        outs.push(out);
        s.mark_sent(&k);
    }
    let ahead: Vec<FlowField<f32>> =
        (0..3).map(|i| frame_flow(&k, &st, &grays[i], &grays[i + 1]).unwrap()).collect();
    let expect = |i: usize, f: &FlowField<f32>, b: &FlowField<f32>| {
        motion_blur(&k, &frames[i], w, h, f, b, st.shutter, st.samples)
    };
    assert_eq!(outs[0], expect(0, &ahead[0], &frame_flow(&k, &st, &grays[0], &grays[0]).unwrap()));
    assert_eq!(outs[1], expect(1, &ahead[1], &negate_flow(&k, &ahead[0])));
    assert_eq!(outs[2], expect(2, &ahead[2], &negate_flow(&k, &ahead[1])));
    assert_eq!(
        outs[3],
        expect(
            3,
            &frame_flow(&k, &st, &grays[3], &grays[3]).unwrap(),
            &frame_flow(&k, &st, &grays[3], &grays[2]).unwrap()
        )
    );
    assert!(cache.is_none());
}

#[test]
fn a_wrong_frame_count_is_reported() {
    assert!(is_truncated(179, 180));
    assert!(is_truncated(181, 180));
    assert!(!is_truncated(180, 180));
    assert!(!is_truncated(180, 0));
}

#[test]
fn unknown_numbers_have_a_word() {
    assert_eq!(number_or(0, "?"), "?");
    assert_eq!(number_or(180, "?"), "180");
    assert_eq!(number_or(0, "auto"), "auto");
}
