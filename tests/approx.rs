use rand::rngs::StdRng;
use rand::SeedableRng;
use shape_approx::search::multiplier;
use shape_approx::{
    add_best_shape, blend, draw, gray_level, optimize, random_shape, search_round, squared_error,
    tune_parameter, ApproxError, Approximation, PixelBuffer, SearchConfig, Shape, StopRule,
};

fn buf(width: u32, height: u32, samples: Vec<u8>) -> PixelBuffer {
    PixelBuffer::new(width, height, samples).unwrap()
}

fn shape(x1: i32, y1: i32, x2: i32, y2: i32, color: i32) -> Shape {
    Shape { x1, y1, x2, y2, color }
}

fn quadrant_target() -> PixelBuffer {
    let mut samples = vec![0u8; 16];
    for y in 0..2 {
        for x in 0..2 {
            samples[y * 4 + x] = 200;
        }
    }
    buf(4, 4, samples)
}

#[test]
fn score_of_buffer_with_itself_is_zero() {
    let a = buf(3, 2, vec![0, 17, 255, 3, 99, 128]);
    assert_eq!(squared_error(&a, &a), Ok(0));
}

#[test]
fn score_is_symmetric() {
    let a = buf(2, 2, vec![0, 10, 20, 255]);
    let b = buf(2, 2, vec![5, 0, 23, 0]);
    assert_eq!(squared_error(&a, &b), Ok(25 + 100 + 9 + 65025));
    assert_eq!(squared_error(&a, &b), squared_error(&b, &a));
}

#[test]
fn score_rejects_mismatched_dimensions() {
    let a = buf(2, 3, vec![0; 6]);
    let b = buf(3, 2, vec![0; 6]);
    assert_eq!(squared_error(&a, &b), Err(ApproxError::DimensionMismatch));
}

#[test]
fn buffer_rejects_wrong_sample_count() {
    assert_eq!(PixelBuffer::new(2, 2, vec![1, 2, 3]).err(), Some(ApproxError::SampleCountMismatch));
    let pixels = vec![[1u8, 2, 3]; 5];
    assert_eq!(PixelBuffer::from_rgb(2, 2, &pixels).err(), Some(ApproxError::SampleCountMismatch));
}

#[test]
fn buffer_accessors() {
    let b = buf(3, 2, vec![1, 2, 3, 4, 5, 6]);
    assert_eq!(b.width(), 3);
    assert_eq!(b.height(), 2);
    assert_eq!(b.get(0, 1), 4);
    assert_eq!(b.get(2, 0), 3);
    assert_eq!(b.samples(), &vec![1, 2, 3, 4, 5, 6]);
    assert_eq!(b.duplicate().samples(), b.samples());
}

#[test]
fn gray_level_truncates_each_channel() {
    assert_eq!(gray_level(30, 60, 91), 60);
    assert_eq!(gray_level(255, 255, 255), 255);
    assert_eq!(gray_level(2, 2, 2), 0);
    let pixels = vec![[30u8, 60, 91], [3, 6, 9], [255, 0, 0], [1, 1, 1]];
    let b = PixelBuffer::from_rgb(2, 2, &pixels).unwrap();
    assert_eq!(b.samples(), &vec![60, 6, 85, 0]);
}

#[test]
fn mean_intensity_truncates() {
    assert_eq!(buf(2, 2, vec![1, 2, 3, 4]).mean_intensity(), 2);
    assert_eq!(buf(0, 0, vec![]).mean_intensity(), 0);
    let t = quadrant_target();
    assert_eq!(t.mean_intensity(), 50);
    let bg = t.average_background();
    assert_eq!(bg.samples(), &vec![50u8; 16]);
    assert_eq!(PixelBuffer::filled(2, 3, 7).samples(), &vec![7u8; 6]);
}

#[test]
fn blend_half_weight() {
    assert_eq!(blend(0, 200, 500), 100);
}

#[test]
fn blend_formula_values() {
    assert_eq!(blend(10, 200, 1000), 200);
    assert_eq!(blend(10, 200, 0), 10);
    // 0.3 * 255 + 0.7 * 101 = 147.2
    assert_eq!(blend(101, 255, 300), 147);
    assert_eq!(blend(0, 300, 1000), 255);
    assert_eq!(blend(100, -50, 1000), 0);
    assert_eq!(blend(100, -50, 100), 85);
}

#[test]
fn opaque_draw_fills_rectangle_exactly() {
    let base = buf(3, 3, vec![1, 2, 3, 4, 5, 6, 7, 8, 9]);
    let r = draw(shape(2, 2, 1, 1, 77), &base, 1000);
    assert_eq!(r.samples(), &vec![1, 2, 3, 4, 77, 77, 7, 77, 77]);
    assert_eq!(base.samples(), &vec![1, 2, 3, 4, 5, 6, 7, 8, 9]);
}

#[test]
fn transparent_draw_is_identity() {
    let base = buf(3, 3, vec![1, 2, 3, 4, 5, 6, 7, 8, 9]);
    let r = draw(shape(0, 0, 2, 2, 200), &base, 0);
    assert_eq!(r.samples(), base.samples());
}

#[test]
fn draw_outside_canvas_is_noop() {
    let base = buf(3, 2, vec![1, 2, 3, 4, 5, 6]);
    assert_eq!(draw(shape(-5, -5, -1, -1, 9), &base, 1000).samples(), base.samples());
    assert_eq!(draw(shape(3, 0, 7, 1, 9), &base, 1000).samples(), base.samples());
    assert_eq!(draw(shape(0, 2, 2, 8, 9), &base, 1000).samples(), base.samples());
}

#[test]
fn draw_clamps_partly_outside_shape() {
    let base = buf(3, 2, vec![1, 2, 3, 4, 5, 6]);
    let r = draw(shape(-3, 1, 10, 1, 9), &base, 1000);
    assert_eq!(r.samples(), &vec![1, 2, 3, 9, 9, 9]);
    let r = draw(shape(2, -100, 50, 0, 9), &base, 1000);
    assert_eq!(r.samples(), &vec![1, 2, 9, 4, 5, 6]);
}

#[test]
fn draw_twice_gives_same_buffer() {
    let base = buf(3, 2, vec![10, 20, 30, 40, 50, 60]);
    let s = shape(0, 0, 1, 1, 120);
    let r1 = draw(s, &base, 400);
    let r2 = draw(s, &base, 400);
    assert_eq!(r1.samples(), r2.samples());
    assert_eq!(r1.samples(), &vec![54, 60, 30, 72, 78, 60]);
}

#[test]
fn whole_canvas_shape_matches_flat_target() {
    let target = buf(2, 2, vec![100, 100, 100, 100]);
    let canvas = buf(2, 2, vec![50, 50, 50, 50]);
    let r = draw(shape(0, 0, 1, 1, 100), &canvas, 1000);
    assert_eq!(r.samples(), &vec![100, 100, 100, 100]);
    assert_eq!(squared_error(&r, &target), Ok(0));
}

#[test]
fn one_round_on_quadrant_lowers_error() {
    let target = quadrant_target();
    let mut run = Approximation::new(target, 1, SearchConfig::standard(1000));
    let before = squared_error(run.canvas(), run.target()).unwrap();
    assert_eq!(before, 4 * 150 * 150 + 12 * 50 * 50);
    assert!(run.advance_from(shape(0, 0, 1, 1, 150)));
    let after = squared_error(run.canvas(), run.target()).unwrap();
    assert!(after < before);
    assert_eq!(run.remaining(), 0);
    assert!(!run.advance_from(shape(0, 0, 1, 1, 150)));
}

#[test]
fn one_random_round_on_quadrant_lowers_error() {
    let mut rng = StdRng::seed_from_u64(7);
    let mut run = Approximation::new(quadrant_target(), 1, SearchConfig::standard(1000));
    let before = squared_error(run.canvas(), run.target()).unwrap();
    assert!(run.advance(&mut rng));
    let after = squared_error(run.canvas(), run.target()).unwrap();
    assert!(after < before);
    assert!(!run.advance(&mut rng));
}

#[test]
fn random_rounds_never_raise_error() {
    let mut rng = StdRng::seed_from_u64(11);
    let target = buf(3, 3, vec![0, 50, 100, 150, 200, 250, 30, 60, 90]);
    let mut run = Approximation::new(target, 5, SearchConfig::standard(600));
    let mut last = squared_error(run.canvas(), run.target()).unwrap();
    while run.advance(&mut rng) {
        let now = squared_error(run.canvas(), run.target()).unwrap();
        assert!(now <= last);
        last = now;
    }
    assert_eq!(run.remaining(), 0);
}

#[test]
fn random_shapes_lie_on_canvas() {
    let mut rng = StdRng::seed_from_u64(3);
    let mut nonzero = false;
    for _ in 0..200 {
        let s = random_shape(&mut rng, 5, 4);
        assert!(0 <= s.x1 && s.x1 < 5 && 0 <= s.x2 && s.x2 < 5);
        assert!(0 <= s.y1 && s.y1 < 4 && 0 <= s.y2 && s.y2 < 4);
        assert!(0 <= s.color && s.color <= 255);
        if s.x1 != 0 && s.y1 != 0 && s.color != 0 {
            nonzero = true;
        }
    }
    assert!(nonzero);
}

#[test]
fn candidate_multipliers() {
    let c = SearchConfig::standard(1000);
    assert_eq!(multiplier(&c, 0), (-6, 5));
    assert_eq!(multiplier(&c, 1), (-5, 6));
    assert_eq!(multiplier(&c, 2), (0, 1));
    assert_eq!(multiplier(&c, 3), (5, 6));
    assert_eq!(multiplier(&c, 4), (6, 5));
}

#[test]
fn tune_parameter_takes_best_candidate() {
    let base = buf(1, 1, vec![0]);
    let target = buf(1, 1, vec![100]);
    let c = SearchConfig::standard(1000);
    // colour candidates 38, 42, 50, 58, 62: the last is closest to 100
    let (s, step) = tune_parameter(&base, &target, &c, shape(0, 0, 0, 0, 50), 10000, 4);
    assert_eq!(s, shape(0, 0, 0, 0, 62));
    assert_eq!(step, 12000);
}

#[test]
fn tune_parameter_shrinks_step_when_staying_wins() {
    let base = buf(1, 1, vec![0]);
    let target = buf(1, 1, vec![50]);
    let c = SearchConfig::standard(1000);
    let (s, step) = tune_parameter(&base, &target, &c, shape(0, 0, 0, 0, 50), 10000, 4);
    assert_eq!(s, shape(0, 0, 0, 0, 50));
    assert_eq!(step, 8333);
}

#[test]
fn tune_parameter_ties_go_to_first_candidate() {
    let base = buf(1, 1, vec![0]);
    let target = buf(1, 1, vec![50]);
    let c = SearchConfig::standard(1000);
    // every move of x1 keeps the single pixel covered
    let (s, step) = tune_parameter(&base, &target, &c, shape(0, 0, 0, 0, 50), 10000, 0);
    assert_eq!(s, shape(-12, 0, 0, 0, 50));
    assert_eq!(step, -12000);
}

#[test]
fn search_round_tunes_every_parameter() {
    let base = buf(1, 1, vec![0]);
    let target = buf(1, 1, vec![100]);
    let c = SearchConfig::standard(1000);
    let (s, steps) = search_round(&base, &target, &c, shape(0, 0, 0, 0, 50), vec![10000; 5]);
    assert_eq!(s, shape(-12, -12, 0, 0, 62));
    assert_eq!(steps, vec![-12000, -12000, 8333, 8333, 12000]);
}

#[test]
fn optimize_rounds_within_cap() {
    let base = buf(1, 1, vec![0]);
    let target = buf(1, 1, vec![100]);
    let mut c = SearchConfig::standard(1000);
    c.round_cap = 3;
    let o = optimize(&base, &target, shape(0, 0, 0, 0, 50), &c).unwrap();
    assert!(1 <= o.rounds && o.rounds <= 3);
    let start_err = squared_error(&draw(shape(0, 0, 0, 0, 50), &base, 1000), &target).unwrap();
    let end_err = squared_error(&draw(o.shape, &base, 1000), &target).unwrap();
    assert!(end_err <= start_err);
    c.stop_rule = StopRule::EarlyAccept;
    c.epsilon = 0;
    let o = optimize(&base, &target, shape(0, 0, 0, 0, 50), &c).unwrap();
    assert_eq!(o.rounds, 1);
    assert_eq!(o.shape, shape(-12, -12, 0, 0, 62));
}

#[test]
fn optimize_stops_on_stagnation() {
    let base = buf(1, 1, vec![0]);
    let target = buf(1, 1, vec![50]);
    let c = SearchConfig::standard(1000);
    let o = optimize(&base, &target, shape(0, 0, 0, 0, 50), &c).unwrap();
    assert_eq!(o.rounds, 1);
    assert_eq!(squared_error(&draw(o.shape, &base, 1000), &target), Ok(0));
}

#[test]
fn optimize_rejects_mismatched_dimensions() {
    let base = buf(1, 2, vec![0, 0]);
    let target = buf(2, 1, vec![0, 0]);
    let c = SearchConfig::standard(1000);
    assert_eq!(optimize(&base, &target, shape(0, 0, 0, 0, 5), &c).err(), Some(ApproxError::DimensionMismatch));
    assert_eq!(add_best_shape(&base, &target, shape(0, 0, 0, 0, 5), &c).err(), Some(ApproxError::DimensionMismatch));
}

#[test]
fn add_best_shape_keeps_canvas_when_shape_hurts() {
    let canvas = buf(1, 1, vec![100]);
    let target = buf(1, 1, vec![100]);
    let mut c = SearchConfig::standard(1000);
    c.round_cap = 1;
    c.initial_steps = [0; 5];
    let r = add_best_shape(&canvas, &target, shape(0, 0, 0, 0, 0), &c).unwrap();
    assert_eq!(r.samples(), &vec![100]);
}

#[test]
fn add_best_shape_accepts_improvement() {
    let canvas = buf(2, 1, vec![0, 0]);
    let target = buf(2, 1, vec![90, 90]);
    let c = SearchConfig::standard(1000);
    let r = add_best_shape(&canvas, &target, shape(0, 0, 1, 0, 90), &c).unwrap();
    assert_eq!(r.samples(), &vec![90, 90]);
}
