use paddock_metal::error::{Fault, MetalError};
use paddock_metal::nemotron::graph::Scratch;
use paddock_metal::paddleocr::resize::{resize, resize_finish, resize_step, Fit};

#[test]
fn native_scratch_bound_matches_published_ceiling() {
    assert_eq!(Scratch::sizes(4, 256).iter().sum::<usize>(), 377959812);
    assert_eq!(Scratch::sizes(64, 2048).iter().sum::<usize>(), 677817604);
}

/// Cells of a scaled image, by its square root.
fn cells(f: Fit) -> (u64, u64) {
    match f {
        Fit::Exact { w, h } => (w / 28, h / 28),
        Fit::Shrink { w, h, max } => {
            let (w, h) = (w as f64, h as f64);
            let b = (h * w / max as f64).sqrt();
            ((w / b / 28.).floor() as u64, (h / b / 28.).floor() as u64)
        }
        Fit::Grow { w, h, min } => {
            let (w, h) = (w as f64, h as f64);
            let b = (min as f64 / (h * w)).sqrt();
            ((w * b / 28.).ceil() as u64, (h * b / 28.).ceil() as u64)
        }
    }
}

fn sized(w: u64, h: u64, min: u64, max: u64) -> Result<(u64, u64), MetalError> {
    let f = resize_step(w, h, min, max)?;
    let c = cells(f);
    assert_eq!(resize_finish(f, c), resize(w, h, min, max, c));
    resize_finish(f, c)
}

#[test]
fn resize_checkpoint_rounding_and_budgets() {
    for (w, h, tw, th) in [
        (700, 500, 700, 504),
        (300, 900, 308, 896),
        (1400, 900, 1232, 784),
        (100, 80, 392, 308),
        (350, 350, 336, 336),
        (406, 406, 392, 392),
        (378, 378, 392, 392),
        (28, 28, 336, 336),
    ] {
        assert_eq!(sized(w, h, 112896, 1003520).unwrap(), (tw, th));
    }
    assert_eq!(sized(1400, 900, 112896, 1605632).unwrap(), (1400, 896));
    for (w, h, min, max) in [
        (0, 1, 784, 1003520),
        (1, 0, 784, 1003520),
        (30000, 30, 784, 1003520),
        (30, 30, 0, 1003520),
        (30, 30, 1000, 999),
        (30, 30, 784, 1605633),
    ] {
        assert!(sized(w, h, min, max).is_err());
    }
}

#[test]
fn refusals_name_their_reason() {
    let refused = |f| Err(MetalError::Model(f));
    assert_eq!(sized(0, 1, 784, 1003520), refused(Fault::Pixels));
    assert_eq!(sized(16384, 28, 784, 1003520), refused(Fault::Aspect));
    assert_eq!(
        resize(2000, 2000, 784, 1003520, (100, 100)),
        refused(Fault::Patches)
    );
    assert_eq!(resize(2000, 2000, 784, 1003520, (35, 0)), refused(Fault::Patches));
}

#[test]
fn a_low_image_is_raised_to_one_cell() {
    // 14 x 7: the height becomes 28 and the width 56.
    assert_eq!(resize_step(14, 7, 784, 1003520), Ok(Fit::Exact { w: 56, h: 28 }));
    assert_eq!(resize_step(7, 14, 784, 1003520), Ok(Fit::Exact { w: 28, h: 56 }));
    assert_eq!(
        resize_step(7, 14, 112896, 1003520),
        Ok(Fit::Grow { w: 28, h: 56, min: 112896 })
    );
}
