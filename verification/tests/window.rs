use rms::math::isqrt;
use rms::Window;

fn feed(window: &mut Window, samples: &[i32]) -> Vec<u32> {
    samples.iter().map(|&sample| window.next_rms(sample)).collect()
}

#[test]
fn integer_square_roots_round_down() {
    assert_eq!(isqrt(0), 0);
    assert_eq!(isqrt(1), 1);
    assert_eq!(isqrt(3), 1);
    assert_eq!(isqrt(4), 2);
    assert_eq!(isqrt(24), 4);
    assert_eq!(isqrt(25), 5);
    assert_eq!(isqrt(1 << 62), 1 << 31);
    assert_eq!(isqrt((1 << 62) - 1), (1 << 31) - 1);
    assert_eq!(isqrt(u64::MAX), u32::MAX);
}

#[test]
fn new_window_is_silent() {
    let mut window = Window::new(4);
    assert_eq!(window.len(), 4);
    assert_eq!(window.next_rms(0), 0);
    assert_eq!(window.len(), 4);
}

#[test]
fn window_without_slots_reports_zero() {
    let mut window = Window::new(0);
    assert_eq!(window.len(), 0);
    assert_eq!(feed(&mut window, &[5, -7, i32::MIN, i32::MAX]), vec![0, 0, 0, 0]);
    assert_eq!(window.len(), 0);
}

#[test]
fn single_sample_in_window_of_four() {
    let mut window = Window::new(4);
    let levels = feed(&mut window, &[0, 0, 0, 0, 2, 0, 0, 0]);
    assert_eq!(levels, vec![0, 0, 0, 0, 1, 1, 1, 1]);
    assert_eq!(window.next_rms(0), 0);
}

#[test]
fn constant_input_converges_to_its_magnitude() {
    let mut window = Window::new(3);
    feed(&mut window, &[1, 900, -33]);
    let levels = feed(&mut window, &[7, 7, 7, 7]);
    assert_eq!(levels[2], 7);
    assert_eq!(levels[3], 7);

    let levels = feed(&mut window, &[-9, -9, -9]);
    assert_eq!(levels[2], 9);
}

#[test]
fn lowest_sample_gives_the_highest_level() {
    let mut window = Window::new(2);
    let levels = feed(&mut window, &[i32::MIN, i32::MIN]);
    assert_eq!(levels[1], 2_147_483_648);
    let levels = feed(&mut window, &[i32::MAX, i32::MAX]);
    assert_eq!(levels[1], 2_147_483_647);
}

#[test]
fn impulse_holds_then_decays() {
    let mut window = Window::new(4);
    feed(&mut window, &[0, 0, 0, 0]);
    assert_eq!(window.next_rms(100), 50);
    assert_eq!(feed(&mut window, &[0, 0, 0]), vec![50, 50, 50]);
    assert_eq!(window.next_rms(0), 0);

    let mut window = Window::new(3);
    assert_eq!(feed(&mut window, &[10, 0, 0, 0]), vec![5, 5, 5, 0]);
}

#[test]
fn level_is_rounded_down() {
    let mut window = Window::new(2);
    // slots 0, 9: mean 4, root 2
    assert_eq!(window.next_rms(3), 2);
    // slots 9, 16: mean 12, root 3
    assert_eq!(window.next_rms(4), 3);
    // slots 16, 1: mean 8, root 2
    assert_eq!(window.next_rms(-1), 2);
}

#[test]
fn resizing_to_the_same_length_changes_nothing() {
    let mut resized = Window::new(3);
    feed(&mut resized, &[3, 1, 2]);
    let mut untouched = resized.clone();
    resized.set_len(3);
    assert_eq!(resized.len(), 3);
    for sample in [7, 0, -5, 1, 12] {
        assert_eq!(resized.next_rms(sample), untouched.next_rms(sample));
    }
}

#[test]
fn growing_pads_the_front_with_the_mean_square() {
    let mut window = Window::new(2);
    feed(&mut window, &[2, 4]);
    // slots 4, 16 with mean 10 become 10, 10, 4, 16
    window.set_len(4);
    assert_eq!(window.len(), 4);
    // slots 10, 4, 16, 36: mean 16, root 4
    assert_eq!(window.next_rms(6), 4);
    // slots 4, 16, 36, 0: mean 14, root 3
    assert_eq!(window.next_rms(0), 3);
}

#[test]
fn growing_keeps_the_level() {
    let mut window = Window::new(2);
    assert_eq!(feed(&mut window, &[4, 4]), vec![2, 4]);
    window.set_len(5);
    assert_eq!(window.next_rms(4), 4);
}

#[test]
fn growing_an_empty_window_pads_with_zero() {
    let mut window = Window::new(0);
    window.set_len(2);
    assert_eq!(window.len(), 2);
    // slots 0, 36: mean 18, root 4
    assert_eq!(window.next_rms(6), 4);
}

#[test]
fn shrinking_drops_the_oldest() {
    let mut window = Window::new(3);
    feed(&mut window, &[1, 2, 3]);
    window.set_len(2);
    assert_eq!(window.len(), 2);
    // slots 4, 9 become 9, 1: mean 5, root 2
    assert_eq!(window.next_rms(1), 2);
    window.set_len(0);
    assert_eq!(window.len(), 0);
    assert_eq!(window.next_rms(1000), 0);
}

#[test]
fn growing_then_shrinking_restores_the_window() {
    let mut resized = Window::new(3);
    feed(&mut resized, &[3, 1, 2]);
    let mut untouched = resized.clone();
    resized.set_len(5);
    resized.set_len(3);
    assert_eq!(resized.len(), 3);
    for sample in [7, 0, -5, 1] {
        assert_eq!(resized.next_rms(sample), untouched.next_rms(sample));
    }
}

#[test]
fn round_trip_with_samples_in_between_is_forgotten() {
    let mut resized = Window::new(3);
    feed(&mut resized, &[3, 1, 2]);
    let mut untouched = resized.clone();
    resized.set_len(6);
    feed(&mut resized, &[6, -2]);
    feed(&mut untouched, &[6, -2]);
    resized.set_len(3);
    let after = [9, 0, 4, 11];
    let levels = feed(&mut resized, &after);
    let expected = feed(&mut untouched, &after);
    assert_eq!(levels[2..], expected[2..]);
}

#[test]
fn reset_silences_and_keeps_the_length() {
    let mut window = Window::new(2);
    assert_eq!(feed(&mut window, &[5, 5]), vec![3, 5]);
    window.reset();
    assert_eq!(window.len(), 2);
    assert_eq!(window.next_rms(0), 0);
    // slots 0, 16: mean 8, root 2
    assert_eq!(window.next_rms(4), 2);
}
