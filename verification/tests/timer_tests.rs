use pong::timer::Timer;

#[test]
fn half_second_countdown_finishes_on_the_thirtieth_tick() {
    // a delay of 0.5 s and a tick of 1/60 s
    let mut timer = Timer::new(500_000_000);
    for tick in 1..=200 {
        timer.tick(16_666_667);
        assert_eq!(timer.just_finished(), tick == 30, "tick {}", tick);
        assert_eq!(timer.finished(), tick >= 30, "tick {}", tick);
    }
    timer.reset();
    assert!(!timer.finished());
    assert!(!timer.just_finished());
    assert_eq!(timer.elapsed(), 0);
    for tick in 1..=60 {
        timer.tick(16_666_667);
        assert_eq!(timer.just_finished(), tick == 30);
        assert_eq!(timer.finished(), tick >= 30);
    }
}

#[test]
fn countdown_counts_up_to_its_duration() {
    let mut timer = Timer::new(10);
    assert_eq!(timer.duration(), 10);
    assert_eq!(timer.remaining(), 10);
    timer.tick(4);
    assert_eq!(timer.elapsed(), 4);
    assert_eq!(timer.remaining(), 6);
    assert!(!timer.finished());
    timer.tick(u64::MAX);
    assert_eq!(timer.elapsed(), 10);
    assert_eq!(timer.remaining(), 0);
    assert!(timer.finished());
    assert!(timer.just_finished());
    timer.tick(0);
    assert!(timer.finished());
    assert!(!timer.just_finished());
    assert_eq!(timer.elapsed(), 10);
}

#[test]
fn countdown_of_no_duration_needs_one_tick() {
    let mut timer = Timer::new(0);
    assert!(!timer.finished());
    timer.tick(0);
    assert!(timer.finished());
    assert!(timer.just_finished());
}

#[test]
fn exact_hit_of_the_duration_finishes() {
    let mut timer = Timer::new(100);
    timer.tick(99);
    assert!(!timer.finished());
    timer.tick(1);
    assert!(timer.just_finished());
}

#[test]
fn countdown_out_of_order_still_ticks() {
    let mut timer = Timer::new(100);
    timer.elapsed = 150;
    assert_eq!(timer.remaining(), 0);
    timer.tick(0);
    assert!(timer.finished());
    assert!(timer.just_finished());
    assert_eq!(timer.elapsed(), 100);
}

#[test]
fn tick_that_is_cut_short_needs_one_tick_more() {
    // 1/60 s cut to whole nanoseconds: thirty such ticks fall 20 ns short of half a second
    let mut timer = Timer::new(500_000_000);
    for tick in 1..=40 {
        timer.tick(16_666_666);
        assert_eq!(timer.just_finished(), tick == 31, "tick {}", tick);
        assert_eq!(timer.finished(), tick >= 31, "tick {}", tick);
    }
}
