use live_sim::timer::Timer;

#[test]
fn repeating_timer_fires_and_keeps_what_is_over() {
    let mut timer = Timer::new(300_000, true, true, false);
    assert_eq!(timer.time, 0);
    assert!(!timer.update(100_000));
    assert!(!timer.update(100_000));
    assert_eq!(timer.time, 200_000);
    assert!(timer.update(150_000));
    assert_eq!(timer.time, 50_000);
    assert!(timer.is_running());
    assert!(!timer.update(249_999));
    assert!(timer.update(1));
    assert_eq!(timer.time, 0);
}

#[test]
fn repeating_timer_keeps_more_than_one_duration_over() {
    let mut timer = Timer::new(100, true, true, false);
    assert!(timer.update(350));
    assert_eq!(timer.time, 250);
    assert!(timer.update(0));
    assert_eq!(timer.time, 150);
}

#[test]
fn single_shot_timer_stops_at_zero() {
    let mut timer = Timer::new(300_000, false, true, false);
    assert!(timer.update(400_000));
    assert_eq!(timer.time, 0);
    assert!(!timer.is_running());
    assert!(!timer.update(400_000));
    assert_eq!(timer.time, 0);
}

#[test]
fn stopped_timer_does_not_advance() {
    let mut timer = Timer::new(300_000, true, false, false);
    assert!(!timer.is_running());
    assert!(!timer.update(1_000_000));
    assert_eq!(timer.time, 0);
    timer.start();
    assert!(timer.is_running());
    assert!(timer.update(1_000_000));
    assert_eq!(timer.time, 700_000);
}

#[test]
fn random_start_is_before_the_first_firing() {
    for _ in 0..200 {
        let timer = Timer::new(300_000, true, true, true);
        assert!(timer.time < 300_000);
        assert_eq!(timer.duration, 300_000);
        assert!(timer.repeat);
        assert!(timer.is_running());
    }
    let timer = Timer::new(1, true, true, true);
    assert_eq!(timer.time, 0);
}

#[test]
fn time_stops_at_the_largest_there_is() {
    let mut timer = Timer::new(u64::MAX, false, true, false);
    assert!(!timer.update(u64::MAX - 1));
    assert_eq!(timer.time, u64::MAX - 1);
    assert!(timer.update(5));
    assert_eq!(timer.time, 0);
    let mut timer = Timer::new(10, true, true, false);
    timer.time = u64::MAX - 2;
    assert!(timer.update(100));
    assert_eq!(timer.time, u64::MAX - 10);
}

#[test]
fn stop_and_restart() {
    let mut timer = Timer::new(100, true, true, false);
    assert!(!timer.update(60));
    timer.stop();
    assert_eq!(timer.time, 0);
    assert!(!timer.is_running());
    timer.time = 30;
    timer.start();
    assert_eq!(timer.time, 30);
    timer.restart();
    assert_eq!(timer.time, 0);
    assert!(timer.is_running());
}

#[test]
fn duration_and_repeating_can_be_set() {
    let mut timer = Timer::new(100, false, true, false);
    assert!(!timer.update(50));
    timer.set_duration(40);
    assert_eq!(timer.duration, 40);
    assert_eq!(timer.time, 50);
    timer.set_repeating(true);
    assert!(timer.repeat);
    assert!(timer.update(0));
    assert_eq!(timer.time, 10);
    assert!(timer.is_running());
}

#[test]
fn zero_duration_fires_at_once() {
    let mut timer = Timer::new(0, true, true, false);
    assert!(timer.update(0));
    assert_eq!(timer.time, 0);
}
