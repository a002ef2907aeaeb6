use inferrust_proxy::latency::{get_p95_timeout, LatencyWindow, WINDOW_CAPACITY};

fn window_of(samples: &[u64]) -> LatencyWindow {
    let mut w = LatencyWindow::new();
    for s in samples {
        w.record(*s);
    }
    w
}

#[test]
fn few_samples_use_default() {
    assert_eq!(get_p95_timeout(&LatencyWindow::new()), 2500);
    assert_eq!(get_p95_timeout(&window_of(&[100; 9])), 2500);
}

#[test]
fn p95_of_ten_samples_is_the_largest() {
    // floor(10 * 0.95) = 9: the tenth smallest
    let w = window_of(&[900, 800, 700, 600, 1000, 550, 650, 750, 850, 950]);
    assert_eq!(get_p95_timeout(&w), 1000);
}

#[test]
fn p95_of_twenty_samples() {
    let samples: Vec<u64> = (1..=20).map(|i| i * 100).rev().collect();
    // floor(20 * 0.95) = 19: the largest
    assert_eq!(get_p95_timeout(&window_of(&samples)), 2000);
    let samples: Vec<u64> = (1..=40).map(|i| 1000 + i).collect();
    // floor(40 * 0.95) = 38
    assert_eq!(get_p95_timeout(&window_of(&samples)), 1039);
}

#[test]
fn p95_is_clamped() {
    assert_eq!(get_p95_timeout(&window_of(&[10; 12])), 500);
    assert_eq!(get_p95_timeout(&window_of(&[90_000; 12])), 5000);
}

#[test]
fn rank_matches_float_percentile() {
    for n in 10..=WINDOW_CAPACITY {
        let samples: Vec<u64> = (0..n as u64).map(|i| 600 + i).collect();
        let rank = (n as f64 * 0.95) as usize;
        assert_eq!(get_p95_timeout(&window_of(&samples)), 600 + rank as u64);
    }
}

#[test]
fn window_keeps_most_recent_hundred() {
    let samples: Vec<u64> = (0..150).collect();
    let w = window_of(&samples);
    assert_eq!(w.len(), 100);
    assert_eq!(w.to_vec(), (50..150).collect::<Vec<u64>>());
}

#[test]
fn window_below_capacity_keeps_all() {
    let w = window_of(&[3, 1, 2]);
    assert_eq!(w.to_vec(), vec![3, 1, 2]);
}

#[test]
fn larger_samples_never_shorten_the_deadline() {
    let low: Vec<u64> = (0..30).map(|i| 400 + 37 * (i % 7)).collect();
    let high: Vec<u64> = low.iter().enumerate().map(|(i, v)| v + (i as u64 % 3) * 200).collect();
    assert!(get_p95_timeout(&window_of(&low)) <= get_p95_timeout(&window_of(&high)));
}
