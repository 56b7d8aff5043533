use timed_playlist::heuristic::h_greedy;
use timed_playlist::playlist::Playlist;
use timed_playlist::track::Track;
use rand::rngs::StdRng;
use rand::SeedableRng;

fn rng() -> StdRng {
    StdRng::seed_from_u64(0x5eed)
}

fn five_tracks() -> Vec<Track> {
    vec![
        Track::new("a.mp3".to_string(), 10_000),
        Track::new("b.mp3".to_string(), 20_000),
        Track::new("c.mp3".to_string(), 30_000),
        Track::new("d.mp3".to_string(), 40_000),
        Track::new("e.mp3".to_string(), 50_000),
    ]
}

fn snapshot(p: &Playlist) -> (Vec<(String, u64)>, Vec<(String, u64)>, u64) {
    let used = p.used().iter().map(|t| (t.path.clone(), t.duration_ms)).collect();
    let unused = p.unused().iter().map(|t| (t.path.clone(), t.duration_ms)).collect();
    (used, unused, p.used_duration_ms())
}

fn assert_partition(p: &Playlist, catalog: &[Track]) {
    let mut all: Vec<(String, u64)> = p
        .used()
        .iter()
        .chain(p.unused().iter())
        .map(|t| (t.path.clone(), t.duration_ms))
        .collect();
    all.sort();
    let mut expected: Vec<(String, u64)> = catalog.iter().map(|t| (t.path.clone(), t.duration_ms)).collect();
    expected.sort();
    assert_eq!(all, expected);
    let sum: u64 = p.used().iter().map(|t| t.duration_ms).sum();
    assert_eq!(sum, p.used_duration_ms());
}

fn distance(total: u64, target: u64) -> u64 {
    if total <= target { target - total } else { total - target }
}

#[test]
fn seed_reaches_target_on_five_tracks() {
    let mut rng = rng();
    for _ in 0..50 {
        let p = Playlist::from_random(five_tracks(), 90_000, &mut rng);
        assert_partition(&p, &five_tracks());
        assert!(p.used_duration_ms() >= 90_000);
        assert_eq!(p.used_len() + p.unused_len(), 5);
        // drawing stopped as soon as the target was reached
        let last = p.used().last().unwrap().duration_ms;
        assert!(p.used_duration_ms() - last < 90_000);
        assert_eq!(p.target(), 90_000);
    }
}

#[test]
fn seed_consumes_everything_when_target_exceeds_total() {
    let mut rng = rng();
    let p = Playlist::from_random(five_tracks(), 1_000_000, &mut rng);
    assert_eq!(p.unused_len(), 0);
    assert_eq!(p.used_len(), 5);
    assert_eq!(p.used_duration_ms(), 150_000);
    assert_eq!(p.get().1, 150);
    assert_partition(&p, &five_tracks());
}

#[test]
fn seed_with_zero_target_selects_nothing() {
    let mut rng = rng();
    let p = Playlist::from_random(five_tracks(), 0, &mut rng);
    assert_eq!(p.used_len(), 0);
    assert_eq!(p.unused_len(), 5);
    assert_eq!(p.used_duration_ms(), 0);
    assert_partition(&p, &five_tracks());
}

#[test]
fn seed_from_empty_catalog() {
    let mut rng = rng();
    let p = Playlist::from_random(Vec::new(), 60_000, &mut rng);
    assert_eq!(p.used_len(), 0);
    assert_eq!(p.unused_len(), 0);
    assert_eq!(p.get(), (Vec::<String>::new(), 0));
}

#[test]
fn seed_with_exact_total_uses_everything() {
    let mut rng = rng();
    let p = Playlist::from_random(five_tracks(), 150_000, &mut rng);
    assert_eq!(p.used_len(), 5);
    assert_eq!(p.used_duration_ms(), 150_000);
}

#[test]
fn swap_with_zero_sample_size_leaves_playlist_unchanged() {
    let mut rng = rng();
    for _ in 0..20 {
        let mut p = Playlist::from_random(five_tracks(), 60_000, &mut rng);
        let before = snapshot(&p);
        for i in 0..p.used_len() {
            p.swap(i, 0, h_greedy, &mut rng);
        }
        assert_eq!(snapshot(&p), before);
    }
}

#[test]
fn swap_with_empty_pool_leaves_playlist_unchanged() {
    let mut rng = rng();
    let mut p = Playlist::from_random(five_tracks(), 1_000_000, &mut rng);
    let before = snapshot(&p);
    for i in 0..p.used_len() {
        p.swap(i, 10, h_greedy, &mut rng);
    }
    assert_eq!(snapshot(&p), before);
}

#[test]
fn swap_keeps_lengths_and_partition() {
    let mut rng = rng();
    for _ in 0..50 {
        let mut p = Playlist::from_random(five_tracks(), 60_000, &mut rng);
        let (used_len, unused_len) = (p.used_len(), p.unused_len());
        for i in 0..used_len {
            p.swap(i, 3, |_: u64, _: u64, _: u64| true, &mut rng);
            assert_eq!(p.used_len(), used_len);
            assert_eq!(p.unused_len(), unused_len);
            assert_partition(&p, &five_tracks());
        }
    }
}

#[test]
fn swap_always_accepting_takes_a_sampled_track() {
    let mut rng = rng();
    // With a heuristic that accepts everything and a pool of one track, that track wins.
    let catalog = vec![
        Track::new("long.ogg".to_string(), 100_000),
        Track::new("short.ogg".to_string(), 1_000),
    ];
    for _ in 0..20 {
        let mut p = Playlist::from_random(catalog.clone_tracks(), 1_000, &mut rng);
        assert_eq!(p.used_len(), 1);
        let before = p.used()[0].path.clone();
        p.swap(0, 1, |_: u64, _: u64, _: u64| true, &mut rng);
        assert_ne!(p.used()[0].path, before);
        assert_eq!(p.unused()[0].path, before);
    }
}

trait CloneTracks {
    fn clone_tracks(&self) -> Vec<Track>;
}

impl CloneTracks for Vec<Track> {
    fn clone_tracks(&self) -> Vec<Track> {
        self.iter().map(|t| Track::new(t.path.clone(), t.duration_ms)).collect()
    }
}

#[test]
fn greedy_swap_never_moves_away_from_target() {
    let mut rng = rng();
    for _ in 0..100 {
        let mut p = Playlist::from_random(five_tracks(), 70_000, &mut rng);
        for i in 0..p.used_len() {
            let before = distance(p.used_duration_ms(), 70_000);
            p.swap(i, 4, h_greedy, &mut rng);
            assert!(distance(p.used_duration_ms(), 70_000) <= before);
            assert_partition(&p, &five_tracks());
        }
    }
}

#[test]
fn greedy_swap_with_full_sample_picks_a_closest_track() {
    let mut rng = rng();
    // one selected track; sampling the whole pool finds the track closest to the target (29.5 s)
    let catalog = vec![
        Track::new("a".to_string(), 100_000),
        Track::new("b".to_string(), 100_000),
        Track::new("c".to_string(), 31_000),
        Track::new("d".to_string(), 29_500),
    ];
    for _ in 0..20 {
        let mut p = Playlist::from_random(catalog.clone_tracks(), 29_000, &mut rng);
        assert_eq!(p.used_len(), 1);
        p.swap(0, 10, h_greedy, &mut rng);
        assert_eq!(p.used()[0].path, "d");
        assert_eq!(p.used_duration_ms(), 29_500);
        assert_eq!(p.unused_len(), 3);
    }
}

#[test]
fn h_greedy_accepts_only_strict_improvement() {
    assert!(h_greedy(100, 95, 90));
    assert!(!h_greedy(95, 100, 90));
    assert!(!h_greedy(85, 95, 90));
    assert!(!h_greedy(90, 90, 90));
    assert!(h_greedy(0, u64::MAX, u64::MAX));
    assert!(!h_greedy(u64::MAX, 0, u64::MAX));
}

#[test]
fn refine_keeps_invariants_and_never_moves_away() {
    let mut rng = rng();
    for _ in 0..50 {
        let mut p = Playlist::from_random(five_tracks(), 70_000, &mut rng);
        let (used_len, unused_len) = (p.used_len(), p.unused_len());
        let before = distance(p.used_duration_ms(), 70_000);
        p.refine(100, 100, 2, h_greedy, &mut rng);
        assert_eq!(p.used_len(), used_len);
        assert_eq!(p.unused_len(), unused_len);
        assert!(distance(p.used_duration_ms(), 70_000) <= before);
        assert_partition(&p, &five_tracks());
    }
}

#[test]
fn refine_with_no_passes_or_steps_changes_nothing() {
    let mut rng = rng();
    let mut p = Playlist::from_random(five_tracks(), 70_000, &mut rng);
    let before = snapshot(&p);
    p.refine(100, 100, 0, h_greedy, &mut rng);
    assert_eq!(snapshot(&p), before);
    p.refine(100, 0, 3, h_greedy, &mut rng);
    assert_eq!(snapshot(&p), before);
}

#[test]
fn get_lists_paths_in_order_and_whole_seconds() {
    let mut rng = rng();
    let catalog = vec![
        Track::new("x.flac".to_string(), 1_500),
        Track::new("y.flac".to_string(), 2_700),
    ];
    let p = Playlist::from_random(catalog, 10_000, &mut rng);
    let (paths, secs) = p.get();
    assert_eq!(secs, 4);
    let expected: Vec<String> = p.used().iter().map(|t| t.path.clone()).collect();
    assert_eq!(paths, expected);
    assert_eq!(paths.len(), 2);
}

#[test]
fn greedy_tie_keeps_the_current_track() {
    let mut rng = rng();
    let catalog = vec![
        Track::new("first".to_string(), 30_000),
        Track::new("second".to_string(), 30_000),
    ];
    let mut p = Playlist::from_random(catalog, 29_000, &mut rng);
    assert_eq!(p.used_len(), 1);
    let before = snapshot(&p);
    p.swap_sampled(0, &vec![0], h_greedy);
    assert_eq!(snapshot(&p), before);
}

#[test]
fn refusing_heuristic_changes_nothing() {
    let mut rng = rng();
    let mut p = Playlist::from_random(five_tracks(), 60_000, &mut rng);
    let before = snapshot(&p);
    let all: Vec<usize> = (0..p.unused_len()).collect();
    for i in 0..p.used_len() {
        p.swap_sampled(i, &all, |_: u64, _: u64, _: u64| false);
        p.swap(i, 10, |_: u64, _: u64, _: u64| false, &mut rng);
    }
    assert_eq!(snapshot(&p), before);
}

#[test]
fn swap_sampled_takes_the_closest_sampled_track() {
    let mut rng = rng();
    let catalog = vec![
        Track::new("big".to_string(), 100_000),
        Track::new("near".to_string(), 41_000),
        Track::new("nearer".to_string(), 40_500),
        Track::new("far".to_string(), 45_000),
    ];
    let mut p = Playlist::from_random(catalog, 40_000, &mut rng);
    assert_eq!(p.used_len(), 1);
    // try every unused position except the one holding "nearer"
    let sample: Vec<usize> = (0..p.unused_len()).filter(|&k| p.unused()[k].path != "nearer").collect();
    let used_before = p.used()[0].path.clone();
    p.swap_sampled(0, &sample, h_greedy);
    if used_before == "nearer" {
        assert_eq!(p.used()[0].path, "nearer");
    } else {
        assert_eq!(p.used()[0].path, "near");
        assert_eq!(p.used_duration_ms(), 41_000);
        if used_before != "near" {
            assert!(p.unused().iter().any(|t| t.path == used_before));
        }
    }
    assert_eq!(p.unused_len(), 3);
}

#[test]
fn swap_with_huge_sample_size_uses_the_whole_pool() {
    let mut rng = rng();
    for _ in 0..10 {
        let mut p = Playlist::from_random(five_tracks(), 45_000, &mut rng);
        let used_len = p.used_len();
        for i in 0..used_len {
            p.swap(i, usize::MAX, h_greedy, &mut rng);
        }
        assert_eq!(p.used_len(), used_len);
        assert_partition(&p, &five_tracks());
    }
}

#[test]
fn refine_settles_the_last_position_tried() {
    let mut rng = rng();
    for _ in 0..20 {
        let mut p = Playlist::from_random(five_tracks(), 70_000, &mut rng);
        p.refine(150, 100, 1, h_greedy, &mut rng);
        let last = p.used_len() - 1;
        let total = p.used_duration_ms();
        let base = total - p.used()[last].duration_ms;
        for t in p.unused() {
            assert!(distance(total, 70_000) <= distance(base + t.duration_ms, 70_000));
        }
    }
}
