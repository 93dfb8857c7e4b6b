use ponswarp::grid::scheduler::{ScheduleMode, Scheduler};

#[test]
fn test_scheduler_creation() {
    let scheduler = Scheduler::new(100);
    assert_eq!(scheduler.total_pieces(), 100);
    assert_eq!(scheduler.mode(), ScheduleMode::RandomFirst);
}

#[test]
fn test_peer_bitfield() {
    let mut scheduler = Scheduler::new(10);

    scheduler.set_peer_bitfield("peer1", vec![0, 1, 2, 3, 4]);
    scheduler.set_peer_bitfield("peer2", vec![5, 6, 7, 8, 9]);

    assert_eq!(scheduler.piece_frequency(0), 1);
    assert_eq!(scheduler.piece_frequency(5), 1);
}

#[test]
fn test_rare_first_selection() {
    let mut scheduler = Scheduler::new(10);

    scheduler.set_peer_bitfield("peer1", (0..10).collect());
    scheduler.set_peer_bitfield("peer2", vec![0]);

    assert_eq!(scheduler.piece_frequency(0), 2);
    assert_eq!(scheduler.piece_frequency(1), 1);

    scheduler.mark_completed(0);
    scheduler.set_mode(ScheduleMode::RareFirst);

    let next = scheduler.next_piece_for_peer("peer1");
    assert!(next.is_some());
    assert!(next.unwrap() >= 1 && next.unwrap() <= 9);
}

#[test]
fn test_endgame_mode() {
    let mut scheduler = Scheduler::new(15);
    scheduler.set_endgame_threshold(5);

    scheduler.set_peer_bitfield("peer1", (0..15).collect());

    for i in 0..10 {
        scheduler.mark_completed(i);
    }

    assert_eq!(scheduler.mode(), ScheduleMode::Endgame);
}

#[test]
fn test_generate_requests() {
    let mut scheduler = Scheduler::new(10);

    scheduler.set_peer_bitfield("peer1", vec![0, 1, 2]);
    scheduler.set_peer_bitfield("peer2", vec![3, 4, 5]);
    scheduler.set_peer_bitfield("peer3", vec![6, 7, 8, 9]);

    let requests = scheduler.generate_requests(5);
    assert!(!requests.is_empty());
    assert!(requests.len() <= 5);
}

#[test]
fn scheduler_frequency_follows_the_peers() {
    let mut scheduler = Scheduler::new(6);
    scheduler.set_peer_bitfield("a", vec![0, 1, 2, 2, 99]);
    scheduler.set_peer_bitfield("b", vec![2, 3]);
    scheduler.peer_has_piece("c", 2);
    scheduler.peer_has_piece("c", 2);
    scheduler.peer_has_piece("c", 77);
    let counts: Vec<usize> = (0..6).map(|i| scheduler.piece_frequency(i)).collect();
    assert_eq!(counts, vec![1, 1, 3, 1, 0, 0]);
    assert_eq!(scheduler.piece_frequency(6), 0);

    scheduler.set_peer_bitfield("a", vec![5]);
    let counts: Vec<usize> = (0..6).map(|i| scheduler.piece_frequency(i)).collect();
    assert_eq!(counts, vec![0, 0, 2, 1, 0, 1]);

    scheduler.remove_peer("b");
    scheduler.remove_peer("nobody");
    let counts: Vec<usize> = (0..6).map(|i| scheduler.piece_frequency(i)).collect();
    assert_eq!(counts, vec![0, 0, 1, 0, 0, 1]);
    assert_eq!(scheduler.stats().connected_peers, 2);
    assert_eq!(scheduler.peer_piece_count("c"), 1);
    assert_eq!(scheduler.peer_piece_count("nobody"), 0);
}

#[test]
fn scheduler_modes_follow_the_progress() {
    let mut scheduler = Scheduler::new(30);
    assert_eq!(scheduler.mode(), ScheduleMode::RandomFirst);
    scheduler.mark_completed(0);
    assert_eq!(scheduler.mode(), ScheduleMode::RareFirst);
    for i in 1..19 {
        scheduler.mark_completed(i);
    }
    assert_eq!(scheduler.mode(), ScheduleMode::RareFirst);
    scheduler.mark_completed(19);
    assert_eq!(scheduler.mode(), ScheduleMode::Endgame);
    scheduler.mark_completed(20);
    assert_eq!(scheduler.mode(), ScheduleMode::Endgame);
    scheduler.mark_completed(20);
    scheduler.mark_completed(1000);
    assert_eq!(scheduler.stats().completed, 21);
    assert!(!scheduler.is_complete());
    for i in 21..30 {
        scheduler.mark_completed(i);
    }
    assert!(scheduler.is_complete());
}

#[test]
fn scheduler_requests_are_distinct_valid_and_sorted() {
    let mut scheduler = Scheduler::new(40);
    scheduler.set_peer_bitfield("rare", vec![0, 1, 2, 3]);
    scheduler.set_peer_bitfield("common1", (0..40).collect());
    scheduler.set_peer_bitfield("common2", (4..40).collect());
    scheduler.set_peer_bitfield("common3", (4..40).collect());
    scheduler.mark_completed(39);
    scheduler.mark_pending(0);
    for _ in 0..50 {
        let requests = scheduler.generate_requests(16);
        assert_eq!(requests.len(), 4);
        for (i, a) in requests.iter().enumerate() {
            assert!(a.piece_index < 39);
            assert_ne!(a.piece_index, 0);
            let expected = match scheduler.piece_frequency(a.piece_index) {
                1 => 100,
                f => 100 - f.min(99) as u32,
            };
            assert_eq!(a.priority, expected);
            for b in requests.iter().skip(i + 1) {
                assert_ne!(a.piece_index, b.piece_index);
                assert_ne!(a.target_peer, b.target_peer);
                assert!(a.priority >= b.priority);
            }
        }
        let to_rare = requests.iter().find(|r| r.target_peer == "rare").unwrap();
        assert!((1..=3).contains(&to_rare.piece_index));
        assert_eq!(to_rare.priority, 98);
    }
    assert_eq!(scheduler.generate_requests(2).len(), 2);
    assert!(scheduler.generate_requests(0).is_empty());
}

#[test]
fn scheduler_priority_values() {
    let mut scheduler = Scheduler::new(3);
    scheduler.set_peer_bitfield("only", vec![0]);
    let requests = scheduler.generate_requests(4);
    assert_eq!(requests.len(), 1);
    assert_eq!(requests[0].piece_index, 0);
    assert_eq!(requests[0].priority, 100);
    for n in 0..120 {
        scheduler.peer_has_piece(&format!("p{}", n), 1);
    }
    scheduler.remove_peer("only");
    scheduler.set_peer_bitfield("p0", vec![1]);
    assert_eq!(scheduler.piece_frequency(1), 120);
    let requests = scheduler.generate_requests(1);
    assert_eq!(requests[0].priority, 1);
}

#[test]
fn scheduler_picks_among_the_ten_rarest() {
    let mut scheduler = Scheduler::new(30);
    scheduler.set_peer_bitfield("all", (0..30).collect());
    for piece in 0..30usize {
        for copy in 0..piece {
            scheduler.peer_has_piece(&format!("extra-{}-{}", piece, copy), piece);
        }
    }
    scheduler.mark_completed(29);
    scheduler.set_mode(ScheduleMode::RareFirst);
    let mut seen = std::collections::HashSet::new();
    for _ in 0..400 {
        let piece = scheduler.next_piece_for_peer("all").unwrap();
        assert!(piece < 10);
        seen.insert(piece);
    }
    assert!(seen.len() > 1);
    assert_eq!(scheduler.next_piece_for_peer("nobody"), None);
}

#[test]
fn scheduler_random_first_draws_every_candidate() {
    let mut scheduler = Scheduler::new(2);
    scheduler.set_peer_bitfield("p", vec![0, 1]);
    let mut seen = [false, false];
    for _ in 0..300 {
        let piece = scheduler.next_piece_for_peer("p").unwrap();
        seen[piece] = true;
    }
    assert!(seen[0] && seen[1]);
    scheduler.mark_pending(0);
    scheduler.mark_pending(1);
    assert_eq!(scheduler.next_piece_for_peer("p"), None);
    scheduler.unmark_pending(1);
    assert_eq!(scheduler.next_piece_for_peer("p"), Some(1));
}

#[test]
fn scheduler_endgame_requests_list_every_holder() {
    let mut scheduler = Scheduler::new(4);
    scheduler.set_peer_bitfield("a", vec![0, 1, 2, 3]);
    scheduler.set_peer_bitfield("b", vec![3]);
    assert!(scheduler.endgame_requests().is_empty());
    scheduler.mark_completed(0);
    assert_eq!(scheduler.mode(), ScheduleMode::Endgame);
    let asks = scheduler.endgame_requests();
    assert_eq!(
        asks,
        vec![
            (1, vec!["a".to_string()]),
            (2, vec!["a".to_string()]),
            (3, vec!["a".to_string(), "b".to_string()]),
        ]
    );
    let stats = scheduler.stats();
    assert_eq!(stats.rarest_piece, Some((1, 1)));
    assert_eq!(stats.pending, 0);
    assert_eq!(stats.total_pieces, 4);
}
