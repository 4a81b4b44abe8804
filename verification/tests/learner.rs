use furigana_gen::learner::Learner;

#[test]
fn unseen_word_needs_help() {
    let learner = Learner::new(3);
    assert!(learner.needs_help("猫"));
    assert!(learner.needs_help(""));

    let mut learner = Learner::new(0);
    learner.record("犬");
    assert!(learner.needs_help("猫"));
}

#[test]
fn word_needs_help_until_seen_more_often_than_the_threshold() {
    let mut learner = Learner::new(3);
    for _ in 0..3 {
        learner.record("猫");
        assert!(learner.needs_help("猫"));
    }
    learner.record("猫");
    assert!(!learner.needs_help("猫"));
}

#[test]
fn threshold_zero_teaches_at_once() {
    let mut learner = Learner::new(0);
    learner.record("猫");
    assert!(!learner.needs_help("猫"));
}

#[test]
fn first_distance_is_one_hundred() {
    let mut learner = Learner::new(0);
    learner.record("猫");
    // The word was seen at 0; after 99 others 100 words have passed.
    for _ in 0..99 {
        learner.record("犬");
    }
    assert!(!learner.needs_help("猫"));
    learner.record("犬");
    assert!(learner.needs_help("猫"));
}

#[test]
fn distance_grows_by_the_gap_up_to_half_of_itself() {
    let mut learner = Learner::new(0);
    learner.record("猫"); // seen at 0, distance 100
    for _ in 0..9 {
        learner.record("犬");
    }
    learner.record("猫"); // seen at 10, gap 10: distance 110
    for _ in 0..109 {
        learner.record("犬");
    }
    assert!(!learner.needs_help("猫")); // 110 words have passed
    learner.record("犬");
    assert!(learner.needs_help("猫")); // 111

    let mut learner = Learner::new(0);
    learner.record("猫"); // seen at 0, distance 100
    for _ in 0..79 {
        learner.record("犬");
    }
    learner.record("猫"); // seen at 80, gap 80: distance grows by 50 only
    for _ in 0..149 {
        learner.record("犬");
    }
    assert!(!learner.needs_help("猫"));
    learner.record("犬");
    assert!(learner.needs_help("猫"));
}

#[test]
fn distance_does_not_grow_when_the_word_comes_back_too_late() {
    let mut learner = Learner::new(0);
    learner.record("猫"); // seen at 0, distance 100
    for _ in 0..100 {
        learner.record("犬");
    }
    assert!(learner.needs_help("猫"));
    learner.record("猫"); // seen at 101, gap 101: distance stays 100
    for _ in 0..99 {
        learner.record("犬");
    }
    assert!(!learner.needs_help("猫"));
    learner.record("犬");
    assert!(learner.needs_help("猫"));
}

#[test]
fn distance_does_not_grow_below_the_threshold() {
    let mut learner = Learner::new(2);
    learner.record("猫");
    for _ in 0..9 {
        learner.record("犬");
    }
    learner.record("猫"); // second time: not above the threshold, distance stays 100
    for _ in 0..9 {
        learner.record("犬");
    }
    learner.record("猫"); // third time, at 20, gap 10: distance 110
    for _ in 0..109 {
        learner.record("犬");
    }
    assert!(!learner.needs_help("猫"));
    learner.record("犬");
    assert!(learner.needs_help("猫"));
}

#[test]
fn distance_is_capped_at_ten_thousand() {
    let mut learner = Learner::new(0);
    learner.record("猫");
    // Each return after 60 others lets the distance grow by 61 at most.
    for _ in 0..400 {
        for _ in 0..60 {
            learner.record("犬");
        }
        learner.record("猫");
    }
    for _ in 0..9_999 {
        learner.record("犬");
    }
    assert!(!learner.needs_help("猫"));
    learner.record("犬");
    assert!(learner.needs_help("猫"));
}

#[test]
fn words_processed_counts_every_word() {
    let mut learner = Learner::new(1);
    assert_eq!(0, learner.words_processed());
    learner.record("猫");
    learner.record("猫");
    learner.record("犬");
    assert_eq!(3, learner.words_processed());
}

#[test]
fn learner_decay() {
    let mut learner = Learner::new(5);
    for _ in 0..6 {
        learner.record("猫");
        learner.record("は");
    }
    assert!(!learner.needs_help("猫"));
    assert!(!learner.needs_help("は"));
    assert!(learner.needs_help("犬"));
    for _ in 0..10_000 {
        learner.record("犬");
    }
    assert!(learner.needs_help("猫"));
    assert!(learner.needs_help("は"));
    assert!(!learner.needs_help("犬"));
}
