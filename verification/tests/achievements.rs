use nebula_nomad::achievements::{
    compute_pct, emit_achievement_event, increment_leaderboard, is_rare_achievement, leaderboard_score,
    leaderboard_top, query_progress, record_leaderboard_entry, try_unlock, AchievementError,
    AchievementEvent, AchievementId, AchievementLeaderboardEntry, AchievementTemplate, AchievementsEnv,
    AchievementsError, PlayerProfile, LEADERBOARD_SIZE,
};
use nebula_nomad::values::Address;

fn addr(tag: u8) -> Address {
    let mut strkey = [b'A'; 56];
    strkey[0] = b'G';
    strkey[55] = tag;
    Address { strkey }
}

fn empty_env() -> AchievementsEnv {
    AchievementsEnv { scores: Vec::new(), top_entries: None, events: Vec::new() }
}

fn template(min_scans: u32, min_essence: i128, min_ships: u32) -> AchievementTemplate {
    AchievementTemplate { id: 1, title: String::from("Test"), min_scans, min_essence, min_ships }
}

fn entry(tag: u8, count: u32) -> AchievementLeaderboardEntry {
    AchievementLeaderboardEntry { player: addr(tag), achievement_count: count }
}

#[test]
fn achievement_numbers_round_trip() {
    for n in 1..=20u64 {
        let a = AchievementId::from_number(n).expect("catalog entry");
        assert_eq!(a.number(), n);
    }
    assert_eq!(AchievementId::FirstScan.number(), 1);
    assert_eq!(AchievementId::Surveyor.number(), 2);
    assert_eq!(AchievementId::Legend.number(), 20);
    assert_eq!(AchievementId::from_number(0), None);
    assert_eq!(AchievementId::from_number(21), None);
}

#[test]
fn rare_achievements_are_armada_trailblazer_legend() {
    for n in 1..=25u64 {
        assert_eq!(is_rare_achievement(n), n == 18 || n == 19 || n == 20, "id {}", n);
    }
    assert!(is_rare_achievement(AchievementId::Armada.number()));
    assert!(is_rare_achievement(AchievementId::Trailblazer.number()));
    assert!(is_rare_achievement(AchievementId::Legend.number()));
    assert!(!is_rare_achievement(AchievementId::Navigator.number()));
}

#[test]
fn achievements_error_codes() {
    assert_eq!(AchievementsError::NotFound.code(), 1);
    assert_eq!(AchievementsError::ProfileNotFound.code(), 2);
}

#[test]
fn pct_without_requirements_is_complete() {
    assert_eq!(compute_pct(&template(0, 0, 0), 0, 0, 0), 100);
    assert_eq!(compute_pct(&template(0, -5, 0), 0, -100, 0), 100);
}

#[test]
fn pct_of_single_criteria() {
    assert_eq!(compute_pct(&template(10, 0, 0), 5, 0, 0), 50);
    assert_eq!(compute_pct(&template(10, 0, 0), 3, 0, 0), 30);
    assert_eq!(compute_pct(&template(3, 0, 0), 1, 0, 0), 33);
    assert_eq!(compute_pct(&template(10, 0, 0), 25, 0, 0), 100);
    assert_eq!(compute_pct(&template(0, 500, 0), 0, 250, 0), 50);
    assert_eq!(compute_pct(&template(0, 0, 5), 0, 0, 4), 80);
}

#[test]
fn pct_takes_the_least_criterion() {
    // Legend: 500 scans + 20 000 essence + 10 ships.
    let legend = template(500, 20_000, 10);
    assert_eq!(compute_pct(&legend, 250, 20_000, 10), 50);
    assert_eq!(compute_pct(&legend, 500, 5_000, 10), 25);
    assert_eq!(compute_pct(&legend, 500, 20_000, 1), 10);
    assert_eq!(compute_pct(&legend, 500, 20_000, 10), 100);
}

#[test]
fn pct_counts_negative_essence_as_none() {
    assert_eq!(compute_pct(&template(0, 100, 0), 0, -50, 0), 0);
}

#[test]
fn pct_of_large_requirements() {
    // A met criterion is complete however large the requirement.
    assert_eq!(compute_pct(&template(50_000_000, 0, 0), 50_000_000, 0, 0), 100);
    assert_eq!(compute_pct(&template(u32::MAX, 0, 0), u32::MAX, 0, 0), 100);
    assert_eq!(compute_pct(&template(0, i128::MAX, 0), 0, i128::MAX, 0), 100);
    assert_eq!(compute_pct(&template(0, 0, u32::MAX), 0, 0, u32::MAX), 100);
    // Unmet ones are rounded down without overflow.
    assert_eq!(compute_pct(&template(u32::MAX, 0, 0), u32::MAX - 1, 0, 0), 99);
    assert_eq!(compute_pct(&template(u32::MAX, 0, 0), u32::MAX / 2, 0, 0), 49);
    assert_eq!(compute_pct(&template(0, i128::MAX, 0), 0, i128::MAX - 1, 0), 99);
    assert_eq!(compute_pct(&template(0, i128::MAX, 0), 0, i128::MAX / 4, 0), 24);
}

#[test]
fn eligible_with_large_requirements() {
    let profile = PlayerProfile { total_scans: u32::MAX, essence_earned: i128::MAX };
    let huge = || AchievementTemplate {
        id: 1,
        title: String::from("Huge"),
        min_scans: u32::MAX,
        min_essence: i128::MAX,
        min_ships: u32::MAX,
    };
    let x = query_progress(3, Some(profile), u32::MAX, Some(huge()), false).unwrap();
    assert_eq!(x.progress_pct, 100);
    assert!(x.eligible);
    let x = query_progress(3, Some(profile), u32::MAX - 1, Some(huge()), false).unwrap();
    assert_eq!(x.progress_pct, 99);
    assert!(!x.eligible);
}

#[test]
fn pct_grows_with_progress() {
    let t = template(40, 1_000, 3);
    let mut last = 0;
    for k in 0..=40u32 {
        let p = compute_pct(&t, k, (k as i128) * 25, k / 10);
        assert!(p >= last);
        last = p;
    }
    assert_eq!(last, 100);
}

#[test]
fn query_progress_without_profile() {
    let r = query_progress(2, None, 0, Some(template(10, 0, 0)), false);
    assert_eq!(r, Err(AchievementsError::ProfileNotFound));
    let r = query_progress(2, None, 0, None, false);
    assert_eq!(r, Err(AchievementsError::ProfileNotFound));
}

#[test]
fn query_progress_without_template() {
    let profile = PlayerProfile { total_scans: 3, essence_earned: 0 };
    let r = query_progress(99, Some(profile), 0, None, false);
    assert_eq!(r, Err(AchievementsError::NotFound));
}

#[test]
fn query_progress_snapshot() {
    let profile = PlayerProfile { total_scans: 5, essence_earned: 0 };
    let x = query_progress(2, Some(profile), 0, Some(template(10, 0, 0)), false).unwrap();
    assert_eq!(x.achievement_id, 2);
    assert_eq!(x.title, "Test");
    assert_eq!(x.progress_pct, 50);
    assert!(!x.eligible);
    assert!(!x.unlocked);
    assert!(!x.is_rare);

    let profile = PlayerProfile { total_scans: 400, essence_earned: 0 };
    let x = query_progress(19, Some(profile), 2, Some(template(400, 0, 0)), false).unwrap();
    assert_eq!(x.progress_pct, 100);
    assert!(x.eligible);
    assert!(x.is_rare);

    let x = query_progress(19, Some(profile), 2, Some(template(400, 0, 0)), true).unwrap();
    assert_eq!(x.progress_pct, 100);
    assert!(!x.eligible);
    assert!(x.unlocked);
}

#[test]
fn score_starts_at_zero_and_counts_up() {
    let mut env = empty_env();
    let p = addr(1);
    let q = addr(2);
    assert_eq!(leaderboard_score(&env, &p), 0);
    increment_leaderboard(&mut env, &p);
    increment_leaderboard(&mut env, &p);
    increment_leaderboard(&mut env, &q);
    assert_eq!(leaderboard_score(&env, &p), 2);
    assert_eq!(leaderboard_score(&env, &q), 1);
    assert_eq!(leaderboard_score(&env, &addr(3)), 0);
}

#[test]
fn top_is_empty_when_nothing_stored() {
    let env = empty_env();
    assert!(leaderboard_top(&env).is_empty());
}

#[test]
fn record_inserts_by_rank() {
    let mut env = empty_env();
    env.top_entries = Some(vec![entry(1, 9), entry(2, 5), entry(3, 2)]);
    env.scores = vec![entry(4, 5)];
    record_leaderboard_entry(&mut env, &addr(4));
    // Ties go before the existing entry with the same count.
    assert_eq!(leaderboard_top(&env), vec![entry(1, 9), entry(4, 5), entry(2, 5), entry(3, 2)]);
}

#[test]
fn record_moves_an_existing_player() {
    let mut env = empty_env();
    env.top_entries = Some(vec![entry(1, 9), entry(2, 5), entry(3, 2)]);
    env.scores = vec![entry(3, 10)];
    record_leaderboard_entry(&mut env, &addr(3));
    assert_eq!(leaderboard_top(&env), vec![entry(3, 10), entry(1, 9), entry(2, 5)]);
}

#[test]
fn record_appends_the_lowest_score() {
    let mut env = empty_env();
    env.top_entries = Some(vec![entry(1, 9), entry(2, 5)]);
    record_leaderboard_entry(&mut env, &addr(7));
    assert_eq!(leaderboard_top(&env), vec![entry(1, 9), entry(2, 5), entry(7, 0)]);
}

#[test]
fn top_is_capped_at_ten() {
    let mut env = empty_env();
    let full: Vec<_> = (0..10u8).map(|i| entry(i, 100 - i as u32)).collect();
    env.top_entries = Some(full.clone());
    // A low score does not make the cut.
    env.scores = vec![entry(50, 1)];
    record_leaderboard_entry(&mut env, &addr(50));
    assert_eq!(leaderboard_top(&env), full);
    // A high score enters and pushes the last one out.
    env.scores.push(entry(50, 95));
    record_leaderboard_entry(&mut env, &addr(50));
    let top = leaderboard_top(&env);
    assert_eq!(top.len(), LEADERBOARD_SIZE);
    assert_eq!(top[5], entry(50, 95));
    assert_eq!(top[9], entry(8, 92));
    assert!(top.iter().all(|e| e.player != addr(9)));
}

#[test]
fn emit_event_carries_rarity() {
    let mut env = empty_env();
    emit_achievement_event(&mut env, &addr(1), 18, 77);
    emit_achievement_event(&mut env, &addr(1), 3, 78);
    assert_eq!(
        env.events,
        vec![
            AchievementEvent { player: addr(1), achievement_id: 18, badge_id: 77, rare: true },
            AchievementEvent { player: addr(1), achievement_id: 3, badge_id: 78, rare: false },
        ]
    );
}

#[test]
fn try_unlock_updates_leaderboard() {
    let mut env = empty_env();
    env.top_entries = Some(vec![entry(1, 3)]);
    let p = addr(2);
    assert_eq!(try_unlock(&mut env, &p, 20, Ok(501)), Ok(501));
    assert_eq!(leaderboard_score(&env, &p), 1);
    assert_eq!(leaderboard_top(&env), vec![entry(1, 3), entry(2, 1)]);
    assert_eq!(env.events, vec![AchievementEvent { player: p, achievement_id: 20, badge_id: 501, rare: true }]);
    assert_eq!(try_unlock(&mut env, &p, 4, Ok(502)), Ok(502));
    assert_eq!(try_unlock(&mut env, &p, 5, Ok(503)), Ok(503));
    assert_eq!(try_unlock(&mut env, &p, 6, Ok(504)), Ok(504));
    assert_eq!(leaderboard_score(&env, &p), 4);
    assert_eq!(leaderboard_top(&env), vec![entry(2, 4), entry(1, 3)]);
    assert_eq!(env.events.len(), 4);
}

#[test]
fn try_unlock_passes_engine_errors_on() {
    let mut env = empty_env();
    env.top_entries = Some(vec![entry(1, 3)]);
    let e = AchievementError { code: 3 };
    assert_eq!(try_unlock(&mut env, &addr(2), 7, Err(e)), Err(e));
    assert!(env.scores.is_empty());
    assert_eq!(leaderboard_top(&env), vec![entry(1, 3)]);
    assert!(env.events.is_empty());
}
