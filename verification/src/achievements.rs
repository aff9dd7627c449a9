//! The public achievement catalog, progress snapshots, the achievement
//! leaderboard (top 10 by achievement count) and achievement-unlocked events.
//!
//! [`AchievementsEnv`] holds what the leaderboard operations read and change:
//! the per-player score entries, the stored top-10 list and the published
//! events.  Data owned by other parts of the contract (player profiles, ship
//! counts, achievement templates, unlock records and the badge minting of the
//! achievement engine) is handed to these operations as values.
use vstd::prelude::*;
use crate::values::{Address, Symbol};

verus! {

// ─── Catalog ────────────────────────────────────────────────────────────────

/// Stable numeric identifiers for every achievement in the catalog
/// (see [`achievement_number`]); they are never renumbered.
#[derive(Clone, Copy, Debug, PartialEq, Eq)]
pub enum AchievementId {
    /// Complete the very first nebula scan.
    FirstScan,
    /// Accumulate 10 total scans.
    Surveyor,
    /// Accumulate 25 total scans.
    Pathfinder,
    /// Accumulate 50 total scans.
    Voyager,
    /// Accumulate 100 total scans.
    Navigator,
    /// Earn 100 essence.
    EssenceOne,
    /// Earn 500 essence.
    EssenceTwo,
    /// Earn 1 000 essence.
    EssenceThree,
    /// Earn 5 000 essence.
    EssenceFour,
    /// Own 1 ship.
    FleetOne,
    /// Own 3 ships.
    FleetThree,
    /// Own 5 ships.
    FleetFive,
    /// Own 10 ships.
    FleetTen,
    /// Accumulate 150 total scans.
    DeepSurvey,
    /// Accumulate 200 total scans.
    GrandSurvey,
    /// Accumulate 300 total scans.
    CosmicReach,
    /// Earn 10 000 essence.
    CosmicWealth,
    /// Own 20 ships (rare).
    Armada,
    /// Accumulate 400 total scans (rare).
    Trailblazer,
    /// Reach 500 scans + 20 000 essence + 10 ships (rare, combined).
    Legend,
}

/// The on-chain number of each catalog entry, 1 to 20 in catalog order.
pub open spec fn achievement_number(a: AchievementId) -> u64 {
    match a {
        AchievementId::FirstScan => 1,
        AchievementId::Surveyor => 2,
        AchievementId::Pathfinder => 3,
        AchievementId::Voyager => 4,
        AchievementId::Navigator => 5,
        AchievementId::EssenceOne => 6,
        AchievementId::EssenceTwo => 7,
        AchievementId::EssenceThree => 8,
        AchievementId::EssenceFour => 9,
        AchievementId::FleetOne => 10,
        AchievementId::FleetThree => 11,
        AchievementId::FleetFive => 12,
        AchievementId::FleetTen => 13,
        AchievementId::DeepSurvey => 14,
        AchievementId::GrandSurvey => 15,
        AchievementId::CosmicReach => 16,
        AchievementId::CosmicWealth => 17,
        AchievementId::Armada => 18,
        AchievementId::Trailblazer => 19,
        AchievementId::Legend => 20,
    }
}

impl AchievementId {
    /// The numeric identifier of this achievement.
    pub fn number(&self) -> (n: u64)
        ensures
            n == achievement_number(*self),
    {
        match self {
            AchievementId::FirstScan => 1,
            AchievementId::Surveyor => 2,
            AchievementId::Pathfinder => 3,
            AchievementId::Voyager => 4,
            AchievementId::Navigator => 5,
            AchievementId::EssenceOne => 6,
            AchievementId::EssenceTwo => 7,
            AchievementId::EssenceThree => 8,
            AchievementId::EssenceFour => 9,
            AchievementId::FleetOne => 10,
            AchievementId::FleetThree => 11,
            AchievementId::FleetFive => 12,
            AchievementId::FleetTen => 13,
            AchievementId::DeepSurvey => 14,
            AchievementId::GrandSurvey => 15,
            AchievementId::CosmicReach => 16,
            AchievementId::CosmicWealth => 17,
            AchievementId::Armada => 18,
            AchievementId::Trailblazer => 19,
            AchievementId::Legend => 20,
        }
    }

    /// The catalog entry with numeric identifier `n`, if there is one.
    pub fn from_number(n: u64) -> (a: Option<AchievementId>)
        ensures
            a matches Some(x) ==> achievement_number(x) == n,
            a is None <==> !(1 <= n <= 20),
    {
        match n {
            1 => Some(AchievementId::FirstScan),
            2 => Some(AchievementId::Surveyor),
            3 => Some(AchievementId::Pathfinder),
            4 => Some(AchievementId::Voyager),
            5 => Some(AchievementId::Navigator),
            6 => Some(AchievementId::EssenceOne),
            7 => Some(AchievementId::EssenceTwo),
            8 => Some(AchievementId::EssenceThree),
            9 => Some(AchievementId::EssenceFour),
            10 => Some(AchievementId::FleetOne),
            11 => Some(AchievementId::FleetThree),
            12 => Some(AchievementId::FleetFive),
            13 => Some(AchievementId::FleetTen),
            14 => Some(AchievementId::DeepSurvey),
            15 => Some(AchievementId::GrandSurvey),
            16 => Some(AchievementId::CosmicReach),
            17 => Some(AchievementId::CosmicWealth),
            18 => Some(AchievementId::Armada),
            19 => Some(AchievementId::Trailblazer),
            20 => Some(AchievementId::Legend),
            _ => None,
        }
    }
}

/// Extended display metadata for a catalog achievement.
#[derive(Debug, PartialEq, Eq)]
pub struct AchievementDef {
    /// Unique achievement ID.
    pub id: u64,
    /// Short display title.
    pub title: String,
    /// Human-readable unlock criteria.
    pub description: String,
    /// Category tag: `scan`, `essence`, `fleet` or `combined`.
    pub category: Symbol,
    /// `true` for achievements that trigger a celebration animation in the UI.
    pub is_rare: bool,
    /// Minimum total scans required (0 = not required).
    pub min_scans: u32,
    /// Minimum essence earned required (0 = not required).
    pub min_essence: i128,
    /// Minimum ships owned required (0 = not required).
    pub min_ships: u32,
}

/// The unlock criteria of an achievement, as the achievement engine stores
/// them under the achievement's identifier.
#[derive(Debug, PartialEq, Eq)]
pub struct AchievementTemplate {
    pub id: u64,
    pub title: String,
    /// Minimum total scans required (0 = not required).
    pub min_scans: u32,
    /// Minimum essence earned required (0 or less = not required).
    pub min_essence: i128,
    /// Minimum ships owned required (0 = not required).
    pub min_ships: u32,
}

/// The statistics of a player's profile that achievements are measured on.
#[derive(Clone, Copy, Debug, PartialEq, Eq)]
pub struct PlayerProfile {
    pub total_scans: u32,
    pub essence_earned: i128,
}

/// An error reported by the achievement engine, by its contract error code.
#[derive(Clone, Copy, Debug, PartialEq, Eq)]
pub struct AchievementError {
    pub code: u32,
}

/// Point-in-time progress for a single achievement including rarity metadata.
#[derive(Debug, PartialEq, Eq)]
pub struct AchievementProgressEx {
    /// Numeric achievement ID.
    pub achievement_id: u64,
    /// Display title.
    pub title: String,
    /// Whether the player has already unlocked this achievement.
    pub unlocked: bool,
    /// Whether the player currently meets all criteria (and has not unlocked yet).
    pub eligible: bool,
    /// Completion percentage in the range [0, 100].
    pub progress_pct: u32,
    /// Whether this is a rare achievement.
    pub is_rare: bool,
}

/// Errors of the achievement queries.
#[derive(Clone, Copy, Debug, PartialEq, Eq)]
pub enum AchievementsError {
    /// The requested achievement ID does not exist in the catalog.
    NotFound,
    /// The player's profile could not be located.
    ProfileNotFound,
}

impl AchievementsError {
    /// The numeric contract error code.
    pub fn code(&self) -> (c: u32)
        ensures
            c == match *self {
                AchievementsError::NotFound => 1u32,
                AchievementsError::ProfileNotFound => 2,
            },
    {
        match self {
            AchievementsError::NotFound => 1,
            AchievementsError::ProfileNotFound => 2,
        }
    }
}

// ─── Progress ───────────────────────────────────────────────────────────────

/// Completion percentage of one criterion needing `need` and having `have`:
/// 100 when nothing is needed or the need is met, else the whole percentage
/// `have * 100 / need` (rounded down).
pub open spec fn criterion_pct(have: int, need: int) -> int {
    if need <= 0 || have >= need {
        100
    } else {
        have * 100 / need
    }
}

pub open spec fn min_of(a: int, b: int) -> int {
    if a <= b { a } else { b }
}

/// Essence counted towards achievements: negative essence counts as none.
pub open spec fn counted_essence(essence: i128) -> int {
    if essence < 0 { 0 } else { essence as int }
}

/// Completion percentage of template `t` for a player with the given scans,
/// essence and ships: the least of the percentages of its criteria.
pub open spec fn progress_pct(t: AchievementTemplate, scans: u32, essence: i128, ships: u32) -> int {
    min_of(
        min_of(
            criterion_pct(scans as int, t.min_scans as int),
            criterion_pct(counted_essence(essence), t.min_essence as int),
        ),
        criterion_pct(ships as int, t.min_ships as int),
    )
}

/// Whether a player with the given scans, essence and ships meets every
/// criterion of template `t`.
pub open spec fn criteria_met(t: AchievementTemplate, scans: u32, essence: i128, ships: u32) -> bool {
    &&& scans >= t.min_scans
    &&& (t.min_essence <= 0 || essence >= t.min_essence)
    &&& ships >= t.min_ships
}

/// Whether achievement `id` is rare: Armada (18), Trailblazer (19), Legend (20).
pub open spec fn rare_id(id: u64) -> bool {
    id == 18 || id == 19 || id == 20
}

fn double_step(q: u128, r: u128, need: u128) -> (res: (u128, u128))
    requires
        r < need,
        need <= i128::MAX,
        q <= 1000,
    ensures
        res.0 * need + res.1 == 2 * (q * need + r),
        res.1 < need,
        res.0 <= 2 * q + 1,
{
    let r2: u128 = r * 2;
    if r2 >= need {
        assert((2 * q + 1) * need + (r2 - need) == 2 * (q * need + r)) by (nonlinear_arith)
            requires
                r2 == r * 2,
        ;
        (q * 2 + 1, r2 - need)
    } else {
        assert((2 * q) * need + r2 == 2 * (q * need + r)) by (nonlinear_arith)
            requires
                r2 == r * 2,
        ;
        (q * 2, r2)
    }
}

fn add_step(q: u128, r: u128, have: u128, need: u128) -> (res: (u128, u128))
    requires
        r < need,
        have < need,
        need <= i128::MAX,
        q <= 1000,
    ensures
        res.0 * need + res.1 == q * need + r + have,
        res.1 < need,
        res.0 <= q + 1,
{
    let r2: u128 = r + have;
    if r2 >= need {
        assert((q + 1) * need + (r2 - need) == q * need + r + have) by (nonlinear_arith)
            requires
                r2 == r + have,
        ;
        (q + 1, r2 - need)
    } else {
        (q, r2)
    }
}

/// `have * 100 / need` for `have < need`, by binary long division over the
/// bits of 100, so that no intermediate value exceeds `2 * need`.
fn hundredths(have: u128, need: u128) -> (pct: u32)
    requires
        have < need,
        need <= i128::MAX,
    ensures
        pct == (have as int) * 100 / (need as int),
        pct < 100,
{
    // 100 = 0b1100100: h, 3h, 6h, 12h, 25h, 50h, 100h.
    let (q, r) = double_step(0, have, need);
    let (q, r) = add_step(q, r, have, need);
    let (q, r) = double_step(q, r, need);
    let (q, r) = double_step(q, r, need);
    let (q, r) = double_step(q, r, need);
    let (q, r) = add_step(q, r, have, need);
    let (q, r) = double_step(q, r, need);
    let (q, r) = double_step(q, r, need);
    assert(q * need + r == have * 100);
    proof {
        vstd::arithmetic::div_mod::lemma_fundamental_div_mod_converse((have as int) * 100, need as int, q as int, r as int);
        assert(q < 100) by (nonlinear_arith)
            requires
                q * need + r == have * 100,
                have < need,
                r >= 0,
        ;
    }
    q as u32
}

/// Percentage (0 to 100) of template `template`'s criteria met by a player
/// with the given scans, essence and ships.
pub fn compute_pct(template: &AchievementTemplate, scans: u32, essence: i128, ships: u32) -> (pct: u32)
    ensures
        pct == progress_pct(*template, scans, essence, ships),
        pct <= 100,
{
    let mut pct: u32 = 100;
    if template.min_scans > 0 && scans < template.min_scans {
        let q: u32 = hundredths(scans as u128, template.min_scans as u128);
        if q < pct {
            pct = q;
        }
    }
    if template.min_essence > 0 {
        let eu: u128 = if essence < 0 { 0 } else { essence as u128 };
        let req: u128 = template.min_essence as u128;
        if eu < req {
            let q: u32 = hundredths(eu, req);
            if q < pct {
                pct = q;
            }
        }
    }
    if template.min_ships > 0 && ships < template.min_ships {
        let q: u32 = hundredths(ships as u128, template.min_ships as u128);
        if q < pct {
            pct = q;
        }
    }
    pct
}

/// `true` for achievements that deserve a rare-unlock celebration in the UI.
pub fn is_rare_achievement(id: u64) -> (rare: bool)
    ensures
        rare == rare_id(id),
{
    id == 18 || id == 19 || id == 20
}

/// Progress snapshot of achievement `achievement_id` for a player, given the
/// player's profile (`None` when the player has none), the number of ships
/// the player owns, the achievement's template (`None` when the catalog has
/// no such achievement) and whether the player already unlocked it.
pub fn query_progress(
    achievement_id: u64,
    profile: Option<PlayerProfile>,
    ship_count: u32,
    template: Option<AchievementTemplate>,
    unlocked: bool,
) -> (r: Result<AchievementProgressEx, AchievementsError>)
    ensures
        profile is None ==> r == Err::<AchievementProgressEx, AchievementsError>(AchievementsError::ProfileNotFound),
        profile is Some && template is None ==> r == Err::<AchievementProgressEx, AchievementsError>(AchievementsError::NotFound),
        profile is Some && template is Some ==> (r matches Ok(x) && {
            let p = profile->0;
            let t = template->0;
            &&& x.achievement_id == achievement_id
            &&& x.title == t.title
            &&& x.unlocked == unlocked
            &&& x.progress_pct == progress_pct(t, p.total_scans, p.essence_earned, ship_count)
            &&& x.eligible == (x.progress_pct >= 100 && !unlocked)
            &&& x.eligible == (criteria_met(t, p.total_scans, p.essence_earned, ship_count) && !unlocked)
            &&& x.is_rare == rare_id(achievement_id)
        }),
{
    let profile = match profile {
        Some(p) => p,
        None => return Err(AchievementsError::ProfileNotFound),
    };
    let template = match template {
        Some(t) => t,
        None => return Err(AchievementsError::NotFound),
    };
    let pct: u32 = compute_pct(&template, profile.total_scans, profile.essence_earned, ship_count);
    proof {
        lemma_complete_iff_criteria_met(template, profile.total_scans, profile.essence_earned, ship_count);
    }
    Ok(AchievementProgressEx {
        achievement_id,
        title: template.title,
        unlocked,
        eligible: pct >= 100 && !unlocked,
        progress_pct: pct,
        is_rare: is_rare_achievement(achievement_id),
    })
}

// ─── Leaderboard ────────────────────────────────────────────────────────────

/// Storage key namespace for the achievement leaderboard: `PlayerScore(p)`
/// names `p`'s entry in [`AchievementsEnv::scores`], `TopEntries` names
/// [`AchievementsEnv::top_entries`].
#[derive(Clone, Copy, Debug, PartialEq, Eq)]
pub enum LeaderboardKey {
    /// Per-player achievement count used for scoring.
    PlayerScore(Address),
    /// Sorted top-10 entries list.
    TopEntries,
}

/// A single leaderboard entry.
#[derive(Clone, Copy, Debug, PartialEq, Eq)]
pub struct AchievementLeaderboardEntry {
    /// Player address.
    pub player: Address,
    /// Number of achievements unlocked by this player.
    pub achievement_count: u32,
}

/// The `ach_unlck` event: `player` unlocked `achievement_id` and received
/// badge `badge_id`; `rare` tells whether the achievement is rare.
#[derive(Clone, Copy, Debug, PartialEq, Eq)]
pub struct AchievementEvent {
    pub player: Address,
    pub achievement_id: u64,
    pub badge_id: u64,
    pub rare: bool,
}

/// The number of entries the top list keeps.
pub const LEADERBOARD_SIZE: usize = 10;

/// The part of the contract environment the leaderboard operations read and
/// change.
pub struct AchievementsEnv {
    /// `PlayerScore` entries, oldest first; for each player the last entry
    /// is the stored one.
    pub scores: Vec<AchievementLeaderboardEntry>,
    /// The stored top list, if any.
    pub top_entries: Option<Vec<AchievementLeaderboardEntry>>,
    /// Published events, oldest first.
    pub events: Vec<AchievementEvent>,
}

/// Mathematical view of an [`AchievementsEnv`].
pub ghost struct AchievementsState {
    pub scores: Seq<AchievementLeaderboardEntry>,
    pub top_entries: Option<Seq<AchievementLeaderboardEntry>>,
    pub events: Seq<AchievementEvent>,
}

impl View for AchievementsEnv {
    type V = AchievementsState;

    open spec fn view(&self) -> AchievementsState {
        AchievementsState {
            scores: self.scores@,
            top_entries: match self.top_entries {
                Some(t) => Some(t@),
                None => None,
            },
            events: self.events@,
        }
    }
}

/// The score stored for `player`: the count of the last entry for `player`.
pub open spec fn stored_score(scores: Seq<AchievementLeaderboardEntry>, player: Address) -> Option<u32>
    decreases scores.len(),
{
    if scores.len() == 0 {
        None
    } else if scores.last().player == player {
        Some(scores.last().achievement_count)
    } else {
        stored_score(scores.drop_last(), player)
    }
}

/// `player`'s achievement score: the stored one, or 0.
pub open spec fn score_of(s: AchievementsState, player: Address) -> u32 {
    match stored_score(s.scores, player) {
        Some(c) => c,
        None => 0,
    }
}

/// The top list: the stored one, or empty.
pub open spec fn top_of(s: AchievementsState) -> Seq<AchievementLeaderboardEntry> {
    match s.top_entries {
        Some(t) => t,
        None => Seq::empty(),
    }
}

/// `entries` without those of `player`, in their order.
pub open spec fn entries_without(
    entries: Seq<AchievementLeaderboardEntry>,
    player: Address,
) -> Seq<AchievementLeaderboardEntry> {
    entries.filter(|e: AchievementLeaderboardEntry| e.player != player)
}

/// Where an entry with `score` goes in `entries`: before the first entry
/// whose count is at most `score`, or at the end.
pub open spec fn rank_position(entries: Seq<AchievementLeaderboardEntry>, score: u32) -> int
    decreases entries.len(),
{
    if entries.len() == 0 {
        0
    } else if score >= entries[0].achievement_count {
        0
    } else {
        1 + rank_position(entries.drop_first(), score)
    }
}

/// The first `LEADERBOARD_SIZE` entries of `s`.
pub open spec fn cap_top(s: Seq<AchievementLeaderboardEntry>) -> Seq<AchievementLeaderboardEntry> {
    if s.len() > LEADERBOARD_SIZE { s.take(LEADERBOARD_SIZE as int) } else { s }
}

/// The top list after `player`'s entry is set to `score`: the player's old
/// entries removed, the new entry inserted at its rank, the list cut to
/// `LEADERBOARD_SIZE`.
pub open spec fn upsert_top(entries: Seq<AchievementLeaderboardEntry>, player: Address, score: u32) -> Seq<AchievementLeaderboardEntry> {
    let others = entries_without(entries, player);
    cap_top(others.insert(
        rank_position(others, score),
        AchievementLeaderboardEntry { player, achievement_count: score },
    ))
}

/// Entries ordered from the highest count to the lowest (ties in any order).
pub open spec fn ranked_descending(s: Seq<AchievementLeaderboardEntry>) -> bool {
    forall|i: int, j: int| 0 <= i < j < s.len() ==> s[j].achievement_count <= s[i].achievement_count
}

/// No player has two entries.
pub open spec fn distinct_players(s: Seq<AchievementLeaderboardEntry>) -> bool {
    forall|i: int, j: int| 0 <= i < j < s.len() ==> s[i].player != s[j].player
}

proof fn lemma_rank_position(entries: Seq<AchievementLeaderboardEntry>, score: u32)
    ensures
        0 <= rank_position(entries, score) <= entries.len(),
        forall|k: int| 0 <= k < rank_position(entries, score) ==> score < #[trigger] entries[k].achievement_count,
        rank_position(entries, score) < entries.len() ==> score >= entries[rank_position(entries, score)].achievement_count,
    decreases entries.len(),
{
    if entries.len() > 0 && score < entries[0].achievement_count {
        lemma_rank_position(entries.drop_first(), score);
        assert forall|k: int| 0 <= k < rank_position(entries, score) implies score < #[trigger] entries[k].achievement_count by {
            if k > 0 {
                assert(entries[k] == entries.drop_first()[k - 1]);
            }
        }
    }
}

proof fn lemma_stored_score_push(scores: Seq<AchievementLeaderboardEntry>, e: AchievementLeaderboardEntry, player: Address)
    ensures
        stored_score(scores.push(e), player) == if e.player == player {
            Some(e.achievement_count)
        } else {
            stored_score(scores, player)
        },
{
    assert(scores.push(e).drop_last() =~= scores);
}

proof fn lemma_entries_without_step(entries: Seq<AchievementLeaderboardEntry>, i: int, player: Address)
    requires
        0 <= i < entries.len(),
    ensures
        entries_without(entries.take(i + 1), player) == if entries[i].player != player {
            entries_without(entries.take(i), player).push(entries[i])
        } else {
            entries_without(entries.take(i), player)
        },
{
    assert(entries.take(i + 1) =~= entries.take(i).push(entries[i]));
    entries.take(i).lemma_filter_push(entries[i], |e: AchievementLeaderboardEntry| e.player != player);
}

/// The leaderboard after `player`'s score went up by one.
pub open spec fn incremented(s: AchievementsState, player: Address) -> AchievementsState {
    AchievementsState {
        scores: s.scores.push(
            AchievementLeaderboardEntry { player, achievement_count: (score_of(s, player) + 1) as u32 },
        ),
        ..s
    }
}

/// The leaderboard after `player` was upserted into the top list with their
/// current score.
pub open spec fn recorded(s: AchievementsState, player: Address) -> AchievementsState {
    AchievementsState { top_entries: Some(upsert_top(top_of(s), player, score_of(s, player))), ..s }
}

/// The leaderboard after an `ach_unlck` event for `player`, `achievement_id`
/// and `badge_id` was published.
pub open spec fn emitted(s: AchievementsState, player: Address, achievement_id: u64, badge_id: u64) -> AchievementsState {
    AchievementsState {
        events: s.events.push(
            AchievementEvent { player, achievement_id, badge_id, rare: rare_id(achievement_id) },
        ),
        ..s
    }
}

/// Return the total achievements unlocked by `player` (0 when none is stored).
pub fn leaderboard_score(env: &AchievementsEnv, player: &Address) -> (score: u32)
    ensures
        score == score_of(env@, *player),
{
    let mut i: usize = env.scores.len();
    assert(env.scores@.take(i as int) =~= env.scores@);
    while i > 0
        invariant
            i <= env.scores.len(),
            stored_score(env.scores@, *player) == stored_score(env.scores@.take(i as int), *player),
        decreases i,
    {
        let e = env.scores[i - 1];
        assert(env.scores@.take(i as int).drop_last() =~= env.scores@.take(i - 1));
        if e.player.same_as(player) {
            return e.achievement_count;
        }
        i -= 1;
    }
    0
}

/// Increment `player`'s achievement score by 1.
pub fn increment_leaderboard(env: &mut AchievementsEnv, player: &Address)
    requires
        score_of(old(env)@, *player) < u32::MAX,
    ensures
        final(env)@ == incremented(old(env)@, *player),
{
    let current: u32 = leaderboard_score(env, player);
    env.scores.push(AchievementLeaderboardEntry { player: *player, achievement_count: current + 1 });
}

/// Return the stored top-10 leaderboard snapshot (empty when none is stored).
pub fn leaderboard_top(env: &AchievementsEnv) -> (top: Vec<AchievementLeaderboardEntry>)
    ensures
        top@ == top_of(env@),
{
    let mut out: Vec<AchievementLeaderboardEntry> = Vec::new();
    match &env.top_entries {
        None => {},
        Some(t) => {
            let mut i: usize = 0;
            while i < t.len()
                invariant
                    i <= t.len(),
                    out@ == t@.take(i as int),
                decreases t.len() - i,
            {
                out.push(t[i]);
                i += 1;
                assert(out@ =~= t@.take(i as int));
            }
            assert(t@.take(t.len() as int) =~= t@);
        },
    }
    out
}

/// Upsert `player` into the top list with their current score: the list
/// stays sorted from the highest count to the lowest and keeps at most
/// `LEADERBOARD_SIZE` entries.
pub fn record_leaderboard_entry(env: &mut AchievementsEnv, player: &Address)
    ensures
        final(env)@ == recorded(old(env)@, *player),
{
    let score: u32 = leaderboard_score(env, player);
    let entries = leaderboard_top(env);

    // Remove the player's existing entries.
    let mut without_player: Vec<AchievementLeaderboardEntry> = Vec::new();
    let mut i: usize = 0;
    while i < entries.len()
        invariant
            i <= entries.len(),
            without_player@ == entries_without(entries@.take(i as int), *player),
        decreases entries.len() - i,
    {
        let e = entries[i];
        proof {
            lemma_entries_without_step(entries@, i as int, *player);
        }
        if !e.player.same_as(player) {
            without_player.push(e);
        }
        i += 1;
    }
    assert(entries@.take(entries.len() as int) =~= entries@);

    // Insert at the ranked position.
    let new_entry = AchievementLeaderboardEntry { player: *player, achievement_count: score };
    let ghost w = without_player@;
    let ghost pos = rank_position(w, score);
    proof {
        lemma_rank_position(w, score);
    }
    let mut sorted: Vec<AchievementLeaderboardEntry> = Vec::new();
    let mut inserted = false;
    let mut j: usize = 0;
    while j < without_player.len()
        invariant
            w == without_player@,
            pos == rank_position(w, score),
            0 <= pos <= w.len(),
            forall|k: int| 0 <= k < pos ==> score < #[trigger] w[k].achievement_count,
            pos < w.len() ==> score >= w[pos].achievement_count,
            new_entry == (AchievementLeaderboardEntry { player: *player, achievement_count: score }),
            j <= w.len(),
            inserted <==> pos < j,
            sorted@ == if inserted {
                w.take(pos).push(new_entry) + w.subrange(pos, j as int)
            } else {
                w.take(j as int)
            },
        decreases w.len() - j,
    {
        let e = without_player[j];
        if !inserted && score >= e.achievement_count {
            sorted.push(new_entry);
            inserted = true;
            assert(sorted@ =~= w.take(pos).push(new_entry) + w.subrange(pos, j as int));
        }
        sorted.push(e);
        j += 1;
        if inserted {
            assert(sorted@ =~= w.take(pos).push(new_entry) + w.subrange(pos, j as int));
        } else {
            assert(sorted@ =~= w.take(j as int));
        }
    }
    if !inserted {
        sorted.push(new_entry);
    }
    assert(sorted@ =~= w.insert(pos, new_entry));

    // Keep the first LEADERBOARD_SIZE entries.
    let mut capped: Vec<AchievementLeaderboardEntry> = Vec::new();
    let mut k: usize = 0;
    while k < sorted.len() && k < LEADERBOARD_SIZE
        invariant
            k <= sorted.len(),
            k <= LEADERBOARD_SIZE,
            capped@ == sorted@.take(k as int),
        decreases sorted.len() - k,
    {
        capped.push(sorted[k]);
        k += 1;
        assert(capped@ =~= sorted@.take(k as int));
    }
    assert(capped@ =~= cap_top(sorted@));
    env.top_entries = Some(capped);
}

/// Publish an `ach_unlck` event for `player`, `achievement_id` and `badge_id`.
pub fn emit_achievement_event(env: &mut AchievementsEnv, player: &Address, achievement_id: u64, badge_id: u64)
    ensures
        final(env)@ == emitted(old(env)@, *player, achievement_id, badge_id),
{
    let rare = is_rare_achievement(achievement_id);
    env.events.push(AchievementEvent { player: *player, achievement_id, badge_id, rare });
}

/// The leaderboard state after `player` unlocked `achievement_id` with badge
/// `badge_id`: score up by one, top list upserted with the new score, one
/// `ach_unlck` event.
pub open spec fn unlock_recorded(s: AchievementsState, player: Address, achievement_id: u64, badge_id: u64) -> AchievementsState {
    let new_score: u32 = (score_of(s, player) + 1) as u32;
    AchievementsState {
        scores: s.scores.push(AchievementLeaderboardEntry { player, achievement_count: new_score }),
        top_entries: Some(upsert_top(top_of(s), player, new_score)),
        events: s.events.push(
            AchievementEvent { player, achievement_id, badge_id, rare: rare_id(achievement_id) },
        ),
    }
}

/// Record the unlock of `achievement_id` by `player`, given the outcome of
/// the achievement engine's unlock (the minted badge's id, or the engine's
/// error).  On success the leaderboard is updated, an event is published and
/// the badge id returned; an engine error is passed on and changes nothing.
pub fn try_unlock(
    env: &mut AchievementsEnv,
    player: &Address,
    achievement_id: u64,
    unlocked_badge: Result<u64, AchievementError>,
) -> (r: Result<u64, AchievementError>)
    requires
        unlocked_badge is Ok ==> score_of(old(env)@, *player) < u32::MAX,
    ensures
        r == unlocked_badge,
        unlocked_badge is Err ==> final(env)@ == old(env)@,
        unlocked_badge matches Ok(b) ==> final(env)@ == unlock_recorded(old(env)@, *player, achievement_id, b),
{
    let badge_id: u64 = unlocked_badge?;
    increment_leaderboard(env, player);
    proof {
        lemma_stored_score_push(
            old(env)@.scores,
            AchievementLeaderboardEntry {
                player: *player,
                achievement_count: (score_of(old(env)@, *player) + 1) as u32,
            },
            *player,
        );
    }
    record_leaderboard_entry(env, player);
    emit_achievement_event(env, player, achievement_id, badge_id);
    Ok(badge_id)
}

// ─── Laws ───────────────────────────────────────────────────────────────────

proof fn lemma_without_excludes(entries: Seq<AchievementLeaderboardEntry>, player: Address)
    ensures
        forall|i: int| 0 <= i < entries_without(entries, player).len()
            ==> (#[trigger] entries_without(entries, player)[i]).player != player,
{
    assert forall|i: int| 0 <= i < entries_without(entries, player).len()
        implies (#[trigger] entries_without(entries, player)[i]).player != player by {
        entries.lemma_filter_pred(|e: AchievementLeaderboardEntry| e.player != player, i);
    }
}

proof fn lemma_without_keeps_ranked(entries: Seq<AchievementLeaderboardEntry>, player: Address)
    requires
        ranked_descending(entries),
    ensures
        ranked_descending(entries_without(entries, player)),
    decreases entries.len(),
{
    reveal(Seq::filter);
    if entries.len() > 0 {
        let rest = entries.drop_last();
        let last = entries.last();
        let pred = |e: AchievementLeaderboardEntry| e.player != player;
        lemma_without_keeps_ranked(rest, player);
        let f = entries_without(rest, player);
        if pred(last) {
            assert forall|i: int| 0 <= i < f.len() implies last.achievement_count <= (#[trigger] f[i]).achievement_count by {
                assert(f.contains(f[i]));
                rest.lemma_filter_contains_rev(pred, f[i]);
                let k = choose|k: int| 0 <= k < rest.len() && rest[k] == f[i];
                assert(entries[k] == rest[k]);
            }
            assert(entries_without(entries, player) == f.push(last));
        }
    }
}

proof fn lemma_without_keeps_distinct(entries: Seq<AchievementLeaderboardEntry>, player: Address)
    requires
        distinct_players(entries),
    ensures
        distinct_players(entries_without(entries, player)),
    decreases entries.len(),
{
    reveal(Seq::filter);
    if entries.len() > 0 {
        let rest = entries.drop_last();
        let last = entries.last();
        let pred = |e: AchievementLeaderboardEntry| e.player != player;
        lemma_without_keeps_distinct(rest, player);
        let f = entries_without(rest, player);
        if pred(last) {
            assert forall|i: int| 0 <= i < f.len() implies (#[trigger] f[i]).player != last.player by {
                assert(f.contains(f[i]));
                rest.lemma_filter_contains_rev(pred, f[i]);
                let k = choose|k: int| 0 <= k < rest.len() && rest[k] == f[i];
                assert(entries[k] == rest[k]);
            }
            assert(entries_without(entries, player) == f.push(last));
        }
    }
}

proof fn lemma_without_of_kept(entries: Seq<AchievementLeaderboardEntry>, player: Address)
    requires
        forall|i: int| 0 <= i < entries.len() ==> (#[trigger] entries[i]).player != player,
    ensures
        entries_without(entries, player) == entries,
    decreases entries.len(),
{
    reveal(Seq::filter);
    if entries.len() > 0 {
        let rest = entries.drop_last();
        assert forall|i: int| 0 <= i < rest.len() implies (#[trigger] rest[i]).player != player by {
            assert(rest[i] == entries[i]);
        }
        lemma_without_of_kept(rest, player);
        assert(rest.push(entries.last()) =~= entries);
    }
}

proof fn lemma_without_take_prefix(entries: Seq<AchievementLeaderboardEntry>, n: int, player: Address)
    requires
        0 <= n <= entries.len(),
    ensures
        entries_without(entries.take(n), player).is_prefix_of(entries_without(entries, player)),
    decreases entries.len(),
{
    reveal(Seq::filter);
    if n == entries.len() {
        assert(entries.take(n) =~= entries);
    } else {
        let rest = entries.drop_last();
        assert(entries.take(n) =~= rest.take(n));
        lemma_without_take_prefix(rest, n, player);
    }
}

proof fn lemma_rank_insert_ranked(w: Seq<AchievementLeaderboardEntry>, e: AchievementLeaderboardEntry)
    requires
        ranked_descending(w),
    ensures
        ranked_descending(w.insert(rank_position(w, e.achievement_count), e)),
{
    let pos: int = rank_position(w, e.achievement_count);
    lemma_rank_position(w, e.achievement_count);
    w.insert_ensures(pos, e);
    let r = w.insert(pos, e);
    assert forall|i: int, j: int| 0 <= i < j < r.len() implies r[j].achievement_count <= r[i].achievement_count by {
        if j < pos {
        } else if j == pos {
        } else if i < pos {
            assert(r[j] == w[j - 1]);
        } else if i == pos {
            assert(r[j] == w[j - 1]);
        } else {
            assert(r[j] == w[j - 1]);
            assert(r[i] == w[i - 1]);
        }
    }
}

/// Reading a score back after an increment gives one more than before;
/// other players' scores are unchanged.
pub proof fn lemma_increment_then_read(s: AchievementsState, player: Address, other: Address)
    requires
        score_of(s, player) < u32::MAX,
    ensures
        ({
            let t = AchievementsState {
                scores: s.scores.push(
                    AchievementLeaderboardEntry {
                        player,
                        achievement_count: (score_of(s, player) + 1) as u32,
                    },
                ),
                ..s
            };
            &&& score_of(t, player) == score_of(s, player) + 1
            &&& other != player ==> score_of(t, other) == score_of(s, other)
        }),
{
    let e = AchievementLeaderboardEntry { player, achievement_count: (score_of(s, player) + 1) as u32 };
    lemma_stored_score_push(s.scores, e, player);
    lemma_stored_score_push(s.scores, e, other);
}

/// The top list never holds more than `LEADERBOARD_SIZE` entries.
pub proof fn lemma_top_is_capped(entries: Seq<AchievementLeaderboardEntry>, player: Address, score: u32)
    ensures
        upsert_top(entries, player, score).len() <= LEADERBOARD_SIZE,
{
}

/// A top list sorted from the highest count to the lowest stays sorted.
pub proof fn lemma_top_stays_ranked(entries: Seq<AchievementLeaderboardEntry>, player: Address, score: u32)
    requires
        ranked_descending(entries),
    ensures
        ranked_descending(upsert_top(entries, player, score)),
{
    let w = entries_without(entries, player);
    lemma_without_keeps_ranked(entries, player);
    let e = AchievementLeaderboardEntry { player, achievement_count: score };
    lemma_rank_insert_ranked(w, e);
}

/// The upserted player is listed exactly at their rank among the others,
/// with the given score, when that rank is within the top, and nowhere else.
pub proof fn lemma_player_listed_once(entries: Seq<AchievementLeaderboardEntry>, player: Address, score: u32)
    ensures
        ({
            let r = upsert_top(entries, player, score);
            let pos: int = rank_position(entries_without(entries, player), score);
            &&& forall|i: int| 0 <= i < r.len() ==> ((#[trigger] r[i]).player == player <==> i == pos)
            &&& pos < LEADERBOARD_SIZE ==> pos < r.len() && r[pos] == (AchievementLeaderboardEntry {
                player,
                achievement_count: score,
            })
        }),
{
    let w = entries_without(entries, player);
    let pos: int = rank_position(w, score);
    let e = AchievementLeaderboardEntry { player, achievement_count: score };
    lemma_rank_position(w, score);
    lemma_without_excludes(entries, player);
    w.insert_ensures(pos, e);
    let r = upsert_top(entries, player, score);
    assert forall|i: int| 0 <= i < r.len() implies ((#[trigger] r[i]).player == player <==> i == pos) by {
        if i > pos {
            assert(r[i] == w[i - 1]);
        }
    }
}

proof fn lemma_without_after_insert(
    w: Seq<AchievementLeaderboardEntry>,
    pos: int,
    e: AchievementLeaderboardEntry,
    player: Address,
)
    requires
        0 <= pos <= w.len(),
        forall|i: int| 0 <= i < w.len() ==> (#[trigger] w[i]).player != player,
        e.player == player,
    ensures
        entries_without(w.insert(pos, e), player) == w,
{
    let pred = |x: AchievementLeaderboardEntry| x.player != player;
    let front = w.subrange(0, pos);
    let back = w.subrange(pos, w.len() as int);
    assert forall|i: int| 0 <= i < front.len() implies (#[trigger] front[i]).player != player by {
        assert(front[i] == w[i]);
    }
    assert forall|i: int| 0 <= i < back.len() implies (#[trigger] back[i]).player != player by {
        assert(back[i] == w[pos + i]);
    }
    lemma_without_of_kept(front, player);
    lemma_without_of_kept(back, player);
    front.lemma_filter_push(e, pred);
    Seq::filter_distributes_over_add(front.push(e), back, pred);
    assert(w.insert(pos, e) == front.push(e) + back);
    assert(entries_without(w.insert(pos, e), player) == (front.push(e) + back).filter(pred));
    assert((front.push(e) + back).filter(pred) == front.push(e).filter(pred) + back.filter(pred));
    assert(front.push(e).filter(pred) == front.filter(pred));
    assert(front.filter(pred) == front);
    assert(back.filter(pred) == back);
    assert(front + back =~= w);
}

/// Players other than the upserted one keep their entries and their order;
/// only entries pushed past the cut drop out.
pub proof fn lemma_others_keep_order(entries: Seq<AchievementLeaderboardEntry>, player: Address, score: u32)
    ensures
        entries_without(upsert_top(entries, player, score), player).is_prefix_of(entries_without(entries, player)),
{
    let w = entries_without(entries, player);
    let pos: int = rank_position(w, score);
    let e = AchievementLeaderboardEntry { player, achievement_count: score };
    lemma_rank_position(w, score);
    lemma_without_excludes(entries, player);
    lemma_without_after_insert(w, pos, e, player);
    let ins = w.insert(pos, e);
    if ins.len() > LEADERBOARD_SIZE {
        lemma_without_take_prefix(ins, LEADERBOARD_SIZE as int, player);
    } else {
        assert(entries_without(ins, player).is_prefix_of(w));
    }
}

/// A top list without duplicate players keeps having none.
pub proof fn lemma_top_players_distinct(entries: Seq<AchievementLeaderboardEntry>, player: Address, score: u32)
    requires
        distinct_players(entries),
    ensures
        distinct_players(upsert_top(entries, player, score)),
{
    let w = entries_without(entries, player);
    let pos: int = rank_position(w, score);
    let e = AchievementLeaderboardEntry { player, achievement_count: score };
    lemma_rank_position(w, score);
    lemma_without_keeps_distinct(entries, player);
    lemma_player_listed_once(entries, player, score);
    w.insert_ensures(pos, e);
    let r = upsert_top(entries, player, score);
    assert forall|i: int, j: int| 0 <= i < j < r.len() implies r[i].player != r[j].player by {
        if i != pos && j != pos {
            let wi: int = if i < pos { i } else { i - 1 };
            let wj: int = if j < pos { j } else { j - 1 };
            assert(r[i] == w[wi]);
            assert(r[j] == w[wj]);
        }
    }
}

/// A successful unlock raises the player's score by one, publishes one event
/// carrying the achievement's rarity, and leaves the top list capped, sorted
/// (if it was) and listing the player only with the new score.
pub proof fn lemma_unlock_updates_leaderboard(s: AchievementsState, player: Address, achievement_id: u64, badge_id: u64)
    requires
        score_of(s, player) < u32::MAX,
    ensures
        ({
            let t = unlock_recorded(s, player, achievement_id, badge_id);
            &&& score_of(t, player) == score_of(s, player) + 1
            &&& top_of(t).len() <= LEADERBOARD_SIZE
            &&& ranked_descending(top_of(s)) ==> ranked_descending(top_of(t))
            &&& forall|i: int| 0 <= i < top_of(t).len() && (#[trigger] top_of(t)[i]).player == player
                ==> top_of(t)[i].achievement_count == score_of(t, player)
            &&& t.events == s.events.push(AchievementEvent {
                player,
                achievement_id,
                badge_id,
                rare: rare_id(achievement_id),
            })
        }),
{
    let new_score: u32 = (score_of(s, player) + 1) as u32;
    lemma_increment_then_read(s, player, player);
    lemma_player_listed_once(top_of(s), player, new_score);
    if ranked_descending(top_of(s)) {
        lemma_top_stays_ranked(top_of(s), player, new_score);
    }
    let t = unlock_recorded(s, player, achievement_id, badge_id);
    let w = entries_without(top_of(s), player);
    let pos: int = rank_position(w, new_score);
    lemma_rank_position(w, new_score);
    w.insert_ensures(pos, AchievementLeaderboardEntry { player, achievement_count: new_score });
}

/// The catalog numbers are exactly 1 to 20, one per achievement.
pub proof fn lemma_catalog_numbers(a: AchievementId, b: AchievementId)
    ensures
        1 <= achievement_number(a) <= 20,
        achievement_number(a) == achievement_number(b) ==> a == b,
{
}

/// The rare achievements are exactly Armada, Trailblazer and Legend.
pub proof fn lemma_rare_catalog(a: AchievementId)
    ensures
        rare_id(achievement_number(a)) <==> (a == AchievementId::Armada || a == AchievementId::Trailblazer
            || a == AchievementId::Legend),
{
}

proof fn lemma_criterion_complete(have: int, need: int)
    requires
        have >= 0,
    ensures
        criterion_pct(have, need) == 100 <==> (need <= 0 || have >= need),
        0 <= criterion_pct(have, need) <= 100,
{
    if need > 0 && have < need {
        assert(0 <= have * 100 / need < 100) by (nonlinear_arith)
            requires
                0 <= have < need,
        ;
    }
}

proof fn lemma_criterion_monotone(have1: int, have2: int, need: int)
    requires
        0 <= have1 <= have2,
    ensures
        criterion_pct(have1, need) <= criterion_pct(have2, need),
{
    lemma_criterion_complete(have1, need);
    if need > 0 && have2 < need {
        assert(have1 * 100 <= have2 * 100) by (nonlinear_arith)
            requires
                have1 <= have2,
        ;
        vstd::arithmetic::div_mod::lemma_div_is_ordered(have1 * 100, have2 * 100, need);
    }
}

/// An achievement is complete (100%) exactly when every criterion is met:
/// scans, essence (negative essence counting as none) and ships each reach
/// their minimum.  So a snapshot is eligible exactly when the criteria are
/// met and the achievement is not unlocked yet.
pub proof fn lemma_complete_iff_criteria_met(t: AchievementTemplate, scans: u32, essence: i128, ships: u32)
    ensures
        0 <= progress_pct(t, scans, essence, ships) <= 100,
        progress_pct(t, scans, essence, ships) == 100 <==> criteria_met(t, scans, essence, ships),
{
    lemma_criterion_complete(scans as int, t.min_scans as int);
    lemma_criterion_complete(counted_essence(essence), t.min_essence as int);
    lemma_criterion_complete(ships as int, t.min_ships as int);
}

/// More scans, essence or ships never lower an achievement's progress.
pub proof fn lemma_progress_monotone(
    t: AchievementTemplate,
    scans1: u32,
    essence1: i128,
    ships1: u32,
    scans2: u32,
    essence2: i128,
    ships2: u32,
)
    requires
        scans1 <= scans2,
        essence1 <= essence2,
        ships1 <= ships2,
    ensures
        progress_pct(t, scans1, essence1, ships1) <= progress_pct(t, scans2, essence2, ships2),
{
    lemma_criterion_monotone(scans1 as int, scans2 as int, t.min_scans as int);
    lemma_criterion_monotone(counted_essence(essence1), counted_essence(essence2), t.min_essence as int);
    lemma_criterion_monotone(ships1 as int, ships2 as int, t.min_ships as int);
}

// ─── Laws over call sequences ───────────────────────────────────────────────

proof fn lemma_rank_unique(w: Seq<AchievementLeaderboardEntry>, score: u32, p: int)
    requires
        0 <= p <= w.len(),
        forall|k: int| 0 <= k < p ==> score < #[trigger] w[k].achievement_count,
        p < w.len() ==> score >= w[p].achievement_count,
    ensures
        p == rank_position(w, score),
{
    lemma_rank_position(w, score);
    let r = rank_position(w, score);
    if p < r {
        assert(score < w[p].achievement_count);
    } else if r < p {
        assert(score < w[r].achievement_count);
    }
}

/// Upserting the same player with the same score twice gives the same top
/// list as upserting once.
pub proof fn lemma_upsert_idempotent(entries: Seq<AchievementLeaderboardEntry>, player: Address, score: u32)
    ensures
        upsert_top(upsert_top(entries, player, score), player, score) == upsert_top(entries, player, score),
{
    let w = entries_without(entries, player);
    let pos = rank_position(w, score);
    let e = AchievementLeaderboardEntry { player, achievement_count: score };
    lemma_rank_position(w, score);
    lemma_without_excludes(entries, player);
    let ins = w.insert(pos, e);
    let r1 = cap_top(ins);
    assert(r1 == upsert_top(entries, player, score));
    if ins.len() <= LEADERBOARD_SIZE {
        lemma_without_after_insert(w, pos, e, player);
        assert(entries_without(r1, player) == w);
    } else if pos < LEADERBOARD_SIZE {
        let w9 = w.take(9);
        assert forall|i: int| 0 <= i < w9.len() implies (#[trigger] w9[i]).player != player by {
            assert(w9[i] == w[i]);
        }
        assert(r1 =~= w9.insert(pos, e));
        lemma_without_after_insert(w9, pos, e, player);
        assert forall|k: int| 0 <= k < pos implies score < #[trigger] w9[k].achievement_count by {
            assert(w9[k] == w[k]);
        }
        if pos < 9 {
            assert(w9[pos] == w[pos]);
        }
        lemma_rank_unique(w9, score, pos);
        assert(w9.insert(pos, e).len() == LEADERBOARD_SIZE);
    } else {
        let w10 = w.take(10);
        assert forall|i: int| 0 <= i < w10.len() implies (#[trigger] w10[i]).player != player by {
            assert(w10[i] == w[i]);
        }
        assert(r1 =~= w10);
        lemma_without_of_kept(w10, player);
        assert forall|k: int| 0 <= k < 10 implies score < #[trigger] w10[k].achievement_count by {
            assert(w10[k] == w[k]);
        }
        lemma_rank_unique(w10, score, 10);
        assert(w10.insert(10, e).take(10) =~= w10);
    }
}

/// Recording a player twice without a change of score in between leaves the
/// same top list as recording once.
pub proof fn lemma_record_idempotent(s: AchievementsState, player: Address)
    ensures
        recorded(recorded(s, player), player) == recorded(s, player),
{
    lemma_upsert_idempotent(top_of(s), player, score_of(s, player));
}

/// A call to one of the leaderboard's mutating operations.  `Unlock`
/// carries the achievement engine's outcome.
pub ghost enum LeaderboardCall {
    Increment(Address),
    Record(Address),
    Emit(Address, u64, u64),
    Unlock(Address, u64, Result<u64, AchievementError>),
}

/// The leaderboard after `c`.
pub open spec fn leaderboard_call(s: AchievementsState, c: LeaderboardCall) -> AchievementsState {
    match c {
        LeaderboardCall::Increment(p) => incremented(s, p),
        LeaderboardCall::Record(p) => recorded(s, p),
        LeaderboardCall::Emit(p, id, b) => emitted(s, p, id, b),
        LeaderboardCall::Unlock(p, id, outcome) => match outcome {
            Ok(b) => unlock_recorded(s, p, id, b),
            Err(_) => s,
        },
    }
}

/// Whether `c` can run on `s` without overflowing a score.
pub open spec fn leaderboard_call_fits(s: AchievementsState, c: LeaderboardCall) -> bool {
    match c {
        LeaderboardCall::Increment(p) => score_of(s, p) < u32::MAX,
        LeaderboardCall::Unlock(p, _, outcome) => outcome is Ok ==> score_of(s, p) < u32::MAX,
        _ => true,
    }
}

/// The leaderboard after `calls`, first call first.
pub open spec fn run_leaderboard_calls(s: AchievementsState, calls: Seq<LeaderboardCall>) -> AchievementsState
    decreases calls.len(),
{
    if calls.len() == 0 {
        s
    } else {
        leaderboard_call(run_leaderboard_calls(s, calls.drop_last()), calls.last())
    }
}

/// Whether every call of `calls` can run without overflowing a score.
pub open spec fn leaderboard_calls_fit(s: AchievementsState, calls: Seq<LeaderboardCall>) -> bool
    decreases calls.len(),
{
    if calls.len() == 0 {
        true
    } else {
        leaderboard_calls_fit(s, calls.drop_last()) && leaderboard_call_fits(
            run_leaderboard_calls(s, calls.drop_last()),
            calls.last(),
        )
    }
}

/// How many calls of `calls` raise `player`'s score: increments and
/// successful unlocks.
pub open spec fn increments_of(calls: Seq<LeaderboardCall>, player: Address) -> nat
    decreases calls.len(),
{
    if calls.len() == 0 {
        0
    } else {
        increments_of(calls.drop_last(), player) + match calls.last() {
            LeaderboardCall::Increment(p) => if p == player { 1nat } else { 0nat },
            LeaderboardCall::Unlock(p, _, outcome) => if p == player && outcome is Ok { 1nat } else { 0nat },
            _ => 0nat,
        }
    }
}

/// How many calls of `calls` write the top list: records and successful unlocks.
pub open spec fn records_of(calls: Seq<LeaderboardCall>) -> nat
    decreases calls.len(),
{
    if calls.len() == 0 {
        0
    } else {
        records_of(calls.drop_last()) + match calls.last() {
            LeaderboardCall::Record(_) => 1nat,
            LeaderboardCall::Unlock(_, _, outcome) => if outcome is Ok { 1nat } else { 0nat },
            _ => 0nat,
        }
    }
}

/// A player's score is the score before plus the number of increments and
/// successful unlocks of that player; from empty storage, exactly that number.
pub proof fn lemma_score_counts_increments(s: AchievementsState, calls: Seq<LeaderboardCall>, player: Address)
    requires
        leaderboard_calls_fit(s, calls),
    ensures
        score_of(run_leaderboard_calls(s, calls), player) == score_of(s, player) + increments_of(calls, player),
    decreases calls.len(),
{
    if calls.len() > 0 {
        lemma_score_counts_increments(s, calls.drop_last(), player);
        let before = run_leaderboard_calls(s, calls.drop_last());
        match calls.last() {
            LeaderboardCall::Increment(p) => {
                lemma_stored_score_push(
                    before.scores,
                    AchievementLeaderboardEntry { player: p, achievement_count: (score_of(before, p) + 1) as u32 },
                    player,
                );
            },
            LeaderboardCall::Unlock(p, _, outcome) => {
                if outcome is Ok {
                    lemma_stored_score_push(
                        before.scores,
                        AchievementLeaderboardEntry { player: p, achievement_count: (score_of(before, p) + 1) as u32 },
                        player,
                    );
                }
            },
            _ => {},
        }
    }
}

/// In every state reached from a top list of at most `LEADERBOARD_SIZE`
/// entries (an empty one included) the top list has at most that many
/// entries; without records or successful unlocks it does not change.
pub proof fn lemma_top_stays_capped(s: AchievementsState, calls: Seq<LeaderboardCall>)
    requires
        top_of(s).len() <= LEADERBOARD_SIZE,
    ensures
        top_of(run_leaderboard_calls(s, calls)).len() <= LEADERBOARD_SIZE,
        records_of(calls) == 0 ==> run_leaderboard_calls(s, calls).top_entries == s.top_entries,
    decreases calls.len(),
{
    if calls.len() > 0 {
        lemma_top_stays_capped(s, calls.drop_last());
    }
}

} // verus!
