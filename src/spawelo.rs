use vstd::prelude::*;
use crate::decimal::{is_decimal_literal, lemma_literal_bounds, mantissa, pow10, pow10_exec, scale, Decimal};
use crate::digits::{all_digits, dval, ipow, mul_digits, shifted_saturated, to_digits};
use crate::ids::PlayerId;

verus! {

/// A player and their rating, as ids and ratings are compared.
pub type RosterView = Seq<(Seq<char>, i32)>;

pub open spec fn roster(v: Seq<(PlayerId, i32)>) -> RosterView {
    v.map_values(|p: (PlayerId, i32)| (p.0@, p.1))
}

/// Lose streak of `id` in an association list: its first entry, or 0 when it has none.
pub open spec fn streak_lookup(streaks: RosterView, id: Seq<char>) -> int
    decreases streaks.len(),
{
    if streaks.len() == 0 {
        0
    } else if streaks[0].0 == id {
        streaks[0].1 as int
    } else {
        streak_lookup(streaks.drop_first(), id)
    }
}

/// Highest lose streak among the members of `team`; 0 for an empty team.
pub open spec fn max_streak(team: RosterView, streaks: RosterView) -> int
    decreases team.len(),
{
    if team.len() == 0 {
        0
    } else if team.len() == 1 {
        streak_lookup(streaks, team[0].0)
    } else {
        let rest = max_streak(team.drop_last(), streaks);
        let last = streak_lookup(streaks, team.last().0);
        if last > rest {
            last
        } else {
            rest
        }
    }
}

/// Sum of the members' ratings.
pub open spec fn real_sum(team: RosterView) -> int
    decreases team.len(),
{
    if team.len() == 0 {
        0
    } else {
        real_sum(team.drop_last()) + team.last().1
    }
}

pub open spec fn clamp64(x: int) -> int {
    if x > i64::MAX {
        i64::MAX as int
    } else if x < i64::MIN {
        i64::MIN as int
    } else {
        x
    }
}

/// Division of `a` by a positive `b`, rounding toward zero.
pub open spec fn trunc_div(a: int, b: int) -> int {
    if a >= 0 {
        a / b
    } else {
        -((-a) / b)
    }
}

/// The lose streak threshold in force: the configured one, but at least 1.
pub open spec fn threshold(min_loses: int) -> int {
    if min_loses < 1 {
        1
    } else {
        min_loses
    }
}

/// Number of losses that a bonus compensates for a team whose longest streak is `streak`.
pub open spec fn pity_loses(streak: int, min_loses: int) -> int {
    if streak < threshold(min_loses) {
        0
    } else {
        streak - threshold(min_loses) + 1
    }
}

/// `rating` times `(m / 10^sc)^k`, rounded toward zero once, then kept within 64 bits.
pub open spec fn scaled(rating: int, m: int, sc: nat, k: nat) -> int {
    clamp64(trunc_div(rating * ipow(m, k), pow10(sc * k)))
}

proof fn lemma_ipow_sign(m: int, k: nat)
    ensures
        ipow(abs(m), k) >= 0,
        ipow(m, k) == if m < 0 && k % 2 == 1 { -ipow(abs(m), k) } else { ipow(abs(m), k) },
    decreases k,
{
    if k > 0 {
        lemma_ipow_sign(m, (k - 1) as nat);
        let a = abs(m);
        let prev = ipow(a, (k - 1) as nat);
        assert(ipow(a, k) == a * prev);
        assert(ipow(m, k) == m * ipow(m, (k - 1) as nat));
        assert(a * prev >= 0) by (nonlinear_arith)
            requires
                a >= 0,
                prev >= 0,
        ;
        if m < 0 {
            assert(m * prev == -(a * prev)) by (nonlinear_arith)
                requires
                    a == -m,
            ;
            assert(m * (-prev) == a * prev) by (nonlinear_arith)
                requires
                    a == -m,
            ;
        }
    }
}

/// `rating` times `(m / 10^sc)^k`, rounded toward zero once and kept within 64 bits.
pub fn multiply_by_power(rating: i64, m: i64, sc: u32, k: i32) -> (r: i64)
    requires
        -1000000000000000000 < m < 1000000000000000000,
        sc <= 18,
        k >= 0,
    ensures
        r == scaled(rating as int, m as int, sc as nat, k as nat),
{
    let m_abs: u64 = if m < 0 {
        (-(m as i128)) as u64
    } else {
        m as u64
    };
    let r_abs: u64 = if rating < 0 {
        (-(rating as i128)) as u64
    } else {
        rating as u64
    };
    let mut ds = to_digits(r_abs);
    let mut j: i32 = 0;
    while j < k
        invariant
            0 <= j <= k,
            m_abs == abs(m as int),
            m_abs < 1000000000000000000,
            all_digits(ds@),
            dval(ds@) == r_abs * ipow(m_abs as int, j as nat),
        decreases k - j,
    {
        ds = mul_digits(&ds, m_abs);
        proof {
            assert(ipow(m_abs as int, (j + 1) as nat) == m_abs * ipow(m_abs as int, j as nat));
            assert(r_abs * ipow(m_abs as int, j as nat) * m_abs == r_abs * (m_abs * ipow(m_abs as int, j as nat))) by (nonlinear_arith);
        }
        j = j + 1;
    }
    assert((sc as int) * (k as int) <= 18 * 0x7fff_ffff) by (nonlinear_arith)
        requires
            sc <= 18,
            0 <= k <= 0x7fff_ffff,
    ;
    let t: u64 = (sc as u64) * (k as u64);
    let mag = shifted_saturated(&ds, t);
    let negative = (rating < 0) != (m < 0 && k % 2 == 1);
    proof {
        let big_x = r_abs * ipow(abs(m as int), k as nat);
        let d = pow10(sc as nat * k as nat);
        assert(t as nat == sc as nat * k as nat);
        crate::decimal::lemma_pow10_pos(sc as nat * k as nat);
        lemma_ipow_sign(m as int, k as nat);
        let pa = ipow(abs(m as int), k as nat);
        assert(big_x >= 0) by (nonlinear_arith)
            requires
                r_abs >= 0,
                pa >= 0,
                big_x == r_abs * pa,
        ;
        let prod = rating * ipow(m as int, k as nat);
        if negative {
            assert(prod == -big_x) by (nonlinear_arith)
                requires
                    big_x == r_abs * pa,
                    rating < 0 ==> r_abs == -rating,
                    rating >= 0 ==> r_abs == rating,
                    (m < 0 && k % 2 == 1) ==> ipow(m as int, k as nat) == -pa,
                    !(m < 0 && k % 2 == 1) ==> ipow(m as int, k as nat) == pa,
                    (rating < 0) != (m < 0 && k % 2 == 1),
                    prod == rating * ipow(m as int, k as nat),
            ;
            assert(big_x / d >= 0) by (nonlinear_arith)
                requires
                    big_x >= 0,
                    d >= 1,
            ;
            if big_x > 0 {
                assert(trunc_div(prod, d) == -(big_x / d));
            } else {
                assert(prod == 0);
                assert(trunc_div(prod, d) == 0);
                assert(big_x / d == 0);
            }
        } else {
            assert(prod == big_x) by (nonlinear_arith)
                requires
                    big_x == r_abs * pa,
                    rating < 0 ==> r_abs == -rating,
                    rating >= 0 ==> r_abs == rating,
                    (m < 0 && k % 2 == 1) ==> ipow(m as int, k as nat) == -pa,
                    !(m < 0 && k % 2 == 1) ==> ipow(m as int, k as nat) == pa,
                    (rating < 0) == (m < 0 && k % 2 == 1),
                    prod == rating * ipow(m as int, k as nat),
            ;
            assert(trunc_div(prod, d) == big_x / d);
        }
    }
    if negative {
        if mag >= 0x8000_0000_0000_0000 {
            i64::MIN
        } else {
            -(mag as i64)
        }
    } else {
        if mag >= 0x8000_0000_0000_0000 {
            i64::MAX
        } else {
            mag as i64
        }
    }
}

/// Options of the lose streak compensation.
#[derive(Debug)]
pub struct PityBonusOptions {
    pub additive: bool,
    pub multiplicative: bool,
    pub factor: Decimal,
    pub min_loses: i32,
    pub additive_amount: i32,
    pub lose_streak_max_days: i32,
}

/// The rating a team is compared by: the multiplicative factor applied once per compensated
/// loss, then the additive amount added once per compensated loss.
pub open spec fn pity_rating(base: int, loses: int, o: PityBonusOptions) -> int {
    let after_mul = if o.multiplicative && loses > 0 {
        scaled(base, mantissa(o.factor@), scale(o.factor@) as nat, loses as nat)
    } else {
        base
    };
    if o.additive {
        clamp64(after_mul + o.additive_amount * loses)
    } else {
        after_mul
    }
}

impl PityBonusOptions {
    pub fn duplicate(&self) -> (r: PityBonusOptions)
        ensures
            r.additive == self.additive,
            r.multiplicative == self.multiplicative,
            r.factor@ == self.factor@,
            r.min_loses == self.min_loses,
            r.additive_amount == self.additive_amount,
            r.lose_streak_max_days == self.lose_streak_max_days,
    {
        PityBonusOptions {
            additive: self.additive,
            multiplicative: self.multiplicative,
            factor: self.factor.duplicate(),
            min_loses: self.min_loses,
            additive_amount: self.additive_amount,
            lose_streak_max_days: self.lose_streak_max_days,
        }
    }
}

impl Default for PityBonusOptions {
    fn default() -> (r: PityBonusOptions)
        ensures
            r.additive,
            !r.multiplicative,
            r.factor@ == "-0.02"@,
            r.min_loses == 2,
            r.additive_amount == 100,
            r.lose_streak_max_days == 30,
    {
        proof {
            reveal_strlit("-0.02");
            assert(is_decimal_literal("-0.02"@)) by {
                reveal_with_fuel(crate::decimal::scan, 6);
            }
        }
        PityBonusOptions {
            additive: true,
            multiplicative: false,
            factor: Decimal::new("-0.02"),
            min_loses: 2,
            additive_amount: 100,
            lose_streak_max_days: 30,
        }
    }
}

/// Lose streak of `id`: its first entry in `lose_streaks`, or 0.
pub fn streak_of(lose_streaks: &Vec<(PlayerId, i32)>, id: &PlayerId) -> (r: i32)
    ensures
        r == streak_lookup(roster(lose_streaks@), id@),
{
    let ghost full = roster(lose_streaks@);
    assert(full.subrange(0, full.len() as int) == full);
    let mut i: usize = 0;
    while i < lose_streaks.len()
        invariant
            i <= lose_streaks@.len(),
            full == roster(lose_streaks@),
            streak_lookup(full, id@) == streak_lookup(full.subrange(i as int, full.len() as int), id@),
        decreases lose_streaks@.len() - i,
    {
        let ghost rest = full.subrange(i as int, full.len() as int);
        if lose_streaks[i].0.same(id) {
            assert(rest[0] == full[i as int]);
            return lose_streaks[i].1;
        }
        assert(rest.drop_first() == full.subrange(i + 1, full.len() as int));
        i = i + 1;
    }
    assert(full.subrange(i as int, full.len() as int).len() == 0);
    0
}

/// Applies the compensation for a team of rating `team_elo` whose longest lose streak is
/// `lose_streak`: the number of compensated losses and the resulting rating.
pub fn apply_pity_bonus(team_elo: i64, lose_streak: i32, options: &PityBonusOptions) -> (r: (i32, i64))
    ensures
        r.0 == pity_loses(lose_streak as int, options.min_loses as int),
        r.1 == pity_rating(team_elo as int, r.0 as int, *options),
{
    let min_loses = if options.min_loses < 1 {
        1
    } else {
        options.min_loses
    };
    if lose_streak < min_loses {
        return (0, team_elo);
    }
    let loses: i32 = lose_streak - min_loses + 1;
    let mut elo: i64 = team_elo;
    if options.multiplicative {
        let v = options.factor.value();
        proof {
            lemma_literal_bounds(options.factor@);
        }
        elo = multiply_by_power(team_elo, v.mantissa, v.scale, loses);
    }
    if options.additive {
        proof {
            assert(-0x8000_0000_0000_0000 <= (options.additive_amount as int) * (loses as int) <= 0x7fff_ffff_ffff_ffff) by (nonlinear_arith)
                requires
                    -0x8000_0000 <= options.additive_amount <= 0x7fff_ffff,
                    1 <= loses <= 0x7fff_ffff,
            ;
        }
        let s: i128 = elo as i128 + (options.additive_amount as i128) * (loses as i128);
        elo = if s > i64::MAX as i128 {
            i64::MAX
        } else if s < i64::MIN as i128 {
            i64::MIN
        } else {
            s as i64
        };
    }
    (loses, elo)
}

/// The ratings of a team, before and after the compensation.
#[derive(Debug, Clone, Copy, Default)]
pub struct TeamEloInfo {
    pub pity_loses: i32,
    pub pity_bonus_add: i64,
    pub pity_elo: i64,
    pub real_elo: i64,
    pub lose_streak: i32,
}

/// Additive part of the compensation for `loses` compensated losses.
pub open spec fn additive_part(loses: int, o: PityBonusOptions) -> int {
    if o.additive {
        o.additive_amount * loses
    } else {
        0
    }
}

/// `info` describes `team`.
pub open spec fn info_of(info: TeamEloInfo, team: RosterView, streaks: RosterView, o: PityBonusOptions) -> bool {
    &&& info.real_elo == real_sum(team)
    &&& info.lose_streak == max_streak(team, streaks)
    &&& info.pity_loses == pity_loses(info.lose_streak as int, o.min_loses as int)
    &&& info.pity_elo == pity_rating(info.real_elo as int, info.pity_loses as int, o)
    &&& info.pity_bonus_add == additive_part(info.pity_loses as int, o)
}

/// Compensated rating of `team`.
pub open spec fn team_pity(team: RosterView, streaks: RosterView, o: PityBonusOptions) -> int {
    pity_rating(
        real_sum(team),
        pity_loses(max_streak(team, streaks), o.min_loses as int),
        o,
    )
}

proof fn lemma_real_sum_bound(team: RosterView)
    ensures
        -0x8000_0000 * team.len() <= real_sum(team) <= 0x7fff_ffff * team.len(),
    decreases team.len(),
{
    if team.len() > 0 {
        lemma_real_sum_bound(team.drop_last());
    }
}

/// Sum of the members' ratings.
pub fn calculate_team_real_elo(team: &Vec<(PlayerId, i32)>) -> (r: i64)
    requires
        team@.len() < 0x8000_0000,
    ensures
        r == real_sum(roster(team@)),
{
    let ghost t = roster(team@);
    let mut sum: i64 = 0;
    let mut i: usize = 0;
    while i < team.len()
        invariant
            i <= team@.len() < 0x8000_0000,
            t == roster(team@),
            sum == real_sum(t.subrange(0, i as int)),
        decreases team@.len() - i,
    {
        proof {
            assert(t.subrange(0, i + 1).drop_last() == t.subrange(0, i as int));
            lemma_real_sum_bound(t.subrange(0, i as int));
        }
        sum = sum + team[i].1 as i64;
        i = i + 1;
    }
    assert(t.subrange(0, i as int) == t);
    sum
}

/// Longest lose streak among the members of `team`; 0 for an empty team.
pub fn max_lose_streak_for_team(team: &Vec<(PlayerId, i32)>, lose_streaks: &Vec<(PlayerId, i32)>) -> (r: i32)
    ensures
        r == max_streak(roster(team@), roster(lose_streaks@)),
{
    let ghost t = roster(team@);
    let ghost st = roster(lose_streaks@);
    let mut streak: i32 = 0;
    let mut i: usize = 0;
    while i < team.len()
        invariant
            i <= team@.len(),
            t == roster(team@),
            st == roster(lose_streaks@),
            streak == max_streak(t.subrange(0, i as int), st),
        decreases team@.len() - i,
    {
        proof {
            assert(t.subrange(0, i + 1).drop_last() == t.subrange(0, i as int));
        }
        let s = streak_of(lose_streaks, &team[i].0);
        if i == 0 || s > streak {
            streak = s;
        }
        i = i + 1;
    }
    assert(t.subrange(0, i as int) == t);
    streak
}

/// Ratings of a team of `team` members, compensated per `options`.
pub fn team_info(team: &Vec<(PlayerId, i32)>, lose_streaks: &Vec<(PlayerId, i32)>, options: &PityBonusOptions) -> (r: TeamEloInfo)
    requires
        team@.len() < 0x8000_0000,
    ensures
        info_of(r, roster(team@), roster(lose_streaks@), *options),
{
    let real_elo = calculate_team_real_elo(team);
    let lose_streak = max_lose_streak_for_team(team, lose_streaks);
    let (pity_loses, pity_elo) = apply_pity_bonus(real_elo, lose_streak, options);
    let pity_bonus_add: i64 = if options.additive {
        proof {
            assert(-0x8000_0000_0000_0000 <= (options.additive_amount as int) * (pity_loses as int) <= 0x7fff_ffff_ffff_ffff) by (nonlinear_arith)
                requires
                    -0x8000_0000 <= options.additive_amount <= 0x7fff_ffff,
                    -0x8000_0000 <= pity_loses <= 0x7fff_ffff,
            ;
        }
        (options.additive_amount as i64) * (pity_loses as i64)
    } else {
        0
    };
    TeamEloInfo { pity_loses, pity_bonus_add, pity_elo, real_elo, lose_streak }
}

/// Ratings of two fixed rosters.
pub fn calculate_teams_elo_internal(
    left_players: &Vec<(PlayerId, i32)>,
    right_players: &Vec<(PlayerId, i32)>,
    lose_streaks: &Vec<(PlayerId, i32)>,
    options: &PityBonusOptions,
) -> (r: (TeamEloInfo, TeamEloInfo))
    requires
        left_players@.len() < 0x8000_0000,
        right_players@.len() < 0x8000_0000,
    ensures
        info_of(r.0, roster(left_players@), roster(lose_streaks@), *options),
        info_of(r.1, roster(right_players@), roster(lose_streaks@), *options),
{
    (team_info(left_players, lose_streaks, options), team_info(right_players, lose_streaks, options))
}

/// A team with its ratings: the members' sum, the compensated one, and the compensation.
#[derive(Debug)]
pub struct BalancedTeam {
    pub players: Vec<PlayerId>,
    /// How many times the multiplicative factor was applied.
    pub pity_loses: i32,
    pub pity_bonus_add: i64,
    pub pity_elo: i64,
    pub real_elo: i64,
}

pub open spec fn ids(v: Seq<PlayerId>) -> Seq<Seq<char>> {
    v.map_values(|p: PlayerId| p@)
}

pub open spec fn roster_ids(team: RosterView) -> Seq<Seq<char>> {
    team.map_values(|m: (Seq<char>, i32)| m.0)
}

/// `t` is the team `team` with ratings `info`.
pub open spec fn balanced_as(t: BalancedTeam, team: RosterView, info: TeamEloInfo) -> bool {
    &&& ids(t.players@) == roster_ids(team)
    &&& t.pity_loses == info.pity_loses
    &&& t.pity_bonus_add == info.pity_bonus_add
    &&& t.pity_elo == info.pity_elo
    &&& t.real_elo == info.real_elo
}

/// A team record for `players` with ratings `info`.
pub fn build_balanced_team(players: &Vec<(PlayerId, i32)>, info: TeamEloInfo) -> (r: BalancedTeam)
    ensures
        ids(r.players@) == roster_ids(roster(players@)),
        r.pity_loses == info.pity_loses,
        r.pity_bonus_add == info.pity_bonus_add,
        r.pity_elo == info.pity_elo,
        r.real_elo == info.real_elo,
{
    let mut out: Vec<PlayerId> = Vec::new();
    let mut i: usize = 0;
    while i < players.len()
        invariant
            i <= players@.len(),
            ids(out@) == roster_ids(roster(players@)).subrange(0, i as int),
        decreases players@.len() - i,
    {
        let ghost before = out@;
        out.push(players[i].0.duplicate());
        proof {
            assert(roster(players@)[i as int].0 == players@[i as int].0@);
            assert(ids(out@) =~= ids(before).push(players@[i as int].0@));
            assert(roster_ids(roster(players@)).subrange(0, i + 1) =~= roster_ids(roster(players@)).subrange(
                0,
                i as int,
            ).push(players@[i as int].0@));
        }
        i = i + 1;
    }
    assert(roster_ids(roster(players@)).subrange(0, i as int) == roster_ids(roster(players@)));
    BalancedTeam {
        players: out,
        pity_loses: info.pity_loses,
        pity_bonus_add: info.pity_bonus_add,
        pity_elo: info.pity_elo,
        real_elo: info.real_elo,
    }
}

/// The two team records of two fixed rosters.
pub fn calculate_teams_elo(
    left_players: Vec<(PlayerId, i32)>,
    right_players: Vec<(PlayerId, i32)>,
    lose_streaks: &Vec<(PlayerId, i32)>,
    options: &SpaweloOptions,
) -> (r: (BalancedTeam, BalancedTeam))
    requires
        left_players@.len() < 0x8000_0000,
        right_players@.len() < 0x8000_0000,
    ensures
        exists|l: TeamEloInfo, rt: TeamEloInfo|
            info_of(l, roster(left_players@), roster(lose_streaks@), options.pity_bonus) && info_of(
                rt,
                roster(right_players@),
                roster(lose_streaks@),
                options.pity_bonus,
            ) && balanced_as(r.0, roster(left_players@), l) && balanced_as(r.1, roster(right_players@), rt),
{
    let (l, rt) = calculate_teams_elo_internal(&left_players, &right_players, lose_streaks, &options.pity_bonus);
    let r = (build_balanced_team(&left_players, l), build_balanced_team(&right_players, rt));
    assert(balanced_as(r.0, roster(left_players@), l) && balanced_as(r.1, roster(right_players@), rt));
    r
}

/// Options of the rating estimator.
#[derive(Debug)]
pub struct MlEloOptions {
    pub fake_match_max_days: i32,
    pub max_elo_history: i32,
    pub even_match_target_probability: Decimal,
    pub advantage_match_target_probability: Decimal,
    pub pwnage_match_target_probability: Decimal,
}

impl Default for MlEloOptions {
    fn default() -> (r: MlEloOptions)
        ensures
            r.fake_match_max_days == 99999,
            r.max_elo_history == 0,
            r.even_match_target_probability@ == "0.75"@,
            r.advantage_match_target_probability@ == "0.85"@,
            r.pwnage_match_target_probability@ == "0.95"@,
    {
        proof {
            reveal_strlit("0.75");
            reveal_strlit("0.85");
            reveal_strlit("0.95");
            reveal_with_fuel(crate::decimal::scan, 6);
        }
        MlEloOptions {
            fake_match_max_days: 99999,
            max_elo_history: 0,
            even_match_target_probability: Decimal::new("0.75"),
            advantage_match_target_probability: Decimal::new("0.85"),
            pwnage_match_target_probability: Decimal::new("0.95"),
        }
    }
}

/// All options of the rating estimator and the team balancer.
#[derive(Debug, Default)]
pub struct SpaweloOptions {
    pub ml_elo: MlEloOptions,
    pub pity_bonus: PityBonusOptions,
}

/// `t` is the record of `team`: its members, their rating sum and the compensated rating.
pub open spec fn record_of(t: BalancedTeam, team: RosterView, streaks: RosterView, o: PityBonusOptions) -> bool {
    let loses = pity_loses(max_streak(team, streaks), o.min_loses as int);
    &&& ids(t.players@) == roster_ids(team)
    &&& t.real_elo == real_sum(team)
    &&& t.pity_loses == loses
    &&& t.pity_elo == pity_rating(real_sum(team), loses, o)
    &&& t.pity_bonus_add == additive_part(loses, o)
}

/// `k` distinct indices below `n`, in increasing order.
pub open spec fn is_combination(c: Seq<usize>, n: int, k: int) -> bool {
    &&& c.len() == k
    &&& forall|i: int| 0 <= i < c.len() ==> c[i] < n
    &&& forall|i: int, j: int| 0 <= i < j < c.len() ==> c[i] < c[j]
}

/// `a` comes before `b` in lexicographic order.
pub open spec fn lex_less(a: Seq<usize>, b: Seq<usize>) -> bool {
    exists|i: int| 0 <= i < a.len() && i < b.len() && a.subrange(0, i) == b.subrange(0, i) && a[i] < b[i]
}

/// Relies on itertools' `Itertools::combinations` over `0..n`: every `k`-length combination
/// of the indices, once each, in lexicographic order of positions.
#[verifier::external_body]
fn index_combinations(n: usize, k: usize) -> (r: Vec<Vec<usize>>)
    requires
        k <= n,
    ensures
        forall|i: int| 0 <= i < r@.len() ==> is_combination(#[trigger] r@[i]@, n as int, k as int),
        forall|c: Seq<usize>|
            is_combination(c, n as int, k as int) ==> exists|i: int| 0 <= i < r@.len() && #[trigger] r@[i]@ == c,
        forall|i: int, j: int| 0 <= i < j < r@.len() ==> lex_less(#[trigger] r@[i]@, #[trigger] r@[j]@),
{
    itertools::Itertools::combinations(0..n, k).collect()
}

/// Members of `r` among the first `upto` whose position is in `c` (side `true`) or not in it
/// (side `false`), in roster order.
pub open spec fn side_members(r: RosterView, c: Seq<usize>, side: bool, upto: int) -> RosterView
    decreases upto,
{
    if upto <= 0 {
        Seq::empty()
    } else {
        let prev = side_members(r, c, side, upto - 1);
        if c.contains((upto - 1) as usize) == side {
            prev.push(r[upto - 1])
        } else {
            prev
        }
    }
}

pub open spec fn abs(x: int) -> int {
    if x < 0 {
        -x
    } else {
        x
    }
}

/// Gap between the compensated ratings of the two sides of the split `c`.
pub open spec fn split_gap(r: RosterView, c: Seq<usize>, streaks: RosterView, o: PityBonusOptions) -> int {
    abs(team_pity(side_members(r, c, true, r.len() as int), streaks, o) - team_pity(
        side_members(r, c, false, r.len() as int),
        streaks,
        o,
    ))
}

/// `t` holds the teams of split `c` of `r`, `c` has the smallest gap of all splits into a
/// first half of `|r| / 2` players and the rest, and comes first in lexicographic order among
/// the splits with that gap.
pub open spec fn best_split(
    t: (BalancedTeam, BalancedTeam),
    c: Seq<usize>,
    r: RosterView,
    streaks: RosterView,
    o: PityBonusOptions,
) -> bool {
    let n = r.len() as int;
    &&& is_combination(c, n, n / 2)
    &&& record_of(t.0, side_members(r, c, true, n), streaks, o)
    &&& record_of(t.1, side_members(r, c, false, n), streaks, o)
    &&& forall|c2: Seq<usize>|
        is_combination(c2, n, n / 2) ==> split_gap(r, c, streaks, o) <= #[trigger] split_gap(r, c2, streaks, o)
    &&& forall|c2: Seq<usize>|
        is_combination(c2, n, n / 2) && #[trigger] split_gap(r, c2, streaks, o) == split_gap(r, c, streaks, o)
            && c2 != c ==> lex_less(c, c2)
}

pub fn contains_index(c: &Vec<usize>, x: usize) -> (r: bool)
    ensures
        r == c@.contains(x),
{
    let mut i: usize = 0;
    while i < c.len()
        invariant
            i <= c@.len(),
            forall|j: int| 0 <= j < i ==> c@[j] != x,
        decreases c@.len() - i,
    {
        if c[i] == x {
            return true;
        }
        i = i + 1;
    }
    false
}

/// The players on one side of the split `c`.
pub fn split_by(players: &Vec<(PlayerId, i32)>, c: &Vec<usize>, side: bool) -> (r: Vec<(PlayerId, i32)>)
    ensures
        roster(r@) == side_members(roster(players@), c@, side, players@.len() as int),
        r@.len() <= players@.len(),
{
    let ghost rv = roster(players@);
    let mut out: Vec<(PlayerId, i32)> = Vec::new();
    let mut i: usize = 0;
    while i < players.len()
        invariant
            i <= players@.len(),
            rv == roster(players@),
            out@.len() <= i,
            roster(out@) == side_members(rv, c@, side, i as int),
        decreases players@.len() - i,
    {
        if contains_index(c, i) == side {
            let ghost before = out@;
            out.push((players[i].0.duplicate(), players[i].1));
            proof {
                assert(roster(out@) =~= roster(before).push(rv[i as int]));
            }
        }
        i = i + 1;
    }
    out
}

/// Compensated-rating gap of two team ratings.
fn gap_of(a: &TeamEloInfo, b: &TeamEloInfo) -> (r: i128)
    ensures
        r == abs(a.pity_elo - b.pity_elo),
{
    let d = a.pity_elo as i128 - b.pity_elo as i128;
    if d < 0 {
        -d
    } else {
        d
    }
}

/// Splits `players` into a first team of `|players| / 2` and a second of the rest, with the
/// smallest gap between compensated ratings, trying every split; among equal gaps the first
/// split in lexicographic order wins.
pub fn shuffle_teams(
    players: Vec<(PlayerId, i32)>,
    lose_streaks: &Vec<(PlayerId, i32)>,
    options: &SpaweloOptions,
) -> (r: (BalancedTeam, BalancedTeam))
    requires
        players@.len() < 0x8000_0000,
    ensures
        exists|c: Seq<usize>| best_split(r, c, roster(players@), roster(lose_streaks@), options.pity_bonus),
{
    let ghost rv = roster(players@);
    let ghost st = roster(lose_streaks@);
    let ghost o = options.pity_bonus;
    let n = players.len();
    let k = n / 2;
    let combos = index_combinations(n, k);
    proof {
        let c0 = Seq::new(k as nat, |i: int| i as usize);
        assert(is_combination(c0, n as int, k as int));
        let t = choose|t: int| 0 <= t < combos@.len() && #[trigger] combos@[t]@ == c0;
    }
    let mut best: usize = 0;
    let mut best_gap: i128 = 0;
    let mut j: usize = 0;
    while j < combos.len()
        invariant
            n == players@.len() < 0x8000_0000,
            rv == roster(players@),
            st == roster(lose_streaks@),
            o == options.pity_bonus,
            combos@.len() > 0,
            forall|i: int| 0 <= i < combos@.len() ==> is_combination(#[trigger] combos@[i]@, n as int, k as int),
            j <= combos@.len(),
            j > 0 ==> best < j && best_gap == split_gap(rv, combos@[best as int]@, st, o),
            forall|t: int| 0 <= t < j ==> split_gap(rv, #[trigger] combos@[t]@, st, o) >= best_gap,
            forall|t: int| 0 <= t < best ==> split_gap(rv, #[trigger] combos@[t]@, st, o) > best_gap,
        decreases combos@.len() - j,
    {
        let t1 = split_by(&players, &combos[j], true);
        let t2 = split_by(&players, &combos[j], false);
        let i1 = team_info(&t1, lose_streaks, &options.pity_bonus);
        let i2 = team_info(&t2, lose_streaks, &options.pity_bonus);
        let gap = gap_of(&i1, &i2);
        if j == 0 || gap < best_gap {
            best = j;
            best_gap = gap;
        }
        j = j + 1;
    }
    let t1 = split_by(&players, &combos[best], true);
    let t2 = split_by(&players, &combos[best], false);
    let i1 = team_info(&t1, lose_streaks, &options.pity_bonus);
    let i2 = team_info(&t2, lose_streaks, &options.pity_bonus);
    let r = (build_balanced_team(&t1, i1), build_balanced_team(&t2, i2));
    proof {
        let c = combos@[best as int]@;
        assert forall|c2: Seq<usize>| is_combination(c2, n as int, k as int) implies split_gap(rv, c, st, o)
            <= #[trigger] split_gap(rv, c2, st, o) by {
            let t = choose|t: int| 0 <= t < combos@.len() && #[trigger] combos@[t]@ == c2;
        }
        assert forall|c2: Seq<usize>|
            is_combination(c2, n as int, k as int) && #[trigger] split_gap(rv, c2, st, o) == split_gap(rv, c, st, o)
                && c2 != c implies lex_less(c, c2) by {
            let t = choose|t: int| 0 <= t < combos@.len() && #[trigger] combos@[t]@ == c2;
            assert(t != best);
            assert(t > best);
        }
        assert(best_split(r, c, rv, st, o));
    }
    r
}

/// A team whose longest lose streak is under the threshold is not compensated: the factor
/// applies zero times, a factor of 1. From the threshold on, each further loss applies it
/// once more.
pub proof fn lemma_pity_bonus_geometric(streak: int, min_loses: int)
    ensures
        streak < threshold(min_loses) ==> pity_loses(streak, min_loses) == 0,
        streak >= threshold(min_loses) ==> pity_loses(streak + 1, min_loses) == pity_loses(streak, min_loses) + 1,
        pity_loses(threshold(min_loses), min_loses) == 1,
        pity_loses(threshold(min_loses) + 1, min_loses) == 2,
{
}

/// With the multiplicative bonus alone, a team compensated for `loses` losses is rated
/// `base · f^loses`, rounded toward zero once, where `f` is the configured factor.
pub proof fn lemma_pity_factor_power(base: int, loses: int, o: PityBonusOptions)
    requires
        o.multiplicative,
        !o.additive,
        loses > 0,
    ensures
        pity_rating(base, loses, o) == clamp64(
            trunc_div(base * ipow(mantissa(o.factor@), loses as nat), pow10(scale(o.factor@) as nat * loses as nat)),
        ),
{
}

/// With zero compensated losses the rating is the members' sum.
pub proof fn lemma_no_pity_without_loses(base: int, o: PityBonusOptions)
    ensures
        pity_rating(base, 0, o) == if o.additive { clamp64(base) } else { base },
{
}

/// The two teams that `shuffle_teams` returns hold every player of the roster exactly once
/// between them, and the split they come from has the smallest gap of all.
pub proof fn lemma_shuffled_teams_partition_roster(
    t: (BalancedTeam, BalancedTeam),
    c: Seq<usize>,
    r: RosterView,
    streaks: RosterView,
    o: PityBonusOptions,
)
    requires
        best_split(t, c, r, streaks, o),
    ensures
        ids(t.0.players@).to_multiset().add(ids(t.1.players@).to_multiset()) == roster_ids(r).to_multiset(),
        forall|c2: Seq<usize>|
            is_combination(c2, r.len() as int, r.len() as int / 2) ==> split_gap(r, c, streaks, o) <= #[trigger] split_gap(
                r,
                c2,
                streaks,
                o,
            ),
{
    lemma_split_ids_prefix(r, c, r.len() as int);
    assert(r.subrange(0, r.len() as int) == r);
}

proof fn lemma_split_ids_prefix(r: RosterView, c: Seq<usize>, upto: int)
    requires
        0 <= upto <= r.len(),
    ensures
        roster_ids(side_members(r, c, true, upto)).to_multiset().add(
            roster_ids(side_members(r, c, false, upto)).to_multiset(),
        ) == roster_ids(r.subrange(0, upto)).to_multiset(),
    decreases upto,
{
    broadcast use vstd::seq_lib::group_to_multiset_ensures;

    if upto == 0 {
        assert(roster_ids(r.subrange(0, 0)) =~= Seq::<Seq<char>>::empty());
        assert(roster_ids(side_members(r, c, true, 0)) =~= Seq::<Seq<char>>::empty());
        assert(roster_ids(side_members(r, c, false, 0)) =~= Seq::<Seq<char>>::empty());
    } else {
        lemma_split_ids_prefix(r, c, upto - 1);
        let x = r[upto - 1];
        assert(roster_ids(r.subrange(0, upto)) =~= roster_ids(r.subrange(0, upto - 1)).push(x.0));
        let st = side_members(r, c, true, upto - 1);
        let sf = side_members(r, c, false, upto - 1);
        assert(roster_ids(st.push(x)) =~= roster_ids(st).push(x.0));
        assert(roster_ids(sf.push(x)) =~= roster_ids(sf).push(x.0));
        let a = roster_ids(st).to_multiset();
        let b = roster_ids(sf).to_multiset();
        if c.contains((upto - 1) as usize) {
            assert(a.insert(x.0).add(b) =~= a.add(b).insert(x.0));
        } else {
            assert(a.add(b.insert(x.0)) =~= a.add(b).insert(x.0));
        }
    }
}

} // verus!
