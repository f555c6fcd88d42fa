use sheet_myself::date::Date;
use sheet_myself::exp::add_saturating;
use sheet_myself::exp::ExpRules;
use sheet_myself::exp::EXP_MAX;
use sheet_myself::exp::MINUTES_PER_HOUR;
use sheet_myself::exp::UNITS_PER_EXP;
use sheet_myself::record::SheetActionRecord;
use sheet_myself::skill::Skill;

fn rules_of(exp_per_hour: u32, percent: u32, max_bonus_days: u32) -> ExpRules {
    ExpRules { exp_per_hour, streak_max_daily_bonus_percent: percent, max_bonus_days }
}

fn held(day: i32, duration: u64, base_exp: u128, bonus_exp: u128) -> SheetActionRecord {
    SheetActionRecord { date: Date::from_days(day), duration, base_exp, bonus_exp }
}

fn skill_on(days: &[(i32, u64)]) -> Skill {
    let mut skill = Skill::new("practice".to_string());
    for (number, duration) in days {
        skill.add_record(Date::from_days(*number), *duration);
    }
    skill
}

fn recomputed(days: &[(i32, u64)], today: i32) -> Skill {
    let mut skill = skill_on(days);
    skill.recompute(&ExpRules::standard(), Date::from_days(today));
    skill
}

fn bonuses(skill: &Skill) -> Vec<u128> {
    skill.records.iter().map(|record| record.bonus_exp).collect()
}

/// The same engine in floating point, in points.
fn in_floating_point(days: &[(i32, u64)], today: i32) -> (Vec<(f64, f64)>, f64, f64) {
    let mut done: Vec<(i32, f64, f64)> = Vec::new();
    let mut start = 0;
    let mut total = 0.0;
    for (number, duration) in days {
        let base = *duration as f64 / 60.0 * 55.0;
        while start < done.len() && number - done[start].0 > 5 {
            start += 1;
        }
        let mut bonus = 0.0;
        for earlier in &done[start..] {
            bonus += (earlier.1 + earlier.2) * (0.5 - 0.1 * (number - earlier.0) as f64);
        }
        total += base + bonus;
        done.push((*number, base, bonus));
    }
    let mut next = today;
    if start < done.len() && done[start].0 == today {
        next += 1;
    }
    while start < done.len() && next - done[start].0 > 5 {
        start += 1;
    }
    let mut potential = 0.0;
    for earlier in &done[start..] {
        potential += (earlier.1 + earlier.2) * (0.5 - 0.1 * (next - earlier.0) as f64);
    }
    (done.iter().map(|record| (record.1, record.2)).collect(), total, potential)
}

fn points(units: u128) -> f64 {
    units as f64 / UNITS_PER_EXP as f64
}

fn close(units: u128, expected: f64) -> bool {
    (points(units) - expected).abs() <= 1e-3 + expected.abs() * 1e-9
}

#[test]
fn units_and_standard_rules() {
    assert_eq!(UNITS_PER_EXP, 60_000);
    assert_eq!(MINUTES_PER_HOUR, 60);
    assert_eq!(EXP_MAX, u128::MAX);
    let rules = ExpRules::standard();
    assert_eq!(rules.exp_per_hour, 55);
    assert_eq!(rules.streak_max_daily_bonus_percent, 50);
    assert_eq!(rules.max_bonus_days, 5);
    assert_eq!(ExpRules::default(), rules);
    assert!(rules.is_valid());
}

#[test]
fn rules_without_a_day_of_bonus_are_not_valid() {
    let rules = rules_of(55, 50, 0);
    assert!(!rules.is_valid());
    let rules = rules_of(0, 0, 1);
    assert!(rules.is_valid());
}

#[test]
fn base_experience_is_the_rate_per_sixtieth_of_an_hour() {
    let rules = ExpRules::standard();
    assert_eq!(rules.base_exp_for(0), 0);
    assert_eq!(rules.base_exp_for(1), 55_000);
    assert_eq!(rules.base_exp_for(60), 55 * UNITS_PER_EXP);
    assert_eq!(rules.base_exp_for(90), 4_950_000);
    assert_eq!(points(rules.base_exp_for(90)), 82.5);
    assert_eq!(rules.base_exp_for(u64::MAX), u64::MAX as u128 * 55_000);
    let richest = rules_of(u32::MAX, 50, 5);
    assert_eq!(richest.base_exp_for(u64::MAX), u64::MAX as u128 * u32::MAX as u128 * 1000);
}

#[test]
fn share_falls_by_a_tenth_a_day() {
    let rules = ExpRules::standard();
    assert_eq!(rules.share_for(3_300_000, 0), 1_650_000);
    assert_eq!(rules.share_for(3_300_000, 1), 1_320_000);
    assert_eq!(rules.share_for(3_300_000, 2), 990_000);
    assert_eq!(rules.share_for(3_300_000, 3), 660_000);
    assert_eq!(rules.share_for(3_300_000, 4), 330_000);
    assert_eq!(rules.share_for(3_300_000, 5), 0);
    assert_eq!(rules.share_for(u128::MAX, 5), 0);
}

#[test]
fn share_is_rounded_down_to_the_unit() {
    let rules = ExpRules::standard();
    assert_eq!(rules.share_for(9, 4), 0);
    assert_eq!(rules.share_for(10, 4), 1);
    assert_eq!(rules.share_for(19, 4), 1);
    assert_eq!(rules.share_for(19, 0), 9);
    let thirds = rules_of(1, 33, 3);
    assert_eq!(thirds.share_for(1000, 0), 330);
    assert_eq!(thirds.share_for(1000, 1), 220);
    assert_eq!(thirds.share_for(1000, 2), 110);
    assert_eq!(thirds.share_for(1000, 3), 0);
    assert_eq!(thirds.share_for(1001, 1), 220);
    assert_eq!(thirds.share_for(1, 0), 0);
}

#[test]
fn share_before_the_day_grows_by_the_same_step() {
    let rules = ExpRules::standard();
    assert_eq!(rules.share_for(3_300_000, -1), 1_980_000);
    assert_eq!(rules.share_for(3_300_000, -10), 4_950_000);
    assert_eq!(rules.share_for(10, -(u32::MAX as i64)), 4_294_967_300);
}

#[test]
fn share_of_large_amounts_is_exact_until_it_saturates() {
    let rules = ExpRules::standard();
    assert_eq!(rules.share_for(u128::MAX, 0), u128::MAX / 2);
    assert_eq!(rules.share_for(u128::MAX, 1), 136112946768375385385349842972707284582);
    assert_eq!(rules.share_for(u128::MAX, -5), u128::MAX);
    assert_eq!(rules.share_for(u128::MAX, -6), u128::MAX);
    assert_eq!(rules.share_for(u128::MAX / 2 + 1, -15), u128::MAX);
    let steep = rules_of(1, u32::MAX, u32::MAX);
    assert_eq!(steep.share_for(u128::MAX, 0), u128::MAX);
    assert_eq!(steep.share_for(100, 0), u32::MAX as u128);
    assert_eq!(steep.share_for(1, u32::MAX as i64), 0);
}

#[test]
fn sums_stay_at_the_largest_amount() {
    assert_eq!(add_saturating(1, 2), 3);
    assert_eq!(add_saturating(u128::MAX, 0), u128::MAX);
    assert_eq!(add_saturating(u128::MAX - 1, 1), u128::MAX);
    assert_eq!(add_saturating(u128::MAX, 1), u128::MAX);
    assert_eq!(add_saturating(u128::MAX, u128::MAX), u128::MAX);
    let record = held(1, 0, u128::MAX - 5, 9);
    assert_eq!(record.earned_exp(), u128::MAX);
    let record = held(1, 0, 5, 9);
    assert_eq!(record.earned_exp(), 14);
}

#[test]
fn streak_of_three_days_compounds() {
    let skill = recomputed(&[(10, 60), (11, 60), (12, 60)], 100);
    assert_eq!(bonuses(&skill), vec![0, 1_320_000, 2_838_000]);
    assert_eq!(points(skill.records[2].bonus_exp), 47.3);
    assert_eq!(skill.total_exp, 3 * 3_300_000 + 1_320_000 + 2_838_000);
}

#[test]
fn streak_of_six_days_rounds_each_share_down() {
    let skill = recomputed(&[(10, 1), (11, 1), (12, 1), (13, 1), (14, 1), (15, 1)], 100);
    assert_eq!(bonuses(&skill), vec![0, 22_000, 47_300, 75_020, 103_598, 130_605]);
    assert_eq!(skill.total_exp, 6 * 55_000 + 22_000 + 47_300 + 75_020 + 103_598 + 130_605);
}

#[test]
fn record_at_the_limit_is_in_reach_and_gives_nothing() {
    let skill = recomputed(&[(10, 60), (15, 60)], 100);
    assert_eq!(bonuses(&skill), vec![0, 0]);
    let skill = recomputed(&[(10, 60), (14, 60)], 100);
    assert_eq!(bonuses(&skill), vec![0, 330_000]);
    // The record of day 10 is the front of the streak of day 15: with day 10
    // as today the forecast moves to day 11.
    let skill = recomputed(&[(10, 60), (15, 60)], 10);
    assert_eq!(skill.potential_bonus, 1_320_000 + 2_970_000);
    // One day further it is out of reach and the front is the record of day 16.
    let skill = recomputed(&[(10, 60), (16, 60)], 10);
    assert_eq!(skill.potential_bonus, 3_300_000 * 11 / 10);
}

#[test]
fn records_out_of_reach_leave_the_streak_from_the_old_end() {
    let skill = recomputed(&[(0, 60), (3, 60), (6, 60), (9, 60)], 100);
    // Each record draws two tenths from the one three days back. The one six
    // days back is out of reach, though a nearer record is still within it.
    let of_3 = 3_300_000 * 2 / 10;
    let of_6 = (3_300_000 + of_3) * 2 / 10;
    let of_9 = (3_300_000 + of_6) * 2 / 10;
    assert_eq!(bonuses(&skill), vec![0, of_3, of_6, of_9]);
    assert_eq!(bonuses(&skill), vec![0, 660_000, 792_000, 818_400]);
}

#[test]
fn records_of_one_day_draw_from_those_listed_before_them() {
    let skill = recomputed(&[(10, 60), (10, 120)], 100);
    assert_eq!(bonuses(&skill), vec![0, 1_650_000]);
    assert_eq!(skill.total_exp, 3_300_000 + 6_600_000 + 1_650_000);
    let skill = recomputed(&[(10, 120), (10, 60)], 100);
    assert_eq!(bonuses(&skill), vec![0, 3_300_000]);
    assert_eq!(skill.total_exp, 3_300_000 + 6_600_000 + 3_300_000);
}

#[test]
fn records_without_minutes_earn_and_give_nothing() {
    let skill = recomputed(&[(10, 0), (11, 0), (12, 60)], 100);
    assert_eq!(bonuses(&skill), vec![0, 0, 0]);
    assert_eq!(skill.total_exp, 3_300_000);
}

#[test]
fn recompute_overwrites_stale_experience_and_keeps_entries() {
    let mut skill = skill_on(&[(10, 60), (11, 30)]);
    skill.records[0].base_exp = 99;
    skill.records[0].bonus_exp = 77;
    skill.records[1].bonus_exp = u128::MAX;
    skill.total_exp = 5;
    skill.potential_bonus = 6;
    skill.recompute(&ExpRules::standard(), Date::from_days(100));
    assert_eq!(skill.name, "practice");
    assert_eq!(
        skill.records,
        vec![
            held(10, 60, 3_300_000, 0),
            held(11, 30, 1_650_000, 1_320_000),
        ]
    );
    assert_eq!(skill.total_exp, 6_270_000);
    assert_eq!(skill.potential_bonus, 0);
}

#[test]
fn forecast_is_for_today_unless_the_streak_begins_today() {
    // A record of yesterday: the forecast is for today, one day on.
    assert_eq!(recomputed(&[(19, 60)], 20).potential_bonus, 1_320_000);
    // A record of two days ago.
    assert_eq!(recomputed(&[(18, 60)], 20).potential_bonus, 990_000);
    // Five days ago: in reach, nothing to draw. Six days ago: out of reach.
    assert_eq!(recomputed(&[(15, 60)], 20).potential_bonus, 0);
    assert_eq!(recomputed(&[(14, 60)], 20).potential_bonus, 0);
    // Yesterday and today: the streak begins yesterday, so the forecast is for
    // today, and today's record gives its full half.
    assert_eq!(recomputed(&[(19, 60), (20, 60)], 20).potential_bonus, 1_320_000 + 2_310_000);
    // Two records of today: the forecast is for tomorrow.
    assert_eq!(recomputed(&[(20, 60), (20, 60)], 20).potential_bonus, 1_320_000 + 1_980_000);
}

#[test]
fn forecast_drops_what_is_out_of_reach_of_the_forecast_day() {
    // Days 10 to 13 form one streak; on day 16 only days 11 to 13 are in reach.
    let skill = recomputed(&[(10, 60), (11, 60), (12, 60), (13, 60)], 16);
    let earned: Vec<u128> = skill.records.iter().map(|record| record.earned_exp()).collect();
    assert_eq!(skill.potential_bonus, earned[1] * 0 / 10 + earned[2] / 10 + earned[3] * 2 / 10);
    let skill = recomputed(&[(10, 60), (11, 60), (12, 60), (13, 60)], 19);
    assert_eq!(skill.potential_bonus, 0);
}

#[test]
fn forecast_with_records_after_today() {
    // A record ten days ahead gives its half and ten daily steps more.
    assert_eq!(recomputed(&[(20, 60)], 10).potential_bonus, 4_950_000);
    // A record out of reach of the last one stays out, though today is near it.
    assert_eq!(recomputed(&[(8, 60), (20, 60)], 10).potential_bonus, 4_950_000);
    // Within reach of both the last record and today.
    assert_eq!(recomputed(&[(8, 60), (12, 60)], 10).potential_bonus, 990_000 + 3_630_000 * 7 / 10);
}

#[test]
fn forecast_on_the_last_day_that_a_date_can_hold() {
    let skill = recomputed(&[(i32::MAX, 60)], i32::MAX);
    assert_eq!(skill.potential_bonus, 1_320_000);
    let skill = recomputed(&[(i32::MIN, 60), (i32::MAX, 60)], i32::MIN);
    assert_eq!(bonuses(&skill), vec![0, 0]);
    assert_eq!(skill.potential_bonus, 3_300_000 * (5 + u32::MAX as u128) / 10);
}

#[test]
fn other_rules_give_other_experience() {
    let rules = rules_of(120, 100, 2);
    let mut skill = skill_on(&[(10, 30), (11, 30), (12, 30), (13, 30)]);
    skill.recompute(&rules, Date::from_days(13));
    let base = 30 * 120 * 1000;
    assert_eq!(skill.records[0].base_exp, base);
    assert_eq!(points(skill.records[0].base_exp), 60.0);
    let second = base / 2;
    let third = (base + second) / 2;
    let fourth = (base + third) / 2;
    assert_eq!(bonuses(&skill), vec![0, second, third, fourth]);
    assert_eq!(skill.total_exp, 4 * base + second + third + fourth);
    // The streak of day 13 begins on day 11, so the forecast is for day 13.
    assert_eq!(skill.potential_bonus, (base + third) / 2 + (base + fourth));
}

#[test]
fn amounts_stay_at_the_largest_amount() {
    let rules = rules_of(u32::MAX, u32::MAX, 1);
    let mut skill = skill_on(&[(10, u64::MAX), (10, u64::MAX), (10, 0), (11, 0)]);
    skill.recompute(&rules, Date::from_days(10));
    let base = u64::MAX as u128 * u32::MAX as u128 * 1000;
    assert_eq!(skill.records[0].base_exp, base);
    assert_eq!(skill.records[0].bonus_exp, 0);
    assert_eq!(skill.records[1].bonus_exp, u128::MAX);
    assert_eq!(skill.records[1].earned_exp(), u128::MAX);
    assert_eq!(skill.records[2].base_exp, 0);
    assert_eq!(skill.records[2].bonus_exp, u128::MAX);
    assert_eq!(skill.records[3].bonus_exp, 0);
    assert_eq!(skill.total_exp, u128::MAX);
    assert_eq!(skill.potential_bonus, 0);
}

#[test]
fn agrees_with_floating_point_to_a_thousandth_of_a_point() {
    let lists: Vec<Vec<(i32, u64)>> = vec![
        vec![],
        vec![(100, 45)],
        vec![(100, 45), (100, 20), (101, 75), (103, 10), (104, 0), (110, 33), (111, 61)],
        (1..12).map(|number| (number, 7)).collect(),
        vec![(-3, 600), (-1, 1), (0, 1), (2, 1439), (7, 12), (12, 12), (18, 12)],
        vec![(50, 13), (50, 13), (50, 13), (50, 13), (51, 13), (51, 13), (55, 13), (56, 13)],
    ];
    for list in &lists {
        for today in [0, 7, 50, 56, 57, 100, 104, 111, 112, 115, 120] {
            let skill = recomputed(list, today);
            let (records, total, potential) = in_floating_point(list, today);
            assert_eq!(skill.records.len(), records.len());
            for (record, (base, bonus)) in skill.records.iter().zip(records) {
                assert!(close(record.base_exp, base), "{} {}", points(record.base_exp), base);
                assert!(close(record.bonus_exp, bonus), "{} {}", points(record.bonus_exp), bonus);
            }
            assert!(close(skill.total_exp, total), "{} {}", points(skill.total_exp), total);
            assert!(
                close(skill.potential_bonus, potential),
                "{} {}",
                points(skill.potential_bonus),
                potential
            );
        }
    }
}
