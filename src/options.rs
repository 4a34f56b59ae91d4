use vstd::prelude::*;
use crate::decimal::Decimal;
use crate::spawelo::{MlEloOptions, PityBonusOptions, SpaweloOptions};

verus! {

/// Value of one option, as shown to the user.
#[derive(Debug)]
pub enum OptionValue {
    Boolean(bool),
    Integer(i64),
    Decimal(Decimal),
    Text(String),
}

/// One option with the key the interface answers with and a readable name.
#[derive(Debug)]
pub struct DescribedOption {
    pub key: String,
    pub name: String,
    pub value: OptionValue,
}

impl DescribedOption {
    pub fn with_bool(value: bool, key: &str, name: &str) -> (r: DescribedOption)
        ensures
            r.key@ == key@,
            r.name@ == name@,
            r.value == OptionValue::Boolean(value),
    {
        DescribedOption { key: String::from_str(key), name: String::from_str(name), value: OptionValue::Boolean(value) }
    }

    pub fn with_int(value: i64, key: &str, name: &str) -> (r: DescribedOption)
        ensures
            r.key@ == key@,
            r.name@ == name@,
            r.value == OptionValue::Integer(value),
    {
        DescribedOption { key: String::from_str(key), name: String::from_str(name), value: OptionValue::Integer(value) }
    }

    pub fn with_decimal(value: Decimal, key: &str, name: &str) -> (r: DescribedOption)
        ensures
            r.key@ == key@,
            r.name@ == name@,
            r.value == OptionValue::Decimal(value),
    {
        DescribedOption { key: String::from_str(key), name: String::from_str(name), value: OptionValue::Decimal(value) }
    }

    pub fn with_text(value: &str, key: &str, name: &str) -> (r: DescribedOption)
        ensures
            r.key@ == key@,
            r.name@ == name@,
            r.value is Text && r.value->Text_0@ == value@,
    {
        DescribedOption { key: String::from_str(key), name: String::from_str(name), value: OptionValue::Text(String::from_str(value)) }
    }
}

/// A titled group of options.
#[derive(Debug)]
pub struct DescribedOptionsGroup {
    pub name: String,
    pub key: String,
    pub options: Vec<DescribedOption>,
}

/// A set of options that the interface shows as one group.
pub trait Options {
    fn key() -> String;

    fn name() -> String;

    fn to_described_options(&self) -> Vec<DescribedOption>;

    fn to_described_options_group(&self) -> DescribedOptionsGroup {
        DescribedOptionsGroup { name: Self::name(), key: Self::key(), options: self.to_described_options() }
    }
}

impl Options for PityBonusOptions {
    fn key() -> String {
        String::from_str("pityBonus")
    }

    fn name() -> String {
        String::from_str("Pity Bonus Options")
    }

    fn to_described_options(&self) -> Vec<DescribedOption> {
        vec![
            DescribedOption::with_int(self.lose_streak_max_days as i64, "loseStreakMaxDays", "Lose Streak Max Age [Days]"),
            DescribedOption::with_int(self.min_loses as i64, "minLoses", "Min Loses"),
            DescribedOption::with_bool(self.additive, "additive", "Additive"),
            DescribedOption::with_int(self.additive_amount as i64, "additiveAmount", "Additive Amount"),
            DescribedOption::with_bool(self.multiplicative, "multiplicative", "Multiplicative"),
            DescribedOption::with_decimal(self.factor.duplicate(), "factor", "Multiplicative Factor"),
        ]
    }
}

impl Options for MlEloOptions {
    fn key() -> String {
        String::from_str("mlElo")
    }

    fn name() -> String {
        String::from_str("ML ELO Options")
    }

    fn to_described_options(&self) -> Vec<DescribedOption> {
        vec![
            DescribedOption::with_int(self.fake_match_max_days as i64, "fakeMatchMaxDays", "Fake Match Max Age [Days]"),
            DescribedOption::with_int(self.max_elo_history as i64, "maxEloHistory", "Max Elo History [Matches]"),
            DescribedOption::with_decimal(
                self.even_match_target_probability.duplicate(),
                "evenMatchTargetProbability",
                "Even Match Target Probability",
            ),
            DescribedOption::with_decimal(
                self.advantage_match_target_probability.duplicate(),
                "advantageMatchTargetProbability",
                "Advantage Match Target Probability",
            ),
            DescribedOption::with_decimal(
                self.pwnage_match_target_probability.duplicate(),
                "pwnageMatchTargetProbability",
                "Pwnage Match Target Probability",
            ),
        ]
    }
}

/// Options of the application itself.
#[derive(Debug)]
pub struct GeneralOptions {
    pub enable_autogrzybke: bool,
}

impl Default for GeneralOptions {
    fn default() -> (r: GeneralOptions)
        ensures
            r.enable_autogrzybke,
    {
        GeneralOptions { enable_autogrzybke: true }
    }
}

impl Options for GeneralOptions {
    fn key() -> String {
        String::from_str("general")
    }

    fn name() -> String {
        String::from_str("General")
    }

    fn to_described_options(&self) -> Vec<DescribedOption> {
        vec![DescribedOption::with_bool(self.enable_autogrzybke, "enableAutogrzybke", "Enable autogrzybke")]
    }
}

/// Every option group of the application.
#[derive(Debug, Default)]
pub struct EloEloOptions {
    pub general: GeneralOptions,
    pub spawelo: SpaweloOptions,
}

impl EloEloOptions {
    /// The groups in the order the interface shows them: general, rating, lose streak bonus.
    pub fn to_described_options_group_vec(&self) -> (r: Vec<DescribedOptionsGroup>)
        ensures
            r@.len() == 3,
    {
        vec![
            self.general.to_described_options_group(),
            self.spawelo.ml_elo.to_described_options_group(),
            self.spawelo.pity_bonus.to_described_options_group(),
        ]
    }
}

} // verus!
