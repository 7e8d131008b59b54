//! Risk distributions: measured values split into five risk levels by four
//! thresholds, with the number of items and the summed weight per level.
use vstd::prelude::*;

use crate::concerns::capped;
use crate::config::ThresholdsConfig;
use crate::text::{decimal, push_char, push_decimal, push_str};

verus! {

/// The effective low threshold: at least 1.
pub open spec fn low_t(t: ThresholdsConfig) -> nat {
    if t.low >= 1 {
        t.low as nat
    } else {
        1
    }
}

/// The effective medium threshold: above the low one.
pub open spec fn medium_t(t: ThresholdsConfig) -> nat {
    if t.medium >= low_t(t) + 1 {
        t.medium as nat
    } else {
        low_t(t) + 1
    }
}

/// The effective high threshold: above the medium one.
pub open spec fn high_t(t: ThresholdsConfig) -> nat {
    if t.high >= medium_t(t) + 1 {
        t.high as nat
    } else {
        medium_t(t) + 1
    }
}

/// The effective very high threshold: above the high one.
pub open spec fn very_high_t(t: ThresholdsConfig) -> nat {
    if t.very_high >= high_t(t) + 1 {
        t.very_high as nat
    } else {
        high_t(t) + 1
    }
}

/// The low threshold, at least 1.
pub fn threshold_low(thresholds: &ThresholdsConfig) -> (r: usize)
    ensures
        r == low_t(*thresholds),
{
    if thresholds.low >= 1 {
        thresholds.low
    } else {
        1
    }
}

/// The medium threshold, above the low one.
pub fn threshold_medium(thresholds: &ThresholdsConfig) -> (r: usize)
    requires
        low_t(*thresholds) < usize::MAX,
    ensures
        r == medium_t(*thresholds),
{
    let low = threshold_low(thresholds);
    if thresholds.medium >= low + 1 {
        thresholds.medium
    } else {
        low + 1
    }
}

/// The high threshold, above the medium one.
pub fn threshold_high(thresholds: &ThresholdsConfig) -> (r: usize)
    requires
        medium_t(*thresholds) < usize::MAX,
    ensures
        r == high_t(*thresholds),
{
    let medium = threshold_medium(thresholds);
    if thresholds.high >= medium + 1 {
        thresholds.high
    } else {
        medium + 1
    }
}

/// The very high threshold, above the high one.
pub fn threshold_very_high(thresholds: &ThresholdsConfig) -> (r: usize)
    requires
        high_t(*thresholds) < usize::MAX,
    ensures
        r == very_high_t(*thresholds),
{
    let high = threshold_high(thresholds);
    if thresholds.very_high >= high + 1 {
        thresholds.very_high
    } else {
        high + 1
    }
}

/// The risk level of a measured value: 0 (negligible) up to 4 (very high).
pub open spec fn level(t: ThresholdsConfig, x: nat) -> nat {
    if x <= low_t(t) {
        0
    } else if x <= medium_t(t) {
        1
    } else if x <= high_t(t) {
        2
    } else if x <= very_high_t(t) {
        3
    } else {
        4
    }
}

/// Number of the items at level `l`.
pub open spec fn level_count(values: Seq<(usize, usize)>, t: ThresholdsConfig, l: nat) -> nat
    decreases values.len(),
{
    if values.len() == 0 {
        0
    } else {
        level_count(values.drop_last(), t, l) + if level(t, values.last().0 as nat) == l {
            1nat
        } else {
            0nat
        }
    }
}

/// Summed weight of the items at level `l`.
pub open spec fn level_value(values: Seq<(usize, usize)>, t: ThresholdsConfig, l: nat) -> nat
    decreases values.len(),
{
    if values.len() == 0 {
        0
    } else {
        level_value(values.drop_last(), t, l) + if level(t, values.last().0 as nat) == l {
            values.last().1 as nat
        } else {
            0nat
        }
    }
}

/// Every item is at exactly one level.
pub proof fn lemma_levels_partition(values: Seq<(usize, usize)>, t: ThresholdsConfig)
    ensures
        level_count(values, t, 0) + level_count(values, t, 1) + level_count(values, t, 2) + level_count(values, t, 3)
            + level_count(values, t, 4) == values.len(),
    decreases values.len(),
{
    if values.len() > 0 {
        lemma_levels_partition(values.drop_last(), t);
    }
}

/// Items, their count and their summed weight per risk level, with the
/// thresholds and level labels.
#[derive(Debug, Clone, PartialEq, Eq)]
pub struct RiskDistribution {
    pub key: String,
    pub low_risk_threshold: usize,
    pub medium_risk_threshold: usize,
    pub high_risk_threshold: usize,
    pub very_high_risk_threshold: usize,
    pub negligible_risk_value: usize,
    pub low_risk_value: usize,
    pub medium_risk_value: usize,
    pub high_risk_value: usize,
    pub very_high_risk_value: usize,
    pub negligible_risk_count: usize,
    pub low_risk_count: usize,
    pub medium_risk_count: usize,
    pub high_risk_count: usize,
    pub very_high_risk_count: usize,
    pub negligible_risk_label: String,
    pub low_risk_label: String,
    pub medium_risk_label: String,
    pub high_risk_label: String,
    pub very_high_risk_label: String,
    pub value_unit: String,
    pub count_unit: String,
    pub total_value: usize,
    pub total_count: usize,
}

/// The thresholds leave room for the labels (the very high level is
/// labelled from one above its threshold).
pub open spec fn thresholds_fit(t: ThresholdsConfig) -> bool {
    very_high_t(t) < usize::MAX
}

/// Whether the thresholds leave room for the labels.
pub fn thresholds_ok(thresholds: &ThresholdsConfig) -> (b: bool)
    ensures
        b == thresholds_fit(*thresholds),
{
    let low = threshold_low(thresholds);
    if low == usize::MAX {
        return false;
    }
    let medium = threshold_medium(thresholds);
    if medium == usize::MAX {
        return false;
    }
    let high = threshold_high(thresholds);
    if high == usize::MAX {
        return false;
    }
    let very_high = threshold_very_high(thresholds);
    very_high < usize::MAX
}

/// `d` is the distribution of `values` (pairs of measured value and weight)
/// over the levels of `t`; level weights and the total are capped at
/// `usize::MAX`.
pub open spec fn distribution_of(d: RiskDistribution, key: Seq<char>, t: ThresholdsConfig, values: Seq<(usize, usize)>) -> bool {
    let low = low_t(t);
    let medium = medium_t(t);
    let high = high_t(t);
    let very_high = very_high_t(t);
    &&& d.key@ == key
    &&& d.low_risk_threshold == low
    &&& d.medium_risk_threshold == medium
    &&& d.high_risk_threshold == high
    &&& d.very_high_risk_threshold == very_high
    &&& d.negligible_risk_value == capped(level_value(values, t, 0))
    &&& d.low_risk_value == capped(level_value(values, t, 1))
    &&& d.medium_risk_value == capped(level_value(values, t, 2))
    &&& d.high_risk_value == capped(level_value(values, t, 3))
    &&& d.very_high_risk_value == capped(level_value(values, t, 4))
    &&& d.negligible_risk_count == level_count(values, t, 0)
    &&& d.low_risk_count == level_count(values, t, 1)
    &&& d.medium_risk_count == level_count(values, t, 2)
    &&& d.high_risk_count == level_count(values, t, 3)
    &&& d.very_high_risk_count == level_count(values, t, 4)
    &&& d.negligible_risk_label@ == "1-"@ + decimal(low)
    &&& d.low_risk_label@ == decimal(low + 1) + "-"@ + decimal(medium)
    &&& d.medium_risk_label@ == decimal(medium + 1) + "-"@ + decimal(high)
    &&& d.high_risk_label@ == decimal(high + 1) + "-"@ + decimal(very_high)
    &&& d.very_high_risk_label@ == decimal(very_high + 1) + "+"@
    &&& d.value_unit@ == "LOC"@
    &&& d.count_unit@ == "files"@
    &&& d.total_value == capped(
        (d.negligible_risk_value + d.low_risk_value + d.medium_risk_value + d.high_risk_value
            + d.very_high_risk_value) as nat,
    )
    &&& d.total_count == values.len()
}

fn range_label(from: usize, to: usize) -> (r: String)
    ensures
        r@ == decimal(from as nat) + "-"@ + decimal(to as nat),
{
    let mut r = String::new();
    push_decimal(&mut r, from);
    push_str(&mut r, "-");
    push_decimal(&mut r, to);
    proof {
        assert(r@ =~= decimal(from as nat) + "-"@ + decimal(to as nat));
    }
    r
}

/// The distribution of `values`, pairs of a measured value and a weight,
/// over the risk levels that `thresholds` define.
pub fn build_risk_distribution(key: &str, thresholds: &ThresholdsConfig, values: &Vec<(usize, usize)>) -> (r:
    RiskDistribution)
    requires
        thresholds_fit(*thresholds),
    ensures
        distribution_of(r, key@, *thresholds, values@),
{
    let low = threshold_low(thresholds);
    let medium = threshold_medium(thresholds);
    let high = threshold_high(thresholds);
    let very_high = threshold_very_high(thresholds);
    let ghost t = *thresholds;
    let mut v0: usize = 0;
    let mut v1: usize = 0;
    let mut v2: usize = 0;
    let mut v3: usize = 0;
    let mut v4: usize = 0;
    let mut c0: usize = 0;
    let mut c1: usize = 0;
    let mut c2: usize = 0;
    let mut c3: usize = 0;
    let mut c4: usize = 0;
    let mut i: usize = 0;
    while i < values.len()
        invariant
            i <= values@.len(),
            t == *thresholds,
            low == low_t(t),
            medium == medium_t(t),
            high == high_t(t),
            very_high == very_high_t(t),
            v0 == capped(level_value(values@.take(i as int), t, 0)),
            v1 == capped(level_value(values@.take(i as int), t, 1)),
            v2 == capped(level_value(values@.take(i as int), t, 2)),
            v3 == capped(level_value(values@.take(i as int), t, 3)),
            v4 == capped(level_value(values@.take(i as int), t, 4)),
            c0 == level_count(values@.take(i as int), t, 0),
            c1 == level_count(values@.take(i as int), t, 1),
            c2 == level_count(values@.take(i as int), t, 2),
            c3 == level_count(values@.take(i as int), t, 3),
            c4 == level_count(values@.take(i as int), t, 4),
        decreases values@.len() - i,
    {
        proof {
            assert(values@.take(i + 1).drop_last() =~= values@.take(i as int));
            assert(values@.take(i + 1).last() == values@[i as int]);
            lemma_levels_partition(values@.take(i as int), t);
        }
        let (test_value, add_value) = values[i];
        if test_value <= low {
            v0 = v0.saturating_add(add_value);
            c0 += 1;
        } else if test_value <= medium {
            v1 = v1.saturating_add(add_value);
            c1 += 1;
        } else if test_value <= high {
            v2 = v2.saturating_add(add_value);
            c2 += 1;
        } else if test_value <= very_high {
            v3 = v3.saturating_add(add_value);
            c3 += 1;
        } else {
            v4 = v4.saturating_add(add_value);
            c4 += 1;
        }
        i += 1;
    }
    proof {
        assert(values@.take(values@.len() as int) =~= values@);
        lemma_levels_partition(values@, t);
    }
    let total_value = v0.saturating_add(v1).saturating_add(v2).saturating_add(v3).saturating_add(v4);
    let total_count = c0 + c1 + c2 + c3 + c4;
    let mut negligible_label = String::new();
    push_str(&mut negligible_label, "1-");
    push_decimal(&mut negligible_label, low);
    let mut very_high_label = String::new();
    push_decimal(&mut very_high_label, very_high + 1);
    push_char(&mut very_high_label, '+');
    proof {
        reveal_strlit("1-");
        reveal_strlit("+");
        assert(negligible_label@ =~= "1-"@ + decimal(low as nat));
        assert(very_high_label@ =~= decimal((very_high + 1) as nat) + "+"@);
    }
    RiskDistribution {
        key: key.to_owned(),
        low_risk_threshold: low,
        medium_risk_threshold: medium,
        high_risk_threshold: high,
        very_high_risk_threshold: very_high,
        negligible_risk_value: v0,
        low_risk_value: v1,
        medium_risk_value: v2,
        high_risk_value: v3,
        very_high_risk_value: v4,
        negligible_risk_count: c0,
        low_risk_count: c1,
        medium_risk_count: c2,
        high_risk_count: c3,
        very_high_risk_count: c4,
        negligible_risk_label: negligible_label,
        low_risk_label: range_label(low + 1, medium),
        medium_risk_label: range_label(medium + 1, high),
        high_risk_label: range_label(high + 1, very_high),
        very_high_risk_label: very_high_label,
        value_unit: "LOC".to_owned(),
        count_unit: "files".to_owned(),
        total_value,
        total_count,
    }
}

/// The level weights as `negligible / low / medium / high / very high`.
pub open spec fn value_text(d: RiskDistribution) -> Seq<char> {
    decimal(d.negligible_risk_value as nat) + " / "@ + decimal(d.low_risk_value as nat) + " / "@ + decimal(
        d.medium_risk_value as nat,
    ) + " / "@ + decimal(d.high_risk_value as nat) + " / "@ + decimal(d.very_high_risk_value as nat)
}

/// The level weights of a distribution as text.
pub fn risk_distribution_value_text(distribution: &RiskDistribution) -> (r: String)
    ensures
        r@ == value_text(*distribution),
{
    let mut r = String::new();
    push_decimal(&mut r, distribution.negligible_risk_value);
    push_str(&mut r, " / ");
    push_decimal(&mut r, distribution.low_risk_value);
    push_str(&mut r, " / ");
    push_decimal(&mut r, distribution.medium_risk_value);
    push_str(&mut r, " / ");
    push_decimal(&mut r, distribution.high_risk_value);
    push_str(&mut r, " / ");
    push_decimal(&mut r, distribution.very_high_risk_value);
    proof {
        assert(r@ =~= value_text(*distribution));
    }
    r
}

} // verus!
