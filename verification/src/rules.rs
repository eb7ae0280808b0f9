//! The rules that recognise and answer whole queries.

use vstd::prelude::*;
use crate::names::slice_texts;

verus! {

/// A rule, in the order in which rules are registered.
#[derive(Clone, Copy, Debug, PartialEq, Eq, Structural)]
pub enum SqlRule {
    WithCte,
    MinimumCostSupplier,
    PromoRevenueRatio,
    TopSupplierRevenue,
    PartsSupplierRelationship,
    PricingSummary,
    ProfitByNationYear,
    ReturnedCustomerRevenue,
    ImportantStockValue,
    RegionalSupplierRevenue,
    BilateralShippingVolume,
    NationMarketShare,
    DiscountedRevenueOrPredicate,
    OrderPriorityExistsCount,
    ShippingPriorityRevenue,
    DerivedPrefixAvgAntiJoinAggregate,
    JoinWithGroupedSumSemijoin,
    JoinWithCorrelatedAvgThreshold,
    ShippingModePriorityCounts,
    SupplierWaitCountAntijoin,
    PrefixPartSupplierThreshold,
    DerivedJoin,
    DerivedLeftJoinCountDistribution,
    Derived,
    CorrelatedJoinSubqueryFilter,
    MaterializedJoinSubquery,
    MultiCommaJoin,
    CorrelatedExistsSemijoin,
    CorrelatedInPairSemijoin,
    CorrelatedSubqueryFilter,
    CorrelatedExistsSubquery,
    ExistsSubquery,
    InSubquery,
    ProjectionExpression,
}

/// What a rule does.
#[derive(Clone, Copy, Debug, PartialEq, Eq, Structural)]
pub enum SqlRuleKind {
    VectorAggregate,
    VectorJoinAggregate,
    DerivedAggregate,
    SubqueryRewrite,
    Cte,
    GenericExpression,
}

/// What a statement must have for a rule to be worth trying.
#[derive(Clone, Copy, Debug, PartialEq, Eq, Structural)]
pub enum RuleFeature {
    TpchLike,
    With,
    DerivedFrom,
    MultiInput,
    Subquery,
    ProjectionExpression,
}

impl SqlRuleKind {
    /// The name of the kind.
    pub open spec fn label(self) -> Seq<char> {
        match self {
            SqlRuleKind::VectorAggregate => "vector-aggregate"@,
            SqlRuleKind::VectorJoinAggregate => "vector-join-aggregate"@,
            SqlRuleKind::DerivedAggregate => "derived-aggregate"@,
            SqlRuleKind::SubqueryRewrite => "subquery-rewrite"@,
            SqlRuleKind::Cte => "cte"@,
            SqlRuleKind::GenericExpression => "generic-expression"@,
        }
    }

    /// The name of the kind.
    pub fn name(self) -> (name: &'static str)
        ensures
            name@ == self.label(),
    {
        match self {
            SqlRuleKind::VectorAggregate => "vector-aggregate",
            SqlRuleKind::VectorJoinAggregate => "vector-join-aggregate",
            SqlRuleKind::DerivedAggregate => "derived-aggregate",
            SqlRuleKind::SubqueryRewrite => "subquery-rewrite",
            SqlRuleKind::Cte => "cte",
            SqlRuleKind::GenericExpression => "generic-expression",
        }
    }

    /// What a rule of the kind costs beyond its estimate: the general ways are tried
    /// after the special ones.
    pub open spec fn penalty(self) -> int {
        match self {
            SqlRuleKind::Cte => 50_000,
            SqlRuleKind::GenericExpression => 40_000,
            _ => 0,
        }
    }

    /// What a rule of the kind costs beyond its estimate.
    pub fn fallback_penalty(self) -> (penalty: u32)
        ensures
            penalty == self.penalty(),
    {
        match self {
            SqlRuleKind::Cte => 50_000,
            SqlRuleKind::GenericExpression => 40_000,
            _ => 0,
        }
    }
}

impl RuleFeature {
    /// The name of the feature.
    pub fn name(self) -> (name: &'static str)
        ensures
            name@ == (match self {
                RuleFeature::TpchLike => "tpch-like"@,
                RuleFeature::With => "with"@,
                RuleFeature::DerivedFrom => "derived-from"@,
                RuleFeature::MultiInput => "multi-input"@,
                RuleFeature::Subquery => "subquery"@,
                RuleFeature::ProjectionExpression => "projection-expression"@,
            }),
    {
        match self {
            RuleFeature::TpchLike => "tpch-like",
            RuleFeature::With => "with",
            RuleFeature::DerivedFrom => "derived-from",
            RuleFeature::MultiInput => "multi-input",
            RuleFeature::Subquery => "subquery",
            RuleFeature::ProjectionExpression => "projection-expression",
        }
    }
}

/// The place of a rule in the order of the registry.
pub open spec fn rule_rank(rule: SqlRule) -> int {
    match rule {
        SqlRule::WithCte => 0,
        SqlRule::MinimumCostSupplier => 1,
        SqlRule::PromoRevenueRatio => 2,
        SqlRule::TopSupplierRevenue => 3,
        SqlRule::PartsSupplierRelationship => 4,
        SqlRule::PricingSummary => 5,
        SqlRule::ProfitByNationYear => 6,
        SqlRule::ReturnedCustomerRevenue => 7,
        SqlRule::ImportantStockValue => 8,
        SqlRule::RegionalSupplierRevenue => 9,
        SqlRule::BilateralShippingVolume => 10,
        SqlRule::NationMarketShare => 11,
        SqlRule::DiscountedRevenueOrPredicate => 12,
        SqlRule::OrderPriorityExistsCount => 13,
        SqlRule::ShippingPriorityRevenue => 14,
        SqlRule::DerivedPrefixAvgAntiJoinAggregate => 15,
        SqlRule::JoinWithGroupedSumSemijoin => 16,
        SqlRule::JoinWithCorrelatedAvgThreshold => 17,
        SqlRule::ShippingModePriorityCounts => 18,
        SqlRule::SupplierWaitCountAntijoin => 19,
        SqlRule::PrefixPartSupplierThreshold => 20,
        SqlRule::DerivedJoin => 21,
        SqlRule::DerivedLeftJoinCountDistribution => 22,
        SqlRule::Derived => 23,
        SqlRule::CorrelatedJoinSubqueryFilter => 24,
        SqlRule::MaterializedJoinSubquery => 25,
        SqlRule::MultiCommaJoin => 26,
        SqlRule::CorrelatedExistsSemijoin => 27,
        SqlRule::CorrelatedInPairSemijoin => 28,
        SqlRule::CorrelatedSubqueryFilter => 29,
        SqlRule::CorrelatedExistsSubquery => 30,
        SqlRule::ExistsSubquery => 31,
        SqlRule::InSubquery => 32,
        SqlRule::ProjectionExpression => 33,
    }
}

/// The rules in the order of the registry.
pub open spec fn registry() -> Seq<SqlRule> {
    seq![
        SqlRule::WithCte,
        SqlRule::MinimumCostSupplier,
        SqlRule::PromoRevenueRatio,
        SqlRule::TopSupplierRevenue,
        SqlRule::PartsSupplierRelationship,
        SqlRule::PricingSummary,
        SqlRule::ProfitByNationYear,
        SqlRule::ReturnedCustomerRevenue,
        SqlRule::ImportantStockValue,
        SqlRule::RegionalSupplierRevenue,
        SqlRule::BilateralShippingVolume,
        SqlRule::NationMarketShare,
        SqlRule::DiscountedRevenueOrPredicate,
        SqlRule::OrderPriorityExistsCount,
        SqlRule::ShippingPriorityRevenue,
        SqlRule::DerivedPrefixAvgAntiJoinAggregate,
        SqlRule::JoinWithGroupedSumSemijoin,
        SqlRule::JoinWithCorrelatedAvgThreshold,
        SqlRule::ShippingModePriorityCounts,
        SqlRule::SupplierWaitCountAntijoin,
        SqlRule::PrefixPartSupplierThreshold,
        SqlRule::DerivedJoin,
        SqlRule::DerivedLeftJoinCountDistribution,
        SqlRule::Derived,
        SqlRule::CorrelatedJoinSubqueryFilter,
        SqlRule::MaterializedJoinSubquery,
        SqlRule::MultiCommaJoin,
        SqlRule::CorrelatedExistsSemijoin,
        SqlRule::CorrelatedInPairSemijoin,
        SqlRule::CorrelatedSubqueryFilter,
        SqlRule::CorrelatedExistsSubquery,
        SqlRule::ExistsSubquery,
        SqlRule::InSubquery,
        SqlRule::ProjectionExpression,
    ]
}

/// The rules in the order of the registry.
pub fn sql_rule_registry() -> (rules: Vec<SqlRule>)
    ensures
        rules@ == registry(),
{
    let rules: Vec<SqlRule> = vec![
        SqlRule::WithCte,
        SqlRule::MinimumCostSupplier,
        SqlRule::PromoRevenueRatio,
        SqlRule::TopSupplierRevenue,
        SqlRule::PartsSupplierRelationship,
        SqlRule::PricingSummary,
        SqlRule::ProfitByNationYear,
        SqlRule::ReturnedCustomerRevenue,
        SqlRule::ImportantStockValue,
        SqlRule::RegionalSupplierRevenue,
        SqlRule::BilateralShippingVolume,
        SqlRule::NationMarketShare,
        SqlRule::DiscountedRevenueOrPredicate,
        SqlRule::OrderPriorityExistsCount,
        SqlRule::ShippingPriorityRevenue,
        SqlRule::DerivedPrefixAvgAntiJoinAggregate,
        SqlRule::JoinWithGroupedSumSemijoin,
        SqlRule::JoinWithCorrelatedAvgThreshold,
        SqlRule::ShippingModePriorityCounts,
        SqlRule::SupplierWaitCountAntijoin,
        SqlRule::PrefixPartSupplierThreshold,
        SqlRule::DerivedJoin,
        SqlRule::DerivedLeftJoinCountDistribution,
        SqlRule::Derived,
        SqlRule::CorrelatedJoinSubqueryFilter,
        SqlRule::MaterializedJoinSubquery,
        SqlRule::MultiCommaJoin,
        SqlRule::CorrelatedExistsSemijoin,
        SqlRule::CorrelatedInPairSemijoin,
        SqlRule::CorrelatedSubqueryFilter,
        SqlRule::CorrelatedExistsSubquery,
        SqlRule::ExistsSubquery,
        SqlRule::InSubquery,
        SqlRule::ProjectionExpression,
    ];
    assert(rules@ =~= registry());
    rules
}

/// Every rule stands in the registry at its rank, and nowhere else.
pub proof fn law_registry_ranks(rule: SqlRule)
    ensures
        registry().len() == 34,
        0 <= rule_rank(rule) < 34,
        registry()[rule_rank(rule)] == rule,
        forall|place: int| 0 <= place < 34 ==> rule_rank(#[trigger] registry()[place]) == place,
{
    assert forall|place: int| 0 <= place < 34 implies rule_rank(#[trigger] registry()[place])
        == place by {
        lemma_rank_at(place);
    }
}

proof fn lemma_rank_at(place: int)
    requires
        0 <= place < 34,
    ensures
        rule_rank(registry()[place]) == place,
{
}

impl SqlRule {
    /// The name of the rule.
    pub open spec fn label(self) -> Seq<char> {
        match self {
            SqlRule::WithCte => "with-cte"@,
            SqlRule::MinimumCostSupplier => "minimum-cost-supplier"@,
            SqlRule::PromoRevenueRatio => "promo-revenue-ratio"@,
            SqlRule::TopSupplierRevenue => "top-supplier-revenue"@,
            SqlRule::PartsSupplierRelationship => "parts-supplier-relationship"@,
            SqlRule::PricingSummary => "pricing-summary"@,
            SqlRule::ProfitByNationYear => "profit-by-nation-year"@,
            SqlRule::ReturnedCustomerRevenue => "returned-customer-revenue"@,
            SqlRule::ImportantStockValue => "important-stock-value"@,
            SqlRule::RegionalSupplierRevenue => "regional-supplier-revenue"@,
            SqlRule::BilateralShippingVolume => "bilateral-shipping-volume"@,
            SqlRule::NationMarketShare => "nation-market-share"@,
            SqlRule::DiscountedRevenueOrPredicate => "discounted-revenue-or-predicate"@,
            SqlRule::OrderPriorityExistsCount => "order-priority-exists-count"@,
            SqlRule::ShippingPriorityRevenue => "shipping-priority-revenue"@,
            SqlRule::DerivedPrefixAvgAntiJoinAggregate => "derived-prefix-avg-anti-join-aggregate"@,
            SqlRule::JoinWithGroupedSumSemijoin => "join-with-grouped-sum-semijoin"@,
            SqlRule::JoinWithCorrelatedAvgThreshold => "join-with-correlated-avg-threshold"@,
            SqlRule::ShippingModePriorityCounts => "shipping-mode-priority-counts"@,
            SqlRule::SupplierWaitCountAntijoin => "supplier-wait-count-antijoin"@,
            SqlRule::PrefixPartSupplierThreshold => "prefix-part-supplier-threshold"@,
            SqlRule::DerivedJoin => "derived-join"@,
            SqlRule::DerivedLeftJoinCountDistribution => "derived-left-join-count-distribution"@,
            SqlRule::Derived => "derived"@,
            SqlRule::CorrelatedJoinSubqueryFilter => "correlated-join-subquery-filter"@,
            SqlRule::MaterializedJoinSubquery => "materialized-join-subquery"@,
            SqlRule::MultiCommaJoin => "multi-comma-join"@,
            SqlRule::CorrelatedExistsSemijoin => "correlated-exists-semijoin"@,
            SqlRule::CorrelatedInPairSemijoin => "correlated-in-pair-semijoin"@,
            SqlRule::CorrelatedSubqueryFilter => "correlated-subquery-filter"@,
            SqlRule::CorrelatedExistsSubquery => "correlated-exists-subquery"@,
            SqlRule::ExistsSubquery => "exists-subquery"@,
            SqlRule::InSubquery => "in-subquery"@,
            SqlRule::ProjectionExpression => "projection-expression"@,
        }
    }

    /// The name of the rule.
    pub fn name(self) -> (name: &'static str)
        ensures
            name@ == self.label(),
    {
        match self {
            SqlRule::WithCte => "with-cte",
            SqlRule::MinimumCostSupplier => "minimum-cost-supplier",
            SqlRule::PromoRevenueRatio => "promo-revenue-ratio",
            SqlRule::TopSupplierRevenue => "top-supplier-revenue",
            SqlRule::PartsSupplierRelationship => "parts-supplier-relationship",
            SqlRule::PricingSummary => "pricing-summary",
            SqlRule::ProfitByNationYear => "profit-by-nation-year",
            SqlRule::ReturnedCustomerRevenue => "returned-customer-revenue",
            SqlRule::ImportantStockValue => "important-stock-value",
            SqlRule::RegionalSupplierRevenue => "regional-supplier-revenue",
            SqlRule::BilateralShippingVolume => "bilateral-shipping-volume",
            SqlRule::NationMarketShare => "nation-market-share",
            SqlRule::DiscountedRevenueOrPredicate => "discounted-revenue-or-predicate",
            SqlRule::OrderPriorityExistsCount => "order-priority-exists-count",
            SqlRule::ShippingPriorityRevenue => "shipping-priority-revenue",
            SqlRule::DerivedPrefixAvgAntiJoinAggregate => "derived-prefix-avg-anti-join-aggregate",
            SqlRule::JoinWithGroupedSumSemijoin => "join-with-grouped-sum-semijoin",
            SqlRule::JoinWithCorrelatedAvgThreshold => "join-with-correlated-avg-threshold",
            SqlRule::ShippingModePriorityCounts => "shipping-mode-priority-counts",
            SqlRule::SupplierWaitCountAntijoin => "supplier-wait-count-antijoin",
            SqlRule::PrefixPartSupplierThreshold => "prefix-part-supplier-threshold",
            SqlRule::DerivedJoin => "derived-join",
            SqlRule::DerivedLeftJoinCountDistribution => "derived-left-join-count-distribution",
            SqlRule::Derived => "derived",
            SqlRule::CorrelatedJoinSubqueryFilter => "correlated-join-subquery-filter",
            SqlRule::MaterializedJoinSubquery => "materialized-join-subquery",
            SqlRule::MultiCommaJoin => "multi-comma-join",
            SqlRule::CorrelatedExistsSemijoin => "correlated-exists-semijoin",
            SqlRule::CorrelatedInPairSemijoin => "correlated-in-pair-semijoin",
            SqlRule::CorrelatedSubqueryFilter => "correlated-subquery-filter",
            SqlRule::CorrelatedExistsSubquery => "correlated-exists-subquery",
            SqlRule::ExistsSubquery => "exists-subquery",
            SqlRule::InSubquery => "in-subquery",
            SqlRule::ProjectionExpression => "projection-expression",
        }
    }

    /// The place of the rule in the registry.
    pub fn cost_rank(self) -> (rank: u16)
        ensures
            rank == rule_rank(self),
    {
        match self {
            SqlRule::WithCte => 0,
            SqlRule::MinimumCostSupplier => 1,
            SqlRule::PromoRevenueRatio => 2,
            SqlRule::TopSupplierRevenue => 3,
            SqlRule::PartsSupplierRelationship => 4,
            SqlRule::PricingSummary => 5,
            SqlRule::ProfitByNationYear => 6,
            SqlRule::ReturnedCustomerRevenue => 7,
            SqlRule::ImportantStockValue => 8,
            SqlRule::RegionalSupplierRevenue => 9,
            SqlRule::BilateralShippingVolume => 10,
            SqlRule::NationMarketShare => 11,
            SqlRule::DiscountedRevenueOrPredicate => 12,
            SqlRule::OrderPriorityExistsCount => 13,
            SqlRule::ShippingPriorityRevenue => 14,
            SqlRule::DerivedPrefixAvgAntiJoinAggregate => 15,
            SqlRule::JoinWithGroupedSumSemijoin => 16,
            SqlRule::JoinWithCorrelatedAvgThreshold => 17,
            SqlRule::ShippingModePriorityCounts => 18,
            SqlRule::SupplierWaitCountAntijoin => 19,
            SqlRule::PrefixPartSupplierThreshold => 20,
            SqlRule::DerivedJoin => 21,
            SqlRule::DerivedLeftJoinCountDistribution => 22,
            SqlRule::Derived => 23,
            SqlRule::CorrelatedJoinSubqueryFilter => 24,
            SqlRule::MaterializedJoinSubquery => 25,
            SqlRule::MultiCommaJoin => 26,
            SqlRule::CorrelatedExistsSemijoin => 27,
            SqlRule::CorrelatedInPairSemijoin => 28,
            SqlRule::CorrelatedSubqueryFilter => 29,
            SqlRule::CorrelatedExistsSubquery => 30,
            SqlRule::ExistsSubquery => 31,
            SqlRule::InSubquery => 32,
            SqlRule::ProjectionExpression => 33,
        }
    }

    /// What the rule does.
    pub open spec fn does(self) -> SqlRuleKind {
        match self {
            SqlRule::WithCte => SqlRuleKind::Cte,
            SqlRule::MinimumCostSupplier => SqlRuleKind::DerivedAggregate,
            SqlRule::PromoRevenueRatio => SqlRuleKind::VectorAggregate,
            SqlRule::TopSupplierRevenue => SqlRuleKind::VectorAggregate,
            SqlRule::PartsSupplierRelationship => SqlRuleKind::VectorAggregate,
            SqlRule::PricingSummary => SqlRuleKind::VectorAggregate,
            SqlRule::ProfitByNationYear => SqlRuleKind::VectorJoinAggregate,
            SqlRule::ReturnedCustomerRevenue => SqlRuleKind::VectorJoinAggregate,
            SqlRule::ImportantStockValue => SqlRuleKind::VectorAggregate,
            SqlRule::RegionalSupplierRevenue => SqlRuleKind::VectorJoinAggregate,
            SqlRule::BilateralShippingVolume => SqlRuleKind::VectorJoinAggregate,
            SqlRule::NationMarketShare => SqlRuleKind::VectorJoinAggregate,
            SqlRule::DiscountedRevenueOrPredicate => SqlRuleKind::VectorJoinAggregate,
            SqlRule::OrderPriorityExistsCount => SqlRuleKind::VectorJoinAggregate,
            SqlRule::ShippingPriorityRevenue => SqlRuleKind::VectorJoinAggregate,
            SqlRule::DerivedPrefixAvgAntiJoinAggregate => SqlRuleKind::DerivedAggregate,
            SqlRule::JoinWithGroupedSumSemijoin => SqlRuleKind::VectorJoinAggregate,
            SqlRule::JoinWithCorrelatedAvgThreshold => SqlRuleKind::VectorJoinAggregate,
            SqlRule::ShippingModePriorityCounts => SqlRuleKind::VectorJoinAggregate,
            SqlRule::SupplierWaitCountAntijoin => SqlRuleKind::VectorJoinAggregate,
            SqlRule::PrefixPartSupplierThreshold => SqlRuleKind::VectorJoinAggregate,
            SqlRule::DerivedJoin => SqlRuleKind::DerivedAggregate,
            SqlRule::DerivedLeftJoinCountDistribution => SqlRuleKind::DerivedAggregate,
            SqlRule::Derived => SqlRuleKind::DerivedAggregate,
            SqlRule::CorrelatedJoinSubqueryFilter => SqlRuleKind::SubqueryRewrite,
            SqlRule::MaterializedJoinSubquery => SqlRuleKind::SubqueryRewrite,
            SqlRule::MultiCommaJoin => SqlRuleKind::VectorJoinAggregate,
            SqlRule::CorrelatedExistsSemijoin => SqlRuleKind::SubqueryRewrite,
            SqlRule::CorrelatedInPairSemijoin => SqlRuleKind::SubqueryRewrite,
            SqlRule::CorrelatedSubqueryFilter => SqlRuleKind::SubqueryRewrite,
            SqlRule::CorrelatedExistsSubquery => SqlRuleKind::SubqueryRewrite,
            SqlRule::ExistsSubquery => SqlRuleKind::SubqueryRewrite,
            SqlRule::InSubquery => SqlRuleKind::SubqueryRewrite,
            SqlRule::ProjectionExpression => SqlRuleKind::GenericExpression,
        }
    }

    /// What the rule does.
    pub fn kind(self) -> (kind: SqlRuleKind)
        ensures
            kind == self.does(),
    {
        match self {
            SqlRule::WithCte => SqlRuleKind::Cte,
            SqlRule::MinimumCostSupplier => SqlRuleKind::DerivedAggregate,
            SqlRule::PromoRevenueRatio => SqlRuleKind::VectorAggregate,
            SqlRule::TopSupplierRevenue => SqlRuleKind::VectorAggregate,
            SqlRule::PartsSupplierRelationship => SqlRuleKind::VectorAggregate,
            SqlRule::PricingSummary => SqlRuleKind::VectorAggregate,
            SqlRule::ProfitByNationYear => SqlRuleKind::VectorJoinAggregate,
            SqlRule::ReturnedCustomerRevenue => SqlRuleKind::VectorJoinAggregate,
            SqlRule::ImportantStockValue => SqlRuleKind::VectorAggregate,
            SqlRule::RegionalSupplierRevenue => SqlRuleKind::VectorJoinAggregate,
            SqlRule::BilateralShippingVolume => SqlRuleKind::VectorJoinAggregate,
            SqlRule::NationMarketShare => SqlRuleKind::VectorJoinAggregate,
            SqlRule::DiscountedRevenueOrPredicate => SqlRuleKind::VectorJoinAggregate,
            SqlRule::OrderPriorityExistsCount => SqlRuleKind::VectorJoinAggregate,
            SqlRule::ShippingPriorityRevenue => SqlRuleKind::VectorJoinAggregate,
            SqlRule::DerivedPrefixAvgAntiJoinAggregate => SqlRuleKind::DerivedAggregate,
            SqlRule::JoinWithGroupedSumSemijoin => SqlRuleKind::VectorJoinAggregate,
            SqlRule::JoinWithCorrelatedAvgThreshold => SqlRuleKind::VectorJoinAggregate,
            SqlRule::ShippingModePriorityCounts => SqlRuleKind::VectorJoinAggregate,
            SqlRule::SupplierWaitCountAntijoin => SqlRuleKind::VectorJoinAggregate,
            SqlRule::PrefixPartSupplierThreshold => SqlRuleKind::VectorJoinAggregate,
            SqlRule::DerivedJoin => SqlRuleKind::DerivedAggregate,
            SqlRule::DerivedLeftJoinCountDistribution => SqlRuleKind::DerivedAggregate,
            SqlRule::Derived => SqlRuleKind::DerivedAggregate,
            SqlRule::CorrelatedJoinSubqueryFilter => SqlRuleKind::SubqueryRewrite,
            SqlRule::MaterializedJoinSubquery => SqlRuleKind::SubqueryRewrite,
            SqlRule::MultiCommaJoin => SqlRuleKind::VectorJoinAggregate,
            SqlRule::CorrelatedExistsSemijoin => SqlRuleKind::SubqueryRewrite,
            SqlRule::CorrelatedInPairSemijoin => SqlRuleKind::SubqueryRewrite,
            SqlRule::CorrelatedSubqueryFilter => SqlRuleKind::SubqueryRewrite,
            SqlRule::CorrelatedExistsSubquery => SqlRuleKind::SubqueryRewrite,
            SqlRule::ExistsSubquery => SqlRuleKind::SubqueryRewrite,
            SqlRule::InSubquery => SqlRuleKind::SubqueryRewrite,
            SqlRule::ProjectionExpression => SqlRuleKind::GenericExpression,
        }
    }

    /// What a statement must have for the rule to be worth trying.
    pub open spec fn needs(self) -> RuleFeature {
        match self {
            SqlRule::WithCte => RuleFeature::With,
            SqlRule::MinimumCostSupplier => RuleFeature::TpchLike,
            SqlRule::PromoRevenueRatio => RuleFeature::TpchLike,
            SqlRule::TopSupplierRevenue => RuleFeature::TpchLike,
            SqlRule::PartsSupplierRelationship => RuleFeature::TpchLike,
            SqlRule::PricingSummary => RuleFeature::TpchLike,
            SqlRule::ProfitByNationYear => RuleFeature::TpchLike,
            SqlRule::ReturnedCustomerRevenue => RuleFeature::TpchLike,
            SqlRule::ImportantStockValue => RuleFeature::TpchLike,
            SqlRule::RegionalSupplierRevenue => RuleFeature::TpchLike,
            SqlRule::BilateralShippingVolume => RuleFeature::TpchLike,
            SqlRule::NationMarketShare => RuleFeature::TpchLike,
            SqlRule::DiscountedRevenueOrPredicate => RuleFeature::TpchLike,
            SqlRule::OrderPriorityExistsCount => RuleFeature::TpchLike,
            SqlRule::ShippingPriorityRevenue => RuleFeature::TpchLike,
            SqlRule::DerivedPrefixAvgAntiJoinAggregate => RuleFeature::DerivedFrom,
            SqlRule::JoinWithGroupedSumSemijoin => RuleFeature::MultiInput,
            SqlRule::JoinWithCorrelatedAvgThreshold => RuleFeature::MultiInput,
            SqlRule::ShippingModePriorityCounts => RuleFeature::TpchLike,
            SqlRule::SupplierWaitCountAntijoin => RuleFeature::TpchLike,
            SqlRule::PrefixPartSupplierThreshold => RuleFeature::TpchLike,
            SqlRule::DerivedJoin => RuleFeature::DerivedFrom,
            SqlRule::DerivedLeftJoinCountDistribution => RuleFeature::DerivedFrom,
            SqlRule::Derived => RuleFeature::DerivedFrom,
            SqlRule::CorrelatedJoinSubqueryFilter => RuleFeature::Subquery,
            SqlRule::MaterializedJoinSubquery => RuleFeature::Subquery,
            SqlRule::MultiCommaJoin => RuleFeature::MultiInput,
            SqlRule::CorrelatedExistsSemijoin => RuleFeature::Subquery,
            SqlRule::CorrelatedInPairSemijoin => RuleFeature::Subquery,
            SqlRule::CorrelatedSubqueryFilter => RuleFeature::Subquery,
            SqlRule::CorrelatedExistsSubquery => RuleFeature::Subquery,
            SqlRule::ExistsSubquery => RuleFeature::Subquery,
            SqlRule::InSubquery => RuleFeature::Subquery,
            SqlRule::ProjectionExpression => RuleFeature::ProjectionExpression,
        }
    }

    /// What a statement must have for the rule to be worth trying.
    pub fn required_feature(self) -> (feature: RuleFeature)
        ensures
            feature == self.needs(),
    {
        match self {
            SqlRule::WithCte => RuleFeature::With,
            SqlRule::MinimumCostSupplier => RuleFeature::TpchLike,
            SqlRule::PromoRevenueRatio => RuleFeature::TpchLike,
            SqlRule::TopSupplierRevenue => RuleFeature::TpchLike,
            SqlRule::PartsSupplierRelationship => RuleFeature::TpchLike,
            SqlRule::PricingSummary => RuleFeature::TpchLike,
            SqlRule::ProfitByNationYear => RuleFeature::TpchLike,
            SqlRule::ReturnedCustomerRevenue => RuleFeature::TpchLike,
            SqlRule::ImportantStockValue => RuleFeature::TpchLike,
            SqlRule::RegionalSupplierRevenue => RuleFeature::TpchLike,
            SqlRule::BilateralShippingVolume => RuleFeature::TpchLike,
            SqlRule::NationMarketShare => RuleFeature::TpchLike,
            SqlRule::DiscountedRevenueOrPredicate => RuleFeature::TpchLike,
            SqlRule::OrderPriorityExistsCount => RuleFeature::TpchLike,
            SqlRule::ShippingPriorityRevenue => RuleFeature::TpchLike,
            SqlRule::DerivedPrefixAvgAntiJoinAggregate => RuleFeature::DerivedFrom,
            SqlRule::JoinWithGroupedSumSemijoin => RuleFeature::MultiInput,
            SqlRule::JoinWithCorrelatedAvgThreshold => RuleFeature::MultiInput,
            SqlRule::ShippingModePriorityCounts => RuleFeature::TpchLike,
            SqlRule::SupplierWaitCountAntijoin => RuleFeature::TpchLike,
            SqlRule::PrefixPartSupplierThreshold => RuleFeature::TpchLike,
            SqlRule::DerivedJoin => RuleFeature::DerivedFrom,
            SqlRule::DerivedLeftJoinCountDistribution => RuleFeature::DerivedFrom,
            SqlRule::Derived => RuleFeature::DerivedFrom,
            SqlRule::CorrelatedJoinSubqueryFilter => RuleFeature::Subquery,
            SqlRule::MaterializedJoinSubquery => RuleFeature::Subquery,
            SqlRule::MultiCommaJoin => RuleFeature::MultiInput,
            SqlRule::CorrelatedExistsSemijoin => RuleFeature::Subquery,
            SqlRule::CorrelatedInPairSemijoin => RuleFeature::Subquery,
            SqlRule::CorrelatedSubqueryFilter => RuleFeature::Subquery,
            SqlRule::CorrelatedExistsSubquery => RuleFeature::Subquery,
            SqlRule::ExistsSubquery => RuleFeature::Subquery,
            SqlRule::InSubquery => RuleFeature::Subquery,
            SqlRule::ProjectionExpression => RuleFeature::ProjectionExpression,
        }
    }

    /// The columns that the rule reads.
    pub open spec fn columns(self) -> Seq<Seq<char>> {
        match self {
            SqlRule::MinimumCostSupplier => seq![
                "s_acctbal"@,
                "s_name"@,
                "s_address"@,
                "s_phone"@,
                "s_comment"@,
                "s_suppkey"@,
                "s_nationkey"@,
                "n_name"@,
                "n_nationkey"@,
                "n_regionkey"@,
                "r_name"@,
                "r_regionkey"@,
                "p_partkey"@,
                "p_mfgr"@,
                "p_size"@,
                "p_type"@,
                "ps_partkey"@,
                "ps_suppkey"@,
                "ps_supplycost"@,
            ],
            SqlRule::PromoRevenueRatio => seq![
                "p_partkey"@,
                "p_type"@,
                "l_partkey"@,
                "l_extendedprice"@,
                "l_discount"@,
                "l_shipdate"@,
            ],
            SqlRule::TopSupplierRevenue => seq![
                "l_suppkey"@,
                "l_extendedprice"@,
                "l_discount"@,
                "l_shipdate"@,
                "s_suppkey"@,
                "s_name"@,
                "s_address"@,
                "s_phone"@,
            ],
            SqlRule::PartsSupplierRelationship => seq![
                "p_partkey"@,
                "p_brand"@,
                "p_type"@,
                "p_size"@,
                "ps_partkey"@,
                "ps_suppkey"@,
                "s_suppkey"@,
                "s_comment"@,
            ],
            SqlRule::PricingSummary => seq![
                "l_returnflag"@,
                "l_linestatus"@,
                "l_quantity"@,
                "l_extendedprice"@,
                "l_discount"@,
                "l_tax"@,
                "l_shipdate"@,
            ],
            SqlRule::ProfitByNationYear => seq![
                "l_orderkey"@,
                "l_partkey"@,
                "l_suppkey"@,
                "l_quantity"@,
                "l_extendedprice"@,
                "l_discount"@,
                "ps_supplycost"@,
                "o_orderdate"@,
                "n_name"@,
            ],
            SqlRule::ReturnedCustomerRevenue => seq![
                "c_custkey"@,
                "c_name"@,
                "c_acctbal"@,
                "o_orderkey"@,
                "o_orderdate"@,
                "l_returnflag"@,
                "l_extendedprice"@,
                "l_discount"@,
            ],
            SqlRule::ImportantStockValue => seq![
                "ps_partkey"@,
                "ps_suppkey"@,
                "ps_supplycost"@,
                "ps_availqty"@,
                "s_nationkey"@,
                "n_name"@,
            ],
            SqlRule::RegionalSupplierRevenue => seq![
                "r_name"@,
                "n_regionkey"@,
                "c_nationkey"@,
                "s_nationkey"@,
                "o_orderdate"@,
                "l_extendedprice"@,
                "l_discount"@,
            ],
            SqlRule::BilateralShippingVolume => seq![
                "n_name"@,
                "s_nationkey"@,
                "c_nationkey"@,
                "o_orderdate"@,
                "l_shipdate"@,
                "l_extendedprice"@,
                "l_discount"@,
            ],
            SqlRule::NationMarketShare => seq![
                "r_name"@,
                "p_type"@,
                "o_orderdate"@,
                "l_partkey"@,
                "l_suppkey"@,
                "l_extendedprice"@,
                "l_discount"@,
            ],
            SqlRule::DiscountedRevenueOrPredicate => seq![
                "p_brand"@,
                "p_container"@,
                "p_size"@,
                "l_quantity"@,
                "l_extendedprice"@,
                "l_discount"@,
                "l_shipmode"@,
                "l_shipinstruct"@,
            ],
            SqlRule::OrderPriorityExistsCount => seq![
                "o_orderkey"@,
                "o_orderdate"@,
                "o_orderpriority"@,
                "l_orderkey"@,
                "l_commitdate"@,
                "l_receiptdate"@,
            ],
            SqlRule::ShippingPriorityRevenue => seq![
                "c_mktsegment"@,
                "o_orderkey"@,
                "o_orderdate"@,
                "o_shippriority"@,
                "l_orderkey"@,
                "l_extendedprice"@,
                "l_discount"@,
                "l_shipdate"@,
            ],
            SqlRule::JoinWithCorrelatedAvgThreshold => seq![
                "p_partkey"@,
                "p_brand"@,
                "p_container"@,
                "l_partkey"@,
                "l_quantity"@,
                "l_extendedprice"@,
            ],
            SqlRule::ShippingModePriorityCounts => seq![
                "l_orderkey"@,
                "l_shipmode"@,
                "l_commitdate"@,
                "l_receiptdate"@,
                "l_shipdate"@,
                "o_orderkey"@,
                "o_orderpriority"@,
            ],
            SqlRule::SupplierWaitCountAntijoin => seq![
                "s_suppkey"@,
                "s_name"@,
                "n_name"@,
                "l_orderkey"@,
                "l_suppkey"@,
                "l_receiptdate"@,
                "l_commitdate"@,
            ],
            SqlRule::PrefixPartSupplierThreshold => seq![
                "p_name"@,
                "ps_partkey"@,
                "ps_suppkey"@,
                "ps_availqty"@,
                "l_partkey"@,
                "l_suppkey"@,
                "l_quantity"@,
            ],
            _ => Seq::empty(),
        }
    }

    /// The columns that the rule reads.
    pub fn required_columns(self) -> (columns: Vec<&'static str>)
        ensures
            slice_texts(columns@) == self.columns(),
    {
        let columns: Vec<&'static str> = match self {
            SqlRule::MinimumCostSupplier => vec![
                "s_acctbal",
                "s_name",
                "s_address",
                "s_phone",
                "s_comment",
                "s_suppkey",
                "s_nationkey",
                "n_name",
                "n_nationkey",
                "n_regionkey",
                "r_name",
                "r_regionkey",
                "p_partkey",
                "p_mfgr",
                "p_size",
                "p_type",
                "ps_partkey",
                "ps_suppkey",
                "ps_supplycost",
            ],
            SqlRule::PromoRevenueRatio => vec![
                "p_partkey",
                "p_type",
                "l_partkey",
                "l_extendedprice",
                "l_discount",
                "l_shipdate",
            ],
            SqlRule::TopSupplierRevenue => vec![
                "l_suppkey",
                "l_extendedprice",
                "l_discount",
                "l_shipdate",
                "s_suppkey",
                "s_name",
                "s_address",
                "s_phone",
            ],
            SqlRule::PartsSupplierRelationship => vec![
                "p_partkey",
                "p_brand",
                "p_type",
                "p_size",
                "ps_partkey",
                "ps_suppkey",
                "s_suppkey",
                "s_comment",
            ],
            SqlRule::PricingSummary => vec![
                "l_returnflag",
                "l_linestatus",
                "l_quantity",
                "l_extendedprice",
                "l_discount",
                "l_tax",
                "l_shipdate",
            ],
            SqlRule::ProfitByNationYear => vec![
                "l_orderkey",
                "l_partkey",
                "l_suppkey",
                "l_quantity",
                "l_extendedprice",
                "l_discount",
                "ps_supplycost",
                "o_orderdate",
                "n_name",
            ],
            SqlRule::ReturnedCustomerRevenue => vec![
                "c_custkey",
                "c_name",
                "c_acctbal",
                "o_orderkey",
                "o_orderdate",
                "l_returnflag",
                "l_extendedprice",
                "l_discount",
            ],
            SqlRule::ImportantStockValue => vec![
                "ps_partkey",
                "ps_suppkey",
                "ps_supplycost",
                "ps_availqty",
                "s_nationkey",
                "n_name",
            ],
            SqlRule::RegionalSupplierRevenue => vec![
                "r_name",
                "n_regionkey",
                "c_nationkey",
                "s_nationkey",
                "o_orderdate",
                "l_extendedprice",
                "l_discount",
            ],
            SqlRule::BilateralShippingVolume => vec![
                "n_name",
                "s_nationkey",
                "c_nationkey",
                "o_orderdate",
                "l_shipdate",
                "l_extendedprice",
                "l_discount",
            ],
            SqlRule::NationMarketShare => vec![
                "r_name",
                "p_type",
                "o_orderdate",
                "l_partkey",
                "l_suppkey",
                "l_extendedprice",
                "l_discount",
            ],
            SqlRule::DiscountedRevenueOrPredicate => vec![
                "p_brand",
                "p_container",
                "p_size",
                "l_quantity",
                "l_extendedprice",
                "l_discount",
                "l_shipmode",
                "l_shipinstruct",
            ],
            SqlRule::OrderPriorityExistsCount => vec![
                "o_orderkey",
                "o_orderdate",
                "o_orderpriority",
                "l_orderkey",
                "l_commitdate",
                "l_receiptdate",
            ],
            SqlRule::ShippingPriorityRevenue => vec![
                "c_mktsegment",
                "o_orderkey",
                "o_orderdate",
                "o_shippriority",
                "l_orderkey",
                "l_extendedprice",
                "l_discount",
                "l_shipdate",
            ],
            SqlRule::JoinWithCorrelatedAvgThreshold => vec![
                "p_partkey",
                "p_brand",
                "p_container",
                "l_partkey",
                "l_quantity",
                "l_extendedprice",
            ],
            SqlRule::ShippingModePriorityCounts => vec![
                "l_orderkey",
                "l_shipmode",
                "l_commitdate",
                "l_receiptdate",
                "l_shipdate",
                "o_orderkey",
                "o_orderpriority",
            ],
            SqlRule::SupplierWaitCountAntijoin => vec![
                "s_suppkey",
                "s_name",
                "n_name",
                "l_orderkey",
                "l_suppkey",
                "l_receiptdate",
                "l_commitdate",
            ],
            SqlRule::PrefixPartSupplierThreshold => vec![
                "p_name",
                "ps_partkey",
                "ps_suppkey",
                "ps_availqty",
                "l_partkey",
                "l_suppkey",
                "l_quantity",
            ],
            _ => Vec::new(),
        };
        assert(slice_texts(columns@) =~= self.columns());
        columns
    }
}

/// The length of a text and its characters at some places, in one number.
spec fn signature(text: Seq<char>) -> int {
    text.len() + 1000 * (text[2] as int) + 1000000 * (text[text.len() - 3] as int)
}

/// The signature of the name of a rule.
spec fn name_signature(rule: SqlRule) -> int {
    match rule {
        SqlRule::WithCte => 99116008,
        SqlRule::MinimumCostSupplier => 105110021,
        SqlRule::PromoRevenueRatio => 116111019,
        SqlRule::TopSupplierRevenue => 110112020,
        SqlRule::PartsSupplierRelationship => 104114027,
        SqlRule::PricingSummary => 97105015,
        SqlRule::ProfitByNationYear => 101111021,
        SqlRule::ReturnedCustomerRevenue => 110116025,
        SqlRule::ImportantStockValue => 108112021,
        SqlRule::RegionalSupplierRevenue => 110103025,
        SqlRule::BilateralShippingVolume => 117108025,
        SqlRule::NationMarketShare => 97116019,
        SqlRule::DiscountedRevenueOrPredicate => 97115031,
        SqlRule::OrderPriorityExistsCount => 117100027,
        SqlRule::ShippingPriorityRevenue => 110105025,
        SqlRule::DerivedPrefixAvgAntiJoinAggregate => 97114038,
        SqlRule::JoinWithGroupedSumSemijoin => 111105030,
        SqlRule::JoinWithCorrelatedAvgThreshold => 111105034,
        SqlRule::ShippingModePriorityCounts => 110105029,
        SqlRule::SupplierWaitCountAntijoin => 111112028,
        SqlRule::PrefixPartSupplierThreshold => 111101030,
        SqlRule::DerivedJoin => 111114012,
        SqlRule::DerivedLeftJoinCountDistribution => 105114036,
        SqlRule::Derived => 118114007,
        SqlRule::CorrelatedJoinSubqueryFilter => 116114031,
        SqlRule::MaterializedJoinSubquery => 101116026,
        SqlRule::MultiCommaJoin => 111108016,
        SqlRule::CorrelatedExistsSemijoin => 111114026,
        SqlRule::CorrelatedInPairSemijoin => 111114027,
        SqlRule::CorrelatedSubqueryFilter => 116114026,
        SqlRule::CorrelatedExistsSubquery => 101114026,
        SqlRule::ExistsSubquery => 101105015,
        SqlRule::InSubquery => 101045011,
        SqlRule::ProjectionExpression => 105111021,
    }
}

proof fn lemma_name_signature(rule: SqlRule)
    ensures
        signature(rule.label()) == name_signature(rule),
{
    match rule {
        SqlRule::WithCte => {
            reveal_strlit("with-cte");
            let text = "with-cte"@;
            assert(text.len() == 8);
            assert(text[2] == 't');
            assert(text[5] == 'c');
        },
        SqlRule::MinimumCostSupplier => {
            reveal_strlit("minimum-cost-supplier");
            let text = "minimum-cost-supplier"@;
            assert(text.len() == 21);
            assert(text[2] == 'n');
            assert(text[18] == 'i');
        },
        SqlRule::PromoRevenueRatio => {
            reveal_strlit("promo-revenue-ratio");
            let text = "promo-revenue-ratio"@;
            assert(text.len() == 19);
            assert(text[2] == 'o');
            assert(text[16] == 't');
        },
        SqlRule::TopSupplierRevenue => {
            reveal_strlit("top-supplier-revenue");
            let text = "top-supplier-revenue"@;
            assert(text.len() == 20);
            assert(text[2] == 'p');
            assert(text[17] == 'n');
        },
        SqlRule::PartsSupplierRelationship => {
            reveal_strlit("parts-supplier-relationship");
            let text = "parts-supplier-relationship"@;
            assert(text.len() == 27);
            assert(text[2] == 'r');
            assert(text[24] == 'h');
        },
        SqlRule::PricingSummary => {
            reveal_strlit("pricing-summary");
            let text = "pricing-summary"@;
            assert(text.len() == 15);
            assert(text[2] == 'i');
            assert(text[12] == 'a');
        },
        SqlRule::ProfitByNationYear => {
            reveal_strlit("profit-by-nation-year");
            let text = "profit-by-nation-year"@;
            assert(text.len() == 21);
            assert(text[2] == 'o');
            assert(text[18] == 'e');
        },
        SqlRule::ReturnedCustomerRevenue => {
            reveal_strlit("returned-customer-revenue");
            let text = "returned-customer-revenue"@;
            assert(text.len() == 25);
            assert(text[2] == 't');
            assert(text[22] == 'n');
        },
        SqlRule::ImportantStockValue => {
            reveal_strlit("important-stock-value");
            let text = "important-stock-value"@;
            assert(text.len() == 21);
            assert(text[2] == 'p');
            assert(text[18] == 'l');
        },
        SqlRule::RegionalSupplierRevenue => {
            reveal_strlit("regional-supplier-revenue");
            let text = "regional-supplier-revenue"@;
            assert(text.len() == 25);
            assert(text[2] == 'g');
            assert(text[22] == 'n');
        },
        SqlRule::BilateralShippingVolume => {
            reveal_strlit("bilateral-shipping-volume");
            let text = "bilateral-shipping-volume"@;
            assert(text.len() == 25);
            assert(text[2] == 'l');
            assert(text[22] == 'u');
        },
        SqlRule::NationMarketShare => {
            reveal_strlit("nation-market-share");
            let text = "nation-market-share"@;
            assert(text.len() == 19);
            assert(text[2] == 't');
            assert(text[16] == 'a');
        },
        SqlRule::DiscountedRevenueOrPredicate => {
            reveal_strlit("discounted-revenue-or-predicate");
            let text = "discounted-revenue-or-predicate"@;
            assert(text.len() == 31);
            assert(text[2] == 's');
            assert(text[28] == 'a');
        },
        SqlRule::OrderPriorityExistsCount => {
            reveal_strlit("order-priority-exists-count");
            let text = "order-priority-exists-count"@;
            assert(text.len() == 27);
            assert(text[2] == 'd');
            assert(text[24] == 'u');
        },
        SqlRule::ShippingPriorityRevenue => {
            reveal_strlit("shipping-priority-revenue");
            let text = "shipping-priority-revenue"@;
            assert(text.len() == 25);
            assert(text[2] == 'i');
            assert(text[22] == 'n');
        },
        SqlRule::DerivedPrefixAvgAntiJoinAggregate => {
            reveal_strlit("derived-prefix-avg-anti-join-aggregate");
            let text = "derived-prefix-avg-anti-join-aggregate"@;
            assert(text.len() == 38);
            assert(text[2] == 'r');
            assert(text[35] == 'a');
        },
        SqlRule::JoinWithGroupedSumSemijoin => {
            reveal_strlit("join-with-grouped-sum-semijoin");
            let text = "join-with-grouped-sum-semijoin"@;
            assert(text.len() == 30);
            assert(text[2] == 'i');
            assert(text[27] == 'o');
        },
        SqlRule::JoinWithCorrelatedAvgThreshold => {
            reveal_strlit("join-with-correlated-avg-threshold");
            let text = "join-with-correlated-avg-threshold"@;
            assert(text.len() == 34);
            assert(text[2] == 'i');
            assert(text[31] == 'o');
        },
        SqlRule::ShippingModePriorityCounts => {
            reveal_strlit("shipping-mode-priority-counts");
            let text = "shipping-mode-priority-counts"@;
            assert(text.len() == 29);
            assert(text[2] == 'i');
            assert(text[26] == 'n');
        },
        SqlRule::SupplierWaitCountAntijoin => {
            reveal_strlit("supplier-wait-count-antijoin");
            let text = "supplier-wait-count-antijoin"@;
            assert(text.len() == 28);
            assert(text[2] == 'p');
            assert(text[25] == 'o');
        },
        SqlRule::PrefixPartSupplierThreshold => {
            reveal_strlit("prefix-part-supplier-threshold");
            let text = "prefix-part-supplier-threshold"@;
            assert(text.len() == 30);
            assert(text[2] == 'e');
            assert(text[27] == 'o');
        },
        SqlRule::DerivedJoin => {
            reveal_strlit("derived-join");
            let text = "derived-join"@;
            assert(text.len() == 12);
            assert(text[2] == 'r');
            assert(text[9] == 'o');
        },
        SqlRule::DerivedLeftJoinCountDistribution => {
            reveal_strlit("derived-left-join-count-distribution");
            let text = "derived-left-join-count-distribution"@;
            assert(text.len() == 36);
            assert(text[2] == 'r');
            assert(text[33] == 'i');
        },
        SqlRule::Derived => {
            reveal_strlit("derived");
            let text = "derived"@;
            assert(text.len() == 7);
            assert(text[2] == 'r');
            assert(text[4] == 'v');
        },
        SqlRule::CorrelatedJoinSubqueryFilter => {
            reveal_strlit("correlated-join-subquery-filter");
            let text = "correlated-join-subquery-filter"@;
            assert(text.len() == 31);
            assert(text[2] == 'r');
            assert(text[28] == 't');
        },
        SqlRule::MaterializedJoinSubquery => {
            reveal_strlit("materialized-join-subquery");
            let text = "materialized-join-subquery"@;
            assert(text.len() == 26);
            assert(text[2] == 't');
            assert(text[23] == 'e');
        },
        SqlRule::MultiCommaJoin => {
            reveal_strlit("multi-comma-join");
            let text = "multi-comma-join"@;
            assert(text.len() == 16);
            assert(text[2] == 'l');
            assert(text[13] == 'o');
        },
        SqlRule::CorrelatedExistsSemijoin => {
            reveal_strlit("correlated-exists-semijoin");
            let text = "correlated-exists-semijoin"@;
            assert(text.len() == 26);
            assert(text[2] == 'r');
            assert(text[23] == 'o');
        },
        SqlRule::CorrelatedInPairSemijoin => {
            reveal_strlit("correlated-in-pair-semijoin");
            let text = "correlated-in-pair-semijoin"@;
            assert(text.len() == 27);
            assert(text[2] == 'r');
            assert(text[24] == 'o');
        },
        SqlRule::CorrelatedSubqueryFilter => {
            reveal_strlit("correlated-subquery-filter");
            let text = "correlated-subquery-filter"@;
            assert(text.len() == 26);
            assert(text[2] == 'r');
            assert(text[23] == 't');
        },
        SqlRule::CorrelatedExistsSubquery => {
            reveal_strlit("correlated-exists-subquery");
            let text = "correlated-exists-subquery"@;
            assert(text.len() == 26);
            assert(text[2] == 'r');
            assert(text[23] == 'e');
        },
        SqlRule::ExistsSubquery => {
            reveal_strlit("exists-subquery");
            let text = "exists-subquery"@;
            assert(text.len() == 15);
            assert(text[2] == 'i');
            assert(text[12] == 'e');
        },
        SqlRule::InSubquery => {
            reveal_strlit("in-subquery");
            let text = "in-subquery"@;
            assert(text.len() == 11);
            assert(text[2] == '-');
            assert(text[8] == 'e');
        },
        SqlRule::ProjectionExpression => {
            reveal_strlit("projection-expression");
            let text = "projection-expression"@;
            assert(text.len() == 21);
            assert(text[2] == 'o');
            assert(text[18] == 'i');
        },
    }
}

/// No two rules have the same name.
pub proof fn law_names_differ(left: SqlRule, right: SqlRule)
    requires
        left.label() == right.label(),
    ensures
        left == right,
{
    lemma_name_signature(left);
    lemma_name_signature(right);
}

} // verus!
