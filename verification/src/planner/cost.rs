//! The parameters that plans are costed with.
use vstd::prelude::*;

use crate::quantity::Quantity;

verus! {

/// The parameters of the cost estimates.
#[derive(Debug)]
pub struct CostModel {
    pub scan_all_cost: Quantity,
    pub scan_label_cost: Quantity,
    pub scan_label_property_cost: Quantity,
    pub filter_cost_per_row: Quantity,
    pub nested_loop_join_cost: Quantity,
    pub hash_join_build_cost: Quantity,
    pub hash_join_probe_cost: Quantity,
    pub sort_cost_factor: Quantity,
    pub default_selectivity: Quantity,
    pub equality_selectivity: Quantity,
    pub range_selectivity: Quantity,
    pub like_selectivity: Quantity,
    pub in_selectivity: Quantity,
    pub null_selectivity: Quantity,
    pub label_selectivity: Quantity,
    pub distinct_cost_per_row: Quantity,
    pub aggregate_cost_per_row: Quantity,
    pub union_overhead: Quantity,
    /// Cost per row for index seek (point lookup).
    pub index_seek_cost_per_row: Quantity,
    /// Cost per row for sort-merge join.
    pub sort_merge_join_cost_per_row: Quantity,
    /// Cost per row for index nested loop join probe.
    pub index_nested_loop_join_cost_per_row: Quantity,
    /// Cost to build a hash table for aggregation.
    pub hash_aggregate_build_cost_per_row: Quantity,
    /// Cost to process a row in hash aggregation.
    pub hash_aggregate_probe_cost_per_row: Quantity,
    /// Cost per row for streaming aggregation (pre-sorted input).
    pub streaming_aggregate_cost_per_row: Quantity,
    /// Cost per row to produce a sorted output.
    pub sort_cost_per_row: Quantity,
}

impl CostModel {
    /// The parameters that are used unless others are given.
    pub open spec fn standard() -> CostModel {
        CostModel {
            scan_all_cost: Quantity::decimal(10000, 0),
            scan_label_cost: Quantity::decimal(100, 0),
            scan_label_property_cost: Quantity::decimal(10, 0),
            filter_cost_per_row: Quantity::decimal(1, 0),
            nested_loop_join_cost: Quantity::decimal(1000, 0),
            hash_join_build_cost: Quantity::decimal(50, 0),
            hash_join_probe_cost: Quantity::decimal(1, 0),
            sort_cost_factor: Quantity::decimal(10, 0),
            default_selectivity: Quantity::decimal(3, 1),
            equality_selectivity: Quantity::decimal(1, 2),
            range_selectivity: Quantity::decimal(1, 1),
            like_selectivity: Quantity::decimal(5, 2),
            in_selectivity: Quantity::decimal(15, 2),
            null_selectivity: Quantity::decimal(2, 2),
            label_selectivity: Quantity::decimal(1, 1),
            distinct_cost_per_row: Quantity::decimal(2, 0),
            aggregate_cost_per_row: Quantity::decimal(3, 0),
            union_overhead: Quantity::decimal(1, 0),
            index_seek_cost_per_row: Quantity::decimal(2, 0),
            sort_merge_join_cost_per_row: Quantity::decimal(3, 0),
            index_nested_loop_join_cost_per_row: Quantity::decimal(5, 0),
            hash_aggregate_build_cost_per_row: Quantity::decimal(4, 0),
            hash_aggregate_probe_cost_per_row: Quantity::decimal(2, 0),
            streaming_aggregate_cost_per_row: Quantity::decimal(1, 0),
            sort_cost_per_row: Quantity::decimal(2, 0),
        }
    }

    /// The cost of a hash join: the left side is built, the right side probes.
    pub open spec fn hash_join(self, left: Quantity, right: Quantity) -> Quantity {
        Quantity::sum(
            Quantity::product(self.hash_join_build_cost, left),
            Quantity::product(self.hash_join_probe_cost, right),
        )
    }

    /// The cost of a nested-loop join.
    pub open spec fn nested_loop_join(self, left: Quantity, right: Quantity) -> Quantity {
        Quantity::sum(self.nested_loop_join_cost, Quantity::product(left, right))
    }

    /// The cost of a nested-loop join that looks up the inner side in an index.
    pub open spec fn index_nested_loop_join(self, outer: Quantity) -> Quantity {
        Quantity::sum(self.nested_loop_join_cost, Quantity::product(outer, self.index_nested_loop_join_cost_per_row))
    }

    /// The cost of a sort-merge join: both sides are sorted, then merged.
    pub open spec fn sort_merge_join(self, left: Quantity, right: Quantity) -> Quantity {
        Quantity::sum(
            Quantity::sum(
                Quantity::sum(self.nested_loop_join_cost, Quantity::product(left, self.sort_cost_per_row)),
                Quantity::product(right, self.sort_cost_per_row),
            ),
            Quantity::product(Quantity::sum(left, right), self.sort_merge_join_cost_per_row),
        )
    }

    /// The cost of an aggregation that hashes its groups.
    pub open spec fn hash_aggregate(self, input: Quantity) -> Quantity {
        Quantity::product(
            input,
            Quantity::sum(self.hash_aggregate_build_cost_per_row, self.hash_aggregate_probe_cost_per_row),
        )
    }

    /// The cost of an aggregation of sorted input.
    pub open spec fn streaming_aggregate(self, input: Quantity) -> Quantity {
        Quantity::product(input, self.streaming_aggregate_cost_per_row)
    }

    /// The cost of a sort.
    pub open spec fn sort(self, input: Quantity) -> Quantity {
        Quantity::product(Quantity::product(input, self.sort_cost_factor), Quantity::log2_at_least_one(input))
    }

    /// The cost of a sort of which `count` rows are kept.
    pub open spec fn top_n(self, input: Quantity, count: usize) -> Quantity {
        Quantity::product(
            Quantity::product(input, self.sort_cost_factor),
            Quantity::log2_at_least_one(Quantity::Count(count as u64)),
        )
    }

    pub fn default() -> (r: Self)
        ensures
            r == Self::standard(),
    {
        CostModel {
            scan_all_cost: Quantity::from_decimal(10000, 0),
            scan_label_cost: Quantity::from_decimal(100, 0),
            scan_label_property_cost: Quantity::from_decimal(10, 0),
            filter_cost_per_row: Quantity::from_decimal(1, 0),
            nested_loop_join_cost: Quantity::from_decimal(1000, 0),
            hash_join_build_cost: Quantity::from_decimal(50, 0),
            hash_join_probe_cost: Quantity::from_decimal(1, 0),
            sort_cost_factor: Quantity::from_decimal(10, 0),
            default_selectivity: Quantity::from_decimal(3, 1),
            equality_selectivity: Quantity::from_decimal(1, 2),
            range_selectivity: Quantity::from_decimal(1, 1),
            like_selectivity: Quantity::from_decimal(5, 2),
            in_selectivity: Quantity::from_decimal(15, 2),
            null_selectivity: Quantity::from_decimal(2, 2),
            label_selectivity: Quantity::from_decimal(1, 1),
            distinct_cost_per_row: Quantity::from_decimal(2, 0),
            aggregate_cost_per_row: Quantity::from_decimal(3, 0),
            union_overhead: Quantity::from_decimal(1, 0),
            index_seek_cost_per_row: Quantity::from_decimal(2, 0),
            sort_merge_join_cost_per_row: Quantity::from_decimal(3, 0),
            index_nested_loop_join_cost_per_row: Quantity::from_decimal(5, 0),
            hash_aggregate_build_cost_per_row: Quantity::from_decimal(4, 0),
            hash_aggregate_probe_cost_per_row: Quantity::from_decimal(2, 0),
            streaming_aggregate_cost_per_row: Quantity::from_decimal(1, 0),
            sort_cost_per_row: Quantity::from_decimal(2, 0),
        }
    }

    /// Compute the cost of a hash join given left and right cardinalities.
    pub fn hash_join_cost(&self, left_card: &Quantity, right_card: &Quantity) -> (r: Quantity)
        ensures
            r == self.hash_join(*left_card, *right_card),
    {
        let build = self.hash_join_build_cost.clone().times(left_card.clone());
        let probe = self.hash_join_probe_cost.clone().times(right_card.clone());
        build.plus(probe)
    }

    /// Compute the cost of a nested-loop join.
    pub fn nested_loop_join_cost(&self, left_card: &Quantity, right_card: &Quantity) -> (r: Quantity)
        ensures
            r == self.nested_loop_join(*left_card, *right_card),
    {
        self.nested_loop_join_cost.clone().plus(left_card.clone().times(right_card.clone()))
    }

    /// Compute the cost of an index nested-loop join.
    pub fn index_nested_loop_join_cost(&self, outer_card: &Quantity, _inner_card: &Quantity) -> (r: Quantity)
        ensures
            r == self.index_nested_loop_join(*outer_card),
    {
        let probes = outer_card.clone().times(self.index_nested_loop_join_cost_per_row.clone());
        self.nested_loop_join_cost.clone().plus(probes)
    }

    /// Compute the cost of a sort-merge join.
    pub fn sort_merge_join_cost(&self, left_card: &Quantity, right_card: &Quantity) -> (r: Quantity)
        ensures
            r == self.sort_merge_join(*left_card, *right_card),
    {
        let left_sort = left_card.clone().times(self.sort_cost_per_row.clone());
        let right_sort = right_card.clone().times(self.sort_cost_per_row.clone());
        let merge = left_card.clone().plus(right_card.clone()).times(self.sort_merge_join_cost_per_row.clone());
        self.nested_loop_join_cost.clone().plus(left_sort).plus(right_sort).plus(merge)
    }

    /// Compute aggregation cost for hash-based aggregation.
    pub fn hash_aggregate_cost(&self, input_card: &Quantity) -> (r: Quantity)
        ensures
            r == self.hash_aggregate(*input_card),
    {
        let build = self.hash_aggregate_build_cost_per_row.clone();
        let probe = self.hash_aggregate_probe_cost_per_row.clone();
        input_card.clone().times(build.plus(probe))
    }

    /// Compute aggregation cost for streaming aggregation.
    pub fn streaming_aggregate_cost(&self, input_card: &Quantity) -> (r: Quantity)
        ensures
            r == self.streaming_aggregate(*input_card),
    {
        input_card.clone().times(self.streaming_aggregate_cost_per_row.clone())
    }

    /// Compute the cost of sorting the input.
    pub fn sort_cost(&self, input_card: &Quantity) -> (r: Quantity)
        ensures
            r == self.sort(*input_card),
    {
        let log = input_card.clone().log2_floored();
        input_card.clone().times(self.sort_cost_factor.clone()).times(log)
    }

    /// Compute the cost of sorting the input while keeping `count` rows.
    pub fn top_n_cost(&self, input_card: &Quantity, count: usize) -> (r: Quantity)
        ensures
            r == self.top_n(*input_card, count),
    {
        let log = Quantity::Count(count as u64).log2_floored();
        input_card.clone().times(self.sort_cost_factor.clone()).times(log)
    }
}

} // verus!
