use vstd::prelude::*;

use crate::database::{
    package_id_listed, packages_with_ids, Catalog, Comparison, ComparisonId, Package, PackageId, Version,
};
use crate::portfolio::{spec_cities, spec_regions, City, Geography, Region};
use crate::problem::{
    city_line, is_replaced_in, region_line, region_lines, replacing_ids, replacing_ids_of,
    report_lines, summary, truncated, COST_SCALE,
};
use crate::results::{CostCalculationSummaryLine, Scope};

verus! {

proof fn lemma_replacing_ids_of_members(cs: Seq<Comparison>, id: Seq<char>)
    ensures
        replacing_ids_of(cs).contains(id) <==> exists|j: int, k: int|
            0 <= j < cs.len() && 0 <= k < cs[j].replacing@.len() && (#[trigger] cs[j].replacing@[k]).0@ == id,
    decreases cs.len(),
{
    if cs.len() > 0 {
        let init = cs.drop_last();
        let tail = cs.last().replacing@.map_values(|r: ComparisonId| r.0@);
        lemma_replacing_ids_of_members(init, id);
        let whole = replacing_ids_of(init) + tail;
        assert(replacing_ids_of(cs) == whole);
        if whole.contains(id) {
            let n = choose|n: int| 0 <= n < whole.len() && whole[n] == id;
            if n < replacing_ids_of(init).len() {
                assert(replacing_ids_of(init)[n] == id);
                let (j, k) = choose|j: int, k: int|
                    0 <= j < init.len() && 0 <= k < init[j].replacing@.len() && (#[trigger] init[j].replacing@[k]).0@ == id;
                assert(cs[j] == init[j]);
            } else {
                let k = n - replacing_ids_of(init).len();
                assert(tail[k] == id);
                assert(cs[cs.len() - 1].replacing@[k].0@ == id);
            }
        }
        if exists|j: int, k: int|
            0 <= j < cs.len() && 0 <= k < cs[j].replacing@.len() && (#[trigger] cs[j].replacing@[k]).0@ == id {
            let (j, k) = choose|j: int, k: int|
                0 <= j < cs.len() && 0 <= k < cs[j].replacing@.len() && (#[trigger] cs[j].replacing@[k]).0@ == id;
            if j < cs.len() - 1 {
                assert(init[j] == cs[j]);
                assert(init[j].replacing@[k].0@ == id);
                let m = choose|m: int| 0 <= m < replacing_ids_of(init).len() && replacing_ids_of(init)[m] == id;
                assert(whole[m] == id);
            } else {
                assert(tail[k] == id);
                assert(whole[replacing_ids_of(init).len() + k] == id);
            }
        }
    }
}

/// The comparisons replaced under a set of active packages are exactly those
/// named in the `replacing` list of some comparison of some active package.
pub proof fn lemma_replaced_ids_are_union(ps: Seq<&Package>, id: Seq<char>)
    ensures
        replacing_ids(ps).contains(id) <==> is_replaced_in(ps, id),
    decreases ps.len(),
{
    if ps.len() > 0 {
        let init = ps.drop_last();
        let tail = replacing_ids_of(ps.last().comparisons@);
        lemma_replaced_ids_are_union(init, id);
        lemma_replacing_ids_of_members(ps.last().comparisons@, id);
        let whole = replacing_ids(init) + tail;
        assert(replacing_ids(ps) == whole);
        if whole.contains(id) {
            let n = choose|n: int| 0 <= n < whole.len() && whole[n] == id;
            if n < replacing_ids(init).len() {
                assert(replacing_ids(init)[n] == id);
                let (i, j, k) = choose|i: int, j: int, k: int|
                    0 <= i < init.len() && 0 <= j < init[i].comparisons@.len()
                        && 0 <= k < init[i].comparisons@[j].replacing@.len()
                        && (#[trigger] init[i].comparisons@[j].replacing@[k]).0@ == id;
                assert(ps[i] == init[i]);
                assert(ps[i].comparisons@[j].replacing@[k].0@ == id);
            } else {
                assert(tail[n - replacing_ids(init).len()] == id);
                let (j, k) = choose|j: int, k: int|
                    0 <= j < ps.last().comparisons@.len() && 0 <= k < ps.last().comparisons@[j].replacing@.len()
                        && (#[trigger] ps.last().comparisons@[j].replacing@[k]).0@ == id;
                assert(ps[ps.len() - 1].comparisons@[j].replacing@[k].0@ == id);
            }
        }
        if is_replaced_in(ps, id) {
            let (i, j, k) = choose|i: int, j: int, k: int|
                0 <= i < ps.len() && 0 <= j < ps[i].comparisons@.len()
                    && 0 <= k < ps[i].comparisons@[j].replacing@.len()
                    && (#[trigger] ps[i].comparisons@[j].replacing@[k]).0@ == id;
            if i < ps.len() - 1 {
                assert(init[i] == ps[i]);
                assert(init[i].comparisons@[j].replacing@[k].0@ == id);
                let m = choose|m: int| 0 <= m < replacing_ids(init).len() && replacing_ids(init)[m] == id;
                assert(whole[m] == id);
            } else {
                assert(ps.last().comparisons@[j].replacing@[k].0@ == id);
                let m = choose|m: int| 0 <= m < tail.len() && tail[m] == id;
                assert(whole[replacing_ids(init).len() + m] == id);
            }
        }
    }
}

/// The report lists the group first, then each region immediately followed by
/// its own cities, in a fixed order that does not depend on the totals.
pub proof fn lemma_report_order(totals: Seq<(int, int)>)
    ensures
        report_lines(totals).map_values(|l: CostCalculationSummaryLine| l.scope) == seq![
            Scope::Group,
            Scope::Region(Region::Scandinavia),
            Scope::City(City::Stockholm),
            Scope::City(City::Malmo),
            Scope::Region(Region::Europe),
            Scope::City(City::Berlin),
            Scope::City(City::Hamburg),
            Scope::City(City::Munich),
        ],
{
    let rs = spec_regions();
    assert(rs.drop_last() =~= seq![Region::Scandinavia]);
    assert(rs.drop_last().drop_last() =~= Seq::<Region>::empty());
    let first = region_lines(totals, rs.drop_last());
    assert(region_lines(totals, rs.drop_last().drop_last()) == Seq::<CostCalculationSummaryLine>::empty());
    assert(rs.drop_last().last() == Region::Scandinavia);
    assert(rs.last() == Region::Europe);
    assert(first == Seq::<CostCalculationSummaryLine>::empty().push(region_line(totals, Region::Scandinavia))
        + spec_cities(Region::Scandinavia).map_values(|c: City| city_line(totals, c)));
    assert(report_lines(totals).map_values(|l: CostCalculationSummaryLine| l.scope) =~= seq![
        Scope::Group,
        Scope::Region(Region::Scandinavia),
        Scope::City(City::Stockholm),
        Scope::City(City::Malmo),
        Scope::Region(Region::Europe),
        Scope::City(City::Berlin),
        Scope::City(City::Hamburg),
        Scope::City(City::Munich),
    ]);
}

/// A non-negative total in cost units is reported as the largest whole number
/// of monetary units that does not exceed it.
pub proof fn lemma_truncation_is_floor(total: int)
    requires
        total >= 0,
    ensures
        truncated(total) >= 0,
        truncated(total) * (COST_SCALE as int) <= total < (truncated(total) + 1) * (COST_SCALE as int),
{
    let q = truncated(total);
    assert(q == total / 100_000);
    assert(q >= 0 && q * 100_000 <= total < (q + 1) * 100_000) by (nonlinear_arith)
        requires
            q == total / 100_000,
            total >= 0,
    ;
}

proof fn lemma_same_packages<'a>(catalog: Seq<&'a Package>, ids1: Seq<&PackageId>, ids2: Seq<&PackageId>)
    requires
        ids1.map_values(|i: &PackageId| i.0@) == ids2.map_values(|i: &PackageId| i.0@),
    ensures
        packages_with_ids(catalog, ids1) == packages_with_ids(catalog, ids2),
    decreases catalog.len(),
{
    if catalog.len() > 0 {
        lemma_same_packages(catalog.drop_last(), ids1, ids2);
        let id = catalog.last().id.0@;
        let v1 = ids1.map_values(|i: &PackageId| i.0@);
        let v2 = ids2.map_values(|i: &PackageId| i.0@);
        assert(v1.len() == ids1.len() && v2.len() == ids2.len());
        if package_id_listed(ids1, id) {
            let k = choose|k: int| 0 <= k < ids1.len() && (#[trigger] ids1[k]).0@ == id;
            assert(v1[k] == id);
            assert(ids2[k].0@ == v2[k]);
        }
        if package_id_listed(ids2, id) {
            let k = choose|k: int| 0 <= k < ids2.len() && (#[trigger] ids2[k]).0@ == id;
            assert(v2[k] == id);
            assert(ids1[k].0@ == v1[k]);
        }
    }
}

/// The report is a function of the values of its inputs: equal catalogs,
/// geographies and versions, and package ids spelled alike, give equal results,
/// so running the calculation twice gives the same outcome.
pub proof fn lemma_summary_is_deterministic(
    catalog1: Catalog,
    catalog2: Catalog,
    geography1: Geography,
    geography2: Geography,
    ids1: Seq<&PackageId>,
    ids2: Seq<&PackageId>,
    version1: Version,
    version2: Version,
)
    requires
        catalog1 == catalog2,
        geography1 == geography2,
        ids1.map_values(|i: &PackageId| i.0@) == ids2.map_values(|i: &PackageId| i.0@),
        version1 == version2,
    ensures
        summary(catalog1, geography1, ids1, version1) == summary(catalog2, geography2, ids2, version2),
{
    lemma_same_packages(catalog1.packages@.map_values(|p: Package| &p), ids1, ids2);
}

} // verus!
