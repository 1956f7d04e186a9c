use vstd::prelude::*;

use crate::database::{
    components_with_ids, get_components, get_packages, packages_with_ids, Catalog, Comparison,
    ComparisonId, Component, ComponentId, ComponentRef, Opt, OptionId, Package, PackageId,
    Selection, Version,
};
use crate::portfolio::{
    city_index, multiplier_of, spec_all_cities, spec_cities, spec_regions, spec_weight_to_group,
    spec_weight_to_region, City, Geography, Multiplier, Region, WEIGHT_SCALE,
};
use crate::results::{CostCalculationSummaryLine, CostError, Scope};

verus! {

/// The ids that the comparisons of `cs` replace, comparison by comparison.
pub open spec fn replacing_ids_of(cs: Seq<Comparison>) -> Seq<Seq<char>>
    decreases cs.len(),
{
    if cs.len() == 0 {
        Seq::empty()
    } else {
        replacing_ids_of(cs.drop_last()) + cs.last().replacing@.map_values(|r: ComparisonId| r.0@)
    }
}

/// The ids that the comparisons of the packages `ps` replace, package by package.
pub open spec fn replacing_ids(ps: Seq<&Package>) -> Seq<Seq<char>>
    decreases ps.len(),
{
    if ps.len() == 0 {
        Seq::empty()
    } else {
        replacing_ids(ps.drop_last()) + replacing_ids_of(ps.last().comparisons@)
    }
}

/// Whether some comparison of the packages `ps` replaces the comparison `id`.
pub open spec fn is_replaced_in(ps: Seq<&Package>, id: Seq<char>) -> bool {
    exists|i: int, j: int, k: int|
        0 <= i < ps.len() && 0 <= j < ps[i].comparisons@.len()
            && 0 <= k < ps[i].comparisons@[j].replacing@.len()
            && (#[trigger] ps[i].comparisons@[j].replacing@[k]).0@ == id
}

/// The ids of the comparisons that the comparisons of `packages` replace: the
/// `replacing` lists of every comparison, in package and comparison order.
pub fn get_replaced_comparsion_ids<'a>(packages: &[&'a Package]) -> (r: Vec<&'a ComparisonId>)
    ensures
        r@.map_values(|c: &ComparisonId| c.0@) == replacing_ids(packages@),
{
    let mut r: Vec<&'a ComparisonId> = Vec::new();
    let mut i: usize = 0;
    while i < packages.len()
        invariant
            i <= packages@.len(),
            r@.map_values(|c: &ComparisonId| c.0@) == replacing_ids(packages@.take(i as int)),
        decreases packages@.len() - i,
    {
        let p: &'a Package = packages[i];
        let ghost before = r@.map_values(|c: &ComparisonId| c.0@);
        let mut j: usize = 0;
        while j < p.comparisons.len()
            invariant
                i < packages@.len(),
                p == packages@[i as int],
                j <= p.comparisons@.len(),
                r@.map_values(|c: &ComparisonId| c.0@) == before + replacing_ids_of(p.comparisons@.take(j as int)),
            decreases p.comparisons@.len() - j,
        {
            let c: &'a Comparison = &p.comparisons[j];
            let ghost mid = r@.map_values(|c: &ComparisonId| c.0@);
            let mut k: usize = 0;
            while k < c.replacing.len()
                invariant
                    j < p.comparisons@.len(),
                    c == p.comparisons@[j as int],
                    k <= c.replacing@.len(),
                    r@.map_values(|c: &ComparisonId| c.0@) == mid + c.replacing@.take(k as int).map_values(|r: ComparisonId| r.0@),
                decreases c.replacing@.len() - k,
            {
                let ghost old_r = r@;
                r.push(&c.replacing[k]);
                proof {
                    assert(r@.map_values(|c: &ComparisonId| c.0@)
                        =~= old_r.map_values(|c: &ComparisonId| c.0@).push(c.replacing@[k as int].0@));
                    assert(c.replacing@.take(k + 1).map_values(|r: ComparisonId| r.0@)
                        =~= c.replacing@.take(k as int).map_values(|r: ComparisonId| r.0@).push(c.replacing@[k as int].0@));
                    assert(r@.map_values(|c: &ComparisonId| c.0@)
                        =~= mid + c.replacing@.take(k + 1).map_values(|r: ComparisonId| r.0@));
                }
                k += 1;
            }
            proof {
                assert(c.replacing@.take(k as int) =~= c.replacing@);
                assert(p.comparisons@.take(j + 1).drop_last() =~= p.comparisons@.take(j as int));
                assert(r@.map_values(|c: &ComparisonId| c.0@)
                    =~= before + replacing_ids_of(p.comparisons@.take(j + 1)));
            }
            j += 1;
        }
        proof {
            assert(p.comparisons@.take(j as int) =~= p.comparisons@);
            assert(packages@.take(i + 1).drop_last() =~= packages@.take(i as int));
        }
        i += 1;
    }
    proof {
        assert(packages@.take(i as int) =~= packages@);
    }
    r
}

/// The comparisons of the packages `ps`, package by package, in catalog order.
pub open spec fn comparisons_of(ps: Seq<&Package>) -> Seq<Comparison>
    decreases ps.len(),
{
    if ps.len() == 0 {
        Seq::empty()
    } else {
        comparisons_of(ps.drop_last()) + ps.last().comparisons@
    }
}

/// How many selections of `sels` are for the comparison `cid`.
pub open spec fn selection_count(sels: Seq<Selection>, cid: Seq<char>) -> nat
    decreases sels.len(),
{
    if sels.len() == 0 {
        0
    } else {
        selection_count(sels.drop_last(), cid) + if sels.last().comparison_id.0@ == cid {
            1nat
        } else {
            0nat
        }
    }
}

/// The option id of the last selection of `sels` for the comparison `cid`.
pub open spec fn selected_option_id(sels: Seq<Selection>, cid: Seq<char>) -> Seq<char>
    decreases sels.len(),
{
    if sels.len() == 0 {
        Seq::empty()
    } else if sels.last().comparison_id.0@ == cid {
        sels.last().option_id.0@
    } else {
        selected_option_id(sels.drop_last(), cid)
    }
}

/// The first option of `opts` with the id `oid`.
pub open spec fn option_with_id(opts: Seq<Opt>, oid: Seq<char>) -> Option<Opt>
    decreases opts.len(),
{
    if opts.len() == 0 {
        None
    } else {
        match option_with_id(opts.drop_last(), oid) {
            Some(o) => Some(o),
            None => if opts.last().id.0@ == oid {
                Some(opts.last())
            } else {
                None
            },
        }
    }
}

/// The first option of `opts` marked as the baseline.
pub open spec fn baseline_option(opts: Seq<Opt>) -> Option<Opt>
    decreases opts.len(),
{
    if opts.len() == 0 {
        None
    } else {
        match baseline_option(opts.drop_last()) {
            Some(o) => Some(o),
            None => if opts.last().existing {
                Some(opts.last())
            } else {
                None
            },
        }
    }
}

/// The baseline and the selected option of the comparison `c` under the
/// selections `sels`: the version must hold exactly one selection for `c`, and it
/// must name one of `c`'s options.
pub open spec fn comparison_pair(c: Comparison, sels: Seq<Selection>) -> Result<(Option<Opt>, Opt), CostError> {
    if selection_count(sels, c.id.0@) != 1 {
        Err(CostError::InvalidVersion)
    } else {
        match option_with_id(c.options@, selected_option_id(sels, c.id.0@)) {
            Some(o) => Ok((baseline_option(c.options@), o)),
            None => Err(CostError::InvalidVersion),
        }
    }
}

/// The pairs of the comparisons of `cs` that are not listed in `replaced`, in
/// order, or the error of the first of them that has no valid pair.
pub open spec fn pairs_for(cs: Seq<Comparison>, replaced: Seq<Seq<char>>, sels: Seq<Selection>) -> Result<Seq<(Option<Opt>, Opt)>, CostError>
    decreases cs.len(),
{
    if cs.len() == 0 {
        Ok(Seq::empty())
    } else {
        match pairs_for(cs.drop_last(), replaced, sels) {
            Err(e) => Err(e),
            Ok(s) => if replaced.contains(cs.last().id.0@) {
                Ok(s)
            } else {
                match comparison_pair(cs.last(), sels) {
                    Err(e) => Err(e),
                    Ok(p) => Ok(s.push(p)),
                }
            },
        }
    }
}

/// The option behind an optional reference.
pub open spec fn opt_view(o: Option<&Opt>) -> Option<Opt> {
    match o {
        Some(x) => Some(*x),
        None => None,
    }
}

/// The options behind a pair of references.
pub open spec fn pair_view(p: (Option<&Opt>, &Opt)) -> (Option<Opt>, Opt) {
    (opt_view(p.0), *p.1)
}

fn comparison_listed(ids: &[&ComparisonId], id: &ComparisonId) -> (r: bool)
    ensures
        r == ids@.map_values(|c: &ComparisonId| c.0@).contains(id.0@),
{
    let ghost names = ids@.map_values(|c: &ComparisonId| c.0@);
    let mut k: usize = 0;
    while k < ids.len()
        invariant
            k <= ids@.len(),
            names == ids@.map_values(|c: &ComparisonId| c.0@),
            forall|m: int| 0 <= m < k ==> names[m] != id.0@,
        decreases ids@.len() - k,
    {
        if ids[k].0 == id.0 {
            assert(names[k as int] == id.0@);
            return true;
        }
        k += 1;
    }
    false
}

/// The number of selections for `cid`, and the option id of the last of them.
fn selections_for<'b>(sels: &'b Vec<Selection>, cid: &ComparisonId) -> (r: (usize, Option<&'b OptionId>))
    ensures
        r.0 == selection_count(sels@, cid.0@),
        r.0 > 0 ==> r.1 is Some && r.1.unwrap().0@ == selected_option_id(sels@, cid.0@),
{
    let mut count: usize = 0;
    let mut last: Option<&'b OptionId> = None;
    let mut i: usize = 0;
    while i < sels.len()
        invariant
            i <= sels@.len(),
            count == selection_count(sels@.take(i as int), cid.0@),
            count <= i,
            count > 0 ==> last is Some && last.unwrap().0@ == selected_option_id(sels@.take(i as int), cid.0@),
        decreases sels@.len() - i,
    {
        proof {
            assert(sels@.take(i + 1).drop_last() =~= sels@.take(i as int));
        }
        if sels[i].comparison_id.0 == cid.0 {
            count += 1;
            last = Some(&sels[i].option_id);
        }
        i += 1;
    }
    proof {
        assert(sels@.take(i as int) =~= sels@);
    }
    (count, last)
}

fn find_option<'a>(opts: &'a Vec<Opt>, oid: &OptionId) -> (r: Option<&'a Opt>)
    ensures
        opt_view(r) == option_with_id(opts@, oid.0@),
{
    let mut found: Option<&'a Opt> = None;
    let mut i: usize = 0;
    while i < opts.len()
        invariant
            i <= opts@.len(),
            opt_view(found) == option_with_id(opts@.take(i as int), oid.0@),
        decreases opts@.len() - i,
    {
        proof {
            assert(opts@.take(i + 1).drop_last() =~= opts@.take(i as int));
        }
        if found.is_none() && opts[i].id.0 == oid.0 {
            found = Some(&opts[i]);
        }
        i += 1;
    }
    proof {
        assert(opts@.take(i as int) =~= opts@);
    }
    found
}

fn find_baseline<'a>(opts: &'a Vec<Opt>) -> (r: Option<&'a Opt>)
    ensures
        opt_view(r) == baseline_option(opts@),
{
    let mut found: Option<&'a Opt> = None;
    let mut i: usize = 0;
    while i < opts.len()
        invariant
            i <= opts@.len(),
            opt_view(found) == baseline_option(opts@.take(i as int)),
        decreases opts@.len() - i,
    {
        proof {
            assert(opts@.take(i + 1).drop_last() =~= opts@.take(i as int));
        }
        if found.is_none() && opts[i].existing {
            found = Some(&opts[i]);
        }
        i += 1;
    }
    proof {
        assert(opts@.take(i as int) =~= opts@);
    }
    found
}

fn pair_of_comparison<'a>(c: &'a Comparison, sels: &Vec<Selection>) -> (r: Result<(Option<&'a Opt>, &'a Opt), CostError>)
    ensures
        match comparison_pair(*c, sels@) {
            Ok(p) => r is Ok && pair_view(r.unwrap()) == p,
            Err(e) => r == Err::<(Option<&'a Opt>, &'a Opt), CostError>(e),
        },
{
    let (count, last) = selections_for(sels, &c.id);
    if count != 1 {
        return Err(CostError::InvalidVersion);
    }
    let oid = last.unwrap();
    match find_option(&c.options, oid) {
        None => Err(CostError::InvalidVersion),
        Some(selected) => Ok((find_baseline(&c.options), selected)),
    }
}

/// For each comparison of `packages` that is not listed in
/// `replaced_comparisons`, the baseline option (if the comparison has one) and
/// the option that `version` selects for it; `InvalidVersion` when a comparison
/// has no single selection or its selection names none of its options.
pub fn get_existing_and_selected_options<'a>(
    packages: &[&'a Package],
    version: &Version,
    replaced_comparisons: &[&ComparisonId],
) -> (r: Result<Vec<(Option<&'a Opt>, &'a Opt)>, CostError>)
    ensures
        match pairs_for(
            comparisons_of(packages@),
            replaced_comparisons@.map_values(|c: &ComparisonId| c.0@),
            version.selections@,
        ) {
            Ok(s) => r is Ok && r.unwrap()@.map_values(|p: (Option<&'a Opt>, &'a Opt)| pair_view(p)) == s,
            Err(e) => r == Err::<Vec<(Option<&'a Opt>, &'a Opt)>, CostError>(e),
        },
{
    let sels = &version.selections;
    let ghost rc = replaced_comparisons@.map_values(|c: &ComparisonId| c.0@);
    let mut result: Vec<(Option<&'a Opt>, &'a Opt)> = Vec::new();
    let mut failure: Option<CostError> = None;
    let mut i: usize = 0;
    proof {
        assert(packages@.take(0) =~= Seq::<&Package>::empty());
        assert(result@.map_values(|p: (Option<&'a Opt>, &'a Opt)| pair_view(p)) =~= Seq::<(Option<Opt>, Opt)>::empty());
    }
    while i < packages.len()
        invariant
            i <= packages@.len(),
            rc == replaced_comparisons@.map_values(|c: &ComparisonId| c.0@),
            sels == &version.selections,
            match failure {
                Some(e) => pairs_for(comparisons_of(packages@.take(i as int)), rc, sels@) == Err::<Seq<(Option<Opt>, Opt)>, CostError>(e),
                None => pairs_for(comparisons_of(packages@.take(i as int)), rc, sels@)
                    == Ok::<Seq<(Option<Opt>, Opt)>, CostError>(result@.map_values(|p: (Option<&'a Opt>, &'a Opt)| pair_view(p))),
            },
        decreases packages@.len() - i,
    {
        let p: &'a Package = packages[i];
        let ghost before = comparisons_of(packages@.take(i as int));
        let mut j: usize = 0;
        while j < p.comparisons.len()
            invariant
                i < packages@.len(),
                p == packages@[i as int],
                j <= p.comparisons@.len(),
                rc == replaced_comparisons@.map_values(|c: &ComparisonId| c.0@),
                sels == &version.selections,
                match failure {
                    Some(e) => pairs_for(before + p.comparisons@.take(j as int), rc, sels@) == Err::<Seq<(Option<Opt>, Opt)>, CostError>(e),
                    None => pairs_for(before + p.comparisons@.take(j as int), rc, sels@)
                        == Ok::<Seq<(Option<Opt>, Opt)>, CostError>(result@.map_values(|p: (Option<&'a Opt>, &'a Opt)| pair_view(p))),
                },
            decreases p.comparisons@.len() - j,
        {
            let c: &'a Comparison = &p.comparisons[j];
            proof {
                assert((before + p.comparisons@.take(j + 1)).drop_last() =~= before + p.comparisons@.take(j as int));
                assert((before + p.comparisons@.take(j + 1)).last() == p.comparisons@[j as int]);
            }
            if failure.is_none() && !comparison_listed(replaced_comparisons, &c.id) {
                match pair_of_comparison(c, sels) {
                    Err(e) => {
                        failure = Some(e);
                    },
                    Ok(pair) => {
                        let ghost old_result = result@;
                        result.push(pair);
                        proof {
                            assert(result@.map_values(|p: (Option<&'a Opt>, &'a Opt)| pair_view(p))
                                =~= old_result.map_values(|p: (Option<&'a Opt>, &'a Opt)| pair_view(p)).push(pair_view(pair)));
                        }
                    },
                }
            }
            j += 1;
        }
        proof {
            assert(p.comparisons@.take(j as int) =~= p.comparisons@);
            assert(packages@.take(i + 1).drop_last() =~= packages@.take(i as int));
        }
        i += 1;
    }
    proof {
        assert(packages@.take(i as int) =~= packages@);
    }
    match failure {
        Some(e) => Err(e),
        None => Ok(result),
    }
}

/// Cost units per monetary unit: a price in hundredths times a multiplier in
/// thousandths.
pub const COST_SCALE: u128 = 100_000;

/// The ids of the components that `opt` refers to, in order.
pub open spec fn component_ids<'a>(opt: &'a Opt) -> Seq<&'a ComponentId> {
    opt.component_refs@.map_values(|r: ComponentRef| &r.component_id)
}

/// The cost of the components `cs` in `city`, in cost units: each price times
/// the multiplier of its category in `city`; `None` when a multiplier is missing.
pub open spec fn components_cost(cs: Seq<&Component>, table: Seq<Multiplier>, city: City) -> Option<int>
    decreases cs.len(),
{
    if cs.len() == 0 {
        Some(0)
    } else {
        match components_cost(cs.drop_last(), table, city) {
            None => None,
            Some(sum) => match multiplier_of(table, cs.last().category, city) {
                None => None,
                Some(f) => Some(sum + cs.last().price * f),
            },
        }
    }
}

/// The cost of `opt` in `city`, in cost units, over the catalog components that
/// it refers to (each counted once).
pub open spec fn option_cost(catalog: Catalog, geography: Geography, opt: Opt, city: City) -> Option<int> {
    components_cost(
        components_with_ids(catalog.components@.map_values(|c: Component| &c), component_ids(&opt)),
        geography.multipliers@,
        city,
    )
}

/// The cost of `option` in `city`, in cost units (see `COST_SCALE`);
/// `ConfigurationError` when a multiplier that it needs is missing.
pub fn compute_costs_for_option_in_city(catalog: &Catalog, geography: &Geography, option: &Opt, city: City) -> (r: Result<u128, CostError>)
    ensures
        match option_cost(*catalog, *geography, *option, city) {
            Some(v) => 0 <= v <= u128::MAX && r == Ok::<u128, CostError>(v as u128),
            None => r == Err::<u128, CostError>(CostError::ConfigurationError),
        },
{
    let mut ids: Vec<&ComponentId> = Vec::new();
    let mut k: usize = 0;
    while k < option.component_refs.len()
        invariant
            k <= option.component_refs@.len(),
            ids@ == component_ids(option).take(k as int),
        decreases option.component_refs@.len() - k,
    {
        ids.push(&option.component_refs[k].component_id);
        proof {
            assert(ids@ =~= component_ids(option).take(k + 1));
        }
        k += 1;
    }
    proof {
        assert(ids@ =~= component_ids(option));
    }
    let comps = get_components(catalog, ids.as_slice());
    let ghost table = geography.multipliers@;
    let mut sum: u128 = 0;
    let mut i: usize = 0;
    while i < comps.len()
        invariant
            i <= comps@.len(),
            table == geography.multipliers@,
            comps@ == components_with_ids(catalog.components@.map_values(|c: Component| &c), component_ids(option)),
            components_cost(comps@.take(i as int), table, city) == Some(sum as int),
            sum <= i * 0x1_0000_0000_0000_0000,
        decreases comps@.len() - i,
    {
        proof {
            assert(comps@.take(i + 1).drop_last() =~= comps@.take(i as int));
        }
        let c = comps[i];
        match geography.multiplier(c.category, city) {
            Err(e) => {
                proof {
                    assert(comps@.take(i + 1).last() == comps@[i as int]);
                    lemma_components_cost_stays_none(comps@, (i + 1) as int, table, city);
                }
                return Err(e);
            },
            Ok(f) => {
                assert((c.price as int) * (f as int) < 0x1_0000_0000_0000_0000) by (nonlinear_arith)
                    requires
                        c.price <= 0xFFFF_FFFF,
                        f <= 0xFFFF_FFFF,
                ;
                let term: u128 = (c.price as u128) * (f as u128);
                assert(comps@.take(i + 1).last() == comps@[i as int]);
                sum = sum + term;
            },
        }
        i += 1;
    }
    proof {
        assert(comps@.take(i as int) =~= comps@);
    }
    Ok(sum)
}

/// Once a multiplier is missing for a prefix, the cost of the whole is missing.
proof fn lemma_components_cost_stays_none(cs: Seq<&Component>, n: int, table: Seq<Multiplier>, city: City)
    requires
        0 <= n <= cs.len(),
        components_cost(cs.take(n), table, city) is None,
    ensures
        components_cost(cs, table, city) is None,
    decreases cs.len() - n,
{
    if n < cs.len() {
        assert(cs.take(n + 1).drop_last() =~= cs.take(n));
        lemma_components_cost_stays_none(cs, n + 1, table, city);
    } else {
        assert(cs.take(n) =~= cs);
    }
}

/// One past the largest city total, in cost units, that a report line can hold.
pub const COST_LIMIT: u128 = 214_748_364_800_000;

/// The cost in `city` of one side of the pair `p`: the baseline option (nothing
/// when there is none) or the selected option.
pub open spec fn side_cost(catalog: Catalog, geography: Geography, p: (Option<Opt>, Opt), city: City, baseline: bool) -> Option<int> {
    if baseline {
        match p.0 {
            None => Some(0),
            Some(o) => option_cost(catalog, geography, o, city),
        }
    } else {
        option_cost(catalog, geography, p.1, city)
    }
}

/// The summed cost in `city` of one side of every pair of `pairs`.
pub open spec fn pairs_cost(catalog: Catalog, geography: Geography, pairs: Seq<(Option<Opt>, Opt)>, city: City, baseline: bool) -> Option<int>
    decreases pairs.len(),
{
    if pairs.len() == 0 {
        Some(0)
    } else {
        match pairs_cost(catalog, geography, pairs.drop_last(), city, baseline) {
            None => None,
            Some(sum) => match side_cost(catalog, geography, pairs.last(), city, baseline) {
                None => None,
                Some(v) => Some(sum + v),
            },
        }
    }
}

/// The baseline and the selected total of `city`, in cost units.
pub open spec fn city_result(catalog: Catalog, geography: Geography, pairs: Seq<(Option<Opt>, Opt)>, city: City) -> Result<(int, int), CostError> {
    match (pairs_cost(catalog, geography, pairs, city, true), pairs_cost(catalog, geography, pairs, city, false)) {
        (Some(e), Some(s)) => if e >= COST_LIMIT || s >= COST_LIMIT {
            Err(CostError::CostOverflow)
        } else {
            Ok((e, s))
        },
        _ => Err(CostError::ConfigurationError),
    }
}

/// The totals of the cities `cities`, in order, or the error of the first city
/// that has none.
pub open spec fn city_results(catalog: Catalog, geography: Geography, pairs: Seq<(Option<Opt>, Opt)>, cities: Seq<City>) -> Result<Seq<(int, int)>, CostError>
    decreases cities.len(),
{
    if cities.len() == 0 {
        Ok(Seq::empty())
    } else {
        match city_results(catalog, geography, pairs, cities.drop_last()) {
            Err(e) => Err(e),
            Ok(s) => match city_result(catalog, geography, pairs, cities.last()) {
                Err(e) => Err(e),
                Ok(t) => Ok(s.push(t)),
            },
        }
    }
}

/// A total in cost units, truncated to whole monetary units.
pub open spec fn truncated(total: int) -> int {
    total / (COST_SCALE as int)
}

/// The truncated baseline or selected total of `c`, from the totals of
/// `spec_all_cities()`.
pub open spec fn amount_of(totals: Seq<(int, int)>, c: City, baseline: bool) -> int {
    truncated(if baseline { totals[city_index(c)].0 } else { totals[city_index(c)].1 })
}

/// The weight of `c` within the group or within its region.
pub open spec fn weight_of(c: City, to_group: bool) -> int {
    if to_group {
        spec_weight_to_group(c) as int
    } else {
        spec_weight_to_region(c) as int
    }
}

/// The sum of the weights of `cs`.
pub open spec fn weight_total(cs: Seq<City>, to_group: bool) -> int
    decreases cs.len(),
{
    if cs.len() == 0 {
        0
    } else {
        weight_total(cs.drop_last(), to_group) + weight_of(cs.last(), to_group)
    }
}

/// The sum over `cs` of each city's weight times its truncated total.
pub open spec fn weighted_sum(cs: Seq<City>, totals: Seq<(int, int)>, to_group: bool, baseline: bool) -> int
    decreases cs.len(),
{
    if cs.len() == 0 {
        0
    } else {
        weighted_sum(cs.drop_last(), totals, to_group, baseline) + weight_of(cs.last(), to_group) * amount_of(totals, cs.last(), baseline)
    }
}

/// The weighted amount of `cs`, truncated to whole monetary units.
pub open spec fn weighted_amount_of(cs: Seq<City>, totals: Seq<(int, int)>, to_group: bool, baseline: bool) -> int {
    weighted_sum(cs, totals, to_group, baseline) / (WEIGHT_SCALE as int)
}

/// The report line of the city `c`.
pub open spec fn city_line(totals: Seq<(int, int)>, c: City) -> CostCalculationSummaryLine {
    CostCalculationSummaryLine {
        scope: Scope::City(c),
        existing_cost: amount_of(totals, c, true) as i32,
        selected_cost: amount_of(totals, c, false) as i32,
    }
}

/// The report line of the region `r`: its cities weighted within the region.
pub open spec fn region_line(totals: Seq<(int, int)>, r: Region) -> CostCalculationSummaryLine {
    CostCalculationSummaryLine {
        scope: Scope::Region(r),
        existing_cost: weighted_amount_of(spec_cities(r), totals, false, true) as i32,
        selected_cost: weighted_amount_of(spec_cities(r), totals, false, false) as i32,
    }
}

/// The report line of the group: every city weighted within the group.
pub open spec fn group_line(totals: Seq<(int, int)>) -> CostCalculationSummaryLine {
    CostCalculationSummaryLine {
        scope: Scope::Group,
        existing_cost: weighted_amount_of(spec_all_cities(), totals, true, true) as i32,
        selected_cost: weighted_amount_of(spec_all_cities(), totals, true, false) as i32,
    }
}

/// For each region of `rs`, its line followed by the lines of its cities.
pub open spec fn region_lines(totals: Seq<(int, int)>, rs: Seq<Region>) -> Seq<CostCalculationSummaryLine>
    decreases rs.len(),
{
    if rs.len() == 0 {
        Seq::empty()
    } else {
        region_lines(totals, rs.drop_last()).push(region_line(totals, rs.last()))
            + spec_cities(rs.last()).map_values(|c: City| city_line(totals, c))
    }
}

/// The report: the group line, then each region's line followed by its cities'.
pub open spec fn report_lines(totals: Seq<(int, int)>) -> Seq<CostCalculationSummaryLine> {
    seq![group_line(totals)] + region_lines(totals, spec_regions())
}

/// The report for the packages of `catalog` with the ids `ids` and the
/// selections of `version`.
pub open spec fn summary(catalog: Catalog, geography: Geography, ids: Seq<&PackageId>, version: Version) -> Result<Seq<CostCalculationSummaryLine>, CostError> {
    let packages = packages_with_ids(catalog.packages@.map_values(|p: Package| &p), ids);
    match pairs_for(comparisons_of(packages), replacing_ids(packages), version.selections@) {
        Err(e) => Err(e),
        Ok(pairs) => match city_results(catalog, geography, pairs, spec_all_cities()) {
            Err(e) => Err(e),
            Ok(totals) => Ok(report_lines(totals)),
        },
    }
}

/// The pairs behind a vector of pairs of references.
pub open spec fn pairs_view<'a>(pairs: Seq<(Option<&'a Opt>, &'a Opt)>) -> Seq<(Option<Opt>, Opt)> {
    pairs.map_values(|p: (Option<&'a Opt>, &'a Opt)| pair_view(p))
}

/// Totals as integers.
pub open spec fn totals_view(totals: Seq<(u128, u128)>) -> Seq<(int, int)> {
    totals.map_values(|t: (u128, u128)| (t.0 as int, t.1 as int))
}

fn side_total<'a>(
    catalog: &Catalog,
    geography: &Geography,
    pairs: &Vec<(Option<&'a Opt>, &'a Opt)>,
    city: City,
    baseline: bool,
) -> (r: Result<u128, CostError>)
    ensures
        match pairs_cost(*catalog, *geography, pairs_view(pairs@), city, baseline) {
            None => r == Err::<u128, CostError>(CostError::ConfigurationError),
            Some(t) => if t >= COST_LIMIT {
                r == Err::<u128, CostError>(CostError::CostOverflow)
            } else {
                0 <= t && r == Ok::<u128, CostError>(t as u128)
            },
        },
{
    let ghost pv = pairs_view(pairs@);
    let mut missing = false;
    let mut too_big = false;
    let mut sum: u128 = 0;
    let mut i: usize = 0;
    while i < pairs.len()
        invariant
            i <= pairs@.len(),
            pv == pairs_view(pairs@),
            missing == pairs_cost(*catalog, *geography, pv.take(i as int), city, baseline) is None,
            !missing ==> too_big == (pairs_cost(*catalog, *geography, pv.take(i as int), city, baseline).unwrap() >= COST_LIMIT),
            !missing && !too_big ==> sum == pairs_cost(*catalog, *geography, pv.take(i as int), city, baseline).unwrap(),
            sum < COST_LIMIT,
        decreases pairs@.len() - i,
    {
        proof {
            assert(pv.take(i + 1).drop_last() =~= pv.take(i as int));
            assert(pv.take(i + 1).last() == pair_view(pairs@[i as int]));
        }
        if !missing {
            let p = pairs[i];
            let priced = if baseline {
                match p.0 {
                    None => Ok(0),
                    Some(o) => compute_costs_for_option_in_city(catalog, geography, o, city),
                }
            } else {
                compute_costs_for_option_in_city(catalog, geography, p.1, city)
            };
            match priced {
                Err(_) => {
                    missing = true;
                },
                Ok(v) => {
                    if !too_big {
                        if v >= COST_LIMIT - sum {
                            too_big = true;
                        } else {
                            sum = sum + v;
                        }
                    }
                },
            }
        }
        i += 1;
    }
    proof {
        assert(pv.take(i as int) =~= pv);
    }
    if missing {
        Err(CostError::ConfigurationError)
    } else if too_big {
        Err(CostError::CostOverflow)
    } else {
        Ok(sum)
    }
}

fn city_totals<'a>(
    catalog: &Catalog,
    geography: &Geography,
    pairs: &Vec<(Option<&'a Opt>, &'a Opt)>,
    city: City,
) -> (r: Result<(u128, u128), CostError>)
    ensures
        match city_result(*catalog, *geography, pairs_view(pairs@), city) {
            Ok(t) => r is Ok && r.unwrap().0 == t.0 && r.unwrap().1 == t.1,
            Err(e) => r == Err::<(u128, u128), CostError>(e),
        },
        r is Ok ==> r.unwrap().0 < COST_LIMIT && r.unwrap().1 < COST_LIMIT,
{
    let existing = side_total(catalog, geography, pairs, city, true);
    let selected = side_total(catalog, geography, pairs, city, false);
    let existing_missing = match existing {
        Err(CostError::ConfigurationError) => true,
        _ => false,
    };
    let selected_missing = match selected {
        Err(CostError::ConfigurationError) => true,
        _ => false,
    };
    if existing_missing || selected_missing {
        return Err(CostError::ConfigurationError);
    }
    match (existing, selected) {
        (Ok(e), Ok(s)) => {
            Ok((e, s))
        },
        _ => Err(CostError::CostOverflow),
    }
}

fn rollup_totals<'a>(
    catalog: &Catalog,
    geography: &Geography,
    pairs: &Vec<(Option<&'a Opt>, &'a Opt)>,
) -> (r: Result<Vec<(u128, u128)>, CostError>)
    ensures
        match city_results(*catalog, *geography, pairs_view(pairs@), spec_all_cities()) {
            Ok(s) => r is Ok && totals_view(r.unwrap()@) == s,
            Err(e) => r == Err::<Vec<(u128, u128)>, CostError>(e),
        },
        r is Ok ==> r.unwrap()@.len() == 5 && forall|k: int|
            0 <= k < 5 ==> (#[trigger] r.unwrap()@[k]).0 < COST_LIMIT && r.unwrap()@[k].1 < COST_LIMIT,
{
    let cities = City::values();
    let ghost pv = pairs_view(pairs@);
    let mut totals: Vec<(u128, u128)> = Vec::new();
    let mut failure: Option<CostError> = None;
    let mut i: usize = 0;
    proof {
        assert(cities@.take(0) =~= Seq::<City>::empty());
        assert(totals_view(totals@) =~= Seq::<(int, int)>::empty());
    }
    while i < cities.len()
        invariant
            i <= cities@.len(),
            cities@ == spec_all_cities(),
            pv == pairs_view(pairs@),
            failure is None ==> totals@.len() == i,
            forall|k: int| 0 <= k < totals@.len() ==> (#[trigger] totals@[k]).0 < COST_LIMIT && totals@[k].1 < COST_LIMIT,
            match failure {
                Some(e) => city_results(*catalog, *geography, pv, cities@.take(i as int)) == Err::<Seq<(int, int)>, CostError>(e),
                None => city_results(*catalog, *geography, pv, cities@.take(i as int)) == Ok::<Seq<(int, int)>, CostError>(totals_view(totals@)),
            },
        decreases cities@.len() - i,
    {
        proof {
            assert(cities@.take(i + 1).drop_last() =~= cities@.take(i as int));
            assert(cities@.take(i + 1).last() == cities@[i as int]);
        }
        if failure.is_none() {
            match city_totals(catalog, geography, pairs, cities[i]) {
                Err(e) => {
                    failure = Some(e);
                },
                Ok(t) => {
                    let ghost before = totals@;
                    totals.push(t);
                    proof {
                        assert(totals_view(totals@) =~= totals_view(before).push((t.0 as int, t.1 as int)));
                    }
                },
            }
        }
        i += 1;
    }
    proof {
        assert(cities@.take(i as int) =~= cities@);
    }
    match failure {
        Some(e) => Err(e),
        None => Ok(totals),
    }
}

/// The weight totals of the regions and of the group stay within `WEIGHT_SCALE`.
proof fn lemma_weight_totals()
    ensures
        weight_total(spec_cities(Region::Scandinavia), false) <= WEIGHT_SCALE,
        weight_total(spec_cities(Region::Europe), false) <= WEIGHT_SCALE,
        weight_total(spec_all_cities(), true) <= WEIGHT_SCALE,
{
    let s = spec_cities(Region::Scandinavia);
    let e = spec_cities(Region::Europe);
    let a = spec_all_cities();
    assert(s.drop_last().drop_last() =~= Seq::<City>::empty());
    assert(e.drop_last().drop_last().drop_last() =~= Seq::<City>::empty());
    assert(a.drop_last().drop_last().drop_last().drop_last().drop_last() =~= Seq::<City>::empty());
    reveal_with_fuel(weight_total, 6);
}

/// The weight total of a prefix is at most that of the whole.
proof fn lemma_weight_total_prefix(cs: Seq<City>, n: int, to_group: bool)
    requires
        0 <= n <= cs.len(),
    ensures
        0 <= weight_total(cs.take(n), to_group) <= weight_total(cs, to_group),
    decreases cs.len() - n,
{
    if n < cs.len() {
        assert(cs.take(n + 1).drop_last() =~= cs.take(n));
        lemma_weight_total_prefix(cs, n + 1, to_group);
        lemma_weight_total_nonneg(cs.take(n), to_group);
    } else {
        assert(cs.take(n) =~= cs);
        lemma_weight_total_nonneg(cs, to_group);
    }
}

proof fn lemma_weight_total_nonneg(cs: Seq<City>, to_group: bool)
    ensures
        0 <= weight_total(cs, to_group),
    decreases cs.len(),
{
    if cs.len() > 0 {
        lemma_weight_total_nonneg(cs.drop_last(), to_group);
    }
}

fn weighted_amount(cities: &Vec<City>, totals: &Vec<(u128, u128)>, to_group: bool, baseline: bool) -> (r: i32)
    requires
        totals@.len() == 5,
        forall|k: int| 0 <= k < 5 ==> (#[trigger] totals@[k]).0 < COST_LIMIT && totals@[k].1 < COST_LIMIT,
        weight_total(cities@, to_group) <= WEIGHT_SCALE,
    ensures
        r as int == weighted_amount_of(cities@, totals_view(totals@), to_group, baseline),
        0 <= r,
{
    let ghost tv = totals_view(totals@);
    let mut sum: u128 = 0;
    let mut i: usize = 0;
    while i < cities.len()
        invariant
            i <= cities@.len(),
            tv == totals_view(totals@),
            totals@.len() == 5,
            forall|k: int| 0 <= k < 5 ==> (#[trigger] totals@[k]).0 < COST_LIMIT && totals@[k].1 < COST_LIMIT,
            weight_total(cities@, to_group) <= WEIGHT_SCALE,
            sum == weighted_sum(cities@.take(i as int), tv, to_group, baseline),
            sum <= weight_total(cities@.take(i as int), to_group) * 2_147_483_647,
        decreases cities@.len() - i,
    {
        let c = cities[i];
        proof {
            assert(cities@.take(i + 1).drop_last() =~= cities@.take(i as int));
            assert(cities@.take(i + 1).last() == c);
            lemma_weight_total_prefix(cities@, i + 1, to_group);
        }
        let w: u64 = if to_group { c.weight_to_group() } else { c.weight_to_region() };
        let k = c.position();
        let t: u128 = if baseline { totals[k].0 } else { totals[k].1 };
        let amount: u128 = t / COST_SCALE;
        assert(amount <= 2_147_483_647) by (nonlinear_arith)
            requires
                amount == t / 100_000,
                t < 214_748_364_800_000,
        ;
        assert((w as int) * (amount as int) <= (w as int) * 2_147_483_647) by (nonlinear_arith)
            requires
                amount <= 2_147_483_647,
        ;
        assert(sum + (w as int) * (amount as int) <= weight_total(cities@.take(i + 1), to_group) * 2_147_483_647) by (nonlinear_arith)
            requires
                sum <= weight_total(cities@.take(i as int), to_group) * 2_147_483_647,
                weight_total(cities@.take(i + 1), to_group) == weight_total(cities@.take(i as int), to_group) + w,
                (w as int) * (amount as int) <= (w as int) * 2_147_483_647,
        ;
        assert(weight_total(cities@.take(i + 1), to_group) * 2_147_483_647 <= 1_000_000_000_000_000_000 * 2_147_483_647) by (nonlinear_arith)
            requires
                weight_total(cities@.take(i + 1), to_group) <= 1_000_000_000_000_000_000,
        ;
        sum = sum + (w as u128) * amount;
        i += 1;
    }
    proof {
        assert(cities@.take(i as int) =~= cities@);
        lemma_weight_total_nonneg(cities@, to_group);
    }
    let q: u128 = sum / (WEIGHT_SCALE as u128);
    assert(q <= 2_147_483_647) by (nonlinear_arith)
        requires
            q == sum / 1_000_000_000_000_000_000,
            sum <= weight_total(cities@, to_group) * 2_147_483_647,
            weight_total(cities@, to_group) <= 1_000_000_000_000_000_000,
            0 <= weight_total(cities@, to_group),
    ;
    q as i32
}

/// The cost report for the packages of `catalog` whose ids are in
/// `package_ids`, under the selections of `version`: the group line, then each
/// region's line followed by its cities' lines. A city's costs are its totals
/// truncated to whole units; a region's and the group's are the weighted sums of
/// those, truncated. Fails with the first error of the pairing, or of the
/// cities in report order.
pub fn calculate_summary_lines(
    catalog: &Catalog,
    geography: &Geography,
    package_ids: &[&PackageId],
    version: &Version,
) -> (r: Result<Vec<CostCalculationSummaryLine>, CostError>)
    ensures
        match summary(*catalog, *geography, package_ids@, *version) {
            Ok(lines) => r is Ok && r.unwrap()@ == lines,
            Err(e) => r == Err::<Vec<CostCalculationSummaryLine>, CostError>(e),
        },
{
    let packages = get_packages(catalog, package_ids);
    let replaced = get_replaced_comparsion_ids(packages.as_slice());
    let pairs = match get_existing_and_selected_options(packages.as_slice(), version, replaced.as_slice()) {
        Err(e) => return Err(e),
        Ok(p) => p,
    };
    let totals = match rollup_totals(catalog, geography, &pairs) {
        Err(e) => return Err(e),
        Ok(t) => t,
    };
    let ghost tv = totals_view(totals@);
    proof {
        lemma_weight_totals();
        assert(spec_all_cities() =~= spec_cities(Region::Scandinavia) + spec_cities(Region::Europe));
    }
    let all = City::values();
    let mut lines: Vec<CostCalculationSummaryLine> = Vec::new();
    lines.push(CostCalculationSummaryLine {
        scope: Scope::Group,
        existing_cost: weighted_amount(&all, &totals, true, true),
        selected_cost: weighted_amount(&all, &totals, true, false),
    });
    let regions = Region::values();
    let mut i: usize = 0;
    proof {
        assert(regions@.take(0) =~= Seq::<Region>::empty());
        assert(lines@ =~= seq![group_line(tv)] + region_lines(tv, regions@.take(0)));
    }
    while i < regions.len()
        invariant
            i <= regions@.len(),
            regions@ == spec_regions(),
            tv == totals_view(totals@),
            totals@.len() == 5,
            forall|k: int| 0 <= k < 5 ==> (#[trigger] totals@[k]).0 < COST_LIMIT && totals@[k].1 < COST_LIMIT,
            weight_total(spec_cities(Region::Scandinavia), false) <= WEIGHT_SCALE,
            weight_total(spec_cities(Region::Europe), false) <= WEIGHT_SCALE,
            lines@ == seq![group_line(tv)] + region_lines(tv, regions@.take(i as int)),
        decreases regions@.len() - i,
    {
        let region = regions[i];
        let cities = region.cities();
        let ghost before = lines@;
        lines.push(CostCalculationSummaryLine {
            scope: Scope::Region(region),
            existing_cost: weighted_amount(&cities, &totals, false, true),
            selected_cost: weighted_amount(&cities, &totals, false, false),
        });
        let mut j: usize = 0;
        proof {
            assert(lines@ =~= before.push(region_line(tv, region)) + cities@.take(0).map_values(|c: City| city_line(tv, c)));
        }
        while j < cities.len()
            invariant
                j <= cities@.len(),
                cities@ == spec_cities(region),
                tv == totals_view(totals@),
                totals@.len() == 5,
                forall|k: int| 0 <= k < 5 ==> (#[trigger] totals@[k]).0 < COST_LIMIT && totals@[k].1 < COST_LIMIT,
                lines@ == before.push(region_line(tv, region)) + cities@.take(j as int).map_values(|c: City| city_line(tv, c)),
            decreases cities@.len() - j,
        {
            let c = cities[j];
            let k = c.position();
            let (e, s) = totals[k];
            let existing_cost: u128 = e / COST_SCALE;
            let selected_cost: u128 = s / COST_SCALE;
            assert(existing_cost <= 2_147_483_647 && selected_cost <= 2_147_483_647) by (nonlinear_arith)
                requires
                    existing_cost == e / 100_000,
                    selected_cost == s / 100_000,
                    e < 214_748_364_800_000,
                    s < 214_748_364_800_000,
            ;
            let ghost lines_before = lines@;
            lines.push(CostCalculationSummaryLine {
                scope: Scope::City(c),
                existing_cost: existing_cost as i32,
                selected_cost: selected_cost as i32,
            });
            proof {
                assert(city_line(tv, c) == lines@.last());
                assert(cities@.take(j + 1).map_values(|c: City| city_line(tv, c))
                    =~= cities@.take(j as int).map_values(|c: City| city_line(tv, c)).push(city_line(tv, c)));
                assert(lines@ =~= before.push(region_line(tv, region)) + cities@.take(j + 1).map_values(|c: City| city_line(tv, c)));
            }
            j += 1;
        }
        proof {
            assert(cities@.take(j as int) =~= cities@);
            assert(regions@.take(i + 1).drop_last() =~= regions@.take(i as int));
            assert(regions@.take(i + 1).last() == region);
            assert(lines@ =~= seq![group_line(tv)] + region_lines(tv, regions@.take(i + 1)));
        }
        i += 1;
    }
    proof {
        assert(regions@.take(i as int) =~= regions@);
    }
    Ok(lines)
}

} // verus!
