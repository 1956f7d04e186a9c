use std::collections::HashSet;

use cost_summary::database::{
    get_packages, get_version, Catalog, ComparisonId, OptionId, PackageId, VersionId,
};
use cost_summary::portfolio::{City, Geography, Region};
use cost_summary::problem::{
    calculate_summary_lines, compute_costs_for_option_in_city, get_existing_and_selected_options,
    get_replaced_comparsion_ids, COST_SCALE,
};
use cost_summary::results::{CostCalculationSummaryLine, Scope};
use float_cmp::{ApproxEq, F32Margin};

fn as_units(cost: u128) -> f32 {
    cost as f32 / COST_SCALE as f32
}

#[test]
fn should_compute_replaced_comparison_ids() {
    let catalog = Catalog::sample();
    let pkg_id1 = PackageId("package-1".into());
    let pkg_id2 = PackageId("package-2".into());
    let values = vec![
        (vec![&pkg_id1], HashSet::new()),
        (vec![&pkg_id2], HashSet::from([ComparisonId("comparison-1".into())])),
    ];

    for (input, expectation) in values {
        let expectation: HashSet<&ComparisonId> = expectation.iter().collect();

        let packages = get_packages(&catalog, &input);
        let result: HashSet<&ComparisonId> =
            get_replaced_comparsion_ids(&packages).into_iter().collect();
        assert_eq!(result, expectation);
    }
}

#[test]
fn should_extract_the_list_of_current_and_selected_options() {
    let catalog = Catalog::sample();
    let pkg_id1 = PackageId("package-1".into());
    let pkg_ids = vec![&pkg_id1];
    let pkg = get_packages(&catalog, &pkg_ids);
    let comparison_id = ComparisonId("comparison-2".into());
    let result = get_existing_and_selected_options(
        &pkg,
        get_version(&catalog, &VersionId("v1".into())).unwrap(),
        &[&comparison_id],
    )
    .unwrap();

    let comparison = pkg[0]
        .comparisons
        .iter()
        .find(|c| c.id == ComparisonId("comparison-1".into()))
        .unwrap();
    let opt1 = comparison.options.iter().find(|o| o.id == OptionId("door-1".into())).unwrap();
    let opt2 = comparison.options.iter().find(|o| o.id == OptionId("door-2".into())).unwrap();

    assert_eq!(result, &[(Some(opt1), opt2)]);
}

#[test]
fn should_compute_the_price_of_an_option_with_a_single_component_in_a_city() {
    let catalog = Catalog::sample();
    let geography = Geography::sample();
    let ids = &[&PackageId("package-1".into())];
    let opt = get_packages(&catalog, ids)[0]
        .comparisons
        .iter()
        .find(|it| &it.id.0 == "comparison-1")
        .unwrap()
        .options
        .iter()
        .find(|it| &it.id.0 == "door-1")
        .unwrap();
    let result = compute_costs_for_option_in_city(&catalog, &geography, opt, City::Berlin).unwrap();

    assert!(as_units(result).approx_eq(150.0, F32Margin { epsilon: 0.00001, ulps: 0 }));
}

#[test]
fn should_compute_the_price_of_an_option_with_multiple_component_in_a_city() {
    let catalog = Catalog::sample();
    let geography = Geography::sample();
    let ids = &[&PackageId("package-3".into())];
    let opt = get_packages(&catalog, ids)[0]
        .comparisons
        .iter()
        .find(|it| &it.id.0 == "comparison-4")
        .unwrap()
        .options
        .iter()
        .find(|it| &it.id.0 == "tiles-2")
        .unwrap();
    let result =
        compute_costs_for_option_in_city(&catalog, &geography, opt, City::Stockholm).unwrap();

    assert!(as_units(result).approx_eq(115.2, F32Margin { epsilon: 0.00001, ulps: 0 }));
}

fn line(scope: Scope, existing_cost: i32, selected_cost: i32) -> CostCalculationSummaryLine {
    CostCalculationSummaryLine { scope, existing_cost, selected_cost }
}

#[test]
fn should_calculate_cost_summary_lines_with_package_1_and_v1() {
    let catalog = Catalog::sample();
    let geography = Geography::sample();
    let result = calculate_summary_lines(
        &catalog,
        &geography,
        &[&PackageId("package-1".into())],
        get_version(&catalog, &VersionId("v1".into())).unwrap(),
    )
    .unwrap();

    let expectation = vec![
        line(Scope::Group, 162, 172),
        line(Scope::Region(Region::Scandinavia), 256, 272),
        line(Scope::City(City::Stockholm), 308, 328),
        line(Scope::City(City::Malmo), 247, 262),
        line(Scope::Region(Region::Europe), 201, 213),
        line(Scope::City(City::Berlin), 244, 259),
        line(Scope::City(City::Hamburg), 234, 249),
        line(Scope::City(City::Munich), 232, 247),
    ];

    assert_eq!(result, expectation);
}

#[test]
fn should_calculate_cost_summary_lines_with_all_packages_and_v1() {
    let catalog = Catalog::sample();
    let geography = Geography::sample();
    let result = calculate_summary_lines(
        &catalog,
        &geography,
        &[
            &PackageId("package-1".into()),
            &PackageId("package-2".into()),
            &PackageId("package-3".into()),
        ],
        get_version(&catalog, &VersionId("v1".into())).unwrap(),
    )
    .unwrap();

    let expectation = vec![
        line(Scope::Group, 0, 248),
        line(Scope::Region(Region::Scandinavia), 0, 393),
        line(Scope::City(City::Stockholm), 0, 475),
        line(Scope::City(City::Malmo), 0, 374),
        line(Scope::Region(Region::Europe), 0, 306),
        line(Scope::City(City::Berlin), 0, 370),
        line(Scope::City(City::Hamburg), 0, 359),
        line(Scope::City(City::Munich), 0, 358),
    ];

    assert_eq!(result, expectation);
}
