use cost_summary::database::{
    get_components, get_packages, get_version, Catalog, Category, Comparison, ComparisonId,
    Component, ComponentId, ComponentRef, Opt, OptionId, Package, PackageId, Selection, Version,
    VersionId,
};
use cost_summary::portfolio::{components_in_cities, City, Geography, Multiplier, Region};
use cost_summary::problem::{
    calculate_summary_lines, compute_costs_for_option_in_city, get_existing_and_selected_options,
    get_replaced_comparsion_ids, COST_SCALE,
};
use cost_summary::results::{CostError, Scope};

fn v1(catalog: &Catalog) -> &Version {
    get_version(catalog, &VersionId("v1".into())).unwrap()
}

fn selection(package: &str, comparison: &str, option: &str) -> Selection {
    Selection {
        package_id: PackageId(package.into()),
        comparison_id: ComparisonId(comparison.into()),
        option_id: OptionId(option.into()),
    }
}

#[test]
fn replaced_ids_of_all_packages() {
    let catalog = Catalog::sample();
    let ids = [
        &PackageId("package-1".into()),
        &PackageId("package-2".into()),
        &PackageId("package-3".into()),
    ];
    let packages = get_packages(&catalog, &ids);
    let replaced: Vec<&str> =
        get_replaced_comparsion_ids(&packages).iter().map(|c| c.0.as_str()).collect();
    assert_eq!(replaced, vec!["comparison-1", "comparison-2"]);
}

#[test]
fn unknown_package_ids_are_ignored() {
    let catalog = Catalog::sample();
    let ids = [&PackageId("package-3".into()), &PackageId("nope".into()), &PackageId("package-1".into())];
    let packages = get_packages(&catalog, &ids);
    let found: Vec<&str> = packages.iter().map(|p| p.id.0.as_str()).collect();
    assert_eq!(found, vec!["package-1", "package-3"]);
    assert!(get_version(&catalog, &VersionId("v2".into())).is_none());
}

#[test]
fn components_come_in_catalog_order_once_each() {
    let catalog = Catalog::sample();
    let a = ComponentId("cr-tile-3".into());
    let b = ComponentId("cr-door-1".into());
    let c = ComponentId("missing".into());
    let found = get_components(&catalog, &[&a, &b, &c, &a]);
    let ids: Vec<&str> = found.iter().map(|c| c.id.0.as_str()).collect();
    assert_eq!(ids, vec!["cr-door-1", "cr-tile-3"]);
}

#[test]
fn pairing_uses_the_selection_of_each_comparison() {
    let catalog = Catalog::sample();
    let ids = [&PackageId("package-1".into())];
    let packages = get_packages(&catalog, &ids);
    let pairs = get_existing_and_selected_options(&packages, v1(&catalog), &[]).unwrap();
    let named: Vec<(Option<&str>, &str)> = pairs
        .iter()
        .map(|(b, s)| (b.map(|o| o.title.as_str()), s.title.as_str()))
        .collect();
    assert_eq!(named, vec![(Some("white door"), "gray door"), (Some("white tiles"), "white tiles")]);
}

#[test]
fn a_new_comparison_has_no_baseline() {
    let catalog = Catalog::sample();
    let ids = [&PackageId("package-2".into())];
    let packages = get_packages(&catalog, &ids);
    let pairs = get_existing_and_selected_options(&packages, v1(&catalog), &[]).unwrap();
    assert_eq!(pairs.len(), 1);
    assert!(pairs[0].0.is_none());
    assert_eq!(pairs[0].1.id.0, "door-3");
}

#[test]
fn a_missing_selection_is_an_invalid_version() {
    let catalog = Catalog::sample();
    let ids = [&PackageId("package-1".into())];
    let packages = get_packages(&catalog, &ids);
    let version = Version {
        id: VersionId("partial".into()),
        selections: vec![selection("package-1", "comparison-1", "door-2")],
    };
    let result = get_existing_and_selected_options(&packages, &version, &[]);
    assert_eq!(result, Err(CostError::InvalidVersion));
}

#[test]
fn two_selections_for_one_comparison_are_an_invalid_version() {
    let catalog = Catalog::sample();
    let ids = [&PackageId("package-1".into())];
    let version = Version {
        id: VersionId("twice".into()),
        selections: vec![
            selection("package-1", "comparison-1", "door-2"),
            selection("package-1", "comparison-1", "door-1"),
            selection("package-1", "comparison-2", "tiles-1"),
        ],
    };
    let geography = Geography::sample();
    let result = calculate_summary_lines(&catalog, &geography, &ids, &version);
    assert_eq!(result, Err(CostError::InvalidVersion));
}

#[test]
fn a_selection_of_a_foreign_option_is_an_invalid_version() {
    let catalog = Catalog::sample();
    let ids = [&PackageId("package-1".into())];
    let packages = get_packages(&catalog, &ids);
    let version = Version {
        id: VersionId("foreign".into()),
        selections: vec![
            selection("package-1", "comparison-1", "tiles-1"),
            selection("package-1", "comparison-2", "tiles-1"),
        ],
    };
    let result = get_existing_and_selected_options(&packages, &version, &[]);
    assert_eq!(result, Err(CostError::InvalidVersion));
}

#[test]
fn pricing_in_exact_cost_units() {
    let catalog = Catalog::sample();
    let geography = Geography::sample();
    let ids = [&PackageId("package-3".into())];
    let packages = get_packages(&catalog, &ids);
    let mosaic = &packages[0].comparisons[0].options[0];
    let cost = compute_costs_for_option_in_city(&catalog, &geography, mosaic, City::Stockholm).unwrap();
    assert_eq!(cost, 11_520_000);
    assert_eq!(cost / COST_SCALE, 115);
}

#[test]
fn an_option_without_components_costs_nothing() {
    let catalog = Catalog::sample();
    let geography = Geography::sample();
    let bare = Opt {
        id: OptionId("bare".into()),
        title: "bare".into(),
        existing: false,
        component_refs: vec![],
    };
    let cost = compute_costs_for_option_in_city(&catalog, &geography, &bare, City::Munich);
    assert_eq!(cost, Ok(0));
}

#[test]
fn a_missing_multiplier_is_a_configuration_error() {
    let catalog = Catalog::sample();
    let geography = Geography { multipliers: components_in_cities(&Category::Door) };
    let ids = [&PackageId("package-1".into())];
    let packages = get_packages(&catalog, &ids);
    let tiles = &packages[0].comparisons[1].options[0];
    let door = &packages[0].comparisons[0].options[0];
    assert_eq!(
        compute_costs_for_option_in_city(&catalog, &geography, tiles, City::Berlin),
        Err(CostError::ConfigurationError)
    );
    assert_eq!(
        compute_costs_for_option_in_city(&catalog, &geography, door, City::Berlin).map(|c| c / COST_SCALE),
        Ok(150)
    );
    let result = calculate_summary_lines(&catalog, &geography, &ids, v1(&catalog));
    assert_eq!(result, Err(CostError::ConfigurationError));
}

#[test]
fn the_first_multiplier_entry_counts() {
    let geography = Geography {
        multipliers: vec![
            Multiplier { category: Category::Door, city: City::Malmo, factor: 3000 },
            Multiplier { category: Category::Door, city: City::Malmo, factor: 1000 },
        ],
    };
    assert_eq!(geography.multiplier(Category::Door, City::Malmo), Ok(3000));
    assert_eq!(geography.multiplier(Category::WallTile, City::Malmo), Err(CostError::ConfigurationError));
}

#[test]
fn a_total_beyond_the_report_range_is_an_overflow() {
    let catalog = Catalog {
        packages: vec![Package {
            id: PackageId("big".into()),
            title: "big".into(),
            comparisons: vec![Comparison {
                id: ComparisonId("c".into()),
                title: "c".into(),
                options: vec![Opt {
                    id: OptionId("o".into()),
                    title: "o".into(),
                    existing: false,
                    component_refs: (0..200).map(|k| ComponentRef { component_id: ComponentId(format!("x{}", k)) }).collect(),
                }],
                replacing: vec![],
            }],
        }],
        components: (0..200)
            .map(|k| Component { id: ComponentId(format!("x{}", k)), price: u32::MAX, category: Category::Door })
            .collect(),
        versions: vec![],
    };
    let version = Version { id: VersionId("v".into()), selections: vec![selection("big", "c", "o")] };
    let ids = [&PackageId("big".into())];
    let result = calculate_summary_lines(&catalog, &Geography::sample(), &ids, &version);
    assert_eq!(result, Err(CostError::CostOverflow));
}

#[test]
fn running_twice_gives_the_same_report() {
    let catalog = Catalog::sample();
    let geography = Geography::sample();
    let ids = [&PackageId("package-1".into()), &PackageId("package-3".into())];
    let first = calculate_summary_lines(&catalog, &geography, &ids, v1(&catalog));
    let second = calculate_summary_lines(&catalog, &geography, &ids, v1(&catalog));
    assert!(first.is_ok());
    assert_eq!(first, second);
}

#[test]
fn report_lines_follow_the_fixed_order() {
    let catalog = Catalog::sample();
    let geography = Geography::sample();
    let ids = [&PackageId("package-2".into()), &PackageId("package-1".into())];
    let lines = calculate_summary_lines(&catalog, &geography, &ids, v1(&catalog)).unwrap();
    let scopes: Vec<Scope> = lines.iter().map(|l| l.scope).collect();
    assert_eq!(
        scopes,
        vec![
            Scope::Group,
            Scope::Region(Region::Scandinavia),
            Scope::City(City::Stockholm),
            Scope::City(City::Malmo),
            Scope::Region(Region::Europe),
            Scope::City(City::Berlin),
            Scope::City(City::Hamburg),
            Scope::City(City::Munich),
        ]
    );
}

#[test]
fn city_costs_are_truncated_not_rounded() {
    let catalog = Catalog::sample();
    let geography = Geography::sample();
    let ids = [&PackageId("package-1".into())];
    let lines = calculate_summary_lines(&catalog, &geography, &ids, v1(&catalog)).unwrap();
    // Malmo: 150.0 + 97.5 = 247.5 and 165.0 + 97.5 = 262.5.
    assert_eq!(lines[3].scope, Scope::City(City::Malmo));
    assert_eq!((lines[3].existing_cost, lines[3].selected_cost), (247, 262));
    // Munich: 150.0 + 82.5 = 232.5.
    assert_eq!((lines[7].existing_cost, lines[7].selected_cost), (232, 247));
}

#[test]
fn regions_and_weights() {
    assert_eq!(Region::values(), vec![Region::Scandinavia, Region::Europe]);
    assert_eq!(Region::Europe.cities(), vec![City::Berlin, City::Hamburg, City::Munich]);
    assert_eq!(City::values().len(), 5);
    assert_eq!(City::Munich.position(), 4);
    assert_eq!(City::Stockholm.weight_to_region(), 537_085_792_101_679_500);
    assert_eq!(City::Munich.weight_to_group(), 13_779_182_025_627_524);
}

#[test]
fn completeness_of_the_multiplier_table() {
    assert!(Geography::sample().is_complete());
    let doors_only = Geography { multipliers: components_in_cities(&Category::Door) };
    assert!(!doors_only.is_complete());
    assert_eq!(doors_only.multipliers.len(), 5);
    assert_eq!(Geography::sample().multiplier(Category::WallTile, City::Hamburg), Ok(5600));
}

#[test]
fn each_city_lies_in_its_region() {
    for region in Region::values() {
        for city in region.cities() {
            assert_eq!(city.region(), region);
        }
    }
}
