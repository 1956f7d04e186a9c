use vstd::prelude::*;

verus! {

/// Identifier of a package.
#[derive(Debug, Clone, PartialEq, Eq, Hash)]
pub struct PackageId(pub String);

/// Identifier of a comparison.
#[derive(Debug, Clone, PartialEq, Eq, Hash)]
pub struct ComparisonId(pub String);

/// Identifier of an option.
#[derive(Debug, Clone, PartialEq, Eq, Hash)]
pub struct OptionId(pub String);

/// Identifier of a component.
#[derive(Debug, Clone, PartialEq, Eq, Hash)]
pub struct ComponentId(pub String);

/// Identifier of a version.
#[derive(Debug, Clone, PartialEq, Eq, Hash)]
pub struct VersionId(pub String);

/// A bundle of comparisons that a customer may opt into.
#[derive(Debug, Clone, PartialEq, Eq)]
pub struct Package {
    pub id: PackageId,
    pub title: String,
    pub comparisons: Vec<Comparison>,
}

/// A decision point: one option of `options` is chosen. When the package that
/// owns it is active, the comparisons named in `replacing` are no longer in force.
#[derive(Debug, Clone, PartialEq, Eq)]
pub struct Comparison {
    pub id: ComparisonId,
    pub title: String,
    pub options: Vec<Opt>,
    pub replacing: Vec<ComparisonId>,
}

/// One choice of a comparison; `existing` marks the baseline choice.
#[derive(Debug, Clone, PartialEq, Eq)]
pub struct Opt {
    pub id: OptionId,
    pub title: String,
    pub existing: bool,
    pub component_refs: Vec<ComponentRef>,
}

/// A reference to a component of the catalog.
#[derive(Debug, Clone, PartialEq, Eq)]
pub struct ComponentRef {
    pub component_id: ComponentId,
}

/// A customer's selections, one per comparison in force.
#[derive(Debug, Clone, PartialEq, Eq)]
pub struct Version {
    pub id: VersionId,
    pub selections: Vec<Selection>,
}

/// The option chosen for one comparison.
#[derive(Debug, Clone, PartialEq, Eq)]
pub struct Selection {
    pub package_id: PackageId,
    pub comparison_id: ComparisonId,
    pub option_id: OptionId,
}

/// A priced item. `price` is in hundredths of the monetary unit.
#[derive(Debug, Clone, PartialEq, Eq)]
pub struct Component {
    pub id: ComponentId,
    pub price: u32,
    pub category: Category,
}

/// The category of a component; multipliers are given per category and city.
#[derive(Debug, Clone, Copy, PartialEq, Eq, Structural, Hash)]
pub enum Category {
    Door,
    WallTile,
}

/// The reference data: packages, components and versions, each in catalog order.
#[derive(Debug, Clone, PartialEq, Eq)]
pub struct Catalog {
    pub packages: Vec<Package>,
    pub components: Vec<Component>,
    pub versions: Vec<Version>,
}

/// Whether `id` occurs among `ids`.
pub open spec fn package_id_listed(ids: Seq<&PackageId>, id: Seq<char>) -> bool {
    exists|k: int| 0 <= k < ids.len() && (#[trigger] ids[k]).0@ == id
}

/// Whether `id` occurs among `ids`.
pub open spec fn component_id_listed(ids: Seq<&ComponentId>, id: Seq<char>) -> bool {
    exists|k: int| 0 <= k < ids.len() && (#[trigger] ids[k]).0@ == id
}

/// The packages of `catalog` whose id is listed in `ids`, in catalog order.
pub open spec fn packages_with_ids<'a>(catalog: Seq<&'a Package>, ids: Seq<&PackageId>) -> Seq<&'a Package>
    decreases catalog.len(),
{
    if catalog.len() == 0 {
        Seq::empty()
    } else {
        let rest = packages_with_ids(catalog.drop_last(), ids);
        if package_id_listed(ids, catalog.last().id.0@) {
            rest.push(catalog.last())
        } else {
            rest
        }
    }
}

/// The components of `catalog` whose id is listed in `ids`, in catalog order.
pub open spec fn components_with_ids<'a>(catalog: Seq<&'a Component>, ids: Seq<&ComponentId>) -> Seq<&'a Component>
    decreases catalog.len(),
{
    if catalog.len() == 0 {
        Seq::empty()
    } else {
        let rest = components_with_ids(catalog.drop_last(), ids);
        if component_id_listed(ids, catalog.last().id.0@) {
            rest.push(catalog.last())
        } else {
            rest
        }
    }
}

fn package_listed(ids: &[&PackageId], id: &PackageId) -> (r: bool)
    ensures
        r == package_id_listed(ids@, id.0@),
{
    let mut k: usize = 0;
    while k < ids.len()
        invariant
            k <= ids@.len(),
            forall|m: int| 0 <= m < k ==> (#[trigger] ids@[m]).0@ != id.0@,
        decreases ids@.len() - k,
    {
        if ids[k].0 == id.0 {
            return true;
        }
        k += 1;
    }
    false
}

fn component_listed(ids: &[&ComponentId], id: &ComponentId) -> (r: bool)
    ensures
        r == component_id_listed(ids@, id.0@),
{
    let mut k: usize = 0;
    while k < ids.len()
        invariant
            k <= ids@.len(),
            forall|m: int| 0 <= m < k ==> (#[trigger] ids@[m]).0@ != id.0@,
        decreases ids@.len() - k,
    {
        if ids[k].0 == id.0 {
            return true;
        }
        k += 1;
    }
    false
}

/// The packages of the catalog whose id is in `ids`, in catalog order; unknown
/// ids are ignored.
pub fn get_packages<'a>(catalog: &'a Catalog, ids: &[&PackageId]) -> (r: Vec<&'a Package>)
    ensures
        r@ == packages_with_ids(catalog.packages@.map_values(|p: Package| &p), ids@),
{
    let ghost all = catalog.packages@.map_values(|p: Package| &p);
    let mut r: Vec<&'a Package> = Vec::new();
    let mut i: usize = 0;
    while i < catalog.packages.len()
        invariant
            i <= all.len(),
            all == catalog.packages@.map_values(|p: Package| &p),
            r@ == packages_with_ids(all.take(i as int), ids@),
        decreases all.len() - i,
    {
        let p: &'a Package = &catalog.packages[i];
        proof {
            assert(all.take(i + 1).drop_last() =~= all.take(i as int));
        }
        if package_listed(ids, &p.id) {
            r.push(p);
        }
        i += 1;
    }
    proof {
        assert(all.take(i as int) =~= all);
    }
    r
}

/// The components of the catalog whose id is in `ids`, in catalog order, each
/// once; unknown ids are ignored.
pub fn get_components<'a>(catalog: &'a Catalog, ids: &[&ComponentId]) -> (r: Vec<&'a Component>)
    ensures
        r@ == components_with_ids(catalog.components@.map_values(|c: Component| &c), ids@),
{
    let ghost all = catalog.components@.map_values(|c: Component| &c);
    let mut r: Vec<&'a Component> = Vec::new();
    let mut i: usize = 0;
    while i < catalog.components.len()
        invariant
            i <= all.len(),
            all == catalog.components@.map_values(|c: Component| &c),
            r@ == components_with_ids(all.take(i as int), ids@),
        decreases all.len() - i,
    {
        let c: &'a Component = &catalog.components[i];
        proof {
            assert(all.take(i + 1).drop_last() =~= all.take(i as int));
        }
        if component_listed(ids, &c.id) {
            r.push(c);
        }
        i += 1;
    }
    proof {
        assert(all.take(i as int) =~= all);
    }
    r
}

/// The first version of the catalog with the id `id`, if any.
pub fn get_version<'a>(catalog: &'a Catalog, id: &VersionId) -> (r: Option<&'a Version>)
    ensures
        match r {
            Some(v) => exists|k: int|
                0 <= k < catalog.versions@.len() && catalog.versions@[k] == *v
                    && v.id.0@ == id.0@
                    && forall|m: int| 0 <= m < k ==> (#[trigger] catalog.versions@[m]).id.0@ != id.0@,
            None => forall|m: int|
                0 <= m < catalog.versions@.len() ==> (#[trigger] catalog.versions@[m]).id.0@ != id.0@,
        },
{
    let mut i: usize = 0;
    while i < catalog.versions.len()
        invariant
            i <= catalog.versions@.len(),
            forall|m: int| 0 <= m < i ==> (#[trigger] catalog.versions@[m]).id.0@ != id.0@,
        decreases catalog.versions@.len() - i,
    {
        if catalog.versions[i].id.0 == id.0 {
            return Some(&catalog.versions[i]);
        }
        i += 1;
    }
    None
}

fn text(s: &str) -> String {
    s.to_string()
}

fn component_ref(id: &str) -> ComponentRef {
    ComponentRef { component_id: ComponentId(text(id)) }
}

fn option(id: &str, title: &str, existing: bool, component_refs: Vec<ComponentRef>) -> Opt {
    Opt { id: OptionId(text(id)), title: text(title), existing, component_refs }
}

fn comparison(id: &str, title: &str, options: Vec<Opt>, replacing: Vec<ComparisonId>) -> Comparison {
    Comparison { id: ComparisonId(text(id)), title: text(title), options, replacing }
}

fn selection(package_id: &str, comparison_id: &str, option_id: &str) -> Selection {
    Selection {
        package_id: PackageId(text(package_id)),
        comparison_id: ComparisonId(text(comparison_id)),
        option_id: OptionId(text(option_id)),
    }
}

fn component(id: &str, price: u32, category: Category) -> Component {
    Component { id: ComponentId(text(id)), price, category }
}

impl Catalog {
    /// The sample catalog: three packages, six components and the version `v1`.
    pub fn sample() -> (c: Catalog)
        ensures
            c.packages@.len() == 3,
            c.components@.len() == 6,
            c.versions@.len() == 1,
    {
        let base = Package {
            id: PackageId(text("package-1")),
            title: text("BASE"),
            comparisons: vec![
                comparison(
                    "comparison-1",
                    "Doors",
                    vec![
                        option("door-1", "white door", true, vec![component_ref("cr-door-1")]),
                        option("door-2", "gray door", false, vec![component_ref("cr-door-2")]),
                    ],
                    Vec::new(),
                ),
                comparison(
                    "comparison-2",
                    "Wall tiles",
                    vec![option("tiles-1", "white tiles", true, vec![component_ref("cr-tile-1")])],
                    Vec::new(),
                ),
            ],
        };
        let fancy_doors = Package {
            id: PackageId(text("package-2")),
            title: text("FANCYDOORS"),
            comparisons: vec![
                comparison(
                    "comparison-3",
                    "fancy doors",
                    vec![option("door-3", "mirror door", false, vec![component_ref("cr-door-3")])],
                    vec![ComparisonId(text("comparison-1"))],
                ),
            ],
        };
        let fancy_tiles = Package {
            id: PackageId(text("package-3")),
            title: text("FANCYTILES"),
            comparisons: vec![
                comparison(
                    "comparison-4",
                    "mosaic tiles",
                    vec![
                        option(
                            "tiles-2",
                            "mosaic tiles",
                            false,
                            vec![component_ref("cr-tile-2"), component_ref("cr-tile-3")],
                        ),
                    ],
                    vec![ComparisonId(text("comparison-2"))],
                ),
            ],
        };
        let v1 = Version {
            id: VersionId(text("v1")),
            selections: vec![
                selection("package-1", "comparison-1", "door-2"),
                selection("package-1", "comparison-2", "tiles-1"),
                selection("package-2", "comparison-3", "door-3"),
                selection("package-3", "comparison-4", "tiles-2"),
            ],
        };
        Catalog {
            packages: vec![base, fancy_doors, fancy_tiles],
            components: vec![
                component("cr-door-1", 10_000, Category::Door),
                component("cr-door-2", 11_000, Category::Door),
                component("cr-door-3", 18_000, Category::Door),
                component("cr-tile-1", 1_500, Category::WallTile),
                component("cr-tile-2", 900, Category::WallTile),
                component("cr-tile-3", 700, Category::WallTile),
            ],
            versions: vec![v1],
        }
    }
}

} // verus!
