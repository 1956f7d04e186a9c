use vstd::prelude::*;

use crate::database::Category;
use crate::results::CostError;

verus! {

/// Denominator of the city weights: a weight `w` stands for `w / WEIGHT_SCALE`.
pub const WEIGHT_SCALE: u64 = 1_000_000_000_000_000_000;

/// A region of the group.
#[derive(Debug, Clone, Copy, PartialEq, Eq, Structural, Hash)]
pub enum Region {
    Scandinavia,
    Europe,
}

/// A city; each belongs to one region.
#[derive(Debug, Clone, Copy, PartialEq, Eq, Structural, Hash)]
pub enum City {
    Stockholm,
    Malmo,
    Berlin,
    Hamburg,
    Munich,
}

/// The regions, in report order.
pub open spec fn spec_regions() -> Seq<Region> {
    seq![Region::Scandinavia, Region::Europe]
}

/// The cities of `r`, in report order.
pub open spec fn spec_cities(r: Region) -> Seq<City> {
    match r {
        Region::Scandinavia => seq![City::Stockholm, City::Malmo],
        Region::Europe => seq![City::Berlin, City::Hamburg, City::Munich],
    }
}

/// Every city, region by region.
pub open spec fn spec_all_cities() -> Seq<City> {
    spec_cities(Region::Scandinavia) + spec_cities(Region::Europe)
}

/// The position of `c` in `spec_all_cities()`.
pub open spec fn city_index(c: City) -> int {
    match c {
        City::Stockholm => 0,
        City::Malmo => 1,
        City::Berlin => 2,
        City::Hamburg => 3,
        City::Munich => 4,
    }
}

/// The weight of a city within its region, over `WEIGHT_SCALE`.
pub open spec fn spec_weight_to_region(c: City) -> u64 {
    match c {
        City::Stockholm => 537_085_792_101_679_500,
        City::Malmo => 369_314_571_039_491_600,
        City::Berlin => 615_462_243_868_193_600,
        City::Hamburg => 190_777_061_120_617_800,
        City::Munich => 27_554_736_518_801_280,
    }
}

/// The weight of a city within the group, over `WEIGHT_SCALE`.
pub open spec fn spec_weight_to_group(c: City) -> u64 {
    match c {
        City::Stockholm => 129_805_160_610_847_820,
        City::Malmo => 89_257_503_949_447_080,
        City::Berlin => 307_771_634_193_435_100,
        City::Hamburg => 95_401_088_292_083_550,
        City::Munich => 13_779_182_025_627_524,
    }
}

impl Region {
    /// The cities of this region, in report order.
    pub fn cities(&self) -> (r: Vec<City>)
        ensures
            r@ == spec_cities(*self),
    {
        let r = match self {
            Region::Scandinavia => vec![City::Stockholm, City::Malmo],
            Region::Europe => vec![City::Berlin, City::Hamburg, City::Munich],
        };
        proof {
            assert(r@ =~= spec_cities(*self));
        }
        r
    }

    /// Every region, in report order.
    pub fn values() -> (r: Vec<Region>)
        ensures
            r@ == spec_regions(),
    {
        let r = vec![Region::Scandinavia, Region::Europe];
        proof {
            assert(r@ =~= spec_regions());
        }
        r
    }
}

impl City {
    /// Every city, region by region, in report order.
    pub fn values() -> (r: Vec<City>)
        ensures
            r@ == spec_all_cities(),
    {
        let r = vec![City::Stockholm, City::Malmo, City::Berlin, City::Hamburg, City::Munich];
        proof {
            assert(r@ =~= spec_all_cities());
        }
        r
    }

    /// The region that this city belongs to.
    pub fn region(&self) -> (r: Region)
        ensures
            spec_cities(r).contains(*self),
    {
        let r = match self {
            City::Stockholm | City::Malmo => Region::Scandinavia,
            City::Berlin | City::Hamburg | City::Munich => Region::Europe,
        };
        proof {
            assert(spec_cities(r)[city_index(*self) - if r == Region::Scandinavia { 0int } else { 2int }] == *self);
        }
        r
    }

    /// The position of this city in `City::values()`.
    pub fn position(&self) -> (r: usize)
        ensures
            r == city_index(*self),
            spec_all_cities()[r as int] == *self,
    {
        match self {
            City::Stockholm => 0,
            City::Malmo => 1,
            City::Berlin => 2,
            City::Hamburg => 3,
            City::Munich => 4,
        }
    }

    /// The weight of this city within its region, over `WEIGHT_SCALE`.
    pub fn weight_to_region(&self) -> (r: u64)
        ensures
            r == spec_weight_to_region(*self),
    {
        match self {
            City::Stockholm => 537_085_792_101_679_500,
            City::Malmo => 369_314_571_039_491_600,
            City::Berlin => 615_462_243_868_193_600,
            City::Hamburg => 190_777_061_120_617_800,
            City::Munich => 27_554_736_518_801_280,
        }
    }

    /// The weight of this city within the group, over `WEIGHT_SCALE`.
    pub fn weight_to_group(&self) -> (r: u64)
        ensures
            r == spec_weight_to_group(*self),
    {
        match self {
            City::Stockholm => 129_805_160_610_847_820,
            City::Malmo => 89_257_503_949_447_080,
            City::Berlin => 307_771_634_193_435_100,
            City::Hamburg => 95_401_088_292_083_550,
            City::Munich => 13_779_182_025_627_524,
        }
    }
}

/// The price multiplier of one category in one city, in thousandths.
#[derive(Debug, Clone, Copy, PartialEq, Eq, Structural)]
pub struct Multiplier {
    pub category: Category,
    pub city: City,
    pub factor: u32,
}

/// The geography reference data: the per-category, per-city multipliers.
#[derive(Debug, Clone, PartialEq, Eq)]
pub struct Geography {
    pub multipliers: Vec<Multiplier>,
}

/// The factor of the first entry of `table` for `category` and `city`.
pub open spec fn multiplier_of(table: Seq<Multiplier>, category: Category, city: City) -> Option<u32>
    decreases table.len(),
{
    if table.len() == 0 {
        None
    } else {
        match multiplier_of(table.drop_last(), category, city) {
            Some(f) => Some(f),
            None => if table.last().category == category && table.last().city == city {
                Some(table.last().factor)
            } else {
                None
            },
        }
    }
}

/// The multiplier of the sample geography for `cat` in `city`, in thousandths.
pub open spec fn sample_factor(cat: Category, city: City) -> u32 {
    match cat {
        Category::Door => match city {
            City::Stockholm => 2000,
            _ => 1500,
        },
        Category::WallTile => match city {
            City::Stockholm => 7200,
            City::Malmo => 6500,
            City::Berlin => 6300,
            City::Hamburg => 5600,
            City::Munich => 5500,
        },
    }
}

/// The entry of the sample geography for `cat` in `city`.
pub open spec fn sample_multiplier(cat: Category, city: City) -> Multiplier {
    Multiplier { category: cat, city, factor: sample_factor(cat, city) }
}

/// The multipliers of the sample geography for one category, one per city in
/// report order.
pub fn components_in_cities(cat: &Category) -> (r: Vec<Multiplier>)
    ensures
        r@ == spec_all_cities().map_values(|c: City| sample_multiplier(*cat, c)),
{
    let c = *cat;
    let factors: [u32; 5] = match cat {
        Category::Door => [2000, 1500, 1500, 1500, 1500],
        Category::WallTile => [7200, 6500, 6300, 5600, 5500],
    };
    let r = vec![
        Multiplier { category: c, city: City::Stockholm, factor: factors[0] },
        Multiplier { category: c, city: City::Malmo, factor: factors[1] },
        Multiplier { category: c, city: City::Berlin, factor: factors[2] },
        Multiplier { category: c, city: City::Hamburg, factor: factors[3] },
        Multiplier { category: c, city: City::Munich, factor: factors[4] },
    ];
    proof {
        assert(r@ =~= spec_all_cities().map_values(|c: City| sample_multiplier(*cat, c)));
    }
    r
}

impl Geography {
    /// The sample geography: a multiplier for every category in every city, the
    /// door multipliers first.
    pub fn sample() -> (g: Geography)
        ensures
            g.multipliers@ == spec_all_cities().map_values(|c: City| sample_multiplier(Category::Door, c))
                + spec_all_cities().map_values(|c: City| sample_multiplier(Category::WallTile, c)),
    {
        let mut multipliers = components_in_cities(&Category::Door);
        let mut tiles = components_in_cities(&Category::WallTile);
        multipliers.append(&mut tiles);
        Geography { multipliers }
    }

    /// Whether the table has a multiplier for every category in every city.
    pub fn is_complete(&self) -> (r: bool)
        ensures
            r == forall|category: Category, city: City| #[trigger] multiplier_of(self.multipliers@, category, city) is Some,
    {
        let categories = vec![Category::Door, Category::WallTile];
        let cities = City::values();
        let mut i: usize = 0;
        while i < categories.len()
            invariant
                i <= categories@.len(),
                categories@ == seq![Category::Door, Category::WallTile],
                cities@ == spec_all_cities(),
                forall|k: int, city: City| 0 <= k < i ==> #[trigger] multiplier_of(self.multipliers@, categories@[k], city) is Some,
            decreases categories@.len() - i,
        {
            let mut j: usize = 0;
            while j < cities.len()
                invariant
                    i < categories@.len(),
                    j <= cities@.len(),
                    categories@ == seq![Category::Door, Category::WallTile],
                    cities@ == spec_all_cities(),
                    forall|m: int| 0 <= m < j ==> #[trigger] multiplier_of(self.multipliers@, categories@[i as int], cities@[m]) is Some,
                decreases cities@.len() - j,
            {
                if self.multiplier(categories[i], cities[j]).is_err() {
                    return false;
                }
                j += 1;
            }
            proof {
                assert forall|city: City| #[trigger] multiplier_of(self.multipliers@, categories@[i as int], city) is Some by {
                    assert(cities@[city_index(city)] == city);
                }
            }
            i += 1;
        }
        proof {
            assert forall|category: Category, city: City| #[trigger] multiplier_of(self.multipliers@, category, city) is Some by {
                let k: int = if category == Category::Door { 0 } else { 1 };
                assert(categories@[k] == category);
            }
        }
        true
    }

    /// The multiplier of `category` in `city`, in thousandths.
    pub fn multiplier(&self, category: Category, city: City) -> (r: Result<u32, CostError>)
        ensures
            match multiplier_of(self.multipliers@, category, city) {
                Some(f) => r == Ok::<u32, CostError>(f),
                None => r == Err::<u32, CostError>(CostError::ConfigurationError),
            },
    {
        let mut found: Option<u32> = None;
        let mut i: usize = 0;
        while i < self.multipliers.len()
            invariant
                i <= self.multipliers@.len(),
                found == multiplier_of(self.multipliers@.take(i as int), category, city),
            decreases self.multipliers@.len() - i,
        {
            proof {
                assert(self.multipliers@.take(i + 1).drop_last() =~= self.multipliers@.take(i as int));
            }
            let m = self.multipliers[i];
            if found.is_none() && m.category == category && m.city == city {
                found = Some(m.factor);
            }
            i += 1;
        }
        proof {
            assert(self.multipliers@.take(i as int) =~= self.multipliers@);
        }
        match found {
            Some(f) => Ok(f),
            None => Err(CostError::ConfigurationError),
        }
    }
}

} // verus!
