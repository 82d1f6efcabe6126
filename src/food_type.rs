//! Food categories and coffee brands, with their display names and upstream pages.

use vstd::prelude::*;

use crate::error::{Error, ErrorView};
use crate::text::same_text;

verus! {

/// A brand of coffee served at a restaurant.
#[derive(Clone, Copy, Debug, PartialEq, Eq, Structural, Hash, PartialOrd, Ord)]
pub enum CoffeeBrand {
    Marley,
    Rejuvenate,
    Starbucks,
    TimHortons,
    Williams,
}

/// The kind of food served at a restaurant. `Coffee(None)` stands for any
/// brand of coffee, `Coffee(Some(b))` for brand `b` only.
#[derive(Clone, Copy, Debug, PartialEq, Eq, Structural, Hash, PartialOrd, Ord)]
pub enum FoodType {
    Breakfast,
    Coffee(Option<CoffeeBrand>),
    Convenience,
    Dessert,
    GlutenFree,
    Grill,
    Halal,
    Kosher,
    Noodles,
    Pasta,
    Pizza,
    Sandwiches,
    Snacks,
    Soup,
    Sushi,
    Vegetarian,
}

/// The display name of a coffee brand.
pub open spec fn brand_name(b: CoffeeBrand) -> Seq<char> {
    match b {
        CoffeeBrand::Marley => "Marley"@,
        CoffeeBrand::Rejuvenate => "Rejuvenate"@,
        CoffeeBrand::Starbucks => "Starbucks"@,
        CoffeeBrand::TimHortons => "Tim Hortons"@,
        CoffeeBrand::Williams => "Williams"@,
    }
}

/// The display name of a food type; a specific coffee brand is written in
/// parentheses after the word "Coffee".
pub open spec fn food_type_name(t: FoodType) -> Seq<char> {
    match t {
        FoodType::Breakfast => "Breakfast"@,
        FoodType::Coffee(None) => "Coffee"@,
        FoodType::Coffee(Some(b)) => "Coffee ("@ + brand_name(b) + ")"@,
        FoodType::Convenience => "Convenience"@,
        FoodType::Dessert => "Dessert"@,
        FoodType::GlutenFree => "Gluten Free"@,
        FoodType::Grill => "Grill"@,
        FoodType::Halal => "Halal"@,
        FoodType::Kosher => "Kosher"@,
        FoodType::Noodles => "Noodles"@,
        FoodType::Pasta => "Pasta"@,
        FoodType::Pizza => "Pizza"@,
        FoodType::Sandwiches => "Sandwiches"@,
        FoodType::Snacks => "Snacks"@,
        FoodType::Soup => "Soup"@,
        FoodType::Sushi => "Sushi"@,
        FoodType::Vegetarian => "Vegetarian"@,
    }
}

/// The coffee brand whose display name is exactly `s`, if there is one.
pub open spec fn brand_from_name(s: Seq<char>) -> Option<CoffeeBrand> {
    if exists|b: CoffeeBrand| brand_name(b) == s {
        Some(choose|b: CoffeeBrand| brand_name(b) == s)
    } else {
        None
    }
}

/// The food type whose display name is exactly `s`, if there is one.
pub open spec fn food_type_from_name(s: Seq<char>) -> Option<FoodType> {
    if exists|t: FoodType| food_type_name(t) == s {
        Some(choose|t: FoodType| food_type_name(t) == s)
    } else {
        None
    }
}

proof fn lemma_brand_name_injective(a: CoffeeBrand, b: CoffeeBrand)
    ensures
        brand_name(a) == brand_name(b) ==> a == b,
{
    reveal_strlit("Marley");
    reveal_strlit("Rejuvenate");
    reveal_strlit("Starbucks");
    reveal_strlit("Tim Hortons");
    reveal_strlit("Williams");
    if brand_name(a) == brand_name(b) && a != b {
        assert(brand_name(a)[0] == brand_name(b)[0]);
    }
}


proof fn lemma_food_type_name_injective(a: FoodType, b: FoodType)
    ensures
        food_type_name(a) == food_type_name(b) ==> a == b,
{
    reveal_strlit("Marley");
    reveal_strlit("Rejuvenate");
    reveal_strlit("Starbucks");
    reveal_strlit("Tim Hortons");
    reveal_strlit("Williams");
    reveal_strlit("Breakfast");
    reveal_strlit("Coffee");
    reveal_strlit("Coffee (");
    reveal_strlit(")");
    reveal_strlit("Convenience");
    reveal_strlit("Dessert");
    reveal_strlit("Gluten Free");
    reveal_strlit("Grill");
    reveal_strlit("Halal");
    reveal_strlit("Kosher");
    reveal_strlit("Noodles");
    reveal_strlit("Pasta");
    reveal_strlit("Pizza");
    reveal_strlit("Sandwiches");
    reveal_strlit("Snacks");
    reveal_strlit("Soup");
    reveal_strlit("Sushi");
    reveal_strlit("Vegetarian");
    if food_type_name(a) == food_type_name(b) && a != b {
        let na = food_type_name(a);
        let nb = food_type_name(b);
        assert(na.len() == nb.len());
        assert(na[0] == nb[0]);
        assert(na[1] == nb[1]);
        assert(na[2] == nb[2]);
        if let FoodType::Coffee(Some(x)) = a {
            if let FoodType::Coffee(Some(y)) = b {
                assert(na[8] == nb[8]);
                assert(na[8] == brand_name(x)[0]);
                assert(nb[8] == brand_name(y)[0]);
                assert(false);
            }
        }
    }
}


/// Formatting a coffee brand and parsing the text back gives the same brand.
pub proof fn lemma_brand_round_trip(b: CoffeeBrand)
    ensures
        brand_from_name(brand_name(b)) == Some(b),
{
    let c = choose|c: CoffeeBrand| brand_name(c) == brand_name(b);
    lemma_brand_name_injective(c, b);
}

/// Formatting a food type and parsing the text back gives the same food type.
pub proof fn lemma_food_type_round_trip(t: FoodType)
    ensures
        food_type_from_name(food_type_name(t)) == Some(t),
{
    let c = choose|c: FoodType| food_type_name(c) == food_type_name(t);
    lemma_food_type_name_injective(c, t);
}

impl CoffeeBrand {
    /// The display name of this brand.
    pub fn name(&self) -> (r: &'static str)
        ensures
            r@ == brand_name(*self),
    {
        match self {
            CoffeeBrand::Marley => "Marley",
            CoffeeBrand::Rejuvenate => "Rejuvenate",
            CoffeeBrand::Starbucks => "Starbucks",
            CoffeeBrand::TimHortons => "Tim Hortons",
            CoffeeBrand::Williams => "Williams",
        }
    }

    /// Parses the exact display name of a brand.
    pub fn parse(s: &str) -> (r: Result<CoffeeBrand, Error>)
        ensures
            r is Ok <==> brand_from_name(s@) is Some,
            r matches Ok(b) ==> brand_from_name(s@) == Some(b),
            r matches Err(e) ==> e@ == ErrorView::EnumParse(s@),
    {
        let all = [
            CoffeeBrand::Marley,
            CoffeeBrand::Rejuvenate,
            CoffeeBrand::Starbucks,
            CoffeeBrand::TimHortons,
            CoffeeBrand::Williams,
        ];
        let mut i: usize = 0;
        while i < 5
            invariant
                i <= 5,
                all@ == seq![
                    CoffeeBrand::Marley,
                    CoffeeBrand::Rejuvenate,
                    CoffeeBrand::Starbucks,
                    CoffeeBrand::TimHortons,
                    CoffeeBrand::Williams,
                ],
                forall|k: int| 0 <= k < i ==> brand_name(#[trigger] all@[k]) != s@,
            decreases 5 - i,
        {
            let b = all[i];
            if same_text(b.name(), s) {
                proof {
                    lemma_brand_round_trip(b);
                }
                return Ok(b);
            }
            i += 1;
        }
        assert forall|b: CoffeeBrand| brand_name(b) != s@ by {
            match b {
                CoffeeBrand::Marley => assert(all@[0] == b),
                CoffeeBrand::Rejuvenate => assert(all@[1] == b),
                CoffeeBrand::Starbucks => assert(all@[2] == b),
                CoffeeBrand::TimHortons => assert(all@[3] == b),
                CoffeeBrand::Williams => assert(all@[4] == b),
            }
        }
        Err(Error::EnumParse(s.to_owned()))
    }
}


/// The food types that carry no coffee brand, in declaration order.
pub open spec fn unbranded_food_types() -> Seq<FoodType> {
    seq![
        FoodType::Breakfast,
        FoodType::Coffee(None),
        FoodType::Convenience,
        FoodType::Dessert,
        FoodType::GlutenFree,
        FoodType::Grill,
        FoodType::Halal,
        FoodType::Kosher,
        FoodType::Noodles,
        FoodType::Pasta,
        FoodType::Pizza,
        FoodType::Sandwiches,
        FoodType::Snacks,
        FoodType::Soup,
        FoodType::Sushi,
        FoodType::Vegetarian,
    ]
}

/// Whether `t` is refined by a specific coffee brand.
pub open spec fn is_branded(t: FoodType) -> bool {
    t matches FoodType::Coffee(Some(_))
}

/// The text `s` is "Coffee (", then a brand name, then ")": the brand is
/// the middle part.
proof fn lemma_branded_name_parts(s: Seq<char>, b: CoffeeBrand)
    requires
        s == "Coffee ("@ + brand_name(b) + ")"@,
    ensures
        s.len() >= 9,
        s.subrange(0, 8) == "Coffee ("@,
        s[s.len() - 1] == ')',
        s.subrange(8, s.len() - 1) == brand_name(b),
{
    reveal_strlit("Coffee (");
    reveal_strlit(")");
    reveal_strlit("Marley");
    reveal_strlit("Rejuvenate");
    reveal_strlit("Starbucks");
    reveal_strlit("Tim Hortons");
    reveal_strlit("Williams");
    assert(s.subrange(0, 8) =~= "Coffee ("@);
    assert(s.subrange(8, s.len() - 1) =~= brand_name(b));
}

impl FoodType {
    /// The display name of this food type.
    pub fn name(&self) -> (r: String)
        ensures
            r@ == food_type_name(*self),
    {
        match self {
            FoodType::Coffee(Some(b)) => {
                let r = String::from_str("Coffee (").concat(b.name()).concat(")");
                r
            },
            FoodType::Breakfast => String::from_str("Breakfast"),
            FoodType::Coffee(None) => String::from_str("Coffee"),
            FoodType::Convenience => String::from_str("Convenience"),
            FoodType::Dessert => String::from_str("Dessert"),
            FoodType::GlutenFree => String::from_str("Gluten Free"),
            FoodType::Grill => String::from_str("Grill"),
            FoodType::Halal => String::from_str("Halal"),
            FoodType::Kosher => String::from_str("Kosher"),
            FoodType::Noodles => String::from_str("Noodles"),
            FoodType::Pasta => String::from_str("Pasta"),
            FoodType::Pizza => String::from_str("Pizza"),
            FoodType::Sandwiches => String::from_str("Sandwiches"),
            FoodType::Snacks => String::from_str("Snacks"),
            FoodType::Soup => String::from_str("Soup"),
            FoodType::Sushi => String::from_str("Sushi"),
            FoodType::Vegetarian => String::from_str("Vegetarian"),
        }
    }

    /// Parses the exact display name of a food type, as produced by
    /// [`FoodType::name`]; matching is case-sensitive.
    pub fn parse(s: &str) -> (r: Result<FoodType, Error>)
        ensures
            r is Ok <==> food_type_from_name(s@) is Some,
            r matches Ok(t) ==> food_type_from_name(s@) == Some(t),
            r matches Err(e) ==> e@ == ErrorView::EnumParse(s@),
    {
        let all = [
            FoodType::Breakfast,
            FoodType::Coffee(None),
            FoodType::Convenience,
            FoodType::Dessert,
            FoodType::GlutenFree,
            FoodType::Grill,
            FoodType::Halal,
            FoodType::Kosher,
            FoodType::Noodles,
            FoodType::Pasta,
            FoodType::Pizza,
            FoodType::Sandwiches,
            FoodType::Snacks,
            FoodType::Soup,
            FoodType::Sushi,
            FoodType::Vegetarian,
        ];
        let mut i: usize = 0;
        while i < 16
            invariant
                i <= 16,
                all@ == unbranded_food_types(),
                forall|k: int| 0 <= k < i ==> food_type_name(#[trigger] all@[k]) != s@,
            decreases 16 - i,
        {
            let t = all[i];
            let name = t.name();
            if same_text(name.as_str(), s) {
                proof {
                    lemma_food_type_round_trip(t);
                }
                return Ok(t);
            }
            i += 1;
        }
        let n = s.unicode_len();
        let mut brand: Option<CoffeeBrand> = None;
        if n >= 9 && same_text(s.substring_char(0, 8), "Coffee (") && s.get_char(n - 1) == ')' {
            if let Ok(b) = CoffeeBrand::parse(s.substring_char(8, n - 1)) {
                brand = Some(b);
            }
        }
        match brand {
            Some(b) => {
                proof {
                    let m = s@.subrange(8, n - 1);
                    lemma_brand_round_trip(b);
                    let c = choose|c: CoffeeBrand| brand_name(c) == m;
                    lemma_brand_name_injective(c, b);
                    reveal_strlit(")");
                    assert(s@ =~= s@.subrange(0, 8) + m + ")"@);
                    lemma_food_type_round_trip(FoodType::Coffee(Some(b)));
                }
                Ok(FoodType::Coffee(Some(b)))
            },
            None => {
                assert forall|t: FoodType| food_type_name(t) != s@ by {
                    if let FoodType::Coffee(Some(b)) = t {
                        if food_type_name(t) == s@ {
                            lemma_branded_name_parts(s@, b);
                            lemma_brand_round_trip(b);
                        }
                    } else {
                        let k = choose|k: int| 0 <= k < 16 && all@[k] == t;
                        assert(all@[k] == t);
                    }
                }
                Err(Error::EnumParse(s.to_owned()))
            },
        }
    }
}


/// The upstream page of a coffee brand.
pub open spec fn brand_url(b: CoffeeBrand) -> Seq<char> {
    match b {
        CoffeeBrand::Marley => "https://maceats.mcmaster.ca/types/coffee/marley"@,
        CoffeeBrand::Rejuvenate => "https://maceats.mcmaster.ca/types/coffee/rejuvenate"@,
        CoffeeBrand::Starbucks => "https://maceats.mcmaster.ca/types/coffee/starbucks"@,
        CoffeeBrand::TimHortons => "https://maceats.mcmaster.ca/types/coffee/tim-hortons"@,
        CoffeeBrand::Williams => "https://maceats.mcmaster.ca/types/coffee/williams"@,
    }
}

/// The upstream page listing the restaurants of a food type; "any coffee"
/// has none.
pub open spec fn food_type_url(t: FoodType) -> Option<Seq<char>> {
    match t {
        FoodType::Breakfast => Some("https://maceats.mcmaster.ca/types/breakfast"@),
        FoodType::Coffee(None) => None,
        FoodType::Coffee(Some(b)) => Some(brand_url(b)),
        FoodType::Convenience => Some("https://maceats.mcmaster.ca/types/convenience"@),
        FoodType::Dessert => Some("https://maceats.mcmaster.ca/types/dessert"@),
        FoodType::GlutenFree => Some("https://maceats.mcmaster.ca/types/gluten-free"@),
        FoodType::Grill => Some("https://maceats.mcmaster.ca/types/grill"@),
        FoodType::Halal => Some("https://maceats.mcmaster.ca/types/halal"@),
        FoodType::Kosher => Some("https://maceats.mcmaster.ca/types/kosher"@),
        FoodType::Noodles => Some("https://maceats.mcmaster.ca/types/noodles"@),
        FoodType::Pasta => Some("https://maceats.mcmaster.ca/types/pasta"@),
        FoodType::Pizza => Some("https://maceats.mcmaster.ca/types/pizza"@),
        FoodType::Sandwiches => Some("https://maceats.mcmaster.ca/types/sandwiches"@),
        FoodType::Snacks => Some("https://maceats.mcmaster.ca/types/snacks"@),
        FoodType::Soup => Some("https://maceats.mcmaster.ca/types/soup"@),
        FoodType::Sushi => Some("https://maceats.mcmaster.ca/types/sushi"@),
        FoodType::Vegetarian => Some("https://maceats.mcmaster.ca/types/vegetarian"@),
    }
}

/// Every upstream page that lists restaurants of a food type: its own page.
/// "Any coffee" has no page of its own, so it has none; it is answered by
/// filtering every restaurant instead.
pub open spec fn food_type_urls(t: FoodType) -> Seq<Seq<char>> {
    match food_type_url(t) {
        Some(u) => seq![u],
        None => Seq::empty(),
    }
}

/// The position of a food type in declaration order, brands of coffee
/// ordered among themselves after "any coffee"; tags are kept sorted by it.
pub open spec fn food_type_rank(t: FoodType) -> nat {
    match t {
        FoodType::Breakfast => 0,
        FoodType::Coffee(None) => 1,
        FoodType::Coffee(Some(CoffeeBrand::Marley)) => 2,
        FoodType::Coffee(Some(CoffeeBrand::Rejuvenate)) => 3,
        FoodType::Coffee(Some(CoffeeBrand::Starbucks)) => 4,
        FoodType::Coffee(Some(CoffeeBrand::TimHortons)) => 5,
        FoodType::Coffee(Some(CoffeeBrand::Williams)) => 6,
        FoodType::Convenience => 7,
        FoodType::Dessert => 8,
        FoodType::GlutenFree => 9,
        FoodType::Grill => 10,
        FoodType::Halal => 11,
        FoodType::Kosher => 12,
        FoodType::Noodles => 13,
        FoodType::Pasta => 14,
        FoodType::Pizza => 15,
        FoodType::Sandwiches => 16,
        FoodType::Snacks => 17,
        FoodType::Soup => 18,
        FoodType::Sushi => 19,
        FoodType::Vegetarian => 20,
    }
}

impl CoffeeBrand {
    /// The upstream page listing the restaurants that serve this brand.
    pub fn url(&self) -> (r: String)
        ensures
            r@ == brand_url(*self),
    {
        let u = match self {
            CoffeeBrand::Marley => "https://maceats.mcmaster.ca/types/coffee/marley",
            CoffeeBrand::Rejuvenate => "https://maceats.mcmaster.ca/types/coffee/rejuvenate",
            CoffeeBrand::Starbucks => "https://maceats.mcmaster.ca/types/coffee/starbucks",
            CoffeeBrand::TimHortons => "https://maceats.mcmaster.ca/types/coffee/tim-hortons",
            CoffeeBrand::Williams => "https://maceats.mcmaster.ca/types/coffee/williams",
        };
        String::from_str(u)
    }
}

impl FoodType {
    /// The upstream page listing the restaurants of this food type. "Any
    /// coffee" has no page of its own: it is answered by filtering every
    /// restaurant.
    pub fn url(&self) -> (r: Option<String>)
        ensures
            r matches Some(u) ==> food_type_url(*self) == Some(u@),
            r is None <==> food_type_url(*self) is None,
    {
        let u = match self {
            FoodType::Coffee(None) => {
                return None;
            },
            FoodType::Coffee(Some(b)) => {
                return Some(b.url());
            },
            FoodType::Breakfast => "https://maceats.mcmaster.ca/types/breakfast",
            FoodType::Convenience => "https://maceats.mcmaster.ca/types/convenience",
            FoodType::Dessert => "https://maceats.mcmaster.ca/types/dessert",
            FoodType::GlutenFree => "https://maceats.mcmaster.ca/types/gluten-free",
            FoodType::Grill => "https://maceats.mcmaster.ca/types/grill",
            FoodType::Halal => "https://maceats.mcmaster.ca/types/halal",
            FoodType::Kosher => "https://maceats.mcmaster.ca/types/kosher",
            FoodType::Noodles => "https://maceats.mcmaster.ca/types/noodles",
            FoodType::Pasta => "https://maceats.mcmaster.ca/types/pasta",
            FoodType::Pizza => "https://maceats.mcmaster.ca/types/pizza",
            FoodType::Sandwiches => "https://maceats.mcmaster.ca/types/sandwiches",
            FoodType::Snacks => "https://maceats.mcmaster.ca/types/snacks",
            FoodType::Soup => "https://maceats.mcmaster.ca/types/soup",
            FoodType::Sushi => "https://maceats.mcmaster.ca/types/sushi",
            FoodType::Vegetarian => "https://maceats.mcmaster.ca/types/vegetarian",
        };
        Some(String::from_str(u))
    }

    /// Every upstream page listing restaurants of this food type; "any
    /// coffee" has none.
    pub fn urls(&self) -> (r: Vec<String>)
        ensures
            r@.map_values(|u: String| u@) == food_type_urls(*self),
    {
        let mut out: Vec<String> = Vec::new();
        match self.url() {
            Some(u) => {
                out.push(u);
            },
            None => {},
        }
        assert(out@.map_values(|u: String| u@) =~= food_type_urls(*self));
        out
    }

    /// The position of this food type in the order tags are stored in.
    pub fn rank(&self) -> (r: u8)
        ensures
            r as nat == food_type_rank(*self),
    {
        match self {
            FoodType::Breakfast => 0,
            FoodType::Coffee(None) => 1,
            FoodType::Coffee(Some(CoffeeBrand::Marley)) => 2,
            FoodType::Coffee(Some(CoffeeBrand::Rejuvenate)) => 3,
            FoodType::Coffee(Some(CoffeeBrand::Starbucks)) => 4,
            FoodType::Coffee(Some(CoffeeBrand::TimHortons)) => 5,
            FoodType::Coffee(Some(CoffeeBrand::Williams)) => 6,
            FoodType::Convenience => 7,
            FoodType::Dessert => 8,
            FoodType::GlutenFree => 9,
            FoodType::Grill => 10,
            FoodType::Halal => 11,
            FoodType::Kosher => 12,
            FoodType::Noodles => 13,
            FoodType::Pasta => 14,
            FoodType::Pizza => 15,
            FoodType::Sandwiches => 16,
            FoodType::Snacks => 17,
            FoodType::Soup => 18,
            FoodType::Sushi => 19,
            FoodType::Vegetarian => 20,
        }
    }
}

/// Distinct food types have distinct ranks.
pub proof fn lemma_rank_injective(a: FoodType, b: FoodType)
    ensures
        food_type_rank(a) == food_type_rank(b) ==> a == b,
{
}


impl std::str::FromStr for FoodType {
    type Err = Error;

    /// Parses the exact display name of a food type, as [`FoodType::parse`].
    fn from_str(s: &str) -> (r: Result<FoodType, Error>)
        ensures
            r is Ok <==> food_type_from_name(s@) is Some,
            r matches Ok(t) ==> food_type_from_name(s@) == Some(t),
            r matches Err(e) ==> e@ == ErrorView::EnumParse(s@),
    {
        FoodType::parse(s)
    }
}

impl std::str::FromStr for CoffeeBrand {
    type Err = Error;

    /// Parses the exact display name of a brand, as [`CoffeeBrand::parse`].
    fn from_str(s: &str) -> (r: Result<CoffeeBrand, Error>)
        ensures
            r is Ok <==> brand_from_name(s@) is Some,
            r matches Ok(b) ==> brand_from_name(s@) == Some(b),
            r matches Err(e) ==> e@ == ErrorView::EnumParse(s@),
    {
        CoffeeBrand::parse(s)
    }
}

} // verus!
