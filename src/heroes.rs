use vstd::prelude::*;
use crate::text::str_eq;

verus! {

/// Coarse role of a hero.
#[derive(Debug, Clone, Copy, PartialEq, Eq, Structural, PartialOrd, Ord, Hash)]
pub enum HeroTag {
    Carry,
    Core,
    Support,
}

/// The role given to the pair at position `tag_id`: Core, Support, Carry, Core, ...
pub open spec fn rotating_tag(tag_id: int) -> HeroTag {
    if tag_id % 3 == 0 {
        HeroTag::Core
    } else if tag_id % 3 == 1 {
        HeroTag::Support
    } else {
        HeroTag::Carry
    }
}

/// The role named by a text.
pub open spec fn tag_named(s: Seq<char>) -> Option<HeroTag> {
    if s == "Carry"@ {
        Some(HeroTag::Carry)
    } else if s == "Core"@ {
        Some(HeroTag::Core)
    } else if s == "Support"@ {
        Some(HeroTag::Support)
    } else {
        None
    }
}

impl HeroTag {
    pub fn next_tag(tag_id: usize) -> (r: HeroTag)
        ensures
            r == rotating_tag(tag_id as int),
    {
        let k = tag_id % 3;
        if k == 0 {
            HeroTag::Core
        } else if k == 1 {
            HeroTag::Support
        } else {
            HeroTag::Carry
        }
    }

    pub fn all() -> (r: Vec<HeroTag>)
        ensures
            r@ == seq![HeroTag::Carry, HeroTag::Core, HeroTag::Support],
    {
        vec![HeroTag::Carry, HeroTag::Core, HeroTag::Support]
    }

    pub fn from_str(s: &str) -> (r: Option<HeroTag>)
        ensures
            r == tag_named(s@),
    {
        if str_eq(s, "Carry") {
            Some(HeroTag::Carry)
        } else if str_eq(s, "Core") {
            Some(HeroTag::Core)
        } else if str_eq(s, "Support") {
            Some(HeroTag::Support)
        } else {
            None
        }
    }

    pub fn as_str(&self) -> (r: &'static str)
        ensures
            *self == HeroTag::Carry ==> r@ == "Carry"@,
            *self == HeroTag::Core ==> r@ == "Core"@,
            *self == HeroTag::Support ==> r@ == "Support"@,
    {
        match self {
            HeroTag::Carry => "Carry",
            HeroTag::Core => "Core",
            HeroTag::Support => "Support",
        }
    }
}

/// A selectable character, one entry of the static hero table.
#[derive(Debug, Clone, Copy, PartialEq, Eq, Structural, PartialOrd, Ord, Hash)]
pub struct Hero {
    id: u16,
}

impl Hero {
    #[verifier::type_invariant]
    spec fn in_table(self) -> bool {
        self.id < HERO_COUNT
    }

    /// Position of the hero in the alphabetical table.
    pub closed spec fn id(self) -> int {
        self.id as int
    }

    /// Name of the hero.
    pub open spec fn name(self) -> Seq<char> {
        hero_name(self.id())
    }

    /// Role of the hero.
    pub open spec fn tag_spec(self) -> HeroTag {
        hero_tag(self.id())
    }

    /// Every hero of the table, in alphabetical order of names.
    pub fn all() -> (r: Vec<Hero>)
        ensures
            r@.len() == HERO_COUNT,
            forall|i: int| 0 <= i < r@.len() ==> (#[trigger] r@[i]).id() == i,
    {
        let mut out: Vec<Hero> = Vec::new();
        let mut i: u16 = 0;
        while i < HERO_COUNT
            invariant
                i <= HERO_COUNT,
                out@.len() == i,
                forall|j: int| 0 <= j < out@.len() ==> (#[trigger] out@[j]).id() == j,
            decreases HERO_COUNT - i,
        {
            out.push(Hero { id: i });
            i = i + 1;
        }
        out
    }

    /// Every hero of the table, sorted by name.
    pub fn all_alphabetical() -> (r: Vec<Hero>)
        ensures
            r@.len() == HERO_COUNT,
            forall|i: int| 0 <= i < r@.len() ==> (#[trigger] r@[i]).id() == i,
    {
        Hero::all()
    }

    pub fn as_str(&self) -> (r: &'static str)
        ensures
            r@ == self.name(),
    {
        proof {
            use_type_invariant(self);
        }
        table_name(self.id)
    }

    pub fn tag(&self) -> (r: HeroTag)
        ensures
            r == self.tag_spec(),
    {
        proof {
            use_type_invariant(self);
        }
        table_tag(self.id)
    }

    /// Looks a hero up by its exact name.
    pub fn from_name(name: &str) -> (r: Result<Hero, HeroNameError>)
        ensures
            r is Ok ==> r->Ok_0.name() == name@ && 0 <= r->Ok_0.id() < HERO_COUNT,
            r is Err ==> (forall|i: int| 0 <= i < HERO_COUNT ==> hero_name(i) != name@)
                && r->Err_0@ == name@,
    {
        let mut i: u16 = 0;
        while i < HERO_COUNT
            invariant
                i <= HERO_COUNT,
                forall|j: int| 0 <= j < i ==> hero_name(j) != name@,
            decreases HERO_COUNT - i,
        {
            if str_eq(table_name(i), name) {
                return Ok(Hero { id: i });
            }
            i = i + 1;
        }
        Err(HeroNameError(String::from_str(name)))
    }
}

impl TryFrom<String> for Hero {
    type Error = HeroNameError;

    fn try_from(value: String) -> Result<Hero, HeroNameError> {
        Hero::from_name(value.as_str())
    }
}

impl vstd::std_specs::convert::TryFromSpecImpl<String> for Hero {
    open spec fn obeys_try_from_spec() -> bool {
        false
    }

    open spec fn try_from_spec(v: String) -> Result<Hero, HeroNameError> {
        arbitrary()
    }
}

/// Error for a name that is not in the hero table.
#[derive(Debug, Clone)]
pub struct HeroNameError(String);

impl View for HeroNameError {
    type V = Seq<char>;

    closed spec fn view(&self) -> Seq<char> {
        self.0@
    }
}

impl HeroNameError {
    /// The message shown for this error.
    pub fn to_string(&self) -> (r: String)
        ensures
            r@ == "Incorrect hero name: \""@ + self@ + "\". See `all` for list of valid names."@,
    {
        String::from_str("Incorrect hero name: \"").concat(self.0.as_str()).concat(
            "\". See `all` for list of valid names.",
        )
    }
}

/// Number of heroes in the table.
pub const HERO_COUNT: u16 = 126;

/// Name of the hero at position `id` of the table, in alphabetical order.
pub open spec fn hero_name(id: int) -> Seq<char> {
    if id == 0 {
        "Abaddon"@
    } else if id == 1 {
        "Alchemist"@
    } else if id == 2 {
        "Ancient Apparition"@
    } else if id == 3 {
        "Anti-Mage"@
    } else if id == 4 {
        "Arc Warden"@
    } else if id == 5 {
        "Axe"@
    } else if id == 6 {
        "Bane"@
    } else if id == 7 {
        "Batrider"@
    } else if id == 8 {
        "Beastmaster"@
    } else if id == 9 {
        "Bloodseeker"@
    } else if id == 10 {
        "Bounty Hunter"@
    } else if id == 11 {
        "Brewmaster"@
    } else if id == 12 {
        "Bristleback"@
    } else if id == 13 {
        "Broodmother"@
    } else if id == 14 {
        "Centaur Warrunner"@
    } else if id == 15 {
        "Chaos Knight"@
    } else if id == 16 {
        "Chen"@
    } else if id == 17 {
        "Clinkz"@
    } else if id == 18 {
        "Clockwerk"@
    } else if id == 19 {
        "Crystal Maiden"@
    } else if id == 20 {
        "Dark Seer"@
    } else if id == 21 {
        "Dark Willow"@
    } else if id == 22 {
        "Dawnbreaker"@
    } else if id == 23 {
        "Dazzle"@
    } else if id == 24 {
        "Death Prophet"@
    } else if id == 25 {
        "Disruptor"@
    } else if id == 26 {
        "Doom"@
    } else if id == 27 {
        "Dragon Knight"@
    } else if id == 28 {
        "Drow Ranger"@
    } else if id == 29 {
        "Earth Spirit"@
    } else if id == 30 {
        "Earthshaker"@
    } else if id == 31 {
        "Elder Titan"@
    } else if id == 32 {
        "Ember Spirit"@
    } else if id == 33 {
        "Enchantress"@
    } else if id == 34 {
        "Enigma"@
    } else if id == 35 {
        "Faceless Void"@
    } else if id == 36 {
        "Grimstroke"@
    } else if id == 37 {
        "Gyrocopter"@
    } else if id == 38 {
        "Hoodwink"@
    } else if id == 39 {
        "Huskar"@
    } else if id == 40 {
        "Invoker"@
    } else if id == 41 {
        "Io"@
    } else if id == 42 {
        "Jakiro"@
    } else if id == 43 {
        "Juggernaut"@
    } else if id == 44 {
        "Keeper of the Light"@
    } else if id == 45 {
        "Kez"@
    } else if id == 46 {
        "Kunkka"@
    } else if id == 47 {
        "Legion Commander"@
    } else if id == 48 {
        "Leshrac"@
    } else if id == 49 {
        "Lich"@
    } else if id == 50 {
        "Lifestealer"@
    } else if id == 51 {
        "Lina"@
    } else if id == 52 {
        "Lion"@
    } else if id == 53 {
        "Lone Druid"@
    } else if id == 54 {
        "Luna"@
    } else if id == 55 {
        "Lycan"@
    } else if id == 56 {
        "Magnus"@
    } else if id == 57 {
        "Marci"@
    } else if id == 58 {
        "Mars"@
    } else if id == 59 {
        "Medusa"@
    } else if id == 60 {
        "Meepo"@
    } else if id == 61 {
        "Mirana"@
    } else if id == 62 {
        "Monkey King"@
    } else if id == 63 {
        "Morphling"@
    } else if id == 64 {
        "Muerta"@
    } else if id == 65 {
        "Naga Siren"@
    } else if id == 66 {
        "Nature's Prophet"@
    } else if id == 67 {
        "Necrophos"@
    } else if id == 68 {
        "Night Stalker"@
    } else if id == 69 {
        "Nyx Assassin"@
    } else if id == 70 {
        "Ogre Magi"@
    } else if id == 71 {
        "Omniknight"@
    } else if id == 72 {
        "Oracle"@
    } else if id == 73 {
        "Outworld Destroyer"@
    } else if id == 74 {
        "Pangolier"@
    } else if id == 75 {
        "Phantom Assassin"@
    } else if id == 76 {
        "Phantom Lancer"@
    } else if id == 77 {
        "Phoenix"@
    } else if id == 78 {
        "Primal Beast"@
    } else if id == 79 {
        "Puck"@
    } else if id == 80 {
        "Pudge"@
    } else if id == 81 {
        "Pugna"@
    } else if id == 82 {
        "Queen of Pain"@
    } else if id == 83 {
        "Razor"@
    } else if id == 84 {
        "Riki"@
    } else if id == 85 {
        "Ringmaster"@
    } else if id == 86 {
        "Rubick"@
    } else if id == 87 {
        "Sand King"@
    } else if id == 88 {
        "Shadow Demon"@
    } else if id == 89 {
        "Shadow Fiend"@
    } else if id == 90 {
        "Shadow Shaman"@
    } else if id == 91 {
        "Silencer"@
    } else if id == 92 {
        "Skywrath Mage"@
    } else if id == 93 {
        "Slardar"@
    } else if id == 94 {
        "Slark"@
    } else if id == 95 {
        "Snapfire"@
    } else if id == 96 {
        "Sniper"@
    } else if id == 97 {
        "Spectre"@
    } else if id == 98 {
        "Spirit Breaker"@
    } else if id == 99 {
        "Storm Spirit"@
    } else if id == 100 {
        "Sven"@
    } else if id == 101 {
        "Techies"@
    } else if id == 102 {
        "Templar Assassin"@
    } else if id == 103 {
        "Terrorblade"@
    } else if id == 104 {
        "Tidehunter"@
    } else if id == 105 {
        "Timbersaw"@
    } else if id == 106 {
        "Tinker"@
    } else if id == 107 {
        "Tiny"@
    } else if id == 108 {
        "Treant Protector"@
    } else if id == 109 {
        "Troll Warlord"@
    } else if id == 110 {
        "Tusk"@
    } else if id == 111 {
        "Underlord"@
    } else if id == 112 {
        "Undying"@
    } else if id == 113 {
        "Ursa"@
    } else if id == 114 {
        "Vengeful Spirit"@
    } else if id == 115 {
        "Venomancer"@
    } else if id == 116 {
        "Viper"@
    } else if id == 117 {
        "Visage"@
    } else if id == 118 {
        "Void Spirit"@
    } else if id == 119 {
        "Warlock"@
    } else if id == 120 {
        "Weaver"@
    } else if id == 121 {
        "Windranger"@
    } else if id == 122 {
        "Winter Wyvern"@
    } else if id == 123 {
        "Witch Doctor"@
    } else if id == 124 {
        "Wraith King"@
    } else {
        "Zeus"@
    }
}

/// Role of the hero at position `id` of the table.
pub open spec fn hero_tag(id: int) -> HeroTag {
    if id == 0 {
        HeroTag::Core
    } else if id == 1 {
        HeroTag::Carry
    } else if id == 2 {
        HeroTag::Support
    } else if id == 3 {
        HeroTag::Carry
    } else if id == 4 {
        HeroTag::Carry
    } else if id == 5 {
        HeroTag::Core
    } else if id == 6 {
        HeroTag::Support
    } else if id == 7 {
        HeroTag::Core
    } else if id == 8 {
        HeroTag::Core
    } else if id == 9 {
        HeroTag::Carry
    } else if id == 10 {
        HeroTag::Support
    } else if id == 11 {
        HeroTag::Core
    } else if id == 12 {
        HeroTag::Core
    } else if id == 13 {
        HeroTag::Core
    } else if id == 14 {
        HeroTag::Core
    } else if id == 15 {
        HeroTag::Carry
    } else if id == 16 {
        HeroTag::Support
    } else if id == 17 {
        HeroTag::Carry
    } else if id == 18 {
        HeroTag::Support
    } else if id == 19 {
        HeroTag::Support
    } else if id == 20 {
        HeroTag::Core
    } else if id == 21 {
        HeroTag::Support
    } else if id == 22 {
        HeroTag::Core
    } else if id == 23 {
        HeroTag::Support
    } else if id == 24 {
        HeroTag::Core
    } else if id == 25 {
        HeroTag::Support
    } else if id == 26 {
        HeroTag::Core
    } else if id == 27 {
        HeroTag::Core
    } else if id == 28 {
        HeroTag::Carry
    } else if id == 29 {
        HeroTag::Support
    } else if id == 30 {
        HeroTag::Support
    } else if id == 31 {
        HeroTag::Support
    } else if id == 32 {
        HeroTag::Core
    } else if id == 33 {
        HeroTag::Support
    } else if id == 34 {
        HeroTag::Core
    } else if id == 35 {
        HeroTag::Carry
    } else if id == 36 {
        HeroTag::Support
    } else if id == 37 {
        HeroTag::Carry
    } else if id == 38 {
        HeroTag::Support
    } else if id == 39 {
        HeroTag::Core
    } else if id == 40 {
        HeroTag::Core
    } else if id == 41 {
        HeroTag::Support
    } else if id == 42 {
        HeroTag::Support
    } else if id == 43 {
        HeroTag::Carry
    } else if id == 44 {
        HeroTag::Support
    } else if id == 45 {
        HeroTag::Carry
    } else if id == 46 {
        HeroTag::Core
    } else if id == 47 {
        HeroTag::Core
    } else if id == 48 {
        HeroTag::Core
    } else if id == 49 {
        HeroTag::Support
    } else if id == 50 {
        HeroTag::Carry
    } else if id == 51 {
        HeroTag::Core
    } else if id == 52 {
        HeroTag::Support
    } else if id == 53 {
        HeroTag::Carry
    } else if id == 54 {
        HeroTag::Carry
    } else if id == 55 {
        HeroTag::Carry
    } else if id == 56 {
        HeroTag::Core
    } else if id == 57 {
        HeroTag::Core
    } else if id == 58 {
        HeroTag::Core
    } else if id == 59 {
        HeroTag::Carry
    } else if id == 60 {
        HeroTag::Carry
    } else if id == 61 {
        HeroTag::Support
    } else if id == 62 {
        HeroTag::Carry
    } else if id == 63 {
        HeroTag::Carry
    } else if id == 64 {
        HeroTag::Carry
    } else if id == 65 {
        HeroTag::Carry
    } else if id == 66 {
        HeroTag::Core
    } else if id == 67 {
        HeroTag::Core
    } else if id == 68 {
        HeroTag::Core
    } else if id == 69 {
        HeroTag::Support
    } else if id == 70 {
        HeroTag::Support
    } else if id == 71 {
        HeroTag::Support
    } else if id == 72 {
        HeroTag::Support
    } else if id == 73 {
        HeroTag::Core
    } else if id == 74 {
        HeroTag::Core
    } else if id == 75 {
        HeroTag::Carry
    } else if id == 76 {
        HeroTag::Carry
    } else if id == 77 {
        HeroTag::Support
    } else if id == 78 {
        HeroTag::Core
    } else if id == 79 {
        HeroTag::Core
    } else if id == 80 {
        HeroTag::Core
    } else if id == 81 {
        HeroTag::Support
    } else if id == 82 {
        HeroTag::Core
    } else if id == 83 {
        HeroTag::Core
    } else if id == 84 {
        HeroTag::Carry
    } else if id == 85 {
        HeroTag::Support
    } else if id == 86 {
        HeroTag::Support
    } else if id == 87 {
        HeroTag::Core
    } else if id == 88 {
        HeroTag::Support
    } else if id == 89 {
        HeroTag::Core
    } else if id == 90 {
        HeroTag::Support
    } else if id == 91 {
        HeroTag::Support
    } else if id == 92 {
        HeroTag::Support
    } else if id == 93 {
        HeroTag::Core
    } else if id == 94 {
        HeroTag::Carry
    } else if id == 95 {
        HeroTag::Support
    } else if id == 96 {
        HeroTag::Carry
    } else if id == 97 {
        HeroTag::Carry
    } else if id == 98 {
        HeroTag::Core
    } else if id == 99 {
        HeroTag::Core
    } else if id == 100 {
        HeroTag::Carry
    } else if id == 101 {
        HeroTag::Support
    } else if id == 102 {
        HeroTag::Core
    } else if id == 103 {
        HeroTag::Carry
    } else if id == 104 {
        HeroTag::Core
    } else if id == 105 {
        HeroTag::Core
    } else if id == 106 {
        HeroTag::Core
    } else if id == 107 {
        HeroTag::Core
    } else if id == 108 {
        HeroTag::Support
    } else if id == 109 {
        HeroTag::Carry
    } else if id == 110 {
        HeroTag::Support
    } else if id == 111 {
        HeroTag::Core
    } else if id == 112 {
        HeroTag::Support
    } else if id == 113 {
        HeroTag::Carry
    } else if id == 114 {
        HeroTag::Support
    } else if id == 115 {
        HeroTag::Support
    } else if id == 116 {
        HeroTag::Core
    } else if id == 117 {
        HeroTag::Core
    } else if id == 118 {
        HeroTag::Core
    } else if id == 119 {
        HeroTag::Support
    } else if id == 120 {
        HeroTag::Carry
    } else if id == 121 {
        HeroTag::Core
    } else if id == 122 {
        HeroTag::Support
    } else if id == 123 {
        HeroTag::Support
    } else if id == 124 {
        HeroTag::Carry
    } else {
        HeroTag::Core
    }
}

fn table_name(id: u16) -> (r: &'static str)
    requires
        id < HERO_COUNT,
    ensures
        r@ == hero_name(id as int),
{
    match id {
        0 => "Abaddon",
        1 => "Alchemist",
        2 => "Ancient Apparition",
        3 => "Anti-Mage",
        4 => "Arc Warden",
        5 => "Axe",
        6 => "Bane",
        7 => "Batrider",
        8 => "Beastmaster",
        9 => "Bloodseeker",
        10 => "Bounty Hunter",
        11 => "Brewmaster",
        12 => "Bristleback",
        13 => "Broodmother",
        14 => "Centaur Warrunner",
        15 => "Chaos Knight",
        16 => "Chen",
        17 => "Clinkz",
        18 => "Clockwerk",
        19 => "Crystal Maiden",
        20 => "Dark Seer",
        21 => "Dark Willow",
        22 => "Dawnbreaker",
        23 => "Dazzle",
        24 => "Death Prophet",
        25 => "Disruptor",
        26 => "Doom",
        27 => "Dragon Knight",
        28 => "Drow Ranger",
        29 => "Earth Spirit",
        30 => "Earthshaker",
        31 => "Elder Titan",
        32 => "Ember Spirit",
        33 => "Enchantress",
        34 => "Enigma",
        35 => "Faceless Void",
        36 => "Grimstroke",
        37 => "Gyrocopter",
        38 => "Hoodwink",
        39 => "Huskar",
        40 => "Invoker",
        41 => "Io",
        42 => "Jakiro",
        43 => "Juggernaut",
        44 => "Keeper of the Light",
        45 => "Kez",
        46 => "Kunkka",
        47 => "Legion Commander",
        48 => "Leshrac",
        49 => "Lich",
        50 => "Lifestealer",
        51 => "Lina",
        52 => "Lion",
        53 => "Lone Druid",
        54 => "Luna",
        55 => "Lycan",
        56 => "Magnus",
        57 => "Marci",
        58 => "Mars",
        59 => "Medusa",
        60 => "Meepo",
        61 => "Mirana",
        62 => "Monkey King",
        63 => "Morphling",
        64 => "Muerta",
        65 => "Naga Siren",
        66 => "Nature's Prophet",
        67 => "Necrophos",
        68 => "Night Stalker",
        69 => "Nyx Assassin",
        70 => "Ogre Magi",
        71 => "Omniknight",
        72 => "Oracle",
        73 => "Outworld Destroyer",
        74 => "Pangolier",
        75 => "Phantom Assassin",
        76 => "Phantom Lancer",
        77 => "Phoenix",
        78 => "Primal Beast",
        79 => "Puck",
        80 => "Pudge",
        81 => "Pugna",
        82 => "Queen of Pain",
        83 => "Razor",
        84 => "Riki",
        85 => "Ringmaster",
        86 => "Rubick",
        87 => "Sand King",
        88 => "Shadow Demon",
        89 => "Shadow Fiend",
        90 => "Shadow Shaman",
        91 => "Silencer",
        92 => "Skywrath Mage",
        93 => "Slardar",
        94 => "Slark",
        95 => "Snapfire",
        96 => "Sniper",
        97 => "Spectre",
        98 => "Spirit Breaker",
        99 => "Storm Spirit",
        100 => "Sven",
        101 => "Techies",
        102 => "Templar Assassin",
        103 => "Terrorblade",
        104 => "Tidehunter",
        105 => "Timbersaw",
        106 => "Tinker",
        107 => "Tiny",
        108 => "Treant Protector",
        109 => "Troll Warlord",
        110 => "Tusk",
        111 => "Underlord",
        112 => "Undying",
        113 => "Ursa",
        114 => "Vengeful Spirit",
        115 => "Venomancer",
        116 => "Viper",
        117 => "Visage",
        118 => "Void Spirit",
        119 => "Warlock",
        120 => "Weaver",
        121 => "Windranger",
        122 => "Winter Wyvern",
        123 => "Witch Doctor",
        124 => "Wraith King",
        _ => "Zeus",
    }
}

fn table_tag(id: u16) -> (r: HeroTag)
    requires
        id < HERO_COUNT,
    ensures
        r == hero_tag(id as int),
{
    match id {
        0 => HeroTag::Core,
        1 => HeroTag::Carry,
        2 => HeroTag::Support,
        3 => HeroTag::Carry,
        4 => HeroTag::Carry,
        5 => HeroTag::Core,
        6 => HeroTag::Support,
        7 => HeroTag::Core,
        8 => HeroTag::Core,
        9 => HeroTag::Carry,
        10 => HeroTag::Support,
        11 => HeroTag::Core,
        12 => HeroTag::Core,
        13 => HeroTag::Core,
        14 => HeroTag::Core,
        15 => HeroTag::Carry,
        16 => HeroTag::Support,
        17 => HeroTag::Carry,
        18 => HeroTag::Support,
        19 => HeroTag::Support,
        20 => HeroTag::Core,
        21 => HeroTag::Support,
        22 => HeroTag::Core,
        23 => HeroTag::Support,
        24 => HeroTag::Core,
        25 => HeroTag::Support,
        26 => HeroTag::Core,
        27 => HeroTag::Core,
        28 => HeroTag::Carry,
        29 => HeroTag::Support,
        30 => HeroTag::Support,
        31 => HeroTag::Support,
        32 => HeroTag::Core,
        33 => HeroTag::Support,
        34 => HeroTag::Core,
        35 => HeroTag::Carry,
        36 => HeroTag::Support,
        37 => HeroTag::Carry,
        38 => HeroTag::Support,
        39 => HeroTag::Core,
        40 => HeroTag::Core,
        41 => HeroTag::Support,
        42 => HeroTag::Support,
        43 => HeroTag::Carry,
        44 => HeroTag::Support,
        45 => HeroTag::Carry,
        46 => HeroTag::Core,
        47 => HeroTag::Core,
        48 => HeroTag::Core,
        49 => HeroTag::Support,
        50 => HeroTag::Carry,
        51 => HeroTag::Core,
        52 => HeroTag::Support,
        53 => HeroTag::Carry,
        54 => HeroTag::Carry,
        55 => HeroTag::Carry,
        56 => HeroTag::Core,
        57 => HeroTag::Core,
        58 => HeroTag::Core,
        59 => HeroTag::Carry,
        60 => HeroTag::Carry,
        61 => HeroTag::Support,
        62 => HeroTag::Carry,
        63 => HeroTag::Carry,
        64 => HeroTag::Carry,
        65 => HeroTag::Carry,
        66 => HeroTag::Core,
        67 => HeroTag::Core,
        68 => HeroTag::Core,
        69 => HeroTag::Support,
        70 => HeroTag::Support,
        71 => HeroTag::Support,
        72 => HeroTag::Support,
        73 => HeroTag::Core,
        74 => HeroTag::Core,
        75 => HeroTag::Carry,
        76 => HeroTag::Carry,
        77 => HeroTag::Support,
        78 => HeroTag::Core,
        79 => HeroTag::Core,
        80 => HeroTag::Core,
        81 => HeroTag::Support,
        82 => HeroTag::Core,
        83 => HeroTag::Core,
        84 => HeroTag::Carry,
        85 => HeroTag::Support,
        86 => HeroTag::Support,
        87 => HeroTag::Core,
        88 => HeroTag::Support,
        89 => HeroTag::Core,
        90 => HeroTag::Support,
        91 => HeroTag::Support,
        92 => HeroTag::Support,
        93 => HeroTag::Core,
        94 => HeroTag::Carry,
        95 => HeroTag::Support,
        96 => HeroTag::Carry,
        97 => HeroTag::Carry,
        98 => HeroTag::Core,
        99 => HeroTag::Core,
        100 => HeroTag::Carry,
        101 => HeroTag::Support,
        102 => HeroTag::Core,
        103 => HeroTag::Carry,
        104 => HeroTag::Core,
        105 => HeroTag::Core,
        106 => HeroTag::Core,
        107 => HeroTag::Core,
        108 => HeroTag::Support,
        109 => HeroTag::Carry,
        110 => HeroTag::Support,
        111 => HeroTag::Core,
        112 => HeroTag::Support,
        113 => HeroTag::Carry,
        114 => HeroTag::Support,
        115 => HeroTag::Support,
        116 => HeroTag::Core,
        117 => HeroTag::Core,
        118 => HeroTag::Core,
        119 => HeroTag::Support,
        120 => HeroTag::Carry,
        121 => HeroTag::Core,
        122 => HeroTag::Support,
        123 => HeroTag::Support,
        124 => HeroTag::Carry,
        _ => HeroTag::Core,
    }
}

} // verus!
