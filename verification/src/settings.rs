use vstd::prelude::*;

use crate::random::{is_alphanumeric, random_alphanumeric};

verus! {

/// A named setting holding a value.
#[derive(Debug)]
pub struct Setting<T> {
    pub name: String,
    pub value: T,
}

/// A screen resolution in characters.
#[derive(Copy, Clone, PartialEq, Eq, Structural, Debug)]
pub struct Resolution {
    pub width: u16,
    pub height: u16,
}

/// One choice of a dropdown, with the text it is shown with.
#[derive(Debug)]
pub struct DropdownOption {
    pub display_name: String,
    pub value: Resolution,
}

impl Clone for DropdownOption {
    fn clone(&self) -> (r: Self)
        ensures
            r == *self,
    {
        DropdownOption { display_name: self.display_name.clone(), value: self.value }
    }
}

/// The choices of a dropdown and the one chosen.
#[derive(Debug)]
pub struct DropdownSetting {
    pub options: Vec<DropdownOption>,
    pub chosen_option: DropdownOption,
}

/// The game's settings, grouped by the type of their values.
#[derive(Debug)]
pub struct Settings {
    pub bool_settings: Vec<Setting<bool>>,
    pub u32_settings: Vec<Setting<u32>>,
    pub string_settings: Vec<Setting<String>>,
    pub dropdown_settings: Vec<Setting<DropdownSetting>>,
}

/// The index of the first setting named `name`.
pub open spec fn first_named<T>(s: Seq<Setting<T>>, name: Seq<char>, i: int) -> Option<int>
    decreases s.len() - i,
{
    if i < 0 || i >= s.len() {
        None
    } else if s[i].name@ == name {
        Some(i)
    } else {
        first_named(s, name, i + 1)
    }
}

/// The value of the first setting named `name`.
pub open spec fn find_value<T>(s: Seq<Setting<T>>, name: Seq<char>) -> Option<T> {
    match first_named(s, name, 0) {
        Some(i) => Some(s[i].value),
        None => None,
    }
}

proof fn lemma_first_named_skip<T>(s: Seq<Setting<T>>, name: Seq<char>, i: int)
    requires
        0 <= i <= s.len(),
        forall|j: int| 0 <= j < i ==> #[trigger] s[j].name@ != name,
    ensures
        first_named(s, name, 0) == first_named(s, name, i),
    decreases i,
{
    if i > 0 {
        lemma_first_named_skip(s, name, i - 1);
    }
}

/// The name of the fog of war setting.
pub open spec fn fog_of_war_name() -> Seq<char> {
    "Fog of War"@
}

/// The name of the map seed setting.
pub open spec fn rng_seed_name() -> Seq<char> {
    "Map RNG Seed"@
}

/// The name of the background music setting.
pub open spec fn bg_music_name() -> Seq<char> {
    "Background music"@
}

/// The name of the resolution setting.
pub open spec fn resolution_name() -> Seq<char> {
    "Resolution"@
}

/// Flags for testing: whether to draw debugging map symbols, and a seed overriding the map seed
/// setting.
#[derive(Debug)]
pub struct GlobalTestFlags {
    pub debugging_map_symbols: bool,
    pub rng_seed: Option<String>,
}

/// The test flags in force: no debugging symbols and no seed override.
pub fn globals() -> (g: GlobalTestFlags)
    ensures
        !g.debugging_map_symbols,
        g.rng_seed is None,
{
    GlobalTestFlags { debugging_map_symbols: false, rng_seed: None }
}

impl Settings {
    pub fn find_string_setting_value(&self, name: String) -> (r: Option<String>)
        ensures
            match r {
                Some(v) => find_value(self.string_settings@, name@) matches Some(w) && v@ == w@,
                None => find_value(self.string_settings@, name@) is None,
            },
    {
        let mut i: usize = 0;
        while i < self.string_settings.len()
            invariant
                i <= self.string_settings@.len(),
                forall|j: int| 0 <= j < i ==> #[trigger] self.string_settings@[j].name@ != name@,
            decreases self.string_settings@.len() - i,
        {
            if self.string_settings[i].name == name {
                proof {
                    lemma_first_named_skip(self.string_settings@, name@, i as int);
                }
                return Some(self.string_settings[i].value.clone());
            }
            i += 1;
        }
        proof {
            lemma_first_named_skip(self.string_settings@, name@, i as int);
        }
        None
    }

    pub fn find_bool_setting_value(&self, name: String) -> (r: Option<bool>)
        ensures
            r == find_value(self.bool_settings@, name@),
    {
        let mut i: usize = 0;
        while i < self.bool_settings.len()
            invariant
                i <= self.bool_settings@.len(),
                forall|j: int| 0 <= j < i ==> #[trigger] self.bool_settings@[j].name@ != name@,
            decreases self.bool_settings@.len() - i,
        {
            if self.bool_settings[i].name == name {
                proof {
                    lemma_first_named_skip(self.bool_settings@, name@, i as int);
                }
                return Some(self.bool_settings[i].value);
            }
            i += 1;
        }
        proof {
            lemma_first_named_skip(self.bool_settings@, name@, i as int);
        }
        None
    }

    pub fn find_u32_setting_value(&self, name: String) -> (r: Option<u32>)
        ensures
            r == find_value(self.u32_settings@, name@),
    {
        let mut i: usize = 0;
        while i < self.u32_settings.len()
            invariant
                i <= self.u32_settings@.len(),
                forall|j: int| 0 <= j < i ==> #[trigger] self.u32_settings@[j].name@ != name@,
            decreases self.u32_settings@.len() - i,
        {
            if self.u32_settings[i].name == name {
                proof {
                    lemma_first_named_skip(self.u32_settings@, name@, i as int);
                }
                return Some(self.u32_settings[i].value);
            }
            i += 1;
        }
        proof {
            lemma_first_named_skip(self.u32_settings@, name@, i as int);
        }
        None
    }

    /// The chosen option of the first dropdown setting named `name`.
    pub fn find_dropdown_setting_value(&self, name: String) -> (r: Option<DropdownOption>)
        ensures
            match r {
                Some(v) => find_value(self.dropdown_settings@, name@) matches Some(w) && v == w.chosen_option,
                None => find_value(self.dropdown_settings@, name@) is None,
            },
    {
        let mut i: usize = 0;
        while i < self.dropdown_settings.len()
            invariant
                i <= self.dropdown_settings@.len(),
                forall|j: int| 0 <= j < i ==> #[trigger] self.dropdown_settings@[j].name@ != name@,
            decreases self.dropdown_settings@.len() - i,
        {
            if self.dropdown_settings[i].name == name {
                proof {
                    lemma_first_named_skip(self.dropdown_settings@, name@, i as int);
                }
                return Some(self.dropdown_settings[i].value.chosen_option.clone());
            }
            i += 1;
        }
        proof {
            lemma_first_named_skip(self.dropdown_settings@, name@, i as int);
        }
        None
    }

    /// The fog of war setting, false when there is none.
    pub fn is_fog_of_war(&self) -> (r: bool)
        ensures
            r == match find_value(self.bool_settings@, fog_of_war_name()) {
                Some(v) => v,
                None => false,
            },
    {
        match self.find_bool_setting_value("Fog of War".to_string()) {
            Some(v) => v,
            None => false,
        }
    }

    /// The map seed: the test override when there is one, otherwise the seed setting.
    pub fn get_rng_seed(&self) -> (r: Option<String>)
        ensures
            match r {
                Some(v) => find_value(self.string_settings@, rng_seed_name()) matches Some(w) && v@ == w@,
                None => find_value(self.string_settings@, rng_seed_name()) is None,
            },
    {
        let flags = globals();
        match flags.rng_seed {
            Some(seed_override) => Some(seed_override),
            None => self.find_string_setting_value("Map RNG Seed".to_string()),
        }
    }

    /// The background music volume, 100 when there is no such setting.
    pub fn get_bg_music_volume(&self) -> (r: u32)
        ensures
            r == match find_value(self.u32_settings@, bg_music_name()) {
                Some(v) => v,
                None => 100,
            },
    {
        match self.find_u32_setting_value("Background music".to_string()) {
            Some(v) => v,
            None => 100,
        }
    }
}

/// The resolution options offered, the first being the default.
pub fn get_resolution_dropdown_options() -> (r: Vec<DropdownOption>)
    ensures
        r@.len() == 1,
        r@[0].value == (Resolution { width: 80, height: 24 }),
        r@[0].display_name@ == "80x24"@,
{
    vec![DropdownOption { display_name: "80x24".to_string(), value: Resolution { width: 80, height: 24 } }]
}

/// The default settings: fog of war off, a fresh random 12-character alphanumeric map seed,
/// background music volume 0, and the default resolution.
pub fn build_settings() -> (s: Settings)
    ensures
        s.bool_settings@.len() == 1,
        s.bool_settings@[0].name@ == fog_of_war_name(),
        !s.bool_settings@[0].value,
        s.string_settings@.len() == 1,
        s.string_settings@[0].name@ == rng_seed_name(),
        s.string_settings@[0].value@.len() == 12,
        forall|i: int| 0 <= i < 12 ==> is_alphanumeric(#[trigger] s.string_settings@[0].value@[i]),
        s.u32_settings@.len() == 1,
        s.u32_settings@[0].name@ == bg_music_name(),
        s.u32_settings@[0].value == 0,
        s.dropdown_settings@.len() == 1,
        s.dropdown_settings@[0].name@ == resolution_name(),
        s.dropdown_settings@[0].value.chosen_option.value == (Resolution { width: 80, height: 24 }),
        s.dropdown_settings@[0].value.options@.len() == 1,
{
    let fog_of_war: Setting<bool> = Setting { name: "Fog of War".to_string(), value: false };
    let random_seed = random_alphanumeric(12);
    let map_seed: Setting<String> = Setting { name: "Map RNG Seed".to_string(), value: random_seed };
    let bg_music_volume: Setting<u32> = Setting { name: "Background music".to_string(), value: 0 };
    let resolution_options = get_resolution_dropdown_options();
    let default_option = resolution_options[0].clone();
    let resolution_dropdown_setting = DropdownSetting { options: vec![default_option.clone()], chosen_option: default_option };
    let resolution: Setting<DropdownSetting> = Setting { name: "Resolution".to_string(), value: resolution_dropdown_setting };
    Settings {
        bool_settings: vec![fog_of_war],
        string_settings: vec![map_seed],
        u32_settings: vec![bg_music_volume],
        dropdown_settings: vec![resolution],
    }
}

/// Something that can be switched between two states.
pub trait Toggleable {
    fn toggle(&mut self);
}

impl Toggleable for Setting<bool> {
    fn toggle(&mut self)
        ensures
            final(self).value == !old(self).value,
            final(self).name == old(self).name,
    {
        self.value = !self.value;
    }
}

} // verus!
