//! Application configuration: profiles and the application-to-profile map.
use vstd::prelude::*;

use crate::map::{AssocMap, Duplicate, MapKey, Model};

verus! {

/// Identifier of a profile.
pub type ProfileId = String;

/// Feature switches of a profile.
#[derive(Debug, Clone, Copy, PartialEq, Eq, Structural)]
pub struct ProfileToggles {
    pub enable_sands: bool,
    pub enable_gestures: bool,
    pub enable_shortcuts: bool,
}

impl Default for ProfileToggles {
    fn default() -> (t: ProfileToggles)
        ensures
            t == (ProfileToggles { enable_sands: false, enable_gestures: false, enable_shortcuts: false }),
    {
        ProfileToggles { enable_sands: false, enable_gestures: false, enable_shortcuts: false }
    }
}

/// A resolved profile: its id, its layout and its switches.
#[derive(Debug, Clone)]
pub struct Profile {
    pub id: ProfileId,
    pub layout_id: String,
    pub toggles: ProfileToggles,
}

/// Which profile each application uses.
#[derive(Debug, Clone)]
pub struct AppProfileMap {
    pub per_app: AssocMap<String, ProfileId>,
    pub default_profile: ProfileId,
}

/// A profile as configured: the layout file it uses and its switches.
#[derive(Debug, Clone)]
pub struct ProfileDef {
    pub layout: String,
    pub toggles: ProfileToggles,
}

/// The application configuration.
#[derive(Debug, Clone)]
pub struct AppConfig {
    pub profiles: AssocMap<ProfileId, ProfileDef>,
    pub app_map: AppProfileMap,
    /// Layout used when the selected profile is missing.
    pub default_layout: String,
}

/// The mathematical value of a [`ProfileDef`].
pub struct ProfileDefView {
    pub layout: Seq<char>,
    pub toggles: ProfileToggles,
}

/// The mathematical value of a [`Profile`].
pub struct ProfileView {
    pub id: Seq<char>,
    pub layout_id: Seq<char>,
    pub toggles: ProfileToggles,
}

/// The mathematical value of an [`AppConfig`].
pub struct AppConfigView {
    pub profiles: Map<Seq<char>, ProfileDefView>,
    pub per_app: Map<Seq<char>, Seq<char>>,
    pub default_profile: Seq<char>,
    pub default_layout: Seq<char>,
}

impl Model for ProfileDef {
    type M = ProfileDefView;

    open spec fn model(&self) -> ProfileDefView {
        ProfileDefView { layout: self.layout@, toggles: self.toggles }
    }
}

impl Default for AppProfileMap {
    /// No application entries and an empty default profile id.
    fn default() -> (m: AppProfileMap)
        ensures
            m.per_app.model() == Map::<Seq<char>, Seq<char>>::empty(),
            m.default_profile@ == Seq::<char>::empty(),
    {
        AppProfileMap { per_app: AssocMap::new(), default_profile: String::new() }
    }
}

impl Default for AppConfig {
    /// No profiles, no application entries, empty default profile and layout.
    fn default() -> (c: AppConfig)
        ensures
            c.model() == (AppConfigView {
                profiles: Map::empty(),
                per_app: Map::empty(),
                default_profile: Seq::empty(),
                default_layout: Seq::empty(),
            }),
    {
        AppConfig { profiles: AssocMap::new(), app_map: AppProfileMap::default(), default_layout: String::new() }
    }
}

impl Duplicate for ProfileDef {
    fn duplicate(&self) -> (r: Self) {
        ProfileDef { layout: self.layout.clone(), toggles: self.toggles }
    }
}

impl Model for Profile {
    type M = ProfileView;

    open spec fn model(&self) -> ProfileView {
        ProfileView { id: self.id@, layout_id: self.layout_id@, toggles: self.toggles }
    }
}

impl Model for AppConfig {
    type M = AppConfigView;

    open spec fn model(&self) -> AppConfigView {
        AppConfigView {
            profiles: self.profiles.model(),
            per_app: self.app_map.per_app.model(),
            default_profile: self.app_map.default_profile@,
            default_layout: self.default_layout@,
        }
    }
}

pub open spec fn sample_layout() -> Seq<char> {
    "data/layouts/samples/toy_simul.txt"@
}

/// The configuration used when none can be read: profiles `default` (SandS
/// on) and `colemak` (all off), both on the sample layout, with `default` as
/// the default profile.
pub open spec fn fallback_config() -> AppConfigView {
    AppConfigView {
        profiles: Map::empty().insert(
            "default"@,
            ProfileDefView {
                layout: sample_layout(),
                toggles: ProfileToggles { enable_sands: true, enable_gestures: false, enable_shortcuts: false },
            },
        ).insert(
            "colemak"@,
            ProfileDefView {
                layout: sample_layout(),
                toggles: ProfileToggles { enable_sands: false, enable_gestures: false, enable_shortcuts: false },
            },
        ),
        per_app: Map::empty(),
        default_profile: "default"@,
        default_layout: sample_layout(),
    }
}

/// The profile an application uses: its own, or the default one.
pub open spec fn profile_for(c: AppConfigView, app_id: Seq<char>) -> Seq<char> {
    if c.per_app.contains_key(app_id) {
        c.per_app[app_id]
    } else {
        c.default_profile
    }
}

/// The layout file for an application: that of its profile, or the default
/// layout when the profile is missing.
pub open spec fn layout_for(c: AppConfigView, app_id: Seq<char>) -> Seq<char> {
    let pid = profile_for(c, app_id);
    if c.profiles.contains_key(pid) {
        c.profiles[pid].layout
    } else {
        c.default_layout
    }
}

impl AppConfig {
    /// A minimal configuration pointing at the sample layout.
    pub fn fallback() -> (c: AppConfig)
        ensures
            c.model() == fallback_config(),
    {
        let mut profiles: AssocMap<ProfileId, ProfileDef> = AssocMap::new();
        profiles.insert(
            "default".to_string(),
            ProfileDef {
                layout: "data/layouts/samples/toy_simul.txt".to_string(),
                toggles: ProfileToggles { enable_sands: true, enable_gestures: false, enable_shortcuts: false },
            },
        );
        profiles.insert(
            "colemak".to_string(),
            ProfileDef {
                layout: "data/layouts/samples/toy_simul.txt".to_string(),
                toggles: ProfileToggles { enable_sands: false, enable_gestures: false, enable_shortcuts: false },
            },
        );
        let c = AppConfig {
            profiles,
            app_map: AppProfileMap { per_app: AssocMap::new(), default_profile: "default".to_string() },
            default_layout: "data/layouts/samples/toy_simul.txt".to_string(),
        };
        assert(c.model().profiles =~= fallback_config().profiles);
        c
    }

    /// The default profile, when it is configured.
    pub fn default_profile(&self) -> (r: Option<Profile>)
        ensures
            match r {
                Some(p) => self.model().profiles.contains_key(self.model().default_profile) && p.model() == (ProfileView {
                    id: self.model().default_profile,
                    layout_id: self.model().profiles[self.model().default_profile].layout,
                    toggles: self.model().profiles[self.model().default_profile].toggles,
                }),
                None => !self.model().profiles.contains_key(self.model().default_profile),
            },
    {
        let id = &self.app_map.default_profile;
        match self.profiles.get(id) {
            Some(p) => Some(Profile { id: id.key_copy(), layout_id: p.layout.clone(), toggles: p.toggles }),
            None => None,
        }
    }

    /// The layout file for an application: from its profile (or the default
    /// profile), or the default layout when that profile is missing.
    pub fn layout_path_for_app(&self, app_id: &str) -> (r: String)
        ensures
            r@ == layout_for(self.model(), app_id@),
    {
        let key = app_id.to_string();
        let prof_id = match self.app_map.per_app.get(&key) {
            Some(p) => p,
            None => &self.app_map.default_profile,
        };
        match self.profiles.get(prof_id) {
            Some(p) => p.layout.clone(),
            None => self.default_layout.clone(),
        }
    }
}

} // verus!
