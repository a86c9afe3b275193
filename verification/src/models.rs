//! The values that are scraped, stored and shown.
//!
//! Each type comes with the plain view that contracts speak of: texts are sequences of
//! characters, lists are sequences.

use vstd::prelude::*;

verus! {

/// A single named field extracted from a scraped page.
#[derive(Debug)]
pub struct Field {
    /// The field name that was asked for.
    pub name: String,
    /// The trimmed inner text of the first matched element.
    pub value: String,
}

/// What a [`Field`] holds.
#[verifier::ext_equal]
pub struct FieldView {
    pub name: Seq<char>,
    pub value: Seq<char>,
}

impl DeepView for Field {
    type V = FieldView;

    open spec fn deep_view(&self) -> FieldView {
        FieldView {
            name: self.name.deep_view(),
            value: self.value.deep_view(),
        }
    }
}

impl Clone for Field {
    fn clone(&self) -> (copy: Self)
        ensures
            copy.deep_view() == self.deep_view(),
    {
        Field {
            name: self.name.clone(),
            value: self.value.clone(),
        }
    }
}

/// One complete scrape result: the URL, when it was fetched, and all extracted fields.
#[derive(Debug)]
pub struct ScrapeRecord {
    /// The row ID that storage assigned (0 before insertion).
    pub id: i64,
    /// The URL that was fetched.
    pub url: String,
    /// RFC 3339 timestamp of when the scrape was performed.
    pub scraped_at: String,
    /// All fields extracted from the page, in the order in which they were asked for.
    pub fields: Vec<Field>,
}

/// What a [`ScrapeRecord`] holds.
#[verifier::ext_equal]
pub struct ScrapeRecordView {
    pub id: i64,
    pub url: Seq<char>,
    pub scraped_at: Seq<char>,
    pub fields: Seq<FieldView>,
}

impl DeepView for ScrapeRecord {
    type V = ScrapeRecordView;

    open spec fn deep_view(&self) -> ScrapeRecordView {
        ScrapeRecordView {
            id: self.id.deep_view(),
            url: self.url.deep_view(),
            scraped_at: self.scraped_at.deep_view(),
            fields: self.fields.deep_view(),
        }
    }
}

impl Clone for ScrapeRecord {
    fn clone(&self) -> (copy: Self)
        ensures
            copy.deep_view() == self.deep_view(),
    {
        ScrapeRecord {
            id: self.id,
            url: self.url.clone(),
            scraped_at: self.scraped_at.clone(),
            fields: self.fields.clone(),
        }
    }
}

/// A Blood on the Clocktower edition, such as Trouble Brewing.
#[derive(Debug)]
pub struct Edition {
    /// Short identifier, unique among editions (`tb`, `bmr`, `snv`).
    pub id: String,
    pub name: Option<String>,
    /// Hex colour string for this edition.
    pub color: Option<String>,
    /// Difficulty tier (`beginner`, `intermediate`).
    pub level: Option<String>,
    /// Whether this is an officially published edition, as opposed to a custom script.
    pub is_official: Option<bool>,
}

/// What an [`Edition`] holds.
#[verifier::ext_equal]
pub struct EditionView {
    pub id: Seq<char>,
    pub name: Option<Seq<char>>,
    pub color: Option<Seq<char>>,
    pub level: Option<Seq<char>>,
    pub is_official: Option<bool>,
}

impl DeepView for Edition {
    type V = EditionView;

    open spec fn deep_view(&self) -> EditionView {
        EditionView {
            id: self.id.deep_view(),
            name: self.name.deep_view(),
            color: self.color.deep_view(),
            level: self.level.deep_view(),
            is_official: self.is_official.deep_view(),
        }
    }
}

impl Clone for Edition {
    fn clone(&self) -> (copy: Self)
        ensures
            copy.deep_view() == self.deep_view(),
    {
        Edition {
            id: self.id.clone(),
            name: self.name.clone(),
            color: self.color.clone(),
            level: self.level.clone(),
            is_official: self.is_official.clone(),
        }
    }
}

/// A Blood on the Clocktower character role with its full metadata.
#[derive(Debug)]
pub struct Role {
    /// Canonical identifier, unique among roles (`imp`).
    pub id: String,
    pub name: Option<String>,
    /// Alignment team: `townsfolk`, `minion`, `demon`, `outsider` or `traveller`.
    pub team: Option<String>,
    /// Edition that this role belongs to (`tb`).
    pub edition: Option<String>,
    /// The role's in-game ability text.
    pub ability: Option<String>,
    /// Lore text shown on the physical token.
    pub flavor: Option<String>,
    /// Whether this role changes how many of each type are in play.
    pub setup: Option<bool>,
    /// Storyteller reminder for the role's first-night action.
    pub first_night_reminder: Option<String>,
    /// Storyteller reminder for the actions of later nights.
    pub other_night_reminder: Option<String>,
}

/// What a [`Role`] holds.
#[verifier::ext_equal]
pub struct RoleView {
    pub id: Seq<char>,
    pub name: Option<Seq<char>>,
    pub team: Option<Seq<char>>,
    pub edition: Option<Seq<char>>,
    pub ability: Option<Seq<char>>,
    pub flavor: Option<Seq<char>>,
    pub setup: Option<bool>,
    pub first_night_reminder: Option<Seq<char>>,
    pub other_night_reminder: Option<Seq<char>>,
}

impl DeepView for Role {
    type V = RoleView;

    open spec fn deep_view(&self) -> RoleView {
        RoleView {
            id: self.id.deep_view(),
            name: self.name.deep_view(),
            team: self.team.deep_view(),
            edition: self.edition.deep_view(),
            ability: self.ability.deep_view(),
            flavor: self.flavor.deep_view(),
            setup: self.setup.deep_view(),
            first_night_reminder: self.first_night_reminder.deep_view(),
            other_night_reminder: self.other_night_reminder.deep_view(),
        }
    }
}

impl Clone for Role {
    fn clone(&self) -> (copy: Self)
        ensures
            copy.deep_view() == self.deep_view(),
    {
        Role {
            id: self.id.clone(),
            name: self.name.clone(),
            team: self.team.clone(),
            edition: self.edition.clone(),
            ability: self.ability.clone(),
            flavor: self.flavor.clone(),
            setup: self.setup.clone(),
            first_night_reminder: self.first_night_reminder.clone(),
            other_night_reminder: self.other_night_reminder.clone(),
        }
    }
}

/// The payload of the game's data API: all editions and all roles.
#[derive(Debug)]
pub struct BotcData {
    pub editions: Vec<Edition>,
    pub roles: Vec<Role>,
}

/// What a [`BotcData`] holds.
#[verifier::ext_equal]
pub struct BotcDataView {
    pub editions: Seq<EditionView>,
    pub roles: Seq<RoleView>,
}

impl DeepView for BotcData {
    type V = BotcDataView;

    open spec fn deep_view(&self) -> BotcDataView {
        BotcDataView {
            editions: self.editions.deep_view(),
            roles: self.roles.deep_view(),
        }
    }
}

/// A character role as it appears within a stored [`GameInstance`].
///
/// A game stores only the role's identifier. The rest is looked up among the stored roles
/// when the game is read, and is `None` where the role is not stored.
#[derive(Debug)]
pub struct GameRole {
    /// The canonical role identifier (`imp`, `washerwoman`).
    pub role_id: String,
    pub name: Option<String>,
    pub team: Option<String>,
    pub edition: Option<String>,
    pub ability: Option<String>,
}

/// What a [`GameRole`] holds.
#[verifier::ext_equal]
pub struct GameRoleView {
    pub role_id: Seq<char>,
    pub name: Option<Seq<char>>,
    pub team: Option<Seq<char>>,
    pub edition: Option<Seq<char>>,
    pub ability: Option<Seq<char>>,
}

impl DeepView for GameRole {
    type V = GameRoleView;

    open spec fn deep_view(&self) -> GameRoleView {
        GameRoleView {
            role_id: self.role_id.deep_view(),
            name: self.name.deep_view(),
            team: self.team.deep_view(),
            edition: self.edition.deep_view(),
            ability: self.ability.deep_view(),
        }
    }
}

impl Clone for GameRole {
    fn clone(&self) -> (copy: Self)
        ensures
            copy.deep_view() == self.deep_view(),
    {
        GameRole {
            role_id: self.role_id.clone(),
            name: self.name.clone(),
            team: self.team.clone(),
            edition: self.edition.clone(),
            ability: self.ability.clone(),
        }
    }
}

/// A stored game session: when it was created and its roles in order.
#[derive(Debug)]
pub struct GameInstance {
    /// The ID that storage assigned.
    pub id: i64,
    /// RFC 3339 timestamp of when the game was created.
    pub created_at: String,
    /// Roles in the order in which they were supplied.
    pub roles: Vec<GameRole>,
}

/// What a [`GameInstance`] holds.
#[verifier::ext_equal]
pub struct GameInstanceView {
    pub id: i64,
    pub created_at: Seq<char>,
    pub roles: Seq<GameRoleView>,
}

impl DeepView for GameInstance {
    type V = GameInstanceView;

    open spec fn deep_view(&self) -> GameInstanceView {
        GameInstanceView {
            id: self.id.deep_view(),
            created_at: self.created_at.deep_view(),
            roles: self.roles.deep_view(),
        }
    }
}

impl Clone for GameInstance {
    fn clone(&self) -> (copy: Self)
        ensures
            copy.deep_view() == self.deep_view(),
    {
        GameInstance {
            id: self.id,
            created_at: self.created_at.clone(),
            roles: self.roles.clone(),
        }
    }
}

} // verus!
