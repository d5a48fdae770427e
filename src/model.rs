use serde_json::Value as Json;
use vstd::prelude::*;

verus! {

#[verifier::external_type_specification]
#[verifier::external_body]
pub struct ExJson(serde_json::Value);

/// Relies on `Clone` of `serde_json::Value`: the copy is the same document.
#[verifier::external_body]
fn copy_json(v: &Json) -> (r: Json)
    ensures
        r == *v,
{
    v.clone()
}

/// A team: it owns cores.
#[derive(Debug)]
pub struct Team {
    pub id: i32,
    pub slug: String,
    pub name: String,
}

/// A hardware or software target that a release runs on.
#[derive(Debug)]
pub struct Platform {
    pub id: i32,
    pub slug: String,
    pub name: String,
}

/// A machine that a core emulates.
#[derive(Debug)]
pub struct System {
    pub id: i32,
    pub slug: String,
    pub name: String,
}

/// A catalog entry, owned by one team.
#[derive(Debug)]
pub struct Core {
    pub id: i32,
    pub slug: String,
    pub name: String,
    pub description: String,
    pub metadata: Json,
    pub links: Json,
    pub owner_team_id: i32,
}

/// A row of the core/system junction: `core_id` supports `system_id`.
#[derive(Clone, Copy, Debug, PartialEq, Eq, Structural)]
pub struct CoreSystems {
    pub core_id: i32,
    pub system_id: i32,
}

/// A release of a core for one platform. `date_released` is a timestamp
/// (seconds since the Unix epoch).
#[derive(Clone, Copy, Debug, PartialEq, Eq, Structural)]
pub struct CoreRelease {
    pub id: i32,
    pub core_id: i32,
    pub platform_id: i32,
    pub date_released: i64,
}

impl Team {
    /// A copy of this row.
    pub fn copy(&self) -> (r: Team)
        ensures
            r == *self,
    {
        Team { id: self.id, slug: self.slug.clone(), name: self.name.clone() }
    }
}

impl Platform {
    /// A copy of this row.
    pub fn copy(&self) -> (r: Platform)
        ensures
            r == *self,
    {
        Platform { id: self.id, slug: self.slug.clone(), name: self.name.clone() }
    }
}

impl System {
    /// A copy of this row.
    pub fn copy(&self) -> (r: System)
        ensures
            r == *self,
    {
        System { id: self.id, slug: self.slug.clone(), name: self.name.clone() }
    }
}

impl Core {
    /// A copy of this row.
    pub fn copy(&self) -> (r: Core)
        ensures
            r == *self,
    {
        Core {
            id: self.id,
            slug: self.slug.clone(),
            name: self.name.clone(),
            description: self.description.clone(),
            metadata: copy_json(&self.metadata),
            links: copy_json(&self.links),
            owner_team_id: self.owner_team_id,
        }
    }
}

} // verus!
