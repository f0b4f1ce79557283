use vstd::prelude::*;

use crate::text::str_eq;

verus! {

/// A fresh random id from `uuid::Uuid::new_v4`, rendered by its `Display` impl (lower-case
/// hyphenated form). The contract states the shape of that form, which the uuid crate's
/// formatting code fixes: 36 characters with hyphens at positions 8, 13, 18 and 23.
/// Which id comes back is random and not stated.
#[verifier::external_body]
fn random_id() -> (id: String)
    ensures
        id@.len() == 36,
        id@[8] == '-' && id@[13] == '-' && id@[18] == '-' && id@[23] == '-',
{
    uuid::Uuid::new_v4().to_string()
}

/// A player taking part in a session.
#[derive(Debug, Clone)]
pub struct Player {
    pub id: String,
    pub ip: String,
    pub nr: u8,
}

impl Player {
    /// A player with the given number and address and a fresh random id (in the hyphenated
    /// form of a UUID: 36 characters, with hyphens at positions 8, 13, 18 and 23).
    pub fn new(nr: u8, ip: String) -> (p: Player)
        ensures
            p.nr == nr,
            p.ip == ip,
            p.id@.len() == 36,
            p.id@[8] == '-' && p.id@[13] == '-' && p.id@[18] == '-' && p.id@[23] == '-',
    {
        Player { ip, id: random_id(), nr }
    }

    /// Whether all fields agree.
    pub open spec fn same_as(&self, other: &Player) -> bool {
        self.id@ == other.id@ && self.ip@ == other.ip@ && self.nr == other.nr
    }

    /// Compares all fields, as the derived equality of players does.
    pub fn equals(&self, other: &Player) -> (r: bool)
        ensures
            r == self.same_as(other),
    {
        str_eq(self.id.as_str(), other.id.as_str()) && str_eq(self.ip.as_str(), other.ip.as_str())
            && self.nr == other.nr
    }

    /// A copy with the same field values.
    pub fn duplicate(&self) -> (p: Player)
        ensures
            p == *self,
    {
        Player { id: self.id.clone(), ip: self.ip.clone(), nr: self.nr }
    }
}

/// Someone watching a session.
#[derive(Debug, Clone)]
pub struct Observer {
    pub id: String,
    pub ip: String,
}

impl Observer {
    /// An observer with the given address and a fresh random id (in the hyphenated form of a
    /// UUID: 36 characters, with hyphens at positions 8, 13, 18 and 23).
    pub fn new(ip: String) -> (o: Observer)
        ensures
            o.ip == ip,
            o.id@.len() == 36,
            o.id@[8] == '-' && o.id@[13] == '-' && o.id@[18] == '-' && o.id@[23] == '-',
    {
        Observer { ip, id: random_id() }
    }
}

/// Anyone connected to a session.
#[derive(Debug, Clone)]
pub enum Actor {
    Player(Player),
    Observer(Observer),
}

impl Actor {
    pub fn id(&self) -> (r: &str)
        ensures
            r@ == (match self {
                Actor::Player(p) => p.id@,
                Actor::Observer(o) => o.id@,
            }),
    {
        match self {
            Actor::Player(p) => p.id.as_str(),
            Actor::Observer(o) => o.id.as_str(),
        }
    }
}

} // verus!
