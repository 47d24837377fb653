use vstd::prelude::*;

use crate::character::Character;

verus! {

/// The characters of a level: the player, when present, and the non-player characters.
#[derive(Debug)]
pub struct Characters {
    player: Option<Character>,
    npcs: Vec<Character>,
}

/// No player and no other characters.
pub fn build_empty_characters() -> (c: Characters)
    ensures
        c.player() is None,
        c.npcs().len() == 0,
{
    Characters { player: None, npcs: Vec::new() }
}

impl Characters {
    pub closed spec fn player(&self) -> Option<Character> {
        self.player
    }

    pub closed spec fn npcs(&self) -> Seq<Character> {
        self.npcs@
    }

    /// These characters with the player replaced.
    pub closed spec fn with_player(self, player: Option<Character>) -> Characters {
        Characters { player, npcs: self.npcs }
    }

    /// Replacing the player changes the player alone, and only the last replacement counts.
    pub proof fn lemma_with_player(self, a: Option<Character>, b: Option<Character>)
        ensures
            self.with_player(a).player() == a,
            self.with_player(a).npcs() == self.npcs(),
            self.with_player(a).with_player(b) == self.with_player(b),
            self.with_player(self.player()) == self,
    {
    }

    pub fn new(player: Option<Character>, npcs: Vec<Character>) -> (c: Characters)
        ensures
            c.player() == player,
            c.npcs() == npcs@,
    {
        Characters { player, npcs }
    }

    pub fn get_player(&self) -> (r: Option<&Character>)
        ensures
            r is Some == self.player() is Some,
            r matches Some(c) ==> *c == self.player()->0,
    {
        self.player.as_ref()
    }

    /// The player, to be changed in place; nothing else changes.
    pub fn get_player_mut(&mut self) -> (r: Option<&mut Character>)
        ensures
            match old(self).player() {
                None => r is None && *final(self) == *old(self),
                Some(p) => r is Some && *r->0 == p && *final(self) == old(self).with_player(Some(*final(r->0))),
            },
    {
        self.player.as_mut()
    }

    pub fn get_npcs(&self) -> (r: &Vec<Character>)
        ensures
            r@ == self.npcs(),
    {
        &self.npcs
    }

    /// The non-player characters, to be changed in place; the player stays.
    pub fn get_npcs_mut(&mut self) -> (r: &mut Vec<Character>)
        ensures
            r@ == old(self).npcs(),
            final(self).npcs() == final(r)@,
            final(self).player() == old(self).player(),
    {
        &mut self.npcs
    }

    pub fn set_player(&mut self, player: Character)
        ensures
            *final(self) == old(self).with_player(Some(player)),
            final(self).player() == Some(player),
            final(self).npcs() == old(self).npcs(),
    {
        self.player = Some(player);
    }

    pub fn set_npcs(&mut self, npcs: Vec<Character>)
        ensures
            final(self).player() == old(self).player(),
            final(self).npcs() == npcs@,
    {
        self.npcs = npcs;
    }

    /// Takes the player out, leaving no player behind.
    pub fn remove_player(&mut self) -> (p: Character)
        requires
            old(self).player() is Some,
        ensures
            p == old(self).player()->0,
            *final(self) == old(self).with_player(None),
            final(self).player() is None,
            final(self).npcs() == old(self).npcs(),
    {
        self.player.take().unwrap()
    }
}

} // verus!
