//! Registries: named elements that the server sends to the client, numbered in
//! the order they are listed.
use vstd::prelude::*;

verus! {

/// An element of a registry: the registry it belongs to.
pub trait RegistryItem {
    spec fn spec_registry() -> Seq<char>;

    /// The name of the registry, such as `minecraft:chat_type`.
    fn registry() -> (r: &'static str)
        ensures
            r@ == Self::spec_registry(),
    ;
}

/// A registry: its elements by name, in order; `insert` keeps each name once
/// (`names_unique`).
#[derive(Debug)]
pub struct Registry<T>(pub Vec<(String, T)>);

/// An element of a registry with its name and number, as it is sent.
#[derive(Debug)]
pub struct RegistryEntry<T> {
    pub name: String,
    pub id: i32,
    pub element: T,
}

impl<T> Registry<T> {
    /// No name is given to two elements.
    pub open spec fn names_unique(&self) -> bool {
        forall|i: int, j: int|
            0 <= i < j < self.0@.len() ==> (#[trigger] self.0@[i]).0@ != (#[trigger] self.0@[j]).0@
    }

    /// Whether an element is named `name`.
    pub open spec fn has_name(&self, name: Seq<char>) -> bool {
        exists|i: int| 0 <= i < self.0@.len() && (#[trigger] self.0@[i]).0@ == name
    }

    /// An empty registry.
    pub fn new() -> (r: Registry<T>)
        ensures
            r.0@.len() == 0,
            r.names_unique(),
    {
        Registry(Vec::new())
    }

    /// Puts `element` under `name`: in place of the element of that name, where
    /// there is one, or else after the others.
    pub fn insert(&mut self, name: String, element: T)
        ensures
            !old(self).has_name(name@) ==> final(self).0@ == old(self).0@.push((name, element)),
            old(self).has_name(name@) ==> exists|i: int|
                0 <= i < old(self).0@.len() && (#[trigger] old(self).0@[i]).0@ == name@ && (forall|
                    k: int,
                | 0 <= k < i ==> (#[trigger] old(self).0@[k]).0@ != name@) && final(self).0@
                    == old(self).0@.update(i, (name, element)),
            old(self).names_unique() ==> final(self).names_unique(),
    {
        let mut i: usize = 0;
        while i < self.0.len()
            invariant
                i <= self.0@.len(),
                self.0@ == old(self).0@,
                forall|k: int| 0 <= k < i ==> (#[trigger] self.0@[k]).0@ != name@,
            decreases self.0@.len() - i,
        {
            if self.0[i].0 == name {
                let ghost before = self.0@;
                self.0.set(i, (name, element));
                proof {
                    assert(before[i as int].0@ == name@);
                    assert forall|a: int, b: int|
                        0 <= a < b < self.0@.len() && old(self).names_unique() implies (
                        #[trigger] self.0@[a]).0@ != (#[trigger] self.0@[b]).0@ by {
                        assert(old(self).0@[a] == before[a]);
                        assert(old(self).0@[b] == before[b]);
                        if a == i {
                            assert(self.0@[b] == before[b]);
                        } else if b == i {
                            assert(self.0@[a] == before[a]);
                        } else {
                            assert(self.0@[a] == before[a]);
                            assert(self.0@[b] == before[b]);
                        }
                    }
                }
                return;
            }
            i = i + 1;
        }
        let ghost before = self.0@;
        assert(!old(self).has_name(name@));
        self.0.push((name, element));
        proof {
            assert forall|a: int, b: int|
                0 <= a < b < self.0@.len() && old(self).names_unique() implies (
                #[trigger] self.0@[a]).0@ != (#[trigger] self.0@[b]).0@ by {
                assert(self.0@[a] == before[a]);
                if b < before.len() {
                    assert(self.0@[b] == before[b]);
                }
            }
        }
    }

    /// The elements with their names, numbered by position from 0 (a registry of
    /// more than `i32::MAX + 1` elements panics).
    pub fn entries(&self) -> (r: Vec<RegistryEntry<T>>)
        where
            T: Clone,
        requires
            self.0@.len() <= i32::MAX + 1,
        ensures
            r@.len() == self.0@.len(),
            forall|i: int|
                0 <= i < r@.len() ==> (#[trigger] r@[i]).id == i && r@[i].name@ == self.0@[i].0@
                    && cloned(self.0@[i].1, r@[i].element),
            self.names_unique() ==> forall|i: int, j: int|
                0 <= i < j < r@.len() ==> (#[trigger] r@[i]).name@ != (#[trigger] r@[j]).name@,
    {
        let mut r: Vec<RegistryEntry<T>> = Vec::new();
        let mut i: usize = 0;
        while i < self.0.len()
            invariant
                i <= self.0@.len() <= i32::MAX + 1,
                r@.len() == i,
                forall|j: int|
                    0 <= j < i ==> (#[trigger] r@[j]).id == j && r@[j].name@ == self.0@[j].0@ && cloned(
                        self.0@[j].1,
                        r@[j].element,
                    ),
            decreases self.0@.len() - i,
        {
            let (name, element) = &self.0[i];
            r.push(RegistryEntry { name: name.clone(), id: i as i32, element: element.clone() });
            i = i + 1;
        }
        proof {
            assert forall|a: int, b: int|
                0 <= a < b < r@.len() && self.names_unique() implies (#[trigger] r@[a]).name@ != (
                #[trigger] r@[b]).name@ by {
                assert(r@[a].name@ == self.0@[a].0@);
                assert(r@[b].name@ == self.0@[b].0@);
            }
        }
        r
    }
}

/// The kinds of chat messages (none are defined here).
#[derive(Debug, Clone, Copy)]
pub struct ChatType;

impl RegistryItem for ChatType {
    open spec fn spec_registry() -> Seq<char> {
        "minecraft:chat_type"@
    }

    fn registry() -> (r: &'static str) {
        "minecraft:chat_type"
    }
}

/// The music of a biome.
#[derive(Debug, Clone)]
pub struct BiomeMusic {
    pub replace_current_music: bool,
    pub sound: &'static str,
    pub max_delay: i32,
    pub min_delay: i32,
}

/// The kind of particles of a biome.
#[derive(Debug, Clone)]
pub struct BiomeParticleOptions {
    pub particle_type: &'static str,
}

/// The light level up to which monsters spawn: one level, or a range of levels
/// from `min` to `max` inclusive.
#[derive(Debug, Clone, Copy, PartialEq, Eq, Structural)]
pub enum MonsterSpawnLightLevel {
    Level(i32),
    Range { min: i32, max: i32 },
}

} // verus!
