//! The entity/component store: fixed typed component tables indexed by a
//! stable entity identifier (the row index). Each system iterates only the
//! tables it needs, joined by that shared identifier.

use vstd::prelude::*;

use crate::components::Movement;
use crate::components::Position;
use crate::components::Sprite;

verus! {

/// Per-actor component tables. Row `i` holds every component entity `i`
/// owns; a despawned entity keeps its row with every slot empty, so
/// identifiers stay stable.
pub struct World {
    pub positions: Vec<Option<Position>>,
    pub sprites: Vec<Option<Sprite>>,
    pub movements: Vec<Option<Movement>>,
}

impl World {
    /// Structural invariant: the tables are equally long, and every stored
    /// movement state keeps its energy within `[0, speed]`.
    pub open spec fn wf(&self) -> bool {
        &&& self.sprites@.len() == self.positions@.len()
        &&& self.movements@.len() == self.positions@.len()
        &&& forall|i: int|
            0 <= i < self.movements@.len() ==> (#[trigger] self.movements@[i] matches Some(m)
                ==> m.wf())
    }

    pub open spec fn spec_len(&self) -> int {
        self.positions@.len() as int
    }

    pub fn new() -> (w: World)
        ensures
            w.wf(),
            w.spec_len() == 0,
    {
        World { positions: Vec::new(), sprites: Vec::new(), movements: Vec::new() }
    }

    /// The number of entity rows, despawned rows included.
    pub fn len(&self) -> (n: usize)
        requires
            self.wf(),
        ensures
            n == self.spec_len(),
    {
        self.positions.len()
    }

    /// Creates an entity owning the three components of the bundle and
    /// returns its identifier.
    pub fn spawn(&mut self, bundle: (Position, Sprite, Movement)) -> (id: usize)
        requires
            old(self).wf(),
            bundle.2.wf(),
        ensures
            final(self).wf(),
            id == old(self).spec_len(),
            final(self).spec_len() == old(self).spec_len() + 1,
            final(self).positions@ == old(self).positions@.push(Some(bundle.0)),
            final(self).sprites@ == old(self).sprites@.push(Some(bundle.1)),
            final(self).movements@ == old(self).movements@.push(Some(bundle.2)),
    {
        let (position, sprite, movement) = bundle;
        let id = self.positions.len();
        self.positions.push(Some(position));
        self.sprites.push(Some(sprite));
        self.movements.push(Some(movement));
        id
    }

    /// Removes every component of entity `id`; its row stays, so other
    /// identifiers are unaffected.
    pub fn despawn(&mut self, id: usize)
        requires
            old(self).wf(),
            id < old(self).spec_len(),
        ensures
            final(self).wf(),
            final(self).spec_len() == old(self).spec_len(),
            final(self).positions@ == old(self).positions@.update(id as int, None),
            final(self).sprites@ == old(self).sprites@.update(id as int, None),
            final(self).movements@ == old(self).movements@.update(id as int, None),
    {
        self.positions[id] = None;
        self.sprites[id] = None;
        self.movements[id] = None;
    }

    /// Discards every entity and every row.
    pub fn clear(&mut self)
        ensures
            final(self).wf(),
            final(self).spec_len() == 0,
    {
        self.positions.clear();
        self.sprites.clear();
        self.movements.clear();
    }

    /// The drawable entities visited in identifier order, up to row `n`.
    pub open spec fn drawables_prefix(&self, n: int) -> Seq<(Position, Sprite)>
        decreases n,
    {
        if n <= 0 {
            Seq::empty()
        } else {
            let rest = self.drawables_prefix(n - 1);
            if self.positions@[n - 1] is Some && self.sprites@[n - 1] is Some {
                rest.push((self.positions@[n - 1]->Some_0, self.sprites@[n - 1]->Some_0))
            } else {
                rest
            }
        }
    }

    /// The query surface for presentation: every `(Position, Sprite)` pair,
    /// in identifier order. A read-only snapshot: the result is a function
    /// of the store alone.
    pub fn drawables(&self) -> (r: Vec<(Position, Sprite)>)
        requires
            self.wf(),
        ensures
            r@ == self.drawables_prefix(self.spec_len()),
    {
        let n = self.positions.len();
        let mut r: Vec<(Position, Sprite)> = Vec::new();
        let mut i: usize = 0;
        while i < n
            invariant
                self.wf(),
                n == self.spec_len(),
                i <= n,
                r@ == self.drawables_prefix(i as int),
            decreases n - i,
        {
            match (&self.positions[i], &self.sprites[i]) {
                (Some(p), Some(s)) => {
                    r.push((*p, *s));
                },
                _ => {},
            }
            i = i + 1;
        }
        r
    }
}

/// In a well-formed store every actor's energy lies within `[0, speed]`,
/// never negative and never above its speed. Every phase of the scheduler
/// and resolver preserves well-formedness, so this holds at every tick
/// boundary.
pub proof fn lemma_energy_in_bounds(w: World, i: int)
    requires
        w.wf(),
        0 <= i < w.spec_len(),
    ensures
        w.movements@[i] matches Some(m) ==> 0 <= m.energy <= m.speed,
{
}

} // verus!
