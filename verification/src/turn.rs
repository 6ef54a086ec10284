//! The turn scheduler: which occupants act next, by their speed.
//!
//! An occupant of speed `s` acts on every turn of a cycle whose number is a multiple of `s`, so
//! a lower speed value acts more often. A cycle has as many turns as the highest speed; turns
//! on which nobody acts are left out.

use vstd::prelude::*;
use crate::breadth::breadth_first;
use crate::grid::nearest_match;
use crate::grid::Entity;
use crate::grid::Grid;
use crate::grid::GridLocation;
use crate::grid::GridView;
use crate::location::Location;
use crate::selection::Shape;

verus! {

/// The speed of an entry, or 0 where the occupant has none.
pub open spec fn speed_of(entry: (Entity, Option<u32>)) -> int {
    match entry.1 {
        Some(speed) => speed as int,
        None => 0,
    }
}

/// The occupants whose speed is exactly `speed`, in the order of `occupants`.
pub open spec fn tier(occupants: Seq<(Entity, Option<u32>)>, speed: int) -> Seq<Entity>
    decreases occupants.len(),
{
    if occupants.len() == 0 {
        Seq::empty()
    } else if speed_of(occupants.last()) == speed {
        tier(occupants.drop_last(), speed).push(occupants.last().0)
    } else {
        tier(occupants.drop_last(), speed)
    }
}

/// The occupants that act again on turn `turn` because their speed, at most `upto`, divides it:
/// tier by tier, lowest speed first.
pub open spec fn repeats(occupants: Seq<(Entity, Option<u32>)>, turn: int, upto: int) -> Seq<Entity>
    decreases upto,
{
    if upto <= 0 {
        Seq::empty()
    } else if turn % upto == 0 {
        repeats(occupants, turn, upto - 1) + tier(occupants, upto)
    } else {
        repeats(occupants, turn, upto - 1)
    }
}

/// The occupants that act on turn `turn`, counted from 1: those whose speed is `turn`, then
/// those of every lower speed that divides `turn`.
pub open spec fn bucket(occupants: Seq<(Entity, Option<u32>)>, turn: int) -> Seq<Entity> {
    tier(occupants, turn) + repeats(occupants, turn, turn - 1)
}

/// The highest speed among the occupants, 0 where none has a speed.
pub open spec fn span(occupants: Seq<(Entity, Option<u32>)>) -> int
    decreases occupants.len(),
{
    if occupants.len() == 0 {
        0
    } else if speed_of(occupants.last()) > span(occupants.drop_last()) {
        speed_of(occupants.last())
    } else {
        span(occupants.drop_last())
    }
}

/// The non-empty buckets of the turns 1 to `upto`, in turn order.
pub open spec fn schedule(occupants: Seq<(Entity, Option<u32>)>, upto: int) -> Seq<Seq<Entity>>
    decreases upto,
{
    if upto <= 0 {
        Seq::empty()
    } else if bucket(occupants, upto).len() > 0 {
        schedule(occupants, upto - 1).push(bucket(occupants, upto))
    } else {
        schedule(occupants, upto - 1)
    }
}

/// The buckets of one full cycle.
pub open spec fn turn_buckets(occupants: Seq<(Entity, Option<u32>)>) -> Seq<Seq<Entity>> {
    schedule(occupants, span(occupants))
}

/// The contents of a sequence of vectors.
pub open spec fn contents(buckets: Seq<Vec<Entity>>) -> Seq<Seq<Entity>> {
    buckets.map_values(|b: Vec<Entity>| b@)
}

/// `buckets` read cyclically from position `from`.
pub open spec fn rotated(buckets: Seq<Seq<Entity>>, from: int) -> Seq<Seq<Entity>> {
    if 0 <= from <= buckets.len() {
        buckets.skip(from) + buckets.take(from)
    } else {
        buckets
    }
}

/// Whether some entry of `occupants` records `entity` with the speed `speed`.
pub open spec fn has_speed(occupants: Seq<(Entity, Option<u32>)>, entity: Entity, speed: int) -> bool {
    exists|i: int|
        0 <= i < occupants.len() && (#[trigger] occupants[i]).0 == entity && speed_of(occupants[i])
            == speed
}

/// A tier holds exactly the occupants recorded with its speed.
pub proof fn lemma_tier_members(occupants: Seq<(Entity, Option<u32>)>, speed: int, entity: Entity)
    ensures
        tier(occupants, speed).contains(entity) <==> has_speed(occupants, entity, speed),
    decreases occupants.len(),
{
    if occupants.len() > 0 {
        let rest = occupants.drop_last();
        let last = occupants.last();
        lemma_tier_members(rest, speed, entity);
        vstd::seq_lib::lemma_seq_contains_after_push(tier(rest, speed), last.0, entity);
        if has_speed(rest, entity, speed) {
            let i = choose|i: int|
                0 <= i < rest.len() && (#[trigger] rest[i]).0 == entity && speed_of(rest[i]) == speed;
            assert(occupants[i] == rest[i]);
        }
        if has_speed(occupants, entity, speed) {
            let i = choose|i: int|
                0 <= i < occupants.len() && (#[trigger] occupants[i]).0 == entity && speed_of(
                    occupants[i],
                ) == speed;
            if i < rest.len() {
                assert(rest[i] == occupants[i]);
            }
        }
    }
}

/// The occupants repeated on a turn are exactly those recorded with a speed from 1 to `upto`
/// that divides the turn.
pub proof fn lemma_repeats_members(
    occupants: Seq<(Entity, Option<u32>)>,
    turn: int,
    upto: int,
    entity: Entity,
)
    ensures
        repeats(occupants, turn, upto).contains(entity) <==> exists|speed: int|
            1 <= speed <= upto && turn % speed == 0 && #[trigger] has_speed(occupants, entity, speed),
    decreases upto,
{
    if upto > 0 {
        lemma_repeats_members(occupants, turn, upto - 1, entity);
        lemma_tier_members(occupants, upto, entity);
        vstd::seq_lib::lemma_seq_concat_contains_all_elements(
            repeats(occupants, turn, upto - 1),
            tier(occupants, upto),
            entity,
        );
    }
}

/// The harmonic pattern: an occupant acts on a turn exactly when it is recorded with a speed
/// of at least 1 that divides the number of the turn.
pub proof fn lemma_bucket_members(occupants: Seq<(Entity, Option<u32>)>, turn: int, entity: Entity)
    requires
        turn >= 1,
    ensures
        bucket(occupants, turn).contains(entity) <==> exists|speed: int|
            1 <= speed <= turn && turn % speed == 0 && #[trigger] has_speed(occupants, entity, speed),
{
    lemma_tier_members(occupants, turn, entity);
    lemma_repeats_members(occupants, turn, turn - 1, entity);
    vstd::seq_lib::lemma_seq_concat_contains_all_elements(
        tier(occupants, turn),
        repeats(occupants, turn, turn - 1),
        entity,
    );
    vstd::arithmetic::div_mod::lemma_mod_self_0(turn);
}

/// The cursor after `advances` turns have been taken from position `index` of `len` buckets.
pub open spec fn cursor_after(index: nat, len: nat, advances: nat) -> nat
    decreases advances,
{
    if advances == 0 {
        index
    } else {
        (cursor_after(index, len, (advances - 1) as nat) + 1) % len
    }
}

/// After `advances` turns the cursor stands `advances` buckets on, counted cyclically.
pub proof fn lemma_cursor_position(index: nat, len: nat, advances: nat)
    requires
        index < len,
    ensures
        cursor_after(index, len, advances) == (index + advances) % len,
    decreases advances,
{
    let m = len as int;
    if advances == 0 {
        vstd::arithmetic::div_mod::lemma_small_mod(index, len);
    } else {
        let before = (index + advances - 1) as int;
        lemma_cursor_position(index, len, (advances - 1) as nat);
        vstd::arithmetic::div_mod::lemma_add_mod_noop(before, 1, m);
        if m > 1 {
            vstd::arithmetic::div_mod::lemma_small_mod(1, len);
        }
    }
}

/// Turns are taken round and round: after as many turns as there are buckets the cursor is
/// back where it was.
pub proof fn lemma_cursor_cycles(index: nat, len: nat)
    requires
        index < len,
    ensures
        cursor_after(index, len, len) == index,
{
    lemma_cursor_position(index, len, len);
    vstd::arithmetic::div_mod::lemma_mod_add_multiples_vanish(index as int, len as int);
    vstd::arithmetic::div_mod::lemma_small_mod(index, len);
}

/// What an occupant does on its turn.
#[derive(Clone, Copy, Debug, PartialEq, Eq, Structural)]
pub enum TurnAction {
    /// It stays where it is: there is no target, or no way towards it.
    Hold,
    /// It strikes the occupant `target`, which stands at `at`, next to it.
    Strike { target: Entity, at: Location },
    /// It has moved to `to`, on its way to the target at `toward`.
    Advance { to: Location, toward: Location },
}

/// The action of the occupant recorded by `place` once the search for a target has returned
/// `nearest`: hold without a target; strike a target that stands within one step; else move
/// along the route towards the target, by at most `steps` moves and no further than next to
/// it, and hold where no such move can be made.
pub open spec fn decided(grid: GridView, place: GridLocation, nearest: Option<Location>, steps: nat) -> TurnAction {
    match nearest {
        None => TurnAction::Hold,
        Some(target) => if place.location.distance_squared_to(target) <= 1 {
            match grid.occupant(place.kind, target) {
                Some(entity) => TurnAction::Strike { target: entity, at: target },
                None => TurnAction::Hold,
            }
        } else {
            let route = grid.route_next_to(place.kind, place.location, target, steps);
            if route.len() > 0 && grid.can_move(place.kind, place.location, route.last()) {
                TurnAction::Advance { to: route.last(), toward: target }
            } else {
                TurnAction::Hold
            }
        },
    }
}

/// The grid after the action `action` of the occupant recorded by `place`.
pub open spec fn grid_after(grid: GridView, place: GridLocation, action: TurnAction) -> GridView {
    match action {
        TurnAction::Advance { to, toward } => grid.relocate(place.kind, place.location, to),
        _ => grid,
    }
}

/// The record of where the occupant stands after its action `action`.
pub open spec fn place_after(place: GridLocation, action: TurnAction) -> GridLocation {
    match action {
        TurnAction::Advance { to, toward } => GridLocation { location: to, kind: place.kind },
        _ => place,
    }
}

/// What a turn order is: its buckets and the position of the bucket that acts next.
pub struct TurnOrderView {
    pub buckets: Seq<Seq<Entity>>,
    pub index: nat,
}

/// The buckets of a cycle and a cursor into them.
#[derive(Clone, Debug)]
pub struct TurnOrder {
    buckets: Vec<Vec<Entity>>,
    index: usize,
}

impl View for TurnOrder {
    type V = TurnOrderView;

    closed spec fn view(&self) -> TurnOrderView {
        TurnOrderView { buckets: contents(self.buckets@), index: self.index as nat }
    }
}

impl Default for TurnOrder {
    fn default() -> (r: TurnOrder)
        ensures
            r.well_formed(),
            r@.buckets.len() == 0,
            r@.index == 0,
    {
        TurnOrder { buckets: Vec::new(), index: 0 }
    }
}

/// A copy of `source`.
fn copy_of(source: &Vec<Entity>) -> (r: Vec<Entity>)
    ensures
        r@ == source@,
{
    let mut out: Vec<Entity> = Vec::new();
    let mut i: usize = 0;
    while i < source.len()
        invariant
            i <= source.len(),
            out@ == source@.take(i as int),
        decreases source.len() - i,
    {
        out.push(source[i]);
        i = i + 1;
    }
    out
}

/// Appends to `out` the occupants of speed `speed`, in their order.
fn push_tier(out: &mut Vec<Entity>, occupants: &Vec<(Entity, Option<u32>)>, speed: u32)
    requires
        speed >= 1,
    ensures
        final(out)@ == old(out)@ + tier(occupants@, speed as int),
{
    let mut i: usize = 0;
    while i < occupants.len()
        invariant
            speed >= 1,
            i <= occupants.len(),
            out@ == old(out)@ + tier(occupants@.take(i as int), speed as int),
        decreases occupants.len() - i,
    {
        let entry = occupants[i];
        match entry.1 {
            Some(s) => {
                if s == speed {
                    out.push(entry.0);
                }
            },
            None => {},
        }
        proof {
            let next = occupants@.take(i + 1);
            assert(next.drop_last() =~= occupants@.take(i as int));
            assert(out@ == old(out)@ + tier(next, speed as int));
        }
        i = i + 1;
    }
    assert(occupants@.take(i as int) =~= occupants@);
}

/// The occupants that act on turn `turn`.
fn build_bucket(occupants: &Vec<(Entity, Option<u32>)>, turn: u32) -> (r: Vec<Entity>)
    requires
        turn >= 1,
    ensures
        r@ == bucket(occupants@, turn as int),
{
    let mut repeated: Vec<Entity> = Vec::new();
    let mut speed: u32 = 1;
    while speed < turn
        invariant
            1 <= speed <= turn,
            repeated@ == repeats(occupants@, turn as int, speed - 1),
        decreases turn - speed,
    {
        if turn % speed == 0 {
            push_tier(&mut repeated, occupants, speed);
        }
        speed = speed + 1;
    }
    let mut out: Vec<Entity> = Vec::new();
    push_tier(&mut out, occupants, turn);
    let mut i: usize = 0;
    let ghost direct = out@;
    while i < repeated.len()
        invariant
            i <= repeated.len(),
            out@ == direct + repeated@.take(i as int),
        decreases repeated.len() - i,
    {
        out.push(repeated[i]);
        i = i + 1;
    }
    out
}

/// The highest speed among the occupants, 0 where none has a speed.
fn highest_speed(occupants: &Vec<(Entity, Option<u32>)>) -> (r: u32)
    ensures
        r == span(occupants@),
{
    let mut highest: u32 = 0;
    let mut i: usize = 0;
    while i < occupants.len()
        invariant
            i <= occupants.len(),
            highest == span(occupants@.take(i as int)),
        decreases occupants.len() - i,
    {
        let entry = occupants[i];
        proof {
            let next = occupants@.take(i + 1);
            assert(next.drop_last() =~= occupants@.take(i as int));
        }
        match entry.1 {
            Some(s) => {
                if s > highest {
                    highest = s;
                }
            },
            None => {},
        }
        i = i + 1;
    }
    assert(occupants@.take(i as int) =~= occupants@);
    highest
}

impl TurnOrder {
    /// The cursor points at a bucket unless there is none, and no bucket is empty.
    pub open spec fn well_formed(&self) -> bool {
        &&& self@.buckets.len() > 0 ==> self@.index < self@.buckets.len()
        &&& forall|i: int| 0 <= i < self@.buckets.len() ==> (#[trigger] self@.buckets[i]).len() > 0
    }

    /// Rebuilds the buckets from the occupants and their speeds. An occupant without a speed,
    /// or with speed 0, takes no turn. The cursor keeps its position modulo the new number of
    /// buckets; where no bucket is left it stays as it is.
    pub fn update_turn_order(&mut self, occupants: &Vec<(Entity, Option<u32>)>)
        ensures
            final(self).well_formed(),
            final(self)@.buckets == turn_buckets(occupants@),
            final(self)@.index == if turn_buckets(occupants@).len() > 0 {
                old(self)@.index % turn_buckets(occupants@).len()
            } else {
                old(self)@.index
            },
    {
        let cycle: u32 = highest_speed(occupants);
        let mut buckets: Vec<Vec<Entity>> = Vec::new();
        let mut turn: u32 = 0;
        while turn < cycle
            invariant
                turn <= cycle,
                contents(buckets@) == schedule(occupants@, turn as int),
                forall|i: int| 0 <= i < buckets@.len() ==> (#[trigger] buckets@[i])@.len() > 0,
            decreases cycle - turn,
        {
            turn = turn + 1;
            let acting = build_bucket(occupants, turn);
            if acting.len() > 0 {
                buckets.push(acting);
            }
        }
        if buckets.len() > 0 {
            self.index = self.index % buckets.len();
        }
        self.buckets = buckets;
    }

    /// The occupants that act now. The cursor moves on to the next bucket, and from the last
    /// back to the first. `None`, with nothing changed, where there is no bucket.
    pub fn get_next_entity(&mut self) -> (r: Option<Vec<Entity>>)
        requires
            old(self).well_formed(),
        ensures
            final(self).well_formed(),
            final(self)@.buckets == old(self)@.buckets,
            old(self)@.buckets.len() == 0 ==> r is None && final(self)@.index == old(self)@.index,
            old(self)@.buckets.len() > 0 ==> r is Some && r->0@ == old(self)@.buckets[old(self)@.index as int]
                && final(self)@.index == cursor_after(old(self)@.index, old(self)@.buckets.len(), 1),
    {
        if self.buckets.len() == 0 {
            return None;
        }
        let current: usize = self.index;
        let acting = copy_of(&self.buckets[current]);
        self.index = if current + 1 == self.buckets.len() {
            0
        } else {
            current + 1
        };
        assert(self.index == cursor_after(current as nat, self.buckets@.len(), 1)) by {
            assert(cursor_after(current as nat, self.buckets@.len(), 0) == current);
            if current + 1 < self.buckets@.len() {
                vstd::arithmetic::div_mod::lemma_small_mod((current + 1) as nat, self.buckets@.len());
            } else {
                vstd::arithmetic::div_mod::lemma_mod_self_0(self.buckets@.len() as int);
            }
        }
        Some(acting)
    }

    /// The buckets in the order in which they will act, starting at the cursor.
    pub fn iter_turns(&self) -> (r: Vec<Vec<Entity>>)
        requires
            self.well_formed(),
        ensures
            contents(r@) == rotated(self@.buckets, self@.index as int),
    {
        let mut out: Vec<Vec<Entity>> = Vec::new();
        let count: usize = self.buckets.len();
        if count == 0 {
            return out;
        }
        let mut i: usize = self.index;
        while i < count
            invariant
                self.index <= i <= count,
                count == self.buckets@.len(),
                contents(out@) == self@.buckets.subrange(self.index as int, i as int),
            decreases count - i,
        {
            let ghost before = out@;
            let acting = copy_of(&self.buckets[i]);
            out.push(acting);
            assert(contents(out@) =~= contents(before).push(acting@));
            i = i + 1;
        }
        let mut j: usize = 0;
        while j < self.index
            invariant
                j <= self.index < count,
                count == self.buckets@.len(),
                contents(out@) == self@.buckets.skip(self.index as int) + self@.buckets.take(j as int),
            decreases self.index - j,
        {
            let ghost before = out@;
            let acting = copy_of(&self.buckets[j]);
            out.push(acting);
            assert(contents(out@) =~= contents(before).push(acting@));
            j = j + 1;
        }
        out
    }

    /// Carries out the turn of the occupant recorded by `place`, given the cell `nearest` of
    /// the target that a search has found for it, if any.
    pub fn act_on(grid: &mut Grid, place: &mut GridLocation, nearest: Option<Location>, steps: usize) -> (r:
        TurnAction)
        requires
            old(grid).well_formed(),
        ensures
            final(grid).well_formed(),
            r == decided(old(grid)@, *old(place), nearest, steps as nat),
            final(grid)@ == grid_after(old(grid)@, *old(place), r),
            *final(place) == place_after(*old(place), r),
    {
        match nearest {
            None => TurnAction::Hold,
            Some(target) => {
                if place.location.distance_squared(&target) <= 1 {
                    match grid.get_entity(&place.kind, &target) {
                        Some(entity) => TurnAction::Strike { target: entity, at: target },
                        None => TurnAction::Hold,
                    }
                } else {
                    match grid.a_star_move(place, &target, steps) {
                        Some(_) => TurnAction::Advance { to: place.location, toward: target },
                        None => TurnAction::Hold,
                    }
                }
            },
        }
    }

    /// Takes the turn of the occupant recorded by `place`: looks for the nearest other cell, in
    /// breadth-first order biased along `direction`, that holds an occupant of the same kind
    /// which `hostile` accepts, and strikes it, moves towards it or holds.
    pub fn move_entity<F: Fn(&Entity) -> bool>(
        grid: &mut Grid,
        place: &mut GridLocation,
        direction: &Location,
        steps: usize,
        hostile: F,
    ) -> (r: TurnAction)
        requires
            old(grid).well_formed(),
            forall|entity: Entity| call_requires(hostile, (&entity,)),
        ensures
            final(grid).well_formed(),
            exists|nearest: Option<Location>|
                nearest_match(
                    old(grid)@,
                    old(place).kind,
                    breadth_first(old(grid)@.size, old(place).location, *direction, Shape::All),
                    hostile,
                    nearest,
                ) && r == #[trigger] decided(old(grid)@, *old(place), nearest, steps as nat),
            final(grid)@ == grid_after(old(grid)@, *old(place), r),
            *final(place) == place_after(*old(place), r),
    {
        let nearest = grid.nearest_entity(&place.kind, &place.location, direction, Shape::All, hostile);
        Self::act_on(grid, place, nearest, steps)
    }

    /// The position of the bucket that acts next.
    pub fn index(&self) -> (r: usize)
        ensures
            r == self@.index,
    {
        self.index
    }

    /// The number of buckets in a cycle.
    pub fn len(&self) -> (r: usize)
        ensures
            r == self@.buckets.len(),
    {
        self.buckets.len()
    }
}

} // verus!
