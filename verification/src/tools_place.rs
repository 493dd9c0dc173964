//! Tools that place, move and turn.

use vstd::prelude::*;

use crate::board::Id;
use crate::event::ActivityLevel;
use crate::geometry::Point;
use crate::project;
use crate::project::Project;
use crate::relocate;
use crate::rotation::{COORD_MAX, Rotation, TURN};
use crate::text;
use crate::text::{fixed_text, uint_text};
use crate::tools::{INVALID_PARAMS, ToolError};

verus! {

/// The angle as one from zero up to a whole turn.
pub open spec fn normalised(r: Rotation) -> Rotation {
    Rotation { udeg: (r.udeg as int % TURN as int) as i64, ..r }
}

/// The angle as one from zero up to a whole turn.
pub fn normalise(r: Rotation) -> (s: Rotation)
    requires
        r.wf(),
    ensures
        s == normalised(r),
        s.wf(),
        0 <= s.udeg < TURN,
        s.quarter() == r.quarter(),
{
    let m: i64 = r.udeg % TURN;
    let udeg: i64 = if m < 0 {
        m + TURN
    } else {
        m
    };
    assert(udeg == r.udeg as int % TURN as int);
    Rotation { udeg, cos: r.cos, sin: r.sin }
}

/// `(x, y) mm`.
pub open spec fn at_mm(p: Point) -> Seq<char> {
    relocate::at_mm(p)
}

/// The item was placed, and this was recorded.
pub open spec fn is_placed(a: Project, reference: Seq<char>, position: Point, b: Project, id: Id) -> bool {
    exists|m: Project| #[trigger]
        relocate::is_placing(a, reference, position, m, Ok::<Id, String>(id)) && b == (Project {
            events: b.events,
            ..m
        }) && project::logged(
            m.events@,
            b.events@,
            "placement.place_from_palette: "@ + reference + " at "@ + at_mm(position),
        )
}

/// One placement of many.
#[derive(Debug)]
pub struct BatchItem {
    pub reference: String,
    pub position: Point,
    pub rotation: Option<Rotation>,
}

/// How one placement of many went.
#[derive(Debug)]
pub enum Outcome {
    Placed(Id),
    /// It was not placed.
    NotPlaced(String),
    /// It was placed and not turned.
    NotTurned(Id, String),
}

/// The item was turned, where that is asked for.
pub open spec fn is_finished(m: Project, item: BatchItem, b: Project) -> bool {
    match item.rotation {
        None => m == b,
        Some(r) => exists|t: Id| #[trigger]
            relocate::is_turning(m, item.reference@, r, b, Ok::<Id, String>(t)),
    }
}

/// The item was placed.
pub open spec fn is_standing(a: Project, item: BatchItem, m: Project, id: Id) -> bool {
    relocate::is_placing(a, item.reference@, item.position, m, Ok::<Id, String>(id))
}

/// The item was placed, and turned where that is asked for.
pub open spec fn is_done(a: Project, item: BatchItem, b: Project, id: Id) -> bool {
    exists|m: Project| #[trigger] is_standing(a, item, m, id) && is_finished(m, item, b)
}

/// The item was placed, and could not be turned.
pub open spec fn is_half_done(a: Project, item: BatchItem, b: Project, id: Id, e: String) -> bool {
    item.rotation is Some && exists|m: Project| #[trigger]
        is_standing(a, item, m, id) && relocate::is_turning(
            m,
            item.reference@,
            item.rotation->0,
            b,
            Err::<Id, String>(e),
        )
}

/// How the placement of one item went from one state to the next.
pub open spec fn is_step(a: Project, item: BatchItem, b: Project, o: Outcome) -> bool {
    match o {
        Outcome::NotPlaced(e) => relocate::is_placing(
            a,
            item.reference@,
            item.position,
            b,
            Err::<Id, String>(e),
        ),
        Outcome::Placed(id) => is_done(a, item, b, id),
        Outcome::NotTurned(id, e) => is_half_done(a, item, b, id, e),
    }
}

/// The items were placed one after another, from the first state to the
/// last.
pub open spec fn is_run(states: Seq<Project>, items: Seq<BatchItem>, outcomes: Seq<Outcome>) -> bool {
    &&& states.len() == outcomes.len() + 1
    &&& forall|i: int|
        0 <= i < outcomes.len() ==> is_step(
            states[i],
            items[i],
            states[i + 1],
            #[trigger] outcomes[i],
        )
}

/// The outcome is good.
pub open spec fn is_good() -> spec_fn(Outcome) -> bool {
    |o: Outcome| o is Placed
}

impl Project {
    /// Places a palette item.
    pub fn tool_place_from_palette(&mut self, reference: &str, position: Point) -> (r: Result<
        (String, Id),
        ToolError,
    >)
        requires
            old(self).wf(),
            old(self).in_range(),
            position.within(COORD_MAX as int),
        ensures
            final(self).wf(),
            final(self).in_range(),
            match r {
                Err(e) => e.code == INVALID_PARAMS && relocate::is_placing(
                    *old(self),
                    reference@,
                    position,
                    *final(self),
                    Err::<Id, String>(e.message),
                ),
                Ok((reply, id)) => reply@ == "Placed "@ + reference@ && is_placed(
                    *old(self),
                    reference@,
                    position,
                    *final(self),
                    id,
                ),
            },
    {
        let id = match self.place_from_palette(reference, position) {
            Ok(id) => id,
            Err(e) => {
                return Err(ToolError::invalid_params(e));
            },
        };
        let ghost m = *self;
        assert(relocate::is_placing(
            *old(self),
            reference@,
            position,
            m,
            Ok::<Id, String>(id),
        ));
        self.log(
            ActivityLevel::Info,
            "placement.place_from_palette: ".to_owned().concat(reference).concat(" at ").concat(
                relocate::at_text(position).as_str(),
            ),
        );
        assert(self.events@.drop_last() =~= m.events@);
        assert(is_placed(*old(self), reference@, position, *self, id));
        Ok(("Placed ".to_owned().concat(reference), id))
    }

    /// Places one item of many, and turns it where that is asked for.
    fn place_one(&mut self, item: &BatchItem) -> (r: Outcome)
        requires
            old(self).wf(),
            old(self).in_range(),
            item.position.within(COORD_MAX as int),
            item.rotation matches Some(t) ==> t.wf(),
        ensures
            final(self).wf(),
            final(self).in_range(),
            is_step(*old(self), *item, *final(self), r),
    {
        let id = match self.place_from_palette(item.reference.as_str(), item.position) {
            Ok(id) => id,
            Err(e) => {
                return Outcome::NotPlaced(e);
            },
        };
        let ghost m = *self;
        assert(is_standing(*old(self), *item, m, id));
        if let Some(t) = item.rotation {
            match self.rotate_footprint(item.reference.as_str(), t) {
                Ok(_same) => {
                    assert(relocate::is_turning(
                        m,
                        item.reference@,
                        t,
                        *self,
                        Ok::<Id, String>(_same),
                    ));
                },
                Err(e) => {
                    assert(is_half_done(*old(self), *item, *self, id, e));
                    return Outcome::NotTurned(id, e);
                },
            }
        }
        assert(is_finished(m, *item, *self));
        assert(is_done(*old(self), *item, *self, id));
        Outcome::Placed(id)
    }

    /// Places many items, in their order; one that fails does not stop the
    /// rest.
    pub fn tool_placement_batch(&mut self, items: &Vec<BatchItem>) -> (r: (String, Vec<Outcome>))
        requires
            old(self).wf(),
            old(self).in_range(),
            forall|i: int|
                0 <= i < items@.len() ==> (#[trigger] items@[i]).position.within(COORD_MAX as int)
                    && (items@[i].rotation matches Some(t) ==> t.wf()),
        ensures
            final(self).wf(),
            final(self).in_range(),
            r.1@.len() == items@.len(),
            ({
                let ok = r.1@.filter(is_good()).len();
                let words = text::dec(ok) + " placed, "@ + text::dec((items@.len() - ok) as nat)
                    + " failed"@;
                &&& r.0@ == words
                &&& exists|states: Seq<Project>| #[trigger]
                    is_run(states, items@, r.1@) && states[0] == *old(self) && *final(self) == (
                    Project { events: final(self).events, ..states.last() }) && project::logged(
                        states.last().events@,
                        final(self).events@,
                        "placement.batch: "@ + words,
                    )
            }),
    {
        let mut out: Vec<Outcome> = Vec::new();
        let mut ok: usize = 0;
        let mut i: usize = 0;
        let ghost mut states: Seq<Project> = seq![*self];
        proof {
            reveal(Seq::filter);
        }
        while i < items.len()
            invariant
                i <= items@.len(),
                self.wf(),
                self.in_range(),
                forall|k: int|
                    0 <= k < items@.len() ==> (#[trigger] items@[k]).position.within(
                        COORD_MAX as int,
                    ) && (items@[k].rotation matches Some(t) ==> t.wf()),
                out@.len() == i,
                ok <= i,
                ok == out@.filter(is_good()).len(),
                is_run(states, items@, out@),
                states[0] == *old(self),
                states.last() == *self,
            decreases items@.len() - i,
        {
            let ghost before = out@;
            let ghost was = states;
            assert(items@[i as int].position.within(COORD_MAX as int));
            let o = self.place_one(&items[i]);
            let good = matches!(o, Outcome::Placed(_));
            let ghost step = o;
            out.push(o);
            proof {
                states = states.push(*self);
                assert(is_step(was.last(), items@[i as int], *self, step));
                assert forall|k: int| 0 <= k < out@.len() implies is_step(
                    states[k],
                    items@[k],
                    states[k + 1],
                    #[trigger] out@[k],
                ) by {
                    if k < i {
                        assert(out@[k] == before[k]);
                        assert(states[k] == was[k] && states[k + 1] == was[k + 1]);
                    }
                }
                reveal(Seq::filter);
                assert(out@.drop_last() =~= before);
            }
            if good {
                ok += 1;
            }
            i += 1;
        }
        let ghost m = *self;
        let words = uint_text(ok as u128).concat(" placed, ").concat(
            uint_text((items.len() - ok) as u128).as_str(),
        ).concat(" failed");
        self.log(ActivityLevel::Info, "placement.batch: ".to_owned().concat(words.as_str()));
        assert(self.events@.drop_last() =~= m.events@);
        assert(is_run(states, items@, out@));
        (words, out)
    }

    /// Moves a footprint.
    pub fn tool_placement_move(&mut self, reference: &str, position: Point) -> (r: Result<
        String,
        ToolError,
    >)
        requires
            old(self).wf(),
            old(self).in_range(),
            position.within(COORD_MAX as int),
        ensures
            final(self).wf(),
            final(self).in_range(),
            match r {
                Err(e) => e.code == INVALID_PARAMS && relocate::is_moving(
                    *old(self),
                    reference@,
                    position,
                    *final(self),
                    Err::<Id, String>(e.message),
                ),
                Ok(reply) => reply@ == "Moved "@ + reference@ + " to "@ + at_mm(position)
                    && exists|id: Id| #[trigger]
                    relocate::is_moving(
                        *old(self),
                        reference@,
                        position,
                        *final(self),
                        Ok::<Id, String>(id),
                    ),
            },
    {
        match self.move_footprint_to(reference, position) {
            Ok(id) => {
                assert(relocate::is_moving(
                    *old(self),
                    reference@,
                    position,
                    *self,
                    Ok::<Id, String>(id),
                ));
                Ok(
                    "Moved ".to_owned().concat(reference).concat(" to ").concat(
                        relocate::at_text(position).as_str(),
                    ),
                )
            },
            Err(e) => Err(ToolError::invalid_params(e)),
        }
    }

    /// Turns a footprint to an angle within a whole turn.
    pub fn tool_placement_rotate(&mut self, reference: &str, rotation: Rotation) -> (r: Result<
        String,
        ToolError,
    >)
        requires
            old(self).wf(),
            old(self).in_range(),
            rotation.wf(),
        ensures
            final(self).wf(),
            final(self).in_range(),
            ({
                let t = normalised(rotation);
                let deg = text::fixed(t.udeg as int, 0) + "°"@;
                match r {
                    Err(e) => e.code == INVALID_PARAMS && relocate::is_turning(
                        *old(self),
                        reference@,
                        t,
                        *final(self),
                        Err::<Id, String>(e.message),
                    ),
                    Ok(reply) => reply@ == "Rotated "@ + reference@ + " to "@ + deg && exists|
                        m: Project,
                        id: Id,
                    | #[trigger]
                        relocate::is_turning(*old(self), reference@, t, m, Ok::<Id, String>(id))
                            && *final(self) == (Project { events: final(self).events, ..m })
                            && project::logged(
                            m.events@,
                            final(self).events@,
                            "placement.rotate: "@ + reference@ + " → "@ + deg,
                        ),
                }
            }),
    {
        let t = normalise(rotation);
        match self.rotate_footprint(reference, t) {
            Ok(id) => {
                let ghost m = *self;
                assert(relocate::is_turning(*old(self), reference@, t, m, Ok::<Id, String>(id)));
                let deg = fixed_text(t.udeg, 0).concat("°");
                self.log(
                    ActivityLevel::Info,
                    "placement.rotate: ".to_owned().concat(reference).concat(" → ").concat(
                        deg.as_str(),
                    ),
                );
                assert(self.events@.drop_last() =~= m.events@);
                Ok("Rotated ".to_owned().concat(reference).concat(" to ").concat(deg.as_str()))
            },
            Err(e) => Err(ToolError::invalid_params(e)),
        }
    }
}

} // verus!
