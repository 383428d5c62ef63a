//! Playback: the animation state of one sprite instance, started on a resolved
//! range and stepped by elapsed time.

use vstd::prelude::*;
use crate::assets::{error_matches, opt_view, position_of, Aseprite, RangeError, RangeOutcome};
use crate::document::TagDirection;

verus! {

/// The filter that selects what a sprite instance plays: a layer, a tag, a
/// slice, and a nine-patch quadrant of that slice.
#[derive(Clone, Debug, Default, PartialEq, Eq)]
pub struct AsepriteAtlas {
    pub layer: Option<&'static str>,
    pub tag: Option<&'static str>,
    pub slice: Option<&'static str>,
    pub ninepatch: Option<u8>,
}

/// How playback moves through a range.
#[derive(Clone, Copy, Debug, PartialEq, Eq, Structural)]
pub enum AnimationDirection {
    /// Up, wrapping to the start.
    Forward,
    /// Down, wrapping to the end.
    Backward,
    /// Up, then down, turning at each end without visiting it twice.
    PingPong,
}

pub open spec fn direction_of(d: TagDirection) -> AnimationDirection {
    match d {
        TagDirection::Forward => AnimationDirection::Forward,
        TagDirection::Reverse => AnimationDirection::Backward,
        TagDirection::PingPong => AnimationDirection::PingPong,
    }
}

impl From<TagDirection> for AnimationDirection {
    fn from(d: TagDirection) -> Self {
        match d {
            TagDirection::Forward => AnimationDirection::Forward,
            TagDirection::Reverse => AnimationDirection::Backward,
            TagDirection::PingPong => AnimationDirection::PingPong,
        }
    }
}

impl vstd::std_specs::convert::FromSpecImpl<TagDirection> for AnimationDirection {
    open spec fn obeys_from_spec() -> bool {
        true
    }

    open spec fn from_spec(d: TagDirection) -> Self {
        direction_of(d)
    }
}

impl Default for AnimationDirection {
    fn default() -> (r: Self)
        ensures
            r == AnimationDirection::Forward,
    {
        AnimationDirection::Forward
    }
}

/// The playback state of one sprite instance. `index_range` is a half-open
/// range of atlas slots; `time_elapsed` is the time accumulated on the current
/// slot.
#[derive(Debug)]
pub struct AsepriteAnimation {
    pub direction: AnimationDirection,
    pub time_elapsed: u64,
    pub current_index: u32,
    pub index_range: core::ops::Range<u32>,
    pub pong: bool,
}

/// The slot and turn flag after one step from `cur` in `[start, end)`.
pub open spec fn next_position(dir: AnimationDirection, pong: bool, cur: int, start: int, end: int) -> (int, bool) {
    match dir {
        AnimationDirection::Forward => if cur + 1 >= end {
            (start, pong)
        } else {
            (cur + 1, pong)
        },
        AnimationDirection::Backward => if cur <= start {
            (end - 1, pong)
        } else {
            (cur - 1, pong)
        },
        AnimationDirection::PingPong => if !pong {
            if cur + 1 >= end {
                (if cur > start { cur - 1 } else { cur }, true)
            } else {
                (cur + 1, false)
            }
        } else {
            if cur <= start {
                (if cur + 1 < end { cur + 1 } else { cur }, false)
            } else {
                (cur - 1, true)
            }
        },
    }
}

/// Where playback stands after spending `time` from slot `cur`: while the time
/// covers the current slot's duration (`durations[cur - start]`), spend it and
/// step. Returns the slot, the turn flag and the time left over.
pub open spec fn run(
    dir: AnimationDirection,
    pong: bool,
    cur: int,
    start: int,
    end: int,
    time: int,
    durations: Seq<u64>,
) -> (int, bool, int)
    decreases time,
{
    let d = durations[cur - start] as int;
    if d <= 0 || time < d {
        (cur, pong, time)
    } else {
        let (c, p) = next_position(dir, pong, cur, start, end);
        run(dir, p, c, start, end, time - d, durations)
    }
}

proof fn lemma_next_in_range(dir: AnimationDirection, pong: bool, cur: int, start: int, end: int)
    requires
        start <= cur < end,
    ensures
        start <= next_position(dir, pong, cur, start, end).0 < end,
{
}

impl AsepriteAnimation {
    /// The state that playing `[start, end)` in direction `dir` starts from.
    pub open spec fn started(dir: AnimationDirection, start: u32, end: u32) -> AsepriteAnimation {
        AsepriteAnimation {
            direction: dir,
            time_elapsed: 0,
            current_index: if dir == AnimationDirection::Backward { (end - 1) as u32 } else { start },
            index_range: core::ops::Range { start, end },
            pong: false,
        }
    }

    /// The state stays on a slot of its range, and the range has a duration
    /// (each positive) for every slot, counted from the range's start.
    pub open spec fn wf(&self, durations: Seq<u64>) -> bool {
        &&& self.index_range.start <= self.current_index < self.index_range.end
        &&& self.index_range.end - self.index_range.start <= durations.len()
        &&& forall|i: int| 0 <= i < durations.len() ==> #[trigger] durations[i] > 0
    }

    /// Starts playing `range` in direction `direction`: no time spent, not
    /// turned, on the first slot (the last one when playing backward).
    pub fn start(&mut self, range: core::ops::Range<u32>, direction: AnimationDirection)
        requires
            range.start < range.end,
        ensures
            *final(self) == Self::started(direction, range.start, range.end),
    {
        self.current_index = match direction {
            AnimationDirection::Backward => range.end - 1,
            _ => range.start,
        };
        self.direction = direction;
        self.index_range = range;
        self.time_elapsed = 0;
        self.pong = false;
    }

    /// Resolves the filter against the sprite and starts playing its range, in
    /// the tag's direction (forward without a tag). Returns the first slot. On a
    /// filter that does not resolve, returns why and leaves the state as it was.
    pub fn fixup(&mut self, ase_atlas: &AsepriteAtlas, aseprite: &Aseprite) -> (r: Result<usize, RangeError>)
        requires
            aseprite.wf(),
        ensures
            ({
                let o = aseprite.range_outcome(
                    opt_view(ase_atlas.layer),
                    opt_view(ase_atlas.tag),
                    opt_view(ase_atlas.slice),
                    ase_atlas.ninepatch,
                );
                match o {
                    RangeOutcome::Range(s, e) => {
                        let dir = match ase_atlas.tag {
                            Some(t) => direction_of(aseprite.tags[position_of(aseprite.tag_names(), t@, 0)].direction),
                            None => AnimationDirection::Forward,
                        };
                        &&& *final(self) == Self::started(dir, s, e)
                        &&& r == Ok::<usize, RangeError>(final(self).current_index as usize)
                        &&& final(self).wf(aseprite.frame_durations@)
                    },
                    _ => r is Err && error_matches(r->Err_0, o) && *final(self) == *old(self),
                }
            }),
    {
        let range = match aseprite.atlas_range(ase_atlas.layer, ase_atlas.tag, ase_atlas.slice, ase_atlas.ninepatch) {
            Ok(range) => range,
            Err(e) => {
                return Err(e);
            },
        };
        let direction = match ase_atlas.tag {
            Some(name) => match aseprite.tag(name) {
                Ok(t) => AnimationDirection::from(t.direction),
                Err(e) => {
                    return Err(e);
                },
            },
            None => AnimationDirection::Forward,
        };
        self.start(range, direction);
        Ok(self.current_index as usize)
    }

    /// Adds `elapsed` to the time spent on the current slot, then, while that
    /// time covers the slot's duration, spends it and steps in the playback
    /// direction. Returns the slot reached.
    pub fn step(&mut self, elapsed: u64, aseprite: &Aseprite) -> (r: usize)
        requires
            old(self).wf(aseprite.frame_durations@),
            old(self).time_elapsed + elapsed <= u64::MAX,
        ensures
            final(self).wf(aseprite.frame_durations@),
            final(self).direction == old(self).direction,
            final(self).index_range == old(self).index_range,
            (final(self).current_index as int, final(self).pong, final(self).time_elapsed as int) == run(
                old(self).direction,
                old(self).pong,
                old(self).current_index as int,
                old(self).index_range.start as int,
                old(self).index_range.end as int,
                old(self).time_elapsed + elapsed,
                aseprite.frame_durations@,
            ),
            final(self).time_elapsed < aseprite.frame_durations[final(self).current_index - final(self).index_range.start],
            r == final(self).current_index,
    {
        let start = self.index_range.start;
        let end = self.index_range.end;
        let ghost durations = aseprite.frame_durations@;
        let ghost goal = run(
            self.direction,
            self.pong,
            self.current_index as int,
            start as int,
            end as int,
            self.time_elapsed + elapsed,
            durations,
        );
        let mut time = self.time_elapsed + elapsed;
        let mut cur = self.current_index;
        let mut pong = self.pong;
        let mut d = aseprite.frame_durations[(cur - start) as usize];
        while time >= d
            invariant
                start <= cur < end,
                end - start <= durations.len(),
                durations == aseprite.frame_durations@,
                forall|i: int| 0 <= i < durations.len() ==> #[trigger] durations[i] > 0,
                d == durations[cur - start],
                run(self.direction, pong, cur as int, start as int, end as int, time as int, durations) == goal,
            decreases time,
        {
            time = time - d;
            proof {
                lemma_next_in_range(self.direction, pong, cur as int, start as int, end as int);
            }
            match self.direction {
                AnimationDirection::Forward => {
                    cur = if cur + 1 >= end { start } else { cur + 1 };
                },
                AnimationDirection::Backward => {
                    cur = if cur <= start { end - 1 } else { cur - 1 };
                },
                AnimationDirection::PingPong => {
                    if !pong {
                        if cur + 1 >= end {
                            pong = true;
                            if cur > start {
                                cur = cur - 1;
                            }
                        } else {
                            cur = cur + 1;
                        }
                    } else {
                        if cur <= start {
                            pong = false;
                            if cur + 1 < end {
                                cur = cur + 1;
                            }
                        } else {
                            cur = cur - 1;
                        }
                    }
                },
            }
            d = aseprite.frame_durations[(cur - start) as usize];
        }
        self.current_index = cur;
        self.pong = pong;
        self.time_elapsed = time;
        cur as usize
    }
}

} // verus!
