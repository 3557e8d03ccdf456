//! The simulation world: the chain registry plus the arena of segments,
//! stepped once per tick by an outside driver.
//!
//! The driver owns the frame loop, raw input and rendering; each tick it
//! hands this module the elapsed time, an input snapshot and the trig data
//! the motion rules ask for, and the world advances every chain: heads are
//! steered toward the target point, then every trailing segment follows the
//! segment ahead of it, reading predecessor positions as they stood at tick
//! start, so the outcome does not depend on any iteration order. Growth
//! events append one segment at a time through the registry's protocol.

use vstd::prelude::*;
use crate::angle::{HALF_TURN, is_normal_angle};
use crate::geom::{Pos, in_bounds, dist_sq, sqrt_floor};
use crate::motion::{Transform2, transform_wf, FollowConfig, SteerConfig, SPEED_LIMIT, DT_LIMIT};
use crate::motion::{follow_config_wf, steer_config_wf, follower_step, steer_step};
use crate::motion::{spec_steer_speed, spec_steer_heading, spec_steer_move, spec_approach};
use crate::motion::{spec_rotated_heading, spec_translate, spec_move_dist};
use crate::registry::{Registry, RegistryModel, RegistryError, entry, has_index, seg_registered,
    head_registered, append_model, create_model, lemma_identity_unique};

verus! {

/// A display color, in milli-intensity channels (1000 is full).
#[derive(Clone, Copy, PartialEq, Eq, Structural, Debug)]
pub struct Rgba {
    pub red: u32,
    pub green: u32,
    pub blue: u32,
    pub alpha: u32,
}

/// Per-segment attributes.
#[derive(Clone, Copy, PartialEq, Eq, Structural, Debug)]
pub struct Attributes {
    /// Display color.
    pub color: Rgba,
    /// Health, in milli-points.
    pub health: u32,
    /// Vision radius, in milli-units.
    pub vision: u32,
    /// Own forward speed, in milli-units per second; for a head, the
    /// steering speed the last tick used, in thousandths per second.
    pub speed: u64,
}

/// One body segment: a transform and its attributes.
#[derive(Clone, Copy, PartialEq, Eq, Structural, Debug)]
pub struct Segment {
    pub transform: Transform2,
    pub attrs: Attributes,
}

/// A segment the motion rules can step: transform within the world, speed
/// within the integration limit.
pub open spec fn segment_wf(s: Segment) -> bool {
    transform_wf(s.transform) && s.attrs.speed <= SPEED_LIMIT
}

/// The attributes a freshly spawned head carries.
pub fn head_attributes() -> (a: Attributes)
    ensures
        a == (Attributes {
            color: Rgba { red: 0, green: 8000, blue: 0, alpha: 1000 },
            health: 100_000,
            vision: 10_000,
            speed: 20_000,
        }),
{
    Attributes {
        color: Rgba { red: 0, green: 8000, blue: 0, alpha: 1000 },
        health: 100_000,
        vision: 10_000,
        speed: 20_000,
    }
}

/// The attributes a freshly grown body segment carries.
pub fn body_attributes() -> (a: Attributes)
    ensures
        a == (Attributes {
            color: Rgba { red: 8000, green: 0, blue: 0, alpha: 1000 },
            health: 100_000,
            vision: 10_000,
            speed: 20_000,
        }),
{
    Attributes {
        color: Rgba { red: 8000, green: 0, blue: 0, alpha: 1000 },
        health: 100_000,
        vision: 10_000,
        speed: 20_000,
    }
}

/// The transform a freshly grown body segment starts from: the world
/// origin, heading 0.
pub fn spawn_transform() -> (t: Transform2)
    ensures
        t == (Transform2 { pos: Pos { x: 0, y: 0 }, heading: 0 }),
{
    Transform2 { pos: Pos { x: 0, y: 0 }, heading: 0 }
}

/// The identity `s` stands at some trailing index (1 or beyond) of some
/// chain.
pub open spec fn tail_registered(m: RegistryModel, s: usize) -> bool {
    exists|c: int, i: int| 1 <= i && has_index(m, c, i) && #[trigger] entry(m, c, i) == s
}

/// The identity immediately ahead of trailing segment `s`: under a
/// well-formed registry, `s` stands at exactly one `(chain, index)`, and
/// this is the identity at `index - 1` of that chain.
pub open spec fn tail_pred(m: RegistryModel, s: usize) -> usize {
    let (c, i) = choose|c: int, i: int|
        1 <= i && has_index(m, c, i) && #[trigger] entry(m, c, i) == s;
    entry(m, c, i - 1)
}

/// Under a well-formed registry no identity is both a head and a trailing
/// segment.
pub proof fn lemma_head_not_tail(m: RegistryModel, s: usize)
    requires
        crate::registry::wf(m),
    ensures
        !(head_registered(m, s) && tail_registered(m, s)),
{
    if head_registered(m, s) && tail_registered(m, s) {
        let c1 = choose|c: int| 0 <= c < m.len() && #[trigger] entry(m, c, 0) == s;
        let (c2, i2) = choose|c: int, i: int|
            1 <= i && has_index(m, c, i) && #[trigger] entry(m, c, i) == s;
        lemma_identity_unique(m, c1, 0, c2, i2);
    }
}

/// The input snapshot one tick consumes: the target world point, the two
/// held inputs, and the trig data the motion rules ask for — per segment
/// identity, the bearing of the target from that segment's position (used
/// for heads) and the forward unit vector, scaled by 1000, of the heading
/// the segment takes after this tick's constant turn (used for followers).
pub struct TickInput {
    pub target: Pos,
    pub boost: bool,
    pub advance: bool,
    pub bearings: Vec<i64>,
    pub forwards: Vec<(i64, i64)>,
}

/// The input snapshot covers all `n` segments with in-range data.
pub open spec fn tick_input_wf(inp: TickInput, n: int) -> bool {
    &&& in_bounds(inp.target)
    &&& inp.bearings@.len() == n
    &&& inp.forwards@.len() == n
    &&& forall|j: int| 0 <= j < n ==> -HALF_TURN <= #[trigger] inp.bearings@[j] <= HALF_TURN
    &&& forall|j: int| 0 <= j < n
        ==> -1000 <= (#[trigger] inp.forwards@[j]).0 <= 1000 && -1000 <= inp.forwards@[j].1 <= 1000
}

/// The segment a head becomes after one steering tick: its transform is
/// steered toward the target and its speed attribute records the steering
/// speed the tick used.
pub open spec fn spec_steered_segment(
    seg: Segment,
    target: Pos,
    bearing: int,
    boost: bool,
    advance: bool,
    dt: int,
    cfg: SteerConfig,
) -> Segment {
    let sp = spec_steer_speed(boost, cfg);
    let h = if target == seg.transform.pos {
        seg.transform.heading as int
    } else {
        spec_steer_heading(seg.transform.heading as int, bearing, sp, dt)
    };
    let p = if advance && sqrt_floor(dist_sq(seg.transform.pos, target)) > cfg.threshold {
        spec_approach(seg.transform.pos, target, spec_steer_move(cfg.threshold as int, sp, dt))
    } else {
        seg.transform.pos
    };
    Segment {
        transform: Transform2 { pos: p, heading: h as i64 },
        attrs: Attributes {
            color: seg.attrs.color,
            health: seg.attrs.health,
            vision: seg.attrs.vision,
            speed: sp as u64,
        },
    }
}

/// The segment a follower becomes after one propagation tick: turned by
/// the constant turn rate and moved forward along its new heading at its
/// own speed attribute; attributes are untouched.
pub open spec fn spec_followed_segment(
    seg: Segment,
    forward: (i64, i64),
    dt: int,
    cfg: FollowConfig,
) -> Segment {
    Segment {
        transform: Transform2 {
            pos: spec_translate(
                seg.transform.pos,
                forward,
                spec_move_dist(seg.attrs.speed as int, dt),
            ),
            heading: spec_rotated_heading(seg.transform.heading as int, dt, cfg) as i64,
        },
        attrs: seg.attrs,
    }
}

/// What one tick makes of segment `id`: heads are steered, trailing
/// segments with a predecessor follow it, and unregistered segments do not
/// move.
pub open spec fn spec_tick_segment(
    m: RegistryModel,
    segs: Seq<Segment>,
    id: int,
    inp: TickInput,
    dt: int,
    fcfg: FollowConfig,
    scfg: SteerConfig,
) -> Segment {
    if head_registered(m, id as usize) {
        spec_steered_segment(
            segs[id],
            inp.target,
            inp.bearings@[id] as int,
            inp.boost,
            inp.advance,
            dt,
            scfg,
        )
    } else if tail_registered(m, id as usize) {
        spec_followed_segment(segs[id], inp.forwards@[id], dt, fcfg)
    } else {
        segs[id]
    }
}

/// The identity `s` heads one of the first `c` chains.
pub open spec fn head_in_prefix(m: RegistryModel, s: usize, c: int) -> bool {
    exists|cc: int| 0 <= cc < c && cc < m.len() && #[trigger] entry(m, cc, 0) == s
}

/// The identity `s` stands at a trailing index strictly before position
/// `(c, i)` in the chain-by-chain, index-by-index walk.
pub open spec fn tail_in_prefix(m: RegistryModel, s: usize, c: int, i: int) -> bool {
    exists|cc: int, ii: int|
        1 <= ii && has_index(m, cc, ii) && (cc < c || (cc == c && ii < i))
            && #[trigger] entry(m, cc, ii) == s
}

/// The simulation world: every chain, and every segment ever created,
/// identified by its index in creation order.
pub struct World {
    registry: Registry,
    segments: Vec<Segment>,
}

impl World {
    /// The chains, as the registry's model.
    pub closed spec fn chains(&self) -> RegistryModel {
        self.registry@
    }

    /// Every segment, by identity.
    pub closed spec fn segs(&self) -> Seq<Segment> {
        self.segments@
    }

    /// Well-formedness: the registry is well-formed, every registered
    /// identity names an existing segment, and every segment can be
    /// stepped.
    pub open spec fn wf(&self) -> bool {
        &&& crate::registry::wf(self.chains())
        &&& forall|c: int, i: int| has_index(self.chains(), c, i)
            ==> (#[trigger] entry(self.chains(), c, i)) < self.segs().len()
        &&& forall|j: int| 0 <= j < self.segs().len() ==> segment_wf(#[trigger] self.segs()[j])
    }

    /// An empty world.
    pub fn new() -> (w: World)
        ensures
            w.wf(),
            w.chains() == Seq::<Seq<usize>>::empty(),
            w.segs() == Seq::<Segment>::empty(),
    {
        let w = World { registry: Registry::new(), segments: Vec::new() };
        proof {
            assert(w.segs() =~= Seq::<Segment>::empty());
        }
        w
    }

    /// How many segments exist.
    pub fn segment_count(&self) -> (r: usize)
        ensures
            r == self.segs().len(),
    {
        self.segments.len()
    }

    /// How many chains exist.
    pub fn chain_count(&self) -> (r: usize)
        ensures
            r == self.chains().len(),
    {
        self.registry.chain_count()
    }

    /// The segment with identity `id`, when it exists.
    pub fn segment(&self, id: usize) -> (r: Option<Segment>)
        ensures
            r == if id < self.segs().len() {
                Some(self.segs()[id as int])
            } else {
                None::<Segment>
            },
    {
        if id < self.segments.len() {
            Some(self.segments[id])
        } else {
            None
        }
    }

    /// The identity at `(chain, index)`, when present.
    pub fn segment_at(&self, chain: usize, index: usize) -> (r: Option<usize>)
        ensures
            r == if has_index(self.chains(), chain as int, index as int) {
                Some(entry(self.chains(), chain as int, index as int))
            } else {
                None::<usize>
            },
    {
        self.registry.segment_at(chain, index)
    }

    /// How many segments chain `chain` holds, when it exists.
    pub fn chain_len(&self, chain: usize) -> (r: Option<usize>)
        ensures
            r == if chain < self.chains().len() {
                Some(self.chains()[chain as int].len() as usize)
            } else {
                None::<usize>
            },
    {
        self.registry.chain_len(chain)
    }

    /// Whether `id` is the head of some chain.
    pub fn is_head(&self, id: usize) -> (r: bool)
        requires
            self.wf(),
        ensures
            r == head_registered(self.chains(), id),
    {
        self.registry.is_head(id)
    }

    /// Create a head segment at the given transform and register it as
    /// index 0 of a brand-new chain. Returns the new segment's identity;
    /// the new chain's id is the previous chain count.
    pub fn spawn_head(&mut self, pos: Pos, heading: i64) -> (r: usize)
        requires
            old(self).wf(),
            in_bounds(pos),
            is_normal_angle(heading as int),
        ensures
            final(self).wf(),
            r == old(self).segs().len(),
            final(self).segs() == old(self).segs().push(
                Segment {
                    transform: Transform2 { pos, heading },
                    attrs: Attributes {
                        color: Rgba { red: 0, green: 8000, blue: 0, alpha: 1000 },
                        health: 100_000,
                        vision: 10_000,
                        speed: 20_000,
                    },
                },
            ),
            final(self).chains() == create_model(old(self).chains(), r),
    {
        let id = self.segments.len();
        proof {
            if seg_registered(self.chains(), id) {
                let (c, i) = choose|c: int, i: int|
                    has_index(self.chains(), c, i) && #[trigger] entry(self.chains(), c, i) == id;
                assert(entry(self.chains(), c, i) < self.segs().len());
            }
        }
        let seg = Segment { transform: Transform2 { pos, heading }, attrs: head_attributes() };
        self.segments.push(seg);
        let ghost m = self.registry@;
        match self.registry.create_chain(id) {
            Ok(_) => {},
            Err(_) => {
                proof {
                    assert(false);
                }
            },
        }
        proof {
            let m2 = self.chains();
            assert forall|c: int, i: int| has_index(m2, c, i)
                implies (#[trigger] entry(m2, c, i)) < self.segs().len() by {
                if c < m.len() {
                    assert(entry(m, c, i) < old(self).segs().len());
                }
            }
        }
        id
    }

    /// One growth event: create a body segment with the standard
    /// attributes at the spawn transform and append it to chain `chain`.
    /// The index assigned is exactly the chain's segment count before the
    /// call, so two growth events in one tick occupy two successive
    /// indices. Fails only when the chain does not exist.
    pub fn grow(&mut self, chain: usize) -> (r: Result<usize, RegistryError>)
        requires
            old(self).wf(),
        ensures
            final(self).wf(),
            match r {
                Ok(idx) => chain < old(self).chains().len()
                    && idx == old(self).chains()[chain as int].len()
                    && final(self).segs() == old(self).segs().push(
                        Segment {
                            transform: Transform2 { pos: Pos { x: 0, y: 0 }, heading: 0 },
                            attrs: Attributes {
                                color: Rgba { red: 8000, green: 0, blue: 0, alpha: 1000 },
                                health: 100_000,
                                vision: 10_000,
                                speed: 20_000,
                            },
                        },
                    )
                    && final(self).chains() == append_model(
                        old(self).chains(),
                        chain as int,
                        old(self).segs().len() as usize,
                    ),
                Err(e) => e == RegistryError::NoSuchChain
                    && chain >= old(self).chains().len()
                    && final(self).segs() == old(self).segs()
                    && final(self).chains() == old(self).chains(),
            },
    {
        if chain >= self.registry.chain_count() {
            return Err(RegistryError::NoSuchChain);
        }
        let id = self.segments.len();
        proof {
            if seg_registered(self.chains(), id) {
                let (c, i) = choose|c: int, i: int|
                    has_index(self.chains(), c, i) && #[trigger] entry(self.chains(), c, i) == id;
                assert(entry(self.chains(), c, i) < self.segs().len());
            }
        }
        let ghost m = self.registry@;
        let idx = match self.registry.append(chain, id) {
            Ok(i) => i,
            Err(_) => {
                proof {
                    assert(false);
                }
                0
            },
        };
        let seg = Segment { transform: spawn_transform(), attrs: body_attributes() };
        self.segments.push(seg);
        proof {
            let m2 = self.chains();
            assert forall|c: int, i: int| has_index(m2, c, i)
                implies (#[trigger] entry(m2, c, i)) < self.segs().len() by {
                if c == chain as int && i == m[c].len() {
                    assert(entry(m2, c, i) == id);
                } else {
                    assert(entry(m2, c, i) == entry(m, c, i));
                    assert(entry(m, c, i) < old(self).segs().len());
                }
            }
        }
        Ok(idx)
    }

    /// Steer every chain's head toward the target; no other segment moves.
    fn steer_heads(
        &mut self,
        target: Pos,
        boost: bool,
        advance: bool,
        bearings: &Vec<i64>,
        dt_ms: u64,
        scfg: &SteerConfig,
    )
        requires
            old(self).wf(),
            in_bounds(target),
            bearings@.len() == old(self).segs().len(),
            forall|j: int| 0 <= j < bearings@.len()
                ==> -HALF_TURN <= #[trigger] bearings@[j] <= HALF_TURN,
            dt_ms <= DT_LIMIT,
            steer_config_wf(*scfg),
        ensures
            final(self).wf(),
            final(self).chains() == old(self).chains(),
            final(self).segs().len() == old(self).segs().len(),
            forall|id: int| 0 <= id < old(self).segs().len()
                ==> final(self).segs()[id] == (
                if head_registered(old(self).chains(), id as usize) {
                    spec_steered_segment(
                        old(self).segs()[id],
                        target,
                        bearings@[id] as int,
                        boost,
                        advance,
                        dt_ms as int,
                        *scfg,
                    )
                } else {
                    old(self).segs()[id]
                }),
            dt_ms == 0 ==> forall|id: int| 0 <= id < old(self).segs().len()
                ==> (#[trigger] final(self).segs()[id]).transform
                    == old(self).segs()[id].transform,
    {
        let ghost m = self.chains();
        let ghost orig = self.segs();
        let n_segs = self.segments.len();
        let n_chains = self.registry.chain_count();
        let mut c: usize = 0;
        while c < n_chains
            invariant
                c <= n_chains,
                n_chains == m.len(),
                n_segs == orig.len(),
                self.chains() == m,
                crate::registry::wf(m),
                self.segs().len() == orig.len(),
                bearings@.len() == orig.len(),
                forall|j: int| 0 <= j < bearings@.len()
                    ==> -HALF_TURN <= #[trigger] bearings@[j] <= HALF_TURN,
                in_bounds(target),
                dt_ms <= DT_LIMIT,
                steer_config_wf(*scfg),
                forall|cc: int, i: int| has_index(m, cc, i)
                    ==> (#[trigger] entry(m, cc, i)) < orig.len(),
                forall|j: int| 0 <= j < orig.len() ==> segment_wf(#[trigger] orig[j]),
                forall|id: int| 0 <= id < orig.len()
                    ==> self.segs()[id] == (
                    if head_in_prefix(m, id as usize, c as int) {
                        spec_steered_segment(
                            orig[id],
                            target,
                            bearings@[id] as int,
                            boost,
                            advance,
                            dt_ms as int,
                            *scfg,
                        )
                    } else {
                        orig[id]
                    }),
                forall|j: int| 0 <= j < orig.len() ==> segment_wf(#[trigger] self.segs()[j]),
                dt_ms == 0 ==> forall|id: int| 0 <= id < orig.len()
                    ==> (#[trigger] self.segs()[id]).transform == orig[id].transform,
            decreases n_chains - c,
        {
            proof {
                assert(has_index(m, c as int, 0));
            }
            let hid = match self.registry.segment_at(c, 0) {
                Some(h) => h,
                None => {
                    proof {
                        assert(false);
                    }
                    0
                },
            };
            proof {
                if head_in_prefix(m, hid, c as int) {
                    let cc = choose|cc: int|
                        0 <= cc < c && cc < m.len() && #[trigger] entry(m, cc, 0) == hid;
                    lemma_identity_unique(m, cc, 0, c as int, 0);
                }
            }
            let seg = self.segments[hid];
            let bearing = bearings[hid];
            let (t2, sp) = steer_step(&seg.transform, target, bearing, boost, advance, dt_ms, scfg);
            let new_seg = Segment {
                transform: t2,
                attrs: Attributes {
                    color: seg.attrs.color,
                    health: seg.attrs.health,
                    vision: seg.attrs.vision,
                    speed: sp,
                },
            };
            self.segments.set(hid, new_seg);
            proof {
                assert(new_seg == spec_steered_segment(
                    orig[hid as int],
                    target,
                    bearings@[hid as int] as int,
                    boost,
                    advance,
                    dt_ms as int,
                    *scfg,
                ));
                assert forall|id: int| 0 <= id < orig.len() implies
                    (#[trigger] head_in_prefix(m, id as usize, c + 1))
                        == (head_in_prefix(m, id as usize, c as int) || id == hid as int) by {
                    if head_in_prefix(m, id as usize, c + 1) {
                        let cc = choose|cc: int|
                            0 <= cc < c + 1 && cc < m.len()
                                && #[trigger] entry(m, cc, 0) == id as usize;
                        if cc == c as int {
                            assert(id == hid as int);
                        } else {
                            assert(head_in_prefix(m, id as usize, c as int));
                        }
                    }
                    if head_in_prefix(m, id as usize, c as int) {
                        let cc = choose|cc: int|
                            0 <= cc < c && cc < m.len() && #[trigger] entry(m, cc, 0) == id as usize;
                        assert(0 <= cc < c + 1 && entry(m, cc, 0) == id as usize);
                        assert(head_in_prefix(m, id as usize, c + 1));
                    }
                    if id == hid as int {
                        assert(entry(m, c as int, 0) == id as usize);
                        assert(head_in_prefix(m, id as usize, c + 1));
                    }
                }
            }
            c += 1;
        }
        proof {
            assert forall|id: int| 0 <= id < orig.len() implies
                (#[trigger] head_in_prefix(m, id as usize, m.len() as int))
                    == head_registered(m, id as usize) by {
                if head_in_prefix(m, id as usize, m.len() as int) {
                    let cc = choose|cc: int|
                        0 <= cc < m.len() && cc < m.len() && #[trigger] entry(m, cc, 0) == id as usize;
                    assert(head_registered(m, id as usize));
                }
                if head_registered(m, id as usize) {
                    let cc = choose|cc: int|
                        0 <= cc < m.len() && #[trigger] entry(m, cc, 0) == id as usize;
                    assert(0 <= cc < m.len() && cc < m.len() && entry(m, cc, 0) == id as usize);
                    assert(head_in_prefix(m, id as usize, m.len() as int));
                }
            }
        }
    }

    /// Advance every trailing segment one tick: each follows the segment
    /// ahead of it, reading the predecessor's position from the `snap`
    /// vector — the positions as they stood at tick start — so the outcome
    /// does not depend on the order in which chains are walked. Heads and
    /// unregistered segments do not move.
    fn propagate_followers(
        &mut self,
        snap: &Vec<Pos>,
        forwards: &Vec<(i64, i64)>,
        dt_ms: u64,
        fcfg: &FollowConfig,
    )
        requires
            old(self).wf(),
            snap@.len() == old(self).segs().len(),
            forall|j: int| 0 <= j < snap@.len() ==> in_bounds(#[trigger] snap@[j]),
            forwards@.len() == old(self).segs().len(),
            forall|j: int| 0 <= j < forwards@.len()
                ==> -1000 <= (#[trigger] forwards@[j]).0 <= 1000 && -1000 <= forwards@[j].1 <= 1000,
            dt_ms <= DT_LIMIT,
            follow_config_wf(*fcfg),
        ensures
            final(self).wf(),
            final(self).chains() == old(self).chains(),
            final(self).segs().len() == old(self).segs().len(),
            forall|id: int| 0 <= id < old(self).segs().len()
                ==> final(self).segs()[id] == (
                if tail_registered(old(self).chains(), id as usize) {
                    spec_followed_segment(
                        old(self).segs()[id],
                        forwards@[id],
                        dt_ms as int,
                        *fcfg,
                    )
                } else {
                    old(self).segs()[id]
                }),
            dt_ms == 0 ==> forall|id: int| 0 <= id < old(self).segs().len()
                ==> (#[trigger] final(self).segs()[id]).transform
                    == old(self).segs()[id].transform,
    {
        let ghost m = self.chains();
        let ghost orig = self.segs();
        let n_segs = self.segments.len();
        let n_chains = self.registry.chain_count();
        let mut c: usize = 0;
        while c < n_chains
            invariant
                c <= n_chains,
                n_chains == m.len(),
                n_segs == orig.len(),
                self.chains() == m,
                crate::registry::wf(m),
                self.segs().len() == orig.len(),
                snap@.len() == orig.len(),
                forall|j: int| 0 <= j < snap@.len() ==> in_bounds(#[trigger] snap@[j]),
                forwards@.len() == orig.len(),
                forall|j: int| 0 <= j < forwards@.len()
                    ==> -1000 <= (#[trigger] forwards@[j]).0 <= 1000
                        && -1000 <= forwards@[j].1 <= 1000,
                dt_ms <= DT_LIMIT,
                follow_config_wf(*fcfg),
                forall|cc: int, i: int| has_index(m, cc, i)
                    ==> (#[trigger] entry(m, cc, i)) < orig.len(),
                forall|j: int| 0 <= j < orig.len() ==> segment_wf(#[trigger] orig[j]),
                forall|id: int| 0 <= id < orig.len()
                    ==> self.segs()[id] == (
                    if tail_in_prefix(m, id as usize, c as int, 1) {
                        spec_followed_segment(orig[id], forwards@[id], dt_ms as int, *fcfg)
                    } else {
                        orig[id]
                    }),
                forall|j: int| 0 <= j < orig.len() ==> segment_wf(#[trigger] self.segs()[j]),
                dt_ms == 0 ==> forall|id: int| 0 <= id < orig.len()
                    ==> (#[trigger] self.segs()[id]).transform == orig[id].transform,
            decreases n_chains - c,
        {
            let len_c = match self.registry.chain_len(c) {
                Some(l) => l,
                None => {
                    proof {
                        assert(false);
                    }
                    0
                },
            };
            let mut i: usize = 1;
            while i < len_c
                invariant
                    1 <= i <= len_c || (len_c < 1 && i == 1),
                    c < n_chains,
                    n_chains == m.len(),
                    n_segs == orig.len(),
                    len_c == m[c as int].len(),
                    self.chains() == m,
                    crate::registry::wf(m),
                    self.segs().len() == orig.len(),
                    snap@.len() == orig.len(),
                    forall|j: int| 0 <= j < snap@.len() ==> in_bounds(#[trigger] snap@[j]),
                    forwards@.len() == orig.len(),
                    forall|j: int| 0 <= j < forwards@.len()
                        ==> -1000 <= (#[trigger] forwards@[j]).0 <= 1000
                            && -1000 <= forwards@[j].1 <= 1000,
                    dt_ms <= DT_LIMIT,
                    follow_config_wf(*fcfg),
                    forall|cc: int, ii: int| has_index(m, cc, ii)
                        ==> (#[trigger] entry(m, cc, ii)) < orig.len(),
                    forall|j: int| 0 <= j < orig.len() ==> segment_wf(#[trigger] orig[j]),
                    forall|id: int| 0 <= id < orig.len()
                        ==> self.segs()[id] == (
                        if tail_in_prefix(m, id as usize, c as int, i as int) {
                            spec_followed_segment(orig[id], forwards@[id], dt_ms as int, *fcfg)
                        } else {
                            orig[id]
                        }),
                    forall|j: int| 0 <= j < orig.len() ==> segment_wf(#[trigger] self.segs()[j]),
                    dt_ms == 0 ==> forall|id: int| 0 <= id < orig.len()
                        ==> (#[trigger] self.segs()[id]).transform == orig[id].transform,
                decreases len_c - i,
            {
                proof {
                    assert(has_index(m, c as int, i as int));
                    assert(has_index(m, c as int, i - 1));
                }
                let id = match self.registry.segment_at(c, i) {
                    Some(s) => s,
                    None => {
                        proof {
                            assert(false);
                        }
                        0
                    },
                };
                let pid = match self.registry.predecessor_of(c, i) {
                    Some(p) => p,
                    None => {
                        proof {
                            assert(false);
                        }
                        0
                    },
                };
                proof {
                    if tail_in_prefix(m, id, c as int, i as int) {
                        let (cc, ii) = choose|cc: int, ii: int|
                            1 <= ii && has_index(m, cc, ii) && (cc < c || (cc == c && ii < i))
                                && #[trigger] entry(m, cc, ii) == id;
                        lemma_identity_unique(m, cc, ii, c as int, i as int);
                    }
                }
                let seg = self.segments[id];
                let pred_pos = snap[pid];
                let fwd = forwards[id];
                let (t2, _chase) = follower_step(
                    &seg.transform,
                    seg.attrs.speed,
                    pred_pos,
                    fwd,
                    dt_ms,
                    fcfg,
                );
                let new_seg = Segment { transform: t2, attrs: seg.attrs };
                self.segments.set(id, new_seg);
                proof {
                    assert(new_seg == spec_followed_segment(
                        orig[id as int],
                        forwards@[id as int],
                        dt_ms as int,
                        *fcfg,
                    ));
                    assert forall|id2: int| 0 <= id2 < orig.len() implies
                        (#[trigger] tail_in_prefix(m, id2 as usize, c as int, i + 1))
                            == (tail_in_prefix(m, id2 as usize, c as int, i as int)
                                || id2 == id as int) by {
                        if tail_in_prefix(m, id2 as usize, c as int, i + 1) {
                            let (cc, ii) = choose|cc: int, ii: int|
                                1 <= ii && has_index(m, cc, ii)
                                    && (cc < c || (cc == c && ii < i + 1))
                                    && #[trigger] entry(m, cc, ii) == id2 as usize;
                            if cc == c as int && ii == i as int {
                                assert(id2 == id as int);
                            } else {
                                assert(tail_in_prefix(m, id2 as usize, c as int, i as int));
                            }
                        }
                        if tail_in_prefix(m, id2 as usize, c as int, i as int) {
                            let (cc, ii) = choose|cc: int, ii: int|
                                1 <= ii && has_index(m, cc, ii)
                                    && (cc < c || (cc == c && ii < i))
                                    && #[trigger] entry(m, cc, ii) == id2 as usize;
                            assert(cc < c || (cc == c && ii < i + 1));
                            assert(tail_in_prefix(m, id2 as usize, c as int, i + 1));
                        }
                        if id2 == id as int {
                            assert(1 <= i && has_index(m, c as int, i as int)
                                && entry(m, c as int, i as int) == id2 as usize);
                            assert(tail_in_prefix(m, id2 as usize, c as int, i + 1));
                        }
                    }
                }
                i += 1;
            }
            proof {
                assert forall|id2: int| 0 <= id2 < orig.len() implies
                    (#[trigger] tail_in_prefix(m, id2 as usize, c + 1, 1))
                        == tail_in_prefix(m, id2 as usize, c as int, i as int) by {
                    if tail_in_prefix(m, id2 as usize, c + 1, 1) {
                        let (cc, ii) = choose|cc: int, ii: int|
                            1 <= ii && has_index(m, cc, ii) && (cc < c + 1 || (cc == c + 1 && ii < 1))
                                && #[trigger] entry(m, cc, ii) == id2 as usize;
                        if cc == c as int {
                            assert(ii < m[cc].len());
                            assert(ii < i);
                        }
                        assert(tail_in_prefix(m, id2 as usize, c as int, i as int));
                    }
                    if tail_in_prefix(m, id2 as usize, c as int, i as int) {
                        let (cc, ii) = choose|cc: int, ii: int|
                            1 <= ii && has_index(m, cc, ii) && (cc < c || (cc == c && ii < i))
                                && #[trigger] entry(m, cc, ii) == id2 as usize;
                        assert(cc < c + 1);
                        assert(tail_in_prefix(m, id2 as usize, c + 1, 1));
                    }
                }
            }
            c += 1;
        }
        proof {
            assert forall|id2: int| 0 <= id2 < orig.len() implies
                (#[trigger] tail_in_prefix(m, id2 as usize, m.len() as int, 1))
                    == tail_registered(m, id2 as usize) by {
                if tail_in_prefix(m, id2 as usize, m.len() as int, 1) {
                    let (cc, ii) = choose|cc: int, ii: int|
                        1 <= ii && has_index(m, cc, ii)
                            && (cc < m.len() || (cc == m.len() && ii < 1))
                            && #[trigger] entry(m, cc, ii) == id2 as usize;
                    assert(tail_registered(m, id2 as usize));
                }
                if tail_registered(m, id2 as usize) {
                    let (cc, ii) = choose|cc: int, ii: int|
                        1 <= ii && has_index(m, cc, ii) && #[trigger] entry(m, cc, ii) == id2 as usize;
                    assert(cc < m.len());
                    assert(tail_in_prefix(m, id2 as usize, m.len() as int, 1));
                }
            }
        }
    }

    /// One simulation tick: every head is steered toward the target point,
    /// then every trailing segment follows the segment ahead of it. All
    /// predecessor positions are read as they stood at tick start, so the
    /// outcome is independent of any iteration order. A tick with zero
    /// elapsed time changes no segment's position or heading.
    pub fn tick(&mut self, inp: &TickInput, dt_ms: u64, fcfg: &FollowConfig, scfg: &SteerConfig)
        requires
            old(self).wf(),
            tick_input_wf(*inp, old(self).segs().len() as int),
            dt_ms <= DT_LIMIT,
            follow_config_wf(*fcfg),
            steer_config_wf(*scfg),
        ensures
            final(self).wf(),
            final(self).chains() == old(self).chains(),
            final(self).segs().len() == old(self).segs().len(),
            forall|id: int| 0 <= id < old(self).segs().len()
                ==> final(self).segs()[id] == spec_tick_segment(
                    old(self).chains(),
                    old(self).segs(),
                    id,
                    *inp,
                    dt_ms as int,
                    *fcfg,
                    *scfg,
                ),
            dt_ms == 0 ==> forall|id: int| 0 <= id < old(self).segs().len()
                ==> (#[trigger] final(self).segs()[id]).transform
                    == old(self).segs()[id].transform,
    {
        let ghost m = self.chains();
        let ghost orig = self.segs();
        let n = self.segments.len();
        let mut snap: Vec<Pos> = Vec::new();
        let mut j: usize = 0;
        while j < n
            invariant
                j <= n,
                n == self.segs().len(),
                self.segs() == orig,
                self.chains() == m,
                old(self).wf(),
                snap@.len() == j,
                forall|k: int| 0 <= k < j ==> #[trigger] snap@[k] == orig[k].transform.pos,
            decreases n - j,
        {
            let p = self.segments[j].transform.pos;
            snap.push(p);
            j += 1;
        }
        proof {
            assert forall|k: int| 0 <= k < snap@.len() implies in_bounds(#[trigger] snap@[k]) by {
                assert(segment_wf(orig[k]));
            }
        }
        self.steer_heads(inp.target, inp.boost, inp.advance, &inp.bearings, dt_ms, scfg);
        let ghost mid = self.segs();
        self.propagate_followers(&snap, &inp.forwards, dt_ms, fcfg);
        proof {
            assert forall|id: int| 0 <= id < orig.len() implies
                self.segs()[id] == spec_tick_segment(m, orig, id, *inp, dt_ms as int, *fcfg, *scfg) by {
                lemma_head_not_tail(m, id as usize);
                if tail_registered(m, id as usize) {
                    assert(mid[id] == orig[id]);
                }
            }
        }
    }
}

} // verus!
