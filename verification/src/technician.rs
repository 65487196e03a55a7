//! Technicians: skills, availability windows, and the builder that
//! validates availability windows against each other.

use vstd::prelude::*;
use crate::calendar::{Date, DateTime};

verus! {

/// The closed set of skills a technician can hold and an activity can
/// require.
#[derive(Clone, Copy, Debug, Hash, PartialEq, Eq, Structural)]
pub enum Skill {
    MtnMech,
    MtnElec,
}

impl Skill {
    /// A rank that orders the skills; used to keep skill lists sorted.
    pub open spec fn spec_rank(self) -> int {
        match self {
            Skill::MtnMech => 0,
            Skill::MtnElec => 1,
        }
    }

    pub fn rank(self) -> (r: u8)
        ensures
            r as int == self.spec_rank(),
    {
        match self {
            Skill::MtnMech => 0,
            Skill::MtnElec => 1,
        }
    }
}

/// A single continuous time window in which a technician can work.
#[derive(Clone, Copy, Debug, PartialEq, Eq, Structural)]
pub struct Availability(pub DateTime, pub DateTime);

impl Availability {
    pub open spec fn wf(self) -> bool {
        self.0.wf() && self.1.wf()
    }

    /// Two windows overlap when each starts before the other ends.
    pub open spec fn spec_overlaps(self, other: Availability) -> bool {
        self.0.spec_lt(other.1) && other.0.spec_lt(self.1)
    }

    /// Ordering by start, then by end.
    pub open spec fn spec_before(self, other: Availability) -> bool {
        self.0.key() < other.0.key() || (self.0.key() == other.0.key() && self.1.key()
            < other.1.key())
    }

    pub fn new(start: DateTime, end: DateTime) -> (r: Availability)
        ensures
            r == Availability(start, end),
    {
        Availability(start, end)
    }

    pub fn start(&self) -> (r: DateTime)
        ensures
            r == self.0,
    {
        self.0
    }

    pub fn end(&self) -> (r: DateTime)
        ensures
            r == self.1,
    {
        self.1
    }

    pub fn start_date(&self) -> (r: Date)
        ensures
            r == self.0.date,
    {
        self.0.date
    }

    pub fn finish_date(&self) -> (r: Date)
        ensures
            r == self.1.date,
    {
        self.1.date
    }

    /// Check if this availability overlaps with another.
    pub fn overlaps_with(&self, other: &Availability) -> (r: bool)
        ensures
            r == self.spec_overlaps(*other),
    {
        self.0.lt(other.1) && other.0.lt(self.1)
    }

    fn before(&self, other: &Availability) -> (r: bool)
        ensures
            r == self.spec_before(*other),
    {
        let s0: u64 = self.0.key_value();
        let o0: u64 = other.0.key_value();
        s0 < o0 || (s0 == o0 && self.1.key_value() < other.1.key_value())
    }
}

/// What can go wrong while assembling a technician.
#[derive(Debug, PartialEq, Eq, Structural)]
pub enum TechnicianBuilderError {
    OverlappingAvailability {
        new_start: DateTime,
        new_end: DateTime,
        existing_start: DateTime,
        existing_end: DateTime,
    },
}

/// A sequence of availabilities is well-formed when every window is
/// well-formed and the sequence is strictly sorted by start, then end.
pub open spec fn availabilities_wf(s: Seq<Availability>) -> bool {
    &&& forall|p: int| 0 <= p < s.len() ==> (#[trigger] s[p]).wf()
    &&& forall|p: int, q: int| 0 <= p < q < s.len() ==> s[p].spec_before(s[q])
}

/// A sequence of skills is well-formed when it is strictly sorted by
/// rank, which also makes it free of duplicates.
pub open spec fn skills_wf(s: Seq<Skill>) -> bool {
    forall|p: int, q: int| 0 <= p < q < s.len() ==> s[p].spec_rank() < s[q].spec_rank()
}

/// The first availability in `s`, from index `i` on, that overlaps `nv`.
pub open spec fn spec_first_overlap(s: Seq<Availability>, nv: Availability, i: int) -> Option<
    Availability,
>
    decreases s.len() - i,
{
    if i < 0 || i >= s.len() {
        None
    } else if nv.spec_overlaps(s[i]) {
        Some(s[i])
    } else {
        spec_first_overlap(s, nv, i + 1)
    }
}

/// A technician: an identity, the skills it holds, and the availability
/// windows in which it can work.
pub struct Technician {
    pub technician_id: usize,
    pub availabilities: Vec<Availability>,
    pub skills: Vec<Skill>,
}

impl Technician {
    pub open spec fn wf(self) -> bool {
        availabilities_wf(self.availabilities@) && skills_wf(self.skills@)
    }

    pub fn builder(technician_id: usize) -> (b: TechnicianBuilder)
        ensures
            b.technician_id == technician_id,
            b.availabilities@ == Seq::<Availability>::empty(),
            b.skills@ == Seq::<Skill>::empty(),
            b.wf(),
    {
        TechnicianBuilder::new(technician_id)
    }

    pub fn id(&self) -> (r: usize)
        ensures
            r == self.technician_id,
    {
        self.technician_id
    }

    pub fn skills(&self) -> (r: &Vec<Skill>)
        ensures
            r@ == self.skills@,
    {
        &self.skills
    }

    pub fn availabilities(&self) -> (r: &Vec<Availability>)
        ensures
            r@ == self.availabilities@,
    {
        &self.availabilities
    }
}

/// Assembles a technician, rejecting availability windows that overlap
/// an already-recorded one.
pub struct TechnicianBuilder {
    pub technician_id: usize,
    pub availabilities: Vec<Availability>,
    pub skills: Vec<Skill>,
}

impl TechnicianBuilder {
    pub open spec fn wf(self) -> bool {
        availabilities_wf(self.availabilities@) && skills_wf(self.skills@)
    }

    pub fn new(technician_id: usize) -> (b: TechnicianBuilder)
        ensures
            b.technician_id == technician_id,
            b.availabilities@ == Seq::<Availability>::empty(),
            b.skills@ == Seq::<Skill>::empty(),
            b.wf(),
    {
        TechnicianBuilder { technician_id, availabilities: Vec::new(), skills: Vec::new() }
    }

    /// Records one availability window, unless it overlaps a recorded one.
    /// The window is kept sorted into place; recording the exact same
    /// window twice leaves the builder unchanged.
    pub fn add_availability(self, start: DateTime, end: DateTime) -> (r: Result<
        TechnicianBuilder,
        TechnicianBuilderError,
    >)
        requires
            self.wf(),
            start.wf(),
            end.wf(),
        ensures
            match r {
                Ok(b) => {
                    &&& spec_first_overlap(self.availabilities@, Availability(start, end), 0)
                        is None
                    &&& b.technician_id == self.technician_id
                    &&& b.skills@ == self.skills@
                    &&& forall|x: Availability|
                        b.availabilities@.contains(x) <==> (self.availabilities@.contains(x) || x
                            == Availability(start, end))
                    &&& b.wf()
                },
                Err(e) => {
                    &&& spec_first_overlap(self.availabilities@, Availability(start, end), 0)
                        matches Some(ex) && e == (TechnicianBuilderError::OverlappingAvailability {
                        new_start: start,
                        new_end: end,
                        existing_start: ex.0,
                        existing_end: ex.1,
                    })
                },
            },
    {
        let new_availability = Availability::new(start, end);
        let ghost nv = new_availability;
        let n: usize = self.availabilities.len();

        // Check for overlaps with existing availabilities.
        let mut i: usize = 0;
        while i < n
            invariant
                n == self.availabilities@.len(),
                0 <= i <= n,
                nv == Availability(start, end),
                new_availability == nv,
                spec_first_overlap(self.availabilities@, nv, 0) == spec_first_overlap(
                    self.availabilities@,
                    nv,
                    i as int,
                ),
            decreases n - i,
        {
            let existing = self.availabilities[i];
            if new_availability.overlaps_with(&existing) {
                proof {
                    assert(spec_first_overlap(self.availabilities@, nv, i as int) == Some(
                        self.availabilities@[i as int],
                    ));
                }
                return Err(
                    TechnicianBuilderError::OverlappingAvailability {
                        new_start: start,
                        new_end: end,
                        existing_start: existing.start(),
                        existing_end: existing.end(),
                    },
                );
            }
            proof {
                assert(spec_first_overlap(self.availabilities@, nv, i as int)
                    == spec_first_overlap(self.availabilities@, nv, i as int + 1));
            }
            i = i + 1;
        }
        proof {
            assert(spec_first_overlap(self.availabilities@, nv, n as int) is None);
        }

        // Find the sorted position; skip the insert entirely on an exact
        // duplicate.
        let mut pos: usize = 0;
        while pos < n && self.availabilities[pos].before(&new_availability)
            invariant
                n == self.availabilities@.len(),
                0 <= pos <= n,
                nv == Availability(start, end),
                new_availability == nv,
                forall|p: int|
                    0 <= p < pos ==> (#[trigger] self.availabilities@[p]).spec_before(nv),
            decreases n - pos,
        {
            pos = pos + 1;
        }
        let mut out = self;
        if pos < n {
            let existing = out.availabilities[pos];
            if existing == new_availability {
                proof {
                    assert(out.availabilities@[pos as int] == nv);
                    assert(out.availabilities@.contains(nv));
                }
                return Ok(out);
            }
        }
        proof {
            out.lemma_insert_position(nv, pos as int);
        }
        out.availabilities.insert(pos, new_availability);
        proof {
            self.availabilities@.insert_ensures(pos as int, nv);
            assert forall|x: Availability| out.availabilities@.contains(x) implies (
            self.availabilities@.contains(x) || x == nv) by {
                let w = choose|w: int|
                    0 <= w < out.availabilities@.len() && out.availabilities@[w] == x;
                if w < pos {
                    assert(self.availabilities@[w] == x);
                } else if w > pos {
                    assert(self.availabilities@[w - 1] == x);
                }
            }
            assert forall|x: Availability| (self.availabilities@.contains(x) || x == nv) implies
            out.availabilities@.contains(x) by {
                if x == nv {
                    assert(out.availabilities@[pos as int] == x);
                } else {
                    let w = choose|w: int|
                        0 <= w < self.availabilities@.len() && self.availabilities@[w] == x;
                    if w < pos {
                        assert(out.availabilities@[w] == x);
                    } else {
                        assert(out.availabilities@[w + 1] == x);
                    }
                }
            }
        }
        Ok(out)
    }

    /// At a valid insert position (everything before is smaller, the
    /// element at the position is not smaller and not equal, no overlap
    /// anywhere), inserting keeps the sequence well-formed.
    proof fn lemma_insert_position(self, nv: Availability, pos: int)
        requires
            self.wf(),
            nv.wf(),
            0 <= pos <= self.availabilities@.len(),
            forall|p: int| 0 <= p < pos ==> (#[trigger] self.availabilities@[p]).spec_before(nv),
            pos < self.availabilities@.len() ==> !self.availabilities@[pos].spec_before(nv)
                && self.availabilities@[pos] != nv,
        ensures
            availabilities_wf(self.availabilities@.insert(pos, nv)),
    {
        let s = self.availabilities@.insert(pos, nv);
        self.availabilities@.insert_ensures(pos, nv);
        assert forall|p: int, q: int| 0 <= p < q < s.len() implies s[p].spec_before(s[q]) by {
            if p == pos {
                let orig = self.availabilities@[q - 1];
                assert(s[q] == orig);
                if q - 1 > pos {
                    assert(self.availabilities@[pos].spec_before(orig));
                }
                if !nv.spec_before(orig) {
                    // Keys would coincide, so by injectivity of the keys on
                    // well-formed values the two would be the same window.
                    DateTime::lemma_key_injective(nv.0, orig.0);
                    DateTime::lemma_key_injective(nv.1, orig.1);
                }
            } else if q == pos {
                assert(s[p] == self.availabilities@[p]);
            } else if p < pos && q > pos {
                assert(s[p] == self.availabilities@[p] && s[q] == self.availabilities@[q - 1]);
                if q - 1 == pos {
                    if !s[p].spec_before(s[q]) {
                        DateTime::lemma_key_injective(s[p].0, nv.0);
                        DateTime::lemma_key_injective(s[p].1, nv.1);
                    }
                }
            } else if q < pos {
                assert(s[p] == self.availabilities@[p] && s[q] == self.availabilities@[q]);
            } else {
                assert(s[p] == self.availabilities@[p - 1] && s[q] == self.availabilities@[q - 1]);
            }
        }
    }

    /// Records a skill, kept sorted by rank; recording it twice leaves
    /// the builder unchanged.
    pub fn add_skill(self, skill: Skill) -> (b: TechnicianBuilder)
        requires
            self.wf(),
        ensures
            b.technician_id == self.technician_id,
            b.availabilities@ == self.availabilities@,
            forall|x: Skill| b.skills@.contains(x) <==> (self.skills@.contains(x) || x == skill),
            b.wf(),
    {
        let n: usize = self.skills.len();
        let mut pos: usize = 0;
        while pos < n && self.skills[pos].rank() < skill.rank()
            invariant
                n == self.skills@.len(),
                0 <= pos <= n,
                forall|p: int|
                    0 <= p < pos ==> (#[trigger] self.skills@[p]).spec_rank() < skill.spec_rank(),
            decreases n - pos,
        {
            pos = pos + 1;
        }
        let mut out = self;
        if pos < n {
            let existing = out.skills[pos];
            if existing == skill {
                proof {
                    assert(out.skills@[pos as int] == skill);
                    assert(out.skills@.contains(skill));
                }
                return out;
            }
        }
        let ghost pre = out.skills@;
        proof {
            let s = pre.insert(pos as int, skill);
            pre.insert_ensures(pos as int, skill);
            assert forall|p: int, q: int| 0 <= p < q < s.len() implies s[p].spec_rank()
                < s[q].spec_rank() by {
                if pos < pre.len() {
                    assert(pre[pos as int].spec_rank() >= skill.spec_rank());
                    assert(pre[pos as int].spec_rank() != skill.spec_rank());
                }
                if q < pos {
                    assert(s[p] == pre[p] && s[q] == pre[q]);
                } else if q == pos {
                    assert(s[p] == pre[p] && s[q] == skill);
                } else if p < pos {
                    assert(s[p] == pre[p] && s[q] == pre[q - 1] && q - 1 >= pos);
                } else if p == pos {
                    assert(s[p] == skill && s[q] == pre[q - 1] && q - 1 >= pos);
                } else {
                    assert(s[p] == pre[p - 1] && s[q] == pre[q - 1]);
                }
            }
            assert(skills_wf(s));
        }
        out.skills.insert(pos, skill);
        proof {
            pre.insert_ensures(pos as int, skill);
            assert forall|x: Skill| out.skills@.contains(x) implies (pre.contains(x) || x == skill)
                by {
                let w = choose|w: int| 0 <= w < out.skills@.len() && out.skills@[w] == x;
                if w < pos {
                    assert(pre[w] == x);
                } else if w > pos {
                    assert(pre[w - 1] == x);
                }
            }
            assert forall|x: Skill| (pre.contains(x) || x == skill) implies out.skills@.contains(x)
                by {
                if x == skill {
                    assert(out.skills@[pos as int] == x);
                } else {
                    let w = choose|w: int| 0 <= w < pre.len() && pre[w] == x;
                    if w < pos {
                        assert(out.skills@[w] == x);
                    } else {
                        assert(out.skills@[w + 1] == x);
                    }
                }
            }
        }
        out
    }

    pub fn build(self) -> (t: Technician)
        requires
            self.wf(),
        ensures
            t.technician_id == self.technician_id,
            t.availabilities@ == self.availabilities@,
            t.skills@ == self.skills@,
            t.wf(),
    {
        Technician {
            technician_id: self.technician_id,
            availabilities: self.availabilities,
            skills: self.skills,
        }
    }
}

} // verus!
