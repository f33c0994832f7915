//! A forward analysis of one number per position: what each path adds to it, and what is left
//! where paths meet.
use vstd::prelude::*;

verus! {

/// The number before a position.
#[derive(Copy, Clone, Debug, PartialEq, Eq, Structural)]
pub enum Tell {
    Known(u32),
    Unknown,
}

impl Tell {
    pub open spec fn value(self) -> Option<u32> {
        match self {
            Tell::Known(v) => Some(v),
            Tell::Unknown => None,
        }
    }

    /// The number, if it is known.
    pub fn known(self) -> (r: Option<u32>)
        ensures
            r == self.value(),
    {
        match self {
            Tell::Known(v) => Some(v),
            Tell::Unknown => None,
        }
    }

    pub fn is_known(self) -> (r: bool)
        ensures
            r == (self is Known),
    {
        match self {
            Tell::Known(_) => true,
            Tell::Unknown => false,
        }
    }
}

/// How one position changes the number.
#[derive(Copy, Clone, Debug, PartialEq, Eq, Structural)]
pub enum Effect {
    /// Added.
    Delta(i32),
    /// Added, then raised to at least the floor.
    DeltaThenFloor(i32, u32),
    /// Set.
    SetTo(u32),
    /// Control leaves; nothing follows.
    Terminator,
    /// Not modelled.
    Unknown,
}

/// `cur + delta`, kept within range.
pub open spec fn shifted(cur: u32, delta: i32) -> u32 {
    if cur + delta < 0 {
        0
    } else if cur + delta > u32::MAX {
        u32::MAX
    } else {
        (cur + delta) as u32
    }
}

/// `cur + delta`, kept within range.
pub fn shift(cur: u32, delta: i32) -> (r: u32)
    ensures
        r == shifted(cur, delta),
{
    let sum: i64 = cur as i64 + delta as i64;
    if sum < 0 {
        0
    } else if sum > u32::MAX as i64 {
        u32::MAX
    } else {
        sum as u32
    }
}

/// The number after an effect; nothing after a terminator.
pub open spec fn applied(before: Tell, e: Effect) -> Option<Tell> {
    match (before, e) {
        (_, Effect::SetTo(v)) => Some(Tell::Known(v)),
        (_, Effect::Terminator) => None,
        (_, Effect::Unknown) => Some(Tell::Unknown),
        (Tell::Unknown, _) => Some(Tell::Unknown),
        (Tell::Known(c), Effect::Delta(d)) => Some(Tell::Known(shifted(c, d))),
        (Tell::Known(c), Effect::DeltaThenFloor(d, floor)) => Some(
            Tell::Known(
                if shifted(c, d) < floor {
                    floor
                } else {
                    shifted(c, d)
                },
            ),
        ),
    }
}

/// The number after an effect; nothing after a terminator.
pub fn apply(before: Tell, e: Effect) -> (r: Option<Tell>)
    ensures
        r == applied(before, e),
{
    match e {
        Effect::SetTo(v) => Some(Tell::Known(v)),
        Effect::Terminator => None,
        Effect::Unknown => Some(Tell::Unknown),
        Effect::Delta(d) => match before {
            Tell::Known(c) => Some(Tell::Known(shift(c, d))),
            Tell::Unknown => Some(Tell::Unknown),
        },
        Effect::DeltaThenFloor(d, floor) => match before {
            Tell::Known(c) => {
                let to = shift(c, d);
                Some(
                    Tell::Known(
                        if to < floor {
                            floor
                        } else {
                            to
                        },
                    ),
                )
            },
            Tell::Unknown => Some(Tell::Unknown),
        },
    }
}

/// One position: its effects, where its branch goes, and whether it never falls through.
#[derive(Copy, Clone, Debug, PartialEq, Eq, Structural)]
pub struct Site {
    pub fall: Effect,
    pub branch: Effect,
    pub target: Option<usize>,
    pub stops: bool,
}

/// What is known where a path with `incoming` joins. Disagreement leaves nothing known.
pub open spec fn met(slot: Option<Tell>, incoming: Tell) -> Tell {
    match slot {
        None => incoming,
        Some(t) => if t == incoming {
            t
        } else {
            Tell::Unknown
        },
    }
}

/// The state after a path joins at `at`.
pub open spec fn joined(state: Seq<Option<Tell>>, at: int, edge: Option<Tell>) -> Seq<Option<Tell>> {
    match edge {
        Some(t) => if 0 <= at < state.len() {
            state.update(at, Some(met(state[at], t)))
        } else {
            state
        },
        None => state,
    }
}

/// Where the branch of a position goes; out of range if there is none.
pub open spec fn branch_to(site: Site) -> int {
    match site.target {
        Some(t) => t as int,
        None => -1,
    }
}

/// Where a position falls through to; out of range if it does not.
pub open spec fn fall_to(site: Site, pc: int) -> int {
    if site.stops {
        -1
    } else {
        pc + 1
    }
}

/// The state after the paths out of `pc` have joined.
pub open spec fn visited(state: Seq<Option<Tell>>, sites: Seq<Site>, pc: int) -> Seq<Option<Tell>> {
    match state[pc] {
        Some(before) => joined(
            joined(state, branch_to(sites[pc]), applied(before, sites[pc].branch)),
            fall_to(sites[pc], pc),
            applied(before, sites[pc].fall),
        ),
        None => state,
    }
}

/// The state after the positions from `pc` on are visited.
pub open spec fn pass_from(state: Seq<Option<Tell>>, sites: Seq<Site>, pc: int) -> Seq<Option<Tell>>
    decreases sites.len() - pc,
{
    if pc >= sites.len() {
        state
    } else {
        pass_from(visited(state, sites, pc), sites, pc + 1)
    }
}

/// The state after passes that change something, at most `k` of them.
pub open spec fn settled(state: Seq<Option<Tell>>, sites: Seq<Site>, k: nat) -> Seq<Option<Tell>>
    decreases k,
{
    if k == 0 || pass_from(state, sites, 0) == state {
        state
    } else {
        settled(pass_from(state, sites, 0), sites, (k - 1) as nat)
    }
}

/// Nothing known but the number at the entry.
pub open spec fn seeded(n: nat, entry: int, seed: u32) -> Seq<Option<Tell>> {
    Seq::new(
        n,
        |i: int|
            if i == entry {
                Some(Tell::Known(seed))
            } else {
                None
            },
    )
}

/// Number of passes after which the analysis stops.
pub open spec fn pass_limit(n: nat) -> nat {
    if 2 * n < 8 {
        8
    } else {
        2 * n
    }
}

/// The final state: nothing where no path arrives.
pub open spec fn solution(sites: Seq<Site>, entry: int, seed: u32) -> Seq<Option<Tell>> {
    settled(seeded(sites.len(), entry, seed), sites, pass_limit(sites.len()))
}

/// What is known before each position.
pub open spec fn told(sites: Seq<Site>, entry: int, seed: u32) -> Seq<Tell> {
    Seq::new(
        sites.len(),
        |i: int|
            match solution(sites, entry, seed)[i] {
                Some(t) => t,
                None => Tell::Unknown,
            },
    )
}

/// How far a position has come: nothing, a number, disagreement.
pub open spec fn rank(t: Option<Tell>) -> nat {
    match t {
        None => 0,
        Some(Tell::Known(_)) => 1,
        Some(Tell::Unknown) => 2,
    }
}

/// Sum of the ranks from `i` on.
pub open spec fn ranks(state: Seq<Option<Tell>>, i: int) -> nat
    decreases state.len() - i,
{
    if i >= state.len() {
        0
    } else {
        rank(state[i]) + ranks(state, i + 1)
    }
}

/// Whether each position of `b` has come at least as far as in `a`, and is the same where it
/// has come no further.
pub open spec fn above(a: Seq<Option<Tell>>, b: Seq<Option<Tell>>) -> bool {
    &&& a.len() == b.len()
    &&& forall|i: int|
        0 <= i < a.len() ==> (#[trigger] b[i] == a[i] || rank(b[i]) > rank(a[i]))
}

proof fn joining_is_above(state: Seq<Option<Tell>>, at: int, edge: Option<Tell>)
    ensures
        above(state, joined(state, at, edge)),
{
}

proof fn above_is_transitive(a: Seq<Option<Tell>>, b: Seq<Option<Tell>>, c: Seq<Option<Tell>>)
    requires
        above(a, b),
        above(b, c),
    ensures
        above(a, c),
{
    assert forall|i: int| 0 <= i < a.len() implies (#[trigger] c[i] == a[i] || rank(c[i]) > rank(
        a[i],
    )) by {
        assert(b[i] == a[i] || rank(b[i]) > rank(a[i]));
    }
}

proof fn above_both_ways(a: Seq<Option<Tell>>, b: Seq<Option<Tell>>)
    requires
        above(a, b),
        above(b, a),
    ensures
        a == b,
{
    assert forall|i: int| 0 <= i < a.len() implies a[i] == b[i] by {
        assert(b[i] == a[i] || rank(b[i]) > rank(a[i]));
        assert(a[i] == b[i] || rank(a[i]) > rank(b[i]));
    }
    assert(a =~= b);
}

proof fn visiting_is_above(state: Seq<Option<Tell>>, sites: Seq<Site>, pc: int)
    requires
        0 <= pc < sites.len(),
        state.len() == sites.len(),
    ensures
        above(state, visited(state, sites, pc)),
{
    if let Some(before) = state[pc] {
        let one = joined(state, branch_to(sites[pc]), applied(before, sites[pc].branch));
        joining_is_above(state, branch_to(sites[pc]), applied(before, sites[pc].branch));
        joining_is_above(one, fall_to(sites[pc], pc), applied(before, sites[pc].fall));
        above_is_transitive(state, one, visited(state, sites, pc));
    }
}

proof fn pass_is_above(state: Seq<Option<Tell>>, sites: Seq<Site>, pc: int)
    requires
        0 <= pc <= sites.len(),
        state.len() == sites.len(),
    ensures
        above(state, pass_from(state, sites, pc)),
    decreases sites.len() - pc,
{
    if pc < sites.len() {
        let next = visited(state, sites, pc);
        visiting_is_above(state, sites, pc);
        pass_is_above(next, sites, pc + 1);
        above_is_transitive(state, next, pass_from(state, sites, pc));
    }
}

proof fn ranks_grow(a: Seq<Option<Tell>>, b: Seq<Option<Tell>>, i: int)
    requires
        0 <= i <= a.len(),
        above(a, b),
    ensures
        ranks(a, i) <= ranks(b, i) <= 2 * (b.len() - i),
        (exists|k: int| i <= k < a.len() && #[trigger] a[k] != b[k]) ==> ranks(a, i) < ranks(b, i),
    decreases a.len() - i,
{
    if i < a.len() {
        ranks_grow(a, b, i + 1);
        assert(b[i] == a[i] || rank(b[i]) > rank(a[i]));
        if exists|k: int| i <= k < a.len() && #[trigger] a[k] != b[k] {
            if a[i] == b[i] {
                let k = choose|k: int| i <= k < a.len() && #[trigger] a[k] != b[k];
                assert(i + 1 <= k);
            }
        }
    }
}

proof fn settling_settles(state: Seq<Option<Tell>>, sites: Seq<Site>, k: nat)
    requires
        state.len() == sites.len(),
        k + ranks(state, 0) >= 2 * sites.len(),
    ensures
        pass_from(settled(state, sites, k), sites, 0) == settled(state, sites, k),
        settled(state, sites, k).len() == sites.len(),
        above(state, settled(state, sites, k)),
    decreases k,
{
    let next = pass_from(state, sites, 0);
    pass_is_above(state, sites, 0);
    if next != state {
        assert(exists|j: int| 0 <= j < state.len() && #[trigger] state[j] != next[j]) by {
            if forall|j: int| 0 <= j < state.len() ==> #[trigger] state[j] == next[j] {
                assert(state =~= next);
            }
        }
        ranks_grow(state, next, 0);
        if k > 0 {
            settling_settles(next, sites, (k - 1) as nat);
            above_is_transitive(state, next, settled(state, sites, k));
        }
    }
}

proof fn stable_pass_visits_change_nothing(
    state: Seq<Option<Tell>>,
    sites: Seq<Site>,
    from: int,
    pc: int,
)
    requires
        state.len() == sites.len(),
        0 <= from <= pc < sites.len(),
        pass_from(state, sites, from) == state,
    ensures
        visited(state, sites, pc) == state,
    decreases pc - from,
{
    let next = visited(state, sites, from);
    visiting_is_above(state, sites, from);
    pass_is_above(next, sites, from + 1);
    above_both_ways(state, next);
    if from < pc {
        stable_pass_visits_change_nothing(state, sites, from + 1, pc);
    }
}

proof fn stable_visit_agrees(state: Seq<Option<Tell>>, sites: Seq<Site>, pc: int)
    requires
        state.len() == sites.len(),
        0 <= pc < sites.len(),
        visited(state, sites, pc) == state,
        state[pc] is Some,
    ensures
        agrees(state, branch_to(sites[pc]), applied(state[pc]->0, sites[pc].branch)),
        agrees(state, fall_to(sites[pc], pc), applied(state[pc]->0, sites[pc].fall)),
{
    let before = state[pc]->0;
    let one = joined(state, branch_to(sites[pc]), applied(before, sites[pc].branch));
    joining_is_above(state, branch_to(sites[pc]), applied(before, sites[pc].branch));
    joining_is_above(one, fall_to(sites[pc], pc), applied(before, sites[pc].fall));
    above_both_ways(state, one);
}

/// Whether a path that arrives at `at` with `edge` is accounted for there.
pub open spec fn agrees(state: Seq<Option<Tell>>, at: int, edge: Option<Tell>) -> bool {
    match edge {
        Some(t) => 0 <= at < state.len() ==> (state[at] == Some(t) || state[at] == Some(
            Tell::Unknown,
        )),
        None => true,
    }
}

/// The analysis ends in a stable state: at every position that a path reaches, what it passes on
/// along both of its edges is what is known there, or nothing is.
pub proof fn analysis_is_stable(sites: Seq<Site>, entry: int, seed: u32, pc: int)
    requires
        0 <= pc < sites.len(),
        solution(sites, entry, seed)[pc] is Some,
    ensures
        agrees(
            solution(sites, entry, seed),
            branch_to(sites[pc]),
            applied(solution(sites, entry, seed)[pc]->0, sites[pc].branch),
        ),
        agrees(
            solution(sites, entry, seed),
            fall_to(sites[pc], pc),
            applied(solution(sites, entry, seed)[pc]->0, sites[pc].fall),
        ),
{
    let state = seeded(sites.len(), entry, seed);
    let done = solution(sites, entry, seed);
    settling_settles(state, sites, pass_limit(sites.len()));
    stable_pass_visits_change_nothing(done, sites, 0, pc);
    stable_visit_agrees(done, sites, pc);
}

/// Whether one step leads from `p` with `b` to `pc` with `t`.
pub open spec fn steps_to(sites: Seq<Site>, p: int, b: Tell, pc: int, t: Tell) -> bool {
    &&& 0 <= p < sites.len()
    &&& {
        ||| branch_to(sites[p]) == pc && applied(b, sites[p].branch) == Some(t)
        ||| fall_to(sites[p], p) == pc && applied(b, sites[p].fall) == Some(t)
    }
}

/// Whether a run from the entry arrives at `pc` with `t` after `k` steps.
pub open spec fn arrives(sites: Seq<Site>, entry: int, seed: u32, k: nat, pc: int, t: Tell) -> bool
    decreases k,
{
    if k == 0 {
        pc == entry && t == Tell::Known(seed)
    } else {
        exists|p: int, b: Tell|
            #[trigger] steps_to(sites, p, b, pc, t) && arrives(
                sites,
                entry,
                seed,
                (k - 1) as nat,
                p,
                b,
            )
    }
}

/// A number that is known holds on every run: whatever path leads to a position, it arrives
/// there with the number that the analysis tells.
pub proof fn known_numbers_hold_on_every_path(
    sites: Seq<Site>,
    entry: int,
    seed: u32,
    k: nat,
    pc: int,
    t: Tell,
)
    requires
        0 <= pc < sites.len(),
        arrives(sites, entry, seed, k, pc, t),
    ensures
        told(sites, entry, seed)[pc] is Known ==> told(sites, entry, seed)[pc] == t,
{
    arrivals_are_accounted(sites, entry, seed, k, pc, t);
}

/// Whether `x` leaves as much open as `t` does.
pub open spec fn covers(x: Option<Tell>, t: Tell) -> bool {
    x == Some(t) || x == Some(Tell::Unknown)
}

proof fn effects_keep_cover(x: Tell, t: Tell, e: Effect)
    requires
        covers(Some(x), t),
    ensures
        match applied(t, e) {
            Some(t2) => covers(applied(x, e), t2),
            None => applied(x, e) is None,
        },
{
}

proof fn arrivals_are_accounted(
    sites: Seq<Site>,
    entry: int,
    seed: u32,
    k: nat,
    pc: int,
    t: Tell,
)
    requires
        0 <= pc < sites.len(),
        arrives(sites, entry, seed, k, pc, t),
    ensures
        covers(solution(sites, entry, seed)[pc], t),
    decreases k,
{
    let done = solution(sites, entry, seed);
    let state = seeded(sites.len(), entry, seed);
    settling_settles(state, sites, pass_limit(sites.len()));
    if k == 0 {
        assert(state[pc] == Some(t));
        assert(done[pc] == state[pc] || rank(done[pc]) > rank(state[pc]));
    } else {
        let (p, b) = choose|p: int, b: Tell|
            #[trigger] steps_to(sites, p, b, pc, t) && arrives(
                sites,
                entry,
                seed,
                (k - 1) as nat,
                p,
                b,
            );
        arrivals_are_accounted(sites, entry, seed, (k - 1) as nat, p, b);
        analysis_is_stable(sites, entry, seed, p);
        let x = done[p]->0;
        effects_keep_cover(x, b, sites[p].branch);
        effects_keep_cover(x, b, sites[p].fall);
    }
}

fn join_edge(state: &mut Vec<Option<Tell>>, at: usize, edge: Option<Tell>)
    requires
        at < old(state)@.len(),
    ensures
        final(state)@ == joined(old(state)@, at as int, edge),
{
    if let Some(t) = edge {
        let next = match state[at] {
            None => t,
            Some(old_t) => if old_t == t {
                t
            } else {
                Tell::Unknown
            },
        };
        state.set(at, Some(next));
    }
}

/// One pass over all positions.
fn pass(state: &mut Vec<Option<Tell>>, sites: &Vec<Site>)
    requires
        old(state)@.len() == sites@.len(),
    ensures
        final(state)@ == pass_from(old(state)@, sites@, 0),
        final(state)@.len() == sites@.len(),
{
    let n = sites.len();
    let ghost want = pass_from(state@, sites@, 0);
    let mut pc: usize = 0;
    while pc < n
        invariant
            pc <= n,
            n == sites@.len(),
            state@.len() == n,
            want == pass_from(state@, sites@, pc as int),
        decreases n - pc,
    {
        let ghost s0 = state@;
        if let Some(before) = state[pc] {
            let site = sites[pc];
            if let Some(t) = site.target {
                if t < n {
                    join_edge(state, t, apply(before, site.branch));
                }
            }
            if !site.stops && pc < n - 1 {
                join_edge(state, pc + 1, apply(before, site.fall));
            }
        }
        assert(state@ == visited(s0, sites@, pc as int));
        pc += 1;
    }
}

/// What is known before each position, from `seed` at `entry` on.
pub fn analyze_cfg(sites: &Vec<Site>, entry: usize, seed: u32) -> (r: Vec<Tell>)
    ensures
        r@ == told(sites@, entry as int, seed),
{
    let n = sites.len();
    let mut state: Vec<Option<Tell>> = Vec::new();
    let mut i: usize = 0;
    while i < n
        invariant
            i <= n,
            state@.len() == i,
            forall|k: int|
                0 <= k < i ==> #[trigger] state@[k] == (if k == entry as int {
                    Some(Tell::Known(seed))
                } else {
                    None
                }),
        decreases n - i,
    {
        state.push(
            if i == entry {
                Some(Tell::Known(seed))
            } else {
                None
            },
        );
        i += 1;
    }
    assert(state@ =~= seeded(n as nat, entry as int, seed));
    let ghost want = solution(sites@, entry as int, seed);
    let ghost mut k: nat = pass_limit(n as nat);
    let mut left: u128 = if (n as u128) < 4 {
        8
    } else {
        2 * (n as u128)
    };
    let mut changed = true;
    while left > 0 && changed
        invariant
            n == sites@.len(),
            state@.len() == n,
            k == left,
            changed ==> want == settled(state@, sites@, k),
            !changed ==> want == state@,
        decreases left,
    {
        let ghost s0 = state@;
        let mut before: Vec<Option<Tell>> = Vec::new();
        let mut j: usize = 0;
        while j < n
            invariant
                j <= n,
                n == state@.len(),
                before@ == state@.take(j as int),
            decreases n - j,
        {
            before.push(state[j]);
            j += 1;
            assert(before@ =~= state@.take(j as int));
        }
        assert(before@ =~= s0);
        pass(&mut state, sites);
        changed = false;
        let mut j: usize = 0;
        while j < n
            invariant
                j <= n,
                n == state@.len(),
                n == before@.len(),
                !changed ==> forall|x: int| 0 <= x < j ==> #[trigger] state@[x] == before@[x],
                changed ==> exists|x: int| 0 <= x < j && #[trigger] state@[x] != before@[x],
            decreases n - j,
        {
            if state[j] != before[j] {
                changed = true;
                assert(state@[j as int] != before@[j as int]);
            }
            j += 1;
        }
        proof {
            if !changed {
                assert(state@ =~= s0);
            }
            k = (k - 1) as nat;
        }
        left -= 1;
    }
    let mut r: Vec<Tell> = Vec::new();
    let mut i: usize = 0;
    while i < n
        invariant
            i <= n,
            n == state@.len(),
            r@.len() == i,
            forall|x: int|
                0 <= x < i ==> #[trigger] r@[x] == (match state@[x] {
                    Some(t) => t,
                    None => Tell::Unknown,
                }),
        decreases n - i,
    {
        r.push(
            match state[i] {
                Some(t) => t,
                None => Tell::Unknown,
            },
        );
        i += 1;
    }
    assert(want == state@);
    assert(r@ =~= told(sites@, entry as int, seed));
    r
}

} // verus!
