use vstd::prelude::*;

use crate::grid::{cell, diagonal_neighbors_of, direct_neighbors_of, neighbor_if_present, uncovered_grid, GridError, LevelGrid};
use crate::pattern::TilePatternMap;
use crate::tile::Tile;
use crate::tile_update::{updates_for, updates_view, TileUpdate};

verus! {

/// Delay, in milliseconds, between the reveal of a cell and the scheduled
/// reveal of its concealed direct neighbours.
pub const REVEAL_DELAY: u64 = 50;

/// A pending reveal: `(time in milliseconds, x, y)`.
pub type RevealEntry = (u64, i32, i32);

/// Order of the reveal queue: by time, then by `x`, then by `y`.
pub open spec fn entry_lt(a: RevealEntry, b: RevealEntry) -> bool {
    a.0 < b.0 || (a.0 == b.0 && (a.1 < b.1 || (a.1 == b.1 && a.2 < b.2)))
}

/// Whether the entries of `q` are in ascending order.
pub open spec fn queue_sorted(q: Seq<RevealEntry>) -> bool {
    forall|i: int, j: int| 0 <= i < j < q.len() ==> !entry_lt(#[trigger] q[j], #[trigger] q[i])
}

/// `q` with `e` inserted before the first entry that is greater than `e`.
pub open spec fn insert_entry(q: Seq<RevealEntry>, e: RevealEntry) -> Seq<RevealEntry>
    decreases q.len(),
{
    if q.len() == 0 {
        seq![e]
    } else if entry_lt(e, q[0]) {
        seq![e] + q
    } else {
        seq![q[0]] + insert_entry(q.drop_first(), e)
    }
}

/// Whether the earliest entry of `q` is due at time `now`.
pub open spec fn queue_due(q: Seq<RevealEntry>, now: u64) -> bool {
    q.len() > 0 && q[0].0 <= now
}

/// Inserting an entry no smaller than `b` among entries no smaller than `b`
/// gives entries no smaller than `b`.
proof fn lemma_insert_lower_bound(q: Seq<RevealEntry>, e: RevealEntry, b: RevealEntry)
    requires
        forall|j: int| 0 <= j < q.len() ==> !entry_lt(#[trigger] q[j], b),
        !entry_lt(e, b),
    ensures
        forall|i: int| 0 <= i < insert_entry(q, e).len() ==> !entry_lt(#[trigger] insert_entry(q, e)[i], b),
        insert_entry(q, e).len() == q.len() + 1,
    decreases q.len(),
{
    if q.len() > 0 && !entry_lt(e, q[0]) {
        let rest = q.drop_first();
        assert forall|j: int| 0 <= j < rest.len() implies !entry_lt(#[trigger] rest[j], b) by {
            assert(rest[j] == q[j + 1]);
        }
        lemma_insert_lower_bound(rest, e, b);
        let r = insert_entry(q, e);
        assert forall|i: int| 0 <= i < r.len() implies !entry_lt(#[trigger] r[i], b) by {
            if i > 0 {
                assert(r[i] == insert_entry(rest, e)[i - 1]);
            }
        }
    }
}

/// Inserting into a sorted queue keeps it sorted.
proof fn lemma_insert_sorted(q: Seq<RevealEntry>, e: RevealEntry)
    requires
        queue_sorted(q),
    ensures
        queue_sorted(insert_entry(q, e)),
    decreases q.len(),
{
    if q.len() > 0 {
        let r = insert_entry(q, e);
        if entry_lt(e, q[0]) {
            assert forall|i: int, j: int| 0 <= i < j < r.len() implies !entry_lt(#[trigger] r[j], #[trigger] r[i]) by {
                if i > 0 {
                    assert(r[i] == q[i - 1] && r[j] == q[j - 1]);
                } else {
                    assert(r[j] == q[j - 1]);
                    assert(!entry_lt(q[j - 1], q[0]));
                }
            }
        } else {
            let rest = q.drop_first();
            assert forall|i: int, j: int| 0 <= i < j < rest.len() implies !entry_lt(#[trigger] rest[j], #[trigger] rest[i]) by {
                assert(rest[i] == q[i + 1] && rest[j] == q[j + 1]);
            }
            lemma_insert_sorted(rest, e);
            assert forall|j: int| 0 <= j < rest.len() implies !entry_lt(#[trigger] rest[j], q[0]) by {
                assert(rest[j] == q[j + 1]);
            }
            lemma_insert_lower_bound(rest, e, q[0]);
            let ri = insert_entry(rest, e);
            assert forall|i: int, j: int| 0 <= i < j < r.len() implies !entry_lt(#[trigger] r[j], #[trigger] r[i]) by {
                assert(r[j] == ri[j - 1]);
                if i > 0 {
                    assert(r[i] == ri[i - 1]);
                }
            }
        }
    }
}

/// Number of entries of `q` that are due at time `now`.
pub open spec fn due_count(q: Seq<RevealEntry>, now: u64) -> nat
    decreases q.len(),
{
    if q.len() == 0 {
        0
    } else {
        (if q[0].0 <= now { 1nat } else { 0nat }) + due_count(q.drop_first(), now)
    }
}

/// `q` with a reveal of each cell of `cells` at time `t` inserted, in order.
pub open spec fn schedule_cells(q: Seq<RevealEntry>, cells: Seq<(i32, i32)>, t: u64) -> Seq<RevealEntry>
    decreases cells.len(),
{
    if cells.len() == 0 {
        q
    } else {
        insert_entry(schedule_cells(q, cells.drop_last(), t), (t, cells.last().0, cells.last().1))
    }
}

/// Whether the cell `p` of `g` holds concealed ground.
pub open spec fn concealed_at(g: Seq<Seq<Tile>>, p: (i32, i32)) -> bool {
    cell(g, p.0 as int, p.1 as int) == Some(Tile::Ground { concealed: true })
}

/// Selects the cells of `g` that hold concealed ground.
pub open spec fn concealed_in(g: Seq<Seq<Tile>>) -> spec_fn((i32, i32)) -> bool {
    |p: (i32, i32)| concealed_at(g, p)
}

/// Selects the cells of `g` that do not hold concealed ground.
pub open spec fn shown_in(g: Seq<Seq<Tile>>) -> spec_fn((i32, i32)) -> bool {
    |p: (i32, i32)| !concealed_at(g, p)
}

/// The direct neighbours of the revealed cell `(x, y)` whose reveal gets scheduled.
pub open spec fn cells_to_schedule(g: Seq<Seq<Tile>>, x: int, y: int) -> Seq<(i32, i32)> {
    direct_neighbors_of(g, x, y).filter(concealed_in(g))
}

/// The cells whose descriptor is recomputed after the reveal of `(x, y)`: the
/// direct neighbours that are not scheduled, the diagonal neighbours and the
/// cell itself, leaving out concealed ground.
pub open spec fn cells_to_refresh(g: Seq<Seq<Tile>>, x: int, y: int) -> Seq<(i32, i32)> {
    (direct_neighbors_of(g, x, y) + diagonal_neighbors_of(g, x, y) + seq![(x as i32, y as i32)]).filter(
        shown_in(g),
    )
}

/// The state of the cascade: pending reveals, the grid, and the notifications so far.
pub struct RevealState {
    pub queue: Seq<RevealEntry>,
    pub grid: Seq<Seq<Tile>>,
    pub updates: Seq<(i32, i32, Result<(Seq<char>, u32), GridError>)>,
}

/// One step of the cascade at time `now`. When the earliest entry is due it
/// is removed; if its cell holds concealed ground, the cell is revealed, the
/// reveal of its concealed direct neighbours is scheduled at
/// `now + REVEAL_DELAY`, and the notifications of `cells_to_refresh` are
/// appended. Otherwise nothing else happens for that entry.
pub open spec fn reveal_step(s: RevealState, d: Seq<([[Tile; 3]; 3], String)>, now: u64) -> RevealState {
    if !queue_due(s.queue, now) {
        s
    } else {
        let e = s.queue[0];
        let rest = s.queue.drop_first();
        if !concealed_at(s.grid, (e.1, e.2)) {
            RevealState { queue: rest, grid: s.grid, updates: s.updates }
        } else {
            let g = uncovered_grid(s.grid, e.1 as int, e.2 as int);
            RevealState {
                queue: schedule_cells(rest, cells_to_schedule(g, e.1 as int, e.2 as int), (now + REVEAL_DELAY) as u64),
                grid: g,
                updates: s.updates + updates_for(g, d, cells_to_refresh(g, e.1 as int, e.2 as int)),
            }
        }
    }
}

/// `n` steps of the cascade at time `now`.
pub open spec fn reveal_steps(s: RevealState, d: Seq<([[Tile; 3]; 3], String)>, now: u64, n: nat) -> RevealState
    decreases n,
{
    if n == 0 {
        s
    } else {
        reveal_step(reveal_steps(s, d, now, (n - 1) as nat), d, now)
    }
}

/// Whether a tick at `now` can lead from `s0` to `s1`: steps are taken until
/// no entry is due.
pub open spec fn tick_outcome(s0: RevealState, d: Seq<([[Tile; 3]; 3], String)>, now: u64, s1: RevealState) -> bool {
    exists|n: nat| reveal_steps(s0, d, now, n) == s1 && !queue_due(s1.queue, now)
}

/// Inserting an entry that is not due leaves the number of due entries alone.
proof fn lemma_insert_due_count(q: Seq<RevealEntry>, e: RevealEntry, now: u64)
    requires
        e.0 > now,
    ensures
        due_count(insert_entry(q, e), now) == due_count(q, now),
    decreases q.len(),
{
    let r = insert_entry(q, e);
    if q.len() == 0 {
        assert(r.drop_first() =~= Seq::<RevealEntry>::empty());
        assert(due_count(r.drop_first(), now) == 0);
    } else if entry_lt(e, q[0]) {
        assert(r.drop_first() =~= q);
    } else {
        lemma_insert_due_count(q.drop_first(), e, now);
        assert(r.drop_first() =~= insert_entry(q.drop_first(), e));
    }
}

/// Scheduling reveals later than `now` leaves the number of due entries alone.
proof fn lemma_schedule_due_count(q: Seq<RevealEntry>, cells: Seq<(i32, i32)>, t: u64, now: u64)
    requires
        t > now,
    ensures
        due_count(schedule_cells(q, cells, t), now) == due_count(q, now),
    decreases cells.len(),
{
    if cells.len() > 0 {
        lemma_schedule_due_count(q, cells.drop_last(), t, now);
        lemma_insert_due_count(schedule_cells(q, cells.drop_last(), t), (t, cells.last().0, cells.last().1), now);
    }
}

/// A due step removes one due entry and adds none.
proof fn lemma_step_due_count(s: RevealState, d: Seq<([[Tile; 3]; 3], String)>, now: u64)
    requires
        queue_due(s.queue, now),
        now <= u64::MAX - REVEAL_DELAY,
    ensures
        due_count(reveal_step(s, d, now).queue, now) < due_count(s.queue, now),
{
    let e = s.queue[0];
    let rest = s.queue.drop_first();
    if concealed_at(s.grid, (e.1, e.2)) {
        let g = uncovered_grid(s.grid, e.1 as int, e.2 as int);
        lemma_schedule_due_count(rest, cells_to_schedule(g, e.1 as int, e.2 as int), (now + REVEAL_DELAY) as u64, now);
    }
}

/// Whether entry `a` comes strictly before entry `b`.
fn entry_before(a: RevealEntry, b: RevealEntry) -> (r: bool)
    ensures
        r == entry_lt(a, b),
{
    a.0 < b.0 || (a.0 == b.0 && (a.1 < b.1 || (a.1 == b.1 && a.2 < b.2)))
}

/// Inserts `e` into `q` before the first entry greater than `e`.
fn insert_into(q: &mut Vec<RevealEntry>, e: RevealEntry)
    ensures
        final(q)@ == insert_entry(old(q)@, e),
{
    let ghost q0 = q@;
    let mut i: usize = 0;
    assert(q0.skip(0) =~= q0);
    assert(q0.take(0) + insert_entry(q0, e) =~= insert_entry(q0, e));
    while i < q.len() && !entry_before(e, q[i])
        invariant
            q@ == q0,
            0 <= i <= q0.len(),
            insert_entry(q0, e) == q0.take(i as int) + insert_entry(q0.skip(i as int), e),
        decreases q0.len() - i,
    {
        proof {
            let s = q0.skip(i as int);
            assert(s[0] == q0[i as int]);
            assert(s.drop_first() =~= q0.skip(i + 1));
            assert(q0.take(i as int) + seq![q0[i as int]] =~= q0.take(i + 1));
            assert(insert_entry(s, e) == seq![s[0]] + insert_entry(s.drop_first(), e));
            assert(q0.take(i as int) + (seq![q0[i as int]] + insert_entry(q0.skip(i + 1), e))
                =~= q0.take(i + 1) + insert_entry(q0.skip(i + 1), e));
        }
        i = i + 1;
    }
    proof {
        let s = q0.skip(i as int);
        if i < q0.len() {
            assert(s[0] == q0[i as int]);
            assert(insert_entry(s, e) == seq![e] + s);
        } else {
            assert(s.len() == 0);
            assert(insert_entry(s, e) == seq![e]);
        }
        assert(q0.take(i as int) + insert_entry(s, e) =~= q0.insert(i as int, e));
    }
    q.insert(i, e);
}

/// Steps taken when nothing is due change nothing.
proof fn lemma_steps_idle(s: RevealState, d: Seq<([[Tile; 3]; 3], String)>, now: u64, m: nat)
    requires
        !queue_due(s.queue, now),
    ensures
        reveal_steps(s, d, now, m) == s,
    decreases m,
{
    if m > 0 {
        lemma_steps_idle(s, d, now, (m - 1) as nat);
    }
}

/// When one step leaves nothing due, any positive number of steps ends there.
proof fn lemma_steps_settle(s: RevealState, d: Seq<([[Tile; 3]; 3], String)>, now: u64, m: nat)
    requires
        !queue_due(reveal_step(s, d, now).queue, now),
        m >= 1,
    ensures
        reveal_steps(s, d, now, m) == reveal_step(s, d, now),
    decreases m,
{
    if m > 1 {
        lemma_steps_settle(s, d, now, (m - 1) as nat);
    } else {
        assert(reveal_steps(s, d, now, 0) == s);
    }
}

/// A row of `n` cells of ground: the first `k` revealed, the others concealed.
pub open spec fn wave_grid(n: int, k: int) -> Seq<Seq<Tile>> {
    seq![Seq::new(n as nat, |y: int| Tile::Ground { concealed: y >= k })]
}

/// The pending reveals of a wave through such a row, started at time `t0`,
/// before its `k`-th ring: the cell `(0, k)` at `t0 + k * REVEAL_DELAY`, if it exists.
pub open spec fn wave_queue(n: int, t0: u64, k: int) -> Seq<RevealEntry> {
    if k < n {
        seq![((t0 + k * REVEAL_DELAY) as u64, 0i32, k as i32)]
    } else {
        seq![]
    }
}

/// A reveal scheduled at `t0` at one end of a corridor of concealed ground
/// spreads one cell per `REVEAL_DELAY`: with the first `k` cells revealed and
/// the `k`-th scheduled at `t0 + k * REVEAL_DELAY`, a tick before that time
/// changes nothing, and a tick at that time reveals exactly the `k`-th cell
/// and schedules the next one at `t0 + (k + 1) * REVEAL_DELAY`. For `k == 0`
/// the state is the corridor with the reveal of `(0, 0)` scheduled at `t0`.
pub proof fn lemma_corridor_wave(
    n: int,
    t0: u64,
    k: int,
    d: Seq<([[Tile; 3]; 3], String)>,
    now: u64,
    s1: RevealState,
)
    requires
        1 <= n <= i32::MAX,
        0 <= k < n,
        t0 + n * REVEAL_DELAY <= u64::MAX,
        tick_outcome((RevealState { queue: wave_queue(n, t0, k), grid: wave_grid(n, k), updates: Seq::empty() }), d, now, s1),
    ensures
        now < t0 + k * REVEAL_DELAY ==> s1.queue == wave_queue(n, t0, k) && s1.grid == wave_grid(n, k),
        now == t0 + k * REVEAL_DELAY ==> s1.queue == wave_queue(n, t0, k + 1) && s1.grid == wave_grid(n, k + 1),
{
    let s0 = RevealState { queue: wave_queue(n, t0, k), grid: wave_grid(n, k), updates: Seq::empty() };
    let m = choose|m: nat| reveal_steps(s0, d, now, m) == s1 && !queue_due(s1.queue, now);
    if now < t0 + k * REVEAL_DELAY {
        lemma_steps_idle(s0, d, now, m);
    } else if now == t0 + k * REVEAL_DELAY {
        let g0 = wave_grid(n, k);
        let g1 = wave_grid(n, k + 1);
        assert(concealed_at(g0, (0i32, k as i32)));
        assert(uncovered_grid(g0, 0, k) =~~= g1);
        let a = neighbor_if_present(g1, 0, k, 0, 1);
        let b = neighbor_if_present(g1, 0, k, 0, -1);
        let c = neighbor_if_present(g1, 0, k, 1, 0);
        let e = neighbor_if_present(g1, 0, k, -1, 0);
        let f = concealed_in(g1);
        assert(c =~= Seq::<(i32, i32)>::empty());
        assert(e =~= Seq::<(i32, i32)>::empty());
        reveal_with_fuel(Seq::filter, 2);
        Seq::filter_distributes_over_add(a + b + c, e, f);
        Seq::filter_distributes_over_add(a + b, c, f);
        Seq::filter_distributes_over_add(a, b, f);
        if k >= 1 {
            assert(b == seq![(0i32, (k - 1) as i32)]);
            assert(!f((0i32, (k - 1) as i32)));
            assert(b.filter(f) =~= Seq::<(i32, i32)>::empty());
        } else {
            assert(b.filter(f) =~= Seq::<(i32, i32)>::empty());
        }
        let next = cells_to_schedule(g1, 0, k);
        let t = (now + REVEAL_DELAY) as u64;
        if k + 1 < n {
            assert(a == seq![(0i32, (k + 1) as i32)]);
            assert(f((0i32, (k + 1) as i32)));
            assert(a.filter(f) =~= a);
            assert(next =~= a);
            assert(next.drop_last() =~= Seq::<(i32, i32)>::empty());
            assert(schedule_cells(Seq::empty(), next.drop_last(), t) == Seq::<RevealEntry>::empty());
            assert(schedule_cells(Seq::empty(), next, t) == insert_entry(Seq::empty(), (t, 0i32, (k + 1) as i32)));
        } else {
            assert(a.filter(f) =~= Seq::<(i32, i32)>::empty());
            assert(next =~= Seq::<(i32, i32)>::empty());
        }
        assert(s0.queue.drop_first() =~= Seq::<RevealEntry>::empty());
        let s2 = reveal_step(s0, d, now);
        assert(s2.grid == g1);
        assert(s2.queue =~= wave_queue(n, t0, k + 1));
        if m == 0 {
            assert(queue_due(s0.queue, now));
        }
        lemma_steps_settle(s0, d, now, m);
    }
}

/// Whether the cell `p` of `grid` holds concealed ground.
fn is_concealed(grid: &LevelGrid, p: (i32, i32)) -> (r: bool)
    ensures
        r == concealed_at(grid@, p),
{
    match grid.get(p.0, p.1) {
        Some(Tile::Ground { concealed: true }) => true,
        _ => false,
    }
}

/// After the reveal of `(x, y)`: schedules the reveal of its concealed direct
/// neighbours at `now + REVEAL_DELAY` in `q`, and appends to `out` the
/// notifications of `cells_to_refresh`.
fn spread_from(
    q: &mut Vec<RevealEntry>,
    grid: &LevelGrid,
    x: i32,
    y: i32,
    now: u64,
    tile_patterns: &TilePatternMap,
    out: &mut Vec<TileUpdate>,
)
    requires
        queue_sorted(old(q)@),
        now <= u64::MAX - REVEAL_DELAY,
        !concealed_at(grid@, (x, y)),
    ensures
        final(q)@ == schedule_cells(old(q)@, cells_to_schedule(grid@, x as int, y as int), (now + REVEAL_DELAY) as u64),
        queue_sorted(final(q)@),
        updates_view(final(out)@) == updates_view(old(out)@) + updates_for(
            grid@,
            tile_patterns@,
            cells_to_refresh(grid@, x as int, y as int),
        ),
{
    let ghost g = grid@;
    let ghost q0 = q@;
    let t = now + REVEAL_DELAY;
    let direct = grid.direct_neighbors(x, y);
    let mut refresh: Vec<(i32, i32)> = Vec::new();
    let mut i: usize = 0;
    proof {
        reveal(Seq::filter);
        assert(direct@.take(0).filter(concealed_in(g)) =~= Seq::<(i32, i32)>::empty());
        assert(direct@.take(0).filter(shown_in(g)) =~= Seq::<(i32, i32)>::empty());
    }
    while i < direct.len()
        invariant
            g == grid@,
            0 <= i <= direct@.len(),
            direct@ == direct_neighbors_of(g, x as int, y as int),
            q@ == schedule_cells(q0, direct@.take(i as int).filter(concealed_in(g)), t),
            queue_sorted(q@),
            refresh@ == direct@.take(i as int).filter(shown_in(g)),
        decreases direct@.len() - i,
    {
        let p = direct[i];
        let ghost before = direct@.take(i as int);
        proof {
            reveal(Seq::filter);
        }
        assert(direct@.take(i + 1).drop_last() =~= before);
        assert(direct@.take(i + 1).last() == p);
        if is_concealed(grid, p) {
            proof {
                lemma_insert_sorted(q@, (t, p.0, p.1));
                let f = before.filter(concealed_in(g));
                assert(f.push(p).drop_last() =~= f);
            }
            insert_into(q, (t, p.0, p.1));
        } else {
            refresh.push(p);
        }
        i = i + 1;
    }
    assert(direct@.take(direct@.len() as int) =~= direct@);
    let diagonal = grid.diagonal_neighbors(x, y);
    let ghost shown_direct = refresh@;
    let mut j: usize = 0;
    assert(diagonal@.take(0).filter(shown_in(g)) =~= Seq::<(i32, i32)>::empty());
    assert(shown_direct + Seq::<(i32, i32)>::empty() =~= shown_direct);
    while j < diagonal.len()
        invariant
            g == grid@,
            0 <= j <= diagonal@.len(),
            refresh@ == shown_direct + diagonal@.take(j as int).filter(shown_in(g)),
        decreases diagonal@.len() - j,
    {
        let p = diagonal[j];
        proof {
            reveal(Seq::filter);
        }
        assert(diagonal@.take(j + 1).drop_last() =~= diagonal@.take(j as int));
        assert(diagonal@.take(j + 1).last() == p);
        if !is_concealed(grid, p) {
            refresh.push(p);
        }
        j = j + 1;
    }
    assert(diagonal@.take(diagonal@.len() as int) =~= diagonal@);
    refresh.push((x, y));
    proof {
        reveal(Seq::filter);
        let c = seq![(x, y)];
        assert(c.drop_last() =~= Seq::<(i32, i32)>::empty());
        assert(c.filter(shown_in(g)) =~= c);
        let dd = direct_neighbors_of(g, x as int, y as int);
        let dg = diagonal_neighbors_of(g, x as int, y as int);
        Seq::filter_distributes_over_add(dd + dg, c, shown_in(g));
        Seq::filter_distributes_over_add(dd, dg, shown_in(g));
        assert(refresh@ =~= cells_to_refresh(g, x as int, y as int));
    }
    grid.refresh_cells(&refresh, tile_patterns, out);
}

/// The timed reveal cascade: a queue of pending reveals ordered by time.
pub struct GroundRevealSystem {
    queue: Vec<RevealEntry>,
}

impl View for GroundRevealSystem {
    type V = Seq<RevealEntry>;

    closed spec fn view(&self) -> Seq<RevealEntry> {
        self.queue@
    }
}

impl GroundRevealSystem {
    #[verifier::type_invariant]
    closed spec fn inv(&self) -> bool {
        queue_sorted(self.queue@)
    }

    /// A scheduler with nothing pending.
    pub fn new() -> (r: GroundRevealSystem)
        ensures
            r@ == Seq::<RevealEntry>::empty(),
    {
        GroundRevealSystem { queue: Vec::new() }
    }

    /// Number of pending reveals.
    pub fn pending(&self) -> (r: usize)
        ensures
            r == self@.len(),
    {
        self.queue.len()
    }

    /// Schedules a reveal of the cell `(x, y)` at time `at`.
    pub fn schedule_reveal(&mut self, x: i32, y: i32, at: u64)
        ensures
            final(self)@ == insert_entry(old(self)@, (at, x, y)),
            queue_sorted(final(self)@),
    {
        proof {
            use_type_invariant(&*self);
            lemma_insert_sorted(self@, (at, x, y));
        }
        let mut q: Vec<RevealEntry> = Vec::new();
        std::mem::swap(&mut self.queue, &mut q);
        insert_into(&mut q, (at, x, y));
        self.queue = q;
    }

    /// Performs every reveal that is due at time `now`, earliest first, and
    /// returns the notifications of the cells whose descriptor was recomputed,
    /// in the order in which they were computed. An entry whose cell is not
    /// concealed ground is dropped without further effect.
    pub fn tick(&mut self, now: u64, grid: &mut LevelGrid, tile_patterns: &TilePatternMap) -> (r: Vec<TileUpdate>)
        requires
            now <= u64::MAX - REVEAL_DELAY,
        ensures
            tick_outcome(
                (RevealState { queue: old(self)@, grid: old(grid)@, updates: Seq::empty() }),
                tile_patterns@,
                now,
                (RevealState { queue: final(self)@, grid: final(grid)@, updates: updates_view(r@) }),
            ),
            queue_sorted(final(self)@),
    {
        proof {
            use_type_invariant(&*self);
        }
        let ghost d = tile_patterns@;
        let ghost init = RevealState { queue: self@, grid: grid@, updates: Seq::empty() };
        let mut q: Vec<RevealEntry> = Vec::new();
        std::mem::swap(&mut self.queue, &mut q);
        let mut out: Vec<TileUpdate> = Vec::new();
        let ghost mut n: nat = 0;
        assert(updates_view(out@) =~= Seq::empty());
        while q.len() > 0 && q[0].0 <= now
            invariant
                d == tile_patterns@,
                now <= u64::MAX - REVEAL_DELAY,
                queue_sorted(q@),
                reveal_steps(init, d, now, n) == (RevealState { queue: q@, grid: grid@, updates: updates_view(out@) }),
            decreases due_count(q@, now),
        {
            let ghost prev = RevealState { queue: q@, grid: grid@, updates: updates_view(out@) };
            proof {
                lemma_step_due_count(prev, d, now);
            }
            let (_, x, y) = q.remove(0);
            assert(q@ =~= prev.queue.drop_first());
            assert(queue_sorted(q@)) by {
                assert forall|a: int, b: int| 0 <= a < b < q@.len() implies !entry_lt(#[trigger] q@[b], #[trigger] q@[a]) by {
                    assert(q@[a] == prev.queue[a + 1] && q@[b] == prev.queue[b + 1]);
                }
            }
            let changed = grid.uncover_at(x, y);
            if changed {
                spread_from(&mut q, &*grid, x, y, now, tile_patterns, &mut out);
            }
            proof {
                n = n + 1;
                assert(reveal_steps(init, d, now, n) == reveal_step(prev, d, now));
            }
        }
        assert(!queue_due(q@, now));
        self.queue = q;
        out
    }
}

} // verus!
